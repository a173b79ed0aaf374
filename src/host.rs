use vstd::prelude::*;
use crate::buffer::{all_nul_free, array_views, blocks_needed, c_bytes, holds_blocks, holds_cstr, holds_strs, nul_free, strs_needed, views, BufferError, CBuffer};
use crate::interop::{decode_key, handed_over, Errno, NssStatus, Response, ToC};
use vstd::utf8::{decode_utf8, valid_utf8};

verus! {

/// Address family of a host lookup or of a host's addresses.
#[derive(Debug, Clone, Copy, PartialEq, Eq, Structural)]
pub enum AddressFamily {
    IPv4,
    IPv6,
    Unspecified,
}

/// A host's addresses: all IPv4 or all IPv6, as raw bytes in network order.
#[derive(Clone, Debug, PartialEq, Eq)]
pub enum Addresses {
    V4(Vec<[u8; 4]>),
    V6(Vec<[u8; 16]>),
}

/// An IP address as raw bytes in network order.
#[derive(Clone, Copy, Debug, PartialEq, Eq)]
pub enum IpAddr {
    V4([u8; 4]),
    V6([u8; 16]),
}

/// A host record.
#[derive(Clone, Debug)]
pub struct Host {
    pub name: String,
    pub aliases: Vec<String>,
    pub addresses: Addresses,
}

/// The C `struct hostent`; `aliases` and `addr_list` hold addresses of
/// null-terminated pointer arrays in the caller's buffer.
#[derive(Clone, Copy, Debug, PartialEq, Eq, Structural)]
pub struct CHost {
    pub name: u64,
    pub aliases: u64,
    pub addrtype: AddressFamily,
    pub length: i32,
    pub addr_list: u64,
}

/// The legacy `h_errno` channel of host lookups.
#[derive(Debug, Clone, Copy, PartialEq, Eq, Structural)]
pub enum Herrno {
    NetDbInternal,
    NetDbSuccess,
    TryAgain,
    NoRecovery,
    NoData,
}

/// The `h_errno` value that goes with a status of a lookup by name.
pub open spec fn herrno_of(s: NssStatus) -> Herrno {
    match s {
        NssStatus::Success => Herrno::NetDbSuccess,
        NssStatus::TryAgain => Herrno::TryAgain,
        NssStatus::Unavail => Herrno::NoRecovery,
        NssStatus::NotFound => Herrno::NoData,
        NssStatus::Return => Herrno::NetDbInternal,
    }
}

/// The `h_errno` value that goes with `s`.
pub fn herrno_for(s: NssStatus) -> (h: Herrno)
    ensures
        h == herrno_of(s),
{
    match s {
        NssStatus::Success => Herrno::NetDbSuccess,
        NssStatus::TryAgain => Herrno::TryAgain,
        NssStatus::Unavail => Herrno::NoRecovery,
        NssStatus::NotFound => Herrno::NoData,
        NssStatus::Return => Herrno::NetDbInternal,
    }
}

impl Addresses {
    /// The addresses as byte sequences.
    pub open spec fn blocks(&self) -> Seq<Seq<u8>> {
        match self {
            Addresses::V4(a) => array_views(a@),
            Addresses::V6(a) => array_views(a@),
        }
    }

    /// Bytes per address.
    pub open spec fn width(&self) -> nat {
        match self {
            Addresses::V4(_) => 4,
            Addresses::V6(_) => 16,
        }
    }

    pub open spec fn family(&self) -> AddressFamily {
        match self {
            Addresses::V4(_) => AddressFamily::IPv4,
            Addresses::V6(_) => AddressFamily::IPv6,
        }
    }
}

impl ToC<CHost> for Host {
    open spec fn c_compatible(&self) -> bool {
        nul_free(self.name@) && all_nul_free(views(self.aliases@))
    }

    open spec fn c_size(&self) -> nat {
        c_bytes(self.name@).len() + 1 + strs_needed(views(self.aliases@))
            + blocks_needed(self.addresses.blocks().len(), self.addresses.width())
    }

    open spec fn c_holds(&self, c: CHost, bytes: Seq<u8>, base: u64) -> bool {
        &&& holds_cstr(bytes, c.name - base, c_bytes(self.name@))
        &&& holds_strs(bytes, base, c.aliases - base, views(self.aliases@))
        &&& c.addrtype == self.addresses.family()
        &&& c.length == self.addresses.width()
        &&& holds_blocks(bytes, base, c.addr_list - base, self.addresses.blocks(), self.addresses.width())
    }

    fn to_c(&self, buffer: &mut CBuffer) -> (r: Result<CHost, BufferError>) {
        if !crate::buffer::is_nul_free(self.name.as_str()) {
            return Err(BufferError::InteriorNul);
        }
        if !crate::buffer::all_are_nul_free(self.aliases.as_slice()) {
            return Err(BufferError::InteriorNul);
        }
        let start = buffer.position();
        let name = match buffer.write_str(self.name.as_str()) {
            Ok(a) => a,
            Err(e) => return Err(e),
        };
        let ghost after_name = buffer.bytes();
        let ghost name_end = buffer.pos() as int;
        let aliases = match buffer.write_strs(self.aliases.as_slice()) {
            Ok(a) => a,
            Err(e) => {
                buffer.rewind_to(start);
                return Err(e);
            },
        };
        let ghost after_aliases = buffer.bytes();
        let ghost aliases_end = buffer.pos() as int;
        let (addrtype, length, list) = match &self.addresses {
            Addresses::V4(addrs) => (AddressFamily::IPv4, 4i32, buffer.write_blocks(addrs.as_slice())),
            Addresses::V6(addrs) => (AddressFamily::IPv6, 16i32, buffer.write_blocks(addrs.as_slice())),
        };
        let addr_list = match list {
            Ok(a) => a,
            Err(e) => {
                buffer.rewind_to(start);
                return Err(e);
            },
        };
        proof {
            crate::buffer::lemma_cstr_kept(after_name, after_aliases, name_end, aliases_end, start as int, c_bytes(self.name@));
            crate::buffer::lemma_cstr_kept(after_aliases, buffer.bytes(), aliases_end, buffer.pos() as int, start as int, c_bytes(self.name@));
            crate::buffer::lemma_strs_kept(after_aliases, buffer.bytes(), aliases_end, buffer.pos() as int, buffer.base(), name_end, views(self.aliases@));
        }
        Ok(CHost { name, aliases, addrtype, length, addr_list })
    }
}

/// The backend's host lookups.
pub trait HostHooks {
    /// `r` is an answer of the backend to a lookup of `name` in `family`. A
    /// backend that says nothing of its answers may give any.
    open spec fn answers_name(name: Seq<char>, family: AddressFamily, r: Response<Host>) -> bool {
        true
    }

    /// `r` is an answer of the backend to a lookup of the address with bytes
    /// `octets` in `family`. A backend that says nothing of its answers may give any.
    open spec fn answers_addr(octets: Seq<u8>, family: AddressFamily, r: Response<Host>) -> bool {
        true
    }

    fn get_all_entries() -> Response<Vec<Host>>;

    fn get_host_by_name(name: &str, family: AddressFamily) -> (r: Response<Host>)
        ensures
            Self::answers_name(name@, family, r),
    ;

    fn get_host_by_addr(addr: IpAddr) -> (r: Response<Host>)
        ensures
            Self::answers_addr(addr.octets(), addr.family(), r),
    ;
}

impl IpAddr {
    pub open spec fn family(&self) -> AddressFamily {
        match self {
            IpAddr::V4(_) => AddressFamily::IPv4,
            IpAddr::V6(_) => AddressFamily::IPv6,
        }
    }

    /// The address's bytes, in network order.
    pub open spec fn octets(&self) -> Seq<u8> {
        match self {
            IpAddr::V4(a) => a@,
            IpAddr::V6(a) => a@,
        }
    }
}

/// `bytes` and `family` agree: 4 bytes for IPv4 or 16 for IPv6.
pub open spec fn address_matches(bytes: Seq<u8>, family: AddressFamily) -> bool {
    (bytes.len() == 4 && family == AddressFamily::IPv4) || (bytes.len() == 16 && family == AddressFamily::IPv6)
}

/// The address that a lookup by address asks for, when the length of `bytes`
/// agrees with `family`; `None` for any other pairing.
pub fn address_from(bytes: &[u8], family: AddressFamily) -> (r: Option<IpAddr>)
    ensures
        r is Some <==> address_matches(bytes@, family),
        r is Some ==> r->Some_0.family() == family && r->Some_0.octets() == bytes@,
{
    let b = bytes;
    if b.len() == 4 && family == AddressFamily::IPv4 {
        let a: [u8; 4] = [b[0], b[1], b[2], b[3]];
        assert(a@ =~= b@);
        Some(IpAddr::V4(a))
    } else if b.len() == 16 && family == AddressFamily::IPv6 {
        let a: [u8; 16] = [
            b[0], b[1], b[2], b[3], b[4], b[5], b[6], b[7],
            b[8], b[9], b[10], b[11], b[12], b[13], b[14], b[15],
        ];
        assert(a@ =~= b@);
        Some(IpAddr::V6(a))
    } else {
        None
    }
}

/// Whether a lookup by name for `family`, whose IPv4 answer was `first`, goes on
/// to ask for IPv6: only an unspecified family does, and only after not-found.
pub fn falls_back_to_ipv6<T>(family: AddressFamily, first: &Response<T>) -> (r: bool)
    ensures
        r == (family == AddressFamily::Unspecified && *first is NotFound),
{
    family == AddressFamily::Unspecified && matches!(first, Response::NotFound)
}

/// `r` is a result of resolving `name` in `family` through the backend `H`: a
/// given family is asked as it is; an unspecified one is asked as IPv4, and
/// only when that is not found as IPv6, whose answer is then the result.
pub open spec fn resolves<H: HostHooks>(name: Seq<char>, family: AddressFamily, r: Response<Host>) -> bool {
    if family != AddressFamily::Unspecified {
        H::answers_name(name, family, r)
    } else {
        (H::answers_name(name, AddressFamily::IPv4, r) && !(r is NotFound))
            || (H::answers_name(name, AddressFamily::IPv6, r)
                && H::answers_name(name, AddressFamily::IPv4, Response::<Host>::NotFound))
    }
}

/// Asks the backend `H` for `name` in `family`. An unspecified family asks for
/// IPv4 first and then, only if that is not found, for IPv6; any other answer
/// to the IPv4 query is the result.
pub fn resolve_by_name<H: HostHooks>(name: &str, family: AddressFamily) -> (r: Response<Host>)
    ensures
        resolves::<H>(name@, family, r),
{
    let ask = match family {
        AddressFamily::Unspecified => AddressFamily::IPv4,
        f => f,
    };
    let first = H::get_host_by_name(name, ask);
    if falls_back_to_ipv6(family, &first) {
        H::get_host_by_name(name, AddressFamily::IPv6)
    } else {
        first
    }
}

/// Lookup by name through the backend `H`, packed into `buffer`, with the
/// `h_errno` value that goes with the status. `family` is `None` for a family
/// that is none of IPv4, IPv6 or unspecified: the lookup is then unavailable. A
/// name whose bytes are not valid UTF-8 is not found. In both cases the backend
/// is not asked.
pub fn get_host_by_name<H: HostHooks>(name: &[u8], family: Option<AddressFamily>, buffer: &mut CBuffer) -> (r: (NssStatus, Errno, Herrno, Option<CHost>))
    requires
        old(buffer).wf(),
    ensures
        final(buffer).wf(),
        final(buffer).base() == old(buffer).base(),
        r.3 is Some <==> r.0 == NssStatus::Success,
        r.2 == herrno_of(r.0),
        !valid_utf8(name@) ==> r == (NssStatus::NotFound, Errno::NoEntry, Herrno::NoData, None::<CHost>) && *final(buffer) == *old(buffer),
        valid_utf8(name@) && family is None ==> r == (NssStatus::Unavail, Errno::NoEntry, Herrno::NoRecovery, None::<CHost>) && *final(buffer) == *old(buffer),
        valid_utf8(name@) && family is Some ==> exists|resp: Response<Host>|
            resolves::<H>(decode_utf8(name@), family->Some_0, resp)
            && #[trigger] handed_over(resp, *old(buffer), *final(buffer), (r.0, r.1, r.3)),
{
    let key = match decode_key(name) {
        Some(k) => k,
        None => return (NssStatus::NotFound, Errno::NoEntry, Herrno::NoData, None),
    };
    let response = match family {
        Some(f) => resolve_by_name::<H>(key.as_str(), f),
        None => Response::Unavail,
    };
    let ghost before = *old(buffer);
    let (status, errno, record) = response.to_c(buffer);
    assert(handed_over(response, before, *buffer, (status, errno, record)));
    (status, errno, herrno_for(status), record)
}

/// Lookup by address through the backend `H`, packed into `buffer`. When the
/// length of `addr` disagrees with `family` the address is not found and the
/// backend is not asked. `h_errno` is `NetDbSuccess` when the backend found the
/// host and `NetDbInternal` otherwise.
pub fn get_host_by_addr<H: HostHooks>(addr: &[u8], family: AddressFamily, buffer: &mut CBuffer) -> (r: (NssStatus, Errno, Herrno, Option<CHost>))
    requires
        old(buffer).wf(),
    ensures
        final(buffer).wf(),
        final(buffer).base() == old(buffer).base(),
        r.3 is Some <==> r.0 == NssStatus::Success,
        r.2 == Herrno::NetDbSuccess || r.2 == Herrno::NetDbInternal,
        r.0 == NssStatus::Success ==> r.2 == Herrno::NetDbSuccess,
        !address_matches(addr@, family) ==> r == (NssStatus::NotFound, Errno::NoEntry, Herrno::NetDbInternal, None::<CHost>) && *final(buffer) == *old(buffer),
        address_matches(addr@, family) ==> exists|resp: Response<Host>|
            H::answers_addr(addr@, family, resp)
            && #[trigger] handed_over(resp, *old(buffer), *final(buffer), (r.0, r.1, r.3))
            && r.2 == if resp is Success { Herrno::NetDbSuccess } else { Herrno::NetDbInternal },
{
    let a = match address_from(addr, family) {
        Some(a) => a,
        None => return (NssStatus::NotFound, Errno::NoEntry, Herrno::NetDbInternal, None),
    };
    let response = H::get_host_by_addr(a);
    let herrno = match response {
        Response::Success(..) => Herrno::NetDbSuccess,
        _ => Herrno::NetDbInternal,
    };
    let ghost before = *old(buffer);
    let (status, errno, record) = response.to_c(buffer);
    assert(handed_over(response, before, *buffer, (status, errno, record)));
    (status, errno, herrno, record)
}

} // verus!
