use vstd::prelude::*;
use crate::buffer::{all_nul_free, c_bytes, holds_cstr, str_offset, str_views, strs_size, BufferError, CBuffer};
use crate::interop::{decode_key, handed_over, Errno, NssStatus, Response, ToC};
use vstd::utf8::valid_utf8;

verus! {

/// An account record.
#[derive(Clone, Debug)]
pub struct Passwd {
    pub name: String,
    pub passwd: String,
    pub uid: u32,
    pub gid: u32,
    pub gecos: String,
    pub dir: String,
    pub shell: String,
}

/// The C `struct passwd`; string fields hold addresses into the caller's buffer.
#[derive(Clone, Copy, Debug, PartialEq, Eq, Structural)]
pub struct CPasswd {
    pub name: u64,
    pub passwd: u64,
    pub uid: u32,
    pub gid: u32,
    pub gecos: u64,
    pub dir: u64,
    pub shell: u64,
}

impl Passwd {
    /// The string fields, in the order they are packed.
    pub open spec fn strings(&self) -> Seq<Seq<char>> {
        seq![self.name@, self.passwd@, self.gecos@, self.dir@, self.shell@]
    }
}

impl ToC<CPasswd> for Passwd {
    open spec fn c_compatible(&self) -> bool {
        all_nul_free(self.strings())
    }

    open spec fn c_size(&self) -> nat {
        strs_size(self.strings())
    }

    open spec fn c_holds(&self, c: CPasswd, bytes: Seq<u8>, base: u64) -> bool {
        &&& holds_cstr(bytes, c.name - base, c_bytes(self.name@))
        &&& holds_cstr(bytes, c.passwd - base, c_bytes(self.passwd@))
        &&& c.uid == self.uid
        &&& c.gid == self.gid
        &&& holds_cstr(bytes, c.gecos - base, c_bytes(self.gecos@))
        &&& holds_cstr(bytes, c.dir - base, c_bytes(self.dir@))
        &&& holds_cstr(bytes, c.shell - base, c_bytes(self.shell@))
    }

    fn to_c(&self, buffer: &mut CBuffer) -> (r: Result<CPasswd, BufferError>) {
        let fields = vec![
            self.name.as_str(),
            self.passwd.as_str(),
            self.gecos.as_str(),
            self.dir.as_str(),
            self.shell.as_str(),
        ];
        assert(str_views(fields@) =~= self.strings());
        let ghost start = buffer.pos() as int;
        match buffer.write_all(fields.as_slice()) {
            Ok(a) => {
                let ghost ss = self.strings();
                assert(str_offset(ss, start, 0) < buffer.capacity());
                assert(str_offset(ss, start, 1) < buffer.capacity());
                assert(str_offset(ss, start, 2) < buffer.capacity());
                assert(str_offset(ss, start, 3) < buffer.capacity());
                assert(str_offset(ss, start, 4) < buffer.capacity());
                Ok(CPasswd {
                    name: a[0],
                    passwd: a[1],
                    uid: self.uid,
                    gid: self.gid,
                    gecos: a[2],
                    dir: a[3],
                    shell: a[4],
                })
            },
            Err(e) => Err(e),
        }
    }
}

/// The backend's account lookups.
pub trait PasswdHooks {
    fn get_all_entries() -> Response<Vec<Passwd>>;

    fn get_entry_by_uid(uid: u32) -> Response<Passwd>;

    fn get_entry_by_name(name: String) -> Response<Passwd>;
}

/// Lookup by name through the backend `H`, packed into `buffer`. A name whose
/// bytes are not valid UTF-8 is not found, and the backend is not asked.
pub fn get_entry_by_name<H: PasswdHooks>(name: &[u8], buffer: &mut CBuffer) -> (r: (NssStatus, Errno, Option<CPasswd>))
    requires
        old(buffer).wf(),
    ensures
        final(buffer).wf(),
        final(buffer).base() == old(buffer).base(),
        r.2 is Some <==> r.0 == NssStatus::Success,
        !valid_utf8(name@) ==> handed_over(Response::<Passwd>::NotFound, *old(buffer), *final(buffer), r),
        exists|resp: Response<Passwd>| #[trigger] handed_over(resp, *old(buffer), *final(buffer), r),
{
    let response = match decode_key(name) {
        Some(key) => H::get_entry_by_name(key),
        None => Response::NotFound,
    };
    let ghost before = *old(buffer);
    let r = response.to_c(buffer);
    assert(handed_over(response, before, *buffer, r));
    r
}

} // verus!
