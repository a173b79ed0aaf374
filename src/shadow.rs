use vstd::prelude::*;
use crate::buffer::{all_nul_free, c_bytes, holds_cstr, str_offset, str_views, strs_size, BufferError, CBuffer};
use crate::interop::{decode_key, handed_over, Errno, NssStatus, Response, ToC};
use vstd::utf8::valid_utf8;

verus! {

/// A shadow password record.
#[derive(Clone, Debug)]
pub struct Shadow {
    pub name: String,
    pub passwd: String,
    pub last_change: isize,
    pub change_min_days: isize,
    pub change_max_days: isize,
    pub change_warn_days: isize,
    pub change_inactive_days: isize,
    pub expire_date: isize,
    pub reserved: usize,
}

/// The C `struct spwd`; string fields hold addresses into the caller's buffer.
#[derive(Clone, Copy, Debug, PartialEq, Eq, Structural)]
pub struct CShadow {
    pub name: u64,
    pub passwd: u64,
    pub last_change: i64,
    pub change_min_days: i64,
    pub change_max_days: i64,
    pub change_warn_days: i64,
    pub change_inactive_days: i64,
    pub expire_date: i64,
    pub reserved: u64,
}

impl Shadow {
    /// The string fields, in the order they are packed.
    pub open spec fn strings(&self) -> Seq<Seq<char>> {
        seq![self.name@, self.passwd@]
    }
}

impl ToC<CShadow> for Shadow {
    open spec fn c_compatible(&self) -> bool {
        all_nul_free(self.strings())
    }

    open spec fn c_size(&self) -> nat {
        strs_size(self.strings())
    }

    open spec fn c_holds(&self, c: CShadow, bytes: Seq<u8>, base: u64) -> bool {
        &&& holds_cstr(bytes, c.name - base, c_bytes(self.name@))
        &&& holds_cstr(bytes, c.passwd - base, c_bytes(self.passwd@))
        &&& c.last_change == self.last_change
        &&& c.change_min_days == self.change_min_days
        &&& c.change_max_days == self.change_max_days
        &&& c.change_warn_days == self.change_warn_days
        &&& c.change_inactive_days == self.change_inactive_days
        &&& c.expire_date == self.expire_date
        &&& c.reserved == self.reserved
    }

    fn to_c(&self, buffer: &mut CBuffer) -> (r: Result<CShadow, BufferError>) {
        let fields = vec![self.name.as_str(), self.passwd.as_str()];
        assert(str_views(fields@) =~= self.strings());
        let ghost start = buffer.pos() as int;
        match buffer.write_all(fields.as_slice()) {
            Ok(a) => {
                let ghost ss = self.strings();
                assert(str_offset(ss, start, 0) < buffer.capacity());
                assert(str_offset(ss, start, 1) < buffer.capacity());
                Ok(CShadow {
                    name: a[0],
                    passwd: a[1],
                    last_change: self.last_change as i64,
                    change_min_days: self.change_min_days as i64,
                    change_max_days: self.change_max_days as i64,
                    change_warn_days: self.change_warn_days as i64,
                    change_inactive_days: self.change_inactive_days as i64,
                    expire_date: self.expire_date as i64,
                    reserved: self.reserved as u64,
                })
            },
            Err(e) => Err(e),
        }
    }
}

/// The backend's shadow lookups.
pub trait ShadowHooks {
    fn get_all_entries() -> Response<Vec<Shadow>>;

    fn get_entry_by_name(name: String) -> Response<Shadow>;
}

/// Lookup by name through the backend `H`, packed into `buffer`. A name whose
/// bytes are not valid UTF-8 is not found, and the backend is not asked.
pub fn get_entry_by_name<H: ShadowHooks>(name: &[u8], buffer: &mut CBuffer) -> (r: (NssStatus, Errno, Option<CShadow>))
    requires
        old(buffer).wf(),
    ensures
        final(buffer).wf(),
        final(buffer).base() == old(buffer).base(),
        r.2 is Some <==> r.0 == NssStatus::Success,
        !valid_utf8(name@) ==> handed_over(Response::<Shadow>::NotFound, *old(buffer), *final(buffer), r),
        exists|resp: Response<Shadow>| #[trigger] handed_over(resp, *old(buffer), *final(buffer), r),
{
    let response = match decode_key(name) {
        Some(key) => H::get_entry_by_name(key),
        None => Response::NotFound,
    };
    let ghost before = *old(buffer);
    let r = response.to_c(buffer);
    assert(handed_over(response, before, *buffer, r));
    r
}

} // verus!
