use vstd::prelude::*;
use crate::buffer::{all_nul_free, c_bytes, holds_cstr, holds_strs, str_offset, str_views, strs_needed, strs_size, views, BufferError, CBuffer};
use crate::interop::{decode_key, handed_over, Errno, NssStatus, Response, ToC};
use vstd::utf8::valid_utf8;

verus! {

/// A group record.
#[derive(Clone, Debug)]
pub struct Group {
    pub name: String,
    pub passwd: String,
    pub gid: u32,
    pub members: Vec<String>,
}

/// The C `struct group`; `members` holds the address of a null-terminated
/// array of string addresses in the caller's buffer.
#[derive(Clone, Copy, Debug, PartialEq, Eq, Structural)]
pub struct CGroup {
    pub name: u64,
    pub passwd: u64,
    pub gid: u32,
    pub members: u64,
}

impl Group {
    /// The string fields before the member list, in the order they are packed.
    pub open spec fn strings(&self) -> Seq<Seq<char>> {
        seq![self.name@, self.passwd@]
    }
}

impl ToC<CGroup> for Group {
    open spec fn c_compatible(&self) -> bool {
        all_nul_free(self.strings()) && all_nul_free(views(self.members@))
    }

    open spec fn c_size(&self) -> nat {
        strs_size(self.strings()) + strs_needed(views(self.members@))
    }

    open spec fn c_holds(&self, c: CGroup, bytes: Seq<u8>, base: u64) -> bool {
        &&& holds_cstr(bytes, c.name - base, c_bytes(self.name@))
        &&& holds_cstr(bytes, c.passwd - base, c_bytes(self.passwd@))
        &&& c.gid == self.gid
        &&& holds_strs(bytes, base, c.members - base, views(self.members@))
    }

    fn to_c(&self, buffer: &mut CBuffer) -> (r: Result<CGroup, BufferError>) {
        let ghost ms = views(self.members@);
        let ghost orig = *buffer;
        if !crate::buffer::all_are_nul_free(self.members.as_slice()) {
            return Err(BufferError::InteriorNul);
        }
        let fields = vec![self.name.as_str(), self.passwd.as_str()];
        assert(str_views(fields@) =~= self.strings());
        let start = buffer.position();
        let a = match buffer.write_all(fields.as_slice()) {
            Ok(a) => a,
            Err(e) => return Err(e),
        };
        let ghost ss = self.strings();
        assert(str_offset(ss, start as int, 0) < buffer.capacity());
        assert(str_offset(ss, start as int, 1) < buffer.capacity());
        let ghost mid = buffer.bytes();
        let members = match buffer.write_strs(self.members.as_slice()) {
            Ok(m) => m,
            Err(e) => {
                buffer.rewind_to(start);
                return Err(e);
            },
        };
        proof {
            crate::buffer::lemma_cstr_kept(mid, buffer.bytes(), start + strs_size(ss), buffer.pos() as int, str_offset(ss, start as int, 0), c_bytes(self.name@));
            crate::buffer::lemma_cstr_kept(mid, buffer.bytes(), start + strs_size(ss), buffer.pos() as int, str_offset(ss, start as int, 1), c_bytes(self.passwd@));
        }
        Ok(CGroup { name: a[0], passwd: a[1], gid: self.gid, members })
    }
}

/// The backend's group lookups.
pub trait GroupHooks {
    fn get_all_entries() -> Response<Vec<Group>>;

    fn get_entry_by_gid(gid: u32) -> Response<Group>;

    fn get_entry_by_name(name: String) -> Response<Group>;
}

/// Lookup by name through the backend `H`, packed into `buffer`. A name whose
/// bytes are not valid UTF-8 is not found, and the backend is not asked.
pub fn get_entry_by_name<H: GroupHooks>(name: &[u8], buffer: &mut CBuffer) -> (r: (NssStatus, Errno, Option<CGroup>))
    requires
        old(buffer).wf(),
    ensures
        final(buffer).wf(),
        final(buffer).base() == old(buffer).base(),
        r.2 is Some <==> r.0 == NssStatus::Success,
        !valid_utf8(name@) ==> handed_over(Response::<Group>::NotFound, *old(buffer), *final(buffer), r),
        exists|resp: Response<Group>| #[trigger] handed_over(resp, *old(buffer), *final(buffer), r),
{
    let response = match decode_key(name) {
        Some(key) => H::get_entry_by_name(key),
        None => Response::NotFound,
    };
    let ghost before = *old(buffer);
    let r = response.to_c(buffer);
    assert(handed_over(response, before, *buffer, r));
    r
}

} // verus!
