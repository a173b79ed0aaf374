use vstd::prelude::*;
use crate::group::Group;
use crate::interop::{decode_key, status_of, Errno, NssStatus, Response};
use vstd::utf8::valid_utf8;

verus! {

/// The backend's lookup of the groups a user belongs to.
pub trait InitgroupsHooks {
    fn get_entries_by_user(user: String) -> Response<Vec<Group>>;
}

/// The ids of `groups`, in order, leaving out every `skip`.
pub open spec fn gids_except(groups: Seq<Group>, skip: u32) -> Seq<u32>
    decreases groups.len(),
{
    if groups.len() == 0 {
        seq![]
    } else {
        let rest = gids_except(groups.drop_last(), skip);
        if groups.last().gid == skip {
            rest
        } else {
            rest.push(groups.last().gid)
        }
    }
}

/// The ids kept from a prefix of `groups` are a prefix of those kept from all of them.
pub proof fn lemma_gids_except_prefix(groups: Seq<Group>, skip: u32, i: int)
    requires
        0 <= i <= groups.len(),
    ensures
        gids_except(groups.take(i), skip).len() <= gids_except(groups, skip).len(),
        gids_except(groups, skip).take(gids_except(groups.take(i), skip).len() as int) == gids_except(groups.take(i), skip),
    decreases groups.len(),
{
    if i == groups.len() {
        assert(groups.take(i) =~= groups);
        assert(gids_except(groups, skip).take(gids_except(groups, skip).len() as int) =~= gids_except(groups, skip));
    } else {
        lemma_gids_except_prefix(groups.drop_last(), skip, i);
        assert(groups.drop_last().take(i) =~= groups.take(i));
        let whole = gids_except(groups, skip);
        let rest = gids_except(groups.drop_last(), skip);
        let part = gids_except(groups.take(i), skip);
        assert(whole.take(part.len() as int) =~= rest.take(part.len() as int));
    }
}

/// The group ids to add for a user: those of `groups` other than `skipgroup`,
/// in order, at most `limit - start` of them.
pub fn gids_to_add(groups: &[Group], skipgroup: u32, start: usize, limit: usize) -> (r: Vec<u32>)
    requires
        start <= limit,
    ensures
        r@ == gids_except(groups@, skipgroup).take(
            if gids_except(groups@, skipgroup).len() <= limit - start { gids_except(groups@, skipgroup).len() as int } else { limit - start },
        ),
{
    let room = limit - start;
    let n = groups.len();
    let mut r: Vec<u32> = Vec::new();
    let mut i: usize = 0;
    while i < n && r.len() < room
        invariant
            i <= n,
            n == groups@.len(),
            r@.len() <= room,
            r@ == gids_except(groups@.take(i as int), skipgroup),
        decreases n - i,
    {
        assert(groups@.take(i + 1).drop_last() =~= groups@.take(i as int));
        let g = groups[i].gid;
        if g != skipgroup {
            r.push(g);
        }
        i = i + 1;
    }
    proof {
        lemma_gids_except_prefix(groups@, skipgroup, i as int);
        if i == n {
            assert(groups@.take(i as int) =~= groups@);
            assert(r@.take(r@.len() as int) =~= r@);
        }
    }
    r
}

/// What the lookup for `initgroups` gives, from the backend's answer: on
/// success the ids to add, as `gids_to_add` picks them; otherwise its status,
/// no ids and `ENOENT` for `errno`. The `errno` is `None` when it is left alone.
pub fn groups_outcome(response: Response<Vec<Group>>, skipgroup: u32, start: usize, limit: usize) -> (r: (NssStatus, Option<Errno>, Vec<u32>))
    requires
        start <= limit,
    ensures
        r.0 == status_of(response),
        match response {
            Response::Success(gs) => r.1 is None && r.2@ == gids_except(gs@, skipgroup).take(
                if gids_except(gs@, skipgroup).len() <= limit - start { gids_except(gs@, skipgroup).len() as int } else { limit - start },
            ),
            _ => r.1 == Some(Errno::NoEntry) && r.2@.len() == 0,
        },
{
    match response {
        Response::Success(groups) => (NssStatus::Success, None, gids_to_add(groups.as_slice(), skipgroup, start, limit)),
        other => (other.to_status(), Some(Errno::NoEntry), Vec::new()),
    }
}

/// The `initgroups` lookup through the backend `H` for the user named by the
/// bytes `user`. A name that is not valid UTF-8 is not found, with `ENOENT`,
/// and the backend is not asked.
pub fn get_groups_of_user<H: InitgroupsHooks>(user: &[u8], skipgroup: u32, start: usize, limit: usize) -> (r: (NssStatus, Option<Errno>, Vec<u32>))
    requires
        start <= limit,
    ensures
        !valid_utf8(user@) ==> r.0 == NssStatus::NotFound && r.1 == Some(Errno::NoEntry) && r.2@.len() == 0,
        r.0 != NssStatus::Success ==> r.1 == Some(Errno::NoEntry) && r.2@.len() == 0,
        r.2@.len() <= limit - start,
{
    match decode_key(user) {
        Some(name) => groups_outcome(H::get_entries_by_user(name), skipgroup, start, limit),
        None => (NssStatus::NotFound, Some(Errno::NoEntry), Vec::new()),
    }
}

} // verus!
