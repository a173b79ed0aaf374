use vstd::prelude::*;
use crate::group::{Group, GroupHooks};
use crate::interop::Response;
use crate::passwd::{Passwd, PasswdHooks};
use crate::shadow::{Shadow, ShadowHooks};
use core::marker::PhantomData;
use vstd::string::StrSliceExecFns;

verus! {

/// The gRPC status code for "not found".
pub const GRPC_NOT_FOUND: i32 = 5;

/// A user as the authd service describes it.
#[derive(Clone, Debug)]
pub struct User {
    pub name: String,
    pub uid: u32,
    pub gid: u32,
    pub gecos: String,
    pub homedir: String,
    pub shell: String,
}

/// A group as the authd service describes it.
#[derive(Clone, Debug)]
pub struct AuthdGroup {
    pub name: String,
    pub passwd: String,
    pub gid: u32,
    pub members: Vec<String>,
}

/// The calls that the authd service answers. A failed call gives the gRPC
/// status code it failed with.
pub trait AuthdService {
    fn list_users() -> Result<Vec<User>, i32>;

    fn get_user_by_id(uid: u32) -> Result<User, i32>;

    /// `r` is an answer of the service to a lookup of the user `name`, with the
    /// pre-check asked for or not.
    /// A service that says nothing of its answers may give any.
    open spec fn user_named(name: Seq<char>, should_pre_check: bool, r: Result<User, i32>) -> bool {
        true
    }

    fn get_user_by_name(name: String, should_pre_check: bool) -> (r: Result<User, i32>)
        ensures
            Self::user_named(name@, should_pre_check, r),
    ;

    fn list_groups() -> Result<Vec<AuthdGroup>, i32>;

    fn get_group_by_id(gid: u32) -> Result<AuthdGroup, i32>;

    fn get_group_by_name(name: String) -> Result<AuthdGroup, i32>;

    /// Whether a lookup of a user by name asks authd to check the user first.
    fn should_pre_check() -> bool;
}

/// The account hooks backed by the authd service `S`.
pub struct AuthdPasswdHooks<S> {
    service: PhantomData<S>,
}

/// The group hooks backed by the authd service `S`.
pub struct AuthdGroupHooks<S> {
    service: PhantomData<S>,
}

/// The shadow hooks backed by the authd service `S`.
pub struct AuthdShadowHooks<S> {
    service: PhantomData<S>,
}

impl<S: AuthdService> PasswdHooks for AuthdPasswdHooks<S> {
    fn get_all_entries() -> Response<Vec<Passwd>> {
        passwd_entries_response(S::list_users())
    }

    fn get_entry_by_uid(uid: u32) -> Response<Passwd> {
        passwd_entry_response(S::get_user_by_id(uid))
    }

    fn get_entry_by_name(name: String) -> Response<Passwd> {
        passwd_by_name::<S>(name)
    }
}

impl<S: AuthdService> GroupHooks for AuthdGroupHooks<S> {
    fn get_all_entries() -> Response<Vec<Group>> {
        group_entries_response(S::list_groups())
    }

    fn get_entry_by_gid(gid: u32) -> Response<Group> {
        group_entry_response(S::get_group_by_id(gid))
    }

    fn get_entry_by_name(name: String) -> Response<Group> {
        group_entry_response(S::get_group_by_name(name))
    }
}

impl<S: AuthdService> ShadowHooks for AuthdShadowHooks<S> {
    fn get_all_entries() -> Response<Vec<Shadow>> {
        shadow_entries_response(S::list_users())
    }

    fn get_entry_by_name(name: String) -> Response<Shadow> {
        shadow_by_name::<S>(name)
    }
}

/// `r` is the response for a call that failed with gRPC status `code`.
pub open spec fn failure_response<T>(code: i32, r: Response<T>) -> bool {
    if code == GRPC_NOT_FOUND {
        r is NotFound
    } else {
        r is Unavail
    }
}

/// `r` is the response for the service's answer `res` to a user lookup.
pub open spec fn passwd_response_of(res: Result<User, i32>, r: Response<Passwd>) -> bool {
    match res {
        Ok(u) => r is Success && is_passwd_entry_of(r->Success_0, u),
        Err(code) => failure_response(code, r),
    }
}

/// `r` is the shadow response for the service's answer `res` to a user lookup.
pub open spec fn shadow_response_of(res: Result<User, i32>, r: Response<Shadow>) -> bool {
    match res {
        Ok(u) => r is Success && is_shadow_entry_of(r->Success_0, u.name@),
        Err(code) => failure_response(code, r),
    }
}

/// The account response for the service's answer to a user lookup.
pub fn passwd_entry_response(res: Result<User, i32>) -> (r: Response<Passwd>)
    ensures
        passwd_response_of(res, r),
{
    match res {
        Ok(user) => Response::Success(user_to_passwd_entry(user)),
        Err(code) => grpc_status_to_nss_response(code),
    }
}

/// The account response for the service's list of users.
pub fn passwd_entries_response(res: Result<Vec<User>, i32>) -> (r: Response<Vec<Passwd>>)
    ensures
        match res {
            Ok(us) => r is Success && r->Success_0@.len() == us@.len()
                && forall|i: int| 0 <= i < us@.len() ==> is_passwd_entry_of(#[trigger] r->Success_0@[i], us@[i]),
            Err(code) => failure_response(code, r),
        },
{
    match res {
        Ok(users) => Response::Success(users_to_passwd_entries(users)),
        Err(code) => grpc_status_to_nss_response(code),
    }
}

/// The group response for the service's answer to a group lookup.
pub fn group_entry_response(res: Result<AuthdGroup, i32>) -> (r: Response<Group>)
    ensures
        match res {
            Ok(g) => r is Success && is_group_entry_of(r->Success_0, g),
            Err(code) => failure_response(code, r),
        },
{
    match res {
        Ok(group) => Response::Success(authd_group_to_group_entry(group)),
        Err(code) => grpc_status_to_nss_response(code),
    }
}

/// The group response for the service's list of groups.
pub fn group_entries_response(res: Result<Vec<AuthdGroup>, i32>) -> (r: Response<Vec<Group>>)
    ensures
        match res {
            Ok(gs) => r is Success && r->Success_0@.len() == gs@.len()
                && forall|i: int| 0 <= i < gs@.len() ==> is_group_entry_of(#[trigger] r->Success_0@[i], gs@[i]),
            Err(code) => failure_response(code, r),
        },
{
    match res {
        Ok(groups) => Response::Success(authd_groups_to_group_entries(groups)),
        Err(code) => grpc_status_to_nss_response(code),
    }
}

/// The shadow response for the service's answer to a user lookup.
pub fn shadow_entry_response(res: Result<User, i32>) -> (r: Response<Shadow>)
    ensures
        shadow_response_of(res, r),
{
    match res {
        Ok(user) => Response::Success(shadow_entry(user.name)),
        Err(code) => grpc_status_to_nss_response(code),
    }
}

/// The shadow response for the service's list of users.
pub fn shadow_entries_response(res: Result<Vec<User>, i32>) -> (r: Response<Vec<Shadow>>)
    ensures
        match res {
            Ok(us) => r is Success && r->Success_0@.len() == us@.len()
                && forall|i: int| 0 <= i < us@.len() ==> is_shadow_entry_of(#[trigger] r->Success_0@[i], us@[i].name@),
            Err(code) => failure_response(code, r),
        },
{
    match res {
        Ok(users) => Response::Success(users_to_shadow_entries(users)),
        Err(code) => grpc_status_to_nss_response(code),
    }
}

/// Account lookup by name through the service `S`. The PAM probe name is not
/// found and the service is not asked; any other name is asked for, with the
/// pre-check that `S` calls for.
pub fn passwd_by_name<S: AuthdService>(name: String) -> (r: Response<Passwd>)
    ensures
        name@ == pam_probe_name() ==> r is NotFound,
        name@ != pam_probe_name() ==> exists|pre_check: bool, res: Result<User, i32>|
            #[trigger] S::user_named(name@, pre_check, res) && passwd_response_of(res, r),
{
    if is_pam_probe_name(name.as_str()) {
        return Response::NotFound;
    }
    let ghost key = name@;
    let pre_check = S::should_pre_check();
    let res = S::get_user_by_name(name, pre_check);
    let r = passwd_entry_response(res);
    assert(S::user_named(key, pre_check, res) && passwd_response_of(res, r));
    r
}

/// Shadow lookup by name through the service `S`, which is asked without the
/// pre-check.
pub fn shadow_by_name<S: AuthdService>(name: String) -> (r: Response<Shadow>)
    ensures
        exists|res: Result<User, i32>| #[trigger] S::user_named(name@, false, res) && shadow_response_of(res, r),
{
    let ghost key = name@;
    let res = S::get_user_by_name(name, false);
    let r = shadow_entry_response(res);
    assert(S::user_named(key, false, res) && shadow_response_of(res, r));
    r
}

/// The response for a failed gRPC call with status `code`: not found stays not
/// found, anything else makes the service unavailable.
pub fn grpc_status_to_nss_response<T>(code: i32) -> (r: Response<T>)
    ensures
        code == GRPC_NOT_FOUND ==> r is NotFound,
        code != GRPC_NOT_FOUND ==> r is Unavail,
{
    if code == GRPC_NOT_FOUND {
        Response::NotFound
    } else {
        Response::Unavail
    }
}

/// The placeholder that stands in the password field: the real one is not handed out.
pub open spec fn shadowed() -> Seq<char> {
    seq!['x']
}

/// `p` is the account record of `u`.
pub open spec fn is_passwd_entry_of(p: Passwd, u: User) -> bool {
    &&& p.name@ == u.name@
    &&& p.passwd@ == shadowed()
    &&& p.uid == u.uid
    &&& p.gid == u.gid
    &&& p.gecos@ == u.gecos@
    &&& p.dir@ == u.homedir@
    &&& p.shell@ == u.shell@
}

/// `g` is the group record of `a`.
pub open spec fn is_group_entry_of(g: Group, a: AuthdGroup) -> bool {
    &&& g.name@ == a.name@
    &&& g.passwd@ == a.passwd@
    &&& g.gid == a.gid
    &&& g.members@ == a.members@
}

/// `s` is the shadow record of the user named `name`: no password and no aging data.
pub open spec fn is_shadow_entry_of(s: Shadow, name: Seq<char>) -> bool {
    &&& s.name@ == name
    &&& s.passwd@ == shadowed()
    &&& s.last_change == -1
    &&& s.change_min_days == -1
    &&& s.change_max_days == -1
    &&& s.change_warn_days == -1
    &&& s.change_inactive_days == -1
    &&& s.expire_date == -1
    &&& s.reserved == usize::MAX
}

fn placeholder() -> (r: String)
    ensures
        r@ == shadowed(),
{
    proof {
        reveal_strlit("x");
    }
    String::from_str("x")
}

fn passwd_entry_of(entry: &User) -> (r: Passwd)
    ensures
        is_passwd_entry_of(r, *entry),
{
    Passwd {
        name: entry.name.clone(),
        passwd: placeholder(),
        uid: entry.uid,
        gid: entry.gid,
        gecos: entry.gecos.clone(),
        dir: entry.homedir.clone(),
        shell: entry.shell.clone(),
    }
}

/// The account record of an authd user.
pub fn user_to_passwd_entry(entry: User) -> (r: Passwd)
    ensures
        is_passwd_entry_of(r, entry),
{
    passwd_entry_of(&entry)
}

/// The account records of authd users, in order.
pub fn users_to_passwd_entries(entries: Vec<User>) -> (r: Vec<Passwd>)
    ensures
        r@.len() == entries@.len(),
        forall|i: int| 0 <= i < entries@.len() ==> is_passwd_entry_of(#[trigger] r@[i], entries@[i]),
{
    let mut r: Vec<Passwd> = Vec::new();
    let n = entries.len();
    let mut i: usize = 0;
    while i < n
        invariant
            i <= n,
            n == entries@.len(),
            r@.len() == i,
            forall|k: int| 0 <= k < i ==> is_passwd_entry_of(#[trigger] r@[k], entries@[k]),
        decreases n - i,
    {
        r.push(passwd_entry_of(&entries[i]));
        i = i + 1;
    }
    r
}

fn group_entry_of(group: &AuthdGroup) -> (r: Group)
    ensures
        is_group_entry_of(r, *group),
{
    Group {
        name: group.name.clone(),
        passwd: group.passwd.clone(),
        gid: group.gid,
        members: clone_strings(&group.members),
    }
}

fn clone_strings(v: &Vec<String>) -> (r: Vec<String>)
    ensures
        r@ == v@,
{
    let mut r: Vec<String> = Vec::new();
    let n = v.len();
    let mut i: usize = 0;
    while i < n
        invariant
            i <= n,
            n == v@.len(),
            r@ == v@.take(i as int),
        decreases n - i,
    {
        r.push(v[i].clone());
        i = i + 1;
        assert(r@ =~= v@.take(i as int));
    }
    assert(v@.take(n as int) =~= v@);
    r
}

/// The group record of an authd group.
pub fn authd_group_to_group_entry(group: AuthdGroup) -> (r: Group)
    ensures
        is_group_entry_of(r, group),
{
    group_entry_of(&group)
}

/// The group records of authd groups, in order.
pub fn authd_groups_to_group_entries(groups: Vec<AuthdGroup>) -> (r: Vec<Group>)
    ensures
        r@.len() == groups@.len(),
        forall|i: int| 0 <= i < groups@.len() ==> is_group_entry_of(#[trigger] r@[i], groups@[i]),
{
    let mut r: Vec<Group> = Vec::new();
    let n = groups.len();
    let mut i: usize = 0;
    while i < n
        invariant
            i <= n,
            n == groups@.len(),
            r@.len() == i,
            forall|k: int| 0 <= k < i ==> is_group_entry_of(#[trigger] r@[k], groups@[k]),
        decreases n - i,
    {
        r.push(group_entry_of(&groups[i]));
        i = i + 1;
    }
    r
}

/// The shadow record of the user named `name`.
pub fn shadow_entry(name: String) -> (r: Shadow)
    ensures
        is_shadow_entry_of(r, name@),
{
    Shadow {
        name,
        passwd: placeholder(),
        last_change: -1,
        change_min_days: -1,
        change_max_days: -1,
        change_warn_days: -1,
        change_inactive_days: -1,
        expire_date: -1,
        reserved: usize::MAX,
    }
}

/// The shadow records of authd users, in order.
pub fn users_to_shadow_entries(names: Vec<User>) -> (r: Vec<Shadow>)
    ensures
        r@.len() == names@.len(),
        forall|i: int| 0 <= i < names@.len() ==> is_shadow_entry_of(#[trigger] r@[i], names@[i].name@),
{
    let mut r: Vec<Shadow> = Vec::new();
    let n = names.len();
    let mut i: usize = 0;
    while i < n
        invariant
            i <= n,
            n == names@.len(),
            r@.len() == i,
            forall|k: int| 0 <= k < i ==> is_shadow_entry_of(#[trigger] r@[k], names@[k].name@),
        decreases n - i,
    {
        r.push(shadow_entry(names[i].name.clone()));
        i = i + 1;
    }
    r
}

/// The name that PAM looks up on purpose to find nothing, as a guard against
/// timing attacks.
pub open spec fn pam_probe_name() -> Seq<char> {
    seq!['p', 'a', 'm', '_', 'u', 'n', 'i', 'x', '_', 'n', 'o', 'n', '_', 'e', 'x', 'i', 's', 't', 'e', 'n', 't', ':']
}

/// Whether `name` is the name that PAM looks up on purpose to find nothing: it
/// is answered not-found without asking the service.
pub fn is_pam_probe_name(name: &str) -> (r: bool)
    ensures
        r == (name@ == pam_probe_name()),
{
    proof {
        reveal_strlit("pam_unix_non_existent:");
    }
    let probe = "pam_unix_non_existent:";
    assert(probe@ =~= pam_probe_name());
    let n = name.unicode_len();
    if n != probe.unicode_len() {
        return false;
    }
    let mut i: usize = 0;
    while i < n
        invariant
            i <= n,
            n == name@.len(),
            n == probe@.len(),
            probe@ == pam_probe_name(),
            forall|k: int| 0 <= k < i ==> name@[k] == probe@[k],
        decreases n - i,
    {
        if name.get_char(i) != probe.get_char(i) {
            assert(name@[i as int] != pam_probe_name()[i as int]);
            return false;
        }
        i = i + 1;
    }
    assert(name@ =~= probe@);
    true
}

} // verus!
