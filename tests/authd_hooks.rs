use libnss::authd::{
    is_pam_probe_name, AuthdGroup, AuthdGroupHooks, AuthdPasswdHooks, AuthdService,
    AuthdShadowHooks, User, GRPC_NOT_FOUND,
};
use libnss::group::GroupHooks;
use libnss::interop::Response;
use libnss::passwd::PasswdHooks;
use libnss::shadow::ShadowHooks;

struct Service;

fn frank() -> User {
    User {
        name: "frank".to_string(),
        uid: 1500,
        gid: 1500,
        gecos: "Frank".to_string(),
        homedir: "/home/frank".to_string(),
        shell: "/bin/bash".to_string(),
    }
}

impl AuthdService for Service {
    fn list_users() -> Result<Vec<User>, i32> {
        Ok(vec![frank()])
    }

    fn get_user_by_id(uid: u32) -> Result<User, i32> {
        if uid == 1500 { Ok(frank()) } else { Err(GRPC_NOT_FOUND) }
    }

    fn get_user_by_name(name: String, should_pre_check: bool) -> Result<User, i32> {
        assert_ne!(name, "pam_unix_non_existent:", "the probe must not reach the service");
        if should_pre_check {
            return Err(7);
        }
        if name == "frank" { Ok(frank()) } else { Err(GRPC_NOT_FOUND) }
    }

    fn list_groups() -> Result<Vec<AuthdGroup>, i32> {
        Err(14)
    }

    fn get_group_by_id(gid: u32) -> Result<AuthdGroup, i32> {
        Ok(AuthdGroup { name: "staff".to_string(), passwd: String::new(), gid, members: vec![] })
    }

    fn get_group_by_name(_name: String) -> Result<AuthdGroup, i32> {
        Err(GRPC_NOT_FOUND)
    }

    fn should_pre_check() -> bool {
        false
    }
}

type P = AuthdPasswdHooks<Service>;
type G = AuthdGroupHooks<Service>;
type S = AuthdShadowHooks<Service>;

#[test]
fn passwd_hooks_over_service() {
    match <P as PasswdHooks>::get_all_entries() {
        Response::Success(v) => {
            assert_eq!(v.len(), 1);
            assert_eq!(v[0].dir, "/home/frank");
            assert_eq!(v[0].passwd, "x");
        }
        _ => panic!("expected the users"),
    }
    assert!(matches!(<P as PasswdHooks>::get_entry_by_uid(1500), Response::Success(p) if p.name == "frank"));
    assert!(matches!(<P as PasswdHooks>::get_entry_by_uid(1), Response::NotFound));
    assert!(matches!(<P as PasswdHooks>::get_entry_by_name("frank".to_string()), Response::Success(_)));
    assert!(matches!(<P as PasswdHooks>::get_entry_by_name("pam_unix_non_existent:".to_string()), Response::NotFound));
}

#[test]
fn group_and_shadow_hooks_over_service() {
    assert!(matches!(<G as GroupHooks>::get_all_entries(), Response::Unavail));
    assert!(matches!(<G as GroupHooks>::get_entry_by_gid(9), Response::Success(g) if g.gid == 9 && g.name == "staff"));
    assert!(matches!(<G as GroupHooks>::get_entry_by_name("x".to_string()), Response::NotFound));
    match <S as ShadowHooks>::get_all_entries() {
        Response::Success(v) => assert_eq!(v[0].name, "frank"),
        _ => panic!("expected the shadow entries"),
    }
    assert!(matches!(<S as ShadowHooks>::get_entry_by_name("frank".to_string()), Response::Success(s) if s.expire_date == -1));
    assert!(matches!(<S as ShadowHooks>::get_entry_by_name("nobody".to_string()), Response::NotFound));
}

#[test]
fn pam_probe_name_is_exact() {
    assert!(is_pam_probe_name("pam_unix_non_existent:"));
    assert!(!is_pam_probe_name("pam_unix_non_existent"));
    assert!(!is_pam_probe_name("pam_unix_non_existent::"));
    assert!(!is_pam_probe_name(""));
}
