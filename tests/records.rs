use libnss::authd::{
    authd_group_to_group_entry, authd_groups_to_group_entries, grpc_status_to_nss_response,
    shadow_entry, user_to_passwd_entry, users_to_passwd_entries, users_to_shadow_entries,
    AuthdGroup, User, GRPC_NOT_FOUND,
};
use libnss::group::{self, Group, GroupHooks};
use libnss::host::{
    address_from, falls_back_to_ipv6, get_host_by_addr, get_host_by_name, herrno_for,
    resolve_by_name, AddressFamily, Addresses, Herrno, Host, HostHooks, IpAddr,
};
use libnss::initgroups::{get_groups_of_user, groups_outcome, gids_to_add, InitgroupsHooks};
use libnss::buffer::{BufferError, CBuffer};
use libnss::interop::{Errno, NssStatus, Response, ToC};
use libnss::passwd::{self, Passwd, PasswdHooks};
use libnss::shadow::{self, Shadow, ShadowHooks};

const BASE: u64 = 0x8000;

fn read_u64(b: &[u8], at: usize) -> u64 {
    let mut v: u64 = 0;
    for k in 0..8 {
        v |= (b[at + k] as u64) << (8 * k);
    }
    v
}

fn read_cstr(b: &[u8], at: usize) -> String {
    let mut end = at;
    while b[end] != 0 {
        end += 1;
    }
    String::from_utf8(b[at..end].to_vec()).unwrap()
}

fn read_list(b: &[u8], at: usize) -> Vec<String> {
    let mut out = Vec::new();
    let mut k = 0;
    loop {
        let p = read_u64(b, at + 8 * k);
        if p == 0 {
            return out;
        }
        out.push(read_cstr(b, (p - BASE) as usize));
        k += 1;
    }
}

fn group(name: &str, members: &[&str]) -> Group {
    Group {
        name: name.to_string(),
        passwd: "x".to_string(),
        gid: 42,
        members: members.iter().map(|m| m.to_string()).collect(),
    }
}

fn host_v6(name: &str) -> Host {
    let mut a = [0u8; 16];
    a[15] = 1;
    Host { name: name.to_string(), aliases: vec!["lo6".to_string()], addresses: Addresses::V6(vec![a]) }
}

fn host_v4(name: &str) -> Host {
    Host {
        name: name.to_string(),
        aliases: vec![],
        addresses: Addresses::V4(vec![[127, 0, 0, 1], [10, 0, 0, 2]]),
    }
}

#[test]
fn group_packs_members() {
    let g = group("wheel", &["alice", "bob"]);
    let needed = 6 + 2 + 8 * 3 + 6 + 4;
    let mut b = CBuffer::new(BASE, needed);
    let c = g.to_c(&mut b).unwrap();
    assert_eq!(b.position(), needed);
    let bytes = b.as_bytes();
    assert_eq!(read_cstr(bytes, (c.name - BASE) as usize), "wheel");
    assert_eq!(read_cstr(bytes, (c.passwd - BASE) as usize), "x");
    assert_eq!(c.gid, 42);
    assert_eq!(read_list(bytes, (c.members - BASE) as usize), vec!["alice", "bob"]);
    let mut short = CBuffer::new(BASE, needed - 1);
    assert_eq!(g.to_c(&mut short), Err(BufferError::Range));
    assert_eq!(short.position(), 0);
}

#[test]
fn group_with_nul_member_is_refused() {
    let g = group("wheel", &["al\0ice"]);
    let mut b = CBuffer::new(BASE, 128);
    assert_eq!(g.to_c(&mut b), Err(BufferError::InteriorNul));
    assert_eq!(b.position(), 0);
}

#[test]
fn shadow_packs_scalars() {
    let s = shadow_entry("carol".to_string());
    let mut b = CBuffer::new(BASE, 8);
    let c = s.to_c(&mut b).unwrap();
    assert_eq!(read_cstr(b.as_bytes(), (c.name - BASE) as usize), "carol");
    assert_eq!(read_cstr(b.as_bytes(), (c.passwd - BASE) as usize), "x");
    assert_eq!(c.last_change, -1);
    assert_eq!(c.expire_date, -1);
    assert_eq!(c.reserved, u64::MAX);
    let mut short = CBuffer::new(BASE, 7);
    assert_eq!(s.to_c(&mut short), Err(BufferError::Range));
}

#[test]
fn host_packs_ipv4_addresses() {
    let h = host_v4("web");
    let needed = 4 + 8 + 8 * 3 + 4 * 2;
    let mut b = CBuffer::new(BASE, needed);
    let c = h.to_c(&mut b).unwrap();
    assert_eq!(b.position(), needed);
    let bytes = b.as_bytes();
    assert_eq!(read_cstr(bytes, (c.name - BASE) as usize), "web");
    assert_eq!(read_list(bytes, (c.aliases - BASE) as usize), Vec::<String>::new());
    assert_eq!(c.addrtype, AddressFamily::IPv4);
    assert_eq!(c.length, 4);
    let list = (c.addr_list - BASE) as usize;
    let a0 = (read_u64(bytes, list) - BASE) as usize;
    let a1 = (read_u64(bytes, list + 8) - BASE) as usize;
    assert_eq!(&bytes[a0..a0 + 4], &[127, 0, 0, 1]);
    assert_eq!(&bytes[a1..a1 + 4], &[10, 0, 0, 2]);
    assert_eq!(read_u64(bytes, list + 16), 0);
    let mut short = CBuffer::new(BASE, needed - 1);
    assert_eq!(h.to_c(&mut short), Err(BufferError::Range));
    assert_eq!(short.position(), 0);
}

#[test]
fn host_packs_ipv6_addresses() {
    let h = host_v6("six");
    let needed = 4 + 8 * 2 + 4 + 8 * 2 + 16;
    let mut b = CBuffer::new(BASE, needed);
    let c = h.to_c(&mut b).unwrap();
    assert_eq!(c.addrtype, AddressFamily::IPv6);
    assert_eq!(c.length, 16);
    let bytes = b.as_bytes();
    assert_eq!(read_list(bytes, (c.aliases - BASE) as usize), vec!["lo6"]);
    let a0 = (read_u64(bytes, (c.addr_list - BASE) as usize) - BASE) as usize;
    assert_eq!(bytes[a0 + 15], 1);
}

struct V4MissingV6Found;

impl HostHooks for V4MissingV6Found {
    fn get_all_entries() -> Response<Vec<Host>> {
        Response::Unavail
    }

    fn get_host_by_name(name: &str, family: AddressFamily) -> Response<Host> {
        match family {
            AddressFamily::IPv4 => Response::NotFound,
            AddressFamily::IPv6 => Response::Success(host_v6(name)),
            AddressFamily::Unspecified => panic!("the backend is asked for a concrete family"),
        }
    }

    fn get_host_by_addr(_addr: IpAddr) -> Response<Host> {
        panic!("the backend must not be asked")
    }
}

struct V4Unavailable;

impl HostHooks for V4Unavailable {
    fn get_all_entries() -> Response<Vec<Host>> {
        Response::Unavail
    }

    fn get_host_by_name(_name: &str, family: AddressFamily) -> Response<Host> {
        match family {
            AddressFamily::IPv4 => Response::Unavail,
            _ => panic!("IPv6 must not be tried"),
        }
    }

    fn get_host_by_addr(addr: IpAddr) -> Response<Host> {
        match addr {
            IpAddr::V4(_) => Response::Success(host_v4("back")),
            IpAddr::V6(_) => Response::TryAgain,
        }
    }
}

#[test]
fn unspecified_lookup_falls_back_to_ipv6() {
    match resolve_by_name::<V4MissingV6Found>("six", AddressFamily::Unspecified) {
        Response::Success(h) => assert_eq!(h.addresses, host_v6("six").addresses),
        _ => panic!("expected the IPv6 host"),
    }
    let mut b = CBuffer::new(BASE, 256);
    let r = get_host_by_name::<V4MissingV6Found>(b"six", Some(AddressFamily::Unspecified), &mut b);
    assert_eq!((r.0, r.1, r.2), (NssStatus::Success, Errno::Clear, Herrno::NetDbSuccess));
    assert_eq!(r.3.unwrap().addrtype, AddressFamily::IPv6);
    let r = get_host_by_name::<V4MissingV6Found>(b"six", Some(AddressFamily::IPv4), &mut b);
    assert_eq!((r.0, r.2), (NssStatus::NotFound, Herrno::NoData));
}

#[test]
fn unspecified_lookup_stops_on_unavailable() {
    assert!(matches!(
        resolve_by_name::<V4Unavailable>("x", AddressFamily::Unspecified),
        Response::Unavail
    ));
    let mut b = CBuffer::new(BASE, 256);
    let r = get_host_by_name::<V4Unavailable>(b"x", Some(AddressFamily::Unspecified), &mut b);
    assert_eq!((r.0, r.1, r.2), (NssStatus::Unavail, Errno::NoEntry, Herrno::NoRecovery));
    assert!(r.3.is_none());
}

#[test]
fn host_lookup_edge_inputs() {
    let mut b = CBuffer::new(BASE, 256);
    let r = get_host_by_name::<V4Unavailable>(&[0xc3, 0x28], Some(AddressFamily::IPv4), &mut b);
    assert_eq!((r.0, r.1, r.2), (NssStatus::NotFound, Errno::NoEntry, Herrno::NoData));
    let r = get_host_by_name::<V4Unavailable>(b"x", None, &mut b);
    assert_eq!((r.0, r.1, r.2), (NssStatus::Unavail, Errno::NoEntry, Herrno::NoRecovery));
    let mut small = CBuffer::new(BASE, 4);
    let r = get_host_by_name::<V4MissingV6Found>(b"six", Some(AddressFamily::IPv6), &mut small);
    assert_eq!((r.0, r.1, r.2), (NssStatus::TryAgain, Errno::Range, Herrno::TryAgain));
}

#[test]
fn falls_back_only_after_not_found() {
    assert!(falls_back_to_ipv6(AddressFamily::Unspecified, &Response::<u8>::NotFound));
    assert!(!falls_back_to_ipv6(AddressFamily::Unspecified, &Response::<u8>::Unavail));
    assert!(!falls_back_to_ipv6(AddressFamily::IPv4, &Response::<u8>::NotFound));
    assert!(!falls_back_to_ipv6(AddressFamily::Unspecified, &Response::Success(1u8)));
}

#[test]
fn herrno_per_status() {
    assert_eq!(herrno_for(NssStatus::Success), Herrno::NetDbSuccess);
    assert_eq!(herrno_for(NssStatus::TryAgain), Herrno::TryAgain);
    assert_eq!(herrno_for(NssStatus::Unavail), Herrno::NoRecovery);
    assert_eq!(herrno_for(NssStatus::NotFound), Herrno::NoData);
    assert_eq!(herrno_for(NssStatus::Return), Herrno::NetDbInternal);
}

#[test]
fn address_family_mismatch_is_not_found() {
    let mut b = CBuffer::new(BASE, 256);
    let r = get_host_by_addr::<V4MissingV6Found>(&[127, 0, 0, 1], AddressFamily::IPv6, &mut b);
    assert_eq!((r.0, r.1, r.2), (NssStatus::NotFound, Errno::NoEntry, Herrno::NetDbInternal));
    let r = get_host_by_addr::<V4MissingV6Found>(&[0u8; 16], AddressFamily::IPv4, &mut b);
    assert_eq!((r.0, r.2), (NssStatus::NotFound, Herrno::NetDbInternal));
    assert_eq!(b.position(), 0);
    assert!(address_from(&[1, 2, 3], AddressFamily::IPv4).is_none());
    assert_eq!(address_from(&[1, 2, 3, 4], AddressFamily::IPv4), Some(IpAddr::V4([1, 2, 3, 4])));
}

#[test]
fn lookup_by_address_asks_backend() {
    let mut b = CBuffer::new(BASE, 256);
    let r = get_host_by_addr::<V4Unavailable>(&[127, 0, 0, 1], AddressFamily::IPv4, &mut b);
    assert_eq!((r.0, r.1, r.2), (NssStatus::Success, Errno::Clear, Herrno::NetDbSuccess));
    let c = r.3.unwrap();
    assert_eq!(read_cstr(b.as_bytes(), (c.name - BASE) as usize), "back");
    let r = get_host_by_addr::<V4Unavailable>(&[0u8; 16], AddressFamily::IPv6, &mut b);
    assert_eq!((r.0, r.2), (NssStatus::TryAgain, Herrno::NetDbInternal));
}

struct Directory;

fn alice() -> Passwd {
    Passwd {
        name: "alice".to_string(),
        passwd: "x".to_string(),
        uid: 1,
        gid: 2,
        gecos: String::new(),
        dir: "/".to_string(),
        shell: "/bin/sh".to_string(),
    }
}

impl PasswdHooks for Directory {
    fn get_all_entries() -> Response<Vec<Passwd>> {
        Response::Success(vec![alice()])
    }

    fn get_entry_by_uid(uid: u32) -> Response<Passwd> {
        if uid == 1 { Response::Success(alice()) } else { Response::NotFound }
    }

    fn get_entry_by_name(name: String) -> Response<Passwd> {
        if name == "alice" { Response::Success(alice()) } else { Response::NotFound }
    }
}

impl GroupHooks for Directory {
    fn get_all_entries() -> Response<Vec<Group>> {
        Response::Success(vec![group("g", &[])])
    }

    fn get_entry_by_gid(_gid: u32) -> Response<Group> {
        Response::Unavail
    }

    fn get_entry_by_name(name: String) -> Response<Group> {
        Response::Success(group(&name, &["alice"]))
    }
}

impl ShadowHooks for Directory {
    fn get_all_entries() -> Response<Vec<Shadow>> {
        Response::Success(vec![])
    }

    fn get_entry_by_name(name: String) -> Response<Shadow> {
        Response::Success(shadow_entry(name))
    }
}

impl InitgroupsHooks for Directory {
    fn get_entries_by_user(user: String) -> Response<Vec<Group>> {
        if user == "alice" {
            Response::Success(vec![group("a", &[]), group("b", &[])])
        } else {
            Response::TryAgain
        }
    }
}

#[test]
fn lookups_by_name() {
    let mut b = CBuffer::new(BASE, 256);
    let r = passwd::get_entry_by_name::<Directory>(b"alice", &mut b);
    assert_eq!((r.0, r.1), (NssStatus::Success, Errno::Clear));
    assert_eq!(read_cstr(b.as_bytes(), (r.2.unwrap().name - BASE) as usize), "alice");
    let r = passwd::get_entry_by_name::<Directory>(b"nobody", &mut b);
    assert_eq!((r.0, r.1), (NssStatus::NotFound, Errno::NoEntry));
    let r = passwd::get_entry_by_name::<Directory>(&[0xff], &mut b);
    assert_eq!((r.0, r.1), (NssStatus::NotFound, Errno::NoEntry));
    let r = group::get_entry_by_name::<Directory>(b"staff", &mut b);
    let c = r.2.unwrap();
    assert_eq!(read_list(b.as_bytes(), (c.members - BASE) as usize), vec!["alice"]);
    let r = shadow::get_entry_by_name::<Directory>(b"dave", &mut b);
    assert_eq!(read_cstr(b.as_bytes(), (r.2.unwrap().name - BASE) as usize), "dave");
    let r = group::get_entry_by_name::<Directory>(&[0x80], &mut b);
    assert_eq!((r.0, r.2), (NssStatus::NotFound, None));
}

#[test]
fn initgroups_selection() {
    let gs = vec![
        Group { gid: 5, ..group("a", &[]) },
        Group { gid: 7, ..group("b", &[]) },
        Group { gid: 5, ..group("c", &[]) },
        Group { gid: 9, ..group("d", &[]) },
    ];
    assert_eq!(gids_to_add(&gs, 5, 0, 10), vec![7, 9]);
    assert_eq!(gids_to_add(&gs, 1, 2, 4), vec![5, 7]);
    assert_eq!(gids_to_add(&gs, 1, 3, 3), Vec::<u32>::new());
    let r = groups_outcome(Response::Success(gs), 9, 0, 100);
    assert_eq!((r.0, r.1, r.2), (NssStatus::Success, None, vec![5, 7, 5]));
    let r = groups_outcome(Response::NotFound, 9, 0, 100);
    assert_eq!((r.0, r.1, r.2), (NssStatus::NotFound, Some(Errno::NoEntry), vec![]));
    let r = get_groups_of_user::<Directory>(b"alice", 42, 0, 10);
    assert_eq!((r.0, r.1, r.2), (NssStatus::Success, None, vec![]));
    let r = get_groups_of_user::<Directory>(b"bob", 0, 0, 10);
    assert_eq!((r.0, r.1), (NssStatus::TryAgain, Some(Errno::NoEntry)));
    let r = get_groups_of_user::<Directory>(&[0xfe], 0, 0, 10);
    assert_eq!((r.0, r.1), (NssStatus::NotFound, Some(Errno::NoEntry)));
}

fn authd_user(name: &str) -> User {
    User {
        name: name.to_string(),
        uid: 10,
        gid: 20,
        gecos: "G".to_string(),
        homedir: "/h".to_string(),
        shell: "/s".to_string(),
    }
}

#[test]
fn authd_conversions() {
    let p = user_to_passwd_entry(authd_user("eve"));
    assert_eq!((p.name.as_str(), p.passwd.as_str(), p.uid, p.gid), ("eve", "x", 10, 20));
    assert_eq!((p.gecos.as_str(), p.dir.as_str(), p.shell.as_str()), ("G", "/h", "/s"));
    let ps = users_to_passwd_entries(vec![authd_user("a"), authd_user("b")]);
    assert_eq!(ps.iter().map(|p| p.name.clone()).collect::<Vec<_>>(), vec!["a", "b"]);
    let ss = users_to_shadow_entries(vec![authd_user("a")]);
    assert_eq!(ss.len(), 1);
    assert_eq!(ss[0].name, "a");
    assert_eq!(ss[0].change_min_days, -1);
    assert_eq!(ss[0].reserved, usize::MAX);
    let ag = AuthdGroup { name: "g".to_string(), passwd: "p".to_string(), gid: 3, members: vec!["m".to_string()] };
    let g = authd_group_to_group_entry(ag.clone());
    assert_eq!((g.name.as_str(), g.passwd.as_str(), g.gid), ("g", "p", 3));
    assert_eq!(g.members, vec!["m"]);
    let gs = authd_groups_to_group_entries(vec![ag.clone(), ag]);
    assert_eq!(gs.len(), 2);
}

#[test]
fn grpc_status_mapping() {
    assert!(matches!(grpc_status_to_nss_response::<u8>(GRPC_NOT_FOUND), Response::NotFound));
    assert!(matches!(grpc_status_to_nss_response::<u8>(14), Response::Unavail));
    assert!(matches!(grpc_status_to_nss_response::<u8>(0), Response::Unavail));
}
