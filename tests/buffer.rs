use libnss::buffer::{is_nul_free, BufferError, CBuffer};
use libnss::interop::{decode_key, next_entry, open_entries, Errno, Iterator, NssStatus, Response, ToC};
use libnss::passwd::{CPasswd, Passwd};

const BASE: u64 = 0x1000;

fn read_u64(b: &[u8], at: usize) -> u64 {
    let mut v: u64 = 0;
    for k in 0..8 {
        v |= (b[at + k] as u64) << (8 * k);
    }
    v
}

fn read_cstr(b: &[u8], at: usize) -> String {
    let mut end = at;
    while b[end] != 0 {
        end += 1;
    }
    String::from_utf8(b[at..end].to_vec()).unwrap()
}

fn user(name: &str) -> Passwd {
    Passwd {
        name: name.to_string(),
        passwd: "x".to_string(),
        uid: 1000,
        gid: 1001,
        gecos: "Some One".to_string(),
        dir: "/home/u".to_string(),
        shell: "/bin/sh".to_string(),
    }
}

fn passwd_size(p: &Passwd) -> usize {
    p.name.len() + p.passwd.len() + p.gecos.len() + p.dir.len() + p.shell.len() + 5
}

#[test]
fn write_str_copies_and_terminates() {
    let mut b = CBuffer::new(BASE, 8);
    assert_eq!(b.write_str("abc"), Ok(BASE));
    assert_eq!(b.write_str("de"), Ok(BASE + 4));
    assert_eq!(b.position(), 7);
    assert_eq!(&b.as_bytes()[..7], b"abc\0de\0");
    assert_eq!(b.write_str("f"), Err(BufferError::Range));
    assert_eq!(b.position(), 7);
    assert_eq!(b.write_str(""), Ok(BASE + 7));
    assert_eq!(b.position(), 8);
}

#[test]
fn write_str_refuses_nul() {
    let mut b = CBuffer::new(BASE, 16);
    assert_eq!(b.write_str("a\0b"), Err(BufferError::InteriorNul));
    assert_eq!(b.position(), 0);
    assert!(!is_nul_free("a\0"));
    assert!(is_nul_free("ab"));
}

#[test]
fn reserve_and_clear() {
    let mut b = CBuffer::new(BASE, 4);
    assert_eq!(b.write_str("abc"), Ok(BASE));
    b.clear();
    assert_eq!(b.as_bytes(), &[0u8, 0, 0, 0]);
    assert_eq!(b.position(), 4);
    assert_eq!(b.reserve(1), Err(BufferError::Range));
    let mut c = CBuffer::new(BASE, 4);
    assert_eq!(c.reserve(3), Ok(BASE));
    assert_eq!(c.reserve(1), Ok(BASE + 3));
    assert_eq!(c.reserve(0), Ok(BASE + 4));
}

#[test]
fn write_strs_round_trip() {
    let list = vec!["root".to_string(), "".to_string(), "wheel".to_string()];
    let mut b = CBuffer::new(BASE, 64);
    b.write_str("pre").unwrap();
    let at = b.write_strs(&list).unwrap();
    assert_eq!(at, BASE + 4);
    let bytes = b.as_bytes();
    let slots = (at - BASE) as usize;
    for (i, s) in list.iter().enumerate() {
        let p = read_u64(bytes, slots + 8 * i);
        assert_eq!(read_cstr(bytes, (p - BASE) as usize), *s);
    }
    assert_eq!(read_u64(bytes, slots + 8 * list.len()), 0);
    assert_eq!(b.position(), 4 + 8 * 4 + 5 + 1 + 6);
    assert_eq!(read_cstr(bytes, 0), "pre");
}

#[test]
fn write_strs_empty_list_is_one_null_slot() {
    let mut b = CBuffer::new(BASE, 8);
    let at = b.write_strs(&[]).unwrap();
    assert_eq!(at, BASE);
    assert_eq!(read_u64(b.as_bytes(), 0), 0);
    assert_eq!(b.position(), 8);
}

#[test]
fn write_strs_too_small_keeps_position() {
    let list = vec!["abc".to_string(), "de".to_string()];
    let needed = 8 * 3 + 4 + 3;
    let mut b = CBuffer::new(BASE, needed - 1);
    assert_eq!(b.write_strs(&list), Err(BufferError::Range));
    assert_eq!(b.position(), 0);
    let mut c = CBuffer::new(BASE, needed);
    assert!(c.write_strs(&list).is_ok());
    assert_eq!(c.position(), needed);
    let bad = vec!["a\0".to_string()];
    assert_eq!(c.write_strs(&bad), Err(BufferError::InteriorNul));
}

#[test]
fn passwd_fits_exactly() {
    let p = user("alice");
    let n = passwd_size(&p);
    let mut b = CBuffer::new(BASE, n);
    let c: CPasswd = p.to_c(&mut b).unwrap();
    assert_eq!(b.position(), n);
    let bytes = b.as_bytes();
    assert_eq!(read_cstr(bytes, (c.name - BASE) as usize), "alice");
    assert_eq!(read_cstr(bytes, (c.passwd - BASE) as usize), "x");
    assert_eq!(read_cstr(bytes, (c.gecos - BASE) as usize), "Some One");
    assert_eq!(read_cstr(bytes, (c.dir - BASE) as usize), "/home/u");
    assert_eq!(read_cstr(bytes, (c.shell - BASE) as usize), "/bin/sh");
    assert_eq!(c.uid, 1000);
    assert_eq!(c.gid, 1001);
}

#[test]
fn passwd_one_byte_short() {
    let p = user("alice");
    let n = passwd_size(&p);
    let mut b = CBuffer::new(BASE, n - 1);
    assert_eq!(p.to_c(&mut b), Err(BufferError::Range));
    assert_eq!(b.position(), 0);
}

#[test]
fn to_status_maps_each_variant() {
    assert_eq!(Response::<u8>::TryAgain.to_status(), NssStatus::TryAgain);
    assert_eq!(Response::<u8>::Unavail.to_status(), NssStatus::Unavail);
    assert_eq!(Response::<u8>::NotFound.to_status(), NssStatus::NotFound);
    assert_eq!(Response::Success(1u8).to_status(), NssStatus::Success);
    assert_eq!(Response::<u8>::Return.to_status(), NssStatus::Return);
}

#[test]
fn response_to_c_outcomes() {
    let p = user("bob");
    let n = passwd_size(&p);
    let mut big = CBuffer::new(BASE, n + 10);
    let r = Response::Success(p.clone()).to_c(&mut big);
    assert_eq!((r.0, r.1), (NssStatus::Success, Errno::Clear));
    assert!(r.2.is_some());
    let mut small = CBuffer::new(BASE, n - 1);
    let r = Response::Success(p.clone()).to_c(&mut small);
    assert_eq!((r.0, r.1, r.2), (NssStatus::TryAgain, Errno::Range, None));
    let mut bad = user("bob");
    bad.gecos = "a\0b".to_string();
    let r = Response::Success(bad).to_c(&mut big);
    assert_eq!((r.0, r.1, r.2), (NssStatus::Unavail, Errno::NoEntry, None));
    let r = Response::<Passwd>::NotFound.to_c(&mut big);
    assert_eq!((r.0, r.1, r.2), (NssStatus::NotFound, Errno::NoEntry, None));
    let r = Response::<Passwd>::Return.to_c(&mut big);
    assert_eq!((r.0, r.1, r.2), (NssStatus::Return, Errno::NoEntry, None));
}

#[test]
fn enumeration_order_then_close() {
    let mut it: Iterator<Passwd> = Iterator::new();
    assert!(matches!(it.next(), Response::Unavail));
    assert_eq!(it.open(vec![user("r0"), user("r1"), user("r2")]), NssStatus::Success);
    for name in ["r0", "r1", "r2"] {
        match it.next() {
            Response::Success(p) => assert_eq!(p.name, name),
            _ => panic!("expected a record"),
        }
    }
    assert!(matches!(it.next(), Response::NotFound));
    assert!(matches!(it.next(), Response::NotFound));
    assert_eq!(it.close(), NssStatus::Success);
    assert!(matches!(it.next(), Response::Unavail));
}

#[test]
fn open_on_empty_list_succeeds() {
    let mut it: Iterator<Passwd> = Iterator::new();
    assert_eq!(open_entries(&mut it, Response::Success(vec![])), NssStatus::Success);
    assert!(matches!(it.next(), Response::NotFound));
    assert_eq!(open_entries(&mut it, Response::Unavail), NssStatus::Unavail);
}

#[test]
fn previous_floors_at_zero() {
    let mut it: Iterator<Passwd> = Iterator::new();
    it.open(vec![user("a"), user("b")]);
    it.previous();
    assert!(matches!(it.next(), Response::Success(p) if p.name == "a"));
    it.previous();
    assert!(matches!(it.next(), Response::Success(p) if p.name == "a"));
}

#[test]
fn next_entry_rewinds_on_small_buffer() {
    let mut it: Iterator<Passwd> = Iterator::new();
    it.open(vec![user("first"), user("second")]);
    let n = passwd_size(&user("first"));
    let mut small = CBuffer::new(BASE, n - 1);
    let r = next_entry(&mut it, &mut small);
    assert_eq!((r.0, r.1), (NssStatus::TryAgain, Errno::Range));
    let r = next_entry(&mut it, &mut small);
    assert_eq!(r.0, NssStatus::TryAgain);
    let mut big = CBuffer::new(BASE, 256);
    let r = next_entry(&mut it, &mut big);
    assert_eq!(r.0, NssStatus::Success);
    let c = r.2.unwrap();
    assert_eq!(read_cstr(big.as_bytes(), (c.name - BASE) as usize), "first");
    let r = next_entry(&mut it, &mut big);
    let c = r.2.unwrap();
    assert_eq!(read_cstr(big.as_bytes(), (c.name - BASE) as usize), "second");
    let r = next_entry(&mut it, &mut big);
    assert_eq!((r.0, r.1, r.2), (NssStatus::NotFound, Errno::NoEntry, None));
    it.close();
    let r = next_entry(&mut it, &mut big);
    assert_eq!((r.0, r.1, r.2), (NssStatus::Unavail, Errno::NoEntry, None));
}

#[test]
fn serialized_callers_see_each_record_once() {
    let m = 7;
    let records: Vec<Passwd> = (0..m).map(|i| user(&format!("u{i}"))).collect();
    let cursor = std::sync::Mutex::new(Iterator::new());
    cursor.lock().unwrap().open(records);
    let callers = 3;
    let mut seen: Vec<Vec<String>> = vec![Vec::new(); callers];
    let mut done = 0;
    let mut turn = 0;
    while done < callers {
        let r = cursor.lock().unwrap().next();
        match r {
            Response::Success(p) => seen[turn % callers].push(p.name),
            _ => done += 1,
        }
        turn += 1;
    }
    let mut all: Vec<String> = seen.concat();
    all.sort();
    let mut expected: Vec<String> = (0..m).map(|i| format!("u{i}")).collect();
    expected.sort();
    assert_eq!(all, expected);
}

#[test]
fn decode_key_checks_utf8() {
    assert_eq!(decode_key(b"alice"), Some("alice".to_string()));
    assert_eq!(decode_key(&[0x61, 0xff]), None);
    assert_eq!(decode_key("é".as_bytes()), Some("é".to_string()));
}
