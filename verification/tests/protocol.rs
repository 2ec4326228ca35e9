use run_stars::error::{Error, ParseError};
use run_stars::path::{decode, encode, is_runtime};
use run_stars::read::parse;
use run_stars::{bytes_eq, Status, Task};

#[test]
fn encode_replaces_slashes() {
    let p = b"/home/user/batch".to_vec();
    let e = encode(&p);
    assert_eq!(e, b"%home%user%batch".to_vec());
    assert!(!e.contains(&b'/'));
}

#[test]
fn encode_doubles_escapes() {
    let p = b"/a%b".to_vec();
    assert_eq!(encode(&p), b"%a%%b".to_vec());
}

#[test]
fn encode_decode_round_trip() {
    let cases: Vec<&[u8]> = vec![
        b"",
        b"/",
        b"/home/user/batch",
        b"/a%b/c%%d",
        b"relative/path",
        b"/with space/and,comma",
    ];
    for c in cases {
        let p = c.to_vec();
        let e = encode(&p);
        assert_eq!(decode(&e), p);
    }
}

#[test]
fn decode_lone_escape_is_slash() {
    assert_eq!(decode(&b"%".to_vec()), b"/".to_vec());
    assert_eq!(decode(&b"%%".to_vec()), b"%".to_vec());
    assert_eq!(decode(&b"%%%".to_vec()), b"%/".to_vec());
}

#[test]
fn status_bytes_round_trip() {
    let all = [
        (Status::Success, b'S'),
        (Status::Failure, b'F'),
        (Status::Running, b'R'),
        (Status::Waiting, b'W'),
        (Status::Unknown, b'U'),
    ];
    for (s, b) in all {
        assert_eq!(s.byte(), b);
        assert_eq!(Status::of_byte(b), Some(s));
    }
    assert_eq!(Status::of_byte(b'X'), None);
}

fn task(status: Status, code: u8, time: &[u8], path: &[u8]) -> Task {
    Task { status, code, time: time.to_vec(), path: path.to_vec() }
}

#[test]
fn serialize_exact_line() {
    let tasks = vec![task(Status::Success, 0, b"2024-01-01T00:00:00Z", b"/dir/ok")];
    let mut buf = Vec::new();
    run_stars::write::write(&mut buf, &tasks);
    assert_eq!(buf, b"S,0,2024-01-01T00:00:00Z,/dir/ok\n".to_vec());
}

#[test]
fn serialize_failure_line_with_code() {
    let tasks = vec![task(Status::Failure, 7, b"2024-01-01T00:00:00Z", b"/dir/fail")];
    let mut buf = Vec::new();
    run_stars::write::write(&mut buf, &tasks);
    assert_eq!(buf, b"F,7,2024-01-01T00:00:00Z,/dir/fail\n".to_vec());
}

#[test]
fn serialize_empty_list_is_empty_file() {
    let mut buf = vec![1, 2, 3];
    run_stars::write::write(&mut buf, &Vec::new());
    assert!(buf.is_empty());
}

#[test]
fn line_round_trip_through_parse() {
    let tasks = vec![
        task(Status::Waiting, 0, b"2024-01-01T00:00:00Z", b"/x/a"),
        task(Status::Failure, 255, b"2024-06-14T17:30:00.123Z", b"/x/with,comma"),
        task(Status::Running, 0, b"2024-01-01T00:00:00Z", b""),
    ];
    let mut buf = Vec::new();
    run_stars::write::write(&mut buf, &tasks);
    let parsed = parse(&buf, &b"/state/file".to_vec()).unwrap();
    assert_eq!(parsed.len(), tasks.len());
    for (p, t) in parsed.iter().zip(tasks.iter()) {
        assert_eq!(p.status, t.status);
        assert_eq!(p.code, t.code);
        assert_eq!(p.time, t.time);
        assert_eq!(p.path, t.path);
    }
}

#[test]
fn fresh_task_serialises_and_parses() {
    // The timestamp of a fresh task is the time library's own rendering;
    // parsing must accept it back.
    let t = Task::new(b"/dir/child".to_vec());
    assert_eq!(t.status, Status::Waiting);
    assert_eq!(t.code, 0);
    let mut buf = Vec::new();
    run_stars::write::write(&mut buf, &vec![t]);
    let parsed = parse(&buf, &b"/state/file".to_vec()).unwrap();
    assert_eq!(parsed.len(), 1);
    assert_eq!(parsed[0].status, Status::Waiting);
    assert_eq!(parsed[0].path, b"/dir/child".to_vec());
}

#[test]
fn parse_empty_content() {
    let parsed = parse(&Vec::new(), &b"/state/file".to_vec()).unwrap();
    assert!(parsed.is_empty());
}

#[test]
fn parse_without_trailing_newline() {
    let content = b"S,0,2024-01-01T00:00:00Z,/a".to_vec();
    let parsed = parse(&content, &b"/f".to_vec()).unwrap();
    assert_eq!(parsed.len(), 1);
    assert_eq!(parsed[0].path, b"/a".to_vec());
}

#[test]
fn parse_accepts_signed_and_padded_codes() {
    let content = b"S,+7,2024-01-01T00:00:00Z,/a\nS,007,2024-01-01T00:00:00Z,/b\n".to_vec();
    let parsed = parse(&content, &b"/f".to_vec()).unwrap();
    assert_eq!(parsed[0].code, 7);
    assert_eq!(parsed[1].code, 7);
}

#[test]
fn parse_rejects_bad_status() {
    let content = b"X,0,2024-01-01T00:00:00Z,/a\n".to_vec();
    match parse(&content, &b"/f".to_vec()) {
        Err(Error::Parse { e: ParseError::Status(f), num, .. }) => {
            assert_eq!(f, b"X".to_vec());
            assert_eq!(num, 0);
        },
        other => panic!("expected a status error, got {:?}", other),
    }
}

#[test]
fn parse_rejects_bad_code() {
    let content = b"S,0,2024-01-01T00:00:00Z,/a\nS,256,2024-01-01T00:00:00Z,/b\n".to_vec();
    match parse(&content, &b"/f".to_vec()) {
        Err(Error::Parse { e: ParseError::Code(f), num, .. }) => {
            assert_eq!(f, b"256".to_vec());
            assert_eq!(num, 1);
        },
        other => panic!("expected a code error, got {:?}", other),
    }
}

#[test]
fn parse_rejects_bad_timestamp() {
    let content = b"S,0,yesterday,/a\n".to_vec();
    match parse(&content, &b"/f".to_vec()) {
        Err(Error::Parse { e: ParseError::Timestamp(f), .. }) => {
            assert_eq!(f, b"yesterday".to_vec());
        },
        other => panic!("expected a timestamp error, got {:?}", other),
    }
}

#[test]
fn parse_rejects_malformed_line() {
    let content = b"S,0\n".to_vec();
    match parse(&content, &b"/f".to_vec()) {
        Err(Error::Malformed { n, line, path }) => {
            assert_eq!(n, 1);
            assert_eq!(line, b"S,0".to_vec());
            assert_eq!(path, b"/f".to_vec());
        },
        other => panic!("expected a malformed line, got {:?}", other),
    }
}

#[test]
fn is_runtime_checks_parent() {
    let dir = b"/run/user/1000/run_stars".to_vec();
    assert!(is_runtime(&b"/run/user/1000/run_stars/%a%b".to_vec(), &dir));
    assert!(!is_runtime(&b"/run/user/1000/other/%a%b".to_vec(), &dir));
    assert!(!is_runtime(&b"no_slashes".to_vec(), &dir));
    assert!(is_runtime(&b"/file".to_vec(), &b"/".to_vec()));
}

#[test]
fn non_utf8_path_bytes_survive() {
    // Paths are byte strings; bytes that are not UTF-8 must pass through
    // both the identity encoding and the line format untouched.
    let p: Vec<u8> = vec![b'/', 0xff, 0xfe, 0x80, b',', b'/', b'b'];
    let e = encode(&p);
    assert_eq!(decode(&e), p);
    let tasks = vec![task(Status::Success, 0, b"2024-01-01T00:00:00Z", &p)];
    let mut buf = Vec::new();
    run_stars::write::write(&mut buf, &tasks);
    let parsed = parse(&buf, &b"/f".to_vec()).unwrap();
    assert_eq!(parsed[0].path, p);
}

#[test]
fn bytes_eq_compares_contents() {
    assert!(bytes_eq(&b"abc".to_vec(), &b"abc".to_vec()));
    assert!(!bytes_eq(&b"abc".to_vec(), &b"abd".to_vec()));
    assert!(!bytes_eq(&b"abc".to_vec(), &b"ab".to_vec()));
}
