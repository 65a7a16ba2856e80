use cmd_relay::LineSplitter;

fn texts(lines: Vec<Vec<u8>>) -> Vec<String> {
    cmd_relay::decode_lines(&lines)
}

#[test]
fn splits_one_chunk_into_lines() {
    let mut s = LineSplitter::new();
    let lines = s.push_bytes(&b"one\ntwo\nthr".to_vec());
    assert_eq!(texts(lines), vec!["one", "two"]);
    let rest = s.finish().expect("partial line pending");
    assert_eq!(rest, b"thr".to_vec());
}

#[test]
fn joins_lines_split_across_chunks() {
    let mut s = LineSplitter::new();
    let first = s.push_bytes(&b"hel".to_vec());
    assert!(first.is_empty());
    let second = s.push_bytes(&b"lo\nwor".to_vec());
    assert_eq!(texts(second), vec!["hello"]);
    let third = s.push_bytes(&b"ld\n".to_vec());
    assert_eq!(texts(third), vec!["world"]);
    assert!(s.finish().is_none());
}

#[test]
fn empty_lines_are_kept() {
    let mut s = LineSplitter::new();
    let lines = s.push_bytes(&b"\n\na\n".to_vec());
    assert_eq!(texts(lines), vec!["", "", "a"]);
    assert!(s.finish().is_none());
}

#[test]
fn carriage_returns_are_stripped_from_line_ends() {
    let mut s = LineSplitter::new();
    let lines = s.push_bytes(&b"one\r\ntwo\nth\rree\r\n\r\n".to_vec());
    assert_eq!(texts(lines), vec!["one", "two", "th\rree", ""]);
    assert!(s.finish().is_none());
}

#[test]
fn trailing_line_also_loses_its_carriage_return() {
    let mut s = LineSplitter::new();
    let none = s.push_bytes(&b"tail\r".to_vec());
    assert!(none.is_empty());
    let rest = s.finish().expect("partial line pending");
    assert_eq!(rest, b"tail".to_vec());
}

#[test]
fn bare_carriage_return_residual_is_an_empty_line() {
    let mut s = LineSplitter::new();
    s.push_bytes(&b"\r".to_vec());
    let rest = s.finish().expect("a bare carriage return still pends");
    assert!(rest.is_empty());
}

#[test]
fn malformed_bytes_do_not_abort_the_stream() {
    let mut s = LineSplitter::new();
    let mut bytes = b"ok\n".to_vec();
    bytes.extend_from_slice(&[0xFF, 0xFE]);
    bytes.extend_from_slice(b" after\nlast\n");
    let lines = s.push_bytes(&bytes);
    let t = texts(lines);
    assert_eq!(t.len(), 3);
    assert_eq!(t[0], "ok");
    assert_eq!(t[2], "last");
    assert!(t[1].contains('\u{FFFD}'));
    assert!(t[1].ends_with(" after"));
}

#[test]
fn lossy_decode_keeps_valid_utf8() {
    assert_eq!(cmd_relay::lossy_decode(&"héllo ✓".as_bytes().to_vec()), "héllo ✓");
    assert_eq!(cmd_relay::lossy_decode(&Vec::new()), "");
}
