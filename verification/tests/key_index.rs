use tentoku::error::TentokuError;
use tentoku::key_index::KeyIndex;

fn sample_index() -> KeyIndex {
    KeyIndex::build(
        ["食べる", "読む", "高い", "たべる", "よむ", "たかい"]
            .iter()
            .map(|s| s.to_string())
            .collect(),
    )
}

#[test]
fn test_contains_found() {
    let idx = sample_index();
    assert!(idx.contains("食べる"));
    assert!(idx.contains("読む"));
    assert!(idx.contains("たかい"));
}

#[test]
fn test_contains_not_found() {
    let idx = sample_index();
    assert!(!idx.contains("みる"));
    assert!(!idx.contains(""));
    assert!(!idx.contains("食べた")); // inflected form not in index
}

#[test]
fn test_dedup() {
    let idx = KeyIndex::build(["食べる", "食べる", "読む"].iter().map(|s| s.to_string()).collect());
    assert_eq!(idx.len(), 2);
}

#[test]
fn test_round_trip() {
    let original = sample_index();
    let mut buf: Vec<u8> = Vec::new();
    original.write_to(&mut buf).unwrap();

    let loaded = KeyIndex::read_from(&buf).unwrap();

    assert_eq!(loaded.len(), original.len());
    assert!(loaded.contains("食べる"));
    assert!(loaded.contains("よむ"));
    assert!(!loaded.contains("みる"));
}

#[test]
fn test_empty_index() {
    let idx = KeyIndex::build(Vec::new());
    assert_eq!(idx.len(), 0);
    assert!(!idx.contains("foo"));

    let mut buf: Vec<u8> = Vec::new();
    idx.write_to(&mut buf).unwrap();
    let loaded = KeyIndex::read_from(&buf).unwrap();
    assert_eq!(loaded.len(), 0);
}

#[test]
fn key_index_bytes_layout() {
    let idx = KeyIndex::build(vec!["b".to_string(), "a".to_string()]);
    let mut buf: Vec<u8> = Vec::new();
    idx.write_to(&mut buf).unwrap();
    let mut expected: Vec<u8> = b"VRKIDX1\0".to_vec();
    expected.extend_from_slice(&[2, 0, 0, 0]);
    expected.extend_from_slice(&[0, 0, 0, 0, 1, 0, 0, 0, 2, 0, 0, 0]);
    expected.extend_from_slice(b"ab");
    assert_eq!(buf, expected);
}

#[test]
fn key_index_rewrite_gives_same_bytes() {
    let idx = sample_index();
    let mut first: Vec<u8> = Vec::new();
    idx.write_to(&mut first).unwrap();
    first.extend_from_slice(b"trailing");
    let loaded = KeyIndex::read_from(&first).unwrap();
    let mut second: Vec<u8> = Vec::new();
    loaded.write_to(&mut second).unwrap();
    assert_eq!(&first[..second.len()], &second[..]);
}

#[test]
fn key_index_short_input_is_io_error() {
    assert!(matches!(KeyIndex::read_from(b"VRK"), Err(TentokuError::Io(_))));
    assert!(matches!(KeyIndex::read_from(b"VRKIDX1\0\x01"), Err(TentokuError::Io(_))));
    let mut truncated: Vec<u8> = b"VRKIDX1\0".to_vec();
    truncated.extend_from_slice(&[1, 0, 0, 0, 0, 0, 0, 0]);
    assert!(matches!(KeyIndex::read_from(&truncated), Err(TentokuError::Io(_))));
}

#[test]
fn key_index_bad_magic_is_index_error() {
    match KeyIndex::read_from(b"NOTANIDX\0\0\0\0\0\0\0\0") {
        Err(TentokuError::Index(m)) => assert_eq!(m, "bad magic bytes"),
        _ => panic!("expected an index error"),
    }
}

#[test]
fn key_index_decreasing_offsets_are_rejected() {
    let mut b: Vec<u8> = b"VRKIDX1\0".to_vec();
    b.extend_from_slice(&[1, 0, 0, 0]);
    b.extend_from_slice(&[2, 0, 0, 0, 1, 0, 0, 0]);
    b.extend_from_slice(b"x");
    match KeyIndex::read_from(&b) {
        Err(TentokuError::Index(m)) => assert_eq!(m, "bad offsets"),
        _ => panic!("expected an index error"),
    }
}

#[test]
fn key_index_empty_writes_sixteen_bytes() {
    let idx = KeyIndex::build(Vec::new());
    let mut buf: Vec<u8> = Vec::new();
    idx.write_to(&mut buf).unwrap();
    let mut expected: Vec<u8> = b"VRKIDX1\0".to_vec();
    expected.extend_from_slice(&[0, 0, 0, 0, 0, 0, 0, 0]);
    assert_eq!(buf, expected);
}

#[test]
fn key_index_offsets_follow_key_lengths() {
    let idx = KeyIndex::build(vec!["読む".to_string(), "a".to_string(), "a".to_string()]);
    let mut buf: Vec<u8> = Vec::new();
    idx.write_to(&mut buf).unwrap();
    let mut expected: Vec<u8> = b"VRKIDX1\0".to_vec();
    expected.extend_from_slice(&[2, 0, 0, 0]);
    expected.extend_from_slice(&[0, 0, 0, 0, 1, 0, 0, 0, 7, 0, 0, 0]);
    expected.extend_from_slice("a読む".as_bytes());
    assert_eq!(buf, expected);
}
