use tentoku::yoon::ends_in_yoon;

#[test]
fn test_ends_in_yoon_true() {
    assert!(ends_in_yoon("きゃ"));
    assert!(ends_in_yoon("しゅ"));
    assert!(ends_in_yoon("ちょ"));
    assert!(ends_in_yoon("abcきゃ"));
}

#[test]
fn test_ends_in_yoon_false() {
    assert!(!ends_in_yoon("き"));
    assert!(!ends_in_yoon(""));
    assert!(!ends_in_yoon("a"));
    assert!(!ends_in_yoon("かな"));
}

#[test]
fn ends_in_yoon_needs_a_yoon_starter() {
    assert!(!ends_in_yoon("あゃ"));
    assert!(ends_in_yoon("びょ"));
}

