use tentoku::normalize::{half_to_full_width_num, kana_to_hiragana, normalize_input};

#[test]
fn test_kana_to_hiragana_katakana() {
    assert_eq!(kana_to_hiragana("カタカナ"), "かたかな");
}

#[test]
fn test_kana_to_hiragana_mixed() {
    assert_eq!(kana_to_hiragana("カタカナとひらがな"), "かたかなとひらがな");
}

#[test]
fn test_kana_to_hiragana_special() {
    assert_eq!(kana_to_hiragana("\u{30F7}"), "わ");
    assert_eq!(kana_to_hiragana("\u{30F8}"), "ゐ");
    assert_eq!(kana_to_hiragana("\u{30F9}"), "ゑ");
    assert_eq!(kana_to_hiragana("\u{30FA}"), "を");
}

#[test]
fn test_kana_to_hiragana_passthrough() {
    assert_eq!(kana_to_hiragana("hello"), "hello");
    assert_eq!(kana_to_hiragana("日本語"), "日本語");
}

#[test]
fn test_half_to_full_width_num() {
    assert_eq!(half_to_full_width_num("123"), "１２３");
    assert_eq!(half_to_full_width_num("abc"), "abc");
    assert_eq!(half_to_full_width_num("1a2b"), "１a２b");
}

#[test]
fn test_normalize_input_empty() {
    let (text, lengths) = normalize_input("");
    assert_eq!(text, "");
    assert_eq!(lengths, vec![0]);
}

#[test]
fn test_normalize_input_simple() {
    let (text, lengths) = normalize_input("こんにちは");
    assert_eq!(text, "こんにちは");
    // lengths should have 6 elements (5 chars + sentinel)
    assert_eq!(lengths.len(), 6);
    assert_eq!(lengths[0], 0);
    assert_eq!(lengths[5], 5);
}

#[test]
fn test_normalize_input_zwnj() {
    // ZWNJ between chars should be stripped
    let input = "こ\u{200C}に";
    let (text, lengths) = normalize_input(input);
    assert_eq!(text, "こに");
    // 2 chars in result → 3 entries in lengths
    assert_eq!(lengths.len(), 3);
}

#[test]
fn test_normalize_input_numbers() {
    let (text, _lengths) = normalize_input("123");
    assert_eq!(text, "１２３");
}

#[test]
fn normalize_input_maps_positions_back() {
    // The ZWNJ is dropped, so the character after it came from position 2.
    let (text, lengths) = normalize_input("こ\u{200C}に");
    assert_eq!(text, "こに");
    assert_eq!(lengths, vec![0, 2, 3]);
}

#[test]
fn normalize_input_composes_nfc() {
    // か + combining voiced mark composes to が; both input characters map to it.
    let (text, lengths) = normalize_input("か\u{3099}");
    assert_eq!(text, "が");
    assert_eq!(lengths, vec![0, 2]);
}

#[test]
fn kana_to_hiragana_keeps_length() {
    let s = "ヴァイオリン";
    assert_eq!(kana_to_hiragana(s).chars().count(), s.chars().count());
    assert_eq!(kana_to_hiragana(s), "ゔぁいおりん");
}

#[test]
fn conversions_are_idempotent() {
    let s = "カタカナ123とヷ";
    let once = kana_to_hiragana(s);
    assert_eq!(kana_to_hiragana(&once), once);
    let wide = half_to_full_width_num(s);
    assert_eq!(half_to_full_width_num(&wide), wide);
}
