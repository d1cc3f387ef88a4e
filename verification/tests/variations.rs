use tentoku::variations::{expand_choon, kyuujitai_to_shinjitai};

#[test]
fn test_expand_choon_present() {
    let variants = expand_choon("カー");
    assert_eq!(variants.len(), 5);
    assert!(variants.contains(&"カあ".to_string()));
    assert!(variants.contains(&"カい".to_string()));
    assert!(variants.contains(&"カう".to_string()));
    assert!(variants.contains(&"カえ".to_string()));
    assert!(variants.contains(&"カお".to_string()));
}

#[test]
fn test_expand_choon_absent() {
    assert!(expand_choon("カタカナ").is_empty());
    assert!(expand_choon("").is_empty());
}

#[test]
fn test_expand_choon_first_only() {
    // Only the first ー is expanded
    let variants = expand_choon("カーター");
    assert_eq!(variants.len(), 5);
    // First ー replaced, second remains
    assert!(variants.iter().all(|v| v.contains('ー')));
}

#[test]
fn test_kyuujitai_to_shinjitai() {
    assert_eq!(kyuujitai_to_shinjitai("體"), "体");
    assert_eq!(kyuujitai_to_shinjitai("國語"), "国語");
}

#[test]
fn test_kyuujitai_no_change() {
    let s = "日本語";
    assert_eq!(kyuujitai_to_shinjitai(s), s);
}

#[test]
fn expand_choon_order_of_vowels() {
    let variants = expand_choon("ラーメン");
    assert_eq!(variants, vec!["ラあメン", "ラいメン", "ラうメン", "ラえメン", "ラおメン"]);
}
