use tentoku::deinflect::deinflect;
use tentoku::types::{CandidateWord, Reason};

fn has_result(candidates: &[CandidateWord], word: &str) -> bool {
    candidates.iter().any(|c| c.word == word)
}

fn has_result_with_reason(candidates: &[CandidateWord], word: &str, reason: Reason) -> bool {
    candidates
        .iter()
        .any(|c| c.word == word && c.reason_chains.iter().any(|chain| chain.contains(&reason)))
}

#[test]
fn test_original_word_preserved() {
    let r = deinflect("食べる");
    assert!(has_result(&r, "食べる"));
}

#[test]
fn test_past_tense() {
    let r = deinflect("読んだ");
    assert!(
        has_result(&r, "読む"),
        "読む not found in {:?}",
        r.iter().map(|c| &c.word).collect::<Vec<_>>()
    );
}

#[test]
fn test_te_form() {
    // 食べて: て→'' (TA_TE_STEM), then stem forwarding appends る → 食べる
    let r = deinflect("食べて");
    assert!(has_result_with_reason(&r, "食べる", Reason::Te));
}

#[test]
fn test_negative() {
    let r = deinflect("読まない");
    assert!(has_result(&r, "読む"), "読む not found");
}

#[test]
fn test_polite() {
    let r = deinflect("走ります");
    assert!(has_result_with_reason(&r, "走る", Reason::Polite));
}

#[test]
fn test_i_adj_past() {
    let r = deinflect("高かった");
    assert!(has_result_with_reason(&r, "高い", Reason::Past));
}

#[test]
fn test_i_adj_negative() {
    let r = deinflect("高くない");
    assert!(has_result(&r, "高い"));
}

#[test]
fn test_i_adj_adv() {
    let r = deinflect("高く");
    assert!(has_result_with_reason(&r, "高い", Reason::Adv));
}

#[test]
fn test_suru_volitional() {
    let r = deinflect("しよう");
    assert!(has_result_with_reason(&r, "する", Reason::Volitional));
}

#[test]
fn test_suru_negative() {
    let r = deinflect("しない");
    assert!(has_result(&r, "する"));
}

#[test]
fn test_suru_past() {
    let r = deinflect("した");
    assert!(has_result(&r, "する"));
}

#[test]
fn test_suru_te() {
    let r = deinflect("して");
    assert!(has_result_with_reason(&r, "する", Reason::Te));
}

#[test]
fn test_iku_past() {
    // 行った → 行く (irregular te-form)
    let r = deinflect("行った");
    assert!(
        has_result(&r, "行く"),
        "行く not found in {:?}",
        r.iter().map(|c| &c.word).collect::<Vec<_>>()
    );
}

#[test]
fn test_chain_reason() {
    // 踊りたくなかった → 踊る via Tai, Negative, Past
    let r = deinflect("踊りたくなかった");
    assert!(has_result(&r, "踊る"), "踊る not found");
}

#[test]
fn test_no_duplicate_reasons() {
    // 見させさせる should NOT produce 見る (duplicate Causative)
    let r = deinflect("見させさせる");
    let found = r.iter().any(|c| c.word == "見る");
    assert!(!found, "見る should NOT appear (duplicate causative)");
}

#[test]
fn deinflect_first_candidate_is_input() {
    let r = deinflect("走ります");
    assert_eq!(r[0].word, "走ります");
    assert!(r[0].reason_chains.is_empty());
}

#[test]
fn deinflect_continuous_polite_chain() {
    let r = deinflect("食べています");
    let c = r.iter().find(|c| c.word == "食べる").expect("食べる");
    assert!(c
        .reason_chains
        .iter()
        .any(|chain| chain == &vec![Reason::Continuous, Reason::Polite]));
}

#[test]
fn deinflect_katakana_ending() {
    // The ending is matched after conversion to hiragana.
    let r = deinflect("タベタ");
    assert!(has_result_with_reason(&r, "タベる", Reason::Past));
}
