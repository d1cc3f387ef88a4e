//! Word search and tokenization against a small dictionary held in memory.
//! The dictionary is read from JMdict XML with the library's parser and its
//! entries are assembled with the library's row assembly, as the SQLite
//! backend does.

use tentoku::build_database::{DbAction, JmdictParser, ParseStep};
use tentoku::dictionary::Dictionary;
use tentoku::error::TentokuError;
use tentoku::normalize::{kana_to_hiragana, normalize_input};
use tentoku::sqlite_dict::{
    build_entries, EntryRows, GlossRow, KanaRow, KanjiRow, SenseRow, SenseValueRow,
};
use tentoku::tokenizer::{next_token, tokenize};
use tentoku::types::WordEntry;
use tentoku::word_search::{is_only_digits, word_search, WordSearchResult};

const MINI_JMDICT: &str = r#"<?xml version="1.0" encoding="UTF-8"?>
<JMdict>
<entry>
<ent_seq>1549240</ent_seq>
<r_ele><reb>たべる</reb><re_pri>ichi1</re_pri></r_ele>
<k_ele><keb>食べる</keb><ke_pri>ichi1</ke_pri></k_ele>
<sense><pos>v1</pos><gloss>to eat</gloss></sense>
</entry>
<entry>
<ent_seq>1166770</ent_seq>
<r_ele><reb>よむ</reb></r_ele>
<k_ele><keb>読む</keb></k_ele>
<sense><pos>v5m</pos><gloss>to read</gloss></sense>
</entry>
<entry>
<ent_seq>1002830</ent_seq>
<r_ele><reb>たかい</reb></r_ele>
<k_ele><keb>高い</keb></k_ele>
<sense><pos>adj-i</pos><gloss>high; tall</gloss></sense>
</entry>
</JMdict>"#;

struct MemoryDictionary {
    entries: Vec<(i64, String)>,
    rows: EntryRows,
}

impl MemoryDictionary {
    fn from_xml(xml: &str) -> MemoryDictionary {
        let mut parser = JmdictParser::new(xml);
        let mut entries: Vec<(i64, String)> = Vec::new();
        let mut rows = EntryRows {
            kanji: Vec::new(),
            kana: Vec::new(),
            senses: Vec::new(),
            pos: Vec::new(),
            glosses: Vec::new(),
            field: Vec::new(),
            misc: Vec::new(),
            dial: Vec::new(),
        };
        let mut entry_id: i64 = 0;
        let mut sense_id: i64 = 0;
        loop {
            match parser.step().unwrap() {
                ParseStep::Done => break,
                ParseStep::Continue => {}
                ParseStep::Action(action) => match action {
                    DbAction::Entry { ent_seq } => {
                        entry_id += 1;
                        entries.push((entry_id, ent_seq));
                    }
                    DbAction::Sense { sense_index } => {
                        sense_id += 1;
                        rows.senses.push(SenseRow { entry_id, sense_id, index: sense_index, info: None });
                    }
                    DbAction::Gloss { text, lang, g_type } => {
                        rows.glosses.push(GlossRow { sense_id, text, lang: Some(lang), g_type });
                    }
                    DbAction::Kanji { text, priority, info } => {
                        rows.kanji.push(KanjiRow { entry_id, text, priority, info });
                    }
                    DbAction::Reading { text, no_kanji, priority, info, .. } => {
                        rows.kana.push(KanaRow { entry_id, text, no_kanji, priority, info });
                    }
                    DbAction::SenseDone { info, pos, field, misc, dial, .. } => {
                        if let Some(s) = rows.senses.iter_mut().find(|s| s.sense_id == sense_id) {
                            s.info = info;
                        }
                        for value in pos {
                            rows.pos.push(SenseValueRow { sense_id, value });
                        }
                        for value in field {
                            rows.field.push(SenseValueRow { sense_id, value });
                        }
                        for value in misc {
                            rows.misc.push(SenseValueRow { sense_id, value });
                        }
                        for value in dial {
                            rows.dial.push(SenseValueRow { sense_id, value });
                        }
                    }
                },
            }
        }
        MemoryDictionary { entries, rows }
    }

    fn ids_where(&self, hit: impl Fn(i64) -> bool, max_results: usize) -> Vec<(i64, String)> {
        self.entries
            .iter()
            .filter(|(id, _)| hit(*id))
            .take(max_results)
            .cloned()
            .collect()
    }
}

impl Dictionary for MemoryDictionary {
    fn get_words(
        &self,
        input_text: &str,
        max_results: usize,
        matching_text: Option<&str>,
    ) -> Result<Vec<WordEntry>, TentokuError> {
        let normalized_input = kana_to_hiragana(input_text);
        let is_key = |t: &str| t == input_text || t == normalized_input;
        let mut found = self.ids_where(
            |id| self.rows.kana.iter().any(|r| r.entry_id == id && is_key(&r.text)),
            max_results,
        );
        if found.is_empty() {
            found = self.ids_where(
                |id| self.rows.kanji.iter().any(|r| r.entry_id == id && is_key(&r.text)),
                max_results,
            );
        }
        let normalized_matching = kana_to_hiragana(matching_text.unwrap_or(input_text));
        Ok(build_entries(&found, &self.rows, &normalized_matching))
    }

    fn contains_word(&self, word: &str) -> bool {
        let hiragana = kana_to_hiragana(word);
        let is_key = |t: &str| t == word || t == hiragana;
        self.rows.kana.iter().any(|r| is_key(&r.text)) || self.rows.kanji.iter().any(|r| is_key(&r.text))
    }
}

fn make_dict() -> MemoryDictionary {
    MemoryDictionary::from_xml(MINI_JMDICT)
}

#[test]
fn test_tokenize_empty() {
    let d = make_dict();
    assert!(tokenize("", &d, 5).is_empty());
}

#[test]
fn test_tokenize_plain() {
    let d = make_dict();
    let tokens = tokenize("食べる", &d, 5);
    assert_eq!(tokens.len(), 1);
    assert_eq!(tokens[0].text, "食べる");
    assert_eq!(tokens[0].start, 0);
    assert_eq!(tokens[0].end, 3);
    assert!(tokens[0].dictionary_entry.is_some());
    assert_eq!(tokens[0].dictionary_entry.as_ref().unwrap().ent_seq, "1549240");
}

#[test]
fn test_tokenize_unknown_chars() {
    let d = make_dict();
    let tokens = tokenize("abc", &d, 5);
    assert_eq!(tokens.len(), 3);
    for t in &tokens {
        assert!(t.dictionary_entry.is_none());
    }
    assert_eq!(tokens[0].text, "a");
    assert_eq!(tokens[1].text, "b");
    assert_eq!(tokens[2].text, "c");
}

#[test]
fn test_tokenize_mixed() {
    let d = make_dict();
    let tokens = tokenize("食べるabc", &d, 5);
    assert_eq!(tokens.len(), 4);
    assert_eq!(tokens[0].text, "食べる");
    assert!(tokens[0].dictionary_entry.is_some());
    assert_eq!(tokens[1].text, "a");
    assert!(tokens[1].dictionary_entry.is_none());
}

#[test]
fn test_tokenize_deinflected() {
    let d = make_dict();
    let tokens = tokenize("食べた", &d, 5);
    assert!(!tokens.is_empty());
    assert!(tokens[0].dictionary_entry.is_some());
    assert_eq!(tokens[0].dictionary_entry.as_ref().unwrap().ent_seq, "1549240");
    assert!(tokens[0].deinflection_reasons.is_some());
}

#[test]
fn test_tokenize_spans_are_contiguous() {
    let d = make_dict();
    let text = "食べるabc";
    let tokens = tokenize(text, &d, 5);
    let chars: Vec<char> = text.chars().collect();
    for t in &tokens {
        let reconstructed: String = chars[t.start..t.end].iter().collect();
        assert_eq!(reconstructed, t.text);
    }
}

#[test]
fn test_is_only_digits() {
    assert!(is_only_digits("123"));
    assert!(is_only_digits("１２３"));
    assert!(is_only_digits("1,2.3"));
    assert!(!is_only_digits("123a"));
    assert!(!is_only_digits(""));
    assert!(!is_only_digits("食べ"));
}

#[test]
fn test_word_search_plain() {
    let d = make_dict();
    let (normalized, lengths) = normalize_input("食べる");
    let result = word_search(&normalized, &d, 5, Some(&lengths));
    assert!(result.is_some());
    let r = result.unwrap();
    assert!(!r.data.is_empty());
    assert_eq!(r.data[0].entry.ent_seq, "1549240");
}

#[test]
fn test_word_search_deinflected() {
    let d = make_dict();
    // 食べた → 食べる (past)
    let (normalized, lengths) = normalize_input("食べた");
    let result = word_search(&normalized, &d, 5, Some(&lengths));
    assert!(result.is_some());
    let r = result.unwrap();
    assert!(
        r.data.iter().any(|w| w.entry.ent_seq == "1549240"),
        "expected 食べる in results"
    );
}

#[test]
fn test_word_search_adj_deinflected() {
    let d = make_dict();
    // 高かった → 高い (past adj)
    let (normalized, lengths) = normalize_input("高かった");
    let result = word_search(&normalized, &d, 5, Some(&lengths));
    assert!(result.is_some());
    let r = result.unwrap();
    assert!(r.data.iter().any(|w| w.entry.ent_seq == "1002830"));
}

#[test]
fn test_word_search_no_match() {
    let d = make_dict();
    let (normalized, lengths) = normalize_input("zzz");
    let result = word_search(&normalized, &d, 5, Some(&lengths));
    assert!(result.is_none());
}

#[test]
fn word_search_match_len_counts_original_characters() {
    let d = make_dict();
    let (normalized, lengths) = normalize_input("食べるabc");
    let r = word_search(&normalized, &d, 5, Some(&lengths)).unwrap();
    assert_eq!(r.match_len, 3);
    assert!(r.data.iter().all(|w| w.match_len <= r.match_len));
}

#[test]
fn word_search_reports_more_when_capped() {
    let d = make_dict();
    let (normalized, lengths) = normalize_input("食べる");
    let r = word_search(&normalized, &d, 1, Some(&lengths)).unwrap();
    assert_eq!(r.data.len(), 1);
}

#[test]
fn tokenize_reading_in_katakana_finds_entry() {
    let d = make_dict();
    let tokens = tokenize("タベル", &d, 5);
    assert_eq!(tokens.len(), 1);
    assert_eq!(tokens[0].dictionary_entry.as_ref().unwrap().ent_seq, "1549240");
}

#[test]
fn tokens_cover_the_text_in_order() {
    let d = make_dict();
    let text = "読むabc高かった";
    let tokens = tokenize(text, &d, 5);
    let mut next = 0;
    for t in &tokens {
        assert!(t.start >= next);
        assert!(t.start <= t.end);
        next = t.end;
    }
    assert!(next <= text.chars().count());
}

#[test]
fn next_token_without_match_takes_one_character() {
    let orig: Vec<char> = "abc".chars().collect();
    let lengths = vec![0, 1, 2, 3];
    let (t, k) = next_token(&orig, &lengths, 1, None);
    assert_eq!((t.text.as_str(), t.start, t.end, k), ("b", 1, 2, 1));
    assert!(t.dictionary_entry.is_none());
}

#[test]
fn next_token_with_match_spans_the_original_text() {
    // "ab\u{200C}cd" normalizes to "abcd": positions map to 0, 1, 3, 4 (and 5 at the end).
    let orig: Vec<char> = "ab\u{200C}cd".chars().collect();
    let lengths = vec![0, 1, 3, 4, 5];
    let res = WordSearchResult { data: vec![], match_len: 3, more: false };
    let (t, k) = next_token(&orig, &lengths, 1, Some(res));
    assert_eq!((t.start, t.end, k), (1, 4, 2));
    assert_eq!(t.text, "b\u{200C}c");
    assert!(t.dictionary_entry.is_none());
    assert!(t.deinflection_reasons.is_none());
}

/// The two-entry dictionary of the SQLite backend's tests.
const SQLITE_MINI_JMDICT: &str = r#"<?xml version="1.0" encoding="UTF-8"?>
<JMdict>
<entry>
<ent_seq>1549240</ent_seq>
<r_ele><reb>たべる</reb><re_pri>ichi1</re_pri></r_ele>
<k_ele><keb>食べる</keb><ke_pri>ichi1</ke_pri></k_ele>
<sense>
<pos>v1</pos>
<gloss>to eat</gloss>
</sense>
</entry>
<entry>
<ent_seq>1166770</ent_seq>
<r_ele><reb>よむ</reb></r_ele>
<k_ele><keb>読む</keb></k_ele>
<sense>
<pos>v5m</pos>
<gloss>to read</gloss>
</sense>
</entry>
</JMdict>"#;

fn make_test_dict() -> MemoryDictionary {
    MemoryDictionary::from_xml(SQLITE_MINI_JMDICT)
}

#[test]
fn test_exists_kana() {
    let d = make_test_dict();
    assert!(d.contains_word("たべる"));
    assert!(d.contains_word("よむ"));
    assert!(!d.contains_word("みる"));
}

#[test]
fn test_exists_kanji() {
    let d = make_test_dict();
    assert!(d.contains_word("食べる"));
    assert!(d.contains_word("読む"));
}

#[test]
fn test_get_words_by_kana() {
    let d = make_test_dict();
    let results = d.get_words("たべる", 10, None).unwrap();
    assert_eq!(results.len(), 1);
    assert_eq!(results[0].ent_seq, "1549240");
}

#[test]
fn test_get_words_by_kanji() {
    let d = make_test_dict();
    let results = d.get_words("食べる", 10, None).unwrap();
    assert_eq!(results.len(), 1);
}

#[test]
fn test_get_words_pos_tags() {
    let d = make_test_dict();
    let results = d.get_words("たべる", 10, None).unwrap();
    let pos: Vec<&str> = results[0].senses[0].pos_tags.iter().map(|s| s.as_str()).collect();
    assert!(pos.contains(&"v1"), "expected v1 in {:?}", pos);
}

#[test]
fn word_search_of_nothing_or_digits_finds_nothing() {
    let d = make_dict();
    assert!(word_search("", &d, 5, None).is_none());
    assert!(word_search("１２３", &d, 5, None).is_none());
}

#[test]
fn word_search_first_result_carries_the_match_length() {
    let d = make_dict();
    let (normalized, lengths) = normalize_input("高かったです");
    let r = word_search(&normalized, &d, 5, Some(&lengths)).unwrap();
    assert_eq!(r.data[0].match_len, r.match_len);
    assert_eq!(r.more, r.data.len() == 5);
    let capped = word_search(&normalized, &d, 1, Some(&lengths)).unwrap();
    assert!(capped.more);
    assert_eq!(capped.data.len(), 1);
}

const SHI_JMDICT: &str = r#"<?xml version="1.0" encoding="UTF-8"?>
<JMdict>
<entry>
<ent_seq>1000001</ent_seq>
<r_ele><reb>し</reb></r_ele>
<sense><pos>n</pos><gloss>four</gloss></sense>
</entry>
</JMdict>"#;

#[test]
fn word_search_drops_a_whole_yoon_when_shortening() {
    let d = MemoryDictionary::from_xml(SHI_JMDICT);
    let (plain, plain_lengths) = normalize_input("しか");
    let found = word_search(&plain, &d, 5, Some(&plain_lengths)).unwrap();
    assert_eq!(found.match_len, 1);
    let (yoon, yoon_lengths) = normalize_input("しゃ");
    assert!(word_search(&yoon, &d, 5, Some(&yoon_lengths)).is_none());
}

#[test]
fn tokens_match_word_search_at_each_position() {
    let d = make_dict();
    let text = "読む高かったabc";
    let tokens = tokenize(text, &d, 5);
    let chars: Vec<char> = text.chars().collect();
    for t in &tokens {
        let suffix: String = chars[t.start..].iter().collect();
        let lengths: Vec<usize> = (0..=chars.len() - t.start).collect();
        match word_search(&suffix, &d, 5, Some(&lengths)) {
            Some(r) => {
                assert_eq!(t.end, t.start + r.match_len);
                assert_eq!(
                    t.dictionary_entry.as_ref().map(|e| e.ent_seq.clone()),
                    Some(r.data[0].entry.ent_seq.clone())
                );
            }
            None => {
                assert_eq!(t.end, t.start + 1);
                assert!(t.dictionary_entry.is_none());
            }
        }
    }
}

#[test]
fn sorting_results_twice_changes_nothing() {
    let d = make_dict();
    let (normalized, lengths) = normalize_input("高かった");
    let r = word_search(&normalized, &d, 5, Some(&lengths)).unwrap();
    let mut once = r.data.clone();
    tentoku::sorting::sort_word_results(&mut once);
    let mut twice = once.clone();
    tentoku::sorting::sort_word_results(&mut twice);
    let ids = |v: &Vec<tentoku::types::WordResult>| v.iter().map(|w| (w.entry.entry_id, w.match_len)).collect::<Vec<_>>();
    assert_eq!(ids(&once), ids(&twice));
}
