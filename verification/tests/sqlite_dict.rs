use tentoku::sqlite_dict::{
    build_entries, exceeds_lookup_length, lookup_step, misses_to_forget, EntryRows, GlossRow,
    KanaRow, KanjiRow, LookupAction, LookupEvent, LookupStage, LookupTable, SenseRow,
    SenseValueRow,
};

fn rows() -> EntryRows {
    EntryRows {
        kanji: vec![
            KanjiRow { entry_id: 1, text: "食べる".into(), priority: Some("ichi1".into()), info: None },
            KanjiRow { entry_id: 2, text: "炊く".into(), priority: None, info: None },
        ],
        kana: vec![
            KanaRow { entry_id: 1, text: "たべる".into(), no_kanji: false, priority: None, info: None },
            KanaRow { entry_id: 2, text: "かしぐ".into(), no_kanji: false, priority: None, info: None },
            KanaRow { entry_id: 2, text: "たく".into(), no_kanji: false, priority: None, info: None },
            KanaRow { entry_id: 2, text: "タク".into(), no_kanji: true, priority: None, info: None },
        ],
        senses: vec![
            SenseRow { entry_id: 1, sense_id: 10, index: 0, info: Some("note".into()) },
            SenseRow { entry_id: 2, sense_id: 20, index: 0, info: None },
        ],
        pos: vec![
            SenseValueRow { sense_id: 10, value: "v1".into() },
            SenseValueRow { sense_id: 20, value: "v5k".into() },
        ],
        glosses: vec![
            GlossRow { sense_id: 10, text: "to eat".into(), lang: None, g_type: None },
            GlossRow { sense_id: 20, text: "to cook".into(), lang: Some("eng".into()), g_type: Some("lit".into()) },
        ],
        field: vec![SenseValueRow { sense_id: 20, value: "food".into() }],
        misc: vec![],
        dial: vec![],
    }
}

#[test]
fn entries_keep_fetched_order_and_seq_numbers() {
    let entries = vec![(2, "2000002".to_string()), (1, "1549240".to_string())];
    let out = build_entries(&entries, &rows(), "たく");
    assert_eq!(out.len(), 2);
    assert_eq!(out[0].entry_id, 2);
    assert_eq!(out[0].ent_seq, "2000002");
    assert_eq!(out[1].ent_seq, "1549240");
}

#[test]
fn kanji_match_marks_only_matching_kanji() {
    let entries = vec![(1, "1549240".to_string())];
    let out = build_entries(&entries, &rows(), "食べる");
    let e = &out[0];
    assert_eq!(e.kanji_readings.len(), 1);
    assert!(e.kanji_readings[0].matched);
    assert_eq!(e.kanji_readings[0].match_range, Some((0, 3)));
    assert_eq!(e.kana_readings.len(), 1);
    assert!(!e.kana_readings[0].matched);
    assert_eq!(e.kana_readings[0].match_range, None);
}

#[test]
fn kana_match_marks_readings_from_first_match() {
    let entries = vec![(2, "2000002".to_string())];
    let out = build_entries(&entries, &rows(), "たく");
    let e = &out[0];
    // No kanji form matches, so every kanji reading is marked.
    assert!(e.kanji_readings[0].matched);
    assert_eq!(e.kanji_readings[0].match_range, None);
    // Readings before the first match are marked, then only matching ones.
    let marks: Vec<bool> = e.kana_readings.iter().map(|r| r.matched).collect();
    assert_eq!(marks, vec![true, true, true]);
    assert_eq!(e.kana_readings[0].match_range, None);
    assert_eq!(e.kana_readings[1].match_range, Some((0, 2)));
    assert_eq!(e.kana_readings[2].match_range, Some((0, 2)));
    assert!(e.kana_readings[2].no_kanji);
}

#[test]
fn senses_collect_tags_and_glosses() {
    let entries = vec![(1, "1549240".to_string()), (2, "2000002".to_string())];
    let out = build_entries(&entries, &rows(), "");
    let s1 = &out[0].senses[0];
    assert_eq!(s1.pos_tags, vec!["v1".to_string()]);
    assert_eq!(s1.glosses[0].lang, "eng");
    assert_eq!(s1.info.as_deref(), Some("note"));
    assert!(s1.field.is_none());
    let s2 = &out[1].senses[0];
    assert_eq!(s2.field, Some(vec!["food".to_string()]));
    assert_eq!(s2.glosses[0].g_type.as_deref(), Some("lit"));
    assert!(s2.misc.is_none());
}

#[test]
fn lookup_length_limit() {
    assert!(!exceeds_lookup_length("たべる", 3));
    assert!(exceeds_lookup_length("たべるよ", 3));
    assert!(!exceeds_lookup_length("", 0));
}

#[test]
fn lookup_of_a_long_text_answers_nothing() {
    let (stage, action) = lookup_step(LookupStage::Start, LookupEvent::Begin, "たべる", 2, 5, None);
    assert!(matches!(stage, LookupStage::Finished));
    assert!(matches!(action, LookupAction::Nothing));
    let (stage, action) = lookup_step(LookupStage::Start, LookupEvent::Begin, "たべる", 3, 5, None);
    assert!(matches!(stage, LookupStage::AwaitMissCache));
    assert!(matches!(action, LookupAction::CheckMissCache));
}

#[test]
fn lookup_queries_readings_then_kanji_then_records_a_miss() {
    let (_, action) = lookup_step(LookupStage::AwaitMissCache, LookupEvent::InMissCache(true), "タベル", 10, 5, None);
    assert!(matches!(action, LookupAction::Nothing));
    let (stage, action) =
        lookup_step(LookupStage::AwaitMissCache, LookupEvent::InMissCache(false), "タベル", 10, 5, None);
    assert!(matches!(stage, LookupStage::AwaitReadings));
    match action {
        LookupAction::Query { table, text, hiragana, limit } => {
            assert!(matches!(table, LookupTable::Readings));
            assert_eq!(text, "タベル");
            assert_eq!(hiragana, "たべる");
            assert_eq!(limit, 5);
        }
        _ => panic!("expected a query"),
    }
    let (stage, action) = lookup_step(LookupStage::AwaitReadings, LookupEvent::Found(Vec::new()), "タベル", 10, 5, None);
    assert!(matches!(stage, LookupStage::AwaitKanji));
    assert!(matches!(action, LookupAction::Query { table: LookupTable::Kanji, .. }));
    let (stage, action) = lookup_step(LookupStage::AwaitKanji, LookupEvent::Found(Vec::new()), "タベル", 10, 5, None);
    assert!(matches!(stage, LookupStage::Finished));
    assert!(matches!(action, LookupAction::RecordMiss));
}

#[test]
fn lookup_assembles_what_it_found_against_the_matching_text() {
    let found = vec![(1i64, "1549240".to_string())];
    let (stage, action) =
        lookup_step(LookupStage::AwaitReadings, LookupEvent::Found(found), "たべる", 10, 5, Some("タベル"));
    assert!(matches!(stage, LookupStage::Finished));
    match action {
        LookupAction::Assemble { entries, matching } => {
            assert_eq!(entries, vec![(1i64, "1549240".to_string())]);
            assert_eq!(matching, "たべる");
        }
        _ => panic!("expected assembly"),
    }
}

#[test]
fn miss_cache_is_cut_past_its_limit() {
    assert_eq!(misses_to_forget(100_000), 0);
    assert_eq!(misses_to_forget(100_001), 20_000);
}
