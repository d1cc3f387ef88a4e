use tentoku::build_database::{
    decode_jmdict_entity_token, decode_xml_entities, extract_jmdict_entities, DbAction,
    JmdictParser, ParseStep,
};
use tentoku::error::TentokuError;
use std::io::Write;

const XML_WITH_ENTITY_POS: &str = r#"<?xml version="1.0" encoding="UTF-8"?>
<!DOCTYPE JMdict [
<!ENTITY v1 "Ichidan verb">
<!ENTITY sK "search-only kanji form">
]>
<JMdict>
<entry>
<ent_seq>1549240</ent_seq>
<r_ele><reb>たべる</reb><re_pri>ichi1</re_pri><re_pri>news1</re_pri></r_ele>
<k_ele><keb>食べる</keb><ke_inf>&sK;</ke_inf></k_ele>
<sense>
<pos>&v1;</pos>
<stagk>食べる</stagk>
<stagr>たべる</stagr>
<s_inf>first note</s_inf>
<s_inf>second note</s_inf>
<gloss>to eat</gloss>
</sense>
</entry>
</JMdict>"#;

fn actions(xml: &str) -> Vec<DbAction> {
    let mut parser = JmdictParser::new(xml);
    let mut out = Vec::new();
    loop {
        match parser.step().unwrap() {
            ParseStep::Done => break,
            ParseStep::Continue => {}
            ParseStep::Action(a) => out.push(a),
        }
    }
    out
}

#[test]
fn test_build_database_preserves_entity_based_pos_tags() {
    let pos: Vec<String> = actions(XML_WITH_ENTITY_POS)
        .into_iter()
        .find_map(|a| match a {
            DbAction::SenseDone { pos, .. } => Some(pos),
            _ => None,
        })
        .unwrap();

    assert_eq!(pos[0], "Ichidan verb");
}

#[test]
fn test_build_database_expands_entity_info_and_persists_sense_metadata() {
    let all = actions(XML_WITH_ENTITY_POS);
    let kanji_info: String = all
        .iter()
        .find_map(|a| match a {
            DbAction::Kanji { info, .. } => info.clone(),
            _ => None,
        })
        .unwrap();
    let (sense_info, stagk, stagr): (String, String, String) = all
        .iter()
        .find_map(|a| match a {
            DbAction::SenseDone { info, stagk, stagr, .. } => {
                Some((info.clone().unwrap(), stagk[0].clone(), stagr[0].clone()))
            }
            _ => None,
        })
        .unwrap();

    assert_eq!(kanji_info, "search-only kanji form");
    assert_eq!(sense_info, "first note; second note");
    assert_eq!(stagk, "食べる");
    assert_eq!(stagr, "たべる");
}

#[test]
fn test_build_database_uses_first_priority_value_like_python_builder() {
    let reading_priority: String = actions(XML_WITH_ENTITY_POS)
        .into_iter()
        .find_map(|a| match a {
            DbAction::Reading { priority, .. } => priority,
            _ => None,
        })
        .unwrap();
    assert_eq!(reading_priority, "ichi1");
}

#[test]
fn entity_declarations_are_read_in_order() {
    let entities = extract_jmdict_entities(XML_WITH_ENTITY_POS);
    assert_eq!(
        entities,
        vec![
            ("v1".to_string(), "Ichidan verb".to_string()),
            ("sK".to_string(), "search-only kanji form".to_string()),
        ]
    );
}

#[test]
fn entity_declarations_single_quotes_and_escapes() {
    let xml = "  <!ENTITY x 'a &lt;b&gt; &amp;amp;'>\n<!ENTITY broken \"no end>\n<!ENTITY\tnot-a-decl \"v\">";
    let entities = extract_jmdict_entities(xml);
    assert_eq!(entities, vec![("x".to_string(), "a <b> &amp;".to_string())]);
}

#[test]
fn xml_entities_decode_in_order() {
    assert_eq!(decode_xml_entities("&quot;&apos;&lt;&gt;&amp;"), "\"'<>&");
    assert_eq!(decode_xml_entities("&amp;lt;"), "&lt;");
    assert_eq!(decode_xml_entities("plain text"), "plain text");
}

#[test]
fn entity_token_expansion() {
    let entities = vec![
        ("v1".to_string(), "Ichidan verb".to_string()),
        ("v1".to_string(), "later value".to_string()),
    ];
    assert_eq!(decode_jmdict_entity_token("&v1;", &entities), "later value");
    assert_eq!(decode_jmdict_entity_token("  &v5m; ", &entities), "v5m");
    assert_eq!(decode_jmdict_entity_token("&bad name;", &entities), "&bad name;");
    assert_eq!(decode_jmdict_entity_token("&;", &entities), "&;");
    assert_eq!(decode_jmdict_entity_token("to eat", &entities), "to eat");
}

#[test]
fn sense_without_pos_inherits_previous() {
    let xml = "<JMdict><entry><ent_seq>1</ent_seq><sense><pos>n</pos><gloss>a</gloss></sense>\
               <sense><gloss xml:lang=\"ger\" g_type=\"lit\">b</gloss></sense></entry></JMdict>";
    let all = actions(xml);
    let pos: Vec<Vec<String>> = all
        .iter()
        .filter_map(|a| match a {
            DbAction::SenseDone { pos, .. } => Some(pos.clone()),
            _ => None,
        })
        .collect();
    assert_eq!(pos, vec![vec!["n".to_string()], vec!["n".to_string()]]);
    let glosses: Vec<(String, String, Option<String>)> = all
        .iter()
        .filter_map(|a| match a {
            DbAction::Gloss { text, lang, g_type } => Some((text.clone(), lang.clone(), g_type.clone())),
            _ => None,
        })
        .collect();
    assert_eq!(
        glosses,
        vec![
            ("a".to_string(), "eng".to_string(), None),
            ("b".to_string(), "ger".to_string(), Some("lit".to_string())),
        ]
    );
    let indices: Vec<usize> = all
        .iter()
        .filter_map(|a| match a {
            DbAction::Sense { sense_index } => Some(*sense_index),
            _ => None,
        })
        .collect();
    assert_eq!(indices, vec![0, 1]);
}

#[test]
fn reading_flags_and_restrictions() {
    let xml = "<JMdict><entry><ent_seq>2</ent_seq><r_ele><reb>あ</reb><re_nokanji/>\
               <re_restr>亜</re_restr><re_inf>ok</re_inf><re_inf>ik</re_inf></r_ele></entry></JMdict>";
    let reading = actions(xml)
        .into_iter()
        .find_map(|a| match a {
            DbAction::Reading { text, no_kanji, info, restrictions, .. } => Some((text, no_kanji, info, restrictions)),
            _ => None,
        })
        .unwrap();
    assert_eq!(reading.0, "あ");
    assert!(reading.1);
    assert_eq!(reading.2, Some("ok,ik".to_string()));
    assert_eq!(reading.3, vec!["亜".to_string()]);
}

#[test]
fn malformed_xml_is_a_build_error() {
    let mut parser = JmdictParser::new("<JMdict><entry></JMdict>");
    let mut result = Ok(());
    for _ in 0..10 {
        match parser.step() {
            Ok(ParseStep::Done) => break,
            Ok(_) => {}
            Err(e) => {
                result = Err(e);
                break;
            }
        }
    }
    match result {
        Err(TentokuError::Build(m)) => assert!(m.starts_with("XML error: ")),
        _ => panic!("expected an XML error"),
    }
}

#[test]
fn gzip_download_decompresses_to_xml() {
    let mut enc = flate2::write::GzEncoder::new(Vec::new(), flate2::Compression::default());
    enc.write_all(XML_WITH_ENTITY_POS.as_bytes()).unwrap();
    let gz = enc.finish().unwrap();
    let xml = tentoku::build_database::decompress_jmdict(&gz).unwrap();
    assert_eq!(xml, XML_WITH_ENTITY_POS);
}

#[test]
fn gzip_garbage_is_io_error() {
    let r = tentoku::build_database::decompress_jmdict(b"not gzip at all");
    assert!(matches!(r, Err(TentokuError::Io(_))));
}

#[test]
fn text_escapes_are_decoded() {
    let xml = "<JMdict><entry><ent_seq>3</ent_seq><sense><gloss>a &lt; b &amp; c</gloss></sense></entry></JMdict>";
    let gloss = actions(xml)
        .into_iter()
        .find_map(|a| match a {
            DbAction::Gloss { text, .. } => Some(text),
            _ => None,
        })
        .unwrap();
    assert_eq!(gloss, "a < b & c");
}
