//! Dictionary entries assembled from the rows of the JMdict database.
//!
//! The database keeps an entry's kanji elements, readings, senses and the
//! senses' tags and glosses in tables of their own. The rows fetched for a
//! set of entries are assembled here into `WordEntry` values, with each
//! reading marked as matching the looked-up text or not.

use vstd::prelude::*;

use crate::normalize::{chars_to_hiragana, kana_to_hiragana, spec_kana_to_hiragana};
use crate::text::{chars_equal, to_chars};
use crate::types::{Gloss, KanaReading, KanjiReading, Sense, WordEntry};

verus! {

/// A row of the kanji table.
pub struct KanjiRow {
    pub entry_id: i64,
    pub text: String,
    pub priority: Option<String>,
    pub info: Option<String>,
}

/// A row of the readings table.
pub struct KanaRow {
    pub entry_id: i64,
    pub text: String,
    pub no_kanji: bool,
    pub priority: Option<String>,
    pub info: Option<String>,
}

/// A row of the senses table.
pub struct SenseRow {
    pub entry_id: i64,
    pub sense_id: i64,
    pub index: usize,
    pub info: Option<String>,
}

/// A row of one of the per-sense tag tables (part of speech, field, misc, dialect).
pub struct SenseValueRow {
    pub sense_id: i64,
    pub value: String,
}

/// A row of the glosses table.
pub struct GlossRow {
    pub sense_id: i64,
    pub text: String,
    pub lang: Option<String>,
    pub g_type: Option<String>,
}

/// The rows fetched for a set of entries, each table in the order the
/// database returned it.
pub struct EntryRows {
    pub kanji: Vec<KanjiRow>,
    pub kana: Vec<KanaRow>,
    pub senses: Vec<SenseRow>,
    pub pos: Vec<SenseValueRow>,
    pub glosses: Vec<GlossRow>,
    pub field: Vec<SenseValueRow>,
    pub misc: Vec<SenseValueRow>,
    pub dial: Vec<SenseValueRow>,
}

/// The elements of `rows` that `keep` holds for, in order.
pub open spec fn select<T>(rows: Seq<T>, keep: spec_fn(T) -> bool) -> Seq<T>
    decreases rows.len(),
{
    if rows.len() == 0 {
        Seq::empty()
    } else {
        let prev = select(rows.drop_last(), keep);
        if keep(rows.last()) {
            prev.push(rows.last())
        } else {
            prev
        }
    }
}

/// The kanji rows of entry `eid`.
pub open spec fn kanji_of(rows: Seq<KanjiRow>, eid: i64) -> Seq<KanjiRow> {
    select(rows, |r: KanjiRow| r.entry_id == eid)
}

/// The reading rows of entry `eid`.
pub open spec fn kana_of(rows: Seq<KanaRow>, eid: i64) -> Seq<KanaRow> {
    select(rows, |r: KanaRow| r.entry_id == eid)
}

/// The sense rows of entry `eid`.
pub open spec fn senses_of(rows: Seq<SenseRow>, eid: i64) -> Seq<SenseRow> {
    select(rows, |r: SenseRow| r.entry_id == eid)
}

/// The values that the tag rows give sense `sid`, in order.
pub open spec fn values_of(rows: Seq<SenseValueRow>, sid: i64) -> Seq<String> {
    select(rows, |r: SenseValueRow| r.sense_id == sid).map_values(|r: SenseValueRow| r.value)
}

/// The gloss rows of sense `sid`.
pub open spec fn glosses_of(rows: Seq<GlossRow>, sid: i64) -> Seq<GlossRow> {
    select(rows, |r: GlossRow| r.sense_id == sid)
}

/// A written form matches when its hiragana form is the looked-up text.
pub open spec fn reading_matches(text: Seq<char>, norm: Seq<char>) -> bool {
    spec_kana_to_hiragana(text) == norm
}

/// The range a matching reading covers: all of it.
pub open spec fn match_range_of(text: Seq<char>, norm: Seq<char>) -> Option<(usize, usize)> {
    if reading_matches(text, norm) {
        Some((0usize, text.len() as usize))
    } else {
        None
    }
}

/// Some kanji form of the entry matches.
pub open spec fn kanji_found(kr: Seq<KanjiRow>, norm: Seq<char>) -> bool {
    exists|k: int| 0 <= k < kr.len() && reading_matches(#[trigger] kr[k].text@, norm)
}

/// Some reading among the first `k + 1` matches.
pub open spec fn kana_seen(nr: Seq<KanaRow>, k: int, norm: Seq<char>) -> bool {
    exists|j: int| 0 <= j <= k && reading_matches(#[trigger] nr[j].text@, norm)
}

/// A kanji reading made from its row. Where some kanji form matches, the
/// matching ones are marked; where none does, all are.
pub open spec fn kanji_reading_from(r: KanjiReading, row: KanjiRow, norm: Seq<char>, found: bool) -> bool {
    &&& r.text == row.text
    &&& r.priority == row.priority
    &&& r.info == row.info
    &&& r.match_range == match_range_of(row.text@, norm)
    &&& r.matched == ((found && reading_matches(row.text@, norm)) || !found)
}

/// A kana reading made from its row. Where a kanji form matches, no reading
/// is marked. Otherwise the readings before the first matching one are
/// marked, and from it on those that match.
pub open spec fn kana_reading_from(
    r: KanaReading,
    row: KanaRow,
    norm: Seq<char>,
    found_kanji: bool,
    seen: bool,
) -> bool {
    &&& r.text == row.text
    &&& r.no_kanji == row.no_kanji
    &&& r.priority == row.priority
    &&& r.info == row.info
    &&& r.match_range == match_range_of(row.text@, norm)
    &&& r.matched == (if found_kanji {
        false
    } else {
        (seen && reading_matches(row.text@, norm)) || !seen
    })
}

/// A gloss made from its row; a gloss without a language is English.
pub open spec fn gloss_from(g: Gloss, row: GlossRow) -> bool {
    &&& g.text == row.text
    &&& g.g_type == row.g_type
    &&& g.lang@ == match row.lang {
        Some(l) => l@,
        None => "eng"@,
    }
}

/// A list that is there only where it has values.
pub open spec fn opt_values(o: Option<Vec<String>>, vals: Seq<String>) -> bool {
    if vals.len() == 0 {
        o is None
    } else {
        o matches Some(v) && v@ == vals
    }
}

/// A sense made from its row and the tag and gloss rows of its id.
pub open spec fn sense_from(s: Sense, row: SenseRow, rows: EntryRows) -> bool {
    let gl = glosses_of(rows.glosses@, row.sense_id);
    &&& s.index == row.index
    &&& s.info == row.info
    &&& s.pos_tags@ == values_of(rows.pos@, row.sense_id)
    &&& s.glosses@.len() == gl.len()
    &&& forall|g: int| 0 <= g < gl.len() ==> gloss_from(#[trigger] s.glosses@[g], gl[g])
    &&& opt_values(s.field, values_of(rows.field@, row.sense_id))
    &&& opt_values(s.misc, values_of(rows.misc@, row.sense_id))
    &&& opt_values(s.dial, values_of(rows.dial@, row.sense_id))
}

/// The entry `eid` with sequence number `seq`, made from the rows.
pub open spec fn entry_from(e: WordEntry, eid: i64, seq: Seq<char>, rows: EntryRows, norm: Seq<char>) -> bool {
    let kr = kanji_of(rows.kanji@, eid);
    let nr = kana_of(rows.kana@, eid);
    let sr = senses_of(rows.senses@, eid);
    let found = kanji_found(kr, norm);
    &&& e.entry_id == eid
    &&& e.ent_seq@ == seq
    &&& e.kanji_readings@.len() == kr.len()
    &&& forall|k: int|
        0 <= k < kr.len() ==> kanji_reading_from(#[trigger] e.kanji_readings@[k], kr[k], norm, found)
    &&& e.kana_readings@.len() == nr.len()
    &&& forall|k: int|
        0 <= k < nr.len() ==> kana_reading_from(
            #[trigger] e.kana_readings@[k],
            nr[k],
            norm,
            found,
            kana_seen(nr, k, norm),
        )
    &&& e.senses@.len() == sr.len()
    &&& forall|k: int| 0 <= k < sr.len() ==> sense_from(#[trigger] e.senses@[k], sr[k], rows)
}

/// The sequence number given last for `eid` among the fetched entries.
pub open spec fn seq_for(entries: Seq<(i64, String)>, eid: i64) -> Seq<char>
    decreases entries.len(),
{
    if entries.len() == 0 {
        Seq::empty()
    } else if entries.last().0 == eid {
        entries.last().1@
    } else {
        seq_for(entries.drop_last(), eid)
    }
}

fn clone_opt(o: &Option<String>) -> (r: Option<String>)
    ensures
        r == *o,
{
    match o {
        Some(s) => Some(s.clone()),
        None => None,
    }
}

/// Whether `text`, in hiragana, is `norm`.
fn matches_norm(text: &String, norm: &Vec<char>) -> (b: bool)
    ensures
        b == reading_matches(text@, norm@),
{
    let chars = to_chars(text.as_str());
    let h = chars_to_hiragana(chars.as_slice());
    chars_equal(h.as_slice(), norm.as_slice())
}

fn range_for(text: &String, norm: &Vec<char>) -> (r: Option<(usize, usize)>)
    ensures
        r == match_range_of(text@, norm@),
{
    if matches_norm(text, norm) {
        let chars = to_chars(text.as_str());
        Some((0, chars.len()))
    } else {
        None
    }
}

/// The kanji readings of entry `eid`.
fn kanji_readings_for(rows: &Vec<KanjiRow>, eid: i64, norm: &Vec<char>) -> (out: Vec<KanjiReading>)
    ensures
        out@.len() == kanji_of(rows@, eid).len(),
        forall|k: int|
            0 <= k < out@.len() ==> kanji_reading_from(
                #[trigger] out@[k],
                kanji_of(rows@, eid)[k],
                norm@,
                kanji_found(kanji_of(rows@, eid), norm@),
            ),
{
    let ghost keep = |r: KanjiRow| r.entry_id == eid;
    let mut found = false;
    let mut i: usize = 0;
    while i < rows.len()
        invariant
            i <= rows@.len(),
            keep == (|r: KanjiRow| r.entry_id == eid),
            found == kanji_found(select(rows@.take(i as int), keep), norm@),
        decreases rows@.len() - i,
    {
        let ghost prev = select(rows@.take(i as int), keep);
        proof {
            assert(rows@.take(i as int + 1).drop_last() =~= rows@.take(i as int));
            assert(rows@.take(i as int + 1).last() == rows@[i as int]);
        }
        let m = rows[i].entry_id == eid && matches_norm(&rows[i].text, norm);
        proof {
            let now = select(rows@.take(i as int + 1), keep);
            if rows@[i as int].entry_id == eid {
                assert(now == prev.push(rows@[i as int]));
                if m {
                    assert(reading_matches(now[prev.len() as int].text@, norm@));
                }
                if kanji_found(now, norm@) && !kanji_found(prev, norm@) {
                    let k = choose|k: int| 0 <= k < now.len() && reading_matches(#[trigger] now[k].text@, norm@);
                    if k < prev.len() {
                        assert(now[k] == prev[k]);
                    }
                }
                if kanji_found(prev, norm@) {
                    let k = choose|k: int| 0 <= k < prev.len() && reading_matches(#[trigger] prev[k].text@, norm@);
                    assert(now[k] == prev[k]);
                }
            }
        }
        found = found || m;
        i = i + 1;
    }
    proof {
        assert(rows@.take(rows@.len() as int) =~= rows@);
    }
    let ghost all = kanji_of(rows@, eid);
    let mut out: Vec<KanjiReading> = Vec::new();
    let mut j: usize = 0;
    while j < rows.len()
        invariant
            j <= rows@.len(),
            keep == (|r: KanjiRow| r.entry_id == eid),
            all == select(rows@, keep),
            found == kanji_found(all, norm@),
            out@.len() == select(rows@.take(j as int), keep).len(),
            forall|k: int|
                0 <= k < out@.len() ==> kanji_reading_from(
                    #[trigger] out@[k],
                    select(rows@.take(j as int), keep)[k],
                    norm@,
                    found,
                ),
        decreases rows@.len() - j,
    {
        let ghost prev = select(rows@.take(j as int), keep);
        proof {
            assert(rows@.take(j as int + 1).drop_last() =~= rows@.take(j as int));
            assert(rows@.take(j as int + 1).last() == rows@[j as int]);
        }
        if rows[j].entry_id == eid {
            let row = &rows[j];
            let m = matches_norm(&row.text, norm);
            let r = KanjiReading {
                text: row.text.clone(),
                priority: clone_opt(&row.priority),
                info: clone_opt(&row.info),
                match_range: range_for(&row.text, norm),
                matched: (found && m) || !found,
            };
            out.push(r);
        }
        j = j + 1;
    }
    proof {
        assert(rows@.take(rows@.len() as int) =~= rows@);
    }
    out
}

/// The kana readings of entry `eid`.
fn kana_readings_for(rows: &Vec<KanaRow>, eid: i64, norm: &Vec<char>, found_kanji: bool) -> (out: Vec<KanaReading>)
    ensures
        out@.len() == kana_of(rows@, eid).len(),
        forall|k: int|
            0 <= k < out@.len() ==> kana_reading_from(
                #[trigger] out@[k],
                kana_of(rows@, eid)[k],
                norm@,
                found_kanji,
                kana_seen(kana_of(rows@, eid), k, norm@),
            ),
{
    let ghost keep = |r: KanaRow| r.entry_id == eid;
    let mut seen = false;
    let mut out: Vec<KanaReading> = Vec::new();
    let mut j: usize = 0;
    while j < rows.len()
        invariant
            j <= rows@.len(),
            keep == (|r: KanaRow| r.entry_id == eid),
            out@.len() == select(rows@.take(j as int), keep).len(),
            seen == (out@.len() > 0 && kana_seen(
                select(rows@.take(j as int), keep),
                out@.len() - 1,
                norm@,
            )),
            forall|k: int|
                0 <= k < out@.len() ==> kana_reading_from(
                    #[trigger] out@[k],
                    select(rows@.take(j as int), keep)[k],
                    norm@,
                    found_kanji,
                    kana_seen(select(rows@.take(j as int), keep), k, norm@),
                ),
        decreases rows@.len() - j,
    {
        let ghost prev = select(rows@.take(j as int), keep);
        proof {
            assert(rows@.take(j as int + 1).drop_last() =~= rows@.take(j as int));
            assert(rows@.take(j as int + 1).last() == rows@[j as int]);
        }
        if rows[j].entry_id == eid {
            let row = &rows[j];
            let m = matches_norm(&row.text, norm);
            let ghost now = prev.push(rows@[j as int]);
            proof {
                assert forall|k: int| 0 <= k < prev.len() implies kana_seen(now, k, norm@) == kana_seen(
                    prev,
                    k,
                    norm@,
                ) by {
                    if kana_seen(now, k, norm@) {
                        let q = choose|q: int| 0 <= q <= k && reading_matches(#[trigger] now[q].text@, norm@);
                        assert(prev[q] == now[q]);
                    }
                    if kana_seen(prev, k, norm@) {
                        let q = choose|q: int| 0 <= q <= k && reading_matches(#[trigger] prev[q].text@, norm@);
                        assert(prev[q] == now[q]);
                    }
                }
                let last = prev.len() as int;
                if m {
                    assert(reading_matches(now[last].text@, norm@));
                }
                if kana_seen(now, last, norm@) && !m {
                    let q = choose|q: int| 0 <= q <= last && reading_matches(#[trigger] now[q].text@, norm@);
                    assert(q < last);
                    assert(prev[q] == now[q]);
                    assert(kana_seen(prev, last - 1, norm@));
                }
                if seen {
                    let q = choose|q: int| 0 <= q <= last - 1 && reading_matches(#[trigger] prev[q].text@, norm@);
                    assert(prev[q] == now[q]);
                }
            }
            let now_seen = seen || m;
            let matched = if found_kanji {
                false
            } else {
                (now_seen && m) || !now_seen
            };
            let r = KanaReading {
                text: row.text.clone(),
                no_kanji: row.no_kanji,
                priority: clone_opt(&row.priority),
                info: clone_opt(&row.info),
                match_range: range_for(&row.text, norm),
                matched,
            };
            out.push(r);
            seen = now_seen;
        }
        j = j + 1;
    }
    proof {
        assert(rows@.take(rows@.len() as int) =~= rows@);
    }
    out
}

/// The values the tag rows give sense `sid`.
fn values_for(rows: &Vec<SenseValueRow>, sid: i64) -> (out: Vec<String>)
    ensures
        out@ == values_of(rows@, sid),
{
    let ghost keep = |r: SenseValueRow| r.sense_id == sid;
    let mut out: Vec<String> = Vec::new();
    let mut j: usize = 0;
    while j < rows.len()
        invariant
            j <= rows@.len(),
            keep == (|r: SenseValueRow| r.sense_id == sid),
            out@ == select(rows@.take(j as int), keep).map_values(|r: SenseValueRow| r.value),
        decreases rows@.len() - j,
    {
        let ghost prev = select(rows@.take(j as int), keep);
        proof {
            assert(rows@.take(j as int + 1).drop_last() =~= rows@.take(j as int));
            assert(rows@.take(j as int + 1).last() == rows@[j as int]);
        }
        if rows[j].sense_id == sid {
            out.push(rows[j].value.clone());
            proof {
                assert(prev.push(rows@[j as int]).map_values(|r: SenseValueRow| r.value) =~= prev.map_values(
                    |r: SenseValueRow| r.value,
                ).push(rows@[j as int].value));
            }
        }
        j = j + 1;
    }
    proof {
        assert(rows@.take(rows@.len() as int) =~= rows@);
    }
    out
}

/// The values for sense `sid`, or nothing where there are none.
fn opt_values_for(rows: &Vec<SenseValueRow>, sid: i64) -> (out: Option<Vec<String>>)
    ensures
        opt_values(out, values_of(rows@, sid)),
{
    let v = values_for(rows, sid);
    if v.len() == 0 {
        None
    } else {
        Some(v)
    }
}

/// The glosses of sense `sid`.
fn glosses_for(rows: &Vec<GlossRow>, sid: i64) -> (out: Vec<Gloss>)
    ensures
        out@.len() == glosses_of(rows@, sid).len(),
        forall|g: int| 0 <= g < out@.len() ==> gloss_from(#[trigger] out@[g], glosses_of(rows@, sid)[g]),
{
    let ghost keep = |r: GlossRow| r.sense_id == sid;
    let mut out: Vec<Gloss> = Vec::new();
    let mut j: usize = 0;
    while j < rows.len()
        invariant
            j <= rows@.len(),
            keep == (|r: GlossRow| r.sense_id == sid),
            out@.len() == select(rows@.take(j as int), keep).len(),
            forall|g: int|
                0 <= g < out@.len() ==> gloss_from(#[trigger] out@[g], select(rows@.take(j as int), keep)[g]),
        decreases rows@.len() - j,
    {
        proof {
            assert(rows@.take(j as int + 1).drop_last() =~= rows@.take(j as int));
            assert(rows@.take(j as int + 1).last() == rows@[j as int]);
        }
        if rows[j].sense_id == sid {
            let row = &rows[j];
            let lang = match &row.lang {
                Some(l) => l.clone(),
                None => "eng".to_owned(),
            };
            out.push(Gloss { text: row.text.clone(), lang, g_type: clone_opt(&row.g_type) });
        }
        j = j + 1;
    }
    proof {
        assert(rows@.take(rows@.len() as int) =~= rows@);
    }
    out
}

/// The senses of entry `eid`.
fn senses_for(rows: &EntryRows, eid: i64) -> (out: Vec<Sense>)
    ensures
        out@.len() == senses_of(rows.senses@, eid).len(),
        forall|k: int| 0 <= k < out@.len() ==> sense_from(#[trigger] out@[k], senses_of(rows.senses@, eid)[k], *rows),
{
    let ghost keep = |r: SenseRow| r.entry_id == eid;
    let mut out: Vec<Sense> = Vec::new();
    let mut j: usize = 0;
    while j < rows.senses.len()
        invariant
            j <= rows.senses@.len(),
            keep == (|r: SenseRow| r.entry_id == eid),
            out@.len() == select(rows.senses@.take(j as int), keep).len(),
            forall|k: int|
                0 <= k < out@.len() ==> sense_from(
                    #[trigger] out@[k],
                    select(rows.senses@.take(j as int), keep)[k],
                    *rows,
                ),
        decreases rows.senses@.len() - j,
    {
        proof {
            assert(rows.senses@.take(j as int + 1).drop_last() =~= rows.senses@.take(j as int));
            assert(rows.senses@.take(j as int + 1).last() == rows.senses@[j as int]);
        }
        if rows.senses[j].entry_id == eid {
            let row = &rows.senses[j];
            let sid = row.sense_id;
            let s = Sense {
                index: row.index,
                pos_tags: values_for(&rows.pos, sid),
                glosses: glosses_for(&rows.glosses, sid),
                info: clone_opt(&row.info),
                field: opt_values_for(&rows.field, sid),
                misc: opt_values_for(&rows.misc, sid),
                dial: opt_values_for(&rows.dial, sid),
            };
            out.push(s);
        }
        j = j + 1;
    }
    proof {
        assert(rows.senses@.take(rows.senses@.len() as int) =~= rows.senses@);
    }
    out
}

/// The sequence number given last for `eid`, empty where there is none.
fn seq_number_for(entries: &Vec<(i64, String)>, eid: i64) -> (out: String)
    ensures
        out@ == seq_for(entries@, eid),
{
    let mut i: usize = entries.len();
    proof {
        assert(entries@.take(i as int) =~= entries@);
    }
    while i > 0
        invariant
            i <= entries@.len(),
            seq_for(entries@, eid) == seq_for(entries@.take(i as int), eid),
        decreases i,
    {
        i = i - 1;
        proof {
            assert(entries@.take(i as int + 1).drop_last() =~= entries@.take(i as int));
            assert(entries@.take(i as int + 1).last() == entries@[i as int]);
        }
        if entries[i].0 == eid {
            return entries[i].1.clone();
        }
    }
    proof {
        assert(entries@.take(0) =~= Seq::<(i64, String)>::empty());
    }
    String::new()
}

/// The entries fetched as `(entry_id, ent_seq)` pairs, in their order, each
/// assembled from the rows: its kanji forms, readings and senses in row order,
/// readings marked against `normalized_matching` (the looked-up text in
/// hiragana).
pub fn build_entries(entries: &Vec<(i64, String)>, rows: &EntryRows, normalized_matching: &str) -> (out:
    Vec<WordEntry>)
    ensures
        out@.len() == entries@.len(),
        forall|i: int|
            0 <= i < out@.len() ==> entry_from(
                #[trigger] out@[i],
                entries@[i].0,
                seq_for(entries@, entries@[i].0),
                *rows,
                normalized_matching@,
            ),
{
    let norm = to_chars(normalized_matching);
    let mut out: Vec<WordEntry> = Vec::new();
    let mut i: usize = 0;
    while i < entries.len()
        invariant
            i <= entries@.len(),
            norm@ == normalized_matching@,
            out@.len() == i,
            forall|q: int|
                0 <= q < i ==> entry_from(
                    #[trigger] out@[q],
                    entries@[q].0,
                    seq_for(entries@, entries@[q].0),
                    *rows,
                    normalized_matching@,
                ),
        decreases entries@.len() - i,
    {
        let eid = entries[i].0;
        let kanji_readings = kanji_readings_for(&rows.kanji, eid, &norm);
        let mut found = false;
        let mut k: usize = 0;
        while k < kanji_readings.len()
            invariant
                k <= kanji_readings@.len(),
                kanji_readings@.len() == kanji_of(rows.kanji@, eid).len(),
                forall|q: int|
                    0 <= q < kanji_readings@.len() ==> kanji_reading_from(
                        #[trigger] kanji_readings@[q],
                        kanji_of(rows.kanji@, eid)[q],
                        norm@,
                        kanji_found(kanji_of(rows.kanji@, eid), norm@),
                    ),
                found == exists|q: int| 0 <= q < k && (#[trigger] kanji_readings@[q]).match_range is Some,
            decreases kanji_readings@.len() - k,
        {
            found = found || kanji_readings[k].match_range.is_some();
            k = k + 1;
        }
        proof {
            let kr = kanji_of(rows.kanji@, eid);
            if kanji_found(kr, norm@) {
                let q = choose|q: int| 0 <= q < kr.len() && reading_matches(#[trigger] kr[q].text@, norm@);
                assert(kanji_readings@[q].match_range is Some);
            }
            if found {
                let q = choose|q: int| 0 <= q < kanji_readings@.len() && (#[trigger] kanji_readings@[q]).match_range is Some;
                assert(reading_matches(kr[q].text@, norm@));
            }
        }
        let kana_readings = kana_readings_for(&rows.kana, eid, &norm, found);
        let senses = senses_for(rows, eid);
        let e = WordEntry {
            entry_id: eid,
            ent_seq: seq_number_for(entries, eid),
            kanji_readings,
            kana_readings,
            senses,
        };
        out.push(e);
        i = i + 1;
    }
    out
}


/// Whether `text` has more characters than a lookup takes: such text is
/// never looked up.
pub fn exceeds_lookup_length(text: &str, max_lookup_length: usize) -> (b: bool)
    ensures
        b == (text@.len() > max_lookup_length),
{
    let chars = to_chars(text);
    chars.len() > max_lookup_length
}

// ---------------------------------------------------------------------------
// The decisions of a dictionary lookup
// ---------------------------------------------------------------------------

/// Where a dictionary lookup stands.
pub enum LookupStage {
    /// Nothing done yet.
    Start,
    /// Waiting to hear whether the text is a known miss.
    AwaitMissCache,
    /// Waiting for the entries found by reading.
    AwaitReadings,
    /// Waiting for the entries found by kanji spelling.
    AwaitKanji,
    /// The lookup has answered.
    Finished,
}

/// The table a lookup query searches.
pub enum LookupTable {
    Readings,
    Kanji,
}

/// What the storage reported back to a lookup.
pub enum LookupEvent {
    /// The lookup begins.
    Begin,
    /// Whether the text is among the texts known to have no entries.
    InMissCache(bool),
    /// The entries a query found, as (entry id, sequence number).
    Found(Vec<(i64, String)>),
}

/// What a lookup asks of the storage next.
pub enum LookupAction {
    /// Answer that there are no entries.
    Nothing,
    /// Ask whether the text is among the texts known to have no entries.
    CheckMissCache,
    /// Find up to `limit` entries whose text in `table` is `text` or `hiragana`.
    Query { table: LookupTable, text: String, hiragana: String, limit: usize },
    /// Remember the text as having no entries, then answer that there are none.
    RecordMiss,
    /// Fetch the rows of these entries and assemble them, marking the
    /// readings that match `matching`.
    Assemble { entries: Vec<(i64, String)>, matching: String },
}

/// `a` queries `table` for the text and its hiragana form, up to `limit`.
pub open spec fn is_query(a: LookupAction, table: LookupTable, text: Seq<char>, limit: usize) -> bool {
    a matches LookupAction::Query { table: t, text: q, hiragana: h, limit: l } && t == table && q@ == text
        && h@ == spec_kana_to_hiragana(text) && l == limit
}

/// `a` assembles the entries `found`, matching against the hiragana form of
/// `matching`.
pub open spec fn is_assembly(a: LookupAction, found: Seq<(i64, String)>, matching: Seq<char>) -> bool {
    a matches LookupAction::Assemble { entries: e, matching: m } && e@ == found && m@
        == spec_kana_to_hiragana(matching)
}

/// One decision of a lookup of `text`: what it does next given where it
/// stands and what it heard. Texts longer than the lookup limit and known
/// misses are answered with nothing; readings are queried before kanji
/// spellings; a text that neither finds is remembered as a miss.
pub fn lookup_step(
    stage: LookupStage,
    event: LookupEvent,
    text: &str,
    max_lookup_length: usize,
    max_results: usize,
    matching_text: Option<&str>,
) -> (r: (LookupStage, LookupAction))
    ensures
        ({
            let matching = match matching_text {
                Some(t) => t@,
                None => text@,
            };
            match (stage, event) {
                (LookupStage::Start, LookupEvent::Begin) => if text@.len() > max_lookup_length {
                    r.0 is Finished && r.1 is Nothing
                } else {
                    r.0 is AwaitMissCache && r.1 is CheckMissCache
                },
                (LookupStage::AwaitMissCache, LookupEvent::InMissCache(hit)) => if hit {
                    r.0 is Finished && r.1 is Nothing
                } else {
                    r.0 is AwaitReadings && is_query(r.1, LookupTable::Readings, text@, max_results)
                },
                (LookupStage::AwaitReadings, LookupEvent::Found(rows)) => if rows@.len() > 0 {
                    r.0 is Finished && is_assembly(r.1, rows@, matching)
                } else {
                    r.0 is AwaitKanji && is_query(r.1, LookupTable::Kanji, text@, max_results)
                },
                (LookupStage::AwaitKanji, LookupEvent::Found(rows)) => if rows@.len() > 0 {
                    r.0 is Finished && is_assembly(r.1, rows@, matching)
                } else {
                    r.0 is Finished && r.1 is RecordMiss
                },
                _ => r.0 is Finished && r.1 is Nothing,
            }
        }),
{
    let matching = match matching_text {
        Some(t) => t,
        None => text,
    };
    match (stage, event) {
        (LookupStage::Start, LookupEvent::Begin) => {
            if exceeds_lookup_length(text, max_lookup_length) {
                (LookupStage::Finished, LookupAction::Nothing)
            } else {
                (LookupStage::AwaitMissCache, LookupAction::CheckMissCache)
            }
        },
        (LookupStage::AwaitMissCache, LookupEvent::InMissCache(hit)) => {
            if hit {
                (LookupStage::Finished, LookupAction::Nothing)
            } else {
                (
                    LookupStage::AwaitReadings,
                    LookupAction::Query {
                        table: LookupTable::Readings,
                        text: text.to_owned(),
                        hiragana: kana_to_hiragana(text),
                        limit: max_results,
                    },
                )
            }
        },
        (LookupStage::AwaitReadings, LookupEvent::Found(rows)) => {
            if rows.len() > 0 {
                (
                    LookupStage::Finished,
                    LookupAction::Assemble { entries: rows, matching: kana_to_hiragana(matching) },
                )
            } else {
                (
                    LookupStage::AwaitKanji,
                    LookupAction::Query {
                        table: LookupTable::Kanji,
                        text: text.to_owned(),
                        hiragana: kana_to_hiragana(text),
                        limit: max_results,
                    },
                )
            }
        },
        (LookupStage::AwaitKanji, LookupEvent::Found(rows)) => {
            if rows.len() > 0 {
                (
                    LookupStage::Finished,
                    LookupAction::Assemble { entries: rows, matching: kana_to_hiragana(matching) },
                )
            } else {
                (LookupStage::Finished, LookupAction::RecordMiss)
            }
        },
        _ => (LookupStage::Finished, LookupAction::Nothing),
    }
}

/// How many remembered misses to forget after recording one: the cache
/// loses 20 000 of them once it holds more than 100 000.
pub fn misses_to_forget(cache_len: usize) -> (n: usize)
    ensures
        n == (if cache_len > 100_000 {
            20_000usize
        } else {
            0usize
        }),
{
    if cache_len > 100_000 {
        20_000
    } else {
        0
    }
}

} // verus!
