//! Ordering of word-search results: longer matches first, then fewer
//! deinflection steps, then primary headwords, then higher priority.

use vstd::prelude::*;

use crate::text::{contains_chars, has_infix, has_prefix, split_trimmed, to_chars, trimmed_fields};
use crate::deinflect::chains_view;
use crate::types::{KanaReading, KanjiReading, Reason, Sense, WordEntry, WordResult};

verus! {

// ---------------------------------------------------------------------------
// Headword type
// ---------------------------------------------------------------------------

/// `k` is the index of the first kana reading that matched the input
/// (`kr.len()` when none did).
pub open spec fn is_first_match(kr: Seq<KanaReading>, k: int) -> bool {
    &&& 0 <= k <= kr.len()
    &&& forall|j: int| 0 <= j < k ==> (#[trigger] kr[j]).match_range is None
    &&& k < kr.len() ==> kr[k].match_range is Some
}

/// The index of the first matched kana reading (`kr.len()` when none matched).
pub open spec fn first_matched_kana(kr: Seq<KanaReading>) -> int {
    choose|k: int| is_first_match(kr, k)
}

/// Some comma-separated field of `info`, trimmed, is one of `names`.
pub open spec fn field_in(info: Seq<char>, names: Seq<Seq<char>>) -> bool {
    exists|k: int| 0 <= k < trimmed_fields(info).len() && names.contains(#[trigger] trimmed_fields(info)[k])
}

/// `info` is present and has a field among `names`.
pub open spec fn opt_field_in(info: Option<String>, names: Seq<Seq<char>>) -> bool {
    match info {
        Some(s) => field_in(s@, names),
        None => false,
    }
}

/// Reading-info codes that mark an obscure kana reading.
pub open spec fn obscure_kana_codes() -> Seq<Seq<char>> {
    seq!["ok"@, "rk"@, "sk"@, "ik"@]
}

/// Info codes that mark an obscure kanji headword.
pub open spec fn obscure_kanji_codes() -> Seq<Seq<char>> {
    seq!["rK"@, "sK"@, "iK"@]
}

/// A sense with no glosses or with an English gloss.
pub open spec fn is_english_sense(s: Sense) -> bool {
    s.glosses@.len() == 0 || exists|g: int|
        0 <= g < s.glosses@.len() && (#[trigger] s.glosses@[g].lang@ == "eng"@ || s.glosses@[g].lang@
            == "en"@)
}

/// A sense marked usually-kana ("uk" in a misc code).
pub open spec fn is_uk_sense(s: Sense) -> bool {
    match s.misc {
        Some(m) => exists|t: int| 0 <= t < m@.len() && has_infix(#[trigger] m@[t]@, "uk"@),
        None => false,
    }
}

/// Number of English senses.
pub open spec fn count_english(s: Seq<Sense>) -> nat
    decreases s.len(),
{
    if s.len() == 0 {
        0
    } else {
        count_english(s.drop_last()) + if is_english_sense(s.last()) {
            1nat
        } else {
            0nat
        }
    }
}

/// Number of English senses marked usually-kana.
pub open spec fn count_english_uk(s: Seq<Sense>) -> nat
    decreases s.len(),
{
    if s.len() == 0 {
        0
    } else {
        count_english_uk(s.drop_last()) + if is_english_sense(s.last()) && is_uk_sense(s.last()) {
            1nat
        } else {
            0nat
        }
    }
}

/// 1 if the entry's matched reading is a primary headword, 2 if it is just a
/// reading of a kanji headword.
pub open spec fn spec_kana_headword_type(entry: WordEntry) -> u8 {
    let kr = entry.kana_readings@;
    let k = first_matched_kana(kr);
    let senses = entry.senses@;
    if k == kr.len() {
        1
    } else if opt_field_in(kr[k].info, obscure_kana_codes()) {
        2
    } else if entry.kanji_readings@.len() == 0 {
        1
    } else if forall|j: int|
        0 <= j < entry.kanji_readings@.len() ==> opt_field_in(
            #[trigger] entry.kanji_readings@[j].info,
            obscure_kanji_codes(),
        ) {
        1
    } else if count_english(senses) > 0 && count_english_uk(senses) * 2 >= count_english(senses) {
        1
    } else if kr[k].no_kanji {
        1
    } else {
        2
    }
}

fn literal_list(lits: &[&str]) -> (out: Vec<Vec<char>>)
    ensures
        out@.len() == lits@.len(),
        forall|k: int| 0 <= k < lits@.len() ==> (#[trigger] out@[k])@ == lits@[k]@,
{
    let mut out: Vec<Vec<char>> = Vec::new();
    let mut i: usize = 0;
    while i < lits.len()
        invariant
            i <= lits@.len(),
            out@.len() == i,
            forall|k: int| 0 <= k < i ==> (#[trigger] out@[k])@ == lits@[k]@,
        decreases lits@.len() - i,
    {
        out.push(to_chars(lits[i]));
        i = i + 1;
    }
    out
}

fn chars_eq(a: &[char], b: &[char]) -> (r: bool)
    ensures
        r == (a@ == b@),
{
    crate::text::chars_equal(a, b)
}

/// Whether some trimmed comma-separated field of `info` is one of `names`.
fn info_field_in(info: &String, names: &Vec<Vec<char>>) -> (b: bool)
    ensures
        b == field_in(info@, names@.map_values(|v: Vec<char>| v@)),
{
    let ghost nv = names@.map_values(|v: Vec<char>| v@);
    let chars = to_chars(info.as_str());
    let fields = split_trimmed(chars.as_slice());
    let mut k: usize = 0;
    while k < fields.len()
        invariant
            k <= fields@.len(),
            chars@ == info@,
            nv == names@.map_values(|v: Vec<char>| v@),
            fields@.len() == trimmed_fields(info@).len(),
            forall|q: int| 0 <= q < fields@.len() ==> (#[trigger] fields@[q])@ == trimmed_fields(info@)[q],
            forall|q: int| 0 <= q < k ==> !nv.contains(trimmed_fields(info@)[q]),
        decreases fields@.len() - k,
    {
        let mut n: usize = 0;
        while n < names.len()
            invariant
                k < fields@.len(),
                n <= names@.len(),
                fields@.len() == trimmed_fields(info@).len(),
                forall|q: int| 0 <= q < fields@.len() ==> (#[trigger] fields@[q])@ == trimmed_fields(info@)[q],
                nv == names@.map_values(|v: Vec<char>| v@),
                forall|q: int| 0 <= q < n ==> nv[q] != fields@[k as int]@,
            decreases names@.len() - n,
        {
            if chars_eq(fields[k].as_slice(), names[n].as_slice()) {
                proof {
                    assert(nv[n as int] == trimmed_fields(info@)[k as int]);
                    assert(nv.contains(trimmed_fields(info@)[k as int]));
                }
                return true;
            }
            n = n + 1;
        }
        proof {
            assert(!nv.contains(fields@[k as int]@));
        }
        k = k + 1;
    }
    false
}

fn opt_info_field_in(info: &Option<String>, names: &Vec<Vec<char>>) -> (b: bool)
    ensures
        b == opt_field_in(*info, names@.map_values(|v: Vec<char>| v@)),
{
    match info {
        Some(s) => info_field_in(s, names),
        None => false,
    }
}

fn sense_is_english(s: &Sense) -> (b: bool)
    ensures
        b == is_english_sense(*s),
{
    if s.glosses.len() == 0 {
        return true;
    }
    let eng = to_chars("eng");
    let en = to_chars("en");
    let mut g: usize = 0;
    while g < s.glosses.len()
        invariant
            g <= s.glosses@.len(),
            eng@ == "eng"@,
            en@ == "en"@,
            forall|q: int| 0 <= q < g ==> !(s.glosses@[q].lang@ == "eng"@ || s.glosses@[q].lang@ == "en"@),
        decreases s.glosses@.len() - g,
    {
        let lang = to_chars(s.glosses[g].lang.as_str());
        if chars_eq(lang.as_slice(), eng.as_slice()) || chars_eq(lang.as_slice(), en.as_slice()) {
            return true;
        }
        g = g + 1;
    }
    false
}

fn sense_is_uk(s: &Sense) -> (b: bool)
    ensures
        b == is_uk_sense(*s),
{
    match &s.misc {
        Some(m) => {
            let uk = to_chars("uk");
            let mut t: usize = 0;
            while t < m.len()
                invariant
                    t <= m@.len(),
                    s.misc == Some(*m),
                    uk@ == "uk"@,
                    forall|q: int| 0 <= q < t ==> !has_infix(m@[q]@, "uk"@),
                decreases m@.len() - t,
            {
                let c = to_chars(m[t].as_str());
                if contains_chars(c.as_slice(), uk.as_slice()) {
                    proof {
                        assert(has_infix(m@[t as int]@, "uk"@));
                        let mm = s.misc->0;
                        assert(mm@[t as int]@ == m@[t as int]@);
                        assert(exists|q: int| 0 <= q < mm@.len() && has_infix(#[trigger] mm@[q]@, "uk"@));
                    }
                    return true;
                }
                t = t + 1;
            }
            false
        },
        None => false,
    }
}

/// Returns 1 if this entry's matched reading is a primary headword, 2 if it's
/// just a reading for a kanji headword.
pub fn get_kana_headword_type(entry: &WordEntry) -> (t: u8)
    ensures
        t == spec_kana_headword_type(*entry),
{
    let kr = &entry.kana_readings;
    let mut k: usize = 0;
    while k < kr.len() && kr[k].match_range.is_none()
        invariant
            k <= kr@.len(),
            forall|j: int| 0 <= j < k ==> (#[trigger] kr@[j]).match_range is None,
        decreases kr@.len() - k,
    {
        k = k + 1;
    }
    proof {
        assert(is_first_match(kr@, k as int));
        let c = first_matched_kana(kr@);
        assert(is_first_match(kr@, c));
        if c < k {
            assert(kr@[c].match_range is None);
        }
        if k < c {
            assert(kr@[k as int].match_range is None);
        }
        assert(c == k);
    }
    if k == kr.len() {
        return 1;
    }
    let kana = &kr[k];
    let kana_codes = literal_list(&["ok", "rk", "sk", "ik"]);
    proof {
        assert(kana_codes@.map_values(|v: Vec<char>| v@) =~= obscure_kana_codes());
    }
    if opt_info_field_in(&kana.info, &kana_codes) {
        return 2;
    }
    if entry.kanji_readings.len() == 0 {
        return 1;
    }
    let kanji_codes = literal_list(&["rK", "sK", "iK"]);
    proof {
        assert(kanji_codes@.map_values(|v: Vec<char>| v@) =~= obscure_kanji_codes());
    }
    let mut all_obscure = true;
    let mut j: usize = 0;
    while j < entry.kanji_readings.len()
        invariant
            j <= entry.kanji_readings@.len(),
            kanji_codes@.map_values(|v: Vec<char>| v@) == obscure_kanji_codes(),
            all_obscure == forall|q: int|
                0 <= q < j ==> opt_field_in(
                    #[trigger] entry.kanji_readings@[q].info,
                    obscure_kanji_codes(),
                ),
        decreases entry.kanji_readings@.len() - j,
    {
        let o = opt_info_field_in(&entry.kanji_readings[j].info, &kanji_codes);
        all_obscure = all_obscure && o;
        j = j + 1;
    }
    if all_obscure {
        return 1;
    }
    let senses = &entry.senses;
    let mut en_count: usize = 0;
    let mut uk_count: usize = 0;
    let mut s: usize = 0;
    while s < senses.len()
        invariant
            s <= senses@.len(),
            en_count == count_english(senses@.take(s as int)),
            uk_count == count_english_uk(senses@.take(s as int)),
            en_count <= s,
            uk_count <= en_count,
        decreases senses@.len() - s,
    {
        proof {
            assert(senses@.take(s as int + 1).drop_last() =~= senses@.take(s as int));
        }
        let en = sense_is_english(&senses[s]);
        if en {
            en_count = en_count + 1;
            if sense_is_uk(&senses[s]) {
                uk_count = uk_count + 1;
            }
        }
        s = s + 1;
    }
    proof {
        assert(senses@.take(senses@.len() as int) =~= senses@);
    }
    if en_count > 0 && uk_count as u128 * 2 >= en_count as u128 {
        return 1;
    }
    if kana.no_kanji {
        return 1;
    }
    2
}

// ---------------------------------------------------------------------------
// Priority
// ---------------------------------------------------------------------------

/// Full JMdict priority names normalised to short codes.
pub open spec fn normalize_priority_name(p: Seq<char>) -> Seq<char> {
    if p == "ichi1"@ {
        "i1"@
    } else if p == "ichi2"@ {
        "i2"@
    } else if p == "news1"@ {
        "n1"@
    } else if p == "news2"@ {
        "n2"@
    } else if p == "spec1"@ {
        "s1"@
    } else if p == "spec2"@ {
        "s2"@
    } else if p == "gai1"@ {
        "g1"@
    } else if p == "gai2"@ {
        "g2"@
    } else {
        p
    }
}

/// Scores of the known priority codes.
pub open spec fn assigned_score(n: Seq<char>) -> Option<nat> {
    if n == "i1"@ {
        Some(50)
    } else if n == "i2"@ {
        Some(20)
    } else if n == "n1"@ {
        Some(40)
    } else if n == "n2"@ {
        Some(20)
    } else if n == "s1"@ {
        Some(32)
    } else if n == "s2"@ {
        Some(20)
    } else if n == "g1"@ {
        Some(30)
    } else if n == "g2"@ {
        Some(15)
    } else {
        None
    }
}

pub open spec fn is_ascii_digit(c: char) -> bool {
    '0' <= c && c <= '9'
}

/// The value of a string of ASCII digits.
pub open spec fn digits_value(s: Seq<char>) -> nat
    decreases s.len(),
{
    if s.len() == 0 {
        0
    } else {
        digits_value(s.drop_last()) * 10 + ((s.last() as u32) - ('0' as u32)) as nat
    }
}

/// Every character of `s` is an ASCII digit.
pub open spec fn all_digits(s: Seq<char>) -> bool {
    forall|k: int| 0 <= k < s.len() ==> is_ascii_digit(#[trigger] s[k])
}

/// `s` without a leading sign.
pub open spec fn unsigned_part(s: Seq<char>) -> Seq<char> {
    if s.len() > 0 && (s[0] == '-' || s[0] == '+') {
        s.drop_first()
    } else {
        s
    }
}

/// `s.parse::<i32>()`: an optional sign, at least one ASCII digit, and a
/// value in the range of `i32`.
pub open spec fn spec_parse_i32(s: Seq<char>) -> Option<int> {
    let neg = s.len() > 0 && s[0] == '-';
    let ds = unsigned_part(s);
    if ds.len() == 0 || !all_digits(ds) {
        None
    } else {
        let v: int = if neg {
            -(digits_value(ds) as int)
        } else {
            digits_value(ds) as int
        };
        if -2147483648 <= v <= 2147483647 {
            Some(v)
        } else {
            None
        }
    }
}

/// The score of one priority code: the table of known codes, or for a
/// word-frequency band `nfXX` with 0 < XX < 48 the value 48 - XX/2.
pub open spec fn spec_priority_score(part: Seq<char>) -> nat {
    let n = normalize_priority_name(part);
    match assigned_score(n) {
        Some(v) => v,
        None => if has_prefix(n, "nf"@) {
            match spec_parse_i32(n.subrange(2, n.len() as int)) {
                Some(v) => if 0 < v < 48 {
                    (48 - v / 2) as nat
                } else {
                    0
                },
                None => 0,
            }
        } else {
            0
        },
    }
}

/// How often `v` occurs in `s`.
pub open spec fn count_of(s: Seq<nat>, v: nat) -> nat
    decreases s.len(),
{
    if s.len() == 0 {
        0
    } else {
        count_of(s.drop_last(), v) + if s.last() == v {
            1nat
        } else {
            0nat
        }
    }
}

/// The scores at most `v`, in descending order.
pub open spec fn desc_from(s: Seq<nat>, v: nat) -> Seq<nat>
    decreases v,
{
    let here = Seq::new(count_of(s, v), |i: int| v);
    if v == 0 {
        here
    } else {
        here + desc_from(s, (v - 1) as nat)
    }
}

/// Scores (each at most 50) sorted in descending order.
pub open spec fn desc_sorted(s: Seq<nat>) -> Seq<nat> {
    desc_from(s, 50)
}

pub open spec fn pow10(n: nat) -> nat
    decreases n,
{
    if n == 0 {
        1
    } else {
        10 * pow10((n - 1) as nat)
    }
}

/// The priority sum `s[0] + s[1]/10 + s[2]/100 + ...` scaled by 10^36, over
/// the first 37 terms (the later ones are below any precision that matters).
pub open spec fn scaled_sum(s: Seq<nat>) -> nat
    decreases s.len(),
{
    if s.len() == 0 {
        0
    } else {
        scaled_sum(s.drop_last()) + if s.len() - 1 <= 36 {
            s.last() * pow10((36 - (s.len() - 1)) as nat)
        } else {
            0
        }
    }
}

/// The priority value of one reading's priority string: the scaled priority
/// sum of its comma-separated codes, highest score first.
pub open spec fn reading_priority(p: Seq<char>) -> nat {
    scaled_sum(desc_sorted(trimmed_fields(p).map_values(|f: Seq<char>| spec_priority_score(f))))
}

/// Highest priority among the matched kanji readings that carry one.
pub open spec fn kanji_priority(kr: Seq<KanjiReading>) -> nat
    decreases kr.len(),
{
    if kr.len() == 0 {
        0
    } else {
        let prev = kanji_priority(kr.drop_last());
        let r = kr.last();
        let here = if r.match_range is Some && r.priority is Some {
            reading_priority(r.priority->0@)
        } else {
            0
        };
        if here > prev {
            here
        } else {
            prev
        }
    }
}

/// Highest priority among the matched kana readings that carry one.
pub open spec fn kana_priority(kr: Seq<KanaReading>) -> nat
    decreases kr.len(),
{
    if kr.len() == 0 {
        0
    } else {
        let prev = kana_priority(kr.drop_last());
        let r = kr.last();
        let here = if r.match_range is Some && r.priority is Some {
            reading_priority(r.priority->0@)
        } else {
            0
        };
        if here > prev {
            here
        } else {
            prev
        }
    }
}

/// The priority of an entry, based on its matched readings only (scaled by 10^36).
pub open spec fn spec_entry_priority(entry: WordEntry) -> nat {
    let a = kanji_priority(entry.kanji_readings@);
    let b = kana_priority(entry.kana_readings@);
    if a > b {
        a
    } else {
        b
    }
}

fn lit_eq(s: &Vec<char>, lit: &str) -> (b: bool)
    ensures
        b == (s@ == lit@),
{
    crate::text::str_is(s.as_slice(), lit)
}

/// Parses an `i32` as `str::parse` does.
fn parse_i32(s: &[char]) -> (r: Option<i64>)
    ensures
        r matches Some(v) ==> spec_parse_i32(s@) == Some(v as int),
        r is None ==> spec_parse_i32(s@) is None,
{
    let ghost neg = s@.len() > 0 && s@[0] == '-';
    let mut start: usize = 0;
    let mut negative = false;
    if s.len() > 0 && (s[0] == '-' || s[0] == '+') {
        negative = s[0] == '-';
        start = 1;
    }
    let ghost ds = unsigned_part(s@);
    proof {
        assert(ds =~= s@.subrange(start as int, s@.len() as int));
    }
    if start == s.len() {
        return None;
    }
    let mut value: i64 = 0;
    let mut big = false;
    let mut i = start;
    while i < s.len()
        invariant
            start <= i <= s@.len(),
            ds == unsigned_part(s@),
            ds == s@.subrange(start as int, s@.len() as int),
            forall|k: int| start <= k < i ==> is_ascii_digit(#[trigger] s@[k]),
            !big ==> value == digits_value(s@.subrange(start as int, i as int)),
            big ==> digits_value(s@.subrange(start as int, i as int)) > 2147483648,
            0 <= value <= 2147483648,
        decreases s@.len() - i,
    {
        let c = s[i];
        if !('0' <= c && c <= '9') {
            proof {
                let q = (i - start) as int;
                assert(ds[q] == s@[i as int]);
                assert(!is_ascii_digit(ds[q]));
                assert(!all_digits(ds));
            }
            return None;
        }
        proof {
            assert(s@.subrange(start as int, i as int + 1).drop_last() =~= s@.subrange(start as int, i as int));
        }
        let d = (c as u32 - '0' as u32) as i64;
        if !big {
            let nv = value * 10 + d;
            if nv > 2147483648 {
                big = true;
            } else {
                value = nv;
            }
        }
        i = i + 1;
    }
    proof {
        assert forall|k: int| 0 <= k < ds.len() implies is_ascii_digit(#[trigger] ds[k]) by {
            assert(ds[k] == s@[start + k]);
        }
    }
    proof {
        assert(s@.subrange(start as int, i as int) == ds);
        assert(all_digits(ds));
        assert(ds.len() > 0);
    }
    if big {
        proof {
            assert(digits_value(ds) > 2147483648);
        }
        return None;
    }
    let v = if negative {
        -value
    } else {
        value
    };
    if -2147483648 <= v && v <= 2147483647 {
        Some(v)
    } else {
        None
    }
}

/// Normalize full JMDict priority names to short codes.
fn normalize_priority(p: &Vec<char>) -> (n: Vec<char>)
    ensures
        n@ == normalize_priority_name(p@),
{
    if lit_eq(p, "ichi1") {
        to_chars("i1")
    } else if lit_eq(p, "ichi2") {
        to_chars("i2")
    } else if lit_eq(p, "news1") {
        to_chars("n1")
    } else if lit_eq(p, "news2") {
        to_chars("n2")
    } else if lit_eq(p, "spec1") {
        to_chars("s1")
    } else if lit_eq(p, "spec2") {
        to_chars("s2")
    } else if lit_eq(p, "gai1") {
        to_chars("g1")
    } else if lit_eq(p, "gai2") {
        to_chars("g2")
    } else {
        let mut out: Vec<char> = Vec::new();
        let mut i: usize = 0;
        while i < p.len()
            invariant
                i <= p@.len(),
                out@ == p@.take(i as int),
            decreases p@.len() - i,
        {
            out.push(p[i]);
            proof {
                assert(p@.take(i as int + 1) =~= p@.take(i as int).push(p@[i as int]));
            }
            i = i + 1;
        }
        proof {
            assert(p@.take(p@.len() as int) =~= p@);
        }
        out
    }
}

/// Priority score assignments for known JMDict priority codes.
fn priority_assignments(n: &Vec<char>) -> (r: Option<u32>)
    ensures
        r matches Some(v) ==> assigned_score(n@) == Some(v as nat),
        r is None ==> assigned_score(n@) is None,
{
    if lit_eq(n, "i1") {
        Some(50)
    } else if lit_eq(n, "i2") {
        Some(20)
    } else if lit_eq(n, "n1") {
        Some(40)
    } else if lit_eq(n, "n2") {
        Some(20)
    } else if lit_eq(n, "s1") {
        Some(32)
    } else if lit_eq(n, "s2") {
        Some(20)
    } else if lit_eq(n, "g1") {
        Some(30)
    } else if lit_eq(n, "g2") {
        Some(15)
    } else {
        None
    }
}

/// Get priority score for a single priority code.
fn get_priority_score(part: &Vec<char>) -> (r: u32)
    ensures
        r == spec_priority_score(part@),
        r <= 50,
{
    let normalized = normalize_priority(part);
    match priority_assignments(&normalized) {
        Some(score) => score,
        None => {
            let nf = to_chars("nf");
            proof {
                reveal_strlit("nf");
            }
            if crate::text::starts_with_chars(normalized.as_slice(), nf.as_slice()) {
                let rest = crate::deinflect::sub_chars(normalized.as_slice(), 2, normalized.len());
                match parse_i32(rest.as_slice()) {
                    Some(v) => {
                        if 0 < v && v < 48 {
                            (48 - v / 2) as u32
                        } else {
                            0
                        }
                    },
                    None => 0,
                }
            } else {
                0
            }
        },
    }
}

/// How often `v` occurs among the scores.
fn count_score(scores: &Vec<u32>, v: u32, Ghost(sv): Ghost<Seq<nat>>) -> (c: usize)
    requires
        sv == scores@.map_values(|x: u32| x as nat),
    ensures
        c == count_of(sv, v as nat),
{
    let mut c: usize = 0;
    let mut i: usize = 0;
    while i < scores.len()
        invariant
            i <= scores@.len(),
            sv == scores@.map_values(|x: u32| x as nat),
            c == count_of(sv.take(i as int), v as nat),
            c <= i,
        decreases scores@.len() - i,
    {
        proof {
            assert(sv.take(i as int + 1).drop_last() =~= sv.take(i as int));
        }
        if scores[i] == v {
            c = c + 1;
        }
        i = i + 1;
    }
    proof {
        assert(sv.take(scores@.len() as int) =~= sv);
    }
    c
}

proof fn lemma_desc_from_len(s: Seq<nat>, v: nat)
    ensures
        desc_from(s, v).len() >= count_of(s, v),
    decreases v,
{
    if v > 0 {
        lemma_desc_from_len(s, (v - 1) as nat);
    }
}

/// The scaled priority value of one reading's priority string.
fn reading_priority_value(p: &String) -> (r: u128)
    ensures
        r == reading_priority(p@),
{
    let chars = to_chars(p.as_str());
    let fields = split_trimmed(chars.as_slice());
    let ghost sv = trimmed_fields(p@).map_values(|f: Seq<char>| spec_priority_score(f));
    let mut scores: Vec<u32> = Vec::new();
    let mut k: usize = 0;
    while k < fields.len()
        invariant
            k <= fields@.len(),
            chars@ == p@,
            fields@.len() == trimmed_fields(p@).len(),
            forall|q: int| 0 <= q < fields@.len() ==> (#[trigger] fields@[q])@ == trimmed_fields(p@)[q],
            scores@.len() == k,
            forall|q: int| 0 <= q < k ==> (#[trigger] scores@[q]) as nat == spec_priority_score(
                trimmed_fields(p@)[q],
            ),
        decreases fields@.len() - k,
    {
        scores.push(get_priority_score(&fields[k]));
        k = k + 1;
    }
    proof {
        assert(sv =~= scores@.map_values(|x: u32| x as nat));
    }
    let ghost d = desc_sorted(sv);
    let mut sum: u128 = 0;
    let mut pow: u128 = 1_000_000_000_000_000_000_000_000_000_000_000_000u128;
    let ghost mut idx: int = 0;
    let mut v: u32 = 51;
    proof {
        assert(d.subrange(0, d.len() as int) =~= desc_from(sv, 50));
        assert(d.take(0) =~= Seq::<nat>::empty());
        reveal_with_fuel(pow10, 37);
    }
    while v > 0
        invariant
            v <= 51,
            sv == scores@.map_values(|x: u32| x as nat),
            d == desc_sorted(sv),
            0 <= idx <= d.len(),
            v == 51 ==> idx == 0,
            v <= 50 ==> d.subrange(idx, d.len() as int) == if v == 0 {
                Seq::<nat>::empty()
            } else {
                desc_from(sv, (v - 1) as nat)
            },
            v == 51 ==> d.subrange(idx, d.len() as int) == desc_from(sv, 50),
            sum == scaled_sum(d.take(idx)),
            pow == if idx <= 36 {
                pow10((36 - idx) as nat)
            } else {
                0
            },
            sum + 56 * pow <= 56_000_000_000_000_000_000_000_000_000_000_000_000,
        decreases v,
    {
        v = v - 1;
        let c = count_score(&scores, v, Ghost(sv));
        proof {
            lemma_desc_from_len(sv, v as nat);
            assert(desc_from(sv, v as nat) == Seq::new(count_of(sv, v as nat), |i: int| v as nat) + if v
                == 0 {
                Seq::<nat>::empty()
            } else {
                desc_from(sv, (v - 1) as nat)
            });
        }
        let mut t: usize = 0;
        while t < c
            invariant
                t <= c,
                v <= 50,
                c == count_of(sv, v as nat),
                d == desc_sorted(sv),
                0 <= idx,
                idx + (c - t) <= d.len(),
                d.subrange(idx, d.len() as int) == Seq::new((c - t) as nat, |i: int| v as nat)
                    + if v == 0 {
                    Seq::<nat>::empty()
                } else {
                    desc_from(sv, (v - 1) as nat)
                },
                sum == scaled_sum(d.take(idx)),
                pow == if idx <= 36 {
                    pow10((36 - idx) as nat)
                } else {
                    0
                },
                sum + 56 * pow <= 56_000_000_000_000_000_000_000_000_000_000_000_000,
            decreases c - t,
        {
            proof {
                assert(d[idx] == d.subrange(idx, d.len() as int)[0]);
                assert(d[idx] == v as nat);
                assert(d.take(idx + 1).drop_last() =~= d.take(idx));
                assert(d.subrange(idx + 1, d.len() as int) =~= d.subrange(idx, d.len() as int).drop_first());
                assert(Seq::new((c - t) as nat, |i: int| v as nat).drop_first() =~= Seq::new((c - t - 1) as nat, |i: int| v as nat));
                assert((v as u128) * pow <= 50 * pow) by (nonlinear_arith)
                    requires
                        v <= 50,
                ;
                if idx < 36 {
                    assert(pow10((36 - idx) as nat) == 10 * pow10((36 - idx - 1) as nat));
                }
            }
            sum = sum + (v as u128) * pow;
            pow = pow / 10;
            proof {
                idx = idx + 1;
            }
            t = t + 1;
        }
    }
    proof {
        assert(d.take(idx) =~= d);
    }
    sum
}

/// Highest priority among matched kanji readings.
fn kanji_priority_value(kr: &Vec<KanjiReading>) -> (r: u128)
    ensures
        r == kanji_priority(kr@),
{
    let mut best: u128 = 0;
    let mut i: usize = 0;
    while i < kr.len()
        invariant
            i <= kr@.len(),
            best == kanji_priority(kr@.take(i as int)),
        decreases kr@.len() - i,
    {
        proof {
            assert(kr@.take(i as int + 1).drop_last() =~= kr@.take(i as int));
        }
        let r = &kr[i];
        if r.match_range.is_some() {
            match &r.priority {
                Some(p) => {
                    let here = reading_priority_value(p);
                    if here > best {
                        best = here;
                    }
                },
                None => {},
            }
        }
        i = i + 1;
    }
    proof {
        assert(kr@.take(kr@.len() as int) =~= kr@);
    }
    best
}

/// Highest priority among matched kana readings.
fn kana_priority_value(kr: &Vec<KanaReading>) -> (r: u128)
    ensures
        r == kana_priority(kr@),
{
    let mut best: u128 = 0;
    let mut i: usize = 0;
    while i < kr.len()
        invariant
            i <= kr@.len(),
            best == kana_priority(kr@.take(i as int)),
        decreases kr@.len() - i,
    {
        proof {
            assert(kr@.take(i as int + 1).drop_last() =~= kr@.take(i as int));
        }
        let r = &kr[i];
        if r.match_range.is_some() {
            match &r.priority {
                Some(p) => {
                    let here = reading_priority_value(p);
                    if here > best {
                        best = here;
                    }
                },
                None => {},
            }
        }
        i = i + 1;
    }
    proof {
        assert(kr@.take(kr@.len() as int) =~= kr@);
    }
    best
}

/// The priority of an entry from its matched readings, scaled by 10^36 so
/// that the sum of scores with decreasing weights is an exact integer.
pub fn get_priority_value(entry: &WordEntry) -> (r: u128)
    ensures
        r == spec_entry_priority(*entry),
{
    let a = kanji_priority_value(&entry.kanji_readings);
    let b = kana_priority_value(&entry.kana_readings);
    if a > b {
        a
    } else {
        b
    }
}

// ---------------------------------------------------------------------------
// Sorting
// ---------------------------------------------------------------------------

/// The length of the longest chain.
pub open spec fn longest_chain(c: Seq<Vec<Reason>>) -> nat
    decreases c.len(),
{
    if c.len() == 0 {
        0
    } else {
        let prev = longest_chain(c.drop_last());
        if c.last()@.len() > prev {
            c.last()@.len()
        } else {
            prev
        }
    }
}

/// Number of deinflection steps of a result: its longest reason chain.
pub open spec fn deinflection_steps(chains: Option<Vec<Vec<Reason>>>) -> nat {
    match chains {
        Some(c) => longest_chain(c@),
        None => 0,
    }
}

/// The sort key of a result: match length, deinflection steps, headword
/// type, priority.
pub open spec fn result_key(r: WordResult) -> (int, int, int, int) {
    (
        r.match_len as int,
        deinflection_steps(r.reason_chains) as int,
        spec_kana_headword_type(r.entry) as int,
        spec_entry_priority(r.entry) as int,
    )
}

/// Key `a` sorts strictly before key `b`: longer match, then fewer
/// deinflection steps, then headword type 1 before 2, then higher priority.
pub open spec fn sorts_before(a: (int, int, int, int), b: (int, int, int, int)) -> bool {
    ||| a.0 > b.0
    ||| a.0 == b.0 && a.1 < b.1
    ||| a.0 == b.0 && a.1 == b.1 && a.2 < b.2
    ||| a.0 == b.0 && a.1 == b.1 && a.2 == b.2 && a.3 > b.3
}

/// `perm` lists each index below `n` exactly once.
pub open spec fn is_index_perm(perm: Seq<int>, n: nat) -> bool {
    &&& perm.len() == n
    &&& forall|k: int| 0 <= k < n ==> 0 <= #[trigger] perm[k] < n
    &&& forall|a: int, b: int| 0 <= a < b < n ==> perm[a] != perm[b]
}

/// `out` is `inp` sorted by [`result_key`] with equal keys kept in their
/// original order.
pub open spec fn is_stable_sort_of(out: Seq<WordResult>, inp: Seq<WordResult>) -> bool {
    &&& out.len() == inp.len()
    &&& exists|perm: Seq<int>|
        {
            &&& #[trigger] is_index_perm(perm, inp.len())
            &&& forall|k: int| 0 <= k < out.len() ==> out[k] == inp[perm[k]]
            &&& forall|a: int, b: int|
                0 <= a < b < out.len() ==> !sorts_before(result_key(out[b]), result_key(out[a]))
            &&& forall|a: int, b: int|
                0 <= a < b < out.len() && result_key(out[a]) == result_key(out[b]) ==> perm[a]
                    < perm[b]
        }
}

#[derive(Copy, Clone)]
struct SortKey {
    match_len: usize,
    steps: usize,
    headword: u8,
    priority: u128,
}

spec fn key_view(k: SortKey) -> (int, int, int, int) {
    (k.match_len as int, k.steps as int, k.headword as int, k.priority as int)
}

fn chain_steps(chains: &Option<Vec<Vec<Reason>>>) -> (n: usize)
    ensures
        n == deinflection_steps(*chains),
{
    match chains {
        Some(c) => {
            let mut best: usize = 0;
            let mut i: usize = 0;
            while i < c.len()
                invariant
                    i <= c@.len(),
                    best == longest_chain(c@.take(i as int)),
                decreases c@.len() - i,
            {
                proof {
                    assert(c@.take(i as int + 1).drop_last() =~= c@.take(i as int));
                }
                if c[i].len() > best {
                    best = c[i].len();
                }
                i = i + 1;
            }
            proof {
                assert(c@.take(c@.len() as int) =~= c@);
            }
            best
        },
        None => 0,
    }
}

fn key_of(r: &WordResult) -> (k: SortKey)
    ensures
        key_view(k) == result_key(*r),
{
    SortKey {
        match_len: r.match_len,
        steps: chain_steps(&r.reason_chains),
        headword: get_kana_headword_type(&r.entry),
        priority: get_priority_value(&r.entry),
    }
}

fn key_sorts_before(a: &SortKey, b: &SortKey) -> (r: bool)
    ensures
        r == sorts_before(key_view(*a), key_view(*b)),
{
    if a.match_len != b.match_len {
        return a.match_len > b.match_len;
    }
    if a.steps != b.steps {
        return a.steps < b.steps;
    }
    if a.headword != b.headword {
        return a.headword < b.headword;
    }
    a.priority > b.priority
}

proof fn lemma_increasing_perm_low(perm: Seq<int>, n: nat, k: int)
    requires
        is_index_perm(perm, n),
        forall|a: int, b: int| 0 <= a < b < n ==> perm[a] < perm[b],
        0 <= k < n,
    ensures
        perm[k] >= k,
    decreases k,
{
    if k > 0 {
        lemma_increasing_perm_low(perm, n, k - 1);
    }
}

proof fn lemma_increasing_perm_high(perm: Seq<int>, n: nat, k: int)
    requires
        is_index_perm(perm, n),
        forall|a: int, b: int| 0 <= a < b < n ==> perm[a] < perm[b],
        0 <= k < n,
    ensures
        perm[k] <= k,
    decreases n - k,
{
    if k < n - 1 {
        lemma_increasing_perm_high(perm, n, k + 1);
        lemma_increasing_perm_low(perm, n, k + 1);
    } else {
        assert(0 <= perm[k] < n);
    }
}

/// A result as plain values: its entry, its match length and the views of
/// its reason chains.
pub open spec fn result_view(r: WordResult) -> (WordEntry, usize, Option<Seq<Seq<Reason>>>) {
    (
        r.entry,
        r.match_len,
        match r.reason_chains {
            Some(c) => Some(chains_view(c@)),
            None => None,
        },
    )
}

/// The plain values of a list of results.
pub open spec fn results_view(s: Seq<WordResult>) -> Seq<(WordEntry, usize, Option<Seq<Seq<Reason>>>)> {
    s.map_values(|r: WordResult| result_view(r))
}

proof fn lemma_longest_chain_view(c1: Seq<Vec<Reason>>, c2: Seq<Vec<Reason>>)
    requires
        chains_view(c1) == chains_view(c2),
    ensures
        longest_chain(c1) == longest_chain(c2),
    decreases c1.len(),
{
    assert(c1.len() == chains_view(c1).len() && c2.len() == chains_view(c2).len());
    if c1.len() > 0 {
        assert(chains_view(c1.drop_last()) =~= chains_view(c2.drop_last())) by {
            assert forall|i: int| 0 <= i < c1.len() - 1 implies c1.drop_last()[i]@ == c2.drop_last()[i]@ by {
                assert(chains_view(c1)[i] == chains_view(c2)[i]);
            }
        }
        lemma_longest_chain_view(c1.drop_last(), c2.drop_last());
        assert(chains_view(c1)[c1.len() - 1] == chains_view(c2)[c2.len() - 1]);
    }
}

/// Results with the same plain values sort alike.
pub proof fn lemma_key_of_view(a: WordResult, b: WordResult)
    requires
        result_view(a) == result_view(b),
    ensures
        result_key(a) == result_key(b),
{
    match (a.reason_chains, b.reason_chains) {
        (Some(x), Some(y)) => {
            lemma_longest_chain_view(x@, y@);
        },
        _ => {},
    }
}

/// The stable sort is unique: stable sorts of lists with the same plain
/// values have the same plain values.
pub proof fn lemma_stable_sort_unique(
    i1: Seq<WordResult>,
    o1: Seq<WordResult>,
    i2: Seq<WordResult>,
    o2: Seq<WordResult>,
)
    requires
        is_stable_sort_of(o1, i1),
        is_stable_sort_of(o2, i2),
        results_view(i1) == results_view(i2),
    ensures
        results_view(o1) == results_view(o2),
{
    let n = i1.len();
    assert(i2.len() == results_view(i2).len());
    let p1 = choose|perm: Seq<int>|
        {
            &&& #[trigger] is_index_perm(perm, i1.len())
            &&& forall|k: int| 0 <= k < o1.len() ==> o1[k] == i1[perm[k]]
            &&& forall|a: int, b: int|
                0 <= a < b < o1.len() ==> !sorts_before(result_key(o1[b]), result_key(o1[a]))
            &&& forall|a: int, b: int|
                0 <= a < b < o1.len() && result_key(o1[a]) == result_key(o1[b]) ==> perm[a] < perm[b]
        };
    let p2 = choose|perm: Seq<int>|
        {
            &&& #[trigger] is_index_perm(perm, i2.len())
            &&& forall|k: int| 0 <= k < o2.len() ==> o2[k] == i2[perm[k]]
            &&& forall|a: int, b: int|
                0 <= a < b < o2.len() ==> !sorts_before(result_key(o2[b]), result_key(o2[a]))
            &&& forall|a: int, b: int|
                0 <= a < b < o2.len() && result_key(o2[a]) == result_key(o2[b]) ==> perm[a] < perm[b]
        };
    // The key of each input position, the same in both lists.
    assert forall|j: int| 0 <= j < n implies #[trigger] result_key(i1[j]) == result_key(i2[j]) by {
        assert(results_view(i1)[j] == results_view(i2)[j]);
        lemma_key_of_view(i1[j], i2[j]);
    }
    // Both orders place input positions by key, then by position.
    assert forall|a: int, b: int| 0 <= a < b < n implies precedes(i1, p1[a], p1[b]) && precedes(i1, p2[a], p2[b]) by {
        assert(o1.len() == n && o2.len() == n);
        assert(o1[a] == i1[p1[a]] && o1[b] == i1[p1[b]]);
        assert(o2[a] == i2[p2[a]] && o2[b] == i2[p2[b]]);
        assert(0 <= p2[a] < n && 0 <= p2[b] < n);
        assert(result_key(i1[p2[a]]) == result_key(i2[p2[a]]));
        assert(result_key(i1[p2[b]]) == result_key(i2[p2[b]]));
        lemma_keys_total(result_key(o1[a]), result_key(o1[b]));
        lemma_keys_total(result_key(o2[a]), result_key(o2[b]));
    }
    // Where `p2` puts what `p1` puts at each place.
    assert forall|k: int| #![trigger p1[k]] 0 <= k < n implies exists|m: int| 0 <= m < n && #[trigger] p2[m] == p1[k] by {
        lemma_perm_onto(p2, n, p1[k]);
    }
    let q = Seq::new(n, |k: int| choose|m: int| 0 <= m < n && #[trigger] p2[m] == p1[k]);
    assert forall|a: int, b: int| 0 <= a < b < n implies q[a] < q[b] by {
        assert(p2[q[a]] == p1[a] && p2[q[b]] == p1[b]);
        assert(precedes(i1, p1[a], p1[b]));
        if q[a] > q[b] {
            assert(precedes(i1, p2[q[b]], p2[q[a]]));
        }
        if q[a] == q[b] {
            assert(p1[a] == p1[b]);
        }
    }
    assert(is_index_perm(q, n)) by {
        assert forall|k: int| 0 <= k < n implies 0 <= #[trigger] q[k] < n by {
            assert(0 <= q[k] < n && p2[q[k]] == p1[k]);
        }
    }
    assert forall|k: int| 0 <= k < n implies results_view(o1)[k] == results_view(o2)[k] by {
        lemma_increasing_perm_low(q, n, k);
        lemma_increasing_perm_high(q, n, k);
        assert(p2[k] == p1[k]);
        assert(results_view(i1)[p1[k]] == results_view(i2)[p1[k]]);
    }
    assert(results_view(o1) =~= results_view(o2));
}

proof fn lemma_keys_total(a: (int, int, int, int), b: (int, int, int, int))
    ensures
        a == b || sorts_before(a, b) || sorts_before(b, a),
        !(sorts_before(a, b) && sorts_before(b, a)),
        !sorts_before(a, a),
{
}

/// Position `x` of `inp` sorts before position `y`: by key, then by position.
pub open spec fn precedes(inp: Seq<WordResult>, x: int, y: int) -> bool {
    ||| sorts_before(result_key(inp[x]), result_key(inp[y]))
    ||| result_key(inp[x]) == result_key(inp[y]) && x < y
}

/// Each place below `n` is taken by some index of a permutation.
proof fn lemma_perm_onto(perm: Seq<int>, n: nat, x: int)
    requires
        is_index_perm(perm, n),
        0 <= x < n,
    ensures
        exists|m: int| 0 <= m < n && perm[m] == x,
{
    assert(perm.no_duplicates()) by {
        assert forall|a: int, b: int| 0 <= a < perm.len() && 0 <= b < perm.len() && a != b implies perm[a]
            != perm[b] by {
            if a < b {
            } else {
            }
        }
    }
    perm.unique_seq_to_set();
    vstd::set_lib::lemma_int_range(0, n as int);
    assert(perm.to_set().subset_of(vstd::set_lib::set_int_range(0, n as int))) by {
        assert forall|y: int| perm.to_set().contains(y) implies vstd::set_lib::set_int_range(0, n as int).contains(y) by {
            assert(perm.contains(y));
            let k = choose|k: int| 0 <= k < perm.len() && perm[k] == y;
            assert(0 <= perm[k] < n);
        }
    }
    vstd::set_lib::lemma_subset_equality(perm.to_set(), vstd::set_lib::set_int_range(0, n as int));
    assert(vstd::set_lib::set_int_range(0, n as int).contains(x));
    assert(perm.to_set().contains(x));
    assert(perm.contains(x));
}

/// The order the sort produces, key by key: a longer match comes first;
/// among equal match lengths, fewer deinflection steps; then the smaller
/// headword type (a matched kanji headword before a kana one); then the
/// higher priority.
pub proof fn lemma_sorted_order(out: Seq<WordResult>, inp: Seq<WordResult>, a: int, b: int)
    requires
        is_stable_sort_of(out, inp),
        0 <= a < b < out.len(),
    ensures
        out[a].match_len >= out[b].match_len,
        out[a].match_len == out[b].match_len ==> deinflection_steps(out[a].reason_chains)
            <= deinflection_steps(out[b].reason_chains),
        out[a].match_len == out[b].match_len && deinflection_steps(out[a].reason_chains)
            == deinflection_steps(out[b].reason_chains) ==> spec_kana_headword_type(out[a].entry)
            <= spec_kana_headword_type(out[b].entry),
        out[a].match_len == out[b].match_len && deinflection_steps(out[a].reason_chains)
            == deinflection_steps(out[b].reason_chains) && spec_kana_headword_type(out[a].entry)
            == spec_kana_headword_type(out[b].entry) ==> spec_entry_priority(out[a].entry)
            >= spec_entry_priority(out[b].entry),
{
    let perm = choose|perm: Seq<int>|
        {
            &&& #[trigger] is_index_perm(perm, inp.len())
            &&& forall|k: int| 0 <= k < out.len() ==> out[k] == inp[perm[k]]
            &&& forall|x: int, y: int|
                0 <= x < y < out.len() ==> !sorts_before(result_key(out[y]), result_key(out[x]))
            &&& forall|x: int, y: int|
                0 <= x < y < out.len() && result_key(out[x]) == result_key(out[y]) ==> perm[x] < perm[y]
        };
    assert(!sorts_before(result_key(out[b]), result_key(out[a])));
}

/// The scores of the JMdict priority codes, by full name and by short code:
/// ichi1 50, ichi2 20, news1 40, news2 20, spec1 32, spec2 20, gai1 30,
/// gai2 15.
pub proof fn lemma_priority_code_scores()
    ensures
        spec_priority_score("ichi1"@) == 50,
        spec_priority_score("i1"@) == 50,
        spec_priority_score("ichi2"@) == 20,
        spec_priority_score("i2"@) == 20,
        spec_priority_score("news1"@) == 40,
        spec_priority_score("n1"@) == 40,
        spec_priority_score("news2"@) == 20,
        spec_priority_score("n2"@) == 20,
        spec_priority_score("spec1"@) == 32,
        spec_priority_score("s1"@) == 32,
        spec_priority_score("spec2"@) == 20,
        spec_priority_score("s2"@) == 20,
        spec_priority_score("gai1"@) == 30,
        spec_priority_score("g1"@) == 30,
        spec_priority_score("gai2"@) == 15,
        spec_priority_score("g2"@) == 15,
{
    reveal_strlit("ichi1");
    reveal_strlit("ichi2");
    reveal_strlit("news1");
    reveal_strlit("news2");
    reveal_strlit("spec1");
    reveal_strlit("spec2");
    reveal_strlit("gai1");
    reveal_strlit("gai2");
    reveal_strlit("i1");
    reveal_strlit("i2");
    reveal_strlit("n1");
    reveal_strlit("n2");
    reveal_strlit("s1");
    reveal_strlit("s2");
    reveal_strlit("g1");
    reveal_strlit("g2");
    assert("i1"@.len() != "ichi1"@.len());
    assert("i1"@.len() != "ichi2"@.len());
    assert("i1"@.len() != "news1"@.len());
    assert("i1"@.len() != "news2"@.len());
    assert("i1"@.len() != "spec1"@.len());
    assert("i1"@.len() != "spec2"@.len());
    assert("i1"@.len() != "gai1"@.len());
    assert("i1"@.len() != "gai2"@.len());
    assert("ichi2"@[4] != "ichi1"@[4]);
    assert("i2"@[1] != "i1"@[1]);
    assert("i2"@.len() != "ichi1"@.len());
    assert("i2"@.len() != "ichi2"@.len());
    assert("i2"@.len() != "news1"@.len());
    assert("i2"@.len() != "news2"@.len());
    assert("i2"@.len() != "spec1"@.len());
    assert("i2"@.len() != "spec2"@.len());
    assert("i2"@.len() != "gai1"@.len());
    assert("i2"@.len() != "gai2"@.len());
    assert("news1"@[0] != "ichi1"@[0]);
    assert("news1"@[0] != "ichi2"@[0]);
    assert("n1"@[0] != "i1"@[0]);
    assert("n1"@[0] != "i2"@[0]);
    assert("n1"@.len() != "ichi1"@.len());
    assert("n1"@.len() != "ichi2"@.len());
    assert("n1"@.len() != "news1"@.len());
    assert("n1"@.len() != "news2"@.len());
    assert("n1"@.len() != "spec1"@.len());
    assert("n1"@.len() != "spec2"@.len());
    assert("n1"@.len() != "gai1"@.len());
    assert("n1"@.len() != "gai2"@.len());
    assert("news2"@[0] != "ichi1"@[0]);
    assert("news2"@[0] != "ichi2"@[0]);
    assert("news2"@[4] != "news1"@[4]);
    assert("n2"@[0] != "i1"@[0]);
    assert("n2"@[0] != "i2"@[0]);
    assert("n2"@[1] != "n1"@[1]);
    assert("n2"@.len() != "ichi1"@.len());
    assert("n2"@.len() != "ichi2"@.len());
    assert("n2"@.len() != "news1"@.len());
    assert("n2"@.len() != "news2"@.len());
    assert("n2"@.len() != "spec1"@.len());
    assert("n2"@.len() != "spec2"@.len());
    assert("n2"@.len() != "gai1"@.len());
    assert("n2"@.len() != "gai2"@.len());
    assert("spec1"@[0] != "ichi1"@[0]);
    assert("spec1"@[0] != "ichi2"@[0]);
    assert("spec1"@[0] != "news1"@[0]);
    assert("spec1"@[0] != "news2"@[0]);
    assert("s1"@[0] != "i1"@[0]);
    assert("s1"@[0] != "i2"@[0]);
    assert("s1"@[0] != "n1"@[0]);
    assert("s1"@[0] != "n2"@[0]);
    assert("s1"@.len() != "ichi1"@.len());
    assert("s1"@.len() != "ichi2"@.len());
    assert("s1"@.len() != "news1"@.len());
    assert("s1"@.len() != "news2"@.len());
    assert("s1"@.len() != "spec1"@.len());
    assert("s1"@.len() != "spec2"@.len());
    assert("s1"@.len() != "gai1"@.len());
    assert("s1"@.len() != "gai2"@.len());
    assert("spec2"@[0] != "ichi1"@[0]);
    assert("spec2"@[0] != "ichi2"@[0]);
    assert("spec2"@[0] != "news1"@[0]);
    assert("spec2"@[0] != "news2"@[0]);
    assert("spec2"@[4] != "spec1"@[4]);
    assert("s2"@[0] != "i1"@[0]);
    assert("s2"@[0] != "i2"@[0]);
    assert("s2"@[0] != "n1"@[0]);
    assert("s2"@[0] != "n2"@[0]);
    assert("s2"@[1] != "s1"@[1]);
    assert("s2"@.len() != "ichi1"@.len());
    assert("s2"@.len() != "ichi2"@.len());
    assert("s2"@.len() != "news1"@.len());
    assert("s2"@.len() != "news2"@.len());
    assert("s2"@.len() != "spec1"@.len());
    assert("s2"@.len() != "spec2"@.len());
    assert("s2"@.len() != "gai1"@.len());
    assert("s2"@.len() != "gai2"@.len());
    assert("gai1"@.len() != "ichi1"@.len());
    assert("gai1"@.len() != "ichi2"@.len());
    assert("gai1"@.len() != "news1"@.len());
    assert("gai1"@.len() != "news2"@.len());
    assert("gai1"@.len() != "spec1"@.len());
    assert("gai1"@.len() != "spec2"@.len());
    assert("g1"@[0] != "i1"@[0]);
    assert("g1"@[0] != "i2"@[0]);
    assert("g1"@[0] != "n1"@[0]);
    assert("g1"@[0] != "n2"@[0]);
    assert("g1"@[0] != "s1"@[0]);
    assert("g1"@[0] != "s2"@[0]);
    assert("g1"@.len() != "ichi1"@.len());
    assert("g1"@.len() != "ichi2"@.len());
    assert("g1"@.len() != "news1"@.len());
    assert("g1"@.len() != "news2"@.len());
    assert("g1"@.len() != "spec1"@.len());
    assert("g1"@.len() != "spec2"@.len());
    assert("g1"@.len() != "gai1"@.len());
    assert("g1"@.len() != "gai2"@.len());
    assert("gai2"@.len() != "ichi1"@.len());
    assert("gai2"@.len() != "ichi2"@.len());
    assert("gai2"@.len() != "news1"@.len());
    assert("gai2"@.len() != "news2"@.len());
    assert("gai2"@.len() != "spec1"@.len());
    assert("gai2"@.len() != "spec2"@.len());
    assert("gai2"@[3] != "gai1"@[3]);
    assert("g2"@[0] != "i1"@[0]);
    assert("g2"@[0] != "i2"@[0]);
    assert("g2"@[0] != "n1"@[0]);
    assert("g2"@[0] != "n2"@[0]);
    assert("g2"@[0] != "s1"@[0]);
    assert("g2"@[0] != "s2"@[0]);
    assert("g2"@[1] != "g1"@[1]);
    assert("g2"@.len() != "ichi1"@.len());
    assert("g2"@.len() != "ichi2"@.len());
    assert("g2"@.len() != "news1"@.len());
    assert("g2"@.len() != "news2"@.len());
    assert("g2"@.len() != "spec1"@.len());
    assert("g2"@.len() != "spec2"@.len());
    assert("g2"@.len() != "gai1"@.len());
    assert("g2"@.len() != "gai2"@.len());
}

/// An entry's priority is at least that of each of its matched readings
/// (kanji or kana) that carries a priority string.
pub proof fn lemma_entry_priority_covers_readings(entry: WordEntry)
    ensures
        forall|i: int|
            0 <= i < entry.kanji_readings@.len() && (#[trigger] entry.kanji_readings@[i]).match_range is Some
                && entry.kanji_readings@[i].priority is Some ==> spec_entry_priority(entry) >= reading_priority(
                entry.kanji_readings@[i].priority->0@,
            ),
        forall|i: int|
            0 <= i < entry.kana_readings@.len() && (#[trigger] entry.kana_readings@[i]).match_range is Some
                && entry.kana_readings@[i].priority is Some ==> spec_entry_priority(entry) >= reading_priority(
                entry.kana_readings@[i].priority->0@,
            ),
{
    lemma_kanji_priority_max(entry.kanji_readings@);
    lemma_kana_priority_max(entry.kana_readings@);
}

proof fn lemma_kanji_priority_max(kr: Seq<KanjiReading>)
    ensures
        forall|i: int|
            0 <= i < kr.len() && (#[trigger] kr[i]).match_range is Some && kr[i].priority is Some
                ==> kanji_priority(kr) >= reading_priority(kr[i].priority->0@),
    decreases kr.len(),
{
    if kr.len() > 0 {
        lemma_kanji_priority_max(kr.drop_last());
        assert forall|i: int|
            0 <= i < kr.len() && (#[trigger] kr[i]).match_range is Some && kr[i].priority is Some implies kanji_priority(kr)
                >= reading_priority(kr[i].priority->0@) by {
            if i < kr.len() - 1 {
                assert(kr[i] == kr.drop_last()[i]);
            }
        }
    }
}

proof fn lemma_kana_priority_max(kr: Seq<KanaReading>)
    ensures
        forall|i: int|
            0 <= i < kr.len() && (#[trigger] kr[i]).match_range is Some && kr[i].priority is Some
                ==> kana_priority(kr) >= reading_priority(kr[i].priority->0@),
    decreases kr.len(),
{
    if kr.len() > 0 {
        lemma_kana_priority_max(kr.drop_last());
        assert forall|i: int|
            0 <= i < kr.len() && (#[trigger] kr[i]).match_range is Some && kr[i].priority is Some implies kana_priority(kr)
                >= reading_priority(kr[i].priority->0@) by {
            if i < kr.len() - 1 {
                assert(kr[i] == kr.drop_last()[i]);
            }
        }
    }
}

/// Sorting twice gives what sorting once gives: a stable sort of a list
/// that a stable sort has already put in order leaves it unchanged.
pub proof fn lemma_sort_twice(inp: Seq<WordResult>, once: Seq<WordResult>, twice: Seq<WordResult>)
    requires
        is_stable_sort_of(once, inp),
        is_stable_sort_of(twice, once),
    ensures
        twice == once,
{
    let p1 = choose|perm: Seq<int>|
        {
            &&& #[trigger] is_index_perm(perm, inp.len())
            &&& forall|k: int| 0 <= k < once.len() ==> once[k] == inp[perm[k]]
            &&& forall|a: int, b: int|
                0 <= a < b < once.len() ==> !sorts_before(result_key(once[b]), result_key(once[a]))
            &&& forall|a: int, b: int|
                0 <= a < b < once.len() && result_key(once[a]) == result_key(once[b]) ==> perm[a] < perm[b]
        };
    let perm = choose|perm: Seq<int>|
        {
            &&& #[trigger] is_index_perm(perm, once.len())
            &&& forall|k: int| 0 <= k < twice.len() ==> twice[k] == once[perm[k]]
            &&& forall|a: int, b: int|
                0 <= a < b < twice.len() ==> !sorts_before(result_key(twice[b]), result_key(twice[a]))
            &&& forall|a: int, b: int|
                0 <= a < b < twice.len() && result_key(twice[a]) == result_key(twice[b]) ==> perm[a]
                    < perm[b]
        };
    let n = once.len();
    assert forall|a: int, b: int| 0 <= a < b < n implies perm[a] < perm[b] by {
        let ka = result_key(twice[a]);
        let kb = result_key(twice[b]);
        assert(twice[a] == once[perm[a]] && twice[b] == once[perm[b]]);
        if ka != kb {
            assert(!sorts_before(kb, ka));
            assert(sorts_before(ka, kb));
            if perm[a] > perm[b] {
                assert(!sorts_before(result_key(once[perm[a]]), result_key(once[perm[b]])));
            }
            assert(perm[a] != perm[b]);
        }
    }
    assert forall|k: int| 0 <= k < n implies twice[k] == once[k] by {
        lemma_increasing_perm_low(perm, n, k);
        lemma_increasing_perm_high(perm, n, k);
    }
    assert(twice =~= once);
}


/// Sort word results: longer match, then fewer deinflect steps, then
/// headword type 1, then higher priority; ties keep their order.
pub fn sort_word_results(results: &mut Vec<WordResult>)
    ensures
        is_stable_sort_of(final(results)@, old(results)@),
{
    let ghost inp = results@;
    let n = results.len();
    let mut keys: Vec<SortKey> = Vec::new();
    let mut q: usize = 0;
    while q < n
        invariant
            q <= n,
            n == results@.len(),
            results@ == inp,
            keys@.len() == q,
            forall|k: int| 0 <= k < q ==> key_view(#[trigger] keys@[k]) == result_key(results@[k]),
        decreases n - q,
    {
        keys.push(key_of(&results[q]));
        q = q + 1;
    }
    let ghost mut perm: Seq<int> = Seq::new(n as nat, |k: int| k);
    let mut i: usize = if n > 0 {
        1
    } else {
        0
    };
    while i < n
        invariant
            n == results@.len(),
            n == inp.len(),
            keys@.len() == n,
            i <= n,
            n > 0 ==> i >= 1,
            forall|k: int| 0 <= k < n ==> key_view(#[trigger] keys@[k]) == result_key(results@[k]),
            is_index_perm(perm, n as nat),
            forall|k: int| 0 <= k < n ==> results@[k] == inp[#[trigger] perm[k]],
            forall|k: int| i <= k < n ==> #[trigger] perm[k] == k,
            forall|k: int| 0 <= k < i ==> #[trigger] perm[k] < i,
            forall|a: int, b: int|
                0 <= a < b < i ==> !sorts_before(key_view(keys@[b]), key_view(keys@[a])),
            forall|a: int, b: int|
                0 <= a < b < i && key_view(keys@[a]) == key_view(keys@[b]) ==> perm[a] < perm[b],
        decreases n - i,
    {
        let ghost old_results = results@;
        let ghost old_keys = keys@;
        let ghost old_perm = perm;
        let kx = keys[i];
        let mut j: usize = 0;
        while j < i && !key_sorts_before(&kx, &keys[j])
            invariant
                j <= i,
                i < n,
                keys@.len() == n,
                kx == keys@[i as int],
                forall|t: int| 0 <= t < j ==> !sorts_before(key_view(kx), key_view(#[trigger] keys@[t])),
            decreases i - j,
        {
            j = j + 1;
        }
        let x = results.remove(i);
        let kx2 = keys.remove(i);
        results.insert(j, x);
        keys.insert(j, kx2);
        proof {
            perm = old_perm.take(j as int).push(i as int) + old_perm.subrange(j as int, i as int)
                + old_perm.subrange(i + 1, n as int);
            assert forall|t: int| j <= t < i implies sorts_before(key_view(kx), key_view(#[trigger] old_keys[t])) by {
                assert(sorts_before(key_view(kx), key_view(old_keys[j as int])));
                if t > j {
                    assert(!sorts_before(key_view(old_keys[t]), key_view(old_keys[j as int])));
                }
            }
            assert forall|k: int| 0 <= k < n implies key_view(#[trigger] keys@[k]) == result_key(results@[k]) by {
                if k < j {
                    assert(keys@[k] == old_keys[k] && results@[k] == old_results[k]);
                } else if k == j {
                    assert(keys@[k] == old_keys[i as int] && results@[k] == old_results[i as int]);
                } else if k <= i {
                    assert(keys@[k] == old_keys[k - 1] && results@[k] == old_results[k - 1]);
                } else {
                    assert(keys@[k] == old_keys[k] && results@[k] == old_results[k]);
                }
            }
            assert forall|k: int| 0 <= k < n implies results@[k] == inp[#[trigger] perm[k]] by {
                if k < j {
                    assert(results@[k] == old_results[k] && perm[k] == old_perm[k]);
                } else if k == j {
                    assert(results@[k] == old_results[i as int] && perm[k] == i);
                    assert(old_perm[i as int] == i);
                } else if k <= i {
                    assert(results@[k] == old_results[k - 1] && perm[k] == old_perm[k - 1]);
                } else {
                    assert(results@[k] == old_results[k] && perm[k] == old_perm[k]);
                }
            }
            assert forall|k: int| 0 <= k < n implies 0 <= #[trigger] perm[k] < n by {
                if k < j {
                    assert(perm[k] == old_perm[k]);
                } else if k == j {
                } else if k <= i {
                    assert(perm[k] == old_perm[k - 1]);
                } else {
                    assert(perm[k] == old_perm[k]);
                }
            }
            assert forall|k: int| 0 <= k <= i implies #[trigger] perm[k] <= i by {
                if k < j {
                    assert(perm[k] == old_perm[k]);
                } else if k == j {
                } else {
                    assert(perm[k] == old_perm[k - 1]);
                }
            }
            assert forall|k: int| i + 1 <= k < n implies #[trigger] perm[k] == k by {
                assert(perm[k] == old_perm[k]);
            }
            assert forall|a: int, b: int| 0 <= a < b < n implies perm[a] != perm[b] by {
                let pa = if a < j {
                    a
                } else if a == j {
                    -1
                } else if a <= i {
                    a - 1
                } else {
                    a
                };
                let pb = if b < j {
                    b
                } else if b == j {
                    -1
                } else if b <= i {
                    b - 1
                } else {
                    b
                };
                if pa >= 0 && pb >= 0 {
                    assert(perm[a] == old_perm[pa] && perm[b] == old_perm[pb]);
                    assert(pa != pb);
                } else if pa < 0 {
                    assert(perm[a] == i);
                    assert(perm[b] == old_perm[pb]);
                    if pb < i {
                        assert(old_perm[pb] < i);
                    } else {
                        assert(old_perm[pb] == pb);
                    }
                } else {
                    assert(perm[b] == i);
                    assert(perm[a] == old_perm[pa]);
                    if pa < i {
                        assert(old_perm[pa] < i);
                    } else {
                        assert(old_perm[pa] == pa);
                    }
                }
            }
            assert forall|a: int, b: int|
                0 <= a < b < i + 1 implies !sorts_before(key_view(keys@[b]), key_view(keys@[a])) by {
                let ka = if a < j { old_keys[a] } else if a == j { kx } else { old_keys[a - 1] };
                let kb = if b < j { old_keys[b] } else if b == j { kx } else { old_keys[b - 1] };
                assert(keys@[a] == ka && keys@[b] == kb);
            }
            assert forall|a: int, b: int|
                0 <= a < b < i + 1 && key_view(keys@[a]) == key_view(keys@[b]) implies perm[a] < perm[b] by {
                if a < j && b < j {
                    assert(keys@[a] == old_keys[a] && keys@[b] == old_keys[b]);
                    assert(perm[a] == old_perm[a] && perm[b] == old_perm[b]);
                } else if a < j && b == j {
                    assert(keys@[a] == old_keys[a] && keys@[b] == kx);
                    assert(perm[a] == old_perm[a]);
                    assert(old_perm[a] < i);
                } else if a < j {
                    assert(keys@[a] == old_keys[a] && keys@[b] == old_keys[b - 1]);
                    assert(perm[a] == old_perm[a] && perm[b] == old_perm[b - 1]);
                } else if a == j {
                    assert(keys@[a] == kx && keys@[b] == old_keys[b - 1]);
                    assert(sorts_before(key_view(kx), key_view(old_keys[b - 1])));
                } else {
                    assert(keys@[a] == old_keys[a - 1] && keys@[b] == old_keys[b - 1]);
                    assert(perm[a] == old_perm[a - 1] && perm[b] == old_perm[b - 1]);
                }
            }
        }
        i = i + 1;
    }
    proof {
        assert(is_index_perm(perm, inp.len()));
        assert forall|a: int, b: int|
            0 <= a < b < results@.len() implies !sorts_before(result_key(results@[b]), result_key(results@[a])) by {
            assert(key_view(keys@[a]) == result_key(results@[a]));
            assert(key_view(keys@[b]) == result_key(results@[b]));
        }
        assert forall|a: int, b: int|
            0 <= a < b < results@.len() && result_key(results@[a]) == result_key(results@[b]) implies perm[a] < perm[b] by {
            assert(key_view(keys@[a]) == result_key(results@[a]));
            assert(key_view(keys@[b]) == result_key(results@[b]));
        }
    }
}

} // verus!
