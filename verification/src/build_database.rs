//! Building the dictionary from the JMdict XML.
//!
//! JMdict declares its metadata tags (parts of speech, fields, ...) as DTD
//! entities (`<!ENTITY v1 "Ichidan verb">`) and uses them as `&v1;` in the
//! text of elements. This module reads those declarations, expands entity
//! references, and turns the stream of XML events into the records of the
//! database (entries, kanji and kana elements, senses, glosses), which the
//! caller stores.

use vstd::prelude::*;

use quick_xml::events::Event::{Empty, End, Eof, Start, Text};

use crate::deinflect::sub_chars;
use crate::error::TentokuError;
use crate::text::{
    char_is_ws, chars_equal, has_prefix, is_ws, lemma_split_on_nonempty, occurs_at_chars, spec_trim,
    split_on,
    starts_with_chars, str_is, string_from_chars, to_chars, trim_range_spec, trimmed_parts,
};

verus! {

// ---------------------------------------------------------------------------
// Replacing substrings
// ---------------------------------------------------------------------------

/// `s` with every occurrence of `pat` replaced by `rep`, scanning from the
/// left and never overlapping (as `str::replace` does).
pub open spec fn replace_all(s: Seq<char>, pat: Seq<char>, rep: Seq<char>) -> Seq<char>
    decreases s.len(),
{
    if s.len() == 0 {
        Seq::empty()
    } else if pat.len() > 0 && has_prefix(s, pat) {
        rep + replace_all(s.skip(pat.len() as int), pat, rep)
    } else {
        seq![s[0]] + replace_all(s.skip(1), pat, rep)
    }
}

/// Appends the characters of `src` to `out`.
fn push_chars(out: &mut Vec<char>, src: &[char])
    ensures
        final(out)@ == old(out)@ + src@,
{
    let mut k: usize = 0;
    while k < src.len()
        invariant
            k <= src@.len(),
            out@ == old(out)@ + src@.take(k as int),
        decreases src@.len() - k,
    {
        out.push(src[k]);
        proof {
            assert(src@.take(k as int + 1) =~= src@.take(k as int).push(src@[k as int]));
        }
        k = k + 1;
    }
    proof {
        assert(src@.take(src@.len() as int) =~= src@);
    }
}

/// `s` with every occurrence of `pat` replaced by `rep`.
pub fn replace_chars(s: &[char], pat: &[char], rep: &[char]) -> (out: Vec<char>)
    requires
        pat@.len() > 0,
    ensures
        out@ == replace_all(s@, pat@, rep@),
{
    let mut out: Vec<char> = Vec::new();
    let mut i: usize = 0;
    proof {
        assert(s@.skip(0) =~= s@);
    }
    while i < s.len()
        invariant
            i <= s@.len(),
            pat@.len() > 0,
            replace_all(s@, pat@, rep@) == out@ + replace_all(s@.skip(i as int), pat@, rep@),
        decreases s@.len() - i,
    {
        let ghost rest = s@.skip(i as int);
        if occurs_at_chars(s, pat, i) {
            proof {
                assert(rest.subrange(0, pat@.len() as int) =~= s@.subrange(
                    i as int,
                    i + pat@.len(),
                ));
                assert(rest.skip(pat@.len() as int) =~= s@.skip(i + pat@.len()));
            }
            push_chars(&mut out, rep);
            i = i + pat.len();
        } else {
            proof {
                if has_prefix(rest, pat@) {
                    assert(s@.subrange(i as int, i + pat@.len()) =~= rest.subrange(
                        0,
                        pat@.len() as int,
                    ));
                }
                assert(rest.skip(1) =~= s@.skip(i + 1));
                assert(seq![rest[0]] + replace_all(rest.skip(1), pat@, rep@) == replace_all(
                    rest,
                    pat@,
                    rep@,
                ));
                assert(out@.push(s@[i as int]) + replace_all(rest.skip(1), pat@, rep@) =~= out@
                    + (seq![rest[0]] + replace_all(rest.skip(1), pat@, rep@)));
            }
            out.push(s[i]);
            i = i + 1;
        }
    }
    proof {
        assert(s@.skip(i as int).len() == 0);
        assert(out@ + Seq::<char>::empty() =~= out@);
    }
    out
}

// ---------------------------------------------------------------------------
// Predefined XML entities
// ---------------------------------------------------------------------------

/// The text with the five predefined XML entities decoded, in the order
/// `&quot;`, `&apos;`, `&lt;`, `&gt;`, then `&amp;` (so `&amp;lt;` gives `&lt;`).
pub open spec fn spec_decode_xml_entities(text: Seq<char>) -> Seq<char> {
    let a = replace_all(text, seq!['&', 'q', 'u', 'o', 't', ';'], seq!['"']);
    let b = replace_all(a, seq!['&', 'a', 'p', 'o', 's', ';'], seq!['\'']);
    let c = replace_all(b, seq!['&', 'l', 't', ';'], seq!['<']);
    let d = replace_all(c, seq!['&', 'g', 't', ';'], seq!['>']);
    replace_all(d, seq!['&', 'a', 'm', 'p', ';'], seq!['&'])
}

/// Decodes the predefined XML entities used in DTD replacement strings.
pub fn decode_xml_entities(text: &str) -> (out: String)
    ensures
        out@ == spec_decode_xml_entities(text@),
{
    let s = to_chars(text);
    let quot: [char; 6] = ['&', 'q', 'u', 'o', 't', ';'];
    let apos: [char; 6] = ['&', 'a', 'p', 'o', 's', ';'];
    let lt: [char; 4] = ['&', 'l', 't', ';'];
    let gt: [char; 4] = ['&', 'g', 't', ';'];
    let amp: [char; 5] = ['&', 'a', 'm', 'p', ';'];
    let r_quot: [char; 1] = ['"'];
    let r_apos: [char; 1] = ['\''];
    let r_lt: [char; 1] = ['<'];
    let r_gt: [char; 1] = ['>'];
    let r_amp: [char; 1] = ['&'];
    proof {
        assert(quot@ =~= seq!['&', 'q', 'u', 'o', 't', ';']);
        assert(apos@ =~= seq!['&', 'a', 'p', 'o', 's', ';']);
        assert(lt@ =~= seq!['&', 'l', 't', ';']);
        assert(gt@ =~= seq!['&', 'g', 't', ';']);
        assert(amp@ =~= seq!['&', 'a', 'm', 'p', ';']);
        assert(r_quot@ =~= seq!['"']);
        assert(r_apos@ =~= seq!['\'']);
        assert(r_lt@ =~= seq!['<']);
        assert(r_gt@ =~= seq!['>']);
        assert(r_amp@ =~= seq!['&']);
    }
    let a = replace_chars(s.as_slice(), quot.as_slice(), r_quot.as_slice());
    let b = replace_chars(a.as_slice(), apos.as_slice(), r_apos.as_slice());
    let c = replace_chars(b.as_slice(), lt.as_slice(), r_lt.as_slice());
    let d = replace_chars(c.as_slice(), gt.as_slice(), r_gt.as_slice());
    let e = replace_chars(d.as_slice(), amp.as_slice(), r_amp.as_slice());
    string_from_chars(e.as_slice())
}



/// Replacing a pattern that starts with `&` leaves text without `&` as it is.
proof fn lemma_replace_absent(s: Seq<char>, pat: Seq<char>, rep: Seq<char>)
    requires
        pat.len() > 0,
        pat[0] == '&',
        !s.contains('&'),
    ensures
        replace_all(s, pat, rep) == s,
    decreases s.len(),
{
    if s.len() > 0 {
        if has_prefix(s, pat) {
            assert(s[0] == pat[0]);
        }
        assert(!s.skip(1).contains('&')) by {
            if s.skip(1).contains('&') {
                let k = choose|k: int| 0 <= k < s.skip(1).len() && s.skip(1)[k] == '&';
                assert(s[k + 1] == '&');
            }
        }
        lemma_replace_absent(s.skip(1), pat, rep);
        assert(seq![s[0]] + s.skip(1) =~= s);
    }
}

/// Text without `&` holds no entity, so decoding keeps it as it is.
pub proof fn lemma_plain_text_decodes_to_itself(text: Seq<char>)
    requires
        !text.contains('&'),
    ensures
        spec_decode_xml_entities(text) == text,
{
    lemma_replace_absent(text, seq!['&', 'q', 'u', 'o', 't', ';'], seq!['"']);
    lemma_replace_absent(text, seq!['&', 'a', 'p', 'o', 's', ';'], seq!['\'']);
    lemma_replace_absent(text, seq!['&', 'l', 't', ';'], seq!['<']);
    lemma_replace_absent(text, seq!['&', 'g', 't', ';'], seq!['>']);
    lemma_replace_absent(text, seq!['&', 'a', 'm', 'p', ';'], seq!['&']);
}

// ---------------------------------------------------------------------------
// Entity references in element text
// ---------------------------------------------------------------------------

/// The characters allowed in an entity name: ASCII letters and digits, `-`, `_`.
pub open spec fn is_entity_name_char(c: char) -> bool {
    ('a' <= c && c <= 'z') || ('A' <= c && c <= 'Z') || ('0' <= c && c <= '9') || c == '-' || c
        == '_'
}

fn entity_name_char(c: char) -> (b: bool)
    ensures
        b == is_entity_name_char(c),
{
    ('a' <= c && c <= 'z') || ('A' <= c && c <= 'Z') || ('0' <= c && c <= '9') || c == '-' || c
        == '_'
}

/// The texts of a list of string pairs (entity names and values, attribute
/// keys and values).
pub open spec fn text_pairs(v: Seq<(String, String)>) -> Seq<(Seq<char>, Seq<char>)> {
    v.map_values(|p: (String, String)| (p.0@, p.1@))
}

/// The value declared last for `name` (a later declaration replaces an
/// earlier one), if any.
pub open spec fn entity_lookup(entities: Seq<(Seq<char>, Seq<char>)>, name: Seq<char>) -> Option<
    Seq<char>,
>
    decreases entities.len(),
{
    if entities.len() == 0 {
        None
    } else if entities.last().0 == name {
        Some(entities.last().1)
    } else {
        entity_lookup(entities.drop_last(), name)
    }
}

/// `t` is a whole entity reference `&name;` whose name is non-empty and made
/// of entity-name characters.
pub open spec fn is_entity_reference(t: Seq<char>) -> bool {
    &&& t.len() > 2
    &&& t[0] == '&'
    &&& t.last() == ';'
    &&& forall|k: int| 1 <= k < t.len() - 1 ==> is_entity_name_char(#[trigger] t[k])
}

/// What a text becomes once a whole-text entity reference is expanded: the
/// declared value, or the bare name where nothing is declared for it. Any
/// other text is kept as it is.
pub open spec fn spec_entity_token(text: Seq<char>, entities: Seq<(Seq<char>, Seq<char>)>) -> Seq<
    char,
> {
    let t = spec_trim(text);
    if is_entity_reference(t) {
        let name = t.subrange(1, t.len() - 1);
        match entity_lookup(entities, name) {
            Some(v) => v,
            None => name,
        }
    } else {
        text
    }
}

/// Expands a text that is a single JMdict entity reference such as `&v1;`.
#[verifier::loop_isolation(false)]
pub fn decode_jmdict_entity_token(text: &str, entities: &Vec<(String, String)>) -> (out: String)
    ensures
        out@ == spec_entity_token(text@, text_pairs(entities@)),
{
    let chars = to_chars(text);
    let t = trim_range_spec(chars.as_slice(), 0, chars.len());
    proof {
        assert(chars@.subrange(0, chars@.len() as int) =~= chars@);
    }
    let n = t.len();
    if !(n > 2 && t[0] == '&' && t[n - 1] == ';') {
        return text.to_owned();
    }
    let mut k: usize = 1;
    while k < n - 1
        invariant
            n == t@.len(),
            n > 2,
            1 <= k <= n - 1,
            forall|j: int| 1 <= j < k ==> is_entity_name_char(#[trigger] t@[j]),
        decreases n - 1 - k,
    {
        if !entity_name_char(t[k]) {
            proof {
                assert(!is_entity_name_char(t@[k as int]));
            }
            return text.to_owned();
        }
        k = k + 1;
    }
    let name = sub_chars(t.as_slice(), 1, n - 1);
    let ghost all = text_pairs(entities@);
    let mut i: usize = entities.len();
    proof {
        assert(all.take(i as int) =~= all);
    }
    while i > 0
        invariant
            i <= entities@.len(),
            all == text_pairs(entities@),
            entity_lookup(all, name@) == entity_lookup(all.take(i as int), name@),
        decreases i,
    {
        i = i - 1;
        let key = to_chars(entities[i].0.as_str());
        proof {
            assert(all.take(i as int + 1).drop_last() =~= all.take(i as int));
            assert(all.take(i as int + 1).last() == all[i as int]);
        }
        proof {
            assert(all[i as int] == (entities@[i as int].0@, entities@[i as int].1@));
        }
        if chars_equal(key.as_slice(), name.as_slice()) {
            proof {
                assert(name@ == t@.subrange(1, n - 1));
                assert(entity_lookup(all.take(i as int + 1), name@) == Some(entities@[i as int].1@));
            }
            return entities[i].1.clone();
        }
    }
    proof {
        assert(all.take(0) =~= Seq::<(Seq<char>, Seq<char>)>::empty());
    }
    string_from_chars(name.as_slice())
}

// ---------------------------------------------------------------------------
// Entity declarations in the DTD
// ---------------------------------------------------------------------------

/// The text `<!ENTITY ` that starts a declaration.
pub open spec fn entity_prefix() -> Seq<char> {
    seq!['<', '!', 'E', 'N', 'T', 'I', 'T', 'Y', ' ']
}

/// The positions that delimit a declaration in `line`: the name runs from
/// after the prefix up to the first white space at `ne`; after that white
/// space the value part starts at `v` with a quote character, and the value
/// ends at `e`, the next occurrence of the same quote.
pub open spec fn decl_bounds(line: Seq<char>, ne: int, v: int, e: int) -> bool {
    &&& has_prefix(line, entity_prefix())
    &&& 9 <= ne < line.len()
    &&& is_ws(line[ne])
    &&& forall|k: int| 9 <= k < ne ==> !is_ws(#[trigger] line[k])
    &&& ne < v < line.len()
    &&& forall|k: int| ne <= k < v ==> is_ws(#[trigger] line[k])
    &&& !is_ws(line[v])
    &&& (line[v] == '"' || line[v] == '\'')
    &&& v < e < line.len()
    &&& line[e] == line[v]
    &&& forall|k: int| v < k < e ==> #[trigger] line[k] != line[v]
}

/// The name and the decoded value that a (trimmed) line declares, if it is an
/// entity declaration `<!ENTITY name "value"` (or with single quotes).
pub open spec fn entity_decl(line: Seq<char>) -> Option<(Seq<char>, Seq<char>)> {
    if exists|ne: int, v: int, e: int| decl_bounds(line, ne, v, e) {
        let (ne, v, e) = choose|ne: int, v: int, e: int| decl_bounds(line, ne, v, e);
        Some((line.subrange(9, ne), spec_decode_xml_entities(line.subrange(v + 1, e))))
    } else {
        None
    }
}

/// The declarations made by `lines`, in order.
pub open spec fn entity_decls(lines: Seq<Seq<char>>) -> Seq<(Seq<char>, Seq<char>)>
    decreases lines.len(),
{
    if lines.len() == 0 {
        Seq::empty()
    } else {
        let prev = entity_decls(lines.drop_last());
        match entity_decl(lines.last()) {
            Some(d) => prev.push(d),
            None => prev,
        }
    }
}

proof fn lemma_decl_bounds_unique(line: Seq<char>, ne: int, v: int, e: int, ne2: int, v2: int, e2: int)
    requires
        decl_bounds(line, ne, v, e),
        decl_bounds(line, ne2, v2, e2),
    ensures
        ne == ne2 && v == v2 && e == e2,
{
    if ne < ne2 {
        assert(!is_ws(line[ne]));
    }
    if ne2 < ne {
        assert(!is_ws(line[ne2]));
    }
    if v < v2 {
        assert(is_ws(line[v]));
    }
    if v2 < v {
        assert(is_ws(line[v2]));
    }
    if e < e2 {
        assert(line[e] != line[v]);
    }
    if e2 < e {
        assert(line[e2] != line[v]);
    }
}

/// The declaration made by one trimmed line, if any.
fn parse_entity_line(line: &[char]) -> (r: Option<(String, String)>)
    ensures
        match r {
            Some(p) => entity_decl(line@) == Some((p.0@, p.1@)),
            None => entity_decl(line@) is None,
        },
{
    let prefix: [char; 9] = ['<', '!', 'E', 'N', 'T', 'I', 'T', 'Y', ' '];
    proof {
        assert(prefix@ =~= entity_prefix());
    }
    if !starts_with_chars(line, prefix.as_slice()) {
        return None;
    }
    let n = line.len();
    let mut ne: usize = 9;
    while ne < n && !char_is_ws(line[ne])
        invariant
            9 <= ne <= n,
            n == line@.len(),
            forall|k: int| 9 <= k < ne ==> !is_ws(#[trigger] line@[k]),
        decreases n - ne,
    {
        ne = ne + 1;
    }
    if ne == n {
        proof {
            if exists|a: int, b: int, c: int| decl_bounds(line@, a, b, c) {
                let (a, b, c) = choose|a: int, b: int, c: int| decl_bounds(line@, a, b, c);
                assert(!is_ws(line@[a]));
            }
        }
        return None;
    }
    let mut v: usize = ne;
    while v < n && char_is_ws(line[v])
        invariant
            ne <= v <= n,
            n == line@.len(),
            forall|k: int| ne <= k < v ==> is_ws(#[trigger] line@[k]),
        decreases n - v,
    {
        v = v + 1;
    }
    if v == n || (line[v] != '"' && line[v] != '\'') {
        proof {
            if exists|a: int, b: int, c: int| decl_bounds(line@, a, b, c) {
                let (a, b, c) = choose|a: int, b: int, c: int| decl_bounds(line@, a, b, c);
                if a < ne {
                    assert(is_ws(line@[a]));
                }
                if ne < a {
                    assert(!is_ws(line@[ne as int]));
                }
                if b < v {
                    assert(is_ws(line@[b]));
                }
                if v < b {
                    assert(is_ws(line@[v as int]));
                }
            }
        }
        return None;
    }
    let q = line[v];
    let mut e: usize = v + 1;
    while e < n && line[e] != q
        invariant
            v < e <= n,
            n == line@.len(),
            q == line@[v as int],
            forall|k: int| v < k < e ==> #[trigger] line@[k] != q,
        decreases n - e,
    {
        e = e + 1;
    }
    if e == n {
        proof {
            if exists|a: int, b: int, c: int| decl_bounds(line@, a, b, c) {
                let (a, b, c) = choose|a: int, b: int, c: int| decl_bounds(line@, a, b, c);
                if a < ne {
                    assert(is_ws(line@[a]));
                }
                if ne < a {
                    assert(!is_ws(line@[ne as int]));
                }
                if b < v {
                    assert(is_ws(line@[b]));
                }
                if v < b {
                    assert(is_ws(line@[v as int]));
                }
                assert(line@[c] != q);
            }
        }
        return None;
    }
    proof {
        assert(decl_bounds(line@, ne as int, v as int, e as int));
        let (a, b, c) = choose|a: int, b: int, c: int| decl_bounds(line@, a, b, c);
        lemma_decl_bounds_unique(line@, ne as int, v as int, e as int, a, b, c);
    }
    let name = sub_chars(line, 9, ne);
    let raw = sub_chars(line, v + 1, e);
    let raw_text = string_from_chars(raw.as_slice());
    let value = decode_xml_entities(raw_text.as_str());
    Some((string_from_chars(name.as_slice()), value))
}

/// The entity declarations of the document: every line that, once trimmed,
/// reads `<!ENTITY name "value"` gives the name and the value with the
/// predefined XML entities decoded, in document order.
pub fn extract_jmdict_entities(xml: &str) -> (out: Vec<(String, String)>)
    ensures
        text_pairs(out@) == entity_decls(trimmed_parts(xml@, '\n')),
{
    let mut out: Vec<(String, String)> = Vec::new();
    let mut cur: Vec<char> = Vec::new();
    for c in it: xml.chars()
        invariant
            it.seq() == xml@,
            split_on(it.seq().take(it.index() as int), '\n').last() == cur@,
            text_pairs(out@) == entity_decls(
                split_on(it.seq().take(it.index() as int), '\n').drop_last().map_values(
                    |f: Seq<char>| spec_trim(f),
                ),
            ),
    {
        let ghost before = it.seq().take(it.index() as int);
        let ghost parts = split_on(before, '\n');
        proof {
            lemma_split_on_nonempty(before, '\n');
            assert(it.seq().take(it.index() + 1).drop_last() =~= before);
            assert(it.seq().take(it.index() + 1).last() == c);
        }
        if c == '\n' {
            let line = trim_range_spec(cur.as_slice(), 0, cur.len());
            proof {
                assert(cur@.subrange(0, cur@.len() as int) =~= cur@);
            }
            let decl = parse_entity_line(line.as_slice());
            let ghost old_out = out@;
            match decl {
                Some(d) => {
                    out.push(d);
                },
                None => {},
            }
            cur = Vec::new();
            proof {
                let now = split_on(it.seq().take(it.index() + 1), '\n');
                assert(now == parts.push(Seq::<char>::empty()));
                let tp = parts.drop_last().map_values(|f: Seq<char>| spec_trim(f));
                let tn = now.drop_last().map_values(|f: Seq<char>| spec_trim(f));
                assert(now.drop_last() =~= parts);
                assert(tn.drop_last() =~= tp);
                assert(tn.last() == spec_trim(parts.last()));
                assert(text_pairs(out@) =~= entity_decls(tn)) by {
                    match decl {
                        Some(d) => {
                            assert(text_pairs(out@) =~= text_pairs(old_out).push((d.0@, d.1@)));
                        },
                        None => {},
                    }
                }
                assert(now.last() =~= cur@);
            }
        } else {
            cur.push(c);
            proof {
                let now = split_on(it.seq().take(it.index() + 1), '\n');
                assert(now == parts.update(parts.len() - 1, parts.last().push(c)));
                assert(now.drop_last() =~= parts.drop_last());
            }
        }
    }
    let line = trim_range_spec(cur.as_slice(), 0, cur.len());
    proof {
        assert(cur@.subrange(0, cur@.len() as int) =~= cur@);
    }
    let decl = parse_entity_line(line.as_slice());
    let ghost old_out = out@;
    match decl {
        Some(d) => {
            out.push(d);
        },
        None => {},
    }
    proof {
        assert(xml@.take(xml@.len() as int) =~= xml@);
        lemma_split_on_nonempty(xml@, '\n');
        let parts = split_on(xml@, '\n');
        let all = trimmed_parts(xml@, '\n');
        assert(all.drop_last() =~= parts.drop_last().map_values(|f: Seq<char>| spec_trim(f)));
        assert(all.last() == spec_trim(parts.last()));
        assert(text_pairs(out@) =~= entity_decls(all)) by {
            match decl {
                Some(d) => {
                    assert(text_pairs(out@) =~= text_pairs(old_out).push((d.0@, d.1@)));
                },
                None => {},
            }
        }
    }
    out
}


// ---------------------------------------------------------------------------
// Records of the database
// ---------------------------------------------------------------------------

/// The elements whose text is captured.
#[derive(Copy, Clone, Debug, PartialEq, Eq, Structural)]
pub enum Tag {
    EntSeq,
    Keb,
    KePri,
    KeInf,
    Reb,
    RePri,
    ReInf,
    ReRestr,
    Pos,
    Field,
    Misc,
    Dial,
    Stagk,
    Stagr,
    SInf,
    Gloss,
}

/// An XML event once its names and text are decoded.
pub enum JmdictEvent {
    Start { name: String, attrs: Vec<(String, String)> },
    Empty { name: String },
    Text { text: String },
    End { name: String },
}

/// A record to store, produced when an element opens or closes.
pub enum DbAction {
    /// A new entry with this sequence number (`<ent_seq>` text).
    Entry { ent_seq: String },
    /// A new sense of the current entry, with its position in the entry.
    Sense { sense_index: usize },
    /// A gloss of the current sense.
    Gloss { text: String, lang: String, g_type: Option<String> },
    /// A kanji element of the current entry.
    Kanji { text: String, priority: Option<String>, info: Option<String> },
    /// A reading element of the current entry.
    Reading {
        text: String,
        no_kanji: bool,
        priority: Option<String>,
        info: Option<String>,
        restrictions: Vec<String>,
    },
    /// The closing of the current sense, with its notes and tags.
    SenseDone {
        info: Option<String>,
        pos: Vec<String>,
        field: Vec<String>,
        misc: Vec<String>,
        dial: Vec<String>,
        stagk: Vec<String>,
        stagr: Vec<String>,
    },
}

/// What is being collected while the elements of an entry are read.
pub struct EntryBuilder {
    pub sense_index: usize,
    pub prev_pos: Vec<String>,
    pub ke_text: String,
    pub ke_priority: Vec<String>,
    pub ke_info: Vec<String>,
    pub re_text: String,
    pub re_no_kanji: bool,
    pub re_priority: Vec<String>,
    pub re_info: Vec<String>,
    pub re_restr: Vec<String>,
    pub se_pos: Vec<String>,
    pub se_field: Vec<String>,
    pub se_misc: Vec<String>,
    pub se_dial: Vec<String>,
    pub se_stagk: Vec<String>,
    pub se_stagr: Vec<String>,
    pub se_info: Vec<String>,
    pub ge_text: String,
    pub ge_lang: String,
    pub ge_type: Option<String>,
    pub active_tag: Option<Tag>,
}

/// The texts of a list of strings.
pub open spec fn strs(v: Seq<String>) -> Seq<Seq<char>> {
    v.map_values(|x: String| x@)
}

/// The text of an optional string.
pub open spec fn opt_str(o: Option<String>) -> Option<Seq<char>> {
    match o {
        Some(x) => Some(x@),
        None => None,
    }
}

/// The first string, if any.
pub open spec fn first_string_of(v: Seq<String>) -> Option<String> {
    if v.len() > 0 {
        Some(v[0])
    } else {
        None
    }
}

/// The parts joined with `sep` between them (as `[String]::join`).
pub open spec fn join(parts: Seq<Seq<char>>, sep: Seq<char>) -> Seq<char>
    decreases parts.len(),
{
    if parts.len() == 0 {
        Seq::empty()
    } else if parts.len() == 1 {
        parts[0]
    } else {
        join(parts.drop_last(), sep) + sep + parts.last()
    }
}

/// The parts joined with `sep`, or nothing where that gives the empty text.
pub open spec fn nonempty_join(parts: Seq<Seq<char>>, sep: Seq<char>) -> Option<Seq<char>> {
    if join(parts, sep).len() == 0 {
        None
    } else {
        Some(join(parts, sep))
    }
}

/// The element whose text an element name captures.
pub open spec fn tag_of(name: Seq<char>) -> Option<Tag> {
    if name == "ent_seq"@ {
        Some(Tag::EntSeq)
    } else if name == "keb"@ {
        Some(Tag::Keb)
    } else if name == "ke_pri"@ {
        Some(Tag::KePri)
    } else if name == "ke_inf"@ {
        Some(Tag::KeInf)
    } else if name == "reb"@ {
        Some(Tag::Reb)
    } else if name == "re_pri"@ {
        Some(Tag::RePri)
    } else if name == "re_inf"@ {
        Some(Tag::ReInf)
    } else if name == "re_restr"@ {
        Some(Tag::ReRestr)
    } else if name == "pos"@ {
        Some(Tag::Pos)
    } else if name == "field"@ {
        Some(Tag::Field)
    } else if name == "misc"@ {
        Some(Tag::Misc)
    } else if name == "dial"@ {
        Some(Tag::Dial)
    } else if name == "stagk"@ {
        Some(Tag::Stagk)
    } else if name == "stagr"@ {
        Some(Tag::Stagr)
    } else if name == "s_inf"@ {
        Some(Tag::SInf)
    } else if name == "gloss"@ {
        Some(Tag::Gloss)
    } else {
        None
    }
}

fn tag_for(name: &[char]) -> (t: Option<Tag>)
    ensures
        t == tag_of(name@),
{
    if str_is(name, "ent_seq") {
        Some(Tag::EntSeq)
    } else if str_is(name, "keb") {
        Some(Tag::Keb)
    } else if str_is(name, "ke_pri") {
        Some(Tag::KePri)
    } else if str_is(name, "ke_inf") {
        Some(Tag::KeInf)
    } else if str_is(name, "reb") {
        Some(Tag::Reb)
    } else if str_is(name, "re_pri") {
        Some(Tag::RePri)
    } else if str_is(name, "re_inf") {
        Some(Tag::ReInf)
    } else if str_is(name, "re_restr") {
        Some(Tag::ReRestr)
    } else if str_is(name, "pos") {
        Some(Tag::Pos)
    } else if str_is(name, "field") {
        Some(Tag::Field)
    } else if str_is(name, "misc") {
        Some(Tag::Misc)
    } else if str_is(name, "dial") {
        Some(Tag::Dial)
    } else if str_is(name, "stagk") {
        Some(Tag::Stagk)
    } else if str_is(name, "stagr") {
        Some(Tag::Stagr)
    } else if str_is(name, "s_inf") {
        Some(Tag::SInf)
    } else if str_is(name, "gloss") {
        Some(Tag::Gloss)
    } else {
        None
    }
}

/// The language of a gloss: the value of its last `xml:lang` or `lang`
/// attribute, `eng` where it has none.
pub open spec fn gloss_lang(attrs: Seq<(Seq<char>, Seq<char>)>) -> Seq<char>
    decreases attrs.len(),
{
    if attrs.len() == 0 {
        "eng"@
    } else if attrs.last().0 == "xml:lang"@ || attrs.last().0 == "lang"@ {
        attrs.last().1
    } else {
        gloss_lang(attrs.drop_last())
    }
}

/// The type of a gloss: the value of its last `g_type` attribute, if any.
pub open spec fn gloss_type(attrs: Seq<(Seq<char>, Seq<char>)>) -> Option<Seq<char>>
    decreases attrs.len(),
{
    if attrs.len() == 0 {
        None
    } else if attrs.last().0 == "g_type"@ {
        Some(attrs.last().1)
    } else {
        gloss_type(attrs.drop_last())
    }
}

/// A copy of a list of strings.
fn copy_strings(v: &Vec<String>) -> (out: Vec<String>)
    ensures
        out@ == v@,
{
    let mut out: Vec<String> = Vec::new();
    let mut i: usize = 0;
    while i < v.len()
        invariant
            i <= v@.len(),
            out@ == v@.take(i as int),
        decreases v@.len() - i,
    {
        let c = v[i].clone();
        out.push(c);
        proof {
            assert(v@.take(i as int + 1) =~= v@.take(i as int).push(v@[i as int]));
        }
        i = i + 1;
    }
    proof {
        assert(v@.take(v@.len() as int) =~= v@);
    }
    out
}

/// The first string of a list, if any.
fn first_string(v: &Vec<String>) -> (r: Option<String>)
    ensures
        r == first_string_of(v@),
{
    if v.len() > 0 {
        Some(v[0].clone())
    } else {
        None
    }
}

/// The strings joined with `sep` between them.
fn join_strings(parts: &Vec<String>, sep: &str) -> (out: String)
    ensures
        out@ == join(strs(parts@), sep@),
{
    let sep_chars = to_chars(sep);
    let mut acc: Vec<char> = Vec::new();
    let mut i: usize = 0;
    while i < parts.len()
        invariant
            i <= parts@.len(),
            sep_chars@ == sep@,
            acc@ == join(strs(parts@.take(i as int)), sep@),
        decreases parts@.len() - i,
    {
        let piece = to_chars(parts[i].as_str());
        proof {
            assert(strs(parts@.take(i as int + 1)).drop_last() =~= strs(parts@.take(i as int)));
            assert(strs(parts@.take(i as int + 1)).last() == parts@[i as int]@);
            if i == 0 {
                assert(strs(parts@.take(0)) =~= Seq::<Seq<char>>::empty());
            }
        }
        if i > 0 {
            push_chars(&mut acc, sep_chars.as_slice());
        }
        push_chars(&mut acc, piece.as_slice());
        proof {
            if i == 0 {
                assert(acc@ =~= piece@);
            }
        }
        i = i + 1;
    }
    proof {
        assert(parts@.take(parts@.len() as int) =~= parts@);
    }
    string_from_chars(acc.as_slice())
}

/// The strings joined with `sep`, or nothing where that is empty.
fn nonempty_join_strings(parts: &Vec<String>, sep: &str) -> (r: Option<String>)
    ensures
        opt_str(r) == nonempty_join(strs(parts@), sep@),
{
    let j = join_strings(parts, sep);
    if j.as_str().is_empty() {
        None
    } else {
        Some(j)
    }
}

/// The language and type of a gloss from its attributes.
fn gloss_attributes(attrs: &Vec<(String, String)>) -> (r: (String, Option<String>))
    ensures
        r.0@ == gloss_lang(text_pairs(attrs@)),
        opt_str(r.1) == gloss_type(text_pairs(attrs@)),
{
    let ghost all = text_pairs(attrs@);
    let mut lang: Option<String> = None;
    let mut g_type: Option<String> = None;
    let mut i: usize = attrs.len();
    proof {
        assert(all.take(i as int) =~= all);
    }
    while i > 0 && (lang.is_none() || g_type.is_none())
        invariant
            i <= attrs@.len(),
            all == text_pairs(attrs@),
            match lang {
                Some(l) => gloss_lang(all) == l@,
                None => gloss_lang(all) == gloss_lang(all.take(i as int)),
            },
            match g_type {
                Some(g) => gloss_type(all) == Some(g@),
                None => gloss_type(all) == gloss_type(all.take(i as int)),
            },
        decreases i,
    {
        i = i - 1;
        proof {
            assert(all.take(i as int + 1).drop_last() =~= all.take(i as int));
            assert(all.take(i as int + 1).last() == all[i as int]);
            assert(all[i as int] == (attrs@[i as int].0@, attrs@[i as int].1@));
        }
        let key = to_chars(attrs[i].0.as_str());
        if lang.is_none() && (str_is(key.as_slice(), "xml:lang") || str_is(key.as_slice(), "lang")) {
            lang = Some(attrs[i].1.clone());
        }
        if g_type.is_none() && str_is(key.as_slice(), "g_type") {
            g_type = Some(attrs[i].1.clone());
        }
    }
    proof {
        if i == 0 {
            assert(all.take(0) =~= Seq::<(Seq<char>, Seq<char>)>::empty());
        }
    }
    let lang_out = match lang {
        Some(l) => l,
        None => "eng".to_owned(),
    };
    (lang_out, g_type)
}


/// The index after `i`, wrapping to 0 past the largest `usize`.
pub open spec fn next_index(i: usize) -> usize {
    if i < usize::MAX {
        (i + 1) as usize
    } else {
        0
    }
}

/// The effect of an opening tag `name` with attributes `attrs`: `old` becomes
/// `new` and `act` is stored.
pub open spec fn start_step(
    old: EntryBuilder,
    new: EntryBuilder,
    name: Seq<char>,
    attrs: Seq<(Seq<char>, Seq<char>)>,
    act: Option<DbAction>,
) -> bool {
    if name == "entry"@ {
        &&& act is None
        &&& new == (EntryBuilder { sense_index: 0, prev_pos: new.prev_pos, ..old })
        &&& new.prev_pos@.len() == 0
    } else if name == "k_ele"@ {
        &&& act is None
        &&& new == (EntryBuilder {
            ke_text: new.ke_text,
            ke_priority: new.ke_priority,
            ke_info: new.ke_info,
            ..old
        })
        &&& new.ke_text@.len() == 0
        &&& new.ke_priority@.len() == 0
        &&& new.ke_info@.len() == 0
    } else if name == "r_ele"@ {
        &&& act is None
        &&& new == (EntryBuilder {
            re_text: new.re_text,
            re_no_kanji: false,
            re_priority: new.re_priority,
            re_info: new.re_info,
            re_restr: new.re_restr,
            ..old
        })
        &&& new.re_text@.len() == 0
        &&& new.re_priority@.len() == 0
        &&& new.re_info@.len() == 0
        &&& new.re_restr@.len() == 0
    } else if name == "sense"@ {
        &&& act == Some(DbAction::Sense { sense_index: old.sense_index })
        &&& new == (EntryBuilder {
            sense_index: next_index(old.sense_index),
            se_pos: new.se_pos,
            se_field: new.se_field,
            se_misc: new.se_misc,
            se_dial: new.se_dial,
            se_stagk: new.se_stagk,
            se_stagr: new.se_stagr,
            se_info: new.se_info,
            ..old
        })
        &&& new.se_pos@.len() == 0
        &&& new.se_field@.len() == 0
        &&& new.se_misc@.len() == 0
        &&& new.se_dial@.len() == 0
        &&& new.se_stagk@.len() == 0
        &&& new.se_stagr@.len() == 0
        &&& new.se_info@.len() == 0
    } else if name == "gloss"@ {
        &&& act is None
        &&& new == (EntryBuilder {
            ge_text: new.ge_text,
            ge_lang: new.ge_lang,
            ge_type: new.ge_type,
            active_tag: Some(Tag::Gloss),
            ..old
        })
        &&& new.ge_text@.len() == 0
        &&& new.ge_lang@ == gloss_lang(attrs)
        &&& opt_str(new.ge_type) == gloss_type(attrs)
    } else {
        &&& act is None
        &&& new == (EntryBuilder { active_tag: tag_of(name), ..old })
    }
}

/// The effect of an empty element `<name/>`: only `<re_nokanji/>` counts.
pub open spec fn empty_step(old: EntryBuilder, new: EntryBuilder, name: Seq<char>) -> bool {
    if name == "re_nokanji"@ {
        new == (EntryBuilder { re_no_kanji: true, ..old })
    } else {
        new == old
    }
}

/// The effect of the text of the element being captured.
pub open spec fn text_step(
    old: EntryBuilder,
    new: EntryBuilder,
    text: String,
    act: Option<DbAction>,
) -> bool {
    match old.active_tag {
        Some(Tag::EntSeq) => act == Some(DbAction::Entry { ent_seq: text }) && new == old,
        Some(Tag::Keb) => act is None && new == (EntryBuilder { ke_text: text, ..old }),
        Some(Tag::KePri) => act is None && new == (EntryBuilder {
            ke_priority: new.ke_priority,
            ..old
        }) && new.ke_priority@ == old.ke_priority@.push(text),
        Some(Tag::KeInf) => act is None && new == (EntryBuilder { ke_info: new.ke_info, ..old })
            && new.ke_info@ == old.ke_info@.push(text),
        Some(Tag::Reb) => act is None && new == (EntryBuilder { re_text: text, ..old }),
        Some(Tag::RePri) => act is None && new == (EntryBuilder {
            re_priority: new.re_priority,
            ..old
        }) && new.re_priority@ == old.re_priority@.push(text),
        Some(Tag::ReInf) => act is None && new == (EntryBuilder { re_info: new.re_info, ..old })
            && new.re_info@ == old.re_info@.push(text),
        Some(Tag::ReRestr) => act is None && new == (EntryBuilder { re_restr: new.re_restr, ..old })
            && new.re_restr@ == old.re_restr@.push(text),
        Some(Tag::Pos) => act is None && new == (EntryBuilder { se_pos: new.se_pos, ..old })
            && new.se_pos@ == old.se_pos@.push(text),
        Some(Tag::Field) => act is None && new == (EntryBuilder { se_field: new.se_field, ..old })
            && new.se_field@ == old.se_field@.push(text),
        Some(Tag::Misc) => act is None && new == (EntryBuilder { se_misc: new.se_misc, ..old })
            && new.se_misc@ == old.se_misc@.push(text),
        Some(Tag::Dial) => act is None && new == (EntryBuilder { se_dial: new.se_dial, ..old })
            && new.se_dial@ == old.se_dial@.push(text),
        Some(Tag::Stagk) => act is None && new == (EntryBuilder { se_stagk: new.se_stagk, ..old })
            && new.se_stagk@ == old.se_stagk@.push(text),
        Some(Tag::Stagr) => act is None && new == (EntryBuilder { se_stagr: new.se_stagr, ..old })
            && new.se_stagr@ == old.se_stagr@.push(text),
        Some(Tag::SInf) => act is None && new == (EntryBuilder { se_info: new.se_info, ..old })
            && new.se_info@ == old.se_info@.push(text),
        Some(Tag::Gloss) => act is None && new == (EntryBuilder { ge_text: text, ..old }),
        None => act is None && new == old,
    }
}

/// The part-of-speech tags a closing sense gets: its own, or where it has
/// none, those of the previous sense of the entry that had some.
pub open spec fn sense_pos(b: EntryBuilder) -> Seq<String> {
    if b.se_pos@.len() == 0 {
        b.prev_pos@
    } else {
        b.se_pos@
    }
}

/// The effect of a closing tag `</name>`.
pub open spec fn end_step(old: EntryBuilder, new: EntryBuilder, name: Seq<char>, act: Option<
    DbAction,
>) -> bool {
    if tag_of(name) is Some {
        &&& new == (EntryBuilder { active_tag: None, ..old })
        &&& if name == "gloss"@ {
            act == Some(
                DbAction::Gloss { text: old.ge_text, lang: old.ge_lang, g_type: old.ge_type },
            )
        } else {
            act is None
        }
    } else if name == "k_ele"@ {
        &&& new == old
        &&& act matches Some(DbAction::Kanji { text, priority, info })
        &&& text == old.ke_text
        &&& priority == first_string_of(old.ke_priority@)
        &&& opt_str(info) == nonempty_join(strs(old.ke_info@), ","@)
    } else if name == "r_ele"@ {
        &&& new == old
        &&& act matches Some(DbAction::Reading { text, no_kanji, priority, info, restrictions })
        &&& text == old.re_text
        &&& no_kanji == old.re_no_kanji
        &&& priority == first_string_of(old.re_priority@)
        &&& opt_str(info) == nonempty_join(strs(old.re_info@), ","@)
        &&& restrictions@ == old.re_restr@
    } else if name == "sense"@ {
        &&& new == (EntryBuilder { prev_pos: new.prev_pos, ..old })
        &&& new.prev_pos@ == sense_pos(old)
        &&& act matches Some(DbAction::SenseDone { info, pos, field, misc, dial, stagk, stagr })
        &&& opt_str(info) == (if old.se_info@.len() == 0 {
            None
        } else {
            Some(join(strs(old.se_info@), "; "@))
        })
        &&& pos@ == sense_pos(old)
        &&& field@ == old.se_field@
        &&& misc@ == old.se_misc@
        &&& dial@ == old.se_dial@
        &&& stagk@ == old.se_stagk@
        &&& stagr@ == old.se_stagr@
    } else {
        act is None && new == old
    }
}

/// Nothing collected yet: every text and list empty, no element open.
pub open spec fn is_empty_builder(b: EntryBuilder) -> bool {
    &&& b.sense_index == 0
    &&& b.prev_pos@.len() == 0
    &&& b.ke_text@.len() == 0
    &&& b.ke_priority@.len() == 0
    &&& b.ke_info@.len() == 0
    &&& b.re_text@.len() == 0
    &&& !b.re_no_kanji
    &&& b.re_priority@.len() == 0
    &&& b.re_info@.len() == 0
    &&& b.re_restr@.len() == 0
    &&& b.se_pos@.len() == 0
    &&& b.se_field@.len() == 0
    &&& b.se_misc@.len() == 0
    &&& b.se_dial@.len() == 0
    &&& b.se_stagk@.len() == 0
    &&& b.se_stagr@.len() == 0
    &&& b.se_info@.len() == 0
    &&& b.ge_text@.len() == 0
    &&& b.ge_lang@.len() == 0
    &&& b.ge_type is None
    &&& b.active_tag is None
}

impl EntryBuilder {
    /// A builder with nothing collected yet.
    pub fn new() -> (b: Self)
        ensures
            is_empty_builder(b),
    {
        EntryBuilder {
            sense_index: 0,
            prev_pos: Vec::new(),
            ke_text: String::new(),
            ke_priority: Vec::new(),
            ke_info: Vec::new(),
            re_text: String::new(),
            re_no_kanji: false,
            re_priority: Vec::new(),
            re_info: Vec::new(),
            re_restr: Vec::new(),
            se_pos: Vec::new(),
            se_field: Vec::new(),
            se_misc: Vec::new(),
            se_dial: Vec::new(),
            se_stagk: Vec::new(),
            se_stagr: Vec::new(),
            se_info: Vec::new(),
            ge_text: String::new(),
            ge_lang: String::new(),
            ge_type: None,
            active_tag: None,
        }
    }

    /// An opening tag.
    pub fn on_start(&mut self, name: &str, attrs: &Vec<(String, String)>) -> (act: Option<DbAction>)
        ensures
            start_step(*old(self), *final(self), name@, text_pairs(attrs@), act),
    {
        let n = to_chars(name);
        if str_is(n.as_slice(), "entry") {
            self.sense_index = 0;
            self.prev_pos = Vec::new();
            None
        } else if str_is(n.as_slice(), "k_ele") {
            self.ke_text = String::new();
            self.ke_priority = Vec::new();
            self.ke_info = Vec::new();
            None
        } else if str_is(n.as_slice(), "r_ele") {
            self.re_text = String::new();
            self.re_no_kanji = false;
            self.re_priority = Vec::new();
            self.re_info = Vec::new();
            self.re_restr = Vec::new();
            None
        } else if str_is(n.as_slice(), "sense") {
            let act = DbAction::Sense { sense_index: self.sense_index };
            self.se_pos = Vec::new();
            self.se_field = Vec::new();
            self.se_misc = Vec::new();
            self.se_dial = Vec::new();
            self.se_stagk = Vec::new();
            self.se_stagr = Vec::new();
            self.se_info = Vec::new();
            self.sense_index = if self.sense_index < usize::MAX {
                self.sense_index + 1
            } else {
                0
            };
            Some(act)
        } else if str_is(n.as_slice(), "gloss") {
            let (lang, g_type) = gloss_attributes(attrs);
            self.ge_text = String::new();
            self.ge_lang = lang;
            self.ge_type = g_type;
            self.active_tag = Some(Tag::Gloss);
            None
        } else {
            self.active_tag = tag_for(n.as_slice());
            None
        }
    }

    /// An empty element `<name/>`.
    pub fn on_empty(&mut self, name: &str)
        ensures
            empty_step(*old(self), *final(self), name@),
    {
        let n = to_chars(name);
        if str_is(n.as_slice(), "re_nokanji") {
            self.re_no_kanji = true;
        }
    }

    /// The text of the element being read.
    pub fn on_text(&mut self, text: String) -> (act: Option<DbAction>)
        ensures
            text_step(*old(self), *final(self), text, act),
    {
        match self.active_tag {
            Some(Tag::EntSeq) => {
                return Some(DbAction::Entry { ent_seq: text });
            },
            Some(Tag::Keb) => {
                self.ke_text = text;
            },
            Some(Tag::KePri) => {
                self.ke_priority.push(text);
            },
            Some(Tag::KeInf) => {
                self.ke_info.push(text);
            },
            Some(Tag::Reb) => {
                self.re_text = text;
            },
            Some(Tag::RePri) => {
                self.re_priority.push(text);
            },
            Some(Tag::ReInf) => {
                self.re_info.push(text);
            },
            Some(Tag::ReRestr) => {
                self.re_restr.push(text);
            },
            Some(Tag::Pos) => {
                self.se_pos.push(text);
            },
            Some(Tag::Field) => {
                self.se_field.push(text);
            },
            Some(Tag::Misc) => {
                self.se_misc.push(text);
            },
            Some(Tag::Dial) => {
                self.se_dial.push(text);
            },
            Some(Tag::Stagk) => {
                self.se_stagk.push(text);
            },
            Some(Tag::Stagr) => {
                self.se_stagr.push(text);
            },
            Some(Tag::SInf) => {
                self.se_info.push(text);
            },
            Some(Tag::Gloss) => {
                self.ge_text = text;
            },
            None => {},
        }
        None
    }

    /// A closing tag `</name>`.
    pub fn on_end(&mut self, name: &str) -> (act: Option<DbAction>)
        ensures
            end_step(*old(self), *final(self), name@, act),
    {
        let n = to_chars(name);
        if tag_for(n.as_slice()).is_some() {
            let act = if str_is(n.as_slice(), "gloss") {
                Some(
                    DbAction::Gloss {
                        text: self.ge_text.clone(),
                        lang: self.ge_lang.clone(),
                        g_type: self.ge_type.clone(),
                    },
                )
            } else {
                None
            };
            self.active_tag = None;
            act
        } else if str_is(n.as_slice(), "k_ele") {
            Some(
                DbAction::Kanji {
                    text: self.ke_text.clone(),
                    priority: first_string(&self.ke_priority),
                    info: nonempty_join_strings(&self.ke_info, ","),
                },
            )
        } else if str_is(n.as_slice(), "r_ele") {
            Some(
                DbAction::Reading {
                    text: self.re_text.clone(),
                    no_kanji: self.re_no_kanji,
                    priority: first_string(&self.re_priority),
                    info: nonempty_join_strings(&self.re_info, ","),
                    restrictions: copy_strings(&self.re_restr),
                },
            )
        } else if str_is(n.as_slice(), "sense") {
            let info = if self.se_info.len() == 0 {
                None
            } else {
                Some(join_strings(&self.se_info, "; "))
            };
            let pos = if self.se_pos.len() == 0 {
                copy_strings(&self.prev_pos)
            } else {
                self.prev_pos = copy_strings(&self.se_pos);
                copy_strings(&self.se_pos)
            };
            Some(
                DbAction::SenseDone {
                    info,
                    pos,
                    field: copy_strings(&self.se_field),
                    misc: copy_strings(&self.se_misc),
                    dial: copy_strings(&self.se_dial),
                    stagk: copy_strings(&self.se_stagk),
                    stagr: copy_strings(&self.se_stagr),
                },
            )
        } else {
            None
        }
    }
}


// ---------------------------------------------------------------------------
// Reading the XML
// ---------------------------------------------------------------------------

/// The XML reader of the `quick_xml` crate.
#[verifier::external_type_specification]
#[verifier::external_body]
#[verifier::reject_recursive_types(R)]
pub struct ExXmlReader<R>(quick_xml::Reader<R>);

/// One XML event, its names and texts taken as UTF-8 (invalid sequences
/// replaced by U+FFFD). Text is raw, with its entity references still in it.
pub enum XmlItem {
    /// An opening tag: its name and its attributes as (key, value) pairs,
    /// with nothing for an attribute that could not be read.
    Start(String, Vec<Option<(String, String)>>),
    /// An empty element: its name.
    Empty(String),
    /// Raw text.
    Text(String),
    /// A closing tag: its name.
    End(String),
    /// The end of the document.
    Eof,
    /// Any other event (declarations, comments, CDATA, ...).
    Other,
    /// A reading error, by its message.
    Failed(String),
}

/// What one step of reading gives.
pub enum ParseStep {
    /// A record to store.
    Action(DbAction),
    /// An event that gives no record.
    Continue,
    /// The end of the document.
    Done,
}

/// The events that `quick_xml::Reader::read_event` yields, in order, from a
/// reader over `doc` with `trim_text(true)` set, up to the first end of
/// document or error (each converted as `read_xml_item` converts it). They
/// depend on the document alone.
pub uninterp spec fn xml_events(doc: Seq<char>) -> Seq<XmlItem>;

/// The events a reader has yet to yield, up to the first end of document or
/// error.
pub uninterp spec fn events_left(reader: quick_xml::Reader<&[u8]>) -> Seq<XmlItem>;

/// `quick_xml::Reader::from_str` with `Config::trim_text(true)` set on its
/// configuration: a reader at the start of `xml` that drops white space
/// around text. All the document's events are yet to come.
#[verifier::external_body]
fn xml_reader<'a>(xml: &'a str) -> (r: quick_xml::Reader<&'a [u8]>)
    ensures
        events_left(r) == xml_events(xml@),
{
    let mut reader = quick_xml::Reader::from_str(xml);
    reader.config_mut().trim_text(true);
    reader
}

/// `quick_xml::Reader::read_event`: the next event of the document, converted
/// to plain values (names, attribute keys and values, and raw text through
/// `String::from_utf8_lossy`; an attribute that cannot be read as nothing;
/// an error by its message). While events remain
/// it is the first of them, and the reader moves past it; nothing is stated
/// once the end of the document or an error has been read.
#[verifier::external_body]
fn read_xml_item(reader: &mut quick_xml::Reader<&[u8]>) -> (item: XmlItem)
    ensures
        events_left(*old(reader)).len() > 0 ==> item == events_left(*old(reader))[0] && events_left(
            *final(reader),
        ) == events_left(*old(reader)).drop_first(),
{
    let text = |b: &[u8]| String::from_utf8_lossy(b).into_owned();
    match reader.read_event() {
        Ok(Start(e)) => XmlItem::Start(
            text(e.name().0),
            e.attributes().map(|a| a.ok().map(|a| (text(a.key.0), text(&a.value)))).collect(),
        ),
        Ok(Empty(e)) => XmlItem::Empty(text(e.name().0)),
        Ok(Text(e)) => XmlItem::Text(text(&e)),
        Ok(End(e)) => XmlItem::End(text(e.name().0)),
        Ok(Eof) => XmlItem::Eof,
        Err(e) => XmlItem::Failed(e.to_string()),
        _ => XmlItem::Other,
    }
}

/// What `quick_xml::escape::unescape` gives for `raw`: the text with the
/// predefined XML entities and character references replaced, or `None` where
/// it reports an error (an unknown or unterminated entity reference).
pub uninterp spec fn xml_unescaped(raw: Seq<char>) -> Option<Seq<char>>;

/// `quick_xml::escape::unescape`. Its result is named `xml_unescaped`; a text
/// without `&` comes back unchanged (the source returns it as it is when it
/// finds no `&`).
#[verifier::external_body]
fn unescape_xml(raw: &str) -> (r: Option<String>)
    ensures
        opt_str(r) == xml_unescaped(raw@),
        !raw@.contains('&') ==> opt_str(r) == Some(raw@),
{
    quick_xml::escape::unescape(raw).ok().map(|c| c.into_owned())
}

/// The text of a text event: unescaped where that succeeds, raw otherwise.
pub open spec fn unescaped_or_raw(raw: Seq<char>) -> Seq<char> {
    match xml_unescaped(raw) {
        Some(u) => u,
        None => raw,
    }
}

/// The record a step gives, if any.
pub open spec fn step_action(s: ParseStep) -> Option<DbAction> {
    match s {
        ParseStep::Action(a) => Some(a),
        _ => None,
    }
}

/// The effect of one XML event on the builder, and what the step returns.
pub open spec fn item_step(
    old: EntryBuilder,
    new: EntryBuilder,
    entities: Seq<(Seq<char>, Seq<char>)>,
    item: XmlItem,
    r: Result<ParseStep, TentokuError>,
) -> bool {
    match item {
        XmlItem::Start(name, attrs) => r matches Ok(s) && !(s is Done) && start_step(
            old,
            new,
            name@,
            text_pairs(readable_attrs(attrs@)),
            step_action(s),
        ),
        XmlItem::Empty(name) => r matches Ok(s) && s is Continue && empty_step(old, new, name@),
        XmlItem::Text(raw) => r matches Ok(s) && !(s is Done) && exists|t: String|
            t@ == spec_entity_token(unescaped_or_raw(raw@), entities) && #[trigger] text_step(
                old,
                new,
                t,
                step_action(s),
            ),
        XmlItem::End(name) => r matches Ok(s) && !(s is Done) && end_step(
            old,
            new,
            name@,
            step_action(s),
        ),
        XmlItem::Eof => r matches Ok(s) && s is Done && new == old,
        XmlItem::Other => r matches Ok(s) && s is Continue && new == old,
        XmlItem::Failed(message) => r matches Err(TentokuError::Build(m)) && m@ == "XML error: "@
            + message@ && new == old,
    }
}

/// The characters of `a` followed by those of `b`.
fn concat_strs(a: &str, b: &str) -> (out: String)
    ensures
        out@ == a@ + b@,
{
    let mut acc = to_chars(a);
    let bc = to_chars(b);
    push_chars(&mut acc, bc.as_slice());
    string_from_chars(acc.as_slice())
}

fn step_of(act: Option<DbAction>) -> (s: ParseStep)
    ensures
        !(s is Done),
        step_action(s) == act,
{
    match act {
        Some(a) => ParseStep::Action(a),
        None => ParseStep::Continue,
    }
}

/// The attributes that could be read, in order.
pub open spec fn readable_attrs(a: Seq<Option<(String, String)>>) -> Seq<(String, String)>
    decreases a.len(),
{
    if a.len() == 0 {
        Seq::empty()
    } else {
        let prev = readable_attrs(a.drop_last());
        match a.last() {
            Some(p) => prev.push(p),
            None => prev,
        }
    }
}

/// Drops the attributes that could not be read, keeping the others in order.
pub fn keep_readable_attrs(attrs: Vec<Option<(String, String)>>) -> (out: Vec<(String, String)>)
    ensures
        out@ == readable_attrs(attrs@),
{
    let ghost orig = attrs@;
    let mut rest = attrs;
    let mut out: Vec<(String, String)> = Vec::new();
    let n = rest.len();
    let mut k: usize = 0;
    while k < n
        invariant
            k <= n,
            n == orig.len(),
            rest@ == orig.subrange(k as int, n as int),
            out@ == readable_attrs(orig.take(k as int)),
        decreases n - k,
    {
        let a = rest.remove(0);
        proof {
            assert(a == orig[k as int]);
            assert(rest@ =~= orig.subrange(k as int + 1, n as int));
            assert(orig.take(k as int + 1).drop_last() =~= orig.take(k as int));
            assert(orig.take(k as int + 1).last() == a);
        }
        match a {
            Some(p) => out.push(p),
            None => {},
        }
        k = k + 1;
    }
    proof {
        assert(orig.take(n as int) =~= orig);
    }
    out
}

/// Applies one XML event to the builder: names and attributes go to the
/// element handlers, text is unescaped (kept raw where that fails) and a
/// whole-text entity reference is expanded from `entities`.
pub fn apply_item(builder: &mut EntryBuilder, entities: &Vec<(String, String)>, item: XmlItem) -> (r:
    Result<ParseStep, TentokuError>)
    ensures
        item_step(*old(builder), *final(builder), text_pairs(entities@), item, r),
{
    match item {
        XmlItem::Start(name, attrs) => {
            let attrs = keep_readable_attrs(attrs);
            let act = builder.on_start(name.as_str(), &attrs);
            Ok(step_of(act))
        },
        XmlItem::Empty(name) => {
            builder.on_empty(name.as_str());
            Ok(ParseStep::Continue)
        },
        XmlItem::Text(raw) => {
            let text = match unescape_xml(raw.as_str()) {
                Some(t) => t,
                None => raw,
            };
            let decoded = decode_jmdict_entity_token(text.as_str(), entities);
            let ghost d = decoded;
            let act = builder.on_text(decoded);
            proof {
                assert(text_step(*old(builder), *builder, d, act));
            }
            Ok(step_of(act))
        },
        XmlItem::End(name) => {
            let act = builder.on_end(name.as_str());
            Ok(step_of(act))
        },
        XmlItem::Eof => Ok(ParseStep::Done),
        XmlItem::Other => Ok(ParseStep::Continue),
        XmlItem::Failed(message) => Err(
            TentokuError::Build(concat_strs("XML error: ", message.as_str())),
        ),
    }
}

/// Reads a JMdict document event by event.
pub struct JmdictParser<'a> {
    reader: quick_xml::Reader<&'a [u8]>,
    entities: Vec<(String, String)>,
    builder: EntryBuilder,
}

impl<'a> JmdictParser<'a> {
    /// The entities the document declares, by name and value.
    pub closed spec fn entity_table(&self) -> Seq<(Seq<char>, Seq<char>)> {
        text_pairs(self.entities@)
    }

    /// What has been collected of the current entry.
    pub closed spec fn state(&self) -> EntryBuilder {
        self.builder
    }

    /// The events of the document yet to be read.
    pub closed spec fn remaining(&self) -> Seq<XmlItem> {
        events_left(self.reader)
    }

    /// A parser at the start of `xml`, with the entities it declares read and
    /// white space around text trimmed.
    pub fn new(xml: &'a str) -> (p: Self)
        ensures
            p.entity_table() == entity_decls(trimmed_parts(xml@, '\n')),
            is_empty_builder(p.state()),
            p.remaining() == xml_events(xml@),
    {
        let entities = extract_jmdict_entities(xml);
        let reader = xml_reader(xml);
        JmdictParser { reader, entities, builder: EntryBuilder::new() }
    }

    /// Reads the next event of the document and applies it to the builder:
    /// while events remain, the step is `item_step` for the first of them, and
    /// that event is consumed.
    pub fn step(&mut self) -> (r: Result<ParseStep, TentokuError>)
        ensures
            final(self).entity_table() == old(self).entity_table(),
            old(self).remaining().len() > 0 ==> item_step(
                old(self).state(),
                final(self).state(),
                old(self).entity_table(),
                old(self).remaining()[0],
                r,
            ) && final(self).remaining() == old(self).remaining().drop_first(),
            exists|item: XmlItem|
                item_step(old(self).state(), final(self).state(), old(self).entity_table(), item, r),
    {
        let item = read_xml_item(&mut self.reader);
        let ghost it = item;
        let r = apply_item(&mut self.builder, &self.entities, item);
        proof {
            assert(item_step(old(self).builder, self.builder, text_pairs(self.entities@), it, r));
            assert(item_step(old(self).state(), self.state(), old(self).entity_table(), it, r));
        }
        r
    }
}


// ---------------------------------------------------------------------------
// The compressed download
// ---------------------------------------------------------------------------

/// What `flate2::read::GzDecoder` over `gz`, read to the end as a string,
/// gives: the decompressed text where `gz` is gzip data holding UTF-8 text,
/// nothing where reading fails.
pub uninterp spec fn gunzip_text(gz: Seq<u8>) -> Option<Seq<char>>;

/// `flate2::read::GzDecoder::new(gz)` read with `Read::read_to_string`. Its
/// result is named `gunzip_text`; the error is the one reading reported.
#[verifier::external_body]
fn gunzip_to_string(gz: &[u8]) -> (r: Result<String, std::io::Error>)
    ensures
        match r {
            Ok(s) => gunzip_text(gz@) == Some(s@),
            Err(_) => gunzip_text(gz@) is None,
        },
{
    let mut text = String::new();
    std::io::Read::read_to_string(&mut flate2::read::GzDecoder::new(gz), &mut text).map(|_| text)
}

/// The JMdict XML held in the gzip bytes of the download; an I/O error where
/// they do not decompress to UTF-8 text.
pub fn decompress_jmdict(gz: &[u8]) -> (r: Result<String, TentokuError>)
    ensures
        match r {
            Ok(s) => gunzip_text(gz@) == Some(s@),
            Err(e) => gunzip_text(gz@) is None && e is Io,
        },
{
    match gunzip_to_string(gz) {
        Ok(s) => Ok(s),
        Err(e) => Err(TentokuError::Io(e)),
    }
}

} // verus!
