//! Checks whether a dictionary entry's part-of-speech tags agree with the
//! word type that deinflection produced.

use vstd::prelude::*;

use crate::text::{
    ascii_lower, contains_chars, has_infix, has_prefix, starts_with_chars, str_is, to_ascii_lower,
    to_chars,
};
use crate::types::WordEntry;

verus! {

/// The part-of-speech classes recognised in tags.
pub open spec fn pos_class(kind: u8, p: Seq<char>) -> bool {
    let lower = ascii_lower(p);
    if kind == 0 {
        // expressions
        p == "exp"@ || has_infix(lower, "expression"@)
    } else if kind == 1 {
        has_prefix(p, "v1"@) || has_infix(p, "Ichidan verb"@) || p == "v1"@
    } else if kind == 2 {
        has_prefix(p, "v5"@) || has_prefix(p, "v4"@) || has_infix(p, "Godan verb"@)
    } else if kind == 3 {
        has_prefix(p, "adj-i"@) || has_infix(lower, "adjective"@)
    } else if kind == 4 {
        p == "vk"@ || has_infix(lower, "kuru verb"@)
    } else if kind == 5 {
        p == "vs-i"@ || p == "vs-s"@ || has_infix(lower, "suru verb"@)
    } else if kind == 6 {
        p == "vs-s"@ || p == "vz"@ || has_infix(lower, "suru verb"@)
    } else {
        p == "vs"@ || (has_infix(lower, "noun or participle"@) && has_infix(lower, "suru"@))
    }
}

/// The `j`-th part-of-speech tag of the `i`-th sense exists.
pub open spec fn pos_tag_exists(entry: WordEntry, i: int, j: int) -> bool {
    0 <= i < entry.senses@.len() && 0 <= j < entry.senses@[i].pos_tags@.len()
}

/// The `j`-th part-of-speech tag of the `i`-th sense.
pub open spec fn pos_tag(entry: WordEntry, i: int, j: int) -> Seq<char> {
    entry.senses@[i].pos_tags@[j]@
}

/// Some part-of-speech tag of the entry belongs to class `kind`.
pub open spec fn entry_has_class(entry: WordEntry, kind: u8) -> bool {
    exists|i: int, j: int| pos_tag_exists(entry, i, j) && pos_class(kind, #[trigger] pos_tag(entry, i, j))
}

/// The entry has at least one part-of-speech tag.
pub open spec fn entry_has_tags(entry: WordEntry) -> bool {
    exists|i: int, j: int| #[trigger] pos_tag_exists(entry, i, j)
}

/// An entry matches a word type when it has tags and, for some type bit set
/// in `word_type`, a tag of the corresponding class; expressions match every
/// verb and adjective type.
pub open spec fn spec_entry_matches_type(entry: WordEntry, word_type: u16) -> bool {
    &&& entry_has_tags(entry)
    &&& {
        ||| entry_has_class(entry, 0) && word_type & 63 != 0
        ||| word_type & 1 != 0 && entry_has_class(entry, 1)
        ||| word_type & 2 != 0 && entry_has_class(entry, 2)
        ||| word_type & 4 != 0 && entry_has_class(entry, 3)
        ||| word_type & 8 != 0 && entry_has_class(entry, 4)
        ||| word_type & 16 != 0 && entry_has_class(entry, 5)
        ||| word_type & 32 != 0 && entry_has_class(entry, 6)
        ||| word_type & 64 != 0 && entry_has_class(entry, 7)
    }
}

fn lit_infix(s: &Vec<char>, lit: &str) -> (b: bool)
    ensures
        b == has_infix(s@, lit@),
{
    let l = to_chars(lit);
    contains_chars(s.as_slice(), l.as_slice())
}

fn lit_prefix(s: &Vec<char>, lit: &str) -> (b: bool)
    ensures
        b == has_prefix(s@, lit@),
{
    let l = to_chars(lit);
    starts_with_chars(s.as_slice(), l.as_slice())
}

/// Whether the tag `p` belongs to class `kind`.
fn tag_in_class(kind: u8, p: &Vec<char>) -> (b: bool)
    ensures
        b == pos_class(kind, p@),
{
    let lower = to_ascii_lower(p.as_slice());
    if kind == 0 {
        str_is(p.as_slice(), "exp") || lit_infix(&lower, "expression")
    } else if kind == 1 {
        lit_prefix(p, "v1") || lit_infix(p, "Ichidan verb") || str_is(p.as_slice(), "v1")
    } else if kind == 2 {
        lit_prefix(p, "v5") || lit_prefix(p, "v4") || lit_infix(p, "Godan verb")
    } else if kind == 3 {
        lit_prefix(p, "adj-i") || lit_infix(&lower, "adjective")
    } else if kind == 4 {
        str_is(p.as_slice(), "vk") || lit_infix(&lower, "kuru verb")
    } else if kind == 5 {
        str_is(p.as_slice(), "vs-i") || str_is(p.as_slice(), "vs-s") || lit_infix(
            &lower,
            "suru verb",
        )
    } else if kind == 6 {
        str_is(p.as_slice(), "vs-s") || str_is(p.as_slice(), "vz") || lit_infix(
            &lower,
            "suru verb",
        )
    } else {
        str_is(p.as_slice(), "vs") || (lit_infix(&lower, "noun or participle") && lit_infix(
            &lower,
            "suru",
        ))
    }
}

/// Whether some tag of the entry belongs to class `kind`.
fn has_class(entry: &WordEntry, kind: u8) -> (b: bool)
    ensures
        b == entry_has_class(*entry, kind),
{
    let mut i: usize = 0;
    while i < entry.senses.len()
        invariant
            i <= entry.senses@.len(),
            forall|a: int, c: int|
                0 <= a < i && pos_tag_exists(*entry, a, c) ==> !pos_class(
                    kind,
                    #[trigger] pos_tag(*entry, a, c),
                ),
        decreases entry.senses@.len() - i,
    {
        let tags = &entry.senses[i].pos_tags;
        let mut j: usize = 0;
        while j < tags.len()
            invariant
                i < entry.senses@.len(),
                tags == &entry.senses@[i as int].pos_tags,
                j <= tags@.len(),
                forall|a: int, c: int|
                    0 <= a < i && pos_tag_exists(*entry, a, c) ==> !pos_class(
                        kind,
                        #[trigger] pos_tag(*entry, a, c),
                    ),
                forall|c: int| 0 <= c < j ==> !pos_class(kind, #[trigger] pos_tag(*entry, i as int, c)),
            decreases tags@.len() - j,
        {
            let p = to_chars(tags[j].as_str());
            if tag_in_class(kind, &p) {
                proof {
                    assert(pos_tag_exists(*entry, i as int, j as int));
                    assert(pos_class(kind, pos_tag(*entry, i as int, j as int)));
                }
                return true;
            }
            j = j + 1;
        }
        i = i + 1;
    }
    false
}

/// Whether the entry has any part-of-speech tag.
fn has_tags(entry: &WordEntry) -> (b: bool)
    ensures
        b == entry_has_tags(*entry),
{
    let mut i: usize = 0;
    while i < entry.senses.len()
        invariant
            i <= entry.senses@.len(),
            forall|a: int| 0 <= a < i ==> entry.senses@[a].pos_tags@.len() == 0,
        decreases entry.senses@.len() - i,
    {
        if entry.senses[i].pos_tags.len() > 0 {
            proof {
                assert(pos_tag_exists(*entry, i as int, 0));
            }
            return true;
        }
        i = i + 1;
    }
    false
}

/// Tests if a dictionary entry's POS tags match the expected word type from deinflection.
pub fn entry_matches_type(entry: &WordEntry, word_type: u16) -> (b: bool)
    ensures
        b == spec_entry_matches_type(*entry, word_type),
{
    if !has_tags(entry) {
        return false;
    }
    // Expressions match any verb/adj type.
    if has_class(entry, 0) && word_type & 63 != 0 {
        return true;
    }
    if word_type & 1 != 0 && has_class(entry, 1) {
        return true;
    }
    if word_type & 2 != 0 && has_class(entry, 2) {
        return true;
    }
    if word_type & 4 != 0 && has_class(entry, 3) {
        return true;
    }
    if word_type & 8 != 0 && has_class(entry, 4) {
        return true;
    }
    if word_type & 16 != 0 && has_class(entry, 5) {
        return true;
    }
    if word_type & 32 != 0 && has_class(entry, 6) {
        return true;
    }
    if word_type & 64 != 0 && has_class(entry, 7) {
        return true;
    }
    false
}

/// Which tags name which word types. An entry with a part-of-speech tag `p`
/// matches every word type that `p` names:
/// - Ichidan verbs: a tag starting with `v1` or containing `Ichidan verb`;
/// - Godan verbs: a tag starting with `v5` or `v4` or containing `Godan verb`;
/// - i-adjectives: a tag starting with `adj-i` or containing `adjective` in
///   any case;
/// - Kuru verbs: `vk`, or a tag containing `kuru verb` in any case;
/// - Suru verbs: `vs-i`, `vs-s`, or a tag containing `suru verb` in any case;
/// - special Suru verbs: `vs-s`, `vz`, or a tag containing `suru verb`;
/// - nouns taking suru: `vs`, or a tag containing both `noun or participle`
///   and `suru` in any case;
/// - and an expression (`exp`, or a tag containing `expression` in any case)
///   matches every verb and adjective type.
pub proof fn lemma_tag_names_type(entry: WordEntry, word_type: u16, i: int, j: int)
    requires
        pos_tag_exists(entry, i, j),
    ensures
        ({
            let p = pos_tag(entry, i, j);
            let low = ascii_lower(p);
            &&& (word_type & 1 != 0 && (has_prefix(p, "v1"@) || has_infix(p, "Ichidan verb"@)))
                ==> spec_entry_matches_type(entry, word_type)
            &&& (word_type & 2 != 0 && (has_prefix(p, "v5"@) || has_prefix(p, "v4"@) || has_infix(
                p,
                "Godan verb"@,
            ))) ==> spec_entry_matches_type(entry, word_type)
            &&& (word_type & 4 != 0 && (has_prefix(p, "adj-i"@) || has_infix(low, "adjective"@)))
                ==> spec_entry_matches_type(entry, word_type)
            &&& (word_type & 8 != 0 && (p == "vk"@ || has_infix(low, "kuru verb"@))) ==> spec_entry_matches_type(
                entry,
                word_type,
            )
            &&& (word_type & 16 != 0 && (p == "vs-i"@ || p == "vs-s"@ || has_infix(low, "suru verb"@)))
                ==> spec_entry_matches_type(entry, word_type)
            &&& (word_type & 32 != 0 && (p == "vs-s"@ || p == "vz"@ || has_infix(low, "suru verb"@)))
                ==> spec_entry_matches_type(entry, word_type)
            &&& (word_type & 64 != 0 && (p == "vs"@ || (has_infix(low, "noun or participle"@) && has_infix(
                low,
                "suru"@,
            )))) ==> spec_entry_matches_type(entry, word_type)
            &&& (word_type & 63 != 0 && (p == "exp"@ || has_infix(low, "expression"@)))
                ==> spec_entry_matches_type(entry, word_type)
        }),
{
    let p = pos_tag(entry, i, j);
    assert(entry_has_tags(entry));
    assert(pos_class(0, p) ==> entry_has_class(entry, 0));
    assert(pos_class(1, p) ==> entry_has_class(entry, 1));
    assert(pos_class(2, p) ==> entry_has_class(entry, 2));
    assert(pos_class(3, p) ==> entry_has_class(entry, 3));
    assert(pos_class(4, p) ==> entry_has_class(entry, 4));
    assert(pos_class(5, p) ==> entry_has_class(entry, 5));
    assert(pos_class(6, p) ==> entry_has_class(entry, 6));
    assert(pos_class(7, p) ==> entry_has_class(entry, 7));
}

/// An entry without any part-of-speech tag matches no word type.
pub proof fn lemma_untagged_matches_nothing(entry: WordEntry, word_type: u16)
    requires
        forall|i: int| 0 <= i < entry.senses@.len() ==> (#[trigger] entry.senses@[i]).pos_tags@.len() == 0,
    ensures
        !spec_entry_matches_type(entry, word_type),
{
    if entry_has_tags(entry) {
        let (i, j) = choose|i: int, j: int| #[trigger] pos_tag_exists(entry, i, j);
        assert(entry.senses@[i].pos_tags@.len() == 0);
    }
}

} // verus!
