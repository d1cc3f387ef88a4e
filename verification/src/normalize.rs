//! Character-level normalization of Japanese input text.

use vstd::prelude::*;

use unicode_normalization::UnicodeNormalization;

use crate::text::{char_from_u32, string_from_chars, to_chars};

verus! {

/// The hiragana counterpart of one character: katakana U+30A1..=U+30F6 shift
/// down by 0x60, ヷヸヹヺ map to わゐゑを, anything else is unchanged.
pub open spec fn hiragana_char(c: char) -> char {
    if 0x30A1 <= (c as u32) && (c as u32) <= 0x30F6 {
        ((c as u32) - 0x60) as char
    } else if c == '\u{30F7}' {
        'わ'
    } else if c == '\u{30F8}' {
        'ゐ'
    } else if c == '\u{30F9}' {
        'ゑ'
    } else if c == '\u{30FA}' {
        'を'
    } else {
        c
    }
}

/// Katakana to hiragana, character by character.
pub open spec fn spec_kana_to_hiragana(s: Seq<char>) -> Seq<char> {
    s.map_values(|c: char| hiragana_char(c))
}

/// The full-width counterpart of one character: ASCII digits 0-9 become
/// ０-９ (U+FF10..), anything else is unchanged.
pub open spec fn full_width_digit(c: char) -> char {
    if 0x30 <= (c as u32) && (c as u32) <= 0x39 {
        ((c as u32) - 0x30 + 0xFF10) as char
    } else {
        c
    }
}

/// Half-width digits to full-width digits, character by character.
pub open spec fn spec_half_to_full_width_num(s: Seq<char>) -> Seq<char> {
    s.map_values(|c: char| full_width_digit(c))
}

/// The hiragana counterpart of `c` (see [`hiragana_char`]).
pub fn char_to_hiragana(c: char) -> (r: char)
    ensures
        r == hiragana_char(c),
{
    let code = c as u32;
    if 0x30A1 <= code && code <= 0x30F6 {
        match char_from_u32(code - 0x60) {
            Some(h) => h,
            None => c,
        }
    } else if c == '\u{30F7}' {
        'わ'
    } else if c == '\u{30F8}' {
        'ゐ'
    } else if c == '\u{30F9}' {
        'ゑ'
    } else if c == '\u{30FA}' {
        'を'
    } else {
        c
    }
}

/// Katakana to hiragana on a character vector.
pub fn chars_to_hiragana(chars: &[char]) -> (out: Vec<char>)
    ensures
        out@ == spec_kana_to_hiragana(chars@),
{
    let mut out: Vec<char> = Vec::new();
    let mut i: usize = 0;
    while i < chars.len()
        invariant
            i <= chars@.len(),
            out@ == spec_kana_to_hiragana(chars@.take(i as int)),
        decreases chars@.len() - i,
    {
        let h = char_to_hiragana(chars[i]);
        proof {
            assert(chars@.take(i as int + 1) =~= chars@.take(i as int).push(chars@[i as int]));
        }
        out.push(h);
        proof {
            assert(out@ =~= spec_kana_to_hiragana(chars@.take(i as int + 1)));
        }
        i = i + 1;
    }
    proof {
        assert(chars@.take(chars@.len() as int) =~= chars@);
    }
    out
}

/// Convert katakana to hiragana.
pub fn kana_to_hiragana(text: &str) -> (out: String)
    ensures
        out@ == spec_kana_to_hiragana(text@),
{
    let chars = to_chars(text);
    let h = chars_to_hiragana(chars.as_slice());
    string_from_chars(h.as_slice())
}

/// Half-width digits to full-width digits on a character vector.
pub fn chars_half_to_full_width_num(chars: &[char]) -> (out: Vec<char>)
    ensures
        out@ == spec_half_to_full_width_num(chars@),
{
    let mut out: Vec<char> = Vec::new();
    let mut i: usize = 0;
    while i < chars.len()
        invariant
            i <= chars@.len(),
            out@ == spec_half_to_full_width_num(chars@.take(i as int)),
        decreases chars@.len() - i,
    {
        let c = chars[i];
        let code = c as u32;
        let w = if 0x30 <= code && code <= 0x39 {
            match char_from_u32(code - 0x30 + 0xFF10) {
                Some(f) => f,
                None => c,
            }
        } else {
            c
        };
        proof {
            assert(chars@.take(i as int + 1) =~= chars@.take(i as int).push(chars@[i as int]));
        }
        out.push(w);
        proof {
            assert(out@ =~= spec_half_to_full_width_num(chars@.take(i as int + 1)));
        }
        i = i + 1;
    }
    proof {
        assert(chars@.take(chars@.len() as int) =~= chars@);
    }
    out
}

/// Convert half-width digits (0-9) to full-width (０-９).
pub fn half_to_full_width_num(text: &str) -> (out: String)
    ensures
        out@ == spec_half_to_full_width_num(text@),
{
    let chars = to_chars(text);
    let w = chars_half_to_full_width_num(chars.as_slice());
    string_from_chars(w.as_slice())
}

/// The zero-width non-joiner, which normalization strips.
pub const ZWNJ: char = '\u{200C}';

/// Unicode Normalization Form C of `s`, as the `unicode-normalization` crate
/// computes it.
pub uninterp spec fn nfc(s: Seq<char>) -> Seq<char>;

/// NFC of `s` (`unicode_normalization::UnicodeNormalization::nfc`), collected
/// into characters.
#[verifier::external_body]
fn nfc_chars(s: &str) -> (r: Vec<char>)
    ensures
        r@ == nfc(s@),
{
    s.nfc().collect()
}

/// How many characters of `pre`, starting at `p`, compose into the single
/// NFC character `c`: the least `k` among 1..=4 (and at most the characters
/// left) for which NFC of those `k` characters is exactly `c`; the characters
/// left (at least one) when they run out first; otherwise 1.
pub open spec fn spec_consumed(pre: Seq<char>, p: int, c: char, k: int) -> int
    decreases 4 - k,
{
    let remaining = if p <= pre.len() {
        pre.len() - p
    } else {
        0
    };
    if k > remaining {
        if remaining >= 1 {
            remaining
        } else {
            1
        }
    } else if nfc(pre.subrange(p, p + k)) == seq![c] {
        k
    } else if k >= 4 {
        1
    } else {
        spec_consumed(pre, p, c, k + 1)
    }
}

/// Walks the NFC characters `n` of `pre`: ZWNJ characters are dropped, every
/// other character is kept and records the position in `pre` it starts at.
/// Returns the kept characters, their positions, and the position reached.
pub open spec fn norm_fold(pre: Seq<char>, n: Seq<char>) -> (Seq<char>, Seq<int>, int)
    decreases n.len(),
{
    if n.len() == 0 {
        (Seq::empty(), Seq::empty(), 0)
    } else {
        let prev = norm_fold(pre, n.drop_last());
        let c = n.last();
        if c == ZWNJ {
            (prev.0, prev.1, prev.2 + 1)
        } else {
            (prev.0.push(c), prev.1.push(prev.2), prev.2 + spec_consumed(pre, prev.2, c, 1))
        }
    }
}

/// The normalized text and the position map of [`normalize_input`].
pub open spec fn spec_normalize_input(text: Seq<char>) -> (Seq<char>, Seq<int>) {
    if text.len() == 0 {
        (Seq::empty(), seq![0])
    } else {
        let pre = spec_half_to_full_width_num(text);
        let f = norm_fold(pre, nfc(pre));
        (f.0, f.1.push(f.2))
    }
}

proof fn lemma_consumed_positive(pre: Seq<char>, p: int, c: char, k: int)
    requires
        1 <= k <= 4,
    ensures
        spec_consumed(pre, p, c, k) >= 1,
    decreases 4 - k,
{
    if k < 4 {
        lemma_consumed_positive(pre, p, c, k + 1);
    }
}

/// The positions recorded by the walk increase strictly and stay below the
/// position reached.
proof fn lemma_norm_fold(pre: Seq<char>, n: Seq<char>)
    ensures
        norm_fold(pre, n).0.len() == norm_fold(pre, n).1.len(),
        norm_fold(pre, n).2 >= 0,
        forall|i: int, j: int|
            0 <= i < j < norm_fold(pre, n).1.len() ==> #[trigger] norm_fold(pre, n).1[i] < #[trigger] norm_fold(pre, n).1[j],
        forall|i: int|
            0 <= i < norm_fold(pre, n).1.len() ==> 0 <= #[trigger] norm_fold(pre, n).1[i] < norm_fold(pre, n).2,
    decreases n.len(),
{
    if n.len() > 0 {
        lemma_norm_fold(pre, n.drop_last());
        let prev = norm_fold(pre, n.drop_last());
        lemma_consumed_positive(pre, prev.2, n.last(), 1);
    }
}

/// How many characters of `pre` from `pos` on compose into `c` (see [`spec_consumed`]).
fn consumed_count(pre: &Vec<char>, pos: usize, c: char) -> (consumed: usize)
    ensures
        consumed == spec_consumed(pre@, pos as int, c, 1),
        1 <= consumed,
        pos <= pre@.len() ==> consumed <= pre@.len() - pos || consumed == 1,
{
    let remaining: usize = if pos <= pre.len() {
        pre.len() - pos
    } else {
        0
    };
    let plen = pre.len();
    let mut k: usize = 1;
    while k <= 4
        invariant
            1 <= k <= 4,
            plen == pre@.len(),
            remaining as int == if pos <= pre@.len() {
                pre@.len() - pos
            } else {
                0
            },
            spec_consumed(pre@, pos as int, c, 1) == spec_consumed(pre@, pos as int, c, k as int),
        decreases 4 - k,
    {
        if k > remaining {
            return if remaining >= 1 {
                remaining
            } else {
                1
            };
        }
        let seg = crate::deinflect::sub_chars(pre.as_slice(), pos, pos + k);
        let seg_s = string_from_chars(seg.as_slice());
        let seg_nfc = nfc_chars(seg_s.as_str());
        if seg_nfc.len() == 1 && seg_nfc[0] == c {
            proof {
                assert(seg_nfc@ =~= seq![c]);
            }
            return k;
        }
        proof {
            if seg_nfc@ == seq![c] {
                assert(seg_nfc@[0] == c);
            }
        }
        if k >= 4 {
            return 1;
        }
        k = k + 1;
    }
    1
}

/// Normalize input text and return `(normalized_text, input_lengths)`.
///
/// `input_lengths[i]` gives the character index in the *original* text corresponding
/// to position `i` in the normalized text. The array has `char_count + 1` entries.
///
/// Steps: half-width digits become full-width, the text is put in NFC, ZWNJ
/// characters are stripped, and the position map is built alongside.
pub fn normalize_input(text: &str) -> (res: (String, Vec<usize>))
    ensures
        res.1@.len() == res.0@.len() + 1,
        forall|i: int, j: int| 0 <= i < j < res.1@.len() ==> res.1@[i] < res.1@[j],
        text@.len() == 0 ==> res.0@.len() == 0 && res.1@ == seq![0usize],
        text@.len() < usize::MAX / 4 && nfc(spec_half_to_full_width_num(text@)).len() < usize::MAX / 4
            ==> res.0@ == spec_normalize_input(text@).0 && res.1@.map_values(|x: usize| x as int)
            == spec_normalize_input(text@).1,
{
    let mut zero: Vec<usize> = Vec::new();
    zero.push(0);
    if text.is_empty() {
        proof {
            assert(zero@ =~= seq![0usize]);
            assert(zero@.map_values(|x: usize| x as int) =~= seq![0int]);
        }
        return (String::new(), zero);
    }
    let chars = to_chars(text);
    let pre = chars_half_to_full_width_num(chars.as_slice());
    let after_num = string_from_chars(pre.as_slice());
    let nfc_all = nfc_chars(after_num.as_str());
    if pre.len() >= usize::MAX / 4 || nfc_all.len() >= usize::MAX / 4 {
        // Too long to index: no position map can be built.
        return (String::new(), zero);
    }
    let ghost pre_s = pre@;
    let mut result_chars: Vec<char> = Vec::new();
    let mut input_lengths: Vec<usize> = Vec::new();
    let mut pos: usize = 0;
    let mut i: usize = 0;
    proof {
        assert(nfc_all@.take(0) =~= Seq::<char>::empty());
    }
    while i < nfc_all.len()
        invariant
            i <= nfc_all@.len(),
            nfc_all@.len() < usize::MAX / 4,
            pre@.len() < usize::MAX / 4,
            pre@ == pre_s,
            pos <= pre@.len() + i,
            result_chars@ == norm_fold(pre_s, nfc_all@.take(i as int)).0,
            input_lengths@.map_values(|x: usize| x as int) == norm_fold(pre_s, nfc_all@.take(i as int)).1,
            pos as int == norm_fold(pre_s, nfc_all@.take(i as int)).2,
        decreases nfc_all@.len() - i,
    {
        let c = nfc_all[i];
        proof {
            assert(nfc_all@.take(i as int + 1).drop_last() =~= nfc_all@.take(i as int));
            assert(nfc_all@.take(i as int + 1).last() == c);
        }
        if c == ZWNJ {
            pos = pos + 1;
        } else {
            let ghost old_lengths = input_lengths@;
            input_lengths.push(pos);
            result_chars.push(c);
            proof {
                assert(input_lengths@.map_values(|x: usize| x as int) =~= old_lengths.map_values(
                    |x: usize| x as int,
                ).push(pos as int));
            }
            let consumed = consumed_count(&pre, pos, c);
            pos = pos + consumed;
        }
        i = i + 1;
    }
    proof {
        assert(nfc_all@.take(nfc_all@.len() as int) =~= nfc_all@);
        lemma_norm_fold(pre_s, nfc_all@);
    }
    let ghost before_final = input_lengths@;
    input_lengths.push(pos);
    proof {
        assert(input_lengths@.map_values(|x: usize| x as int) =~= before_final.map_values(
            |x: usize| x as int,
        ).push(pos as int));
        let f = norm_fold(pre_s, nfc_all@);
        assert forall|a: int, b: int| 0 <= a < b < input_lengths@.len() implies input_lengths@[a]
            < input_lengths@[b] by {
            assert(input_lengths@[a] as int == f.1.push(f.2)[a]);
            assert(input_lengths@[b] as int == f.1.push(f.2)[b]);
        }
    }
    (string_from_chars(result_chars.as_slice()), input_lengths)
}


/// Converting to hiragana twice gives what converting once gives: the result
/// holds no katakana that the conversion would change.
pub proof fn lemma_kana_to_hiragana_idempotent(s: Seq<char>)
    ensures
        spec_kana_to_hiragana(spec_kana_to_hiragana(s)) == spec_kana_to_hiragana(s),
{
    let once = spec_kana_to_hiragana(s);
    assert forall|i: int| 0 <= i < s.len() implies hiragana_char(#[trigger] once[i]) == once[i] by {
        let c = s[i];
        if 0x30A1 <= (c as u32) && (c as u32) <= 0x30F6 {
            assert(once[i] == ((c as u32) - 0x60) as char);
        }
    }
    assert(spec_kana_to_hiragana(once) =~= once);
}

/// Widening digits twice gives what widening once gives.
pub proof fn lemma_half_to_full_width_idempotent(s: Seq<char>)
    ensures
        spec_half_to_full_width_num(spec_half_to_full_width_num(s)) == spec_half_to_full_width_num(s),
{
    let once = spec_half_to_full_width_num(s);
    assert forall|i: int| 0 <= i < s.len() implies full_width_digit(#[trigger] once[i]) == once[i] by {
        let c = s[i];
        if 0x30 <= (c as u32) && (c as u32) <= 0x39 {
            assert(once[i] == ((c as u32) - 0x30 + 0xFF10) as char);
        }
    }
    assert(spec_half_to_full_width_num(once) =~= once);
}

/// Converting to hiragana keeps the number of characters.
pub proof fn lemma_kana_to_hiragana_keeps_length(s: Seq<char>)
    ensures
        spec_kana_to_hiragana(s).len() == s.len(),
{
}

/// `lengths` is the map from normalized positions to positions in `text`
/// that `normalize_input` gives: one entry more than the normalized text,
/// strictly increasing, and exactly the specified map where the text is not
/// too long to normalize.
pub open spec fn is_position_map(text: Seq<char>, lengths: Seq<usize>) -> bool {
    &&& lengths.len() >= 1
    &&& forall|i: int, j: int| 0 <= i < j < lengths.len() ==> lengths[i] < lengths[j]
    &&& text.len() == 0 ==> lengths == seq![0usize]
    &&& text.len() < usize::MAX / 4 && nfc(spec_half_to_full_width_num(text)).len() < usize::MAX / 4
        ==> lengths.map_values(|x: usize| x as int) == spec_normalize_input(text).1
}

} // verus!
