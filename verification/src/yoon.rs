//! Detection of yoon (拗音) endings such as きゃ, しゅ, ちょ.

use vstd::prelude::*;

use crate::text::to_chars;

verus! {

/// Yoon start characters: きしちにひみりぎじびぴ
pub open spec fn is_yoon_start(c: char) -> bool {
    c == 'き' || c == 'し' || c == 'ち' || c == 'に' || c == 'ひ' || c == 'み' || c == 'り'
        || c == 'ぎ' || c == 'じ' || c == 'び' || c == 'ぴ'
}

/// Small y characters: ゃゅょ
pub open spec fn is_small_y(c: char) -> bool {
    c == 'ゃ' || c == 'ゅ' || c == 'ょ'
}

/// The text ends in a yoon: a yoon start character followed by a small y.
pub open spec fn spec_ends_in_yoon(s: Seq<char>) -> bool {
    s.len() >= 2 && is_small_y(s[s.len() - 1]) && is_yoon_start(s[s.len() - 2])
}

/// Returns `true` if `text` ends in a yoon (拗音), e.g. きゃ, しゅ, ちょ.
pub fn ends_in_yoon(text: &str) -> (b: bool)
    ensures
        b == spec_ends_in_yoon(text@),
{
    let chars = to_chars(text);
    chars_end_in_yoon(&chars)
}

/// [`ends_in_yoon`] on a character vector.
pub fn chars_end_in_yoon(chars: &Vec<char>) -> (b: bool)
    ensures
        b == spec_ends_in_yoon(chars@),
{
    if chars.len() < 2 {
        return false;
    }
    let last = chars[chars.len() - 1];
    let second_last = chars[chars.len() - 2];
    (last == 'ゃ' || last == 'ゅ' || last == 'ょ') && (second_last == 'き' || second_last == 'し'
        || second_last == 'ち' || second_last == 'に' || second_last == 'ひ' || second_last
        == 'み' || second_last == 'り' || second_last == 'ぎ' || second_last == 'じ'
        || second_last == 'び' || second_last == 'ぴ')
}

} // verus!
