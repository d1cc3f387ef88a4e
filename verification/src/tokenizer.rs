//! Greedy longest-match tokenization of a whole text.

use vstd::prelude::*;

use crate::deinflect::sub_chars;
use crate::dictionary::Dictionary;
use crate::search_consistency::{answers_consistently, lemma_search_determined, same_outcome};
use crate::normalize::{is_position_map, nfc, normalize_input, spec_half_to_full_width_num, spec_normalize_input};
use crate::text::{string_from_chars, to_chars};
use crate::types::Token;
use crate::word_search::{
    lemma_greedy_longest_match, length_for, search_answer, search_walk, searched, word_search, SearchState,
    WordSearchResult,
};

verus! {

/// Every token's text is the original text between its start and end, and the
/// tokens come in order without overlapping.
pub open spec fn tokens_cover_in_order(text: Seq<char>, tokens: Seq<Token>) -> bool {
    &&& forall|k: int|
        0 <= k < tokens.len() ==> {
            &&& (#[trigger] tokens[k]).start <= tokens[k].end <= text.len()
            &&& tokens[k].text@ == text.subrange(tokens[k].start as int, tokens[k].end as int)
        }
    &&& forall|k: int| 0 <= k < tokens.len() - 1 ==> (#[trigger] tokens[k]).end <= tokens[k + 1].start
}

fn min_usize(a: usize, b: usize) -> (r: usize)
    ensures
        r == if a < b {
            a
        } else {
            b
        },
{
    if a < b {
        a
    } else {
        b
    }
}

/// What a word search at normalized position `pos` may return: a match
/// whose length reaches the original position of some later normalized
/// position, or nothing.
pub open spec fn outcome_fits(lengths: Seq<usize>, pos: int, found: Option<WordSearchResult>) -> bool {
    found matches Some(res) ==> exists|m: int|
        1 <= m && pos + m < lengths.len() && #[trigger] lengths[pos + m] == lengths[pos] + res.match_len
}

/// The tokens walk the normalized text from its start: token `k` is the one
/// made at normalized position `positions[k]` from the search outcome
/// `outcomes[k]` there, and the next token starts where it stops.
pub open spec fn walk_prefix(
    orig: Seq<char>,
    lengths: Seq<usize>,
    tokens: Seq<Token>,
    positions: Seq<int>,
    outcomes: Seq<Option<WordSearchResult>>,
) -> bool {
    &&& positions.len() == tokens.len() + 1
    &&& outcomes.len() == tokens.len()
    &&& positions[0] == 0
    &&& forall|k: int|
        0 <= k < tokens.len() ==> outcome_fits(lengths, positions[k], outcomes[k]) && token_for(
            orig,
            lengths,
            positions[k],
            outcomes[k],
            #[trigger] tokens[k],
            positions[k + 1] - positions[k],
        )
}

/// The tokens walk the whole normalized text, from its start to its end.
pub open spec fn tokens_walk(
    orig: Seq<char>,
    lengths: Seq<usize>,
    tokens: Seq<Token>,
    positions: Seq<int>,
    outcomes: Seq<Option<WordSearchResult>>,
) -> bool {
    &&& walk_prefix(orig, lengths, tokens, positions, outcomes)
    &&& positions.last() == lengths.len() - 1
}

proof fn lemma_walk_push(
    orig: Seq<char>,
    lengths: Seq<usize>,
    tokens: Seq<Token>,
    positions: Seq<int>,
    outcomes: Seq<Option<WordSearchResult>>,
    t: Token,
    found: Option<WordSearchResult>,
    step: int,
)
    requires
        walk_prefix(orig, lengths, tokens, positions, outcomes),
        outcome_fits(lengths, positions.last(), found),
        token_for(orig, lengths, positions.last(), found, t, step),
    ensures
        walk_prefix(
            orig,
            lengths,
            tokens.push(t),
            positions.push(positions.last() + step),
            outcomes.push(found),
        ),
{
    let t2 = tokens.push(t);
    let p2 = positions.push(positions.last() + step);
    let o2 = outcomes.push(found);
    assert(p2[0] == positions[0]);
    assert(p2.len() == t2.len() + 1);
    assert(o2.len() == t2.len());
    assert forall|q: int|
        #![trigger t2[q]]
        #![trigger o2[q]]
        0 <= q < t2.len() implies outcome_fits(lengths, p2[q], o2[q]) && token_for(
        orig,
        lengths,
        p2[q],
        o2[q],
        t2[q],
        p2[q + 1] - p2[q],
    ) by {
        if q < tokens.len() {
            assert(t2[q] == tokens[q]);
            assert(p2[q] == positions[q]);
            assert(p2[q + 1] == positions[q + 1]);
            assert(o2[q] == outcomes[q]);
        } else {
            assert(p2[q] == positions.last());
            assert(p2[q + 1] == positions.last() + step);
            assert(o2[q] == found);
            assert(t2[q] == t);
        }
    }
}

/// `norm` is the normalized form of `text` whose positions `lengths` maps
/// back to the original text.
pub open spec fn is_normalized_form(text: Seq<char>, norm: Seq<char>, lengths: Seq<usize>) -> bool {
    &&& lengths.len() == norm.len() + 1
    &&& text.len() < usize::MAX / 4 && nfc(spec_half_to_full_width_num(text)).len() < usize::MAX / 4
        ==> norm == spec_normalize_input(text).0
}

/// The position map of the normalized text from position `pos` on: each
/// entry less the one at `pos`.
pub open spec fn suffix_map(lengths: Seq<usize>, pos: int) -> Seq<usize> {
    Seq::new((lengths.len() - pos) as nat, |t: int| (lengths[pos + t] - lengths[pos]) as usize)
}

/// Each search outcome is what the word search gives on the rest of the
/// normalized text from its position, with the position map of that rest.
pub open spec fn outcomes_searched<D: Dictionary>(
    d: &D,
    norm: Seq<char>,
    lengths: Seq<usize>,
    max_results: usize,
    positions: Seq<int>,
    outcomes: Seq<Option<WordSearchResult>>,
) -> bool {
    forall|k: int|
        0 <= k < outcomes.len() ==> #[trigger] searched(
            d,
            suffix_map(lengths, positions[k]),
            max_results,
            norm.subrange(positions[k], norm.len() as int),
            outcomes[k],
        )
}

/// Greedy longest-match tokenization: the search behind a token that found a
/// match took its match length from the longest prefix of the rest of the
/// normalized text at which a lookup gave results; the lookups of all longer
/// prefixes gave none.
pub proof fn lemma_tokens_take_longest_match<D: Dictionary>(
    d: &D,
    text: Seq<char>,
    lengths: Seq<usize>,
    norm: Seq<char>,
    max_results: usize,
    positions: Seq<int>,
    outcomes: Seq<Option<WordSearchResult>>,
    k: int,
)
    requires
        is_position_map(text, lengths),
        is_normalized_form(text, norm, lengths),
        outcomes_searched(d, norm, lengths, max_results, positions, outcomes),
        0 <= k < outcomes.len(),
        0 <= positions[k] <= norm.len(),
        outcomes[k] is Some,
    ensures
        ({
            let rest = norm.subrange(positions[k], norm.len() as int);
            let map = suffix_map(lengths, positions[k]);
            exists|trace: Seq<SearchState>|
                #[trigger] search_walk(d, map, max_results, rest, trace) && exists|i: int|
                    {
                        &&& 0 <= i < trace.len() - 1
                        &&& trace[i].current == rest.take(trace[i].current.len() as int)
                        &&& trace[i].results.len() == 0
                        &&& #[trigger] trace[i + 1].results.len() > 0
                        &&& outcomes[k]->0.match_len == length_for(map, trace[i].current.len() as int)
                    }
        }),
{
    let p = positions[k];
    let rest = norm.subrange(p, norm.len() as int);
    let map = suffix_map(lengths, p);
    assert(searched(d, map, max_results, rest, outcomes[k]));
    let trace = choose|trace: Seq<SearchState>|
        #[trigger] search_walk(d, map, max_results, rest, trace) && search_answer(max_results, trace.last(), outcomes[k]);
    assert forall|a: int, b: int| 0 <= a < b < map.len() implies map[a] < map[b] by {
        assert(lengths[p + a] < lengths[p + b]);
        assert(lengths[p] <= lengths[p + a]);
    }
    lemma_greedy_longest_match(d, map, max_results, rest, trace, outcomes[k]);
}

/// With a dictionary that answers the same question the same way, each
/// search outcome behind the tokens is what the word search gives on the
/// rest of the normalized text from the token's position, with the position
/// map of that rest: any result of that search agrees with it.
pub proof fn lemma_tokens_are_searches<D: Dictionary>(
    d: &D,
    norm: Seq<char>,
    lengths: Seq<usize>,
    max_results: usize,
    positions: Seq<int>,
    outcomes: Seq<Option<WordSearchResult>>,
    k: int,
    res: Option<WordSearchResult>,
)
    requires
        answers_consistently(d),
        outcomes_searched(d, norm, lengths, max_results, positions, outcomes),
        0 <= k < outcomes.len(),
        searched(
            d,
            suffix_map(lengths, positions[k]),
            max_results,
            norm.subrange(positions[k], norm.len() as int),
            res,
        ),
    ensures
        same_outcome(outcomes[k], res),
{
    lemma_search_determined(
        d,
        suffix_map(lengths, positions[k]),
        max_results,
        norm.subrange(positions[k], norm.len() as int),
        outcomes[k],
        res,
    );
}

/// Tokenize `text` into a sequence of tokens using the provided dictionary.
///
/// Each token covers a span of the original text (by char index). If a
/// dictionary match is found at a position, `dictionary_entry` and
/// `deinflection_reasons` are populated with the best result. Otherwise the
/// token is an "unknown" single-character span with no entry.
#[verifier::rlimit(40)]
pub fn tokenize<D: Dictionary>(text: &str, dictionary: &D, max_results: usize) -> (tokens: Vec<Token>)
    requires
        max_results <= usize::MAX / 10,
    ensures
        text@.len() == 0 ==> tokens@.len() == 0,
        exists|
            lengths: Seq<usize>,
            norm: Seq<char>,
            positions: Seq<int>,
            outcomes: Seq<Option<WordSearchResult>>,
        |
            {
                &&& is_position_map(text@, lengths)
                &&& is_normalized_form(text@, norm, lengths)
                &&& tokens_walk(text@, lengths, tokens@, positions, outcomes)
                &&& #[trigger] outcomes_searched(dictionary, norm, lengths, max_results, positions, outcomes)
            },
        tokens_cover_in_order(text@, tokens@),
        forall|k: int|
            0 <= k < tokens@.len() ==> (#[trigger] tokens@[k]).dictionary_entry is None
                ==> tokens@[k].deinflection_reasons is None,
{
    let mut tokens: Vec<Token> = Vec::new();
    if text.is_empty() {
        proof {
            let lengths = seq![0usize];
            let positions = seq![0int];
            let outcomes = Seq::<Option<WordSearchResult>>::empty();
            assert(lengths.map_values(|x: usize| x as int) =~= seq![0int]);
            assert(is_position_map(text@, lengths));
            assert(tokens_walk(text@, lengths, tokens@, positions, outcomes));
            let norm = Seq::<char>::empty();
            assert(is_normalized_form(text@, norm, lengths));
            assert(outcomes_searched(dictionary, norm, lengths, max_results, positions, outcomes));
        }
        return tokens;
    }
    let (normalized, full_lengths) = normalize_input(text);
    let ghost mut positions: Seq<int> = seq![0int];
    let ghost mut outcomes: Seq<Option<WordSearchResult>> = Seq::empty();
    let orig_chars = to_chars(text);
    let norm_chars = to_chars(normalized.as_str());
    let norm_len = norm_chars.len();
    let orig_len = orig_chars.len();
    let mut norm_pos: usize = 0;
    while norm_pos < norm_len
        invariant
            norm_pos <= norm_len,
            norm_len == norm_chars@.len(),
            full_lengths@.len() == norm_len + 1,
            forall|i: int, j: int|
                0 <= i < j < full_lengths@.len() ==> full_lengths@[i] < full_lengths@[j],
            orig_chars@ == text@,
            orig_len == text@.len(),
            max_results <= usize::MAX / 10,
            is_position_map(text@, full_lengths@),
            walk_prefix(orig_chars@, full_lengths@, tokens@, positions, outcomes),
            norm_chars@ == normalized@,
            is_normalized_form(text@, normalized@, full_lengths@),
            outcomes_searched(dictionary, normalized@, full_lengths@, max_results, positions, outcomes),
            positions.last() == norm_pos,
            tokens_cover_in_order(text@, tokens@),
            tokens@.len() > 0 ==> tokens@.last().end <= min_of(
                full_lengths@[norm_pos as int] as int,
                orig_len as int,
            ),
            forall|k: int|
                0 <= k < tokens@.len() ==> (#[trigger] tokens@[k]).dictionary_entry is None
                    ==> tokens@[k].deinflection_reasons is None,
        decreases norm_len - norm_pos,
    {
        let orig_pos = full_lengths[norm_pos];
        // Build suffix string and per-position original-char lengths for this offset.
        let suffix_chars = sub_chars(norm_chars.as_slice(), norm_pos, norm_len);
        let suffix = string_from_chars(suffix_chars.as_slice());
        let suffix_span = norm_len - norm_pos;
        let mut suffix_lengths: Vec<usize> = Vec::new();
        let flen = full_lengths.len();
        let mut i: usize = 0;
        while i <= suffix_span
            invariant
                flen == full_lengths@.len(),
                i <= suffix_span + 1,
                suffix_span == norm_len - norm_pos,
                norm_pos < norm_len,
                full_lengths@.len() == norm_len + 1,
                forall|a: int, b: int|
                    0 <= a < b < full_lengths@.len() ==> full_lengths@[a] < full_lengths@[b],
                orig_pos == full_lengths@[norm_pos as int],
                suffix_lengths@.len() == i,
                forall|t: int|
                    0 <= t < i ==> #[trigger] suffix_lengths@[t] == full_lengths@[norm_pos + t]
                        - orig_pos,
            decreases suffix_span + 1 - i,
        {
            proof {
                if i > 0 {
                    assert(full_lengths@[norm_pos as int] < full_lengths@[norm_pos + i]);
                }
            }
            suffix_lengths.push(full_lengths[norm_pos + i] - full_lengths[norm_pos]);
            i = i + 1;
        }
        let ghost old_tokens = tokens@;
        let found = word_search(&suffix, dictionary, max_results, Some(suffix_lengths.as_slice()));
        proof {
            if found is Some {
                let res = found->0;
                let m = choose|m: int|
                    1 <= m <= suffix@.len() && res.match_len == #[trigger] length_for(suffix_lengths@, m);
                assert(suffix_lengths@[m] == full_lengths@[norm_pos + m] - orig_pos);
                assert(full_lengths@[norm_pos + m] == full_lengths@[norm_pos as int] + res.match_len);
            }
        }
        proof {
            assert(suffix_lengths@ =~= suffix_map(full_lengths@, norm_pos as int));
            assert(suffix@ =~= normalized@.subrange(norm_pos as int, normalized@.len() as int));
            assert(searched(dictionary, suffix_lengths@, max_results, suffix@, found));
        }
        let ghost found_v = found;
        let ghost old_positions = positions;
        let ghost old_outcomes = outcomes;
        let (token, k) = next_token(&orig_chars, &full_lengths, norm_pos, found);
        tokens.push(token);
        proof {
            assert(outcome_fits(full_lengths@, norm_pos as int, found_v));
            lemma_walk_push(orig_chars@, full_lengths@, old_tokens, old_positions, old_outcomes, tokens@.last(), found_v, k as int);
            assert(old_tokens.push(tokens@.last()) =~= tokens@);
            positions = old_positions.push(norm_pos + k);
            outcomes = old_outcomes.push(found_v);
            assert forall|q: int| 0 <= q < outcomes.len() implies #[trigger] searched(
                dictionary,
                suffix_map(full_lengths@, positions[q]),
                max_results,
                normalized@.subrange(positions[q], normalized@.len() as int),
                outcomes[q],
            ) by {
                if q < old_outcomes.len() {
                    assert(outcomes[q] == old_outcomes[q]);
                    assert(positions[q] == old_positions[q]);
                } else {
                    assert(outcomes[q] == found_v);
                    assert(positions[q] == norm_pos);
                }
            }
            assert(full_lengths@[norm_pos as int] <= full_lengths@[norm_pos + k]);
            assert forall|q: int| 0 <= q < tokens@.len() - 1 implies (#[trigger] tokens@[q]).end
                <= tokens@[q + 1].start by {
                if q < old_tokens.len() - 1 {
                    assert(tokens@[q] == old_tokens[q] && tokens@[q + 1] == old_tokens[q + 1]);
                } else {
                    assert(tokens@[q] == old_tokens.last());
                }
            }
            assert forall|q: int| 0 <= q < tokens@.len() implies {
                &&& (#[trigger] tokens@[q]).start <= tokens@[q].end <= text@.len()
                &&& tokens@[q].text@ == text@.subrange(tokens@[q].start as int, tokens@[q].end as int)
            } by {
                if q < old_tokens.len() {
                    assert(tokens@[q] == old_tokens[q]);
                }
            }
            assert forall|q: int|
                0 <= q < tokens@.len() && (#[trigger] tokens@[q]).dictionary_entry is None implies tokens@[q].deinflection_reasons is None by {
                if q < old_tokens.len() {
                    assert(tokens@[q] == old_tokens[q]);
                }
            }
        }
        norm_pos = norm_pos + k;
    }
    proof {
        assert(tokens_walk(text@, full_lengths@, tokens@, positions, outcomes));
        assert(outcomes_searched(dictionary, normalized@, full_lengths@, max_results, positions, outcomes));
    }
    tokens
}

/// The smaller of two integers.
pub open spec fn min_of(a: int, b: int) -> int {
    if a < b {
        a
    } else {
        b
    }
}


/// `k` normalized characters from `pos` cover a match reaching `target` in
/// the original text: the first `k` at which the map reaches `target`, or the
/// end of the text.
pub open spec fn advance_for(lengths: Seq<usize>, pos: int, target: int, k: int) -> bool {
    &&& 1 <= k
    &&& pos + k < lengths.len()
    &&& (pos + k == lengths.len() - 1 || lengths[pos + k] >= target)
    &&& forall|j: int| pos + 1 <= j < pos + k ==> #[trigger] lengths[j] < target
}

/// The token made at normalized position `pos` from what the word search
/// `found` there, and the `k` normalized characters it covers. A match gives
/// the original text it spans with the best result's entry and reasons; no
/// match gives the single original character there, with no entry.
pub open spec fn token_for(
    orig: Seq<char>,
    lengths: Seq<usize>,
    pos: int,
    found: Option<WordSearchResult>,
    t: Token,
    k: int,
) -> bool {
    let orig_pos = lengths[pos] as int;
    let start = min_of(orig_pos, orig.len() as int);
    match found {
        Some(res) => {
            let target = orig_pos + res.match_len;
            let end = min_of(target, orig.len() as int);
            &&& t.start == start
            &&& t.end == end
            &&& t.text@ == orig.subrange(start, end)
            &&& t.dictionary_entry == (if res.data@.len() > 0 {
                Some(res.data@[0].entry)
            } else {
                None
            })
            &&& t.deinflection_reasons == (if res.data@.len() > 0 {
                res.data@[0].reason_chains
            } else {
                None
            })
            &&& advance_for(lengths, pos, target, k)
        },
        None => {
            &&& t.start == start
            &&& t.end == min_of(orig_pos + 1, orig.len() as int)
            &&& t.text@ == orig.subrange(start, t.end as int)
            &&& t.dictionary_entry is None
            &&& t.deinflection_reasons is None
            &&& k == 1
        },
    }
}

/// The token at normalized position `norm_pos` given what the word search
/// found there, and how many normalized characters it covers.
pub fn next_token(
    orig_chars: &Vec<char>,
    full_lengths: &Vec<usize>,
    norm_pos: usize,
    found: Option<WordSearchResult>,
) -> (r: (Token, usize))
    requires
        norm_pos + 1 < full_lengths@.len(),
        forall|i: int, j: int|
            0 <= i < j < full_lengths@.len() ==> full_lengths@[i] < full_lengths@[j],
        found matches Some(res) ==> exists|m: int|
            1 <= m && norm_pos + m < full_lengths@.len() && #[trigger] full_lengths@[norm_pos + m]
                == full_lengths@[norm_pos as int] + res.match_len,
    ensures
        token_for(orig_chars@, full_lengths@, norm_pos as int, found, r.0, r.1 as int),
{
    let orig_len = orig_chars.len();
    let norm_len = full_lengths.len() - 1;
    let orig_pos = full_lengths[norm_pos];
    match found {
        Some(result) => {
            let ghost m = choose|m: int|
                1 <= m && norm_pos + m < full_lengths@.len() && #[trigger] full_lengths@[norm_pos + m]
                    == full_lengths@[norm_pos as int] + result.match_len;
            let target = full_lengths[norm_pos] + result.match_len;
            // Find how many normalized chars were consumed by scanning forward
            // until full_lengths[norm_pos + k] >= orig_pos + match_len.
            let mut k: usize = 1;
            while norm_pos + k < norm_len && full_lengths[norm_pos + k] < target
                invariant
                    1 <= k <= m,
                    norm_pos + m <= norm_len,
                    norm_len + 1 == full_lengths@.len(),
                    target == full_lengths@[norm_pos + m],
                    forall|j: int| norm_pos + 1 <= j < norm_pos + k ==> #[trigger] full_lengths@[j] < target,
                decreases m - k,
            {
                k = k + 1;
            }
            let start = min_usize(orig_pos, orig_len);
            let end = min_usize(target, orig_len);
            let token_chars = sub_chars(orig_chars.as_slice(), start, end);
            let token_text = string_from_chars(token_chars.as_slice());
            let mut data = result.data;
            let (dictionary_entry, deinflection_reasons) = if data.len() > 0 {
                let w = data.remove(0);
                (Some(w.entry), w.reason_chains)
            } else {
                (None, None)
            };
            (Token { text: token_text, start, end, dictionary_entry, deinflection_reasons }, k)
        },
        None => {
            // No match — the single original char at this position.
            let start = min_usize(orig_pos, orig_len);
            let end = if orig_pos < orig_len {
                orig_pos + 1
            } else {
                orig_len
            };
            let token_chars = sub_chars(orig_chars.as_slice(), start, end);
            let token_text = string_from_chars(token_chars.as_slice());
            (
                Token {
                    text: token_text,
                    start,
                    end,
                    dictionary_entry: None,
                    deinflection_reasons: None,
                },
                1,
            )
        },
    }
}

} // verus!
