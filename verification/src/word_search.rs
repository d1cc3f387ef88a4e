//! Greedy word search at the start of a text: the longest prefix (trying
//! spelling variations and deinflected forms) that the dictionary knows.

use vstd::prelude::*;
use vstd::set_lib::{lemma_int_range, lemma_subset_equality, set_int_range};

use crate::deinflect::{candidate_views, chains_view, clone_chains, deinflect, spec_deinflect, sub_chars};
use crate::dictionary::Dictionary;
use crate::error::TentokuError;
use crate::normalize::{is_position_map, normalize_input};
use crate::sorting::{is_index_perm, is_stable_sort_of, result_key, sort_word_results, sorts_before};
use crate::text::{chars_equal, string_from_chars, to_chars};
use crate::type_matching::{entry_matches_type, spec_entry_matches_type};
use crate::types::{CandidateWord, Reason, WordEntry, WordResult};
use crate::variations::{
    choon_vowel, expand_choon, first_choon, kyuujitai_to_shinjitai, spec_kyuujitai_to_shinjitai, CHOON,
};
use crate::yoon::{chars_end_in_yoon, spec_ends_in_yoon};

verus! {

/// Result of a word search at a single position in text.
pub struct WordSearchResult {
    pub data: Vec<WordResult>,
    /// Length (in `input_lengths` units) of the longest match found.
    pub match_len: usize,
    pub more: bool,
}

/// Digits (half/full-width) and common numeric punctuation.
pub open spec fn is_numeric_char(c: char) -> bool {
    let v = c as u32;
    (0x30 <= v && v <= 0x39) || (0xFF10 <= v && v <= 0xFF19) || v == 0x2C || v == 0xFF0C || v
        == 0x3001 || v == 0x2E || v == 0xFF0E || v == 0x3002
}

/// The text is non-empty and made only of digits and numeric punctuation.
pub open spec fn spec_is_only_digits(s: Seq<char>) -> bool {
    s.len() > 0 && forall|i: int| 0 <= i < s.len() ==> is_numeric_char(#[trigger] s[i])
}

fn chars_only_digits(s: &Vec<char>) -> (b: bool)
    ensures
        b == spec_is_only_digits(s@),
{
    if s.len() == 0 {
        return false;
    }
    let mut i: usize = 0;
    while i < s.len()
        invariant
            i <= s@.len(),
            forall|j: int| 0 <= j < i ==> is_numeric_char(#[trigger] s@[j]),
        decreases s@.len() - i,
    {
        let v = s[i] as u32;
        let ok = (0x30 <= v && v <= 0x39) || (0xFF10 <= v && v <= 0xFF19) || v == 0x2C || v
            == 0xFF0C || v == 0x3001 || v == 0x2E || v == 0xFF0E || v == 0x3002;
        if !ok {
            return false;
        }
        i = i + 1;
    }
    true
}

/// Returns `true` if `text` consists only of digits (half/full-width) and
/// common numeric punctuation.
pub fn is_only_digits(text: &str) -> (b: bool)
    ensures
        b == spec_is_only_digits(text@),
{
    let chars = to_chars(text);
    chars_only_digits(&chars)
}

// ---------------------------------------------------------------------------
// Turning dictionary answers into results
// ---------------------------------------------------------------------------

/// An entry found for candidate `k` is kept: deinflected candidates (all but
/// the first) must agree with the entry's part of speech, and entries found
/// at an earlier position are dropped.
pub open spec fn admitted(k: int, e: WordEntry, cand: CandidateWord, existing: Seq<i64>) -> bool {
    (k == 0 || spec_entry_matches_type(e, cand.word_type)) && !existing.contains(e.entry_id)
}

/// The kept entries among `v`, in order, tagged with the candidate index.
pub open spec fn admitted_from(
    k: int,
    v: Seq<WordEntry>,
    cand: CandidateWord,
    existing: Seq<i64>,
) -> Seq<(int, WordEntry)>
    decreases v.len(),
{
    if v.len() == 0 {
        Seq::empty()
    } else {
        let prev = admitted_from(k, v.drop_last(), cand, existing);
        if admitted(k, v.last(), cand, existing) {
            prev.push((k, v.last()))
        } else {
            prev
        }
    }
}

/// The kept entries of the first `n` answers, in candidate order.
pub open spec fn admitted_all(
    cands: Seq<CandidateWord>,
    answers: Seq<Option<Vec<WordEntry>>>,
    existing: Seq<i64>,
    n: int,
) -> Seq<(int, WordEntry)>
    decreases n,
{
    if n <= 0 {
        Seq::empty()
    } else {
        let prev = admitted_all(cands, answers, existing, n - 1);
        match answers[n - 1] {
            Some(v) => prev + admitted_from(n - 1, v@, cands[n - 1], existing),
            None => prev,
        }
    }
}

/// The reason chains of a result are those of its candidate (none when the
/// candidate has none).
pub open spec fn chains_carried(r: Option<Vec<Vec<Reason>>>, c: Vec<Vec<Reason>>) -> bool {
    if c@.len() == 0 {
        r is None
    } else {
        r is Some && chains_view(r->0@) == chains_view(c@)
    }
}

/// `pre` holds one result per kept entry, in order.
pub open spec fn results_built_from(
    pre: Seq<WordResult>,
    kept: Seq<(int, WordEntry)>,
    cands: Seq<CandidateWord>,
    input_length: usize,
) -> bool {
    &&& pre.len() == kept.len()
    &&& forall|t: int|
        0 <= t < pre.len() ==> {
            &&& (#[trigger] pre[t]).entry == kept[t].1
            &&& pre[t].match_len == input_length
            &&& chains_carried(pre[t].reason_chains, cands[kept[t].0].reason_chains)
        }
}

fn contains_id(v: &Vec<i64>, id: i64) -> (b: bool)
    ensures
        b == v@.contains(id),
{
    let mut i: usize = 0;
    while i < v.len()
        invariant
            i <= v@.len(),
            forall|j: int| 0 <= j < i ==> v@[j] != id,
        decreases v@.len() - i,
    {
        if v[i] == id {
            return true;
        }
        i = i + 1;
    }
    false
}

/// `res` is what the answers give: the entries kept from the answers to the
/// candidates become results, which are sorted and cut to `max_results`.
pub open spec fn answered_results(
    res: Seq<WordResult>,
    candidates: Seq<CandidateWord>,
    answers: Seq<Option<Vec<WordEntry>>>,
    existing: Seq<i64>,
    max_results: usize,
    input_length: usize,
) -> bool {
    exists|pre: Seq<WordResult>, full: Seq<WordResult>|
        {
            &&& results_built_from(
                pre,
                admitted_all(candidates, answers, existing, answers.len() as int),
                candidates,
                input_length,
            )
            &&& #[trigger] is_stable_sort_of(full, pre)
            &&& res == full.take(
                if max_results < full.len() {
                    max_results as int
                } else {
                    full.len() as int
                },
            )
        }
}

/// The results for the dictionary's answers to the deinflected candidates:
/// the kept entries become results, sorted, and cut to `max_results`.
pub fn candidate_results(
    candidates: &Vec<CandidateWord>,
    answers: Vec<Option<Vec<WordEntry>>>,
    existing: &Vec<i64>,
    max_results: usize,
    input_length: usize,
) -> (res: Vec<WordResult>)
    requires
        answers@.len() == candidates@.len(),
    ensures
        answered_results(res@, candidates@, answers@, existing@, max_results, input_length),
{
    let ghost orig = answers@;
    let mut answers = answers;
    let mut pre: Vec<WordResult> = Vec::new();
    let mut k: usize = 0;
    while k < candidates.len()
        invariant
            k <= candidates@.len(),
            orig.len() == candidates@.len(),
            answers@ == orig.subrange(k as int, orig.len() as int),
            results_built_from(pre@, admitted_all(candidates@, orig, existing@, k as int), candidates@, input_length),
        decreases candidates@.len() - k,
    {
        let answer = answers.remove(0);
        proof {
            assert(answer == orig[k as int]);
            assert(answers@ =~= orig.subrange(k as int + 1, orig.len() as int));
        }
        let cand = &candidates[k];
        match answer {
            Some(entries) => {
                let ghost ev = entries@;
                let ghost base = admitted_all(candidates@, orig, existing@, k as int);
                let mut entries = entries;
                let mut j: usize = 0;
                let n = entries.len();
                proof {
                    assert(ev.take(0) =~= Seq::<WordEntry>::empty());
                    assert(base + admitted_from(k as int, ev.take(0), *cand, existing@) =~= base);
                }
                while j < n
                    invariant
                        j <= n,
                        n == ev.len(),
                        k < candidates@.len(),
                        cand == &candidates@[k as int],
                        entries@ == ev.subrange(j as int, n as int),
                        base == admitted_all(candidates@, orig, existing@, k as int),
                        results_built_from(
                            pre@,
                            base + admitted_from(k as int, ev.take(j as int), *cand, existing@),
                            candidates@,
                            input_length,
                        ),
                    decreases n - j,
                {
                    let e = entries.remove(0);
                    proof {
                        assert(e == ev[j as int]);
                        assert(entries@ =~= ev.subrange(j as int + 1, n as int));
                        assert(ev.take(j as int + 1).drop_last() =~= ev.take(j as int));
                        assert(ev.take(j as int + 1).last() == e);
                    }
                    let keep = (k == 0 || entry_matches_type(&e, cand.word_type)) && !contains_id(
                        existing,
                        e.entry_id,
                    );
                    let ghost old_pre = pre@;
                    if keep {
                        let chains = if cand.reason_chains.len() == 0 {
                            None
                        } else {
                            Some(clone_chains(&cand.reason_chains))
                        };
                        pre.push(WordResult { entry: e, match_len: input_length, reason_chains: chains });
                        proof {
                            let kept = base + admitted_from(k as int, ev.take(j as int + 1), *cand, existing@);
                            assert(kept =~= (base + admitted_from(k as int, ev.take(j as int), *cand, existing@)).push((k as int, e)));
                            assert forall|t: int| 0 <= t < pre@.len() implies {
                                &&& (#[trigger] pre@[t]).entry == kept[t].1
                                &&& pre@[t].match_len == input_length
                                &&& chains_carried(pre@[t].reason_chains, candidates@[kept[t].0].reason_chains)
                            } by {
                                if t < old_pre.len() {
                                    assert(pre@[t] == old_pre[t]);
                                }
                            }
                        }
                    } else {
                        proof {
                            let kept = base + admitted_from(k as int, ev.take(j as int + 1), *cand, existing@);
                            assert(kept =~= base + admitted_from(k as int, ev.take(j as int), *cand, existing@));
                        }
                    }
                    j = j + 1;
                }
                proof {
                    assert(ev.take(n as int) =~= ev);
                }
            },
            None => {},
        }
        k = k + 1;
    }
    let ghost pre_v = pre@;
    sort_word_results(&mut pre);
    let ghost full = pre@;
    if pre.len() > max_results {
        pre.truncate(max_results);
    }
    proof {
        assert(orig.subrange(0, orig.len() as int) =~= orig);
        assert(is_stable_sort_of(full, pre_v));
        assert(pre@ =~= full.take(
            if max_results < full.len() {
                max_results as int
            } else {
                full.len() as int
            },
        ));
    }
    pre
}

/// Results sorted by key: no later result sorts strictly before an earlier one.
pub open spec fn is_sorted_results(r: Seq<WordResult>) -> bool {
    forall|a: int, b: int| 0 <= a < b < r.len() ==> !sorts_before(result_key(r[b]), result_key(r[a]))
}

/// `x` is an element of `s`.
pub open spec fn is_one_of(x: WordResult, s: Seq<WordResult>) -> bool {
    exists|t: int| 0 <= t < s.len() && s[t] == x
}

proof fn lemma_sorted_take(full: Seq<WordResult>, pre: Seq<WordResult>, n: int)
    requires
        is_stable_sort_of(full, pre),
        0 <= n <= full.len(),
    ensures
        is_sorted_results(full.take(n)),
        forall|i: int| 0 <= i < n ==> is_one_of(#[trigger] full[i], pre),
{
    let perm = choose|perm: Seq<int>|
        {
            &&& #[trigger] is_index_perm(perm, pre.len())
            &&& forall|k: int| 0 <= k < full.len() ==> full[k] == pre[perm[k]]
            &&& forall|a: int, b: int|
                0 <= a < b < full.len() ==> !sorts_before(result_key(full[b]), result_key(full[a]))
            &&& forall|a: int, b: int|
                0 <= a < b < full.len() && result_key(full[a]) == result_key(full[b]) ==> perm[a]
                    < perm[b]
        };
    assert forall|i: int| 0 <= i < n implies is_one_of(#[trigger] full[i], pre) by {
        assert(full[i] == pre[perm[i]]);
    }
}

/// The dictionary `d` answered `b` when asked whether it holds `word`.
pub open spec fn answers_contains<D: Dictionary>(d: &D, word: Seq<char>, b: bool) -> bool {
    exists|w: &str| w@ == word && #[trigger] call_ensures(D::contains_word, (d, w), b)
}

/// The dictionary `d` answered `r` when asked for up to `limit` entries of
/// `word`, with the readings to be matched against `matching`.
pub open spec fn answers_words<D: Dictionary>(
    d: &D,
    word: Seq<char>,
    limit: usize,
    matching: Seq<char>,
    r: Result<Vec<WordEntry>, TentokuError>,
) -> bool {
    exists|w: &str, m: &str|
        w@ == word && m@ == matching && #[trigger] call_ensures(D::get_words, (d, w, limit, Some(m)), r)
}

/// The entries of an answer, or nothing when it is an error.
pub open spec fn ok_entries(r: Result<Vec<WordEntry>, TentokuError>) -> Option<Vec<WordEntry>> {
    match r {
        Ok(v) => Some(v),
        Err(_) => None,
    }
}

/// How many entries each lookup asks the dictionary for.
pub open spec fn lookup_limit(max_results: usize) -> usize {
    if max_results * 3 > 20 {
        (max_results * 3) as usize
    } else {
        20
    }
}

/// `a` is what asking `d` about `word` gave: the dictionary is first asked
/// whether it holds the word, and only when it does, for up to `limit` of its
/// entries (an error counting as none).
pub open spec fn answer_from<D: Dictionary>(
    d: &D,
    word: Seq<char>,
    limit: usize,
    matching: Seq<char>,
    a: Option<Vec<WordEntry>>,
) -> bool {
    ||| answers_contains(d, word, false) && a is None
    ||| answers_contains(d, word, true) && exists|r: Result<Vec<WordEntry>, TentokuError>|
        #[trigger] answers_words(d, word, limit, matching, r) && a == ok_entries(r)
}

/// `res` is what looking up `text` in `d` gives when the entries in `have`
/// were already found: each deinflected candidate of `text` is asked of the
/// dictionary in order (readings matched against `matching`), and `res` is
/// the sorted, cut list of the entries kept from the answers.
pub open spec fn lookup_gives<D: Dictionary>(
    d: &D,
    text: Seq<char>,
    have: Seq<i64>,
    max_results: usize,
    input_length: usize,
    matching: Seq<char>,
    res: Seq<WordResult>,
) -> bool {
    exists|candidates: Seq<CandidateWord>, answers: Seq<Option<Vec<WordEntry>>>|
        {
            &&& candidate_views(candidates) == spec_deinflect(text)
            &&& answers.len() == candidates.len()
            &&& forall|k: int|
                0 <= k < answers.len() ==> #[trigger] answer_from(
                    d,
                    candidates[k].word@,
                    lookup_limit(max_results),
                    matching,
                    answers[k],
                )
            &&& #[trigger] answered_results(res, candidates, answers, have, max_results, input_length)
        }
}

/// Look up candidates for `input_text`, deinflecting as needed.
///
/// `existing_entries` prevents duplicates across iterations.
/// `input_length` is the value to store in `WordResult::match_len`.
/// `original_search_text` is used for `matching_text` (sets `match_range` on readings).
fn lookup_candidates<D: Dictionary>(
    input_text: &str,
    dictionary: &D,
    existing_entries: &Vec<i64>,
    max_results: usize,
    input_length: usize,
    original_search_text: Option<&str>,
) -> (res: Vec<WordResult>)
    requires
        max_results <= usize::MAX / 10,
    ensures
        res@.len() <= max_results,
        is_sorted_results(res@),
        forall|i: int| 0 <= i < res@.len() ==> (#[trigger] res@[i]).match_len == input_length,
        forall|i: int| 0 <= i < res@.len() ==> !existing_entries@.contains((#[trigger] res@[i]).entry.entry_id),
        lookup_gives(
            dictionary,
            input_text@,
            existing_entries@,
            max_results,
            input_length,
            match original_search_text {
                Some(t) => t@,
                None => input_text@,
            },
            res@,
        ),
{
    let matching_text = match original_search_text {
        Some(t) => t,
        None => input_text,
    };
    let candidates = deinflect(input_text);
    let lookup_max = if max_results * 3 > 20 {
        max_results * 3
    } else {
        20
    };
    let mut answers: Vec<Option<Vec<WordEntry>>> = Vec::new();
    let mut k: usize = 0;
    while k < candidates.len()
        invariant
            k <= candidates@.len(),
            answers@.len() == k,
            lookup_max == lookup_limit(max_results),
            forall|j: int|
                0 <= j < k ==> #[trigger] answer_from(
                    dictionary,
                    candidates@[j].word@,
                    lookup_max,
                    matching_text@,
                    answers@[j],
                ),
        decreases candidates@.len() - k,
    {
        let word = candidates[k].word.as_str();
        let present = dictionary.contains_word(word);
        let answer = if present {
            let r = dictionary.get_words(word, lookup_max, Some(matching_text));
            proof {
                assert(answers_words(dictionary, word@, lookup_max, matching_text@, r));
            }
            match r {
                Ok(entries) => Some(entries),
                Err(_) => None,
            }
        } else {
            None
        };
        proof {
            assert(answers_contains(dictionary, word@, present));
            assert(answer_from(dictionary, candidates@[k as int].word@, lookup_max, matching_text@, answer));
        }
        let ghost before = answers@;
        answers.push(answer);
        proof {
            assert forall|j: int| 0 <= j < k + 1 implies #[trigger] answer_from(
                dictionary,
                candidates@[j].word@,
                lookup_max,
                matching_text@,
                answers@[j],
            ) by {
                if j < k {
                    assert(answers@[j] == before[j]);
                }
            }
        }
        k = k + 1;
    }
    let ghost answers_v = answers@;
    let res = candidate_results(&candidates, answers, existing_entries, max_results, input_length);
    proof {
        let (pre, full) = choose|pre: Seq<WordResult>, full: Seq<WordResult>|
            {
                &&& results_built_from(
                    pre,
                    admitted_all(candidates@, answers_v, existing_entries@, answers_v.len() as int),
                    candidates@,
                    input_length,
                )
                &&& #[trigger] is_stable_sort_of(full, pre)
                &&& res@ == full.take(
                    if max_results < full.len() {
                        max_results as int
                    } else {
                        full.len() as int
                    },
                )
            };
        let kept = admitted_all(candidates@, answers_v, existing_entries@, answers_v.len() as int);
        lemma_admitted_all(candidates@, answers_v, existing_entries@, answers_v.len() as int);
        let n = if max_results < full.len() {
            max_results as int
        } else {
            full.len() as int
        };
        lemma_sorted_take(full, pre, n);
        assert forall|i: int| 0 <= i < res@.len() implies (#[trigger] res@[i]).match_len == input_length
            && !existing_entries@.contains(res@[i].entry.entry_id) by {
            assert(is_one_of(full[i], pre));
            let t = choose|t: int| 0 <= t < pre.len() && pre[t] == full[i];
            assert(res@[i] == full[i]);
            assert(pre[t].entry == kept[t].1);
        }
        assert(answered_results(res@, candidates@, answers_v, existing_entries@, max_results, input_length));
    }
    res
}

/// The original-text length of a prefix of `m` characters: `lengths[m]`
/// when the map has that entry, otherwise its last entry (or `m` itself).
pub open spec fn length_for(lengths: Seq<usize>, m: int) -> int {
    if m < lengths.len() {
        lengths[m] as int
    } else if lengths.len() > 0 {
        lengths.last() as int
    } else {
        m
    }
}

fn slice_to_vec(l: &[usize]) -> (v: Vec<usize>)
    ensures
        v@ == l@,
{
    let mut v: Vec<usize> = Vec::new();
    let mut i: usize = 0;
    while i < l.len()
        invariant
            i <= l@.len(),
            v@ == l@.take(i as int),
        decreases l@.len() - i,
    {
        v.push(l[i]);
        proof {
            assert(l@.take(i as int + 1) =~= l@.take(i as int).push(l@[i as int]));
        }
        i = i + 1;
    }
    proof {
        assert(l@.take(l@.len() as int) =~= l@);
    }
    v
}

// ---------------------------------------------------------------------------
// The search as a walk over shrinking prefixes
// ---------------------------------------------------------------------------

/// The texts tried for the first ー of `s`: ー replaced by each of the five
/// vowels in turn (none when `s` has no ー).
pub open spec fn spec_choon_variants(s: Seq<char>) -> Seq<Seq<char>> {
    if exists|p: int| first_choon(s, p) {
        let p = choose|p: int| first_choon(s, p);
        Seq::new(5, |k: int| s.update(p, choon_vowel(k)))
    } else {
        Seq::empty()
    }
}

/// The spellings of a prefix that are looked up, in order: the prefix itself,
/// then (while variations are still tried) its ー expansions and its
/// shinjitai form when that differs.
pub open spec fn spec_variations(s: Seq<char>, include_variants: bool) -> Seq<Seq<char>> {
    if include_variants {
        let with_choon = seq![s] + spec_choon_variants(s);
        let shin = spec_kyuujitai_to_shinjitai(s);
        if shin != s {
            with_choon.push(shin)
        } else {
            with_choon
        }
    } else {
        seq![s]
    }
}

/// The views of a list of strings.
pub open spec fn strings_view(v: Seq<String>) -> Seq<Seq<char>> {
    v.map_values(|x: String| x@)
}

/// Where the search stands before a prefix is tried.
pub struct SearchState {
    /// The prefix to try next.
    pub current: Seq<char>,
    /// Spelling variations are tried until the first match.
    pub include_variants: bool,
    /// Entry ids already found.
    pub have: Seq<i64>,
    /// Results found so far, in the order found.
    pub results: Seq<WordResult>,
    /// Longest match length so far.
    pub longest: int,
    /// The search has ended.
    pub done: bool,
}

/// The state at the start: the whole text, variations allowed, nothing found.
pub open spec fn initial_search(text: Seq<char>) -> SearchState {
    SearchState {
        current: text,
        include_variants: true,
        have: Seq::empty(),
        results: Seq::empty(),
        longest: 0,
        done: false,
    }
}

/// No further prefix is tried: the search has ended, or the prefix is empty
/// or only digits.
pub open spec fn search_stops(s: SearchState) -> bool {
    s.done || s.current.len() == 0 || spec_is_only_digits(s.current)
}

/// The state after trying the first `n` spellings `vars` of the prefix, the
/// last of which gave `found` (empty when none matched). A match replaces the
/// prefix by the spelling that matched, adds its results and ends the trying
/// of variations. The prefix then loses two characters after a yoon ending
/// and one otherwise; the search ends when there are `10 * max_results`
/// results or nothing would be left.
pub open spec fn after_stage(
    s: SearchState,
    vars: Seq<Seq<char>>,
    n: int,
    found: Seq<WordResult>,
    len: int,
    max_results: usize,
) -> SearchState {
    let hit = found.len() > 0;
    let cur = if hit {
        vars[n - 1]
    } else {
        s.current
    };
    let results = s.results + found;
    let shorten: int = if spec_ends_in_yoon(cur) {
        2
    } else {
        1
    };
    let done = results.len() >= max_results * 10 || cur.len() <= shorten;
    SearchState {
        current: if done {
            cur
        } else {
            cur.take(cur.len() - shorten)
        },
        include_variants: s.include_variants && !hit,
        have: s.have + found.map_values(|r: WordResult| r.entry.entry_id),
        results,
        longest: if hit && len > s.longest {
            len
        } else {
            s.longest
        },
        done,
    }
}

/// One stage of the search, from `s` to `s2`: the spellings of the prefix are
/// looked up in order until one gives results (`n` of them were looked up,
/// the last giving `found`), with the match length that `lengths` gives for
/// the prefix.
#[verifier::opaque]
pub open spec fn search_stage<D: Dictionary>(
    d: &D,
    lengths: Seq<usize>,
    max_results: usize,
    s: SearchState,
    n: int,
    found: Seq<WordResult>,
    s2: SearchState,
) -> bool {
    let vars = spec_variations(s.current, s.include_variants);
    let len = length_for(lengths, s.current.len() as int);
    &&& 1 <= n <= vars.len()
    &&& forall|j: int|
        0 <= j < n - 1 ==> #[trigger] lookup_gives(d, vars[j], s.have, max_results, len as usize, s.current, Seq::empty())
    &&& lookup_gives(d, vars[n - 1], s.have, max_results, len as usize, s.current, found)
    &&& found.len() == 0 ==> n == vars.len()
    &&& s2 == after_stage(s, vars, n, found, len, max_results)
}

/// `trace` is the search of `text` so far: it starts at the initial state and
/// each state that does not stop leads to the next by one stage.
#[verifier::opaque]
pub open spec fn search_prefix<D: Dictionary>(
    d: &D,
    lengths: Seq<usize>,
    max_results: usize,
    text: Seq<char>,
    trace: Seq<SearchState>,
) -> bool {
    &&& trace.len() >= 1
    &&& trace[0] == initial_search(text)
    &&& forall|i: int|
        0 <= i < trace.len() - 1 ==> !search_stops(#[trigger] trace[i]) && exists|n: int, found: Seq<WordResult>|
            #[trigger] search_stage(d, lengths, max_results, trace[i], n, found, trace[i + 1])
}

/// `trace` is a whole search of `text`: a search that has stopped.
pub open spec fn search_walk<D: Dictionary>(
    d: &D,
    lengths: Seq<usize>,
    max_results: usize,
    text: Seq<char>,
    trace: Seq<SearchState>,
) -> bool {
    search_prefix(d, lengths, max_results, text, trace) && search_stops(trace.last())
}

/// What a search that ended in `s` returns: nothing without results, and
/// otherwise the results stably sorted and cut to `max_results`, the longest
/// match length, and whether the sorted list reached `max_results`.
pub open spec fn search_answer(max_results: usize, s: SearchState, res: Option<WordSearchResult>) -> bool {
    if s.results.len() == 0 {
        res is None
    } else {
        res matches Some(r) && exists|full: Seq<WordResult>|
            {
                &&& #[trigger] is_stable_sort_of(full, s.results)
                &&& r.data@ == full.take(
                    if max_results < full.len() {
                        max_results as int
                    } else {
                        full.len() as int
                    },
                )
                &&& r.match_len as int == s.longest
                &&& r.more == (full.len() >= max_results)
            }
    }
}

/// `res` is what the search of `text` returns for some answers of the
/// dictionary, with the position map `lengths`.
pub open spec fn searched<D: Dictionary>(
    d: &D,
    lengths: Seq<usize>,
    max_results: usize,
    text: Seq<char>,
    res: Option<WordSearchResult>,
) -> bool {
    exists|trace: Seq<SearchState>|
        #[trigger] search_walk(d, lengths, max_results, text, trace) && search_answer(max_results, trace.last(), res)
}

proof fn lemma_first_choon_exists(s: Seq<char>, j: int)
    requires
        0 <= j < s.len(),
        s[j] == CHOON,
    ensures
        exists|p: int| first_choon(s, p),
    decreases j,
{
    if forall|i: int| 0 <= i < j ==> s[i] != CHOON {
        assert(first_choon(s, j));
    } else {
        let i = choose|i: int| 0 <= i < j && s[i] == CHOON;
        lemma_first_choon_exists(s, i);
    }
}

proof fn lemma_choon_variants(s: Seq<char>, r: Seq<Seq<char>>)
    requires
        (forall|j: int| 0 <= j < s.len() ==> s[j] != CHOON) ==> r.len() == 0,
        forall|p: int|
            first_choon(s, p) ==> r.len() == 5 && forall|k: int|
                0 <= k < 5 ==> #[trigger] r[k] == s.update(p, choon_vowel(k)),
    ensures
        r == spec_choon_variants(s),
{
    if exists|p: int| first_choon(s, p) {
        let p = choose|p: int| first_choon(s, p);
        assert(r =~= Seq::new(5, |k: int| s.update(p, choon_vowel(k))));
    } else {
        assert forall|j: int| 0 <= j < s.len() implies s[j] != CHOON by {
            if s[j] == CHOON {
                lemma_first_choon_exists(s, j);
            }
        }
        assert(r =~= Seq::<Seq<char>>::empty());
    }
}

/// Each element of the input of a stable sort is somewhere in its output.
proof fn lemma_sort_keeps(full: Seq<WordResult>, pre: Seq<WordResult>, i: int)
    requires
        is_stable_sort_of(full, pre),
        0 <= i < pre.len(),
    ensures
        exists|k: int| 0 <= k < full.len() && full[k] == pre[i],
{
    let perm = choose|perm: Seq<int>|
        {
            &&& #[trigger] is_index_perm(perm, pre.len())
            &&& forall|k: int| 0 <= k < full.len() ==> full[k] == pre[perm[k]]
            &&& forall|a: int, b: int|
                0 <= a < b < full.len() ==> !sorts_before(result_key(full[b]), result_key(full[a]))
            &&& forall|a: int, b: int|
                0 <= a < b < full.len() && result_key(full[a]) == result_key(full[b]) ==> perm[a]
                    < perm[b]
        };
    let n = pre.len();
    assert(perm.no_duplicates()) by {
        assert forall|a: int, b: int| 0 <= a < perm.len() && 0 <= b < perm.len() && a != b implies perm[a]
            != perm[b] by {
            if a < b {
            } else {
            }
        }
    }
    perm.unique_seq_to_set();
    lemma_int_range(0, n as int);
    assert(perm.to_set().subset_of(set_int_range(0, n as int))) by {
        assert forall|x: int| perm.to_set().contains(x) implies set_int_range(0, n as int).contains(x) by {
            assert(perm.contains(x));
            let k = choose|k: int| 0 <= k < perm.len() && perm[k] == x;
            assert(0 <= perm[k] < n);
        }
    }
    lemma_subset_equality(perm.to_set(), set_int_range(0, n as int));
    assert(set_int_range(0, n as int).contains(i));
    assert(perm.to_set().contains(i));
    assert(perm.contains(i));
    let k = choose|k: int| 0 <= k < perm.len() && perm[k] == i;
    assert(full[k] == pre[i]);
}

/// The entry ids of a list of results.
pub open spec fn result_ids(s: Seq<WordResult>) -> Seq<i64> {
    s.map_values(|r: WordResult| r.entry.entry_id)
}

proof fn lemma_variations_len(s: Seq<char>, include_variants: bool)
    ensures
        forall|k: int|
            0 <= k < spec_variations(s, include_variants).len() ==> (#[trigger] spec_variations(
                s,
                include_variants,
            )[k]).len() == s.len(),
{
    let vars = spec_variations(s, include_variants);
    if include_variants {
        let c = spec_choon_variants(s);
        assert forall|k: int| 0 <= k < c.len() implies (#[trigger] c[k]).len() == s.len() by {
            if exists|p: int| first_choon(s, p) {
                let p = choose|p: int| first_choon(s, p);
                assert(c[k] == s.update(p, choon_vowel(k)));
            }
        }
        assert forall|k: int| 0 <= k < vars.len() implies (#[trigger] vars[k]).len() == s.len() by {
            if k == 0 {
            } else if k < 1 + c.len() {
                assert(vars[k] == c[k - 1]);
            } else {
                assert(vars[k] == spec_kyuujitai_to_shinjitai(s));
            }
        }
    }
}

proof fn lemma_prefix_push<D: Dictionary>(
    d: &D,
    lengths: Seq<usize>,
    max_results: usize,
    text: Seq<char>,
    trace: Seq<SearchState>,
    n: int,
    found: Seq<WordResult>,
    s2: SearchState,
)
    requires
        search_prefix(d, lengths, max_results, text, trace),
        !search_stops(trace.last()),
        search_stage(d, lengths, max_results, trace.last(), n, found, s2),
    ensures
        search_prefix(d, lengths, max_results, text, trace.push(s2)),
        trace.push(s2).last() == s2,
{
    reveal(search_prefix);
    let t2 = trace.push(s2);
    assert(t2[0] == trace[0]);
    assert forall|i: int| 0 <= i < t2.len() - 1 implies !search_stops(#[trigger] t2[i]) && exists|
        n2: int,
        f2: Seq<WordResult>,
    | #[trigger] search_stage(d, lengths, max_results, t2[i], n2, f2, t2[i + 1]) by {
        if i < trace.len() - 1 {
            assert(t2[i] == trace[i]);
            assert(t2[i + 1] == trace[i + 1]);
        } else {
            assert(t2[i] == trace.last());
            assert(t2[i + 1] == s2);
            assert(search_stage(d, lengths, max_results, t2[i], n, found, t2[i + 1]));
        }
    }
}

/// Looks up the spellings of `current` in order until one gives results.
/// Returns how many were looked up, what the last gave, and that spelling.
fn try_spellings<D: Dictionary>(
    current: &Vec<char>,
    include_variants: bool,
    have: &Vec<i64>,
    dictionary: &D,
    max_results: usize,
    input_length: usize,
) -> (out: (usize, Vec<WordResult>, Vec<char>))
    requires
        max_results <= usize::MAX / 10,
    ensures
        ({
            let vars = spec_variations(current@, include_variants);
            let (n, found, matched) = out;
            &&& 1 <= n <= vars.len()
            &&& forall|j: int|
                0 <= j < n - 1 ==> #[trigger] lookup_gives(dictionary, vars[j], have@, max_results, input_length, current@, Seq::empty())
            &&& lookup_gives(dictionary, vars[n - 1], have@, max_results, input_length, current@, found@)
            &&& found@.len() == 0 ==> n == vars.len()
            &&& matched@ == vars[n - 1]
            &&& matched@.len() == current@.len()
            &&& found@.len() <= max_results
            &&& forall|i: int| 0 <= i < found@.len() ==> (#[trigger] found@[i]).match_len == input_length
        }),
{
    let cur_s = string_from_chars(current.as_slice());
    // Build variation list.
    let mut variations: Vec<String> = Vec::new();
    variations.push(string_from_chars(current.as_slice()));
    proof {
        assert(strings_view(variations@) =~= seq![current@]);
    }
    if include_variants {
        let choon = expand_choon(cur_s.as_str());
        proof {
            let r = strings_view(choon@);
            assert forall|p: int| first_choon(cur_s@, p) implies r.len() == 5 && forall|k: int|
                0 <= k < 5 ==> #[trigger] r[k] == cur_s@.update(p, choon_vowel(k)) by {
                assert forall|k: int| 0 <= k < 5 implies #[trigger] r[k] == cur_s@.update(
                    p,
                    choon_vowel(k),
                ) by {
                    assert(choon@[k]@ == cur_s@.update(p, choon_vowel(k)));
                }
            }
            lemma_choon_variants(cur_s@, r);
        }
        let mut t: usize = 0;
        while t < choon.len()
            invariant
                t <= choon@.len(),
                strings_view(variations@) == seq![current@] + strings_view(choon@).take(t as int),
            decreases choon@.len() - t,
        {
            let c = to_chars(choon[t].as_str());
            let ghost before = variations@;
            variations.push(string_from_chars(c.as_slice()));
            proof {
                assert(strings_view(choon@).take(t as int + 1) =~= strings_view(choon@).take(
                    t as int,
                ).push(choon@[t as int]@));
                assert(strings_view(variations@) =~= strings_view(before).push(choon@[t as int]@));
            }
            t = t + 1;
        }
        proof {
            assert(strings_view(choon@).take(choon@.len() as int) =~= strings_view(choon@));
        }
        let new_form = kyuujitai_to_shinjitai(cur_s.as_str());
        let nf = to_chars(new_form.as_str());
        let ghost before = variations@;
        if !chars_equal(nf.as_slice(), current.as_slice()) {
            variations.push(new_form);
            proof {
                assert(strings_view(variations@) =~= strings_view(before).push(nf@));
            }
        }
    }
    let ghost vars = spec_variations(current@, include_variants);
    proof {
        assert(strings_view(variations@) =~= vars);
        lemma_variations_len(current@, include_variants);
    }
    let mut found_res: Vec<WordResult> = Vec::new();
    let mut found = false;
    let mut v: usize = 0;
    while v < variations.len() && !found
        invariant
            v <= variations@.len(),
            variations@.len() >= 1,
            strings_view(variations@) == vars,
            cur_s@ == current@,
            max_results <= usize::MAX / 10,
            forall|j: int|
                0 <= j < (if found {
                    v - 1
                } else {
                    v as int
                }) ==> #[trigger] lookup_gives(dictionary, vars[j], have@, max_results, input_length, current@, Seq::empty()),
            found ==> v >= 1 && found_res@.len() > 0 && lookup_gives(
                dictionary,
                vars[v - 1],
                have@,
                max_results,
                input_length,
                current@,
                found_res@,
            ),
            !found ==> found_res@.len() == 0,
            found_res@.len() <= max_results,
            forall|i: int|
                0 <= i < found_res@.len() ==> (#[trigger] found_res@[i]).match_len == input_length,
        decreases variations@.len() - v,
    {
        let word_results = lookup_candidates(
            variations[v].as_str(),
            dictionary,
            have,
            max_results,
            input_length,
            Some(cur_s.as_str()),
        );
        proof {
            assert(variations@[v as int]@ == vars[v as int]);
        }
        if word_results.len() > 0 {
            found_res = word_results;
            found = true;
        } else {
            proof {
                assert(word_results@ =~= Seq::<WordResult>::empty());
            }
        }
        v = v + 1;
    }
    let matched = to_chars(variations[v - 1].as_str());
    proof {
        if !found {
            assert(found_res@ =~= Seq::<WordResult>::empty());
            assert(lookup_gives(dictionary, vars[v - 1], have@, max_results, input_length, current@, Seq::empty()));
        }
        assert(1 <= v <= vars.len());
        assert(matched@ == vars[v - 1]);
        assert(matched@.len() == current@.len());
        assert(found_res@.len() == 0 ==> v == vars.len());
        assert(lookup_gives(dictionary, vars[v - 1], have@, max_results, input_length, current@, found_res@));
    }
    (v, found_res, matched)
}

/// Search for words starting at the beginning of `input_text`.
///
/// `input_lengths` maps char positions in `input_text` to char positions in the
/// original (pre-normalization) text. Pass `None` to compute it internally.
///
/// Starting from the whole text, each prefix (with its spelling variations,
/// until one of them matches) is deinflected and looked up; the prefix is then
/// shortened by one character, or two after a yoon ending. The result holds the
/// best `max_results` matches in sorted order and the longest match length.
/// Every candidate word is first asked of `dictionary` with `contains_word`,
/// and only when present with `get_words`, for `max(3 * max_results, 20)`
/// entries matched against the prefix being tried; the result is the walk
/// over the answers these calls gave.
#[verifier::rlimit(40)]
pub fn word_search<D: Dictionary>(
    input_text: &str,
    dictionary: &D,
    max_results: usize,
    input_lengths: Option<&[usize]>,
) -> (res: Option<WordSearchResult>)
    requires
        max_results <= usize::MAX / 10,
    ensures
        exists|lengths: Seq<usize>|
            {
                &&& (input_lengths matches Some(l) ==> lengths == l@)
                &&& (input_lengths is None ==> is_position_map(input_text@, lengths))
                &&& #[trigger] searched(dictionary, lengths, max_results, input_text@, res)
            },
        input_text@.len() == 0 ==> res is None,
        spec_is_only_digits(input_text@) ==> res is None,
        res matches Some(r) ==> {
            &&& 1 <= r.data@.len() <= max_results
            &&& is_sorted_results(r.data@)
            &&& r.data@[0].match_len == r.match_len
            &&& forall|i: int| 0 <= i < r.data@.len() ==> (#[trigger] r.data@[i]).match_len <= r.match_len
            &&& r.more <==> r.data@.len() == max_results
            &&& input_lengths matches Some(l) ==> exists|m: int|
                1 <= m <= input_text@.len() && r.match_len == #[trigger] length_for(l@, m)
        },
{
    let lengths: Vec<usize> = match input_lengths {
        Some(l) => slice_to_vec(l),
        None => {
            let (_normalized, computed) = normalize_input(input_text);
            computed
        },
    };
    let mut current: Vec<char> = to_chars(input_text);
    let mut longest: usize = 0;
    let mut have: Vec<i64> = Vec::new();
    let mut results: Vec<WordResult> = Vec::new();
    let mut include_variants = true;
    let ghost mut trace: Seq<SearchState> = seq![initial_search(input_text@)];
    proof {
        assert(have@ =~= Seq::<i64>::empty());
        assert(results@ =~= Seq::<WordResult>::empty());
        assert(search_prefix(dictionary, lengths@, max_results, input_text@, trace)) by {
            reveal(search_prefix);
        }
    }
    while current.len() > 0
        invariant_except_break
            results@.len() <= max_results * 10,
            !trace.last().done,
        invariant
            max_results <= usize::MAX / 10,
            input_lengths matches Some(l) ==> lengths@ == l@,
            input_lengths is None ==> is_position_map(input_text@, lengths@),
            search_prefix(dictionary, lengths@, max_results, input_text@, trace),
            current@ == trace.last().current,
            include_variants == trace.last().include_variants,
            have@ == trace.last().have,
            results@ == trace.last().results,
            longest as int == trace.last().longest,
            current@.len() <= input_text@.len(),
            spec_is_only_digits(input_text@) ==> current@ == input_text@ && results@.len() == 0,
            input_text@.len() == 0 ==> results@.len() == 0,
            results@.len() == 0 ==> longest == 0,
            results@.len() > 0 ==> max_results >= 1 && exists|m: int|
                1 <= m <= input_text@.len() && longest == #[trigger] length_for(lengths@, m),
            results@.len() > 0 ==> exists|i: int|
                0 <= i < results@.len() && (#[trigger] results@[i]).match_len == longest,
            forall|i: int| 0 <= i < results@.len() ==> (#[trigger] results@[i]).match_len <= longest,
        ensures
            search_stops(trace.last()),
        decreases current@.len(),
    {
        if chars_only_digits(&current) {
            break;
        }
        let ghost st = trace.last();
        let char_count = current.len();
        let current_input_length = if char_count < lengths.len() {
            lengths[char_count]
        } else if lengths.len() > 0 {
            lengths[lengths.len() - 1]
        } else {
            char_count
        };
        let ghost len = length_for(lengths@, char_count as int);
        proof {
            assert(current_input_length as int == len);
            assert(len as usize == current_input_length);
        }
        let ghost vars = spec_variations(st.current, st.include_variants);
        let (v, mut found_res, matched) = try_spellings(
            &current,
            include_variants,
            &have,
            dictionary,
            max_results,
            current_input_length,
        );
        let found = found_res.len() > 0;
        let ghost fres = found_res@;
        let ghost n = v as int;
        let ghost st2 = after_stage(st, vars, n, fres, len, max_results);
        proof {
            assert(search_stage(dictionary, lengths@, max_results, st, n, fres, st2)) by {
                reveal(search_stage);
            }
        }
        if found {
            let ghost have0 = have@;
            let mut q: usize = 0;
            while q < found_res.len()
                invariant
                    q <= found_res@.len(),
                    have@ == have0 + result_ids(found_res@.take(q as int)),
                decreases found_res@.len() - q,
            {
                have.push(found_res[q].entry.entry_id);
                proof {
                    assert(result_ids(found_res@.take(q as int + 1)) =~= result_ids(
                        found_res@.take(q as int),
                    ).push(found_res@[q as int].entry.entry_id));
                }
                q = q + 1;
            }
            proof {
                assert(found_res@.take(found_res@.len() as int) =~= found_res@);
            }
            let ghost old_longest = longest;
            if current_input_length > longest {
                longest = current_input_length;
            }
            let ghost old_results = results@;
            results.append(&mut found_res);
            current = matched;
            include_variants = false;
            proof {
                assert(results@ =~= old_results + fres);
                assert(current@ == vars[n - 1]);
                assert forall|i: int| 0 <= i < results@.len() implies (#[trigger] results@[i]).match_len
                    <= longest by {
                    if i < old_results.len() {
                        assert(results@[i] == old_results[i]);
                    } else {
                        assert(results@[i] == fres[i - old_results.len()]);
                    }
                }
                if current_input_length >= old_longest {
                    assert(results@[old_results.len() as int] == fres[0]);
                    assert(results@[old_results.len() as int].match_len == longest);
                } else {
                    let i = choose|i: int|
                        0 <= i < old_results.len() && (#[trigger] old_results[i]).match_len == old_longest;
                    assert(results@[i] == old_results[i]);
                }
                assert(1 <= char_count as int <= input_text@.len() && longest == length_for(
                    lengths@,
                    char_count as int,
                ) || exists|m: int| 1 <= m <= input_text@.len() && longest == #[trigger] length_for(lengths@, m));
            }
        } else {
            proof {
                assert(results@ =~= results@ + fres);
                assert(have@ =~= have@ + result_ids(fres));
            }
        }
        proof {
            lemma_prefix_push(dictionary, lengths@, max_results, input_text@, trace, n, fres, st2);
            trace = trace.push(st2);
        }
        if results.len() >= max_results * 10 {
            break;
        }
        // Shorten by 2 chars for yoon endings, otherwise 1.
        let shorten: usize = if chars_end_in_yoon(&current) {
            2
        } else {
            1
        };
        if current.len() <= shorten {
            break;
        }
        current = sub_chars(current.as_slice(), 0, current.len() - shorten);
    }
    let ghost fin = trace.last();
    proof {
        assert(search_walk(dictionary, lengths@, max_results, input_text@, trace));
    }
    if results.len() == 0 {
        proof {
            assert(searched(dictionary, lengths@, max_results, input_text@, None));
        }
        return None;
    }
    let ghost unsorted = results@;
    sort_word_results(&mut results);
    let ghost full = results@;
    let more = results.len() >= max_results;
    if results.len() > max_results {
        results.truncate(max_results);
    }
    proof {
        let n = results@.len() as int;
        assert(results@ =~= full.take(n));
        lemma_sorted_take(full, unsorted, n);
        assert forall|i: int| 0 <= i < results@.len() implies (#[trigger] results@[i]).match_len <= longest by {
            assert(results@[i] == full[i]);
            assert(is_one_of(full[i], unsorted));
        }
        let w = choose|i: int| 0 <= i < unsorted.len() && (#[trigger] unsorted[i]).match_len == longest;
        lemma_sort_keeps(full, unsorted, w);
        let k = choose|k: int| 0 <= k < full.len() && full[k] == unsorted[w];
        if k > 0 {
            assert(!sorts_before(result_key(full[k]), result_key(full[0])));
        }
        assert(results@[0] == full[0]);
    }
    let res = Some(WordSearchResult { data: results, match_len: longest, more });
    proof {
        assert(search_answer(max_results, fin, res));
        assert(searched(dictionary, lengths@, max_results, input_text@, res));
    }
    res
}

proof fn lemma_stage_facts<D: Dictionary>(
    d: &D,
    lengths: Seq<usize>,
    max_results: usize,
    s: SearchState,
    n: int,
    found: Seq<WordResult>,
    s2: SearchState,
)
    requires
        search_stage(d, lengths, max_results, s, n, found, s2),
    ensures
        s2.results == s.results + found,
        s2.current.len() <= s.current.len(),
        !s2.done ==> s2.current.len() < s.current.len(),
        found.len() == 0 ==> s2.current == s.current.take(s2.current.len() as int),
        s2.longest == (if found.len() > 0 && length_for(lengths, s.current.len() as int) > s.longest {
            length_for(lengths, s.current.len() as int)
        } else {
            s.longest
        }),
{
    reveal(search_stage);
    lemma_variations_len(s.current, s.include_variants);
    let vars = spec_variations(s.current, s.include_variants);
    assert(vars[n - 1].len() == s.current.len());
}

pub(crate) proof fn lemma_walk_stage<D: Dictionary>(d: &D, lengths: Seq<usize>, max_results: usize, text: Seq<char>, trace: Seq<SearchState>, k: int)
    requires
        search_prefix(d, lengths, max_results, text, trace),
        0 <= k < trace.len() - 1,
    ensures
        !search_stops(trace[k]),
        exists|n: int, found: Seq<WordResult>| #[trigger] search_stage(d, lengths, max_results, trace[k], n, found, trace[k + 1]),
{
    reveal(search_prefix);
    assert(!search_stops(trace[k]) && exists|n: int, found: Seq<WordResult>|
        #[trigger] search_stage(d, lengths, max_results, trace[k], n, found, trace[k + 1]));
}

/// Once a prefix of `m0` characters has matched with length `l`, the
/// shorter prefixes after it cannot raise the match length.
proof fn lemma_after_hit<D: Dictionary>(
    d: &D,
    lengths: Seq<usize>,
    max_results: usize,
    text: Seq<char>,
    trace: Seq<SearchState>,
    k: int,
    l: int,
    m0: int,
)
    requires
        search_prefix(d, lengths, max_results, text, trace),
        forall|a: int, b: int| 0 <= a < b < lengths.len() ==> lengths[a] < lengths[b],
        0 <= k < trace.len(),
        0 <= m0 < lengths.len(),
        l == length_for(lengths, m0),
        trace[k].longest == l,
        k < trace.len() - 1 ==> trace[k].current.len() < m0,
    ensures
        trace.last().longest == l,
    decreases trace.len() - k,
{
    if k < trace.len() - 1 {
        lemma_walk_stage(d, lengths, max_results, text, trace, k);
        let (n, found) = choose|n: int, found: Seq<WordResult>|
            #[trigger] search_stage(d, lengths, max_results, trace[k], n, found, trace[k + 1]);
        lemma_stage_facts(d, lengths, max_results, trace[k], n, found, trace[k + 1]);
        let m = trace[k].current.len() as int;
        assert(lengths[m] < lengths[m0]);
        if k + 1 < trace.len() - 1 {
            lemma_walk_stage(d, lengths, max_results, text, trace, k + 1);
        }
        lemma_after_hit(d, lengths, max_results, text, trace, k + 1, l, m0);
    }
}

/// Before any match the prefix tried is a prefix of the text; some stage is
/// the first to match, and its prefix gives the final match length.
proof fn lemma_first_hit<D: Dictionary>(
    d: &D,
    lengths: Seq<usize>,
    max_results: usize,
    text: Seq<char>,
    trace: Seq<SearchState>,
    k: int,
)
    requires
        search_prefix(d, lengths, max_results, text, trace),
        lengths.len() == text.len() + 1,
        forall|a: int, b: int| 0 <= a < b < lengths.len() ==> lengths[a] < lengths[b],
        0 <= k < trace.len(),
        trace[k].results.len() == 0,
        trace[k].longest == 0,
        trace[k].current.len() <= text.len(),
        trace[k].current == text.take(trace[k].current.len() as int),
        trace.last().results.len() > 0,
    ensures
        exists|i: int|
            {
                &&& k <= i < trace.len() - 1
                &&& trace[i].current == text.take(trace[i].current.len() as int)
                &&& trace[i].results.len() == 0
                &&& #[trigger] trace[i + 1].results.len() > 0
                &&& trace.last().longest == length_for(lengths, trace[i].current.len() as int)
            },
    decreases trace.len() - k,
{
    lemma_walk_stage(d, lengths, max_results, text, trace, k);
    let (n, found) = choose|n: int, found: Seq<WordResult>|
        #[trigger] search_stage(d, lengths, max_results, trace[k], n, found, trace[k + 1]);
    lemma_stage_facts(d, lengths, max_results, trace[k], n, found, trace[k + 1]);
    let m = trace[k].current.len() as int;
    if found.len() == 0 {
        assert(trace[k + 1].results =~= trace[k].results);
        let m2 = trace[k + 1].current.len() as int;
        assert(text.take(m).take(m2) =~= text.take(m2));
        lemma_first_hit(d, lengths, max_results, text, trace, k + 1);
    } else {
        assert(trace[k + 1].results.len() > 0);
        let l = length_for(lengths, m);
        if k + 1 < trace.len() - 1 {
            lemma_walk_stage(d, lengths, max_results, text, trace, k + 1);
        }
        lemma_after_hit(d, lengths, max_results, text, trace, k + 1, l, m);
        assert(trace[k + 1].results.len() > 0);
    }
}

/// Greedy longest match: with a position map that grows along the text, a
/// search that finds something takes its match length from the longest
/// prefix of the text at which a lookup gave results; the lookups of all
/// longer prefixes gave none.
pub proof fn lemma_greedy_longest_match<D: Dictionary>(
    d: &D,
    lengths: Seq<usize>,
    max_results: usize,
    text: Seq<char>,
    trace: Seq<SearchState>,
    res: Option<WordSearchResult>,
)
    requires
        lengths.len() == text.len() + 1,
        forall|a: int, b: int| 0 <= a < b < lengths.len() ==> lengths[a] < lengths[b],
        search_walk(d, lengths, max_results, text, trace),
        search_answer(max_results, trace.last(), res),
        res is Some,
    ensures
        exists|i: int|
            {
                &&& 0 <= i < trace.len() - 1
                &&& trace[i].current == text.take(trace[i].current.len() as int)
                &&& trace[i].results.len() == 0
                &&& #[trigger] trace[i + 1].results.len() > 0
                &&& res->0.match_len == length_for(lengths, trace[i].current.len() as int)
            },
{
    assert(trace.len() >= 1 && trace[0] == initial_search(text)) by {
        reveal(search_prefix);
    }
    assert(text.take(text.len() as int) =~= text);
    lemma_first_hit(d, lengths, max_results, text, trace, 0);
}

/// A search of an empty or digit-only text asks the dictionary nothing: its
/// walk has no stage, so no lookup is made.
pub proof fn lemma_no_lookup_without_words<D: Dictionary>(
    d: &D,
    lengths: Seq<usize>,
    max_results: usize,
    text: Seq<char>,
    trace: Seq<SearchState>,
)
    requires
        search_walk(d, lengths, max_results, text, trace),
        text.len() == 0 || spec_is_only_digits(text),
    ensures
        trace.len() == 1,
{
    reveal(search_prefix);
    if trace.len() > 1 {
        assert(!search_stops(trace[0]));
    }
}

proof fn lemma_admitted_from(k: int, v: Seq<WordEntry>, cand: CandidateWord, existing: Seq<i64>)
    ensures
        forall|t: int|
            0 <= t < admitted_from(k, v, cand, existing).len() ==> !existing.contains(
                (#[trigger] admitted_from(k, v, cand, existing)[t]).1.entry_id,
            ),
    decreases v.len(),
{
    if v.len() > 0 {
        lemma_admitted_from(k, v.drop_last(), cand, existing);
        let prev = admitted_from(k, v.drop_last(), cand, existing);
        if admitted(k, v.last(), cand, existing) {
            assert forall|t: int| 0 <= t < prev.push((k, v.last())).len() implies !existing.contains(
                (#[trigger] prev.push((k, v.last()))[t]).1.entry_id,
            ) by {
                if t < prev.len() {
                    assert(prev.push((k, v.last()))[t] == prev[t]);
                }
            }
        }
    }
}

proof fn lemma_admitted_from_origin(k: int, v: Seq<WordEntry>, cand: CandidateWord, existing: Seq<i64>)
    ensures
        forall|t: int|
            0 <= t < admitted_from(k, v, cand, existing).len() ==> {
                let x = #[trigger] admitted_from(k, v, cand, existing)[t];
                &&& x.0 == k
                &&& v.contains(x.1)
                &&& admitted(k, x.1, cand, existing)
            },
    decreases v.len(),
{
    if v.len() > 0 {
        lemma_admitted_from_origin(k, v.drop_last(), cand, existing);
        let prev = admitted_from(k, v.drop_last(), cand, existing);
        let cur = admitted_from(k, v, cand, existing);
        assert forall|t: int| 0 <= t < cur.len() implies {
            let x = #[trigger] cur[t];
            &&& x.0 == k
            &&& v.contains(x.1)
            &&& admitted(k, x.1, cand, existing)
        } by {
            if t < prev.len() {
                assert(cur[t] == prev[t]);
                let j = choose|j: int| 0 <= j < v.drop_last().len() && v.drop_last()[j] == prev[t].1;
                assert(v[j] == prev[t].1);
            } else {
                assert(cur[t] == (k, v.last()));
                assert(v[v.len() - 1] == v.last());
            }
        }
    }
}

proof fn lemma_admitted_all_origin(
    cands: Seq<CandidateWord>,
    answers: Seq<Option<Vec<WordEntry>>>,
    existing: Seq<i64>,
    n: int,
)
    requires
        n <= answers.len(),
    ensures
        forall|t: int|
            0 <= t < admitted_all(cands, answers, existing, n).len() ==> {
                let x = #[trigger] admitted_all(cands, answers, existing, n)[t];
                &&& 0 <= x.0 < n
                &&& answers[x.0] is Some
                &&& answers[x.0]->0@.contains(x.1)
                &&& admitted(x.0, x.1, cands[x.0], existing)
            },
    decreases n,
{
    if n > 0 {
        lemma_admitted_all_origin(cands, answers, existing, n - 1);
        let prev = admitted_all(cands, answers, existing, n - 1);
        match answers[n - 1] {
            Some(v) => {
                lemma_admitted_from_origin(n - 1, v@, cands[n - 1], existing);
                let add = admitted_from(n - 1, v@, cands[n - 1], existing);
                let all = admitted_all(cands, answers, existing, n);
                assert(all == prev + add);
                assert forall|t: int| 0 <= t < all.len() implies {
                    let x = #[trigger] all[t];
                    &&& 0 <= x.0 < n
                    &&& answers[x.0] is Some
                    &&& answers[x.0]->0@.contains(x.1)
                    &&& admitted(x.0, x.1, cands[x.0], existing)
                } by {
                    if t < prev.len() {
                        assert(all[t] == prev[t]);
                    } else {
                        assert(all[t] == add[t - prev.len()]);
                    }
                }
            },
            None => {},
        }
    }
}

/// Every result kept from the dictionary's answers comes from one of the
/// candidates: its entry is among the entries answered for that candidate,
/// it was not found before, and unless the candidate is the looked-up text
/// itself (the first candidate), the entry's part of speech agrees with the
/// candidate's word type.
pub proof fn lemma_answered_results_origin(
    res: Seq<WordResult>,
    candidates: Seq<CandidateWord>,
    answers: Seq<Option<Vec<WordEntry>>>,
    existing: Seq<i64>,
    max_results: usize,
    input_length: usize,
)
    requires
        answered_results(res, candidates, answers, existing, max_results, input_length),
    ensures
        forall|i: int|
            #![trigger res[i]]
            0 <= i < res.len() ==> exists|k: int|
                {
                    &&& 0 <= k < answers.len()
                    &&& #[trigger] answers[k] is Some
                    &&& answers[k]->0@.contains(res[i].entry)
                    &&& !existing.contains(res[i].entry.entry_id)
                    &&& (k > 0 ==> spec_entry_matches_type(res[i].entry, candidates[k].word_type))
                },
{
    let (pre, full) = choose|pre: Seq<WordResult>, full: Seq<WordResult>|
        {
            &&& results_built_from(
                pre,
                admitted_all(candidates, answers, existing, answers.len() as int),
                candidates,
                input_length,
            )
            &&& #[trigger] is_stable_sort_of(full, pre)
            &&& res == full.take(
                if max_results < full.len() {
                    max_results as int
                } else {
                    full.len() as int
                },
            )
        };
    let kept = admitted_all(candidates, answers, existing, answers.len() as int);
    lemma_admitted_all_origin(candidates, answers, existing, answers.len() as int);
    let n = res.len() as int;
    lemma_sorted_take(full, pre, n);
    assert forall|i: int| #![trigger res[i]] 0 <= i < res.len() implies exists|k: int|
        {
            &&& 0 <= k < answers.len()
            &&& #[trigger] answers[k] is Some
            &&& answers[k]->0@.contains(res[i].entry)
            &&& !existing.contains(res[i].entry.entry_id)
            &&& (k > 0 ==> spec_entry_matches_type(res[i].entry, candidates[k].word_type))
        } by {
        assert(res[i] == full[i]);
        assert(is_one_of(full[i], pre));
        let t = choose|t: int| 0 <= t < pre.len() && pre[t] == full[i];
        assert(pre[t].entry == kept[t].1);
        let x = kept[t];
        assert(answers[x.0] is Some);
    }
}

/// `x` is a result that looking some text up in `d` can give: an entry the
/// dictionary returned for one of that text's deinflected candidates, whose
/// part of speech agrees with the candidate's word type unless the candidate
/// is the text itself.
pub open spec fn from_typed_lookup<D: Dictionary>(d: &D, max_results: usize, x: WordResult) -> bool {
    exists|t: Seq<char>, k: int, m: Seq<char>, r: Result<Vec<WordEntry>, TentokuError>|
        {
            &&& 0 <= k < spec_deinflect(t).len()
            &&& (k > 0 ==> spec_entry_matches_type(x.entry, spec_deinflect(t)[k].1))
            &&& #[trigger] answers_words(d, spec_deinflect(t)[k].0, lookup_limit(max_results), m, r)
            &&& r matches Ok(v) && v@.contains(x.entry)
        }
}

/// Every result of a lookup is an entry the dictionary gave for a candidate
/// of the looked-up text, of a part of speech that agrees with the
/// candidate's type when the candidate is a deinflected form, and not one
/// found before.
pub proof fn lemma_lookup_origin<D: Dictionary>(
    d: &D,
    text: Seq<char>,
    have: Seq<i64>,
    max_results: usize,
    input_length: usize,
    matching: Seq<char>,
    res: Seq<WordResult>,
)
    requires
        lookup_gives(d, text, have, max_results, input_length, matching, res),
    ensures
        forall|i: int|
            0 <= i < res.len() ==> from_typed_lookup(d, max_results, #[trigger] res[i]) && !have.contains(
                res[i].entry.entry_id,
            ),
{
    let (cands, answers) = choose|candidates: Seq<CandidateWord>, answers: Seq<Option<Vec<WordEntry>>>|
        {
            &&& candidate_views(candidates) == spec_deinflect(text)
            &&& answers.len() == candidates.len()
            &&& forall|k: int|
                0 <= k < answers.len() ==> #[trigger] answer_from(
                    d,
                    candidates[k].word@,
                    lookup_limit(max_results),
                    matching,
                    answers[k],
                )
            &&& #[trigger] answered_results(res, candidates, answers, have, max_results, input_length)
        };
    lemma_answered_results_origin(res, cands, answers, have, max_results, input_length);
    assert(cands.len() == candidate_views(cands).len());
    assert forall|i: int| 0 <= i < res.len() implies from_typed_lookup(d, max_results, #[trigger] res[i])
        && !have.contains(res[i].entry.entry_id) by {
        let k = choose|k: int|
            {
                &&& 0 <= k < answers.len()
                &&& #[trigger] answers[k] is Some
                &&& answers[k]->0@.contains(res[i].entry)
                &&& !have.contains(res[i].entry.entry_id)
                &&& (k > 0 ==> spec_entry_matches_type(res[i].entry, cands[k].word_type))
            };
        let lim = lookup_limit(max_results);
        assert(answer_from(d, cands[k].word@, lim, matching, answers[k]));
        assert(candidate_views(cands)[k] == spec_deinflect(text)[k]);
        let r = choose|r: Result<Vec<WordEntry>, TentokuError>|
            #[trigger] answers_words(d, cands[k].word@, lim, matching, r) && answers[k] == ok_entries(r);
        assert(answers_words(d, spec_deinflect(text)[k].0, lim, matching, r));
    }
}

proof fn lemma_trace_results_typed<D: Dictionary>(
    d: &D,
    lengths: Seq<usize>,
    max_results: usize,
    text: Seq<char>,
    trace: Seq<SearchState>,
    j: int,
)
    requires
        search_prefix(d, lengths, max_results, text, trace),
        0 <= j < trace.len(),
    ensures
        forall|i: int|
            0 <= i < trace[j].results.len() ==> from_typed_lookup(d, max_results, #[trigger] trace[j].results[i]),
    decreases j,
{
    if j == 0 {
        reveal(search_prefix);
        assert(trace[0] == initial_search(text));
    } else {
        lemma_trace_results_typed(d, lengths, max_results, text, trace, j - 1);
        lemma_walk_stage(d, lengths, max_results, text, trace, j - 1);
        let (n, found) = choose|n: int, found: Seq<WordResult>|
            #[trigger] search_stage(d, lengths, max_results, trace[j - 1], n, found, trace[j]);
        let s = trace[j - 1];
        let vars = spec_variations(s.current, s.include_variants);
        let len = length_for(lengths, s.current.len() as int);
        assert(lookup_gives(d, vars[n - 1], s.have, max_results, len as usize, s.current, found)
            && trace[j] == after_stage(s, vars, n, found, len, max_results)) by {
            reveal(search_stage);
        }
        lemma_lookup_origin(d, vars[n - 1], s.have, max_results, len as usize, s.current, found);
        let all = s.results + found;
        assert(trace[j].results == all);
        assert forall|i: int| 0 <= i < all.len() implies from_typed_lookup(d, max_results, #[trigger] all[i]) by {
            if i < s.results.len() {
                assert(all[i] == s.results[i]);
            } else {
                assert(all[i] == found[i - s.results.len()]);
            }
        }
    }
}

/// Every result the word search returns is an entry the dictionary gave for
/// a candidate of some text it looked up; a result from a deinflected
/// candidate has a part of speech that agrees with the candidate's type.
pub proof fn lemma_search_results_typed<D: Dictionary>(
    d: &D,
    lengths: Seq<usize>,
    max_results: usize,
    text: Seq<char>,
    res: Option<WordSearchResult>,
)
    requires
        searched(d, lengths, max_results, text, res),
    ensures
        res matches Some(r) ==> forall|i: int|
            0 <= i < r.data@.len() ==> from_typed_lookup(d, max_results, #[trigger] r.data@[i]),
{
    let trace = choose|trace: Seq<SearchState>|
        #[trigger] search_walk(d, lengths, max_results, text, trace) && search_answer(max_results, trace.last(), res);
    assert(trace.len() >= 1) by {
        reveal(search_prefix);
    }
    lemma_trace_results_typed(d, lengths, max_results, text, trace, trace.len() - 1);
    let last = trace.last();
    if res is Some && last.results.len() > 0 {
        let r = res->0;
        let full = choose|full: Seq<WordResult>|
            {
                &&& #[trigger] is_stable_sort_of(full, last.results)
                &&& r.data@ == full.take(
                    if max_results < full.len() {
                        max_results as int
                    } else {
                        full.len() as int
                    },
                )
                &&& r.match_len as int == last.longest
                &&& r.more == (full.len() >= max_results)
            };
        let n = r.data@.len() as int;
        lemma_sorted_take(full, last.results, n);
        assert forall|i: int| 0 <= i < r.data@.len() implies from_typed_lookup(d, max_results, #[trigger] r.data@[i]) by {
            assert(r.data@[i] == full[i]);
            assert(is_one_of(full[i], last.results));
            let t = choose|t: int| 0 <= t < last.results.len() && last.results[t] == full[i];
            assert(from_typed_lookup(d, max_results, last.results[t]));
        }
    }
}

proof fn lemma_admitted_all(
    cands: Seq<CandidateWord>,
    answers: Seq<Option<Vec<WordEntry>>>,
    existing: Seq<i64>,
    n: int,
)
    ensures
        forall|t: int|
            0 <= t < admitted_all(cands, answers, existing, n).len() ==> !existing.contains(
                (#[trigger] admitted_all(cands, answers, existing, n)[t]).1.entry_id,
            ),
    decreases n,
{
    if n > 0 {
        lemma_admitted_all(cands, answers, existing, n - 1);
        match answers[n - 1] {
            Some(v) => {
                lemma_admitted_from(n - 1, v@, cands[n - 1], existing);
                let prev = admitted_all(cands, answers, existing, n - 1);
                let add = admitted_from(n - 1, v@, cands[n - 1], existing);
                assert(admitted_all(cands, answers, existing, n) == prev + add);
                assert forall|t: int| 0 <= t < (prev + add).len() implies !existing.contains(
                    (#[trigger] (prev + add)[t]).1.entry_id,
                ) by {
                    if t >= prev.len() {
                        assert((prev + add)[t] == add[t - prev.len()]);
                    } else {
                        assert((prev + add)[t] == prev[t]);
                    }
                }
            },
            None => {
                assert(admitted_all(cands, answers, existing, n) == admitted_all(cands, answers, existing, n - 1));
            },
        }
    }
}

} // verus!
