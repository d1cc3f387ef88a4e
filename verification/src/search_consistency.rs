//! A search is determined by what the dictionary answers: with a dictionary
//! that answers the same question the same way, two searches of the same
//! text give the same result, so every token is what the word search gives
//! at its position.

use vstd::prelude::*;

use crate::deinflect::{candidate_views, chains_view};
use crate::dictionary::Dictionary;
use crate::error::TentokuError;
use crate::sorting::{lemma_stable_sort_unique, results_view};
use crate::types::{CandidateWord, WordEntry, WordResult};
use crate::word_search::{
    admitted_all, admitted_from, answer_from, answered_results, answers_contains,
    answers_words, initial_search, lemma_walk_stage, length_for, lookup_gives, lookup_limit,
    ok_entries, result_ids, results_built_from, search_answer, search_prefix, search_stage,
    search_walk, searched, spec_variations, SearchState, WordSearchResult,
};

verus! {

/// An answer as plain values.
pub open spec fn answer_view(a: Option<Vec<WordEntry>>) -> Option<Seq<WordEntry>> {
    match a {
        Some(v) => Some(v@),
        None => None,
    }
}

/// The dictionary answers the same question the same way: whether it holds
/// a word, and which entries it gives for a word, a limit and a text to
/// match.
pub open spec fn answers_consistently<D: Dictionary>(d: &D) -> bool {
    &&& forall|w: Seq<char>, b1: bool, b2: bool|
        #[trigger] answers_contains(d, w, b1) && #[trigger] answers_contains(d, w, b2) ==> b1 == b2
    &&& forall|
        w: Seq<char>,
        l: usize,
        m: Seq<char>,
        r1: Result<Vec<WordEntry>, TentokuError>,
        r2: Result<Vec<WordEntry>, TentokuError>,
    |
        #[trigger] answers_words(d, w, l, m, r1) && #[trigger] answers_words(d, w, l, m, r2) ==> answer_view(
            ok_entries(r1),
        ) == answer_view(ok_entries(r2))
}

proof fn lemma_admitted_from_same(
    k: int,
    v: Seq<WordEntry>,
    c1: CandidateWord,
    c2: CandidateWord,
    existing: Seq<i64>,
)
    requires
        c1.word_type == c2.word_type,
    ensures
        admitted_from(k, v, c1, existing) == admitted_from(k, v, c2, existing),
        forall|t: int|
            0 <= t < admitted_from(k, v, c1, existing).len() ==> (#[trigger] admitted_from(
                k,
                v,
                c1,
                existing,
            )[t]).0 == k,
    decreases v.len(),
{
    if v.len() > 0 {
        lemma_admitted_from_same(k, v.drop_last(), c1, c2, existing);
        let prev = admitted_from(k, v.drop_last(), c1, existing);
        assert forall|t: int| 0 <= t < prev.push((k, v.last())).len() implies (#[trigger] prev.push(
            (k, v.last()),
        )[t]).0 == k by {
            if t < prev.len() {
                assert(prev.push((k, v.last()))[t] == prev[t]);
            }
        }
    }
}

proof fn lemma_admitted_all_same(
    c1: Seq<CandidateWord>,
    a1: Seq<Option<Vec<WordEntry>>>,
    c2: Seq<CandidateWord>,
    a2: Seq<Option<Vec<WordEntry>>>,
    existing: Seq<i64>,
    n: int,
)
    requires
        candidate_views(c1) == candidate_views(c2),
        a1.len() == c1.len(),
        a2.len() == c2.len(),
        forall|k: int| 0 <= k < a1.len() ==> answer_view(#[trigger] a1[k]) == answer_view(a2[k]),
        0 <= n <= a1.len(),
    ensures
        admitted_all(c1, a1, existing, n) == admitted_all(c2, a2, existing, n),
        forall|t: int|
            0 <= t < admitted_all(c1, a1, existing, n).len() ==> 0 <= (#[trigger] admitted_all(
                c1,
                a1,
                existing,
                n,
            )[t]).0 < n,
    decreases n,
{
    assert(c1.len() == candidate_views(c1).len() && c2.len() == candidate_views(c2).len());
    if n > 0 {
        lemma_admitted_all_same(c1, a1, c2, a2, existing, n - 1);
        let prev = admitted_all(c1, a1, existing, n - 1);
        assert(answer_view(a1[n - 1]) == answer_view(a2[n - 1]));
        assert(candidate_views(c1)[n - 1] == candidate_views(c2)[n - 1]);
        match (a1[n - 1], a2[n - 1]) {
            (Some(v1), Some(v2)) => {
                lemma_admitted_from_same(n - 1, v1@, c1[n - 1], c2[n - 1], existing);
                let add = admitted_from(n - 1, v1@, c1[n - 1], existing);
                assert forall|t: int| 0 <= t < (prev + add).len() implies 0 <= (#[trigger] (prev + add)[t]).0
                    < n by {
                    if t < prev.len() {
                        assert((prev + add)[t] == prev[t]);
                    } else {
                        assert((prev + add)[t] == add[t - prev.len()]);
                    }
                }
            },
            _ => {},
        }
    }
}

proof fn lemma_built_same(
    pre1: Seq<WordResult>,
    pre2: Seq<WordResult>,
    kept: Seq<(int, WordEntry)>,
    c1: Seq<CandidateWord>,
    c2: Seq<CandidateWord>,
    input_length: usize,
)
    requires
        results_built_from(pre1, kept, c1, input_length),
        results_built_from(pre2, kept, c2, input_length),
        candidate_views(c1) == candidate_views(c2),
        forall|t: int| 0 <= t < kept.len() ==> 0 <= (#[trigger] kept[t]).0 < c1.len(),
    ensures
        results_view(pre1) == results_view(pre2),
{
    assert(c1.len() == candidate_views(c1).len() && c2.len() == candidate_views(c2).len());
    assert forall|t: int| 0 <= t < pre1.len() implies results_view(pre1)[t] == results_view(pre2)[t] by {
        let i = kept[t].0;
        assert(candidate_views(c1)[i] == candidate_views(c2)[i]);
        let x = c1[i].reason_chains@;
        let y = c2[i].reason_chains@;
        assert(chains_view(x) == chains_view(y));
        assert(x.len() == chains_view(x).len() && y.len() == chains_view(y).len());
        assert(pre1[t].entry == pre2[t].entry);
    }
    assert(results_view(pre1) =~= results_view(pre2));
}

/// The same answers to the same candidates give the same results.
proof fn lemma_answered_same(
    r1: Seq<WordResult>,
    c1: Seq<CandidateWord>,
    a1: Seq<Option<Vec<WordEntry>>>,
    r2: Seq<WordResult>,
    c2: Seq<CandidateWord>,
    a2: Seq<Option<Vec<WordEntry>>>,
    have: Seq<i64>,
    max_results: usize,
    input_length: usize,
)
    requires
        answered_results(r1, c1, a1, have, max_results, input_length),
        answered_results(r2, c2, a2, have, max_results, input_length),
        candidate_views(c1) == candidate_views(c2),
        a1.len() == c1.len(),
        a2.len() == c2.len(),
        forall|k: int| 0 <= k < a1.len() ==> answer_view(#[trigger] a1[k]) == answer_view(a2[k]),
    ensures
        results_view(r1) == results_view(r2),
{
    assert(c1.len() == candidate_views(c1).len() && c2.len() == candidate_views(c2).len());
    let n = a1.len() as int;
    let (pre1, full1) = choose|pre: Seq<WordResult>, full: Seq<WordResult>|
        {
            &&& results_built_from(pre, admitted_all(c1, a1, have, a1.len() as int), c1, input_length)
            &&& #[trigger] crate::sorting::is_stable_sort_of(full, pre)
            &&& r1 == full.take(
                if max_results < full.len() {
                    max_results as int
                } else {
                    full.len() as int
                },
            )
        };
    let (pre2, full2) = choose|pre: Seq<WordResult>, full: Seq<WordResult>|
        {
            &&& results_built_from(pre, admitted_all(c2, a2, have, a2.len() as int), c2, input_length)
            &&& #[trigger] crate::sorting::is_stable_sort_of(full, pre)
            &&& r2 == full.take(
                if max_results < full.len() {
                    max_results as int
                } else {
                    full.len() as int
                },
            )
        };
    lemma_admitted_all_same(c1, a1, c2, a2, have, n);
    let kept = admitted_all(c1, a1, have, n);
    lemma_built_same(pre1, pre2, kept, c1, c2, input_length);
    lemma_stable_sort_unique(pre1, full1, pre2, full2);
    assert(full1.len() == results_view(full1).len() && full2.len() == results_view(full2).len());
    let m = if max_results < full1.len() {
        max_results as int
    } else {
        full1.len() as int
    };
    assert(results_view(r1) =~= results_view(full1).take(m));
    assert(results_view(r2) =~= results_view(full2).take(m));
}

/// With a consistent dictionary, looking up the same text in the same
/// situation gives the same results.
pub proof fn lemma_lookup_same<D: Dictionary>(
    d: &D,
    text: Seq<char>,
    have: Seq<i64>,
    max_results: usize,
    input_length: usize,
    matching: Seq<char>,
    r1: Seq<WordResult>,
    r2: Seq<WordResult>,
)
    requires
        answers_consistently(d),
        lookup_gives(d, text, have, max_results, input_length, matching, r1),
        lookup_gives(d, text, have, max_results, input_length, matching, r2),
    ensures
        results_view(r1) == results_view(r2),
{
    let (c1, a1) = choose|candidates: Seq<CandidateWord>, answers: Seq<Option<Vec<WordEntry>>>|
        {
            &&& candidate_views(candidates) == crate::deinflect::spec_deinflect(text)
            &&& answers.len() == candidates.len()
            &&& forall|k: int|
                0 <= k < answers.len() ==> #[trigger] answer_from(
                    d,
                    candidates[k].word@,
                    lookup_limit(max_results),
                    matching,
                    answers[k],
                )
            &&& #[trigger] answered_results(r1, candidates, answers, have, max_results, input_length)
        };
    let (c2, a2) = choose|candidates: Seq<CandidateWord>, answers: Seq<Option<Vec<WordEntry>>>|
        {
            &&& candidate_views(candidates) == crate::deinflect::spec_deinflect(text)
            &&& answers.len() == candidates.len()
            &&& forall|k: int|
                0 <= k < answers.len() ==> #[trigger] answer_from(
                    d,
                    candidates[k].word@,
                    lookup_limit(max_results),
                    matching,
                    answers[k],
                )
            &&& #[trigger] answered_results(r2, candidates, answers, have, max_results, input_length)
        };
    assert(c1.len() == candidate_views(c1).len() && c2.len() == candidate_views(c2).len());
    let lim = lookup_limit(max_results);
    assert forall|k: int| 0 <= k < a1.len() implies answer_view(#[trigger] a1[k]) == answer_view(a2[k]) by {
        assert(candidate_views(c1)[k] == candidate_views(c2)[k]);
        let w = c1[k].word@;
        assert(c2[k].word@ == w);
        assert(answer_from(d, w, lim, matching, a1[k]));
        assert(answer_from(d, w, lim, matching, a2[k]));
        if answers_contains(d, w, false) && answers_contains(d, w, true) {
            assert(false);
        }
        if answers_contains(d, w, true) {
            let x1 = choose|r: Result<Vec<WordEntry>, TentokuError>|
                #[trigger] answers_words(d, w, lim, matching, r) && a1[k] == ok_entries(r);
            let x2 = choose|r: Result<Vec<WordEntry>, TentokuError>|
                #[trigger] answers_words(d, w, lim, matching, r) && a2[k] == ok_entries(r);
            assert(answer_view(ok_entries(x1)) == answer_view(ok_entries(x2)));
        }
    }
    lemma_answered_same(r1, c1, a1, r2, c2, a2, have, max_results, input_length);
}

/// Two search states that agree in everything the search goes by.
pub open spec fn same_state(a: SearchState, b: SearchState) -> bool {
    &&& a.current == b.current
    &&& a.include_variants == b.include_variants
    &&& a.have == b.have
    &&& results_view(a.results) == results_view(b.results)
    &&& a.longest == b.longest
    &&& a.done == b.done
}

/// Two search results that agree as plain values.
pub open spec fn same_outcome(a: Option<WordSearchResult>, b: Option<WordSearchResult>) -> bool {
    match (a, b) {
        (None, None) => true,
        (Some(x), Some(y)) => results_view(x.data@) == results_view(y.data@) && x.match_len == y.match_len
            && x.more == y.more,
        _ => false,
    }
}

proof fn lemma_results_view_append(a: Seq<WordResult>, b: Seq<WordResult>)
    ensures
        results_view(a + b) == results_view(a) + results_view(b),
{
    assert(results_view(a + b) =~= results_view(a) + results_view(b));
}

proof fn lemma_ids_of_view(a: Seq<WordResult>, b: Seq<WordResult>)
    requires
        results_view(a) == results_view(b),
    ensures
        result_ids(a) == result_ids(b),
{
    assert(a.len() == results_view(a).len() && b.len() == results_view(b).len());
    assert forall|i: int| 0 <= i < a.len() implies a[i].entry == b[i].entry by {
        assert(results_view(a)[i] == results_view(b)[i]);
    }
    assert(result_ids(a) =~= result_ids(b));
}

proof fn lemma_stage_same<D: Dictionary>(
    d: &D,
    lengths: Seq<usize>,
    max_results: usize,
    s1: SearchState,
    n1: int,
    f1: Seq<WordResult>,
    t1: SearchState,
    s2: SearchState,
    n2: int,
    f2: Seq<WordResult>,
    t2: SearchState,
)
    requires
        answers_consistently(d),
        search_stage(d, lengths, max_results, s1, n1, f1, t1),
        search_stage(d, lengths, max_results, s2, n2, f2, t2),
        same_state(s1, s2),
    ensures
        same_state(t1, t2),
{
    reveal(search_stage);
    let vars = spec_variations(s1.current, s1.include_variants);
    let len = length_for(lengths, s1.current.len() as int);
    let e = Seq::<WordResult>::empty();
    assert(results_view(e).len() == 0);
    if n1 < n2 {
        assert(lookup_gives(d, vars[n1 - 1], s1.have, max_results, len as usize, s1.current, e));
        lemma_lookup_same(d, vars[n1 - 1], s1.have, max_results, len as usize, s1.current, f1, e);
        assert(f1.len() == results_view(f1).len());
    } else if n2 < n1 {
        assert(lookup_gives(d, vars[n2 - 1], s1.have, max_results, len as usize, s1.current, e));
        lemma_lookup_same(d, vars[n2 - 1], s1.have, max_results, len as usize, s1.current, f2, e);
        assert(f2.len() == results_view(f2).len());
    }
    assert(n1 == n2);
    lemma_lookup_same(d, vars[n1 - 1], s1.have, max_results, len as usize, s1.current, f1, f2);
    assert(f1.len() == results_view(f1).len() && f2.len() == results_view(f2).len());
    lemma_results_view_append(s1.results, f1);
    lemma_results_view_append(s2.results, f2);
    lemma_ids_of_view(f1, f2);
    assert(s1.results.len() == results_view(s1.results).len());
    assert(s2.results.len() == results_view(s2.results).len());
    assert((s1.results + f1).len() == (s2.results + f2).len());
}

/// Two searches of the same text, step by step, are in the same state.
proof fn lemma_walks_agree<D: Dictionary>(
    d: &D,
    lengths: Seq<usize>,
    max_results: usize,
    text: Seq<char>,
    tr1: Seq<SearchState>,
    tr2: Seq<SearchState>,
    k: int,
)
    requires
        answers_consistently(d),
        search_prefix(d, lengths, max_results, text, tr1),
        search_prefix(d, lengths, max_results, text, tr2),
        0 <= k < tr1.len(),
        k < tr2.len(),
    ensures
        same_state(tr1[k], tr2[k]),
    decreases k,
{
    if k == 0 {
        reveal(search_prefix);
        assert(tr1[0] == initial_search(text) && tr2[0] == initial_search(text));
    } else {
        lemma_walks_agree(d, lengths, max_results, text, tr1, tr2, k - 1);
        lemma_walk_stage(d, lengths, max_results, text, tr1, k - 1);
        lemma_walk_stage(d, lengths, max_results, text, tr2, k - 1);
        let (n1, f1) = choose|n: int, found: Seq<WordResult>|
            #[trigger] search_stage(d, lengths, max_results, tr1[k - 1], n, found, tr1[k]);
        let (n2, f2) = choose|n: int, found: Seq<WordResult>|
            #[trigger] search_stage(d, lengths, max_results, tr2[k - 1], n, found, tr2[k]);
        lemma_stage_same(d, lengths, max_results, tr1[k - 1], n1, f1, tr1[k], tr2[k - 1], n2, f2, tr2[k]);
    }
}

proof fn lemma_answer_same(
    max_results: usize,
    s1: SearchState,
    r1: Option<WordSearchResult>,
    s2: SearchState,
    r2: Option<WordSearchResult>,
)
    requires
        search_answer(max_results, s1, r1),
        search_answer(max_results, s2, r2),
        same_state(s1, s2),
    ensures
        same_outcome(r1, r2),
{
    assert(s1.results.len() == results_view(s1.results).len());
    assert(s2.results.len() == results_view(s2.results).len());
    if s1.results.len() > 0 {
        let x = r1->0;
        let y = r2->0;
        let full1 = choose|full: Seq<WordResult>|
            {
                &&& #[trigger] crate::sorting::is_stable_sort_of(full, s1.results)
                &&& x.data@ == full.take(
                    if max_results < full.len() {
                        max_results as int
                    } else {
                        full.len() as int
                    },
                )
                &&& x.match_len as int == s1.longest
                &&& x.more == (full.len() >= max_results)
            };
        let full2 = choose|full: Seq<WordResult>|
            {
                &&& #[trigger] crate::sorting::is_stable_sort_of(full, s2.results)
                &&& y.data@ == full.take(
                    if max_results < full.len() {
                        max_results as int
                    } else {
                        full.len() as int
                    },
                )
                &&& y.match_len as int == s2.longest
                &&& y.more == (full.len() >= max_results)
            };
        lemma_stable_sort_unique(s1.results, full1, s2.results, full2);
        assert(full1.len() == results_view(full1).len() && full2.len() == results_view(full2).len());
        let m = if max_results < full1.len() {
            max_results as int
        } else {
            full1.len() as int
        };
        assert(results_view(x.data@) =~= results_view(full1).take(m));
        assert(results_view(y.data@) =~= results_view(full2).take(m));
    }
}

/// With a dictionary that answers the same question the same way, the word
/// search of a text is determined: any two results it can give agree.
pub proof fn lemma_search_determined<D: Dictionary>(
    d: &D,
    lengths: Seq<usize>,
    max_results: usize,
    text: Seq<char>,
    r1: Option<WordSearchResult>,
    r2: Option<WordSearchResult>,
)
    requires
        answers_consistently(d),
        searched(d, lengths, max_results, text, r1),
        searched(d, lengths, max_results, text, r2),
    ensures
        same_outcome(r1, r2),
{
    let tr1 = choose|trace: Seq<SearchState>|
        #[trigger] search_walk(d, lengths, max_results, text, trace) && search_answer(
            max_results,
            trace.last(),
            r1,
        );
    let tr2 = choose|trace: Seq<SearchState>|
        #[trigger] search_walk(d, lengths, max_results, text, trace) && search_answer(
            max_results,
            trace.last(),
            r2,
        );
    assert(tr1.len() >= 1 && tr2.len() >= 1) by {
        reveal(search_prefix);
    }
    if tr1.len() < tr2.len() {
        let m = tr1.len() - 1;
        lemma_walks_agree(d, lengths, max_results, text, tr1, tr2, m);
        lemma_walk_stage(d, lengths, max_results, text, tr2, m);
        assert(false);
    } else if tr2.len() < tr1.len() {
        let m = tr2.len() - 1;
        lemma_walks_agree(d, lengths, max_results, text, tr1, tr2, m);
        lemma_walk_stage(d, lengths, max_results, text, tr1, m);
        assert(false);
    }
    lemma_walks_agree(d, lengths, max_results, text, tr1, tr2, tr1.len() - 1);
    lemma_answer_same(max_results, tr1.last(), r1, tr2.last(), r2);
}

} // verus!
