//! Breadth-first deinflection: resolves a conjugated word back to candidate
//! dictionary forms using the rule table of [`crate::deinflect_rules`].

use vstd::prelude::*;

use crate::deinflect_rules::{deinflect_rules, spec_rule, DeinflectRule, RULE_COUNT};
use crate::normalize::{chars_to_hiragana, spec_kana_to_hiragana};
use crate::text::{string_from_chars, to_chars};
use crate::types::word_type::{
    ALL_FINAL, ICHIDAN_VERB, IRREALIS_STEM, KURU_VERB, MASU_STEM, TA_TE_STEM,
};
use crate::types::{CandidateWord, Reason};

verus! {

/// The word type given to the input word itself: every type except the
/// ta/te, da/de and irrealis stems.
pub const INITIAL_TYPE: u16 = 0xf4ff;

/// The breadth-first expansion examines at most this many candidates.
pub const CANDIDATE_LIMIT: usize = 4096;

/// `rule` rewrites `w` into `w2`: the last `|from|` characters of `w` are
/// `from` (directly, or after katakana-to-hiragana conversion), at most seven
/// of them, and `w2` is `w` with that ending replaced by `to`.
pub open spec fn rewrites(rule: DeinflectRule, w: Seq<char>, w2: Seq<char>) -> bool {
    let n = rule.from@.len();
    let ending = w.subrange(w.len() - n, w.len() as int);
    &&& 1 <= n <= 7
    &&& n <= w.len()
    &&& (ending == rule.from@ || spec_kana_to_hiragana(ending) == rule.from@)
    &&& w2 == w.subrange(0, w.len() - n) + rule.to@
}

/// One deinflection step: a stem forwarded to its plain form by appending る,
/// or a rewrite by some rule of the table.
pub open spec fn deinflect_step(w: Seq<char>, w2: Seq<char>) -> bool {
    ||| w2 == w.push('る')
    ||| exists|k: int| 0 <= k < RULE_COUNT && #[trigger] rewrites(spec_rule(k as usize), w, w2)
}

/// `path` is a sequence of deinflection steps from its first word to its last.
pub open spec fn is_deinflection_path(path: Seq<Seq<char>>) -> bool {
    &&& path.len() >= 1
    &&& forall|i: int| 0 <= i < path.len() - 1 ==> deinflect_step(#[trigger] path[i], path[i + 1])
}

/// `w` is reached from `input` by finitely many deinflection steps.
pub open spec fn derivable(input: Seq<char>, w: Seq<char>) -> bool {
    exists|path: Seq<Seq<char>>|
        #[trigger] is_deinflection_path(path) && path[0] == input && path.last() == w
}

/// The reason chains of a candidate, as sequences.
pub open spec fn chains_view(c: Seq<Vec<Reason>>) -> Seq<Seq<Reason>> {
    c.map_values(|v: Vec<Reason>| v@)
}

/// A candidate as plain values: its word, its type and its reason chains.
pub type CandidateView = (Seq<char>, u16, Seq<Seq<Reason>>);

/// The index of the last candidate whose word is `w`, if any.
pub open spec fn last_with_word(r: Seq<CandidateView>, w: Seq<char>) -> Option<int>
    decreases r.len(),
{
    if r.len() == 0 {
        None
    } else if r.last().0 == w {
        Some(r.len() - 1)
    } else {
        last_with_word(r.drop_last(), w)
    }
}

/// Some reason of `reasons` already occurs in the chains.
pub open spec fn reason_repeated(reasons: Seq<Reason>, chains: Seq<Seq<Reason>>) -> bool {
    exists|i: int, a: int, b: int|
        0 <= i < reasons.len() && 0 <= a < chains.len() && 0 <= b < chains[a].len() && #[trigger] chains[a][b]
            == #[trigger] reasons[i]
}

/// The chains of a candidate reached by a rule with `reasons` from a
/// candidate with `chains`: the reasons go in front of the first chain, a
/// causative before a potential-or-passive makes a causative passive, and a
/// masu stem adds nothing to an existing chain.
pub open spec fn extended_chains(chains: Seq<Seq<Reason>>, reasons: Seq<Reason>) -> Seq<Seq<Reason>> {
    if reasons.len() == 0 {
        chains
    } else if chains.len() == 0 {
        seq![reasons]
    } else if reasons[0] == Reason::Causative && chains[0].len() > 0 && chains[0][0]
        == Reason::PotentialOrPassive {
        chains.update(0, chains[0].update(0, Reason::CausativePassive))
    } else if reasons[0] == Reason::MasuStem {
        chains
    } else {
        chains.update(0, reasons + chains[0])
    }
}

/// The candidates after trying rule `k` on candidate `c` whose last
/// `from_len` characters are the rule's ending. A rule that does not take the
/// candidate's type, that would leave nothing, or that repeats a reason is
/// skipped. A word already reached with the rule's type gets the rule's
/// reasons as one more chain; any other word is added at the end.
pub open spec fn rule_applied(r: Seq<CandidateView>, c: CandidateView, from_len: int, k: int) -> Seq<
    CandidateView,
> {
    let rule = spec_rule(k as usize);
    let new_word = c.0.subrange(0, c.0.len() - from_len) + rule.to@;
    let added = r.push((new_word, rule.to_type, extended_chains(c.2, rule.reasons@)));
    if c.1 & rule.from_type == 0 || new_word.len() == 0 || reason_repeated(rule.reasons@, c.2) {
        r
    } else {
        match last_with_word(r, new_word) {
            Some(e) => if r[e].1 == rule.to_type {
                if rule.reasons@.len() > 0 {
                    r.update(e, (r[e].0, r[e].1, seq![rule.reasons@] + r[e].2))
                } else {
                    r
                }
            } else {
                added
            },
            None => added,
        }
    }
}

/// Trying the rules `j..` of the table whose ending is `key` on candidate `c`.
pub open spec fn rules_run(
    r: Seq<CandidateView>,
    c: CandidateView,
    from_len: int,
    key: Seq<char>,
    j: int,
) -> Seq<CandidateView>
    decreases RULE_COUNT - j,
{
    if j < 0 || j >= RULE_COUNT {
        r
    } else {
        let r2 = if spec_rule(j as usize).from@ == key {
            rule_applied(r, c, from_len, j)
        } else {
            r
        };
        rules_run(r2, c, from_len, key, j + 1)
    }
}

/// Trying the rules for the ending of `from_len` characters of `c`: as
/// written, then in hiragana where that differs.
pub open spec fn ending_tried(r: Seq<CandidateView>, c: CandidateView, from_len: int) -> Seq<
    CandidateView,
> {
    let n = c.0.len() as int;
    let ending = c.0.subrange(n - from_len, n);
    let hira = spec_kana_to_hiragana(ending);
    let r1 = rules_run(r, c, from_len, ending, 0);
    if hira != ending {
        rules_run(r1, c, from_len, hira, 0)
    } else {
        r1
    }
}

/// Trying the endings of `from_len` characters down to one.
pub open spec fn endings_run(r: Seq<CandidateView>, c: CandidateView, from_len: int) -> Seq<
    CandidateView,
>
    decreases from_len,
{
    if from_len < 1 {
        r
    } else {
        endings_run(ending_tried(r, c, from_len), c, from_len - 1)
    }
}

/// The chains of a stem forwarded to its plain form.
pub open spec fn forwarded_chains(c: CandidateView) -> Seq<Seq<Reason>> {
    if c.1 & MASU_STEM != 0 && c.2.len() == 0 {
        c.2.push(seq![Reason::MasuStem])
    } else {
        c.2
    }
}

/// A masu, ta/te or irrealis stem forwarded to the plain Ichidan or Kuru form
/// by appending る (not for an irrealis stem reached through a passive or
/// causative, and only where that word is new).
pub open spec fn forwarded(r: Seq<CandidateView>, c: CandidateView) -> Seq<CandidateView> {
    let is_stem = c.1 & (MASU_STEM | TA_TE_STEM | IRREALIS_STEM) != 0;
    let inapplicable = c.1 & IRREALIS_STEM != 0 && c.2.len() > 0 && c.2[0].len() > 0 && (c.2[0][0]
        == Reason::Passive || c.2[0][0] == Reason::Causative || c.2[0][0]
        == Reason::CausativePassive);
    let nw = c.0.push('る');
    if is_stem && !inapplicable && last_with_word(r, nw) is None {
        r.push((nw, ICHIDAN_VERB | KURU_VERB, forwarded_chains(c)))
    } else {
        r
    }
}

/// An Ichidan verb reached through its masu stem alone is already plain.
pub open spec fn is_masu_ichidan(c: CandidateView) -> bool {
    c.1 & ICHIDAN_VERB != 0 && c.2.len() == 1 && c.2[0].len() == 1 && c.2[0][0] == Reason::MasuStem
}

/// The longest ending tried for a word of `n` characters.
pub open spec fn longest_ending(n: nat) -> int {
    if n < 7 {
        n as int
    } else {
        7
    }
}

/// Expanding candidate `i`: forwarding it, then trying its endings, longest first.
pub open spec fn expanded(r: Seq<CandidateView>, i: int) -> Seq<CandidateView> {
    let c = r[i];
    if is_masu_ichidan(c) {
        r
    } else {
        endings_run(forwarded(r, c), c, longest_ending(c.0.len()))
    }
}

/// The breadth-first expansion from candidate `i` on, over at most
/// `CANDIDATE_LIMIT` candidates in all.
pub open spec fn expansion(r: Seq<CandidateView>, i: int) -> Seq<CandidateView>
    decreases CANDIDATE_LIMIT - i,
{
    if 0 <= i && i < r.len() && i < CANDIDATE_LIMIT {
        expansion(expanded(r, i), i + 1)
    } else {
        r
    }
}

/// The candidates of a dictionary-entry type, in order.
pub open spec fn final_candidates(r: Seq<CandidateView>) -> Seq<CandidateView>
    decreases r.len(),
{
    if r.len() == 0 {
        r
    } else {
        let prev = final_candidates(r.drop_last());
        if r.last().1 & ALL_FINAL != 0 {
            prev.push(r.last())
        } else {
            prev
        }
    }
}

/// The de-inflected forms of `word`: the expansion from `word` itself (with
/// the initial type and no reasons), keeping the dictionary-entry types.
pub open spec fn spec_deinflect(word: Seq<char>) -> Seq<CandidateView> {
    final_candidates(expansion(seq![(word, INITIAL_TYPE, Seq::<Seq<Reason>>::empty())], 0))
}

/// The candidates a call returns, as plain values.
pub open spec fn candidate_views(res: Seq<CandidateWord>) -> Seq<CandidateView> {
    res.map_values(|c: CandidateWord| (c.word@, c.word_type, chains_view(c.reason_chains@)))
}

/// A candidate during the expansion.
struct Cand {
    word: Vec<char>,
    word_type: u16,
    chains: Vec<Vec<Reason>>,
}

/// A rule with its endings as character vectors.
struct RuleChars {
    from: Vec<char>,
    to: Vec<char>,
    from_type: u16,
    to_type: u16,
    reasons: Vec<Reason>,
}

spec fn cand_view(c: Cand) -> CandidateView {
    (c.word@, c.word_type, chains_view(c.chains@))
}

spec fn cands_view(r: Seq<Cand>) -> Seq<CandidateView> {
    r.map_values(|c: Cand| cand_view(c))
}

/// The state invariant of the expansion.
spec fn engine_inv(input: Seq<char>, result: Seq<Cand>) -> bool {
    &&& result.len() >= 1
    &&& result[0].word@ == input
    &&& result[0].word_type == INITIAL_TYPE
    &&& result[0].chains@.len() == 0
    &&& forall|j: int| 0 <= j < result.len() ==> derivable(input, #[trigger] result[j].word@)
}

/// A converted rule agrees with the `k`-th rule of the table.
spec fn rule_chars_agree(r: RuleChars, k: int) -> bool {
    &&& r.from@ == spec_rule(k as usize).from@
    &&& r.to@ == spec_rule(k as usize).to@
    &&& r.from_type == spec_rule(k as usize).from_type
    &&& r.to_type == spec_rule(k as usize).to_type
    &&& r.reasons@ == spec_rule(k as usize).reasons@
}

/// No rule of the table produces the input word's own type.
proof fn lemma_rule_to_type(k: int)
    requires
        0 <= k < RULE_COUNT,
    ensures
        spec_rule(k as usize).to_type < 4096,
{
}

fn reasons_to_vec(s: &[Reason]) -> (v: Vec<Reason>)
    ensures
        v@ == s@,
{
    let mut v: Vec<Reason> = Vec::new();
    let mut i: usize = 0;
    while i < s.len()
        invariant
            i <= s@.len(),
            v@ == s@.take(i as int),
        decreases s@.len() - i,
    {
        v.push(s[i]);
        proof {
            assert(s@.take(i as int + 1) =~= s@.take(i as int).push(s@[i as int]));
        }
        i = i + 1;
    }
    proof {
        assert(s@.take(s@.len() as int) =~= s@);
    }
    v
}

fn convert_rules(rules: &Vec<DeinflectRule>) -> (out: Vec<RuleChars>)
    requires
        rules@.len() == RULE_COUNT,
        forall|k: int| 0 <= k < RULE_COUNT ==> #[trigger] rules@[k] == spec_rule(k as usize),
    ensures
        out@.len() == RULE_COUNT,
        forall|k: int| 0 <= k < RULE_COUNT ==> rule_chars_agree(#[trigger] out@[k], k),
{
    let mut out: Vec<RuleChars> = Vec::new();
    let mut i: usize = 0;
    while i < rules.len()
        invariant
            i <= rules@.len(),
            rules@.len() == RULE_COUNT,
            forall|k: int| 0 <= k < RULE_COUNT ==> #[trigger] rules@[k] == spec_rule(k as usize),
            out@.len() == i,
            forall|k: int| 0 <= k < i ==> rule_chars_agree(#[trigger] out@[k], k),
        decreases rules@.len() - i,
    {
        let r = rules[i];
        let rc = RuleChars {
            from: to_chars(r.from),
            to: to_chars(r.to),
            from_type: r.from_type,
            to_type: r.to_type,
            reasons: reasons_to_vec(r.reasons),
        };
        out.push(rc);
        i = i + 1;
    }
    out
}

fn chars_eq(a: &[char], b: &[char]) -> (r: bool)
    ensures
        r == (a@ == b@),
{
    if a.len() != b.len() {
        return false;
    }
    let mut i: usize = 0;
    while i < a.len()
        invariant
            i <= a@.len(),
            a@.len() == b@.len(),
            forall|j: int| 0 <= j < i ==> a@[j] == b@[j],
        decreases a@.len() - i,
    {
        if a[i] != b[i] {
            return false;
        }
        i = i + 1;
    }
    proof {
        assert(a@ =~= b@);
    }
    true
}

/// The slice `s[lo..hi]` as a vector.
pub fn sub_chars(s: &[char], lo: usize, hi: usize) -> (out: Vec<char>)
    requires
        lo <= hi <= s@.len(),
    ensures
        out@ == s@.subrange(lo as int, hi as int),
{
    let mut out: Vec<char> = Vec::new();
    let mut i: usize = lo;
    while i < hi
        invariant
            lo <= i <= hi,
            hi <= s@.len(),
            out@ == s@.subrange(lo as int, i as int),
        decreases hi - i,
    {
        out.push(s[i]);
        proof {
            assert(s@.subrange(lo as int, i as int + 1) =~= s@.subrange(lo as int, i as int).push(s@[i as int]));
        }
        i = i + 1;
    }
    out
}

/// `a` followed by `b`.
fn concat_chars(a: &[char], b: &[char]) -> (out: Vec<char>)
    ensures
        out@ == a@ + b@,
{
    let mut out: Vec<char> = Vec::new();
    let mut i: usize = 0;
    while i < a.len()
        invariant
            i <= a@.len(),
            out@ == a@.take(i as int),
        decreases a@.len() - i,
    {
        out.push(a[i]);
        proof {
            assert(a@.take(i as int + 1) =~= a@.take(i as int).push(a@[i as int]));
        }
        i = i + 1;
    }
    let mut j: usize = 0;
    while j < b.len()
        invariant
            j <= b@.len(),
            a@.take(a@.len() as int) == a@,
            out@ == a@ + b@.take(j as int),
        decreases b@.len() - j,
    {
        out.push(b[j]);
        proof {
            assert(b@.take(j as int + 1) =~= b@.take(j as int).push(b@[j as int]));
        }
        j = j + 1;
    }
    proof {
        assert(b@.take(b@.len() as int) =~= b@);
        assert(a@.take(a@.len() as int) =~= a@);
    }
    out
}

pub fn clone_chain(c: &Vec<Reason>) -> (out: Vec<Reason>)
    ensures
        out@ == c@,
{
    reasons_to_vec(c.as_slice())
}

pub fn clone_chains(c: &Vec<Vec<Reason>>) -> (out: Vec<Vec<Reason>>)
    ensures
        chains_view(out@) == chains_view(c@),
{
    let mut out: Vec<Vec<Reason>> = Vec::new();
    let mut i: usize = 0;
    while i < c.len()
        invariant
            i <= c@.len(),
            out@.len() == i,
            forall|j: int| 0 <= j < i ==> (#[trigger] out@[j])@ == c@[j]@,
        decreases c@.len() - i,
    {
        out.push(clone_chain(&c[i]));
        i = i + 1;
    }
    proof {
        assert(chains_view(out@) =~= chains_view(c@));
    }
    out
}

/// Whether reason `r` occurs in any of the chains.
fn chains_contain(chains: &Vec<Vec<Reason>>, r: Reason) -> (b: bool)
    ensures
        b == exists|i: int, j: int|
            0 <= i < chains@.len() && 0 <= j < chains@[i]@.len() && chains@[i]@[j] == r,
{
    let mut i: usize = 0;
    while i < chains.len()
        invariant
            i <= chains@.len(),
            forall|a: int, b: int| 0 <= a < i && 0 <= b < chains@[a]@.len() ==> chains@[a]@[b] != r,
        decreases chains@.len() - i,
    {
        let mut j: usize = 0;
        while j < chains[i].len()
            invariant
                i < chains@.len(),
                j <= chains@[i as int]@.len(),
                forall|b: int| 0 <= b < j ==> chains@[i as int]@[b] != r,
            decreases chains@[i as int]@.len() - j,
        {
            if chains[i][j] == r {
                return true;
            }
            j = j + 1;
        }
        i = i + 1;
    }
    false
}

/// Whether any of `reasons` already occurs in the chains.
fn any_reason_in_chains(reasons: &Vec<Reason>, chains: &Vec<Vec<Reason>>) -> (b: bool)
    ensures
        b == reason_repeated(reasons@, chains_view(chains@)),
{
    let ghost cv = chains_view(chains@);
    let mut i: usize = 0;
    while i < reasons.len()
        invariant
            i <= reasons@.len(),
            cv == chains_view(chains@),
            forall|q: int, a: int, b: int|
                0 <= q < i && 0 <= a < cv.len() && 0 <= b < cv[a].len() ==> cv[a][b] != reasons@[q],
        decreases reasons@.len() - i,
    {
        if chains_contain(chains, reasons[i]) {
            proof {
                let (a, b) = choose|a: int, b: int|
                    0 <= a < chains@.len() && 0 <= b < chains@[a]@.len() && chains@[a]@[b] == reasons@[i as int];
                assert(cv[a] == chains@[a]@);
                assert(cv[a][b] == reasons@[i as int]);
            }
            return true;
        }
        proof {
            assert forall|a: int, b: int| 0 <= a < cv.len() && 0 <= b < cv[a].len() implies cv[a][b]
                != reasons@[i as int] by {
                assert(cv[a] == chains@[a]@);
            }
        }
        i = i + 1;
    }
    false
}

/// The index of the last candidate whose word is `w`.
fn find_last(result: &Vec<Cand>, w: &[char]) -> (r: Option<usize>)
    ensures
        r matches Some(k) ==> k < result@.len() && result@[k as int].word@ == w@
            && forall|j: int| k < j < result@.len() ==> result@[j].word@ != w@,
        r is None ==> forall|j: int| 0 <= j < result@.len() ==> result@[j].word@ != w@,
{
    let mut i: usize = result.len();
    while i > 0
        invariant
            i <= result@.len(),
            forall|j: int| i <= j < result@.len() ==> result@[j].word@ != w@,
        decreases i,
    {
        i = i - 1;
        if chars_eq(result[i].word.as_slice(), w) {
            return Some(i);
        }
    }
    None
}

proof fn lemma_derivable_self(input: Seq<char>)
    ensures
        derivable(input, input),
{
    let path = seq![input];
    assert(is_deinflection_path(path));
}

proof fn lemma_step_preserves(input: Seq<char>, w1: Seq<char>, w: Seq<char>)
    requires
        derivable(input, w1),
        deinflect_step(w1, w),
    ensures
        derivable(input, w),
{
    let path = choose|path: Seq<Seq<char>>|
        #[trigger] is_deinflection_path(path) && path[0] == input && path.last() == w1;
    let p2 = path.push(w);
    assert forall|i: int| 0 <= i < p2.len() - 1 implies deinflect_step(#[trigger] p2[i], p2[i + 1]) by {
        if i < path.len() - 1 {
            assert(p2[i] == path[i] && p2[i + 1] == path[i + 1]);
        } else {
            assert(p2[i] == w1);
        }
    }
    assert(is_deinflection_path(p2));
}

proof fn lemma_last_with_word(r: Seq<CandidateView>, w: Seq<char>, k: Option<int>)
    requires
        k matches Some(e) ==> 0 <= e < r.len() && r[e].0 == w && forall|j: int|
            e < j < r.len() ==> r[j].0 != w,
        k is None ==> forall|j: int| 0 <= j < r.len() ==> r[j].0 != w,
    ensures
        last_with_word(r, w) == k,
    decreases r.len(),
{
    if r.len() > 0 {
        let last = r.len() - 1;
        if k == Some(last) {
        } else {
            let p = r.drop_last();
            assert(r.last().0 != w);
            lemma_last_with_word(p, w, k);
        }
    }
}

proof fn lemma_find_last_view(result: Seq<Cand>, w: Seq<char>, k: Option<usize>)
    requires
        k matches Some(e) ==> e < result.len() && result[e as int].word@ == w && forall|j: int|
            e < j < result.len() ==> result[j].word@ != w,
        k is None ==> forall|j: int| 0 <= j < result.len() ==> result[j].word@ != w,
    ensures
        last_with_word(cands_view(result), w) == match k {
            Some(e) => Some(e as int),
            None => None::<int>,
        },
{
    let v = cands_view(result);
    let kk = match k {
        Some(e) => Some(e as int),
        None => None::<int>,
    };
    assert forall|j: int| 0 <= j < v.len() implies #[trigger] v[j].0 == result[j].word@ by {}
    lemma_last_with_word(v, w, kk);
}

/// Applies rule `k` of the table (as `rule`) to the candidate `word` whose
/// ending of `from_len` characters is the rule's ending.
fn apply_rule(
    result: &mut Vec<Cand>,
    word: &Vec<char>,
    word_type: u16,
    chains: &Vec<Vec<Reason>>,
    from_len: usize,
    rule: &RuleChars,
    Ghost(input): Ghost<Seq<char>>,
    Ghost(k): Ghost<int>,
)
    requires
        engine_inv(input, old(result)@),
        derivable(input, word@),
        0 <= k < RULE_COUNT,
        rule_chars_agree(*rule, k),
        1 <= from_len <= 7,
        from_len <= word@.len(),
        rule.from@.len() == from_len,
        ({
            let ending = word@.subrange(word@.len() - from_len, word@.len() as int);
            ending == rule.from@ || spec_kana_to_hiragana(ending) == rule.from@
        }),
        old(result)@.len() < usize::MAX,
    ensures
        engine_inv(input, final(result)@),
        final(result)@.len() <= old(result)@.len() + 1,
        cands_view(final(result)@) == rule_applied(
            cands_view(old(result)@),
            (word@, word_type, chains_view(chains@)),
            from_len as int,
            k,
        ),
{
    let ghost c: CandidateView = (word@, word_type, chains_view(chains@));
    let ghost before = cands_view(result@);
    if word_type & rule.from_type == 0 {
        return;
    }
    let stem = sub_chars(word.as_slice(), 0, word.len() - from_len);
    let new_word = concat_chars(stem.as_slice(), rule.to.as_slice());
    if new_word.len() == 0 {
        return;
    }
    proof {
        assert(rewrites(spec_rule(k as usize), word@, new_word@));
        assert(deinflect_step(word@, new_word@));
        lemma_step_preserves(input, word@, new_word@);
    }
    if any_reason_in_chains(&rule.reasons, chains) {
        return;
    }
    let found = find_last(result, new_word.as_slice());
    proof {
        lemma_find_last_view(result@, new_word@, found);
    }
    match found {
        Some(existing) => {
            if result[existing].word_type == rule.to_type {
                if rule.reasons.len() > 0 {
                    proof {
                        lemma_rule_to_type(k);
                    }
                    let old_cand = &result[existing];
                    let mut new_chains: Vec<Vec<Reason>> = Vec::new();
                    new_chains.push(clone_chain(&rule.reasons));
                    let mut t: usize = 0;
                    while t < old_cand.chains.len()
                        invariant
                            t <= old_cand.chains@.len(),
                            chains_view(new_chains@) == seq![rule.reasons@] + chains_view(
                                old_cand.chains@,
                            ).take(t as int),
                        decreases old_cand.chains@.len() - t,
                    {
                        let ghost prev = new_chains@;
                        new_chains.push(clone_chain(&old_cand.chains[t]));
                        proof {
                            assert(chains_view(new_chains@) =~= chains_view(prev).push(
                                old_cand.chains@[t as int]@,
                            ));
                            assert(chains_view(old_cand.chains@).take(t as int + 1) =~= chains_view(
                                old_cand.chains@,
                            ).take(t as int).push(old_cand.chains@[t as int]@));
                        }
                        t = t + 1;
                    }
                    proof {
                        assert(chains_view(old_cand.chains@).take(old_cand.chains@.len() as int)
                            =~= chains_view(old_cand.chains@));
                    }
                    let updated = Cand {
                        word: sub_chars(old_cand.word.as_slice(), 0, old_cand.word.len()),
                        word_type: old_cand.word_type,
                        chains: new_chains,
                    };
                    proof {
                        assert(old_cand.word@.subrange(0, old_cand.word@.len() as int) =~= old_cand.word@);
                    }
                    result.set(existing, updated);
                    proof {
                        assert forall|j: int| 0 <= j < result@.len() implies derivable(
                            input,
                            #[trigger] result@[j].word@,
                        ) by {
                            if j != existing {
                                assert(result@[j] == old(result)@[j]);
                            }
                        }
                        assert(cands_view(result@) =~= before.update(
                            existing as int,
                            (
                                before[existing as int].0,
                                before[existing as int].1,
                                seq![rule.reasons@] + before[existing as int].2,
                            ),
                        ));
                    }
                }
                return;
            }
        },
        None => {},
    }
    let mut new_chains = clone_chains(chains);
    if rule.reasons.len() > 0 {
        if new_chains.len() > 0 {
            let first_is_pot_passive = new_chains[0].len() > 0 && new_chains[0][0]
                == Reason::PotentialOrPassive;
            if rule.reasons[0] == Reason::Causative && first_is_pot_passive {
                let mut first = clone_chain(&new_chains[0]);
                first.set(0, Reason::CausativePassive);
                let ghost prev = new_chains@;
                new_chains.set(0, first);
                proof {
                    assert(chains_view(new_chains@) =~= chains_view(prev).update(0, chains_view(prev)[0].update(0, Reason::CausativePassive)));
                }
            } else if rule.reasons[0] == Reason::MasuStem {
                // A masu stem adds nothing to a chain that already has content.
            } else {
                let mut prepended = clone_chain(&rule.reasons);
                let mut t: usize = 0;
                while t < new_chains[0].len()
                    invariant
                        new_chains@.len() > 0,
                        t <= new_chains@[0]@.len(),
                        prepended@ == rule.reasons@ + new_chains@[0]@.take(t as int),
                    decreases new_chains@[0]@.len() - t,
                {
                    prepended.push(new_chains[0][t]);
                    proof {
                        assert(new_chains@[0]@.take(t as int + 1) =~= new_chains@[0]@.take(t as int).push(new_chains@[0]@[t as int]));
                    }
                    t = t + 1;
                }
                proof {
                    assert(new_chains@[0]@.take(new_chains@[0]@.len() as int) =~= new_chains@[0]@);
                }
                let ghost prev = new_chains@;
                new_chains.set(0, prepended);
                proof {
                    assert(chains_view(new_chains@) =~= chains_view(prev).update(0, rule.reasons@ + chains_view(prev)[0]));
                }
            }
        } else {
            let ghost prev = new_chains@;
            new_chains.push(clone_chain(&rule.reasons));
            proof {
                assert(chains_view(new_chains@) =~= seq![rule.reasons@]);
            }
        }
    }
    proof {
        assert(chains_view(new_chains@) == extended_chains(c.2, rule.reasons@));
    }
    let ghost nc = Cand { word: new_word, word_type: rule.to_type, chains: new_chains };
    result.push(Cand { word: new_word, word_type: rule.to_type, chains: new_chains });
    proof {
        assert forall|j: int| 0 <= j < result@.len() implies derivable(
            input,
            #[trigger] result@[j].word@,
        ) by {
            if j < old(result)@.len() {
                assert(result@[j] == old(result)@[j]);
            }
        }
        assert(cands_view(result@) =~= before.push(cand_view(result@.last())));
    }
}

/// Tries the rules of the table whose ending is `key` on the candidate.
fn apply_rules_for_key(
    result: &mut Vec<Cand>,
    word: &Vec<char>,
    word_type: u16,
    chains: &Vec<Vec<Reason>>,
    from_len: usize,
    key: &Vec<char>,
    rules: &Vec<RuleChars>,
    Ghost(input): Ghost<Seq<char>>,
)
    requires
        engine_inv(input, old(result)@),
        derivable(input, word@),
        1 <= from_len <= 7,
        from_len <= word@.len(),
        key@ == word@.subrange(word@.len() - from_len, word@.len() as int) || key@ == spec_kana_to_hiragana(
            word@.subrange(word@.len() - from_len, word@.len() as int),
        ),
        rules@.len() == RULE_COUNT,
        forall|k: int| 0 <= k < RULE_COUNT ==> rule_chars_agree(#[trigger] rules@[k], k),
        old(result)@.len() + RULE_COUNT < usize::MAX,
    ensures
        engine_inv(input, final(result)@),
        final(result)@.len() <= old(result)@.len() + RULE_COUNT,
        cands_view(final(result)@) == rules_run(
            cands_view(old(result)@),
            (word@, word_type, chains_view(chains@)),
            from_len as int,
            key@,
            0,
        ),
{
    let ghost c: CandidateView = (word@, word_type, chains_view(chains@));
    let ghost target = rules_run(cands_view(result@), c, from_len as int, key@, 0);
    let ghost start_len = result@.len();
    let mut r: usize = 0;
    while r < rules.len()
        invariant
            engine_inv(input, result@),
            derivable(input, word@),
            1 <= from_len <= 7,
            from_len <= word@.len(),
            key@.len() == from_len,
            key@ == word@.subrange(word@.len() - from_len, word@.len() as int) || key@ == spec_kana_to_hiragana(
                word@.subrange(word@.len() - from_len, word@.len() as int),
            ),
            c == (word@, word_type, chains_view(chains@)),
            r <= RULE_COUNT,
            rules@.len() == RULE_COUNT,
            forall|k: int| 0 <= k < RULE_COUNT ==> rule_chars_agree(#[trigger] rules@[k], k),
            result@.len() <= start_len + r,
            start_len + RULE_COUNT < usize::MAX,
            target == rules_run(cands_view(result@), c, from_len as int, key@, r as int),
        decreases RULE_COUNT - r,
    {
        let ghost cur = cands_view(result@);
        if chars_eq(rules[r].from.as_slice(), key.as_slice()) {
            proof {
                assert(rule_chars_agree(rules@[r as int], r as int));
            }
            apply_rule(result, word, word_type, chains, from_len, &rules[r], Ghost(input), Ghost(r as int));
        }
        proof {
            assert(rule_chars_agree(rules@[r as int], r as int));
        }
        r = r + 1;
    }
}

/// Tries the ending of `from_len` characters of the candidate: as written,
/// then in hiragana where that differs.
fn try_ending(
    result: &mut Vec<Cand>,
    word: &Vec<char>,
    word_type: u16,
    chains: &Vec<Vec<Reason>>,
    from_len: usize,
    rules: &Vec<RuleChars>,
    Ghost(input): Ghost<Seq<char>>,
)
    requires
        engine_inv(input, old(result)@),
        derivable(input, word@),
        1 <= from_len <= 7,
        from_len <= word@.len(),
        rules@.len() == RULE_COUNT,
        forall|k: int| 0 <= k < RULE_COUNT ==> rule_chars_agree(#[trigger] rules@[k], k),
        old(result)@.len() + 2 * RULE_COUNT < usize::MAX,
    ensures
        engine_inv(input, final(result)@),
        final(result)@.len() <= old(result)@.len() + 2 * RULE_COUNT,
        cands_view(final(result)@) == ending_tried(
            cands_view(old(result)@),
            (word@, word_type, chains_view(chains@)),
            from_len as int,
        ),
{
    let n = word.len();
    let ending = sub_chars(word.as_slice(), n - from_len, n);
    let hira = chars_to_hiragana(ending.as_slice());
    apply_rules_for_key(result, word, word_type, chains, from_len, &ending, rules, Ghost(input));
    if !chars_eq(hira.as_slice(), ending.as_slice()) {
        apply_rules_for_key(result, word, word_type, chains, from_len, &hira, rules, Ghost(input));
    }
}

/// Expands candidate `i`: forwards a stem to its plain form, then tries the
/// endings of the word, longest first.
fn expand_candidate(
    result: &mut Vec<Cand>,
    i: usize,
    rules: &Vec<RuleChars>,
    Ghost(input): Ghost<Seq<char>>,
)
    requires
        engine_inv(input, old(result)@),
        i < old(result)@.len(),
        rules@.len() == RULE_COUNT,
        forall|k: int| 0 <= k < RULE_COUNT ==> rule_chars_agree(#[trigger] rules@[k], k),
        old(result)@.len() + 2619 < usize::MAX,
    ensures
        engine_inv(input, final(result)@),
        final(result)@.len() <= old(result)@.len() + 2619,
        cands_view(final(result)@) == expanded(cands_view(old(result)@), i as int),
{
    let ghost before = cands_view(result@);
    let word_text = sub_chars(result[i].word.as_slice(), 0, result[i].word.len());
    let word_type = result[i].word_type;
    let reason_chains = clone_chains(&result[i].chains);
    let ghost c: CandidateView = (word_text@, word_type, chains_view(reason_chains@));
    proof {
        assert(result@[i as int].word@.subrange(0, result@[i as int].word@.len() as int)
            =~= result@[i as int].word@);
        assert(derivable(input, word_text@));
        assert(c == before[i as int]);
    }
    let is_masu_ichidan = word_type & ICHIDAN_VERB != 0 && reason_chains.len() == 1
        && reason_chains[0].len() == 1 && reason_chains[0][0] == Reason::MasuStem;
    if is_masu_ichidan {
        return;
    }
    // Forward intermediate stems to the plain Ichidan/Kuru form by appending る.
    if word_type & (MASU_STEM | TA_TE_STEM | IRREALIS_STEM) != 0 {
        let inapplicable = word_type & IRREALIS_STEM != 0 && reason_chains.len() > 0
            && reason_chains[0].len() > 0 && (reason_chains[0][0] == Reason::Passive
            || reason_chains[0][0] == Reason::Causative || reason_chains[0][0]
            == Reason::CausativePassive);
        if !inapplicable {
            let mut new_chains = clone_chains(&reason_chains);
            if word_type & MASU_STEM != 0 && reason_chains.len() == 0 {
                let mut masu: Vec<Reason> = Vec::new();
                masu.push(Reason::MasuStem);
                let ghost prev = new_chains@;
                new_chains.push(masu);
                proof {
                    assert(chains_view(new_chains@) =~= chains_view(prev).push(seq![Reason::MasuStem]));
                }
            }
            let mut ru: Vec<char> = Vec::new();
            ru.push('る');
            let new_word = concat_chars(word_text.as_slice(), ru.as_slice());
            proof {
                assert(new_word@ =~= word_text@.push('る'));
                lemma_step_preserves(input, word_text@, new_word@);
            }
            let found = find_last(result, new_word.as_slice());
            proof {
                lemma_find_last_view(result@, new_word@, found);
            }
            if found.is_none() {
                let ghost prev = result@;
                result.push(
                    Cand { word: new_word, word_type: ICHIDAN_VERB | KURU_VERB, chains: new_chains },
                );
                proof {
                    assert forall|j: int| 0 <= j < result@.len() implies derivable(
                        input,
                        #[trigger] result@[j].word@,
                    ) by {
                        if j < prev.len() {
                            assert(result@[j] == prev[j]);
                        }
                    }
                    assert(cands_view(result@) =~= cands_view(prev).push(cand_view(result@.last())));
                }
            }
        }
    }
    let ghost after_forward = cands_view(result@);
    proof {
        assert(after_forward == forwarded(before, c));
    }
    // Try deinflection rules for each ending length, longest first.
    let n = word_text.len();
    let max_len = if n < 7 {
        n
    } else {
        7
    };
    let ghost target = endings_run(after_forward, c, max_len as int);
    let ghost len_start = result@.len();
    let mut from_len = max_len;
    while from_len >= 1
        invariant
            engine_inv(input, result@),
            derivable(input, word_text@),
            n == word_text@.len(),
            from_len <= max_len <= 7,
            max_len <= n,
            c == (word_text@, word_type, chains_view(reason_chains@)),
            rules@.len() == RULE_COUNT,
            forall|k: int| 0 <= k < RULE_COUNT ==> rule_chars_agree(#[trigger] rules@[k], k),
            len_start <= before.len() + 1,
            before.len() + 2619 < usize::MAX,
            result@.len() <= len_start + (max_len - from_len) * 374,
            target == endings_run(cands_view(result@), c, from_len as int),
        decreases from_len,
    {
        try_ending(result, &word_text, word_type, &reason_chains, from_len, rules, Ghost(input));
        from_len = from_len - 1;
    }
}

/// Returns all possible de-inflected forms of `word`.
///
/// The first candidate is always `word` itself, with no reasons. The others
/// come from the breadth-first expansion by the rule table (`spec_deinflect`),
/// each reached from `word` by the steps of the table, and only candidates of
/// a dictionary-entry type are kept.
pub fn deinflect(word: &str) -> (res: Vec<CandidateWord>)
    ensures
        candidate_views(res@) == spec_deinflect(word@),
        res@.len() >= 1,
        res@[0].word@ == word@,
        res@[0].word_type == INITIAL_TYPE,
        res@[0].reason_chains@.len() == 0,
        forall|i: int| 0 <= i < res@.len() ==> #[trigger] res@[i].word_type & ALL_FINAL != 0,
        forall|i: int| 0 <= i < res@.len() ==> derivable(word@, #[trigger] res@[i].word@),
{
    let ghost input = word@;
    let table = deinflect_rules();
    let rules = convert_rules(&table);
    let mut result: Vec<Cand> = Vec::new();
    result.push(Cand { word: to_chars(word), word_type: INITIAL_TYPE, chains: Vec::new() });
    let ghost init: Seq<CandidateView> = seq![(input, INITIAL_TYPE, Seq::<Seq<Reason>>::empty())];
    proof {
        lemma_derivable_self(input);
        assert(chains_view(result@[0].chains@) =~= Seq::<Seq<Reason>>::empty());
        assert(cands_view(result@) =~= init);
    }
    let ghost target = expansion(init, 0);
    let mut i: usize = 0;
    while i < result.len() && i < CANDIDATE_LIMIT
        invariant
            engine_inv(input, result@),
            i <= CANDIDATE_LIMIT,
            result@.len() <= 1 + i * 2619,
            rules@.len() == RULE_COUNT,
            forall|k: int| 0 <= k < RULE_COUNT ==> rule_chars_agree(#[trigger] rules@[k], k),
            target == expansion(cands_view(result@), i as int),
        decreases CANDIDATE_LIMIT - i,
    {
        expand_candidate(&mut result, i, &rules, Ghost(input));
        i = i + 1;
    }
    proof {
        assert(cands_view(result@) == target);
    }
    // Keep only candidates that are valid final dictionary-entry types.
    let mut out: Vec<CandidateWord> = Vec::new();
    let mut j: usize = 0;
    while j < result.len()
        invariant
            engine_inv(input, result@),
            j <= result@.len(),
            candidate_views(out@) == final_candidates(cands_view(result@).take(j as int)),
            j == 0 ==> out@.len() == 0,
            j > 0 ==> out@.len() >= 1 && out@[0].word@ == input && out@[0].word_type
                == INITIAL_TYPE && out@[0].reason_chains@.len() == 0,
            forall|t: int| 0 <= t < out@.len() ==> #[trigger] out@[t].word_type & ALL_FINAL != 0,
            forall|t: int| 0 <= t < out@.len() ==> derivable(input, #[trigger] out@[t].word@),
        decreases result@.len() - j,
    {
        let c = &result[j];
        proof {
            assert(cands_view(result@).take(j as int + 1).drop_last() =~= cands_view(result@).take(j as int));
            assert(cands_view(result@).take(j as int + 1).last() == cand_view(result@[j as int]));
        }
        if c.word_type & ALL_FINAL != 0 {
            let cw = CandidateWord {
                word: string_from_chars(c.word.as_slice()),
                word_type: c.word_type,
                reason_chains: clone_chains(&c.chains),
            };
            proof {
                if j == 0 {
                    assert(chains_view(cw.reason_chains@).len() == 0);
                    assert(cw.reason_chains@.len() == 0);
                    assert(cw.word@ == input);
                    assert(cw.word_type == INITIAL_TYPE);
                }
            }
            let ghost old_out = out@;
            out.push(cw);
            proof {
                if j > 0 {
                    assert(out@[0] == old_out[0]);
                }
                assert(candidate_views(out@) =~= candidate_views(old_out).push(cand_view(result@[j as int])));
            }
        } else {
            proof {
                if j == 0 {
                    assert(0xf4ffu16 & 127u16 != 0) by (bit_vector);
                    assert(false);
                }
            }
        }
        j = j + 1;
    }
    proof {
        assert(cands_view(result@).take(result@.len() as int) =~= cands_view(result@));
    }
    out
}

/// A rule applied to a candidate that has no reasons yet records exactly the
/// rule's reasons: when the candidate's type is one the rule takes and the
/// rewritten word (the candidate without the rule's ending, followed by the
/// rule's replacement) is not empty and new, that word is added with the
/// rule's type and the rule's reasons as its one reason chain.
pub proof fn lemma_rule_records_reasons(r: Seq<CandidateView>, c: CandidateView, from_len: int, k: int)
    requires
        0 <= k < RULE_COUNT,
        0 <= from_len <= c.0.len(),
        c.2.len() == 0,
        c.1 & spec_rule(k as usize).from_type != 0,
        spec_rule(k as usize).reasons@.len() > 0,
        (c.0.subrange(0, c.0.len() - from_len) + spec_rule(k as usize).to@).len() > 0,
        last_with_word(r, c.0.subrange(0, c.0.len() - from_len) + spec_rule(k as usize).to@) is None,
    ensures
        rule_applied(r, c, from_len, k) == r.push(
            (
                c.0.subrange(0, c.0.len() - from_len) + spec_rule(k as usize).to@,
                spec_rule(k as usize).to_type,
                seq![spec_rule(k as usize).reasons@],
            ),
        ),
{
    let rs = spec_rule(k as usize).reasons@;
    if exists|i: int, a: int, b: int|
        0 <= i < rs.len() && 0 <= a < c.2.len() && 0 <= b < c.2[a].len() && #[trigger] c.2[a][b] == #[trigger] rs[i] {
        assert(false);
    }
}

/// A masu, ta/te or irrealis stem whose plain form is new is forwarded to
/// that form (the stem followed by る, an Ichidan or Kuru verb) keeping the
/// stem's reason chains when it has any.
pub proof fn lemma_stem_forwarded(r: Seq<CandidateView>, c: CandidateView)
    requires
        c.1 & (MASU_STEM | TA_TE_STEM) != 0,
        c.1 & IRREALIS_STEM == 0,
        c.2.len() > 0,
        last_with_word(r, c.0.push('る')) is None,
    ensures
        forwarded(r, c) == r.push((c.0.push('る'), ICHIDAN_VERB | KURU_VERB, c.2)),
{
    let t = c.1;
    assert(t & (1024u16 | 256u16) != 0 ==> t & (1024u16 | 256u16 | 2048u16) != 0) by (bit_vector);
}

/// A rule applied to a candidate that already has reasons puts the rule's
/// reasons in front of the candidate's first chain (other than a causative
/// applied to a potential-or-passive, which becomes a causative passive, and
/// a masu stem, which adds nothing), when the candidate's type is one the rule
/// takes, none of the rule's reasons occurs yet, and the rewritten word is not
/// empty and new.
pub proof fn lemma_rule_extends_first_chain(r: Seq<CandidateView>, c: CandidateView, from_len: int, k: int)
    requires
        0 <= k < RULE_COUNT,
        c.2.len() > 0,
        c.1 & spec_rule(k as usize).from_type != 0,
        spec_rule(k as usize).reasons@.len() > 0,
        spec_rule(k as usize).reasons@[0] != Reason::MasuStem,
        !(spec_rule(k as usize).reasons@[0] == Reason::Causative && c.2[0].len() > 0 && c.2[0][0]
            == Reason::PotentialOrPassive),
        !reason_repeated(spec_rule(k as usize).reasons@, c.2),
        (c.0.subrange(0, c.0.len() - from_len) + spec_rule(k as usize).to@).len() > 0,
        last_with_word(r, c.0.subrange(0, c.0.len() - from_len) + spec_rule(k as usize).to@) is None,
    ensures
        rule_applied(r, c, from_len, k) == r.push(
            (
                c.0.subrange(0, c.0.len() - from_len) + spec_rule(k as usize).to@,
                spec_rule(k as usize).to_type,
                c.2.update(0, spec_rule(k as usize).reasons@ + c.2[0]),
            ),
        ),
{
}

} // verus!
