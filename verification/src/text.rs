//! Character-sequence helpers shared by the text-processing modules.

use vstd::prelude::*;

verus! {

/// The characters of `s`, in order.
pub fn to_chars(s: &str) -> (v: Vec<char>)
    ensures
        v@ == s@,
{
    let mut v: Vec<char> = Vec::new();
    for c in it: s.chars()
        invariant
            v@ == it.seq().take(it.index() as int),
            it.seq() == s@,
    {
        v.push(c);
    }
    v
}

/// Builds a `String` holding exactly the characters of `chars`.
#[verifier::external_body]
pub(crate) fn string_from_chars(chars: &[char]) -> (s: String)
    ensures
        s@ == chars@,
{
    chars.iter().collect()
}

/// `v` is a Unicode scalar value, i.e. a valid `char`.
pub open spec fn is_scalar_value(v: u32) -> bool {
    v <= 0x10FFFF && !(0xD800 <= v && v <= 0xDFFF)
}

/// `char::from_u32`: the character with code point `v`, if `v` is a scalar value.
#[verifier::external_body]
pub(crate) fn char_from_u32(v: u32) -> (r: Option<char>)
    ensures
        is_scalar_value(v) ==> r == Some(v as char),
        !is_scalar_value(v) ==> r is None,
{
    char::from_u32(v)
}

/// `p` is a prefix of `s`.
pub open spec fn has_prefix(s: Seq<char>, p: Seq<char>) -> bool {
    p.len() <= s.len() && s.subrange(0, p.len() as int) == p
}

/// `t` occurs in `s` at position `i`.
pub open spec fn occurs_at(s: Seq<char>, t: Seq<char>, i: int) -> bool {
    0 <= i && i + t.len() <= s.len() && s.subrange(i, i + t.len()) == t
}

/// `t` occurs somewhere in `s`.
pub open spec fn has_infix(s: Seq<char>, t: Seq<char>) -> bool {
    exists|i: int| #[trigger] occurs_at(s, t, i)
}

/// ASCII lower case of one character.
pub open spec fn ascii_lower_char(c: char) -> char {
    if 'A' <= c && c <= 'Z' {
        ((c as u32) + 32) as char
    } else {
        c
    }
}

/// ASCII lower case, character by character.
pub open spec fn ascii_lower(s: Seq<char>) -> Seq<char> {
    s.map_values(|c: char| ascii_lower_char(c))
}

/// Whether `p` is a prefix of `s`.
pub fn starts_with_chars(s: &[char], p: &[char]) -> (b: bool)
    ensures
        b == has_prefix(s@, p@),
{
    if p.len() > s.len() {
        return false;
    }
    let mut i: usize = 0;
    while i < p.len()
        invariant
            i <= p@.len(),
            p@.len() <= s@.len(),
            forall|j: int| 0 <= j < i ==> s@[j] == p@[j],
        decreases p@.len() - i,
    {
        if s[i] != p[i] {
            proof {
                assert(s@.subrange(0, p@.len() as int)[i as int] != p@[i as int]);
            }
            return false;
        }
        i = i + 1;
    }
    proof {
        assert(s@.subrange(0, p@.len() as int) =~= p@);
    }
    true
}

/// Whether `t` occurs in `s` at position `at`.
pub fn occurs_at_chars(s: &[char], t: &[char], at: usize) -> (b: bool)
    ensures
        b == occurs_at(s@, t@, at as int),
{
    if at > s.len() || t.len() > s.len() - at {
        return false;
    }
    let slen = s.len();
    let mut i: usize = 0;
    while i < t.len()
        invariant
            slen == s@.len(),
            i <= t@.len(),
            at + t@.len() <= s@.len(),
            forall|j: int| 0 <= j < i ==> s@[at + j] == t@[j],
        decreases t@.len() - i,
    {
        if s[at + i] != t[i] {
            proof {
                assert(s@.subrange(at as int, at + t@.len())[i as int] != t@[i as int]);
            }
            return false;
        }
        i = i + 1;
    }
    proof {
        assert(s@.subrange(at as int, at + t@.len()) =~= t@);
    }
    true
}

/// Whether `t` occurs somewhere in `s`.
pub fn contains_chars(s: &[char], t: &[char]) -> (b: bool)
    ensures
        b == has_infix(s@, t@),
{
    if t.len() > s.len() {
        proof {
            assert forall|i: int| !occurs_at(s@, t@, i) by {}
        }
        return false;
    }
    let last = s.len() - t.len();
    let mut i: usize = 0;
    loop
        invariant
            t@.len() <= s@.len(),
            last == s@.len() - t@.len(),
            i <= last,
            forall|j: int| 0 <= j < i ==> !occurs_at(s@, t@, j),
        decreases last - i,
    {
        if occurs_at_chars(s, t, i) {
            return true;
        }
        if i == last {
            proof {
                assert forall|j: int| !occurs_at(s@, t@, j) by {
                    if 0 <= j && j + t@.len() <= s@.len() {
                        assert(j <= i);
                    }
                }
            }
            return false;
        }
        i = i + 1;
    }
}

/// ASCII lower case of a character vector.
pub fn to_ascii_lower(s: &[char]) -> (out: Vec<char>)
    ensures
        out@ == ascii_lower(s@),
{
    let mut out: Vec<char> = Vec::new();
    let mut i: usize = 0;
    while i < s.len()
        invariant
            i <= s@.len(),
            out@ == ascii_lower(s@.take(i as int)),
        decreases s@.len() - i,
    {
        let c = s[i];
        let l = if 'A' <= c && c <= 'Z' {
            match char_from_u32((c as u32) + 32) {
                Some(x) => x,
                None => c,
            }
        } else {
            c
        };
        proof {
            assert(s@.take(i as int + 1) =~= s@.take(i as int).push(s@[i as int]));
        }
        out.push(l);
        proof {
            assert(out@ =~= ascii_lower(s@.take(i as int + 1)));
        }
        i = i + 1;
    }
    proof {
        assert(s@.take(s@.len() as int) =~= s@);
    }
    out
}

/// Whether two character slices are equal.
pub fn chars_equal(a: &[char], b: &[char]) -> (r: bool)
    ensures
        r == (a@ == b@),
{
    if a.len() != b.len() {
        return false;
    }
    let mut i: usize = 0;
    while i < a.len()
        invariant
            i <= a@.len(),
            a@.len() == b@.len(),
            forall|j: int| 0 <= j < i ==> a@[j] == b@[j],
        decreases a@.len() - i,
    {
        if a[i] != b[i] {
            return false;
        }
        i = i + 1;
    }
    proof {
        assert(a@ =~= b@);
    }
    true
}

/// Whether the string `s` equals the literal `lit`.
pub fn str_is(s: &[char], lit: &str) -> (r: bool)
    ensures
        r == (s@ == lit@),
{
    let l = to_chars(lit);
    chars_equal(s, l.as_slice())
}

/// Unicode White_Space characters (those for which `char::is_whitespace` holds).
pub open spec fn is_ws(c: char) -> bool {
    let v = c as u32;
    (0x9 <= v && v <= 0xD) || v == 0x20 || v == 0x85 || v == 0xA0 || v == 0x1680 || (0x2000 <= v
        && v <= 0x200A) || v == 0x2028 || v == 0x2029 || v == 0x202F || v == 0x205F || v == 0x3000
}

/// `t[a..b]` is `t` with leading and trailing white space removed.
pub open spec fn trim_bounds(t: Seq<char>, a: int, b: int) -> bool {
    &&& 0 <= a <= b <= t.len()
    &&& forall|k: int| 0 <= k < a ==> is_ws(#[trigger] t[k])
    &&& forall|k: int| b <= k < t.len() ==> is_ws(#[trigger] t[k])
    &&& a < b ==> !is_ws(t[a]) && !is_ws(t[b - 1])
    &&& a == b ==> forall|k: int| 0 <= k < t.len() ==> is_ws(#[trigger] t[k])
}

/// `x` is `t` trimmed of white space at both ends (as `str::trim` does).
pub open spec fn trims_to(t: Seq<char>, x: Seq<char>) -> bool {
    exists|a: int, b: int| trim_bounds(t, a, b) && #[trigger] t.subrange(a, b) == x
}

/// The parts of `s` between occurrences of `sep`, in order (as
/// `str::split(sep)` yields them: the empty string has one empty part).
pub open spec fn split_on(s: Seq<char>, sep: char) -> Seq<Seq<char>>
    decreases s.len(),
{
    if s.len() == 0 {
        seq![Seq::<char>::empty()]
    } else {
        let prev = split_on(s.drop_last(), sep);
        if s.last() == sep {
            prev.push(Seq::<char>::empty())
        } else {
            prev.update(prev.len() - 1, prev.last().push(s.last()))
        }
    }
}

/// Splitting always gives at least one part.
pub proof fn lemma_split_on_nonempty(s: Seq<char>, sep: char)
    ensures
        split_on(s, sep).len() >= 1,
    decreases s.len(),
{
    if s.len() > 0 {
        lemma_split_on_nonempty(s.drop_last(), sep);
    }
}

/// `t` trimmed of white space at both ends.
pub open spec fn spec_trim(t: Seq<char>) -> Seq<char> {
    choose|x: Seq<char>| trims_to(t, x)
}

/// The parts of `s` between occurrences of `sep`, each trimmed of white space.
pub open spec fn trimmed_parts(s: Seq<char>, sep: char) -> Seq<Seq<char>> {
    split_on(s, sep).map_values(|f: Seq<char>| spec_trim(f))
}

/// The comma-separated fields of `s`, each trimmed of white space.
pub open spec fn trimmed_fields(s: Seq<char>) -> Seq<Seq<char>> {
    trimmed_parts(s, ',')
}

/// Whether `c` is white space.
pub fn char_is_ws(c: char) -> (b: bool)
    ensures
        b == is_ws(c),
{
    let v = c as u32;
    (0x9 <= v && v <= 0xD) || v == 0x20 || v == 0x85 || v == 0xA0 || v == 0x1680 || (0x2000 <= v
        && v <= 0x200A) || v == 0x2028 || v == 0x2029 || v == 0x202F || v == 0x205F || v == 0x3000
}

/// Trimming has a single result.
pub proof fn lemma_trims_to_unique(t: Seq<char>, x: Seq<char>, y: Seq<char>)
    requires
        trims_to(t, x),
        trims_to(t, y),
    ensures
        x == y,
{
    let (a, b) = choose|a: int, b: int| trim_bounds(t, a, b) && #[trigger] t.subrange(a, b) == x;
    let (a2, b2) = choose|a: int, b: int| trim_bounds(t, a, b) && #[trigger] t.subrange(a, b) == y;
    if a < b && a2 < b2 {
        if a < a2 {
            assert(is_ws(t[a]));
        }
        if a2 < a {
            assert(is_ws(t[a2]));
        }
        if b < b2 {
            assert(is_ws(t[b2 - 1]));
        }
        if b2 < b {
            assert(is_ws(t[b - 1]));
        }
    } else if a < b {
        assert(is_ws(t[a]));
    } else if a2 < b2 {
        assert(is_ws(t[a2]));
    } else {
        assert(x =~= y);
    }
}

/// `t[lo..hi]` with white space trimmed at both ends.
pub fn trim_range(t: &[char], lo: usize, hi: usize) -> (out: Vec<char>)
    requires
        lo <= hi <= t@.len(),
    ensures
        trims_to(t@.subrange(lo as int, hi as int), out@),
{
    let ghost f = t@.subrange(lo as int, hi as int);
    let mut a = lo;
    while a < hi && char_is_ws(t[a])
        invariant
            lo <= a <= hi,
            hi <= t@.len(),
            forall|k: int| lo <= k < a ==> is_ws(#[trigger] t@[k]),
        decreases hi - a,
    {
        a = a + 1;
    }
    let mut b = hi;
    while b > a && char_is_ws(t[b - 1])
        invariant
            lo <= a <= b <= hi,
            hi <= t@.len(),
            forall|k: int| b <= k < hi ==> is_ws(#[trigger] t@[k]),
        decreases b - a,
    {
        b = b - 1;
    }
    let mut out: Vec<char> = Vec::new();
    let mut k = a;
    while k < b
        invariant
            a <= k <= b,
            b <= t@.len(),
            out@ == t@.subrange(a as int, k as int),
        decreases b - k,
    {
        out.push(t[k]);
        proof {
            assert(t@.subrange(a as int, k as int + 1) =~= t@.subrange(a as int, k as int).push(t@[k as int]));
        }
        k = k + 1;
    }
    proof {
        let ra = a - lo;
        let rb = b - lo;
        assert forall|q: int| 0 <= q < ra implies is_ws(#[trigger] f[q]) by {
            assert(f[q] == t@[lo + q]);
        }
        assert forall|q: int| rb <= q < f.len() implies is_ws(#[trigger] f[q]) by {
            assert(f[q] == t@[lo + q]);
        }
        if ra == rb {
            assert forall|q: int| 0 <= q < f.len() implies is_ws(#[trigger] f[q]) by {
                assert(f[q] == t@[lo + q]);
                if q >= ra {
                    assert(q >= rb);
                }
            }
        } else {
            assert(f[ra as int] == t@[a as int]);
            assert(f[rb - 1] == t@[b - 1]);
        }
        assert(trim_bounds(f, ra as int, rb as int));
        assert(f.subrange(ra as int, rb as int) =~= out@);
    }
    out
}

/// Characters `lo..hi` of `t`, trimmed, as the specification's trim.
pub fn trim_range_spec(t: &[char], lo: usize, hi: usize) -> (out: Vec<char>)
    requires
        lo <= hi <= t@.len(),
    ensures
        out@ == spec_trim(t@.subrange(lo as int, hi as int)),
{
    let out = trim_range(t, lo, hi);
    proof {
        let f = t@.subrange(lo as int, hi as int);
        assert(trims_to(f, spec_trim(f)));
        lemma_trims_to_unique(f, out@, spec_trim(f));
    }
    out
}

/// The parts of `s` between occurrences of `sep`, each trimmed
/// (`s.split(sep).map(str::trim)`).
pub fn split_trimmed_on(s: &[char], sep: char) -> (out: Vec<Vec<char>>)
    ensures
        out@.len() == trimmed_parts(s@, sep).len(),
        forall|k: int| 0 <= k < out@.len() ==> (#[trigger] out@[k])@ == trimmed_parts(s@, sep)[k],
{
    let mut out: Vec<Vec<char>> = Vec::new();
    let mut start: usize = 0;
    let mut i: usize = 0;
    proof {
        assert(s@.take(0) =~= Seq::<char>::empty());
    }
    while i < s.len()
        invariant
            start <= i <= s@.len(),
            split_on(s@.take(i as int), sep).len() == out@.len() + 1,
            forall|k: int|
                0 <= k < out@.len() ==> (#[trigger] out@[k])@ == spec_trim(
                    split_on(s@.take(i as int), sep)[k],
                ),
            split_on(s@.take(i as int), sep).last() == s@.subrange(start as int, i as int),
        decreases s@.len() - i,
    {
        let ghost prev = split_on(s@.take(i as int), sep);
        proof {
            assert(s@.take(i as int + 1).drop_last() =~= s@.take(i as int));
            assert(s@.take(i as int + 1).last() == s@[i as int]);
        }
        if s[i] == sep {
            let f = trim_range_spec(s, start, i);
            out.push(f);
            start = i + 1;
            proof {
                let now = split_on(s@.take(i as int + 1), sep);
                assert(now == prev.push(Seq::<char>::empty()));
                assert forall|k: int| 0 <= k < out@.len() implies (#[trigger] out@[k])@ == spec_trim(
                    now[k],
                ) by {
                    if k < out@.len() - 1 {
                        assert(now[k] == prev[k]);
                    }
                }
                assert(s@.subrange(start as int, i as int + 1) =~= Seq::<char>::empty());
            }
        } else {
            proof {
                let now = split_on(s@.take(i as int + 1), sep);
                assert(now == prev.update(prev.len() - 1, prev.last().push(s@[i as int])));
                assert forall|k: int| 0 <= k < out@.len() implies (#[trigger] out@[k])@ == spec_trim(
                    now[k],
                ) by {
                    assert(now[k] == prev[k]);
                }
                assert(s@.subrange(start as int, i as int + 1) =~= s@.subrange(start as int, i as int).push(s@[i as int]));
            }
        }
        i = i + 1;
    }
    let f = trim_range_spec(s, start, s.len());
    out.push(f);
    proof {
        assert(s@.take(s@.len() as int) =~= s@);
        let all = split_on(s@, sep);
        assert forall|k: int| 0 <= k < out@.len() implies (#[trigger] out@[k])@ == trimmed_parts(s@, sep)[k] by {
            if k < out@.len() - 1 {
            } else {
                assert(all[k] == all.last());
            }
        }
    }
    out
}

/// The comma-separated fields of `s`, each trimmed (`s.split(',').map(str::trim)`).
pub fn split_trimmed(s: &[char]) -> (out: Vec<Vec<char>>)
    ensures
        out@.len() == trimmed_fields(s@).len(),
        forall|k: int| 0 <= k < out@.len() ==> (#[trigger] out@[k])@ == trimmed_fields(s@)[k],
{
    split_trimmed_on(s, ',')
}

} // verus!
