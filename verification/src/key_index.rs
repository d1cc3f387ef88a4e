//! Compact binary key index for fast word existence checks.
//!
//! Format (`VRKIDX1`):
//! ```text
//! [0..8]    Magic: b"VRKIDX1\0"
//! [8..12]   Count: u32 little-endian — number of keys
//! [12..12+4*(count+1)]  Offsets: (count+1) × u32 LE — byte offsets into string data
//! [12+4*(count+1)..]    String data: raw UTF-8, keys concatenated in sorted order
//! ```
//!
//! Keys are stored sorted (lexicographic by bytes). `contains` does binary
//! search in O(log n).

use vstd::prelude::*;

use vstd::utf8::encode_utf8;

use crate::error::TentokuError;

verus! {

// ---------------------------------------------------------------------------
// Byte-string order
// ---------------------------------------------------------------------------

/// `a` sorts strictly before `b` in lexicographic byte order (a proper
/// prefix sorts first), as `[u8]`'s `Ord` does.
pub open spec fn lex_lt(a: Seq<u8>, b: Seq<u8>) -> bool
    decreases a.len(),
{
    if a.len() == 0 {
        b.len() > 0
    } else if b.len() == 0 {
        false
    } else if a[0] < b[0] {
        true
    } else if a[0] > b[0] {
        false
    } else {
        lex_lt(a.drop_first(), b.drop_first())
    }
}

pub proof fn lemma_lex_irreflexive(a: Seq<u8>)
    ensures
        !lex_lt(a, a),
    decreases a.len(),
{
    if a.len() > 0 {
        lemma_lex_irreflexive(a.drop_first());
    }
}

pub proof fn lemma_lex_transitive(a: Seq<u8>, b: Seq<u8>, c: Seq<u8>)
    requires
        lex_lt(a, b),
        lex_lt(b, c),
    ensures
        lex_lt(a, c),
    decreases a.len(),
{
    if a.len() > 0 && b.len() > 0 && c.len() > 0 && a[0] == b[0] && b[0] == c[0] {
        lemma_lex_transitive(a.drop_first(), b.drop_first(), c.drop_first());
    }
}

pub proof fn lemma_lex_total(a: Seq<u8>, b: Seq<u8>)
    ensures
        a == b || lex_lt(a, b) || lex_lt(b, a),
    decreases a.len(),
{
    if a.len() > 0 && b.len() > 0 && a[0] == b[0] {
        lemma_lex_total(a.drop_first(), b.drop_first());
        if a.drop_first() == b.drop_first() {
            assert(a =~= seq![a[0]] + a.drop_first());
            assert(b =~= seq![b[0]] + b.drop_first());
        }
    } else if a.len() == 0 && b.len() == 0 {
        assert(a =~= b);
    }
}

pub proof fn lemma_lex_asymmetric(a: Seq<u8>, b: Seq<u8>)
    requires
        lex_lt(a, b),
    ensures
        !lex_lt(b, a),
{
    if lex_lt(b, a) {
        lemma_lex_transitive(a, b, a);
        lemma_lex_irreflexive(a);
    }
}

/// After a common prefix of length `i`, the order is decided by the rest.
proof fn lemma_lex_skip(a: Seq<u8>, b: Seq<u8>, i: int)
    requires
        0 <= i <= a.len(),
        i <= b.len(),
        a.take(i) == b.take(i),
    ensures
        lex_lt(a, b) == lex_lt(a.skip(i), b.skip(i)),
    decreases i,
{
    if i > 0 {
        assert(a[0] == a.take(i)[0] && b[0] == b.take(i)[0]);
        assert(a.drop_first().take(i - 1) =~= a.take(i).drop_first());
        assert(b.drop_first().take(i - 1) =~= b.take(i).drop_first());
        lemma_lex_skip(a.drop_first(), b.drop_first(), i - 1);
        assert(a.drop_first().skip(i - 1) =~= a.skip(i));
        assert(b.drop_first().skip(i - 1) =~= b.skip(i));
    } else {
        assert(a.skip(0) =~= a);
        assert(b.skip(0) =~= b);
    }
}

/// The outcome of comparing two byte strings.
pub enum KeyOrder {
    Before,
    Same,
    After,
}

/// Compares `data[lo..hi]` with `needle`.
fn compare_range(data: &[u8], lo: usize, hi: usize, needle: &[u8]) -> (r: KeyOrder)
    requires
        lo <= hi <= data@.len(),
    ensures
        r is Before <==> lex_lt(data@.subrange(lo as int, hi as int), needle@),
        r is Same <==> data@.subrange(lo as int, hi as int) == needle@,
        r is After <==> lex_lt(needle@, data@.subrange(lo as int, hi as int)),
{
    let ghost a = data@.subrange(lo as int, hi as int);
    let ghost b = needle@;
    let la = hi - lo;
    let lb = needle.len();
    let dlen = data.len();
    let mut i: usize = 0;
    while i < la && i < lb && data[lo + i] == needle[i]
        invariant
            dlen == data@.len(),
            hi == lo + la,
            i <= la,
            i <= lb,
            la == a.len(),
            lb == b.len(),
            lo + la <= data@.len(),
            a == data@.subrange(lo as int, hi as int),
            b == needle@,
            a.take(i as int) == b.take(i as int),
        decreases la - i,
    {
        proof {
            assert(a[i as int] == data@[lo + i]);
            assert(a.take(i as int + 1) =~= a.take(i as int).push(a[i as int]));
            assert(b.take(i as int + 1) =~= b.take(i as int).push(b[i as int]));
        }
        i = i + 1;
    }
    proof {
        lemma_lex_skip(a, b, i as int);
        lemma_lex_skip(b, a, i as int);
        lemma_lex_total(a, b);
        lemma_lex_irreflexive(a);
        if lex_lt(a, b) {
            lemma_lex_asymmetric(a, b);
        }
        if lex_lt(b, a) {
            lemma_lex_asymmetric(b, a);
        }
    }
    if i == la && i == lb {
        proof {
            assert(a =~= a.take(i as int));
            assert(b =~= b.take(i as int));
        }
        KeyOrder::Same
    } else if i == la {
        proof {
            assert(a.skip(i as int).len() == 0);
            if a == b {
                assert(a.len() == b.len());
            }
        }
        KeyOrder::Before
    } else if i == lb {
        proof {
            assert(b.skip(i as int).len() == 0);
            if a == b {
                assert(a.len() == b.len());
            }
        }
        KeyOrder::After
    } else if data[lo + i] < needle[i] {
        proof {
            assert(a.skip(i as int)[0] == a[i as int]);
            assert(b.skip(i as int)[0] == b[i as int]);
            if a == b {
                assert(a[i as int] == b[i as int]);
            }
        }
        KeyOrder::Before
    } else {
        proof {
            assert(a.skip(i as int)[0] == a[i as int]);
            assert(b.skip(i as int)[0] == b[i as int]);
            assert(a[i as int] == data@[lo + i]);
            if a == b {
                assert(a[i as int] == b[i as int]);
            }
        }
        KeyOrder::After
    }
}

fn compare_bytes(a: &Vec<u8>, b: &Vec<u8>) -> (r: KeyOrder)
    ensures
        r is Before <==> lex_lt(a@, b@),
        r is Same <==> a@ == b@,
        r is After <==> lex_lt(b@, a@),
{
    proof {
        assert(a@.subrange(0, a@.len() as int) =~= a@);
    }
    compare_range(a.as_slice(), 0, a.len(), b.as_slice())
}

// ---------------------------------------------------------------------------
// Sorting with duplicates removed
// ---------------------------------------------------------------------------

/// The byte strings held by a vector of byte vectors.
pub open spec fn byte_views(s: Seq<Vec<u8>>) -> Seq<Seq<u8>> {
    s.map_values(|v: Vec<u8>| v@)
}

/// Strictly increasing in byte order (so also free of duplicates).
pub open spec fn strictly_sorted(s: Seq<Seq<u8>>) -> bool {
    forall|i: int, j: int| 0 <= i < j < s.len() ==> lex_lt(#[trigger] s[i], #[trigger] s[j])
}

/// `a` and `b` hold the same byte strings (ignoring order and repetition).
pub open spec fn same_members(a: Seq<Seq<u8>>, b: Seq<Seq<u8>>) -> bool {
    forall|x: Seq<u8>| a.contains(x) <==> b.contains(x)
}

fn copy_bytes(v: &Vec<u8>) -> (out: Vec<u8>)
    ensures
        out@ == v@,
{
    let mut out: Vec<u8> = Vec::new();
    let mut i: usize = 0;
    while i < v.len()
        invariant
            i <= v@.len(),
            out@ == v@.take(i as int),
        decreases v@.len() - i,
    {
        out.push(v[i]);
        proof {
            assert(v@.take(i as int + 1) =~= v@.take(i as int).push(v@[i as int]));
        }
        i = i + 1;
    }
    proof {
        assert(v@.take(v@.len() as int) =~= v@);
    }
    out
}

/// Merges two strictly sorted lists into one, keeping each byte string once.
fn merge_unique(a: &Vec<Vec<u8>>, b: &Vec<Vec<u8>>) -> (out: Vec<Vec<u8>>)
    requires
        strictly_sorted(byte_views(a@)),
        strictly_sorted(byte_views(b@)),
    ensures
        strictly_sorted(byte_views(out@)),
        same_members(byte_views(out@), byte_views(a@) + byte_views(b@)),
        out@.len() <= a@.len() + b@.len(),
{
    let ghost av = byte_views(a@);
    let ghost bv = byte_views(b@);
    let mut out: Vec<Vec<u8>> = Vec::new();
    let mut i: usize = 0;
    let mut j: usize = 0;
    while i < a.len() || j < b.len()
        invariant
            i <= a@.len(),
            j <= b@.len(),
            av == byte_views(a@),
            bv == byte_views(b@),
            strictly_sorted(av),
            strictly_sorted(bv),
            strictly_sorted(byte_views(out@)),
            out@.len() <= i + j,
            same_members(byte_views(out@), av.take(i as int) + bv.take(j as int)),
            forall|k: int|
                0 <= k < out@.len() ==> (i < a@.len() ==> lex_lt(#[trigger] byte_views(out@)[k], av[i as int]))
                    && (j < b@.len() ==> lex_lt(byte_views(out@)[k], bv[j as int])),
        decreases a@.len() + b@.len() - i - j,
    {
        let ghost old_out = byte_views(out@);
        let ghost oi = i;
        let ghost oj = j;
        let take_a: bool;
        let take_b: bool;
        if i == a.len() {
            take_a = false;
            take_b = true;
        } else if j == b.len() {
            take_a = true;
            take_b = false;
        } else {
            match compare_bytes(&a[i], &b[j]) {
                KeyOrder::Before => {
                    take_a = true;
                    take_b = false;
                },
                KeyOrder::After => {
                    take_a = false;
                    take_b = true;
                },
                KeyOrder::Same => {
                    take_a = true;
                    take_b = true;
                },
            }
        }
        let x = if take_a {
            copy_bytes(&a[i])
        } else {
            copy_bytes(&b[j])
        };
        out.push(x);
        if take_a {
            i = i + 1;
        }
        if take_b {
            j = j + 1;
        }
        proof {
            let nv = byte_views(out@);
            assert(nv =~= old_out.push(x@));
            assert(x@ == if take_a { av[oi as int] } else { bv[oj as int] });
            // The new element is below the remaining heads.
            if i < a@.len() {
                if take_a {
                    assert(lex_lt(av[oi as int], av[i as int]));
                } else {
                    assert(lex_lt(bv[oj as int], av[i as int]));
                }
            }
            if j < b@.len() {
                if take_b {
                    assert(lex_lt(bv[oj as int], bv[j as int]));
                } else {
                    assert(lex_lt(av[oi as int], bv[j as int]));
                }
            }
            assert forall|k: int|
                0 <= k < nv.len() implies (i < a@.len() ==> lex_lt(#[trigger] nv[k], av[i as int])) && (j
                < b@.len() ==> lex_lt(nv[k], bv[j as int])) by {
                if k < old_out.len() {
                    assert(nv[k] == old_out[k]);
                    if i < a@.len() && take_a {
                        lemma_lex_transitive(old_out[k], av[oi as int], av[i as int]);
                    }
                    if j < b@.len() && take_b {
                        lemma_lex_transitive(old_out[k], bv[oj as int], bv[j as int]);
                    }
                }
            }
            assert forall|p: int, q: int| 0 <= p < q < nv.len() implies lex_lt(#[trigger] nv[p], #[trigger] nv[q]) by {
                if q == nv.len() - 1 {
                    assert(nv[q] == x@);
                    assert(nv[p] == old_out[p]);
                } else {
                    assert(nv[p] == old_out[p] && nv[q] == old_out[q]);
                }
            }
            assert(av.take(i as int) =~= if take_a { av.take(oi as int).push(av[oi as int]) } else { av.take(oi as int) });
            assert(bv.take(j as int) =~= if take_b { bv.take(oj as int).push(bv[oj as int]) } else { bv.take(oj as int) });
            assert forall|y: Seq<u8>| nv.contains(y) <==> (av.take(i as int) + bv.take(j as int)).contains(y) by {
                let before = av.take(oi as int) + bv.take(oj as int);
                let after = av.take(i as int) + bv.take(j as int);
                if nv.contains(y) {
                    let k = choose|k: int| 0 <= k < nv.len() && nv[k] == y;
                    if k < old_out.len() {
                        assert(old_out[k] == y);
                        assert(old_out.contains(y));
                        assert(before.contains(y));
                        let t = choose|t: int| 0 <= t < before.len() && before[t] == y;
                        if t < oi {
                            assert(after[t] == y);
                        } else {
                            assert(after[i as int + (t - oi)] == y);
                        }
                    } else {
                        if take_a {
                            assert(after[oi as int] == y);
                        } else {
                            assert(after[i as int + oj] == y);
                        }
                    }
                }
                if after.contains(y) {
                    let t = choose|t: int| 0 <= t < after.len() && after[t] == y;
                    if t < i {
                        if take_a && t == oi {
                            assert(nv[nv.len() - 1] == y);
                        } else {
                            assert(before[t] == y);
                            assert(old_out.contains(y));
                            let k = choose|k: int| 0 <= k < old_out.len() && old_out[k] == y;
                            assert(nv[k] == y);
                        }
                    } else {
                        let u = t - i;
                        if take_b && u == oj {
                            if take_a {
                                assert(av[oi as int] == bv[oj as int]);
                            }
                            assert(nv[nv.len() - 1] == y);
                        } else {
                            assert(before[oi + u] == y);
                            assert(old_out.contains(y));
                            let k = choose|k: int| 0 <= k < old_out.len() && old_out[k] == y;
                            assert(nv[k] == y);
                        }
                    }
                }
            }
        }
    }
    proof {
        assert(av.take(a@.len() as int) =~= av);
        assert(bv.take(b@.len() as int) =~= bv);
    }
    out
}

/// The byte strings `v[lo..hi]`, sorted, each once.
fn sort_unique_range(v: &Vec<Vec<u8>>, lo: usize, hi: usize) -> (out: Vec<Vec<u8>>)
    requires
        lo <= hi <= v@.len(),
    ensures
        strictly_sorted(byte_views(out@)),
        same_members(byte_views(out@), byte_views(v@).subrange(lo as int, hi as int)),
        out@.len() <= hi - lo,
    decreases hi - lo,
{
    let ghost src = byte_views(v@).subrange(lo as int, hi as int);
    if hi - lo == 0 {
        let out: Vec<Vec<u8>> = Vec::new();
        proof {
            assert(byte_views(out@) =~= src);
        }
        return out;
    }
    if hi - lo == 1 {
        let mut out: Vec<Vec<u8>> = Vec::new();
        out.push(copy_bytes(&v[lo]));
        proof {
            assert(byte_views(out@) =~= src);
        }
        return out;
    }
    let mid = lo + (hi - lo) / 2;
    let left = sort_unique_range(v, lo, mid);
    let right = sort_unique_range(v, mid, hi);
    let out = merge_unique(&left, &right);
    proof {
        let lv = byte_views(v@).subrange(lo as int, mid as int);
        let rv = byte_views(v@).subrange(mid as int, hi as int);
        assert(src =~= lv + rv);
        assert forall|y: Seq<u8>| (byte_views(left@) + byte_views(right@)).contains(y) <==> src.contains(y) by {
            let s1 = byte_views(left@) + byte_views(right@);
            if s1.contains(y) {
                let t = choose|t: int| 0 <= t < s1.len() && s1[t] == y;
                if t < byte_views(left@).len() {
                    assert(byte_views(left@).contains(y));
                    let u = choose|u: int| 0 <= u < lv.len() && lv[u] == y;
                    assert(src[u] == y);
                } else {
                    assert(byte_views(right@)[t - byte_views(left@).len()] == y);
                    assert(byte_views(right@).contains(y));
                    let u = choose|u: int| 0 <= u < rv.len() && rv[u] == y;
                    assert(src[lv.len() + u] == y);
                }
            }
            if src.contains(y) {
                let t = choose|t: int| 0 <= t < src.len() && src[t] == y;
                if t < lv.len() {
                    assert(lv[t] == y);
                    assert(lv.contains(y));
                    let u = choose|u: int| 0 <= u < byte_views(left@).len() && byte_views(left@)[u] == y;
                    assert(s1[u] == y);
                } else {
                    assert(rv[t - lv.len()] == y);
                    assert(rv.contains(y));
                    let u = choose|u: int| 0 <= u < byte_views(right@).len() && byte_views(right@)[u] == y;
                    assert(s1[byte_views(left@).len() + u] == y);
                }
            }
        }
    }
    out
}

// ---------------------------------------------------------------------------
// The byte format
// ---------------------------------------------------------------------------

/// The magic bytes `VRKIDX1\0`.
pub open spec fn magic() -> Seq<u8> {
    seq![86u8, 82u8, 75u8, 73u8, 68u8, 88u8, 49u8, 0u8]
}

/// The little-endian bytes of `x`.
pub open spec fn u32_le_bytes(x: u32) -> Seq<u8> {
    seq![
        (x % 256) as u8,
        ((x / 256) % 256) as u8,
        ((x / 65536) % 256) as u8,
        (x / 16777216) as u8,
    ]
}

/// The little-endian `u32` at byte position `at` of `b`.
pub open spec fn le_u32_at(b: Seq<u8>, at: int) -> int {
    b[at] as int + (b[at + 1] as int) * 256 + (b[at + 2] as int) * 65536 + (b[at + 3] as int)
        * 16777216
}

/// The little-endian bytes of each offset, in order.
pub open spec fn offsets_bytes(o: Seq<u32>) -> Seq<u8>
    decreases o.len(),
{
    if o.len() == 0 {
        Seq::empty()
    } else {
        offsets_bytes(o.drop_last()) + u32_le_bytes(o.last())
    }
}

/// The serialized form of an index with `count` keys.
pub open spec fn index_bytes(count: u32, offsets: Seq<u32>, data: Seq<u8>) -> Seq<u8> {
    magic() + u32_le_bytes(count) + offsets_bytes(offsets) + data
}

/// The key count stored in a serialized index.
pub open spec fn stored_count(b: Seq<u8>) -> int {
    le_u32_at(b, 8)
}

/// Where the offset table of a serialized index ends.
pub open spec fn offsets_end(b: Seq<u8>) -> int {
    12 + 4 * (stored_count(b) + 1)
}

/// The `k`-th stored offset.
pub open spec fn stored_offset(b: Seq<u8>, k: int) -> int {
    le_u32_at(b, 12 + 4 * k)
}

/// Where the key data of a serialized index ends.
pub open spec fn data_end(b: Seq<u8>) -> int {
    offsets_end(b) + stored_offset(b, stored_count(b))
}

/// The stored offsets never decrease.
pub open spec fn stored_offsets_monotone(b: Seq<u8>) -> bool {
    forall|i: int, j: int|
        0 <= i <= j <= stored_count(b) ==> #[trigger] stored_offset(b, i) <= #[trigger] stored_offset(b, j)
}

/// `b` begins with a complete serialized index whose offsets never decrease.
pub open spec fn is_complete_index(b: Seq<u8>) -> bool {
    &&& b.len() >= 12
    &&& b.subrange(0, 8) == magic()
    &&& b.len() >= offsets_end(b)
    &&& b.len() >= data_end(b)
    &&& stored_offsets_monotone(b)
}

proof fn lemma_u32_le_round_trip(x: u32)
    ensures
        le_u32_at(u32_le_bytes(x), 0) == x,
{
    assert((x % 256) + ((x / 256) % 256) * 256 + ((x / 65536) % 256) * 65536 + (x / 16777216)
        * 16777216 == x) by (bit_vector);
}

proof fn lemma_offsets_bytes(o: Seq<u32>)
    ensures
        offsets_bytes(o).len() == 4 * o.len(),
        forall|k: int| 0 <= k < o.len() ==> #[trigger] le_u32_at(offsets_bytes(o), 4 * k) == o[k],
    decreases o.len(),
{
    if o.len() > 0 {
        let prev = o.drop_last();
        lemma_offsets_bytes(prev);
        lemma_u32_le_round_trip(o.last());
        let all = offsets_bytes(o);
        assert(all == offsets_bytes(prev) + u32_le_bytes(o.last()));
        assert forall|k: int| 0 <= k < o.len() implies #[trigger] le_u32_at(all, 4 * k) == o[k] by {
            if k < prev.len() {
                assert(le_u32_at(offsets_bytes(prev), 4 * k) == prev[k]);
                assert(all[4 * k] == offsets_bytes(prev)[4 * k]);
                assert(all[4 * k + 1] == offsets_bytes(prev)[4 * k + 1]);
                assert(all[4 * k + 2] == offsets_bytes(prev)[4 * k + 2]);
                assert(all[4 * k + 3] == offsets_bytes(prev)[4 * k + 3]);
            } else {
                let u = u32_le_bytes(o.last());
                assert(all[4 * k] == u[0]);
                assert(all[4 * k + 1] == u[1]);
                assert(all[4 * k + 2] == u[2]);
                assert(all[4 * k + 3] == u[3]);
            }
        }
    }
}

/// The byte strings one after another.
pub open spec fn keys_concat(keys: Seq<Seq<u8>>) -> Seq<u8>
    decreases keys.len(),
{
    if keys.len() == 0 {
        Seq::empty()
    } else {
        keys_concat(keys.drop_last()) + keys.last()
    }
}

/// The total UTF-8 length of the keys.
pub open spec fn total_key_bytes(keys: Seq<String>) -> int {
    keys_concat(keys.map_values(|k: String| encode_utf8(k@))).len() as int
}

/// The offsets of keys stored one after another: where each key starts,
/// then where the last one ends.
pub open spec fn key_offsets(keys: Seq<Seq<u8>>) -> Seq<u32> {
    Seq::new((keys.len() + 1) as nat, |i: int| keys_concat(keys.take(i)).len() as u32)
}

/// The serialized form of an index holding `keys` in this order: the magic
/// bytes, the key count, the offsets of the keys, then the keys' bytes.
pub open spec fn index_layout(keys: Seq<Seq<u8>>) -> Seq<u8> {
    index_bytes(keys.len() as u32, key_offsets(keys), keys_concat(keys))
}

proof fn lemma_concat_take(s: Seq<Seq<u8>>, k: int)
    requires
        0 <= k < s.len(),
    ensures
        keys_concat(s.take(k + 1)) == keys_concat(s.take(k)) + s[k],
        keys_concat(s.take(k)).len() <= keys_concat(s).len(),
    decreases s.len(),
{
    assert(s.take(k + 1).drop_last() =~= s.take(k));
    if k + 1 < s.len() {
        lemma_concat_take(s.drop_last(), k);
        assert(s.drop_last().take(k) =~= s.take(k));
    } else {
        assert(s.take(k + 1) =~= s);
    }
}

proof fn lemma_concat_remove(s: Seq<Seq<u8>>, i: int)
    requires
        0 <= i < s.len(),
    ensures
        keys_concat(s).len() == keys_concat(s.remove(i)).len() + s[i].len(),
    decreases s.len(),
{
    if i == s.len() - 1 {
        assert(s.remove(i) =~= s.drop_last());
    } else {
        lemma_concat_remove(s.drop_last(), i);
        assert(s.remove(i).drop_last() =~= s.drop_last().remove(i));
        assert(s.remove(i).last() == s.last());
    }
}

/// Distinct byte strings taken from `t` are together no longer than `t`.
proof fn lemma_concat_len_sub(s: Seq<Seq<u8>>, t: Seq<Seq<u8>>)
    requires
        s.no_duplicates(),
        forall|i: int| 0 <= i < s.len() ==> t.contains(#[trigger] s[i]),
    ensures
        keys_concat(s).len() <= keys_concat(t).len(),
    decreases t.len(),
{
    if t.len() == 0 {
        if s.len() > 0 {
            assert(t.contains(s[0]));
        }
    } else {
        let x = t.last();
        let t2 = t.drop_last();
        if s.contains(x) {
            let i = choose|i: int| 0 <= i < s.len() && s[i] == x;
            let s2 = s.remove(i);
            lemma_concat_remove(s, i);
            assert forall|a: int| 0 <= a < s2.len() implies t2.contains(#[trigger] s2[a]) by {
                let b = if a < i {
                    a
                } else {
                    a + 1
                };
                assert(s2[a] == s[b]);
                assert(s[b] != x);
                assert(t.contains(s[b]));
                let j = choose|j: int| 0 <= j < t.len() && t[j] == s[b];
                assert(t2[j] == t[j]);
            }
            assert(s2.no_duplicates()) by {
                assert forall|a: int, b: int| 0 <= a < s2.len() && 0 <= b < s2.len() && a != b implies s2[a]
                    != s2[b] by {
                    let a2 = if a < i {
                        a
                    } else {
                        a + 1
                    };
                    let b2 = if b < i {
                        b
                    } else {
                        b + 1
                    };
                    assert(s2[a] == s[a2] && s2[b] == s[b2]);
                }
            }
            lemma_concat_len_sub(s2, t2);
        } else {
            assert forall|a: int| 0 <= a < s.len() implies t2.contains(#[trigger] s[a]) by {
                assert(t.contains(s[a]));
                let j = choose|j: int| 0 <= j < t.len() && t[j] == s[a];
                assert(t2[j] == t[j]);
            }
            lemma_concat_len_sub(s, t2);
        }
    }
}

/// After the first, every key of a strictly sorted list is non-empty, so the
/// keys hold at least one byte less than there are keys; with a key of two
/// or more bytes among them, at least as many bytes as keys.
proof fn lemma_concat_len_lower(s: Seq<Seq<u8>>)
    requires
        forall|i: int| 1 <= i < s.len() ==> (#[trigger] s[i]).len() >= 1,
    ensures
        keys_concat(s).len() + 1 >= s.len(),
        (exists|i: int| 1 <= i < s.len() && (#[trigger] s[i]).len() >= 2) ==> keys_concat(s).len() >= s.len(),
    decreases s.len(),
{
    if s.len() > 0 {
        let t = s.drop_last();
        assert forall|i: int| 1 <= i < t.len() implies (#[trigger] t[i]).len() >= 1 by {
            assert(t[i] == s[i]);
        }
        lemma_concat_len_lower(t);
        if exists|i: int| 1 <= i < s.len() && (#[trigger] s[i]).len() >= 2 {
            let i = choose|i: int| 1 <= i < s.len() && (#[trigger] s[i]).len() >= 2;
            if i < s.len() - 1 {
                assert(t[i] == s[i]);
            }
        }
    }
}

/// In a strictly sorted list whose keys after the first are single bytes,
/// those bytes climb by at least one from key to key.
proof fn lemma_single_bytes_climb(s: Seq<Seq<u8>>, i: int)
    requires
        strictly_sorted(s),
        forall|j: int| 1 <= j < s.len() ==> (#[trigger] s[j]).len() == 1,
        1 <= i < s.len(),
    ensures
        s[i][0] >= i - 1,
    decreases i,
{
    if i >= 2 {
        lemma_single_bytes_climb(s, i - 1);
        assert(lex_lt(s[i - 1], s[i]));
        assert(s[i - 1].drop_first().len() == 0 && s[i].drop_first().len() == 0);
        reveal_with_fuel(lex_lt, 2);
        assert(s[i - 1][0] < s[i][0]);
    }
}

/// Distinct sorted keys whose bytes fit in `u32::MAX` are at most
/// `u32::MAX` in number.
proof fn lemma_sorted_count_fits(s: Seq<Seq<u8>>)
    requires
        strictly_sorted(s),
        keys_concat(s).len() <= u32::MAX,
    ensures
        s.len() <= u32::MAX,
{
    assert forall|i: int| 1 <= i < s.len() implies (#[trigger] s[i]).len() >= 1 by {
        assert(lex_lt(s[0], s[i]));
    }
    lemma_concat_len_lower(s);
    if s.len() > u32::MAX {
        assert forall|j: int| 1 <= j < s.len() implies (#[trigger] s[j]).len() == 1 by {
            if s[j].len() >= 2 {
                assert(keys_concat(s).len() >= s.len());
            }
        }
        lemma_single_bytes_climb(s, s.len() - 1);
        assert(s[s.len() - 1][0] < 256);
    }
}

/// The layout's offsets: the first is 0 and each next one adds the byte
/// length of a key, so key `i` is the data between offsets `i` and `i + 1`.
pub proof fn lemma_layout_offsets(keys: Seq<Seq<u8>>)
    requires
        keys_concat(keys).len() <= u32::MAX,
    ensures
        key_offsets(keys).len() == keys.len() + 1,
        key_offsets(keys)[0] == 0,
        forall|i: int|
            0 <= i < keys.len() ==> #[trigger] key_offsets(keys)[i + 1] == key_offsets(keys)[i] + keys[i].len(),
        key_offsets(keys)[keys.len() as int] == keys_concat(keys).len(),
        forall|i: int, j: int|
            0 <= i <= j <= keys.len() ==> #[trigger] key_offsets(keys)[i] <= #[trigger] key_offsets(keys)[j],
        forall|i: int|
            0 <= i < keys.len() ==> keys_concat(keys).subrange(
                key_offsets(keys)[i] as int,
                key_offsets(keys)[i + 1] as int,
            ) == #[trigger] keys[i],
{
    assert(keys.take(0) =~= Seq::<Seq<u8>>::empty());
    assert(keys.take(keys.len() as int) =~= keys);
    assert forall|i: int, j: int| 0 <= i <= j <= keys.len() implies #[trigger] key_offsets(keys)[i]
        <= #[trigger] key_offsets(keys)[j] by {
        lemma_concat_prefix(keys.take(j), i);
        assert(keys.take(j).take(i) =~= keys.take(i));
        lemma_concat_prefix(keys, j);
    }
    assert forall|i: int| 0 <= i < keys.len() implies #[trigger] key_offsets(keys)[i + 1] == key_offsets(keys)[i]
        + keys[i].len() && keys_concat(keys).subrange(
        key_offsets(keys)[i] as int,
        key_offsets(keys)[i + 1] as int,
    ) == keys[i] by {
        lemma_concat_take(keys, i);
        lemma_concat_prefix(keys, i + 1);
        let pre = keys_concat(keys.take(i));
        let pre1 = keys_concat(keys.take(i + 1));
        assert(pre1 == pre + keys[i]);
        assert(pre1.len() <= keys_concat(keys).len());
        assert(keys_concat(keys).subrange(pre.len() as int, pre1.len() as int) =~= keys[i]) by {
            assert forall|t: int| 0 <= t < keys[i].len() implies keys_concat(keys)[pre.len() + t] == keys[i][t] by {
                assert(keys_concat(keys)[pre.len() + t] == pre1[pre.len() + t]);
            }
        }
    }
}

/// The bytes of the first `k` keys begin the bytes of all of them.
proof fn lemma_concat_prefix(s: Seq<Seq<u8>>, k: int)
    requires
        0 <= k <= s.len(),
    ensures
        keys_concat(s.take(k)).len() <= keys_concat(s).len(),
        forall|t: int| 0 <= t < keys_concat(s.take(k)).len() ==> #[trigger] keys_concat(s)[t] == keys_concat(s.take(k))[t],
    decreases s.len() - k,
{
    if k < s.len() {
        lemma_concat_take(s, k);
        lemma_concat_prefix(s, k + 1);
    } else {
        assert(s.take(k) =~= s);
    }
}

// ---------------------------------------------------------------------------
// The index
// ---------------------------------------------------------------------------

/// An in-memory key index built from a sorted list of UTF-8 strings.
pub struct KeyIndex {
    /// Number of keys.
    count: usize,
    /// Byte offsets into `data`; `offsets[i]` = start of key i, `offsets[count]` = end.
    offsets: Vec<u32>,
    /// Concatenated UTF-8 key bytes.
    data: Vec<u8>,
}

impl KeyIndex {
    /// The offsets delimit the keys within the data: one more offset than
    /// keys, never decreasing, the last one at the end of the data.
    #[verifier::type_invariant]
    pub closed spec fn well_formed(self) -> bool {
        &&& self.count <= u32::MAX
        &&& self.offsets@.len() == self.count + 1
        &&& forall|i: int, j: int|
            0 <= i <= j <= self.count ==> #[trigger] self.offsets@[i] <= #[trigger] self.offsets@[j]
        &&& self.offsets@[self.count as int] == self.data@.len()
    }

    /// The bytes of the `i`-th key.
    pub closed spec fn key_at(self, i: int) -> Seq<u8> {
        self.data@.subrange(self.offsets@[i] as int, self.offsets@[i + 1] as int)
    }

    /// The keys, in stored order.
    pub closed spec fn keys(self) -> Seq<Seq<u8>> {
        Seq::new(self.count as nat, |i: int| self.key_at(i))
    }

    /// The keys are stored in strictly increasing byte order.
    pub open spec fn is_sorted(self) -> bool {
        strictly_sorted(self.keys())
    }

    /// The serialized form of this index.
    pub closed spec fn spec_bytes(self) -> Seq<u8> {
        index_bytes(self.count as u32, self.offsets@, self.data@)
    }

    /// `b` begins with a serialized index holding exactly this index.
    pub closed spec fn is_read_from(self, b: Seq<u8>) -> bool {
        &&& is_complete_index(b)
        &&& self.count == stored_count(b)
        &&& forall|k: int| 0 <= k <= self.count ==> self.offsets@[k] == #[trigger] stored_offset(b, k)
        &&& self.data@ == b.subrange(offsets_end(b), data_end(b))
    }

    /// Build a `KeyIndex` from a list of strings.
    /// Duplicates are removed; keys are stored sorted. The offsets are 32-bit,
    /// so the keys' bytes must fit in `u32::MAX` (the number of distinct keys
    /// then fits as well).
    #[verifier::spinoff_prover]
    #[verifier::rlimit(50)]
    pub fn build(keys: Vec<String>) -> (idx: Self)
        requires
            total_key_bytes(keys@) <= u32::MAX,
        ensures
            idx.is_sorted(),
            same_members(idx.keys(), keys@.map_values(|k: String| encode_utf8(k@))),
            idx.spec_bytes() == index_layout(idx.keys()),
    {
        let mut all: Vec<Vec<u8>> = Vec::new();
        let mut i: usize = 0;
        while i < keys.len()
            invariant
                i <= keys@.len(),
                all@.len() == i,
                forall|t: int| 0 <= t < i ==> (#[trigger] all@[t])@ == encode_utf8(keys@[t]@),
            decreases keys@.len() - i,
        {
            let b = keys[i].as_str().as_bytes();
            let mut v: Vec<u8> = Vec::new();
            let mut q: usize = 0;
            while q < b.len()
                invariant
                    q <= b@.len(),
                    v@ == b@.take(q as int),
                decreases b@.len() - q,
            {
                v.push(b[q]);
                proof {
                    assert(b@.take(q as int + 1) =~= b@.take(q as int).push(b@[q as int]));
                }
                q = q + 1;
            }
            proof {
                assert(b@.take(b@.len() as int) =~= b@);
            }
            all.push(v);
            i = i + 1;
        }
        let sorted = sort_unique_range(&all, 0, all.len());
        proof {
            assert(byte_views(all@).subrange(0, all@.len() as int) =~= byte_views(all@));
            assert(byte_views(all@) =~= keys@.map_values(|k: String| encode_utf8(k@)));
        }
        let ghost bv = byte_views(sorted@);
        proof {
            assert(bv.no_duplicates()) by {
                assert forall|x: int, y: int| 0 <= x < bv.len() && 0 <= y < bv.len() && x != y implies bv[x]
                    != bv[y] by {
                    if bv[x] == bv[y] {
                        lemma_lex_irreflexive(bv[x]);
                        if x < y {
                            assert(lex_lt(bv[x], bv[y]));
                        } else {
                            assert(lex_lt(bv[y], bv[x]));
                        }
                    }
                }
            }
            assert forall|t: int| 0 <= t < bv.len() implies byte_views(all@).contains(#[trigger] bv[t]) by {
                assert(bv.contains(bv[t]));
            }
            lemma_concat_len_sub(bv, byte_views(all@));
            lemma_sorted_count_fits(bv);
        }
        let mut offsets: Vec<u32> = Vec::new();
        let mut data: Vec<u8> = Vec::new();
        let mut k: usize = 0;
        while k < sorted.len()
            invariant
                k <= sorted@.len(),
                bv == byte_views(sorted@),
                keys_concat(bv).len() <= u32::MAX,
                data@ == keys_concat(bv.take(k as int)),
                offsets@.len() == k,
                forall|a: int| 0 <= a < k ==> #[trigger] offsets@[a] as int == keys_concat(bv.take(a)).len(),
            decreases sorted@.len() - k,
        {
            proof {
                lemma_concat_take(bv, k as int);
            }
            let ghost old_data = data@;
            let ghost old_offsets = offsets@;
            offsets.push(data.len() as u32);
            let piece = &sorted[k];
            let mut q: usize = 0;
            while q < piece.len()
                invariant
                    q <= piece@.len(),
                    data@ == old_data + piece@.take(q as int),
                decreases piece@.len() - q,
            {
                data.push(piece[q]);
                proof {
                    assert(piece@.take(q as int + 1) =~= piece@.take(q as int).push(piece@[q as int]));
                }
                q = q + 1;
            }
            proof {
                assert(piece@.take(piece@.len() as int) =~= piece@);
                assert(piece@ == bv[k as int]);
                assert(data@ =~= keys_concat(bv.take(k as int + 1)));
                assert forall|a: int| 0 <= a < k + 1 implies #[trigger] offsets@[a] as int == keys_concat(
                    bv.take(a),
                ).len() by {
                    if a < k {
                        assert(offsets@[a] == old_offsets[a]);
                    }
                }
            }
            k = k + 1;
        }
        proof {
            assert(bv.take(bv.len() as int) =~= bv);
        }
        offsets.push(data.len() as u32);
        proof {
            lemma_layout_offsets(bv);
            assert(offsets@ =~= key_offsets(bv));
        }
        let idx = KeyIndex { count: sorted.len(), offsets, data };
        proof {
            assert(idx.keys() =~= bv) by {
                assert forall|a: int| 0 <= a < idx.count implies idx.keys()[a] == bv[a] by {
                    assert(idx.key_at(a) == keys_concat(bv).subrange(
                        key_offsets(bv)[a] as int,
                        key_offsets(bv)[a + 1] as int,
                    ));
                }
            }
            assert(idx.spec_bytes() == index_layout(idx.keys()));
        }
        idx
    }

    /// Number of keys in the index.
    pub fn len(&self) -> (n: usize)
        ensures
            n == self.keys().len(),
    {
        self.count
    }

    /// Returns `true` if the index contains `key` (binary search, O(log n)).
    /// On an index whose keys are sorted (every index `build` makes), this is
    /// exactly whether `key`'s UTF-8 bytes are among the keys.
    pub fn contains(&self, key: &str) -> (b: bool)
        ensures
            b ==> self.keys().contains(encode_utf8(key@)),
            self.is_sorted() ==> (b == self.keys().contains(encode_utf8(key@))),
    {
        proof {
            use_type_invariant(self);
        }
        let needle = key.as_bytes();
        let ghost nb = encode_utf8(key@);
        let mut lo: usize = 0;
        let mut hi: usize = self.count;
        while lo < hi
            invariant
                lo <= hi <= self.count,
                self.well_formed(),
                nb == encode_utf8(key@),
                needle@ == nb,
                self.is_sorted() ==> forall|t: int| 0 <= t < lo ==> lex_lt(#[trigger] self.keys()[t], nb),
                self.is_sorted() ==> forall|t: int| hi <= t < self.count ==> lex_lt(nb, #[trigger] self.keys()[t]),
            decreases hi - lo,
        {
            let mid = lo + (hi - lo) / 2;
            let start = self.offsets[mid] as usize;
            let end = self.offsets[mid + 1] as usize;
            proof {
                assert(self.offsets@[mid as int] <= self.offsets@[mid + 1]);
                assert(self.offsets@[mid + 1] <= self.offsets@[self.count as int]);
                assert(self.keys()[mid as int] == self.data@.subrange(start as int, end as int));
            }
            match compare_range(self.data.as_slice(), start, end, needle) {
                KeyOrder::Same => {
                    proof {
                        assert(self.keys()[mid as int] == nb);
                        assert(self.keys().contains(nb));
                    }
                    return true;
                },
                KeyOrder::Before => {
                    proof {
                        if self.is_sorted() {
                            assert forall|t: int| 0 <= t < mid + 1 implies lex_lt(#[trigger] self.keys()[t], nb) by {
                                if t < mid {
                                    assert(lex_lt(self.keys()[t], self.keys()[mid as int]));
                                    lemma_lex_transitive(self.keys()[t], self.keys()[mid as int], nb);
                                }
                            }
                        }
                    }
                    lo = mid + 1;
                },
                KeyOrder::After => {
                    proof {
                        if self.is_sorted() {
                            assert forall|t: int| mid <= t < self.count implies lex_lt(nb, #[trigger] self.keys()[t]) by {
                                if t > mid {
                                    assert(lex_lt(self.keys()[mid as int], self.keys()[t]));
                                    lemma_lex_transitive(nb, self.keys()[mid as int], self.keys()[t]);
                                }
                            }
                        }
                    }
                    hi = mid;
                },
            }
        }
        proof {
            if self.is_sorted() && self.keys().contains(nb) {
                let t = choose|t: int| 0 <= t < self.keys().len() && self.keys()[t] == nb;
                lemma_lex_irreflexive(nb);
                if t < lo {
                    assert(lex_lt(self.keys()[t], nb));
                } else {
                    assert(lex_lt(nb, self.keys()[t]));
                }
            }
        }
        false
    }

    /// Serialise by appending to `w`.
    pub fn write_to(&self, w: &mut Vec<u8>) -> (res: Result<(), TentokuError>)
        ensures
            res is Ok,
            final(w)@ == old(w)@ + self.spec_bytes(),
    {
        proof {
            use_type_invariant(self);
        }
        let ghost start = w@;
        w.push(86u8);
        w.push(82u8);
        w.push(75u8);
        w.push(73u8);
        w.push(68u8);
        w.push(88u8);
        w.push(49u8);
        w.push(0u8);
        proof {
            assert(w@ =~= start + magic());
        }
        push_u32_le(w, self.count as u32);
        let ghost after_count = w@;
        let mut i: usize = 0;
        while i < self.offsets.len()
            invariant
                i <= self.offsets@.len(),
                w@ == after_count + offsets_bytes(self.offsets@.take(i as int)),
            decreases self.offsets@.len() - i,
        {
            proof {
                assert(self.offsets@.take(i as int + 1).drop_last() =~= self.offsets@.take(i as int));
            }
            push_u32_le(w, self.offsets[i]);
            proof {
                assert(w@ =~= after_count + offsets_bytes(self.offsets@.take(i as int + 1)));
            }
            i = i + 1;
        }
        proof {
            assert(self.offsets@.take(self.offsets@.len() as int) =~= self.offsets@);
        }
        let ghost after_offsets = w@;
        let mut d: usize = 0;
        while d < self.data.len()
            invariant
                d <= self.data@.len(),
                w@ == after_offsets + self.data@.take(d as int),
            decreases self.data@.len() - d,
        {
            w.push(self.data[d]);
            proof {
                assert(self.data@.take(d as int + 1) =~= self.data@.take(d as int).push(self.data@[d as int]));
            }
            d = d + 1;
        }
        proof {
            assert(self.data@.take(self.data@.len() as int) =~= self.data@);
            assert(w@ =~= start + self.spec_bytes());
        }
        Ok(())
    }

    /// Deserialise from the start of `r`.
    ///
    /// Offsets that decrease are refused with an `Index` error here, at
    /// reading time, since such offsets delimit no keys: every later lookup
    /// in the index would have to slice the key data backwards.
    #[verifier::loop_isolation(false)]
    pub fn read_from(r: &[u8]) -> (res: Result<Self, TentokuError>)
        ensures
            r@.len() < 8 ==> res matches Err(TentokuError::Io(_)),
            r@.len() >= 8 && r@.subrange(0, 8) != magic() ==> (res matches Err(
                TentokuError::Index(m),
            ) && m@ == "bad magic bytes"@),
            r@.len() >= 8 && r@.subrange(0, 8) == magic() && (r@.len() < 12 || r@.len() < offsets_end(r@)
                || r@.len() < data_end(r@)) ==> res matches Err(TentokuError::Io(_)),
            r@.len() >= 12 && r@.subrange(0, 8) == magic() && r@.len() >= offsets_end(r@) && r@.len()
                >= data_end(r@) && !stored_offsets_monotone(r@) ==> (res matches Err(
                TentokuError::Index(m),
            ) && m@ == "bad offsets"@),
            is_complete_index(r@) ==> (res matches Ok(idx) && idx.is_read_from(r@)),
    {
        if r.len() < 8 {
            return Err(TentokuError::Io(unexpected_eof()));
        }
        let mut m: usize = 0;
        let magic_bytes: [u8; 8] = [86u8, 82u8, 75u8, 73u8, 68u8, 88u8, 49u8, 0u8];
        while m < 8
            invariant
                m <= 8,
                r@.len() >= 8,
                magic_bytes@ == magic(),
                forall|t: int| 0 <= t < m ==> r@[t] == magic()[t],
            decreases 8 - m,
        {
            if r[m] != magic_bytes[m] {
                proof {
                    assert(r@.subrange(0, 8)[m as int] != magic()[m as int]);
                }
                return Err(TentokuError::Index("bad magic bytes".to_owned()));
            }
            m = m + 1;
        }
        proof {
            assert(r@.subrange(0, 8) =~= magic());
        }
        if r.len() < 12 {
            return Err(TentokuError::Io(unexpected_eof()));
        }
        let stored = read_u32_le(r, 8);
        if ((r.len() - 12) / 4) as u64 <= stored as u64 {
            return Err(TentokuError::Io(unexpected_eof()));
        }
        let count = stored as usize;
        let offset_count = count + 1;
        let mut offsets: Vec<u32> = Vec::new();
        let mut k: usize = 0;
        while k < offset_count
            invariant
                k <= offset_count,
                offset_count == count + 1,
                count == stored_count(r@),
                12 + 4 * offset_count <= r@.len(),
                offsets@.len() == k,
                forall|t: int| 0 <= t < k ==> #[trigger] offsets@[t] == stored_offset(r@, t),
            decreases offset_count - k,
        {
            offsets.push(read_u32_le(r, 12 + 4 * k));
            k = k + 1;
        }
        let off_end = 12 + 4 * offset_count;
        let data_len = offsets[count] as usize;
        if r.len() - off_end < data_len {
            return Err(TentokuError::Io(unexpected_eof()));
        }
        let mut data: Vec<u8> = Vec::new();
        let mut d: usize = 0;
        while d < data_len
            invariant
                d <= data_len,
                off_end + data_len <= r@.len(),
                data@ == r@.subrange(off_end as int, off_end + d),
            decreases data_len - d,
        {
            data.push(r[off_end + d]);
            proof {
                assert(r@.subrange(off_end as int, off_end + d + 1) =~= r@.subrange(off_end as int, off_end + d).push(r@[off_end + d]));
            }
            d = d + 1;
        }
        // The offsets must delimit the keys within the data.
        let mut t: usize = 0;
        while t < count
            invariant
                t <= count,
                offsets@.len() == count + 1,
                forall|a: int, b: int| 0 <= a <= b <= t ==> #[trigger] offsets@[a] <= #[trigger] offsets@[b],
            decreases count - t,
        {
            if offsets[t] > offsets[t + 1] {
                proof {
                    assert(stored_offset(r@, t as int) > stored_offset(r@, t + 1));
                }
                return Err(TentokuError::Index("bad offsets".to_owned()));
            }
            t = t + 1;
        }
        proof {
            assert forall|a: int, b: int| 0 <= a <= b <= stored_count(r@) implies #[trigger] stored_offset(r@, a)
                <= #[trigger] stored_offset(r@, b) by {
                assert(offsets@[a] <= offsets@[b]);
            }
        }
        Ok(KeyIndex { count, offsets, data })
    }
}

/// The I/O error for input that ends too early (`io::ErrorKind::UnexpectedEof`).
#[verifier::external_body]
fn unexpected_eof() -> std::io::Error {
    std::io::Error::from(std::io::ErrorKind::UnexpectedEof)
}

fn push_u32_le(w: &mut Vec<u8>, x: u32)
    ensures
        final(w)@ == old(w)@ + u32_le_bytes(x),
{
    w.push((x % 256) as u8);
    w.push(((x / 256) % 256) as u8);
    w.push(((x / 65536) % 256) as u8);
    w.push((x / 16777216) as u8);
    proof {
        assert(final(w)@ =~= old(w)@ + u32_le_bytes(x));
    }
}

fn read_u32_le(r: &[u8], at: usize) -> (x: u32)
    requires
        at + 4 <= r@.len(),
    ensures
        x as int == le_u32_at(r@, at as int),
{
    r[at] as u32 + (r[at + 1] as u32) * 256 + (r[at + 2] as u32) * 65536 + (r[at + 3] as u32)
        * 16777216
}

/// Reading back what `write_to` wrote gives the same index: the bytes of any
/// index, followed by anything, hold a complete index with exactly its count,
/// offsets and data.
pub proof fn lemma_read_back(idx: KeyIndex, rest: Seq<u8>)
    requires
        idx.well_formed(),
    ensures
        is_complete_index(idx.spec_bytes() + rest),
        idx.is_read_from(idx.spec_bytes() + rest),
{
    let b = idx.spec_bytes() + rest;
    let cb = u32_le_bytes(idx.count as u32);
    let ob = offsets_bytes(idx.offsets@);
    lemma_offsets_bytes(idx.offsets@);
    lemma_u32_le_round_trip(idx.count as u32);
    assert(b =~= magic() + cb + ob + idx.data@ + rest);
    assert(b.subrange(0, 8) =~= magic());
    assert(b[8] == cb[0] && b[9] == cb[1] && b[10] == cb[2] && b[11] == cb[3]);
    assert(stored_count(b) == idx.count);
    assert forall|k: int| 0 <= k <= idx.count implies #[trigger] stored_offset(b, k) == idx.offsets@[k] by {
        assert(le_u32_at(ob, 4 * k) == idx.offsets@[k]);
        assert(b[12 + 4 * k] == ob[4 * k]);
        assert(b[12 + 4 * k + 1] == ob[4 * k + 1]);
        assert(b[12 + 4 * k + 2] == ob[4 * k + 2]);
        assert(b[12 + 4 * k + 3] == ob[4 * k + 3]);
    }
    assert(offsets_end(b) == 12 + ob.len());
    assert(stored_offset(b, stored_count(b)) == idx.data@.len());
    assert(b.subrange(offsets_end(b), data_end(b)) =~= idx.data@);
}


/// What a read gives back of a write: an index read from the bytes that
/// another index writes (followed by anything) holds the same keys.
pub proof fn lemma_read_gives_back_keys(written: KeyIndex, read: KeyIndex, rest: Seq<u8>)
    requires
        written.well_formed(),
        read.is_read_from(written.spec_bytes() + rest),
    ensures
        read.keys() == written.keys(),
{
    lemma_read_back(written, rest);
    let b = written.spec_bytes() + rest;
    assert(read.count == written.count);
    assert(read.data@ == written.data@);
    assert forall|i: int| 0 <= i < read.count implies #[trigger] read.key_at(i) == written.key_at(i) by {
        assert(read.offsets@[i] == stored_offset(b, i));
        assert(written.offsets@[i] == stored_offset(b, i));
        assert(read.offsets@[i + 1] == stored_offset(b, i + 1));
        assert(written.offsets@[i + 1] == stored_offset(b, i + 1));
    }
    assert(read.keys() =~= written.keys());
}

/// An index holding, in sorted order, exactly the UTF-8 encodings of `keys`
/// (what `build` makes) answers `contains` for exactly those keys.
pub proof fn lemma_built_index_answers(idx: KeyIndex, keys: Seq<String>, key: Seq<char>)
    requires
        idx.is_sorted(),
        same_members(idx.keys(), keys.map_values(|k: String| encode_utf8(k@))),
    ensures
        idx.keys().contains(encode_utf8(key)) <==> exists|i: int| 0 <= i < keys.len() && #[trigger] keys[i]@ == key,
{
    let enc = keys.map_values(|k: String| encode_utf8(k@));
    if idx.keys().contains(encode_utf8(key)) {
        assert(enc.contains(encode_utf8(key)));
        let i = choose|i: int| 0 <= i < enc.len() && enc[i] == encode_utf8(key);
        vstd::utf8::encode_utf8_decode_utf8(keys[i]@);
        vstd::utf8::encode_utf8_decode_utf8(key);
        assert(keys[i]@ == key);
    }
    if exists|i: int| 0 <= i < keys.len() && #[trigger] keys[i]@ == key {
        let i = choose|i: int| 0 <= i < keys.len() && #[trigger] keys[i]@ == key;
        assert(enc[i] == encode_utf8(key));
        assert(enc.contains(encode_utf8(key)));
    }
}

} // verus!
