//! Mathematical model of the sorts in this crate: what it means to be sorted,
//! what a counting sort emits, and how the stair (bucket) sort splits its input.

use vstd::multiset::Multiset;
use vstd::prelude::*;
use vstd::relations::sorted_by;
use vstd::seq_lib::{lemma_multiset_commutative, lemma_sorted_unique};

verus! {

broadcast use {vstd::seq_lib::group_to_multiset_ensures, vstd::multiset::group_multiset_axioms};

/// Every entry of `s` is at most every entry after it.
pub open spec fn ascending(s: Seq<usize>) -> bool {
    forall|i: int, j: int| 0 <= i < j < s.len() ==> s[i] <= s[j]
}

/// The usual order on `usize`, as a relation.
pub open spec fn usize_le() -> spec_fn(usize, usize) -> bool {
    |a: usize, b: usize| a <= b
}

/// The values of `s` in ascending order, repeated values kept.
pub open spec fn sorted_of(s: Seq<usize>) -> Seq<usize> {
    choose|r: Seq<usize>| ascending(r) && r.to_multiset() == s.to_multiset()
}

/// `sorted_of` exists for every sequence and is an ascending permutation of it.
pub proof fn lemma_sorted_of(s: Seq<usize>)
    ensures
        ascending(sorted_of(s)),
        sorted_of(s).to_multiset() == s.to_multiset(),
        sorted_of(s).len() == s.len(),
{
    let w = s.sort_by(usize_le());
    s.lemma_sort_by_ensures(usize_le());
    assert(ascending(w)) by {
        assert forall|i: int, j: int| 0 <= i < j < w.len() implies w[i] <= w[j] by {
            assert(sorted_by(w, usize_le()));
            assert(usize_le()(w[i], w[j]));
        }
    }
    assert(ascending(w) && w.to_multiset() == s.to_multiset());
    let r = sorted_of(s);
    assert(r.to_multiset().len() == s.to_multiset().len());
}

/// An ascending permutation of `s` is `sorted_of(s)`: there is only one.
pub proof fn lemma_sorted_of_unique(r: Seq<usize>, s: Seq<usize>)
    requires
        ascending(r),
        r.to_multiset() == s.to_multiset(),
    ensures
        r == sorted_of(s),
{
    lemma_sorted_of(s);
    let t = sorted_of(s);
    assert(sorted_by(r, usize_le()));
    assert(sorted_by(t, usize_le()));
    lemma_sorted_unique(r, t, usize_le());
}


/// Two ascending sequences, every entry of the first at most every entry of
/// the second, concatenate to an ascending sequence.
pub proof fn lemma_ascending_concat(a: Seq<usize>, b: Seq<usize>)
    requires
        ascending(a),
        ascending(b),
        forall|i: int, j: int| 0 <= i < a.len() && 0 <= j < b.len() ==> a[i] <= b[j],
    ensures
        ascending(a + b),
{
    let c = a + b;
    assert forall|i: int, j: int| 0 <= i < j < c.len() implies c[i] <= c[j] by {
        if j < a.len() {
        } else if i >= a.len() {
            assert(c[i] == b[i - a.len()] && c[j] == b[j - a.len()]);
        } else {
            assert(c[i] == a[i] && c[j] == b[j - a.len()]);
        }
    }
}

/// How many times `x` occurs in `s`.
pub open spec fn occurrences(s: Seq<usize>, x: usize) -> nat {
    s.to_multiset().count(x)
}

/// `x` written `n` times.
pub open spec fn repeated(x: usize, n: nat) -> Seq<usize> {
    Seq::new(n, |_i: int| x)
}

proof fn lemma_repeated_count(x: usize, n: nat, y: usize)
    ensures
        repeated(x, n).to_multiset().count(y) == if y == x { n } else { 0 },
    decreases n,
{
    if n > 0 {
        lemma_repeated_count(x, (n - 1) as nat, y);
        assert(repeated(x, n) =~= repeated(x, (n - 1) as nat).push(x));
    } else {
        assert(repeated(x, n) =~= Seq::<usize>::empty());
    }
}

/// What a counting sort writes while walking the values `lo`, `lo + 1`, ...,
/// `lo + n - 1` upward: each value as many times as it occurs in `s`.
pub open spec fn emit_range(s: Seq<usize>, lo: nat, n: nat) -> Seq<usize>
    decreases n,
{
    if n == 0 {
        Seq::empty()
    } else {
        let x = (lo + n - 1) as usize;
        emit_range(s, lo, (n - 1) as nat) + repeated(x, occurrences(s, x))
    }
}

/// The emitted values are ascending, lie in the walked range, and each value of
/// that range is emitted exactly as often as it occurs in `s`.
pub proof fn lemma_emit_range(s: Seq<usize>, lo: nat, n: nat)
    requires
        lo + n <= usize::MAX + 1,
    ensures
        ascending(emit_range(s, lo, n)),
        forall|i: int|
            0 <= i < emit_range(s, lo, n).len() ==> lo <= #[trigger] emit_range(s, lo, n)[i] < lo
                + n,
        forall|x: usize|
            #[trigger] emit_range(s, lo, n).to_multiset().count(x) == if lo <= x < lo + n {
                occurrences(s, x)
            } else {
                0
            },
    decreases n,
{
    if n > 0 {
        let m = (n - 1) as nat;
        let x = (lo + n - 1) as usize;
        let a = emit_range(s, lo, m);
        let b = repeated(x, occurrences(s, x));
        lemma_emit_range(s, lo, m);
        lemma_ascending_concat(a, b);
        assert forall|y: usize| #[trigger]
            emit_range(s, lo, n).to_multiset().count(y) == if lo <= y < lo + n {
                occurrences(s, y)
            } else {
                0
            } by {
            lemma_repeated_count(x, occurrences(s, x), y);
            lemma_multiset_commutative(a, b);
        }
        assert forall|i: int| 0 <= i < emit_range(s, lo, n).len() implies lo <= #[trigger] emit_range(
            s,
            lo,
            n,
        )[i] < lo + n by {
            if i >= a.len() {
                assert(emit_range(s, lo, n)[i] == b[i - a.len()]);
            } else {
                assert(emit_range(s, lo, n)[i] == a[i]);
            }
        }
    } else {
        assert(emit_range(s, lo, n).to_multiset() =~= Multiset::empty());
    }
}

/// The least entry of a non-empty `s`.
pub open spec fn seq_min(s: Seq<usize>) -> usize
    decreases s.len(),
{
    if s.len() <= 1 {
        s[0]
    } else {
        let m = seq_min(s.drop_last());
        if s.last() < m {
            s.last()
        } else {
            m
        }
    }
}

/// The greatest entry of a non-empty `s`.
pub open spec fn seq_max(s: Seq<usize>) -> usize
    decreases s.len(),
{
    if s.len() <= 1 {
        s[0]
    } else {
        let m = seq_max(s.drop_last());
        if s.last() > m {
            s.last()
        } else {
            m
        }
    }
}

/// `seq_min` and `seq_max` are entries of `s` and bound all of its entries.
pub proof fn lemma_seq_min_max(s: Seq<usize>)
    requires
        s.len() > 0,
    ensures
        s.contains(seq_min(s)),
        s.contains(seq_max(s)),
        forall|i: int| 0 <= i < s.len() ==> seq_min(s) <= #[trigger] s[i] <= seq_max(s),
    decreases s.len(),
{
    if s.len() > 1 {
        let t = s.drop_last();
        lemma_seq_min_max(t);
        assert forall|i: int| 0 <= i < s.len() implies seq_min(s) <= #[trigger] s[i] <= seq_max(
            s,
        ) by {
            if i < t.len() {
                assert(s[i] == t[i]);
            }
        }
        let a = choose|i: int| 0 <= i < t.len() && t[i] == seq_min(t);
        let b = choose|i: int| 0 <= i < t.len() && t[i] == seq_max(t);
        assert(s[a] == t[a] && s[b] == t[b]);
        assert(s[s.len() - 1] == s.last());
    } else {
        assert(s[0] == seq_min(s));
    }
}

/// The output of a counting sort of `s`: walk from the least to the greatest
/// value of `s`, writing each value as often as it occurs.
pub open spec fn counting_sorted(s: Seq<usize>) -> Seq<usize> {
    if s.len() == 0 {
        Seq::empty()
    } else {
        emit_range(s, seq_min(s) as nat, (seq_max(s) - seq_min(s) + 1) as nat)
    }
}

/// Emitting over any range that covers every value of `s` gives the ascending
/// permutation of `s`.
pub proof fn lemma_emit_covering_range(s: Seq<usize>, lo: nat, n: nat)
    requires
        lo + n <= usize::MAX + 1,
        forall|i: int| 0 <= i < s.len() ==> lo <= #[trigger] s[i] < lo + n,
    ensures
        emit_range(s, lo, n) == sorted_of(s),
{
    lemma_emit_range(s, lo, n);
    let e = emit_range(s, lo, n);
    assert forall|x: usize| #[trigger] e.to_multiset().count(x) == s.to_multiset().count(x) by {
        if !(lo <= x < lo + n) {
            if s.to_multiset().count(x) > 0 {
                assert(s.contains(x));
                let i = choose|i: int| 0 <= i < s.len() && s[i] == x;
                assert(lo <= s[i] < lo + n);
            }
        }
    }
    assert(e.to_multiset() =~= s.to_multiset());
    lemma_sorted_of_unique(e, s);
}

/// A counting sort sorts: its output is the ascending permutation of its input.
pub proof fn lemma_counting_sorted(s: Seq<usize>)
    ensures
        counting_sorted(s) == sorted_of(s),
{
    if s.len() == 0 {
        lemma_sorted_of(s);
        assert(s.to_multiset().len() == 0);
        assert(sorted_of(s).len() == 0);
        assert(sorted_of(s) =~= counting_sorted(s));
    } else {
        lemma_seq_min_max(s);
        lemma_emit_covering_range(s, seq_min(s) as nat, (seq_max(s) - seq_min(s) + 1) as nat);
    }
}


/// How often `x` occurs among the entries of `s` that satisfy `p`.
pub proof fn lemma_filter_count(s: Seq<usize>, p: spec_fn(usize) -> bool, x: usize)
    ensures
        s.filter(p).to_multiset().count(x) == if p(x) {
            s.to_multiset().count(x)
        } else {
            0
        },
    decreases s.len(),
{
    if s.len() == 0 {
        reveal(Seq::filter);
        assert(s.filter(p).to_multiset() =~= Multiset::empty());
        assert(s.to_multiset() =~= Multiset::empty());
    } else {
        let t = s.drop_last();
        lemma_filter_count(t, p, x);
        assert(s =~= t.push(s.last()));
        t.lemma_filter_push(s.last(), p);
    }
}

/// The bucket rule: the largest `i < n` with `d > span * i / k`, or 0 when
/// there is none. `span * i / k` is the `i`-th threshold of `k` equal steps
/// over `span`.
pub open spec fn stair_index(d: nat, span: nat, k: nat, n: nat) -> nat
    decreases n,
{
    if n == 0 {
        0
    } else if d > span * ((n - 1) as nat) / k {
        (n - 1) as nat
    } else {
        stair_index(d, span, k, (n - 1) as nat)
    }
}

/// A larger offset never goes to an earlier bucket, and no bucket index
/// reaches `n`.
pub proof fn lemma_stair_index(d1: nat, d2: nat, span: nat, k: nat, n: nat)
    ensures
        d1 <= d2 ==> stair_index(d1, span, k, n) <= stair_index(d2, span, k, n),
        n > 0 ==> stair_index(d1, span, k, n) < n,
    decreases n,
{
    if n > 0 {
        lemma_stair_index(d1, d2, span, k, (n - 1) as nat);
    }
}

/// The bucket, out of `k`, that the value `x` goes to, for values from `lo`
/// to `lo + span`.
pub open spec fn bucket_of(x: usize, lo: usize, span: nat, k: nat) -> nat {
    stair_index((x - lo) as nat, span, k, k)
}

/// The entries of `v` that go to bucket `j`, in their order in `v`.
pub open spec fn bucket(v: Seq<usize>, lo: usize, span: nat, k: nat, j: nat) -> Seq<usize> {
    v.filter(|x: usize| bucket_of(x, lo, span, k) == j)
}

/// The `k` buckets of a non-empty `v`, over the range of its values.
pub open spec fn buckets(v: Seq<usize>, k: nat) -> Seq<Seq<usize>> {
    Seq::new(
        k,
        |j: int| bucket(v, seq_min(v), (seq_max(v) - seq_min(v)) as nat, k, j as nat),
    )
}

/// The counting sorts of the first `m` bins, concatenated in bin order.
pub open spec fn sorted_bins(bins: Seq<Seq<usize>>, m: nat) -> Seq<usize>
    decreases m,
{
    if m == 0 {
        Seq::empty()
    } else {
        sorted_bins(bins, (m - 1) as nat) + counting_sorted(bins[m - 1])
    }
}

/// What the stair sort of a non-empty `v` with `k` buckets returns.
pub open spec fn stair_sorted(v: Seq<usize>, k: nat) -> Seq<usize> {
    sorted_bins(buckets(v, k), k)
}

proof fn lemma_sorted_bins_prefix(v: Seq<usize>, k: nat, m: nat)
    requires
        v.len() > 0,
        k >= 1,
        m <= k,
    ensures
        ascending(sorted_bins(buckets(v, k), m)),
        forall|i: int|
            0 <= i < sorted_bins(buckets(v, k), m).len() ==> {
                let x = #[trigger] sorted_bins(buckets(v, k), m)[i];
                &&& v.contains(x)
                &&& bucket_of(x, seq_min(v), (seq_max(v) - seq_min(v)) as nat, k) < m
            },
        forall|x: usize|
            #[trigger] sorted_bins(buckets(v, k), m).to_multiset().count(x) == if bucket_of(
                x,
                seq_min(v),
                (seq_max(v) - seq_min(v)) as nat,
                k,
            ) < m {
                occurrences(v, x)
            } else {
                0
            },
    decreases m,
{
    let lo = seq_min(v);
    let span = (seq_max(v) - seq_min(v)) as nat;
    let bs = buckets(v, k);
    if m == 0 {
        assert(sorted_bins(bs, m).to_multiset() =~= Multiset::empty());
    } else {
        let j = (m - 1) as nat;
        lemma_sorted_bins_prefix(v, k, j);
        lemma_seq_min_max(v);
        let a = sorted_bins(bs, j);
        let b = counting_sorted(bs[j as int]);
        let p = |x: usize| bucket_of(x, lo, span, k) == j;
        assert(bs[j as int] == v.filter(p));
        lemma_counting_sorted(bs[j as int]);
        lemma_sorted_of(bs[j as int]);
        assert forall|y: usize| #[trigger]
            b.to_multiset().count(y) == if bucket_of(y, lo, span, k) == j {
                occurrences(v, y)
            } else {
                0
            } by {
            lemma_filter_count(v, p, y);
        }
        assert forall|i: int| 0 <= i < b.len() implies {
            &&& v.contains(#[trigger] b[i])
            &&& bucket_of(b[i], lo, span, k) == j
        } by {
            assert(b.contains(b[i]));
            assert(b.to_multiset().count(b[i]) > 0);
        }
        assert forall|i: int, l: int| 0 <= i < a.len() && 0 <= l < b.len() implies a[i] <= b[l] by {
            let x = a[i];
            let y = b[l];
            assert(v.contains(x) && v.contains(y));
            let ix = choose|q: int| 0 <= q < v.len() && v[q] == x;
            let iy = choose|q: int| 0 <= q < v.len() && v[q] == y;
            assert(lo <= v[ix] && lo <= v[iy]);
            lemma_stair_index((y - lo) as nat, (x - lo) as nat, span, k, k);
        }
        lemma_ascending_concat(a, b);
        lemma_multiset_commutative(a, b);
        let c = sorted_bins(bs, m);
        assert(c == a + b);
        assert forall|i: int| 0 <= i < c.len() implies {
            &&& v.contains(#[trigger] c[i])
            &&& bucket_of(c[i], lo, span, k) < m
        } by {
            if i >= a.len() {
                assert(c[i] == b[i - a.len()]);
            } else {
                assert(c[i] == a[i]);
            }
        }
    }
}

/// The stair sort sorts, whatever the number of buckets: it returns the
/// ascending permutation of its input.
pub proof fn lemma_stair_sorted(v: Seq<usize>, k: nat)
    requires
        v.len() > 0,
        k >= 1,
    ensures
        stair_sorted(v, k) == sorted_of(v),
{
    let lo = seq_min(v);
    let span = (seq_max(v) - seq_min(v)) as nat;
    let r = stair_sorted(v, k);
    lemma_sorted_bins_prefix(v, k, k);
    assert forall|x: usize| #[trigger] r.to_multiset().count(x) == v.to_multiset().count(x) by {
        lemma_stair_index((x - lo) as nat, (x - lo) as nat, span, k, k);
    }
    assert(r.to_multiset() =~= v.to_multiset());
    lemma_sorted_of_unique(r, v);
}

} // verus!
