//! The counting-sort kernel: tally each value, then walk the value range
//! upward writing every value as often as it was seen.

use std::collections::HashMap;
use vstd::prelude::*;

use crate::sort_spec::{
    counting_sorted, emit_range, lemma_counting_sorted, lemma_seq_min_max, occurrences, repeated,
    seq_max, seq_min, sorted_of,
};

verus! {

broadcast use {
    vstd::seq_lib::group_to_multiset_ensures,
    vstd::multiset::group_multiset_axioms,
    vstd::std_specs::hash::group_hash_axioms,
};

/// The tally goes into an array indexed by offset from the least value while
/// the value range is under this many times the number of values; past that,
/// into a hash map keyed by value.
pub const DENSE_RANGE_FACTOR: usize = 4;

/// The least and the greatest of `values`, in one pass.
pub fn min_max_of(values: &[usize]) -> (r: (usize, usize))
    requires
        values@.len() > 0,
    ensures
        r.0 == seq_min(values@),
        r.1 == seq_max(values@),
{
    let mut lo = values[0];
    let mut hi = values[0];
    let mut i: usize = 1;
    assert(values@.take(1) =~= seq![values@[0]]);
    while i < values.len()
        invariant
            1 <= i <= values@.len(),
            lo == seq_min(values@.take(i as int)),
            hi == seq_max(values@.take(i as int)),
        decreases values@.len() - i,
    {
        let x = values[i];
        assert(values@.take(i as int + 1).drop_last() =~= values@.take(i as int));
        if x > hi {
            hi = x;
        } else if x < lo {
            lo = x;
        }
        i += 1;
    }
    assert(values@.take(i as int) =~= values@);
    (lo, hi)
}

/// Appends `x` to `out`, `n` times.
fn push_repeated(out: &mut Vec<usize>, x: usize, n: usize)
    ensures
        final(out)@ == old(out)@ + repeated(x, n as nat),
{
    let mut j: usize = 0;
    while j < n
        invariant
            j <= n,
            out@ == old(out)@ + repeated(x, j as nat),
        decreases n - j,
    {
        out.push(x);
        j += 1;
        assert(out@ =~= old(out)@ + repeated(x, j as nat));
    }
}

/// Tally over `lo..=lo + span` in an array indexed by offset from `lo`, then
/// emit upward.
fn append_dense(values: &[usize], lo: usize, span: usize, out: &mut Vec<usize>)
    requires
        lo + span < usize::MAX,
        forall|i: int| 0 <= i < values@.len() ==> lo <= #[trigger] values@[i] && values@[i] - lo <= span,
    ensures
        final(out)@ == old(out)@ + emit_range(values@, lo as nat, span as nat + 1),
{
    let mut counts: Vec<usize> = vec![0; span + 1];
    let mut i: usize = 0;
    while i < values.len()
        invariant
            i <= values@.len(),
            lo + span < usize::MAX,
            counts@.len() == span + 1,
            forall|i: int| 0 <= i < values@.len() ==> lo <= #[trigger] values@[i] && values@[i] - lo <= span,
            forall|d: int|
                0 <= d <= span ==> #[trigger] counts@[d] == occurrences(
                    values@.take(i as int),
                    (lo + d) as usize,
                ) && counts@[d] <= i,
        decreases values@.len() - i,
    {
        let x = values[i];
        let d = x - lo;
        assert(values@.take(i as int + 1) =~= values@.take(i as int).push(x));
        assert(values@.take(i as int + 1).to_multiset() =~= values@.take(i as int).to_multiset().insert(x));
        counts.set(d, counts[d] + 1);
        i += 1;
    }
    assert(values@.take(i as int) =~= values@);
    let mut d: usize = 0;
    loop
        invariant
            d <= span,
            lo + span < usize::MAX,
            counts@.len() == span + 1,
            forall|e: int| 0 <= e <= span ==> #[trigger] counts@[e] == occurrences(values@, (lo + e) as usize),
            out@ == old(out)@ + emit_range(values@, lo as nat, d as nat),
        decreases span - d,
    {
        push_repeated(out, lo + d, counts[d]);
        assert(out@ =~= old(out)@ + emit_range(values@, lo as nat, d as nat + 1));
        if d == span {
            return;
        }
        d += 1;
    }
}

/// Tally in a hash map keyed by value, then walk `lo..=hi` upward looking each
/// value up.
fn append_sparse(values: &[usize], lo: usize, hi: usize, out: &mut Vec<usize>)
    requires
        lo <= hi,
    ensures
        final(out)@ == old(out)@ + emit_range(values@, lo as nat, (hi - lo + 1) as nat),
{
    let mut tally: HashMap<usize, usize> = HashMap::new();
    let mut i: usize = 0;
    while i < values.len()
        invariant
            i <= values@.len(),
            forall|x: usize|
                #[trigger] occurrences(values@.take(i as int), x) == if tally@.contains_key(x) {
                    tally@[x] as nat
                } else {
                    0
                },
            forall|x: usize| #[trigger] tally@.contains_key(x) ==> tally@[x] <= i,
        decreases values@.len() - i,
    {
        let x = values[i];
        assert(values@.take(i as int + 1) =~= values@.take(i as int).push(x));
        assert(values@.take(i as int + 1).to_multiset() =~= values@.take(i as int).to_multiset().insert(x));
        let c: usize = match tally.get(&x) {
            Some(c) => *c,
            None => 0,
        };
        let ghost prev = tally@;
        tally.insert(x, c + 1);
        assert forall|y: usize|
            #[trigger] occurrences(values@.take(i as int + 1), y) == if tally@.contains_key(y) {
                tally@[y] as nat
            } else {
                0
            } by {
            assert(occurrences(values@.take(i as int), y) == if prev.contains_key(y) {
                prev[y] as nat
            } else {
                0
            });
        }
        i += 1;
    }
    assert(values@.take(i as int) =~= values@);
    let mut x: usize = lo;
    loop
        invariant
            lo <= x <= hi,
            forall|y: usize|
                #[trigger] occurrences(values@, y) == if tally@.contains_key(y) {
                    tally@[y] as nat
                } else {
                    0
                },
            out@ == old(out)@ + emit_range(values@, lo as nat, (x - lo) as nat),
        decreases hi - x,
    {
        let c: usize = match tally.get(&x) {
            Some(c) => *c,
            None => 0,
        };
        push_repeated(out, x, c);
        assert(out@ =~= old(out)@ + emit_range(values@, lo as nat, (x - lo + 1) as nat));
        if x == hi {
            return;
        }
        x += 1;
    }
}

/// Appends the counting sort of `values` to `out`: the values of `values` in
/// ascending order, each as often as it occurs.
pub fn append_counting_sorted(values: &[usize], out: &mut Vec<usize>)
    ensures
        final(out)@ == old(out)@ + counting_sorted(values@),
{
    if values.len() == 0 {
        assert(old(out)@ + counting_sorted(values@) =~= old(out)@);
        return;
    }
    let (lo, hi) = min_max_of(values);
    proof {
        lemma_seq_min_max(values@);
    }
    let span = hi - lo;
    if hi < usize::MAX && span / DENSE_RANGE_FACTOR < values.len() {
        append_dense(values, lo, span, out);
    } else {
        append_sparse(values, lo, hi, out);
    }
}

/// Sorts `v` with one counting sort over its whole value range.
pub fn _count_sort(v: &[usize]) -> (r: Vec<usize>)
    ensures
        r@ == counting_sorted(v@),
        r@ == sorted_of(v@),
{
    let mut sorted_vector: Vec<usize> = Vec::new();
    append_counting_sorted(v, &mut sorted_vector);
    proof {
        assert(sorted_vector@ =~= counting_sorted(v@));
        lemma_counting_sorted(v@);
    }
    sorted_vector
}

} // verus!
