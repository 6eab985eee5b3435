//! The stair sort: split the input into `K` buckets by value range ("stairs"),
//! counting-sort each bucket, and concatenate the buckets in order.

use vstd::prelude::*;

use crate::counting::{append_counting_sorted, min_max_of};
use crate::sort_spec::{
    ascending, bucket, bucket_of, buckets, counting_sorted, lemma_counting_sorted,
    lemma_seq_min_max, lemma_sorted_of, lemma_stair_sorted, seq_max, seq_min,
    sorted_bins, sorted_of, stair_index, stair_sorted,
};

verus! {

broadcast use {vstd::seq_lib::group_to_multiset_ensures, vstd::multiset::group_multiset_axioms};

/// Why a sort was refused.
#[derive(Debug, Clone, Copy, PartialEq, Eq, Structural)]
pub enum SortError {
    /// There is nothing to sort: the least and greatest value are undefined.
    EmptyInput,
}

/// The bucket count actually used for a requested one: at least one bucket.
pub open spec fn effective_bucket_count(stair: usize) -> nat {
    if stair <= 1 {
        1
    } else {
        stair as nat
    }
}

/// The vector being sorted, its range, and the sorted output as it grows.
pub struct VectorInfo {
    pub base_vector: Vec<usize>,
    pub sorted_vector: Vec<usize>,
    pub min: usize,
    pub max: usize,
}

impl VectorInfo {
    /// Takes a non-empty vector to sort; its range starts as its first value.
    pub fn init(v: Vec<usize>) -> (r: VectorInfo)
        requires
            v@.len() > 0,
        ensures
            r.base_vector@ == v@,
            r.sorted_vector@ == Seq::<usize>::empty(),
            r.min == v@[0],
            r.max == v@[0],
    {
        let first = v[0];
        VectorInfo { base_vector: v, sorted_vector: Vec::new(), min: first, max: first }
    }

    /// Computes, stores and returns the least and greatest value to sort.
    pub fn min_max(&mut self) -> (r: (usize, usize))
        requires
            old(self).base_vector@.len() > 0,
        ensures
            r == (seq_min(old(self).base_vector@), seq_max(old(self).base_vector@)),
            final(self).min == r.0,
            final(self).max == r.1,
            final(self).base_vector == old(self).base_vector,
            final(self).sorted_vector == old(self).sorted_vector,
    {
        let (lo, hi) = min_max_of(self.base_vector.as_slice());
        self.min = lo;
        self.max = hi;
        (lo, hi)
    }
}

/// The buckets of one sort, with the thresholds that decide them.
pub struct Bins {
    pub bin_count: usize,
    pub thresholds: Vec<usize>,
    pub bins: Vec<Vec<usize>>,
}

/// The `i`-th of `k` equal steps over `span`: `span * i / k`, computed
/// without overflow.
fn threshold(span: usize, i: usize, k: usize) -> (t: usize)
    requires
        i < k,
    ensures
        t as int == (span as int) * (i as int) / (k as int),
{
    proof {
        assert((span as int) * (i as int) <= (span as int) * (k as int)) by (nonlinear_arith)
            requires
                i < k,
        ;
        vstd::arithmetic::div_mod::lemma_div_is_ordered(
            (span as int) * (i as int),
            (span as int) * (k as int),
            k as int,
        );
        vstd::arithmetic::div_mod::lemma_div_by_multiple(span as int, k as int);
        assert((span as int) * (i as int) <= u128::MAX) by (nonlinear_arith)
            requires
                span <= u64::MAX,
                i <= u64::MAX,
        ;
    }
    ((span as u128) * (i as u128) / (k as u128)) as usize
}

impl Bins {
    /// The contents of the buckets.
    pub open spec fn bins_view(&self) -> Seq<Seq<usize>> {
        self.bins@.map_values(|b: Vec<usize>| b@)
    }

    /// Splits the values of `v` into `bin_count` buckets by the threshold rule,
    /// each bucket keeping the order of `v`. The values move out of `v`.
    pub fn init(bin_count: usize, v: &mut VectorInfo) -> (r: Bins)
        requires
            bin_count >= 1,
            old(v).base_vector@.len() > 0,
            old(v).min == seq_min(old(v).base_vector@),
            old(v).max == seq_max(old(v).base_vector@),
        ensures
            r.bin_count == bin_count,
            r.thresholds@ == Seq::new(
                bin_count as nat,
                |i: int| ((old(v).max - old(v).min) * i / (bin_count as int)) as usize,
            ),
            r.bins_view() == buckets(old(v).base_vector@, bin_count as nat),
            final(v).base_vector@ == Seq::<usize>::empty(),
            final(v).sorted_vector == old(v).sorted_vector,
            final(v).min == old(v).min,
            final(v).max == old(v).max,
    {
        let ghost base = v.base_vector@;
        let ghost k = bin_count as nat;
        proof {
            lemma_seq_min_max(base);
        }
        let lo = v.min;
        let span = v.max - v.min;
        let ghost sp = span as nat;
        let mut maxes: Vec<usize> = Vec::new();
        let mut i: usize = 0;
        while i < bin_count
            invariant
                i <= bin_count,
                k == bin_count as nat,
                sp == span as nat,
                maxes@.len() == i,
                forall|e: int| 0 <= e < i ==> #[trigger] maxes@[e] as int == (sp as int) * e / (k as int),
            decreases bin_count - i,
        {
            let t = threshold(span, i, bin_count);
            maxes.push(t);
            i += 1;
        }
        let mut stair_bins: Vec<Vec<usize>> = Vec::new();
        let mut j: usize = 0;
        while j < bin_count
            invariant
                j <= bin_count,
                stair_bins@.len() == j,
                forall|b: int| 0 <= b < j ==> (#[trigger] stair_bins@[b])@ == Seq::<usize>::empty(),
            decreases bin_count - j,
        {
            stair_bins.push(Vec::new());
            j += 1;
        }
        proof {
            assert forall|b: int| 0 <= b < k implies (#[trigger] stair_bins@[b])@ == bucket(
                base.take(0),
                lo,
                sp,
                k,
                b as nat,
            ) by {
                reveal(Seq::filter);
                assert(base.take(0).len() == 0);
            }
        }
        let mut p: usize = 0;
        while p < v.base_vector.len()
            invariant
                v.base_vector@ == base,
                k == bin_count as nat,
                k >= 1,
                sp == span as nat,
                v.min == lo,
                lo <= seq_min(base),
                seq_max(base) - lo == sp,
                forall|q: int| 0 <= q < base.len() ==> seq_min(base) <= #[trigger] base[q] <= seq_max(base),
                p <= base.len(),
                maxes@.len() == k,
                forall|e: int| 0 <= e < k ==> #[trigger] maxes@[e] as int == (sp as int) * e / (k as int),
                stair_bins@.len() == k,
                forall|b: int|
                    0 <= b < k ==> (#[trigger] stair_bins@[b])@ == bucket(
                        base.take(p as int),
                        lo,
                        sp,
                        k,
                        b as nat,
                    ),
            decreases base.len() - p,
        {
            let x = v.base_vector[p];
            let d = x - lo;
            let mut best_bin: usize = 0;
            let mut e: usize = 0;
            while e < maxes.len()
                invariant
                    e <= maxes@.len(),
                    maxes@.len() == k,
                    forall|e: int| 0 <= e < k ==> #[trigger] maxes@[e] as int == (sp as int) * e / (k as int),
                    best_bin == stair_index(d as nat, sp, k, e as nat),
                    best_bin < k,
                    k >= 1,
                decreases maxes@.len() - e,
            {
                if d > maxes[e] {
                    best_bin = e;
                }
                e += 1;
            }
            proof {
                assert(bucket_of(x, lo, sp, k) == best_bin);
                assert(base.take(p as int + 1) =~= base.take(p as int).push(x));
            }
            let ghost before = stair_bins@;
            stair_bins[best_bin].push(x);
            proof {
                assert forall|b: int| 0 <= b < k implies (#[trigger] stair_bins@[b])@ == bucket(
                    base.take(p as int + 1),
                    lo,
                    sp,
                    k,
                    b as nat,
                ) by {
                    base.take(p as int).lemma_filter_push(
                        x,
                        |y: usize| bucket_of(y, lo, sp, k) == b as nat,
                    );
                    if b != best_bin {
                        assert(stair_bins@[b] == before[b]);
                    }
                }
            }
            p += 1;
        }
        proof {
            assert(base.take(p as int) =~= base);
        }
        v.base_vector.clear();
        let r = Bins { bin_count, thresholds: maxes, bins: stair_bins };
        proof {
            assert(r.thresholds@ =~= Seq::new(
                bin_count as nat,
                |i: int| ((old(v).max - old(v).min) * i / (bin_count as int)) as usize,
            ));
            assert(r.bins_view() =~= buckets(base, k));
        }
        r
    }

    /// Counting-sorts each bucket in bucket order, appending the results to
    /// `v.sorted_vector`, and empties the buckets.
    pub fn sort_bins_optimized(&mut self, v: &mut VectorInfo)
        ensures
            final(v).sorted_vector@ == old(v).sorted_vector@ + sorted_bins(
                old(self).bins_view(),
                old(self).bins@.len(),
            ),
            final(v).base_vector == old(v).base_vector,
            final(v).min == old(v).min,
            final(v).max == old(v).max,
            final(self).bin_count == old(self).bin_count,
            final(self).thresholds == old(self).thresholds,
            final(self).bins@.len() == old(self).bins@.len(),
            forall|b: int|
                0 <= b < final(self).bins@.len() ==> (#[trigger] final(self).bins@[b])@
                    == Seq::<usize>::empty(),
    {
        let ghost bins = old(self).bins_view();
        let n = self.bins.len();
        let mut j: usize = 0;
        while j < n
            invariant
                j <= n,
                n == bins.len(),
                self.bins@.len() == n,
                self.bin_count == old(self).bin_count,
                self.thresholds == old(self).thresholds,
                v.base_vector == old(v).base_vector,
                v.min == old(v).min,
                v.max == old(v).max,
                forall|b: int| 0 <= b < j ==> (#[trigger] self.bins@[b])@ == Seq::<usize>::empty(),
                forall|b: int| j <= b < n ==> (#[trigger] self.bins@[b])@ == bins[b],
                v.sorted_vector@ == old(v).sorted_vector@ + sorted_bins(bins, j as nat),
            decreases n - j,
        {
            append_counting_sorted(self.bins[j].as_slice(), &mut v.sorted_vector);
            let ghost before = self.bins@;
            self.bins[j].clear();
            proof {
                assert(v.sorted_vector@ =~= old(v).sorted_vector@ + sorted_bins(bins, j as nat + 1));
                assert forall|b: int| j < b < n implies (#[trigger] self.bins@[b])@ == bins[b] by {
                    assert(self.bins@[b] == before[b]);
                }
                assert forall|b: int| 0 <= b < j implies (#[trigger] self.bins@[b])@ == Seq::<
                    usize,
                >::empty() by {
                    assert(self.bins@[b] == before[b]);
                }
            }
            j += 1;
        }
    }
}

/// Sorts `v` ascending with `stair` buckets (fewer than one counts as one).
/// The bucket count changes the time and memory a sort takes, never its
/// result. An empty `v` is refused.
pub fn run(v: Vec<usize>, stair: usize) -> (r: Result<Vec<usize>, SortError>)
    ensures
        match r {
            Ok(s) => {
                &&& v@.len() > 0
                &&& s@ == stair_sorted(v@, effective_bucket_count(stair))
                &&& s@ == sorted_of(v@)
                &&& ascending(s@)
                &&& s@.to_multiset() == v@.to_multiset()
                &&& s@.len() == v@.len()
            },
            Err(e) => v@.len() == 0 && e == SortError::EmptyInput,
        },
{
    if v.len() == 0 {
        return Err(SortError::EmptyInput);
    }
    let stair: usize = if stair <= 1 {
        1
    } else {
        stair
    };
    let ghost input = v@;
    let mut vector = VectorInfo::init(v);
    vector.min_max();
    let mut bins = Bins::init(stair, &mut vector);
    proof {
        assert(bins.bins_view().len() == stair);
        assert(bins.bins@.len() == stair);
    }
    bins.sort_bins_optimized(&mut vector);
    proof {
        assert(vector.sorted_vector@ =~= stair_sorted(input, stair as nat));
        lemma_stair_sorted(input, stair as nat);
        lemma_sorted_of(input);
    }
    Ok(vector.sorted_vector)
}

/// Sorting keeps exactly the values it is given: the output of `run` is a
/// permutation of its input.
pub proof fn lemma_sort_is_permutation(v: Seq<usize>, stair: usize)
    requires
        v.len() > 0,
    ensures
        stair_sorted(v, effective_bucket_count(stair)).to_multiset() == v.to_multiset(),
{
    lemma_stair_sorted(v, effective_bucket_count(stair));
    lemma_sorted_of(v);
}

/// Each entry of the output of `run` is at most the entry after it.
pub proof fn lemma_sort_is_ascending(v: Seq<usize>, stair: usize)
    requires
        v.len() > 0,
    ensures
        forall|i: int|
            0 <= i < stair_sorted(v, effective_bucket_count(stair)).len() - 1 ==> #[trigger] stair_sorted(
                v,
                effective_bucket_count(stair),
            )[i] <= stair_sorted(v, effective_bucket_count(stair))[i + 1],
{
    lemma_stair_sorted(v, effective_bucket_count(stair));
    lemma_sorted_of(v);
}

/// Sorting the output of `run` again, with any bucket count, gives it back
/// unchanged.
pub proof fn lemma_sort_is_idempotent(v: Seq<usize>, stair1: usize, stair2: usize)
    requires
        v.len() > 0,
    ensures
        stair_sorted(stair_sorted(v, effective_bucket_count(stair1)), effective_bucket_count(stair2))
            == stair_sorted(v, effective_bucket_count(stair1)),
{
    let s = stair_sorted(v, effective_bucket_count(stair1));
    lemma_stair_sorted(v, effective_bucket_count(stair1));
    lemma_sorted_of(v);
    lemma_stair_sorted(s, effective_bucket_count(stair2));
    crate::sort_spec::lemma_sorted_of_unique(s, s);
}

/// The output of `run` is as long as its input.
pub proof fn lemma_sort_preserves_length(v: Seq<usize>, stair: usize)
    requires
        v.len() > 0,
    ensures
        stair_sorted(v, effective_bucket_count(stair)).len() == v.len(),
{
    lemma_stair_sorted(v, effective_bucket_count(stair));
    lemma_sorted_of(v);
}

/// The bucket count decides time and memory only: any two bucket counts give
/// the same output.
pub proof fn lemma_bucket_count_invariance(v: Seq<usize>, stair1: usize, stair2: usize)
    requires
        v.len() > 0,
    ensures
        stair_sorted(v, effective_bucket_count(stair1)) == stair_sorted(
            v,
            effective_bucket_count(stair2),
        ),
{
    lemma_stair_sorted(v, effective_bucket_count(stair1));
    lemma_stair_sorted(v, effective_bucket_count(stair2));
}

/// With a single bucket the stair sort is one counting sort over the whole
/// value range, the output of `_count_sort`.
pub proof fn lemma_single_bucket_is_counting_sort(v: Seq<usize>)
    requires
        v.len() > 0,
    ensures
        stair_sorted(v, effective_bucket_count(1)) == counting_sorted(v),
{
    lemma_stair_sorted(v, 1);
    lemma_counting_sorted(v);
}

} // verus!
