//! Summary statistics of a vector of unsigned integers.

use std::collections::HashMap;
use vstd::prelude::*;

use crate::sort_spec::occurrences;

verus! {

broadcast use {
    vstd::seq_lib::group_to_multiset_ensures,
    vstd::multiset::group_multiset_axioms,
    vstd::std_specs::hash::group_hash_axioms,
};

/// The sum of the entries of `s`.
pub open spec fn seq_sum(s: Seq<usize>) -> int
    decreases s.len(),
{
    if s.len() == 0 {
        0
    } else {
        seq_sum(s.drop_last()) + s.last()
    }
}

proof fn lemma_seq_sum_prefix(s: Seq<usize>, i: int)
    requires
        0 <= i <= s.len(),
    ensures
        seq_sum(s.take(i)) <= seq_sum(s),
    decreases s.len() - i,
{
    if i < s.len() {
        lemma_seq_sum_prefix(s, i + 1);
        assert(s.take(i + 1).drop_last() =~= s.take(i));
    } else {
        assert(s.take(i) =~= s);
    }
}

/// The mean of `v` rounded down, or `None` when `v` is empty or its sum does
/// not fit in a `usize`.
pub fn mean_floor(v: &[usize]) -> (r: Option<usize>)
    ensures
        r == if v@.len() == 0 || seq_sum(v@) > usize::MAX {
            None::<usize>
        } else {
            Some((seq_sum(v@) / (v@.len() as int)) as usize)
        },
{
    let length = v.len();
    if length == 0 {
        return None;
    }
    let mut total: usize = 0;
    let mut i: usize = 0;
    while i < length
        invariant
            length == v@.len(),
            i <= length,
            total == seq_sum(v@.take(i as int)),
        decreases length - i,
    {
        let e = v[i];
        proof {
            assert(v@.take(i as int + 1).drop_last() =~= v@.take(i as int));
        }
        if total > usize::MAX - e {
            proof {
                lemma_seq_sum_prefix(v@, i as int + 1);
            }
            return None;
        }
        total += e;
        i += 1;
    }
    proof {
        assert(v@.take(i as int) =~= v@);
    }
    Some(total / length)
}

/// The most frequent value of `v`: among equally frequent values, the one
/// that comes first in `v`. 0 for an empty `v`.
pub fn mode(v: &[usize]) -> (r: usize)
    ensures
        v@.len() == 0 ==> r == 0,
        v@.len() > 0 ==> v@.contains(r),
        forall|x: usize| #[trigger] occurrences(v@, x) <= occurrences(v@, r),
{
    let mut data_map: HashMap<usize, usize> = HashMap::new();
    let mut i: usize = 0;
    while i < v.len()
        invariant
            i <= v@.len(),
            forall|x: usize|
                #[trigger] occurrences(v@.take(i as int), x) == if data_map@.contains_key(x) {
                    data_map@[x] as nat
                } else {
                    0
                },
            forall|x: usize| #[trigger] data_map@.contains_key(x) ==> data_map@[x] <= i,
        decreases v@.len() - i,
    {
        let x = v[i];
        assert(v@.take(i as int + 1) =~= v@.take(i as int).push(x));
        assert(v@.take(i as int + 1).to_multiset() =~= v@.take(i as int).to_multiset().insert(x));
        let c: usize = match data_map.get(&x) {
            Some(c) => *c,
            None => 0,
        };
        let ghost prev = data_map@;
        data_map.insert(x, c + 1);
        assert forall|y: usize|
            #[trigger] occurrences(v@.take(i as int + 1), y) == if data_map@.contains_key(y) {
                data_map@[y] as nat
            } else {
                0
            } by {
            assert(occurrences(v@.take(i as int), y) == if prev.contains_key(y) {
                prev[y] as nat
            } else {
                0
            });
        }
        i += 1;
    }
    assert(v@.take(i as int) =~= v@);
    if v.len() == 0 {
        assert forall|x: usize| #[trigger] occurrences(v@, x) <= occurrences(v@, 0) by {
            assert(v@.to_multiset().len() == 0);
        }
        return 0;
    }
    let mut best = v[0];
    let mut best_count: usize = match data_map.get(&best) {
        Some(c) => *c,
        None => 0,
    };
    let mut j: usize = 1;
    while j < v.len()
        invariant
            1 <= j <= v@.len(),
            forall|x: usize|
                #[trigger] occurrences(v@, x) == if data_map@.contains_key(x) {
                    data_map@[x] as nat
                } else {
                    0
                },
            v@.contains(best),
            best_count == occurrences(v@, best),
            forall|k: int| 0 <= k < j ==> occurrences(v@, #[trigger] v@[k]) <= best_count,
        decreases v@.len() - j,
    {
        let x = v[j];
        let c: usize = match data_map.get(&x) {
            Some(c) => *c,
            None => 0,
        };
        if c > best_count {
            best = x;
            best_count = c;
        }
        j += 1;
    }
    assert forall|x: usize| #[trigger] occurrences(v@, x) <= occurrences(v@, best) by {
        if occurrences(v@, x) > 0 {
            assert(v@.contains(x));
            let k = choose|k: int| 0 <= k < v@.len() && v@[k] == x;
            assert(occurrences(v@, v@[k]) <= best_count);
        }
    }
    best
}

} // verus!
