//! Memoizing an expensive calculation behind a closure.

use std::collections::HashMap;
use std::hash::Hash;
use vstd::prelude::*;
use vstd::std_specs::hash::obeys_key_model;

verus! {

broadcast use vstd::std_specs::hash::group_hash_axioms;

/// A calculation and the result of its first call, once made.
pub struct Cacher<T> where T: Fn(u32) -> u32 {
    calculation: T,
    value: Option<u32>,
}

impl<T> Cacher<T> where T: Fn(u32) -> u32 {
    /// The calculation.
    pub closed spec fn calculation(&self) -> T {
        self.calculation
    }

    /// The stored result, if the calculation has run.
    pub closed spec fn cached(&self) -> Option<u32> {
        self.value
    }

    /// A cacher that has not run `calculation` yet.
    pub fn new(calculation: T) -> (r: Cacher<T>)
        ensures
            r.calculation() == calculation,
            r.cached() is None,
    {
        Cacher { calculation, value: None }
    }

    /// The stored result if there is one (whatever `arg` is); else runs the
    /// calculation on `arg` and stores its result.
    pub fn value(&mut self, arg: u32) -> (r: u32)
        requires
            call_requires(old(self).calculation(), (arg,)),
        ensures
            final(self).calculation() == old(self).calculation(),
            final(self).cached() == Some(r),
            match old(self).cached() {
                Some(v) => r == v,
                None => call_ensures(old(self).calculation(), (arg,), r),
            },
    {
        match self.value {
            Some(v) => v,
            None => {
                let v = (self.calculation)(arg);
                self.value = Some(v);
                v
            },
        }
    }
}

/// A calculation and the results of its calls so far, by argument.
#[verifier::reject_recursive_types(A)]
#[verifier::reject_recursive_types(R)]
pub struct Cacher2<C, A, R> where C: Fn(A) -> R {
    calculation: C,
    value: HashMap<A, R>,
}

impl<C, A, R> Cacher2<C, A, R> where C: Fn(A) -> R, A: Eq + Hash + Copy, R: Copy {
    /// The calculation.
    pub closed spec fn calculation(&self) -> C {
        self.calculation
    }

    /// The stored results, by argument.
    pub closed spec fn cached(&self) -> Map<A, R> {
        self.value@
    }

    /// A cacher that has not run `calculation` yet.
    pub fn new(calculation: C) -> (r: Cacher2<C, A, R>)
        ensures
            r.calculation() == calculation,
            r.cached() == Map::<A, R>::empty(),
    {
        Cacher2 { calculation, value: HashMap::new() }
    }

    /// The stored result for `arg` if there is one; else runs the calculation
    /// on `arg` and stores its result under `arg`.
    pub fn value(&mut self, arg: A) -> (r: R)
        requires
            obeys_key_model::<A>(),
            call_requires(old(self).calculation(), (arg,)),
        ensures
            final(self).calculation() == old(self).calculation(),
            final(self).cached() == old(self).cached().insert(arg, r),
            old(self).cached().contains_key(arg) ==> r == old(self).cached()[arg],
            !old(self).cached().contains_key(arg) ==> call_ensures(
                old(self).calculation(),
                (arg,),
                r,
            ),
    {
        match self.value.get(&arg) {
            Some(v) => {
                let v = *v;
                proof {
                    assert(self.value@.insert(arg, v) =~= self.value@);
                }
                v
            },
            None => {
                let v = (self.calculation)(arg);
                self.value.insert(arg, v);
                v
            },
        }
    }
}

} // verus!
