//! Proportion masks: boolean sequences with an exact number of `true`
//! entries at shuffled positions.
use crate::random::shuffle_flags;
use rand::rngs::SmallRng;
use vstd::prelude::*;

verus! {

broadcast use vstd::seq_lib::group_to_multiset_ensures;

/// The number of `true` entries of a mask.
pub open spec fn count_true(m: Seq<bool>) -> nat {
    m.to_multiset().count(true)
}

/// `m` is a mask of length `n` with exactly `k` entries set.
pub open spec fn is_mask(m: Seq<bool>, n: nat, k: nat) -> bool {
    m.len() == n && count_true(m) == k
}

/// A mask of length `n` with exactly `k` entries `true`, in an order drawn from `rng`.
pub fn bool_vec(n: usize, k: usize, rng: &mut SmallRng) -> (m: Vec<bool>)
    requires
        k <= n,
    ensures
        is_mask(m@, n as nat, k as nat),
        m@.to_multiset().count(false) == n - k,
{
    let mut v: Vec<bool> = Vec::new();
    let mut i: usize = 0;
    while i < n
        invariant
            i <= n,
            k <= n,
            v@.len() == i,
            v@.to_multiset().count(true) == if i < k { i } else { k },
            v@.to_multiset().count(false) == if i < k { 0 } else { i - k },
        decreases n - i,
    {
        v.push(i < k);
        i = i + 1;
    }
    assert(v@.to_multiset().len() == n);
    shuffle_flags(&mut v, rng);
    assert(v@.len() == v@.to_multiset().len());
    v
}

} // verus!
