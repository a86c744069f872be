//! Counting for the cost models the experiments report.
use vstd::prelude::*;

verus! {

/// `n·(n−1)/2`: the number of unordered pairs in a set of `n` elements.
pub open spec fn pairs(n: nat) -> nat {
    if n == 0 { 0 } else { (n * (n - 1) / 2) as nat }
}

/// Number of unordered pairs in a set of `n` elements.
pub fn n_pairs(n: u64) -> (r: u64)
    requires
        n == 0 || n * (n - 1) <= u64::MAX,
    ensures
        r == pairs(n as nat),
{
    let m = n.saturating_sub(1);
    n * m / 2
}

} // verus!
