//! Locations inside the Circom harness, given its root directory.
use vstd::prelude::*;

use crate::paths::{join, path_joined};

verus! {

/// The directory of one benchmark, e.g. `prove-verify/`.
pub fn bench_dir(crate_dir: &str, name: &str) -> (r: String)
    ensures
        r@ == path_joined(crate_dir@, name@),
{
    join(crate_dir, name)
}

/// The directory of the powers-of-tau files.
pub fn powers_of_tau(crate_dir: &str) -> (r: String)
    ensures
        r@ == path_joined(crate_dir@, "powersOfTau"@),
{
    join(crate_dir, "powersOfTau")
}

} // verus!
