//! Locations inside the revocation benchmark tree, given its root directory.
use vstd::prelude::*;

use crate::paths::{file_name, join, path_file_name, path_joined, path_with_file_name, with_file_name};
use crate::text::{append_str, chars_to_string, str_chars};

verus! {

/// `<root>/results`.
pub fn results_dir(crate_dir: &str) -> (r: String)
    ensures
        r@ == path_joined(crate_dir@, "results"@),
{
    join(crate_dir, "results")
}

/// `<root>/mpc`.
pub fn mpc_dir(crate_dir: &str) -> (r: String)
    ensures
        r@ == path_joined(crate_dir@, "mpc"@),
{
    join(crate_dir, "mpc")
}

/// The file name of `prefix` (empty when it has none) extended by `suffix`.
pub open spec fn suffixed_name(prefix: Seq<char>, suffix: Seq<char>) -> Seq<char> {
    match path_file_name(prefix) {
        Some(n) => n + suffix,
        None => suffix,
    }
}

/// `results/direct-decrypt` + `_runs.csv` -> `results/direct-decrypt_runs.csv`.
pub fn with_suffix(prefix: &str, suffix: &str) -> (r: String)
    ensures
        r@ == path_with_file_name(prefix@, suffixed_name(prefix@, suffix@)),
{
    let mut name: Vec<char> = match file_name(prefix) {
        Some(n) => str_chars(n.as_str()),
        None => Vec::new(),
    };
    append_str(&mut name, suffix);
    let name = chars_to_string(name.as_slice());
    with_file_name(prefix, name.as_str())
}

} // verus!
