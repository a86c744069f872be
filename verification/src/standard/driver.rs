//! What distinguishes one presentation benchmark from the other, and the
//! filter a run uses.
use vstd::prelude::*;

use crate::revocation::env::opt_view;

verus! {

/// One presentation benchmark: the binary it runs, the filter it defaults
/// to and how it labels itself.
pub struct Bench {
    /// One line describing the circuit under test.
    pub backend: &'static str,
    /// `variant` field of the summary metadata.
    pub variant: &'static str,
    pub default_filter: &'static str,
    /// Binary name under the Longfellow build tree.
    pub test_name: &'static str,
    /// Environment variables that may point at the binary, most specific
    /// first.
    pub bin_env: &'static [&'static str],
    pub bench_dir: &'static str,
    pub artifacts_subdir: &'static str,
}

/// The filter: the `--filter` flag, else a non-empty `BENCH_FILTER`, else
/// the benchmark's default.
pub open spec fn filter_spec(
    explicit: Option<Seq<char>>,
    env_value: Option<Seq<char>>,
    default_filter: Seq<char>,
) -> Seq<char> {
    match explicit {
        Some(f) => f,
        None => match env_value {
            Some(v) if v.len() > 0 => v,
            _ => default_filter,
        },
    }
}

impl Bench {
    pub fn filter(&self, explicit: Option<String>, env_value: Option<String>) -> (r: String)
        ensures
            r@ == filter_spec(opt_view(explicit), opt_view(env_value), self.default_filter@),
    {
        match explicit {
            Some(f) => f,
            None => match env_value {
                Some(v) => {
                    if !v.as_str().is_empty() {
                        v
                    } else {
                        self.default_filter.to_owned()
                    }
                },
                None => self.default_filter.to_owned(),
            },
        }
    }
}

} // verus!
