//! The command line of one Google Benchmark binary, and where the binary and
//! the summaries live.
use vstd::prelude::*;

use crate::paths::{is_absolute, join, path_is_absolute, path_joined};
use crate::revocation::env::opt_view;
use crate::text::{chars_starts_with, concat, concat_decimal, decimal, str_chars, strings_view};

verus! {

/// The flags every run of a benchmark passes, in order.
pub open spec fn base_args_spec(
    filter: Seq<char>,
    repetitions: nat,
    min_time_arg: Seq<char>,
    iterations: Option<usize>,
) -> Seq<Seq<char>> {
    let fixed = seq![
        "--benchmark_filter="@ + filter,
        "--benchmark_repetitions="@ + decimal(repetitions),
        "--benchmark_report_aggregates_only=false"@,
        "--benchmark_display_aggregates_only=false"@,
        "--benchmark_min_time="@ + min_time_arg,
    ];
    match iterations {
        Some(n) => fixed.push("--benchmark_iterations="@ + decimal(n as nat)),
        None => fixed,
    }
}

/// A base flag with the repetition count overridden when one is given.
pub open spec fn with_repetitions(arg: Seq<char>, repetitions: Option<usize>) -> Seq<char> {
    match repetitions {
        Some(n) => if "--benchmark_repetitions="@.is_prefix_of(arg) {
            "--benchmark_repetitions="@ + decimal(n as nat)
        } else {
            arg
        },
        None => arg,
    }
}

/// The full argument vector of one run writing its JSON report to `out`.
pub open spec fn args_with_spec(
    base: Seq<Seq<char>>,
    out: Seq<char>,
    repetitions: Option<usize>,
) -> Seq<Seq<char>> {
    base.map_values(|a: Seq<char>| with_repetitions(a, repetitions)) + seq![
        "--benchmark_format=console"@,
        "--benchmark_out="@ + out,
        "--benchmark_out_format=json"@,
    ]
}

/// One benchmark binary plus the flags shared by its warm-up and measured
/// runs.
pub struct Gbench {
    pub bin: String,
    pub base_args: Vec<String>,
}

fn literal(s: &str) -> (r: String)
    ensures
        r@ == s@,
{
    s.to_owned()
}

impl Gbench {
    /// `filter`, `repetitions` and the already formatted `min_time_arg` are
    /// the flags every benchmark passes; `iterations` is omitted for the
    /// adaptive inner loop.
    pub fn new(
        bin: String,
        filter: &str,
        repetitions: usize,
        min_time_arg: &str,
        iterations: Option<usize>,
    ) -> (g: Self)
        ensures
            g.bin@ == bin@,
            strings_view(g.base_args@) == base_args_spec(
                filter@,
                repetitions as nat,
                min_time_arg@,
                iterations,
            ),
    {
        let f = str_chars(filter);
        let m = str_chars(min_time_arg);
        let mut base_args: Vec<String> = Vec::new();
        base_args.push(concat("--benchmark_filter=", f.as_slice()));
        base_args.push(concat_decimal("--benchmark_repetitions=", repetitions as u64));
        base_args.push(literal("--benchmark_report_aggregates_only=false"));
        base_args.push(literal("--benchmark_display_aggregates_only=false"));
        base_args.push(concat("--benchmark_min_time=", m.as_slice()));
        match iterations {
            Some(n) => {
                base_args.push(concat_decimal("--benchmark_iterations=", n as u64));
            },
            None => {},
        }
        let g = Gbench { bin, base_args };
        assert(strings_view(g.base_args@) =~= base_args_spec(
            filter@,
            repetitions as nat,
            min_time_arg@,
            iterations,
        ));
        g
    }

    /// The argument vector of one run writing its report to `out`, with the
    /// repetition count replaced when `repetitions` is given.
    pub fn args_with(&self, out: &str, repetitions: Option<usize>) -> (args: Vec<String>)
        ensures
            strings_view(args@) == args_with_spec(strings_view(self.base_args@), out@, repetitions),
    {
        proof {
            reveal_strlit("--benchmark_repetitions=");
        }
        let prefix = str_chars("--benchmark_repetitions=");
        let ghost base = strings_view(self.base_args@);
        let mut args: Vec<String> = Vec::new();
        for i in 0..self.base_args.len()
            invariant
                base == strings_view(self.base_args@),
                prefix@ == "--benchmark_repetitions="@,
                strings_view(args@) == base.take(i as int).map_values(
                    |a: Seq<char>| with_repetitions(a, repetitions),
                ),
        {
            let arg = &self.base_args[i];
            let a = str_chars(arg.as_str());
            let next = match repetitions {
                Some(n) => {
                    if chars_starts_with(a.as_slice(), prefix.as_slice()) {
                        concat_decimal("--benchmark_repetitions=", n as u64)
                    } else {
                        arg.clone()
                    }
                },
                None => arg.clone(),
            };
            assert(base[i as int] == a@);
            assert(next@ == with_repetitions(base[i as int], repetitions));
            let ghost before = args@;
            args.push(next);
            assert(strings_view(args@) =~= strings_view(before).push(next@));
            assert(base.take(i + 1).map_values(|a: Seq<char>| with_repetitions(a, repetitions))
                =~= base.take(i as int).map_values(
                |a: Seq<char>| with_repetitions(a, repetitions),
            ).push(with_repetitions(base[i as int], repetitions)));
        }
        assert(base.take(self.base_args.len() as int) == base);
        args.push(literal("--benchmark_format=console"));
        let o = str_chars(out);
        args.push(concat("--benchmark_out=", o.as_slice()));
        args.push(literal("--benchmark_out_format=json"));
        assert(strings_view(args@) =~= args_with_spec(base, out@, repetitions));
        args
    }
}

/// The first value that is set and non-empty.
pub open spec fn first_nonempty(values: Seq<Option<Seq<char>>>) -> Option<Seq<char>>
    decreases values.len(),
{
    if values.len() == 0 {
        None
    } else {
        match values[0] {
            Some(v) if v.len() > 0 => Some(v),
            _ => first_nonempty(values.drop_first()),
        }
    }
}

pub open spec fn opt_views(values: Seq<Option<String>>) -> Seq<Option<Seq<char>>> {
    values.map_values(|v: Option<String>| opt_view(v))
}

/// The benchmark binary: an explicit path, else the first environment
/// override that is set, else the default build output when it exists.
pub open spec fn resolve_bin_spec(
    explicit: Option<Seq<char>>,
    env_values: Seq<Option<Seq<char>>>,
    default_path: Seq<char>,
    default_is_file: bool,
) -> Option<Seq<char>> {
    match explicit {
        Some(p) => Some(p),
        None => match first_nonempty(env_values) {
            Some(v) => Some(v),
            None => if default_is_file {
                Some(default_path)
            } else {
                None
            },
        },
    }
}

/// No binary was given, no environment variable names one, and the default
/// build tree holds none at `default_path`.
pub struct MissingBinary {
    pub default_path: String,
}

/// Resolves the benchmark binary; `env_values` are the values of the
/// variables that may name it, most specific first.
pub fn resolve_bin(
    explicit: Option<String>,
    env_values: Vec<Option<String>>,
    default_path: String,
    default_is_file: bool,
) -> (r: Result<String, MissingBinary>)
    ensures
        match r {
            Ok(p) => resolve_bin_spec(
                opt_view(explicit),
                opt_views(env_values@),
                default_path@,
                default_is_file,
            ) == Some(p@),
            Err(e) => resolve_bin_spec(
                opt_view(explicit),
                opt_views(env_values@),
                default_path@,
                default_is_file,
            ) is None && e.default_path@ == default_path@,
        },
{
    let ghost ex = opt_view(explicit);
    match explicit {
        Some(p) => {
            return Ok(p);
        },
        None => {},
    }
    let ghost all = opt_views(env_values@);
    assert(all.skip(0) == all);
    let mut i: usize = 0;
    while i < env_values.len()
        invariant
            i <= env_values.len(),
            all == opt_views(env_values@),
            ex is None,
            ex == opt_view(explicit),
            first_nonempty(all) == first_nonempty(all.skip(i as int)),
        decreases env_values.len() - i,
    {
        assert(all.skip(i as int)[0] == opt_view(env_values@[i as int]));
        assert(all.skip(i as int).drop_first() == all.skip(i + 1));
        match &env_values[i] {
            Some(v) => {
                if !v.as_str().is_empty() {
                    assert(v@.len() > 0);
                    assert(all.skip(i as int).len() > 0);
                    assert(all.skip(i as int)[0] == Some(v@));
                    assert(first_nonempty(all.skip(i as int)) == Some(v@));
                    return Ok(v.clone());
                }
            },
            None => {},
        }
        i = i + 1;
    }
    assert(all.skip(i as int).len() == 0);
    if default_is_file {
        Ok(default_path)
    } else {
        Err(MissingBinary { default_path })
    }
}

/// Where summaries land: an explicit directory (relative ones resolve
/// against the working directory when it is known), else `ARTIFACTS_DIR`
/// when set and non-empty (relative to the harness root), else the
/// benchmark's own subdirectory.
pub open spec fn resolve_artifacts_dir_spec(
    explicit: Option<Seq<char>>,
    cwd: Option<Seq<char>>,
    env_value: Option<Seq<char>>,
    crate_dir: Seq<char>,
    bench_dir: Seq<char>,
    default_subdir: Seq<char>,
) -> Seq<char> {
    match explicit {
        Some(d) => if path_is_absolute(d) {
            d
        } else {
            match cwd {
                Some(c) => path_joined(c, d),
                None => d,
            }
        },
        None => match env_value {
            Some(raw) if raw.len() > 0 => if path_is_absolute(raw) {
                raw
            } else {
                path_joined(crate_dir, raw)
            },
            _ => path_joined(path_joined(crate_dir, bench_dir), default_subdir),
        },
    }
}

pub fn resolve_artifacts_dir(
    explicit: Option<String>,
    cwd: Option<String>,
    env_value: Option<String>,
    crate_dir: &str,
    bench_dir: &str,
    default_subdir: &str,
) -> (r: String)
    ensures
        r@ == resolve_artifacts_dir_spec(
            opt_view(explicit),
            opt_view(cwd),
            opt_view(env_value),
            crate_dir@,
            bench_dir@,
            default_subdir@,
        ),
{
    match explicit {
        Some(d) => {
            if is_absolute(d.as_str()) {
                d
            } else {
                match cwd {
                    Some(c) => join(c.as_str(), d.as_str()),
                    None => d,
                }
            }
        },
        None => {
            match env_value {
                Some(raw) => {
                    if !raw.as_str().is_empty() {
                        if is_absolute(raw.as_str()) {
                            return raw;
                        } else {
                            return join(crate_dir, raw.as_str());
                        }
                    }
                },
                None => {},
            }
            let b = join(crate_dir, bench_dir);
            join(b.as_str(), default_subdir)
        },
    }
}

} // verus!
