//! Options shared by the Longfellow benchmark drivers.
use vstd::prelude::*;

use crate::text::{chars_eq, is_whitespace, parse_unsigned, parse_unsigned_spec, str_chars, trim, trim_chars, u64_to_string, decimal};

verus! {

/// Which Google Benchmark timing column `--verbose` prints.
#[derive(Clone, Copy, PartialEq, Eq, Debug, Structural)]
pub enum Metric {
    RealTime,
    CpuTime,
    Both,
}

impl Metric {
    pub fn wants_cpu(self) -> (r: bool)
        ensures
            r == (self == Metric::CpuTime || self == Metric::Both),
    {
        match self {
            Metric::CpuTime | Metric::Both => true,
            Metric::RealTime => false,
        }
    }

    pub fn wants_real(self) -> (r: bool)
        ensures
            r == (self == Metric::RealTime || self == Metric::Both),
    {
        match self {
            Metric::RealTime | Metric::Both => true,
            Metric::CpuTime => false,
        }
    }
}

/// `char::to_ascii_lowercase`.
pub open spec fn ascii_lower(c: char) -> char {
    if 'A' <= c && c <= 'Z' {
        ((c as int) + 32) as char
    } else {
        c
    }
}

pub open spec fn lowercase(s: Seq<char>) -> Seq<char> {
    s.map_values(|c: char| ascii_lower(c))
}

pub fn lowercase_chars(s: &[char]) -> (v: Vec<char>)
    ensures
        v@ == lowercase(s@),
{
    let mut v: Vec<char> = Vec::new();
    for i in 0..s.len()
        invariant
            v@ == lowercase(s@.take(i as int)),
    {
        let c = s[i];
        let l = if c >= 'A' && c <= 'Z' {
            ((c as u32 + 32) as u8) as char
        } else {
            c
        };
        assert(l == ascii_lower(c));
        v.push(l);
        assert(v@ =~= lowercase(s@.take(i + 1)));
    }
    assert(s@.take(s.len() as int) == s@);
    v
}

/// Google Benchmark's `--benchmark_iterations`, or its adaptive inner loop.
#[derive(Clone, Copy, PartialEq, Eq, Debug, Structural)]
pub struct Iterations(pub Option<usize>);

impl Default for Iterations {
    fn default() -> (r: Iterations)
        ensures
            r == Iterations(None),
    {
        Iterations(None)
    }
}

/// What `--iterations` reads as: `auto` or `0` (any case, surrounding
/// whitespace ignored) for the adaptive loop, a positive count otherwise.
pub open spec fn iterations_spec(raw: Seq<char>) -> Option<Iterations> {
    let t = lowercase(trim(raw));
    if t == "auto"@ || t == "0"@ {
        Some(Iterations(None))
    } else {
        match parse_unsigned_spec(t, usize::MAX as nat) {
            Some(n) => if n >= 1 { Some(Iterations(Some(n as usize))) } else { None },
            None => None,
        }
    }
}

pub const ITERATIONS_ERROR: &'static str = "must be a positive integer, or 0/auto for the adaptive inner loop";

impl Iterations {
    /// Reads an `--iterations` value.
    pub fn parse(raw: &str) -> (r: Result<Iterations, String>)
        ensures
            match iterations_spec(raw@) {
                Some(it) => r == Ok::<Iterations, String>(it),
                None => r matches Err(msg) && msg@ == ITERATIONS_ERROR@,
            },
    {
        let t = lowercase_chars(trim_chars(str_chars(raw).as_slice()).as_slice());
        let auto = str_chars("auto");
        let zero = str_chars("0");
        if chars_eq(t.as_slice(), auto.as_slice()) || chars_eq(t.as_slice(), zero.as_slice()) {
            return Ok(Iterations(None));
        }
        match parse_unsigned(t.as_slice(), usize::MAX as u64) {
            Some(n) if n >= 1 => Ok(Iterations(Some(n as usize))),
            _ => Err(crate::text::chars_to_string(str_chars(ITERATIONS_ERROR).as_slice())),
        }
    }
}

impl core::str::FromStr for Iterations {
    type Err = String;

    fn from_str(raw: &str) -> (r: Result<Iterations, String>)
        ensures
            match iterations_spec(raw@) {
                Some(it) => r == Ok::<Iterations, String>(it),
                None => r matches Err(msg) && msg@ == ITERATIONS_ERROR@,
            },
    {
        Iterations::parse(raw)
    }
}

/// Flags shared by every Longfellow driver.
pub struct Common {
    /// Benchmark binary; falls back to the environment and the default build path.
    pub bin: Option<String>,
    /// Outer repetitions, i.e. statistical samples.
    pub repetitions: usize,
    /// Inner iterations per repetition.
    pub iterations: Iterations,
    /// Google Benchmark `--benchmark_min_time`, e.g. `0.05s`.
    pub min_time: String,
    /// Timing column printed by `--verbose`.
    pub metric: Metric,
    pub verbose: bool,
    pub compact: bool,
    pub keep_artifacts: bool,
    pub clean: bool,
    /// Summary directory; relative paths resolve against the stack root.
    pub out_dir: Option<String>,
}

/// Whether to run one discarded repetition: yes unless `BENCH_WARMUP` holds
/// `0`, `false` or `no` (any case, surrounding whitespace ignored).
pub open spec fn warmup_enabled_spec(value: Option<Seq<char>>) -> bool {
    match value {
        None => true,
        Some(v) => {
            let t = lowercase(trim(v));
            !(t == "0"@ || t == "false"@ || t == "no"@)
        },
    }
}

pub const WARMUP_ON: &'static str = "1x Google Benchmark repetition discarded before measured run (BENCH_WARMUP=0 to skip)";

pub const WARMUP_OFF: &'static str = "disabled (BENCH_WARMUP)";

pub const CLEANUP_OFF: &'static str = "disabled (--keep-artifacts / KEEP_ARTIFACTS=1)";

pub const CLEANUP_ON: &'static str = "enabled (default; JSON summaries only)";

pub const ADAPTIVE: &'static str = "adaptive (BENCH_ITERATIONS=auto or 0)";

impl Common {
    /// Whether the warm-up repetition runs, given the value of `BENCH_WARMUP`.
    pub fn warmup_enabled(value: Option<&str>) -> (r: bool)
        ensures
            r == warmup_enabled_spec(
                match value {
                    Some(v) => Some(v@),
                    None => None,
                },
            ),
    {
        match value {
            None => true,
            Some(v) => {
                let t = lowercase_chars(trim_chars(str_chars(v).as_slice()).as_slice());
                let off = chars_eq(t.as_slice(), str_chars("0").as_slice()) || chars_eq(
                    t.as_slice(),
                    str_chars("false").as_slice(),
                ) || chars_eq(t.as_slice(), str_chars("no").as_slice());
                !off
            },
        }
    }

    pub fn describe_iterations(&self) -> (s: String)
        ensures
            s@ == match self.iterations.0 {
                Some(n) => decimal(n as nat),
                None => ADAPTIVE@,
            },
    {
        match self.iterations.0 {
            Some(n) => u64_to_string(n as u64),
            None => crate::text::chars_to_string(str_chars(ADAPTIVE).as_slice()),
        }
    }

    pub fn describe_warmup(warmup_enabled: bool) -> (s: &'static str)
        ensures
            s@ == (if warmup_enabled { WARMUP_ON@ } else { WARMUP_OFF@ }),
    {
        if warmup_enabled {
            WARMUP_ON
        } else {
            WARMUP_OFF
        }
    }

    pub fn describe_cleanup(&self) -> (s: &'static str)
        ensures
            s@ == (if self.keep_artifacts { CLEANUP_OFF@ } else { CLEANUP_ON@ }),
    {
        if self.keep_artifacts {
            CLEANUP_OFF
        } else {
            CLEANUP_ON
        }
    }
}

} // verus!
