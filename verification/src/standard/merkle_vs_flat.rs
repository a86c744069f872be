//! The Merkle-versus-flat attribute-commitment sweep: which benchmark rows
//! measure which `(mode, n, k)` point, and the filter that selects them.
use vstd::prelude::*;

use crate::sorting::{decimals, join_decimals, join_with, sort_desc, sorted_desc_of};
use crate::standard::cli::Metric;
use crate::standard::gbench::{base_name, base_name_spec};
use crate::pattern::{captures, opt_strings, regex_captures};
use crate::text::{
    chars_eq, chars_to_string, parse_unsigned, parse_unsigned_spec, str_chars, strings_view,
};

verus! {

/// Which commitment scheme a benchmark row measures.
#[derive(Clone, Copy, PartialEq, Eq, PartialOrd, Ord, Debug, Structural)]
pub enum Mode {
    Merkle,
    Flat,
}

pub open spec fn mode_word(mode: Mode) -> Seq<char> {
    match mode {
        Mode::Merkle => "Merkle"@,
        Mode::Flat => "Flat"@,
    }
}

impl Mode {
    pub fn label(self) -> (r: &'static str)
        ensures
            r@ == mode_word(self),
    {
        match self {
            Mode::Merkle => "Merkle",
            Mode::Flat => "Flat",
        }
    }
}

/// Whether a row carries both counters or only one side of the protocol.
#[derive(Clone, Copy, PartialEq, Eq, Debug, Structural)]
pub enum Kind {
    Combined,
    Prover,
    Verifier,
}

/// What a benchmark name says about the point it measures.
#[derive(Clone, Copy, PartialEq, Eq, Debug, Structural)]
pub struct BenchName {
    pub kind: Kind,
    pub mode: Mode,
    pub n: usize,
    pub k: usize,
}

/// `^BM_AttrSigCombined_(Flat|Merkle)/(\d+)/(\d+)$`: a row that carries both
/// counters.
pub const COMBINED_PATTERN: &'static str = r"^BM_AttrSigCombined_(Flat|Merkle)/(\d+)/(\d+)$";

/// `^BM_AttrSig(Prover|Verifier)_(Flat|Merkle)/(\d+)/(\d+)$`: a row of one
/// side of the protocol.
pub const SPLIT_PATTERN: &'static str = r"^BM_AttrSig(Prover|Verifier)_(Flat|Merkle)/(\d+)/(\d+)$";

/// `Merkle` names the Merkle commitment; any other word the flat one.
pub open spec fn mode_of(word: Seq<char>) -> Mode {
    if word == "Merkle"@ {
        Mode::Merkle
    } else {
        Mode::Flat
    }
}

/// A count as `str::parse::<usize>` reads it.
pub open spec fn count_of(s: Seq<char>) -> Option<usize> {
    match parse_unsigned_spec(s, usize::MAX as nat) {
        Some(v) => Some(v as usize),
        None => None,
    }
}

pub open spec fn point_of(kind: Kind, mode: Seq<char>, n: Seq<char>, k: Seq<char>) -> Option<
    BenchName,
> {
    match (count_of(n), count_of(k)) {
        (Some(n), Some(k)) => Some(BenchName { kind, mode: mode_of(mode), n, k }),
        _ => None,
    }
}

/// What the captures of the two patterns say about a name: the combined
/// pattern decides when it matches, the prover/verifier one otherwise.
pub open spec fn bench_name_of(
    combined: Option<Seq<Seq<char>>>,
    split: Option<Seq<Seq<char>>>,
) -> Option<BenchName> {
    match combined {
        Some(g) => if g.len() == 3 {
            point_of(Kind::Combined, g[0], g[1], g[2])
        } else {
            None
        },
        None => match split {
            Some(g) => if g.len() == 4 {
                point_of(
                    if g[0] == "Prover"@ {
                        Kind::Prover
                    } else {
                        Kind::Verifier
                    },
                    g[1],
                    g[2],
                    g[3],
                )
            } else {
                None
            },
            None => None,
        },
    }
}

pub open spec fn bench_name_spec(name: Seq<char>) -> Option<BenchName> {
    bench_name_of(regex_captures(COMBINED_PATTERN@, name), regex_captures(SPLIT_PATTERN@, name))
}

fn count_text(s: &String) -> (r: Option<usize>)
    ensures
        r == count_of(s@),
{
    let c = str_chars(s.as_str());
    match parse_unsigned(c.as_slice(), usize::MAX as u64) {
        Some(v) => Some(v as usize),
        None => None,
    }
}

fn text_is(s: &String, word: &str) -> (r: bool)
    ensures
        r == (s@ == word@),
{
    let a = str_chars(s.as_str());
    let b = str_chars(word);
    chars_eq(a.as_slice(), b.as_slice())
}

fn point_from(kind: Kind, mode: &String, n: &String, k: &String) -> (r: Option<BenchName>)
    ensures
        r == point_of(kind, mode@, n@, k@),
{
    let mode = if text_is(mode, "Merkle") {
        Mode::Merkle
    } else {
        Mode::Flat
    };
    match (count_text(n), count_text(k)) {
        (Some(n), Some(k)) => Some(BenchName { kind, mode, n, k }),
        _ => None,
    }
}

/// What the captures of the two name patterns say about the point a row
/// measures.
pub fn bench_name_from_captures(combined: Option<Vec<String>>, split: Option<Vec<String>>) -> (r:
    Option<BenchName>)
    ensures
        r == bench_name_of(opt_strings(combined), opt_strings(split)),
{
    match combined {
        Some(g) => {
            if g.len() != 3 {
                return None;
            }
            assert(strings_view(g@)[0] == g@[0]@ && strings_view(g@)[1] == g@[1]@
                && strings_view(g@)[2] == g@[2]@);
            point_from(Kind::Combined, &g[0], &g[1], &g[2])
        },
        None => match split {
            Some(g) => {
                if g.len() != 4 {
                    return None;
                }
                assert(strings_view(g@)[0] == g@[0]@ && strings_view(g@)[1] == g@[1]@
                    && strings_view(g@)[2] == g@[2]@ && strings_view(g@)[3] == g@[3]@);
                let kind = if text_is(&g[0], "Prover") {
                    Kind::Prover
                } else {
                    Kind::Verifier
                };
                point_from(kind, &g[1], &g[2], &g[3])
            },
            None => None,
        },
    }
}

/// What a benchmark name says about the point it measures, or `None` for a
/// row of another benchmark.
pub fn parse_bench_name(name: &str) -> (r: Option<BenchName>)
    ensures
        r == bench_name_spec(name@),
{
    let combined = captures(COMBINED_PATTERN, name);
    if combined.is_some() {
        return bench_name_from_captures(combined, None);
    }
    bench_name_from_captures(None, captures(SPLIT_PATTERN, name))
}

/// The regex alternation of `values`: their numerals from the largest down,
/// so that `16` is tried before `1`.
pub open spec fn alternation_spec(values: Seq<usize>) -> Seq<char> {
    join_with(decimals(sorted_desc_of(values)), "|"@)
}

/// Longest literals first, so `16` is not shadowed by `1` in the
/// alternation.
pub fn regex_alternation(values: &[usize]) -> (r: String)
    ensures
        r@ == alternation_spec(values@),
{
    proof {
        reveal_strlit("|");
    }
    let sorted = sort_desc(values);
    let sep = str_chars("|");
    let joined = join_decimals(sorted.as_slice(), sep.as_slice());
    chars_to_string(joined.as_slice())
}

/// `BM_AttrSigCombined_(Flat|Merkle)/(<totals>)/(<used>)$`.
pub open spec fn default_filter_spec(totals: Seq<usize>, used: Seq<usize>) -> Seq<char> {
    "BM_AttrSigCombined_(Flat|Merkle)/("@ + alternation_spec(totals) + ")/("@ + alternation_spec(
        used,
    ) + ")$"@
}

/// The filter selecting the `Combined` rows of every requested point.
pub fn default_filter(totals: &[usize], used: &[usize]) -> (r: String)
    ensures
        r@ == default_filter_spec(totals@, used@),
{
    let mut v = str_chars("BM_AttrSigCombined_(Flat|Merkle)/(");
    let t = regex_alternation(totals);
    crate::text::append_str(&mut v, t.as_str());
    crate::text::append_str(&mut v, ")/(");
    let u = regex_alternation(used);
    crate::text::append_str(&mut v, u.as_str());
    crate::text::append_str(&mut v, ")$");
    chars_to_string(v.as_slice())
}

fn contains(s: &[usize], x: usize) -> (r: bool)
    ensures
        r == s@.contains(x),
{
    for i in 0..s.len()
        invariant
            forall|j: int| 0 <= j < i ==> s@[j] != x,
    {
        if s[i] == x {
            assert(s@[i as int] == x);
            return true;
        }
    }
    false
}

/// The point a sample row of a `Combined` benchmark measures, when that
/// point was requested.
pub open spec fn combined_key_spec(run_name: Seq<char>, totals: Seq<usize>, used: Seq<usize>) -> Option<
    (Mode, usize, usize),
> {
    match bench_name_spec(base_name_spec(run_name)) {
        Some(b) => if b.kind == Kind::Combined && totals.contains(b.n) && used.contains(b.k) {
            Some((b.mode, b.n, b.k))
        } else {
            None
        },
        None => None,
    }
}

pub fn combined_key(run_name: &str, totals: &[usize], used: &[usize]) -> (r: Option<
    (Mode, usize, usize),
>)
    ensures
        r == combined_key_spec(run_name@, totals@, used@),
        r matches Some(x) ==> totals@.contains(x.1) && used@.contains(x.2),
{
    proof {
        lemma_combined_key_requested(run_name@, totals@, used@);
    }
    let base = base_name(run_name);
    match parse_bench_name(base.as_str()) {
        Some(b) => {
            if b.kind == Kind::Combined && contains(totals, b.n) && contains(used, b.k) {
                Some((b.mode, b.n, b.k))
            } else {
                None
            }
        },
        None => None,
    }
}

/// The side and point a sample row of a separate `Prover` or `Verifier`
/// benchmark measures, when that point was requested.
pub open spec fn split_key_spec(run_name: Seq<char>, totals: Seq<usize>, used: Seq<usize>) -> Option<
    (Kind, Mode, usize, usize),
> {
    match bench_name_spec(base_name_spec(run_name)) {
        Some(b) => if b.kind != Kind::Combined && totals.contains(b.n) && used.contains(b.k) {
            Some((b.kind, b.mode, b.n, b.k))
        } else {
            None
        },
        None => None,
    }
}

pub fn split_key(run_name: &str, totals: &[usize], used: &[usize]) -> (r: Option<
    (Kind, Mode, usize, usize),
>)
    ensures
        r == split_key_spec(run_name@, totals@, used@),
        r matches Some(x) ==> x.0 != Kind::Combined && totals@.contains(x.2) && used@.contains(x.3),
{
    proof {
        lemma_split_key_requested(run_name@, totals@, used@);
    }
    let base = base_name(run_name);
    match parse_bench_name(base.as_str()) {
        Some(b) => {
            if b.kind != Kind::Combined && contains(totals, b.n) && contains(used, b.k) {
                Some((b.kind, b.mode, b.n, b.k))
            } else {
                None
            }
        },
        None => None,
    }
}

/// A separate `Prover` or `Verifier` row is only matched to a requested
/// point: its total is one of `totals` and its disclosure count one of
/// `used`.
pub proof fn lemma_split_key_requested(run_name: Seq<char>, totals: Seq<usize>, used: Seq<usize>)
    ensures
        split_key_spec(run_name, totals, used) matches Some(x) ==> x.0 != Kind::Combined
            && totals.contains(x.2) && used.contains(x.3),
{
}

/// A `Combined` row is only matched to a requested point.
pub proof fn lemma_combined_key_requested(run_name: Seq<char>, totals: Seq<usize>, used: Seq<usize>)
    ensures
        combined_key_spec(run_name, totals, used) matches Some(x) ==> totals.contains(x.1)
            && used.contains(x.2),
{
}

/// A row is read off the point its name gives: a separate `Prover` or
/// `Verifier` row of a requested point yields that side, mode, total and
/// disclosure count; a row of any other point, a `Combined` row or a row of
/// another benchmark yields nothing.
pub proof fn lemma_split_key_reads_name(
    run_name: Seq<char>,
    totals: Seq<usize>,
    used: Seq<usize>,
)
    ensures
        bench_name_spec(base_name_spec(run_name)) matches Some(b) ==> (split_key_spec(
            run_name,
            totals,
            used,
        ) is Some <==> (b.kind == Kind::Prover || b.kind == Kind::Verifier) && totals.contains(b.n)
            && used.contains(b.k)),
        bench_name_spec(base_name_spec(run_name)) matches Some(b) ==> (split_key_spec(
            run_name,
            totals,
            used,
        ) matches Some(x) ==> x.0 == b.kind && x.1 == b.mode && x.2 == b.n && x.3 == b.k),
        bench_name_spec(base_name_spec(run_name)) is None ==> split_key_spec(run_name, totals, used)
            is None,
{
}

/// A `Combined` row of a requested point yields its mode, total and
/// disclosure count; any other row yields nothing.
pub proof fn lemma_combined_key_reads_name(
    run_name: Seq<char>,
    totals: Seq<usize>,
    used: Seq<usize>,
)
    ensures
        bench_name_spec(base_name_spec(run_name)) matches Some(b) ==> (combined_key_spec(
            run_name,
            totals,
            used,
        ) is Some <==> b.kind == Kind::Combined && totals.contains(b.n) && used.contains(b.k)),
        bench_name_spec(base_name_spec(run_name)) matches Some(b) ==> (combined_key_spec(
            run_name,
            totals,
            used,
        ) matches Some(x) ==> x.0 == b.mode && x.1 == b.n && x.2 == b.k),
        bench_name_spec(base_name_spec(run_name)) is None ==> combined_key_spec(
            run_name,
            totals,
            used,
        ) is None,
{
}

/// No row is counted twice: a row read as a `Combined` sample is never also
/// read as a separate `Prover` or `Verifier` sample.
pub proof fn lemma_keys_exclusive(run_name: Seq<char>, totals: Seq<usize>, used: Seq<usize>)
    ensures
        !(combined_key_spec(run_name, totals, used) is Some && split_key_spec(
            run_name,
            totals,
            used,
        ) is Some),
{
}

/// The timing column read off the separate benchmarks.
pub fn metric_column(metric: Metric) -> (r: &'static str)
    ensures
        r@ == (if metric == Metric::CpuTime {
            "cpu_time"@
        } else {
            "real_time"@
        }),
{
    match metric {
        Metric::CpuTime => "cpu_time",
        _ => "real_time",
    }
}

/// The `(n, k)` points of the grid, row by row: every requested disclosure
/// count `k` up to the credential size `n`.
pub open spec fn grid_points_spec(totals: Seq<usize>, used: Seq<usize>) -> Seq<(usize, usize)>
    decreases totals.len(),
{
    if totals.len() == 0 {
        Seq::empty()
    } else {
        let n = totals.last();
        grid_points_spec(totals.drop_last(), used) + used.filter(|k: usize| k <= n).map_values(
            |k: usize| (n, k),
        )
    }
}

pub fn grid_points(totals: &[usize], used: &[usize]) -> (r: Vec<(usize, usize)>)
    ensures
        r@ == grid_points_spec(totals@, used@),
{
    let mut r: Vec<(usize, usize)> = Vec::new();
    for i in 0..totals.len()
        invariant
            r@ == grid_points_spec(totals@.take(i as int), used@),
    {
        let n = totals[i];
        let ghost start = r@;
        for j in 0..used.len()
            invariant
                n == totals@[i as int],
                r@ == start + used@.take(j as int).filter(|k: usize| k <= n).map_values(
                    |k: usize| (n, k),
                ),
        {
            let k = used[j];
            proof {
                used@.take(j as int).lemma_filter_push(k, |k: usize| k <= n);
                assert(used@.take(j + 1) == used@.take(j as int).push(k));
            }
            if k <= n {
                r.push((n, k));
            }
            assert(r@ =~= start + used@.take(j + 1).filter(|k: usize| k <= n).map_values(
                |k: usize| (n, k),
            ));
        }
        assert(used@.take(used.len() as int) == used@);
        assert(totals@.take(i + 1).drop_last() == totals@.take(i as int));
        assert(totals@.take(i + 1).last() == n);
    }
    assert(totals@.take(totals.len() as int) == totals@);
    r
}

} // verus!
