//! The grid experiment's names and options: `set_size × recurring_pct × runs`.
use vstd::prelude::*;

use crate::revocation::env::{is_set, non_blank, opt_view, EnvError};
use crate::text::{
    chars_eq, chars_to_string, parse_unsigned, parse_unsigned_spec, split, split_chars, str_chars,
    trim, trim_chars,
};

verus! {

/// Which revocation strategy to measure.
#[derive(Clone, Copy, PartialEq, Eq, Debug, Structural)]
pub enum Benchmark {
    DirectDecrypt,
    LinkDecrypt,
}

/// The name of a benchmark, as the CSV files and the command line write it.
pub open spec fn benchmark_name(b: Benchmark) -> Seq<char> {
    match b {
        Benchmark::DirectDecrypt => "direct-decrypt"@,
        Benchmark::LinkDecrypt => "link-decrypt"@,
    }
}

/// The benchmark a name denotes.
pub open spec fn benchmark_of_name(s: Seq<char>) -> Option<Benchmark> {
    if s == "direct-decrypt"@ {
        Some(Benchmark::DirectDecrypt)
    } else if s == "link-decrypt"@ {
        Some(Benchmark::LinkDecrypt)
    } else {
        None
    }
}

/// A name that is not a benchmark's.
#[derive(Debug, PartialEq, Eq)]
pub struct UnknownBenchmark {
    pub name: String,
}

impl Benchmark {
    pub const ALL: [Benchmark; 2] = [Benchmark::DirectDecrypt, Benchmark::LinkDecrypt];

    pub fn as_str(self) -> (s: &'static str)
        ensures
            s@ == benchmark_name(self),
    {
        match self {
            Benchmark::DirectDecrypt => "direct-decrypt",
            Benchmark::LinkDecrypt => "link-decrypt",
        }
    }

    /// Reads a benchmark name; any other text is an error that carries it.
    pub fn from_name(s: &str) -> (r: Result<Benchmark, UnknownBenchmark>)
        ensures
            match benchmark_of_name(s@) {
                Some(b) => r == Ok::<Benchmark, UnknownBenchmark>(b),
                None => r matches Err(e) && e.name@ == s@,
            },
    {
        let c = str_chars(s);
        let direct = str_chars("direct-decrypt");
        let link = str_chars("link-decrypt");
        if chars_eq(c.as_slice(), direct.as_slice()) {
            Ok(Benchmark::DirectDecrypt)
        } else if chars_eq(c.as_slice(), link.as_slice()) {
            Ok(Benchmark::LinkDecrypt)
        } else {
            Err(UnknownBenchmark { name: chars_to_string(c.as_slice()) })
        }
    }
}

/// Every benchmark's name reads back as that benchmark, and the two names
/// differ.
pub proof fn lemma_benchmark_names_roundtrip(b: Benchmark)
    ensures
        benchmark_of_name(benchmark_name(b)) == Some(b),
{
    reveal_strlit("direct-decrypt");
    reveal_strlit("link-decrypt");
    assert("direct-decrypt"@ != "link-decrypt"@) by {
        assert("direct-decrypt"@[0] != "link-decrypt"@[0]);
    }
}

impl core::str::FromStr for Benchmark {
    type Err = UnknownBenchmark;

    fn from_str(s: &str) -> (r: Result<Benchmark, UnknownBenchmark>)
        ensures
            match benchmark_of_name(s@) {
                Some(b) => r == Ok::<Benchmark, UnknownBenchmark>(b),
                None => r matches Err(e) && e.name@ == s@,
            },
    {
        Benchmark::from_name(s)
    }
}

/// The trimmed, non-empty entries of a comma-separated list.
pub open spec fn list_entries(pieces: Seq<Seq<char>>) -> Seq<Seq<char>>
    decreases pieces.len(),
{
    if pieces.len() == 0 {
        Seq::empty()
    } else {
        let rest = list_entries(pieces.drop_last());
        let t = trim(pieces.last());
        if t.len() > 0 {
            rest.push(t)
        } else {
            rest
        }
    }
}

/// The entries read as integers, or the first entry that is not one.
pub open spec fn parse_entries(entries: Seq<Seq<char>>) -> Result<Seq<usize>, Seq<char>>
    decreases entries.len(),
{
    if entries.len() == 0 {
        Ok(Seq::empty())
    } else {
        match parse_entries(entries.drop_last()) {
            Err(e) => Err(e),
            Ok(vs) => match parse_unsigned_spec(entries.last(), usize::MAX as nat) {
                Some(v) => Ok(vs.push(v as usize)),
                None => Err(entries.last()),
            },
        }
    }
}

/// What `parse_usize_list` makes of a variable's value: `None` when it is
/// unset, blank or holds no entries.
pub open spec fn usize_list_spec(value: Option<Seq<char>>) -> Result<Option<Seq<usize>>, Seq<char>> {
    if !is_set(value) {
        Ok(None)
    } else {
        match parse_entries(list_entries(split(value->Some_0, ','))) {
            Err(e) => Err(e),
            Ok(vs) => if vs.len() == 0 { Ok(None) } else { Ok(Some(vs)) },
        }
    }
}

/// A comma-separated list of non-negative integers from the value of the
/// variable `name`.
pub fn parse_usize_list(value: Option<String>, name: &str) -> (r: Result<Option<Vec<usize>>, EnvError>)
    ensures
        match usize_list_spec(opt_view(value)) {
            Ok(None) => r == Ok::<Option<Vec<usize>>, EnvError>(None),
            Ok(Some(vs)) => r matches Ok(Some(v)) && v@ == vs,
            Err(bad) => r matches Err(EnvError::NotAnInteger { name: n, raw }) && n@ == name@
                && raw@ == bad,
        },
{
    let ghost vv = opt_view(value);
    let raw = match non_blank(value) {
        None => {
            return Ok(None);
        },
        Some(raw) => raw,
    };
    let chars = str_chars(raw.as_str());
    let pieces = split_chars(chars.as_slice(), ',');
    let ghost ps = split(raw@, ',');
    assert(vv == Some(raw@) && is_set(vv));
    let mut values: Vec<usize> = Vec::new();
    let ghost mut entries: Seq<Seq<char>> = Seq::empty();
    for i in 0..pieces.len()
        invariant
            vv == opt_view(value),
            vv == Some(raw@) && is_set(vv),
            ps == split(raw@, ','),
            pieces@.len() == ps.len(),
            forall|k: int| 0 <= k < pieces@.len() ==> (#[trigger] pieces@[k])@ == ps[k],
            entries == list_entries(ps.take(i as int)),
            parse_entries(entries) == Ok::<Seq<usize>, Seq<char>>(values@),
    {
        assert(ps.take(i + 1).drop_last() == ps.take(i as int));
        let t = trim_chars(pieces[i].as_slice());
        if t.len() > 0 {
            proof {
                assert(ps.take(i + 1).last() == ps[i as int]);
                assert(list_entries(ps.take(i + 1)) == entries.push(t@));
                entries = entries.push(t@);
                assert(entries.drop_last() == list_entries(ps.take(i as int)));
            }
            match parse_unsigned(t.as_slice(), usize::MAX as u64) {
                Some(v) => {
                    values.push(v as usize);
                },
                None => {
                    proof {
                        assert(parse_entries(entries) == Err::<Seq<usize>, Seq<char>>(t@));
                        lemma_parse_entries_error_stays(ps, i as int + 1, t@);
                    }
                    return Err(
                        EnvError::NotAnInteger {
                            name: chars_to_string(str_chars(name).as_slice()),
                            raw: chars_to_string(t.as_slice()),
                        },
                    );
                },
            }
        }
    }
    assert(ps.take(pieces.len() as int) == ps);
    if values.len() == 0 {
        Ok(None)
    } else {
        Ok(Some(values))
    }
}

proof fn lemma_parse_entries_prefix_error(entries: Seq<Seq<char>>, k: int, bad: Seq<char>)
    requires
        0 <= k <= entries.len(),
        parse_entries(entries.take(k)) == Err::<Seq<usize>, Seq<char>>(bad),
    ensures
        parse_entries(entries) == Err::<Seq<usize>, Seq<char>>(bad),
    decreases entries.len() - k,
{
    if k < entries.len() {
        assert(entries.drop_last().take(k) == entries.take(k));
        lemma_parse_entries_prefix_error(entries.drop_last(), k, bad);
    } else {
        assert(entries.take(k) == entries);
    }
}

proof fn lemma_list_entries_prefix(ps: Seq<Seq<char>>, k: int)
    requires
        0 <= k <= ps.len(),
    ensures
        list_entries(ps.take(k)).is_prefix_of(list_entries(ps)),
    decreases ps.len() - k,
{
    if k < ps.len() {
        lemma_list_entries_prefix(ps.drop_last(), k);
        assert(ps.drop_last().take(k) == ps.take(k));
    } else {
        assert(ps.take(k) == ps);
    }
}

proof fn lemma_parse_entries_error_stays(ps: Seq<Seq<char>>, k: int, bad: Seq<char>)
    requires
        0 <= k <= ps.len(),
        parse_entries(list_entries(ps.take(k))) == Err::<Seq<usize>, Seq<char>>(bad),
    ensures
        parse_entries(list_entries(ps)) == Err::<Seq<usize>, Seq<char>>(bad),
{
    lemma_list_entries_prefix(ps, k);
    let all = list_entries(ps);
    let pre = list_entries(ps.take(k));
    assert(all.take(pre.len() as int) == pre);
    lemma_parse_entries_prefix_error(all, pre.len() as int, bad);
}

/// Where an experiment's CSV files landed, plus the fitted model.
pub struct Outcome {
    pub benchmark: Benchmark,
    pub prefix: String,
    pub formula: String,
}

/// Runs per `(set size × recurring %)` cell when `EXPERIMENT_RUNS` is unset.
pub const DEFAULT_RUNS: usize = 10;

/// The CFT set sizes swept when `EXPERIMENT_SIZES` is unset.
pub open spec fn default_sizes_spec() -> Seq<usize> {
    seq![10, 20, 50, 100, 500, 1000, 2000, 4000, 8000]
}

/// The set sizes to sweep: the parsed `EXPERIMENT_SIZES`, else the defaults.
pub fn sizes_or_default(parsed: Option<Vec<usize>>) -> (r: Vec<usize>)
    ensures
        match parsed {
            Some(v) => r@ == v@,
            None => r@ == default_sizes_spec(),
        },
{
    match parsed {
        Some(v) => v,
        None => {
            let r = vec![10, 20, 50, 100, 500, 1000, 2000, 4000, 8000];
            assert(r@ =~= default_sizes_spec());
            r
        },
    }
}

} // verus!
