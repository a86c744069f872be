//! The MP-SPDZ side of the PET benchmark: the flat upper triangle of the
//! pairwise matrix, and reading the predicate rows party 0 prints.
use vstd::prelude::*;

use crate::pattern::{captures, opt_strings, regex_captures};
use crate::text::{
    chars_eq, chars_to_string, decimal, lines, lines_chars, parse_unsigned, parse_unsigned_spec,
    str_chars, strings_view, u64_to_string,
};

verus! {

// ---------------------------------------------------------------------------
// Predicate rows
// ---------------------------------------------------------------------------

/// `^row_(\d+)=(\d)`: a predicate row as party 0 prints it.
pub const ROW_PATTERN: &'static str = r"^row_(\d+)=(\d)";

/// The index text and the value text of a line's captures, when it is a
/// predicate row.
pub open spec fn predicate_row(caps: Option<Seq<Seq<char>>>) -> Option<(Seq<char>, Seq<char>)> {
    match caps {
        Some(g) => if g.len() == 2 {
            Some((g[0], g[1]))
        } else {
            None
        },
        None => None,
    }
}

/// What one line contributes: nothing for another line, the row and whether
/// its value is `1` for a predicate row, and `Err` with the index text when
/// that index does not fit a `usize`.
pub open spec fn row_of(caps: Option<Seq<Seq<char>>>) -> Result<Option<(nat, bool)>, Seq<char>> {
    match predicate_row(caps) {
        None => Ok(None),
        Some((ds, v)) => match parse_unsigned_spec(ds, usize::MAX as nat) {
            None => Err(ds),
            Some(idx) => Ok(Some((idx, v == "1"@))),
        },
    }
}

/// Why the predicate rows could not be read.
#[derive(Debug, PartialEq, Eq)]
pub enum PredicateError {
    /// A row index too large for `usize`.
    RowIndex(String),
    /// Some of the `n` rows were not printed.
    MissingRows(usize),
}

/// The rows read from the lines: `Err` carries the first row index that
/// does not fit a `usize`; a later line for the same row wins.
pub open spec fn rows_read(ls: Seq<Seq<char>>, n: nat) -> Result<Seq<Option<bool>>, Seq<char>>
    decreases ls.len(),
{
    if ls.len() == 0 {
        Ok(Seq::new(n, |i: int| None::<bool>))
    } else {
        match rows_read(ls.drop_last(), n) {
            Err(e) => Err(e),
            Ok(rows) => match row_of(regex_captures(ROW_PATTERN@, ls.last())) {
                Err(e) => Err(e),
                Ok(None) => Ok(rows),
                Ok(Some((idx, b))) => if idx < n {
                    Ok(rows.update(idx as int, Some(b)))
                } else {
                    Ok(rows)
                },
            },
        }
    }
}

pub open spec fn all_some(rows: Seq<Option<bool>>) -> bool {
    forall|i: int| 0 <= i < rows.len() ==> (#[trigger] rows[i]) is Some
}

/// What the captures of one line contribute to the rows.
pub fn row_of_captures(caps: Option<Vec<String>>) -> (r: Result<Option<(usize, bool)>, PredicateError>)
    ensures
        match row_of(opt_strings(caps)) {
            Err(ds) => r matches Err(PredicateError::RowIndex(raw)) && raw@ == ds,
            Ok(None) => r matches Ok(None),
            Ok(Some((idx, b))) => r matches Ok(Some((i, c))) && i == idx && c == b,
        },
{
    let groups = match caps {
        Some(g) => g,
        None => return Ok(None),
    };
    if groups.len() != 2 {
        return Ok(None);
    }
    let ghost g = strings_view(groups@);
    assert(g[0] == groups@[0]@ && g[1] == groups@[1]@);
    let digits = str_chars(groups[0].as_str());
    let value = str_chars(groups[1].as_str());
    let one = str_chars("1");
    proof {
        reveal_strlit("1");
    }
    match parse_unsigned(digits.as_slice(), usize::MAX as u64) {
        None => Err(PredicateError::RowIndex(chars_to_string(digits.as_slice()))),
        Some(idx) => Ok(Some((idx as usize, chars_eq(value.as_slice(), one.as_slice())))),
    }
}

/// Reads the `row_<i>=<0|1>` predicate lines party 0 prints, for rows
/// `0..n`.
pub fn parse_predicates(stdout: &str, n: usize) -> (r: Result<Vec<bool>, PredicateError>)
    ensures
        match rows_read(lines(stdout@), n as nat) {
            Err(ds) => r matches Err(PredicateError::RowIndex(raw)) && raw@ == ds,
            Ok(rows) => if all_some(rows) {
                r matches Ok(v) && v@.len() == n && forall|i: int|
                    0 <= i < n ==> Some(#[trigger] v@[i]) == rows[i]
            } else {
                r == Err::<Vec<bool>, PredicateError>(PredicateError::MissingRows(n))
            },
        },
{
    let text = str_chars(stdout);
    let ls = lines_chars(text.as_slice());
    let ghost lsv = lines(stdout@);
    let mut rows: Vec<Option<bool>> = Vec::new();
    for i in 0..n
        invariant
            rows@ == Seq::new(i as nat, |k: int| None::<bool>),
    {
        rows.push(None);
        assert(rows@ =~= Seq::new((i + 1) as nat, |k: int| None::<bool>));
    }
    for j in 0..ls.len()
        invariant
            lsv == lines(stdout@),
            ls@.len() == lsv.len(),
            forall|k: int| 0 <= k < ls@.len() ==> (#[trigger] ls@[k])@ == lsv[k],
            rows_read(lsv.take(j as int), n as nat) == Ok::<Seq<Option<bool>>, Seq<char>>(rows@),
            rows@.len() == n,
    {
        assert(lsv.take(j + 1).drop_last() == lsv.take(j as int));
        assert(lsv.take(j + 1).last() == lsv[j as int]);
        let line = chars_to_string(ls[j].as_slice());
        match row_of_captures(captures(ROW_PATTERN, line.as_str())) {
            Err(e) => {
                proof {
                    lemma_rows_read_error_stays(lsv, j + 1, n as nat, row_of(regex_captures(ROW_PATTERN@, lsv[j as int]))->Err_0);
                }
                return Err(e);
            },
            Ok(None) => {},
            Ok(Some((idx, b))) => {
                if idx < n {
                    rows.set(idx, Some(b));
                }
            },
        }
    }
    assert(lsv.take(ls.len() as int) == lsv);
    let mut out: Vec<bool> = Vec::new();
    for i in 0..n
        invariant
            rows_read(lines(stdout@), n as nat) == Ok::<Seq<Option<bool>>, Seq<char>>(rows@),
            rows@.len() == n,
            out@.len() == i,
            forall|k: int| 0 <= k < i ==> Some(#[trigger] out@[k]) == rows@[k],
    {
        match rows[i] {
            Some(b) => out.push(b),
            None => {
                assert(!all_some(rows@)) by {
                    assert(rows@[i as int] is None);
                }
                return Err(PredicateError::MissingRows(n));
            },
        }
    }
    assert(all_some(rows@)) by {
        assert forall|k: int| 0 <= k < rows@.len() implies (#[trigger] rows@[k]) is Some by {
            assert(Some(out@[k]) == rows@[k]);
        }
    }
    Ok(out)
}

proof fn lemma_rows_read_error_stays(ls: Seq<Seq<char>>, k: int, n: nat, e: Seq<char>)
    requires
        0 <= k <= ls.len(),
        rows_read(ls.take(k), n) == Err::<Seq<Option<bool>>, Seq<char>>(e),
    ensures
        rows_read(ls, n) == Err::<Seq<Option<bool>>, Seq<char>>(e),
    decreases ls.len() - k,
{
    if k < ls.len() {
        assert(ls.drop_last().take(k) == ls.take(k));
        lemma_rows_read_error_stays(ls.drop_last(), k, n, e);
    } else {
        assert(ls.take(k) == ls);
    }
}

// ---------------------------------------------------------------------------
// The upper triangle of a symmetric matrix
// ---------------------------------------------------------------------------

/// Entries in rows `0..i` of the upper triangle (diagonal included) of an
/// `n × n` matrix.
pub open spec fn row_start(n: int, i: int) -> int
    decreases i,
{
    if i <= 0 {
        0
    } else {
        row_start(n, i - 1) + (n - (i - 1))
    }
}

/// The upper triangle (including the diagonal) of a symmetric `n × n`
/// matrix, stored flat, row after row.
pub struct Triangle<T> {
    pub n: usize,
    pub values: Vec<T>,
}

impl<T> Triangle<T> {
    /// An empty triangle for an `n × n` matrix.
    pub fn with_capacity(n: usize) -> (t: Self)
        ensures
            t.n == n,
            t.values@.len() == 0,
    {
        Triangle { n, values: Vec::new() }
    }

    /// Number of entries: `n·(n+1)/2`.
    pub fn len(n: usize) -> (r: usize)
        requires
            n * (n + 1) <= usize::MAX,
        ensures
            r == n * (n + 1) / 2,
            r == row_start(n as int, n as int),
    {
        proof {
            lemma_row_start_closed(n as int, n as int);
            assert(n < usize::MAX) by (nonlinear_arith)
                requires
                    n * (n + 1) <= usize::MAX,
            ;
            let rs = row_start(n as int, n as int);
            assert(2 * rs == n * (n + 1)) by (nonlinear_arith)
                requires
                    2 * rs == 2 * n * n - n * (n - 1),
            ;
        }
        n * (n + 1) / 2
    }

    /// Flat offset of `(i, j)` for `i <= j < n`: the entries of the earlier
    /// rows, then `j − i` into row `i`.
    pub fn index(&self, i: usize, j: usize) -> (r: usize)
        requires
            i <= j < self.n,
            self.n * (self.n + 1) <= usize::MAX,
        ensures
            r == row_start(self.n as int, i as int) + (j - i),
            r < row_start(self.n as int, self.n as int),
    {
        proof {
            lemma_row_start_closed(self.n as int, i as int);
            lemma_row_start_closed(self.n as int, self.n as int);
            lemma_row_start_monotone(self.n as int, i as int + 1, self.n as int);
            assert(i * self.n <= self.n * (self.n + 1)) by (nonlinear_arith)
                requires
                    i < self.n,
            ;
            if i >= 1 {
                assert((i - 1) * i <= i * self.n) by (nonlinear_arith)
                    requires
                        i < self.n,
                        i >= 1,
                ;
                assert(i * (i - 1) == (i - 1) * i) by (nonlinear_arith);
                assert(i * (i - 1) / 2 <= i * (i - 1)) by (nonlinear_arith)
                    requires
                        i >= 1,
                ;
            }
        }
        let k = i.saturating_sub(1);
        assert(k == (if i >= 1 { i - 1 } else { 0 }));
        assert(i * k / 2 <= i * self.n);
        assert(i * self.n - i * k / 2 == row_start(self.n as int, i as int));
        assert(row_start(self.n as int, self.n as int) * 2 <= usize::MAX) by {
            let rs = row_start(self.n as int, self.n as int);
            assert(2 * rs == self.n * (self.n + 1)) by (nonlinear_arith)
                requires
                    2 * rs == 2 * self.n * self.n - self.n * (self.n - 1),
            ;
        }
        i * self.n - i * k / 2 + (j - i)
    }
}

/// `row_start` in closed form.
pub proof fn lemma_row_start_closed(n: int, i: int)
    requires
        0 <= i,
    ensures
        2 * row_start(n, i) == 2 * i * n - i * (i - 1),
        i >= 1 ==> row_start(n, i) == i * n - i * (i - 1) / 2,
        row_start(n, i) == i * n - i * (if i >= 1 { i - 1 } else { 0 }) / 2,
    decreases i,
{
    if i > 0 {
        lemma_row_start_closed(n, i - 1);
        assert(2 * i * n - i * (i - 1) == 2 * (i - 1) * n - (i - 1) * (i - 2) + 2 * (n - (i - 1)))
            by (nonlinear_arith);
        assert(i * (i - 1) % 2 == 0) by {
            vstd::arithmetic::mul::lemma_mul_is_commutative(i, i - 1);
            lemma_consecutive_even(i - 1);
        }
        vstd::arithmetic::div_mod::lemma_fundamental_div_mod(i * (i - 1), 2);
        let q = i * (i - 1) / 2;
        assert(i * (i - 1) == 2 * q);
        let rs = row_start(n, i);
        assert(rs == i * n - q) by (nonlinear_arith)
            requires
                2 * rs == 2 * i * n - i * (i - 1),
                i * (i - 1) == 2 * q,
        ;
    }
}

proof fn lemma_consecutive_even(k: int)
    requires
        k >= 0,
    ensures
        (k * (k + 1)) % 2 == 0,
        ((k + 1) * k) % 2 == 0,
    decreases k,
{
    if k > 0 {
        lemma_consecutive_even(k - 1);
        assert(k * (k + 1) == (k - 1) * k + 2 * k) by (nonlinear_arith);
        assert((k + 1) * k == k * (k + 1)) by (nonlinear_arith);
        vstd::arithmetic::div_mod::lemma_mod_multiples_vanish(k, (k - 1) * k, 2);
    }
}

pub proof fn lemma_row_start_monotone(n: int, i: int, j: int)
    requires
        0 <= i <= j <= n,
    ensures
        row_start(n, i) + (n - i) * 0 <= row_start(n, j),
        i < j ==> row_start(n, i) + (n - i) <= row_start(n, j),
    decreases j - i,
{
    if i < j {
        lemma_row_start_monotone(n, i, j - 1);
    }
}

/// Every `(i, j)` with `i <= j < n` has its own slot: rows are laid out one
/// after the other, so slots of different pairs differ.
pub proof fn lemma_triangle_index_injective(n: int, i1: int, j1: int, i2: int, j2: int)
    requires
        0 <= i1 <= j1 < n,
        0 <= i2 <= j2 < n,
        row_start(n, i1) + (j1 - i1) == row_start(n, i2) + (j2 - i2),
    ensures
        i1 == i2 && j1 == j2,
{
    if i1 < i2 {
        lemma_row_start_monotone(n, i1, i2);
    } else if i2 < i1 {
        lemma_row_start_monotone(n, i2, i1);
    }
}

/// An optional counter as a CSV field: empty when unset.
pub fn opt_u64(v: Option<u64>) -> (s: String)
    ensures
        s@ == match v {
            Some(x) => decimal(x as nat),
            None => Seq::<char>::empty(),
        },
{
    match v {
        Some(x) => u64_to_string(x),
        None => String::new(),
    }
}

// ---------------------------------------------------------------------------
// Compiling and launching
// ---------------------------------------------------------------------------

/// The compiled program's name: the source name and its arguments, joined
/// by `-`.
pub open spec fn compiled_name_spec(name: Seq<char>, args: Seq<Seq<char>>) -> Seq<char> {
    crate::sorting::join_with(seq![name] + args, "-"@)
}

pub fn compiled_name(name: &str, args: &[String]) -> (r: String)
    ensures
        r@ == compiled_name_spec(name@, crate::text::strings_view(args@)),
{
    let ghost all = seq![name@] + crate::text::strings_view(args@);
    let mut v = str_chars(name);
    assert(all.take(1) =~= seq![name@]);
    for i in 0..args.len()
        invariant
            all == seq![name@] + crate::text::strings_view(args@),
            v@ == crate::sorting::join_with(all.take(i + 1), "-"@),
    {
        crate::text::append_str(&mut v, "-");
        crate::text::append_str(&mut v, args[i].as_str());
        proof {
            reveal_strlit("-");
            assert(all.take(i + 2).drop_last() =~= all.take(i + 1));
            assert(all.take(i + 2).last() == args@[i as int]@);
        }
    }
    assert(all.take(args.len() + 1) =~= all);
    chars_to_string(v.as_slice())
}

/// `-v -N <parties> -p <party> <program>`, one party's command line.
pub fn party_args(parties: usize, party: usize, full_name: &str) -> (r: Vec<String>)
    ensures
        crate::text::strings_view(r@) == seq![
            "-v"@,
            "-N"@,
            decimal(parties as nat),
            "-p"@,
            decimal(party as nat),
            full_name@,
        ],
{
    let mut r: Vec<String> = Vec::new();
    r.push("-v".to_owned());
    r.push("-N".to_owned());
    r.push(u64_to_string(parties as u64));
    r.push("-p".to_owned());
    r.push(u64_to_string(party as u64));
    r.push(full_name.to_owned());
    assert(crate::text::strings_view(r@) =~= seq![
        "-v"@,
        "-N"@,
        decimal(parties as nat),
        "-p"@,
        decimal(party as nat),
        full_name@,
    ]);
    r
}

/// The run failed when any party exited with a non-zero code.
pub fn any_failed(codes: &[i32]) -> (r: bool)
    ensures
        r == exists|i: int| 0 <= i < codes@.len() && codes@[i] != 0,
{
    for i in 0..codes.len()
        invariant
            forall|j: int| 0 <= j < i ==> codes@[j] == 0,
    {
        if codes[i] != 0 {
            return true;
        }
    }
    false
}

/// What each party wrote to its pipes.
pub struct PartyOutput {
    pub stdout: Vec<String>,
    pub stderr: Vec<String>,
}

/// Separators of a list of set sizes: commas and whitespace alike.
pub open spec fn size_separator(c: char) -> bool {
    c == ',' || c == ' ' || c == '\t' || c == '\n'
}

/// The tokens that read as positive integers, in order.
pub open spec fn size_tokens(pieces: Seq<Seq<char>>) -> Seq<usize>
    decreases pieces.len(),
{
    if pieces.len() == 0 {
        Seq::empty()
    } else {
        let rest = size_tokens(pieces.drop_last());
        match parse_unsigned_spec(pieces.last(), usize::MAX as nat) {
            Some(v) => if v > 0 {
                rest.push(v as usize)
            } else {
                rest
            },
            None => rest,
        }
    }
}

pub open spec fn size_list_spec(raw: Seq<char>) -> Seq<usize> {
    size_tokens(
        crate::text::split(
            raw.map_values(|c: char| if size_separator(c) { ',' } else { c }),
            ',',
        ),
    )
}

/// The set sizes of a list like `10,20 50`: tokens between commas and
/// whitespace that read as positive integers; anything else is skipped.
pub fn parse_size_list(raw: &str) -> (r: Vec<usize>)
    ensures
        r@ == size_list_spec(raw@),
{
    let chars = str_chars(raw);
    let mut norm: Vec<char> = Vec::new();
    for i in 0..chars.len()
        invariant
            chars@ == raw@,
            norm@ == raw@.take(i as int).map_values(
                |c: char| if size_separator(c) { ',' } else { c },
            ),
    {
        let c = chars[i];
        norm.push(if c == ',' || c == ' ' || c == '\t' || c == '\n' { ',' } else { c });
        assert(norm@ =~= raw@.take(i + 1).map_values(
            |c: char| if size_separator(c) { ',' } else { c },
        ));
    }
    assert(raw@.take(raw@.len() as int) == raw@);
    let pieces = crate::text::split_chars(norm.as_slice(), ',');
    let ghost pv = pieces@.map_values(|p: Vec<char>| p@);
    assert(pv =~= crate::text::split(norm@, ','));
    assert(norm@ =~= raw@.map_values(|c: char| if size_separator(c) { ',' } else { c }));
    let mut r: Vec<usize> = Vec::new();
    for i in 0..pieces.len()
        invariant
            pv == pieces@.map_values(|p: Vec<char>| p@),
            r@ == size_tokens(pv.take(i as int)),
    {
        proof {
            assert(pv.take(i + 1).drop_last() == pv.take(i as int));
            assert(pv.take(i + 1).last() == pieces@[i as int]@);
        }
        match parse_unsigned(pieces[i].as_slice(), usize::MAX as u64) {
            Some(v) => {
                if v > 0 {
                    r.push(v as usize);
                }
            },
            None => {},
        }
    }
    assert(pv.take(pieces@.len() as int) == pv);
    r
}

} // verus!
