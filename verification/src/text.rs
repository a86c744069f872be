//! Text primitives shared by the parsers and formatters of the library:
//! decimal numerals, unsigned-integer parsing, trimming, splitting and line
//! breaking, all stated over `Seq<char>`.
use vstd::prelude::*;

verus! {

// ---------------------------------------------------------------------------
// Decimal numerals
// ---------------------------------------------------------------------------

pub open spec fn is_digit(c: char) -> bool {
    '0' <= c && c <= '9'
}

pub open spec fn digit_char(d: nat) -> char {
    (d + 48) as char
}

pub open spec fn digit_value(c: char) -> nat {
    (c as int - 48) as nat
}

/// The shortest decimal numeral of `n`, without sign or leading zeros.
pub open spec fn decimal(n: nat) -> Seq<char>
    decreases n,
{
    if n < 10 {
        seq![digit_char(n)]
    } else {
        decimal(n / 10).push(digit_char(n % 10))
    }
}

/// The number a string of ASCII digits denotes.
pub open spec fn digits_value(s: Seq<char>) -> nat
    decreases s.len(),
{
    if s.len() == 0 {
        0
    } else {
        digits_value(s.drop_last()) * 10 + digit_value(s.last())
    }
}

pub open spec fn all_digits(s: Seq<char>) -> bool {
    forall|i: int| 0 <= i < s.len() ==> is_digit(#[trigger] s[i])
}

/// What Rust's `FromStr` for an unsigned integer type accepts, before the
/// range check: an optional `+`, then at least one ASCII digit.
pub open spec fn unsigned_numeral(s: Seq<char>) -> Option<nat> {
    let d = if s.len() > 0 && s[0] == '+' { s.drop_first() } else { s };
    if d.len() > 0 && all_digits(d) {
        Some(digits_value(d))
    } else {
        None
    }
}

/// `s.parse::<uN>()` for an unsigned type whose largest value is `max`.
pub open spec fn parse_unsigned_spec(s: Seq<char>, max: nat) -> Option<nat> {
    match unsigned_numeral(s) {
        Some(v) => if v <= max { Some(v) } else { None },
        None => None,
    }
}

pub proof fn lemma_decimal_digits(n: nat)
    ensures
        decimal(n).len() >= 1,
        all_digits(decimal(n)),
        digits_value(decimal(n)) == n,
    decreases n,
{
    assert(digit_value(digit_char(n % 10)) == n % 10) by {
        assert(((n % 10 + 48) as char) as int == n % 10 + 48);
    }
    if n < 10 {
        let s = decimal(n);
        assert(s.drop_last() =~= Seq::<char>::empty());
        assert(n % 10 == n);
        assert(digits_value(s) == digits_value(s.drop_last()) * 10 + digit_value(s.last()));
    }
    if n >= 10 {
        lemma_decimal_digits(n / 10);
        let s = decimal(n);
        assert(s.drop_last() == decimal(n / 10));
        let k = n % 10;
        assert(digit_value(digit_char(k)) == k) by {
            assert(((k + 48) as char) as int == k + 48);
        }
        assert(s.last() == digit_char(k));
        assert(n == (n / 10) * 10 + k);
        assert(digits_value(s) == digits_value(s.drop_last()) * 10 + digit_value(s.last()));
        assert forall|i: int| 0 <= i < s.len() implies is_digit(#[trigger] s[i]) by {
            if i < s.len() - 1 {
                assert(s[i] == decimal(n / 10)[i]);
            }
        }
    }
}

/// Formatting a number and parsing it back gives the number.
pub proof fn lemma_parse_decimal_roundtrip(n: nat, max: nat)
    requires
        n <= max,
    ensures
        parse_unsigned_spec(decimal(n), max) == Some(n),
{
    lemma_decimal_digits(n);
    let s = decimal(n);
    assert(s[0] != '+') by {
        assert(is_digit(s[0]));
    }
}

proof fn lemma_digits_value_monotone(s: Seq<char>, i: int, j: int)
    requires
        0 <= i <= j <= s.len(),
        all_digits(s),
    ensures
        digits_value(s.take(i)) <= digits_value(s.take(j)),
    decreases j - i,
{
    if i < j {
        lemma_digits_value_monotone(s, i, j - 1);
        assert(s.take(j).drop_last() == s.take(j - 1));
    }
}

pub fn digit_to_char(d: u64) -> (c: char)
    requires
        d < 10,
    ensures
        c == digit_char(d as nat),
        is_digit(c),
{
    let b: u8 = d as u8 + 48;
    b as char
}

/// The decimal numeral of `n`.
pub fn decimal_chars(n: u64) -> (v: Vec<char>)
    ensures
        v@ == decimal(n as nat),
    decreases n,
{
    if n < 10 {
        let mut v = Vec::new();
        v.push(digit_to_char(n));
        v
    } else {
        let mut v = decimal_chars(n / 10);
        v.push(digit_to_char(n % 10));
        v
    }
}

/// `n.to_string()` for an unsigned integer.
pub fn u64_to_string(n: u64) -> (s: String)
    ensures
        s@ == decimal(n as nat),
{
    let v = decimal_chars(n);
    chars_to_string(v.as_slice())
}

/// Parses an unsigned integer the way `str::parse::<uN>` does, where `max`
/// is the largest value of the target type.
pub fn parse_unsigned(s: &[char], max: u64) -> (r: Option<u64>)
    ensures
        match r {
            Some(v) => parse_unsigned_spec(s@, max as nat) == Some(v as nat),
            None => parse_unsigned_spec(s@, max as nat) is None,
        },
{
    let start: usize = if s.len() > 0 && s[0] == '+' { 1 } else { 0 };
    let ghost d = if s@.len() > 0 && s@[0] == '+' { s@.drop_first() } else { s@ };
    assert(d == s@.subrange(start as int, s@.len() as int));
    if start >= s.len() {
        return None;
    }
    let mut acc: u64 = 0;
    let mut i: usize = start;
    while i < s.len()
        invariant
            start <= i <= s.len(),
            start < s.len(),
            d == (if s@.len() > 0 && s@[0] == '+' { s@.drop_first() } else { s@ }),
            d == s@.subrange(start as int, s@.len() as int),
            all_digits(d.take(i - start)),
            acc as nat == digits_value(d.take(i - start)),
            acc <= max,
        decreases s.len() - i,
    {
        let c = s[i];
        assert(d[i - start] == c);
        if !(c >= '0' && c <= '9') {
            assert(!all_digits(d)) by {
                assert(!is_digit(d[i - start]));
            }
            return None;
        }
        let dv: u64 = (c as u32 - 48) as u64;
        assert(d.take(i - start + 1).drop_last() == d.take(i - start));
        assert(all_digits(d.take(i - start + 1))) by {
            assert forall|k: int| 0 <= k < i - start + 1 implies is_digit(
                #[trigger] d.take(i - start + 1)[k],
            ) by {
                if k < i - start {
                    assert(d.take(i - start + 1)[k] == d.take(i - start)[k]);
                }
            }
        }
        let next = acc.checked_mul(10);
        match next {
            Some(m) => {
                let sum = m.checked_add(dv);
                match sum {
                    Some(v) if v <= max => {
                        acc = v;
                    },
                    _ => {
                        proof {
                            lemma_overflow_propagates(d, (i - start + 1) as int, max as nat);
                        }
                        return None;
                    },
                }
            },
            None => {
                proof {
                    lemma_overflow_propagates(d, (i - start + 1) as int, max as nat);
                }
                return None;
            },
        }
        i = i + 1;
    }
    assert(d.take(i - start) == d);
    Some(acc)
}

/// Once a prefix of the digits exceeds `max`, the whole numeral does, or it
/// is not a numeral at all.
proof fn lemma_overflow_propagates(d: Seq<char>, k: int, max: nat)
    requires
        0 < k <= d.len(),
        all_digits(d.take(k)),
        digits_value(d.take(k)) > max,
    ensures
        !(all_digits(d) && digits_value(d) <= max),
{
    if all_digits(d) {
        lemma_digits_value_monotone(d, k, d.len() as int);
        assert(d.take(d.len() as int) == d);
    }
}

// ---------------------------------------------------------------------------
// Strings
// ---------------------------------------------------------------------------

/// `String::push`.
#[verifier::external_body]
pub(crate) fn push_char(s: &mut String, c: char)
    ensures
        final(s)@ == old(s)@.push(c),
{
    s.push(c);
}

pub fn chars_to_string(v: &[char]) -> (s: String)
    ensures
        s@ == v@,
{
    let mut s = String::new();
    for i in 0..v.len()
        invariant
            s@ == v@.take(i as int),
    {
        push_char(&mut s, v[i]);
        assert(v@.take(i + 1) == v@.take(i as int).push(v@[i as int]));
    }
    assert(v@.take(v.len() as int) == v@);
    s
}

/// The characters of `s`.
pub fn str_chars(s: &str) -> (v: Vec<char>)
    ensures
        v@ == s@,
{
    let mut v: Vec<char> = Vec::new();
    for c in it: s.chars()
        invariant
            v@ == it.seq().take(it.index() as int),
    {
        v.push(c);
    }
    v
}

pub fn append_chars(v: &mut Vec<char>, s: &[char])
    ensures
        final(v)@ == old(v)@ + s@,
{
    for i in 0..s.len()
        invariant
            v@ == old(v)@ + s@.take(i as int),
    {
        v.push(s[i]);
        assert(s@.take(i + 1) == s@.take(i as int).push(s@[i as int]));
    }
    assert(s@.take(s.len() as int) == s@);
}

pub fn append_str(v: &mut Vec<char>, s: &str)
    ensures
        final(v)@ == old(v)@ + s@,
{
    let c = str_chars(s);
    append_chars(v, c.as_slice());
}

/// Appends the decimal numeral of `n`.
pub fn append_decimal(v: &mut Vec<char>, n: u64)
    ensures
        final(v)@ == old(v)@ + decimal(n as nat),
{
    let d = decimal_chars(n);
    append_chars(v, d.as_slice());
}

/// The views of a list of strings.
pub open spec fn strings_view(v: Seq<String>) -> Seq<Seq<char>> {
    v.map_values(|s: String| s@)
}

/// `format!("{a}{b}")` for a literal prefix and a character run.
pub fn concat(a: &str, b: &[char]) -> (s: String)
    ensures
        s@ == a@ + b@,
{
    let mut v = str_chars(a);
    append_chars(&mut v, b);
    chars_to_string(v.as_slice())
}

/// `format!("{a}{n}")` for an unsigned integer `n`.
pub fn concat_decimal(a: &str, n: u64) -> (s: String)
    ensures
        s@ == a@ + decimal(n as nat),
{
    let d = decimal_chars(n);
    concat(a, d.as_slice())
}

pub fn chars_eq(a: &[char], b: &[char]) -> (r: bool)
    ensures
        r == (a@ == b@),
{
    if a.len() != b.len() {
        return false;
    }
    for i in 0..a.len()
        invariant
            a.len() == b.len(),
            forall|k: int| 0 <= k < i ==> a@[k] == b@[k],
    {
        if a[i] != b[i] {
            return false;
        }
    }
    assert(a@ =~= b@);
    true
}

pub fn chars_contains(a: &[char], c: char) -> (r: bool)
    ensures
        r == a@.contains(c),
{
    for i in 0..a.len()
        invariant
            forall|k: int| 0 <= k < i ==> a@[k] != c,
    {
        if a[i] == c {
            assert(a@[i as int] == c);
            return true;
        }
    }
    false
}

/// `a.starts_with(p)`.
pub fn chars_starts_with(a: &[char], p: &[char]) -> (r: bool)
    ensures
        r == p@.is_prefix_of(a@),
{
    if p.len() > a.len() {
        return false;
    }
    for i in 0..p.len()
        invariant
            p.len() <= a.len(),
            forall|k: int| 0 <= k < i ==> p@[k] == a@[k],
    {
        if a[i] != p[i] {
            return false;
        }
    }
    true
}

pub open spec fn is_suffix(p: Seq<char>, a: Seq<char>) -> bool {
    p.len() <= a.len() && a.subrange(a.len() - p.len(), a.len() as int) == p
}

/// `a.ends_with(p)`.
pub fn chars_ends_with(a: &[char], p: &[char]) -> (r: bool)
    ensures
        r == is_suffix(p@, a@),
{
    if p.len() > a.len() {
        return false;
    }
    let off = a.len() - p.len();
    for i in 0..p.len()
        invariant
            p.len() <= a.len(),
            off == a.len() - p.len(),
            forall|k: int| 0 <= k < i ==> p@[k] == a@[off + k],
    {
        if a[off + i] != p[i] {
            assert(a@.subrange(off as int, a@.len() as int)[i as int] != p@[i as int]);
            return false;
        }
    }
    assert(a@.subrange(off as int, a@.len() as int) =~= p@);
    true
}

pub fn slice_to_vec(a: &[char], lo: usize, hi: usize) -> (v: Vec<char>)
    requires
        lo <= hi <= a.len(),
    ensures
        v@ == a@.subrange(lo as int, hi as int),
{
    let mut v = Vec::new();
    for i in lo..hi
        invariant
            lo <= i <= hi,
            hi <= a.len(),
            v@ == a@.subrange(lo as int, i as int),
    {
        v.push(a[i]);
        assert(a@.subrange(lo as int, i + 1) == a@.subrange(lo as int, i as int).push(a@[i as int]));
    }
    v
}

// ---------------------------------------------------------------------------
// Whitespace and trimming
// ---------------------------------------------------------------------------

/// `char::is_whitespace`: the Unicode `White_Space` property.
pub open spec fn is_whitespace(c: char) -> bool {
    ||| ('\u{9}' <= c && c <= '\u{d}')
    ||| c == ' '
    ||| c == '\u{85}'
    ||| c == '\u{a0}'
    ||| c == '\u{1680}'
    ||| ('\u{2000}' <= c && c <= '\u{200a}')
    ||| c == '\u{2028}'
    ||| c == '\u{2029}'
    ||| c == '\u{202f}'
    ||| c == '\u{205f}'
    ||| c == '\u{3000}'
}

pub fn char_is_whitespace(c: char) -> (r: bool)
    ensures
        r == is_whitespace(c),
{
    ('\u{9}' <= c && c <= '\u{d}') || c == ' ' || c == '\u{85}' || c == '\u{a0}' || c == '\u{1680}'
        || ('\u{2000}' <= c && c <= '\u{200a}') || c == '\u{2028}' || c == '\u{2029}' || c
        == '\u{202f}' || c == '\u{205f}' || c == '\u{3000}'
}

pub open spec fn trim_start(s: Seq<char>) -> Seq<char>
    decreases s.len(),
{
    if s.len() > 0 && is_whitespace(s[0]) {
        trim_start(s.drop_first())
    } else {
        s
    }
}

pub open spec fn trim_end(s: Seq<char>) -> Seq<char>
    decreases s.len(),
{
    if s.len() > 0 && is_whitespace(s.last()) {
        trim_end(s.drop_last())
    } else {
        s
    }
}

/// `str::trim`.
pub open spec fn trim(s: Seq<char>) -> Seq<char> {
    trim_end(trim_start(s))
}

pub fn trim_chars(s: &[char]) -> (v: Vec<char>)
    ensures
        v@ == trim(s@),
{
    let mut lo: usize = 0;
    assert(s@.subrange(0, s@.len() as int) == s@);
    while lo < s.len() && char_is_whitespace(s[lo])
        invariant
            lo <= s.len(),
            trim_start(s@) == trim_start(s@.subrange(lo as int, s@.len() as int)),
        decreases s.len() - lo,
    {
        assert(s@.subrange(lo as int, s@.len() as int).drop_first() == s@.subrange(
            lo + 1,
            s@.len() as int,
        ));
        lo = lo + 1;
    }
    let ghost mid = s@.subrange(lo as int, s@.len() as int);
    assert(trim_start(mid) == mid);
    let mut hi: usize = s.len();
    while hi > lo && char_is_whitespace(s[hi - 1])
        invariant
            lo <= hi <= s.len(),
            trim_end(mid) == trim_end(s@.subrange(lo as int, hi as int)),
        decreases hi,
    {
        assert(s@.subrange(lo as int, hi as int).drop_last() == s@.subrange(lo as int, hi - 1));
        hi = hi - 1;
    }
    slice_to_vec(s, lo, hi)
}

// ---------------------------------------------------------------------------
// Splitting
// ---------------------------------------------------------------------------

/// `s.split(sep)`: the pieces between the separators, empty ones included.
pub open spec fn split(s: Seq<char>, sep: char) -> Seq<Seq<char>>
    decreases s.len(),
{
    if s.len() == 0 {
        seq![Seq::<char>::empty()]
    } else {
        let rest = split(s.drop_last(), sep);
        if s.last() == sep {
            rest.push(Seq::<char>::empty())
        } else {
            rest.update(rest.len() - 1, rest.last().push(s.last()))
        }
    }
}

/// The pieces joined back with the separator.
pub open spec fn join(pieces: Seq<Seq<char>>, sep: char) -> Seq<char>
    decreases pieces.len(),
{
    if pieces.len() == 0 {
        Seq::empty()
    } else if pieces.len() == 1 {
        pieces[0]
    } else {
        join(pieces.drop_last(), sep).push(sep) + pieces.last()
    }
}

pub proof fn lemma_split_nonempty(s: Seq<char>, sep: char)
    ensures
        split(s, sep).len() >= 1,
    decreases s.len(),
{
    if s.len() > 0 {
        lemma_split_nonempty(s.drop_last(), sep);
    }
}

/// Joining the pieces of a split with the same separator gives back the text,
/// and no piece holds the separator.
pub proof fn lemma_split_join(s: Seq<char>, sep: char)
    ensures
        join(split(s, sep), sep) == s,
        forall|i: int| 0 <= i < split(s, sep).len() ==> !(#[trigger] split(s, sep)[i]).contains(sep),
    decreases s.len(),
{
    if s.len() > 0 {
        let p = s.drop_last();
        lemma_split_join(p, sep);
        lemma_split_nonempty(p, sep);
        let rest = split(p, sep);
        if s.last() == sep {
            let r = rest.push(Seq::<char>::empty());
            assert(r.drop_last() == rest);
            assert(join(r, sep) == join(rest, sep).push(sep) + Seq::<char>::empty());
            assert(join(r, sep) =~= s);
            assert forall|i: int| 0 <= i < r.len() implies !(#[trigger] r[i]).contains(sep) by {
                if i < rest.len() {
                    assert(r[i] == rest[i]);
                }
            }
        } else {
            let r = rest.update(rest.len() - 1, rest.last().push(s.last()));
            if rest.len() == 1 {
                assert(join(r, sep) == r[0]);
                assert(join(rest, sep) == rest[0]);
                assert(s == p.push(s.last()));
                assert(join(r, sep) =~= s);
            } else {
                assert(r.drop_last() == rest.drop_last());
                assert(join(rest, sep) == join(rest.drop_last(), sep).push(sep) + rest.last());
                assert(r.last() == rest.last().push(s.last()));
                assert(join(r, sep) == join(rest.drop_last(), sep).push(sep) + r.last());
                assert(s == p.push(s.last()));
                assert(join(r, sep) =~= s);
            }
            assert forall|i: int| 0 <= i < r.len() implies !(#[trigger] r[i]).contains(sep) by {
                if i < rest.len() - 1 {
                    assert(r[i] == rest[i]);
                } else {
                    let q = rest.last().push(s.last());
                    assert(r[i] == q);
                    if q.contains(sep) {
                        let k = choose|k: int| 0 <= k < q.len() && q[k] == sep;
                        if k < q.len() - 1 {
                            assert(rest.last()[k] == sep);
                            assert(rest[rest.len() - 1] == rest.last());
                        }
                    }
                }
            }
        }
    }
}

/// A text without the separator splits into itself alone.
pub proof fn lemma_split_free(t: Seq<char>, sep: char)
    requires
        !t.contains(sep),
    ensures
        split(t, sep) == seq![t],
    decreases t.len(),
{
    if t.len() > 0 {
        let p = t.drop_last();
        assert(!p.contains(sep)) by {
            if p.contains(sep) {
                let k = choose|k: int| 0 <= k < p.len() && p[k] == sep;
                assert(t[k] == sep);
            }
        }
        lemma_split_free(p, sep);
        assert(t.last() != sep) by {
            assert(t[t.len() - 1] == t.last());
        }
        assert(p.push(t.last()) =~= t);
        assert(split(t, sep) == split(p, sep).update(0, p.push(t.last())));
        assert(split(t, sep) =~= seq![t]);
    } else {
        assert(t =~= Seq::<char>::empty());
    }
}

/// Appending the separator and a separator-free text adds that text as one
/// more piece.
pub proof fn lemma_split_after_sep(a: Seq<char>, t: Seq<char>, sep: char)
    requires
        !t.contains(sep),
    ensures
        split(a.push(sep) + t, sep) == split(a, sep).push(t),
    decreases t.len(),
{
    if t.len() == 0 {
        assert(t =~= Seq::<char>::empty());
        assert(a.push(sep) + t =~= a.push(sep));
        assert(a.push(sep).drop_last() =~= a);
        assert(a.push(sep).last() == sep);
    } else {
        let p = t.drop_last();
        assert(!p.contains(sep)) by {
            if p.contains(sep) {
                let k = choose|k: int| 0 <= k < p.len() && p[k] == sep;
                assert(t[k] == sep);
            }
        }
        lemma_split_after_sep(a, p, sep);
        assert(t.last() != sep) by {
            assert(t[t.len() - 1] == t.last());
        }
        let s = a.push(sep) + t;
        assert(s.drop_last() =~= a.push(sep) + p);
        assert(s.last() == t.last());
        assert(p.push(t.last()) =~= t);
        let rest = split(a, sep).push(p);
        assert(split(s, sep) == rest.update(rest.len() - 1, rest.last().push(s.last())));
        assert(split(s, sep) =~= split(a, sep).push(t));
    }
}

/// Splitting what `join` wrote gives the pieces back, when none holds the
/// separator.
pub proof fn lemma_split_of_join(pieces: Seq<Seq<char>>, sep: char)
    requires
        pieces.len() >= 1,
        forall|i: int| 0 <= i < pieces.len() ==> !(#[trigger] pieces[i]).contains(sep),
    ensures
        split(join(pieces, sep), sep) == pieces,
    decreases pieces.len(),
{
    if pieces.len() == 1 {
        lemma_split_free(pieces[0], sep);
        assert(seq![pieces[0]] =~= pieces);
    } else {
        let init = pieces.drop_last();
        assert forall|i: int| 0 <= i < init.len() implies !(#[trigger] init[i]).contains(sep) by {
            assert(init[i] == pieces[i]);
        }
        lemma_split_of_join(init, sep);
        assert(!pieces.last().contains(sep)) by {
            assert(pieces[pieces.len() - 1] == pieces.last());
        }
        lemma_split_after_sep(join(init, sep), pieces.last(), sep);
        assert(init.push(pieces.last()) =~= pieces);
    }
}

/// A character that is not the separator occurs in a join only where it
/// occurs in a piece.
pub proof fn lemma_join_free(pieces: Seq<Seq<char>>, sep: char, c: char)
    requires
        c != sep,
        forall|i: int| 0 <= i < pieces.len() ==> !(#[trigger] pieces[i]).contains(c),
    ensures
        !join(pieces, sep).contains(c),
    decreases pieces.len(),
{
    if pieces.len() == 1 {
        assert(!pieces[0].contains(c));
    } else if pieces.len() > 1 {
        let init = pieces.drop_last();
        assert forall|i: int| 0 <= i < init.len() implies !(#[trigger] init[i]).contains(c) by {
            assert(init[i] == pieces[i]);
        }
        lemma_join_free(init, sep, c);
        let j = join(init, sep).push(sep) + pieces.last();
        assert(!pieces.last().contains(c)) by {
            assert(pieces[pieces.len() - 1] == pieces.last());
        }
        if j.contains(c) {
            let k = choose|k: int| 0 <= k < j.len() && j[k] == c;
            let n = join(init, sep).len();
            if k < n {
                assert(join(init, sep)[k] == c);
            } else if k > n {
                assert(pieces.last()[k - n - 1] == c);
            }
        }
    }
}

/// A join begins with its first piece.
pub proof fn lemma_join_prefix(pieces: Seq<Seq<char>>, sep: char)
    requires
        pieces.len() >= 1,
    ensures
        join(pieces, sep).len() >= pieces[0].len(),
        join(pieces, sep).take(pieces[0].len() as int) == pieces[0],
    decreases pieces.len(),
{
    if pieces.len() > 1 {
        let init = pieces.drop_last();
        lemma_join_prefix(init, sep);
        assert(init[0] == pieces[0]);
        let j = join(init, sep);
        assert((j.push(sep) + pieces.last()).take(pieces[0].len() as int) =~= j.take(
            pieces[0].len() as int,
        ));
    }
}

/// A join ends with its last piece.
pub proof fn lemma_join_suffix(pieces: Seq<Seq<char>>, sep: char)
    requires
        pieces.len() >= 1,
    ensures
        join(pieces, sep).len() >= pieces.last().len(),
        join(pieces, sep).skip(join(pieces, sep).len() - pieces.last().len()) == pieces.last(),
{
    if pieces.len() > 1 {
        let j = join(pieces.drop_last(), sep).push(sep);
        assert((j + pieces.last()).skip(j.len() as int) =~= pieces.last());
    } else {
        assert(join(pieces, sep).skip(0) =~= pieces[0]);
    }
}

/// `s.split(sep)` collected into owned pieces.
pub fn split_chars(s: &[char], sep: char) -> (pieces: Vec<Vec<char>>)
    ensures
        pieces@.len() == split(s@, sep).len(),
        forall|i: int| 0 <= i < pieces@.len() ==> (#[trigger] pieces@[i])@ == split(s@, sep)[i],
{
    let mut pieces: Vec<Vec<char>> = Vec::new();
    let mut cur: Vec<char> = Vec::new();
    for i in 0..s.len()
        invariant
            split(s@.take(i as int), sep).len() == pieces@.len() + 1,
            forall|k: int| 0 <= k < pieces@.len() ==> (#[trigger] pieces@[k])@ == split(s@.take(i as int), sep)[k],
            cur@ == split(s@.take(i as int), sep).last(),
    {
        let ghost prev = s@.take(i as int);
        assert(s@.take(i + 1).drop_last() == prev);
        proof {
            lemma_split_nonempty(prev, sep);
        }
        if s[i] == sep {
            pieces.push(cur);
            cur = Vec::new();
        } else {
            cur.push(s[i]);
        }
    }
    assert(s@.take(s.len() as int) == s@);
    pieces.push(cur);
    pieces
}

// ---------------------------------------------------------------------------
// Lines
// ---------------------------------------------------------------------------

pub open spec fn strip_cr(line: Seq<char>) -> Seq<char> {
    if line.len() > 0 && line.last() == '\r' {
        line.drop_last()
    } else {
        line
    }
}

/// `str::lines`: the pieces between `\n`s, each with one trailing `\r`
/// removed when a `\n` followed it, and no final empty piece.
pub open spec fn lines(s: Seq<char>) -> Seq<Seq<char>> {
    let parts = split(s, '\n');
    let ended = parts.drop_last().map_values(|p: Seq<char>| strip_cr(p));
    if parts.last().len() == 0 {
        ended
    } else {
        ended.push(parts.last())
    }
}

pub fn strip_cr_chars(v: Vec<char>) -> (r: Vec<char>)
    ensures
        r@ == strip_cr(v@),
{
    let mut v = v;
    if v.len() > 0 && v[v.len() - 1] == '\r' {
        v.pop();
    }
    v
}

/// `s.lines()` collected into owned lines.
pub fn lines_chars(s: &[char]) -> (out: Vec<Vec<char>>)
    ensures
        out@.len() == lines(s@).len(),
        forall|i: int| 0 <= i < out@.len() ==> (#[trigger] out@[i])@ == lines(s@)[i],
{
    let parts = split_chars(s, '\n');
    proof {
        lemma_split_nonempty(s@, '\n');
    }
    let ghost parts_spec = split(s@, '\n');
    let n = parts.len();
    let mut out: Vec<Vec<char>> = Vec::new();
    let mut parts = parts;
    let last = parts.pop().unwrap();
    assert(last@ == parts_spec.last());
    let mut rest = parts;
    let ghost ended = parts_spec.drop_last().map_values(|p: Seq<char>| strip_cr(p));
    let mut idx: usize = 0;
    let mut stack: Vec<Vec<char>> = Vec::new();
    // reverse so that pops come out in order
    while rest.len() > 0
        invariant
            rest@.len() + stack@.len() == n - 1,
            n == parts_spec.len(),
            forall|k: int| 0 <= k < rest@.len() ==> (#[trigger] rest@[k])@ == parts_spec[k],
            forall|k: int|
                0 <= k < stack@.len() ==> (#[trigger] stack@[k])@ == parts_spec[n - 2 - k],
        decreases rest.len(),
    {
        let p = rest.pop().unwrap();
        stack.push(p);
    }
    while idx < n - 1
        invariant
            n == parts_spec.len(),
            n >= 1,
            idx <= n - 1,
            stack@.len() == n - 1 - idx,
            forall|k: int|
                0 <= k < stack@.len() ==> (#[trigger] stack@[k])@ == parts_spec[n - 2 - k],
            out@.len() == idx,
            forall|k: int| 0 <= k < idx ==> (#[trigger] out@[k])@ == ended[k],
            ended == parts_spec.drop_last().map_values(|p: Seq<char>| strip_cr(p)),
        decreases n - 1 - idx,
    {
        let p = stack.pop().unwrap();
        assert(p@ == parts_spec[idx as int]);
        let q = strip_cr_chars(p);
        out.push(q);
        idx = idx + 1;
    }
    if last.len() > 0 {
        out.push(last);
    }
    out
}

} // verus!
