//! ISO 8601 UTC timestamps (`YYYY-MM-DDTHH:MM:SS.mmmZ`) in the proleptic
//! Gregorian calendar.
use vstd::prelude::*;

use crate::text::{chars_to_string, decimal, decimal_chars, digits_value, lemma_decimal_digits};

verus! {

// ---------------------------------------------------------------------------
// The calendar
// ---------------------------------------------------------------------------

pub open spec fn is_leap_year(y: int) -> bool {
    y % 4 == 0 && (y % 100 != 0 || y % 400 == 0)
}

pub open spec fn days_in_month(y: int, m: int) -> int {
    if m == 2 {
        if is_leap_year(y) { 29 } else { 28 }
    } else if m == 4 || m == 6 || m == 9 || m == 11 {
        30
    } else {
        31
    }
}

pub open spec fn valid_date(y: int, m: int, d: int) -> bool {
    1 <= m <= 12 && 1 <= d <= days_in_month(y, m)
}

/// Number of leap years in `1..=y` (negated and shifted for `y < 1`, which
/// keeps differences right).
pub open spec fn leap_years_through(y: int) -> int {
    y / 4 - y / 100 + y / 400
}

/// Days from 1 January of year `y` to the first day of month `m`.
pub open spec fn days_before_month(y: int, m: int) -> int {
    let base: int = if m == 1 {
        0
    } else if m == 2 {
        31
    } else if m == 3 {
        59
    } else if m == 4 {
        90
    } else if m == 5 {
        120
    } else if m == 6 {
        151
    } else if m == 7 {
        181
    } else if m == 8 {
        212
    } else if m == 9 {
        243
    } else if m == 10 {
        273
    } else if m == 11 {
        304
    } else {
        334
    };
    if m > 2 && is_leap_year(y) { base + 1 } else { base }
}

/// Days from 1970-01-01 to 1 January of year `y`.
pub open spec fn days_before_year(y: int) -> int {
    365 * (y - 1970) + leap_years_through(y - 1) - leap_years_through(1969)
}

/// Days from 1970-01-01 to the date `y-m-d`.
pub open spec fn days_from_civil(y: int, m: int, d: int) -> int {
    days_before_year(y) + days_before_month(y, m) + d - 1
}

// ---------------------------------------------------------------------------
// Bounded arithmetic facts of the day-to-date algorithm
// ---------------------------------------------------------------------------

/// Within one 400-year era, counted from 1 March: the year of the era and
/// the day of that year.
proof fn lemma_year_of_era(doe: u32)
    by (bit_vector)
    requires
        doe < 146097,
    ensures
        ({
            let yoe = (doe - doe / 1460 + doe / 36524 - doe / 146096) / 365;
            let doy = doe - (365 * yoe + yoe / 4 - yoe / 100);
            &&& yoe <= 399
            &&& 365 * yoe + yoe / 4 - yoe / 100 <= doe
            &&& doy <= 365
            &&& (doy == 365 ==> ((yoe + 1) % 4 == 0 && ((yoe + 1) % 100 != 0 || (yoe + 1) % 400
                == 0)))
        }),
{
}

/// The month (counted from March) and day of a day of the March-based year.
proof fn lemma_month_of_year(doy: u32)
    by (bit_vector)
    requires
        doy <= 365,
    ensures
        ({
            let mp = (5 * doy + 2) / 153;
            let cm = (153 * mp + 2) / 5;
            &&& mp <= 11
            &&& cm <= doy
            &&& cm == (if mp == 0 {
                0u32
            } else if mp == 1 {
                31
            } else if mp == 2 {
                61
            } else if mp == 3 {
                92
            } else if mp == 4 {
                122
            } else if mp == 5 {
                153
            } else if mp == 6 {
                184
            } else if mp == 7 {
                214
            } else if mp == 8 {
                245
            } else if mp == 9 {
                275
            } else if mp == 10 {
                306
            } else {
                337
            })
            &&& doy - cm + 1 <= (if mp == 1 || mp == 3 || mp == 6 || mp == 8 {
                30u32
            } else if mp == 11 {
                29
            } else {
                31
            })
            &&& (mp == 11 && doy <= 364 ==> doy - cm + 1 <= 28)
        }),
{
}

proof fn lemma_leap_count_shift(e: int, t: int)
    requires
        -1 <= t <= 399,
    ensures
        leap_years_through(400 * e + t) == 97 * e + leap_years_through(t),
{
    assert((400 * e + t) / 4 == 100 * e + t / 4);
    assert((400 * e + t) / 100 == 4 * e + t / 100);
    assert((400 * e + t) / 400 == e + t / 400);
}

proof fn lemma_leap_shift(e: int, t: int)
    ensures
        is_leap_year(400 * e + t) == is_leap_year(t),
{
    assert((400 * e + t) % 4 == t % 4);
    assert((400 * e + t) % 100 == t % 100);
    assert((400 * e + t) % 400 == t % 400);
}

proof fn lemma_floor_step(t: int, k: int)
    requires
        k > 0,
    ensures
        t / k - (t - 1) / k == (if t % k == 0 { 1int } else { 0 }),
{
    let q1 = t / k;
    let r1 = t % k;
    let q2 = (t - 1) / k;
    let r2 = (t - 1) % k;
    vstd::arithmetic::div_mod::lemma_fundamental_div_mod(t, k);
    vstd::arithmetic::div_mod::lemma_fundamental_div_mod(t - 1, k);
    assert(q1 - q2 == (if r1 == 0 { 1int } else { 0 })) by (nonlinear_arith)
        requires
            t == k * q1 + r1,
            t - 1 == k * q2 + r2,
            0 <= r1 < k,
            0 <= r2 < k,
    {
        if r1 == 0 {
            assert(k * (q1 - q2) == r2 + 1);
        } else {
            assert(k * (q1 - q2) == r2 - r1 + 1);
        }
    }
}

proof fn lemma_divides_down(t: int, a: int, b: int)
    requires
        a > 0,
        b > 0,
        t % (a * b) == 0,
    ensures
        t % a == 0,
{
    assert(a * b > 0) by (nonlinear_arith)
        requires
            a > 0,
            b > 0,
    ;
    vstd::arithmetic::div_mod::lemma_fundamental_div_mod(t, a * b);
    let q = t / (a * b);
    assert(t == a * (b * q)) by (nonlinear_arith)
        requires
            t == (a * b) * q + t % (a * b),
            t % (a * b) == 0,
    ;
    vstd::arithmetic::div_mod::lemma_mod_multiples_basic(b * q, a);
    assert((b * q) * a == a * (b * q)) by (nonlinear_arith);
}

/// Each year adds one to the leap count exactly when it is a leap year.
pub proof fn lemma_leap_count_step(t: int)
    ensures
        leap_years_through(t) - leap_years_through(t - 1) == (if is_leap_year(t) { 1int } else { 0 }),
{
    lemma_floor_step(t, 4);
    lemma_floor_step(t, 100);
    lemma_floor_step(t, 400);
    if t % 400 == 0 {
        lemma_divides_down(t, 100, 4);
        lemma_divides_down(t, 4, 100);
    } else if t % 100 == 0 {
        lemma_divides_down(t, 4, 25);
    }
}

// ---------------------------------------------------------------------------
// Days to dates and back
// ---------------------------------------------------------------------------

pub open spec fn civil_days_in_range(days: int) -> bool {
    i64::MIN <= days <= i64::MAX - 719_468
}

/// The civil date of a day count since 1970-01-01 (Hinnant's algorithm).
pub fn civil_from_days(days: i64) -> (r: (i64, u32, u32))
    requires
        civil_days_in_range(days as int),
    ensures
        valid_date(r.0 as int, r.1 as int, r.2 as int),
        days_from_civil(r.0 as int, r.1 as int, r.2 as int) == days,
{
    let z: i64 = days + 719_468;
    let era: i64 = z.checked_div_euclid(146_097).unwrap();
    let doe: i64 = z.checked_rem_euclid(146_097).unwrap();
    assert(0 <= doe < 146097);
    assert(z == era * 146097 + doe);
    proof {
        lemma_year_of_era(doe as u32);
    }
    let yoe: i64 = (doe - doe / 1460 + doe / 36524 - doe / 146_096) / 365;
    let doy: i64 = doe - (365 * yoe + yoe / 4 - yoe / 100);
    proof {
        lemma_month_of_year(doy as u32);
    }
    let mp: i64 = (5 * doy + 2) / 153;
    let cm: i64 = (153 * mp + 2) / 5;
    let day: i64 = doy - cm + 1;
    let month: i64 = if mp < 10 { mp + 3 } else { mp - 9 };
    assert(era <= z / 146097 + 1);
    let base_year: i64 = yoe + era * 400;
    let year: i64 = if month <= 2 { base_year + 1 } else { base_year };
    proof {
        let e = era as int;
        let t = yoe as int;
        assert(leap_years_through(t) == t / 4 - t / 100);
        if mp < 10 {
            lemma_leap_count_shift(e, t - 1);
            lemma_leap_shift(e, t);
            lemma_leap_count_step(t);
            assert(400 * e + t - 1 == year - 1);
            assert(days_before_month(year as int, month as int) == cm + 59 + (if is_leap_year(
                t,
            ) {
                1int
            } else {
                0
            }));
        } else {
            lemma_leap_count_shift(e, t);
            lemma_leap_shift(e, t + 1);
            assert(400 * e + t == year - 1);
            assert(days_before_month(year as int, month as int) == cm - 306);
            if mp == 11 && day == 29 {
                assert(doy == 365);
                assert(is_leap_year(t + 1));
            }
        }
    }
    (year, month as u32, day as u32)
}

/// A date and the day count it denotes determine each other.
pub proof fn lemma_days_before_year_monotone(a: int, b: int)
    requires
        a <= b,
    ensures
        days_before_year(a) + 365 * (b - a) <= days_before_year(b),
    decreases b - a,
{
    if a < b {
        lemma_days_before_year_monotone(a, b - 1);
        lemma_leap_count_step(b - 1);
    }
}

proof fn lemma_year_span(y: int, m: int, d: int)
    requires
        valid_date(y, m, d),
    ensures
        days_before_year(y) <= days_from_civil(y, m, d) < days_before_year(y + 1),
{
    lemma_leap_count_step(y);
}

/// Two valid dates with the same day count are the same date.
pub proof fn lemma_days_from_civil_injective(y1: int, m1: int, d1: int, y2: int, m2: int, d2: int)
    requires
        valid_date(y1, m1, d1),
        valid_date(y2, m2, d2),
        days_from_civil(y1, m1, d1) == days_from_civil(y2, m2, d2),
    ensures
        y1 == y2 && m1 == m2 && d1 == d2,
{
    lemma_year_span(y1, m1, d1);
    lemma_year_span(y2, m2, d2);
    if y1 < y2 {
        lemma_days_before_year_monotone(y1 + 1, y2);
    } else if y2 < y1 {
        lemma_days_before_year_monotone(y2 + 1, y1);
    }
    assert(y1 == y2);
}

/// The date of a day count, when it is in the range the algorithm handles.
pub open spec fn civil_of(days: int) -> (int, int, int) {
    choose|y: int, m: int, d: int| valid_date(y, m, d) && days_from_civil(y, m, d) == days
}

// ---------------------------------------------------------------------------
// Formatting
// ---------------------------------------------------------------------------

pub open spec fn zero_pad(s: Seq<char>, width: nat) -> Seq<char> {
    if s.len() >= width {
        s
    } else {
        Seq::new((width - s.len()) as nat, |i: int| '0') + s
    }
}

/// `format!("{v:0w$}")` for an integer: sign-aware zero padding to `width`.
pub open spec fn padded_int(v: int, width: nat) -> Seq<char> {
    if v >= 0 {
        zero_pad(decimal(v as nat), width)
    } else {
        seq!['-'] + zero_pad(decimal((-v) as nat), if width >= 1 { (width - 1) as nat } else { 0 })
    }
}

pub open spec fn millis_in_range(millis: int) -> bool {
    civil_days_in_range(millis / 86_400_000)
}

/// `YYYY-MM-DDTHH:MM:SS.mmmZ` for milliseconds since the Unix epoch.
pub open spec fn iso8601_spec(millis: int) -> Seq<char> {
    let days = millis / 86_400_000;
    let ms = millis % 86_400_000;
    let date = civil_of(days);
    let secs = ms / 1000;
    padded_int(date.0, 4) + seq!['-'] + padded_int(date.1, 2) + seq!['-'] + padded_int(date.2, 2)
        + seq!['T'] + padded_int(secs / 3600, 2) + seq![':'] + padded_int((secs / 60) % 60, 2)
        + seq![':'] + padded_int(secs % 60, 2) + seq!['.'] + padded_int(ms % 1000, 3) + seq!['Z']
}

fn zero_padded(n: u64, width: usize) -> (v: Vec<char>)
    ensures
        v@ == zero_pad(decimal(n as nat), width as nat),
{
    let digits = decimal_chars(n);
    let mut v: Vec<char> = Vec::new();
    if digits.len() < width {
        let k = width - digits.len();
        for i in 0..k
            invariant
                v@ == Seq::new(i as nat, |j: int| '0'),
        {
            v.push('0');
            assert(v@ =~= Seq::new((i + 1) as nat, |j: int| '0'));
        }
    }
    crate::text::append_chars(&mut v, digits.as_slice());
    assert(v@ =~= zero_pad(decimal(n as nat), width as nat));
    v
}

fn push_padded(out: &mut Vec<char>, v: i64, width: usize)
    requires
        v > i64::MIN,
        width >= 1,
    ensures
        final(out)@ == old(out)@ + padded_int(v as int, width as nat),
{
    if v >= 0 {
        let p = zero_padded(v as u64, width);
        crate::text::append_chars(out, p.as_slice());
    } else {
        out.push('-');
        let p = zero_padded((-v) as u64, width - 1);
        crate::text::append_chars(out, p.as_slice());
        assert(final(out)@ =~= old(out)@ + padded_int(v as int, width as nat));
    }
}

/// Formats milliseconds since the Unix epoch as an ISO 8601 UTC instant.
#[verifier::rlimit(40)]
pub fn iso8601_from_unix_millis(millis: i128) -> (s: String)
    requires
        millis_in_range(millis as int),
    ensures
        s@ == iso8601_spec(millis as int),
{
    let days: i128 = millis.checked_div_euclid(86_400_000).unwrap();
    let ms_of_day: i128 = millis.checked_rem_euclid(86_400_000).unwrap();
    let date = civil_from_days(days as i64);
    proof {
        let c = civil_of(days as int);
        assert(valid_date(date.0 as int, date.1 as int, date.2 as int));
        assert(exists|y: int, m: int, d: int|
            valid_date(y, m, d) && days_from_civil(y, m, d) == days as int) by {
            assert(valid_date(date.0 as int, date.1 as int, date.2 as int) && days_from_civil(
                date.0 as int,
                date.1 as int,
                date.2 as int,
            ) == days as int);
        }
        lemma_days_from_civil_injective(
            date.0 as int,
            date.1 as int,
            date.2 as int,
            c.0,
            c.1,
            c.2,
        );
    }
    let seconds: i64 = (ms_of_day / 1000) as i64;
    let ms: i64 = ms_of_day as i64;
    assert(date.0 > i64::MIN) by {
        assert(days_before_year(date.0 as int) <= days_from_civil(date.0 as int, date.1 as int, date.2 as int));
    }
    let mut out: Vec<char> = Vec::new();
    push_padded(&mut out, date.0, 4);
    out.push('-');
    push_padded(&mut out, date.1 as i64, 2);
    out.push('-');
    push_padded(&mut out, date.2 as i64, 2);
    out.push('T');
    push_padded(&mut out, seconds / 3600, 2);
    out.push(':');
    push_padded(&mut out, (seconds / 60) % 60, 2);
    out.push(':');
    push_padded(&mut out, seconds % 60, 2);
    out.push('.');
    push_padded(&mut out, ms % 1000, 3);
    out.push('Z');
    assert(out@ =~= iso8601_spec(millis as int));
    chars_to_string(out.as_slice())
}

/// Milliseconds since the Unix epoch on the system clock (0 when the clock
/// reads earlier than the epoch): `SystemTime::now().duration_since(UNIX_EPOCH)`.
/// Nothing is stated of the value, which is the time.
#[verifier::external_body]
fn unix_millis_now() -> u128 {
    std::time::SystemTime::now().duration_since(std::time::UNIX_EPOCH).map_or(0, |d| d.as_millis())
}

/// The largest instant the formatter handles.
pub open spec fn max_formatted_millis() -> int {
    (i64::MAX - 719_468) * 86_400_000
}

/// The current instant as `YYYY-MM-DDTHH:MM:SS.mmmZ`; an instant past the
/// formatter's range (hundreds of millions of years ahead) reads as its end.
pub fn iso8601_now() -> (s: String)
    ensures
        exists|m: int| 0 <= m <= max_formatted_millis() && s@ == iso8601_spec(m),
{
    let now = unix_millis_now();
    let limit: u128 = (9_223_372_036_854_775_807u128 - 719_468) * 86_400_000;
    let m: u128 = if now > limit { limit } else { now };
    assert(millis_in_range(m as int));
    iso8601_from_unix_millis(m as i128)
}

/// `s` with every `:` replaced by `-`.
pub open spec fn colons_to_dashes(s: Seq<char>) -> Seq<char> {
    s.map_values(|c: char| if c == ':' { '-' } else { c })
}

pub fn replace_colons(s: &[char]) -> (v: Vec<char>)
    ensures
        v@ == colons_to_dashes(s@),
{
    let mut v: Vec<char> = Vec::new();
    for i in 0..s.len()
        invariant
            v@ == colons_to_dashes(s@.take(i as int)),
    {
        let c = if s[i] == ':' { '-' } else { s[i] };
        v.push(c);
        assert(colons_to_dashes(s@.take(i + 1)) =~= colons_to_dashes(s@.take(i as int)).push(c));
    }
    assert(s@.take(s.len() as int) == s@);
    v
}

/// The current instant in file-name form: no `:`.
pub fn iso8601_now_for_filename() -> (s: String)
    ensures
        exists|m: int| 0 <= m <= max_formatted_millis() && s@ == colons_to_dashes(iso8601_spec(m)),
        !s@.contains(':'),
{
    let now = iso8601_now();
    let chars = crate::text::str_chars(now.as_str());
    let v = replace_colons(chars.as_slice());
    assert(!v@.contains(':'));
    chars_to_string(v.as_slice())
}

} // verus!
