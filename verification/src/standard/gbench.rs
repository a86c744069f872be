//! Names in Google Benchmark's report, and the summary metadata.
use vstd::prelude::*;

use crate::text::{all_digits, chars_to_string, slice_to_vec, str_chars};

verus! {

/// `pat` occurs in `s` starting at `i`.
pub open spec fn occurs_at(s: Seq<char>, pat: Seq<char>, i: int) -> bool {
    0 <= i && i + pat.len() <= s.len() && s.subrange(i, i + pat.len()) == pat
}

/// The start of the last occurrence of `pat` at or before `i`.
pub open spec fn last_occurrence_from(s: Seq<char>, pat: Seq<char>, i: int) -> Option<int>
    decreases i + 1,
{
    if i < 0 {
        None
    } else if occurs_at(s, pat, i) {
        Some(i)
    } else {
        last_occurrence_from(s, pat, i - 1)
    }
}

/// `s.rsplit_once(pat)`: the text before and after the last occurrence.
pub open spec fn rsplit_once(s: Seq<char>, pat: Seq<char>) -> Option<(Seq<char>, Seq<char>)> {
    match last_occurrence_from(s, pat, s.len() - pat.len()) {
        Some(i) => Some((s.take(i), s.skip(i + pat.len()))),
        None => None,
    }
}

/// The run name without the repetition suffix Google Benchmark appends:
/// the last `/repetition:<digits>`, or failing any `/repetition:`, the last
/// `_repetition_<digits>`.
pub open spec fn base_name_spec(run_name: Seq<char>) -> Seq<char> {
    let split = match rsplit_once(run_name, "/repetition:"@) {
        Some(p) => Some(p),
        None => rsplit_once(run_name, "_repetition_"@),
    };
    match split {
        Some((head, tail)) => if tail.len() > 0 && all_digits(tail) {
            head
        } else {
            run_name
        },
        None => run_name,
    }
}

pub proof fn lemma_last_occurrence_occurs(s: Seq<char>, pat: Seq<char>, i: int)
    ensures
        last_occurrence_from(s, pat, i) matches Some(j) ==> occurs_at(s, pat, j) && j <= i,
    decreases i + 1,
{
    if i >= 0 && !occurs_at(s, pat, i) {
        lemma_last_occurrence_occurs(s, pat, i - 1);
    }
}

fn last_occurrence(s: &[char], pat: &[char]) -> (r: Option<usize>)
    requires
        pat.len() >= 1,
    ensures
        match last_occurrence_from(s@, pat@, s@.len() - pat@.len()) {
            Some(i) => r == Some(i as usize),
            None => r is None,
        },
{
    if pat.len() > s.len() {
        return None;
    }
    let mut i: usize = s.len() - pat.len() + 1;
    while i > 0
        invariant
            i <= s.len() - pat.len() + 1,
            pat.len() <= s.len(),
            last_occurrence_from(s@, pat@, s@.len() - pat@.len()) == last_occurrence_from(
                s@,
                pat@,
                i - 1,
            ),
        decreases i,
    {
        let j = i - 1;
        let mut k: usize = 0;
        let mut matched = true;
        while k < pat.len()
            invariant
                j + pat.len() <= s.len(),
                k <= pat.len(),
                matched == (forall|m: int| 0 <= m < k ==> s@[j + m] == pat@[m]),
            decreases pat.len() - k,
        {
            if s[j + k] != pat[k] {
                matched = false;
            }
            k = k + 1;
        }
        proof {
            if matched {
                assert(s@.subrange(j as int, j + pat.len()) =~= pat@);
            } else {
                if s@.subrange(j as int, j + pat.len()) == pat@ {
                    assert forall|m: int| 0 <= m < pat.len() implies s@[j + m] == pat@[m] by {
                        assert(s@.subrange(j as int, j + pat.len())[m] == s@[j + m]);
                    }
                }
            }
        }
        if matched {
            return Some(j);
        }
        i = j;
    }
    None
}

pub fn rsplit_once_chars(s: &[char], pat: &str) -> (r: Option<(Vec<char>, Vec<char>)>)
    requires
        pat@.len() >= 1,
    ensures
        match rsplit_once(s@, pat@) {
            Some((h, t)) => r matches Some((a, b)) && a@ == h && b@ == t,
            None => r is None,
        },
{
    let p = str_chars(pat);
    proof {
        lemma_last_occurrence_occurs(s@, pat@, s@.len() - pat@.len());
    }
    match last_occurrence(s, p.as_slice()) {
        Some(i) => Some((slice_to_vec(s, 0, i), slice_to_vec(s, i + p.len(), s.len()))),
        None => None,
    }
}

fn all_digits_chars(s: &[char]) -> (r: bool)
    ensures
        r == all_digits(s@),
{
    for i in 0..s.len()
        invariant
            forall|k: int| 0 <= k < i ==> crate::text::is_digit(s@[k]),
    {
        if !(s[i] >= '0' && s[i] <= '9') {
            return false;
        }
    }
    true
}

/// Strips the repetition suffix Google Benchmark appends to a run name.
pub fn base_name(run_name: &str) -> (r: String)
    ensures
        r@ == base_name_spec(run_name@),
{
    proof {
        reveal_strlit("/repetition:");
        reveal_strlit("_repetition_");
    }
    let s = str_chars(run_name);
    let split = match rsplit_once_chars(s.as_slice(), "/repetition:") {
        Some(p) => Some(p),
        None => rsplit_once_chars(s.as_slice(), "_repetition_"),
    };
    match split {
        Some((head, tail)) => {
            if tail.len() > 0 && all_digits_chars(tail.as_slice()) {
                chars_to_string(head.as_slice())
            } else {
                chars_to_string(s.as_slice())
            }
        },
        None => chars_to_string(s.as_slice()),
    }
}

/// Where the report's outermost JSON object lies: from the first `{` to the
/// last `}`, since the binary may print before it.
#[derive(Debug, PartialEq, Eq)]
pub enum ReportSpan {
    /// The object spans `start..=end` (character positions).
    Object { start: usize, end: usize },
    /// There is no `{` or no `}`.
    NoObject,
    /// The last `}` comes before the first `{`.
    Malformed,
}

pub open spec fn first_index_of(s: Seq<char>, c: char) -> Option<int> {
    if exists|i: int| 0 <= i < s.len() && s[i] == c {
        Some(choose|i: int| 0 <= i < s.len() && s[i] == c && forall|j: int| 0 <= j < i ==> s[j] != c)
    } else {
        None
    }
}

pub open spec fn last_index_of(s: Seq<char>, c: char) -> Option<int> {
    if exists|i: int| 0 <= i < s.len() && s[i] == c {
        Some(choose|i: int| 0 <= i < s.len() && s[i] == c && forall|j: int| i < j < s.len() ==> s[j] != c)
    } else {
        None
    }
}

pub open spec fn report_span_spec(s: Seq<char>) -> ReportSpan {
    match (first_index_of(s, '{'), last_index_of(s, '}')) {
        (Some(a), Some(b)) => if b <= a {
            ReportSpan::Malformed
        } else {
            ReportSpan::Object { start: a as usize, end: b as usize }
        },
        _ => ReportSpan::NoObject,
    }
}

fn first_index(s: &[char], c: char) -> (r: Option<usize>)
    ensures
        match r {
            Some(i) => i < s@.len() && s@[i as int] == c && forall|j: int| 0 <= j < i ==> s@[j] != c,
            None => forall|j: int| 0 <= j < s@.len() ==> s@[j] != c,
        },
{
    for i in 0..s.len()
        invariant
            forall|j: int| 0 <= j < i ==> s@[j] != c,
    {
        if s[i] == c {
            return Some(i);
        }
    }
    None
}

fn last_index(s: &[char], c: char) -> (r: Option<usize>)
    ensures
        match r {
            Some(i) => i < s@.len() && s@[i as int] == c && forall|j: int| i < j < s@.len() ==> s@[j] != c,
            None => forall|j: int| 0 <= j < s@.len() ==> s@[j] != c,
        },
{
    let mut i = s.len();
    while i > 0
        invariant
            i <= s@.len(),
            forall|j: int| i <= j < s@.len() ==> s@[j] != c,
        decreases i,
    {
        if s[i - 1] == c {
            return Some(i - 1);
        }
        i = i - 1;
    }
    None
}

/// Locates the JSON object in a `--benchmark_out` file's text.
pub fn report_span(text: &[char]) -> (r: ReportSpan)
    ensures
        r == report_span_spec(text@),
{
    let a = first_index(text, '{');
    let b = last_index(text, '}');
    proof {
        let s = text@;
        match a {
            Some(i) => {
                let f = first_index_of(s, '{');
                assert(exists|k: int| 0 <= k < s.len() && s[k] == '{');
                let x = f->Some_0;
                if x < i {
                } else if x > i {
                }
                assert(x == i as int);
            },
            None => {},
        }
        match b {
            Some(i) => {
                let f = last_index_of(s, '}');
                assert(exists|k: int| 0 <= k < s.len() && s[k] == '}');
                let x = f->Some_0;
                assert(x == i as int);
            },
            None => {},
        }
    }
    match (a, b) {
        (Some(start), Some(end)) => {
            if end <= start {
                ReportSpan::Malformed
            } else {
                ReportSpan::Object { start, end }
            }
        },
        _ => ReportSpan::NoObject,
    }
}

/// Summary metadata.
pub struct Meta {
    pub kind: &'static str,
    pub variant: &'static str,
    pub n: usize,
    pub credential_mode: &'static str,
    pub timestamp_iso: String,
}

pub struct Results {
    pub successful_iters: usize,
}

} // verus!
