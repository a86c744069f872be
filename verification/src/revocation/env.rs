//! Options read from environment variables: an unset or blank variable
//! means "use the default".
use vstd::prelude::*;

use crate::text::{
    all_digits, chars_to_string, is_whitespace, parse_unsigned, parse_unsigned_spec, str_chars,
    trim, trim_chars,
};

verus! {

/// Why an environment option was rejected.
#[derive(Debug, PartialEq, Eq)]
pub enum EnvError {
    /// The variable `name` holds `raw`, which is not a positive integer.
    NotAnInteger { name: String, raw: String },
}

/// A variable's value counts only when it holds something besides
/// whitespace.
pub open spec fn is_set(value: Option<Seq<char>>) -> bool {
    match value {
        Some(v) => trim(v).len() > 0,
        None => false,
    }
}

pub open spec fn opt_view(value: Option<String>) -> Option<Seq<char>> {
    match value {
        Some(s) => Some(s@),
        None => None,
    }
}

/// The variable's value, unless it is unset or blank.
pub fn non_blank(value: Option<String>) -> (r: Option<String>)
    ensures
        is_set(opt_view(value)) ==> r == value,
        !is_set(opt_view(value)) ==> r is None,
{
    match value {
        Some(v) => {
            let t = trim_chars(str_chars(v.as_str()).as_slice());
            if t.len() > 0 {
                Some(v)
            } else {
                None
            }
        },
        None => None,
    }
}

/// `usize_or`'s result for the raw value of variable `name`.
pub open spec fn usize_or_spec(value: Option<Seq<char>>, default: usize) -> Option<usize> {
    if !is_set(value) {
        Some(default)
    } else {
        match parse_unsigned_spec(trim(value->Some_0), usize::MAX as nat) {
            Some(v) => if v >= 1 {
                Some(v as usize)
            } else {
                None
            },
            None => None,
        }
    }
}

/// A positive integer from the value of variable `name`, or `default`
/// when it is unset or blank; anything else, `0` included, is an error.
pub fn usize_or(value: Option<String>, name: &str, default: usize) -> (r: Result<usize, EnvError>)
    ensures
        match usize_or_spec(opt_view(value), default) {
            Some(v) => r == Ok::<usize, EnvError>(v),
            None => r matches Err(EnvError::NotAnInteger { name: n, raw }) && n@ == name@
                && raw@ == opt_view(value)->Some_0,
        },
{
    match non_blank(value) {
        None => Ok(default),
        Some(raw) => {
            let t = trim_chars(str_chars(raw.as_str()).as_slice());
            match parse_unsigned(t.as_slice(), usize::MAX as u64) {
                Some(v) if v >= 1 => Ok(v as usize),
                _ => Err(
                    EnvError::NotAnInteger { name: chars_to_string(str_chars(name).as_slice()), raw },
                ),
            }
        },
    }
}

} // verus!
