//! File-system paths, held as UTF-8 strings. Path algebra is `std::path`'s,
//! behind one wrapper per function.
use vstd::prelude::*;

verus! {

/// `Path::new(base).join(name)`.
pub uninterp spec fn path_joined(base: Seq<char>, name: Seq<char>) -> Seq<char>;

/// `Path::new(p).file_name()`.
pub uninterp spec fn path_file_name(p: Seq<char>) -> Option<Seq<char>>;

/// `Path::new(p).with_file_name(name)`.
pub uninterp spec fn path_with_file_name(p: Seq<char>, name: Seq<char>) -> Seq<char>;

/// `Path::new(p).parent()`.
pub uninterp spec fn path_parent(p: Seq<char>) -> Option<Seq<char>>;

/// The path with its extension replaced by `ext`:
/// `Path::new(p).with_extension(ext)`.
pub uninterp spec fn path_with_extension(p: Seq<char>, ext: Seq<char>) -> Seq<char>;

/// `Path::new(p).file_stem()`.
pub uninterp spec fn path_file_stem(p: Seq<char>) -> Option<Seq<char>>;

/// `Path::new(p).is_absolute()`: on Unix, a path that starts with the root
/// `/`.
pub open spec fn path_is_absolute(p: Seq<char>) -> bool {
    p.len() > 0 && p[0] == '/'
}

/// `Path::join`, as `PathBuf::push` documents it: an absolute `name`
/// replaces `base`; otherwise `name` is appended, after a separator when
/// `base` is not empty and does not already end in one.
#[verifier::external_body]
pub(crate) fn join(base: &str, name: &str) -> (r: String)
    ensures
        r@ == path_joined(base@, name@),
        path_is_absolute(name@) ==> r@ == name@,
        path_is_absolute(base@) ==> path_is_absolute(r@),
        !path_is_absolute(name@) && base@.len() == 0 ==> r@ == name@,
        !path_is_absolute(name@) && base@.len() > 0 && base@.last() == '/' ==> r@ == base@ + name@,
        !path_is_absolute(name@) && base@.len() > 0 && base@.last() != '/' ==> r@ == base@ + seq!['/']
            + name@,
{
    std::path::Path::new(base).join(name).to_string_lossy().into_owned()
}

/// `Path::file_name`: the final component, unless the path ends in `..` or
/// has none.
#[verifier::external_body]
pub(crate) fn file_name(p: &str) -> (r: Option<String>)
    ensures
        r matches Some(s) ==> path_file_name(p@) == Some(s@),
        r is None ==> path_file_name(p@) is None,
{
    std::path::Path::new(p).file_name().map(|s| s.to_string_lossy().into_owned())
}

/// `Path::with_file_name`.
#[verifier::external_body]
pub(crate) fn with_file_name(p: &str, name: &str) -> (r: String)
    ensures
        r@ == path_with_file_name(p@, name@),
{
    std::path::Path::new(p).with_file_name(name).to_string_lossy().into_owned()
}

/// `Path::parent`.
#[verifier::external_body]
pub(crate) fn parent(p: &str) -> (r: Option<String>)
    ensures
        r matches Some(s) ==> path_parent(p@) == Some(s@),
        r is None ==> path_parent(p@) is None,
{
    std::path::Path::new(p).parent().map(|s| s.to_string_lossy().into_owned())
}

/// `Path::with_extension`, which panics on an extension holding a path
/// separator (`/` on Unix); the `requires` leaves those out.
#[verifier::external_body]
pub(crate) fn with_extension(p: &str, ext: &str) -> (r: String)
    requires
        !ext@.contains('/'),
    ensures
        r@ == path_with_extension(p@, ext@),
{
    std::path::Path::new(p).with_extension(ext).to_string_lossy().into_owned()
}

/// `Path::file_stem`.
#[verifier::external_body]
pub(crate) fn file_stem(p: &str) -> (r: Option<String>)
    ensures
        r matches Some(s) ==> path_file_stem(p@) == Some(s@),
        r is None ==> path_file_stem(p@) is None,
{
    std::path::Path::new(p).file_stem().map(|s| s.to_string_lossy().into_owned())
}

/// Whether the path is absolute, as `Path::is_absolute` decides it on
/// Unix: it starts with the root `/`.
pub(crate) fn is_absolute(p: &str) -> (r: bool)
    ensures
        r == path_is_absolute(p@),
{
    p.unicode_len() > 0 && p.get_char(0) == '/'
}

} // verus!
