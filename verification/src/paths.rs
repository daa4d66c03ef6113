//! The calls into std's path handling that file name completion makes,
//! each behind a wrapper whose result is named after the call.
use std::path::{Path, PathBuf};
use vstd::prelude::*;

verus! {

/// The path `base` with `name` pushed onto it, as `PathBuf::push` gives it.
pub uninterp spec fn spec_path_push(base: Seq<char>, name: Seq<char>) -> Seq<char>;

/// The path `p` with its last component popped, as `PathBuf::pop` gives it,
/// or `None` when it has no parent.
pub uninterp spec fn spec_path_pop(p: Seq<char>) -> Option<Seq<char>>;

/// The parent of the path `p`, as `Path::parent` gives it.
pub uninterp spec fn spec_path_parent(p: Seq<char>) -> Option<Seq<char>>;

/// The last component of the path `p`, as `Path::file_name` gives it.
pub uninterp spec fn spec_path_file_name(p: Seq<char>) -> Option<Seq<char>>;

/// Whether the path `p` ends with the components of `suffix`, as
/// `Path::ends_with` says.
pub uninterp spec fn spec_path_ends_with(p: Seq<char>, suffix: Seq<char>) -> bool;

/// Whether the path `p` is absolute, as `Path::is_absolute` says.
pub uninterp spec fn spec_path_is_absolute(p: Seq<char>) -> bool;

/// The text `s` in lower case, as `str::to_lowercase` gives it.
pub uninterp spec fn spec_str_to_lowercase(s: Seq<char>) -> Seq<char>;

/// Calls `PathBuf::push`. Trusted: the result is the named push of `name`
/// onto `base` (paths made from text stay text).
#[verifier::external_body]
pub(crate) fn path_push(base: &str, name: &str) -> (r: String)
    ensures
        r@ == spec_path_push(base@, name@),
{
    let mut p = PathBuf::from(base);
    p.push(name);
    p.to_string_lossy().into_owned()
}

/// Calls `PathBuf::pop`. Trusted: the result is the named pop of `p`, `None`
/// where `pop` returns `false`.
#[verifier::external_body]
pub(crate) fn path_pop(p: &str) -> (r: Option<String>)
    ensures
        match r {
            Some(s) => spec_path_pop(p@) == Some(s@),
            None => spec_path_pop(p@) is None,
        },
{
    let mut b = PathBuf::from(p);
    if b.pop() {
        Some(b.to_string_lossy().into_owned())
    } else {
        None
    }
}

/// Calls `Path::parent`. Trusted: the result is the named parent of `p`.
#[verifier::external_body]
pub(crate) fn path_parent(p: &str) -> (r: Option<String>)
    ensures
        match r {
            Some(s) => spec_path_parent(p@) == Some(s@),
            None => spec_path_parent(p@) is None,
        },
{
    Path::new(p).parent().map(|q| q.to_string_lossy().into_owned())
}

/// Calls `Path::file_name`. Trusted: the result is the named last
/// component of `p`.
#[verifier::external_body]
pub(crate) fn path_file_name(p: &str) -> (r: Option<String>)
    ensures
        match r {
            Some(s) => spec_path_file_name(p@) == Some(s@),
            None => spec_path_file_name(p@) is None,
        },
{
    Path::new(p).file_name().map(|f| f.to_string_lossy().into_owned())
}

/// Calls `Path::ends_with`. Trusted: the result is the named test.
#[verifier::external_body]
pub(crate) fn path_ends_with(p: &str, suffix: &str) -> (r: bool)
    ensures
        r == spec_path_ends_with(p@, suffix@),
{
    Path::new(p).ends_with(suffix)
}

/// Calls `Path::is_absolute`. Trusted: the result is the named test.
#[verifier::external_body]
pub(crate) fn path_is_absolute(p: &str) -> (r: bool)
    ensures
        r == spec_path_is_absolute(p@),
{
    Path::new(p).is_absolute()
}

/// Calls `str::to_lowercase`. Trusted: the result is the named lower case
/// of `s`.
#[verifier::external_body]
pub(crate) fn str_to_lowercase(s: &str) -> (r: String)
    ensures
        r@ == spec_str_to_lowercase(s@),
{
    s.to_lowercase()
}

} // verus!
