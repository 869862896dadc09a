//! File paths, held as the text of the path.

use vstd::prelude::*;

verus! {

/// Whether two path texts name the same path, as `std::path::Path`
/// compares them (component by component, on the target's path syntax).
pub uninterp spec fn same_path(a: Seq<char>, b: Seq<char>) -> bool;

/// The texts of a list of paths.
pub open spec fn path_texts(v: Seq<String>) -> Seq<Seq<char>> {
    v.map_values(|s: String| s@)
}

/// `<Path as PartialEq>::eq` on `Path::new(a)` and `Path::new(b)`.
/// Claimed: the result is the name `same_path` of the two texts; the
/// comparison is symmetric (std's `Eq` impl for `Path`) and a text names the
/// same path as itself. Which other texts compare equal (repeated or
/// trailing separators, `.` components) is left to the name.
#[verifier::external_body]
pub(crate) fn paths_equal(a: &str, b: &str) -> (r: bool)
    ensures
        r == same_path(a@, b@),
        r == same_path(b@, a@),
        a@ == b@ ==> r,
{
    std::path::Path::new(a) == std::path::Path::new(b)
}

/// The text of an optional path.
pub open spec fn opt_text(o: Option<String>) -> Option<Seq<char>> {
    match o {
        Some(s) => Some(s@),
        None => None,
    }
}

/// The parent directory that `std::path::Path::parent` gives for a path
/// text, `None` for a root or an empty path.
pub uninterp spec fn path_parent(p: Seq<char>) -> Option<Seq<char>>;

/// The extension that `std::path::Path::extension` gives for a path text.
pub uninterp spec fn path_extension(p: Seq<char>) -> Option<Seq<char>>;

/// `Path::parent` on `Path::new(p)`, turned back into text (the parent of a
/// UTF-8 path is a prefix of it, so `to_str` keeps it whole). Claimed: the
/// result is the name `path_parent` of the text.
#[verifier::external_body]
pub(crate) fn parent_dir(p: &str) -> (r: Option<String>)
    ensures
        opt_text(r) == path_parent(p@),
{
    match std::path::Path::new(p).parent() {
        Some(d) => d.to_str().map(|s| s.to_string()),
        None => None,
    }
}

/// `Path::extension` on `Path::new(p)`, turned back into text (a part of a
/// UTF-8 path, so `to_str` keeps it whole). Claimed: the result is the name
/// `path_extension` of the text.
#[verifier::external_body]
pub(crate) fn extension(p: &str) -> (r: Option<String>)
    ensures
        opt_text(r) == path_extension(p@),
{
    match std::path::Path::new(p).extension() {
        Some(e) => e.to_str().map(|s| s.to_string()),
        None => None,
    }
}

} // verus!
