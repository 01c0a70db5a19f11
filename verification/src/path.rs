//! Paths are held as text. What a path's text means is left to `camino`: this
//! module holds the calls into it, whose contracts are believed, not proved.
//!
//! What the final component of a path is, and what adjoining one path to
//! another gives, depends on the path syntax of the platform that the library
//! is built for. So the results are not written out here but named: each is a
//! function of the texts alone.
use camino::Utf8Path;
use vstd::prelude::*;

verus! {

/// What `camino::Utf8Path::file_name` returns for the path with this text: its
/// final component, if it has one.
pub uninterp spec fn path_file_name(path: Seq<char>) -> Option<Seq<char>>;

/// What `camino::Utf8Path::join` returns for the paths with these texts: the
/// text of `base` with `part` adjoined.
pub uninterp spec fn path_join(base: Seq<char>, part: Seq<char>) -> Seq<char>;

/// What `camino::Utf8Path::parent` returns for the path with this text: the path
/// without its final component, if it has one.
pub uninterp spec fn path_parent(path: Seq<char>) -> Option<Seq<char>>;

/// Calls `camino::Utf8Path::file_name` on the path with the text `path`.
/// Believed: the result is a function of the path's text alone, `path_file_name`.
#[verifier::external_body]
pub(crate) fn file_name(path: &str) -> (name: Option<String>)
    ensures
        name.deep_view() == path_file_name(path@),
{
    Utf8Path::new(path).file_name().map(String::from)
}

/// Calls `camino::Utf8Path::join` on the paths with the texts `base` and `part`.
/// Believed: the result is a function of the two texts alone, `path_join`.
#[verifier::external_body]
pub(crate) fn join(base: &str, part: &str) -> (joined: String)
    ensures
        joined@ == path_join(base@, part@),
{
    Utf8Path::new(base).join(part).into_string()
}

/// Calls `camino::Utf8Path::parent` on the path with the text `path`.
/// Believed: the result is a function of the path's text alone, `path_parent`.
#[verifier::external_body]
pub(crate) fn parent(path: &str) -> (dir: Option<String>)
    ensures
        dir.deep_view() == path_parent(path@),
{
    Utf8Path::new(path).parent().map(Utf8Path::as_str).map(String::from)
}

} // verus!
