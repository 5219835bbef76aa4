//! File-system paths, held as strings, and the parts of `std::path` that
//! the library relies on.

use vstd::prelude::*;

use crate::text::{chars_of, lowercase, string_from_chars, to_lower};

verus! {

/// What `Path::strip_prefix` gives for `path` and `base`: the rest of
/// `path` after the components of `base`, or nothing when `base` is not a
/// prefix of `path` component by component.
pub uninterp spec fn path_strip_prefix(path: Seq<char>, base: Seq<char>) -> Option<Seq<char>>;

/// What `Path::extension` gives for `path`: the part of its file name after
/// the last dot, if there is one that does not start the name.
pub uninterp spec fn path_extension(path: Seq<char>) -> Option<Seq<char>>;

/// What `Path::file_name` gives for `path`: its last component, unless that
/// is `..` or the path has none.
pub uninterp spec fn path_file_name(path: Seq<char>) -> Option<Seq<char>>;

/// The option of a string, as an option of its characters.
pub open spec fn opt_view(o: Option<String>) -> Option<Seq<char>> {
    match o {
        Some(s) => Some(s@),
        None => None,
    }
}

/// `path` relative to `base`, component by component.
///
/// Calls `Path::strip_prefix`; the contract only names its result, which
/// depends on the two paths alone. The result is turned back into a string
/// without loss, since it comes from a valid string.
#[verifier::external_body]
pub(crate) fn strip_prefix(path: &str, base: &str) -> (r: Option<String>)
    ensures
        opt_view(r) == path_strip_prefix(path@, base@),
{
    match std::path::Path::new(path).strip_prefix(std::path::Path::new(base)) {
        Ok(rest) => Some(rest.to_string_lossy().into_owned()),
        Err(_) => None,
    }
}

/// The extension of the file that `path` names, without its dot.
///
/// Calls `Path::extension`; the contract only names its result, which
/// depends on the path alone.
#[verifier::external_body]
pub(crate) fn extension(path: &str) -> (r: Option<String>)
    ensures
        opt_view(r) == path_extension(path@),
{
    match std::path::Path::new(path).extension() {
        Some(e) => Some(e.to_string_lossy().into_owned()),
        None => None,
    }
}

/// The last component of `path`.
///
/// Calls `Path::file_name`; the contract only names its result, which
/// depends on the path alone.
#[verifier::external_body]
pub(crate) fn file_name(path: &str) -> (r: Option<String>)
    ensures
        opt_view(r) == path_file_name(path@),
{
    match std::path::Path::new(path).file_name() {
        Some(n) => Some(n.to_string_lossy().into_owned()),
        None => None,
    }
}

/// The key under which the extension of `path` is looked up: a dot and
/// the lower-cased extension, or the empty string for a file without one.
pub open spec fn dotted_extension(path: Seq<char>) -> Seq<char> {
    match path_extension(path) {
        Some(e) => seq!['.'] + lowercase(e),
        None => Seq::empty(),
    }
}

/// A dot and the lower-cased extension of `path` (`".rs"`), or `""`.
pub fn dotted_extension_of(path: &str) -> (r: Vec<char>)
    ensures
        r@ == dotted_extension(path@),
{
    match extension(path) {
        Some(e) => {
            let lower = to_lower(e.as_str());
            let mut r: Vec<char> = Vec::new();
            r.push('.');
            crate::text::push_str(&mut r, lower.as_str());
            assert(r@ =~= seq!['.'] + lowercase(e@));
            r
        },
        None => {
            let r: Vec<char> = Vec::new();
            assert(r@ =~= Seq::<char>::empty());
            r
        },
    }
}

/// `path` relative to `base`, or `path` itself when it is not below
/// `base` (as `strip_prefix(base).unwrap_or(path)` gives it).
pub open spec fn relative_or_whole(path: Seq<char>, base: Seq<char>) -> Seq<char> {
    match path_strip_prefix(path, base) {
        Some(rest) => rest,
        None => path,
    }
}

/// `path` relative to `base`, or `path` itself when it is not below `base`.
pub fn relative_or_whole_of(path: &str, base: &str) -> (r: Vec<char>)
    ensures
        r@ == relative_or_whole(path@, base@),
{
    match strip_prefix(path, base) {
        Some(rest) => chars_of(rest.as_str()),
        None => chars_of(path),
    }
}


/// `path` relative to `base`, or `path` itself when it is not below `base`.
pub fn relative_path(path: &str, base: &str) -> (r: String)
    ensures
        r@ == relative_or_whole(path@, base@),
{
    string_from_chars(&relative_or_whole_of(path, base))
}

} // verus!
