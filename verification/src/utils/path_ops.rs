//! The `std::path` operations the output and backup paths are built from.
//!
//! Paths are handled as text. Each function makes one `std::path` call; its
//! result is named by a spec function of the text it was given, since the
//! component rules of `std::path` (separators, `.` and `..`, trailing
//! slashes) are `std`'s own.
use vstd::prelude::*;
use std::path::{Path, PathBuf};
use crate::text::opt_text;

verus! {

/// `Path::file_name`: the final component, if it is a normal one.
pub uninterp spec fn path_file_name(p: Seq<char>) -> Option<Seq<char>>;

/// `Path::file_stem`: the final component without its extension.
pub uninterp spec fn path_file_stem(p: Seq<char>) -> Option<Seq<char>>;

/// `Path::parent`: the path without its final component.
pub uninterp spec fn path_parent(p: Seq<char>) -> Option<Seq<char>>;

/// `PathBuf::push`: `name` appended to `base` as a new component.
pub uninterp spec fn path_join(base: Seq<char>, name: Seq<char>) -> Seq<char>;

/// `Path::with_file_name`: the path with its final component replaced.
pub uninterp spec fn path_with_file_name(p: Seq<char>, name: Seq<char>) -> Seq<char>;

/// `Path::with_extension`: the path with its extension replaced or added.
pub uninterp spec fn path_with_extension(p: Seq<char>, ext: Seq<char>) -> Seq<char>;

/// `Path::file_name` of a path given as text.
#[verifier::external_body]
pub(crate) fn file_name_of(path: &str) -> (r: Option<String>)
    ensures
        opt_text(r) == path_file_name(path@),
{
    Path::new(path).file_name().map(|n| n.to_string_lossy().to_string())
}

/// `Path::file_stem` of a path given as text.
#[verifier::external_body]
pub(crate) fn file_stem_of(path: &str) -> (r: Option<String>)
    ensures
        opt_text(r) == path_file_stem(path@),
{
    Path::new(path).file_stem().map(|n| n.to_string_lossy().to_string())
}

/// `Path::parent` of a path given as text.
#[verifier::external_body]
pub(crate) fn parent_of(path: &str) -> (r: Option<String>)
    ensures
        opt_text(r) == path_parent(path@),
{
    Path::new(path).parent().map(|p| p.to_string_lossy().to_string())
}

/// `PathBuf::push` of `name` onto `base`.
#[verifier::external_body]
pub(crate) fn join_path(base: &str, name: &str) -> (r: String)
    ensures
        r@ == path_join(base@, name@),
{
    let mut p = PathBuf::from(base);
    p.push(name);
    p.to_string_lossy().to_string()
}

/// `Path::with_file_name`.
#[verifier::external_body]
pub(crate) fn with_file_name(path: &str, name: &str) -> (r: String)
    ensures
        r@ == path_with_file_name(path@, name@),
{
    Path::new(path).with_file_name(name).to_string_lossy().to_string()
}

/// No character of `s` is a path separator (`/`, or `\\` on Windows).
pub open spec fn no_separator(s: Seq<char>) -> bool {
    forall|i: int| 0 <= i < s.len() ==> #[trigger] s[i] != '/' && s[i] != '\\'
}

/// `Path::with_extension`. `std` panics where the extension holds a path
/// separator, so `ext` holds none.
#[verifier::external_body]
pub(crate) fn with_extension(path: &str, ext: &str) -> (r: String)
    requires
        no_separator(ext@),
    ensures
        r@ == path_with_extension(path@, ext@),
{
    Path::new(path).with_extension(ext).to_string_lossy().to_string()
}

} // verus!
