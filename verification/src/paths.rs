//! Paths as texts. What a path's parts are is decided by `std::path`; this
//! module gives each question a name and asks it there.

use crate::text::text_of;
use std::path::Path;
use vstd::prelude::*;

verus! {

/// The extension of the path's file name, without the dot, if it has one.
pub uninterp spec fn path_extension(path: Seq<char>) -> Option<Seq<char>>;

/// The final component of the path, if it has one.
pub uninterp spec fn path_file_name(path: Seq<char>) -> Option<Seq<char>>;

/// The path without its final component, if it has one.
pub uninterp spec fn path_parent(path: Seq<char>) -> Option<Seq<char>>;

/// What is left of the path below `base`, where `base` is a prefix of it.
pub uninterp spec fn path_strip_prefix(path: Seq<char>, base: Seq<char>) -> Option<Seq<char>>;

/// The path of `name` inside the directory `base`.
pub uninterp spec fn path_join(base: Seq<char>, name: Seq<char>) -> Seq<char>;

/// `Path::extension`, as text.
#[verifier::external_body]
pub(crate) fn extension(path: &str) -> (r: Option<String>)
    ensures
        text_of(r) == path_extension(path@),
{
    Path::new(path).extension().map(|ext| ext.to_string_lossy().into_owned())
}

/// `Path::file_name`, as text.
#[verifier::external_body]
pub(crate) fn file_name(path: &str) -> (r: Option<String>)
    ensures
        text_of(r) == path_file_name(path@),
{
    Path::new(path).file_name().map(|name| name.to_string_lossy().into_owned())
}

/// `Path::parent`, as text.
#[verifier::external_body]
pub(crate) fn parent(path: &str) -> (r: Option<String>)
    ensures
        text_of(r) == path_parent(path@),
{
    Path::new(path).parent().map(|dir| dir.to_string_lossy().into_owned())
}

/// `Path::strip_prefix`, as text; `None` where `base` is no prefix of `path`.
#[verifier::external_body]
pub(crate) fn strip_prefix(path: &str, base: &str) -> (r: Option<String>)
    ensures
        text_of(r) == path_strip_prefix(path@, base@),
{
    Path::new(path).strip_prefix(base).ok().map(|rest| rest.to_string_lossy().into_owned())
}

/// `Path::join`, as text.
#[verifier::external_body]
pub(crate) fn join(base: &str, name: &str) -> (r: String)
    ensures
        r@ == path_join(base@, name@),
{
    Path::new(base).join(name).to_string_lossy().into_owned()
}

/// The path of `path` as seen from `root`: what is left below `root`, or `.`
/// where nothing is left; the path itself where it does not lie under
/// `root`.
pub open spec fn relative_to(path: Seq<char>, root: Seq<char>) -> Seq<char> {
    match path_strip_prefix(path, root) {
        Some(rest) => if rest.len() == 0 {
            "."@
        } else {
            rest
        },
        None => path,
    }
}

/// The path of `path` as seen from `root`.
pub fn path_relative_to(path: &str, root: &str) -> (r: String)
    ensures
        r@ == relative_to(path@, root@),
{
    match strip_prefix(path, root) {
        Some(rest) => {
            if rest.as_str().is_empty() {
                ".".to_owned()
            } else {
                rest
            }
        },
        None => path.to_owned(),
    }
}

/// The name shown for a file: the final component of its path, or the
/// relative path where the path has no final component.
pub open spec fn shown_name(file_path: Seq<char>, rel_file: Seq<char>) -> Seq<char> {
    match path_file_name(file_path) {
        Some(name) => name,
        None => rel_file,
    }
}

/// The name shown for a file.
pub fn extract_file_name(file_path: &str, rel_file: &str) -> (r: String)
    ensures
        r@ == shown_name(file_path@, rel_file@),
{
    match file_name(file_path) {
        Some(name) => name,
        None => rel_file.to_owned(),
    }
}

} // verus!
