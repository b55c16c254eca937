//! File-system paths held as strings, with the operations of `std::path`
//! that the library needs.

use vstd::prelude::*;

use std::path::Path;

verus! {

/// What `Path::parent` gives for a path.
pub uninterp spec fn path_parent(p: Seq<char>) -> Option<Seq<char>>;

/// What `Path::ancestors` yields for a path, in order.
pub uninterp spec fn path_ancestors(p: Seq<char>) -> Seq<Seq<char>>;

/// What `Path::file_name` gives for a path.
pub uninterp spec fn path_file_name(p: Seq<char>) -> Option<Seq<char>>;

/// What `Path::file_stem` gives for a path.
pub uninterp spec fn path_file_stem(p: Seq<char>) -> Option<Seq<char>>;

/// What `Path::extension` gives for a path.
pub uninterp spec fn path_extension(p: Seq<char>) -> Option<Seq<char>>;

/// What `Path::strip_prefix` gives for a path and a base.
pub uninterp spec fn path_strip_prefix(p: Seq<char>, base: Seq<char>) -> Option<Seq<char>>;

/// What `Path::iter` yields for a path: its components, in order.
pub uninterp spec fn path_components(p: Seq<char>) -> Seq<Seq<char>>;

/// What `Path::join` gives for a path and a second path.
pub uninterp spec fn path_join(p: Seq<char>, q: Seq<char>) -> Seq<char>;

/// Whether `==` on `Path` holds for two different strings (paths compare by
/// their components).
pub uninterp spec fn path_eq(p: Seq<char>, q: Seq<char>) -> bool;

/// Two paths are equal: the same string, or equal components.
pub open spec fn paths_equal(p: Seq<char>, q: Seq<char>) -> bool {
    p == q || path_eq(p, q)
}

/// Whether `<` on `Path` holds (paths order by their components).
pub uninterp spec fn path_less(p: Seq<char>, q: Seq<char>) -> bool;

/// The contents of an optional string.
pub open spec fn opt_chars(o: Option<String>) -> Option<Seq<char>> {
    match o {
        Some(s) => Some(s@),
        None => None,
    }
}

/// The contents of a list of strings.
pub open spec fn chars_list(v: Seq<String>) -> Seq<Seq<char>> {
    v.map_values(|s: String| s@)
}

/// Calls `Path::parent`: the path without its final component, if it has one.
#[verifier::external_body]
pub(crate) fn parent(p: &str) -> (r: Option<String>)
    ensures
        opt_chars(r) == path_parent(p@),
{
    Path::new(p).parent().map(|q| q.to_string_lossy().into_owned())
}

/// Calls `Path::ancestors`: the path, its parent, its parent's parent and so on.
#[verifier::external_body]
pub(crate) fn ancestors(p: &str) -> (r: Vec<String>)
    ensures
        chars_list(r@) == path_ancestors(p@),
{
    Path::new(p).ancestors().map(|q| q.to_string_lossy().into_owned()).collect()
}

/// Calls `Path::file_name`: the final component, if it is a normal one.
#[verifier::external_body]
pub(crate) fn file_name(p: &str) -> (r: Option<String>)
    ensures
        opt_chars(r) == path_file_name(p@),
{
    Path::new(p).file_name().map(|q| q.to_string_lossy().into_owned())
}

/// Calls `Path::file_stem`: the file name without its extension.
#[verifier::external_body]
pub(crate) fn file_stem(p: &str) -> (r: Option<String>)
    ensures
        opt_chars(r) == path_file_stem(p@),
{
    Path::new(p).file_stem().map(|q| q.to_string_lossy().into_owned())
}

/// Calls `Path::extension`: the part of the file name after its last dot.
#[verifier::external_body]
pub(crate) fn extension(p: &str) -> (r: Option<String>)
    ensures
        opt_chars(r) == path_extension(p@),
{
    Path::new(p).extension().map(|q| q.to_string_lossy().into_owned())
}

/// Calls `Path::strip_prefix`: the rest of the path when `base` is a prefix of it.
#[verifier::external_body]
pub(crate) fn strip_prefix(p: &str, base: &str) -> (r: Option<String>)
    ensures
        opt_chars(r) == path_strip_prefix(p@, base@),
{
    Path::new(p).strip_prefix(base).ok().map(|q| q.to_string_lossy().into_owned())
}

/// Calls `Path::iter`: the components of the path.
#[verifier::external_body]
pub(crate) fn components(p: &str) -> (r: Vec<String>)
    ensures
        chars_list(r@) == path_components(p@),
{
    Path::new(p).iter().map(|c| c.to_string_lossy().into_owned()).collect()
}

/// Calls `Path::join`: `q` appended to `p`, or `q` when it is absolute.
#[verifier::external_body]
pub(crate) fn join(p: &str, q: &str) -> (r: String)
    ensures
        r@ == path_join(p@, q@),
{
    Path::new(p).join(q).to_string_lossy().into_owned()
}

/// Calls `==` on `Path`; equality is reflexive, so a path equals itself.
#[verifier::external_body]
pub(crate) fn same_path(p: &str, q: &str) -> (r: bool)
    ensures
        r == paths_equal(p@, q@),
        p@ != q@ ==> r == path_eq(p@, q@),
{
    Path::new(p) == Path::new(q)
}

/// Calls `<` on `Path`; the order is total, so `p < q` rules out `q < p`.
#[verifier::external_body]
pub(crate) fn path_lt(p: &str, q: &str) -> (r: bool)
    ensures
        r == path_less(p@, q@),
        r ==> !path_less(q@, p@),
{
    Path::new(p) < Path::new(q)
}

} // verus!
