//! Path decomposition, from `std::path::Path`.
//!
//! `join` on Unix is stated in a few lines below. The rules of `parent`,
//! `file_name` and `ancestors` (separators, `.` components, roots and
//! prefixes) take more than that, so their results are named here and the
//! logic that follows a call is stated over those names.
use vstd::prelude::*;
use crate::device::{opt_view, strs_view};

verus! {

/// What `Path::parent` returns for a path, as text.
pub uninterp spec fn path_parent(p: Seq<char>) -> Option<Seq<char>>;

/// What `Path::file_name` returns for a path, as text.
pub uninterp spec fn path_file_name(p: Seq<char>) -> Option<Seq<char>>;

/// What `Path::ancestors` yields for a path, each as text: the path itself,
/// then its parent, and so on.
pub uninterp spec fn path_ancestors(p: Seq<char>) -> Seq<Seq<char>>;

/// What `Path::join` gives on Unix, as text: an absolute `name` (one that
/// starts with `/`) replaces `base`; otherwise `name` follows `base`, with a
/// `/` between them where `base` is not empty and does not end in one.
pub open spec fn path_join(base: Seq<char>, name: Seq<char>) -> Seq<char> {
    if name.len() > 0 && name[0] == '/' {
        name
    } else if base.len() > 0 && base.last() != '/' {
        base + seq!['/'] + name
    } else {
        base + name
    }
}

/// `Path::new(base).join(name)`, as text: the contract states `join` as it
/// behaves on Unix, which is where this library runs.
#[verifier::external_body]
pub(crate) fn join_of(base: &str, name: &str) -> (r: String)
    ensures
        r@ == path_join(base@, name@),
{
    std::path::Path::new(base).join(name).to_string_lossy().to_string()
}

/// `Path::new(p).parent()`; the result is `path_parent(p)`.
#[verifier::external_body]
pub(crate) fn parent_of(p: &str) -> (r: Option<String>)
    ensures
        opt_view(r) == path_parent(p@),
{
    std::path::Path::new(p).parent().map(|q| q.to_string_lossy().to_string())
}

/// `Path::new(p).file_name()`; the result is `path_file_name(p)`.
#[verifier::external_body]
pub(crate) fn file_name_of(p: &str) -> (r: Option<String>)
    ensures
        opt_view(r) == path_file_name(p@),
{
    std::path::Path::new(p).file_name().map(|q| q.to_string_lossy().to_string())
}

/// `Path::new(p).ancestors()`, collected; the result is `path_ancestors(p)`.
#[verifier::external_body]
pub(crate) fn ancestors_of(p: &str) -> (r: Vec<String>)
    ensures
        strs_view(r@) == path_ancestors(p@),
{
    std::path::Path::new(p).ancestors().map(|a| a.to_string_lossy().to_string()).collect()
}

} // verus!
