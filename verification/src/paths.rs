//! Paths, as `std::path::Path` reads them. What a path operation returns
//! is named here and called through one wrapper each.
use vstd::prelude::*;

verus! {

/// What `Path::ends_with` answers: whether `child`'s components are the
/// last components of `path`.
pub uninterp spec fn path_ends_with(path: Seq<char>, child: Seq<char>) -> bool;

/// What `Path::join` gives: `rest` appended to `base` as a further
/// component (or `rest` itself when it is absolute).
pub uninterp spec fn path_join(base: Seq<char>, rest: Seq<char>) -> Seq<char>;

/// What `Path::file_name` gives: the final component, unless the path ends
/// in `..` or has none.
pub uninterp spec fn path_file_name(path: Seq<char>) -> Option<Seq<char>>;

/// What `Path::starts_with` answers: whether `base`'s components are the
/// first components of `path`.
pub uninterp spec fn path_starts_with(path: Seq<char>, base: Seq<char>) -> bool;

/// `Path::new(path).starts_with(base)`: whether `base` is a prefix of
/// `path` component by component. The answer is named `path_starts_with`.
#[verifier::external_body]
pub(crate) fn starts_with_path(path: &str, base: &str) -> (r: bool)
    ensures
        r == path_starts_with(path@, base@),
{
    std::path::Path::new(path).starts_with(base)
}

/// `Path::new(path).ends_with(child)`: whether `child` is a suffix of
/// `path` component by component. The answer is named `path_ends_with`.
#[verifier::external_body]
pub(crate) fn ends_with_path(path: &str, child: &str) -> (r: bool)
    ensures
        r == path_ends_with(path@, child@),
{
    std::path::Path::new(path).ends_with(child)
}

/// `Path::new(base).join(rest)`, as text. The result is named `path_join`;
/// joining UTF-8 paths gives UTF-8.
#[verifier::external_body]
pub(crate) fn join(base: &str, rest: &str) -> (r: String)
    ensures
        r@ == path_join(base@, rest@),
{
    std::path::Path::new(base).join(rest).to_string_lossy().into_owned()
}

/// `Path::new(path).file_name()`, as text. The result is named
/// `path_file_name`; a final component of a `&str` path is valid UTF-8.
#[verifier::external_body]
pub(crate) fn file_name(path: &str) -> (r: Option<String>)
    ensures
        r matches Some(s) ==> path_file_name(path@) == Some(s@),
        r is None ==> path_file_name(path@) is None,
{
    std::path::Path::new(path).file_name().and_then(|n| n.to_str()).map(str::to_owned)
}

/// What `Path::parent` gives: the path without its final component.
pub uninterp spec fn path_parent(path: Seq<char>) -> Option<Seq<char>>;

/// `Path::new(path).parent()`, as text: the path without its final
/// component, or none for a root or an empty path. The result is named
/// `path_parent`; it is a prefix of `path` with a component removed, so it
/// is shorter.
#[verifier::external_body]
pub(crate) fn parent(path: &str) -> (r: Option<String>)
    ensures
        r matches Some(s) ==> path_parent(path@) == Some(s@) && s@.len() < path@.len(),
        r is None ==> path_parent(path@) is None,
{
    std::path::Path::new(path).parent().and_then(|p| p.to_str()).map(str::to_owned)
}

/// What `==` on paths answers: the same components.
pub uninterp spec fn path_eq(a: Seq<char>, b: Seq<char>) -> bool;

/// `Path::new(a) == Path::new(b)`: component-wise equality. The answer is
/// named `path_eq`.
#[verifier::external_body]
pub(crate) fn same_path(a: &str, b: &str) -> (r: bool)
    ensures
        r == path_eq(a@, b@),
{
    std::path::Path::new(a) == std::path::Path::new(b)
}

/// What `<` on paths answers: component-wise ordering.
pub uninterp spec fn path_lt(a: Seq<char>, b: Seq<char>) -> bool;

/// `Path::new(a) < Path::new(b)`: paths are ordered component by
/// component. The answer is named `path_lt`; as the order is total and
/// antisymmetric, `a < b` excludes `b < a`.
#[verifier::external_body]
pub(crate) fn path_less(a: &str, b: &str) -> (r: bool)
    ensures
        r == path_lt(a@, b@),
        r ==> !path_lt(b@, a@),
{
    std::path::Path::new(a) < std::path::Path::new(b)
}

} // verus!
