use vstd::prelude::*;

verus! {

/// The last component of a path, as `Path::file_name` gives it (none where
/// the path ends in `..` or has no normal component), read as text.
pub uninterp spec fn path_file_name(path: Seq<char>) -> Option<Seq<char>>;

/// Whether two paths are equal as `Path`'s `==` compares them: component by
/// component, so that `a//b` and `a/b/` both equal `a/b`.
pub uninterp spec fn paths_equal(a: Seq<char>, b: Seq<char>) -> bool;

/// Calls `Path::file_name` on the path written in `path`, and turns the
/// component back into text. The contract claims only that the result is
/// the one `path_file_name` names for the argument; how `std` splits a path
/// into components is not stated.
#[verifier::external_body]
pub fn file_name_of(path: &str) -> (r: Option<String>)
    ensures
        r.deep_view() == path_file_name(path@),
{
    std::path::Path::new(path).file_name().map(|n| n.to_string_lossy().into_owned())
}

/// Compares two paths with `Path`'s `==`. The contract claims only that the
/// answer is the one `paths_equal` names for the arguments; the component
/// rules are not stated.
#[verifier::external_body]
pub fn same_path(a: &str, b: &str) -> (r: bool)
    ensures
        r == paths_equal(a@, b@),
{
    std::path::Path::new(a) == std::path::Path::new(b)
}

/// The file's name as the analyses print it: the path's last component, or
/// the empty text where there is none.
pub open spec fn display_file_name(path: Seq<char>) -> Seq<char> {
    match path_file_name(path) {
        Some(n) => n,
        None => Seq::empty(),
    }
}

/// `path.file_name().unwrap_or_default()`, as text.
pub fn file_name_or_empty(path: &str) -> (r: String)
    ensures
        r@ == display_file_name(path@),
{
    match file_name_of(path) {
        Some(n) => n,
        None => String::new(),
    }
}

} // verus!
