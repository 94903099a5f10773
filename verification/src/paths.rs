//! The parts of a file path that the scanners look at, as `std::path::Path`
//! computes them.
use vstd::prelude::*;

verus! {

/// The stem of the file name of a path, as `Path::file_stem` gives it.
pub uninterp spec fn path_file_stem(p: Seq<char>) -> Option<Seq<char>>;

/// The extension of the file name of a path, as `Path::extension` gives it.
pub uninterp spec fn path_extension(p: Seq<char>) -> Option<Seq<char>>;

/// The parent of a path, as `Path::parent` gives it.
pub uninterp spec fn path_parent(p: Seq<char>) -> Option<Seq<char>>;

/// The last component of a path, as `Path::file_name` gives it.
pub uninterp spec fn path_file_name(p: Seq<char>) -> Option<Seq<char>>;

/// The view of an optional string.
pub open spec fn opt_string_view(o: Option<String>) -> Option<Seq<char>> {
    match o {
        None => None,
        Some(s) => Some(s@),
    }
}

/// `Path::file_stem`: the file name without its last extension (`None`
/// when the path has no file name).  The result depends on the path alone.
#[verifier::external_body]
pub(crate) fn file_stem(p: &str) -> (r: Option<String>)
    ensures
        opt_string_view(r) == path_file_stem(p@),
{
    std::path::Path::new(p).file_stem().and_then(|s| s.to_str()).map(|s| s.to_string())
}

/// `Path::extension`: the text after the last dot of the file name (`None`
/// when there is none).  The result depends on the path alone.
#[verifier::external_body]
pub(crate) fn extension(p: &str) -> (r: Option<String>)
    ensures
        opt_string_view(r) == path_extension(p@),
{
    std::path::Path::new(p).extension().and_then(|s| s.to_str()).map(|s| s.to_string())
}

/// `Path::parent`: the path without its last component (`None` for a root
/// or an empty path).  The result depends on the path alone.
#[verifier::external_body]
pub(crate) fn parent(p: &str) -> (r: Option<String>)
    ensures
        opt_string_view(r) == path_parent(p@),
{
    std::path::Path::new(p).parent().and_then(|s| s.to_str()).map(|s| s.to_string())
}

/// `Path::file_name`: the last component of the path (`None` when it ends
/// in `..`).  The result depends on the path alone.
#[verifier::external_body]
pub(crate) fn file_name(p: &str) -> (r: Option<String>)
    ensures
        opt_string_view(r) == path_file_name(p@),
{
    std::path::Path::new(p).file_name().and_then(|s| s.to_str()).map(|s| s.to_string())
}

} // verus!
