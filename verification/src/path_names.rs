//! File-system paths handled as text: the last component of a path, one
//! path joined onto another, and whether a path exists.
use crate::test_model::opt_seq;
use vstd::prelude::*;

verus! {

/// What `Path::file_name` gives for a path, as text.
pub uninterp spec fn path_file_name_of(path: Seq<char>) -> Option<Seq<char>>;

/// The last component of `path`: calls `std::path::Path::file_name`.
/// Trusted: the result is std's last component of the path (`None` when
/// the path ends in `..` or has no component); nothing more is stated.
#[verifier::external_body]
pub(crate) fn path_file_name(path: &str) -> (res: Option<String>)
    ensures
        opt_seq(res) == path_file_name_of(path@),
{
    std::path::Path::new(path).file_name().map(|s| s.to_string_lossy().to_string())
}

/// What `Path::join` gives for two paths, as text.
pub uninterp spec fn path_join_of(base: Seq<char>, rel: Seq<char>) -> Seq<char>;

/// `rel` joined onto `base`: calls `std::path::Path::join`. Trusted: the
/// result is std's joined path; nothing more is stated of it.
#[verifier::external_body]
pub(crate) fn path_join(base: &str, rel: &str) -> (res: String)
    ensures
        res@ == path_join_of(base@, rel@),
{
    std::path::Path::new(base).join(rel).to_string_lossy().to_string()
}

/// Whether something exists at `path`: calls `std::path::Path::exists`.
/// Trusted for nothing: the answer depends on the disk at the time of the
/// call, and no contract is stated.
#[verifier::external_body]
pub(crate) fn path_exists(path: &str) -> bool {
    std::path::Path::new(path).exists()
}

/// What `Path::strip_prefix` leaves of `path` after `base`, written with
/// forward slashes, as text.
pub uninterp spec fn path_strip_prefix_of(path: Seq<char>, base: Seq<char>) -> Option<Seq<char>>;

/// `path` relative to `base`: calls `std::path::Path::strip_prefix` and
/// `path_slash::PathExt::to_slash_lossy`. Trusted: the result is what std
/// leaves (`None` when `base` is no prefix of `path`, compared component by
/// component); nothing more is stated.
#[verifier::external_body]
pub(crate) fn path_strip_prefix(path: &str, base: &str) -> (res: Option<String>)
    ensures
        opt_seq(res) == path_strip_prefix_of(path@, base@),
{
    std::path::Path::new(path).strip_prefix(base).ok().map(|p| path_slash::PathExt::to_slash_lossy(p).to_string())
}

/// What `path_slash::PathExt::to_slash_lossy` gives for a path, as text.
pub uninterp spec fn to_slash_of(path: Seq<char>) -> Seq<char>;

/// `path` written with forward slashes: calls
/// `path_slash::PathExt::to_slash_lossy`. Trusted: the result is the
/// crate's rendering of the path; nothing more is stated.
#[verifier::external_body]
pub(crate) fn to_slash(path: &str) -> (res: String)
    ensures
        res@ == to_slash_of(path@),
{
    path_slash::PathExt::to_slash_lossy(std::path::Path::new(path)).to_string()
}

/// The canonical form of `path`, symbolic links resolved: calls
/// `dunce::canonicalize` (`None` when that fails). Trusted for nothing: the
/// answer depends on the disk, and no contract is stated.
#[verifier::external_body]
pub(crate) fn canonicalize_path(path: &str) -> Option<String> {
    dunce::canonicalize(path).ok().map(|p| p.to_string_lossy().to_string())
}


/// What `Path::parent` gives for a path, as text.
pub uninterp spec fn path_parent_of(path: Seq<char>) -> Option<Seq<char>>;

/// The directory that holds `path`: calls `std::path::Path::parent`.
/// Trusted: the result is std's parent path (`None` for a root or an empty
/// path); nothing more is stated of it.
#[verifier::external_body]
pub(crate) fn path_parent(path: &str) -> (res: Option<String>)
    ensures
        opt_seq(res) == path_parent_of(path@),
{
    std::path::Path::new(path).parent().map(|p| p.to_string_lossy().to_string())
}

/// What `pathdiff::diff_paths` gives for a path and a base, as text.
pub uninterp spec fn path_diff_of(path: Seq<char>, base: Seq<char>) -> Option<Seq<char>>;

/// `path` relative to `base`: calls `pathdiff::diff_paths`, which works on
/// the components alone. Trusted: the result is the crate's relative path
/// (`None` when it cannot be formed or is no valid text); nothing more is
/// stated of it.
#[verifier::external_body]
pub(crate) fn path_diff(path: &str, base: &str) -> (res: Option<String>)
    ensures
        opt_seq(res) == path_diff_of(path@, base@),
{
    pathdiff::diff_paths(path, base).and_then(|p| p.to_str().map(|s| s.to_string()))
}

/// What `Path::extension` gives for a path, as text.
pub uninterp spec fn path_extension_of(path: Seq<char>) -> Option<Seq<char>>;

/// The extension of `path`: calls `std::path::Path::extension`. Trusted:
/// the result is std's extension of the last component (`None` without
/// one); nothing more is stated of it.
#[verifier::external_body]
pub(crate) fn path_extension(path: &str) -> (res: Option<String>)
    ensures
        opt_seq(res) == path_extension_of(path@),
{
    std::path::Path::new(path).extension().and_then(|e| e.to_str()).map(|e| e.to_string())
}

} // verus!
