//! The few operations on file-system paths that the library needs. A path is
//! seen through what it holds, its components; what is on disk can change at
//! any time, so nothing is claimed of whether a path exists.

use vstd::prelude::*;

verus! {

/// What a path holds: its components in order (`Path::components`), each as
/// the text `to_string_lossy` gives of it.
pub uninterp spec fn path_components(p: std::path::PathBuf) -> Seq<Seq<char>>;

/// The text `Path::to_string_lossy` gives of the whole path.
pub uninterp spec fn path_lossy_text(p: std::path::PathBuf) -> Seq<char>;

/// The text `Debug` prints for the path (quoted, with escapes).
pub uninterp spec fn path_debug_form(p: std::path::PathBuf) -> Seq<char>;

/// A name that joining appends as exactly one component: non-empty, not `.`,
/// and free of the characters that separate components or start a prefix.
pub open spec fn plain_component(name: Seq<char>) -> bool {
    &&& name.len() > 0
    &&& name != seq!['.']
    &&& forall|i: int| 0 <= i < name.len() ==> #[trigger] name[i] != '/' && name[i] != '\\' && name[i] != ':'
}

/// `base.join(name)` (`std::path::Path::join`). For a relative `name` the
/// standard library pushes it onto `base`, so a plain name becomes one more
/// component after those of `base`.
#[verifier::external_body]
pub(crate) fn join_path(base: &std::path::PathBuf, name: &str) -> (r: std::path::PathBuf)
    requires
        plain_component(name@),
    ensures
        path_components(r) == path_components(*base).push(name@),
{
    base.join(name)
}

/// `path.exists()` (`std::path::Path::exists`): whether something is at the
/// path when asked. That depends on the disk, so nothing is stated.
#[verifier::external_body]
pub(crate) fn path_exists(path: &std::path::PathBuf) -> bool {
    path.exists()
}

/// `path.to_string_lossy()` as an owned string
/// (`std::path::Path::to_string_lossy`).
#[verifier::external_body]
pub(crate) fn path_text(path: &std::path::PathBuf) -> (s: String)
    ensures
        s@ == path_lossy_text(*path),
{
    path.to_string_lossy().to_string()
}

/// The path as `Debug` prints it, through `format!("{:?}", path)`.
#[verifier::external_body]
pub(crate) fn path_debug_text(path: &std::path::PathBuf) -> (s: String)
    ensures
        s@ == path_debug_form(*path),
{
    format!("{:?}", path)
}

} // verus!
