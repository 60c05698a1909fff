//! Paths of the file system. A path is opaque here.

use std::path::PathBuf;
use vstd::prelude::*;

verus! {

/// A path of the file system.
#[verifier::external_type_specification]
#[verifier::external_body]
pub struct ExPathBuf(std::path::PathBuf);

/// `PathBuf::clone` gives an equal path.
pub assume_specification[ <std::path::PathBuf as Clone>::clone ](original: &std::path::PathBuf) -> (copy:
    std::path::PathBuf)
    ensures
        copy == *original,
;

/// The path that a text writes: what `PathBuf::from` gives.
pub uninterp spec fn path_of(text: Seq<char>) -> PathBuf;

/// The path of a name within a directory: what `Path::join` gives, with the
/// separator of the platform that the library is built for.
pub uninterp spec fn joined(directory: PathBuf, name: Seq<char>) -> PathBuf;

/// `PathBuf::from` on a text gives the path that the text writes.
#[verifier::external_body]
pub(crate) fn path_from(text: &str) -> (path: PathBuf)
    ensures
        path == path_of(text@),
{
    PathBuf::from(text)
}

/// `Path::join` gives the path of a name within a directory.
#[verifier::external_body]
pub(crate) fn join_path(directory: &PathBuf, name: &str) -> (path: PathBuf)
    ensures
        path == joined(*directory, name@),
{
    directory.join(name)
}

} // verus!
