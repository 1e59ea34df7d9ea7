//! Paths of the system.
use std::path::PathBuf;
use vstd::prelude::*;

verus! {

/// A path of the system.
#[verifier::external_type_specification]
#[verifier::external_body]
pub struct ExPathBuf(std::path::PathBuf);

/// The path that a text spells.
pub uninterp spec fn path_of(s: Seq<char>) -> PathBuf;

/// A path with a further part.
pub uninterp spec fn joined(base: PathBuf, part: Seq<char>) -> PathBuf;

/// Calls `PathBuf::from` on a text. Claimed of it: the path depends on the text
/// alone.
#[verifier::external_body]
fn path_from(s: &str) -> (r: PathBuf)
    ensures
        r == path_of(s@),
{
    PathBuf::from(s)
}

/// Calls `Path::join`. Claimed of it: the path depends on the two parts alone.
#[verifier::external_body]
pub(crate) fn join_path(base: &PathBuf, part: &str) -> (r: PathBuf)
    ensures
        r == joined(*base, part@),
{
    base.join(part)
}

/// Calls `dirs::data_local_dir`, which asks the system for the folder for the
/// user's local data. Nothing is claimed of what it says.
#[verifier::external_body]
pub(crate) fn local_data_folder() -> (r: Option<PathBuf>) {
    dirs::data_local_dir()
}

/// Calls `dirs::config_dir`, which asks the system for the folder for the user's
/// settings. Nothing is claimed of what it says.
#[verifier::external_body]
pub(crate) fn settings_folder() -> (r: Option<PathBuf>) {
    dirs::config_dir()
}

/// The folder that the system names, or the one that the program runs in.
pub open spec fn base_folder(base: Option<PathBuf>) -> PathBuf {
    match base {
        Some(p) => p,
        None => path_of("."@),
    }
}

/// A part below the folder that the system names.
pub fn below(base: Option<PathBuf>, part: &str) -> (r: PathBuf)
    ensures
        r == joined(base_folder(base), part@),
{
    match base {
        Some(p) => join_path(&p, part),
        None => join_path(&path_from("."), part),
    }
}

} // verus!
