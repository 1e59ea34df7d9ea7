//! Where the program lives, and how it gets there.
use crate::paths::{base_folder, below, join_path, joined, local_data_folder};
use std::path::PathBuf;
use vstd::prelude::*;

verus! {

/// The folder of the program, with the folder for local data that the system
/// names.
pub open spec fn install_folder(base: Option<PathBuf>) -> PathBuf {
    joined(base_folder(base), "BetWall"@)
}

/// The program in its folder, with the folder for local data that the system
/// names.
pub open spec fn installed_program(base: Option<PathBuf>) -> PathBuf {
    joined(install_folder(base), "betwall.exe"@)
}

/// The folder of the program, below that folder for local data.
pub fn install_dir_in(base: Option<PathBuf>) -> (r: PathBuf)
    ensures
        r == install_folder(base),
{
    below(base, "BetWall")
}

/// The program in its folder, below that folder for local data.
pub fn target_exe_in(base: Option<PathBuf>) -> (r: PathBuf)
    ensures
        r == installed_program(base),
{
    join_path(&install_dir_in(base), "betwall.exe")
}

/// The folder of the program.
pub fn install_dir() -> (r: PathBuf)
    ensures
        exists|base: Option<PathBuf>| r == #[trigger] install_folder(base),
{
    install_dir_in(local_data_folder())
}

/// The program in its folder.
pub fn target_exe() -> (r: PathBuf)
    ensures
        exists|base: Option<PathBuf>| r == #[trigger] installed_program(base),
{
    target_exe_in(local_data_folder())
}

/// The stream that marks a file as downloaded, given the path of the file.
pub fn zone_identifier(path: &str) -> (r: String)
    ensures
        r@ == path@ + ":Zone.Identifier"@,
{
    let mut r = path.to_owned();
    r.append(":Zone.Identifier");
    r
}

// ---------------------------------------------------------------------------
// Installing
// ---------------------------------------------------------------------------

/// What happens at the start of the program.
#[derive(Debug, PartialEq, Eq, Structural)]
pub enum InstallEvent {
    /// The running program cannot be found.
    NotFound,
    /// The running program is the one in its folder.
    InPlace,
    /// The running program is another.
    Elsewhere,
    /// The folder could not be made.
    NoFolder,
    /// The folder is there.
    Folder,
    /// The program could not be copied.
    NotCopied,
    /// The program has been copied.
    Copied,
}

/// What to do about it.
#[derive(Debug, PartialEq, Eq, Structural)]
pub enum InstallAction {
    /// Go on with this program.
    GoOn,
    /// Take the mark of a download off the program, and go on with this one.
    UnmarkAndGoOn,
    /// Make the folder.
    MakeFolder,
    /// Copy the program.
    Copy,
    /// Take the mark of a download off the copy, start it, and end this program.
    HandOver,
}

/// What to do at the start of the program.
pub open spec fn install_step(event: InstallEvent) -> InstallAction {
    match event {
        InstallEvent::NotFound => InstallAction::GoOn,
        InstallEvent::InPlace => InstallAction::UnmarkAndGoOn,
        InstallEvent::Elsewhere => InstallAction::MakeFolder,
        InstallEvent::NoFolder => InstallAction::GoOn,
        InstallEvent::Folder => InstallAction::Copy,
        InstallEvent::NotCopied => InstallAction::GoOn,
        InstallEvent::Copied => InstallAction::HandOver,
    }
}

/// What to do at the start of the program.
pub fn install_if_needed(event: InstallEvent) -> (r: InstallAction)
    ensures
        r == install_step(event),
{
    match event {
        InstallEvent::NotFound => InstallAction::GoOn,
        InstallEvent::InPlace => InstallAction::UnmarkAndGoOn,
        InstallEvent::Elsewhere => InstallAction::MakeFolder,
        InstallEvent::NoFolder => InstallAction::GoOn,
        InstallEvent::Folder => InstallAction::Copy,
        InstallEvent::NotCopied => InstallAction::GoOn,
        InstallEvent::Copied => InstallAction::HandOver,
    }
}

/// The last action at the start of the program, given whether the running program
/// is the one in its folder, where it can be found, and whether the folder and
/// the copy succeed.
pub open spec fn install_end(in_place: Option<bool>, folder: bool, copied: bool) -> InstallAction {
    let first = install_step(
        match in_place {
            None => InstallEvent::NotFound,
            Some(true) => InstallEvent::InPlace,
            Some(false) => InstallEvent::Elsewhere,
        },
    );
    let second = if first == InstallAction::MakeFolder {
        install_step(
            if folder {
                InstallEvent::Folder
            } else {
                InstallEvent::NoFolder
            },
        )
    } else {
        first
    };
    if second == InstallAction::Copy {
        install_step(
            if copied {
                InstallEvent::Copied
            } else {
                InstallEvent::NotCopied
            },
        )
    } else {
        second
    }
}

/// The program hands over to a copy exactly if it runs from elsewhere and both
/// the folder and the copy succeed; in every other case it goes on.
pub proof fn lemma_hands_over(in_place: Option<bool>, folder: bool, copied: bool)
    ensures
        install_end(in_place, folder, copied) == InstallAction::HandOver <==> in_place == Some(
            false,
        ) && folder && copied,
        install_end(in_place, folder, copied) != InstallAction::HandOver ==> (install_end(
            in_place,
            folder,
            copied,
        ) == InstallAction::GoOn || install_end(in_place, folder, copied)
            == InstallAction::UnmarkAndGoOn),
{
}

} // verus!
