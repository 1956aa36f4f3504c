//! Emulator profiles and automatic detection.
//!
//! The catalogue of known emulators is data (see `profiles`): each profile says
//! where saves, savestates and configuration live relative to the root folder.
//! Detection identifies the emulator from the folders present under the root:
//! the caller probes the filesystem for the paths of [`candidate_dirs`] and
//! hands over the ones that exist.
use vstd::prelude::*;
use crate::text::{clone_strings, contains_str, contains_view, join_path, join_rel, str_eq, views};

pub mod pcsx2;
pub mod ppsspp;
pub mod profiles;

verus! {

/// A configured emulator. `root_path` is the folder chosen by the user; the
/// other paths are relative to it, with `/` as separator.
#[derive(Debug, Clone, PartialEq)]
pub struct EmulatorProfile {
    /// Canonical name ("PPSSPP", "PCSX2"), also the folder name in the Drive.
    pub name: String,
    pub root_path: String,
    pub saves_paths: Vec<String>,
    pub config_paths: Vec<String>,
    pub state_paths: Vec<String>,
}

/// Mathematical view of an [`EmulatorProfile`].
pub struct EmulatorProfileView {
    pub name: Seq<char>,
    pub root_path: Seq<char>,
    pub saves_paths: Seq<Seq<char>>,
    pub config_paths: Seq<Seq<char>>,
    pub state_paths: Seq<Seq<char>>,
}

impl View for EmulatorProfile {
    type V = EmulatorProfileView;

    open spec fn view(&self) -> EmulatorProfileView {
        EmulatorProfileView {
            name: self.name@,
            root_path: self.root_path@,
            saves_paths: views(self.saves_paths@),
            config_paths: views(self.config_paths@),
            state_paths: views(self.state_paths@),
        }
    }
}

impl EmulatorProfile {
    /// A copy equal to `self`.
    pub fn duplicate(&self) -> (r: Self)
        ensures
            r@ == self@,
    {
        EmulatorProfile {
            name: self.name.clone(),
            root_path: self.root_path.clone(),
            saves_paths: clone_strings(&self.saves_paths),
            config_paths: clone_strings(&self.config_paths),
            state_paths: clone_strings(&self.state_paths),
        }
    }
}

/// Identifies the emulator under `root_path` from the relative folders that
/// exist there (`existing_dirs`), and builds its profile. `None` when no
/// supported emulator is recognised.
pub fn detect_emulator(root_path: &str, existing_dirs: &Vec<String>) -> (r: Option<
    EmulatorProfile,
>)
    ensures
        match r {
            Some(p) => profiles::spec_detect(root_path@, existing_dirs@) == Some(p@),
            None => profiles::spec_detect(root_path@, existing_dirs@) is None,
        },
{
    profiles::detect(root_path, existing_dirs)
}

/// OS process names of an emulator, for the process watcher. Empty when the
/// canonical name matches no profile of the catalogue.
pub fn process_names(emulator_name: &str) -> (r: Vec<String>)
    ensures
        views(r@) == profiles::spec_process_names(emulator_name@),
{
    profiles::process_names(emulator_name)
}

/// Every relative folder whose existence detection may consult; probing these
/// (and no others) is enough to detect (see `profiles::lemma_detect_reads_only_candidates`).
pub fn candidate_dirs() -> (r: Vec<String>)
    ensures
        views(r@) == profiles::spec_candidate_dirs(profiles::catalog()),
{
    profiles::candidate_dirs()
}

} // verus!
