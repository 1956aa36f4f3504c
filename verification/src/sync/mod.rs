//! Two-way synchronisation with Google Drive. The engine is agnostic of
//! emulators: it receives `SyncTarget`s (a label and lists of paths) and never
//! knows PPSSPP or PCSX2. Conflicts are settled by timestamp and nothing is
//! ever deleted.
use vstd::prelude::*;
use crate::constants::{DRIVE_CONFIG_FOLDER, DRIVE_SAVES_FOLDER, DRIVE_STATES_FOLDER};
use crate::emulator::EmulatorProfile;
use crate::text::{clone_strings, str_eq, views};

pub mod conflict;
pub mod diff;
pub mod engine;
pub mod properties;
pub mod run;

verus! {

/// Direction of a sync run.
#[derive(Debug, Clone, Copy, PartialEq, Eq, Structural)]
pub enum SyncDirection {
    DriveToLocal,
    LocalToDrive,
    Bidirectional,
}

/// Category of synchronised files; its text is also the subfolder name in the
/// Drive and the key of the `category` column of the local database.
#[derive(Debug, Clone, Copy, PartialEq, Eq, Structural)]
pub enum SyncCategory {
    Saves,
    Savestates,
    Config,
}

/// The text of a category.
pub open spec fn spec_category_str(c: SyncCategory) -> Seq<char> {
    match c {
        SyncCategory::Saves => DRIVE_SAVES_FOLDER@,
        SyncCategory::Savestates => DRIVE_STATES_FOLDER@,
        SyncCategory::Config => DRIVE_CONFIG_FOLDER@,
    }
}

/// The category whose text is `value`, if any.
pub open spec fn spec_category_parse(value: Seq<char>) -> Option<SyncCategory> {
    if value == DRIVE_SAVES_FOLDER@ {
        Some(SyncCategory::Saves)
    } else if value == DRIVE_STATES_FOLDER@ {
        Some(SyncCategory::Savestates)
    } else if value == DRIVE_CONFIG_FOLDER@ {
        Some(SyncCategory::Config)
    } else {
        None
    }
}

impl SyncCategory {
    pub fn as_str(self) -> (r: &'static str)
        ensures
            r@ == spec_category_str(self),
    {
        match self {
            SyncCategory::Saves => DRIVE_SAVES_FOLDER,
            SyncCategory::Savestates => DRIVE_STATES_FOLDER,
            SyncCategory::Config => DRIVE_CONFIG_FOLDER,
        }
    }

    pub fn parse(value: &str) -> (r: Option<Self>)
        ensures
            r == spec_category_parse(value@),
    {
        if str_eq(value, DRIVE_SAVES_FOLDER) {
            Some(SyncCategory::Saves)
        } else if str_eq(value, DRIVE_STATES_FOLDER) {
            Some(SyncCategory::Savestates)
        } else if str_eq(value, DRIVE_CONFIG_FOLDER) {
            Some(SyncCategory::Config)
        } else {
            None
        }
    }
}

/// Reading back the text of a category gives the category again, and distinct
/// categories have distinct texts.
pub proof fn lemma_category_text_roundtrip(c: SyncCategory)
    ensures
        spec_category_parse(spec_category_str(c)) == Some(c),
{
    reveal_strlit("saves");
    reveal_strlit("savestates");
    reveal_strlit("config");
    assert(DRIVE_SAVES_FOLDER@.len() == 5);
    assert(DRIVE_STATES_FOLDER@.len() == 10);
    assert(DRIVE_CONFIG_FOLDER@.len() == 6);
}

/// Payload of the `sync:progress` event.
#[derive(Debug, Clone)]
pub struct SyncProgress {
    pub emulator: String,
    pub current_file: String,
    pub completed: u32,
    pub total: u32,
    pub bytes_done: u64,
    pub bytes_total: u64,
    pub direction: SyncDirection,
}

/// An emulator-agnostic sync target: a label and paths.
pub struct SyncTarget {
    /// Name of the emulator's folder in the Drive (e.g. "PPSSPP").
    pub label: String,
    pub root: String,
    pub categories: Vec<(SyncCategory, Vec<String>)>,
}

/// Mathematical view of a [`SyncTarget`].
pub struct SyncTargetView {
    pub label: Seq<char>,
    pub root: Seq<char>,
    pub categories: Seq<(SyncCategory, Seq<Seq<char>>)>,
}

impl View for SyncTarget {
    type V = SyncTargetView;

    open spec fn view(&self) -> SyncTargetView {
        SyncTargetView {
            label: self.label@,
            root: self.root@,
            categories: self.categories@.map_values(
                |c: (SyncCategory, Vec<String>)| (c.0, views(c.1@)),
            ),
        }
    }
}

/// The target of a profile: saves, savestates and config, in that order.
pub open spec fn spec_target_of(p: crate::emulator::EmulatorProfileView) -> SyncTargetView {
    SyncTargetView {
        label: p.name,
        root: p.root_path,
        categories: seq![
            (SyncCategory::Saves, p.saves_paths),
            (SyncCategory::Savestates, p.state_paths),
            (SyncCategory::Config, p.config_paths),
        ],
    }
}

impl SyncTarget {
    pub fn from_profile(profile: &EmulatorProfile) -> (r: Self)
        ensures
            r@ == spec_target_of(profile@),
    {
        let mut categories: Vec<(SyncCategory, Vec<String>)> = Vec::new();
        categories.push((SyncCategory::Saves, clone_strings(&profile.saves_paths)));
        categories.push((SyncCategory::Savestates, clone_strings(&profile.state_paths)));
        categories.push((SyncCategory::Config, clone_strings(&profile.config_paths)));
        let r = SyncTarget {
            label: profile.name.clone(),
            root: profile.root_path.clone(),
            categories,
        };
        assert(r@.categories =~= spec_target_of(profile@).categories);
        r
    }
}

} // verus!
