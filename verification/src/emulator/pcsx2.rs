//! Profile of PCSX2 (PS2). Recognised layout, relative to the chosen folder
//! (data folder or portable install): `inis/` is required, plus at least one
//! of `memcards/`, `sstates/` and `bios/`.
use vstd::prelude::*;
use crate::text::{clone_strings, contains_str, contains_view, join_path, join_rel, str_eq, views};
use super::profiles::{ProfileSpec, ProfileSpecView};
use super::EmulatorProfile;

verus! {

pub const NAME: &'static str = "PCSX2";

pub const INIS_DIR: &'static str = "inis";
pub const MEMCARDS_DIR: &'static str = "memcards";
pub const SSTATES_DIR: &'static str = "sstates";
pub const BIOS_DIR: &'static str = "bios";

/// Process names watched by the process watcher.
pub const PROCESS_QT: &'static str = "pcsx2-qt.exe";
pub const PROCESS_QT_X64: &'static str = "pcsx2-qtx64.exe";
pub const PROCESS_QT_X64_AVX2: &'static str = "pcsx2-qtx64-avx2.exe";
pub const PROCESS_LEGACY: &'static str = "pcsx2.exe";
pub const PROCESS_QT_UNIX: &'static str = "pcsx2-qt";

/// The catalogue entry of PCSX2.
pub open spec fn spec_profile() -> ProfileSpecView {
    ProfileSpecView {
        name: NAME@,
        process_names: seq![
            PROCESS_QT@,
            PROCESS_QT_X64@,
            PROCESS_QT_X64_AVX2@,
            PROCESS_LEGACY@,
            PROCESS_QT_UNIX@,
        ],
        base_candidates: Seq::empty(),
        required: seq![INIS_DIR@],
        markers: seq![MEMCARDS_DIR@, SSTATES_DIR@, BIOS_DIR@],
        saves: seq![MEMCARDS_DIR@],
        states: seq![SSTATES_DIR@],
        config: seq![INIS_DIR@],
    }
}

fn one(s: &str) -> (r: Vec<String>)
    ensures
        views(r@) == seq![s@],
{
    let mut r: Vec<String> = Vec::new();
    r.push(s.to_owned());
    assert(views(r@) =~= seq![s@]);
    r
}

/// The catalogue entry of PCSX2.
pub fn profile_spec() -> (r: ProfileSpec)
    ensures
        r@ == spec_profile(),
{
    let mut process_names: Vec<String> = Vec::new();
    process_names.push(PROCESS_QT.to_owned());
    process_names.push(PROCESS_QT_X64.to_owned());
    process_names.push(PROCESS_QT_X64_AVX2.to_owned());
    process_names.push(PROCESS_LEGACY.to_owned());
    process_names.push(PROCESS_QT_UNIX.to_owned());
    let mut markers: Vec<String> = Vec::new();
    markers.push(MEMCARDS_DIR.to_owned());
    markers.push(SSTATES_DIR.to_owned());
    markers.push(BIOS_DIR.to_owned());
    let r = ProfileSpec {
        name: NAME.to_owned(),
        process_names,
        base_candidates: Vec::new(),
        required: one(INIS_DIR),
        markers,
        saves: one(MEMCARDS_DIR),
        states: one(SSTATES_DIR),
        config: one(INIS_DIR),
    };
    assert(r@.process_names =~= spec_profile().process_names);
    assert(r@.base_candidates =~= spec_profile().base_candidates);
    assert(r@.markers =~= spec_profile().markers);
    r
}

/// Detects PCSX2 under `root` from the existing relative folders.
pub fn detect(root: &str, existing: &Vec<String>) -> (r: Option<EmulatorProfile>)
    ensures
        match r {
            Some(p) => super::profiles::spec_try_match(root@, spec_profile(), existing@) == Some(p@),
            None => super::profiles::spec_try_match(root@, spec_profile(), existing@) is None,
        },
{
    let spec = profile_spec();
    super::profiles::try_match(root, &spec, existing)
}

} // verus!
