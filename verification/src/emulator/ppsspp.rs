//! Profile of PPSSPP (PSP). Recognised layouts, relative to the chosen folder:
//! a data folder (`PSP/{SAVEDATA,PPSSPP_STATE,SYSTEM}`) or a portable install
//! (`memstick/PSP/{...}`).
use vstd::prelude::*;
use crate::text::{clone_strings, contains_str, contains_view, join_path, join_rel, str_eq, views};
use super::profiles::{ProfileSpec, ProfileSpecView};
use super::EmulatorProfile;

verus! {

pub const NAME: &'static str = "PPSSPP";

pub const PSP_DIR: &'static str = "PSP";
pub const MEMSTICK_DIR: &'static str = "memstick";
pub const SAVEDATA_DIR: &'static str = "SAVEDATA";
pub const STATES_DIR: &'static str = "PPSSPP_STATE";
pub const SYSTEM_DIR: &'static str = "SYSTEM";

/// Process names watched by the process watcher.
pub const PROCESS_WIN64: &'static str = "PPSSPPWindows64.exe";
pub const PROCESS_WIN32: &'static str = "PPSSPPWindows.exe";
pub const PROCESS_SDL: &'static str = "PPSSPPSDL";

/// The catalogue entry of PPSSPP.
pub open spec fn spec_profile() -> ProfileSpecView {
    ProfileSpecView {
        name: NAME@,
        process_names: seq![PROCESS_WIN64@, PROCESS_WIN32@, PROCESS_SDL@],
        base_candidates: seq![PSP_DIR@, join_rel(MEMSTICK_DIR@, PSP_DIR@)],
        required: Seq::empty(),
        markers: seq![SAVEDATA_DIR@, STATES_DIR@, SYSTEM_DIR@],
        saves: seq![SAVEDATA_DIR@],
        states: seq![STATES_DIR@],
        config: seq![SYSTEM_DIR@],
    }
}

fn one(s: &str) -> (r: Vec<String>)
    ensures
        views(r@) == seq![s@],
{
    let mut r: Vec<String> = Vec::new();
    r.push(s.to_owned());
    assert(views(r@) =~= seq![s@]);
    r
}

/// The catalogue entry of PPSSPP.
pub fn profile_spec() -> (r: ProfileSpec)
    ensures
        r@ == spec_profile(),
{
    let mut process_names: Vec<String> = Vec::new();
    process_names.push(PROCESS_WIN64.to_owned());
    process_names.push(PROCESS_WIN32.to_owned());
    process_names.push(PROCESS_SDL.to_owned());
    let mut base_candidates: Vec<String> = Vec::new();
    base_candidates.push(PSP_DIR.to_owned());
    base_candidates.push(join_path(MEMSTICK_DIR, PSP_DIR));
    let mut markers: Vec<String> = Vec::new();
    markers.push(SAVEDATA_DIR.to_owned());
    markers.push(STATES_DIR.to_owned());
    markers.push(SYSTEM_DIR.to_owned());
    let r = ProfileSpec {
        name: NAME.to_owned(),
        process_names,
        base_candidates,
        required: Vec::new(),
        markers,
        saves: one(SAVEDATA_DIR),
        states: one(STATES_DIR),
        config: one(SYSTEM_DIR),
    };
    assert(r@.process_names =~= spec_profile().process_names);
    assert(r@.base_candidates =~= spec_profile().base_candidates);
    assert(r@.required =~= spec_profile().required);
    assert(r@.markers =~= spec_profile().markers);
    r
}

/// `PSP` directly under the root (data folder), or `memstick/PSP` (portable
/// install), whichever exists first.
pub fn locate_psp_dir(existing: &Vec<String>) -> (r: Option<String>)
    ensures
        match r {
            Some(p) => (contains_view(existing@, PSP_DIR@) && p@ == PSP_DIR@) || (!contains_view(
                existing@,
                PSP_DIR@,
            ) && contains_view(existing@, join_rel(MEMSTICK_DIR@, PSP_DIR@)) && p@ == join_rel(
                MEMSTICK_DIR@,
                PSP_DIR@,
            )),
            None => !contains_view(existing@, PSP_DIR@) && !contains_view(
                existing@,
                join_rel(MEMSTICK_DIR@, PSP_DIR@),
            ),
        },
{
    if contains_str(existing, PSP_DIR) {
        return Some(PSP_DIR.to_owned());
    }
    let portable = join_path(MEMSTICK_DIR, PSP_DIR);
    if contains_str(existing, portable.as_str()) {
        return Some(portable);
    }
    None
}

/// Detects PPSSPP under `root` from the existing relative folders.
pub fn detect(root: &str, existing: &Vec<String>) -> (r: Option<EmulatorProfile>)
    ensures
        match r {
            Some(p) => super::profiles::spec_try_match(root@, spec_profile(), existing@) == Some(p@),
            None => super::profiles::spec_try_match(root@, spec_profile(), existing@) is None,
        },
{
    let spec = profile_spec();
    super::profiles::try_match(root, &spec, existing)
}

} // verus!
