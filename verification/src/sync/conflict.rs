//! Conflict resolution by timestamp. Nothing is ever deleted; a tolerance of
//! two seconds absorbs filesystem granularity and small clock drift; the pair
//! of mtimes recorded in the manifest at the last sync recognises "nothing
//! changed" even when the local and remote clocks disagree.
use vstd::prelude::*;

verus! {

/// Timestamp differences up to this value count as "equal".
pub const TIMESTAMP_TOLERANCE_MS: i64 = 2_000;

/// What to do with one file.
#[derive(Debug, Clone, Copy, PartialEq, Eq, Structural)]
pub enum SyncAction {
    Upload,
    Download,
    /// Download that first copies the existing local file to a backup folder.
    /// Used on the first sync of a file present on both sides (the Drive wins).
    DownloadWithBackup,
    /// Both sides changed since the last sync: nobody wins automatically and
    /// the emulator's sync pauses until the user chooses.
    Conflict,
    NoOp,
}

/// `a` and `b` lie within the tolerance of each other.
pub open spec fn within_tolerance(a: int, b: int) -> bool {
    -TIMESTAMP_TOLERANCE_MS <= a - b <= TIMESTAMP_TOLERANCE_MS
}

/// The action for a file, given its local mtime, its Drive `modifiedTime` and
/// the `(local, drive)` pair recorded in the manifest at the last sync.
pub open spec fn spec_decide(
    local: Option<i64>,
    drive: Option<i64>,
    last_synced: Option<(i64, i64)>,
) -> SyncAction {
    match (local, drive) {
        (None, None) => SyncAction::NoOp,
        (Some(_), None) => SyncAction::Upload,
        (None, Some(_)) => SyncAction::Download,
        (Some(l), Some(d)) => match last_synced {
            Some((last_l, last_d)) => {
                let local_changed = !within_tolerance(l as int, last_l as int);
                let drive_changed = !within_tolerance(d as int, last_d as int);
                if !local_changed && !drive_changed {
                    SyncAction::NoOp
                } else if local_changed && !drive_changed {
                    SyncAction::Upload
                } else if !local_changed && drive_changed {
                    SyncAction::Download
                } else if within_tolerance(l as int, d as int) {
                    SyncAction::NoOp
                } else {
                    SyncAction::Conflict
                }
            },
            None => if within_tolerance(l as int, d as int) {
                SyncAction::NoOp
            } else {
                SyncAction::DownloadWithBackup
            },
        },
    }
}

/// `|a - b| <= TIMESTAMP_TOLERANCE_MS`, computed without overflow.
pub fn eq_within_tolerance(a: i64, b: i64) -> (r: bool)
    ensures
        r == within_tolerance(a as int, b as int),
{
    let diff: i128 = a as i128 - b as i128;
    -(TIMESTAMP_TOLERANCE_MS as i128) <= diff && diff <= TIMESTAMP_TOLERANCE_MS as i128
}

/// Decides the action for a file from its local mtime, its Drive
/// `modifiedTime` and the pair recorded in the manifest at the last sync.
pub fn decide(
    local_mtime_ms: Option<i64>,
    drive_mtime_ms: Option<i64>,
    last_synced: Option<(i64, i64)>,
) -> (action: SyncAction)
    ensures
        action == spec_decide(local_mtime_ms, drive_mtime_ms, last_synced),
{
    match (local_mtime_ms, drive_mtime_ms) {
        (None, None) => SyncAction::NoOp,
        (Some(_), None) => SyncAction::Upload,
        (None, Some(_)) => SyncAction::Download,
        (Some(local), Some(drive)) => match last_synced {
            Some((last_local, last_drive)) => {
                let local_changed = !eq_within_tolerance(local, last_local);
                let drive_changed = !eq_within_tolerance(drive, last_drive);
                match (local_changed, drive_changed) {
                    (false, false) => SyncAction::NoOp,
                    (true, false) => SyncAction::Upload,
                    (false, true) => SyncAction::Download,
                    (true, true) => {
                        if eq_within_tolerance(local, drive) {
                            SyncAction::NoOp
                        } else {
                            SyncAction::Conflict
                        }
                    },
                }
            },
            None => {
                if eq_within_tolerance(local, drive) {
                    SyncAction::NoOp
                } else {
                    SyncAction::DownloadWithBackup
                }
            },
        },
    }
}

/// A file that exists on one side only is copied to the other side, whatever
/// the manifest says.
pub proof fn lemma_one_sided_file_is_copied(t: i64, last_synced: Option<(i64, i64)>)
    ensures
        spec_decide(Some(t), None, last_synced) == SyncAction::Upload,
        spec_decide(None, Some(t), last_synced) == SyncAction::Download,
        spec_decide(None, None, last_synced) == SyncAction::NoOp,
{
}

/// Right after a sync the manifest holds the pair of mtimes that was just
/// synced, and the next decision for that same pair is "nothing to do", even
/// when the two clocks disagree by more than the tolerance.
pub proof fn lemma_synced_pair_is_stable(local: i64, drive: i64)
    ensures
        spec_decide(Some(local), Some(drive), Some((local, drive))) == SyncAction::NoOp,
{
}

/// The decision treats both sides alike once a manifest entry exists: swapping
/// the local and Drive timestamps (and the recorded pair) swaps upload and
/// download and leaves no-op and conflict unchanged.
pub proof fn lemma_decision_is_symmetric(l: i64, d: i64, last_l: i64, last_d: i64)
    ensures
        ({
            let a = spec_decide(Some(l), Some(d), Some((last_l, last_d)));
            let b = spec_decide(Some(d), Some(l), Some((last_d, last_l)));
            &&& (a == SyncAction::Upload <==> b == SyncAction::Download)
            &&& (a == SyncAction::Download <==> b == SyncAction::Upload)
            &&& (a == SyncAction::NoOp <==> b == SyncAction::NoOp)
            &&& (a == SyncAction::Conflict <==> b == SyncAction::Conflict)
        }),
{
}

/// A conflict is reported only when a manifest entry exists and both sides
/// moved away from it (beyond the tolerance) to different mtimes; a first sync
/// never reports a conflict, the Drive wins with a local backup.
pub proof fn lemma_conflict_needs_both_sides_changed(
    l: i64,
    d: i64,
    last_synced: Option<(i64, i64)>,
)
    ensures
        spec_decide(Some(l), Some(d), last_synced) == SyncAction::Conflict <==> (
        last_synced is Some && !within_tolerance(l as int, last_synced.unwrap().0 as int)
            && !within_tolerance(d as int, last_synced.unwrap().1 as int) && !within_tolerance(
            l as int,
            d as int,
        )),
        last_synced is None ==> spec_decide(Some(l), Some(d), last_synced) != SyncAction::Upload,
{
}

/// Timestamps within the tolerance of each other never cause a transfer.
pub proof fn lemma_equal_mtimes_need_nothing(l: i64, d: i64, last_synced: Option<(i64, i64)>)
    requires
        within_tolerance(l as int, d as int),
        last_synced is None || (within_tolerance(l as int, last_synced.unwrap().0 as int)
            == within_tolerance(d as int, last_synced.unwrap().1 as int)),
    ensures
        spec_decide(Some(l), Some(d), last_synced) == SyncAction::NoOp,
{
}

} // verus!
