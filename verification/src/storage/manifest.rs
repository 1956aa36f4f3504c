//! The `sync_manifest` table: the state of each file at its last sync.
use vstd::prelude::*;
use crate::sync::SyncCategory;

verus! {

/// A file's state at its last sync.
#[derive(Debug, Clone)]
pub struct ManifestEntry {
    pub emulator: String,
    pub category: SyncCategory,
    pub rel_path: String,
    pub drive_file_id: Option<String>,
    pub local_mtime_ms: Option<i64>,
    pub drive_mtime_ms: Option<i64>,
    pub size_bytes: Option<i64>,
    pub last_synced_at_ms: i64,
}

/// The `(local, drive)` pair recorded in an entry, when both are known.
pub open spec fn spec_synced_pair(e: ManifestEntry) -> Option<(i64, i64)> {
    match (e.local_mtime_ms, e.drive_mtime_ms) {
        (Some(l), Some(d)) => Some((l, d)),
        _ => None,
    }
}

impl ManifestEntry {
    /// The entry recorded after a transfer: the Drive file it went to or came
    /// from, the local and Drive mtimes it left behind, its size and the time
    /// of the sync.
    pub fn synced(
        emulator: &str,
        category: SyncCategory,
        rel_path: &str,
        drive_file_id: String,
        local_mtime_ms: i64,
        drive_mtime_ms: Option<i64>,
        size_bytes: i64,
        now_ms: i64,
    ) -> (r: Self)
        ensures
            r.emulator@ == emulator@,
            r.category == category,
            r.rel_path@ == rel_path@,
            r.drive_file_id == Some(drive_file_id),
            r.local_mtime_ms == Some(local_mtime_ms),
            r.drive_mtime_ms == drive_mtime_ms,
            r.size_bytes == Some(size_bytes),
            r.last_synced_at_ms == now_ms,
    {
        ManifestEntry {
            emulator: emulator.to_owned(),
            category,
            rel_path: rel_path.to_owned(),
            drive_file_id: Some(drive_file_id),
            local_mtime_ms: Some(local_mtime_ms),
            drive_mtime_ms,
            size_bytes: Some(size_bytes),
            last_synced_at_ms: now_ms,
        }
    }

    /// The `(local, drive)` pair recorded in this entry, when both are known.
    pub fn synced_pair(&self) -> (r: Option<(i64, i64)>)
        ensures
            r == spec_synced_pair(*self),
    {
        match (self.local_mtime_ms, self.drive_mtime_ms) {
            (Some(l), Some(d)) => Some((l, d)),
            _ => None,
        }
    }
}

} // verus!
