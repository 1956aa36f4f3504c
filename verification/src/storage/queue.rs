//! Queue of pending operations (offline resilience): a transfer that failed
//! because of the network or a busy file is recorded and survives restarts;
//! the next sync's diff detects the difference again and redoes it, and a
//! successful sync of the file clears its entries.
use vstd::prelude::*;
use crate::sync::{spec_category_parse, SyncCategory};

verus! {

#[derive(Debug, Clone, Copy, PartialEq, Eq, Structural)]
pub enum OpDirection {
    Upload,
    Download,
}

pub open spec fn spec_direction_str(d: OpDirection) -> Seq<char> {
    match d {
        OpDirection::Upload => "upload"@,
        OpDirection::Download => "download"@,
    }
}

impl OpDirection {
    pub fn as_str(self) -> (r: &'static str)
        ensures
            r@ == spec_direction_str(self),
    {
        match self {
            OpDirection::Upload => "upload",
            OpDirection::Download => "download",
        }
    }
}

/// Distinct directions are stored as distinct texts.
pub proof fn lemma_direction_texts_distinct()
    ensures
        spec_direction_str(OpDirection::Upload) != spec_direction_str(OpDirection::Download),
{
    reveal_strlit("upload");
    reveal_strlit("download");
    assert("upload"@.len() == 6);
    assert("download"@.len() == 8);
}

/// A pending operation shown to the user (visible offline queue).
#[derive(Debug, Clone)]
pub struct PendingOp {
    pub emulator: String,
    pub category: SyncCategory,
    pub rel_path: String,
    /// "upload" or "download" (the texts of [`OpDirection::as_str`]).
    pub direction: String,
    pub enqueued_at_ms: i64,
    pub attempts: u32,
    pub last_error: Option<String>,
}

/// A row of the `pending_ops` table as read, with the category still as text.
#[derive(Debug, Clone)]
pub struct PendingRow {
    pub emulator: String,
    pub category: String,
    pub rel_path: String,
    pub direction: String,
    pub enqueued_at_ms: i64,
    pub attempts: u32,
    pub last_error: Option<String>,
}

/// The pending operation a row stands for, if its category is known.
pub open spec fn spec_pending_of(r: PendingRow) -> Option<PendingOp> {
    match spec_category_parse(r.category@) {
        Some(c) => Some(
            PendingOp {
                emulator: r.emulator,
                category: c,
                rel_path: r.rel_path,
                direction: r.direction,
                enqueued_at_ms: r.enqueued_at_ms,
                attempts: r.attempts,
                last_error: r.last_error,
            },
        ),
        None => None,
    }
}

/// The pending operations of `rows`, in order, skipping rows whose category
/// is unknown (a future schema?) instead of failing the whole listing.
pub open spec fn spec_pending_of_rows(rows: Seq<PendingRow>) -> Seq<PendingOp>
    decreases rows.len(),
{
    if rows.len() == 0 {
        Seq::empty()
    } else {
        let prefix = spec_pending_of_rows(rows.drop_last());
        match spec_pending_of(rows.last()) {
            Some(op) => prefix.push(op),
            None => prefix,
        }
    }
}

/// Turns the rows read from `pending_ops` (oldest first) into pending operations.
pub fn pending_from_rows(rows: Vec<PendingRow>) -> (r: Vec<PendingOp>)
    ensures
        r@ == spec_pending_of_rows(rows@),
{
    let mut out: Vec<PendingOp> = Vec::new();
    let mut i: usize = 0;
    let n = rows.len();
    let ghost all = rows@;
    let mut rows = rows;
    assert(rows@ =~= all.subrange(0, n as int));
    while i < n
        invariant
            n == all.len(),
            i <= n,
            rows@ == all.subrange(i as int, n as int),
            out@ == spec_pending_of_rows(all.subrange(0, i as int)),
        decreases n - i,
    {
        let row = rows.remove(0);
        proof {
            assert(row == all[i as int]);
            assert(rows@ =~= all.subrange(i + 1, n as int));
            assert(all.subrange(0, i + 1).drop_last() =~= all.subrange(0, i as int));
        }
        match SyncCategory::parse(row.category.as_str()) {
            Some(category) => {
                out.push(
                    PendingOp {
                        emulator: row.emulator,
                        category,
                        rel_path: row.rel_path,
                        direction: row.direction,
                        enqueued_at_ms: row.enqueued_at_ms,
                        attempts: row.attempts,
                        last_error: row.last_error,
                    },
                );
            },
            None => {},
        }
        i = i + 1;
    }
    assert(all.subrange(0, n as int) =~= all);
    out
}

} // verus!
