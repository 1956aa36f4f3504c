//! The steps of a sync run, as decisions from state and event to the next
//! state and action. The shell performs each action (database, Drive, disk)
//! and hands back what came of it.
//!
//! - [`plan_run`]: which emulators a run covers; one with a pending conflict
//!   stays blocked until the user resolves it.
//! - [`after_target`]: how the result of one emulator enters the run summary.
//! - [`category_step`]: the sync of one category, from resolving its Drive
//!   folder (recovering once from a stale cached id) to counting and
//!   reporting the progress of every planned operation.
//! - [`batch_chunk_step`], [`batch_item_outcome`]: how a batch upload's result
//!   is taken.
use vstd::prelude::*;
use crate::emulator::EmulatorProfile;
use crate::error::{AppError, AppResult};
use crate::storage::emulators::SyncCategories;
use crate::sync::diff::PlannedOp;
use crate::sync::engine::{
    can_merge, op_bytes, outcome_fits, selected, spec_count_outcome, spec_filtered_target, spec_merge,
    spec_op_bytes, spec_outcome_fits, OpOutcome, SyncSummary,
};
use crate::sync::{SyncTarget, SyncTargetView};
use crate::sync::engine::target_for;
use crate::text::str_eq;

verus! {

/// The targets a run syncs: those of the profiles that `only` selects, in
/// order, leaving out every emulator with a pending conflict (`blocked`,
/// parallel to `profiles`), each with the categories enabled in `cats`.
pub open spec fn spec_run_targets(
    profiles: Seq<EmulatorProfile>,
    cats: Seq<SyncCategories>,
    blocked: Seq<bool>,
    only: Option<Seq<char>>,
) -> Seq<SyncTargetView>
    decreases profiles.len(),
{
    if profiles.len() == 0 {
        Seq::empty()
    } else {
        let n = profiles.len() - 1;
        let prefix = spec_run_targets(profiles.drop_last(), cats.drop_last(), blocked.drop_last(), only);
        if selected(only, profiles[n].name@) && !blocked[n] {
            prefix.push(spec_filtered_target(profiles[n]@, cats[n]))
        } else {
            prefix
        }
    }
}

/// Some profile passes `only`.
pub open spec fn any_selected(profiles: Seq<EmulatorProfile>, only: Option<Seq<char>>) -> bool {
    exists|i: int| 0 <= i < profiles.len() && selected(only, #[trigger] profiles[i].name@)
}

pub open spec fn opt_view(only: Option<&str>) -> Option<Seq<char>> {
    match only {
        Some(n) => Some(n@),
        None => None,
    }
}

/// The plan of a run. Without a Drive connection the run is refused. When no
/// profile passes `only` there is nothing to sync (`Ok(None)`). Otherwise the
/// targets are those of the selected profiles without a pending conflict.
pub fn plan_run(
    connected: bool,
    profiles: &Vec<EmulatorProfile>,
    cats: &Vec<SyncCategories>,
    blocked: &Vec<bool>,
    only: Option<&str>,
) -> (r: AppResult<Option<Vec<SyncTarget>>>)
    requires
        cats.len() == profiles.len(),
        blocked.len() == profiles.len(),
    ensures
        !connected ==> r matches Err(AppError::Auth(_)),
        connected && !any_selected(profiles@, opt_view(only)) ==> r == Ok::<Option<Vec<SyncTarget>>, AppError>(None),
        connected && any_selected(profiles@, opt_view(only)) ==> (r matches Ok(Some(v)) && v@.map_values(
            |t: SyncTarget| t@,
        ) == spec_run_targets(profiles@, cats@, blocked@, opt_view(only))),
{
    if !connected {
        return Err(AppError::Auth("não conectado ao Google Drive — sync ignorado".to_string()));
    }
    let ghost onlyv = opt_view(only);
    let mut r: Vec<SyncTarget> = Vec::new();
    let mut any = false;
    let mut i: usize = 0;
    while i < profiles.len()
        invariant
            cats.len() == profiles.len(),
            blocked.len() == profiles.len(),
            i <= profiles.len(),
            onlyv == opt_view(only),
            any == any_selected(profiles@.subrange(0, i as int), onlyv),
            r@.map_values(|t: SyncTarget| t@) == spec_run_targets(
                profiles@.subrange(0, i as int),
                cats@.subrange(0, i as int),
                blocked@.subrange(0, i as int),
                onlyv,
            ),
        decreases profiles.len() - i,
    {
        let take = match only {
            Some(n) => str_eq(n, profiles[i].name.as_str()),
            None => true,
        };
        proof {
            let ps = profiles@.subrange(0, i + 1);
            assert(ps.drop_last() =~= profiles@.subrange(0, i as int));
            assert(cats@.subrange(0, i + 1).drop_last() =~= cats@.subrange(0, i as int));
            assert(blocked@.subrange(0, i + 1).drop_last() =~= blocked@.subrange(0, i as int));
            assert(ps[i as int] == profiles@[i as int]);
            assert(cats@.subrange(0, i + 1)[i as int] == cats@[i as int]);
            assert(blocked@.subrange(0, i + 1)[i as int] == blocked@[i as int]);
            if take {
                assert(selected(onlyv, ps[i as int].name@));
            }
            if any_selected(ps, onlyv) && !take {
                let j = choose|j: int| 0 <= j < ps.len() && selected(onlyv, #[trigger] ps[j].name@);
                assert(profiles@.subrange(0, i as int)[j] == ps[j]);
            }
            if any {
                let j = choose|j: int|
                    0 <= j < i && selected(onlyv, #[trigger] profiles@.subrange(0, i as int)[j].name@);
                assert(ps[j] == profiles@.subrange(0, i as int)[j]);
            }
        }
        let ghost before = r@;
        if take && !blocked[i] {
            let t = target_for(&profiles[i], cats[i]);
            r.push(t);
            assert(r@.map_values(|t: SyncTarget| t@) =~= before.map_values(|t: SyncTarget| t@).push(t@));
        }
        any = any || take;
        i = i + 1;
    }
    assert(profiles@.subrange(0, i as int) =~= profiles@);
    assert(cats@.subrange(0, i as int) =~= cats@);
    assert(blocked@.subrange(0, i as int) =~= blocked@);
    if any {
        Ok(Some(r))
    } else {
        Ok(None)
    }
}

/// Every target of a run is that of a selected profile without a pending
/// conflict: an emulator blocked by a conflict is never synced.
pub proof fn lemma_blocked_never_synced(
    profiles: Seq<EmulatorProfile>,
    cats: Seq<SyncCategories>,
    blocked: Seq<bool>,
    only: Option<Seq<char>>,
    k: int,
)
    requires
        cats.len() == profiles.len(),
        blocked.len() == profiles.len(),
        0 <= k < spec_run_targets(profiles, cats, blocked, only).len(),
    ensures
        exists|i: int|
            0 <= i < profiles.len() && !blocked[i] && selected(only, profiles[i].name@)
                && spec_run_targets(profiles, cats, blocked, only)[k] == spec_filtered_target(
                #[trigger] profiles[i]@,
                cats[i],
            ),
    decreases profiles.len(),
{
    let n = profiles.len() - 1;
    let prefix = spec_run_targets(profiles.drop_last(), cats.drop_last(), blocked.drop_last(), only);
    if k < prefix.len() {
        lemma_blocked_never_synced(profiles.drop_last(), cats.drop_last(), blocked.drop_last(), only, k);
        let i = choose|i: int|
            0 <= i < profiles.drop_last().len() && !blocked.drop_last()[i] && selected(
                only,
                profiles.drop_last()[i].name@,
            ) && prefix[k] == spec_filtered_target(#[trigger] profiles.drop_last()[i]@, cats.drop_last()[i]);
        assert(profiles[i] == profiles.drop_last()[i]);
        assert(spec_run_targets(profiles, cats, blocked, only)[k] == prefix[k]);
    } else {
        assert(spec_run_targets(profiles, cats, blocked, only)[k] == spec_filtered_target(
            profiles[n]@,
            cats[n],
        ));
    }
}

/// The counters of `a + b` fit in `u32`.
pub fn merge_fits(a: &SyncSummary, b: &SyncSummary) -> (r: bool)
    ensures
        r == can_merge(*a, *b),
{
    a.uploaded <= u32::MAX - b.uploaded && a.downloaded <= u32::MAX - b.downloaded && a.skipped <= u32::MAX
        - b.skipped && a.failed <= u32::MAX - b.failed && a.queued <= u32::MAX - b.queued && a.backed_up
        <= u32::MAX - b.backed_up && a.conflicts <= u32::MAX - b.conflicts
}

/// Whether the result of one emulator can enter the run summary without
/// overflowing a counter.
pub open spec fn spec_after_target_fits(s: SyncSummary, r: Result<SyncSummary, AppError>) -> bool {
    match r {
        Ok(p) => can_merge(s, p),
        Err(_) => s.failed < u32::MAX,
    }
}

/// The run summary after one emulator: its summary merged in when it synced,
/// one more failure when it failed.
pub open spec fn spec_after_target(s: SyncSummary, r: Result<SyncSummary, AppError>) -> SyncSummary {
    match r {
        Ok(p) => spec_merge(s, p),
        Err(_) => SyncSummary { failed: (s.failed + 1) as u32, ..s },
    }
}

pub fn after_target_fits(s: &SyncSummary, r: &Result<SyncSummary, AppError>) -> (b: bool)
    ensures
        b == spec_after_target_fits(*s, *r),
{
    match r {
        Ok(p) => merge_fits(s, p),
        Err(_) => s.failed < u32::MAX,
    }
}

/// The run summary after one emulator: its summary merged in when it synced,
/// one more failure when it failed.
pub fn after_target(s: SyncSummary, r: &Result<SyncSummary, AppError>) -> (t: SyncSummary)
    requires
        spec_after_target_fits(s, *r),
    ensures
        t == spec_after_target(s, *r),
{
    let mut t = s;
    match r {
        Ok(p) => t.merge(p),
        Err(_) => t.failed = t.failed + 1,
    }
    t
}

/// The bytes of all operations of a plan.
pub open spec fn spec_plan_bytes(plan: Seq<PlannedOp>) -> int
    decreases plan.len(),
{
    if plan.len() == 0 {
        0
    } else {
        spec_plan_bytes(plan.drop_last()) + spec_op_bytes(plan.last())
    }
}

/// The bytes of all operations of a plan, `None` when they do not fit in `u64`.
pub fn plan_bytes(plan: &Vec<PlannedOp>) -> (r: Option<u64>)
    ensures
        spec_plan_bytes(plan@) <= u64::MAX ==> r == Some(spec_plan_bytes(plan@) as u64),
        spec_plan_bytes(plan@) > u64::MAX ==> r is None,
{
    let mut total: u64 = 0;
    let mut i: usize = 0;
    while i < plan.len()
        invariant
            i <= plan.len(),
            total == spec_plan_bytes(plan@.subrange(0, i as int)),
        decreases plan.len() - i,
    {
        proof {
            assert(plan@.subrange(0, i + 1).drop_last() =~= plan@.subrange(0, i as int));
            assert(plan@.subrange(0, i + 1).last() == plan@[i as int]);
        }
        let b = op_bytes(&plan[i]);
        if b > u64::MAX - total {
            proof {
                lemma_plan_bytes_grows(plan@, i as int + 1);
            }
            return None;
        }
        total = total + b;
        i = i + 1;
    }
    assert(plan@.subrange(0, i as int) =~= plan@);
    Some(total)
}

/// The bytes of a prefix of a plan are at most those of the plan.
proof fn lemma_plan_bytes_grows(plan: Seq<PlannedOp>, k: int)
    requires
        0 <= k <= plan.len(),
    ensures
        spec_plan_bytes(plan.subrange(0, k)) <= spec_plan_bytes(plan),
    decreases plan.len() - k,
{
    if k < plan.len() {
        lemma_plan_bytes_grows(plan, k + 1);
        assert(plan.subrange(0, k + 1).drop_last() =~= plan.subrange(0, k));
    } else {
        assert(plan.subrange(0, k) =~= plan);
    }
}

/// What to do with a chunk of a batch upload.
#[derive(Debug, Clone, Copy, PartialEq, Eq, Structural)]
pub enum BatchStep {
    /// Every file of the chunk was uploaded: record each one.
    RecordAll,
    /// The batch failed or answered for a different number of files: send
    /// the chunk's files one by one.
    FallBack,
}

/// The step after sending a chunk of `chunk_len` files in one batch, given
/// how many files the Drive reports uploaded (or the batch's error).
pub fn batch_chunk_step(chunk_len: usize, uploaded: &Result<usize, AppError>) -> (r: BatchStep)
    ensures
        r == (if uploaded matches Ok(n) && n == chunk_len {
            BatchStep::RecordAll
        } else {
            BatchStep::FallBack
        }),
{
    match uploaded {
        Ok(n) => if *n == chunk_len {
            BatchStep::RecordAll
        } else {
            BatchStep::FallBack
        },
        Err(_) => BatchStep::FallBack,
    }
}

/// The outcome of a file uploaded in a batch, given whether recording it in
/// the manifest succeeded: recorded, it counts as uploaded (and its pending
/// entries are cleared); otherwise it counts as failed.
pub fn batch_item_outcome(recorded: &Result<(), AppError>) -> (r: OpOutcome)
    ensures
        recorded is Ok ==> r == OpOutcome::Uploaded,
        recorded is Err ==> r == OpOutcome::Failed,
{
    match recorded {
        Ok(()) => OpOutcome::Uploaded,
        Err(_) => OpOutcome::Failed,
    }
}

/// Where the sync of a category stands.
#[derive(Debug, Clone, Copy, PartialEq, Eq, Structural)]
pub enum CategoryStage {
    /// Nothing done yet.
    Start,
    /// Waiting for the category folder in the Drive.
    Resolving,
    /// Waiting for the listing of the folder.
    Listing,
    /// The cached folder id was stale: waiting for the folder again.
    Reresolving,
    /// Waiting for the listing of the folder found again.
    Relisting,
    /// Waiting for the local scan, the manifest and the plan.
    Planning,
    /// Waiting for the Drive folders the uploads need.
    PreparingDirs,
    /// Waiting for the outcomes of the planned operations.
    Transferring,
    /// The category is synced (or had nothing to sync).
    Done,
    /// The category failed; its error was handed back.
    Failed,
}

/// The sync of a category: its stage, the emulator's summary so far, and the
/// progress of the plan (operations and bytes).
#[derive(Debug, Clone, PartialEq, Eq, Structural)]
pub struct CategoryState {
    pub stage: CategoryStage,
    pub summary: SyncSummary,
    pub total: u32,
    pub completed: u32,
    pub bytes_total: u64,
    pub bytes_done: u64,
}

/// What came of the last action.
#[derive(Debug)]
pub enum CategoryEvent {
    /// The category is taken up; `has_bases` tells whether it has local folders.
    Begin { has_bases: bool },
    /// The category folder was resolved in the Drive (or not).
    Folder(Result<(), AppError>),
    /// The folder was listed (or not).
    Listed(Result<(), AppError>),
    /// The plan was built: its operations, its skipped files and its bytes.
    Planned(Result<(u32, u32, u64), AppError>),
    /// The Drive folders the uploads need exist (or could not be made).
    DirsReady(Result<(), AppError>),
    /// One planned operation ended, having moved `bytes`.
    OpDone { outcome: OpOutcome, bytes: u64 },
}

/// What the shell does next.
#[derive(Debug, Clone)]
pub enum CategoryAction {
    /// Resolve the category folder in the Drive.
    ResolveFolder,
    /// List the folder's tree.
    ListFolder,
    /// Forget the cached folder path and resolve the folder again.
    InvalidateAndResolve,
    /// Scan the local folders, read the manifest and build the plan.
    Plan,
    /// Make the Drive folders the uploads need.
    PrepareDirs,
    /// Carry out the planned operations.
    Transfer,
    /// Report the progress after one operation.
    Progress { completed: u32, total: u32, bytes_done: u64, bytes_total: u64 },
    /// The category is finished.
    Finish,
    /// Abort the emulator's sync with this error.
    Fail(AppError),
    /// The event does not belong to the stage: nothing to do.
    Ignore,
}

/// A category about to be synced, starting from the emulator's summary so far.
pub open spec fn spec_begin_category(summary: SyncSummary) -> CategoryState {
    CategoryState {
        stage: CategoryStage::Start,
        summary,
        total: 0,
        completed: 0,
        bytes_total: 0,
        bytes_done: 0,
    }
}

pub fn begin_category(summary: SyncSummary) -> (r: CategoryState)
    ensures
        r == spec_begin_category(summary),
{
    CategoryState {
        stage: CategoryStage::Start,
        summary,
        total: 0,
        completed: 0,
        bytes_total: 0,
        bytes_done: 0,
    }
}

/// The progress counters agree with the stage.
pub open spec fn category_wf(s: CategoryState) -> bool {
    &&& s.completed <= s.total
    &&& s.stage == CategoryStage::PreparingDirs || s.stage == CategoryStage::Transferring ==> s.completed
        < s.total
}

/// The step can be taken without overflowing a counter.
pub open spec fn spec_step_fits(s: CategoryState, e: CategoryEvent) -> bool {
    &&& category_wf(s)
    &&& match e {
        CategoryEvent::Planned(Ok((_ops, skipped, _bytes))) => s.stage == CategoryStage::Planning
            ==> s.summary.skipped + skipped <= u32::MAX,
        CategoryEvent::OpDone { outcome, bytes } => s.stage == CategoryStage::Transferring
            ==> spec_outcome_fits(s.summary, outcome) && s.bytes_done + bytes <= u64::MAX,
        _ => true,
    }
}

/// One step of a category's sync. The folder is resolved, then listed; when
/// the listing says the folder no longer exists, the cached path is forgotten
/// and the folder resolved and listed once more, and a second failure ends
/// the category. Every other error ends it at once. An empty plan finishes the
/// category; otherwise the skipped files are counted, the upload folders
/// made, and each operation's outcome counted and reported as progress, the
/// category finishing with the last one.
pub open spec fn spec_category_step(s: CategoryState, e: CategoryEvent) -> (CategoryState, CategoryAction) {
    let ignore = (s, CategoryAction::Ignore);
    match e {
        CategoryEvent::Begin { has_bases } => if s.stage == CategoryStage::Start {
            if has_bases {
                (CategoryState { stage: CategoryStage::Resolving, ..s }, CategoryAction::ResolveFolder)
            } else {
                (CategoryState { stage: CategoryStage::Done, ..s }, CategoryAction::Finish)
            }
        } else {
            ignore
        },
        CategoryEvent::Folder(res) => if s.stage == CategoryStage::Resolving || s.stage
            == CategoryStage::Reresolving {
            match res {
                Ok(_) => (
                    CategoryState {
                        stage: if s.stage == CategoryStage::Resolving {
                            CategoryStage::Listing
                        } else {
                            CategoryStage::Relisting
                        },
                        ..s
                    },
                    CategoryAction::ListFolder,
                ),
                Err(err) => (CategoryState { stage: CategoryStage::Failed, ..s }, CategoryAction::Fail(err)),
            }
        } else {
            ignore
        },
        CategoryEvent::Listed(res) => if s.stage == CategoryStage::Listing || s.stage
            == CategoryStage::Relisting {
            match res {
                Ok(_) => (CategoryState { stage: CategoryStage::Planning, ..s }, CategoryAction::Plan),
                Err(err) => if s.stage == CategoryStage::Listing && err is DriveObjectNotFound {
                    (
                        CategoryState { stage: CategoryStage::Reresolving, ..s },
                        CategoryAction::InvalidateAndResolve,
                    )
                } else {
                    (CategoryState { stage: CategoryStage::Failed, ..s }, CategoryAction::Fail(err))
                },
            }
        } else {
            ignore
        },
        CategoryEvent::Planned(res) => if s.stage == CategoryStage::Planning {
            match res {
                Ok((ops, skipped, bytes)) => {
                    let summary = SyncSummary { skipped: (s.summary.skipped + skipped) as u32, ..s.summary };
                    if ops == 0 {
                        (CategoryState { stage: CategoryStage::Done, summary, ..s }, CategoryAction::Finish)
                    } else {
                        (
                            CategoryState {
                                stage: CategoryStage::PreparingDirs,
                                summary,
                                total: ops,
                                completed: 0,
                                bytes_total: bytes,
                                bytes_done: 0,
                            },
                            CategoryAction::PrepareDirs,
                        )
                    }
                },
                Err(err) => (CategoryState { stage: CategoryStage::Failed, ..s }, CategoryAction::Fail(err)),
            }
        } else {
            ignore
        },
        CategoryEvent::DirsReady(res) => if s.stage == CategoryStage::PreparingDirs {
            match res {
                Ok(_) => (CategoryState { stage: CategoryStage::Transferring, ..s }, CategoryAction::Transfer),
                Err(err) => (CategoryState { stage: CategoryStage::Failed, ..s }, CategoryAction::Fail(err)),
            }
        } else {
            ignore
        },
        CategoryEvent::OpDone { outcome, bytes } => if s.stage == CategoryStage::Transferring {
            let completed = (s.completed + 1) as u32;
            let bytes_done = (s.bytes_done + bytes) as u64;
            (
                CategoryState {
                    stage: if completed == s.total {
                        CategoryStage::Done
                    } else {
                        CategoryStage::Transferring
                    },
                    summary: spec_count_outcome(s.summary, outcome),
                    completed,
                    bytes_done,
                    ..s
                },
                CategoryAction::Progress { completed, total: s.total, bytes_done, bytes_total: s.bytes_total },
            )
        } else {
            ignore
        },
    }
}

/// Whether [`category_step`] can take `event` without overflowing a counter.
pub fn step_fits(state: &CategoryState, event: &CategoryEvent) -> (r: bool)
    ensures
        r == spec_step_fits(*state, *event),
{
    if state.completed > state.total {
        return false;
    }
    if (state.stage == CategoryStage::PreparingDirs || state.stage == CategoryStage::Transferring)
        && state.completed == state.total {
        return false;
    }
    match event {
        CategoryEvent::Planned(Ok((_ops, skipped, _bytes))) => state.stage != CategoryStage::Planning
            || state.summary.skipped <= u32::MAX - *skipped,
        CategoryEvent::OpDone { outcome, bytes } => state.stage != CategoryStage::Transferring || (
        outcome_fits(&state.summary, *outcome) && state.bytes_done <= u64::MAX - *bytes),
        _ => true,
    }
}

/// A step that fits keeps the progress counters consistent.
proof fn lemma_step_wf(s: CategoryState, e: CategoryEvent)
    requires
        spec_step_fits(s, e),
    ensures
        category_wf(spec_category_step(s, e).0),
{
}

/// One step of a category's sync: see [`spec_category_step`].
pub fn category_step(state: CategoryState, event: CategoryEvent) -> (r: (CategoryState, CategoryAction))
    requires
        spec_step_fits(state, event),
    ensures
        r == spec_category_step(state, event),
        category_wf(r.0),
{
    proof {
        lemma_step_wf(state, event);
    }
    let stage = state.stage;
    match event {
        CategoryEvent::Begin { has_bases } => {
            if stage == CategoryStage::Start {
                if has_bases {
                    (CategoryState { stage: CategoryStage::Resolving, ..state }, CategoryAction::ResolveFolder)
                } else {
                    (CategoryState { stage: CategoryStage::Done, ..state }, CategoryAction::Finish)
                }
            } else {
                (state, CategoryAction::Ignore)
            }
        },
        CategoryEvent::Folder(res) => {
            if stage == CategoryStage::Resolving || stage == CategoryStage::Reresolving {
                match res {
                    Ok(_) => {
                        let next = if stage == CategoryStage::Resolving {
                            CategoryStage::Listing
                        } else {
                            CategoryStage::Relisting
                        };
                        (CategoryState { stage: next, ..state }, CategoryAction::ListFolder)
                    },
                    Err(err) => (CategoryState { stage: CategoryStage::Failed, ..state }, CategoryAction::Fail(err)),
                }
            } else {
                (state, CategoryAction::Ignore)
            }
        },
        CategoryEvent::Listed(res) => {
            if stage == CategoryStage::Listing || stage == CategoryStage::Relisting {
                match res {
                    Ok(_) => (CategoryState { stage: CategoryStage::Planning, ..state }, CategoryAction::Plan),
                    Err(err) => {
                        let stale = match &err {
                            AppError::DriveObjectNotFound(_) => true,
                            _ => false,
                        };
                        if stage == CategoryStage::Listing && stale {
                            (
                                CategoryState { stage: CategoryStage::Reresolving, ..state },
                                CategoryAction::InvalidateAndResolve,
                            )
                        } else {
                            (CategoryState { stage: CategoryStage::Failed, ..state }, CategoryAction::Fail(err))
                        }
                    },
                }
            } else {
                (state, CategoryAction::Ignore)
            }
        },
        CategoryEvent::Planned(res) => {
            if stage == CategoryStage::Planning {
                match res {
                    Ok((ops, skipped, bytes)) => {
                        let summary = SyncSummary { skipped: state.summary.skipped + skipped, ..state.summary };
                        if ops == 0 {
                            (CategoryState { stage: CategoryStage::Done, summary, ..state }, CategoryAction::Finish)
                        } else {
                            (
                                CategoryState {
                                    stage: CategoryStage::PreparingDirs,
                                    summary,
                                    total: ops,
                                    completed: 0,
                                    bytes_total: bytes,
                                    bytes_done: 0,
                                },
                                CategoryAction::PrepareDirs,
                            )
                        }
                    },
                    Err(err) => (CategoryState { stage: CategoryStage::Failed, ..state }, CategoryAction::Fail(err)),
                }
            } else {
                (state, CategoryAction::Ignore)
            }
        },
        CategoryEvent::DirsReady(res) => {
            if stage == CategoryStage::PreparingDirs {
                match res {
                    Ok(_) => (CategoryState { stage: CategoryStage::Transferring, ..state }, CategoryAction::Transfer),
                    Err(err) => (CategoryState { stage: CategoryStage::Failed, ..state }, CategoryAction::Fail(err)),
                }
            } else {
                (state, CategoryAction::Ignore)
            }
        },
        CategoryEvent::OpDone { outcome, bytes } => {
            if stage == CategoryStage::Transferring {
                let completed = state.completed + 1;
                let bytes_done = state.bytes_done + bytes;
                let total = state.total;
                let bytes_total = state.bytes_total;
                let mut summary = state.summary;
                summary.count_outcome(outcome);
                let next = if completed == total {
                    CategoryStage::Done
                } else {
                    CategoryStage::Transferring
                };
                (
                    CategoryState { stage: next, summary, total, completed, bytes_total, bytes_done },
                    CategoryAction::Progress { completed, total, bytes_done, bytes_total },
                )
            } else {
                (state, CategoryAction::Ignore)
            }
        },
    }
}

/// The operations counted in a summary: each planned operation ends as
/// exactly one of these.
pub open spec fn done_count(s: SyncSummary) -> int {
    s.uploaded + s.downloaded + s.conflicts + s.queued + s.failed
}

/// The state after taking `events` in order.
pub open spec fn spec_run_category(s: CategoryState, events: Seq<CategoryEvent>) -> CategoryState
    decreases events.len(),
{
    if events.len() == 0 {
        s
    } else {
        spec_run_category(spec_category_step(s, events[0]).0, events.drop_first())
    }
}

/// Every step of `events`, taken in order from `s`, fits.
pub open spec fn all_steps_fit(s: CategoryState, events: Seq<CategoryEvent>) -> bool
    decreases events.len(),
{
    events.len() == 0 || (spec_step_fits(s, events[0]) && all_steps_fit(
        spec_category_step(s, events[0]).0,
        events.drop_first(),
    ))
}

/// While transferring, the outcomes of the remaining operations finish the
/// category, each counted once: the counted operations grow by their number,
/// the skipped files do not change.
pub proof fn lemma_outcomes_counted_once(s: CategoryState, events: Seq<CategoryEvent>)
    requires
        s.stage == CategoryStage::Transferring,
        category_wf(s),
        events.len() == s.total - s.completed,
        forall|i: int| 0 <= i < events.len() ==> #[trigger] events[i] is OpDone,
        all_steps_fit(s, events),
    ensures
        spec_run_category(s, events).stage == CategoryStage::Done,
        spec_run_category(s, events).completed == s.total,
        spec_run_category(s, events).total == s.total,
        done_count(spec_run_category(s, events).summary) == done_count(s.summary) + events.len(),
        spec_run_category(s, events).summary.skipped == s.summary.skipped,
    decreases events.len(),
{
    let e = events[0];
    assert(e is OpDone);
    let s1 = spec_category_step(s, e).0;
    let rest = events.drop_first();
    assert(spec_step_fits(s, e));
    assert(all_steps_fit(s1, rest));
    lemma_step_wf(s, e);
    assert(spec_run_category(s, events) == spec_run_category(s1, rest));
    if events.len() == 1 {
        assert(spec_run_category(s1, rest) == s1);
    } else {
        assert forall|i: int| 0 <= i < rest.len() implies #[trigger] rest[i] is OpDone by {
            assert(rest[i] == events[i + 1]);
        }
        lemma_outcomes_counted_once(s1, rest);
    }
}

/// A category with a plan of `ops` operations (`ops > 0`) and `skipped`
/// unchanged files, once its upload folders exist and every operation has
/// ended, is finished with each operation counted exactly once and the
/// skipped files added.
pub proof fn lemma_plan_counted_once(s: CategoryState, ops: u32, skipped: u32, bytes: u64, outcomes: Seq<CategoryEvent>)
    requires
        s.stage == CategoryStage::Planning,
        category_wf(s),
        ops > 0,
        outcomes.len() == ops,
        forall|i: int| 0 <= i < outcomes.len() ==> #[trigger] outcomes[i] is OpDone,
        all_steps_fit(
            s,
            seq![CategoryEvent::Planned(Ok((ops, skipped, bytes))), CategoryEvent::DirsReady(Ok(()))] + outcomes,
        ),
    ensures
        ({
            let f = spec_run_category(
                s,
                seq![CategoryEvent::Planned(Ok((ops, skipped, bytes))), CategoryEvent::DirsReady(Ok(()))]
                    + outcomes,
            );
            &&& f.stage == CategoryStage::Done
            &&& f.completed == ops
            &&& done_count(f.summary) == done_count(s.summary) + ops
            &&& f.summary.skipped == s.summary.skipped + skipped
        }),
{
    let events = seq![CategoryEvent::Planned(Ok((ops, skipped, bytes))), CategoryEvent::DirsReady(Ok(()))]
        + outcomes;
    let s1 = spec_category_step(s, events[0]).0;
    let e1 = events.drop_first();
    let s2 = spec_category_step(s1, e1[0]).0;
    let e2 = e1.drop_first();
    assert(e2 =~= outcomes);
    assert(events[0] == CategoryEvent::Planned(Ok((ops, skipped, bytes))));
    assert(e1[0] == CategoryEvent::DirsReady(Ok(())));
    assert(all_steps_fit(s1, e1));
    assert(all_steps_fit(s2, e2));
    lemma_step_wf(s, events[0]);
    lemma_step_wf(s1, e1[0]);
    assert(spec_run_category(s, events) == spec_run_category(s1, e1));
    assert(spec_run_category(s1, e1) == spec_run_category(s2, e2));
    lemma_outcomes_counted_once(s2, e2);
}

/// A folder id that went stale is recovered from once: the listing that finds
/// the folder gone leads to forgetting the cached path and resolving again;
/// the second listing's failure, whatever it is, fails the category.
pub proof fn lemma_stale_folder_retried_once(s: CategoryState, detail: String, err: AppError)
    requires
        s.stage == CategoryStage::Listing,
    ensures
        ({
            let (s1, a1) = spec_category_step(s, CategoryEvent::Listed(Err(AppError::DriveObjectNotFound(detail))));
            let (s2, a2) = spec_category_step(s1, CategoryEvent::Folder(Ok(())));
            let (s3, a3) = spec_category_step(s2, CategoryEvent::Listed(Err(err)));
            &&& a1 == CategoryAction::InvalidateAndResolve
            &&& a2 == CategoryAction::ListFolder
            &&& s3.stage == CategoryStage::Failed
            &&& a3 == CategoryAction::Fail(err)
        }),
{
}

} // verus!
