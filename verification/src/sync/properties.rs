//! What the engine's decisions guarantee, stated over their inputs and
//! results.
use vstd::prelude::*;
use crate::emulator::EmulatorProfileView;
use crate::storage::emulators::SyncCategories;
use crate::constants::DRIVE_MAX_RETRIES;
use crate::drive::client::retries_after_body;
use crate::drive::SIMPLE_UPLOAD_MAX_BYTES;
use crate::sync::conflict::SyncAction;
use crate::sync::diff::PlannedOp;
use crate::sync::engine::{
    category_enabled, spec_batchable, spec_count_outcome, spec_filtered_target, spec_outcome_fits, OpOutcome,
    SyncSummary,
};
use crate::sync::{spec_target_of, SyncCategory};

verus! {

/// `x` alone when `on`, nothing otherwise.
pub open spec fn when_on<T>(on: bool, x: T) -> Seq<T> {
    if on {
        seq![x]
    } else {
        Seq::empty()
    }
}

/// Filtering three items keeps each one whose predicate holds, in order.
proof fn lemma_filter_three<T>(a: T, b: T, c: T, pred: spec_fn(T) -> bool)
    ensures
        seq![a, b, c].filter(pred) == when_on(pred(a), a) + when_on(pred(b), b) + when_on(pred(c), c),
{
    let e = Seq::<T>::empty();
    let t1 = e.push(a);
    let t2 = t1.push(b);
    let t3 = t2.push(c);
    assert(seq![a, b, c] =~= t3);
    assert(e.filter(pred) =~= e) by {
        reveal(Seq::filter);
    }
    e.lemma_filter_push(a, pred);
    t1.lemma_filter_push(b, pred);
    t2.lemma_filter_push(c, pred);
    assert(t1.filter(pred) =~= when_on(pred(a), a));
    assert(t2.filter(pred) =~= when_on(pred(a), a) + when_on(pred(b), b));
    assert(t3.filter(pred) =~= when_on(pred(a), a) + when_on(pred(b), b) + when_on(pred(c), c));
}

/// A run's target for a profile keeps the profile's label and root and, in
/// the order saves, savestates, config, exactly the categories whose own flag
/// is on, each with the profile's folders of that category.
pub proof fn lemma_target_categories_follow_flags(p: EmulatorProfileView, cats: SyncCategories)
    ensures
        spec_filtered_target(p, cats).label == p.name,
        spec_filtered_target(p, cats).root == p.root_path,
        spec_filtered_target(p, cats).categories == when_on(cats.saves, (SyncCategory::Saves, p.saves_paths))
            + when_on(cats.savestates, (SyncCategory::Savestates, p.state_paths)) + when_on(
            cats.config,
            (SyncCategory::Config, p.config_paths),
        ),
{
    let a = (SyncCategory::Saves, p.saves_paths);
    let b = (SyncCategory::Savestates, p.state_paths);
    let c = (SyncCategory::Config, p.config_paths);
    lemma_filter_three(a, b, c, |x: (SyncCategory, Seq<Seq<char>>)| category_enabled(cats, x.0));
}

/// One when `b` holds, zero otherwise.
pub open spec fn one_if(b: bool) -> int {
    if b {
        1
    } else {
        0
    }
}

/// Counting an outcome raises by one exactly the counters named for it
/// (`Uploaded`: uploaded; `Downloaded`: downloaded; `DownloadedWithBackup`:
/// downloaded and backed up; `Conflicted`: conflicts; `Queued`: queued;
/// `Failed`: failed) and leaves every other field as it was.
pub proof fn lemma_count_outcome_counters(s: SyncSummary, o: OpOutcome)
    requires
        s.uploaded < u32::MAX,
        s.downloaded < u32::MAX,
        s.backed_up < u32::MAX,
        s.conflicts < u32::MAX,
        s.queued < u32::MAX,
        s.failed < u32::MAX,
    ensures
        spec_count_outcome(s, o).uploaded == s.uploaded + one_if(o == OpOutcome::Uploaded),
        spec_count_outcome(s, o).downloaded == s.downloaded + one_if(
            o == OpOutcome::Downloaded || o == OpOutcome::DownloadedWithBackup,
        ),
        spec_count_outcome(s, o).backed_up == s.backed_up + one_if(o == OpOutcome::DownloadedWithBackup),
        spec_count_outcome(s, o).conflicts == s.conflicts + one_if(o == OpOutcome::Conflicted),
        spec_count_outcome(s, o).queued == s.queued + one_if(o == OpOutcome::Queued),
        spec_count_outcome(s, o).failed == s.failed + one_if(o == OpOutcome::Failed),
        spec_count_outcome(s, o).skipped == s.skipped,
        spec_count_outcome(s, o).duration_ms == s.duration_ms,
{
}

/// An outcome can be counted exactly when each counter it raises is below
/// the `u32` limit; the other counters do not matter.
pub proof fn lemma_outcome_fits_counters(s: SyncSummary, o: OpOutcome)
    ensures
        spec_outcome_fits(s, o) <==> {
            &&& o == OpOutcome::Uploaded ==> s.uploaded < u32::MAX
            &&& (o == OpOutcome::Downloaded || o == OpOutcome::DownloadedWithBackup) ==> s.downloaded < u32::MAX
            &&& o == OpOutcome::DownloadedWithBackup ==> s.backed_up < u32::MAX
            &&& o == OpOutcome::Conflicted ==> s.conflicts < u32::MAX
            &&& o == OpOutcome::Queued ==> s.queued < u32::MAX
            &&& o == OpOutcome::Failed ==> s.failed < u32::MAX
        },
{
}

/// The Drive retry policy once a failed response's body is known: every
/// server error (5xx) and every 429 is retried while attempts remain; the
/// last attempt is never retried; other statuses below 500, except a 403
/// reporting a rate limit, are never retried, and neither is anything above 599.
pub proof fn lemma_retry_policy(attempt: u32, status: u16, body: Seq<char>)
    ensures
        500 <= status <= 599 && attempt < DRIVE_MAX_RETRIES ==> retries_after_body(attempt, status, body),
        status == 429 && attempt < DRIVE_MAX_RETRIES ==> retries_after_body(attempt, status, body),
        attempt >= DRIVE_MAX_RETRIES ==> !retries_after_body(attempt, status, body),
        status < 500 && status != 429 && status != 403 ==> !retries_after_body(attempt, status, body),
        status > 599 ==> !retries_after_body(attempt, status, body),
{
}

/// Only new small uploads are batched: an operation is among the batchable
/// ones of a plan exactly when it is in the plan, uploads, has no file in the
/// Drive yet, and has a local file of at most the multipart limit.
pub proof fn lemma_batch_only_new_small_uploads(plan: Seq<PlannedOp>, op: PlannedOp)
    ensures
        plan.filter(|o: PlannedOp| spec_batchable(o)).contains(op) <==> {
            &&& plan.contains(op)
            &&& op.action == SyncAction::Upload
            &&& op.remote is None
            &&& op.local is Some
            &&& op.local->0.size_bytes <= SIMPLE_UPLOAD_MAX_BYTES
        },
{
    broadcast use vstd::seq_lib::group_filter_ensures;
    let pred = |o: PlannedOp| spec_batchable(o);
    if plan.filter(pred).contains(op) {
        plan.lemma_filter_contains_rev(pred, op);
        let i = choose|i: int| 0 <= i < plan.filter(pred).len() && plan.filter(pred)[i] == op;
        assert(pred(plan.filter(pred)[i]));
    }
    if plan.contains(op) && pred(op) {
        let i = choose|i: int| 0 <= i < plan.len() && plan[i] == op;
        plan.lemma_filter_contains(pred, i);
    }
}

} // verus!
