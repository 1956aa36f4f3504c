//! Decisions of the sync engine: which targets a run covers, what the outcome
//! of each operation means for the summary and the offline queue, which Drive
//! folders uploads need, and when to notify. The orchestration itself (Drive
//! calls, local file I/O, events) runs outside and asks these functions.
use vstd::prelude::*;
use crate::constants::DRIVE_ROOT_FOLDER;
use crate::drive::SIMPLE_UPLOAD_MAX_BYTES;
use crate::emulator::EmulatorProfile;
use crate::error::AppError;
use crate::storage::emulators::SyncCategories;
use crate::storage::queue::OpDirection;
use crate::storage::settings::NotificationLevel;
use crate::storage::manifest::{spec_synced_pair, ManifestEntry};
use crate::sync::conflict::{spec_decide, SyncAction};
use crate::sync::diff::PlannedOp;
use crate::sync::{spec_category_str, spec_target_of, SyncCategory, SyncDirection, SyncTarget, SyncTargetView};
use crate::text::{
    chars_of, insert_sorted_str, is_last_index, join_path, join_rel, rfind_char, str_eq,
    strictly_sorted, substring, views,
};

verus! {

/// Aggregated result of a sync.
#[derive(Debug, Clone, PartialEq, Eq, Structural)]
pub struct SyncSummary {
    pub uploaded: u32,
    pub downloaded: u32,
    pub skipped: u32,
    pub failed: u32,
    pub queued: u32,
    /// Local files copied to a backup before being overwritten on a first sync.
    pub backed_up: u32,
    /// Conflicts detected in this sync (both sides changed).
    pub conflicts: u32,
    pub duration_ms: u64,
}

impl Default for SyncSummary {
    fn default() -> (r: Self)
        ensures
            r == (SyncSummary {
                uploaded: 0,
                downloaded: 0,
                skipped: 0,
                failed: 0,
                queued: 0,
                backed_up: 0,
                conflicts: 0,
                duration_ms: 0,
            }),
    {
        SyncSummary {
            uploaded: 0,
            downloaded: 0,
            skipped: 0,
            failed: 0,
            queued: 0,
            backed_up: 0,
            conflicts: 0,
            duration_ms: 0,
        }
    }
}

/// The counters of `a` and `b` fit in `u32` when added.
pub open spec fn can_merge(a: SyncSummary, b: SyncSummary) -> bool {
    &&& a.uploaded + b.uploaded <= u32::MAX
    &&& a.downloaded + b.downloaded <= u32::MAX
    &&& a.skipped + b.skipped <= u32::MAX
    &&& a.failed + b.failed <= u32::MAX
    &&& a.queued + b.queued <= u32::MAX
    &&& a.backed_up + b.backed_up <= u32::MAX
    &&& a.conflicts + b.conflicts <= u32::MAX
}

/// `a` with the counters of `b` added; the duration of `a` is kept.
pub open spec fn spec_merge(a: SyncSummary, b: SyncSummary) -> SyncSummary {
    SyncSummary {
        uploaded: (a.uploaded + b.uploaded) as u32,
        downloaded: (a.downloaded + b.downloaded) as u32,
        skipped: (a.skipped + b.skipped) as u32,
        failed: (a.failed + b.failed) as u32,
        queued: (a.queued + b.queued) as u32,
        backed_up: (a.backed_up + b.backed_up) as u32,
        conflicts: (a.conflicts + b.conflicts) as u32,
        duration_ms: a.duration_ms,
    }
}

impl SyncSummary {
    /// Adds the counters of `other` to this summary.
    pub fn merge(&mut self, other: &SyncSummary)
        requires
            can_merge(*old(self), *other),
        ensures
            *final(self) == spec_merge(*old(self), *other),
    {
        self.uploaded = self.uploaded + other.uploaded;
        self.downloaded = self.downloaded + other.downloaded;
        self.skipped = self.skipped + other.skipped;
        self.failed = self.failed + other.failed;
        self.queued = self.queued + other.queued;
        self.backed_up = self.backed_up + other.backed_up;
        self.conflicts = self.conflicts + other.conflicts;
    }
}

/// Merging summaries in either order gives the same counters.
pub proof fn lemma_merge_commutes(a: SyncSummary, b: SyncSummary)
    requires
        can_merge(a, b),
    ensures
        spec_merge(a, b) == (SyncSummary { duration_ms: a.duration_ms, ..spec_merge(b, a) }),
{
}

/// Merging an empty summary changes nothing.
pub proof fn lemma_merge_empty(a: SyncSummary)
    ensures
        spec_merge(
            a,
            SyncSummary {
                uploaded: 0,
                downloaded: 0,
                skipped: 0,
                failed: 0,
                queued: 0,
                backed_up: 0,
                conflicts: 0,
                duration_ms: 0,
            },
        ) == a,
{
}

/// What came of one planned operation.
#[derive(Debug, Clone, Copy, PartialEq, Eq, Structural)]
pub enum OpOutcome {
    Uploaded,
    Downloaded,
    /// A download that also made a local backup (first sync).
    DownloadedWithBackup,
    /// A conflict was recorded; nothing was transferred.
    Conflicted,
    /// A retryable failure, recorded in the offline queue.
    Queued,
    Failed,
}

pub open spec fn spec_outcome(action: SyncAction, result: Result<(), AppError>) -> OpOutcome {
    match result {
        Ok(()) => match action {
            SyncAction::Conflict => OpOutcome::Conflicted,
            SyncAction::Upload => OpOutcome::Uploaded,
            SyncAction::DownloadWithBackup => OpOutcome::DownloadedWithBackup,
            _ => OpOutcome::Downloaded,
        },
        Err(e) => if e is Network || e is FileBusy {
            OpOutcome::Queued
        } else {
            OpOutcome::Failed
        },
    }
}

/// The outcome of an operation from its action and how it ended: network
/// failures and busy files go to the offline queue, other failures count as
/// failed.
pub fn op_outcome(action: SyncAction, result: &Result<(), AppError>) -> (r: OpOutcome)
    ensures
        r == spec_outcome(action, *result),
{
    match result {
        Ok(()) => match action {
            SyncAction::Conflict => OpOutcome::Conflicted,
            SyncAction::Upload => OpOutcome::Uploaded,
            SyncAction::DownloadWithBackup => OpOutcome::DownloadedWithBackup,
            _ => OpOutcome::Downloaded,
        },
        Err(e) => if e.is_retryable() {
            OpOutcome::Queued
        } else {
            OpOutcome::Failed
        },
    }
}

/// After an operation, whether the file's pending entries are cleared: only a
/// successful transfer clears them (a conflict keeps the emulator blocked).
pub fn clears_pending(action: SyncAction, succeeded: bool) -> (r: bool)
    ensures
        r == (succeeded && action != SyncAction::Conflict),
{
    succeeded && action != SyncAction::Conflict
}

/// Direction recorded in the offline queue for a failed operation.
pub fn queue_direction(action: SyncAction) -> (r: OpDirection)
    ensures
        r == (if action == SyncAction::Upload {
            OpDirection::Upload
        } else {
            OpDirection::Download
        }),
{
    match action {
        SyncAction::Upload => OpDirection::Upload,
        _ => OpDirection::Download,
    }
}

/// Room in the counters that `o` increments.
pub open spec fn spec_outcome_fits(s: SyncSummary, o: OpOutcome) -> bool {
    match o {
        OpOutcome::Uploaded => s.uploaded < u32::MAX,
        OpOutcome::Downloaded => s.downloaded < u32::MAX,
        OpOutcome::DownloadedWithBackup => s.downloaded < u32::MAX && s.backed_up < u32::MAX,
        OpOutcome::Conflicted => s.conflicts < u32::MAX,
        OpOutcome::Queued => s.queued < u32::MAX,
        OpOutcome::Failed => s.failed < u32::MAX,
    }
}

/// Room in the counters that `o` increments.
pub fn outcome_fits(s: &SyncSummary, o: OpOutcome) -> (r: bool)
    ensures
        r == spec_outcome_fits(*s, o),
{
    match o {
        OpOutcome::Uploaded => s.uploaded < u32::MAX,
        OpOutcome::Downloaded => s.downloaded < u32::MAX,
        OpOutcome::DownloadedWithBackup => s.downloaded < u32::MAX && s.backed_up < u32::MAX,
        OpOutcome::Conflicted => s.conflicts < u32::MAX,
        OpOutcome::Queued => s.queued < u32::MAX,
        OpOutcome::Failed => s.failed < u32::MAX,
    }
}

pub open spec fn spec_count_outcome(s: SyncSummary, o: OpOutcome) -> SyncSummary {
    match o {
        OpOutcome::Uploaded => SyncSummary { uploaded: (s.uploaded + 1) as u32, ..s },
        OpOutcome::Downloaded => SyncSummary { downloaded: (s.downloaded + 1) as u32, ..s },
        OpOutcome::DownloadedWithBackup => SyncSummary {
            downloaded: (s.downloaded + 1) as u32,
            backed_up: (s.backed_up + 1) as u32,
            ..s
        },
        OpOutcome::Conflicted => SyncSummary { conflicts: (s.conflicts + 1) as u32, ..s },
        OpOutcome::Queued => SyncSummary { queued: (s.queued + 1) as u32, ..s },
        OpOutcome::Failed => SyncSummary { failed: (s.failed + 1) as u32, ..s },
    }
}

impl SyncSummary {
    /// Counts one outcome.
    pub fn count_outcome(&mut self, outcome: OpOutcome)
        requires
            spec_outcome_fits(*old(self), outcome),
        ensures
            *final(self) == spec_count_outcome(*old(self), outcome),
    {
        match outcome {
            OpOutcome::Uploaded => self.uploaded = self.uploaded + 1,
            OpOutcome::Downloaded => self.downloaded = self.downloaded + 1,
            OpOutcome::DownloadedWithBackup => {
                self.downloaded = self.downloaded + 1;
                self.backed_up = self.backed_up + 1;
            },
            OpOutcome::Conflicted => self.conflicts = self.conflicts + 1,
            OpOutcome::Queued => self.queued = self.queued + 1,
            OpOutcome::Failed => self.failed = self.failed + 1,
        }
    }
}

/// Notify "sync completed" only when something was transferred, so automatic
/// syncs that did nothing do not repeat the notification.
pub fn should_notify_completed(level: NotificationLevel, summary: &SyncSummary) -> (r: bool)
    ensures
        r == (level == NotificationLevel::All && summary.uploaded + summary.downloaded > 0),
{
    level.notifies_info() && (summary.uploaded > 0 || summary.downloaded > 0)
}

/// The value of a string of decimal digits.
pub open spec fn decimal_value(s: Seq<char>) -> int
    decreases s.len(),
{
    if s.len() == 0 {
        0
    } else {
        decimal_value(s.drop_last()) * 10 + (s.last() as int - '0' as int)
    }
}

/// The digits part of an unsigned number's text: without a leading `+`.
pub open spec fn unsigned_digits(s: Seq<char>) -> Seq<char> {
    if s.len() > 0 && s[0] == '+' {
        s.drop_first()
    } else {
        s
    }
}

/// Every character is an ASCII digit.
pub open spec fn all_digits(d: Seq<char>) -> bool {
    forall|k: int| 0 <= k < d.len() ==> '0' <= #[trigger] d[k] <= '9'
}

/// What `u64::from_str` gives: an optional `+` followed by decimal digits
/// only, whose value fits.
pub open spec fn spec_parse_u64(s: Seq<char>) -> Option<u64> {
    let digits = unsigned_digits(s);
    if digits.len() > 0 && all_digits(digits) && decimal_value(digits) <= u64::MAX {
        Some(decimal_value(digits) as u64)
    } else {
        None
    }
}

proof fn lemma_decimal_prefix(s: Seq<char>, k: int)
    requires
        0 <= k <= s.len(),
        forall|j: int| 0 <= j < s.len() ==> '0' <= #[trigger] s[j] <= '9',
    ensures
        0 <= decimal_value(s.subrange(0, k)) <= decimal_value(s),
    decreases s.len(),
{
    if k == s.len() {
        assert(s.subrange(0, k) =~= s);
        if s.len() > 0 {
            lemma_decimal_prefix(s.drop_last(), 0);
        }
    } else {
        let t = s.drop_last();
        assert(t.subrange(0, k) =~= s.subrange(0, k));
        lemma_decimal_prefix(t, k);
    }
}

/// `u64::from_str` (`str::parse::<u64>`): an optional `+` followed by decimal
/// digits only, whose value fits.
pub fn parse_u64(s: &str) -> (r: Option<u64>)
    ensures
        r == spec_parse_u64(s@),
{
    let v = chars_of(s);
    let n = v.len();
    let start: usize = if n > 0 && v[0] == '+' { 1 } else { 0 };
    let ghost digits = s@.subrange(start as int, n as int);
    proof {
        if n > 0 && s@[0] == '+' {
            assert(digits =~= s@.drop_first());
        } else {
            assert(digits =~= s@);
        }
        assert(digits == unsigned_digits(s@));
    }
    if start == n {
        return None;
    }
    let mut acc: u64 = 0;
    let mut i: usize = start;
    assert(digits.subrange(0, 0) =~= Seq::<char>::empty());
    while i < n
        invariant
            start <= i <= n,
            n == v.len(),
            v@ == s@,
            digits == s@.subrange(start as int, n as int),
            digits == unsigned_digits(s@),
            digits.len() > 0,
            forall|j: int| 0 <= j < i - start ==> '0' <= #[trigger] digits[j] <= '9',
            acc == decimal_value(digits.subrange(0, i - start)),
        decreases n - i,
    {
        let c = v[i];
        assert(digits[i - start] == c);
        if !('0' <= c && c <= '9') {
            assert(!all_digits(digits)) by {
                assert(!('0' <= digits[i - start] <= '9'));
            }
            return None;
        }
        let d: u64 = (c as u32 - '0' as u32) as u64;
        proof {
            let pre = digits.subrange(0, i - start + 1);
            assert(pre.drop_last() =~= digits.subrange(0, i - start));
            assert(pre.last() == c);
        }
        let next = match acc.checked_mul(10) {
            Some(t) => t.checked_add(d),
            None => None,
        };
        match next {
            Some(x) => {
                acc = x;
            },
            None => {
                proof {
                    let pre = digits.subrange(0, i - start + 1);
                    assert(decimal_value(pre) > u64::MAX);
                    if all_digits(digits) {
                        lemma_decimal_prefix(digits, i - start + 1);
                    }
                }
                return None;
            },
        }
        i = i + 1;
    }
    assert(digits.subrange(0, n - start) =~= digits);
    Some(acc)
}

pub open spec fn spec_op_bytes(op: PlannedOp) -> u64 {
    match op.action {
        SyncAction::Upload => match op.local {
            Some(l) => if l.size_bytes > 0 {
                l.size_bytes as u64
            } else {
                0
            },
            None => 0,
        },
        SyncAction::Download | SyncAction::DownloadWithBackup => match op.remote {
            Some(r) => match r.size {
                Some(s) => match spec_parse_u64(s@) {
                    Some(n) => n,
                    None => 0,
                },
                None => 0,
            },
            None => 0,
        },
        _ => 0,
    }
}

/// Bytes the operation will transfer: the local size for uploads, the remote
/// size for downloads; conflicts and no-ops transfer nothing.
pub fn op_bytes(op: &PlannedOp) -> (r: u64)
    ensures
        r == spec_op_bytes(*op),
{
    match op.action {
        SyncAction::Upload => match &op.local {
            Some(l) => if l.size_bytes > 0 {
                l.size_bytes as u64
            } else {
                0
            },
            None => 0,
        },
        SyncAction::Download | SyncAction::DownloadWithBackup => match &op.remote {
            Some(r) => match &r.size {
                Some(s) => match parse_u64(s.as_str()) {
                    Some(n) => n,
                    None => 0,
                },
                None => 0,
            },
            None => 0,
        },
        _ => 0,
    }
}

/// Eligible for a batch: the upload of a file that does not exist in the Drive
/// yet and is small enough for a multipart upload.
pub open spec fn spec_batchable(op: PlannedOp) -> bool {
    op.action == SyncAction::Upload && op.remote is None && op.local is Some
        && op.local->0.size_bytes <= SIMPLE_UPLOAD_MAX_BYTES
}

/// Eligible for a batch: the upload of a file that does not exist in the Drive
/// yet and is small enough for a multipart upload.
pub fn is_batchable(op: &PlannedOp) -> (r: bool)
    ensures
        r == (op.action == SyncAction::Upload && op.remote is None && op.local is Some
            && op.local->0.size_bytes <= SIMPLE_UPLOAD_MAX_BYTES),
{
    op.action == SyncAction::Upload && op.remote.is_none() && match &op.local {
        Some(l) => l.size_bytes <= SIMPLE_UPLOAD_MAX_BYTES as i64,
        None => false,
    }
}

/// Directory part and file name of a relative path, split at its last `/`:
/// `"a/b/c.bin"` gives `(Some("a/b"), "c.bin")`, `"c.bin"` gives `(None, "c.bin")`.
pub open spec fn spec_split_rel_path(p: Seq<char>) -> (Option<Seq<char>>, Seq<char>) {
    if exists|i: int| is_last_index(p, '/', i) {
        let i = choose|i: int| is_last_index(p, '/', i);
        (Some(p.subrange(0, i)), p.subrange(i + 1, p.len() as int))
    } else {
        (None, p)
    }
}

pub fn split_rel_path(rel_path: &str) -> (r: (Option<String>, String))
    ensures
        r.1@ == spec_split_rel_path(rel_path@).1,
        match r.0 {
            Some(d) => spec_split_rel_path(rel_path@).0 == Some(d@),
            None => spec_split_rel_path(rel_path@).0 is None,
        },
{
    let v = chars_of(rel_path);
    match rfind_char(&v, '/') {
        Some(i) => {
            assert(i < v.len());
            proof {
                let j = choose|j: int| is_last_index(rel_path@, '/', j);
                assert(i as int == j);
            }
            (Some(substring(rel_path, 0, i)), substring(rel_path, i + 1, v.len()))
        },
        None => {
            proof {
                assert(!exists|i: int| is_last_index(rel_path@, '/', i));
                assert(rel_path@.subrange(0, rel_path@.len() as int) =~= rel_path@);
            }
            (None, substring(rel_path, 0, v.len()))
        },
    }
}

/// The directories (relative to the category) that uploads of the plan need
/// in the Drive.
pub open spec fn upload_dir_of(plan: Seq<PlannedOp>, q: Seq<char>) -> bool {
    exists|i: int|
        0 <= i < plan.len() && (#[trigger] plan[i]).action == SyncAction::Upload
            && spec_split_rel_path(plan[i].rel_path@).0 == Some(q)
}

/// The directory an operation's upload needs, if any.
pub open spec fn upload_dir_need(op: PlannedOp) -> Option<Seq<char>> {
    if op.action == SyncAction::Upload {
        spec_split_rel_path(op.rel_path@).0
    } else {
        None
    }
}

/// The directories needed by the first `i + 1` operations are those needed
/// by the first `i` and the one the next operation needs.
proof fn lemma_upload_dirs_step(plan: Seq<PlannedOp>, i: int, q: Seq<char>)
    requires
        0 <= i < plan.len(),
    ensures
        upload_dir_of(plan.subrange(0, i + 1), q) <==> (upload_dir_of(plan.subrange(0, i), q)
            || upload_dir_need(plan[i]) == Some(q)),
{
    let next = plan.subrange(0, i + 1);
    let prev = plan.subrange(0, i);
    if upload_dir_of(next, q) {
        let k = choose|k: int|
            0 <= k < i + 1 && (#[trigger] next[k]).action == SyncAction::Upload && spec_split_rel_path(
                next[k].rel_path@,
            ).0 == Some(q);
        if k < i {
            assert(prev[k] == next[k]);
        }
    }
    if upload_dir_of(prev, q) {
        let k = choose|k: int|
            0 <= k < i && (#[trigger] prev[k]).action == SyncAction::Upload && spec_split_rel_path(
                prev[k].rel_path@,
            ).0 == Some(q);
        assert(next[k] == prev[k]);
    }
    if upload_dir_need(plan[i]) == Some(q) {
        assert(next[i] == plan[i]);
    }
}

/// Directories that must exist in the Drive for the uploads of the plan,
/// unique and sorted, so parents are created before children and each once.
pub fn upload_dirs(plan: &Vec<PlannedOp>) -> (r: Vec<String>)
    ensures
        strictly_sorted(views(r@)),
        forall|q: Seq<char>| views(r@).contains(q) <==> upload_dir_of(plan@, q),
{
    let mut dirs: Vec<String> = Vec::new();
    let mut i: usize = 0;
    while i < plan.len()
        invariant
            i <= plan.len(),
            strictly_sorted(views(dirs@)),
            forall|q: Seq<char>| views(dirs@).contains(q) <==> upload_dir_of(plan@.subrange(0, i as int), q),
        decreases plan.len() - i,
    {
        let ghost before = views(dirs@);
        let mut need: Option<String> = None;
        if plan[i].action == SyncAction::Upload {
            let (dir, _name) = split_rel_path(plan[i].rel_path.as_str());
            need = dir;
        }
        let ghost need_v: Option<Seq<char>> = match &need {
            Some(d) => Some(d@),
            None => None,
        };
        assert(need_v == upload_dir_need(plan@[i as int]));
        match need {
            Some(d) => insert_sorted_str(&mut dirs, d),
            None => {},
        }
        assert forall|q: Seq<char>| views(dirs@).contains(q) <==> upload_dir_of(plan@.subrange(0, i + 1), q) by {
            lemma_upload_dirs_step(plan@, i as int, q);
            assert(views(dirs@).contains(q) <==> (before.contains(q) || need_v == Some(q)));
        }
        i = i + 1;
    }
    assert(plan@.subrange(0, i as int) =~= plan@);
    dirs
}

/// Cache key of a category folder in the Drive: `RetroSync/<label>/<category>`.
pub fn category_folder_key(label: &str, category: SyncCategory) -> (r: String)
    ensures
        r@ == join_rel(join_rel(DRIVE_ROOT_FOLDER@, label@), spec_category_str(category)),
{
    let emulator_key = join_path(DRIVE_ROOT_FOLDER, label);
    join_path(emulator_key.as_str(), category.as_str())
}

/// A read is usable only if the file's mtime did not change while it was
/// read; otherwise the file is busy (being written) and the operation is
/// retried later.
pub fn check_stable_read(rel_path: &str, mtime_before: i64, mtime_after: i64) -> (r: Result<(), AppError>)
    ensures
        mtime_before == mtime_after ==> r is Ok,
        mtime_before != mtime_after ==> (r matches Err(AppError::FileBusy(p)) && p@ == rel_path@),
{
    if mtime_before != mtime_after {
        return Err(AppError::FileBusy(rel_path.to_owned()));
    }
    Ok(())
}

/// Whether a category is enabled in the emulator's settings.
pub open spec fn category_enabled(cats: SyncCategories, c: SyncCategory) -> bool {
    match c {
        SyncCategory::Saves => cats.saves,
        SyncCategory::Savestates => cats.savestates,
        SyncCategory::Config => cats.config,
    }
}

/// The target of a profile keeping only the categories the user enabled.
pub open spec fn spec_filtered_target(p: crate::emulator::EmulatorProfileView, cats: SyncCategories) -> SyncTargetView {
    let t = spec_target_of(p);
    SyncTargetView {
        categories: t.categories.filter(|c: (SyncCategory, Seq<Seq<char>>)| category_enabled(cats, c.0)),
        ..t
    }
}

/// The sync target of a profile, without the categories the user disabled.
pub fn target_for(profile: &EmulatorProfile, cats: SyncCategories) -> (r: SyncTarget)
    ensures
        r@ == spec_filtered_target(profile@, cats),
{
    let full = SyncTarget::from_profile(profile);
    let ghost fv = full@.categories;
    let ghost pred = |c: (SyncCategory, Seq<Seq<char>>)| category_enabled(cats, c.0);
    let mut categories: Vec<(SyncCategory, Vec<String>)> = Vec::new();
    let SyncTarget { label, root, categories: all } = full;
    let mut all = all;
    let n = all.len();
    assert(fv.subrange(0, 0).filter(pred) =~= Seq::<(SyncCategory, Seq<Seq<char>>)>::empty());
    let mut i: usize = 0;
    while i < n
        invariant
            n == fv.len(),
            i <= n,
            pred == (|c: (SyncCategory, Seq<Seq<char>>)| category_enabled(cats, c.0)),
            all.len() == n - i,
            all@.map_values(|c: (SyncCategory, Vec<String>)| (c.0, views(c.1@))) == fv.subrange(i as int, n as int),
            categories@.map_values(|c: (SyncCategory, Vec<String>)| (c.0, views(c.1@))) == fv.subrange(0, i as int).filter(pred),
        decreases n - i,
    {
        let ghost a0 = all@;
        let c = all.remove(0);
        proof {
            assert(a0.map_values(|c: (SyncCategory, Vec<String>)| (c.0, views(c.1@)))[0] == (a0[0].0, views(a0[0].1@)));
            assert(fv.subrange(i as int, n as int)[0] == fv[i as int]);
            assert(fv.subrange(0, i + 1) =~= fv.subrange(0, i as int).push(fv[i as int]));
            fv.subrange(0, i as int).lemma_filter_push(fv[i as int], pred);
            assert((c.0, views(c.1@)) == fv[i as int]);
        }
        let enabled = match c.0 {
            SyncCategory::Saves => cats.saves,
            SyncCategory::Savestates => cats.savestates,
            SyncCategory::Config => cats.config,
        };
        let ghost before = categories@;
        if enabled {
            categories.push(c);
            assert(categories@.map_values(|c: (SyncCategory, Vec<String>)| (c.0, views(c.1@))) =~= before.map_values(|c: (SyncCategory, Vec<String>)| (c.0, views(c.1@))).push(fv[i as int]));
        }
        proof {
            assert(all@ == a0.subrange(1, a0.len() as int));
            assert forall|k: int| 0 <= k < all@.len() implies
                (#[trigger] all@[k]).0 == fv[i + 1 + k].0 && views(all@[k].1@) == fv[i + 1 + k].1 by {
                assert(all@[k] == a0[k + 1]);
                assert(a0.map_values(|c: (SyncCategory, Vec<String>)| (c.0, views(c.1@)))[k + 1]
                    == fv.subrange(i as int, n as int)[k + 1]);
            }
            assert(all@.map_values(|c: (SyncCategory, Vec<String>)| (c.0, views(c.1@))) =~= fv.subrange(i + 1, n as int));
        }
        i = i + 1;
    }
    assert(fv.subrange(0, n as int) =~= fv);
    SyncTarget { label, root, categories }
}

/// `only` names no emulator, or names this one.
pub open spec fn selected(only: Option<Seq<char>>, name: Seq<char>) -> bool {
    match only {
        Some(n) => n == name,
        None => true,
    }
}

/// The targets of the profiles that `only` selects, in order, each with the
/// categories enabled in `cats` (parallel to `profiles`).
pub open spec fn spec_selected_targets(
    profiles: Seq<EmulatorProfile>,
    cats: Seq<SyncCategories>,
    only: Option<Seq<char>>,
) -> Seq<SyncTargetView>
    decreases profiles.len(),
{
    if profiles.len() == 0 {
        Seq::empty()
    } else {
        let prefix = spec_selected_targets(profiles.drop_last(), cats.drop_last(), only);
        if selected(only, profiles.last().name@) {
            prefix.push(spec_filtered_target(profiles.last()@, cats[profiles.len() - 1]))
        } else {
            prefix
        }
    }
}

/// The targets of a run: the profiles that `only` selects (all when `None`),
/// each with the categories enabled in `cats` (parallel to `profiles`).
pub fn select_targets(profiles: &Vec<EmulatorProfile>, cats: &Vec<SyncCategories>, only: Option<&str>) -> (r: Vec<SyncTarget>)
    requires
        cats.len() == profiles.len(),
    ensures
        r@.map_values(|t: SyncTarget| t@) == spec_selected_targets(
            profiles@,
            cats@,
            match only {
                Some(n) => Some(n@),
                None => None,
            },
        ),
{
    let ghost onlyv = match only {
        Some(n) => Some(n@),
        None => None,
    };
    let mut r: Vec<SyncTarget> = Vec::new();
    let mut i: usize = 0;
    while i < profiles.len()
        invariant
            cats.len() == profiles.len(),
            i <= profiles.len(),
            onlyv == (match only {
                Some(n) => Some(n@),
                None => None,
            }),
            r@.map_values(|t: SyncTarget| t@) == spec_selected_targets(
                profiles@.subrange(0, i as int),
                cats@.subrange(0, i as int),
                onlyv,
            ),
        decreases profiles.len() - i,
    {
        let take = match only {
            Some(n) => str_eq(n, profiles[i].name.as_str()),
            None => true,
        };
        proof {
            let ps = profiles@.subrange(0, i + 1);
            assert(ps.drop_last() =~= profiles@.subrange(0, i as int));
            assert(cats@.subrange(0, i + 1).drop_last() =~= cats@.subrange(0, i as int));
            assert(ps.last() == profiles@[i as int]);
            assert(cats@.subrange(0, i + 1)[ps.len() - 1] == cats@[i as int]);
        }
        let ghost before = r@;
        if take {
            let t = target_for(&profiles[i], cats[i]);
            r.push(t);
            assert(r@.map_values(|t: SyncTarget| t@) =~= before.map_values(|t: SyncTarget| t@).push(t@));
        }
        i = i + 1;
    }
    assert(profiles@.subrange(0, i as int) =~= profiles@);
    assert(cats@.subrange(0, i as int) =~= cats@);
    r
}


/// Payload of the `sync:started` event.
#[derive(Debug, Clone)]
pub struct SyncStarted {
    pub trigger: String,
    pub direction: SyncDirection,
}

/// Payload of the `sync:error` event.
#[derive(Debug, Clone)]
pub struct SyncError {
    pub emulator: Option<String>,
    pub message: String,
}

/// The last completed sync, shown by the front end.
#[derive(Debug, Clone)]
pub struct LastSync {
    pub at_ms: i64,
    pub trigger: String,
    pub summary: SyncSummary,
}

/// The user's choice when resolving a conflict.
#[derive(Debug, Clone, Copy, PartialEq, Eq, Structural)]
pub enum ConflictResolution {
    /// Keep the local version and send it to the Drive.
    Local,
    /// Keep the Drive version and download it (backing up the local one).
    Drive,
}

/// The event announcing a run.
pub fn sync_started(trigger: &str, direction: SyncDirection) -> (r: SyncStarted)
    ensures
        r.trigger@ == trigger@,
        r.direction == direction,
{
    SyncStarted { trigger: trigger.to_owned(), direction }
}

/// The event reporting that the sync of `emulator` failed with `err`.
pub fn sync_error(emulator: &str, err: &AppError) -> (r: SyncError)
    ensures
        r.emulator matches Some(e) && e@ == emulator@,
        r.message@ == crate::error::spec_prefix(*err) + crate::error::spec_detail(*err),
{
    SyncError { emulator: Some(emulator.to_owned()), message: err.message() }
}

/// A failed emulator counts as one failure in the run's summary.
pub fn record_target_failure(summary: &mut SyncSummary)
    requires
        old(summary).failed < u32::MAX,
    ensures
        *final(summary) == (SyncSummary { failed: (old(summary).failed + 1) as u32, ..*old(summary) }),
{
    summary.failed = summary.failed + 1;
}

/// Recording a transfer leaves the local and Drive mtimes it wrote in the
/// manifest, so the next sync of the same, unchanged file decides nothing to do.
pub proof fn lemma_recorded_transfer_is_stable(e: ManifestEntry, local_mtime_ms: i64, drive_mtime_ms: i64)
    requires
        e.local_mtime_ms == Some(local_mtime_ms),
        e.drive_mtime_ms == Some(drive_mtime_ms),
    ensures
        spec_decide(Some(local_mtime_ms), Some(drive_mtime_ms), spec_synced_pair(e)) == SyncAction::NoOp,
{
}


/// Splits a plan into the operations eligible for a batch upload and the
/// others, each side in the plan's order; when fewer than `min_ops` are
/// eligible the batch is not worth it and every operation goes the per-file
/// way (the others first, then the eligible ones).
pub fn split_for_batch(plan: Vec<PlannedOp>, min_ops: usize) -> (r: (Vec<PlannedOp>, Vec<PlannedOp>))
    ensures
        ({
            let eligible = plan@.filter(|op: PlannedOp| spec_batchable(op));
            let others = plan@.filter(|op: PlannedOp| !spec_batchable(op));
            if eligible.len() < min_ops {
                r.0@ == Seq::<PlannedOp>::empty() && r.1@ == others + eligible
            } else {
                r.0@ == eligible && r.1@ == others
            }
        }),
        forall|i: int|
            0 <= i < r.0@.len() ==> {
                &&& (#[trigger] r.0@[i]).action == SyncAction::Upload
                &&& r.0@[i].remote is None
                &&& r.0@[i].local is Some
                &&& r.0@[i].local->0.size_bytes <= SIMPLE_UPLOAD_MAX_BYTES
            },
        forall|i: int| 0 <= i < plan@.len() && (#[trigger] plan@[i]).remote is Some ==> r.1@.contains(plan@[i]),
{
    let ghost all = plan@;
    let ghost yes = |op: PlannedOp| spec_batchable(op);
    let ghost no = |op: PlannedOp| !spec_batchable(op);
    let mut src = plan;
    let mut eligible: Vec<PlannedOp> = Vec::new();
    let mut rest: Vec<PlannedOp> = Vec::new();
    let mut i: usize = 0;
    let n = src.len();
    assert(all.subrange(0, 0).filter(yes) =~= Seq::<PlannedOp>::empty());
    assert(all.subrange(0, 0).filter(no) =~= Seq::<PlannedOp>::empty());
    assert(src@ =~= all.subrange(0, n as int));
    while i < n
        invariant
            n == all.len(),
            i <= n,
            src@ == all.subrange(i as int, n as int),
            yes == (|op: PlannedOp| spec_batchable(op)),
            no == (|op: PlannedOp| !spec_batchable(op)),
            eligible@ == all.subrange(0, i as int).filter(yes),
            rest@ == all.subrange(0, i as int).filter(no),
        decreases n - i,
    {
        let ghost s0 = src@;
        let op = src.remove(0);
        proof {
            assert(op == all[i as int]) by {
                assert(s0[0] == all[i as int]);
            }
            assert(src@ =~= all.subrange(i + 1, n as int));
            assert(all.subrange(0, i + 1) =~= all.subrange(0, i as int).push(all[i as int]));
            all.subrange(0, i as int).lemma_filter_push(all[i as int], yes);
            all.subrange(0, i as int).lemma_filter_push(all[i as int], no);
        }
        if is_batchable(&op) {
            eligible.push(op);
        } else {
            rest.push(op);
        }
        i = i + 1;
    }
    assert(all.subrange(0, n as int) =~= all);
    proof {
        broadcast use vstd::seq_lib::group_filter_ensures;
        let f = all.filter(yes);
        assert forall|i: int| 0 <= i < f.len() implies {
            &&& (#[trigger] f[i]).action == SyncAction::Upload
            &&& f[i].remote is None
            &&& f[i].local is Some
            &&& f[i].local->0.size_bytes <= SIMPLE_UPLOAD_MAX_BYTES
        } by {
            assert(yes(f[i]));
        }
        assert forall|i: int| 0 <= i < all.len() && (#[trigger] all[i]).remote is Some implies all.filter(
            no,
        ).contains(all[i]) by {
            all.lemma_filter_contains(no, i);
        }
    }
    if eligible.len() < min_ops {
        let ghost r0 = rest@;
        let ghost e0 = eligible@;
        rest.append(&mut eligible);
        assert(rest@ == r0 + e0);
        proof {
            assert forall|i: int| 0 <= i < all.len() && (#[trigger] all[i]).remote is Some implies rest@.contains(
                all[i],
            ) by {
                let j = choose|j: int| 0 <= j < r0.len() && r0[j] == all[i];
                assert(rest@[j] == all[i]);
            }
        }
        (Vec::new(), rest)
    } else {
        (eligible, rest)
    }
}

/// The ranges `[start, end)` that cut `n` items into consecutive chunks of at
/// most `max_ops` items (the last one possibly shorter).
pub fn chunk_ranges(n: usize, max_ops: usize) -> (r: Vec<(usize, usize)>)
    requires
        max_ops > 0,
    ensures
        forall|k: int| 0 <= k < r@.len() ==> (#[trigger] r@[k]).0 == k * max_ops
            && r@[k].1 == if (k + 1) * max_ops <= n { (k + 1) * max_ops } else { n as int },
        forall|k: int| 0 <= k < r@.len() ==> (#[trigger] r@[k]).0 < r@[k].1,
        r@.len() == 0 ==> n == 0,
        r@.len() > 0 ==> r@.last().1 == n,
{
    let mut r: Vec<(usize, usize)> = Vec::new();
    let mut start: usize = 0;
    assert(r@.len() * max_ops == 0) by (nonlinear_arith)
        requires r@.len() == 0;
    while start < n
        invariant
            max_ops > 0,
            start <= n,
            start < n ==> start == r@.len() * max_ops,
            forall|k: int| 0 <= k < r@.len() ==> (#[trigger] r@[k]).0 == k * max_ops
                && r@[k].1 == if (k + 1) * max_ops <= n { (k + 1) * max_ops } else { n as int },
            forall|k: int| 0 <= k < r@.len() ==> (#[trigger] r@[k]).0 < r@[k].1,
            r@.len() == 0 ==> start == 0,
            r@.len() > 0 ==> r@.last().1 == start,
        decreases n - start,
    {
        let end: usize = if n - start > max_ops { start + max_ops } else { n };
        let ghost len0 = r@.len();
        proof {
            assert((len0 + 1) * max_ops == len0 * max_ops + max_ops) by (nonlinear_arith);
        }
        r.push((start, end));
        start = end;
    }
    r
}

} // verus!
