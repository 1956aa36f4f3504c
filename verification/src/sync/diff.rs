//! The sync plan of one category: union of the local and Drive files, a
//! decision per file (`conflict::decide`) with the manifest's last synced
//! pair, then a filter by the direction of the sync.
use vstd::prelude::*;
use crate::drive::{DriveFile, RemoteFile};
use crate::storage::manifest::{spec_synced_pair, ManifestEntry};
use crate::sync::conflict::{decide, spec_decide, SyncAction};
use crate::sync::SyncDirection;
use crate::text::{
    chars_of, copy_chars, insert_sorted, kv, last_index_eq, last_with_key, lemma_last_with_key_at,
    lemma_last_with_key_none, lemma_last_with_key_some_iff, lemma_strictly_sorted_no_duplicates,
    lemma_lex_asymmetric, lemma_lex_irreflexive, lex_lt, strictly_sorted,
};

verus! {

/// A file found by the local scan.
#[derive(Debug)]
pub struct LocalFile {
    /// Relative to the category's base folder, always `/` separated.
    pub rel_path: String,
    pub abs_path: String,
    pub mtime_ms: i64,
    pub size_bytes: i64,
}

impl LocalFile {
    /// A copy equal to `self`.
    pub fn duplicate(&self) -> (r: Self)
        ensures
            r == *self,
    {
        LocalFile {
            rel_path: self.rel_path.clone(),
            abs_path: self.abs_path.clone(),
            mtime_ms: self.mtime_ms,
            size_bytes: self.size_bytes,
        }
    }
}

/// A planned operation (upload, download or conflict; no-ops are only counted).
#[derive(Debug)]
pub struct PlannedOp {
    pub rel_path: String,
    pub action: SyncAction,
    pub local: Option<LocalFile>,
    pub remote: Option<DriveFile>,
}

pub open spec fn local_key() -> spec_fn(LocalFile) -> Seq<char> {
    |f: LocalFile| f.rel_path@
}

pub open spec fn remote_key() -> spec_fn(RemoteFile) -> Seq<char> {
    |f: RemoteFile| f.rel_path@
}

pub open spec fn manifest_key() -> spec_fn(ManifestEntry) -> Seq<char> {
    |e: ManifestEntry| e.rel_path@
}

/// The local file at `p` (the last one listed, as a map built from the list keeps).
pub open spec fn local_at(local: Seq<LocalFile>, p: Seq<char>) -> Option<LocalFile> {
    last_with_key(local, local_key(), p)
}

/// The Drive file at `p` (the last one listed).
pub open spec fn remote_at(remote: Seq<RemoteFile>, p: Seq<char>) -> Option<DriveFile> {
    match last_with_key(remote, remote_key(), p) {
        Some(r) => Some(r.file),
        None => None,
    }
}

/// The pair recorded for `p` at its last sync (the last manifest entry listed).
pub open spec fn synced_at(manifest: Seq<ManifestEntry>, p: Seq<char>) -> Option<(i64, i64)> {
    match last_with_key(manifest, manifest_key(), p) {
        Some(e) => spec_synced_pair(e),
        None => None,
    }
}

/// `p` exists locally or in the Drive.
pub open spec fn in_plan_paths(local: Seq<LocalFile>, remote: Seq<RemoteFile>, p: Seq<char>) -> bool {
    local_at(local, p) is Some || remote_at(remote, p) is Some
}

/// Every path that exists locally or in the Drive.
pub open spec fn plan_paths(local: Seq<LocalFile>, remote: Seq<RemoteFile>) -> Set<Seq<char>> {
    Set::new(|p: Seq<char>| in_plan_paths(local, remote, p))
}

/// The decision for the file at `p`.
pub open spec fn planned_action(
    local: Seq<LocalFile>,
    remote: Seq<RemoteFile>,
    manifest: Seq<ManifestEntry>,
    p: Seq<char>,
) -> SyncAction {
    spec_decide(
        match local_at(local, p) {
            Some(f) => Some(f.mtime_ms),
            None => None,
        },
        match remote_at(remote, p) {
            Some(f) => f.modified_time_ms,
            None => None,
        },
        synced_at(manifest, p),
    )
}

/// Whether a decision is carried out in a sync of the given direction. A
/// conflict is recorded in every direction: nothing is ever overwritten
/// silently, not even in a one-way sync.
pub open spec fn spec_allowed(action: SyncAction, direction: SyncDirection) -> bool {
    match action {
        SyncAction::NoOp => false,
        SyncAction::Upload => direction != SyncDirection::DriveToLocal,
        SyncAction::Download | SyncAction::DownloadWithBackup => direction
            != SyncDirection::LocalToDrive,
        SyncAction::Conflict => true,
    }
}

pub fn allowed(action: SyncAction, direction: SyncDirection) -> (r: bool)
    ensures
        r == spec_allowed(action, direction),
{
    match action {
        SyncAction::NoOp => false,
        SyncAction::Upload => direction != SyncDirection::DriveToLocal,
        SyncAction::Download | SyncAction::DownloadWithBackup => direction
            != SyncDirection::LocalToDrive,
        SyncAction::Conflict => true,
    }
}

/// Each operation of `ops` is for an existing path, carries the decision for
/// that path, which the direction allows, and the files on both sides.
#[verifier::opaque]
pub open spec fn plan_ops_match(
    local: Seq<LocalFile>,
    remote: Seq<RemoteFile>,
    manifest: Seq<ManifestEntry>,
    direction: SyncDirection,
    ops: Seq<PlannedOp>,
) -> bool {
    forall|i: int|
        0 <= i < ops.len() ==> {
            let p = (#[trigger] ops[i]).rel_path@;
            &&& in_plan_paths(local, remote, p)
            &&& ops[i].action == planned_action(local, remote, manifest, p)
            &&& spec_allowed(ops[i].action, direction)
            &&& ops[i].local == local_at(local, p)
            &&& ops[i].remote == remote_at(remote, p)
        }
}

/// The paths of `ops` increase strictly.
#[verifier::opaque]
pub open spec fn plan_ops_ordered(ops: Seq<PlannedOp>) -> bool {
    forall|i: int, j: int|
        0 <= i < j < ops.len() ==> lex_lt(#[trigger] ops[i].rel_path@, #[trigger] ops[j].rel_path@)
}

/// Every existing path whose decision the direction allows has an operation.
#[verifier::opaque]
pub open spec fn plan_ops_cover(
    local: Seq<LocalFile>,
    remote: Seq<RemoteFile>,
    manifest: Seq<ManifestEntry>,
    direction: SyncDirection,
    ops: Seq<PlannedOp>,
) -> bool {
    forall|p: Seq<char>|
        in_plan_paths(local, remote, p) && spec_allowed(
            #[trigger] planned_action(local, remote, manifest, p),
            direction,
        ) ==> exists|i: int| 0 <= i < ops.len() && (#[trigger] ops[i]).rel_path@ == p
}

/// `ops` and `skipped` are the plan of the category: one operation per path
/// whose decision the direction allows, in increasing path order, each with
/// the files on both sides; `skipped` counts the other paths.
pub open spec fn is_plan(
    local: Seq<LocalFile>,
    remote: Seq<RemoteFile>,
    manifest: Seq<ManifestEntry>,
    direction: SyncDirection,
    ops: Seq<PlannedOp>,
    skipped: nat,
) -> bool {
    &&& plan_ops_match(local, remote, manifest, direction, ops)
    &&& plan_ops_ordered(ops)
    &&& plan_ops_cover(local, remote, manifest, direction, ops)
    &&& plan_paths(local, remote).finite()
    &&& ops.len() + skipped == plan_paths(local, remote).len()
}

/// Position in `keys` of the last key `p`, turned into the element it keys.
proof fn lemma_lookup<T>(s: Seq<T>, keys: Seq<Vec<char>>, key: spec_fn(T) -> Seq<char>, p: Seq<char>, r: Option<usize>)
    requires
        keys.len() == s.len(),
        forall|j: int| 0 <= j < s.len() ==> (#[trigger] keys[j])@ == key(s[j]),
        match r {
            Some(i) => i < keys.len() && keys[i as int]@ == p && forall|j: int|
                i < j < keys.len() ==> (#[trigger] keys[j])@ != p,
            None => forall|j: int| 0 <= j < keys.len() ==> (#[trigger] keys[j])@ != p,
        },
    ensures
        match r {
            Some(i) => last_with_key(s, key, p) == Some(s[i as int]),
            None => last_with_key(s, key, p) is None,
        },
{
    match r {
        Some(i) => {
            assert forall|j: int| i < j < s.len() implies key(#[trigger] s[j]) != p by {
                assert(keys[j]@ != p);
            }
            lemma_last_with_key_at(s, key, p, i as int);
        },
        None => {
            assert forall|j: int| 0 <= j < s.len() implies key(#[trigger] s[j]) != p by {
                assert(keys[j]@ != p);
            }
            lemma_last_with_key_none(s, key, p);
        },
    }
}

fn local_keys(local: &Vec<LocalFile>) -> (r: Vec<Vec<char>>)
    ensures
        r.len() == local.len(),
        forall|j: int| 0 <= j < local.len() ==> (#[trigger] r@[j])@ == local@[j].rel_path@,
{
    let mut r: Vec<Vec<char>> = Vec::new();
    let mut i: usize = 0;
    while i < local.len()
        invariant
            i <= local.len(),
            r.len() == i,
            forall|j: int| 0 <= j < i ==> (#[trigger] r@[j])@ == local@[j].rel_path@,
        decreases local.len() - i,
    {
        r.push(chars_of(local[i].rel_path.as_str()));
        i = i + 1;
    }
    r
}

fn remote_keys(remote: &Vec<RemoteFile>) -> (r: Vec<Vec<char>>)
    ensures
        r.len() == remote.len(),
        forall|j: int| 0 <= j < remote.len() ==> (#[trigger] r@[j])@ == remote@[j].rel_path@,
{
    let mut r: Vec<Vec<char>> = Vec::new();
    let mut i: usize = 0;
    while i < remote.len()
        invariant
            i <= remote.len(),
            r.len() == i,
            forall|j: int| 0 <= j < i ==> (#[trigger] r@[j])@ == remote@[j].rel_path@,
        decreases remote.len() - i,
    {
        r.push(chars_of(remote[i].rel_path.as_str()));
        i = i + 1;
    }
    r
}

fn manifest_keys(manifest: &Vec<ManifestEntry>) -> (r: Vec<Vec<char>>)
    ensures
        r.len() == manifest.len(),
        forall|j: int| 0 <= j < manifest.len() ==> (#[trigger] r@[j])@ == manifest@[j].rel_path@,
{
    let mut r: Vec<Vec<char>> = Vec::new();
    let mut i: usize = 0;
    while i < manifest.len()
        invariant
            i <= manifest.len(),
            r.len() == i,
            forall|j: int| 0 <= j < i ==> (#[trigger] r@[j])@ == manifest@[j].rel_path@,
        decreases manifest.len() - i,
    {
        r.push(chars_of(manifest[i].rel_path.as_str()));
        i = i + 1;
    }
    r
}

/// Adds every key of `ks` to the sorted set `all`.
fn insert_all(all: &mut Vec<Vec<char>>, ks: &Vec<Vec<char>>)
    requires
        strictly_sorted(kv(old(all)@)),
    ensures
        strictly_sorted(kv(final(all)@)),
        forall|q: Seq<char>| #[trigger] kv(final(all)@).contains(q) <==> (kv(old(all)@).contains(q)
            || exists|j: int| 0 <= j < ks.len() && (#[trigger] ks@[j])@ == q),
        final(all)@.len() <= old(all)@.len() + ks@.len(),
{
    let ghost start_len = all@.len();
    let ghost start = kv(all@);
    let mut i: usize = 0;
    while i < ks.len()
        invariant
            i <= ks.len(),
            strictly_sorted(kv(all@)),
            all@.len() <= start_len + i,
            forall|q: Seq<char>| #[trigger] kv(all@).contains(q) <==> (start.contains(q) || exists|j: int|
                0 <= j < i && (#[trigger] ks@[j])@ == q),
        decreases ks.len() - i,
    {
        let ghost before = kv(all@);
        insert_sorted(all, copy_chars(&ks[i]));
        proof {
            assert forall|q: Seq<char>| #[trigger] kv(all@).contains(q) <==> (start.contains(q) || exists|j: int|
                0 <= j < i + 1 && (#[trigger] ks@[j])@ == q) by {
                if kv(all@).contains(q) && !before.contains(q) {
                    assert(ks@[i as int]@ == q);
                }
                if exists|j: int| 0 <= j < i + 1 && (#[trigger] ks@[j])@ == q {
                    let j = choose|j: int| 0 <= j < i + 1 && (#[trigger] ks@[j])@ == q;
                    if j < i {
                        assert(before.contains(q));
                    }
                }
            }
        }
        i = i + 1;
    }
}

#[verifier::rlimit(40)]
/// Builds the plan of a category. Returns the active operations and the count
/// of files without change (`skipped`).
pub fn build_plan(
    local: Vec<LocalFile>,
    remote: Vec<RemoteFile>,
    manifest: Vec<ManifestEntry>,
    direction: SyncDirection,
) -> (res: (Vec<PlannedOp>, u32))
    requires
        local@.len() + remote@.len() <= u32::MAX,
    ensures
        is_plan(local@, remote@, manifest@, direction, res.0@, res.1 as nat),
{
    let lk = local_keys(&local);
    let rk = remote_keys(&remote);
    let mk = manifest_keys(&manifest);

    let mut all: Vec<Vec<char>> = Vec::new();
    assert(kv(all@) =~= Seq::<Seq<char>>::empty());
    insert_all(&mut all, &lk);
    insert_all(&mut all, &rk);
    let ghost allv = kv(all@);

    proof {
        assert forall|q: Seq<char>| allv.contains(q) <==> in_plan_paths(local@, remote@, q) by {
            lemma_last_with_key_some_iff(local@, local_key(), q);
            lemma_last_with_key_some_iff(remote@, remote_key(), q);
            if exists|j: int| 0 <= j < lk.len() && (#[trigger] lk@[j])@ == q {
                let j = choose|j: int| 0 <= j < lk.len() && (#[trigger] lk@[j])@ == q;
                assert(local_key()(local@[j]) == q);
            }
            if exists|j: int| 0 <= j < rk.len() && (#[trigger] rk@[j])@ == q {
                let j = choose|j: int| 0 <= j < rk.len() && (#[trigger] rk@[j])@ == q;
                assert(remote_key()(remote@[j]) == q);
            }
            if exists|j: int| 0 <= j < local@.len() && local_key()(#[trigger] local@[j]) == q {
                let j = choose|j: int| 0 <= j < local@.len() && local_key()(#[trigger] local@[j]) == q;
                assert(lk@[j]@ == q);
            }
            if exists|j: int| 0 <= j < remote@.len() && remote_key()(#[trigger] remote@[j]) == q {
                let j = choose|j: int| 0 <= j < remote@.len() && remote_key()(#[trigger] remote@[j]) == q;
                assert(rk@[j]@ == q);
            }
        }
    }

    let mut ops: Vec<PlannedOp> = Vec::new();
    let mut skipped: u32 = 0;
    let ghost mut idx: Seq<int> = Seq::empty();
    let mut k: usize = 0;
    while k < all.len()
        invariant
            allv == kv(all@),
            strictly_sorted(allv),
            forall|q: Seq<char>| allv.contains(q) <==> in_plan_paths(local@, remote@, q),
            all.len() <= local@.len() + remote@.len(),
            local@.len() + remote@.len() <= u32::MAX,
            lk.len() == local.len(),
            forall|j: int| 0 <= j < local.len() ==> (#[trigger] lk@[j])@ == local@[j].rel_path@,
            rk.len() == remote.len(),
            forall|j: int| 0 <= j < remote.len() ==> (#[trigger] rk@[j])@ == remote@[j].rel_path@,
            mk.len() == manifest.len(),
            forall|j: int| 0 <= j < manifest.len() ==> (#[trigger] mk@[j])@ == manifest@[j].rel_path@,
            k <= all.len(),
            ops.len() + skipped == k,
            idx.len() == ops.len(),
            forall|i: int| 0 <= i < idx.len() ==> 0 <= #[trigger] idx[i] < k,
            forall|i: int, j: int| 0 <= i < j < idx.len() ==> #[trigger] idx[i] < #[trigger] idx[j],
            forall|i: int|
                0 <= i < ops.len() ==> {
                    let p = (#[trigger] ops@[i]).rel_path@;
                    &&& p == allv[idx[i]]
                    &&& ops@[i].action == planned_action(local@, remote@, manifest@, p)
                    &&& spec_allowed(ops@[i].action, direction)
                    &&& ops@[i].local == local_at(local@, p)
                    &&& ops@[i].remote == remote_at(remote@, p)
                },
            forall|m: int|
                0 <= m < k && spec_allowed(planned_action(local@, remote@, manifest@, #[trigger] allv[m]), direction)
                    ==> exists|i: int| 0 <= i < idx.len() && idx[i] == m,
        decreases all.len() - k,
    {
        let ghost p = allv[k as int];
        let li = last_index_eq(&lk, &all[k]);
        let ri = last_index_eq(&rk, &all[k]);
        let mi = last_index_eq(&mk, &all[k]);
        proof {
            lemma_lookup(local@, lk@, local_key(), p, li);
            lemma_lookup(remote@, rk@, remote_key(), p, ri);
            lemma_lookup(manifest@, mk@, manifest_key(), p, mi);
            assert(allv.contains(p));
        }
        let local_mtime: Option<i64> = match li {
            Some(i) => Some(local[i].mtime_ms),
            None => None,
        };
        let remote_mtime: Option<i64> = match ri {
            Some(i) => remote[i].file.modified_ms(),
            None => None,
        };
        let last_synced: Option<(i64, i64)> = match mi {
            Some(i) => manifest[i].synced_pair(),
            None => None,
        };
        let action = decide(local_mtime, remote_mtime, last_synced);
        assert(action == planned_action(local@, remote@, manifest@, p));
        if allowed(action, direction) {
            let rel_path: String = match li {
                Some(i) => local[i].rel_path.clone(),
                None => match ri {
                    Some(i) => remote[i].rel_path.clone(),
                    None => {
                        assert(false);
                        String::new()
                    },
                },
            };
            let local_file: Option<LocalFile> = match li {
                Some(i) => Some(local[i].duplicate()),
                None => None,
            };
            let remote_file: Option<DriveFile> = match ri {
                Some(i) => Some(remote[i].file.duplicate()),
                None => None,
            };
            ops.push(PlannedOp { rel_path, action, local: local_file, remote: remote_file });
            proof {
                let old_idx = idx;
                idx = idx.push(k as int);
                assert forall|m: int|
                    0 <= m < k + 1 && spec_allowed(
                        planned_action(local@, remote@, manifest@, #[trigger] allv[m]),
                        direction,
                    ) implies exists|i: int| 0 <= i < idx.len() && idx[i] == m by {
                    if m < k {
                        let i = choose|i: int| 0 <= i < old_idx.len() && old_idx[i] == m;
                        assert(idx[i] == m);
                    } else {
                        assert(idx[idx.len() - 1] == m);
                    }
                }
            }
        } else {
            skipped = skipped + 1;
        }
        k = k + 1;
    }

    proof {
        lemma_strictly_sorted_no_duplicates(allv);
        allv.unique_seq_to_set();
        assert(plan_paths(local@, remote@) =~= allv.to_set());
        assert(plan_ops_cover(local@, remote@, manifest@, direction, ops@)) by {
            reveal(plan_ops_cover);
            assert forall|p: Seq<char>|
                in_plan_paths(local@, remote@, p) && spec_allowed(
                    #[trigger] planned_action(local@, remote@, manifest@, p),
                    direction,
                ) implies exists|i: int| 0 <= i < ops@.len() && (#[trigger] ops@[i]).rel_path@ == p by {
                assert(allv.contains(p));
                let m = choose|m: int| 0 <= m < allv.len() && allv[m] == p;
                let i = choose|i: int| 0 <= i < idx.len() && idx[i] == m;
                assert(ops@[i].rel_path@ == p);
            }
        }
        assert(plan_ops_ordered(ops@)) by {
            reveal(plan_ops_ordered);
            assert forall|i: int, j: int| 0 <= i < j < ops@.len() implies lex_lt(
                #[trigger] ops@[i].rel_path@,
                #[trigger] ops@[j].rel_path@,
            ) by {
                assert(idx[i] < idx[j]);
            }
        }
        assert(plan_ops_match(local@, remote@, manifest@, direction, ops@)) by {
            reveal(plan_ops_match);
            assert forall|i: int| 0 <= i < ops@.len() implies in_plan_paths(
                local@,
                remote@,
                (#[trigger] ops@[i]).rel_path@,
            ) by {
                assert(allv.contains(allv[idx[i]]));
            }
        }
    }
    (ops, skipped)
}


/// A file time in ms since the Unix epoch, given the time elapsed since the
/// epoch in ms (`None` for a time before it, which counts as 0). Values beyond
/// `i64` wrap as a cast does.
pub fn system_time_ms(since_epoch_ms: Option<u128>) -> (r: i64)
    ensures
        match since_epoch_ms {
            Some(m) => r == m as i64,
            None => r == 0,
        },
{
    match since_epoch_ms {
        Some(m) => #[verifier::truncate] (m as i64),
        None => 0,
    }
}


/// A plan never goes against its direction and never carries a no-op: a
/// Drive-to-local sync uploads nothing, a local-to-Drive sync downloads
/// nothing. Conflicts are planned in every direction.
pub proof fn lemma_plan_respects_direction(
    local: Seq<LocalFile>,
    remote: Seq<RemoteFile>,
    manifest: Seq<ManifestEntry>,
    direction: SyncDirection,
    ops: Seq<PlannedOp>,
    skipped: nat,
    i: int,
)
    requires
        is_plan(local, remote, manifest, direction, ops, skipped),
        0 <= i < ops.len(),
    ensures
        ops[i].action != SyncAction::NoOp,
        direction == SyncDirection::DriveToLocal ==> ops[i].action != SyncAction::Upload,
        direction == SyncDirection::LocalToDrive ==> ops[i].action != SyncAction::Download
            && ops[i].action != SyncAction::DownloadWithBackup,
{
    reveal(plan_ops_match);
    assert(spec_allowed(ops[i].action, direction));
}

/// Every conflict among the files of a category is in its plan, whatever the
/// direction: a conflict is never skipped.
pub proof fn lemma_conflicts_always_planned(
    local: Seq<LocalFile>,
    remote: Seq<RemoteFile>,
    manifest: Seq<ManifestEntry>,
    direction: SyncDirection,
    ops: Seq<PlannedOp>,
    skipped: nat,
    p: Seq<char>,
)
    requires
        is_plan(local, remote, manifest, direction, ops, skipped),
        in_plan_paths(local, remote, p),
        planned_action(local, remote, manifest, p) == SyncAction::Conflict,
    ensures
        exists|i: int| 0 <= i < ops.len() && (#[trigger] ops[i]).rel_path@ == p && ops[i].action == SyncAction::Conflict,
{
    reveal(plan_ops_match);
    reveal(plan_ops_cover);
    assert(spec_allowed(planned_action(local, remote, manifest, p), direction));
    let i = choose|i: int| 0 <= i < ops.len() && (#[trigger] ops[i]).rel_path@ == p;
    assert(ops[i].action == planned_action(local, remote, manifest, ops[i].rel_path@));
}


/// Some file of `files` has the relative path `q`.
pub open spec fn has_rel_path(files: Seq<LocalFile>, q: Seq<char>) -> bool {
    exists|k: int| 0 <= k < files.len() && (#[trigger] files[k]).rel_path@ == q
}

/// The files in scan order, keeping only the first file found for each
/// relative path (the first base folder wins).
pub open spec fn spec_first_per_path(files: Seq<LocalFile>) -> Seq<LocalFile>
    decreases files.len(),
{
    if files.len() == 0 {
        Seq::empty()
    } else {
        let kept = spec_first_per_path(files.drop_last());
        if has_rel_path(kept, files.last().rel_path@) {
            kept
        } else {
            kept.push(files.last())
        }
    }
}

fn has_rel_path_exec(files: &Vec<LocalFile>, q: &str) -> (r: bool)
    ensures
        r == has_rel_path(files@, q@),
{
    let mut i: usize = 0;
    while i < files.len()
        invariant
            i <= files.len(),
            forall|k: int| 0 <= k < i ==> (#[trigger] files@[k]).rel_path@ != q@,
        decreases files.len() - i,
    {
        if crate::text::str_eq(files[i].rel_path.as_str(), q) {
            return true;
        }
        i = i + 1;
    }
    false
}

/// The scanned files of a category's bases (in scan order, base after base)
/// with one file per relative path: the first base that holds it wins.
pub fn first_per_path(files: &Vec<LocalFile>) -> (r: Vec<LocalFile>)
    ensures
        r@ == spec_first_per_path(files@),
{
    let mut r: Vec<LocalFile> = Vec::new();
    let mut i: usize = 0;
    assert(files@.subrange(0, 0) =~= Seq::<LocalFile>::empty());
    while i < files.len()
        invariant
            i <= files.len(),
            r@ == spec_first_per_path(files@.subrange(0, i as int)),
        decreases files.len() - i,
    {
        proof {
            assert(files@.subrange(0, i + 1).drop_last() =~= files@.subrange(0, i as int));
            assert(files@.subrange(0, i + 1).last() == files@[i as int]);
        }
        if !has_rel_path_exec(&r, files[i].rel_path.as_str()) {
            r.push(files[i].duplicate());
        }
        i = i + 1;
    }
    assert(files@.subrange(0, files.len() as int) =~= files@);
    r
}

/// After keeping the first file per path no path occurs twice, and every
/// scanned path is still represented.
pub proof fn lemma_first_per_path_unique(files: Seq<LocalFile>)
    ensures
        forall|i: int, j: int| 0 <= i < j < spec_first_per_path(files).len() ==>
            (#[trigger] spec_first_per_path(files)[i]).rel_path@ != (#[trigger] spec_first_per_path(files)[j]).rel_path@,
        forall|k: int| 0 <= k < files.len() ==> has_rel_path(spec_first_per_path(files), (#[trigger] files[k]).rel_path@),
    decreases files.len(),
{
    if files.len() > 0 {
        let rest = files.drop_last();
        lemma_first_per_path_unique(rest);
        let kept = spec_first_per_path(rest);
        let x = files.last();
        assert forall|k: int| 0 <= k < files.len() implies has_rel_path(spec_first_per_path(files), (#[trigger] files[k]).rel_path@) by {
            if k < files.len() - 1 {
                assert(files[k] == rest[k]);
                let w = choose|w: int| 0 <= w < kept.len() && (#[trigger] kept[w]).rel_path@ == rest[k].rel_path@;
                if !has_rel_path(kept, x.rel_path@) {
                    assert(kept.push(x)[w] == kept[w]);
                }
            } else {
                if !has_rel_path(kept, x.rel_path@) {
                    assert(kept.push(x)[kept.len() as int] == x);
                }
            }
        }
    }
}


/// What a planned operation says: its path, action and the files on both sides.
pub open spec fn op_view(op: PlannedOp) -> (Seq<char>, SyncAction, Option<LocalFile>, Option<DriveFile>) {
    (op.rel_path@, op.action, op.local, op.remote)
}

/// The operation planned for `p`, as determined by the files and the manifest.
#[verifier::opaque]
pub open spec fn full_op(
    local: Seq<LocalFile>,
    remote: Seq<RemoteFile>,
    manifest: Seq<ManifestEntry>,
    p: Seq<char>,
) -> (Seq<char>, SyncAction, Option<LocalFile>, Option<DriveFile>) {
    (p, planned_action(local, remote, manifest, p), local_at(local, p), remote_at(remote, p))
}

/// Every operation of `ops` is the one planned for its path, for an existing
/// path, and allowed by the direction.
#[verifier::opaque]
pub open spec fn plan_sound(
    local: Seq<LocalFile>,
    remote: Seq<RemoteFile>,
    manifest: Seq<ManifestEntry>,
    direction: SyncDirection,
    ops: Seq<PlannedOp>,
) -> bool {
    forall|i: int| 0 <= i < ops.len() ==> {
        &&& op_view(#[trigger] ops[i]) == full_op(local, remote, manifest, op_view(ops[i]).0)
        &&& in_plan_paths(local, remote, op_view(ops[i]).0)
        &&& spec_allowed(op_view(ops[i]).1, direction)
    }
}

/// Every existing path whose decision the direction allows has an operation.
#[verifier::opaque]
pub open spec fn plan_complete(
    local: Seq<LocalFile>,
    remote: Seq<RemoteFile>,
    manifest: Seq<ManifestEntry>,
    direction: SyncDirection,
    ops: Seq<PlannedOp>,
) -> bool {
    forall|p: Seq<char>| #![trigger full_op(local, remote, manifest, p)]
        in_plan_paths(local, remote, p) && spec_allowed(full_op(local, remote, manifest, p).1, direction)
        ==> exists|i: int| 0 <= i < ops.len() && op_view(#[trigger] ops[i]) == full_op(local, remote, manifest, p)
}

proof fn lemma_plan_sound(
    local: Seq<LocalFile>,
    remote: Seq<RemoteFile>,
    manifest: Seq<ManifestEntry>,
    direction: SyncDirection,
    ops: Seq<PlannedOp>,
    skipped: nat,
)
    requires
        is_plan(local, remote, manifest, direction, ops, skipped),
    ensures
        plan_sound(local, remote, manifest, direction, ops),
{
    reveal(plan_sound);
    reveal(full_op);
    reveal(plan_ops_match);
    assert forall|i: int| 0 <= i < ops.len() implies {
        &&& op_view(#[trigger] ops[i]) == full_op(local, remote, manifest, op_view(ops[i]).0)
        &&& in_plan_paths(local, remote, op_view(ops[i]).0)
        &&& spec_allowed(op_view(ops[i]).1, direction)
    } by {
    }
}

proof fn lemma_plan_complete(
    local: Seq<LocalFile>,
    remote: Seq<RemoteFile>,
    manifest: Seq<ManifestEntry>,
    direction: SyncDirection,
    ops: Seq<PlannedOp>,
    skipped: nat,
)
    requires
        is_plan(local, remote, manifest, direction, ops, skipped),
    ensures
        plan_complete(local, remote, manifest, direction, ops),
{
    reveal(plan_complete);
    reveal(full_op);
    reveal(plan_ops_match);
    reveal(plan_ops_cover);
    assert forall|p: Seq<char>|
        in_plan_paths(local, remote, p) && spec_allowed(#[trigger] full_op(local, remote, manifest, p).1, direction)
        implies exists|i: int| 0 <= i < ops.len() && op_view(#[trigger] ops[i]) == full_op(local, remote, manifest, p) by {
        assert(spec_allowed(planned_action(local, remote, manifest, p), direction));
        let i = choose|i: int| 0 <= i < ops.len() && (#[trigger] ops[i]).rel_path@ == p;
        assert(op_view(ops[i]) == full_op(local, remote, manifest, p));
    }
}

proof fn lemma_plan_sorted(
    local: Seq<LocalFile>,
    remote: Seq<RemoteFile>,
    manifest: Seq<ManifestEntry>,
    direction: SyncDirection,
    ops: Seq<PlannedOp>,
    skipped: nat,
)
    requires
        is_plan(local, remote, manifest, direction, ops, skipped),
    ensures
        keys_sorted(ops.map_values(|op: PlannedOp| op_view(op))),
{
    reveal(plan_ops_ordered);
    let o = ops.map_values(|op: PlannedOp| op_view(op));
    assert forall|i: int, j: int| 0 <= i < j < o.len() implies lex_lt(#[trigger] o[i].0, #[trigger] o[j].0) by {
        assert(o[i] == op_view(ops[i]) && o[j] == op_view(ops[j]));
    }
}

/// The paths of a sequence of operation views increase strictly.
pub open spec fn keys_sorted(s: Seq<(Seq<char>, SyncAction, Option<LocalFile>, Option<DriveFile>)>) -> bool {
    forall|i: int, j: int| 0 <= i < j < s.len() ==> lex_lt(#[trigger] s[i].0, #[trigger] s[j].0)
}

proof fn lemma_sorted_same_set(a: Seq<Seq<char>>, b: Seq<Seq<char>>)
    requires
        strictly_sorted(a),
        strictly_sorted(b),
        forall|x: Seq<char>| a.contains(x) <==> b.contains(x),
    ensures
        a == b,
    decreases a.len(),
{
    if a.len() == 0 {
        if b.len() > 0 {
            assert(b.contains(b[0]));
        }
        assert(a =~= b);
    } else {
        assert(a.contains(a[0]));
        assert(b.contains(a[0]));
        assert(b.len() > 0);
        assert(b.contains(b[0]));
        let j = choose|j: int| 0 <= j < a.len() && a[j] == b[0];
        let k = choose|k: int| 0 <= k < b.len() && b[k] == a[0];
        if a[0] != b[0] {
            assert(j > 0 && k > 0);
            assert(lex_lt(a[0], a[j]));
            assert(lex_lt(b[0], b[k]));
            lemma_lex_asymmetric(a[0], b[0]);
        }
        let a1 = a.drop_first();
        let b1 = b.drop_first();
        assert forall|x: Seq<char>| a1.contains(x) <==> b1.contains(x) by {
            if a1.contains(x) {
                let i = choose|i: int| 0 <= i < a1.len() && a1[i] == x;
                assert(a[i + 1] == x);
                assert(lex_lt(a[0], a[i + 1]));
                lemma_lex_irreflexive(x);
                assert(a.contains(x));
                let t = choose|t: int| 0 <= t < b.len() && b[t] == x;
                assert(t != 0);
                assert(b1[t - 1] == x);
            }
            if b1.contains(x) {
                let i = choose|i: int| 0 <= i < b1.len() && b1[i] == x;
                assert(b[i + 1] == x);
                assert(lex_lt(b[0], b[i + 1]));
                lemma_lex_irreflexive(x);
                assert(b.contains(x));
                let t = choose|t: int| 0 <= t < a.len() && a[t] == x;
                assert(t != 0);
                assert(a1[t - 1] == x);
            }
        }
        lemma_sorted_same_set(a1, b1);
        assert(a =~= seq![a[0]] + a1);
        assert(b =~= seq![b[0]] + b1);
    }
}

proof fn lemma_filter_keys_sorted(
    s: Seq<(Seq<char>, SyncAction, Option<LocalFile>, Option<DriveFile>)>,
    pred: spec_fn((Seq<char>, SyncAction, Option<LocalFile>, Option<DriveFile>)) -> bool,
)
    requires
        keys_sorted(s),
    ensures
        keys_sorted(s.filter(pred)),
    decreases s.len(),
{
    broadcast use vstd::seq_lib::group_filter_ensures;
    if s.len() > 0 {
        let t = s.drop_last();
        let x = s.last();
        assert(keys_sorted(t)) by {
            assert forall|i: int, j: int| 0 <= i < j < t.len() implies lex_lt(#[trigger] t[i].0, #[trigger] t[j].0) by {
                assert(t[i] == s[i] && t[j] == s[j]);
            }
        }
        lemma_filter_keys_sorted(t, pred);
        assert(s =~= t.push(x));
        t.lemma_filter_push(x, pred);
        if pred(x) {
            let f = t.filter(pred);
            let g = f.push(x);
            assert forall|i: int, j: int| 0 <= i < j < g.len() implies lex_lt(#[trigger] g[i].0, #[trigger] g[j].0) by {
                if j < f.len() {
                    assert(g[i] == f[i] && g[j] == f[j]);
                } else {
                    assert(g[i] == f[i]);
                    assert(f.contains(f[i]));
                    t.lemma_filter_contains_rev(pred, f[i]);
                    let w = choose|w: int| 0 <= w < t.len() && t[w] == f[i];
                    assert(s[w] == t[w]);
                    assert(lex_lt(s[w].0, s[s.len() - 1].0));
                }
            }
        }
    } else {
        assert(s.filter(pred).len() == 0);
    }
}

proof fn lemma_same_ops(
    x: Seq<(Seq<char>, SyncAction, Option<LocalFile>, Option<DriveFile>)>,
    y: Seq<(Seq<char>, SyncAction, Option<LocalFile>, Option<DriveFile>)>,
    full: spec_fn(Seq<char>) -> (Seq<char>, SyncAction, Option<LocalFile>, Option<DriveFile>),
)
    requires
        keys_sorted(x),
        keys_sorted(y),
        forall|i: int| 0 <= i < x.len() ==> #[trigger] x[i] == full(x[i].0),
        forall|i: int| 0 <= i < y.len() ==> #[trigger] y[i] == full(y[i].0),
        forall|v| x.contains(v) <==> y.contains(v),
    ensures
        x == y,
{
    let kx = x.map_values(|v: (Seq<char>, SyncAction, Option<LocalFile>, Option<DriveFile>)| v.0);
    let ky = y.map_values(|v: (Seq<char>, SyncAction, Option<LocalFile>, Option<DriveFile>)| v.0);
    assert(strictly_sorted(kx)) by {
        assert forall|i: int, j: int| 0 <= i < j < kx.len() implies lex_lt(#[trigger] kx[i], #[trigger] kx[j]) by {
            assert(kx[i] == x[i].0 && kx[j] == x[j].0);
        }
    }
    assert(strictly_sorted(ky)) by {
        assert forall|i: int, j: int| 0 <= i < j < ky.len() implies lex_lt(#[trigger] ky[i], #[trigger] ky[j]) by {
            assert(ky[i] == y[i].0 && ky[j] == y[j].0);
        }
    }
    assert forall|p: Seq<char>| kx.contains(p) <==> ky.contains(p) by {
        if kx.contains(p) {
            let i = choose|i: int| 0 <= i < kx.len() && kx[i] == p;
            assert(x.contains(x[i]));
            let t = choose|t: int| 0 <= t < y.len() && y[t] == x[i];
            assert(ky[t] == p);
        }
        if ky.contains(p) {
            let i = choose|i: int| 0 <= i < ky.len() && ky[i] == p;
            assert(y.contains(y[i]));
            let t = choose|t: int| 0 <= t < x.len() && x[t] == y[i];
            assert(kx[t] == p);
        }
    }
    lemma_sorted_same_set(kx, ky);
    assert(x.len() == kx.len() && y.len() == ky.len());
    assert forall|i: int| 0 <= i < x.len() implies x[i] == y[i] by {
        assert(kx[i] == ky[i]);
        assert(kx[i] == x[i].0 && ky[i] == y[i].0);
        assert(x[i] == full(x[i].0) && y[i] == full(y[i].0));
    }
    assert(x =~= y);
}

proof fn lemma_filtered_from_parts(
    local: Seq<LocalFile>,
    remote: Seq<RemoteFile>,
    manifest: Seq<ManifestEntry>,
    direction: SyncDirection,
    both: Seq<PlannedOp>,
    ops: Seq<PlannedOp>,
)
    requires
        plan_sound(local, remote, manifest, SyncDirection::Bidirectional, both),
        plan_complete(local, remote, manifest, SyncDirection::Bidirectional, both),
        keys_sorted(both.map_values(|op: PlannedOp| op_view(op))),
        plan_sound(local, remote, manifest, direction, ops),
        plan_complete(local, remote, manifest, direction, ops),
        keys_sorted(ops.map_values(|op: PlannedOp| op_view(op))),
    ensures
        ops.map_values(|op: PlannedOp| op_view(op)) == both.map_values(|op: PlannedOp| op_view(op)).filter(
            |v: (Seq<char>, SyncAction, Option<LocalFile>, Option<DriveFile>)| spec_allowed(v.1, direction),
        ),
{
    broadcast use vstd::seq_lib::group_filter_ensures;
    let pred = |v: (Seq<char>, SyncAction, Option<LocalFile>, Option<DriveFile>)| spec_allowed(v.1, direction);
    let full = |p: Seq<char>| full_op(local, remote, manifest, p);
    let o = ops.map_values(|op: PlannedOp| op_view(op));
    let b = both.map_values(|op: PlannedOp| op_view(op));
    let f = b.filter(pred);
    lemma_filter_keys_sorted(b, pred);
    reveal(plan_sound);
    assert forall|i: int| 0 <= i < o.len() implies #[trigger] o[i] == full(o[i].0) by {
        assert(o[i] == op_view(ops[i]));
    }
    assert forall|i: int| 0 <= i < f.len() implies #[trigger] f[i] == full(f[i].0) by {
        assert(f.contains(f[i]));
        b.lemma_filter_contains_rev(pred, f[i]);
        let w = choose|w: int| 0 <= w < b.len() && b[w] == f[i];
        assert(b[w] == op_view(both[w]));
    }
    assert forall|v: (Seq<char>, SyncAction, Option<LocalFile>, Option<DriveFile>)| o.contains(v) <==> f.contains(v) by {
        reveal(plan_complete);
        if o.contains(v) {
            let i = choose|i: int| 0 <= i < o.len() && o[i] == v;
            assert(o[i] == op_view(ops[i]));
            assert(v == full_op(local, remote, manifest, v.0));
            assert(spec_allowed(full_op(local, remote, manifest, v.0).1, SyncDirection::Bidirectional));
            let w = choose|w: int| 0 <= w < both.len() && op_view(#[trigger] both[w]) == full_op(local, remote, manifest, v.0);
            assert(b[w] == op_view(both[w]));
            assert(pred(b[w]));
            b.lemma_filter_contains(pred, w);
        }
        if f.contains(v) {
            let t = choose|t: int| 0 <= t < f.len() && f[t] == v;
            b.lemma_filter_pred(pred, t);
            b.lemma_filter_contains_rev(pred, v);
            let w = choose|w: int| 0 <= w < b.len() && b[w] == v;
            assert(b[w] == op_view(both[w]));
            assert(v == full_op(local, remote, manifest, v.0));
            assert(spec_allowed(full_op(local, remote, manifest, v.0).1, direction));
            let i = choose|i: int| 0 <= i < ops.len() && op_view(#[trigger] ops[i]) == full_op(local, remote, manifest, v.0);
            assert(o[i] == op_view(ops[i]));
        }
    }
    lemma_same_ops(o, f, full);
}

/// A one-way sync plans exactly what the two-way sync plans for the same
/// files, minus the operations its direction leaves out (uploads for
/// Drive-to-local, downloads for local-to-Drive), in the same order; each
/// operation left out is counted as skipped. Conflicts are never left out.
pub proof fn lemma_one_way_plan_is_filtered(
    local: Seq<LocalFile>,
    remote: Seq<RemoteFile>,
    manifest: Seq<ManifestEntry>,
    direction: SyncDirection,
    both: Seq<PlannedOp>,
    both_skipped: nat,
    ops: Seq<PlannedOp>,
    skipped: nat,
)
    requires
        is_plan(local, remote, manifest, SyncDirection::Bidirectional, both, both_skipped),
        is_plan(local, remote, manifest, direction, ops, skipped),
    ensures
        ops.map_values(|op: PlannedOp| op_view(op)) == both.map_values(|op: PlannedOp| op_view(op)).filter(
            |v: (Seq<char>, SyncAction, Option<LocalFile>, Option<DriveFile>)| spec_allowed(v.1, direction),
        ),
        skipped == both_skipped + (both.len() - ops.len()),
{
    lemma_plan_sound(local, remote, manifest, SyncDirection::Bidirectional, both, both_skipped);
    lemma_plan_complete(local, remote, manifest, SyncDirection::Bidirectional, both, both_skipped);
    lemma_plan_sorted(local, remote, manifest, SyncDirection::Bidirectional, both, both_skipped);
    lemma_plan_sound(local, remote, manifest, direction, ops, skipped);
    lemma_plan_complete(local, remote, manifest, direction, ops, skipped);
    lemma_plan_sorted(local, remote, manifest, direction, ops, skipped);
    lemma_filtered_from_parts(local, remote, manifest, direction, both, ops);
}

} // verus!
