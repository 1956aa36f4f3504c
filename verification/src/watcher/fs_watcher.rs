//! Filesystem watcher decisions (trigger `file-change`): every event restarts
//! the emulator's debounce window; the sync fires only once the window after
//! the LAST event has passed (a burst of writes gives one sync), never while a
//! game is running, and events on temporary download files are ignored.
use vstd::prelude::*;
use crate::constants::TMP_SUFFIX;
use crate::emulator::EmulatorProfile;
use crate::text::{
    lemma_kv_push, lemma_views_push, chars_eq, chars_has_suffix, chars_of, join_path, join_rel, kv, split_on, split_str, str_eq,
    views,
};

verus! {

broadcast use {lemma_kv_push, lemma_views_push};

/// Folders watched for one emulator (absolute: root plus save and savestate bases).
#[derive(Debug)]
pub struct WatchedEmulator {
    pub name: String,
    pub dirs: Vec<String>,
}

/// A path segment that names something (not empty, not `.`).
pub open spec fn is_normal_segment(g: Seq<char>) -> bool {
    g.len() > 0 && g != seq!['.']
}

/// The components of a `/`-separated path, as `Path::components` yields them
/// on Unix: the root (written `/`) for an absolute path, a leading `.` for a
/// path that starts with it, then every segment that is neither empty nor `.`.
pub open spec fn path_components(p: Seq<char>) -> Seq<Seq<char>> {
    let segs = split_on(p, '/');
    let normals = segs.filter(|g: Seq<char>| is_normal_segment(g));
    if p.len() > 0 && p[0] == '/' {
        seq![seq!['/']] + normals
    } else if segs.len() > 0 && segs[0] == seq!['.'] {
        seq![seq!['.']] + normals
    } else {
        normals
    }
}

/// `path` lies under `base`, component by component (`Path::starts_with`).
pub open spec fn path_starts_with(path: Seq<char>, base: Seq<char>) -> bool {
    let c = path_components(path);
    let b = path_components(base);
    b.len() <= c.len() && c.subrange(0, b.len() as int) == b
}

/// The components of `p` (see [`path_components`]).
pub fn components(p: &str) -> (r: Vec<Vec<char>>)
    ensures
        kv(r@) == path_components(p@),
{
    let segs = split_str(p, '/');
    let ghost sv = views(segs@);
    let ghost pred = |g: Seq<char>| is_normal_segment(g);
    let v = chars_of(p);
    let dot = chars_of(".");
    proof {
        reveal_strlit(".");
    }
    let mut r: Vec<Vec<char>> = Vec::new();
    proof {
        split_nonempty(p@);
    }
    if v.len() > 0 && v[0] == '/' {
        let mut root: Vec<char> = Vec::new();
        root.push('/');
        r.push(root);
    } else {
        let first = chars_of(segs[0].as_str());
        if chars_eq(&first, &dot) {
            r.push(first);
        }
    }
    let ghost head = kv(r@);
    assert(sv.subrange(0, 0).filter(pred) =~= Seq::<Seq<char>>::empty());
    let mut i: usize = 0;
    while i < segs.len()
        invariant
            sv == views(segs@),
            i <= segs.len(),
            dot@ == seq!['.'],
            pred == (|g: Seq<char>| is_normal_segment(g)),
            kv(r@) == head + sv.subrange(0, i as int).filter(pred),
        decreases segs.len() - i,
    {
        let g = chars_of(segs[i].as_str());
        proof {
            assert(sv.subrange(0, i + 1) =~= sv.subrange(0, i as int).push(g@));
            sv.subrange(0, i as int).lemma_filter_push(g@, pred);
            assert(pred(g@) == (g@.len() > 0 && g@ != seq!['.']));
        }
        if g.len() > 0 && !chars_eq(&g, &dot) {
            let ghost before = r@;
            let ghost gv = g@;
            r.push(g);
            assert(kv(r@) == kv(before).push(gv));
            assert(kv(r@) =~= head + sv.subrange(0, i + 1).filter(pred));
        } else {
            assert(kv(r@) =~= head + sv.subrange(0, i + 1).filter(pred));
        }
        i = i + 1;
    }
    assert(sv.subrange(0, i as int) =~= sv);
    r
}

proof fn split_nonempty(p: Seq<char>)
    ensures
        split_on(p, '/').len() > 0,
{
    if exists|i: int| crate::text::is_first_index(p, '/', i) {
    }
}

/// `path` lies under `base`, component by component.
pub fn path_starts_with_exec(path: &str, base: &str) -> (r: bool)
    ensures
        r == path_starts_with(path@, base@),
{
    let c = components(path);
    let b = components(base);
    if b.len() > c.len() {
        return false;
    }
    let mut i: usize = 0;
    while i < b.len()
        invariant
            kv(c@) == path_components(path@),
            kv(b@) == path_components(base@),
            b.len() <= c.len(),
            i <= b.len(),
            forall|j: int| 0 <= j < i ==> kv(c@)[j] == kv(b@)[j],
        decreases b.len() - i,
    {
        if !chars_eq(&c[i], &b[i]) {
            assert(kv(c@)[i as int] == c@[i as int]@);
            assert(kv(b@)[i as int] == b@[i as int]@);
            assert(kv(c@).subrange(0, b@.len() as int)[i as int] != kv(b@)[i as int]);
            return false;
        }
        i = i + 1;
    }
    assert(kv(c@).subrange(0, b@.len() as int) =~= kv(b@));
    true
}

/// Some folder of `w` contains `path`.
pub open spec fn watches(w: WatchedEmulator, path: Seq<char>) -> bool {
    exists|k: int| 0 <= k < w.dirs.len() && path_starts_with(path, #[trigger] w.dirs[k]@)
}

/// The first watched emulator owning `path`, if any.
pub open spec fn spec_owner_of(watched: Seq<WatchedEmulator>, path: Seq<char>) -> Option<int>
    decreases watched.len(),
{
    if watched.len() == 0 {
        None
    } else if watches(watched[0], path) {
        Some(0)
    } else {
        match spec_owner_of(watched.drop_first(), path) {
            Some(i) => Some(i + 1),
            None => None,
        }
    }
}

proof fn lemma_owner_step(watched: Seq<WatchedEmulator>, path: Seq<char>, i: int)
    requires
        0 <= i < watched.len(),
        forall|j: int| 0 <= j < i ==> !watches(#[trigger] watched[j], path),
    ensures
        spec_owner_of(watched, path) == (if watches(watched[i], path) {
            Some(i)
        } else {
            match spec_owner_of(watched.subrange(i + 1, watched.len() as int), path) {
                Some(k) => Some(k + i + 1),
                None => None,
            }
        }),
    decreases i,
{
    if i > 0 {
        assert(!watches(watched[0], path));
        let t = watched.drop_first();
        assert forall|j: int| 0 <= j < i - 1 implies !watches(#[trigger] t[j], path) by {
            assert(t[j] == watched[j + 1]);
        }
        lemma_owner_step(t, path, i - 1);
        assert(t.subrange(i, t.len() as int) =~= watched.subrange(i + 1, watched.len() as int));
    } else {
        assert(watched.drop_first() =~= watched.subrange(1, watched.len() as int));
    }
}

fn watches_exec(w: &WatchedEmulator, path: &str) -> (r: bool)
    ensures
        r == watches(*w, path@),
{
    let mut k: usize = 0;
    while k < w.dirs.len()
        invariant
            k <= w.dirs.len(),
            forall|j: int| 0 <= j < k ==> !path_starts_with(path@, #[trigger] w.dirs@[j]@),
        decreases w.dirs.len() - k,
    {
        if path_starts_with_exec(path, w.dirs[k].as_str()) {
            return true;
        }
        k = k + 1;
    }
    false
}

/// The emulator owning `path`, if the path lies under one of its folders.
/// Paths are compared with `/` as their separator: a shell on a platform that
/// writes another separator converts the path and the folders first.
pub fn owner_of<'a>(watched: &'a Vec<WatchedEmulator>, path: &str) -> (r: Option<&'a str>)
    ensures
        match r {
            Some(n) => spec_owner_of(watched@, path@) is Some && n@ == watched@[spec_owner_of(
                watched@,
                path@,
            )->0].name@,
            None => spec_owner_of(watched@, path@) is None,
        },
{
    let mut i: usize = 0;
    while i < watched.len()
        invariant
            i <= watched.len(),
            forall|j: int| 0 <= j < i ==> !watches(#[trigger] watched@[j], path@),
        decreases watched.len() - i,
    {
        let w = &watched[i];
        let found = watches_exec(w, path);
        proof {
            lemma_owner_step(watched@, path@, i as int);
        }
        if found {
            return Some(w.name.as_str());
        }
        i = i + 1;
    }
    proof {
        if watched@.len() > 0 {
            lemma_owner_step(watched@, path@, watched@.len() - 1);
        }
    }
    None
}

/// Milliseconds from `t` to `now`, or 0 if `t` is later.
pub open spec fn elapsed(now: u64, t: u64) -> int {
    if now >= t {
        now - t
    } else {
        0
    }
}

/// The emulators of `pending` whose debounce window has passed (no new event
/// for at least `debounce` ms), in the order of `pending`.
pub open spec fn spec_due(pending: Seq<(String, u64)>, now: u64, debounce: u64) -> Seq<Seq<char>>
    decreases pending.len(),
{
    if pending.len() == 0 {
        Seq::empty()
    } else {
        let prefix = spec_due(pending.drop_last(), now, debounce);
        if elapsed(now, pending.last().1) >= debounce {
            prefix.push(pending.last().0@)
        } else {
            prefix
        }
    }
}

/// Emulators whose debounce window has passed. `pending` holds each
/// emulator's last activity (ms).
pub fn due_emulators(pending: &Vec<(String, u64)>, now: u64, debounce: u64) -> (r: Vec<String>)
    ensures
        views(r@) == spec_due(pending@, now, debounce),
{
    let mut r: Vec<String> = Vec::new();
    let mut i: usize = 0;
    while i < pending.len()
        invariant
            i <= pending.len(),
            views(r@) == spec_due(pending@.subrange(0, i as int), now, debounce),
        decreases pending.len() - i,
    {
        let last = pending[i].1;
        let passed = if now >= last { now - last >= debounce } else { 0 >= debounce };
        proof {
            assert(pending@.subrange(0, i + 1).drop_last() =~= pending@.subrange(0, i as int));
        }
        if passed {
            let ghost before = r@;
            r.push(pending[i].0.clone());
            assert(views(r@) =~= views(before).push(pending@[i as int].0@));
        }
        i = i + 1;
    }
    assert(pending@.subrange(0, i as int) =~= pending@);
    r
}

/// Whether a file event concerns a temporary download file (ignored).
pub fn is_temporary(file_name: &str) -> (r: bool)
    ensures
        r == crate::text::has_suffix(file_name@, TMP_SUFFIX@),
{
    let v = chars_of(file_name);
    let s = chars_of(TMP_SUFFIX);
    chars_has_suffix(&v, &s)
}

/// The folders to watch for a profile: its save and savestate bases under the
/// root (configuration changes all the time while the app is open and is
/// synced by the process triggers).
pub fn watched_dirs(profile: &EmulatorProfile) -> (r: Vec<String>)
    ensures
        views(r@) == (profile@.saves_paths + profile@.state_paths).map_values(
            |rel: Seq<char>| join_rel(profile@.root_path, rel),
        ),
{
    let mut r: Vec<String> = Vec::new();
    let ghost all = profile@.saves_paths + profile@.state_paths;
    let ghost f = |rel: Seq<char>| join_rel(profile@.root_path, rel);
    let mut i: usize = 0;
    while i < profile.saves_paths.len()
        invariant
            all == profile@.saves_paths + profile@.state_paths,
            f == (|rel: Seq<char>| join_rel(profile@.root_path, rel)),
            i <= profile.saves_paths.len(),
            views(r@) == all.subrange(0, i as int).map_values(f),
        decreases profile.saves_paths.len() - i,
    {
        let ghost before = r@;
        let p = join_path(profile.root_path.as_str(), profile.saves_paths[i].as_str());
        assert(all[i as int] == profile.saves_paths@[i as int]@);
        assert(p@ == f(all[i as int]));
        r.push(p);
        assert(all.subrange(0, i + 1).map_values(f) =~= all.subrange(0, i as int).map_values(f).push(f(all[i as int])));
        i = i + 1;
    }
    let n = profile.saves_paths.len();
    let mut j: usize = 0;
    while j < profile.state_paths.len()
        invariant
            all == profile@.saves_paths + profile@.state_paths,
            f == (|rel: Seq<char>| join_rel(profile@.root_path, rel)),
            n == profile.saves_paths.len(),
            j <= profile.state_paths.len(),
            views(r@) == all.subrange(0, n + j).map_values(f),
        decreases profile.state_paths.len() - j,
    {
        let ghost before = r@;
        let p = join_path(profile.root_path.as_str(), profile.state_paths[j].as_str());
        assert(all[n + j] == profile.state_paths@[j as int]@);
        assert(p@ == f(all[n + j]));
        r.push(p);
        assert(all.subrange(0, n + j + 1).map_values(f) =~= all.subrange(0, n + j).map_values(f).push(f(all[n + j])));
        j = j + 1;
    }
    assert(all.subrange(0, n + j) =~= all);
    r
}


/// The pending windows as `(emulator, last activity)` views.
pub open spec fn windows(pending: Seq<(String, u64)>) -> Seq<(Seq<char>, u64)> {
    pending.map_values(|e: (String, u64)| (e.0@, e.1))
}

/// Keeps the windows whose emulator `keep` accepts, in order.
fn retain_windows(pending: &mut Vec<(String, u64)>, drop: &Vec<String>)
    ensures
        windows(final(pending)@) == windows(old(pending)@).filter(
            |e: (Seq<char>, u64)| !views(drop@).contains(e.0),
        ),
{
    let ghost all = windows(pending@);
    let ghost pred = |e: (Seq<char>, u64)| !views(drop@).contains(e.0);
    let mut kept: Vec<(String, u64)> = Vec::new();
    let mut i: usize = 0;
    assert(all.subrange(0, 0).filter(pred) =~= Seq::<(Seq<char>, u64)>::empty());
    assert(windows(kept@) =~= Seq::<(Seq<char>, u64)>::empty());
    while i < pending.len()
        invariant
            i <= pending.len(),
            all == windows(pending@),
            pred == (|e: (Seq<char>, u64)| !views(drop@).contains(e.0)),
            windows(kept@) == all.subrange(0, i as int).filter(pred),
        decreases pending.len() - i,
    {
        proof {
            assert(all.subrange(0, i + 1) =~= all.subrange(0, i as int).push(all[i as int]));
            all.subrange(0, i as int).lemma_filter_push(all[i as int], pred);
        }
        let name = &pending[i].0;
        let listed = crate::text::contains_str(drop, name.as_str());
        proof {
            assert(listed == views(drop@).contains(name@)) by {
                if listed {
                    let k = choose|k: int| 0 <= k < drop@.len() && #[trigger] drop@[k]@ == name@;
                    assert(views(drop@)[k] == name@);
                }
                if views(drop@).contains(name@) {
                    let k = choose|k: int| 0 <= k < views(drop@).len() && views(drop@)[k] == name@;
                    assert(drop@[k]@ == name@);
                }
            }
        }
        if !listed {
            let ghost before = kept@;
            kept.push((pending[i].0.clone(), pending[i].1));
            assert(windows(kept@) =~= windows(before).push(all[i as int]));
        }
        i = i + 1;
    }
    assert(all.subrange(0, pending.len() as int) =~= all);
    *pending = kept;
}

/// A file event of `name` at `now` (re)starts its debounce window: any earlier
/// window of that emulator is replaced, the others stay.
pub fn record_activity(pending: &mut Vec<(String, u64)>, name: &str, now: u64)
    ensures
        windows(final(pending)@) == windows(old(pending)@).filter(|e: (Seq<char>, u64)| e.0 != name@).push(
            (name@, now),
        ),
{
    let mut drop: Vec<String> = Vec::new();
    drop.push(name.to_owned());
    proof {
        assert(views(drop@) =~= seq![name@]);
        assert forall|x: Seq<char>| views(drop@).contains(x) <==> x == name@ by {
            if x == name@ {
                assert(views(drop@)[0] == x);
            }
        }
    }
    let ghost before = windows(pending@);
    retain_windows(pending, &drop);
    proof {
        assert(before.filter(|e: (Seq<char>, u64)| !views(drop@).contains(e.0))
            =~= before.filter(|e: (Seq<char>, u64)| e.0 != name@)) by {
            assert((|e: (Seq<char>, u64)| !views(drop@).contains(e.0)) =~= (|e: (Seq<char>, u64)| e.0 != name@));
        }
    }
    let ghost mid = pending@;
    pending.push((name.to_owned(), now));
    assert(windows(pending@) =~= windows(mid).push((name@, now)));
}

/// Closes the windows of the emulators whose sync is being fired.
pub fn close_windows(pending: &mut Vec<(String, u64)>, fired: &Vec<String>)
    ensures
        windows(final(pending)@) == windows(old(pending)@).filter(
            |e: (Seq<char>, u64)| !views(fired@).contains(e.0),
        ),
{
    retain_windows(pending, fired);
}

/// The watched folders changed (other emulators, or other folders or order).
pub fn watch_list_changed(fresh: &Vec<WatchedEmulator>, current: &Vec<WatchedEmulator>) -> (r: bool)
    ensures
        r == !(fresh@.len() == current@.len() && forall|i: int| 0 <= i < fresh@.len() ==>
            (#[trigger] fresh@[i]).name@ == current@[i].name@ && views(fresh@[i].dirs@) == views(current@[i].dirs@)),
{
    if fresh.len() != current.len() {
        return true;
    }
    let mut i: usize = 0;
    while i < fresh.len()
        invariant
            fresh@.len() == current@.len(),
            i <= fresh@.len(),
            forall|k: int| 0 <= k < i ==> (#[trigger] fresh@[k]).name@ == current@[k].name@
                && views(fresh@[k].dirs@) == views(current@[k].dirs@),
        decreases fresh.len() - i,
    {
        let a = &fresh[i];
        let b = &current[i];
        if !str_eq(a.name.as_str(), b.name.as_str()) {
            return true;
        }
        if a.dirs.len() != b.dirs.len() {
            assert(views(a.dirs@).len() != views(b.dirs@).len());
            return true;
        }
        let mut j: usize = 0;
        while j < a.dirs.len()
            invariant
                a.dirs@.len() == b.dirs@.len(),
                j <= a.dirs@.len(),
                i < fresh@.len(),
                fresh@.len() == current@.len(),
                *a == fresh@[i as int],
                *b == current@[i as int],
                forall|t: int| 0 <= t < j ==> (#[trigger] a.dirs@[t])@ == b.dirs@[t]@,
            decreases a.dirs.len() - j,
        {
            if !str_eq(a.dirs[j].as_str(), b.dirs[j].as_str()) {
                assert(views(a.dirs@)[j as int] != views(b.dirs@)[j as int]);
                assert(views(fresh@[i as int].dirs@) != views(current@[i as int].dirs@));
                return true;
            }
            j = j + 1;
        }
        assert(views(a.dirs@) =~= views(b.dirs@)) by {
            assert forall|t: int| 0 <= t < a.dirs@.len() implies views(a.dirs@)[t] == views(b.dirs@)[t] by {
                assert(a.dirs@[t]@ == b.dirs@[t]@);
            }
        }
        i = i + 1;
    }
    false
}

/// Restarting a window keeps exactly one window for the emulator, holding the
/// time of its last event.
pub proof fn lemma_one_window_per_emulator(pending: Seq<(Seq<char>, u64)>, name: Seq<char>, now: u64)
    ensures
        ({
            let after = pending.filter(|e: (Seq<char>, u64)| e.0 != name).push((name, now));
            &&& after.last() == (name, now)
            &&& forall|i: int| 0 <= i < after.len() - 1 ==> (#[trigger] after[i]).0 != name
        }),
{
    broadcast use vstd::seq_lib::group_filter_ensures;
    let f = pending.filter(|e: (Seq<char>, u64)| e.0 != name);
    let after = f.push((name, now));
    assert forall|i: int| 0 <= i < after.len() - 1 implies (#[trigger] after[i]).0 != name by {
        assert(after[i] == f[i]);
    }
}

} // verus!
