//! Cache of Drive folder ids by logical path (`RetroSync/<Emulator>/<category>/...`)
//! and the paths that the folder structure is resolved through. The Drive
//! calls that find or create a folder, and the SQLite mirror of the cache, live
//! in the application shell.
use vstd::prelude::*;
use crate::constants::DRIVE_ROOT_FOLDER;
use crate::sync::{spec_category_str, SyncCategory};
use crate::text::{chars_has_prefix, chars_of, has_prefix, join_path, join_rel, split_on, split_str, str_eq, views};

verus! {

/// Alias of the API for the root of "My Drive".
pub const MY_DRIVE_ROOT_ID: &'static str = "root";

/// The map that a list of `(path, id)` pairs describes; a later pair for the
/// same path replaces an earlier one.
pub open spec fn map_of(s: Seq<(String, String)>) -> Map<Seq<char>, Seq<char>>
    decreases s.len(),
{
    if s.len() == 0 {
        Map::empty()
    } else {
        map_of(s.drop_last()).insert(s.last().0@, s.last().1@)
    }
}

proof fn lemma_map_of_push(s: Seq<(String, String)>, e: (String, String))
    ensures
        map_of(s.push(e)) == map_of(s).insert(e.0@, e.1@),
{
    assert(s.push(e).drop_last() =~= s);
}

/// Entries after position `i` that do not mention `k` leave its lookup as it
/// was in the first `i` entries.
proof fn lemma_map_of_tail_without(s: Seq<(String, String)>, i: int, k: Seq<char>)
    requires
        0 <= i <= s.len(),
        forall|j: int| i <= j < s.len() ==> (#[trigger] s[j]).0@ != k,
    ensures
        map_of(s).contains_key(k) == map_of(s.subrange(0, i)).contains_key(k),
        map_of(s).contains_key(k) ==> map_of(s)[k] == map_of(s.subrange(0, i))[k],
    decreases s.len() - i,
{
    if i < s.len() {
        let t = s.drop_last();
        assert forall|j: int| i <= j < t.len() implies (#[trigger] t[j]).0@ != k by {
            assert(t[j] == s[j]);
        }
        lemma_map_of_tail_without(t, i, k);
        assert(t.subrange(0, i) =~= s.subrange(0, i));
        assert(s.last() == s[s.len() - 1]);
    } else {
        assert(s.subrange(0, i) =~= s);
    }
}

/// `path` lies in the subtree rooted at `root` (is `root` or below it).
pub open spec fn in_subtree(path: Seq<char>, root: Seq<char>) -> bool {
    path == root || has_prefix(path, root + seq!['/'])
}

/// Folder ids by logical folder path.
pub struct FolderCache {
    entries: Vec<(String, String)>,
}

impl View for FolderCache {
    type V = Map<Seq<char>, Seq<char>>;

    closed spec fn view(&self) -> Map<Seq<char>, Seq<char>> {
        map_of(self.entries@)
    }
}

impl FolderCache {
    /// An empty cache.
    pub fn new() -> (r: Self)
        ensures
            r@ == Map::<Seq<char>, Seq<char>>::empty(),
    {
        FolderCache { entries: Vec::new() }
    }

    /// The cache seeded with persisted `(path, id)` pairs (a later pair for the
    /// same path wins).
    pub fn from_entries(entries: Vec<(String, String)>) -> (r: Self)
        ensures
            r@ == map_of(entries@),
    {
        FolderCache { entries }
    }

    /// The id cached for `path`.
    pub fn get(&self, path: &str) -> (r: Option<String>)
        ensures
            match r {
                Some(id) => self@.contains_key(path@) && self@[path@] == id@,
                None => !self@.contains_key(path@),
            },
    {
        let n = self.entries.len();
        let mut i: usize = n;
        while i > 0
            invariant
                i <= n,
                n == self.entries.len(),
                forall|j: int| i <= j < n ==> (#[trigger] self.entries@[j]).0@ != path@,
            decreases i,
        {
            if str_eq(self.entries[i - 1].0.as_str(), path) {
                proof {
                    let s = self.entries@;
                    lemma_map_of_tail_without(s, i as int, path@);
                    let pre = s.subrange(0, i as int);
                    assert(pre.drop_last() =~= s.subrange(0, i - 1));
                    assert(pre.last() == s[i - 1]);
                }
                return Some(self.entries[i - 1].1.clone());
            }
            i = i - 1;
        }
        proof {
            lemma_map_of_tail_without(self.entries@, 0, path@);
            assert(self.entries@.subrange(0, 0) =~= Seq::<(String, String)>::empty());
        }
        None
    }

    /// Number of cached paths' entries (at least the number of paths).
    pub fn is_empty(&self) -> (r: bool)
        ensures
            r == (self@ == Map::<Seq<char>, Seq<char>>::empty()),
    {
        if self.entries.len() == 0 {
            assert(self.entries@ =~= Seq::<(String, String)>::empty());
            true
        } else {
            let ghost s = self.entries@;
            assert(map_of(s).contains_key(s.last().0@));
            false
        }
    }

    /// Keeps only the entries whose path `keep` accepts, as `retain` does.
    fn retain_outside(&mut self, root: &str)
        ensures
            final(self)@ == old(self)@.remove_keys(
                Set::new(|k: Seq<char>| in_subtree(k, root@)),
            ),
    {
        proof {
            reveal_strlit("/");
        }
        let prefix_s = root.to_owned().concat("/");
        let prefix = chars_of(prefix_s.as_str());
        let ghost removed = Set::new(|k: Seq<char>| in_subtree(k, root@));
        let ghost s = self.entries@;
        let mut kept: Vec<(String, String)> = Vec::new();
        let mut i: usize = 0;
        assert(s.subrange(0, 0) =~= Seq::<(String, String)>::empty());
        assert(map_of(kept@) =~= map_of(s.subrange(0, 0)).remove_keys(removed));
        while i < self.entries.len()
            invariant
                s == self.entries@,
                i <= s.len(),
                prefix@ == root@ + seq!['/'],
                removed == Set::new(|k: Seq<char>| in_subtree(k, root@)),
                map_of(kept@) == map_of(s.subrange(0, i as int)).remove_keys(removed),
            decreases s.len() - i,
        {
            let e = &self.entries[i];
            let ks = chars_of(e.0.as_str());
            let inside = str_eq(e.0.as_str(), root) || chars_has_prefix(&ks, &prefix);
            proof {
                assert(s.subrange(0, i + 1) =~= s.subrange(0, i as int).push(s[i as int]));
                lemma_map_of_push(s.subrange(0, i as int), s[i as int]);
            }
            if !inside {
                let ghost before = kept@;
                kept.push((e.0.clone(), e.1.clone()));
                proof {
                    lemma_map_of_push(before, (e.0, e.1));
                    assert(!removed.contains(e.0@));
                    assert(map_of(kept@) =~= map_of(s.subrange(0, i + 1)).remove_keys(removed));
                }
            } else {
                assert(removed.contains(e.0@));
                assert(map_of(kept@) =~= map_of(s.subrange(0, i + 1)).remove_keys(removed));
            }
            i = i + 1;
        }
        assert(s.subrange(0, s.len() as int) =~= s);
        self.entries = kept;
    }

    /// Records the id of the folder at `path`, replacing any earlier one.
    pub fn insert(&mut self, path: String, id: String)
        ensures
            final(self)@ == old(self)@.insert(path@, id@),
    {
        let ghost before = self.entries@;
        self.entries.push((path, id));
        proof {
            lemma_map_of_push(before, self.entries@.last());
        }
    }

    /// Forgets `path` and every folder below it; other paths stay.
    pub fn invalidate_subtree(&mut self, path: &str)
        ensures
            forall|k: Seq<char>| #[trigger] final(self)@.contains_key(k) <==> (old(self)@.contains_key(k) && !in_subtree(k, path@)),
            forall|k: Seq<char>| #[trigger] final(self)@.contains_key(k) ==> final(self)@[k] == old(self)@[k],
    {
        self.retain_outside(path);
    }

    /// Forgets every folder (another account's ids are meaningless).
    pub fn clear(&mut self)
        ensures
            final(self)@ == Map::<Seq<char>, Seq<char>>::empty(),
    {
        self.entries = Vec::new();
    }
}

/// Reading a path right after recording it gives the recorded id.
pub proof fn lemma_get_after_insert(m: Map<Seq<char>, Seq<char>>, path: Seq<char>, id: Seq<char>)
    ensures
        m.insert(path, id).contains_key(path),
        m.insert(path, id)[path] == id,
{
}

/// Invalidating a subtree forgets the folder and everything below it and no
/// other path: siblings whose name merely starts with the same text stay.
pub proof fn lemma_invalidate_keeps_siblings(path: Seq<char>, sibling: Seq<char>)
    requires
        sibling != path,
        !has_prefix(sibling, path + seq!['/']),
    ensures
        !in_subtree(sibling, path),
{
}

/// Logical path of the emulator folder: `RetroSync/<emulator>`.
pub open spec fn spec_emulator_key(emulator: Seq<char>) -> Seq<char> {
    join_rel(DRIVE_ROOT_FOLDER@, emulator)
}

/// Logical path of a category folder: `RetroSync/<emulator>/<category>`.
pub open spec fn spec_category_key(emulator: Seq<char>, category: SyncCategory) -> Seq<char> {
    join_rel(spec_emulator_key(emulator), spec_category_str(category))
}

/// The folders that `ensure_category_folder` resolves, in order, as
/// `(parent is the previous one, name, logical path)`: the root folder, the
/// emulator's folder and the category's folder.
pub fn category_chain(emulator: &str, category: SyncCategory) -> (r: Vec<(String, String)>)
    ensures
        r@.len() == 3,
        r@[0].0@ == DRIVE_ROOT_FOLDER@ && r@[0].1@ == DRIVE_ROOT_FOLDER@,
        r@[1].0@ == emulator@ && r@[1].1@ == spec_emulator_key(emulator@),
        r@[2].0@ == spec_category_str(category) && r@[2].1@ == spec_category_key(emulator@, category),
{
    let emulator_key = join_path(DRIVE_ROOT_FOLDER, emulator);
    let category_key = join_path(emulator_key.as_str(), category.as_str());
    let mut r: Vec<(String, String)> = Vec::new();
    r.push((DRIVE_ROOT_FOLDER.to_owned(), DRIVE_ROOT_FOLDER.to_owned()));
    r.push((emulator.to_owned(), emulator_key));
    r.push((category.as_str().to_owned(), category_key));
    r
}

/// The non-empty segments of a relative folder path, in order.
pub open spec fn segments(rel_dir: Seq<char>) -> Seq<Seq<char>> {
    split_on(rel_dir, '/').filter(|p: Seq<char>| p.len() > 0)
}

/// The logical path reached after the first `n` segments under `base_key`.
pub open spec fn key_after(base_key: Seq<char>, segs: Seq<Seq<char>>, n: int) -> Seq<char>
    decreases n,
{
    if n <= 0 {
        base_key
    } else {
        key_after(base_key, segs, n - 1) + seq!['/'] + segs[n - 1]
    }
}

/// The folders that `ensure_subpath` resolves below `base_key`, in order, as
/// `(name, logical path)`: one per non-empty segment of `rel_dir`, each
/// path extending the previous one by `/segment`.
pub fn subpath_steps(base_key: &str, rel_dir: &str) -> (r: Vec<(String, String)>)
    ensures
        r@.len() == segments(rel_dir@).len(),
        forall|i: int| 0 <= i < r@.len() ==> (#[trigger] r@[i]).0@ == segments(rel_dir@)[i]
            && r@[i].1@ == key_after(base_key@, segments(rel_dir@), i + 1),
{
    proof {
        reveal_strlit("/");
    }
    let parts = split_str(rel_dir, '/');
    let ghost all = views(parts@);
    let ghost pred = |p: Seq<char>| p.len() > 0;
    let mut r: Vec<(String, String)> = Vec::new();
    let mut key = base_key.to_owned();
    let mut i: usize = 0;
    assert(all.subrange(0, 0).filter(pred) =~= Seq::<Seq<char>>::empty());
    while i < parts.len()
        invariant
            i <= parts.len(),
            all == views(parts@),
            all == split_on(rel_dir@, '/'),
            pred == (|p: Seq<char>| p.len() > 0),
            r@.len() == all.subrange(0, i as int).filter(pred).len(),
            forall|j: int| 0 <= j < r@.len() ==> (#[trigger] r@[j]).0@ == all.subrange(0, i as int).filter(pred)[j]
                && r@[j].1@ == key_after(base_key@, all.subrange(0, i as int).filter(pred), j + 1),
            key@ == key_after(base_key@, all.subrange(0, i as int).filter(pred), r@.len() as int),
        decreases parts.len() - i,
    {
        let ghost f0 = all.subrange(0, i as int).filter(pred);
        proof {
            assert(all.subrange(0, i + 1) =~= all.subrange(0, i as int).push(all[i as int]));
            all.subrange(0, i as int).lemma_filter_push(all[i as int], pred);
        }
        let seg = &parts[i];
        if seg.as_str().unicode_len() > 0 {
            let ghost f1 = f0.push(seg@);
            let next = key.concat("/").concat(seg.as_str());
            proof {
                reveal_strlit("/");
                assert(seg@ == all[i as int]);
                assert(f1 == all.subrange(0, i + 1).filter(pred));
                assert forall|n: int| 0 <= n <= f0.len() implies key_after(base_key@, f1, n) == key_after(base_key@, f0, n) by {
                    lemma_key_after_prefix(base_key@, f0, f1, n);
                }
                assert(next@ == key@ + seq!['/'] + seg@);
                assert(key_after(base_key@, f1, (f0.len() + 1) as int) == key_after(base_key@, f1, f0.len() as int) + seq!['/'] + f1[f0.len() as int]);
            }
            let ghost r0 = r@;
            r.push((seg.clone(), next.clone()));
            proof {
                assert forall|j: int| 0 <= j < r@.len() implies (#[trigger] r@[j]).0@ == f1[j]
                    && r@[j].1@ == key_after(base_key@, f1, j + 1) by {
                    if j < r0.len() {
                        assert(r@[j] == r0[j]);
                        lemma_key_after_prefix(base_key@, f0, f1, j + 1);
                    }
                }
            }
            key = next;
        } else {
            proof {
                assert(f0 == all.subrange(0, i + 1).filter(pred));
            }
        }
        i = i + 1;
    }
    assert(all.subrange(0, parts.len() as int) =~= all);
    r
}

proof fn lemma_key_after_prefix(base: Seq<char>, a: Seq<Seq<char>>, b: Seq<Seq<char>>, n: int)
    requires
        0 <= n <= a.len(),
        a.len() <= b.len(),
        forall|j: int| 0 <= j < a.len() ==> a[j] == b[j],
    ensures
        key_after(base, b, n) == key_after(base, a, n),
    decreases n,
{
    if n > 0 {
        lemma_key_after_prefix(base, a, b, n - 1);
    }
}

} // verus!
