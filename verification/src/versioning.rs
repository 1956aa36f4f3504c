//! Version history of saves: before a download overwrites a local file, the
//! current version is archived as
//! `<backup_dir>/<emulator>/history/<category>/<rel_dir>/<name>~<stamp><ext>`,
//! and each file keeps at most N versions (the oldest are removed).
use vstd::prelude::*;
use vstd::multiset::Multiset;
use crate::text::{
    chars_has_prefix, chars_has_suffix, chars_lt, chars_of, has_prefix, has_suffix, is_last_index,
    lemma_lex_asymmetric, lemma_lex_irreflexive, lemma_lex_total, lemma_lex_transitive, lex_lt,
    rfind_char, split_on, split_str, substring, views,
};

verus! {

/// Name of the fixed "run" that groups the version history in the backup tree.
pub const HISTORY_DIR_NAME: &'static str = "history";

/// Separator between the original name and the version stamp.
pub const VERSION_SEP: char = '~';

/// An archived version of a file.
#[derive(Debug, Clone)]
pub struct FileVersion {
    /// `YYYYMMDD-HHMMSS` stamp taken from the archived name.
    pub stamp: String,
    pub size_bytes: i64,
    pub modified_at_ms: i64,
    pub abs_path: String,
}

/// Stem and extension of a file name, split at its last `.`.
pub open spec fn split_ext(name: Seq<char>) -> (Seq<char>, Option<Seq<char>>) {
    if exists|i: int| is_last_index(name, '.', i) {
        let i = choose|i: int| is_last_index(name, '.', i);
        (name.subrange(0, i), Some(name.subrange(i + 1, name.len() as int)))
    } else {
        (name, None)
    }
}

/// The archived name of version `stamp` of `file_name`: `stem~stamp.ext`, or
/// `name~stamp` for a name without extension.
pub open spec fn spec_versioned_name(file_name: Seq<char>, stamp: Seq<char>) -> Seq<char> {
    match split_ext(file_name) {
        (stem, Some(ext)) => stem + seq![VERSION_SEP] + stamp + seq!['.'] + ext,
        (stem, None) => stem + seq![VERSION_SEP] + stamp,
    }
}

/// Character `k` of a stamp is what the form `YYYYMMDD-HHMMSS` asks there: the
/// `-` at position 8, an ASCII digit elsewhere.
pub open spec fn stamp_char_ok(k: int, c: char) -> bool {
    if k == 8 { c == '-' } else { '0' <= c <= '9' }
}

/// A version stamp `YYYYMMDD-HHMMSS`: eight digits, `-`, six digits.
pub open spec fn valid_stamp(s: Seq<char>) -> bool {
    s.len() == 15 && forall|k: int| 0 <= k < s.len() ==> #[trigger] stamp_char_ok(k, s[k])
}

/// The stamp of `archived`, if it names a version of `file_name`.
pub open spec fn spec_stamp_of(archived: Seq<char>, file_name: Seq<char>) -> Option<Seq<char>> {
    let (stem, ext) = split_ext(file_name);
    let head = stem + seq![VERSION_SEP];
    if !has_prefix(archived, head) {
        None
    } else {
        let rest = archived.subrange(head.len() as int, archived.len() as int);
        let stamp = match ext {
            Some(e) => if has_suffix(rest, seq!['.'] + e) {
                Some(rest.subrange(0, rest.len() - e.len() - 1))
            } else {
                None
            },
            None => Some(rest),
        };
        match stamp {
            Some(s) => if valid_stamp(s) {
                Some(s)
            } else {
                None
            },
            None => None,
        }
    }
}

proof fn lemma_last_index_unique(s: Seq<char>, c: char, i: int, j: int)
    requires
        is_last_index(s, c, i),
        is_last_index(s, c, j),
    ensures
        i == j,
{
}

/// Stem and extension of `name` (split at the last `.`), with their positions.
fn split_ext_exec(name: &str) -> (r: (String, Option<String>))
    ensures
        r.0@ == split_ext(name@).0,
        match r.1 {
            Some(e) => split_ext(name@).1 == Some(e@),
            None => split_ext(name@).1 is None,
        },
{
    let v = chars_of(name);
    match rfind_char(&v, '.') {
        Some(i) => {
            assert(i < v.len());
            proof {
                assert(is_last_index(name@, '.', i as int));
                let j = choose|j: int| is_last_index(name@, '.', j);
                lemma_last_index_unique(name@, '.', i as int, j);
            }
            (substring(name, 0, i), Some(substring(name, i + 1, v.len())))
        },
        None => {
            proof {
                assert(!exists|i: int| is_last_index(name@, '.', i));
            }
            (substring(name, 0, v.len()), None)
        },
    }
}

/// `("SAVE.bin", "20250717-103000")` gives `"SAVE~20250717-103000.bin"`.
pub fn versioned_name(file_name: &str, stamp: &str) -> (r: String)
    ensures
        r@ == spec_versioned_name(file_name@, stamp@),
{
    proof {
        reveal_strlit("~");
        reveal_strlit(".");
    }
    let (stem, ext) = split_ext_exec(file_name);
    match ext {
        Some(e) => stem.concat("~").concat(stamp).concat(".").concat(e.as_str()),
        None => stem.concat("~").concat(stamp),
    }
}

fn is_stamp_char(k: usize, c: char) -> (r: bool)
    ensures
        r == stamp_char_ok(k as int, c),
{
    if k == 8 { c == '-' } else { '0' <= c && c <= '9' }
}

/// The stamp of an archived name, if the name belongs to the versions of
/// `file_name`.
pub fn stamp_of(archived: &str, file_name: &str) -> (r: Option<String>)
    ensures
        match r {
            Some(s) => spec_stamp_of(archived@, file_name@) == Some(s@),
            None => spec_stamp_of(archived@, file_name@) is None,
        },
{
    proof {
        reveal_strlit("~");
        reveal_strlit(".");
    }
    let (stem, ext) = split_ext_exec(file_name);
    let head_s = stem.concat("~");
    let head = chars_of(head_s.as_str());
    let a = chars_of(archived);
    assert(head@ == split_ext(file_name@).0 + seq![VERSION_SEP]);
    if !chars_has_prefix(&a, &head) {
        return None;
    }
    let rest_start = head.len();
    let end: usize = match ext {
        Some(e) => {
            let suffix_s = ".".to_owned().concat(e.as_str());
            let suffix = chars_of(suffix_s.as_str());
            let rest_s = substring(archived, rest_start, a.len());
            let rest = chars_of(rest_s.as_str());
            assert(suffix@ == seq!['.'] + e@);
            assert(rest@ == archived@.subrange(head@.len() as int, archived@.len() as int));
            assert(split_ext(file_name@).1 == Some(e@));
            if !chars_has_suffix(&rest, &suffix) {
                assert(spec_stamp_of(archived@, file_name@) is None);
                return None;
            }
            a.len() - suffix.len()
        },
        None => a.len(),
    };
    let ghost stamp = archived@.subrange(rest_start as int, end as int);
    proof {
        let rest = archived@.subrange(rest_start as int, archived@.len() as int);
        match split_ext(file_name@).1 {
            Some(e) => {
                assert(rest.subrange(0, rest.len() - e.len() - 1) =~= stamp);
            },
            None => {
                assert(rest =~= stamp);
            },
        }
    }
    if end - rest_start != 15 {
        return None;
    }
    assert(spec_stamp_of(archived@, file_name@) == (if valid_stamp(stamp) { Some(stamp) } else { None::<Seq<char>> }));
    let mut k: usize = rest_start;
    while k < end
        invariant
            spec_stamp_of(archived@, file_name@) == (if valid_stamp(stamp) { Some(stamp) } else { None::<Seq<char>> }),
            rest_start <= k <= end,
            end <= a.len(),
            a@ == archived@,
            stamp == archived@.subrange(rest_start as int, end as int),
            end - rest_start == 15,
            forall|j: int| 0 <= j < k - rest_start ==> #[trigger] stamp_char_ok(j, stamp[j]),
        decreases end - k,
    {
        if !is_stamp_char(k - rest_start, a[k]) {
            assert(!valid_stamp(stamp)) by {
                assert(stamp[k - rest_start] == a@[k as int]);
                assert(!stamp_char_ok(k - rest_start, stamp[k - rest_start]));
            }
            return None;
        }
        k = k + 1;
    }
    Some(substring(archived, rest_start, end))
}

/// Reading the stamp back from the name a version was archived under gives
/// that stamp, for every valid stamp and every file name.
pub proof fn lemma_stamp_of_versioned_name(file_name: Seq<char>, stamp: Seq<char>)
    requires
        valid_stamp(stamp),
    ensures
        spec_stamp_of(spec_versioned_name(file_name, stamp), file_name) == Some(stamp),
{
    let a = spec_versioned_name(file_name, stamp);
    let (stem, ext) = split_ext(file_name);
    let head = stem + seq![VERSION_SEP];
    assert(a.subrange(0, head.len() as int) =~= head);
    let rest = a.subrange(head.len() as int, a.len() as int);
    match ext {
        Some(e) => {
            assert(rest =~= stamp + (seq!['.'] + e));
            assert(rest.subrange(rest.len() - (seq!['.'] + e).len(), rest.len() as int) =~= seq!['.'] + e);
            assert(rest.subrange(0, rest.len() - e.len() - 1) =~= stamp);
        },
        None => {
            assert(rest =~= stamp);
        },
    }
}

/// A name is recognised as a version of `file_name` only if it is exactly the
/// name that version was archived under: other files with a similar prefix,
/// and names without a valid stamp, are never taken for versions.
pub proof fn lemma_stamp_of_only_own_versions(archived: Seq<char>, file_name: Seq<char>)
    requires
        spec_stamp_of(archived, file_name) is Some,
    ensures
        valid_stamp(spec_stamp_of(archived, file_name)->0),
        archived == spec_versioned_name(file_name, spec_stamp_of(archived, file_name)->0),
{
    let s = spec_stamp_of(archived, file_name)->0;
    let (stem, ext) = split_ext(file_name);
    let head = stem + seq![VERSION_SEP];
    let rest = archived.subrange(head.len() as int, archived.len() as int);
    assert(archived =~= archived.subrange(0, head.len() as int) + rest);
    match ext {
        Some(e) => {
            let suf = seq!['.'] + e;
            assert(rest =~= rest.subrange(0, rest.len() - suf.len()) + rest.subrange(rest.len() - suf.len(), rest.len() as int));
            assert(archived =~= stem + seq![VERSION_SEP] + s + seq!['.'] + e);
        },
        None => {
            assert(archived =~= stem + seq![VERSION_SEP] + s);
        },
    }
}


/// `a` with the path `b` pushed onto it, as `PathBuf::push` does with `/` as
/// separator: an absolute `b` replaces `a`; otherwise a separator is added
/// unless `a` is empty or already ends with one.
pub open spec fn spec_push(a: Seq<char>, b: Seq<char>) -> Seq<char> {
    if b.len() > 0 && b[0] == '/' {
        b
    } else if a.len() == 0 {
        b
    } else if a.last() == '/' {
        a + b
    } else {
        a + seq!['/'] + b
    }
}

/// `a` with each of `parts` pushed onto it in order.
pub open spec fn push_all(a: Seq<char>, parts: Seq<Seq<char>>) -> Seq<char>
    decreases parts.len(),
{
    if parts.len() == 0 {
        a
    } else {
        spec_push(push_all(a, parts.drop_last()), parts.last())
    }
}

/// The folder part of a relative path (before its last `/`), if it has one.
pub open spec fn parent_of(rel_path: Seq<char>) -> Option<Seq<char>> {
    if exists|i: int| is_last_index(rel_path, '/', i) {
        let i = choose|i: int| is_last_index(rel_path, '/', i);
        Some(rel_path.subrange(0, i))
    } else {
        None
    }
}

/// The file name of a relative path (after its last `/`).
pub open spec fn file_name_of(rel_path: Seq<char>) -> Seq<char> {
    if exists|i: int| is_last_index(rel_path, '/', i) {
        let i = choose|i: int| is_last_index(rel_path, '/', i);
        rel_path.subrange(i + 1, rel_path.len() as int)
    } else {
        rel_path
    }
}

/// `<root>/<emulator>/history/<category>/<folders of rel_path>`.
pub open spec fn spec_dir_for(root: Seq<char>, emulator: Seq<char>, category: Seq<char>, rel_path: Seq<char>) -> Seq<char> {
    let base = spec_push(spec_push(spec_push(root, emulator), HISTORY_DIR_NAME@), category);
    match parent_of(rel_path) {
        Some(parent) => push_all(base, split_on(parent, '/')),
        None => base,
    }
}

/// Pushes the path `b` onto `a` (see [`spec_push`]).
pub fn push_path(a: &str, b: &str) -> (r: String)
    ensures
        r@ == spec_push(a@, b@),
{
    proof {
        reveal_strlit("/");
    }
    let bl = b.unicode_len();
    if bl > 0 && b.get_char(0) == '/' {
        return b.to_owned();
    }
    let al = a.unicode_len();
    if al == 0 {
        b.to_owned()
    } else if a.get_char(al - 1) == '/' {
        a.to_owned().concat(b)
    } else {
        a.to_owned().concat("/").concat(b)
    }
}

/// Splits a relative path at its last `/` into folder part and file name.
fn split_parent(rel_path: &str) -> (r: (Option<String>, String))
    ensures
        match r.0 {
            Some(p) => parent_of(rel_path@) == Some(p@),
            None => parent_of(rel_path@) is None,
        },
        r.1@ == file_name_of(rel_path@),
{
    let v = chars_of(rel_path);
    match rfind_char(&v, '/') {
        Some(i) => {
            assert(i < v.len());
            proof {
                let j = choose|j: int| is_last_index(rel_path@, '/', j);
                lemma_last_index_unique(rel_path@, '/', i as int, j);
            }
            (Some(substring(rel_path, 0, i)), substring(rel_path, i + 1, v.len()))
        },
        None => {
            assert(rel_path@.subrange(0, rel_path@.len() as int) =~= rel_path@);
            (None, substring(rel_path, 0, v.len()))
        },
    }
}

/// The file name of a relative path: what follows its last `/`, or the whole
/// path when it has none.
pub fn file_name(rel_path: &str) -> (r: String)
    ensures
        r@ == file_name_of(rel_path@),
{
    split_parent(rel_path).1
}

/// Version history kept on the native file system under `root`
/// (`<app_data>/backups`).
pub struct FsVersioner {
    root: String,
}

impl FsVersioner {
    /// The backup root this history lives under.
    pub closed spec fn root_path(&self) -> Seq<char> {
        self.root@
    }

    pub fn new(root: String) -> (r: Self)
        ensures
            r.root_path() == root@,
    {
        FsVersioner { root }
    }

    /// Folder that holds the versions of `rel_path`: the file's own folder
    /// inside `history/<category>/`.
    pub fn dir_for(&self, emulator: &str, category: &str, rel_path: &str) -> (r: String)
        ensures
            r@ == spec_dir_for(self.root_path(), emulator@, category@, rel_path@),
    {
        let a = push_path(self.root.as_str(), emulator);
        let b = push_path(a.as_str(), HISTORY_DIR_NAME);
        let mut dir = push_path(b.as_str(), category);
        let ghost base = dir@;
        let (parent, _) = split_parent(rel_path);
        match parent {
            Some(p) => {
                let parts = split_str(p.as_str(), '/');
                let ghost ps = views(parts@);
                let mut i: usize = 0;
                assert(ps.subrange(0, 0) =~= Seq::<Seq<char>>::empty());
                while i < parts.len()
                    invariant
                        i <= parts.len(),
                        ps == views(parts@),
                        dir@ == push_all(base, ps.subrange(0, i as int)),
                    decreases parts.len() - i,
                {
                    let next = push_path(dir.as_str(), parts[i].as_str());
                    proof {
                        let sub = ps.subrange(0, i + 1);
                        assert(sub.drop_last() =~= ps.subrange(0, i as int));
                        assert(sub.last() == parts@[i as int]@);
                    }
                    dir = next;
                    i = i + 1;
                }
                assert(ps.subrange(0, parts.len() as int) =~= ps);
                dir
            },
            None => dir,
        }
    }

    /// Where version `stamp` of `rel_path` is archived.
    pub fn archive_path(&self, emulator: &str, category: &str, rel_path: &str, stamp: &str) -> (r: String)
        ensures
            r@ == spec_push(
                spec_dir_for(self.root_path(), emulator@, category@, rel_path@),
                spec_versioned_name(file_name_of(rel_path@), stamp@),
            ),
    {
        let dir = self.dir_for(emulator, category, rel_path);
        let name = file_name(rel_path);
        let archived = versioned_name(name.as_str(), stamp);
        push_path(dir.as_str(), archived.as_str())
    }
}

/// Versions ordered from the newest stamp to the oldest.
pub open spec fn newest_first(s: Seq<FileVersion>) -> bool {
    forall|i: int, j: int| 0 <= i < j < s.len() ==> !lex_lt(#[trigger] s[i].stamp@, #[trigger] s[j].stamp@)
}

/// Position at which `x` goes in `r` (newest first): after every version whose
/// stamp is not older than `x`'s.
fn insert_position(r: &Vec<FileVersion>, x: &FileVersion) -> (k: usize)
    requires
        newest_first(r@),
    ensures
        k <= r.len(),
        forall|m: int| 0 <= m < k ==> !lex_lt(#[trigger] r@[m].stamp@, x.stamp@),
        k < r.len() ==> lex_lt(r@[k as int].stamp@, x.stamp@),
{
    let xs = chars_of(x.stamp.as_str());
    let mut k: usize = 0;
    while k < r.len()
        invariant
            k <= r.len(),
            xs@ == x.stamp@,
            forall|m: int| 0 <= m < k ==> !lex_lt(#[trigger] r@[m].stamp@, x.stamp@),
        decreases r.len() - k,
    {
        let ks = chars_of(r[k].stamp.as_str());
        if chars_lt(&ks, &xs) {
            return k;
        }
        k = k + 1;
    }
    k
}

/// The versions ordered from the newest stamp to the oldest (stamps order
/// lexicographically as `YYYYMMDD-HHMMSS`); versions with equal stamps keep
/// their order.
pub fn sort_newest_first(v: Vec<FileVersion>) -> (r: Vec<FileVersion>)
    ensures
        newest_first(r@),
        r@.to_multiset() == v@.to_multiset(),
{
    broadcast use vstd::multiset::group_multiset_axioms;
    let mut src = v;
    let ghost v0 = src@;
    let mut r: Vec<FileVersion> = Vec::new();
    proof {
        vstd::seq_lib::to_multiset_len(r@);
        vstd::multiset::lemma_multiset_empty_len(r@.to_multiset());
        assert(r@.to_multiset().add(src@.to_multiset()) =~= v0.to_multiset());
    }
    while src.len() > 0
        invariant
            newest_first(r@),
            r@.to_multiset().add(src@.to_multiset()) == v0.to_multiset(),
        decreases src.len(),
    {
        let ghost s0 = src@;
        let x = src.remove(0);
        proof {
            vstd::seq_lib::to_multiset_remove(s0, 0);
            vstd::seq_lib::to_multiset_contains(s0, x);
            assert(s0.to_multiset().count(x) > 0) by {
                assert(s0.contains(x)) by { assert(s0[0] == x); }
            }
        }
        let k = insert_position(&r, &x);
        let ghost r0 = r@;
        r.insert(k, x);
        proof {
            assert forall|i: int, j: int| 0 <= i < j < r@.len() implies
                !lex_lt(#[trigger] r@[i].stamp@, #[trigger] r@[j].stamp@) by {
                if i < k && j == k {
                } else if i == k && j > k {
                    let y = r0[j - 1];
                    assert(r@[j] == y);
                    let top = r0[k as int];
                    if y.stamp@ == top.stamp@ {
                        lemma_lex_asymmetric(top.stamp@, x.stamp@);
                    } else {
                        lemma_lex_total(y.stamp@, top.stamp@);
                        if lex_lt(y.stamp@, top.stamp@) {
                            lemma_lex_transitive(y.stamp@, top.stamp@, x.stamp@);
                            lemma_lex_asymmetric(y.stamp@, x.stamp@);
                        } else {
                            assert(!lex_lt(top.stamp@, y.stamp@)) by {
                                assert(r0[k as int] == top);
                            }
                        }
                    }
                } else if i < k && j < k {
                    assert(r@[i] == r0[i] && r@[j] == r0[j]);
                } else if i < k && j > k {
                    assert(r@[i] == r0[i] && r@[j] == r0[j - 1]);
                } else {
                    assert(r@[i] == r0[i - 1] && r@[j] == r0[j - 1]);
                }
            }
            vstd::seq_lib::to_multiset_insert(r0, k as int, x);
            assert(r@.to_multiset().add(src@.to_multiset()) =~= r0.to_multiset().add(s0.to_multiset()));
        }
    }
    proof {
        vstd::seq_lib::to_multiset_len(src@);
        vstd::multiset::lemma_multiset_empty_len(src@.to_multiset());
        assert(r@.to_multiset() =~= r@.to_multiset().add(src@.to_multiset()));
    }
    r
}

/// The archived paths to remove so that only the `max_versions` newest of
/// `sorted` (newest first) remain; with 0 every version goes.
pub fn versions_to_remove(sorted: &Vec<FileVersion>, max_versions: usize) -> (r: Vec<String>)
    ensures
        r@.len() == if sorted@.len() > max_versions { sorted@.len() - max_versions } else { 0 },
        forall|i: int| 0 <= i < r@.len() ==> (#[trigger] r@[i])@ == sorted@[max_versions + i].abs_path@,
{
    let mut r: Vec<String> = Vec::new();
    let mut i: usize = max_versions;
    while i < sorted.len()
        invariant
            max_versions <= i,
            i >= sorted.len() ==> r@.len() == if sorted@.len() > max_versions { sorted@.len() - max_versions } else { 0 },
            i < sorted.len() ==> r@.len() == i - max_versions,
            forall|m: int| 0 <= m < r@.len() ==> (#[trigger] r@[m])@ == sorted@[max_versions + m].abs_path@,
        decreases sorted.len() - i,
    {
        r.push(sorted[i].abs_path.clone());
        i = i + 1;
    }
    r
}

} // verus!
