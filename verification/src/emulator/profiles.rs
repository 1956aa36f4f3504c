//! The catalogue of known emulators, driven by data: each entry declares where
//! the emulator keeps its files and which folders identify it. Adding a known
//! emulator means adding data, not code.
use vstd::prelude::*;
use crate::text::{lemma_views_push, clone_strings, contains_str, contains_view, join_path, join_rel, str_eq, views};
use super::{EmulatorProfile, EmulatorProfileView};

verus! {

broadcast use lemma_views_push;

/// Declarative description of an emulator.
pub struct ProfileSpec {
    /// Canonical name (becomes the folder name in the Drive).
    pub name: String,
    /// OS process names, used by the process watcher.
    pub process_names: Vec<String>,
    /// Base candidates relative to the root; the first existing one is used.
    /// Empty: the root itself is the base.
    pub base_candidates: Vec<String>,
    /// Folders (under the base) that must ALL exist.
    pub required: Vec<String>,
    /// Folders (under the base) of which at least ONE must exist (when any).
    pub markers: Vec<String>,
    /// Save folders, relative to the base.
    pub saves: Vec<String>,
    /// Savestate folders, relative to the base.
    pub states: Vec<String>,
    /// Configuration folders, relative to the base.
    pub config: Vec<String>,
}

/// Mathematical view of a [`ProfileSpec`].
pub struct ProfileSpecView {
    pub name: Seq<char>,
    pub process_names: Seq<Seq<char>>,
    pub base_candidates: Seq<Seq<char>>,
    pub required: Seq<Seq<char>>,
    pub markers: Seq<Seq<char>>,
    pub saves: Seq<Seq<char>>,
    pub states: Seq<Seq<char>>,
    pub config: Seq<Seq<char>>,
}

impl View for ProfileSpec {
    type V = ProfileSpecView;

    open spec fn view(&self) -> ProfileSpecView {
        ProfileSpecView {
            name: self.name@,
            process_names: views(self.process_names@),
            base_candidates: views(self.base_candidates@),
            required: views(self.required@),
            markers: views(self.markers@),
            saves: views(self.saves@),
            states: views(self.states@),
            config: views(self.config@),
        }
    }
}

/// Position of the first candidate that exists; `c.len()` when none does.
pub open spec fn first_existing(c: Seq<Seq<char>>, existing: Seq<String>) -> int
    decreases c.len(),
{
    if c.len() == 0 {
        0
    } else if contains_view(existing, c[0]) {
        0
    } else {
        1 + first_existing(c.drop_first(), existing)
    }
}

/// The base folder of a profile under the existing folders, if it resolves.
pub open spec fn spec_base(s: ProfileSpecView, existing: Seq<String>) -> Option<Seq<char>> {
    if s.base_candidates.len() == 0 {
        Some(Seq::empty())
    } else {
        let i = first_existing(s.base_candidates, existing);
        if i < s.base_candidates.len() {
            Some(s.base_candidates[i])
        } else {
            None
        }
    }
}

/// Each folder of `dirs` joined under `base`.
pub open spec fn join_all(base: Seq<char>, dirs: Seq<Seq<char>>) -> Seq<Seq<char>> {
    dirs.map_values(|d: Seq<char>| join_rel(base, d))
}

pub open spec fn all_exist(base: Seq<char>, dirs: Seq<Seq<char>>, existing: Seq<String>) -> bool {
    forall|k: int| 0 <= k < dirs.len() ==> contains_view(existing, #[trigger] join_rel(base, dirs[k]))
}

pub open spec fn any_exists(base: Seq<char>, dirs: Seq<Seq<char>>, existing: Seq<String>) -> bool {
    exists|k: int| 0 <= k < dirs.len() && contains_view(existing, #[trigger] join_rel(base, dirs[k]))
}

/// The profile that `s` describes for `root`, when its folders are present.
pub open spec fn spec_try_match(root: Seq<char>, s: ProfileSpecView, existing: Seq<String>) -> Option<
    EmulatorProfileView,
> {
    match spec_base(s, existing) {
        None => None,
        Some(base) => if all_exist(base, s.required, existing) && (s.markers.len() == 0
            || any_exists(base, s.markers, existing)) {
            Some(
                EmulatorProfileView {
                    name: s.name,
                    root_path: root,
                    saves_paths: join_all(base, s.saves),
                    config_paths: join_all(base, s.config),
                    state_paths: join_all(base, s.states),
                },
            )
        } else {
            None
        },
    }
}

/// The first profile of `cat` that matches.
pub open spec fn spec_detect_in(cat: Seq<ProfileSpecView>, root: Seq<char>, existing: Seq<String>) -> Option<
    EmulatorProfileView,
>
    decreases cat.len(),
{
    if cat.len() == 0 {
        None
    } else {
        match spec_try_match(root, cat[0], existing) {
            Some(p) => Some(p),
            None => spec_detect_in(cat.drop_first(), root, existing),
        }
    }
}

/// The built-in catalogue: PPSSPP, then PCSX2.
pub open spec fn catalog() -> Seq<ProfileSpecView> {
    seq![super::ppsspp::spec_profile(), super::pcsx2::spec_profile()]
}

/// The emulator detected under `root` from the existing folders.
pub open spec fn spec_detect(root: Seq<char>, existing: Seq<String>) -> Option<EmulatorProfileView> {
    spec_detect_in(catalog(), root, existing)
}

/// Process names of the first profile of `cat` named `name`; empty if none.
pub open spec fn process_names_in(cat: Seq<ProfileSpecView>, name: Seq<char>) -> Seq<Seq<char>>
    decreases cat.len(),
{
    if cat.len() == 0 {
        Seq::empty()
    } else if cat[0].name == name {
        cat[0].process_names
    } else {
        process_names_in(cat.drop_first(), name)
    }
}

pub open spec fn spec_process_names(name: Seq<char>) -> Seq<Seq<char>> {
    process_names_in(catalog(), name)
}

/// The bases a profile may resolve to.
pub open spec fn possible_bases(s: ProfileSpecView) -> Seq<Seq<char>> {
    if s.base_candidates.len() == 0 {
        seq![Seq::<char>::empty()]
    } else {
        s.base_candidates
    }
}

/// `dirs` joined under each base of `bases`, base after base.
pub open spec fn joined_under(bases: Seq<Seq<char>>, dirs: Seq<Seq<char>>) -> Seq<Seq<char>>
    decreases bases.len(),
{
    if bases.len() == 0 {
        Seq::empty()
    } else {
        joined_under(bases.drop_last(), dirs) + join_all(bases.last(), dirs)
    }
}

/// Every folder whose existence matching `s` may consult.
pub open spec fn candidates_of(s: ProfileSpecView) -> Seq<Seq<char>> {
    s.base_candidates + joined_under(possible_bases(s), s.required + s.markers)
}

/// Every folder whose existence detection over `cat` may consult.
pub open spec fn spec_candidate_dirs(cat: Seq<ProfileSpecView>) -> Seq<Seq<char>>
    decreases cat.len(),
{
    if cat.len() == 0 {
        Seq::empty()
    } else {
        spec_candidate_dirs(cat.drop_last()) + candidates_of(cat.last())
    }
}

/// `e1` and `e2` agree on whether each folder of `dirs` exists.
pub open spec fn agree_on(e1: Seq<String>, e2: Seq<String>, dirs: Seq<Seq<char>>) -> bool {
    forall|x: Seq<char>| dirs.contains(x) ==> (contains_view(e1, x) <==> contains_view(e2, x))
}

proof fn lemma_first_existing_agrees(c: Seq<Seq<char>>, e1: Seq<String>, e2: Seq<String>)
    requires
        agree_on(e1, e2, c),
    ensures
        first_existing(c, e1) == first_existing(c, e2),
    decreases c.len(),
{
    if c.len() > 0 {
        assert(c.contains(c[0]));
        assert forall|x: Seq<char>| c.drop_first().contains(x) implies (contains_view(e1, x) <==> contains_view(e2, x)) by {
            let k = choose|k: int| 0 <= k < c.drop_first().len() && c.drop_first()[k] == x;
            assert(c[k + 1] == x);
            assert(c.contains(x));
        }
        lemma_first_existing_agrees(c.drop_first(), e1, e2);
    }
}

proof fn lemma_first_existing_nonneg(c: Seq<Seq<char>>, e: Seq<String>)
    ensures
        0 <= first_existing(c, e) <= c.len(),
    decreases c.len(),
{
    if c.len() > 0 {
        lemma_first_existing_nonneg(c.drop_first(), e);
    }
}

proof fn lemma_joined_under_contains(bases: Seq<Seq<char>>, dirs: Seq<Seq<char>>, i: int, j: int)
    requires
        0 <= i < bases.len(),
        0 <= j < dirs.len(),
    ensures
        joined_under(bases, dirs).contains(join_rel(bases[i], dirs[j])),
    decreases bases.len(),
{
    let rest = joined_under(bases.drop_last(), dirs);
    let tail = join_all(bases.last(), dirs);
    if i == bases.len() - 1 {
        assert(tail[j] == join_rel(bases[i], dirs[j]));
        assert((rest + tail)[rest.len() + j] == tail[j]);
    } else {
        lemma_joined_under_contains(bases.drop_last(), dirs, i, j);
        let k = choose|k: int| 0 <= k < rest.len() && rest[k] == join_rel(bases[i], dirs[j]);
        assert((rest + tail)[k] == rest[k]);
    }
}

proof fn lemma_try_match_agrees(root: Seq<char>, s: ProfileSpecView, e1: Seq<String>, e2: Seq<String>)
    requires
        agree_on(e1, e2, candidates_of(s)),
    ensures
        spec_try_match(root, s, e1) == spec_try_match(root, s, e2),
{
    let cands = candidates_of(s);
    assert forall|x: Seq<char>| s.base_candidates.contains(x) implies (contains_view(e1, x) <==> contains_view(e2, x)) by {
        let k = choose|k: int| 0 <= k < s.base_candidates.len() && s.base_candidates[k] == x;
        assert(cands[k] == x);
        assert(cands.contains(x));
    }
    lemma_first_existing_agrees(s.base_candidates, e1, e2);
    match spec_base(s, e1) {
        None => {},
        Some(base) => {
            let bases = possible_bases(s);
            let dirs = s.required + s.markers;
            lemma_first_existing_nonneg(s.base_candidates, e1);
            let bi: int = if s.base_candidates.len() == 0 { 0 } else { first_existing(s.base_candidates, e1) };
            assert(bases[bi] == base);
            assert forall|x: Seq<char>| joined_under(bases, dirs).contains(x) implies (contains_view(e1, x) <==> contains_view(e2, x)) by {
                let k = choose|k: int| 0 <= k < joined_under(bases, dirs).len() && joined_under(bases, dirs)[k] == x;
                assert(cands[s.base_candidates.len() + k] == x);
                assert(cands.contains(x));
            }
            assert forall|k: int| 0 <= k < s.required.len() implies
                (contains_view(e1, #[trigger] join_rel(base, s.required[k])) <==> contains_view(e2, join_rel(base, s.required[k]))) by {
                assert(dirs[k] == s.required[k]);
                lemma_joined_under_contains(bases, dirs, bi, k);
            }
            assert forall|k: int| 0 <= k < s.markers.len() implies
                (contains_view(e1, #[trigger] join_rel(base, s.markers[k])) <==> contains_view(e2, join_rel(base, s.markers[k]))) by {
                assert(dirs[s.required.len() + k] == s.markers[k]);
                lemma_joined_under_contains(bases, dirs, bi, s.required.len() + k);
            }
            assert(all_exist(base, s.required, e1) == all_exist(base, s.required, e2));
            assert(any_exists(base, s.markers, e1) == any_exists(base, s.markers, e2));
        },
    }
}

proof fn lemma_candidates_within(cat: Seq<ProfileSpecView>, k: int, x: Seq<char>)
    requires
        0 <= k < cat.len(),
        candidates_of(cat[k]).contains(x),
    ensures
        spec_candidate_dirs(cat).contains(x),
    decreases cat.len(),
{
    let rest = spec_candidate_dirs(cat.drop_last());
    let tail = candidates_of(cat.last());
    if k == cat.len() - 1 {
        let i = choose|i: int| 0 <= i < tail.len() && tail[i] == x;
        assert((rest + tail)[rest.len() + i] == x);
    } else {
        assert(cat.drop_last()[k] == cat[k]);
        lemma_candidates_within(cat.drop_last(), k, x);
        let i = choose|i: int| 0 <= i < rest.len() && rest[i] == x;
        assert((rest + tail)[i] == x);
    }
}

proof fn lemma_detect_in_agrees(cat: Seq<ProfileSpecView>, root: Seq<char>, e1: Seq<String>, e2: Seq<String>)
    requires
        forall|k: int| 0 <= k < cat.len() ==> agree_on(e1, e2, candidates_of(#[trigger] cat[k])),
    ensures
        spec_detect_in(cat, root, e1) == spec_detect_in(cat, root, e2),
    decreases cat.len(),
{
    if cat.len() > 0 {
        lemma_try_match_agrees(root, cat[0], e1, e2);
        assert forall|k: int| 0 <= k < cat.drop_first().len() implies agree_on(e1, e2, candidates_of(#[trigger] cat.drop_first()[k])) by {
            assert(cat.drop_first()[k] == cat[k + 1]);
        }
        lemma_detect_in_agrees(cat.drop_first(), root, e1, e2);
    }
}

/// Detection depends only on which of the candidate folders exist: two
/// listings of existing folders that agree on every candidate detect the same
/// emulator (or none), so probing the candidates is enough.
pub proof fn lemma_detect_reads_only_candidates(root: Seq<char>, e1: Seq<String>, e2: Seq<String>)
    requires
        agree_on(e1, e2, spec_candidate_dirs(catalog())),
    ensures
        spec_detect(root, e1) == spec_detect(root, e2),
{
    let cat = catalog();
    assert forall|k: int| 0 <= k < cat.len() implies agree_on(e1, e2, candidates_of(#[trigger] cat[k])) by {
        assert forall|x: Seq<char>| candidates_of(cat[k]).contains(x) implies (contains_view(e1, x) <==> contains_view(e2, x)) by {
            lemma_candidates_within(cat, k, x);
        }
    }
    lemma_detect_in_agrees(cat, root, e1, e2);
}

proof fn lemma_first_existing_step(c: Seq<Seq<char>>, existing: Seq<String>, i: int)
    requires
        0 <= i < c.len(),
        !contains_view(existing, c[i]),
    ensures
        first_existing(c.subrange(i, c.len() as int), existing) == 1 + first_existing(
            c.subrange(i + 1, c.len() as int),
            existing,
        ),
{
    let s = c.subrange(i, c.len() as int);
    assert(s[0] == c[i]);
    assert(s.drop_first() =~= c.subrange(i + 1, c.len() as int));
}

/// Position of the first candidate that exists, `c.len()` if none.
fn first_existing_index(c: &Vec<String>, existing: &Vec<String>) -> (r: usize)
    ensures
        r as int == first_existing(views(c@), existing@),
        r <= c.len(),
{
    let ghost cv = views(c@);
    let mut i: usize = 0;
    assert(cv.subrange(0, cv.len() as int) =~= cv);
    while i < c.len()
        invariant
            cv == views(c@),
            i <= c.len(),
            first_existing(cv, existing@) == i + first_existing(
                cv.subrange(i as int, cv.len() as int),
                existing@,
            ),
        decreases c.len() - i,
    {
        if contains_str(existing, c[i].as_str()) {
            proof {
                let s = cv.subrange(i as int, cv.len() as int);
                assert(s[0] == cv[i as int]);
            }
            return i;
        }
        proof {
            lemma_first_existing_step(cv, existing@, i as int);
        }
        i = i + 1;
    }
    proof {
        assert(cv.subrange(i as int, cv.len() as int) =~= Seq::<Seq<char>>::empty());
    }
    i
}

/// Every folder of `dirs` joined under `base` exists.
fn all_exist_under(base: &str, dirs: &Vec<String>, existing: &Vec<String>) -> (r: bool)
    ensures
        r == all_exist(base@, views(dirs@), existing@),
{
    let mut k: usize = 0;
    while k < dirs.len()
        invariant
            k <= dirs.len(),
            forall|j: int|
                0 <= j < k ==> contains_view(existing@, #[trigger] join_rel(base@, views(dirs@)[j])),
        decreases dirs.len() - k,
    {
        let p = join_path(base, dirs[k].as_str());
        if !contains_str(existing, p.as_str()) {
            assert(!contains_view(existing@, join_rel(base@, views(dirs@)[k as int])));
            return false;
        }
        k = k + 1;
    }
    true
}

/// Some folder of `dirs` joined under `base` exists.
fn any_exists_under(base: &str, dirs: &Vec<String>, existing: &Vec<String>) -> (r: bool)
    ensures
        r == any_exists(base@, views(dirs@), existing@),
{
    let mut k: usize = 0;
    while k < dirs.len()
        invariant
            k <= dirs.len(),
            forall|j: int|
                0 <= j < k ==> !contains_view(existing@, #[trigger] join_rel(base@, views(dirs@)[j])),
        decreases dirs.len() - k,
    {
        let p = join_path(base, dirs[k].as_str());
        if contains_str(existing, p.as_str()) {
            assert(contains_view(existing@, join_rel(base@, views(dirs@)[k as int])));
            return true;
        }
        k = k + 1;
    }
    false
}

/// Every folder of `dirs` joined under `base`.
fn join_each(base: &str, dirs: &Vec<String>) -> (r: Vec<String>)
    ensures
        views(r@) == join_all(base@, views(dirs@)),
{
    let mut r: Vec<String> = Vec::new();
    let mut k: usize = 0;
    while k < dirs.len()
        invariant
            k <= dirs.len(),
            views(r@) == join_all(base@, views(dirs@)).subrange(0, k as int),
        decreases dirs.len() - k,
    {
        let p = join_path(base, dirs[k].as_str());
        r.push(p);
        k = k + 1;
        assert(views(r@) =~= join_all(base@, views(dirs@)).subrange(0, k as int));
    }
    assert(views(r@) =~= join_all(base@, views(dirs@)));
    r
}

/// Tries to match one profile against the folders under `root`. `None` when
/// the base or the identifying folders are missing.
pub fn try_match(root: &str, spec: &ProfileSpec, existing: &Vec<String>) -> (r: Option<
    EmulatorProfile,
>)
    ensures
        match r {
            Some(p) => spec_try_match(root@, spec@, existing@) == Some(p@),
            None => spec_try_match(root@, spec@, existing@) is None,
        },
{
    let base: String = if spec.base_candidates.len() == 0 {
        String::new()
    } else {
        let i = first_existing_index(&spec.base_candidates, existing);
        if i == spec.base_candidates.len() {
            return None;
        }
        spec.base_candidates[i].clone()
    };
    assert(spec_base(spec@, existing@) == Some(base@));
    if !all_exist_under(base.as_str(), &spec.required, existing) {
        return None;
    }
    if spec.markers.len() > 0 && !any_exists_under(base.as_str(), &spec.markers, existing) {
        return None;
    }
    Some(
        EmulatorProfile {
            name: spec.name.clone(),
            root_path: root.to_owned(),
            saves_paths: join_each(base.as_str(), &spec.saves),
            config_paths: join_each(base.as_str(), &spec.config),
            state_paths: join_each(base.as_str(), &spec.states),
        },
    )
}

/// The built-in catalogue.
pub fn specs() -> (r: Vec<ProfileSpec>)
    ensures
        r@.map_values(|s: ProfileSpec| s@) == catalog(),
{
    let mut r: Vec<ProfileSpec> = Vec::new();
    r.push(super::ppsspp::profile_spec());
    r.push(super::pcsx2::profile_spec());
    assert(r@.map_values(|s: ProfileSpec| s@) =~= catalog());
    r
}

/// Identifies the emulator under `root` by trying each profile of the
/// catalogue in turn.
pub fn detect(root: &str, existing: &Vec<String>) -> (r: Option<EmulatorProfile>)
    ensures
        match r {
            Some(p) => spec_detect(root@, existing@) == Some(p@),
            None => spec_detect(root@, existing@) is None,
        },
{
    let cat = specs();
    let ghost cv = cat@.map_values(|s: ProfileSpec| s@);
    let mut i: usize = 0;
    assert(cv.subrange(0, cv.len() as int) =~= cv);
    while i < cat.len()
        invariant
            cv == cat@.map_values(|s: ProfileSpec| s@),
            cv == catalog(),
            i <= cat.len(),
            spec_detect_in(cv, root@, existing@) == spec_detect_in(
                cv.subrange(i as int, cv.len() as int),
                root@,
                existing@,
            ),
        decreases cat.len() - i,
    {
        let ghost rest = cv.subrange(i as int, cv.len() as int);
        assert(rest[0] == cat@[i as int]@);
        match try_match(root, &cat[i], existing) {
            Some(p) => {
                return Some(p);
            },
            None => {},
        }
        assert(rest.drop_first() =~= cv.subrange(i + 1, cv.len() as int));
        i = i + 1;
    }
    assert(cv.subrange(i as int, cv.len() as int) =~= Seq::<ProfileSpecView>::empty());
    None
}

/// Process names of the emulator with canonical name `name`; empty if unknown.
pub fn process_names(name: &str) -> (r: Vec<String>)
    ensures
        views(r@) == spec_process_names(name@),
{
    let cat = specs();
    let ghost cv = cat@.map_values(|s: ProfileSpec| s@);
    let mut i: usize = 0;
    assert(cv.subrange(0, cv.len() as int) =~= cv);
    while i < cat.len()
        invariant
            cv == cat@.map_values(|s: ProfileSpec| s@),
            cv == catalog(),
            i <= cat.len(),
            process_names_in(cv, name@) == process_names_in(
                cv.subrange(i as int, cv.len() as int),
                name@,
            ),
        decreases cat.len() - i,
    {
        let ghost rest = cv.subrange(i as int, cv.len() as int);
        assert(rest[0] == cat@[i as int]@);
        if str_eq(cat[i].name.as_str(), name) {
            return clone_strings(&cat[i].process_names);
        }
        assert(rest.drop_first() =~= cv.subrange(i + 1, cv.len() as int));
        i = i + 1;
    }
    assert(cv.subrange(i as int, cv.len() as int) =~= Seq::<ProfileSpecView>::empty());
    Vec::new()
}

/// Appends `dirs` joined under `base` to `r`.
fn push_joined(r: &mut Vec<String>, base: &str, dirs: &Vec<String>)
    ensures
        views(final(r)@) == views(old(r)@) + join_all(base@, views(dirs@)),
{
    let ghost start = views(r@);
    let mut k: usize = 0;
    while k < dirs.len()
        invariant
            k <= dirs.len(),
            views(r@) == start + join_all(base@, views(dirs@)).subrange(0, k as int),
        decreases dirs.len() - k,
    {
        let p = join_path(base, dirs[k].as_str());
        r.push(p);
        k = k + 1;
        assert(views(r@) =~= start + join_all(base@, views(dirs@)).subrange(0, k as int));
    }
    assert(join_all(base@, views(dirs@)).subrange(0, k as int) =~= join_all(base@, views(dirs@)));
}

/// Every folder whose existence matching `s` may consult.
fn candidates_for(s: &ProfileSpec) -> (r: Vec<String>)
    ensures
        views(r@) == candidates_of(s@),
{
    let mut r = clone_strings(&s.base_candidates);
    let ghost dirs = s@.required + s@.markers;
    let ghost bases = possible_bases(s@);
    let mut bases_v: Vec<String> = if s.base_candidates.len() == 0 {
        let mut b: Vec<String> = Vec::new();
        b.push(String::new());
        b
    } else {
        clone_strings(&s.base_candidates)
    };
    assert(views(bases_v@) =~= bases);
    let mut i: usize = 0;
    assert(bases.subrange(0, 0) =~= Seq::<Seq<char>>::empty());
    while i < bases_v.len()
        invariant
            views(bases_v@) == bases,
            i <= bases_v.len(),
            dirs == s@.required + s@.markers,
            views(r@) == s@.base_candidates + joined_under(bases.subrange(0, i as int), dirs),
        decreases bases_v.len() - i,
    {
        let ghost before = views(r@);
        push_joined(&mut r, bases_v[i].as_str(), &s.required);
        push_joined(&mut r, bases_v[i].as_str(), &s.markers);
        proof {
            let b = bases.subrange(0, i + 1);
            assert(b.drop_last() =~= bases.subrange(0, i as int));
            assert(b.last() == bases_v@[i as int]@);
            assert(join_all(b.last(), dirs) =~= join_all(b.last(), s@.required) + join_all(
                b.last(),
                s@.markers,
            ));
            assert(views(r@) =~= s@.base_candidates + joined_under(b, dirs));
        }
        i = i + 1;
    }
    assert(bases.subrange(0, i as int) =~= bases);
    r
}

/// Every folder whose existence detection may consult, profile after profile.
pub fn candidate_dirs() -> (r: Vec<String>)
    ensures
        views(r@) == spec_candidate_dirs(catalog()),
{
    let cat = specs();
    let ghost cv = cat@.map_values(|s: ProfileSpec| s@);
    let mut r: Vec<String> = Vec::new();
    let mut i: usize = 0;
    assert(cv.subrange(0, 0) =~= Seq::<ProfileSpecView>::empty());
    while i < cat.len()
        invariant
            cv == cat@.map_values(|s: ProfileSpec| s@),
            cv == catalog(),
            i <= cat.len(),
            views(r@) == spec_candidate_dirs(cv.subrange(0, i as int)),
        decreases cat.len() - i,
    {
        let c = candidates_for(&cat[i]);
        let ghost before = views(r@);
        let mut k: usize = 0;
        while k < c.len()
            invariant
                k <= c.len(),
                views(r@) == before + views(c@).subrange(0, k as int),
            decreases c.len() - k,
        {
            r.push(c[k].clone());
            k = k + 1;
            assert(views(r@) =~= before + views(c@).subrange(0, k as int));
        }
        proof {
            let p = cv.subrange(0, i + 1);
            assert(p.drop_last() =~= cv.subrange(0, i as int));
            assert(p.last() == cat@[i as int]@);
            assert(views(c@).subrange(0, k as int) =~= views(c@));
        }
        i = i + 1;
    }
    assert(cv.subrange(0, i as int) =~= cv);
    r
}

/// The position `first_existing` gives is that of the first candidate that
/// exists (or the length when none does).
proof fn lemma_first_existing(c: Seq<Seq<char>>, existing: Seq<String>)
    ensures
        0 <= first_existing(c, existing) <= c.len(),
        forall|j: int| 0 <= j < first_existing(c, existing) ==> !contains_view(existing, #[trigger] c[j]),
        first_existing(c, existing) < c.len() ==> contains_view(existing, c[first_existing(c, existing)]),
    decreases c.len(),
{
    if c.len() > 0 && !contains_view(existing, c[0]) {
        let t = c.drop_first();
        lemma_first_existing(t, existing);
        assert forall|j: int| 0 <= j < first_existing(c, existing) implies !contains_view(existing, #[trigger] c[j]) by {
            if j > 0 {
                assert(c[j] == t[j - 1]);
            }
        }
        if first_existing(c, existing) < c.len() {
            assert(c[first_existing(c, existing)] == t[first_existing(t, existing)]);
        }
    }
}

/// A detected profile places all its folders under one base: the first
/// candidate base that exists (the root itself when the catalogue entry has no
/// candidates). Each save, config and savestate folder is the declared folder
/// joined under that base, one for one and in order.
pub proof fn lemma_profile_folders_under_base(root: Seq<char>, s: ProfileSpecView, existing: Seq<String>)
    requires
        spec_try_match(root, s, existing) is Some,
    ensures
        ({
            let p = spec_try_match(root, s, existing)->0;
            let base = spec_base(s, existing)->0;
            &&& spec_base(s, existing) is Some
            &&& (s.base_candidates.len() == 0 ==> base == Seq::<char>::empty())
            &&& (s.base_candidates.len() > 0 ==> exists|i: int|
                0 <= i < s.base_candidates.len() && #[trigger] s.base_candidates[i] == base
                    && contains_view(existing, base) && forall|j: int|
                    0 <= j < i ==> !contains_view(existing, #[trigger] s.base_candidates[j]))
            &&& p.saves_paths.len() == s.saves.len()
            &&& p.config_paths.len() == s.config.len()
            &&& p.state_paths.len() == s.states.len()
            &&& forall|k: int| 0 <= k < s.saves.len() ==> #[trigger] p.saves_paths[k] == join_rel(base, s.saves[k])
            &&& forall|k: int| 0 <= k < s.config.len() ==> #[trigger] p.config_paths[k] == join_rel(base, s.config[k])
            &&& forall|k: int| 0 <= k < s.states.len() ==> #[trigger] p.state_paths[k] == join_rel(base, s.states[k])
        }),
{
    lemma_first_existing(s.base_candidates, existing);
    let base = spec_base(s, existing)->0;
    let p = spec_try_match(root, s, existing)->0;
    if s.base_candidates.len() > 0 {
        let i = first_existing(s.base_candidates, existing);
        assert(s.base_candidates[i] == base);
    }
    assert forall|k: int| 0 <= k < s.saves.len() implies #[trigger] p.saves_paths[k] == join_rel(base, s.saves[k]) by {}
    assert forall|k: int| 0 <= k < s.config.len() implies #[trigger] p.config_paths[k] == join_rel(base, s.config[k]) by {}
    assert forall|k: int| 0 <= k < s.states.len() implies #[trigger] p.state_paths[k] == join_rel(base, s.states[k]) by {}
}

} // verus!
