//! Text helpers over the character view of strings: lexicographic order,
//! prefixes and suffixes, searching and splitting.
use vstd::prelude::*;
use vstd::string::*;

verus! {

/// Lexicographic order on character sequences, comparing characters by code
/// point. This is the order of `String`'s `Ord`, since UTF-8 preserves it.
pub open spec fn lex_lt(a: Seq<char>, b: Seq<char>) -> bool
    decreases a.len(),
{
    if a.len() == 0 {
        b.len() > 0
    } else if b.len() == 0 {
        false
    } else if (a[0] as int) < (b[0] as int) {
        true
    } else if a[0] == b[0] {
        lex_lt(a.drop_first(), b.drop_first())
    } else {
        false
    }
}

pub proof fn lemma_lex_irreflexive(a: Seq<char>)
    ensures
        !lex_lt(a, a),
    decreases a.len(),
{
    if a.len() > 0 {
        lemma_lex_irreflexive(a.drop_first());
    }
}

pub proof fn lemma_lex_transitive(a: Seq<char>, b: Seq<char>, c: Seq<char>)
    requires
        lex_lt(a, b),
        lex_lt(b, c),
    ensures
        lex_lt(a, c),
    decreases a.len(),
{
    if a.len() > 0 && b.len() > 0 && c.len() > 0 {
        if a[0] == b[0] && b[0] == c[0] {
            lemma_lex_transitive(a.drop_first(), b.drop_first(), c.drop_first());
        }
    }
}

pub proof fn lemma_lex_total(a: Seq<char>, b: Seq<char>)
    requires
        a != b,
    ensures
        lex_lt(a, b) || lex_lt(b, a),
    decreases a.len(),
{
    if a.len() == 0 {
        assert(b.len() > 0) by {
            if b.len() == 0 {
                assert(a =~= b);
            }
        }
    } else if b.len() == 0 {
    } else if a[0] == b[0] {
        if a.drop_first() == b.drop_first() {
            assert(a =~= seq![a[0]] + a.drop_first());
            assert(b =~= seq![b[0]] + b.drop_first());
        }
        lemma_lex_total(a.drop_first(), b.drop_first());
    } else {
        assert((a[0] as int) != (b[0] as int));
    }
}

pub proof fn lemma_lex_asymmetric(a: Seq<char>, b: Seq<char>)
    requires
        lex_lt(a, b),
    ensures
        !lex_lt(b, a),
{
    if lex_lt(b, a) {
        lemma_lex_transitive(a, b, a);
        lemma_lex_irreflexive(a);
    }
}

/// The characters of a sequence, strictly increasing in lexicographic order.
pub open spec fn strictly_sorted(s: Seq<Seq<char>>) -> bool {
    forall|i: int, j: int| 0 <= i < j < s.len() ==> lex_lt(#[trigger] s[i], #[trigger] s[j])
}

/// `s` begins with `p`.
pub open spec fn has_prefix(s: Seq<char>, p: Seq<char>) -> bool {
    p.len() <= s.len() && s.subrange(0, p.len() as int) == p
}

/// `s` ends with `p`.
pub open spec fn has_suffix(s: Seq<char>, p: Seq<char>) -> bool {
    p.len() <= s.len() && s.subrange(s.len() - p.len(), s.len() as int) == p
}

/// `i` is the position of the last `c` in `s`.
pub open spec fn is_last_index(s: Seq<char>, c: char, i: int) -> bool {
    0 <= i < s.len() && s[i] == c && forall|j: int| i < j < s.len() ==> s[j] != c
}

/// `i` is the position of the first `c` in `s`.
pub open spec fn is_first_index(s: Seq<char>, c: char, i: int) -> bool {
    0 <= i < s.len() && s[i] == c && forall|j: int| 0 <= j < i ==> s[j] != c
}

/// The pieces of `s` between the separators `sep`, as `str::split` yields
/// them (empty pieces included; a string without separator is one piece).
pub open spec fn split_on(s: Seq<char>, sep: char) -> Seq<Seq<char>>
    decreases s.len(),
{
    if exists|i: int| is_first_index(s, sep, i) {
        let i = choose|i: int| is_first_index(s, sep, i);
        seq![s.subrange(0, i)] + split_on(s.subrange(i + 1, s.len() as int), sep)
    } else {
        seq![s]
    }
}

pub proof fn lemma_first_index_unique(s: Seq<char>, c: char, i: int, j: int)
    requires
        is_first_index(s, c, i),
        is_first_index(s, c, j),
    ensures
        i == j,
{
}

/// The characters of `s`.
pub fn chars_of(s: &str) -> (v: Vec<char>)
    ensures
        v@ == s@,
{
    let n = s.unicode_len();
    let mut v: Vec<char> = Vec::new();
    let mut i: usize = 0;
    while i < n
        invariant
            n == s@.len(),
            i <= n,
            v@ == s@.subrange(0, i as int),
        decreases n - i,
    {
        let c = s.get_char(i);
        v.push(c);
        i = i + 1;
        assert(v@ =~= s@.subrange(0, i as int));
    }
    assert(v@ =~= s@);
    v
}

/// The characters of `s` from `from` (inclusive) to `to` (exclusive), owned.
pub fn substring(s: &str, from: usize, to: usize) -> (r: String)
    requires
        from <= to <= s@.len(),
    ensures
        r@ == s@.subrange(from as int, to as int),
{
    s.substring_char(from, to).to_owned()
}

/// `a` comes strictly before `b` in lexicographic order.
pub fn chars_lt(a: &Vec<char>, b: &Vec<char>) -> (r: bool)
    ensures
        r == lex_lt(a@, b@),
{
    let mut i: usize = 0;
    assert(a@.subrange(0, a@.len() as int) =~= a@);
    assert(b@.subrange(0, b@.len() as int) =~= b@);
    while i < a.len() && i < b.len() && a[i] == b[i]
        invariant
            i <= a.len(),
            i <= b.len(),
            lex_lt(a@, b@) == lex_lt(a@.subrange(i as int, a@.len() as int), b@.subrange(i as int, b@.len() as int)),
        decreases a.len() - i,
    {
        proof {
            let sa = a@.subrange(i as int, a@.len() as int);
            let sb = b@.subrange(i as int, b@.len() as int);
            assert(sa.drop_first() =~= a@.subrange(i + 1, a@.len() as int));
            assert(sb.drop_first() =~= b@.subrange(i + 1, b@.len() as int));
        }
        i = i + 1;
    }
    if i == a.len() {
        i < b.len()
    } else if i == b.len() {
        false
    } else {
        a[i] < b[i]
    }
}

/// Character sequences equal.
pub fn chars_eq(a: &Vec<char>, b: &Vec<char>) -> (r: bool)
    ensures
        r == (a@ == b@),
{
    if a.len() != b.len() {
        return false;
    }
    let mut i: usize = 0;
    while i < a.len()
        invariant
            a.len() == b.len(),
            i <= a.len(),
            forall|j: int| 0 <= j < i ==> a@[j] == b@[j],
        decreases a.len() - i,
    {
        if a[i] != b[i] {
            return false;
        }
        i = i + 1;
    }
    assert(a@ =~= b@);
    true
}

/// Position of the last `c` in `v`, if any.
pub fn rfind_char(v: &Vec<char>, c: char) -> (r: Option<usize>)
    ensures
        match r {
            Some(i) => is_last_index(v@, c, i as int),
            None => forall|j: int| 0 <= j < v@.len() ==> v@[j] != c,
        },
{
    let mut i: usize = v.len();
    while i > 0
        invariant
            i <= v.len(),
            forall|j: int| i <= j < v@.len() ==> v@[j] != c,
        decreases i,
    {
        if v[i - 1] == c {
            return Some(i - 1);
        }
        i = i - 1;
    }
    None
}

/// Position of the first `c` in `v` at or after `start`, if any.
pub fn find_char_from(v: &Vec<char>, c: char, start: usize) -> (r: Option<usize>)
    requires
        start <= v.len(),
    ensures
        match r {
            Some(i) => start <= i < v@.len() && v@[i as int] == c && forall|j: int|
                start <= j < i ==> v@[j] != c,
            None => forall|j: int| start <= j < v@.len() ==> v@[j] != c,
        },
{
    let mut i: usize = start;
    while i < v.len()
        invariant
            start <= i <= v.len(),
            forall|j: int| start <= j < i ==> v@[j] != c,
        decreases v.len() - i,
    {
        if v[i] == c {
            return Some(i);
        }
        i = i + 1;
    }
    None
}

/// `v` begins with `p`.
pub fn chars_has_prefix(v: &Vec<char>, p: &Vec<char>) -> (r: bool)
    ensures
        r == has_prefix(v@, p@),
{
    if p.len() > v.len() {
        return false;
    }
    let mut i: usize = 0;
    while i < p.len()
        invariant
            p.len() <= v.len(),
            i <= p.len(),
            forall|j: int| 0 <= j < i ==> v@[j] == p@[j],
        decreases p.len() - i,
    {
        if v[i] != p[i] {
            return false;
        }
        i = i + 1;
    }
    assert(v@.subrange(0, p@.len() as int) =~= p@);
    true
}

/// `v` ends with `p`.
pub fn chars_has_suffix(v: &Vec<char>, p: &Vec<char>) -> (r: bool)
    ensures
        r == has_suffix(v@, p@),
{
    if p.len() > v.len() {
        return false;
    }
    let off = v.len() - p.len();
    let mut i: usize = 0;
    while i < p.len()
        invariant
            p.len() <= v.len(),
            off == v.len() - p.len(),
            i <= p.len(),
            forall|j: int| 0 <= j < i ==> v@[off + j] == p@[j],
        decreases p.len() - i,
    {
        if v[off + i] != p[i] {
            return false;
        }
        i = i + 1;
    }
    assert(v@.subrange(v@.len() - p@.len(), v@.len() as int) =~= p@);
    true
}

/// `a` and `b` hold the same characters.
pub fn str_eq(a: &str, b: &str) -> (r: bool)
    ensures
        r == (a@ == b@),
{
    let va = chars_of(a);
    let vb = chars_of(b);
    chars_eq(&va, &vb)
}

/// Some element of `v` holds the characters of `s`.
pub open spec fn contains_view(v: Seq<String>, s: Seq<char>) -> bool {
    exists|i: int| 0 <= i < v.len() && #[trigger] v[i]@ == s
}

/// Whether some element of `v` holds the characters of `s`.
pub fn contains_str(v: &Vec<String>, s: &str) -> (r: bool)
    ensures
        r == contains_view(v@, s@),
{
    let mut i: usize = 0;
    while i < v.len()
        invariant
            i <= v.len(),
            forall|j: int| 0 <= j < i ==> v@[j]@ != s@,
        decreases v.len() - i,
    {
        if str_eq(v[i].as_str(), s) {
            return true;
        }
        i = i + 1;
    }
    false
}

/// A relative path `b` joined under the relative path `a` with `/`; joining
/// under the empty path gives `b` itself.
pub open spec fn join_rel(a: Seq<char>, b: Seq<char>) -> Seq<char> {
    if a.len() == 0 {
        b
    } else {
        a + seq!['/'] + b
    }
}

/// Joins the relative path `b` under `a` (see [`join_rel`]).
pub fn join_path(a: &str, b: &str) -> (r: String)
    ensures
        r@ == join_rel(a@, b@),
{
    proof {
        reveal_strlit("/");
    }
    if a.unicode_len() == 0 {
        b.to_owned()
    } else {
        a.to_owned().concat("/").concat(b)
    }
}

/// An owned copy of every string of `v`.
pub fn clone_strings(v: &Vec<String>) -> (r: Vec<String>)
    ensures
        r@ == v@,
{
    let mut r: Vec<String> = Vec::new();
    let mut i: usize = 0;
    while i < v.len()
        invariant
            i <= v.len(),
            r@ == v@.subrange(0, i as int),
        decreases v.len() - i,
    {
        r.push(v[i].clone());
        i = i + 1;
        assert(r@ =~= v@.subrange(0, i as int));
    }
    assert(r@ =~= v@);
    r
}

/// The character views of a sequence of strings.
pub open spec fn views(v: Seq<String>) -> Seq<Seq<char>> {
    v.map_values(|s: String| s@)
}

pub broadcast proof fn lemma_views_push(v: Seq<String>, s: String)
    ensures
        #[trigger] views(v.push(s)) == views(v).push(s@),
{
    assert(views(v.push(s)) =~= views(v).push(s@));
}

/// The character views of a sequence of character vectors.
pub open spec fn kv(s: Seq<Vec<char>>) -> Seq<Seq<char>> {
    s.map_values(|v: Vec<char>| v@)
}

pub broadcast proof fn lemma_kv_push(v: Seq<Vec<char>>, x: Vec<char>)
    ensures
        #[trigger] kv(v.push(x)) == kv(v).push(x@),
{
    assert(kv(v.push(x)) =~= kv(v).push(x@));
}

/// The last element of `s` whose key is `p`.
pub open spec fn last_with_key<T>(s: Seq<T>, key: spec_fn(T) -> Seq<char>, p: Seq<char>) -> Option<T>
    decreases s.len(),
{
    if s.len() == 0 {
        None
    } else if key(s.last()) == p {
        Some(s.last())
    } else {
        last_with_key(s.drop_last(), key, p)
    }
}

pub proof fn lemma_last_with_key_at<T>(s: Seq<T>, key: spec_fn(T) -> Seq<char>, p: Seq<char>, i: int)
    requires
        0 <= i < s.len(),
        key(s[i]) == p,
        forall|j: int| i < j < s.len() ==> key(#[trigger] s[j]) != p,
    ensures
        last_with_key(s, key, p) == Some(s[i]),
    decreases s.len(),
{
    if i < s.len() - 1 {
        assert(key(s[s.len() - 1]) != p);
        lemma_last_with_key_at(s.drop_last(), key, p, i);
    }
}

pub proof fn lemma_last_with_key_none<T>(s: Seq<T>, key: spec_fn(T) -> Seq<char>, p: Seq<char>)
    requires
        forall|j: int| 0 <= j < s.len() ==> key(#[trigger] s[j]) != p,
    ensures
        last_with_key(s, key, p) is None,
    decreases s.len(),
{
    if s.len() > 0 {
        assert(key(s[s.len() - 1]) != p);
        lemma_last_with_key_none(s.drop_last(), key, p);
    }
}

/// Position of the last element of `keys` equal to `p`.
pub fn last_index_eq(keys: &Vec<Vec<char>>, p: &Vec<char>) -> (r: Option<usize>)
    ensures
        match r {
            Some(i) => i < keys.len() && keys@[i as int]@ == p@ && forall|j: int|
                i < j < keys.len() ==> (#[trigger] keys@[j])@ != p@,
            None => forall|j: int| 0 <= j < keys.len() ==> (#[trigger] keys@[j])@ != p@,
        },
{
    let mut i: usize = keys.len();
    while i > 0
        invariant
            i <= keys.len(),
            forall|j: int| i <= j < keys.len() ==> (#[trigger] keys@[j])@ != p@,
        decreases i,
    {
        if chars_eq(&keys[i - 1], p) {
            return Some(i - 1);
        }
        i = i - 1;
    }
    None
}

/// First position whose key is not below `x`.
fn first_not_below(keys: &Vec<Vec<char>>, x: &Vec<char>) -> (i: usize)
    ensures
        i <= keys.len(),
        forall|j: int| 0 <= j < i ==> lex_lt(#[trigger] kv(keys@)[j], x@),
        i < keys.len() ==> !lex_lt(kv(keys@)[i as int], x@),
{
    let mut i: usize = 0;
    while i < keys.len()
        invariant
            i <= keys.len(),
            forall|j: int| 0 <= j < i ==> lex_lt(#[trigger] kv(keys@)[j], x@),
        decreases keys.len() - i,
    {
        if !chars_lt(&keys[i], x) {
            return i;
        }
        i = i + 1;
    }
    i
}

/// Adds `x` to a strictly sorted vector of keys, keeping it strictly sorted.
pub fn insert_sorted(keys: &mut Vec<Vec<char>>, x: Vec<char>)
    requires
        strictly_sorted(kv(old(keys)@)),
    ensures
        strictly_sorted(kv(final(keys)@)),
        forall|q: Seq<char>| kv(final(keys)@).contains(q) <==> (kv(old(keys)@).contains(q) || q == x@),
        final(keys)@.len() <= old(keys)@.len() + 1,
{
    let ghost old_k = kv(keys@);
    let i = first_not_below(keys, &x);
    if i < keys.len() && chars_eq(&keys[i], &x) {
        return;
    }
    let ghost xv = x@;
    keys.insert(i, x);
    proof {
        let nk = kv(keys@);
        assert(nk =~= old_k.insert(i as int, xv));
        if i < old_k.len() {
            lemma_lex_total(old_k[i as int], xv);
        }
        assert forall|a: int, b: int| 0 <= a < b < nk.len() implies lex_lt(
            #[trigger] nk[a],
            #[trigger] nk[b],
        ) by {
            if b < i {
            } else if a < i && b == i {
            } else if a < i && b > i {
                if b - 1 > i {
                    lemma_lex_transitive(xv, old_k[i as int], old_k[b - 1]);
                }
                lemma_lex_transitive(old_k[a], xv, old_k[b - 1]);
            } else if a == i {
                if b - 1 > i {
                    lemma_lex_transitive(xv, old_k[i as int], old_k[b - 1]);
                }
            } else {
                assert(nk[a] == old_k[a - 1]);
                assert(nk[b] == old_k[b - 1]);
            }
        }
        assert forall|q: Seq<char>| nk.contains(q) <==> (old_k.contains(q) || q == xv) by {
            if nk.contains(q) {
                let k = choose|k: int| 0 <= k < nk.len() && nk[k] == q;
                if k < i {
                    assert(old_k[k] == q);
                } else if k > i {
                    assert(old_k[k - 1] == q);
                }
            }
            if old_k.contains(q) {
                let k = choose|k: int| 0 <= k < old_k.len() && old_k[k] == q;
                if k < i {
                    assert(nk[k] == q);
                } else {
                    assert(nk[k + 1] == q);
                }
            }
            if q == xv {
                assert(nk[i as int] == q);
            }
        }
    }
}

pub proof fn lemma_last_with_key_some_iff<T>(s: Seq<T>, key: spec_fn(T) -> Seq<char>, p: Seq<char>)
    ensures
        last_with_key(s, key, p) is Some <==> exists|j: int| 0 <= j < s.len() && key(#[trigger] s[j]) == p,
        last_with_key(s, key, p) is Some ==> key(last_with_key(s, key, p)->0) == p,
    decreases s.len(),
{
    if s.len() > 0 {
        lemma_last_with_key_some_iff(s.drop_last(), key, p);
        if key(s.last()) != p {
            if exists|j: int| 0 <= j < s.len() && key(#[trigger] s[j]) == p {
                let j = choose|j: int| 0 <= j < s.len() && key(#[trigger] s[j]) == p;
                assert(s.drop_last()[j] == s[j]);
            }
        }
    }
}

/// A copy of a character vector.
pub fn copy_chars(v: &Vec<char>) -> (r: Vec<char>)
    ensures
        r@ == v@,
{
    let mut r: Vec<char> = Vec::new();
    let mut i: usize = 0;
    while i < v.len()
        invariant
            i <= v.len(),
            r@ == v@.subrange(0, i as int),
        decreases v.len() - i,
    {
        r.push(v[i]);
        i = i + 1;
        assert(r@ =~= v@.subrange(0, i as int));
    }
    assert(r@ =~= v@);
    r
}

/// A strictly sorted sequence holds no element twice.
pub proof fn lemma_strictly_sorted_no_duplicates(s: Seq<Seq<char>>)
    requires
        strictly_sorted(s),
    ensures
        s.no_duplicates(),
{
    assert forall|i: int, j: int| 0 <= i < s.len() && 0 <= j < s.len() && i != j implies s[i] != s[j] by {
        if i < j {
            assert(lex_lt(s[i], s[j]));
            lemma_lex_irreflexive(s[i]);
        } else {
            assert(lex_lt(s[j], s[i]));
            lemma_lex_irreflexive(s[j]);
        }
    }
}

proof fn lemma_split_step(s: Seq<char>, sep: char, start: int, i: int)
    requires
        0 <= start <= i < s.len(),
        s[i] == sep,
        forall|j: int| start <= j < i ==> s[j] != sep,
    ensures
        split_on(s.subrange(start, s.len() as int), sep) == seq![s.subrange(start, i)] + split_on(
            s.subrange(i + 1, s.len() as int),
            sep,
        ),
{
    let t = s.subrange(start, s.len() as int);
    assert(is_first_index(t, sep, i - start));
    let k = choose|k: int| is_first_index(t, sep, k);
    lemma_first_index_unique(t, sep, k, i - start);
    assert(t.subrange(0, i - start) =~= s.subrange(start, i));
    assert(t.subrange(i - start + 1, t.len() as int) =~= s.subrange(i + 1, s.len() as int));
}

proof fn lemma_split_last(s: Seq<char>, sep: char, start: int)
    requires
        0 <= start <= s.len(),
        forall|j: int| start <= j < s.len() ==> s[j] != sep,
    ensures
        split_on(s.subrange(start, s.len() as int), sep) == seq![s.subrange(start, s.len() as int)],
{
    let t = s.subrange(start, s.len() as int);
    assert(!exists|k: int| is_first_index(t, sep, k)) by {
        if exists|k: int| is_first_index(t, sep, k) {
            let k = choose|k: int| is_first_index(t, sep, k);
            assert(s[start + k] == sep);
        }
    }
}

/// The pieces of `s` between the separators `sep` (see [`split_on`]).
pub fn split_str(s: &str, sep: char) -> (r: Vec<String>)
    ensures
        views(r@) == split_on(s@, sep),
{
    let v = chars_of(s);
    let mut r: Vec<String> = Vec::new();
    let mut start: usize = 0;
    assert(s@.subrange(0, s@.len() as int) =~= s@);
    loop
        invariant
            v@ == s@,
            start <= v.len(),
            split_on(s@, sep) == views(r@) + split_on(s@.subrange(start as int, s@.len() as int), sep),
        decreases v.len() - start,
    {
        match find_char_from(&v, sep, start) {
            Some(i) => {
                proof {
                    lemma_split_step(s@, sep, start as int, i as int);
                }
                let piece = substring(s, start, i);
                let ghost before = r@;
                let ghost pv = piece@;
                r.push(piece);
                proof {
                    lemma_views_push(before, r@.last());
                    assert(r@ == before.push(r@.last()));
                    assert(views(r@) + split_on(s@.subrange(i + 1, s@.len() as int), sep) =~= views(
                        before,
                    ) + (seq![pv] + split_on(s@.subrange(i + 1, s@.len() as int), sep)));
                }
                start = i + 1;
            },
            None => {
                proof {
                    lemma_split_last(s@, sep, start as int);
                }
                let piece = substring(s, start, v.len());
                let ghost before = r@;
                r.push(piece);
                proof {
                    lemma_views_push(before, r@.last());
                    assert(r@ == before.push(r@.last()));
                    assert(views(r@) =~= views(before) + seq![r@.last()@]);
                }
                return r;
            },
        }
    }
}

/// First position whose string is not below `x`.
fn first_str_not_below(v: &Vec<String>, x: &Vec<char>) -> (i: usize)
    ensures
        i <= v.len(),
        forall|j: int| 0 <= j < i ==> lex_lt(#[trigger] views(v@)[j], x@),
        i < v.len() ==> !lex_lt(views(v@)[i as int], x@),
{
    let mut i: usize = 0;
    while i < v.len()
        invariant
            i <= v.len(),
            forall|j: int| 0 <= j < i ==> lex_lt(#[trigger] views(v@)[j], x@),
        decreases v.len() - i,
    {
        let c = chars_of(v[i].as_str());
        if !chars_lt(&c, x) {
            return i;
        }
        i = i + 1;
    }
    i
}

/// Adds `x` to a strictly sorted vector of strings, keeping it strictly sorted.
pub fn insert_sorted_str(v: &mut Vec<String>, x: String)
    requires
        strictly_sorted(views(old(v)@)),
    ensures
        strictly_sorted(views(final(v)@)),
        forall|q: Seq<char>| views(final(v)@).contains(q) <==> (views(old(v)@).contains(q) || q == x@),
{
    let ghost old_k = views(v@);
    let xc = chars_of(x.as_str());
    let i = first_str_not_below(v, &xc);
    if i < v.len() && str_eq(v[i].as_str(), x.as_str()) {
        return;
    }
    let ghost xv = x@;
    v.insert(i, x);
    proof {
        let nk = views(v@);
        assert(nk =~= old_k.insert(i as int, xv));
        if i < old_k.len() {
            lemma_lex_total(old_k[i as int], xv);
        }
        assert forall|a: int, b: int| 0 <= a < b < nk.len() implies lex_lt(
            #[trigger] nk[a],
            #[trigger] nk[b],
        ) by {
            if b < i {
            } else if a < i && b == i {
            } else if a < i && b > i {
                if b - 1 > i {
                    lemma_lex_transitive(xv, old_k[i as int], old_k[b - 1]);
                }
                lemma_lex_transitive(old_k[a], xv, old_k[b - 1]);
            } else if a == i {
                if b - 1 > i {
                    lemma_lex_transitive(xv, old_k[i as int], old_k[b - 1]);
                }
            } else {
                assert(nk[a] == old_k[a - 1]);
                assert(nk[b] == old_k[b - 1]);
            }
        }
        assert forall|q: Seq<char>| nk.contains(q) <==> (old_k.contains(q) || q == xv) by {
            if nk.contains(q) {
                let k = choose|k: int| 0 <= k < nk.len() && nk[k] == q;
                if k < i {
                    assert(old_k[k] == q);
                } else if k > i {
                    assert(old_k[k - 1] == q);
                }
            }
            if old_k.contains(q) {
                let k = choose|k: int| 0 <= k < old_k.len() && old_k[k] == q;
                if k < i {
                    assert(nk[k] == q);
                } else {
                    assert(nk[k + 1] == q);
                }
            }
            if q == xv {
                assert(nk[i as int] == q);
            }
        }
    }
}

} // verus!
