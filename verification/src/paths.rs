//! The order of file system paths on Unix: a path is read as its components
//! (a leading root, a leading `.`, `..` and names; empty and `.` segments are
//! skipped), and two paths compare component by component, the root before `.`,
//! `.` before `..`, `..` before any name, and names by their characters.
use vstd::prelude::*;

use crate::stream::{index_of_char, lemma_index_of_char};
use crate::text::{chars_of, copy_str, last_occurrence, rfind_in, str_eq, string_of_range, lemma_lex_asymmetric, lemma_lex_irreflexive, lemma_lex_total, lemma_lex_transitive, lex_lt};

verus! {

/// One component of a path.
pub enum PathPart {
    Root,
    Cur,
    Parent,
    Normal(Seq<char>),
}

/// The component a `/`-separated segment gives, if any.
pub open spec fn segment_part(seg: Seq<char>) -> Seq<PathPart> {
    if seg.len() == 0 || seg == seq!['.'] {
        seq![]
    } else if seg == seq!['.', '.'] {
        seq![PathPart::Parent]
    } else {
        seq![PathPart::Normal(seg)]
    }
}

/// The components of the segments of `s`.
pub open spec fn segment_parts(s: Seq<char>) -> Seq<PathPart>
    decreases s.len(),
{
    match index_of_char(s, '/') {
        None => segment_part(s),
        Some(p) => {
            proof {
                lemma_index_of_char(s, '/');
            }
            segment_part(s.take(p)) + segment_parts(s.skip(p + 1))
        },
    }
}

/// Whether a path starts at the root.
pub open spec fn has_root(s: Seq<char>) -> bool {
    s.len() > 0 && s[0] == '/'
}

/// Whether a relative path starts with a `.` component.
pub open spec fn has_cur(s: Seq<char>) -> bool {
    !has_root(s) && s.len() > 0 && s[0] == '.' && (s.len() == 1 || s[1] == '/')
}

/// The components of a path.
pub open spec fn path_parts(s: Seq<char>) -> Seq<PathPart> {
    (if has_root(s) {
        seq![PathPart::Root]
    } else {
        seq![]
    }) + (if has_cur(s) {
        seq![PathPart::Cur]
    } else {
        seq![]
    }) + segment_parts(s)
}

pub open spec fn part_rank(p: PathPart) -> int {
    match p {
        PathPart::Root => 0,
        PathPart::Cur => 1,
        PathPart::Parent => 2,
        PathPart::Normal(_) => 3,
    }
}

/// The order of two components.
pub open spec fn part_lt(a: PathPart, b: PathPart) -> bool {
    match (a, b) {
        (PathPart::Normal(x), PathPart::Normal(y)) => lex_lt(x, y),
        _ => part_rank(a) < part_rank(b),
    }
}

/// The order of two component lists: at the first difference, or the shorter first.
pub open spec fn parts_lt(a: Seq<PathPart>, b: Seq<PathPart>) -> bool
    decreases a.len(),
{
    if a.len() == 0 {
        b.len() > 0
    } else if b.len() == 0 {
        false
    } else if a[0] != b[0] {
        part_lt(a[0], b[0])
    } else {
        parts_lt(a.drop_first(), b.drop_first())
    }
}

/// The order of two paths.
pub open spec fn path_lt(a: Seq<char>, b: Seq<char>) -> bool {
    parts_lt(path_parts(a), path_parts(b))
}

/// Whether two paths have the same components.
pub open spec fn same_path(a: Seq<char>, b: Seq<char>) -> bool {
    path_parts(a) == path_parts(b)
}

proof fn lemma_part_order(a: PathPart, b: PathPart, c: PathPart)
    ensures
        !part_lt(a, a),
        a == b || part_lt(a, b) || part_lt(b, a),
        part_lt(a, b) ==> !part_lt(b, a),
        part_lt(a, b) && part_lt(b, c) ==> part_lt(a, c),
{
    match a {
        PathPart::Normal(x) => {
            lemma_lex_irreflexive(x);
            match b {
                PathPart::Normal(y) => {
                    lemma_lex_total(x, y);
                    if lex_lt(x, y) {
                        lemma_lex_asymmetric(x, y);
                    }
                    match c {
                        PathPart::Normal(z) => {
                            if lex_lt(x, y) && lex_lt(y, z) {
                                lemma_lex_transitive(x, y, z);
                            }
                        },
                        _ => {},
                    }
                },
                _ => {},
            }
        },
        _ => {},
    }
}

pub proof fn lemma_parts_irreflexive(a: Seq<PathPart>)
    ensures
        !parts_lt(a, a),
    decreases a.len(),
{
    if a.len() > 0 {
        lemma_parts_irreflexive(a.drop_first());
    }
}

pub proof fn lemma_parts_total(a: Seq<PathPart>, b: Seq<PathPart>)
    ensures
        a == b || parts_lt(a, b) || parts_lt(b, a),
    decreases a.len(),
{
    if a.len() > 0 && b.len() > 0 {
        lemma_part_order(a[0], b[0], a[0]);
        if a[0] == b[0] {
            lemma_parts_total(a.drop_first(), b.drop_first());
            if a.drop_first() == b.drop_first() {
                assert(a =~= seq![a[0]] + a.drop_first());
                assert(b =~= seq![b[0]] + b.drop_first());
            }
        }
    } else if a.len() == 0 && b.len() == 0 {
        assert(a =~= b);
    }
}

pub proof fn lemma_parts_asymmetric(a: Seq<PathPart>, b: Seq<PathPart>)
    requires
        parts_lt(a, b),
    ensures
        !parts_lt(b, a),
    decreases a.len(),
{
    if a.len() > 0 && b.len() > 0 {
        lemma_part_order(a[0], b[0], a[0]);
        if a[0] == b[0] {
            lemma_parts_asymmetric(a.drop_first(), b.drop_first());
        }
    }
}

pub proof fn lemma_parts_transitive(a: Seq<PathPart>, b: Seq<PathPart>, c: Seq<PathPart>)
    requires
        parts_lt(a, b),
        parts_lt(b, c),
    ensures
        parts_lt(a, c),
    decreases a.len(),
{
    if a.len() > 0 && b.len() > 0 && c.len() > 0 {
        lemma_part_order(a[0], b[0], c[0]);
        lemma_part_order(b[0], c[0], a[0]);
        lemma_part_order(a[0], c[0], b[0]);
        if a[0] == b[0] && b[0] == c[0] {
            lemma_parts_transitive(a.drop_first(), b.drop_first(), c.drop_first());
        }
    }
}

/// A component, held as characters.
pub enum PartText {
    Root,
    Cur,
    Parent,
    Normal(Vec<char>),
}

impl PartText {
    pub open spec fn view(&self) -> PathPart {
        match self {
            PartText::Root => PathPart::Root,
            PartText::Cur => PathPart::Cur,
            PartText::Parent => PathPart::Parent,
            PartText::Normal(v) => PathPart::Normal(v@),
        }
    }
}

pub open spec fn parts_view(v: Seq<PartText>) -> Seq<PathPart> {
    v.map_values(|p: PartText| p.view())
}

fn push_segment(out: &mut Vec<PartText>, v: &Vec<char>, lo: usize, hi: usize)
    requires
        lo <= hi <= v.len(),
    ensures
        parts_view(final(out)@) == parts_view(old(out)@) + segment_part(
            v@.subrange(lo as int, hi as int),
        ),
{
    let ghost seg = v@.subrange(lo as int, hi as int);
    let ghost before = parts_view(out@);
    if hi == lo || (hi - lo == 1 && v[lo] == '.') {
        proof {
            if hi - lo == 1 {
                assert(seg =~= seq!['.']);
            }
        }
        assert(parts_view(out@) =~= before + segment_part(seg));
        return;
    }
    if hi - lo == 2 && v[lo] == '.' && v[lo + 1] == '.' {
        assert(seg =~= seq!['.', '.']);
        out.push(PartText::Parent);
        assert(parts_view(out@) =~= before + segment_part(seg));
        return;
    }
    proof {
        if seg == seq!['.'] {
            assert(seg[0] == v@[lo as int]);
        }
        if seg == seq!['.', '.'] {
            assert(seg[0] == v@[lo as int]);
            assert(seg[1] == v@[lo + 1]);
        }
    }
    let mut name: Vec<char> = Vec::new();
    let mut k: usize = lo;
    while k < hi
        invariant
            lo <= k <= hi <= v.len(),
            name@ == v@.subrange(lo as int, k as int),
        decreases hi - k,
    {
        name.push(v[k]);
        k = k + 1;
        assert(name@ =~= v@.subrange(lo as int, k as int));
    }
    out.push(PartText::Normal(name));
    assert(parts_view(out@) =~= before + segment_part(seg));
}

/// The components of a path.
pub fn parts_of(s: &str) -> (r: Vec<PartText>)
    ensures
        parts_view(r@) == path_parts(s@),
{
    let v = chars_of(s);
    let mut out: Vec<PartText> = Vec::new();
    let root = v.len() > 0 && v[0] == '/';
    if root {
        out.push(PartText::Root);
    }
    let cur = !root && v.len() > 0 && v[0] == '.' && (v.len() == 1 || v[1] == '/');
    if cur {
        out.push(PartText::Cur);
    }
    let ghost head = parts_view(out@);
    assert(head =~= (if has_root(s@) {
        seq![PathPart::Root]
    } else {
        seq![]
    }) + (if has_cur(s@) {
        seq![PathPart::Cur]
    } else {
        seq![]
    }));
    let mut start: usize = 0;
    assert(v@.skip(0) =~= v@);
    loop
        invariant
            start <= v.len(),
            v@ == s@,
            parts_view(out@) + segment_parts(v@.skip(start as int)) == head + segment_parts(
                v@,
            ),
            head + segment_parts(v@) == path_parts(s@),
        decreases v.len() - start,
    {
        let ghost rest = v@.skip(start as int);
        let mut i: usize = start;
        while i < v.len() && v[i] != '/'
            invariant
                start <= i <= v.len(),
                forall|j: int| start <= j < i ==> v@[j] != '/',
            decreases v.len() - i,
        {
            i = i + 1;
        }
        proof {
            lemma_index_of_char(rest, '/');
        }
        let ghost before = parts_view(out@);
        push_segment(&mut out, &v, start, i);
        if i == v.len() {
            proof {
                assert(rest =~= v@.subrange(start as int, i as int));
                if index_of_char(rest, '/') is Some {
                    let p = index_of_char(rest, '/')->0;
                    assert(rest[p] == v@[start + p]);
                }
                assert(segment_parts(rest) == segment_part(rest));
                assert(parts_view(out@) + Seq::<PathPart>::empty() =~= parts_view(out@));
            }
            assert(parts_view(out@) == head + segment_parts(v@));
            return out;
        }
        proof {
            assert(rest[i - start] == v@[i as int]);
            assert forall|j: int| 0 <= j < i - start implies rest[j] != '/' by {
                assert(rest[j] == v@[start + j]);
            }
            if index_of_char(rest, '/') is None {
                assert(rest[i - start] == '/');
            }
            let p = index_of_char(rest, '/')->0;
            if p < i - start {
                assert(rest[p] == v@[start + p]);
            }
            assert(p == i - start);
            assert(rest.take(p) =~= v@.subrange(start as int, i as int));
            assert(rest.skip(p + 1) =~= v@.skip(i + 1));
            assert(segment_parts(rest) == segment_part(rest.take(p)) + segment_parts(rest.skip(p + 1)));
            assert(parts_view(out@) + segment_parts(v@.skip(i + 1)) =~= before + segment_parts(rest));
        }
        start = i + 1;
    }
}

fn part_eq(a: &PartText, b: &PartText) -> (r: bool)
    ensures
        r == (a.view() == b.view()),
{
    match (a, b) {
        (PartText::Root, PartText::Root) => true,
        (PartText::Cur, PartText::Cur) => true,
        (PartText::Parent, PartText::Parent) => true,
        (PartText::Normal(x), PartText::Normal(y)) => {
            let r = chars_equal(x, y);
            r
        },
        _ => false,
    }
}

fn chars_equal(x: &Vec<char>, y: &Vec<char>) -> (r: bool)
    ensures
        r == (x@ == y@),
{
    if x.len() != y.len() {
        return false;
    }
    let mut i: usize = 0;
    while i < x.len()
        invariant
            x.len() == y.len(),
            i <= x.len(),
            forall|j: int| 0 <= j < i ==> x@[j] == y@[j],
        decreases x.len() - i,
    {
        if x[i] != y[i] {
            return false;
        }
        i = i + 1;
    }
    assert(x@ =~= y@);
    true
}

fn chars_lt(x: &Vec<char>, y: &Vec<char>) -> (r: bool)
    ensures
        r == lex_lt(x@, y@),
{
    let mut i: usize = 0;
    assert(x@.skip(0) =~= x@);
    assert(y@.skip(0) =~= y@);
    while i < x.len() && i < y.len() && x[i] == y[i]
        invariant
            i <= x.len(),
            i <= y.len(),
            lex_lt(x@, y@) == lex_lt(x@.skip(i as int), y@.skip(i as int)),
        decreases x.len() - i,
    {
        assert(x@.skip(i as int).drop_first() =~= x@.skip(i + 1));
        assert(y@.skip(i as int).drop_first() =~= y@.skip(i + 1));
        i = i + 1;
    }
    if i == y.len() {
        assert(y@.skip(i as int).len() == 0);
        false
    } else if i == x.len() {
        assert(x@.skip(i as int).len() == 0);
        true
    } else {
        assert(x@.skip(i as int)[0] == x@[i as int]);
        assert(y@.skip(i as int)[0] == y@[i as int]);
        x[i] < y[i]
    }
}

fn rank(p: &PartText) -> (r: u8)
    ensures
        r as int == part_rank(p.view()),
{
    match p {
        PartText::Root => 0,
        PartText::Cur => 1,
        PartText::Parent => 2,
        PartText::Normal(_) => 3,
    }
}

/// Compares two component lists: negative, zero or positive as `a` comes before,
/// equals, or comes after `b`.
pub fn compare_parts(a: &Vec<PartText>, b: &Vec<PartText>) -> (r: i8)
    ensures
        r == 0 <==> parts_view(a@) == parts_view(b@),
        r < 0 <==> parts_lt(parts_view(a@), parts_view(b@)),
        r > 0 <==> parts_lt(parts_view(b@), parts_view(a@)),
{
    let ghost x = parts_view(a@);
    let ghost y = parts_view(b@);
    let mut i: usize = 0;
    assert(x.skip(0) =~= x);
    assert(y.skip(0) =~= y);
    while i < a.len() && i < b.len() && part_eq(&a[i], &b[i])
        invariant
            x == parts_view(a@),
            y == parts_view(b@),
            i <= a.len(),
            i <= b.len(),
            x.take(i as int) == y.take(i as int),
            parts_lt(x, y) == parts_lt(x.skip(i as int), y.skip(i as int)),
            parts_lt(y, x) == parts_lt(y.skip(i as int), x.skip(i as int)),
        decreases a.len() - i,
    {
        proof {
            assert(x.skip(i as int).drop_first() =~= x.skip(i + 1));
            assert(y.skip(i as int).drop_first() =~= y.skip(i + 1));
            assert(x.take(i + 1) =~= x.take(i as int).push(x[i as int]));
            assert(y.take(i + 1) =~= y.take(i as int).push(y[i as int]));
        }
        i = i + 1;
    }
    proof {
        lemma_parts_irreflexive(x);
        lemma_parts_total(x, y);
        if parts_lt(x, y) {
            lemma_parts_asymmetric(x, y);
        }
        if parts_lt(y, x) {
            lemma_parts_asymmetric(y, x);
        }
    }
    if i == a.len() && i == b.len() {
        assert(x =~= x.take(i as int));
        assert(y =~= y.take(i as int));
        0
    } else if i == a.len() {
        assert(x.skip(i as int).len() == 0);
        -1
    } else if i == b.len() {
        assert(y.skip(i as int).len() == 0);
        1
    } else {
        assert(x.skip(i as int)[0] == x[i as int]);
        assert(y.skip(i as int)[0] == y[i as int]);
        let ra = rank(&a[i]);
        let rb = rank(&b[i]);
        if ra != rb {
            if ra < rb {
                -1
            } else {
                1
            }
        } else {
            match (&a[i], &b[i]) {
                (PartText::Normal(p), PartText::Normal(q)) => {
                    if chars_lt(p, q) {
                        -1
                    } else {
                        proof {
                            lemma_lex_total(p@, q@);
                        }
                        1
                    }
                },
                _ => {
                    proof {
                        assert(x[i as int] == y[i as int]);
                    }
                    0
                },
            }
        }
    }
}

pub open spec fn texts_of(v: Seq<String>) -> Seq<Seq<char>> {
    v.map_values(|s: String| s@)
}

/// Strictly increasing in path order.
pub open spec fn path_sorted(r: Seq<Seq<char>>) -> bool {
    forall|i: int, j: int| 0 <= i < j < r.len() ==> path_lt(#[trigger] r[i], #[trigger] r[j])
}

/// `ps[k]` is the first path of `ps` with its components.
pub open spec fn first_of_kind(ps: Seq<Seq<char>>, k: int) -> bool {
    0 <= k < ps.len() && forall|j: int| 0 <= j < k ==> !same_path(#[trigger] ps[j], ps[k])
}

/// Whether `x` is the first path of `ps` with its components.
pub open spec fn first_given(ps: Seq<Seq<char>>, x: Seq<char>) -> bool {
    exists|k: int| #[trigger] first_of_kind(ps, k) && x == ps[k]
}

/// Each path of `r` is the first path of `ps` with its components.
pub open spec fn represents(r: Seq<Seq<char>>, ps: Seq<Seq<char>>) -> bool {
    forall|i: int| 0 <= i < r.len() ==> #[trigger] first_given(ps, r[i])
}

/// Whether a path with the components of `p` is in `r`.
pub open spec fn kind_in(r: Seq<Seq<char>>, p: Seq<char>) -> bool {
    exists|q: int| 0 <= q < r.len() && same_path(#[trigger] r[q], p)
}

/// Each path of `ps` has its components in `r`, or comes after all of `r`, which
/// then holds `limit` paths.
pub open spec fn covers(r: Seq<Seq<char>>, ps: Seq<Seq<char>>, limit: nat) -> bool {
    forall|k: int|
        0 <= k < ps.len() ==> #[trigger] kind_in(r, ps[k]) || (r.len() == limit && (limit == 0
            || path_lt(r[limit - 1], ps[k])))
}

/// The first `limit` of `paths` in path order, each kept once: of paths with the
/// same components, the first given stands for all (an ordered set of paths,
/// read from its start).
pub fn first_paths(paths: &Vec<String>, limit: usize) -> (r: Vec<String>)
    ensures
        r@.len() <= limit,
        path_sorted(texts_of(r@)),
        represents(texts_of(r@), texts_of(paths@)),
        covers(texts_of(r@), texts_of(paths@), limit as nat),
{
    let ghost ps = texts_of(paths@);
    let mut out: Vec<String> = Vec::new();
    let mut keys: Vec<Vec<PartText>> = Vec::new();
    let mut i: usize = 0;
    while i < paths.len()
        invariant
            i <= paths.len(),
            ps == texts_of(paths@),
            keys@.len() == out@.len(),
            forall|q: int| 0 <= q < keys@.len() ==> parts_view(#[trigger] keys@[q]@) == path_parts(out@[q]@),
            path_sorted(texts_of(out@)),
            represents(texts_of(out@), ps),
            forall|k: int| 0 <= k < i ==> #[trigger] kind_in(texts_of(out@), ps[k]),
        decreases paths.len() - i,
    {
        let key = parts_of(paths[i].as_str());
        let ghost kv = parts_view(key@);
        assert(kv == path_parts(ps[i as int]));
        let mut p: usize = 0;
        while p < keys.len() && compare_parts(&keys[p], &key) < 0
            invariant
                p <= keys.len(),
                keys@.len() == out@.len(),
                kv == parts_view(key@),
                forall|q: int| 0 <= q < p ==> parts_lt(parts_view(#[trigger] keys@[q]@), kv),
            decreases keys.len() - p,
        {
            p = p + 1;
        }
        let ghost ov = texts_of(out@);
        proof {
            assert forall|q: int| 0 <= q < ov.len() implies #[trigger] path_parts(ov[q]) == parts_view(keys@[q]@) by {}
        }
        if p < keys.len() && compare_parts(&keys[p], &key) == 0 {
            proof {
                assert(same_path(ov[p as int], ps[i as int]));
                assert(kind_in(ov, ps[i as int]));
            }
            i = i + 1;
            continue;
        }
        proof {
            // nothing in `out` has the components of `ps[i]`
            assert forall|q: int| 0 <= q < ov.len() implies !same_path(#[trigger] ov[q], ps[i as int]) by {
                let kq = path_parts(ov[q]);
                if q < p {
                    lemma_parts_irreflexive(kv);
                } else {
                    lemma_parts_total(parts_view(keys@[p as int]@), kv);
                    if q > p {
                        assert(path_lt(ov[p as int], ov[q]));
                        if kq == kv {
                            lemma_parts_asymmetric(kv, parts_view(keys@[p as int]@));
                        }
                    }
                }
            }
            // hence `ps[i]` is the first of its kind
            assert(first_of_kind(ps, i as int)) by {
                assert forall|j: int| 0 <= j < i implies !same_path(#[trigger] ps[j], ps[i as int]) by {
                    assert(kind_in(ov, ps[j]));
                    let q = choose|q: int| 0 <= q < ov.len() && same_path(#[trigger] ov[q], ps[j]);
                }
            }
        }
        let copy = copy_str(paths[i].as_str());
        let ghost before = out@;
        out.insert(p, copy);
        keys.insert(p, key);
        proof {
            let nv = texts_of(out@);
            assert(nv =~= ov.insert(p as int, ps[i as int]));
            assert forall|q: int| 0 <= q < keys@.len() implies parts_view(#[trigger] keys@[q]@) == path_parts(out@[q]@) by {
                if q < p {
                    assert(out@[q] == before[q]);
                } else if q > p {
                    assert(out@[q] == before[q - 1]);
                }
            }
            assert forall|a: int, c: int| 0 <= a < c < nv.len() implies path_lt(#[trigger] nv[a], #[trigger] nv[c]) by {
                if c < p {
                    assert(nv[a] == ov[a] && nv[c] == ov[c]);
                } else if c == p {
                    assert(nv[a] == ov[a]);
                    assert(parts_lt(parts_view(keys@[a]@), kv));
                } else if a == p {
                    assert(nv[c] == ov[c - 1]);
                    lemma_parts_total(parts_view(keys@[p as int]@), kv);
                    assert(!same_path(ov[p as int], ps[i as int]));
                    if c - 1 > p {
                        lemma_parts_transitive(kv, path_parts(ov[p as int]), path_parts(ov[c - 1]));
                    }
                } else if a < p {
                    assert(nv[a] == ov[a] && nv[c] == ov[c - 1]);
                } else {
                    assert(nv[a] == ov[a - 1] && nv[c] == ov[c - 1]);
                }
            }
            assert forall|a: int| 0 <= a < nv.len() implies #[trigger] first_given(ps, nv[a]) by {
                if a < p {
                    assert(nv[a] == ov[a]);
                } else if a > p {
                    assert(nv[a] == ov[a - 1]);
                } else {
                    assert(first_of_kind(ps, i as int));
                }
            }
            assert forall|k: int| 0 <= k < i + 1 implies #[trigger] kind_in(nv, ps[k]) by {
                if k == i {
                    assert(nv[p as int] == ps[k]);
                } else {
                    assert(kind_in(ov, ps[k]));
                    let q = choose|q: int| 0 <= q < ov.len() && same_path(#[trigger] ov[q], ps[k]);
                    if q < p {
                        assert(nv[q] == ov[q]);
                    } else {
                        assert(nv[q + 1] == ov[q]);
                    }
                }
            }
        }
        i = i + 1;
    }
    let ghost full = texts_of(out@);
    if out.len() > limit {
        out.truncate(limit);
    }
    proof {
        let rv = texts_of(out@);
        assert(rv =~= full.take(rv.len() as int));
        assert forall|a: int, c: int| 0 <= a < c < rv.len() implies path_lt(#[trigger] rv[a], #[trigger] rv[c]) by {
            assert(rv[a] == full[a] && rv[c] == full[c]);
        }
        assert forall|a: int| 0 <= a < rv.len() implies #[trigger] first_given(ps, rv[a]) by {
            assert(rv[a] == full[a]);
        }
        assert forall|k: int| 0 <= k < ps.len() implies #[trigger] kind_in(rv, ps[k])
            || (rv.len() == limit && (limit == 0 || path_lt(rv[limit - 1], ps[k]))) by {
            assert(kind_in(full, ps[k]));
            let q = choose|q: int| 0 <= q < full.len() && same_path(#[trigger] full[q], ps[k]);
            if q < rv.len() {
                assert(rv[q] == full[q]);
                assert(kind_in(rv, ps[k]));
            } else {
                assert(rv.len() == limit);
                if limit > 0 {
                    assert(rv[limit - 1] == full[limit - 1]);
                    assert(path_lt(full[limit - 1], full[q]));
                }
            }
        }
    }
    out
}

/// The extension of a file name (`Path::extension`): the text after its last `.`,
/// unless that `.` starts the name or the name is `..`.
pub open spec fn extension_of(name: Seq<char>) -> Option<Seq<char>> {
    if name == ".."@ {
        None
    } else {
        match last_occurrence(name, "."@) {
            Some(j) => if j == 0 {
                None
            } else {
                Some(name.skip(j + 1))
            },
            None => None,
        }
    }
}

/// The extension of a file name, if it has one.
pub fn file_extension(name: &str) -> (r: Option<String>)
    ensures
        match extension_of(name@) {
            Some(e) => r matches Some(s) && s@ == e,
            None => r is None,
        },
{
    if str_eq(name, "..") {
        return None;
    }
    let v = chars_of(name);
    let dot = chars_of(".");
    assert(v@.subrange(0, v@.len() as int) =~= v@);
    match rfind_in(&v, 0, v.len(), &dot) {
        None => None,
        Some(j) => {
            if j == 0 {
                return None;
            }
            proof {
                reveal_strlit(".");
            }
            let ext = string_of_range(&v, j + 1, v.len());
            assert(ext@ =~= v@.skip(j + 1));
            Some(ext)
        },
    }
}

} // verus!
