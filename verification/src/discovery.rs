//! Recognizing DPDK telemetry sockets by name, and ordering the sockets
//! found: one path per socket, in the order of `std::path::Path`.

use vstd::prelude::*;
use crate::text::{chars_of, chars_eq, starts_with, starts_with_chars};

verus! {

/// The file name DPDK gives its telemetry socket.
pub const SOCKET_NAME: &'static str = "dpdk_telemetry.v2";

/// Whether a file name is that of a telemetry socket: the socket name
/// itself, or any name beginning with it.
pub fn has_telemetry_name(file_name: &str) -> (r: bool)
    ensures
        r == (file_name@ == SOCKET_NAME@ || starts_with(file_name@, "dpdk_telemetry.v2"@)),
{
    let n = chars_of(file_name);
    let s = chars_of(SOCKET_NAME);
    let p = chars_of("dpdk_telemetry.v2");
    chars_eq(&n, &s) || starts_with_chars(&n, &p)
}


/// The kinds of path components, ranked as `std::path::Component` orders
/// them (a Unix path has no prefix).
pub const ROOT_DIR: u8 = 1;
pub const CUR_DIR: u8 = 2;
pub const PARENT_DIR: u8 = 3;
pub const NORMAL: u8 = 4;

/// The byte `/`.
pub const SLASH: u8 = 47;
/// The byte `.`.
pub const DOT: u8 = 46;

/// The text between separators seen so far, and the text after the last
/// separator.
pub open spec fn split_at_slashes(p: Seq<u8>) -> (Seq<Seq<u8>>, Seq<u8>)
    decreases p.len(),
{
    if p.len() == 0 {
        (Seq::empty(), Seq::empty())
    } else {
        let (done, cur) = split_at_slashes(p.drop_last());
        if p.last() == SLASH {
            (done.push(cur), Seq::empty())
        } else {
            (done, cur.push(p.last()))
        }
    }
}

/// The text between the separators of `p` (empty ones included).
pub open spec fn segments(p: Seq<u8>) -> Seq<Seq<u8>> {
    split_at_slashes(p).0.push(split_at_slashes(p).1)
}

/// The component a segment gives: none for an empty segment or `.`,
/// a parent for `..`, else a normal component.
pub open spec fn segment_part(seg: Seq<u8>) -> Seq<(u8, Seq<u8>)> {
    if seg.len() == 0 || seg == seq![DOT] {
        Seq::empty()
    } else if seg == seq![DOT, DOT] {
        seq![(PARENT_DIR, Seq::empty())]
    } else {
        seq![(NORMAL, seg)]
    }
}

pub open spec fn segment_parts(segs: Seq<Seq<u8>>) -> Seq<(u8, Seq<u8>)>
    decreases segs.len(),
{
    if segs.len() == 0 {
        Seq::empty()
    } else {
        segment_parts(segs.drop_last()) + segment_part(segs.last())
    }
}

/// The component before the segments: the root of an absolute path, or
/// the current directory of a path that is `.` or starts with `./`.
pub open spec fn leading_part(p: Seq<u8>) -> Seq<(u8, Seq<u8>)> {
    if p.len() > 0 && p[0] == SLASH {
        seq![(ROOT_DIR, Seq::empty())]
    } else if p == seq![DOT] || (p.len() >= 2 && p[0] == DOT && p[1] == SLASH) {
        seq![(CUR_DIR, Seq::empty())]
    } else {
        Seq::empty()
    }
}

/// The components of a Unix path, each as its kind and its text (empty but
/// for a normal component), as `std::path::Path::components` yields them.
pub open spec fn path_components(p: Seq<u8>) -> Seq<(u8, Seq<u8>)> {
    leading_part(p) + segment_parts(segments(p))
}

pub open spec fn parts_view(v: Seq<(u8, Vec<u8>)>) -> Seq<(u8, Seq<u8>)> {
    Seq::new(v.len(), |i: int| (v[i].0, v[i].1@))
}

fn push_segment(out: &mut Vec<(u8, Vec<u8>)>, seg: Vec<u8>)
    ensures
        parts_view(final(out)@) == parts_view(old(out)@) + segment_part(seg@),
{
    let ghost before = out@;
    let n = seg.len();
    if n == 0 || (n == 1 && seg[0] == DOT) {
        assert(n == 1 ==> seg@ =~= seq![DOT]);
        assert(parts_view(out@) + segment_part(seg@) =~= parts_view(out@));
    } else if n == 2 && seg[0] == DOT && seg[1] == DOT {
        assert(seg@ =~= seq![DOT, DOT]);
        out.push((PARENT_DIR, Vec::new()));
        assert(parts_view(out@) =~= parts_view(before) + segment_part(seg@));
    } else {
        assert(seg@ != seq![DOT]) by {
            if seg@ == seq![DOT] { assert(seg@[0] == DOT); }
        }
        assert(seg@ != seq![DOT, DOT]) by {
            if seg@ == seq![DOT, DOT] { assert(seg@[0] == DOT && seg@[1] == DOT); }
        }
        out.push((NORMAL, seg));
        assert(parts_view(out@) =~= parts_view(before) + segment_part(seg@));
    }
}

/// The components of a Unix path given as bytes.
pub fn components_of(p: &Vec<u8>) -> (out: Vec<(u8, Vec<u8>)>)
    ensures
        parts_view(out@) == path_components(p@),
{
    let mut out: Vec<(u8, Vec<u8>)> = Vec::new();
    let n = p.len();
    if n > 0 && p[0] == SLASH {
        out.push((ROOT_DIR, Vec::new()));
    } else if (n == 1 && p[0] == DOT) || (n >= 2 && p[0] == DOT && p[1] == SLASH) {
        out.push((CUR_DIR, Vec::new()));
    }
    proof {
        if n == 1 && p@[0] == DOT {
            assert(p@ =~= seq![DOT]);
        }
        if p@ == seq![DOT] {
            assert(p@[0] == DOT);
        }
        assert(parts_view(out@) =~= leading_part(p@));
        assert(p@.take(0) =~= Seq::<u8>::empty());
        assert(segment_parts(Seq::<Seq<u8>>::empty()) =~= Seq::<(u8, Seq<u8>)>::empty());
    }
    let mut cur: Vec<u8> = Vec::new();
    let mut i: usize = 0;
    while i < n
        invariant
            n == p@.len(),
            i <= n,
            parts_view(out@) == leading_part(p@) + segment_parts(split_at_slashes(p@.take(i as int)).0),
            cur@ == split_at_slashes(p@.take(i as int)).1,
        decreases n - i,
    {
        let b = p[i];
        proof {
            assert(p@.take(i + 1).drop_last() =~= p@.take(i as int));
            assert(p@.take(i + 1).last() == b);
        }
        if b == SLASH {
            let seg = cur;
            let ghost done = split_at_slashes(p@.take(i as int)).0;
            push_segment(&mut out, seg);
            proof {
                assert(done.push(seg@).drop_last() =~= done);
                assert(leading_part(p@) + segment_parts(done) + segment_part(seg@)
                    =~= leading_part(p@) + (segment_parts(done) + segment_part(seg@)));
            }
            cur = Vec::new();
        } else {
            cur.push(b);
        }
        i = i + 1;
    }
    let ghost done = split_at_slashes(p@.take(n as int)).0;
    let last = cur;
    push_segment(&mut out, last);
    proof {
        assert(p@.take(n as int) =~= p@);
        assert(done.push(last@).drop_last() =~= done);
        assert(leading_part(p@) + segment_parts(done) + segment_part(last@)
            =~= leading_part(p@) + (segment_parts(done) + segment_part(last@)));
    }
    out
}


/// Byte strings in lexicographic order, as `OsStr` compares them.
pub open spec fn bytes_lt(a: Seq<u8>, b: Seq<u8>) -> bool
    decreases a.len(),
{
    if b.len() == 0 {
        false
    } else if a.len() == 0 {
        true
    } else if a[0] != b[0] {
        a[0] < b[0]
    } else {
        bytes_lt(a.drop_first(), b.drop_first())
    }
}

/// Components in the order `std::path::Component` derives: by kind, then
/// by text.
pub open spec fn part_lt(a: (u8, Seq<u8>), b: (u8, Seq<u8>)) -> bool {
    a.0 < b.0 || (a.0 == b.0 && bytes_lt(a.1, b.1))
}

/// Component sequences in lexicographic order.
pub open spec fn parts_lt(a: Seq<(u8, Seq<u8>)>, b: Seq<(u8, Seq<u8>)>) -> bool
    decreases a.len(),
{
    if b.len() == 0 {
        false
    } else if a.len() == 0 {
        true
    } else if a[0] != b[0] {
        part_lt(a[0], b[0])
    } else {
        parts_lt(a.drop_first(), b.drop_first())
    }
}

/// Whether path `a` sorts before path `b`, as `std::path::Path` orders
/// paths: by their components.
pub open spec fn path_lt(a: Seq<u8>, b: Seq<u8>) -> bool {
    parts_lt(path_components(a), path_components(b))
}

/// Whether two paths are equal as `std::path::Path` compares them: they
/// have the same components.
pub open spec fn same_path(a: Seq<u8>, b: Seq<u8>) -> bool {
    path_components(a) == path_components(b)
}

proof fn lemma_bytes_order(a: Seq<u8>, b: Seq<u8>, c: Seq<u8>)
    ensures
        !bytes_lt(a, a),
        bytes_lt(a, b) && bytes_lt(b, c) ==> bytes_lt(a, c),
        a != b ==> bytes_lt(a, b) || bytes_lt(b, a),
        !(bytes_lt(a, b) && bytes_lt(b, a)),
    decreases a.len(),
{
    if a.len() > 0 && b.len() > 0 {
        if c.len() > 0 {
            lemma_bytes_order(a.drop_first(), b.drop_first(), c.drop_first());
        } else {
            lemma_bytes_order(a.drop_first(), b.drop_first(), c);
        }
        if a != b && a[0] == b[0] {
            assert(a.drop_first() != b.drop_first()) by {
                if a.drop_first() == b.drop_first() {
                    assert(a =~= seq![a[0]] + a.drop_first());
                    assert(b =~= seq![b[0]] + b.drop_first());
                }
            }
        }
    } else if a.len() > 0 {
        lemma_bytes_order(a.drop_first(), b, c);
    } else if b.len() == 0 {
        assert(a =~= b);
    }
}

proof fn lemma_part_order(a: (u8, Seq<u8>), b: (u8, Seq<u8>), c: (u8, Seq<u8>))
    ensures
        !part_lt(a, a),
        part_lt(a, b) && part_lt(b, c) ==> part_lt(a, c),
        a != b ==> part_lt(a, b) || part_lt(b, a),
        !(part_lt(a, b) && part_lt(b, a)),
{
    lemma_bytes_order(a.1, b.1, c.1);
}

/// Paths are totally ordered: the order is irreflexive, transitive, and
/// any two paths with different components are ordered one way.
pub proof fn lemma_parts_order(a: Seq<(u8, Seq<u8>)>, b: Seq<(u8, Seq<u8>)>, c: Seq<(u8, Seq<u8>)>)
    ensures
        !parts_lt(a, a),
        parts_lt(a, b) && parts_lt(b, c) ==> parts_lt(a, c),
        a != b ==> parts_lt(a, b) || parts_lt(b, a),
        !(parts_lt(a, b) && parts_lt(b, a)),
    decreases a.len(),
{
    if a.len() > 0 && b.len() > 0 && c.len() > 0 {
        lemma_part_order(a[0], b[0], c[0]);
        lemma_parts_order(a.drop_first(), b.drop_first(), c.drop_first());
    } else if a.len() > 0 && b.len() > 0 {
        lemma_part_order(a[0], b[0], a[0]);
        lemma_parts_order(a.drop_first(), b.drop_first(), c);
    } else if a.len() > 0 {
        lemma_parts_order(a.drop_first(), b, c);
    }
    if a.len() > 0 && b.len() > 0 && a != b && a[0] == b[0] {
        assert(a.drop_first() != b.drop_first()) by {
            if a.drop_first() == b.drop_first() {
                assert(a =~= seq![a[0]] + a.drop_first());
                assert(b =~= seq![b[0]] + b.drop_first());
            }
        }
    }
    if a.len() == 0 && b.len() == 0 {
        assert(a =~= b);
    }
}

fn bytes_less(a: &Vec<u8>, b: &Vec<u8>) -> (r: bool)
    ensures
        r == bytes_lt(a@, b@),
{
    let mut i: usize = 0;
    assert(a@.skip(0) =~= a@ && b@.skip(0) =~= b@);
    while i < a.len() && i < b.len() && a[i] == b[i]
        invariant
            i <= a@.len(),
            i <= b@.len(),
            bytes_lt(a@, b@) == bytes_lt(a@.skip(i as int), b@.skip(i as int)),
        decreases a@.len() - i,
    {
        assert(a@.skip(i as int).drop_first() =~= a@.skip(i + 1));
        assert(b@.skip(i as int).drop_first() =~= b@.skip(i + 1));
        i = i + 1;
    }
    if i == b.len() {
        assert(b@.skip(i as int).len() == 0);
        false
    } else if i == a.len() {
        assert(a@.skip(i as int).len() == 0);
        true
    } else {
        assert(a@.skip(i as int)[0] == a@[i as int] && b@.skip(i as int)[0] == b@[i as int]);
        a[i] < b[i]
    }
}

fn bytes_equal(a: &Vec<u8>, b: &Vec<u8>) -> (r: bool)
    ensures
        r == (a@ == b@),
{
    if a.len() != b.len() {
        return false;
    }
    let mut i: usize = 0;
    while i < a.len()
        invariant
            a@.len() == b@.len(),
            i <= a@.len(),
            forall|k: int| 0 <= k < i ==> a@[k] == b@[k],
        decreases a@.len() - i,
    {
        if a[i] != b[i] {
            return false;
        }
        i = i + 1;
    }
    assert(a@ =~= b@);
    true
}

fn parts_less(a: &Vec<(u8, Vec<u8>)>, b: &Vec<(u8, Vec<u8>)>) -> (r: bool)
    ensures
        r == parts_lt(parts_view(a@), parts_view(b@)),
{
    let ghost va = parts_view(a@);
    let ghost vb = parts_view(b@);
    let mut i: usize = 0;
    assert(va.skip(0) =~= va && vb.skip(0) =~= vb);
    loop
        invariant
            i <= a@.len(),
            i <= b@.len(),
            va == parts_view(a@),
            vb == parts_view(b@),
            parts_lt(va, vb) == parts_lt(va.skip(i as int), vb.skip(i as int)),
        decreases a@.len() - i,
    {
        if i == b.len() {
            assert(vb.skip(i as int).len() == 0);
            return false;
        }
        if i == a.len() {
            assert(va.skip(i as int).len() == 0);
            return true;
        }
        assert(va.skip(i as int)[0] == va[i as int] && vb.skip(i as int)[0] == vb[i as int]);
        let same = a[i].0 == b[i].0 && bytes_equal(&a[i].1, &b[i].1);
        if !same {
            let r = a[i].0 < b[i].0 || (a[i].0 == b[i].0 && bytes_less(&a[i].1, &b[i].1));
            return r;
        }
        assert(va.skip(i as int).drop_first() =~= va.skip(i + 1));
        assert(vb.skip(i as int).drop_first() =~= vb.skip(i + 1));
        i = i + 1;
    }
}

fn parts_equal(a: &Vec<(u8, Vec<u8>)>, b: &Vec<(u8, Vec<u8>)>) -> (r: bool)
    ensures
        r == (parts_view(a@) == parts_view(b@)),
{
    if a.len() != b.len() {
        assert(parts_view(a@).len() != parts_view(b@).len());
        return false;
    }
    let mut i: usize = 0;
    while i < a.len()
        invariant
            a@.len() == b@.len(),
            i <= a@.len(),
            forall|k: int| 0 <= k < i ==> parts_view(a@)[k] == parts_view(b@)[k],
        decreases a@.len() - i,
    {
        if !(a[i].0 == b[i].0 && bytes_equal(&a[i].1, &b[i].1)) {
            assert(parts_view(a@)[i as int] != parts_view(b@)[i as int]);
            return false;
        }
        i = i + 1;
    }
    assert(parts_view(a@) =~= parts_view(b@));
    true
}

/// Whether path `a` sorts before path `b`.
pub fn path_less(a: &Vec<u8>, b: &Vec<u8>) -> (r: bool)
    ensures
        r == path_lt(a@, b@),
{
    parts_less(&components_of(a), &components_of(b))
}

/// Whether two paths are the same path.
pub fn paths_equal(a: &Vec<u8>, b: &Vec<u8>) -> (r: bool)
    ensures
        r == same_path(a@, b@),
{
    parts_equal(&components_of(a), &components_of(b))
}


pub open spec fn paths_view(v: Seq<Vec<u8>>) -> Seq<Seq<u8>> {
    Seq::new(v.len(), |i: int| v[i]@)
}

pub open spec fn pairs_view(v: Seq<(Vec<u8>, Vec<u8>)>) -> Seq<(Seq<u8>, Seq<u8>)> {
    Seq::new(v.len(), |i: int| (v[i].0@, v[i].1@))
}

/// Whether `path` is, as a path, one of `paths`.
pub open spec fn contains_same_path(paths: Seq<Seq<u8>>, path: Seq<u8>) -> bool {
    exists|j: int| 0 <= j < paths.len() && same_path(#[trigger] paths[j], path)
}

/// Whether a path is, as a path, one of `paths`.
pub fn contains_path(paths: &Vec<Vec<u8>>, path: &Vec<u8>) -> (r: bool)
    ensures
        r == contains_same_path(paths_view(paths@), path@),
{
    let mut i: usize = 0;
    while i < paths.len()
        invariant
            i <= paths@.len(),
            forall|j: int| 0 <= j < i ==> !same_path(#[trigger] paths_view(paths@)[j], path@),
        decreases paths@.len() - i,
    {
        if paths_equal(&paths[i], path) {
            assert(same_path(paths_view(paths@)[i as int], path@));
            return true;
        }
        i = i + 1;
    }
    false
}

/// The found paths, each given with its resolved (canonical) path, keeping
/// only the first path of each resolved path, in order.
pub open spec fn first_per_canonical(found: Seq<(Seq<u8>, Seq<u8>)>) -> Seq<Seq<u8>>
    decreases found.len(),
{
    if found.len() == 0 {
        Seq::empty()
    } else {
        let rest = first_per_canonical(found.drop_last());
        let earlier = found.drop_last();
        if exists|j: int| 0 <= j < earlier.len() && same_path(#[trigger] earlier[j].1, found.last().1) {
            rest
        } else {
            rest.push(found.last().0)
        }
    }
}

/// Drop each found path whose resolved path was already seen: of paths
/// that resolve to the same socket, the first one stays.
pub fn dedup_by_canonical(found: &Vec<(Vec<u8>, Vec<u8>)>) -> (out: Vec<Vec<u8>>)
    ensures
        paths_view(out@) == first_per_canonical(pairs_view(found@)),
{
    let ghost fv = pairs_view(found@);
    let mut out: Vec<Vec<u8>> = Vec::new();
    let mut i: usize = 0;
    assert(paths_view(out@) =~= first_per_canonical(fv.take(0)));
    while i < found.len()
        invariant
            i <= found@.len(),
            fv == pairs_view(found@),
            paths_view(out@) == first_per_canonical(fv.take(i as int)),
        decreases found@.len() - i,
    {
        let mut seen = false;
        let mut j: usize = 0;
        while j < i
            invariant
                i < found@.len(),
                j <= i,
                fv == pairs_view(found@),
                seen == exists|k: int| 0 <= k < j && same_path(#[trigger] fv[k].1, fv[i as int].1),
            decreases i - j,
        {
            let same = paths_equal(&found[j].1, &found[i].1);
            proof {
                assert(fv[j as int].1 == found@[j as int].1@ && fv[i as int].1 == found@[i as int].1@);
                if !same && !seen {
                    assert forall|k: int| 0 <= k < j + 1 implies !same_path(#[trigger] fv[k].1, fv[i as int].1) by {
                        if k < j {
                            assert(!(0 <= k < j && same_path(fv[k].1, fv[i as int].1)));
                        }
                    }
                }
            }
            if same {
                seen = true;
            }
            j = j + 1;
        }
        let ghost before = out@;
        proof {
            let t = fv.take(i + 1);
            assert(t.drop_last() =~= fv.take(i as int));
            assert(t.last() == fv[i as int]);
            assert(seen == exists|k: int| 0 <= k < t.drop_last().len() && same_path(#[trigger] t.drop_last()[k].1, t.last().1)) by {
                if seen {
                    let k = choose|k: int| 0 <= k < i && same_path(#[trigger] fv[k].1, fv[i as int].1);
                    assert(t.drop_last()[k] == fv[k]);
                }
                if exists|k: int| 0 <= k < t.drop_last().len() && same_path(#[trigger] t.drop_last()[k].1, t.last().1) {
                    let k = choose|k: int| 0 <= k < t.drop_last().len() && same_path(#[trigger] t.drop_last()[k].1, t.last().1);
                    assert(t.drop_last()[k] == fv[k]);
                }
            }
        }
        if !seen {
            let p = found[i].0.clone();
            out.push(p);
            proof {
                assert(paths_view(out@) =~= paths_view(before).push(fv[i as int].0));
            }
        }
        i = i + 1;
    }
    assert(fv.take(found@.len() as int) =~= fv);
    out
}

/// Paths in the order of `std::path::Path` (equal paths in either order).
pub open spec fn sorted_paths(s: Seq<Seq<u8>>) -> bool {
    forall|i: int, j: int| 0 <= i < j < s.len() ==> !path_lt(#[trigger] s[j], #[trigger] s[i])
}

/// Whether a path has the components `cs`.
pub open spec fn has_components(cs: Seq<(u8, Seq<u8>)>) -> spec_fn(Seq<u8>) -> bool {
    |p: Seq<u8>| path_components(p) == cs
}

proof fn lemma_insert_path_order(before: Seq<Seq<u8>>, p: int, x: Seq<u8>, cs: Seq<(u8, Seq<u8>)>)
    requires
        0 <= p <= before.len(),
        forall|j: int| p <= j < before.len() ==> path_components(#[trigger] before[j]) != path_components(x),
    ensures
        before.insert(p, x).filter(has_components(cs)) == if path_components(x) == cs {
            before.filter(has_components(cs)).push(x)
        } else {
            before.filter(has_components(cs))
        },
{
    let pred = has_components(cs);
    let a = before.take(p);
    let b = before.skip(p);
    assert(before =~= a + b);
    assert(before.insert(p, x) =~= (a + seq![x]) + b);
    Seq::filter_distributes_over_add(a + seq![x], b, pred);
    Seq::filter_distributes_over_add(a, b, pred);
    a.lemma_filter_push(x, pred);
    assert(a + seq![x] =~= a.push(x));
    if path_components(x) == cs {
        assert(b.all(|y: Seq<u8>| !pred(y))) by {
            assert forall|i: int| 0 <= i < b.len() implies !pred(#[trigger] b[i]) by {
                assert(b[i] == before[p + i]);
            }
        }
        b.lemma_all_neg_filter_empty(pred);
        assert(b.filter(pred) =~= Seq::<Seq<u8>>::empty());
        assert(a.filter(pred) + b.filter(pred) =~= a.filter(pred));
        assert(a.filter(pred).push(x) + b.filter(pred) =~= a.filter(pred).push(x));
    }
}

/// The paths sorted as `std::path::Path` orders them, paths that are equal
/// as paths keeping their order.
pub fn sort_paths(paths: &Vec<Vec<u8>>) -> (out: Vec<Vec<u8>>)
    ensures
        sorted_paths(paths_view(out@)),
        paths_view(out@).to_multiset() == paths_view(paths@).to_multiset(),
        forall|cs: Seq<(u8, Seq<u8>)>| #[trigger] paths_view(out@).filter(has_components(cs))
            == paths_view(paths@).filter(has_components(cs)),
{
    let ghost pv = paths_view(paths@);
    let mut out: Vec<Vec<u8>> = Vec::new();
    let mut i: usize = 0;
    assert(pv.take(0) =~= paths_view(out@));
    while i < paths.len()
        invariant
            i <= paths@.len(),
            pv == paths_view(paths@),
            sorted_paths(paths_view(out@)),
            paths_view(out@).to_multiset() == pv.take(i as int).to_multiset(),
            forall|cs: Seq<(u8, Seq<u8>)>| #[trigger] paths_view(out@).filter(has_components(cs))
                == pv.take(i as int).filter(has_components(cs)),
        decreases paths@.len() - i,
    {
        let x = paths[i].clone();
        assert(x@ == pv[i as int]);
        let mut p: usize = 0;
        while p < out.len() && !path_less(&x, &out[p])
            invariant
                p <= out@.len(),
                forall|q: int| 0 <= q < p ==> !path_lt(x@, #[trigger] paths_view(out@)[q]),
            decreases out@.len() - p,
        {
            p = p + 1;
        }
        let ghost before = paths_view(out@);
        proof {
            assert forall|j: int| p <= j < before.len() implies !path_lt(#[trigger] before[j], x@) by {
                lemma_parts_order(path_components(x@), path_components(before[p as int]), path_components(before[j]));
                lemma_parts_order(path_components(before[j]), path_components(x@), path_components(before[p as int]));
                if path_lt(before[j], x@) && j > p {
                    assert(!path_lt(before[j], before[p as int]));
                }
            }
            assert forall|j: int| p <= j < before.len() implies path_components(#[trigger] before[j]) != path_components(x@) by {
                lemma_parts_order(path_components(x@), path_components(x@), path_components(x@));
                if j > p {
                    assert(!path_lt(before[j], before[p as int]));
                }
            }
        }
        out.insert(p, x);
        proof {
            assert(paths_view(out@) =~= before.insert(p as int, x@));
            vstd::seq_lib::to_multiset_insert(before, p as int, x@);
            assert(pv.take(i + 1) =~= pv.take(i as int).push(pv[i as int]));
            vstd::seq_lib::to_multiset_build(pv.take(i as int), pv[i as int]);
            assert forall|cs: Seq<(u8, Seq<u8>)>| #[trigger] paths_view(out@).filter(has_components(cs))
                == pv.take(i + 1).filter(has_components(cs)) by {
                lemma_insert_path_order(before, p as int, x@, cs);
                pv.take(i as int).lemma_filter_push(pv[i as int], has_components(cs));
            }
            let v = paths_view(out@);
            assert forall|a: int, b: int| 0 <= a < b < v.len() implies !path_lt(#[trigger] v[b], #[trigger] v[a]) by {
                if b < p {
                    assert(v[a] == before[a] && v[b] == before[b]);
                } else if b == p {
                    assert(v[a] == before[a]);
                } else if a == p {
                    assert(v[b] == before[b - 1]);
                } else if a < p {
                    assert(v[a] == before[a] && v[b] == before[b - 1]);
                } else {
                    assert(v[a] == before[a - 1] && v[b] == before[b - 1]);
                }
            }
        }
        i = i + 1;
    }
    assert(pv.take(paths@.len() as int) =~= pv);
    out
}

/// The telemetry sockets found, each with its resolved path: one path per
/// socket (the first found), sorted as paths.
pub fn order_sockets(found: &Vec<(Vec<u8>, Vec<u8>)>) -> (out: Vec<Vec<u8>>)
    ensures
        sorted_paths(paths_view(out@)),
        paths_view(out@).to_multiset() == first_per_canonical(pairs_view(found@)).to_multiset(),
        forall|cs: Seq<(u8, Seq<u8>)>| #[trigger] paths_view(out@).filter(has_components(cs))
            == first_per_canonical(pairs_view(found@)).filter(has_components(cs)),
{
    let kept = dedup_by_canonical(found);
    sort_paths(&kept)
}

} // verus!
