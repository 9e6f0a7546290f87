//! Path order, as `std::path::Path` compares paths: component by
//! component, each component by its kind and then its text, and sorting
//! paths in that order.

use vstd::prelude::*;

use crate::order::{lemma_text_lt_irreflexive, lemma_text_lt_transitive, text_less, text_lt};
use crate::paths::{components, parts_view, path_parts, PathPart};
use crate::text::str_eq;

verus! {

/// Component `a` comes before component `b`: its kind ranks lower, or the
/// kinds are equal and its text comes first.
pub open spec fn part_lt(a: (u8, Seq<char>), b: (u8, Seq<char>)) -> bool {
    a.0 < b.0 || (a.0 == b.0 && text_lt(a.1, b.1))
}

/// Component list `a` comes before `b`: at the first component where they
/// differ that of `a` comes first, or `a` is a proper prefix of `b`.
pub open spec fn parts_lt(a: Seq<(u8, Seq<char>)>, b: Seq<(u8, Seq<char>)>) -> bool
    decreases a.len(),
{
    if a.len() == 0 {
        b.len() > 0
    } else if b.len() == 0 {
        false
    } else if a[0] != b[0] {
        part_lt(a[0], b[0])
    } else {
        parts_lt(a.drop_first(), b.drop_first())
    }
}

/// Path `a` comes before path `b` in path order.
pub open spec fn path_lt(a: Seq<char>, b: Seq<char>) -> bool {
    parts_lt(path_parts(a), path_parts(b))
}

/// No path of `s` comes before an earlier one.
pub open spec fn paths_sorted(s: Seq<String>) -> bool {
    forall|i: int, j: int| 0 <= i < j < s.len() ==> !path_lt(#[trigger] s[j]@, #[trigger] s[i]@)
}

/// A path's components are `k`.
pub open spec fn parts_are(k: Seq<(u8, Seq<char>)>) -> spec_fn(String) -> bool {
    |s: String| path_parts(s@) == k
}

/// The paths of `s` whose components are `k`, in their order in `s`.
pub open spec fn with_parts(s: Seq<String>, k: Seq<(u8, Seq<char>)>) -> Seq<String> {
    s.filter(parts_are(k))
}

/// Inserting `x` at `p`, with no path of components `k` from `p` on when
/// `x` has them, adds `x` last to the paths of components `k`.
proof fn lemma_with_parts_insert(before: Seq<String>, p: int, x: String, k: Seq<(u8, Seq<char>)>)
    requires
        0 <= p <= before.len(),
        path_parts(x@) == k ==> forall|q: int| p <= q < before.len() ==> path_parts((#[trigger] before[q])@) != k,
    ensures
        with_parts(before.insert(p, x), k) == if path_parts(x@) == k {
            with_parts(before, k).push(x)
        } else {
            with_parts(before, k)
        },
{
    let pred = parts_are(k);
    let head = before.take(p);
    let tail = before.skip(p);
    assert(before.insert(p, x) =~= head + seq![x] + tail);
    assert(before =~= head + tail);
    Seq::filter_distributes_over_add(head + seq![x], tail, pred);
    Seq::filter_distributes_over_add(head, seq![x], pred);
    Seq::filter_distributes_over_add(head, tail, pred);
    assert(seq![x] =~= Seq::<String>::empty().push(x));
    Seq::<String>::empty().lemma_filter_push(x, pred);
    reveal(Seq::filter);
    assert(Seq::<String>::empty().filter(pred) =~= Seq::<String>::empty());
    if path_parts(x@) == k {
        assert(tail.all(|e: String| !pred(e))) by {
            assert forall|q: int| 0 <= q < tail.len() implies !pred(#[trigger] tail[q]) by {
                assert(tail[q] == before[p + q]);
            }
        }
        tail.lemma_all_neg_filter_empty(pred);
        assert(tail.filter(pred) =~= Seq::<String>::empty());
        assert(head.filter(pred) + seq![x] =~= head.filter(pred).push(x));
        assert(head.filter(pred) + Seq::<String>::empty() =~= head.filter(pred));
    } else {
        assert(head.filter(pred) + Seq::<String>::empty() =~= head.filter(pred));
    }
}

proof fn lemma_part_lt_transitive(a: (u8, Seq<char>), b: (u8, Seq<char>), c: (u8, Seq<char>))
    requires
        part_lt(a, b),
        part_lt(b, c),
    ensures
        part_lt(a, c),
{
    if a.0 == b.0 && b.0 == c.0 {
        lemma_text_lt_transitive(a.1, b.1, c.1);
    }
}

proof fn lemma_part_lt_irreflexive(a: (u8, Seq<char>))
    ensures
        !part_lt(a, a),
{
    lemma_text_lt_irreflexive(a.1);
}

/// Component-list order is transitive.
pub proof fn lemma_parts_lt_transitive(a: Seq<(u8, Seq<char>)>, b: Seq<(u8, Seq<char>)>, c: Seq<(u8, Seq<char>)>)
    requires
        parts_lt(a, b),
        parts_lt(b, c),
    ensures
        parts_lt(a, c),
    decreases a.len(),
{
    if a.len() > 0 && b.len() > 0 && c.len() > 0 {
        if a[0] == b[0] && b[0] == c[0] {
            lemma_parts_lt_transitive(a.drop_first(), b.drop_first(), c.drop_first());
        } else if a[0] != b[0] && b[0] != c[0] {
            lemma_part_lt_transitive(a[0], b[0], c[0]);
            if a[0] == c[0] {
                lemma_part_lt_transitive(a[0], b[0], a[0]);
                lemma_part_lt_irreflexive(a[0]);
            }
        }
    }
}

/// Component-list order is irreflexive.
pub proof fn lemma_parts_lt_irreflexive(a: Seq<(u8, Seq<char>)>)
    ensures
        !parts_lt(a, a),
    decreases a.len(),
{
    if a.len() > 0 {
        lemma_parts_lt_irreflexive(a.drop_first());
    }
}

/// Whether two components are the same.
fn part_eq(a: &PathPart, b: &PathPart) -> (r: bool)
    ensures
        r == (a@ == b@),
{
    match (a, b) {
        (PathPart::Prefix(x), PathPart::Prefix(y)) => str_eq(x.as_str(), y.as_str()),
        (PathPart::Root, PathPart::Root) => true,
        (PathPart::Current, PathPart::Current) => true,
        (PathPart::Parent, PathPart::Parent) => true,
        (PathPart::Normal(x), PathPart::Normal(y)) => str_eq(x.as_str(), y.as_str()),
        _ => false,
    }
}

/// The rank of a component's kind.
fn part_rank(a: &PathPart) -> (r: u8)
    ensures
        r == a@.0,
{
    match a {
        PathPart::Prefix(_) => 0,
        PathPart::Root => 1,
        PathPart::Current => 2,
        PathPart::Parent => 3,
        PathPart::Normal(_) => 4,
    }
}

/// The text of a component.
fn part_text(a: &PathPart) -> (r: &str)
    ensures
        r@ == a@.1,
{
    match a {
        PathPart::Prefix(t) => t.as_str(),
        PathPart::Normal(t) => t.as_str(),
        _ => {
            proof {
                reveal_strlit("");
            }
            ""
        },
    }
}

/// Whether component `a` comes before component `b`.
fn part_less(a: &PathPart, b: &PathPart) -> (r: bool)
    ensures
        r == part_lt(a@, b@),
{
    let x = part_rank(a);
    let y = part_rank(b);
    if x != y {
        x < y
    } else {
        text_less(part_text(a), part_text(b))
    }
}

/// Whether component list `a` comes before `b`.
fn parts_less(a: &Vec<PathPart>, b: &Vec<PathPart>) -> (r: bool)
    ensures
        r == parts_lt(parts_view(a@), parts_view(b@)),
{
    let ghost pa = parts_view(a@);
    let ghost pb = parts_view(b@);
    let mut i: usize = 0;
    assert(pa.skip(0) =~= pa);
    assert(pb.skip(0) =~= pb);
    while i < a.len() && i < b.len()
        invariant
            pa == parts_view(a@),
            pb == parts_view(b@),
            i <= a@.len(),
            i <= b@.len(),
            parts_lt(pa, pb) == parts_lt(pa.skip(i as int), pb.skip(i as int)),
        decreases a.len() - i,
    {
        assert(pa.skip(i as int)[0] == a@[i as int]@);
        assert(pb.skip(i as int)[0] == b@[i as int]@);
        if !part_eq(&a[i], &b[i]) {
            return part_less(&a[i], &b[i]);
        }
        assert(pa.skip(i as int).drop_first() =~= pa.skip(i + 1));
        assert(pb.skip(i as int).drop_first() =~= pb.skip(i + 1));
        i = i + 1;
    }
    assert(pa.skip(i as int).len() == a@.len() - i);
    assert(pb.skip(i as int).len() == b@.len() - i);
    i >= a.len() && i < b.len()
}

/// Whether path `a` comes before path `b` in path order.
pub fn path_less(a: &str, b: &str) -> (r: bool)
    ensures
        r == path_lt(a@, b@),
{
    let pa = components(a);
    let pb = components(b);
    parts_less(&pa, &pb)
}

/// Sort paths in path order, stably: the same paths, none after a path it
/// comes before, and paths with the same components in their given order.
pub fn sort_paths(v: Vec<String>) -> (r: Vec<String>)
    ensures
        paths_sorted(r@),
        r@.to_multiset() == v@.to_multiset(),
        r@.len() == v@.len(),
        forall|k: Seq<(u8, Seq<char>)>| #[trigger] with_parts(r@, k) == with_parts(v@, k),
{
    let ghost all = v@;
    let n = v.len();
    let mut v = v;
    let mut out: Vec<String> = Vec::new();
    let mut i: usize = 0;
    assert(out@ =~= all.subrange(0, 0));
    while v.len() > 0
        invariant
            n == all.len(),
            i + v@.len() == n,
            v@ == all.subrange(i as int, n as int),
            paths_sorted(out@),
            out@.to_multiset() == all.subrange(0, i as int).to_multiset(),
            out@.len() == i,
            forall|k: Seq<(u8, Seq<char>)>| #[trigger] with_parts(out@, k) == with_parts(all.subrange(0, i as int), k),
        decreases v.len(),
    {
        let x = v.remove(0);
        assert(x == all[i as int]);
        let mut p: usize = 0;
        while p < out.len() && !path_less(x.as_str(), out[p].as_str())
            invariant
                p <= out@.len(),
                forall|q: int| 0 <= q < p ==> !path_lt(x@, #[trigger] out@[q]@),
            decreases out.len() - p,
        {
            p = p + 1;
        }
        let ghost before = out@;
        out.insert(p, x);
        proof {
            assert(out@ == before.insert(p as int, x));
            assert forall|a: int, b: int| 0 <= a < b < out@.len() implies !path_lt(#[trigger] out@[b]@, #[trigger] out@[a]@) by {
                if b == p {
                    assert(out@[a] == before[a]);
                } else if a == p {
                    assert(out@[b] == before[b - 1]);
                    if path_lt(before[b - 1]@, x@) {
                        assert(p < before.len());
                        assert(path_lt(x@, before[p as int]@));
                        lemma_parts_lt_transitive(path_parts(before[b - 1]@), path_parts(x@), path_parts(before[p as int]@));
                        if b - 1 == p {
                            lemma_parts_lt_irreflexive(path_parts(before[p as int]@));
                        } else {
                            assert(!path_lt(before[b - 1]@, before[p as int]@));
                        }
                    }
                } else {
                    let a0 = if a < p { a } else { a - 1 };
                    let b0 = if b < p { b } else { b - 1 };
                    assert(out@[a] == before[a0]);
                    assert(out@[b] == before[b0]);
                }
            }
            assert(all.subrange(0, i + 1) =~= all.subrange(0, i as int).push(x));
            assert forall|k: Seq<(u8, Seq<char>)>| #[trigger] with_parts(out@, k) == with_parts(all.subrange(0, i + 1), k) by {
                assert forall|q: int| p <= q < before.len() && path_parts(x@) == k implies path_parts((#[trigger] before[q])@) != k by {
                    if path_parts(before[q]@) == k {
                        assert(path_lt(x@, before[p as int]@));
                        if q == p {
                            lemma_parts_lt_irreflexive(k);
                        } else {
                            assert(!path_lt(before[q]@, before[p as int]@));
                        }
                    }
                }
                lemma_with_parts_insert(before, p as int, x, k);
                all.subrange(0, i as int).lemma_filter_push(x, parts_are(k));
            }
            vstd::seq_lib::to_multiset_insert(before, p as int, x);
            vstd::seq_lib::to_multiset_build(all.subrange(0, i as int), x);
        }
        i = i + 1;
        assert(v@ =~= all.subrange(i as int, n as int));
    }
    assert(all.subrange(0, n as int) =~= all);
    out
}

} // verus!
