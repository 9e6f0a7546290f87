//! Text order (character by character, as `str` and `String` compare) and
//! sorting by key in that order.

use vstd::prelude::*;

use crate::keyed::Keyed;

verus! {

/// `a` comes before `b` in text order: at the first position where they
/// differ the character of `a` is smaller, or `a` is a proper prefix of `b`.
pub open spec fn text_lt(a: Seq<char>, b: Seq<char>) -> bool
    decreases a.len(),
{
    if a.len() == 0 {
        b.len() > 0
    } else if b.len() == 0 {
        false
    } else if a[0] != b[0] {
        (a[0] as u32) < (b[0] as u32)
    } else {
        text_lt(a.drop_first(), b.drop_first())
    }
}

/// Text order is transitive.
pub proof fn lemma_text_lt_transitive(a: Seq<char>, b: Seq<char>, c: Seq<char>)
    requires
        text_lt(a, b),
        text_lt(b, c),
    ensures
        text_lt(a, c),
    decreases a.len(),
{
    if a.len() > 0 && a[0] == b[0] && b[0] == c[0] {
        lemma_text_lt_transitive(a.drop_first(), b.drop_first(), c.drop_first());
    }
}

/// Text order is irreflexive.
pub proof fn lemma_text_lt_irreflexive(a: Seq<char>)
    ensures
        !text_lt(a, a),
    decreases a.len(),
{
    if a.len() > 0 {
        lemma_text_lt_irreflexive(a.drop_first());
    }
}

/// Whether `a` comes before `b` in text order.
pub fn text_less(a: &str, b: &str) -> (r: bool)
    ensures
        r == text_lt(a@, b@),
{
    let n = a.unicode_len();
    let m = b.unicode_len();
    let mut i: usize = 0;
    assert(a@.skip(0) =~= a@);
    assert(b@.skip(0) =~= b@);
    while i < n && i < m
        invariant
            n == a@.len(),
            m == b@.len(),
            i <= n,
            i <= m,
            text_lt(a@, b@) == text_lt(a@.skip(i as int), b@.skip(i as int)),
        decreases n - i,
    {
        let x = a.get_char(i);
        let y = b.get_char(i);
        if x != y {
            assert(a@.skip(i as int)[0] == x);
            assert(b@.skip(i as int)[0] == y);
            return (x as u32) < (y as u32);
        }
        assert(a@.skip(i as int).drop_first() =~= a@.skip(i + 1));
        assert(b@.skip(i as int).drop_first() =~= b@.skip(i + 1));
        i = i + 1;
    }
    assert(a@.skip(i as int).len() == n - i);
    assert(b@.skip(i as int).len() == m - i);
    i >= n && i < m
}

/// The keys of `s` are in text order.
pub open spec fn sorted_by_key<T: Keyed>(s: Seq<T>) -> bool {
    forall|i: int, j: int| 0 <= i < j < s.len() ==> !text_lt(#[trigger] s[j].key(), #[trigger] s[i].key())
}

/// Sort by key in text order (a stable insertion sort): the same elements,
/// ordered by key.
pub fn sort_by_key<T: Keyed>(v: Vec<T>) -> (r: Vec<T>)
    ensures
        sorted_by_key(r@),
        r@.to_multiset() == v@.to_multiset(),
        r@.len() == v@.len(),
{
    let ghost all = v@;
    let n = v.len();
    let mut v = v;
    let mut out: Vec<T> = Vec::new();
    let mut i: usize = 0;
    assert(out@ =~= all.subrange(0, 0));
    while v.len() > 0
        invariant
            n == all.len(),
            i + v@.len() == n,
            v@ == all.subrange(i as int, n as int),
            sorted_by_key(out@),
            out@.to_multiset() == all.subrange(0, i as int).to_multiset(),
            out@.len() == i,
        decreases v.len(),
    {
        let x = v.remove(0);
        assert(x == all[i as int]);
        let mut p: usize = 0;
        while p < out.len() && !text_less(x.key_str(), out[p].key_str())
            invariant
                p <= out@.len(),
                forall|q: int| 0 <= q < p ==> !text_lt(x.key(), #[trigger] out@[q].key()),
            decreases out.len() - p,
        {
            p = p + 1;
        }
        let ghost before = out@;
        out.insert(p, x);
        proof {
            assert(out@ == before.insert(p as int, x));
            assert forall|a: int, b: int| 0 <= a < b < out@.len() implies !text_lt(#[trigger] out@[b].key(), #[trigger] out@[a].key()) by {
                if b == p {
                    assert(out@[a] == before[a]);
                } else if a == p {
                    assert(out@[b] == before[b - 1]);
                    if text_lt(before[b - 1].key(), x.key()) {
                        assert(p < before.len());
                        assert(text_lt(x.key(), before[p as int].key()));
                        lemma_text_lt_transitive(before[b - 1].key(), x.key(), before[p as int].key());
                        if b - 1 == p {
                            lemma_text_lt_irreflexive(before[p as int].key());
                        } else {
                            assert(!text_lt(before[b - 1].key(), before[p as int].key()));
                        }
                    }
                } else {
                    let a0 = if a < p { a } else { a - 1 };
                    let b0 = if b < p { b } else { b - 1 };
                    assert(out@[a] == before[a0]);
                    assert(out@[b] == before[b0]);
                }
            }
            assert(all.subrange(0, i + 1) =~= all.subrange(0, i as int).push(x));
            vstd::seq_lib::to_multiset_insert(before, p as int, x);
            vstd::seq_lib::to_multiset_build(all.subrange(0, i as int), x);
        }
        i = i + 1;
        assert(v@ =~= all.subrange(i as int, n as int));
    }
    assert(all.subrange(0, n as int) =~= all);
    out
}

} // verus!
