//! Collections of records identified by a string key, kept with unique keys.

use vstd::prelude::*;

use crate::text::str_eq;

verus! {

/// A record identified by a string key.
pub trait Keyed {
    spec fn key(&self) -> Seq<char>;

    fn key_str(&self) -> (r: &str)
        ensures
            r@ == self.key(),
    ;
}

impl Keyed for String {
    open spec fn key(&self) -> Seq<char> {
        self@
    }

    fn key_str(&self) -> (r: &str) {
        self.as_str()
    }
}

/// Whether some element of `s` has key `k`.
pub open spec fn has_key<T: Keyed>(s: Seq<T>, k: Seq<char>) -> bool {
    exists|i: int| 0 <= i < s.len() && #[trigger] s[i].key() == k
}

/// No two elements of `s` share a key.
pub open spec fn unique_keys<T: Keyed>(s: Seq<T>) -> bool {
    forall|i: int, j: int|
        0 <= i < s.len() && 0 <= j < s.len() && i != j ==> #[trigger] s[i].key() != #[trigger] s[j].key()
}

/// The element of `s` with key `k`, if any.
pub open spec fn lookup<T: Keyed>(s: Seq<T>, k: Seq<char>) -> Option<T> {
    if has_key(s, k) {
        Some(s[choose|i: int| 0 <= i < s.len() && #[trigger] s[i].key() == k])
    } else {
        None
    }
}

/// In a sequence with unique keys, the element at `i` is the one found by its key.
pub proof fn lemma_lookup_at<T: Keyed>(s: Seq<T>, i: int)
    requires
        unique_keys(s),
        0 <= i < s.len(),
    ensures
        lookup(s, s[i].key()) == Some(s[i]),
{
    let k = s[i].key();
    assert(has_key(s, k));
    let j = choose|j: int| 0 <= j < s.len() && #[trigger] s[j].key() == k;
    if j != i {
        assert(s[i].key() != s[j].key());
    }
}

/// The position of the element with key `k`.
pub fn find_key<T: Keyed>(v: &Vec<T>, k: &str) -> (r: Option<usize>)
    ensures
        r matches Some(i) ==> i < v@.len() && v@[i as int].key() == k@ && forall|j: int|
            0 <= j < i ==> #[trigger] v@[j].key() != k@,
        r is None ==> !has_key(v@, k@),
{
    let mut i: usize = 0;
    while i < v.len()
        invariant
            i <= v.len(),
            forall|j: int| 0 <= j < i ==> #[trigger] v@[j].key() != k@,
        decreases v.len() - i,
    {
        if str_eq(v[i].key_str(), k) {
            return Some(i);
        }
        i = i + 1;
    }
    None
}

/// Insert `x`, replacing the element with the same key if there is one.
pub fn upsert<T: Keyed>(v: &mut Vec<T>, x: T)
    requires
        unique_keys(old(v)@),
    ensures
        unique_keys(final(v)@),
        forall|k: Seq<char>|
            #[trigger] lookup(final(v)@, k) == if k == x.key() {
                Some(x)
            } else {
                lookup(old(v)@, k)
            },
        forall|k: Seq<char>| #[trigger] has_key(final(v)@, k) == (k == x.key() || has_key(old(v)@, k)),
{
    let ghost xk = x.key();
    match find_key(v, x.key_str()) {
        Some(i) => {
            v.set(i, x);
            proof {
                let s = v@;
                let o = old(v)@;
                assert forall|a: int, b: int|
                    0 <= a < s.len() && 0 <= b < s.len() && a != b implies #[trigger] s[a].key()
                    != #[trigger] s[b].key() by {
                    assert(o[a].key() != o[b].key());
                    if a == i {
                        assert(o[i as int].key() == xk);
                    }
                    if b == i {
                        assert(o[i as int].key() == xk);
                    }
                }
                assert forall|k: Seq<char>| #[trigger] has_key(s, k) == (k == xk || has_key(o, k)) by {
                    if has_key(o, k) {
                        let j = choose|j: int| 0 <= j < o.len() && #[trigger] o[j].key() == k;
                        assert(s[j].key() == k);
                    }
                    if k == xk {
                        assert(s[i as int].key() == k);
                    }
                    if has_key(s, k) {
                        let j = choose|j: int| 0 <= j < s.len() && #[trigger] s[j].key() == k;
                        assert(o[j].key() == k || j == i);
                    }
                }
                assert forall|k: Seq<char>|
                    #[trigger] lookup(s, k) == if k == xk {
                        Some(x)
                    } else {
                        lookup(o, k)
                    } by {
                    if k == xk {
                        lemma_lookup_at(s, i as int);
                    } else if has_key(o, k) {
                        let j = choose|j: int| 0 <= j < o.len() && #[trigger] o[j].key() == k;
                        assert(j != i);
                        lemma_lookup_at(o, j);
                        lemma_lookup_at(s, j);
                    } else {
                        assert(!has_key(s, k));
                    }
                }
            }
        },
        None => {
            v.push(x);
            proof {
                let s = v@;
                let o = old(v)@;
                assert(s =~= o.push(x));
                assert forall|a: int, b: int|
                    0 <= a < s.len() && 0 <= b < s.len() && a != b implies #[trigger] s[a].key()
                    != #[trigger] s[b].key() by {
                    if a < o.len() && b < o.len() {
                        assert(o[a].key() != o[b].key());
                    } else if a < o.len() {
                        assert(o[a].key() != xk);
                    } else {
                        assert(o[b].key() != xk);
                    }
                }
                assert forall|k: Seq<char>| #[trigger] has_key(s, k) == (k == xk || has_key(o, k)) by {
                    if has_key(o, k) {
                        let j = choose|j: int| 0 <= j < o.len() && #[trigger] o[j].key() == k;
                        assert(s[j].key() == k);
                    }
                    if k == xk {
                        assert(s[o.len() as int].key() == k);
                    }
                    if has_key(s, k) {
                        let j = choose|j: int| 0 <= j < s.len() && #[trigger] s[j].key() == k;
                        if j < o.len() {
                            assert(o[j].key() == k);
                        }
                    }
                }
                assert forall|k: Seq<char>|
                    #[trigger] lookup(s, k) == if k == xk {
                        Some(x)
                    } else {
                        lookup(o, k)
                    } by {
                    if k == xk {
                        lemma_lookup_at(s, o.len() as int);
                    } else if has_key(o, k) {
                        let j = choose|j: int| 0 <= j < o.len() && #[trigger] o[j].key() == k;
                        lemma_lookup_at(o, j);
                        lemma_lookup_at(s, j);
                    } else {
                        assert(!has_key(s, k));
                    }
                }
            }
        },
    }
}

/// Remove the element with key `k`, returning it.
pub fn remove_key<T: Keyed>(v: &mut Vec<T>, k: &str) -> (r: Option<T>)
    requires
        unique_keys(old(v)@),
    ensures
        unique_keys(final(v)@),
        r == lookup(old(v)@, k@),
        forall|q: Seq<char>|
            #[trigger] lookup(final(v)@, q) == if q == k@ {
                None
            } else {
                lookup(old(v)@, q)
            },
        forall|q: Seq<char>| #[trigger] has_key(final(v)@, q) == (q != k@ && has_key(old(v)@, q)),
{
    match find_key(v, k) {
        Some(i) => {
            let x = v.remove(i);
            proof {
                let s = v@;
                let o = old(v)@;
                assert(s =~= o.remove(i as int));
                lemma_lookup_at(o, i as int);
                assert forall|a: int, b: int|
                    0 <= a < s.len() && 0 <= b < s.len() && a != b implies #[trigger] s[a].key()
                    != #[trigger] s[b].key() by {
                    let a2 = if a < i { a } else { a + 1 };
                    let b2 = if b < i { b } else { b + 1 };
                    assert(o[a2].key() != o[b2].key());
                }
                assert forall|q: Seq<char>| #[trigger] has_key(s, q) == (q != k@ && has_key(o, q)) by {
                    if has_key(s, q) {
                        let j = choose|j: int| 0 <= j < s.len() && #[trigger] s[j].key() == q;
                        let j2 = if j < i { j } else { j + 1 };
                        assert(o[j2].key() == q);
                        assert(o[j2].key() != o[i as int].key());
                    }
                    if q != k@ && has_key(o, q) {
                        let j = choose|j: int| 0 <= j < o.len() && #[trigger] o[j].key() == q;
                        assert(j != i);
                        let j2 = if j < i { j } else { j - 1 };
                        assert(s[j2].key() == q);
                    }
                }
                assert forall|q: Seq<char>|
                    #[trigger] lookup(s, q) == if q == k@ {
                        None
                    } else {
                        lookup(o, q)
                    } by {
                    if q != k@ && has_key(o, q) {
                        let j = choose|j: int| 0 <= j < o.len() && #[trigger] o[j].key() == q;
                        assert(j != i);
                        let j2 = if j < i { j } else { j - 1 };
                        assert(s[j2] == o[j]);
                        lemma_lookup_at(o, j);
                        lemma_lookup_at(s, j2);
                    }
                }
            }
            Some(x)
        },
        None => None,
    }
}

} // verus!

verus! {

/// The last element of `s` with key `k`, if any.
pub open spec fn last_with_key<T: Keyed>(s: Seq<T>, k: Seq<char>) -> Option<T>
    decreases s.len(),
{
    if s.len() == 0 {
        None
    } else if s.last().key() == k {
        Some(s.last())
    } else {
        last_with_key(s.drop_last(), k)
    }
}

/// Collect `xs` into a table with unique keys; a later element replaces an
/// earlier one with the same key.
pub fn collect_unique<T: Keyed>(xs: Vec<T>) -> (r: Vec<T>)
    ensures
        unique_keys(r@),
        forall|k: Seq<char>| #[trigger] lookup(r@, k) == last_with_key(xs@, k),
{
    let ghost all = xs@;
    let n = xs.len();
    let mut r: Vec<T> = Vec::new();
    let mut xs = xs;
    let mut i: usize = 0;
    assert(xs@ =~= all.subrange(0, all.len() as int));
    while xs.len() > 0
        invariant
            i + xs@.len() == all.len(),
            all.len() == n,
            xs@ =~= all.subrange(i as int, all.len() as int),
            unique_keys(r@),
            forall|k: Seq<char>| #[trigger] lookup(r@, k) == last_with_key(all.subrange(0, i as int), k),
        decreases xs.len(),
    {
        let x = xs.remove(0);
        let ghost before = r@;
        assert(x == all[i as int]);
        upsert(&mut r, x);
        proof {
            let pre = all.subrange(0, i as int);
            let next = all.subrange(0, i + 1);
            assert(next.drop_last() =~= pre);
            assert forall|k: Seq<char>| #[trigger] lookup(r@, k) == last_with_key(next, k) by {
                assert(lookup(r@, k) == if k == x.key() { Some(x) } else { lookup(before, k) });
            }
        }
        i = i + 1;
        assert(xs@ =~= all.subrange(i as int, all.len() as int));
    }
    assert(all.subrange(0, all.len() as int) =~= all);
    r
}

} // verus!
