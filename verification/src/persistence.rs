//! Single-machine state store: an in-memory map from keys to JSON values.

use vstd::prelude::*;

use crate::json::{json_view, Json, JsonView};
use crate::keyed::{collect_unique, find_key, has_key, last_with_key, lemma_lookup_at, lookup, remove_key, unique_keys, upsert, Keyed};

verus! {

/// In-memory store (useful for tests and non-durable runs).
#[derive(Debug)]
pub struct MemoryStore {
    entries: Vec<(String, Json)>,
}

impl View for MemoryStore {
    type V = Map<Seq<char>, JsonView>;

    closed spec fn view(&self) -> Map<Seq<char>, JsonView> {
        Map::new(
            |k: Seq<char>| has_key(self.entries@, k),
            |k: Seq<char>| json_view(lookup(self.entries@, k).unwrap().1),
        )
    }
}

impl MemoryStore {
    /// The store's invariant: one entry per key.
    pub closed spec fn wf(&self) -> bool {
        unique_keys(self.entries@)
    }

    /// An empty store.
    pub fn new() -> (r: MemoryStore)
        ensures
            r.wf(),
            r@ == Map::<Seq<char>, JsonView>::empty(),
    {
        let r = MemoryStore { entries: Vec::new() };
        assert(r@ =~= Map::<Seq<char>, JsonView>::empty());
        r
    }

    /// The value stored under `key`.
    pub fn load(&self, key: &str) -> (r: Option<Json>)
        requires
            self.wf(),
        ensures
            match r {
                Some(v) => self@.contains_key(key@) && v@ == self@[key@],
                None => !self@.contains_key(key@),
            },
    {
        match find_key(&self.entries, key) {
            Some(i) => {
                proof {
                    lemma_lookup_at(self.entries@, i as int);
                }
                Some(self.entries[i].1.duplicate())
            },
            None => None,
        }
    }

    /// Store `value` under `key`, replacing what was there.
    pub fn save(&mut self, key: &str, value: Json)
        requires
            old(self).wf(),
        ensures
            final(self).wf(),
            final(self)@ == old(self)@.insert(key@, value@),
    {
        let ghost vv = value@;
        upsert(&mut self.entries, (key.to_owned(), value));
        assert(self@ =~= old(self)@.insert(key@, vv));
    }

    /// Remove what is stored under `key`.
    pub fn delete(&mut self, key: &str)
        requires
            old(self).wf(),
        ensures
            final(self).wf(),
            final(self)@ == old(self)@.remove(key@),
    {
        let _ = remove_key(&mut self.entries, key);
        assert(self@ =~= old(self)@.remove(key@));
    }

    /// A store holding a stored document's members: those of a JSON object
    /// (a later member replaces an earlier one with the same key); any other
    /// document, or none, gives an empty store.
    pub fn from_document(document: Option<Json>) -> (r: MemoryStore)
        ensures
            r.wf(),
            match document {
                Some(Json::Object(m)) => forall|k: Seq<char>|
                    {
                        &&& #[trigger] r@.contains_key(k) == (last_with_key(m@, k) is Some)
                        &&& (last_with_key(m@, k) matches Some(e) ==> r@[k] == e.1@)
                    },
                _ => r@ == Map::<Seq<char>, JsonView>::empty(),
            },
    {
        match document {
            Some(Json::Object(m)) => {
                let entries = collect_unique(m);
                let r = MemoryStore { entries };
                proof {
                    assert forall|k: Seq<char>| #[trigger] r@.contains_key(k) == (last_with_key(m@, k) is Some) by {
                        assert(lookup(r.entries@, k) == last_with_key(m@, k));
                    }
                }
                r
            },
            _ => MemoryStore::new(),
        }
    }

    /// The store as one JSON object document, one member per key.
    pub fn document(&self) -> (r: Json)
        requires
            self.wf(),
        ensures
            r matches Json::Object(m) && {
                &&& unique_keys(m@)
                &&& forall|k: Seq<char>| #[trigger] has_key(m@, k) == self@.contains_key(k)
                &&& forall|k: Seq<char>| has_key(m@, k) ==> (#[trigger] lookup(m@, k)).unwrap().1@ == self@[k]
            },
    {
        let mut m: Vec<(String, Json)> = Vec::new();
        let mut i: usize = 0;
        while i < self.entries.len()
            invariant
                unique_keys(self.entries@),
                i <= self.entries@.len(),
                m@.len() == i,
                forall|q: int| 0 <= q < i ==> (#[trigger] m@[q]).0 == self.entries@[q].0 && m@[q].1@ == self.entries@[q].1@,
            decreases self.entries.len() - i,
        {
            m.push((self.entries[i].0.clone(), self.entries[i].1.duplicate()));
            i = i + 1;
        }
        proof {
            assert forall|a: int, b: int| 0 <= a < m@.len() && 0 <= b < m@.len() && a != b implies #[trigger] m@[a].key() != #[trigger] m@[b].key() by {
                assert(self.entries@[a].key() != self.entries@[b].key());
            }
            assert forall|k: Seq<char>| #[trigger] has_key(m@, k) == self@.contains_key(k) by {
                if has_key(m@, k) {
                    let q = choose|q: int| 0 <= q < m@.len() && #[trigger] m@[q].key() == k;
                    assert(self.entries@[q].key() == k);
                }
                if has_key(self.entries@, k) {
                    let q = choose|q: int| 0 <= q < self.entries@.len() && #[trigger] self.entries@[q].key() == k;
                    assert(m@[q].key() == k);
                }
            }
            assert forall|k: Seq<char>| has_key(m@, k) implies (#[trigger] lookup(m@, k)).unwrap().1@ == self@[k] by {
                if has_key(m@, k) {
                    let q = choose|q: int| 0 <= q < m@.len() && #[trigger] m@[q].key() == k;
                    lemma_lookup_at(m@, q);
                    lemma_lookup_at(self.entries@, q);
                }
            }
        }
        Json::Object(m)
    }

    /// A snapshot of every entry.
    pub fn entries(&self) -> (r: Vec<(String, Json)>)
        requires
            self.wf(),
        ensures
            r@.len() == self@.dom().len(),
            forall|i: int| 0 <= i < r@.len() ==> self@.contains_key((#[trigger] r@[i]).0@) && r@[i].1@ == self@[r@[i].0@],
            forall|k: Seq<char>| #[trigger] self@.contains_key(k) ==> exists|i: int| 0 <= i < r@.len() && r@[i].0@ == k,
    {
        let mut r: Vec<(String, Json)> = Vec::new();
        let mut i: usize = 0;
        while i < self.entries.len()
            invariant
                unique_keys(self.entries@),
                i <= self.entries@.len(),
                r@.len() == i,
                forall|q: int| 0 <= q < i ==> (#[trigger] r@[q]).0 == self.entries@[q].0 && r@[q].1@ == self.entries@[q].1@,
            decreases self.entries.len() - i,
        {
            r.push((self.entries[i].0.clone(), self.entries[i].1.duplicate()));
            i = i + 1;
        }
        proof {
            assert forall|q: int| 0 <= q < r@.len() implies self@.contains_key((#[trigger] r@[q]).0@) && r@[q].1@ == self@[r@[q].0@] by {
                lemma_lookup_at(self.entries@, q);
            }
            assert forall|k: Seq<char>| #[trigger] self@.contains_key(k) implies exists|i: int| 0 <= i < r@.len() && r@[i].0@ == k by {
                let j = choose|j: int| 0 <= j < self.entries@.len() && #[trigger] self.entries@[j].key() == k;
                assert(r@[j].0@ == k);
            }
            lemma_keys_len(self.entries@);
        }
        r
    }
}

/// With unique keys, a table has as many entries as keys.
proof fn lemma_keys_len(s: Seq<(String, Json)>)
    requires
        unique_keys(s),
    ensures
        Set::new(|k: Seq<char>| has_key(s, k)).len() == s.len(),
        Set::new(|k: Seq<char>| has_key(s, k)).finite(),
    decreases s.len(),
{
    let keys = Set::new(|k: Seq<char>| has_key(s, k));
    if s.len() == 0 {
        assert(keys =~= Set::empty());
    } else {
        let t = s.drop_last();
        assert(unique_keys(t)) by {
            assert forall|i: int, j: int| 0 <= i < t.len() && 0 <= j < t.len() && i != j implies #[trigger] t[i].key() != #[trigger] t[j].key() by {
                assert(s[i].key() != s[j].key());
            }
        }
        lemma_keys_len(t);
        let tk = Set::new(|k: Seq<char>| has_key(t, k));
        let last = s.last().0@;
        assert(!tk.contains(last)) by {
            if tk.contains(last) {
                let j = choose|j: int| 0 <= j < t.len() && #[trigger] t[j].key() == last;
                assert(s[j].key() != s[s.len() - 1].key());
            }
        }
        assert forall|k: Seq<char>| keys.contains(k) == tk.insert(last).contains(k) by {
            if keys.contains(k) && k != last {
                let j = choose|j: int| 0 <= j < s.len() && #[trigger] s[j].key() == k;
                assert(t[j].key() == k);
            }
            if tk.contains(k) {
                let j = choose|j: int| 0 <= j < t.len() && #[trigger] t[j].key() == k;
                assert(s[j].key() == k);
            }
            if k == last {
                assert(s[s.len() - 1].key() == k);
            }
        }
        assert(keys =~= tk.insert(last));
    }
}

/// What a store gives back: a load after a save of `key` gives the saved
/// value, a load after a delete of `key` gives nothing, and neither touches
/// another key.
pub proof fn store_read_your_writes(m: Map<Seq<char>, JsonView>, key: Seq<char>, other: Seq<char>, v: JsonView)
    requires
        other != key,
    ensures
        m.insert(key, v).contains_key(key) && m.insert(key, v)[key] == v,
        !m.remove(key).contains_key(key),
        m.insert(key, v).contains_key(other) == m.contains_key(other),
        m.contains_key(other) ==> m.insert(key, v)[other] == m[other],
        m.remove(key).contains_key(other) == m.contains_key(other),
        m.contains_key(other) ==> m.remove(key)[other] == m[other],
{
}

/// In a table with unique keys, the last element with a key is the one
/// found by it.
proof fn lemma_last_is_lookup(s: Seq<(String, Json)>, k: Seq<char>)
    requires
        unique_keys(s),
    ensures
        last_with_key(s, k) == lookup(s, k),
    decreases s.len(),
{
    if s.len() > 0 {
        let t = s.drop_last();
        assert(unique_keys(t)) by {
            assert forall|i: int, j: int| 0 <= i < t.len() && 0 <= j < t.len() && i != j implies #[trigger] t[i].key() != #[trigger] t[j].key() by {
                assert(s[i].key() != s[j].key());
            }
        }
        lemma_last_is_lookup(t, k);
        if s.last().key() == k {
            lemma_lookup_at(s, s.len() - 1);
        } else if has_key(t, k) {
            let i = choose|i: int| 0 <= i < t.len() && #[trigger] t[i].key() == k;
            lemma_lookup_at(t, i);
            lemma_lookup_at(s, i);
        } else {
            assert(!has_key(s, k)) by {
                if has_key(s, k) {
                    let i = choose|i: int| 0 <= i < s.len() && #[trigger] s[i].key() == k;
                    if i < s.len() - 1 {
                        assert(t[i].key() == k);
                    }
                }
            }
        }
    }
}

/// A store written out as its document and opened again holds what it
/// held: reopening `document` (written from a store holding `saved`) gives
/// a store holding `reopened` equal to `saved`.
pub proof fn store_survives_reopen(
    saved: Map<Seq<char>, JsonView>,
    document: Seq<(String, Json)>,
    reopened: Map<Seq<char>, JsonView>,
)
    requires
        unique_keys(document),
        forall|k: Seq<char>| #[trigger] has_key(document, k) == saved.contains_key(k),
        forall|k: Seq<char>| has_key(document, k) ==> (#[trigger] lookup(document, k)).unwrap().1@ == saved[k],
        forall|k: Seq<char>|
            {
                &&& #[trigger] reopened.contains_key(k) == (last_with_key(document, k) is Some)
                &&& (last_with_key(document, k) matches Some(e) ==> reopened[k] == e.1@)
            },
    ensures
        reopened == saved,
{
    assert forall|k: Seq<char>| #[trigger] reopened.contains_key(k) == saved.contains_key(k) by {
        lemma_last_is_lookup(document, k);
        assert(has_key(document, k) == saved.contains_key(k));
    }
    assert forall|k: Seq<char>| reopened.contains_key(k) implies #[trigger] reopened[k] == saved[k] by {
        lemma_last_is_lookup(document, k);
        assert(has_key(document, k) == saved.contains_key(k));
        assert(lookup(document, k).unwrap().1@ == saved[k]);
    }
    assert(reopened =~= saved);
}

} // verus!
