//! Records flowing through a graph: an id, a creation time, a JSON payload
//! and string metadata.

use vstd::prelude::*;

use crate::clock::{new_uuid, now_rfc3339, utc_timestamp};
use crate::json::{put, put_member, Json, JsonView};
use crate::keyed::{find_key, has_key, Keyed};

verus! {

/// One record: its id, the time it was made, its payload and its metadata
/// entries. Copies of a record keep its id and time.
#[derive(Debug)]
pub struct Record {
    pub id: String,
    pub timestamp: String,
    pub payload: Json,
    pub metadata: Vec<(String, String)>,
}

impl Keyed for (String, String) {
    open spec fn key(&self) -> Seq<char> {
        self.0@
    }

    fn key_str(&self) -> (r: &str) {
        self.0.as_str()
    }
}

/// Position `i` holds the first entry with key `k`.
pub open spec fn first_entry_at(md: Seq<(String, String)>, k: Seq<char>, i: int) -> bool {
    0 <= i < md.len() && md[i].0@ == k && forall|j: int| 0 <= j < i ==> (#[trigger] md[j]).0@ != k
}

/// The value of the first metadata entry with key `k`.
pub open spec fn meta_value(md: Seq<(String, String)>, k: Seq<char>) -> Option<String> {
    if has_key(md, k) {
        Some(md[choose|i: int| first_entry_at(md, k, i)].1)
    } else {
        None
    }
}

/// A payload with field `k` set to `v` when it is an object; any other
/// payload is left as it is.
pub open spec fn set_field(p: JsonView, k: Seq<char>, v: JsonView) -> JsonView {
    match p {
        JsonView::Object(m) => JsonView::Object(put_member(m, k, v)),
        _ => p,
    }
}

/// An identical copy of a metadata list.
pub fn copy_metadata(md: &Vec<(String, String)>) -> (r: Vec<(String, String)>)
    ensures
        r@ == md@,
{
    let mut r: Vec<(String, String)> = Vec::new();
    let mut i: usize = 0;
    while i < md.len()
        invariant
            i <= md@.len(),
            r@ == md@.subrange(0, i as int),
        decreases md.len() - i,
    {
        r.push((md[i].0.clone(), md[i].1.clone()));
        i = i + 1;
        assert(r@ =~= md@.subrange(0, i as int));
    }
    assert(md@.subrange(0, md@.len() as int) =~= md@);
    r
}

impl Record {
    /// A record with the given payload and no metadata, a fresh random id
    /// and the current time.
    pub fn new(payload: Json) -> (r: Record)
        ensures
            r.payload == payload,
            r.metadata@.len() == 0,
            r.id@.len() == 36,
            utc_timestamp(r.timestamp@),
    {
        Record { id: new_uuid(), timestamp: now_rfc3339(), payload, metadata: Vec::new() }
    }

    /// The value of metadata entry `key`.
    pub fn meta(&self, key: &str) -> (r: Option<String>)
        ensures
            r == meta_value(self.metadata@, key@),
    {
        match find_key(&self.metadata, key) {
            Some(i) => {
                proof {
                    let md = self.metadata@;
                    assert(first_entry_at(md, key@, i as int)) by {
                        assert forall|j: int| 0 <= j < i implies (#[trigger] md[j]).0@ != key@ by {
                            assert(md[j].key() != key@);
                        }
                    }
                    let c = choose|c: int| first_entry_at(md, key@, c);
                    assert(c == i) by {
                        if c < i {
                            assert(md[c].key() != key@);
                        }
                    }
                }
                Some(self.metadata[i].1.clone())
            },
            None => None,
        }
    }

    /// Set payload field `field` to `value` (when the payload is an object).
    pub fn set(&mut self, field: String, value: Json)
        ensures
            final(self).payload@ == set_field(old(self).payload@, field@, value@),
            final(self).metadata == old(self).metadata,
            final(self).id == old(self).id,
            final(self).timestamp == old(self).timestamp,
    {
        match &mut self.payload {
            Json::Object(members) => put(members, field, value),
            _ => {},
        }
    }

    /// A copy with the same id, time, payload and metadata.
    pub fn duplicate(&self) -> (r: Record)
        ensures
            r.payload@ == self.payload@,
            r.metadata@ == self.metadata@,
            r.id@ == self.id@,
            r.timestamp@ == self.timestamp@,
    {
        Record {
            id: self.id.clone(),
            timestamp: self.timestamp.clone(),
            payload: self.payload.duplicate(),
            metadata: copy_metadata(&self.metadata),
        }
    }
}

} // verus!
