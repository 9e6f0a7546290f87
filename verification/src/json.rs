//! A JSON document model: numbers are kept in their canonical text form.

use vstd::prelude::*;

use crate::keyed::{find_key, has_key, Keyed};

verus! {

/// A JSON value. Numbers keep their canonical decimal text; object members
/// keep their order.
#[derive(Debug, PartialEq)]
pub enum Json {
    Null,
    Bool(bool),
    Number(String),
    Str(String),
    Array(Vec<Json>),
    Object(Vec<(String, Json)>),
}

/// The mathematical content of a [`Json`] value.
pub ghost enum JsonView {
    Null,
    Bool(bool),
    Number(Seq<char>),
    Str(Seq<char>),
    Array(Seq<JsonView>),
    Object(Seq<(Seq<char>, JsonView)>),
}

/// The view of a JSON value.
pub open spec fn json_view(j: Json) -> JsonView
    decreases j, 0int,
{
    match j {
        Json::Null => JsonView::Null,
        Json::Bool(b) => JsonView::Bool(b),
        Json::Number(n) => JsonView::Number(n@),
        Json::Str(s) => JsonView::Str(s@),
        Json::Array(items) => JsonView::Array(items_view(items@)),
        Json::Object(members) => JsonView::Object(members_view(members@)),
    }
}

/// The views of a sequence of JSON values.
pub open spec fn items_view(s: Seq<Json>) -> Seq<JsonView>
    decreases s, 1int,
{
    if s.len() == 0 {
        Seq::empty()
    } else {
        items_view(s.drop_last()).push(json_view(s.last()))
    }
}

/// The views of a sequence of object members.
pub open spec fn members_view(s: Seq<(String, Json)>) -> Seq<(Seq<char>, JsonView)>
    decreases s, 1int,
{
    if s.len() == 0 {
        Seq::empty()
    } else {
        members_view(s.drop_last()).push((s.last().0@, json_view(s.last().1)))
    }
}

impl View for Json {
    type V = JsonView;

    open spec fn view(&self) -> JsonView {
        json_view(*self)
    }
}

impl Json {
    /// A deep copy with the same content.
    pub fn duplicate(&self) -> (r: Json)
        ensures
            r@ == self@,
        decreases self,
    {
        match self {
            Json::Null => Json::Null,
            Json::Bool(b) => Json::Bool(*b),
            Json::Number(n) => Json::Number(n.clone()),
            Json::Str(t) => Json::Str(t.clone()),
            Json::Array(items) => {
                let mut out: Vec<Json> = Vec::new();
                let mut i: usize = 0;
                while i < items.len()
                    invariant
                        i <= items@.len(),
                        *self == Json::Array(*items),
                        items_view(out@) == items_view(items@.subrange(0, i as int)),
                    decreases items.len() - i,
                {
                    proof {
                        let ghost v: Vec<Json> = *items;
                        assert(*self == Json::Array(v));
                        assert(decreases_to!(v@ => v@[i as int]));
                        assert(decreases_to!(*self => (*self)->Array_0));
                    }
                    let c = items[i].duplicate();
                    let ghost before = out@;
                    out.push(c);
                    proof {
                        assert(out@.drop_last() =~= before);
                        assert(items@.subrange(0, i + 1).drop_last() =~= items@.subrange(0, i as int));
                    }
                    i = i + 1;
                }
                assert(items@.subrange(0, items@.len() as int) =~= items@);
                Json::Array(out)
            },
            Json::Object(members) => {
                let mut out: Vec<(String, Json)> = Vec::new();
                let mut i: usize = 0;
                while i < members.len()
                    invariant
                        i <= members@.len(),
                        *self == Json::Object(*members),
                        members_view(out@) == members_view(members@.subrange(0, i as int)),
                    decreases members.len() - i,
                {
                    proof {
                        let ghost v: Vec<(String, Json)> = *members;
                        assert(*self == Json::Object(v));
                        assert(decreases_to!(v@ => v@[i as int]));
                        assert(decreases_to!(v@[i as int] => v@[i as int].1));
                        assert(decreases_to!(*self => (*self)->Object_0));
                    }
                    let c = members[i].1.duplicate();
                    let k = members[i].0.clone();
                    let ghost before = out@;
                    out.push((k, c));
                    proof {
                        assert(out@.drop_last() =~= before);
                        assert(members@.subrange(0, i + 1).drop_last() =~= members@.subrange(0, i as int));
                    }
                    i = i + 1;
                }
                assert(members@.subrange(0, members@.len() as int) =~= members@);
                Json::Object(out)
            },
        }
    }
}

impl Keyed for (String, Json) {
    open spec fn key(&self) -> Seq<char> {
        self.0@
    }

    fn key_str(&self) -> (r: &str) {
        self.0.as_str()
    }
}

/// Position `i` holds the first member named `k`.
pub open spec fn first_member_at(m: Seq<(Seq<char>, JsonView)>, k: Seq<char>, i: int) -> bool {
    0 <= i < m.len() && m[i].0 == k && forall|j: int| 0 <= j < i ==> (#[trigger] m[j]).0 != k
}

/// Whether some member is named `k`.
pub open spec fn has_member(m: Seq<(Seq<char>, JsonView)>, k: Seq<char>) -> bool {
    exists|i: int| 0 <= i < m.len() && (#[trigger] m[i]).0 == k
}

/// Set member `k` to `v`: the first member named `k` takes the new value,
/// or the member is appended when there is none.
pub open spec fn put_member(m: Seq<(Seq<char>, JsonView)>, k: Seq<char>, v: JsonView) -> Seq<(Seq<char>, JsonView)> {
    if has_member(m, k) {
        m.update(choose|i: int| first_member_at(m, k, i), (k, v))
    } else {
        m.push((k, v))
    }
}

/// Set every member of `src`, in order.
pub open spec fn put_members(m: Seq<(Seq<char>, JsonView)>, src: Seq<(Seq<char>, JsonView)>) -> Seq<(Seq<char>, JsonView)>
    decreases src.len(),
{
    if src.len() == 0 {
        m
    } else {
        put_members(put_member(m, src[0].0, src[0].1), src.drop_first())
    }
}

/// The member views, element by element.
pub proof fn lemma_members_view(s: Seq<(String, Json)>)
    ensures
        members_view(s).len() == s.len(),
        forall|i: int| 0 <= i < s.len() ==> #[trigger] members_view(s)[i] == (s[i].0@, json_view(s[i].1)),
    decreases s.len(),
{
    if s.len() > 0 {
        lemma_members_view(s.drop_last());
        assert forall|i: int| 0 <= i < s.len() implies #[trigger] members_view(s)[i] == (s[i].0@, json_view(s[i].1)) by {
            if i < s.len() - 1 {
                assert(s.drop_last()[i] == s[i]);
            }
        }
    }
}

/// The item views, element by element.
pub proof fn lemma_items_view(s: Seq<Json>)
    ensures
        items_view(s).len() == s.len(),
        forall|i: int| 0 <= i < s.len() ==> #[trigger] items_view(s)[i] == json_view(s[i]),
    decreases s.len(),
{
    if s.len() > 0 {
        lemma_items_view(s.drop_last());
        assert forall|i: int| 0 <= i < s.len() implies #[trigger] items_view(s)[i] == json_view(s[i]) by {
            if i < s.len() - 1 {
                assert(s.drop_last()[i] == s[i]);
            }
        }
    }
}

/// Set member `key` of an object's members to `value`.
pub fn put(members: &mut Vec<(String, Json)>, key: String, value: Json)
    ensures
        members_view(final(members)@) == put_member(members_view(old(members)@), key@, value@),
{
    let ghost kv = key@;
    let ghost vv = value@;
    let ghost before = members@;
    proof {
        lemma_members_view(before);
    }
    match find_key(members, key.as_str()) {
        Some(i) => {
            members.set(i, (key, value));
            proof {
                let m = members_view(before);
                assert forall|j: int| 0 <= j < i implies (#[trigger] m[j]).0 != kv by {
                    assert(before[j].key() != kv);
                }
                assert(first_member_at(m, kv, i as int));
                let c = choose|c: int| first_member_at(m, kv, c);
                assert(c == i) by {
                    if c < i {
                        assert(before[c].key() != kv);
                    } else if c > i {
                        assert(m[i as int].0 == kv);
                    }
                }
                lemma_members_view(members@);
                assert(members_view(members@) =~= m.update(i as int, (kv, vv)));
            }
        },
        None => {
            members.push((key, value));
            proof {
                let m = members_view(before);
                assert(!has_member(m, kv)) by {
                    if has_member(m, kv) {
                        let j = choose|j: int| 0 <= j < m.len() && (#[trigger] m[j]).0 == kv;
                        assert(before[j].key() == kv);
                    }
                }
                lemma_members_view(members@);
                assert(members_view(members@) =~= m.push((kv, vv)));
            }
        },
    }
}

} // verus!
