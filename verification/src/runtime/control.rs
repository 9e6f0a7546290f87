//! Control-node decisions: switch, foreach, parallel, join, batch and the
//! error policy of a failing transform.

use vstd::prelude::*;

use crate::clock::new_uuid;
use crate::json::{put, put_members, Json, JsonView};
use crate::keyed::{find_key, has_key, lemma_lookup_at, lookup, remove_key, unique_keys, upsert, Keyed};
use crate::runtime::node::{ErrorPolicy, JoinMode, SwitchCase};
use crate::runtime::record::{meta_value, set_field, Record};

verus! {

/// The target of a `switch`: the first case whose condition held, else the
/// default. `verdicts[k]` is the value of case `k`'s condition; conditions
/// after the first that held need not be evaluated.
pub open spec fn switch_choice(cases: Seq<SwitchCase>, verdicts: Seq<bool>, default: String) -> String
    decreases cases.len(),
{
    if cases.len() == 0 || verdicts.len() == 0 {
        default
    } else if verdicts[0] {
        cases[0].to
    } else {
        switch_choice(cases.drop_first(), verdicts.drop_first(), default)
    }
}

/// Pick the target of a `switch` from the verdicts of its cases.
pub fn switch_target(cases: &Vec<SwitchCase>, verdicts: &Vec<bool>, default: &String) -> (r: String)
    ensures
        r == switch_choice(cases@, verdicts@, *default),
{
    let mut k: usize = 0;
    assert(cases@.subrange(0, cases@.len() as int) =~= cases@);
    assert(verdicts@.subrange(0, verdicts@.len() as int) =~= verdicts@);
    while k < cases.len() && k < verdicts.len()
        invariant
            k <= cases@.len(),
            k <= verdicts@.len(),
            switch_choice(cases@, verdicts@, *default) == switch_choice(
                cases@.subrange(k as int, cases@.len() as int),
                verdicts@.subrange(k as int, verdicts@.len() as int),
                *default,
            ),
        decreases cases.len() - k,
    {
        let ghost cs = cases@.subrange(k as int, cases@.len() as int);
        let ghost vs = verdicts@.subrange(k as int, verdicts@.len() as int);
        if verdicts[k] {
            assert(cs[0] == cases@[k as int]);
            return cases[k].to.clone();
        }
        assert(cs.drop_first() =~= cases@.subrange(k + 1, cases@.len() as int));
        assert(vs.drop_first() =~= verdicts@.subrange(k + 1, verdicts@.len() as int));
        k = k + 1;
    }
    proof {
        let cs = cases@.subrange(k as int, cases@.len() as int);
        let vs = verdicts@.subrange(k as int, verdicts@.len() as int);
        assert(cs.len() == 0 || vs.len() == 0);
    }
    default.clone()
}

/// The field a `foreach` stores each item in.
pub open spec fn foreach_field(as_field: Option<String>) -> Seq<char> {
    match as_field {
        Some(f) => f@,
        None => "item"@,
    }
}

/// Expand a record over the items a `foreach` evaluated: one child per item,
/// at most `max_iterations`, each a copy of the record with the item stored
/// in the field. The flag says whether items were dropped by the cap.
pub fn foreach_children(record: &Record, items: Vec<Json>, as_field: &Option<String>, max_iterations: usize) -> (r: (
    Vec<Record>,
    bool,
))
    ensures
        r.1 == (items@.len() > max_iterations),
        r.0@.len() == if items@.len() > max_iterations {
            max_iterations as nat
        } else {
            items@.len()
        },
        forall|i: int|
            0 <= i < r.0@.len() ==> (#[trigger] r.0@[i]).payload@ == set_field(
                record.payload@,
                foreach_field(*as_field),
                items@[i]@,
            ) && r.0@[i].metadata@ == record.metadata@ && r.0@[i].id@ == record.id@
                && r.0@[i].timestamp@ == record.timestamp@,
{
    let ghost all = items@;
    let capped = items.len() > max_iterations;
    let mut items = items;
    let mut children: Vec<Record> = Vec::new();
    let mut i: usize = 0;
    while items.len() > 0 && i < max_iterations
        invariant
            i + items@.len() == all.len(),
            items@ == all.subrange(i as int, all.len() as int),
            children@.len() == i,
            i <= max_iterations,
            forall|q: int|
                0 <= q < i ==> (#[trigger] children@[q]).payload@ == set_field(
                    record.payload@,
                    foreach_field(*as_field),
                    all[q]@,
                ) && children@[q].metadata@ == record.metadata@ && children@[q].id@ == record.id@
                    && children@[q].timestamp@ == record.timestamp@,
        decreases items.len(),
    {
        let item = items.remove(0);
        assert(item == all[i as int]);
        let field = match as_field {
            Some(f) => f.clone(),
            None => "item".to_owned(),
        };
        let mut child = record.duplicate();
        child.set(field, item);
        children.push(child);
        i = i + 1;
        assert(items@ =~= all.subrange(i as int, all.len() as int));
    }
    (children, capped)
}

/// Make sure a record entering a `parallel` carries a correlation id: a
/// record without one gets a fresh random id.
pub fn with_correlation(record: Record) -> (r: Record)
    ensures
        r.payload == record.payload,
        has_key(record.metadata@, "correlation"@) ==> r.metadata == record.metadata,
        !has_key(record.metadata@, "correlation"@) ==> r.metadata@.len() == record.metadata@.len() + 1
            && r.metadata@.drop_last() == record.metadata@ && r.metadata@.last().0@ == "correlation"@
            && r.metadata@.last().1@.len() == 36,
{
    let mut record = record;
    if find_key(&record.metadata, "correlation").is_none() {
        let id = new_uuid();
        let ghost before = record.metadata@;
        record.metadata.push(("correlation".to_owned(), id));
        assert(record.metadata@.drop_last() =~= before);
    }
    record
}

/// The correlation id a `join` groups a record by: its own, or a fresh
/// random id (so the record forms a group of its own).
pub fn correlation_of(record: &Record) -> (r: String)
    ensures
        meta_value(record.metadata@, "correlation"@) matches Some(c) ==> r == c,
        meta_value(record.metadata@, "correlation"@) is None ==> r@.len() == 36,
{
    match record.meta("correlation") {
        Some(c) => c,
        None => new_uuid(),
    }
}

/// The records a `join` holds for one correlation id.
#[derive(Debug)]
pub struct JoinGroup {
    pub correlation: String,
    pub records: Vec<Record>,
}

impl Keyed for JoinGroup {
    open spec fn key(&self) -> Seq<char> {
        self.correlation@
    }

    fn key_str(&self) -> (r: &str) {
        self.correlation.as_str()
    }
}

/// Whether a group of `len` records is complete.
pub open spec fn join_ready(mode: JoinMode, expected: usize, n: usize, len: nat) -> bool {
    match mode {
        JoinMode::Any => true,
        JoinMode::All => len >= if expected == 0 { 1 } else { expected as nat },
        JoinMode::N => len >= if n == 0 { 1 } else { n as nat },
    }
}

/// The buffer of a `join` node, keyed by correlation id.
#[derive(Debug)]
pub struct JoinBuffer {
    pub mode: JoinMode,
    pub n: usize,
    /// The number of routes into the node (used in `all` mode).
    pub expected: usize,
    /// One group per correlation id.
    pub groups: Vec<JoinGroup>,
}

/// `after` is `before` with `record` offered to group `c`, and `released`
/// what the offer handed out: the whole group, in arrival order, once it is
/// complete (the group is then emptied); nothing otherwise (the record is
/// then held). Other groups are untouched.
pub open spec fn join_offered(before: JoinBuffer, after: JoinBuffer, c: Seq<char>, record: Record, released: Option<Seq<Record>>) -> bool {
    &&& after.wf()
    &&& after.mode == before.mode
    &&& after.n == before.n
    &&& after.expected == before.expected
    &&& if join_ready(before.mode, before.expected, before.n, before.held(c).len() + 1) {
        &&& released == Some(before.held(c).push(record))
        &&& after.held(c).len() == 0
    } else {
        &&& released is None
        &&& after.held(c) == before.held(c).push(record)
    }
    &&& forall|k: Seq<char>| k != c ==> #[trigger] after.held(k) == before.held(k)
}

impl JoinBuffer {
    /// The records held for correlation `c`, in arrival order.
    pub open spec fn held(self, c: Seq<char>) -> Seq<Record> {
        match lookup(self.groups@, c) {
            Some(g) => g.records@,
            None => Seq::empty(),
        }
    }

    /// The buffer's invariant: one group per correlation id.
    pub open spec fn wf(self) -> bool {
        unique_keys(self.groups@)
    }

    /// An empty buffer.
    pub fn new(mode: JoinMode, n: usize, expected: usize) -> (r: JoinBuffer)
        ensures
            r.wf(),
            r.mode == mode,
            r.n == n,
            r.expected == expected,
            r.groups@.len() == 0,
            forall|c: Seq<char>| #[trigger] r.held(c).len() == 0,
    {
        JoinBuffer { mode, n, expected, groups: Vec::new() }
    }

    /// Add a record to its correlation group; when the group is complete,
    /// hand out its records in arrival order and empty it.
    pub fn offer(&mut self, correlation: &str, record: Record) -> (r: Option<Vec<Record>>)
        requires
            old(self).wf(),
        ensures
            join_offered(*old(self), *final(self), correlation@, record, match r {
                Some(v) => Some(v@),
                None => None,
            }),
    {
        let mut records = match remove_key(&mut self.groups, correlation) {
            Some(g) => g.records,
            None => Vec::new(),
        };
        records.push(record);
        let threshold = match self.mode {
            JoinMode::Any => 1,
            JoinMode::All => if self.expected == 0 { 1 } else { self.expected },
            JoinMode::N => if self.n == 0 { 1 } else { self.n },
        };
        if records.len() >= threshold {
            upsert(&mut self.groups, JoinGroup { correlation: correlation.to_owned(), records: Vec::new() });
            Some(records)
        } else {
            upsert(&mut self.groups, JoinGroup { correlation: correlation.to_owned(), records });
            None
        }
    }
}

/// The payload views of a list of records.
pub open spec fn payloads(records: Seq<Record>) -> Seq<JsonView> {
    records.map_values(|r: Record| r.payload@)
}

/// Merge payloads in order: while the merged payload is an object, each
/// later object payload sets its members over it; other payloads are
/// skipped.
pub open spec fn merge_views(first: JsonView, rest: Seq<JsonView>) -> JsonView
    decreases rest.len(),
{
    if rest.len() == 0 {
        first
    } else {
        let next = match (first, rest[0]) {
            (JsonView::Object(t), JsonView::Object(s)) => JsonView::Object(put_members(t, s)),
            _ => first,
        };
        merge_views(next, rest.drop_first())
    }
}

/// Set every member of `source` on `target`, in order.
fn put_all(target: &mut Vec<(String, Json)>, source: Vec<(String, Json)>)
    ensures
        crate::json::members_view(final(target)@) == put_members(
            crate::json::members_view(old(target)@),
            crate::json::members_view(source@),
        ),
{
    let ghost all = source@;
    proof {
        crate::json::lemma_members_view(all);
    }
    let mut source = source;
    let total = source.len();
    let mut i: usize = 0;
    assert(crate::json::members_view(all).subrange(0, all.len() as int) =~= crate::json::members_view(all));
    while source.len() > 0
        invariant
            all.len() <= usize::MAX,
            i + source@.len() == all.len(),
            source@ == all.subrange(i as int, all.len() as int),
            crate::json::members_view(all).len() == all.len(),
            forall|q: int| 0 <= q < all.len() ==> #[trigger] crate::json::members_view(all)[q] == (all[q].0@, crate::json::json_view(all[q].1)),
            put_members(crate::json::members_view(old(target)@), crate::json::members_view(all)) == put_members(
                crate::json::members_view(target@),
                crate::json::members_view(all).subrange(i as int, all.len() as int),
            ),
        decreases source.len(),
    {
        let (k, v) = source.remove(0);
        let ghost sv = crate::json::members_view(all).subrange(i as int, all.len() as int);
        assert(sv[0] == (k@, v@));
        assert(sv.drop_first() =~= crate::json::members_view(all).subrange(i + 1, all.len() as int));
        put(target, k, v);
        i = i + 1;
        assert(source@ =~= all.subrange(i as int, all.len() as int));
    }
    assert(crate::json::members_view(all).subrange(all.len() as int, all.len() as int) =~= Seq::<(Seq<char>, JsonView)>::empty());
}

/// Whether a `loop` runs its body once more: at most `max_iterations`
/// times, while its condition holds (`verdict` is the condition's value on
/// the current record and state, `None` when evaluating it failed, which
/// ends the loop).
pub fn loop_continues(iteration: usize, max_iterations: usize, verdict: Option<bool>) -> (r: bool)
    ensures
        r == (iteration < max_iterations && verdict == Some(true)),
{
    iteration < max_iterations && match verdict {
        Some(v) => v,
        None => false,
    }
}

/// What a `loop` does next.
#[derive(Debug)]
pub enum LoopNext {
    /// Walk a copy of the record into the body step.
    Walk(String),
    /// Route a copy of the record along the node's routes (no body).
    Route,
    /// The loop is over.
    Stop,
}

/// The next move of a `loop` before iteration `iteration` (counting from
/// 0): while fewer than `max_iterations` ran and its condition holds
/// (`verdict`, evaluated on the current record and state; `None` when
/// evaluating it failed), run the body, or the node's routes when it has
/// no body; otherwise stop.
pub fn loop_next(body: &Option<String>, iteration: usize, max_iterations: usize, verdict: Option<bool>) -> (r: LoopNext)
    ensures
        !(iteration < max_iterations && verdict == Some(true)) ==> r is Stop,
        iteration < max_iterations && verdict == Some(true) ==> match body {
            Some(t) => r matches LoopNext::Walk(u) && u == t,
            None => r is Route,
        },
{
    if loop_continues(iteration, max_iterations, verdict) {
        match body {
            Some(t) => LoopNext::Walk(t.clone()),
            None => LoopNext::Route,
        }
    } else {
        LoopNext::Stop
    }
}

/// The items a `foreach` iterates, from its evaluated `over` expression:
/// the items of an array; `None` (the record is dropped and an error
/// counted) when the evaluation failed or gave anything but an array.
pub fn foreach_items(evaluated: Result<Json, String>) -> (r: Option<Vec<Json>>)
    ensures
        match evaluated {
            Ok(Json::Array(items)) => r == Some(items),
            _ => r is None,
        },
{
    match evaluated {
        Ok(Json::Array(items)) => Some(items),
        _ => None,
    }
}

/// The assignments of a `state` node as members: each field with the view
/// of its evaluated value.
pub open spec fn field_views(values: Seq<(String, Result<Json, String>)>) -> Seq<(Seq<char>, JsonView)> {
    values.map_values(
        |p: (String, Result<Json, String>)|
            (p.0@, match p.1 {
                Ok(v) => v@,
                Err(_) => JsonView::Null,
            }),
    )
}

/// Every expression of a `state` node evaluated.
pub open spec fn all_evaluated(values: Seq<(String, Result<Json, String>)>) -> bool {
    forall|i: int| 0 <= i < values.len() ==> (#[trigger] values[i]).1 is Ok
}

/// A state with the assignments set over it; a state that is not an object
/// takes none.
pub open spec fn assigned_view(state: JsonView, fields: Seq<(Seq<char>, JsonView)>) -> JsonView {
    match state {
        JsonView::Object(m) => JsonView::Object(put_members(m, fields)),
        other => other,
    }
}

/// The new state of a `state` node, from its current state and the
/// evaluated value of each field's expression, in order: every field set
/// when every expression evaluated; `None` (the state is kept, the record
/// dropped and an error counted) when one failed.
pub fn assign_state(state: Json, values: Vec<(String, Result<Json, String>)>) -> (r: Option<Json>)
    ensures
        r is Some <==> all_evaluated(values@),
        r matches Some(s) ==> s@ == assigned_view(state@, field_views(values@)),
{
    let mut fields: Vec<(String, Json)> = Vec::new();
    let mut i: usize = 0;
    while i < values.len()
        invariant
            i <= values@.len(),
            crate::json::members_view(fields@) == field_views(values@.subrange(0, i as int)),
            forall|k: int| 0 <= k < i ==> (#[trigger] values@[k]).1 is Ok,
        decreases values.len() - i,
    {
        match &values[i].1 {
            Ok(v) => {
                let ghost before = fields@;
                fields.push((values[i].0.clone(), v.duplicate()));
                proof {
                    assert(fields@.drop_last() =~= before);
                    assert(field_views(values@.subrange(0, i + 1)) =~= field_views(values@.subrange(0, i as int)).push(
                        (values@[i as int].0@, v@),
                    ));
                }
            },
            Err(_) => {
                return None;
            },
        }
        i = i + 1;
    }
    assert(values@.subrange(0, values@.len() as int) =~= values@);
    match state {
        Json::Object(members) => {
            let mut members = members;
            put_all(&mut members, fields);
            Some(Json::Object(members))
        },
        other => Some(other),
    }
}

/// Merge the records a `join` released into one: the first record (its id,
/// time and metadata), with the members of each later object payload set
/// over its object payload. No records give a new record with an empty
/// object.
pub fn merge_records(records: Vec<Record>) -> (r: Record)
    ensures
        records@.len() == 0 ==> r.payload@ == JsonView::Object(Seq::empty()) && r.metadata@.len() == 0
            && r.id@.len() == 36,
        records@.len() > 0 ==> r.payload@ == merge_views(records@[0].payload@, payloads(records@.drop_first()))
            && r.metadata == records@[0].metadata && r.id == records@[0].id
            && r.timestamp == records@[0].timestamp,
{
    let ghost all = records@;
    let mut records = records;
    if records.len() == 0 {
        return Record::new(Json::Object(Vec::new()));
    }
    let mut merged = records.remove(0);
    let mut i: usize = 1;
    assert(all.subrange(1, all.len() as int) =~= all.drop_first());
    while records.len() > 0
        invariant
            all.len() <= usize::MAX,
            1 <= i,
            i + records@.len() == all.len(),
            records@ == all.subrange(i as int, all.len() as int),
            merged.metadata == all[0].metadata,
            merged.id == all[0].id,
            merged.timestamp == all[0].timestamp,
            merge_views(all[0].payload@, payloads(all.drop_first())) == merge_views(
                merged.payload@,
                payloads(all.subrange(i as int, all.len() as int)),
            ),
        decreases records.len(),
    {
        let other = records.remove(0);
        let ghost rest = payloads(all.subrange(i as int, all.len() as int));
        assert(rest[0] == other.payload@);
        assert(rest.drop_first() =~= payloads(all.subrange(i + 1, all.len() as int)));
        let ghost before = merged.payload@;
        match (&mut merged.payload, other.payload) {
            (Json::Object(target), Json::Object(source)) => {
                put_all(target, source);
            },
            _ => {},
        }
        i = i + 1;
        assert(records@ =~= all.subrange(i as int, all.len() as int));
    }
    assert(payloads(all.subrange(all.len() as int, all.len() as int)) =~= Seq::<JsonView>::empty());
    merged
}

/// Whether a batch of `len` records reached its size limit.
pub open spec fn size_hit(size: Option<usize>, len: nat) -> bool {
    match size {
        Some(limit) => len >= limit,
        None => false,
    }
}

/// Whether a batch window that opened at `since` has elapsed at `now`.
pub open spec fn window_hit(within: Option<u64>, since: Option<u64>, now: u64) -> bool {
    match (within, since) {
        (Some(w), Some(s)) => (if now >= s { now - s } else { 0 }) >= w,
        _ => false,
    }
}

/// The buffer of a `batch` node.
#[derive(Debug)]
pub struct BatchBuffer {
    pub records: Vec<Record>,
    /// When the current window opened, in milliseconds of a monotonic clock.
    pub since: Option<u64>,
}

/// `after` is `before` with `record` buffered at time `now`, and `released`
/// what was handed out: every buffered record once the batch reached its
/// size or its window elapsed (the window then closes); nothing otherwise
/// (the window then opens if none was open).
pub open spec fn batch_offered(
    before: BatchBuffer,
    after: BatchBuffer,
    record: Record,
    size: Option<usize>,
    within: Option<u64>,
    now: u64,
    released: Option<Seq<Record>>,
) -> bool {
    let grown = before.records@.push(record);
    if size_hit(size, grown.len()) || window_hit(within, before.since, now) {
        &&& released == Some(grown)
        &&& after.records@.len() == 0
        &&& after.since is None
    } else {
        &&& released is None
        &&& after.records@ == grown
        &&& after.since == if before.since is None {
            Some(now)
        } else {
            before.since
        }
    }
}

impl BatchBuffer {
    /// An empty buffer with no open window.
    pub fn new() -> (r: BatchBuffer)
        ensures
            r.records@.len() == 0,
            r.since is None,
    {
        BatchBuffer { records: Vec::new(), since: None }
    }

    /// Buffer a record at time `now`; when the batch reached its size or its
    /// window elapsed, hand out every buffered record and close the window;
    /// otherwise open the window if none is open.
    pub fn offer(&mut self, record: Record, size: Option<usize>, within: Option<u64>, now: u64) -> (r: Option<Vec<Record>>)
        ensures
            batch_offered(*old(self), *final(self), record, size, within, now, match r {
                Some(v) => Some(v@),
                None => None,
            }),
    {
        self.records.push(record);
        let size_reached = match size {
            Some(limit) => self.records.len() >= limit,
            None => false,
        };
        let window_elapsed = match (within, self.since) {
            (Some(w), Some(s)) => now.saturating_sub(s) >= w,
            _ => false,
        };
        if size_reached || window_elapsed {
            self.since = None;
            let mut out: Vec<Record> = Vec::new();
            std::mem::swap(&mut out, &mut self.records);
            Some(out)
        } else {
            if self.since.is_none() {
                self.since = Some(now);
            }
            None
        }
    }

    /// Hand out every buffered record (at the end of the input) and close
    /// the window.
    pub fn drain(&mut self) -> (r: Vec<Record>)
        ensures
            r@ == old(self).records@,
            final(self).records@.len() == 0,
            final(self).since is None,
    {
        self.since = None;
        let mut out: Vec<Record> = Vec::new();
        std::mem::swap(&mut out, &mut self.records);
        out
    }
}

/// The payload of an emitted batch: `{ "items": [payload, ...] }`.
pub open spec fn batch_view(records: Seq<Record>) -> JsonView {
    JsonView::Object(seq![("items"@, JsonView::Array(payloads(records)))])
}

/// The record a batch is emitted as.
pub fn batch_record(records: &Vec<Record>) -> (r: Record)
    ensures
        r.payload@ == batch_view(records@),
        r.metadata@.len() == 0,
{
    let mut items: Vec<Json> = Vec::new();
    let mut i: usize = 0;
    while i < records.len()
        invariant
            i <= records@.len(),
            crate::json::items_view(items@) == payloads(records@.subrange(0, i as int)),
        decreases records.len() - i,
    {
        let ghost before = items@;
        items.push(records[i].payload.duplicate());
        proof {
            assert(items@.drop_last() =~= before);
            assert(payloads(records@.subrange(0, i + 1)) =~= payloads(records@.subrange(0, i as int)).push(
                records@[i as int].payload@,
            ));
        }
        i = i + 1;
    }
    assert(records@.subrange(0, records@.len() as int) =~= records@);
    let mut members: Vec<(String, Json)> = Vec::new();
    members.push(("items".to_owned(), Json::Array(items)));
    proof {
        crate::json::lemma_members_view(members@);
        assert(crate::json::members_view(members@) =~= seq![("items"@, JsonView::Array(payloads(records@)))]);
    }
    Record::new(Json::Object(members))
}

/// What to do after a transform failed on attempt `attempt`.
#[derive(Debug, Clone, Copy, PartialEq, Eq, Structural)]
pub enum FailureAction {
    /// Wait, then try again; `attempt` is the number of the next try.
    Retry { attempt: u32, backoff_millis: u64 },
    /// Count the error and drop the record.
    Continue,
    /// Count the error and stop the run.
    Fail,
}

/// The action a policy prescribes after failed attempt number `attempt`
/// (counting retries from 0).
pub open spec fn failure_choice(policy: ErrorPolicy, attempt: u32) -> FailureAction {
    match policy {
        ErrorPolicy::Retry { max, backoff_millis } => if attempt < max {
            FailureAction::Retry { attempt: (attempt + 1) as u32, backoff_millis }
        } else {
            FailureAction::Fail
        },
        ErrorPolicy::Continue => FailureAction::Continue,
        ErrorPolicy::Fail => FailureAction::Fail,
    }
}

/// Decide what follows a failed transform.
pub fn failure_action(policy: ErrorPolicy, attempt: u32) -> (r: FailureAction)
    ensures
        r == failure_choice(policy, attempt),
{
    match policy {
        ErrorPolicy::Retry { max, backoff_millis } => if attempt < max {
            FailureAction::Retry { attempt: attempt + 1, backoff_millis }
        } else {
            FailureAction::Fail
        },
        ErrorPolicy::Continue => FailureAction::Continue,
        ErrorPolicy::Fail => FailureAction::Fail,
    }
}

/// A failing transform under a retry policy is tried at most `max + 1`
/// times: every failure before the last retry asks for the next attempt
/// (numbered one higher), and the failure of attempt `max` stops the run.
pub proof fn retry_attempts_are_bounded(max: u32, backoff_millis: u64, attempt: u32)
    ensures
        attempt < max ==> failure_choice((ErrorPolicy::Retry { max, backoff_millis }), attempt) == (FailureAction::Retry {
            attempt: (attempt + 1) as u32,
            backoff_millis,
        }),
        attempt >= max ==> failure_choice((ErrorPolicy::Retry { max, backoff_millis }), attempt) == FailureAction::Fail,
{
}

} // verus!
