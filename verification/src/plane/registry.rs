//! The plane's registry: declarations (desired state), the last reported
//! actual state of every node, command queues, routes and the event history.

use vstd::prelude::*;

use crate::clock::{now_rfc3339, utc_timestamp};
use crate::keyed::{
    collect_unique, find_key, has_key, last_with_key, lemma_lookup_at, lookup, remove_key,
    unique_keys, upsert, Keyed,
};
use crate::plane::agent::{
    opt_view, state_name, Command, CommandAck, CommandView, DesiredInstance, DesiredInstanceView,
    Heartbeat, InstanceReport, InstanceState,
};
use crate::plane::reconcile::{
    already_pending, commands_view, desired_command, find_report, planned_op, reconcile_op,
    report_for, reported_state,
};
use crate::json::{Json, JsonView};
use crate::plane::relay::{
    batch, cursor_after, entries_view, lemma_newer_increasing, lemma_newer_members, lemma_newer_none,
    messages_view, newer, publish_into, pull_from, queue_wf, relay_wf, subscriptions_view, PullSubscription,
    RelayMessage, RelayQueue, RELAY_BATCH, RELAY_CAP,
};
use crate::plane::agent::InstanceSpecView;
use crate::plane::types::{
    desired_name, Desired, FlowDecl, InstanceDecl, InstanceDeclView, InstanceView, NodeView,
    RouteDecl,
};
use crate::text::{concat3, concat4, dup_opt, str_eq};

verus! {

/// Maximum retained plane events.
pub const EVENT_CAP: usize = 200;

/// One plane event: a lifecycle change or an instance state transition.
#[derive(Debug, Clone)]
pub struct PlaneEvent {
    pub time: String,
    pub kind: String,
    pub message: String,
}

/// The kind and message of each event, in order.
pub open spec fn events_content(s: Seq<PlaneEvent>) -> Seq<(Seq<char>, Seq<char>)> {
    s.map_values(|e: PlaneEvent| (e.kind@, e.message@))
}

/// The last `n` elements of `s` (all of them when there are fewer).
pub open spec fn keep_last<A>(s: Seq<A>, n: nat) -> Seq<A> {
    if s.len() > n {
        s.subrange(s.len() - n, s.len() as int)
    } else {
        s
    }
}

/// What the plane knows of one node from its heartbeats.
#[derive(Debug)]
pub struct NodeState {
    pub node: String,
    /// The reports of the last heartbeat.
    pub reports: Vec<InstanceReport>,
    /// The time stamp of the last heartbeat.
    pub last_seen: String,
    /// Commands queued for the node and not yet acknowledged.
    pub pending: Vec<Command>,
    /// The last sequence number handed to a command of this node.
    pub seq: u64,
}

impl Keyed for NodeState {
    open spec fn key(&self) -> Seq<char> {
        self.node@
    }

    fn key_str(&self) -> (r: &str) {
        self.node.as_str()
    }
}

/// The plane's source of truth plus live agent state.
pub struct Registry {
    pub(crate) flows: Vec<FlowDecl>,
    pub(crate) instances: Vec<InstanceDecl>,
    pub(crate) routes: Vec<RouteDecl>,
    pub(crate) nodes: Vec<NodeState>,
    pub(crate) relay: Vec<RelayQueue>,
    /// Oldest first.
    pub(crate) events: Vec<PlaneEvent>,
}

/// A declaration as stored: its launch spec carries the declaration's id.
pub open spec fn stored_decl(d: InstanceDeclView) -> InstanceDeclView {
    InstanceDeclView { spec: InstanceSpecView { id: d.id, ..d.spec }, ..d }
}

impl Registry {
    /// The stored flow fragments.
    pub closed spec fn flows_seq(&self) -> Seq<FlowDecl> {
        self.flows@
    }

    /// The stored instance declarations.
    pub closed spec fn instances_seq(&self) -> Seq<InstanceDecl> {
        self.instances@
    }

    /// The stored gateway routes.
    pub closed spec fn routes_seq(&self) -> Seq<RouteDecl> {
        self.routes@
    }

    /// What is known of each node.
    pub closed spec fn nodes_seq(&self) -> Seq<NodeState> {
        self.nodes@
    }

    /// The relay mailboxes.
    pub closed spec fn relay_seq(&self) -> Seq<RelayQueue> {
        self.relay@
    }

    /// The event history, oldest first.
    pub closed spec fn event_log(&self) -> Seq<PlaneEvent> {
        self.events@
    }

    /// The registry's internal invariant: keys are unique in every table,
    /// the event history is bounded and the relay mailboxes are well formed.
    pub closed spec fn wf(&self) -> bool {
        &&& unique_keys(self.flows@)
        &&& unique_keys(self.instances@)
        &&& unique_keys(self.routes@)
        &&& unique_keys(self.nodes@)
        &&& unique_keys(self.relay@)
        &&& self.events@.len() <= EVENT_CAP
        &&& relay_wf(self.relay@)
    }

    /// The declaration with id `id`.
    pub open spec fn decl(&self, id: Seq<char>) -> Option<InstanceDecl> {
        lookup(self.instances_seq(), id)
    }

    /// Everything but the instance declarations and the events is unchanged.
    pub open spec fn same_except_instances(&self, other: &Registry) -> bool {
        &&& self.flows_seq() == other.flows_seq()
        &&& self.routes_seq() == other.routes_seq()
        &&& self.nodes_seq() == other.nodes_seq()
        &&& self.relay_seq() == other.relay_seq()
    }

    /// An empty registry.
    pub fn new() -> (r: Self)
        ensures
            r.wf(),
            r.flows_seq().len() == 0,
            r.instances_seq().len() == 0,
            r.routes_seq().len() == 0,
            r.nodes_seq().len() == 0,
            r.relay_seq().len() == 0,
            r.event_log().len() == 0,
    {
        Registry {
            flows: Vec::new(),
            instances: Vec::new(),
            routes: Vec::new(),
            nodes: Vec::new(),
            relay: Vec::new(),
            events: Vec::new(),
        }
    }

    /// Record one event, dropping the oldest when the history is full.
    pub fn record_event(&mut self, kind: &str, message: String)
        requires
            old(self).wf(),
        ensures
            final(self).wf(),
            events_content(final(self).event_log()) == keep_last(
                events_content(old(self).event_log()).push((kind@, message@)),
                EVENT_CAP as nat,
            ),
            utc_timestamp(final(self).event_log().last().time@),
            final(self).flows_seq() == old(self).flows_seq(),
            final(self).instances_seq() == old(self).instances_seq(),
            final(self).routes_seq() == old(self).routes_seq(),
            final(self).nodes_seq() == old(self).nodes_seq(),
            final(self).relay_seq() == old(self).relay_seq(),
    {
        let time = now_rfc3339();
        let ghost before = self.events@;
        self.events.push(PlaneEvent { time, kind: kind.to_owned(), message });
        let ghost pushed = self.events@;
        if self.events.len() > EVENT_CAP {
            self.events.remove(0);
            assert(self.events@ =~= pushed.subrange(1, pushed.len() as int));
        }
        assert(events_content(pushed) =~= events_content(before).push((kind@, message@)));
        assert(events_content(self.events@) =~= keep_last(events_content(pushed), EVENT_CAP as nat));
    }

    /// Recent plane events, newest first.
    pub fn list_events(&self) -> (r: Vec<PlaneEvent>)
        ensures
            r@ == self.event_log().reverse(),
    {
        let mut r: Vec<PlaneEvent> = Vec::new();
        let n = self.events.len();
        let mut i: usize = 0;
        while i < n
            invariant
                n == self.events@.len(),
                i <= n,
                r@ == self.events@.subrange(n - i, n as int).reverse(),
            decreases n - i,
        {
            let e = &self.events[n - 1 - i];
            r.push(PlaneEvent { time: e.time.clone(), kind: e.kind.clone(), message: e.message.clone() });
            i = i + 1;
            assert(r@ =~= self.events@.subrange(n - i, n as int).reverse());
        }
        assert(self.events@.subrange(0, n as int) =~= self.events@);
        r
    }

    /// Declare (or replace) an instance; its spec id is made authoritative.
    pub fn declare_instance(&mut self, decl: InstanceDecl)
        requires
            old(self).wf(),
        ensures
            final(self).wf(),
            final(self).same_except_instances(old(self)),
            final(self).decl(decl.id@) matches Some(d) && d@ == stored_decl(decl@),
            forall|k: Seq<char>| k != decl.id@ ==> #[trigger] final(self).decl(k) == old(self).decl(k),
            events_content(final(self).event_log()) == keep_last(
                events_content(old(self).event_log()).push(
                    ("declare"@, "instance '"@ + decl.id@ + "' declared"@),
                ),
                EVENT_CAP as nat,
            ),
    {
        let mut decl = decl;
        let ghost given = decl@;
        decl.spec.id = decl.id.clone();
        let message = concat3("instance '", decl.id.as_str(), "' declared");
        let ghost stored = decl;
        assert(stored@ == stored_decl(given));
        upsert(&mut self.instances, decl);
        self.record_event("declare", message);
    }

    /// Remove an instance declaration.
    pub fn remove_instance(&mut self, id: &str)
        requires
            old(self).wf(),
        ensures
            final(self).wf(),
            final(self).same_except_instances(old(self)),
            final(self).decl(id@) is None,
            forall|k: Seq<char>| k != id@ ==> #[trigger] final(self).decl(k) == old(self).decl(k),
            events_content(final(self).event_log()) == keep_last(
                events_content(old(self).event_log()).push(
                    ("undeclare"@, "instance '"@ + id@ + "' removed"@),
                ),
                EVENT_CAP as nat,
            ),
    {
        let _ = remove_key(&mut self.instances, id);
        let message = concat3("instance '", id, "' removed");
        self.record_event("undeclare", message);
    }

    /// Change the desired state of one instance; an unknown id changes nothing
    /// but the event history.
    pub fn set_desired(&mut self, id: &str, desired: Desired)
        requires
            old(self).wf(),
        ensures
            final(self).wf(),
            final(self).same_except_instances(old(self)),
            match old(self).decl(id@) {
                Some(d) => final(self).decl(id@) matches Some(n) && n@ == InstanceDeclView {
                    desired,
                    ..d@
                },
                None => final(self).decl(id@) is None,
            },
            forall|k: Seq<char>| k != id@ ==> #[trigger] final(self).decl(k) == old(self).decl(k),
            events_content(final(self).event_log()) == keep_last(
                events_content(old(self).event_log()).push(
                    ("desired"@, "instance '"@ + id@ + "' desired -> "@ + desired_name(desired)),
                ),
                EVENT_CAP as nat,
            ),
    {
        match find_key(&self.instances, id) {
            Some(i) => {
                proof {
                    lemma_lookup_at(self.instances@, i as int);
                }
                let ghost o = self.instances@;
                let mut d = self.instances.remove(i);
                d.desired = desired;
                let ghost removed = self.instances@;
                self.instances.insert(i, d);
                proof {
                    assert(self.instances@ =~= o.update(i as int, d));
                    let s = self.instances@;
                    assert forall|a: int, b: int|
                        0 <= a < s.len() && 0 <= b < s.len() && a != b implies #[trigger] s[a].key()
                        != #[trigger] s[b].key() by {
                        assert(o[a].key() != o[b].key());
                    }
                    lemma_lookup_at(s, i as int);
                    assert forall|k: Seq<char>| k != id@ implies #[trigger] lookup(s, k) == lookup(o, k) by {
                        if has_key(o, k) {
                            let j = choose|j: int| 0 <= j < o.len() && #[trigger] o[j].key() == k;
                            lemma_lookup_at(o, j);
                            lemma_lookup_at(s, j);
                        } else {
                            if has_key(s, k) {
                                let j = choose|j: int| 0 <= j < s.len() && #[trigger] s[j].key() == k;
                                assert(o[j].key() == k);
                            }
                        }
                    }
                }
            },
            None => {},
        }
        let message = concat4("instance '", id, "' desired -> ", desired.as_str());
        self.record_event("desired", message);
    }
}


/// The declarations of one node, in storage order.
pub open spec fn decls_on_node(s: Seq<InstanceDecl>, node: Seq<char>) -> Seq<InstanceDecl>
    decreases s.len(),
{
    if s.len() == 0 {
        Seq::empty()
    } else if s.last().node@ == node {
        decls_on_node(s.drop_last(), node).push(s.last())
    } else {
        decls_on_node(s.drop_last(), node)
    }
}

/// The instance view of a declaration merged with its last report.
pub open spec fn merged_view(v: InstanceView, d: InstanceDecl, a: Option<InstanceReport>) -> bool {
    &&& v.id@ == d.id@
    &&& v.node@ == d.node@
    &&& opt_view(v.flow_id) == opt_view(d.flow_id)
    &&& v.desired@ == desired_name(d.desired)
    &&& match a {
        Some(r) => {
            &&& opt_view(v.actual) == Some(state_name(r.state))
            &&& v.healthy == Some(r.healthy)
            &&& v.paused == Some(r.paused)
            &&& v.restarts == Some(r.restarts)
            &&& opt_view(v.admin) == opt_view(r.admin)
            &&& opt_view(v.trigger) == opt_view(r.trigger)
        },
        None => {
            &&& v.actual is None
            &&& v.healthy is None
            &&& v.paused is None
            &&& v.restarts is None
            &&& v.admin is None
            &&& v.trigger is None
        },
    }
}

impl Registry {
    /// The last reports of `node` (empty when it never sent a heartbeat).
    pub open spec fn reports_of(&self, node: Seq<char>) -> Seq<InstanceReport> {
        match lookup(self.nodes_seq(), node) {
            Some(n) => n.reports@,
            None => Seq::empty(),
        }
    }

    /// The commands queued for `node`.
    pub open spec fn pending_of(&self, node: Seq<char>) -> Seq<Command> {
        match lookup(self.nodes_seq(), node) {
            Some(n) => n.pending@,
            None => Seq::empty(),
        }
    }

    /// The last command sequence number of `node` (0 before any command).
    pub open spec fn seq_of(&self, node: Seq<char>) -> u64 {
        match lookup(self.nodes_seq(), node) {
            Some(n) => n.seq,
            None => 0,
        }
    }

    /// The time stamp of the last heartbeat of `node`.
    pub open spec fn last_seen_of(&self, node: Seq<char>) -> Option<Seq<char>> {
        match lookup(self.nodes_seq(), node) {
            Some(n) => Some(n.last_seen@),
            None => None,
        }
    }

    /// The last report about instance `id` from `node`.
    pub open spec fn actual_of(&self, node: Seq<char>, id: Seq<char>) -> Option<InstanceReport> {
        report_for(self.reports_of(node), id)
    }

    /// Build a registry from persisted tables; when a table repeats a key,
    /// the later entry wins.
    pub fn from_persisted(flows: Vec<FlowDecl>, instances: Vec<InstanceDecl>, routes: Vec<RouteDecl>) -> (r: Self)
        ensures
            r.wf(),
            forall|k: Seq<char>| #[trigger] lookup(r.flows_seq(), k) == last_with_key(flows@, k),
            forall|k: Seq<char>| #[trigger] r.decl(k) == last_with_key(instances@, k),
            forall|k: Seq<char>| #[trigger] lookup(r.routes_seq(), k) == last_with_key(routes@, k),
            r.nodes_seq().len() == 0,
            r.relay_seq().len() == 0,
            r.event_log().len() == 0,
    {
        Registry {
            flows: collect_unique(flows),
            instances: collect_unique(instances),
            routes: collect_unique(routes),
            nodes: Vec::new(),
            relay: Vec::new(),
            events: Vec::new(),
        }
    }

    /// Uploaded flow fragments.
    pub fn list_flows(&self) -> (r: Vec<FlowDecl>)
        ensures
            r@ == self.flows_seq(),
    {
        let mut r: Vec<FlowDecl> = Vec::new();
        let mut i: usize = 0;
        while i < self.flows.len()
            invariant
                i <= self.flows@.len(),
                r@ == self.flows@.subrange(0, i as int),
            decreases self.flows.len() - i,
        {
            r.push(self.flows[i].duplicate());
            i = i + 1;
            assert(r@ =~= self.flows@.subrange(0, i as int));
        }
        assert(self.flows@.subrange(0, self.flows@.len() as int) =~= self.flows@);
        r
    }

    /// Store an uploaded flow fragment, replacing one with the same id.
    pub fn put_flow(&mut self, flow: FlowDecl)
        requires
            old(self).wf(),
        ensures
            final(self).wf(),
            forall|k: Seq<char>|
                #[trigger] lookup(final(self).flows_seq(), k) == if k == flow.id@ {
                    Some(flow)
                } else {
                    lookup(old(self).flows_seq(), k)
                },
            final(self).instances_seq() == old(self).instances_seq(),
            final(self).routes_seq() == old(self).routes_seq(),
            final(self).nodes_seq() == old(self).nodes_seq(),
            final(self).relay_seq() == old(self).relay_seq(),
            final(self).event_log() == old(self).event_log(),
    {
        upsert(&mut self.flows, flow);
    }

    /// Declare (or replace) a gateway route.
    pub fn declare_route(&mut self, route: RouteDecl)
        requires
            old(self).wf(),
        ensures
            final(self).wf(),
            forall|k: Seq<char>|
                #[trigger] lookup(final(self).routes_seq(), k) == if k == route.id@ {
                    Some(route)
                } else {
                    lookup(old(self).routes_seq(), k)
                },
            final(self).flows_seq() == old(self).flows_seq(),
            final(self).instances_seq() == old(self).instances_seq(),
            final(self).nodes_seq() == old(self).nodes_seq(),
            final(self).relay_seq() == old(self).relay_seq(),
            final(self).event_log() == old(self).event_log(),
    {
        upsert(&mut self.routes, route);
    }

    /// Remove a gateway route.
    pub fn remove_route(&mut self, id: &str)
        requires
            old(self).wf(),
        ensures
            final(self).wf(),
            forall|k: Seq<char>|
                #[trigger] lookup(final(self).routes_seq(), k) == if k == id@ {
                    None
                } else {
                    lookup(old(self).routes_seq(), k)
                },
            final(self).flows_seq() == old(self).flows_seq(),
            final(self).instances_seq() == old(self).instances_seq(),
            final(self).nodes_seq() == old(self).nodes_seq(),
            final(self).relay_seq() == old(self).relay_seq(),
            final(self).event_log() == old(self).event_log(),
    {
        let _ = remove_key(&mut self.routes, id);
    }

    /// The declared gateway routes.
    pub fn list_routes(&self) -> (r: Vec<RouteDecl>)
        ensures
            r@ == self.routes_seq(),
    {
        let mut r: Vec<RouteDecl> = Vec::new();
        let mut i: usize = 0;
        while i < self.routes.len()
            invariant
                i <= self.routes@.len(),
                r@ == self.routes@.subrange(0, i as int),
            decreases self.routes.len() - i,
        {
            r.push(self.routes[i].duplicate());
            i = i + 1;
            assert(r@ =~= self.routes@.subrange(0, i as int));
        }
        assert(self.routes@.subrange(0, self.routes@.len() as int) =~= self.routes@);
        r
    }

    /// Copies of the instance declarations, in storage order.
    pub fn list_decls(&self) -> (r: Vec<InstanceDecl>)
        ensures
            r@.len() == self.instances_seq().len(),
            forall|i: int| 0 <= i < r@.len() ==> #[trigger] r@[i]@ == self.instances_seq()[i]@,
    {
        let mut r: Vec<InstanceDecl> = Vec::new();
        let mut i: usize = 0;
        while i < self.instances.len()
            invariant
                i <= self.instances@.len(),
                r@.len() == i,
                forall|j: int| 0 <= j < i ==> #[trigger] r@[j]@ == self.instances@[j]@,
            decreases self.instances.len() - i,
        {
            r.push(self.instances[i].duplicate());
            i = i + 1;
        }
        r
    }

    /// Look up a declared instance.
    pub fn instance_decl(&self, id: &str) -> (r: Option<InstanceDecl>)
        requires
            self.wf(),
        ensures
            match self.decl(id@) {
                Some(d) => r matches Some(x) && x@ == d@,
                None => r is None,
            },
    {
        match find_key(&self.instances, id) {
            Some(i) => {
                proof {
                    lemma_lookup_at(self.instances@, i as int);
                }
                Some(self.instances[i].duplicate())
            },
            None => None,
        }
    }

    /// The last reports of a node, as stored.
    fn node_reports(&self, node: &str) -> (r: &[InstanceReport])
        requires
            self.wf(),
        ensures
            r@ == self.reports_of(node@),
    {
        match find_key(&self.nodes, node) {
            Some(i) => {
                proof {
                    lemma_lookup_at(self.nodes@, i as int);
                }
                self.nodes[i].reports.as_slice()
            },
            None => &[],
        }
    }

    /// Declared instances merged with the last reported actual state.
    pub fn list_instances(&self) -> (r: Vec<InstanceView>)
        requires
            self.wf(),
        ensures
            r@.len() == self.instances_seq().len(),
            forall|i: int|
                0 <= i < r@.len() ==> merged_view(
                    #[trigger] r@[i],
                    self.instances_seq()[i],
                    self.actual_of(self.instances_seq()[i].node@, self.instances_seq()[i].id@),
                ),
    {
        let mut r: Vec<InstanceView> = Vec::new();
        let mut i: usize = 0;
        while i < self.instances.len()
            invariant
                self.wf(),
                i <= self.instances@.len(),
                r@.len() == i,
                forall|j: int|
                    0 <= j < i ==> merged_view(
                        #[trigger] r@[j],
                        self.instances@[j],
                        self.actual_of(self.instances@[j].node@, self.instances@[j].id@),
                    ),
            decreases self.instances.len() - i,
        {
            let d = &self.instances[i];
            let reports = self.node_reports(d.node.as_str());
            let view = match find_report(reports, d.id.as_str()) {
                Some(k) => {
                    let a = &reports[k];
                    InstanceView {
                        id: d.id.clone(),
                        node: d.node.clone(),
                        flow_id: dup_opt(&d.flow_id),
                        desired: d.desired.as_str().to_owned(),
                        actual: Some(a.state.as_str().to_owned()),
                        healthy: Some(a.healthy),
                        paused: Some(a.paused),
                        restarts: Some(a.restarts),
                        admin: dup_opt(&a.admin),
                        trigger: dup_opt(&a.trigger),
                    }
                },
                None => InstanceView {
                    id: d.id.clone(),
                    node: d.node.clone(),
                    flow_id: dup_opt(&d.flow_id),
                    desired: d.desired.as_str().to_owned(),
                    actual: None,
                    healthy: None,
                    paused: None,
                    restarts: None,
                    admin: None,
                    trigger: None,
                },
            };
            r.push(view);
            i = i + 1;
        }
        r
    }

    /// Nodes seen in heartbeats, with the time of their last heartbeat.
    pub fn list_nodes(&self) -> (r: Vec<NodeView>)
        ensures
            r@.len() == self.nodes_seq().len(),
            forall|i: int|
                0 <= i < r@.len() ==> (#[trigger] r@[i]).id@ == self.nodes_seq()[i].node@
                    && opt_view(r@[i].last_seen) == Some(self.nodes_seq()[i].last_seen@),
    {
        let mut r: Vec<NodeView> = Vec::new();
        let mut i: usize = 0;
        while i < self.nodes.len()
            invariant
                i <= self.nodes@.len(),
                r@.len() == i,
                forall|j: int|
                    0 <= j < i ==> (#[trigger] r@[j]).id@ == self.nodes@[j].node@
                        && opt_view(r@[j].last_seen) == Some(self.nodes@[j].last_seen@),
            decreases self.nodes.len() - i,
        {
            let n = &self.nodes[i];
            r.push(NodeView { id: n.node.clone(), last_seen: Some(n.last_seen.clone()) });
            i = i + 1;
        }
        r
    }
}


/// The event message of one reported state, when it differs from the
/// previously reported one.
pub open spec fn transition_message(prev: Seq<InstanceReport>, r: InstanceReport) -> Option<Seq<char>> {
    let previous = reported_state(prev, r.id@);
    if previous == Some(r.state) {
        None
    } else {
        Some(
            "instance '"@ + r.id@ + "' state "@ + match previous {
                Some(p) => state_name(p),
                None => "unknown"@,
            } + " -> "@ + state_name(r.state),
        )
    }
}

/// The state-transition messages of one heartbeat, in report order.
pub open spec fn transitions(prev: Seq<InstanceReport>, reports: Seq<InstanceReport>) -> Seq<Seq<char>>
    decreases reports.len(),
{
    if reports.len() == 0 {
        Seq::empty()
    } else {
        let t = transitions(prev, reports.drop_last());
        match transition_message(prev, reports.last()) {
            Some(m) => t.push(m),
            None => t,
        }
    }
}

/// State-transition messages as `state` events.
pub open spec fn state_events(msgs: Seq<Seq<char>>) -> Seq<(Seq<char>, Seq<char>)> {
    msgs.map_values(|m: Seq<char>| ("state"@, m))
}

/// The queue and counter after considering one declaration.
pub open spec fn enqueue_step(
    pending: Seq<CommandView>,
    seq: u64,
    d: InstanceDecl,
    reports: Seq<InstanceReport>,
) -> (Seq<CommandView>, u64) {
    match planned_op(d.id@, d.desired, reported_state(reports, d.id@), pending) {
        Some(op) => (
            pending.push(CommandView { seq: (seq + 1) as u64, op, instance: d.id@ }),
            (seq + 1) as u64,
        ),
        None => (pending, seq),
    }
}

/// The queue and counter after considering each declaration in order.
pub open spec fn enqueue_all(
    pending: Seq<CommandView>,
    seq: u64,
    declared: Seq<InstanceDecl>,
    reports: Seq<InstanceReport>,
) -> (Seq<CommandView>, u64)
    decreases declared.len(),
{
    if declared.len() == 0 {
        (pending, seq)
    } else {
        let prev = enqueue_all(pending, seq, declared.drop_last(), reports);
        enqueue_step(prev.0, prev.1, declared.last(), reports)
    }
}

/// The commands of `s` whose sequence number is not `seq`.
pub open spec fn without_seq(s: Seq<Command>, seq: u64) -> Seq<Command>
    decreases s.len(),
{
    if s.len() == 0 {
        Seq::empty()
    } else if s.last().seq == seq {
        without_seq(s.drop_last(), seq)
    } else {
        without_seq(s.drop_last(), seq).push(s.last())
    }
}

/// Trimming to the last `n` elements commutes with appending.
pub proof fn lemma_keep_last_push<A>(s: Seq<A>, a: A, n: nat)
    requires
        n > 0,
    ensures
        keep_last(keep_last(s, n).push(a), n) == keep_last(s.push(a), n),
{
    assert(keep_last(keep_last(s, n).push(a), n) =~= keep_last(s.push(a), n));
}

/// The number of enqueued commands is bounded by the number of declarations.
pub proof fn lemma_enqueue_bound(
    pending: Seq<CommandView>,
    seq: u64,
    declared: Seq<InstanceDecl>,
    reports: Seq<InstanceReport>,
)
    requires
        seq + declared.len() <= u64::MAX,
    ensures
        seq <= enqueue_all(pending, seq, declared, reports).1 <= seq + declared.len(),
    decreases declared.len(),
{
    if declared.len() > 0 {
        lemma_enqueue_bound(pending, seq, declared.drop_last(), reports);
    }
}

impl Registry {
    /// Whether a heartbeat from `node` can number every command it may
    /// enqueue without exhausting the node's sequence counter.
    pub fn has_command_room(&self, node: &str) -> (r: bool)
        requires
            self.wf(),
        ensures
            r == (self.seq_of(node@) + self.instances_seq().len() <= u64::MAX),
    {
        let seq = match find_key(&self.nodes, node) {
            Some(i) => {
                proof {
                    lemma_lookup_at(self.nodes@, i as int);
                }
                self.nodes[i].seq
            },
            None => 0,
        };
        seq as u128 + self.instances.len() as u128 <= u64::MAX as u128
    }

    /// The state-transition messages a heartbeat's reports produce against
    /// the node's previous reports.
    fn state_transitions(&self, node: &str, reports: &[InstanceReport]) -> (r: Vec<String>)
        requires
            self.wf(),
        ensures
            r@.map_values(|m: String| m@) == transitions(self.reports_of(node@), reports@),
    {
        let prev = self.node_reports(node);
        let mut r: Vec<String> = Vec::new();
        let mut i: usize = 0;
        while i < reports.len()
            invariant
                prev@ == self.reports_of(node@),
                i <= reports@.len(),
                r@.map_values(|m: String| m@) == transitions(prev@, reports@.subrange(0, i as int)),
            decreases reports.len() - i,
        {
            let report = &reports[i];
            let ghost before = r@;
            assert(reports@.subrange(0, i + 1).drop_last() =~= reports@.subrange(0, i as int));
            let previous = match find_report(prev, report.id.as_str()) {
                Some(k) => Some(prev[k].state),
                None => None,
            };
            if previous != Some(report.state) {
                let from: &str = match previous {
                    Some(p) => p.as_str(),
                    None => "unknown",
                };
                let mut m = concat3("instance '", report.id.as_str(), "' state ");
                m.append(from);
                m.append(" -> ");
                m.append(report.state.as_str());
                r.push(m);
                assert(r@.map_values(|m: String| m@) =~= before.map_values(|m: String| m@).push(
                    transition_message(prev@, reports@[i as int])->0,
                ));
            }
            i = i + 1;
        }
        assert(reports@.subrange(0, reports@.len() as int) =~= reports@);
        r
    }

    /// Record one heartbeat: store the node's reports and time stamp, record
    /// state-transition events, enqueue the commands that move the node's
    /// declared instances toward their desired state, and return the node's
    /// queued commands plus its desired instance set.
    pub fn heartbeat(&mut self, heartbeat: &Heartbeat) -> (r: (Vec<Command>, Vec<DesiredInstance>))
        requires
            old(self).wf(),
            old(self).seq_of(heartbeat.node_id@) + old(self).instances_seq().len() <= u64::MAX,
        ensures
            final(self).wf(),
            final(self).reports_of(heartbeat.node_id@) == heartbeat.instances@,
            final(self).last_seen_of(heartbeat.node_id@) == Some(heartbeat.time@),
            ({
                let declared = decls_on_node(old(self).instances_seq(), heartbeat.node_id@);
                let queued = enqueue_all(
                    commands_view(old(self).pending_of(heartbeat.node_id@)),
                    old(self).seq_of(heartbeat.node_id@),
                    declared,
                    heartbeat.instances@,
                );
                &&& commands_view(final(self).pending_of(heartbeat.node_id@)) == queued.0
                &&& final(self).seq_of(heartbeat.node_id@) == queued.1
                &&& commands_view(r.0@) == queued.0
                &&& r.1@.len() == declared.len()
                &&& forall|i: int|
                    0 <= i < declared.len() ==> (#[trigger] r.1@[i])@ == DesiredInstanceView {
                        spec: declared[i].spec@,
                        desired: desired_name(declared[i].desired),
                    }
            }),
            forall|k: Seq<char>|
                k != heartbeat.node_id@ ==> #[trigger] lookup(final(self).nodes_seq(), k) == lookup(
                    old(self).nodes_seq(),
                    k,
                ),
            final(self).flows_seq() == old(self).flows_seq(),
            final(self).instances_seq() == old(self).instances_seq(),
            final(self).routes_seq() == old(self).routes_seq(),
            final(self).relay_seq() == old(self).relay_seq(),
            events_content(final(self).event_log()) == keep_last(
                events_content(old(self).event_log()) + state_events(
                    transitions(old(self).reports_of(heartbeat.node_id@), heartbeat.instances@),
                ),
                EVENT_CAP as nat,
            ),
    {
        let node = heartbeat.node_id.as_str();
        let messages = self.state_transitions(node, heartbeat.instances.as_slice());
        let ghost old_pending = commands_view(self.pending_of(node@));
        let ghost old_seq = self.seq_of(node@);
        let ghost instances = self.instances@;
        let (mut pending, mut seq) = match remove_key(&mut self.nodes, node) {
            Some(state) => (state.pending, state.seq),
            None => (Vec::new(), 0),
        };
        assert(commands_view(pending@) == old_pending);
        let mut desired: Vec<DesiredInstance> = Vec::new();
        let mut i: usize = 0;
        while i < self.instances.len()
            invariant
                self.instances@ == instances,
                i <= instances.len(),
                old_seq + instances.len() <= u64::MAX,
                ({
                    let declared = decls_on_node(instances.subrange(0, i as int), node@);
                    &&& (commands_view(pending@), seq) == enqueue_all(
                        old_pending,
                        old_seq,
                        declared,
                        heartbeat.instances@,
                    )
                    &&& desired@.len() == declared.len()
                    &&& forall|j: int|
                        0 <= j < declared.len() ==> (#[trigger] desired@[j])@ == DesiredInstanceView {
                            spec: declared[j].spec@,
                            desired: desired_name(declared[j].desired),
                        }
                    &&& declared.len() <= i
                }),
            decreases instances.len() - i,
        {
            let d = &self.instances[i];
            let ghost prefix = instances.subrange(0, i as int);
            let ghost next = instances.subrange(0, i + 1);
            assert(next.drop_last() =~= prefix);
            if str_eq(d.node.as_str(), node) {
                let ghost declared = decls_on_node(prefix, node@);
                proof {
                    lemma_enqueue_bound(old_pending, old_seq, declared, heartbeat.instances@);
                    assert(next.last() == *d);
                    assert(decls_on_node(next, node@) == declared.push(*d));
                    assert(declared.push(*d).drop_last() =~= declared);
                }
                let actual = match find_report(heartbeat.instances.as_slice(), d.id.as_str()) {
                    Some(k) => Some(&heartbeat.instances[k]),
                    None => None,
                };
                match desired_command(d, actual, pending.as_slice()) {
                    Some(mut command) => {
                        seq = seq + 1;
                        command.seq = seq;
                        let ghost before = pending@;
                        pending.push(command);
                        assert(commands_view(pending@) =~= commands_view(before).push(command@));
                    },
                    None => {},
                }
                desired.push(DesiredInstance { spec: d.spec.duplicate(), desired: d.desired.as_str().to_owned() });
            } else {
                assert(next.last() == *d);
                assert(decls_on_node(next, node@) == decls_on_node(prefix, node@));
            }
            i = i + 1;
        }
        assert(instances.subrange(0, instances.len() as int) =~= instances);
        let mut reply: Vec<Command> = Vec::new();
        let mut j: usize = 0;
        while j < pending.len()
            invariant
                j <= pending@.len(),
                reply@ == pending@.subrange(0, j as int),
            decreases pending.len() - j,
        {
            reply.push(pending[j].duplicate());
            j = j + 1;
            assert(reply@ =~= pending@.subrange(0, j as int));
        }
        assert(pending@.subrange(0, pending@.len() as int) =~= pending@);
        assert(reply@ == pending@);
        let state = NodeState {
            node: heartbeat.node_id.clone(),
            reports: dup_reports(&heartbeat.instances),
            last_seen: heartbeat.time.clone(),
            pending,
            seq,
        };
        upsert(&mut self.nodes, state);
        let ghost nodes_now = self.nodes@;
        let ghost log0 = events_content(self.events@);
        let mut t: usize = 0;
        while t < messages.len()
            invariant
                self.wf(),
                self.nodes@ == nodes_now,
                self.flows@ == old(self).flows@,
                self.instances@ == old(self).instances@,
                self.routes@ == old(self).routes@,
                self.relay@ == old(self).relay@,
                t <= messages@.len(),
                events_content(self.events@) == keep_last(
                    log0 + state_events(messages@.subrange(0, t as int).map_values(|m: String| m@)),
                    EVENT_CAP as nat,
                ),
            decreases messages.len() - t,
        {
            let ghost prev_log = events_content(self.events@);
            self.record_event("state", messages[t].clone());
            proof {
                let done = messages@.subrange(0, t as int).map_values(|m: String| m@);
                let next = messages@.subrange(0, t + 1).map_values(|m: String| m@);
                assert(next =~= done.push(messages@[t as int]@));
                assert(state_events(next) =~= state_events(done).push(("state"@, messages@[t as int]@)));
                assert(log0 + state_events(next) =~= (log0 + state_events(done)).push(("state"@, messages@[t as int]@)));
                lemma_keep_last_push(log0 + state_events(done), ("state"@, messages@[t as int]@), EVENT_CAP as nat);
            }
            t = t + 1;
        }
        assert(messages@.subrange(0, messages@.len() as int) =~= messages@);
        (reply, desired)
    }

    /// Remove every queued command with the acknowledged sequence number
    /// (at-least-once delivery; agents deduplicate).
    pub fn ack(&mut self, ack: &CommandAck)
        requires
            old(self).wf(),
        ensures
            final(self).wf(),
            forall|k: Seq<char>|
                #[trigger] final(self).pending_of(k) == without_seq(old(self).pending_of(k), ack.seq),
            forall|k: Seq<char>| #[trigger] final(self).reports_of(k) == old(self).reports_of(k),
            forall|k: Seq<char>| #[trigger] final(self).seq_of(k) == old(self).seq_of(k),
            forall|k: Seq<char>| #[trigger] final(self).last_seen_of(k) == old(self).last_seen_of(k),
            final(self).flows_seq() == old(self).flows_seq(),
            final(self).instances_seq() == old(self).instances_seq(),
            final(self).routes_seq() == old(self).routes_seq(),
            final(self).relay_seq() == old(self).relay_seq(),
            final(self).event_log() == old(self).event_log(),
    {
        let mut rest: Vec<NodeState> = Vec::new();
        std::mem::swap(&mut rest, &mut self.nodes);
        let ghost all = rest@;
        let n = rest.len();
        let mut i: usize = 0;
        while rest.len() > 0
            invariant
                i + rest@.len() == all.len(),
                all.len() == n,
                rest@ == all.subrange(i as int, n as int),
                self.nodes@.len() == i,
                unique_keys(all),
                self.flows@ == old(self).flows@,
                self.instances@ == old(self).instances@,
                self.routes@ == old(self).routes@,
                self.relay@ == old(self).relay@,
                self.events@ == old(self).events@,
                forall|j: int| 0 <= j < i ==> {
                    &&& (#[trigger] self.nodes@[j]).node == all[j].node
                    &&& self.nodes@[j].reports == all[j].reports
                    &&& self.nodes@[j].last_seen == all[j].last_seen
                    &&& self.nodes@[j].seq == all[j].seq
                    &&& self.nodes@[j].pending@ == without_seq(all[j].pending@, ack.seq)
                },
            decreases rest.len(),
        {
            let state = rest.remove(0);
            assert(state == all[i as int]);
            let kept = retain_unacked(state.pending, ack.seq);
            self.nodes.push(NodeState {
                node: state.node,
                reports: state.reports,
                last_seen: state.last_seen,
                pending: kept,
                seq: state.seq,
            });
            i = i + 1;
            assert(rest@ =~= all.subrange(i as int, n as int));
        }
        proof {
            let s = self.nodes@;
            assert forall|a: int, b: int|
                0 <= a < s.len() && 0 <= b < s.len() && a != b implies #[trigger] s[a].key()
                != #[trigger] s[b].key() by {
                assert(all[a].key() != all[b].key());
            }
            assert forall|k: Seq<char>| #[trigger] has_key(s, k) == has_key(all, k) by {
                if has_key(s, k) {
                    let j = choose|j: int| 0 <= j < s.len() && #[trigger] s[j].key() == k;
                    assert(all[j].key() == k);
                }
                if has_key(all, k) {
                    let j = choose|j: int| 0 <= j < all.len() && #[trigger] all[j].key() == k;
                    assert(s[j].key() == k);
                }
            }
            assert forall|k: Seq<char>| has_key(all, k) implies {
                &&& #[trigger] lookup(s, k) matches Some(x)
                &&& lookup(all, k) matches Some(y)
                &&& x.reports == y.reports
                &&& x.last_seen == y.last_seen
                &&& x.seq == y.seq
                &&& x.pending@ == without_seq(y.pending@, ack.seq)
            } by {
                let j = choose|j: int| 0 <= j < all.len() && #[trigger] all[j].key() == k;
                lemma_lookup_at(all, j);
                lemma_lookup_at(s, j);
            }
        }
    }
}

/// Copies of a list of reports.
fn dup_reports(v: &Vec<InstanceReport>) -> (r: Vec<InstanceReport>)
    ensures
        r@ == v@,
{
    let mut r: Vec<InstanceReport> = Vec::new();
    let mut i: usize = 0;
    while i < v.len()
        invariant
            i <= v@.len(),
            r@ == v@.subrange(0, i as int),
        decreases v.len() - i,
    {
        r.push(v[i].duplicate());
        i = i + 1;
        assert(r@ =~= v@.subrange(0, i as int));
    }
    assert(v@.subrange(0, v@.len() as int) =~= v@);
    r
}

/// The commands of `pending` whose sequence number is not `seq`, in order.
fn retain_unacked(pending: Vec<Command>, seq: u64) -> (r: Vec<Command>)
    ensures
        r@ == without_seq(pending@, seq),
{
    let ghost all = pending@;
    let mut r: Vec<Command> = Vec::new();
    let mut i: usize = 0;
    while i < pending.len()
        invariant
            pending@ == all,
            i <= all.len(),
            r@ == without_seq(all.subrange(0, i as int), seq),
        decreases pending.len() - i,
    {
        assert(all.subrange(0, i + 1).drop_last() =~= all.subrange(0, i as int));
        if pending[i].seq != seq {
            r.push(pending[i].duplicate());
        }
        i = i + 1;
    }
    assert(all.subrange(0, all.len() as int) =~= all);
    r
}


/// The messages and advanced cursors of one pull over `queues`, one
/// subscription after another; subscriptions to unknown topics are skipped.
pub open spec fn pull_result(queues: Seq<RelayQueue>, subs: Seq<(Seq<char>, u64)>) -> (
    Seq<(Seq<char>, u64, JsonView)>,
    Seq<(Seq<char>, u64)>,
)
    decreases subs.len(),
{
    if subs.len() == 0 {
        (Seq::empty(), Seq::empty())
    } else {
        let prev = pull_result(queues, subs.drop_last());
        let topic = subs.last().0;
        let after = subs.last().1;
        match lookup(queues, topic) {
            None => prev,
            Some(q) => (
                prev.0 + batch(entries_view(q.buffer@), after).map_values(
                    |e: (u64, JsonView)| (topic, e.0, e.1),
                ),
                prev.1.push((topic, cursor_after(entries_view(q.buffer@), after))),
            ),
        }
    }
}

/// The topic and cursor of each requested subscription.
pub open spec fn requested_view(s: Seq<(String, u64)>) -> Seq<(Seq<char>, u64)> {
    s.map_values(|e: (String, u64)| (e.0@, e.1))
}

impl Registry {
    /// The last sequence number handed out on `topic` (0 before any message).
    pub open spec fn relay_counter(&self, topic: Seq<char>) -> u64 {
        match lookup(self.relay_seq(), topic) {
            Some(q) => q.seq,
            None => 0,
        }
    }

    /// The buffered messages of `topic`, oldest first.
    pub open spec fn relay_buffer(&self, topic: Seq<char>) -> Seq<(u64, JsonView)> {
        match lookup(self.relay_seq(), topic) {
            Some(q) => entries_view(q.buffer@),
            None => Seq::empty(),
        }
    }

    /// Whether `topic` can take another message without exhausting its counter.
    pub fn has_relay_room(&self, topic: &str) -> (r: bool)
        requires
            self.wf(),
        ensures
            r == (self.relay_counter(topic@) < u64::MAX),
    {
        match find_key(&self.relay, topic) {
            Some(i) => {
                proof {
                    lemma_lookup_at(self.relay@, i as int);
                }
                self.relay[i].seq < u64::MAX
            },
            None => true,
        }
    }

    /// Append one message to a topic's bounded buffer.
    pub fn relay_publish(&mut self, topic: &str, payload: Json)
        requires
            old(self).wf(),
            old(self).relay_counter(topic@) < u64::MAX,
        ensures
            final(self).wf(),
            final(self).relay_counter(topic@) == old(self).relay_counter(topic@) + 1,
            final(self).relay_buffer(topic@) == keep_last(
                old(self).relay_buffer(topic@).push((final(self).relay_counter(topic@), payload@)),
                RELAY_CAP as nat,
            ),
            has_key(final(self).relay_seq(), topic@),
            forall|k: Seq<char>|
                k != topic@ ==> #[trigger] lookup(final(self).relay_seq(), k) == lookup(
                    old(self).relay_seq(),
                    k,
                ),
            final(self).flows_seq() == old(self).flows_seq(),
            final(self).instances_seq() == old(self).instances_seq(),
            final(self).routes_seq() == old(self).routes_seq(),
            final(self).nodes_seq() == old(self).nodes_seq(),
            final(self).event_log() == old(self).event_log(),
    {
        let ghost old_relay = self.relay@;
        let mut queue = match remove_key(&mut self.relay, topic) {
            Some(q) => q,
            None => RelayQueue { topic: topic.to_owned(), seq: 0, buffer: Vec::new() },
        };
        proof {
            match lookup(old_relay, topic@) {
                Some(q) => {
                    let j = choose|j: int| 0 <= j < old_relay.len() && #[trigger] old_relay[j].key() == topic@;
                    assert(old_relay[j] == q);
                },
                None => {
                    assert(entries_view(queue.buffer@) =~= Seq::<(u64, JsonView)>::empty());
                },
            }
        }
        publish_into(&mut queue, payload);
        let ghost q2 = queue;
        upsert(&mut self.relay, queue);
        proof {
            let s = self.relay@;
            assert forall|i: int| 0 <= i < s.len() implies queue_wf(#[trigger] s[i]) by {
                if s[i].key() == topic@ {
                    lemma_lookup_at(s, i);
                } else {
                    lemma_lookup_at(s, i);
                    let k = s[i].key();
                    let j = choose|j: int| 0 <= j < old_relay.len() && #[trigger] old_relay[j].key() == k;
                    lemma_lookup_at(old_relay, j);
                }
            }
        }
    }

    /// Deliver, per subscription, the queued messages newer than its cursor
    /// (at most a batch per topic) and report the advanced cursors;
    /// subscriptions to unknown topics get no cursor back.
    pub fn relay_pull(&self, subscriber: &str, subscriptions: &[(String, u64)]) -> (r: (
        Vec<RelayMessage>,
        Vec<PullSubscription>,
    ))
        requires
            self.wf(),
        ensures
            (messages_view(r.0@), subscriptions_view(r.1@)) == pull_result(
                self.relay_seq(),
                requested_view(subscriptions@),
            ),
    {
        let _ = subscriber;
        let ghost subs = requested_view(subscriptions@);
        let mut messages: Vec<RelayMessage> = Vec::new();
        let mut next: Vec<PullSubscription> = Vec::new();
        let mut i: usize = 0;
        while i < subscriptions.len()
            invariant
                self.wf(),
                subs == requested_view(subscriptions@),
                i <= subscriptions@.len(),
                (messages_view(messages@), subscriptions_view(next@)) == pull_result(
                    self.relay@,
                    subs.subrange(0, i as int),
                ),
            decreases subscriptions.len() - i,
        {
            let ghost pre = subs.subrange(0, i as int);
            let ghost nxt = subs.subrange(0, i + 1);
            assert(nxt.drop_last() =~= pre);
            let topic = &subscriptions[i].0;
            let after = subscriptions[i].1;
            match find_key(&self.relay, topic.as_str()) {
                Some(k) => {
                    proof {
                        lemma_lookup_at(self.relay@, k as int);
                    }
                    let ghost before = subscriptions_view(next@);
                    let cursor = pull_from(&self.relay[k], topic, after, &mut messages);
                    next.push(PullSubscription { topic: topic.clone(), after: cursor });
                    assert(subscriptions_view(next@) =~= before.push((topic@, cursor)));
                },
                None => {},
            }
            i = i + 1;
        }
        assert(subs.subrange(0, subscriptions@.len() as int) =~= subs);
        (messages, next)
    }
}

/// Relay read-after-write: right after a message is published on a topic, a
/// pull of that topic with the topic's previous counter as cursor delivers
/// exactly that message and advances the cursor to its sequence number.
pub proof fn relay_publish_then_pull(before: Registry, after: Registry, topic: Seq<char>, payload: JsonView)
    requires
        before.wf(),
        after.wf(),
        after.relay_counter(topic) == before.relay_counter(topic) + 1,
        after.relay_buffer(topic) == keep_last(
            before.relay_buffer(topic).push((after.relay_counter(topic), payload)),
            RELAY_CAP as nat,
        ),
        has_key(after.relay_seq(), topic),
    ensures
        pull_result(after.relay_seq(), seq![(topic, before.relay_counter(topic))]) == (
            seq![(topic, after.relay_counter(topic), payload)],
            seq![(topic, after.relay_counter(topic))],
        ),
{
    let subs = seq![(topic, before.relay_counter(topic))];
    assert(subs.drop_last() =~= Seq::<(Seq<char>, u64)>::empty());
    let q = lookup(after.relay_seq(), topic)->0;
    let j = choose|j: int| 0 <= j < after.relay@.len() && #[trigger] after.relay@[j].key() == topic;
    lemma_lookup_at(after.relay@, j);
    let old_buf = before.relay_buffer(topic);
    let c = before.relay_counter(topic);
    assert forall|i: int| 0 <= i < old_buf.len() implies (#[trigger] old_buf[i]).0 <= c by {
        let qb = lookup(before.relay_seq(), topic)->0;
        let jb = choose|jb: int| 0 <= jb < before.relay@.len() && #[trigger] before.relay@[jb].key() == topic;
        lemma_lookup_at(before.relay@, jb);
        assert(queue_wf(before.relay@[jb]));
        assert(old_buf[i] == (qb.buffer@[i].seq, qb.buffer@[i].payload@));
    }
    let c1 = after.relay_counter(topic);
    let entry: (u64, JsonView) = (c1, payload);
    let pushed = old_buf.push(entry);
    let kept = keep_last(pushed, RELAY_CAP as nat);
    assert(kept.last() == pushed.last());
    assert forall|i: int| 0 <= i < kept.drop_last().len() implies (#[trigger] kept.drop_last()[i]).0 <= c by {
        if pushed.len() > RELAY_CAP {
            assert(kept.drop_last()[i] == old_buf[i + pushed.len() - RELAY_CAP]);
        } else {
            assert(kept.drop_last()[i] == old_buf[i]);
        }
    }
    lemma_newer_none(kept.drop_last(), c);
    assert(newer(kept, c) =~= seq![entry]);
    assert(batch(kept, c) =~= seq![entry]);
    let msgs = batch(kept, c).map_values(|e: (u64, JsonView)| (topic, e.0, e.1));
    assert(msgs =~= seq![(topic, c1, payload)]);
    assert(entries_view(q.buffer@) == kept);
    assert(cursor_after(kept, c) == c1);
    let empty = pull_result(after.relay_seq(), subs.drop_last());
    assert(empty == (Seq::<(Seq<char>, u64, JsonView)>::empty(), Seq::<(Seq<char>, u64)>::empty()));
    assert(empty.0 + msgs =~= msgs);
    assert(empty.1.push((topic, c1)) =~= seq![(topic, c1)]);
}

/// Relay delivery never goes backwards: every message a pull delivers for a
/// subscription is newer than its cursor, in increasing order, and the
/// returned cursor is the last delivered sequence number (or the old cursor).
pub proof fn relay_pull_is_monotone(r: Registry, topic: Seq<char>, after: u64)
    requires
        r.wf(),
        has_key(r.relay_seq(), topic),
    ensures
        ({
            let d = batch(r.relay_buffer(topic), after);
            &&& d.len() <= RELAY_BATCH
            &&& forall|i: int| 0 <= i < d.len() ==> (#[trigger] d[i]).0 > after
            &&& forall|i: int, j: int| 0 <= i < j < d.len() ==> (#[trigger] d[i]).0 < (#[trigger] d[j]).0
            &&& cursor_after(r.relay_buffer(topic), after) >= after
        }),
{
    let j = choose|j: int| 0 <= j < r.relay@.len() && #[trigger] r.relay@[j].key() == topic;
    lemma_lookup_at(r.relay@, j);
    let q = r.relay@[j];
    assert(queue_wf(q));
    let b = entries_view(q.buffer@);
    assert forall|a: int, c: int| 0 <= a < c < b.len() implies (#[trigger] b[a]).0 < (#[trigger] b[c]).0 by {
        assert(q.buffer@[a].seq < q.buffer@[c].seq);
    }
    lemma_newer_members(b, after);
    lemma_newer_increasing(b, after);
}


/// In a well-formed registry, a topic's buffered sequence numbers are
/// strictly increasing and none exceeds the topic's counter.
pub proof fn lemma_relay_buffer_ordered(r: Registry, topic: Seq<char>)
    requires
        r.wf(),
    ensures
        forall|i: int, j: int|
            0 <= i < j < r.relay_buffer(topic).len() ==> (#[trigger] r.relay_buffer(topic)[i]).0 < (#[trigger] r.relay_buffer(
                topic,
            )[j]).0,
        forall|i: int| 0 <= i < r.relay_buffer(topic).len() ==> (#[trigger] r.relay_buffer(topic)[i]).0 <= r.relay_counter(topic),
{
    if has_key(r.relay@, topic) {
        let j = choose|j: int| 0 <= j < r.relay@.len() && #[trigger] r.relay@[j].key() == topic;
        lemma_lookup_at(r.relay@, j);
        let q = r.relay@[j];
        assert(queue_wf(q));
        let b = entries_view(q.buffer@);
        assert forall|a: int, c: int| 0 <= a < c < b.len() implies (#[trigger] b[a]).0 < (#[trigger] b[c]).0 by {
            assert(q.buffer@[a].seq < q.buffer@[c].seq);
        }
        assert forall|a: int| 0 <= a < b.len() implies (#[trigger] b[a]).0 <= q.seq by {
            assert(q.buffer@[a].seq <= q.seq);
        }
    }
}

/// Relay sequence numbers strictly increase across publishes: the message
/// a publish adds is numbered above every message the topic held before,
/// it is the newest in the buffer, and the buffer stays strictly increasing.
pub proof fn relay_sequence_increases(before: Registry, after: Registry, topic: Seq<char>, payload: JsonView)
    requires
        before.wf(),
        after.wf(),
        after.relay_counter(topic) == before.relay_counter(topic) + 1,
        after.relay_buffer(topic) == keep_last(
            before.relay_buffer(topic).push((after.relay_counter(topic), payload)),
            RELAY_CAP as nat,
        ),
    ensures
        forall|i: int| 0 <= i < before.relay_buffer(topic).len() ==> (#[trigger] before.relay_buffer(topic)[i]).0 < after.relay_counter(topic),
        after.relay_buffer(topic).len() > 0,
        after.relay_buffer(topic).last() == (after.relay_counter(topic), payload),
        forall|i: int, j: int|
            0 <= i < j < after.relay_buffer(topic).len() ==> (#[trigger] after.relay_buffer(topic)[i]).0 < (#[trigger] after.relay_buffer(
                topic,
            )[j]).0,
{
    lemma_relay_buffer_ordered(before, topic);
    lemma_relay_buffer_ordered(after, topic);
    let pushed = before.relay_buffer(topic).push((after.relay_counter(topic), payload));
    assert(keep_last(pushed, RELAY_CAP as nat).last() == pushed.last());
}

/// Among reports with distinct instance ids, the first report about each
/// reported instance is that report.
proof fn lemma_report_for_distinct(reports: Seq<InstanceReport>, k: int)
    requires
        0 <= k < reports.len(),
        forall|i: int, j: int| 0 <= i < j < reports.len() ==> (#[trigger] reports[i]).id@ != (#[trigger] reports[j]).id@,
    ensures
        report_for(reports, reports[k].id@) == Some(reports[k]),
    decreases reports.len(),
{
    if k > 0 {
        let t = reports.drop_first();
        assert(reports[0].id@ != reports[k].id@);
        assert(t[k - 1] == reports[k]);
        lemma_report_for_distinct(t, k - 1);
    }
}

/// A heartbeat that repeats the previous one adds no state event: with
/// reports about distinct instances, none of them changes state, so the
/// event history (bounded by `EVENT_CAP`) stays as it was.
pub proof fn repeated_heartbeat_adds_no_event(reports: Seq<InstanceReport>, log: Seq<(Seq<char>, Seq<char>)>)
    requires
        forall|i: int, j: int| 0 <= i < j < reports.len() ==> (#[trigger] reports[i]).id@ != (#[trigger] reports[j]).id@,
        log.len() <= EVENT_CAP,
    ensures
        transitions(reports, reports) == Seq::<Seq<char>>::empty(),
        keep_last(log + state_events(transitions(reports, reports)), EVENT_CAP as nat) == log,
{
    lemma_no_transitions(reports, reports.len() as int);
    assert(reports.subrange(0, reports.len() as int) =~= reports);
    assert(log + state_events(Seq::<Seq<char>>::empty()) =~= log);
}

/// No report of the first `n` changes state against the same reports.
proof fn lemma_no_transitions(reports: Seq<InstanceReport>, n: int)
    requires
        0 <= n <= reports.len(),
        forall|i: int, j: int| 0 <= i < j < reports.len() ==> (#[trigger] reports[i]).id@ != (#[trigger] reports[j]).id@,
    ensures
        transitions(reports, reports.subrange(0, n)) == Seq::<Seq<char>>::empty(),
    decreases n,
{
    if n > 0 {
        lemma_no_transitions(reports, n - 1);
        let s = reports.subrange(0, n);
        assert(s.drop_last() =~= reports.subrange(0, n - 1));
        lemma_report_for_distinct(reports, n - 1);
        assert(transition_message(reports, s.last()) is None);
    }
}

/// No two queued commands target the same instance with the same operation.
pub open spec fn distinct_commands(s: Seq<CommandView>) -> bool {
    forall|i: int, j: int|
        0 <= i < j < s.len() ==> !((#[trigger] s[i]).instance == (#[trigger] s[j]).instance && s[i].op
            == s[j].op)
}

/// Queued sequence numbers increase and none exceeds the node's counter.
pub open spec fn numbered_below(s: Seq<CommandView>, seq: u64) -> bool {
    &&& forall|i: int, j: int| 0 <= i < j < s.len() ==> (#[trigger] s[i]).seq < (#[trigger] s[j]).seq
    &&& forall|i: int| 0 <= i < s.len() ==> (#[trigger] s[i]).seq <= seq
}

/// Reconciliation never queues a duplicate: a command already pending for
/// an instance is not enqueued again, so a queue without duplicates keeps
/// none after any heartbeat.
pub proof fn reconcile_keeps_commands_distinct(
    pending: Seq<CommandView>,
    seq: u64,
    declared: Seq<InstanceDecl>,
    reports: Seq<InstanceReport>,
)
    requires
        distinct_commands(pending),
    ensures
        distinct_commands(enqueue_all(pending, seq, declared, reports).0),
    decreases declared.len(),
{
    if declared.len() > 0 {
        reconcile_keeps_commands_distinct(pending, seq, declared.drop_last(), reports);
        let prev = enqueue_all(pending, seq, declared.drop_last(), reports);
        let d = declared.last();
        match planned_op(d.id@, d.desired, reported_state(reports, d.id@), prev.0) {
            Some(op) => {
                let next = prev.0.push(CommandView { seq: (prev.1 + 1) as u64, op, instance: d.id@ });
                assert forall|i: int, j: int| 0 <= i < j < next.len() implies !((#[trigger] next[i]).instance
                    == (#[trigger] next[j]).instance && next[i].op == next[j].op) by {
                    if j == next.len() - 1 {
                        assert(!already_pending(prev.0, d.id@, op));
                        if next[i].instance == next[j].instance && next[i].op == next[j].op {
                            assert(prev.0[i].instance == d.id@ && prev.0[i].op == op);
                        }
                    } else {
                        assert(next[i] == prev.0[i] && next[j] == prev.0[j]);
                    }
                }
            },
            None => {},
        }
    }
}

/// Command numbering is strictly increasing: every command a heartbeat
/// enqueues gets the next number of its node, so the queue stays ordered
/// by sequence number and no number is handed out twice.
pub proof fn reconcile_numbers_commands_in_order(
    pending: Seq<CommandView>,
    seq: u64,
    declared: Seq<InstanceDecl>,
    reports: Seq<InstanceReport>,
)
    requires
        numbered_below(pending, seq),
        seq + declared.len() <= u64::MAX,
    ensures
        numbered_below(
            enqueue_all(pending, seq, declared, reports).0,
            enqueue_all(pending, seq, declared, reports).1,
        ),
    decreases declared.len(),
{
    if declared.len() > 0 {
        reconcile_numbers_commands_in_order(pending, seq, declared.drop_last(), reports);
        lemma_enqueue_bound(pending, seq, declared.drop_last(), reports);
        let prev = enqueue_all(pending, seq, declared.drop_last(), reports);
        let d = declared.last();
        match planned_op(d.id@, d.desired, reported_state(reports, d.id@), prev.0) {
            Some(op) => {
                let next = prev.0.push(CommandView { seq: (prev.1 + 1) as u64, op, instance: d.id@ });
                assert forall|i: int, j: int| 0 <= i < j < next.len() implies (#[trigger] next[i]).seq < (
                #[trigger] next[j]).seq by {
                    if j == next.len() - 1 {
                        assert(prev.0[i].seq <= prev.1);
                    } else {
                        assert(next[i] == prev.0[i] && next[j] == prev.0[j]);
                    }
                }
                assert forall|i: int| 0 <= i < next.len() implies (#[trigger] next[i]).seq <= prev.1 + 1 by {
                    if i < next.len() - 1 {
                        assert(next[i] == prev.0[i]);
                    }
                }
            },
            None => {},
        }
    }
}

/// An acknowledgement removes exactly the commands with its sequence
/// number and keeps every other command.
pub proof fn ack_removes_only_acknowledged(s: Seq<Command>, seq: u64)
    ensures
        forall|i: int| 0 <= i < without_seq(s, seq).len() ==> (#[trigger] without_seq(s, seq)[i]).seq != seq,
        forall|i: int| 0 <= i < without_seq(s, seq).len() ==> s.contains(#[trigger] without_seq(s, seq)[i]),
        forall|k: int| 0 <= k < s.len() && (#[trigger] s[k]).seq != seq ==> without_seq(s, seq).contains(s[k]),
    decreases s.len(),
{
    if s.len() > 0 {
        let p = s.drop_last();
        ack_removes_only_acknowledged(p, seq);
        let w = without_seq(s, seq);
        let wp = without_seq(p, seq);
        if s.last().seq == seq {
            assert(w == wp);
            assert forall|i: int| 0 <= i < w.len() implies s.contains(#[trigger] w[i]) by {
                assert(p.contains(wp[i]));
                let m = choose|m: int| 0 <= m < p.len() && p[m] == wp[i];
                assert(s[m] == w[i]);
            }
            assert forall|k: int| 0 <= k < s.len() && (#[trigger] s[k]).seq != seq implies w.contains(s[k]) by {
                assert(p[k] == s[k]);
            }
        } else {
            assert(w == wp.push(s.last()));
            assert forall|i: int| 0 <= i < w.len() implies (#[trigger] w[i]).seq != seq by {
                if i < wp.len() {
                    assert(w[i] == wp[i]);
                }
            }
            assert forall|i: int| 0 <= i < w.len() implies s.contains(#[trigger] w[i]) by {
                if i < wp.len() {
                    assert(w[i] == wp[i]);
                    assert(p.contains(wp[i]));
                    let m = choose|m: int| 0 <= m < p.len() && p[m] == wp[i];
                    assert(s[m] == w[i]);
                } else {
                    assert(s[s.len() - 1] == w[i]);
                }
            }
            assert forall|k: int| 0 <= k < s.len() && (#[trigger] s[k]).seq != seq implies w.contains(s[k]) by {
                if k < p.len() {
                    assert(p[k] == s[k]);
                    assert(wp.contains(p[k]));
                    let m = choose|m: int| 0 <= m < wp.len() && wp[m] == p[k];
                    assert(w[m] == s[k]);
                } else {
                    assert(w[w.len() - 1] == s[k]);
                }
            }
        }
    }
}

/// Converged states queue nothing: an instance already in its desired
/// state (or failed, when it should be stopped) needs no command.
pub proof fn converged_states_need_no_command()
    ensures
        reconcile_op(Desired::Running, InstanceState::Running) is None,
        reconcile_op(Desired::Paused, InstanceState::Paused) is None,
        reconcile_op(Desired::Stopped, InstanceState::Stopped) is None,
        reconcile_op(Desired::Stopped, InstanceState::Failed) is None,
{
}

} // verus!
