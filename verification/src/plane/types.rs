//! Registry types: desired state, declarations, views and routes.

use vstd::prelude::*;

use crate::keyed::Keyed;
use crate::plane::agent::{opt_view, InstanceSpec, InstanceSpecView};
use crate::text::dup_opt;

verus! {

/// Desired instance state.
#[derive(Debug, Clone, Copy, PartialEq, Eq, Structural)]
pub enum Desired {
    Running,
    Paused,
    Stopped,
}

/// The wire name of a desired state.
pub open spec fn desired_name(d: Desired) -> Seq<char> {
    match d {
        Desired::Running => "running"@,
        Desired::Paused => "paused"@,
        Desired::Stopped => "stopped"@,
    }
}

impl Desired {
    /// The lowercase wire name of the desired state.
    pub fn as_str(self) -> (r: &'static str)
        ensures
            r@ == desired_name(self),
    {
        match self {
            Desired::Running => "running",
            Desired::Paused => "paused",
            Desired::Stopped => "stopped",
        }
    }
}

} // verus!

verus! {

/// A declared instance: where it runs, its launch spec, and the desired state.
#[derive(Debug, Clone)]
pub struct InstanceDecl {
    pub id: String,
    pub node: String,
    /// Routing group id used by gateway routes.
    pub flow_id: Option<String>,
    pub desired: Desired,
    pub spec: InstanceSpec,
}

/// The mathematical content of an [`InstanceDecl`].
pub ghost struct InstanceDeclView {
    pub id: Seq<char>,
    pub node: Seq<char>,
    pub flow_id: Option<Seq<char>>,
    pub desired: Desired,
    pub spec: InstanceSpecView,
}

impl View for InstanceDecl {
    type V = InstanceDeclView;

    open spec fn view(&self) -> InstanceDeclView {
        InstanceDeclView {
            id: self.id@,
            node: self.node@,
            flow_id: opt_view(self.flow_id),
            desired: self.desired,
            spec: self.spec@,
        }
    }
}

impl Keyed for InstanceDecl {
    open spec fn key(&self) -> Seq<char> {
        self.id@
    }

    fn key_str(&self) -> (r: &str) {
        self.id.as_str()
    }
}

impl InstanceDecl {
    /// An identical copy.
    pub fn duplicate(&self) -> (r: Self)
        ensures
            r@ == self@,
    {
        InstanceDecl {
            id: self.id.clone(),
            node: self.node.clone(),
            flow_id: dup_opt(&self.flow_id),
            desired: self.desired,
            spec: self.spec.duplicate(),
        }
    }
}

/// A flow fragment stored for the manager UI.
#[derive(Debug, Clone)]
pub struct FlowDecl {
    pub id: String,
    pub name: String,
    pub yaml: String,
}

impl Keyed for FlowDecl {
    open spec fn key(&self) -> Seq<char> {
        self.id@
    }

    fn key_str(&self) -> (r: &str) {
        self.id.as_str()
    }
}

impl FlowDecl {
    /// An identical copy.
    pub fn duplicate(&self) -> (r: Self)
        ensures
            r == *self,
    {
        FlowDecl { id: self.id.clone(), name: self.name.clone(), yaml: self.yaml.clone() }
    }
}

/// Instance view merged from desired and last reported actual state.
#[derive(Debug, Clone)]
pub struct InstanceView {
    pub id: String,
    pub node: String,
    pub flow_id: Option<String>,
    pub desired: String,
    pub actual: Option<String>,
    pub healthy: Option<bool>,
    pub paused: Option<bool>,
    pub restarts: Option<u32>,
    pub admin: Option<String>,
    pub trigger: Option<String>,
}

/// Node view from heartbeats.
#[derive(Debug, Clone)]
pub struct NodeView {
    pub id: String,
    pub last_seen: Option<String>,
}

/// Gateway routing mode.
#[derive(Debug, Clone, Copy, PartialEq, Eq, Structural)]
pub enum RouteMode {
    Proxy,
    Bus,
}

/// Candidate selection strategy.
#[derive(Debug, Clone, Copy, PartialEq, Eq, Structural)]
pub enum Strategy {
    RoundRobin,
    Hash,
}

/// A gateway route: path prefix to instance group.
#[derive(Debug, Clone)]
pub struct RouteDecl {
    pub id: String,
    /// Gateway path prefix (served under `/gw<path>`).
    pub path: String,
    /// Matches instances whose `flow_id` equals this value.
    pub flow_id: String,
    pub mode: RouteMode,
    pub strategy: Strategy,
    /// Header used as the hash key when the strategy is `hash`.
    pub sticky_key: Option<String>,
    /// Topic for bus mode.
    pub topic: Option<String>,
}

impl Keyed for RouteDecl {
    open spec fn key(&self) -> Seq<char> {
        self.id@
    }

    fn key_str(&self) -> (r: &str) {
        self.id.as_str()
    }
}

impl RouteDecl {
    /// An identical copy.
    pub fn duplicate(&self) -> (r: Self)
        ensures
            r == *self,
    {
        RouteDecl {
            id: self.id.clone(),
            path: self.path.clone(),
            flow_id: self.flow_id.clone(),
            mode: self.mode,
            strategy: self.strategy,
            sticky_key: dup_opt(&self.sticky_key),
            topic: dup_opt(&self.topic),
        }
    }
}

} // verus!
