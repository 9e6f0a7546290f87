//! Wire types exchanged with node agents: launch specs, reports, commands.

use vstd::prelude::*;

use crate::text::{dup_opt, dup_strings};

verus! {

/// Lifecycle state of one supervised instance, as reported by its agent.
#[derive(Debug, Clone, Copy, PartialEq, Eq, Structural)]
pub enum InstanceState {
    Starting,
    Running,
    Paused,
    Stopped,
    Failed,
    Restarting,
}

/// The wire name of an instance state.
pub open spec fn state_name(s: InstanceState) -> Seq<char> {
    match s {
        InstanceState::Starting => "starting"@,
        InstanceState::Running => "running"@,
        InstanceState::Paused => "paused"@,
        InstanceState::Stopped => "stopped"@,
        InstanceState::Failed => "failed"@,
        InstanceState::Restarting => "restarting"@,
    }
}

/// The length and first character of a state's wire name.
proof fn lemma_state_name_shape(s: InstanceState)
    ensures
        state_name(s).len() == match s {
            InstanceState::Starting => 8nat,
            InstanceState::Running => 7nat,
            InstanceState::Paused => 6nat,
            InstanceState::Stopped => 7nat,
            InstanceState::Failed => 6nat,
            InstanceState::Restarting => 10nat,
        },
        state_name(s)[0] == match s {
            InstanceState::Starting => 's',
            InstanceState::Running => 'r',
            InstanceState::Paused => 'p',
            InstanceState::Stopped => 's',
            InstanceState::Failed => 'f',
            InstanceState::Restarting => 'r',
        },
{
    reveal_strlit("starting");
    reveal_strlit("running");
    reveal_strlit("paused");
    reveal_strlit("stopped");
    reveal_strlit("failed");
    reveal_strlit("restarting");
}

/// The wire names of the instance states are pairwise distinct, and each
/// is the state's name in lower case.
pub proof fn state_names_are_distinct(a: InstanceState, b: InstanceState)
    ensures
        state_name(a) == state_name(b) <==> a == b,
        state_name(a) == "running"@ <==> a == InstanceState::Running,
        state_name(a) == "failed"@ <==> a == InstanceState::Failed,
        state_name(a) == "stopped"@ <==> a == InstanceState::Stopped,
        state_name(a) == "paused"@ <==> a == InstanceState::Paused,
        state_name(a) == "starting"@ <==> a == InstanceState::Starting,
        state_name(a) == "restarting"@ <==> a == InstanceState::Restarting,
{
    lemma_state_name_shape(a);
    lemma_state_name_shape(b);
    lemma_state_name_shape(InstanceState::Running);
    lemma_state_name_shape(InstanceState::Failed);
    lemma_state_name_shape(InstanceState::Stopped);
    lemma_state_name_shape(InstanceState::Paused);
    lemma_state_name_shape(InstanceState::Starting);
    lemma_state_name_shape(InstanceState::Restarting);
}

impl InstanceState {
    /// The lowercase wire name of the state.
    pub fn as_str(self) -> (r: &'static str)
        ensures
            r@ == state_name(self),
    {
        match self {
            InstanceState::Starting => "starting",
            InstanceState::Running => "running",
            InstanceState::Paused => "paused",
            InstanceState::Stopped => "stopped",
            InstanceState::Failed => "failed",
            InstanceState::Restarting => "restarting",
        }
    }
}

/// How an agent launches one instance.
#[derive(Debug, Clone)]
pub struct InstanceSpec {
    pub id: String,
    pub flow: String,
    pub bin: Option<String>,
    pub args: Vec<String>,
    pub trigger: Option<String>,
    pub admin: Option<String>,
    pub admin_token: Option<String>,
    pub health_enabled: bool,
}

/// The mathematical content of an [`InstanceSpec`].
pub ghost struct InstanceSpecView {
    pub id: Seq<char>,
    pub flow: Seq<char>,
    pub bin: Option<Seq<char>>,
    pub args: Seq<Seq<char>>,
    pub trigger: Option<Seq<char>>,
    pub admin: Option<Seq<char>>,
    pub admin_token: Option<Seq<char>>,
    pub health_enabled: bool,
}

/// The characters of an optional string.
pub open spec fn opt_view(o: Option<String>) -> Option<Seq<char>> {
    match o {
        Some(s) => Some(s@),
        None => None,
    }
}

/// The characters of each string of a list.
pub open spec fn strings_view(v: Seq<String>) -> Seq<Seq<char>> {
    v.map_values(|s: String| s@)
}

impl View for InstanceSpec {
    type V = InstanceSpecView;

    open spec fn view(&self) -> InstanceSpecView {
        InstanceSpecView {
            id: self.id@,
            flow: self.flow@,
            bin: opt_view(self.bin),
            args: strings_view(self.args@),
            trigger: opt_view(self.trigger),
            admin: opt_view(self.admin),
            admin_token: opt_view(self.admin_token),
            health_enabled: self.health_enabled,
        }
    }
}

impl InstanceSpec {
    /// An empty spec: no flow, no binary override, health checks enabled.
    pub fn empty() -> (r: Self)
        ensures
            r.id@.len() == 0,
            r.flow@.len() == 0,
            r.bin is None,
            r.args@.len() == 0,
            r.trigger is None,
            r.admin is None,
            r.admin_token is None,
            r.health_enabled,
    {
        InstanceSpec {
            id: String::new(),
            flow: String::new(),
            bin: None,
            args: Vec::new(),
            trigger: None,
            admin: None,
            admin_token: None,
            health_enabled: true,
        }
    }

    /// An identical copy.
    pub fn duplicate(&self) -> (r: Self)
        ensures
            r@ == self@,
            r.id == self.id,
    {
        let args = dup_strings(&self.args);
        InstanceSpec {
            id: self.id.clone(),
            flow: self.flow.clone(),
            bin: dup_opt(&self.bin),
            args,
            trigger: dup_opt(&self.trigger),
            admin: dup_opt(&self.admin),
            admin_token: dup_opt(&self.admin_token),
            health_enabled: self.health_enabled,
        }
    }
}

/// The actual state of one instance, as reported in a heartbeat.
#[derive(Debug, Clone)]
pub struct InstanceReport {
    pub id: String,
    pub state: InstanceState,
    pub paused: bool,
    pub healthy: bool,
    pub restarts: u32,
    pub admin: Option<String>,
    pub trigger: Option<String>,
}

impl InstanceReport {
    /// An identical copy.
    pub fn duplicate(&self) -> (r: Self)
        ensures
            r == *self,
    {
        InstanceReport {
            id: self.id.clone(),
            state: self.state,
            paused: self.paused,
            healthy: self.healthy,
            restarts: self.restarts,
            admin: dup_opt(&self.admin),
            trigger: dup_opt(&self.trigger),
        }
    }
}

/// One queued command for an agent: `op` is `start`/`stop`/`pause`/`resume`.
#[derive(Debug, Clone, PartialEq)]
pub struct Command {
    pub seq: u64,
    pub op: String,
    pub instance: String,
}

/// The mathematical content of a [`Command`].
pub ghost struct CommandView {
    pub seq: u64,
    pub op: Seq<char>,
    pub instance: Seq<char>,
}

impl View for Command {
    type V = CommandView;

    open spec fn view(&self) -> CommandView {
        CommandView { seq: self.seq, op: self.op@, instance: self.instance@ }
    }
}

impl Command {
    /// An identical copy.
    pub fn duplicate(&self) -> (r: Self)
        ensures
            r == *self,
    {
        Command { seq: self.seq, op: self.op.clone(), instance: self.instance.clone() }
    }
}

/// Acknowledgement of a delivered command.
#[derive(Debug, Clone, Copy)]
pub struct CommandAck {
    pub seq: u64,
}

/// A node's periodic report of its instances.
#[derive(Debug, Clone)]
pub struct Heartbeat {
    pub node_id: String,
    pub time: String,
    pub instances: Vec<InstanceReport>,
}

/// One instance the plane wants a node to run, with its desired state name.
#[derive(Debug, Clone)]
pub struct DesiredInstance {
    pub spec: InstanceSpec,
    pub desired: String,
}

/// The mathematical content of a [`DesiredInstance`].
pub ghost struct DesiredInstanceView {
    pub spec: InstanceSpecView,
    pub desired: Seq<char>,
}

impl View for DesiredInstance {
    type V = DesiredInstanceView;

    open spec fn view(&self) -> DesiredInstanceView {
        DesiredInstanceView { spec: self.spec@, desired: self.desired@ }
    }
}

} // verus!
