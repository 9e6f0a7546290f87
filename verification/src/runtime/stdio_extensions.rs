//! Stdio extensions: manifests that register external step, trigger, state
//! store and event bus implementations speaking JSON-RPC over stdio.

use vstd::prelude::*;

use crate::keyed::{find_key, has_key, lemma_lookup_at, lookup, unique_keys, upsert, Keyed};
use crate::path_order::{paths_sorted, sort_paths, with_parts};
use crate::paths::{extension, path_extension, component_count, is_absolute, join, parent, path_component_count, path_is_absolute, path_join, path_parent};
use crate::text::{concat2, concat3, concat5, decimal, digits, dup_opt, dup_strings, seq_starts_with, starts_with, str_eq};

verus! {

/// The protocol every manifest must speak.
pub open spec fn protocol_name() -> Seq<char> {
    "sohara.stdio/v1"@
}

/// The protocol a manifest speaks when it names none.
pub fn default_protocol() -> (r: String)
    ensures
        r@ == protocol_name(),
{
    "sohara.stdio/v1".to_owned()
}

/// The kind of a step component.
#[derive(Debug, Clone, Copy, PartialEq, Eq, Structural)]
pub enum ComponentKind {
    Source,
    Transform,
    Sink,
    Control,
}

/// The name of a step kind, as written in flows and manifests.
pub open spec fn kind_name(k: ComponentKind) -> Seq<char> {
    match k {
        ComponentKind::Source => "source"@,
        ComponentKind::Transform => "transform"@,
        ComponentKind::Sink => "sink"@,
        ComponentKind::Control => "control"@,
    }
}

impl ComponentKind {
    /// The name of the kind.
    pub fn as_str(&self) -> (r: &'static str)
        ensures
            r@ == kind_name(*self),
    {
        match self {
            ComponentKind::Source => "source",
            ComponentKind::Transform => "transform",
            ComponentKind::Sink => "sink",
            ComponentKind::Control => "control",
        }
    }
}

/// A step a manifest registers.
#[derive(Debug)]
pub struct StepRegistration {
    pub kind: ComponentKind,
    pub step_type: String,
}

/// A trigger, state store or event bus a manifest registers.
#[derive(Debug)]
pub struct NamedRegistration {
    pub component_type: String,
}

/// A stdio extension manifest.
#[derive(Debug)]
pub struct StdioExtensionManifest {
    pub name: String,
    pub version: String,
    pub builtin: bool,
    pub protocol: String,
    pub command: String,
    pub cwd: Option<String>,
    pub args: Vec<String>,
    pub steps: Vec<StepRegistration>,
    pub triggers: Vec<NamedRegistration>,
    pub state_stores: Vec<NamedRegistration>,
    pub event_buses: Vec<NamedRegistration>,
}

/// What an extension process serves asynchronously.
#[derive(Debug, Clone, Copy, PartialEq, Eq, Structural)]
pub enum AsyncKind {
    Source,
    Transform,
    Sink,
    Trigger,
}

/// What an extension process serves with blocking calls.
#[derive(Debug, Clone, Copy, PartialEq, Eq, Structural)]
pub enum BlockingKind {
    StateStore,
    EventBus,
}

/// The capabilities an extension advertises when initialized.
#[derive(Debug, Clone, Copy, PartialEq, Eq, Structural)]
pub struct ExtensionCapabilities {
    pub source: bool,
    pub transform: bool,
    pub sink: bool,
    pub trigger: bool,
    pub state_store: bool,
    pub event_bus: bool,
}

impl ExtensionCapabilities {
    /// Whether the extension serves an asynchronous component of the kind.
    pub fn supports_async(&self, kind: AsyncKind) -> (r: bool)
        ensures
            r == match kind {
                AsyncKind::Source => self.source,
                AsyncKind::Transform => self.transform,
                AsyncKind::Sink => self.sink,
                AsyncKind::Trigger => self.trigger,
            },
    {
        match kind {
            AsyncKind::Source => self.source,
            AsyncKind::Transform => self.transform,
            AsyncKind::Sink => self.sink,
            AsyncKind::Trigger => self.trigger,
        }
    }

    /// Whether the extension serves a blocking component of the kind.
    pub fn supports_blocking(&self, kind: BlockingKind) -> (r: bool)
        ensures
            r == match kind {
                BlockingKind::StateStore => self.state_store,
                BlockingKind::EventBus => self.event_bus,
            },
    {
        match kind {
            BlockingKind::StateStore => self.state_store,
            BlockingKind::EventBus => self.event_bus,
        }
    }
}

/// The capability name of an asynchronous kind.
pub open spec fn async_kind_text(kind: AsyncKind) -> Seq<char> {
    match kind {
        AsyncKind::Source => "source"@,
        AsyncKind::Transform => "transform"@,
        AsyncKind::Sink => "sink"@,
        AsyncKind::Trigger => "trigger"@,
    }
}

/// The capability name of an asynchronous kind.
pub fn async_kind_name(kind: AsyncKind) -> (r: &'static str)
    ensures
        r@ == async_kind_text(kind),
{
    match kind {
        AsyncKind::Source => "source",
        AsyncKind::Transform => "transform",
        AsyncKind::Sink => "sink",
        AsyncKind::Trigger => "trigger",
    }
}

/// The capability name of a blocking kind.
pub open spec fn blocking_kind_text(kind: BlockingKind) -> Seq<char> {
    match kind {
        BlockingKind::StateStore => "state_store"@,
        BlockingKind::EventBus => "event_bus"@,
    }
}

/// The capability name of a blocking kind.
pub fn blocking_kind_name(kind: BlockingKind) -> (r: &'static str)
    ensures
        r@ == blocking_kind_text(kind),
{
    match kind {
        BlockingKind::StateStore => "state_store",
        BlockingKind::EventBus => "event_bus",
    }
}

/// How to reach an extension serving one asynchronous component.
#[derive(Debug)]
pub struct AsyncSpec {
    pub extension_name: String,
    pub extension_version: String,
    pub protocol: String,
    pub command: String,
    pub cwd: Option<String>,
    pub args: Vec<String>,
    pub kind: AsyncKind,
    pub component_type: String,
}

impl Keyed for AsyncSpec {
    open spec fn key(&self) -> Seq<char> {
        self.component_type@
    }

    fn key_str(&self) -> (r: &str) {
        self.component_type.as_str()
    }
}

/// How to reach an extension serving one blocking component.
#[derive(Debug)]
pub struct BlockingSpec {
    pub extension_name: String,
    pub extension_version: String,
    pub protocol: String,
    pub command: String,
    pub cwd: Option<String>,
    pub args: Vec<String>,
    pub kind: BlockingKind,
    pub component_type: String,
}

impl Keyed for BlockingSpec {
    open spec fn key(&self) -> Seq<char> {
        self.component_type@
    }

    fn key_str(&self) -> (r: &str) {
        self.component_type.as_str()
    }
}

/// The registration name of a step: its kind, a colon and its type.
pub open spec fn reg_key(kind: ComponentKind, step_type: Seq<char>) -> Seq<char> {
    kind_name(kind) + ":"@ + step_type
}

/// A step implementation known to the registry; `spec` says how to reach
/// it when an extension serves it.
#[derive(Debug)]
pub struct RegisteredStep {
    pub kind: ComponentKind,
    pub step_type: String,
    pub spec: Option<AsyncSpec>,
}

/// Entry `e` registers `kind` and `step_type`.
pub open spec fn registers(e: RegisteredStep, kind: ComponentKind, step_type: Seq<char>) -> bool {
    e.kind == kind && e.step_type@ == step_type
}

/// The step implementations known to a flow: built-in ones and those
/// extensions serve.
#[derive(Debug)]
pub struct ComponentRegistry {
    pub steps: Vec<RegisteredStep>,
}

/// Whether some entry registers `kind` and `step_type`.
pub open spec fn is_registered(steps: Seq<RegisteredStep>, kind: ComponentKind, step_type: Seq<char>) -> bool {
    exists|i: int| 0 <= i < steps.len() && registers(#[trigger] steps[i], kind, step_type)
}

/// The entry registering `kind` and `step_type`, if any.
pub open spec fn registered(steps: Seq<RegisteredStep>, kind: ComponentKind, step_type: Seq<char>) -> Option<RegisteredStep> {
    if is_registered(steps, kind, step_type) {
        Some(steps[choose|i: int| 0 <= i < steps.len() && registers(#[trigger] steps[i], kind, step_type)])
    } else {
        None
    }
}

impl ComponentRegistry {
    /// One entry per kind and type.
    pub open spec fn wf(&self) -> bool {
        forall|i: int, j: int|
            0 <= i < self.steps@.len() && 0 <= j < self.steps@.len() && i != j ==> !registers(
                #[trigger] self.steps@[i],
                (#[trigger] self.steps@[j]).kind,
                self.steps@[j].step_type@,
            )
    }

    /// An empty registry.
    pub fn new() -> (r: ComponentRegistry)
        ensures
            r.wf(),
            r.steps@.len() == 0,
    {
        ComponentRegistry { steps: Vec::new() }
    }

    fn position(&self, kind: ComponentKind, step_type: &str) -> (r: Option<usize>)
        ensures
            match r {
                Some(i) => i < self.steps@.len() && registers(self.steps@[i as int], kind, step_type@),
                None => !is_registered(self.steps@, kind, step_type@),
            },
    {
        let mut i: usize = 0;
        while i < self.steps.len()
            invariant
                i <= self.steps@.len(),
                forall|j: int| 0 <= j < i ==> !registers(#[trigger] self.steps@[j], kind, step_type@),
            decreases self.steps.len() - i,
        {
            if self.steps[i].kind == kind && str_eq(self.steps[i].step_type.as_str(), step_type) {
                return Some(i);
            }
            i = i + 1;
        }
        None
    }

    /// Whether an implementation of `kind` and `step_type` is registered.
    pub fn contains(&self, kind: ComponentKind, step_type: &str) -> (r: bool)
        ensures
            r == is_registered(self.steps@, kind, step_type@),
    {
        self.position(kind, step_type).is_some()
    }

    /// Register an implementation, replacing one of the same kind and type.
    pub fn register(&mut self, kind: ComponentKind, step_type: String, spec: Option<AsyncSpec>)
        requires
            old(self).wf(),
        ensures
            final(self).wf(),
            registered(final(self).steps@, kind, step_type@) == Some(RegisteredStep { kind, step_type, spec }),
            forall|k: ComponentKind, t: Seq<char>|
                !(k == kind && t == step_type@) ==> #[trigger] registered(final(self).steps@, k, t) == registered(
                    old(self).steps@,
                    k,
                    t,
                ),
    {
        let ghost o = self.steps@;
        let ghost entry = RegisteredStep { kind, step_type, spec };
        let ghost t0 = step_type@;
        let pos = self.position(kind, step_type.as_str());
        match pos {
            Some(i) => {
                self.steps.set(i, RegisteredStep { kind, step_type, spec });
            },
            None => {
                self.steps.push(RegisteredStep { kind, step_type, spec });
            },
        }
        proof {
            let s = self.steps@;
            let idx: int = match pos {
                Some(i) => i as int,
                None => o.len() as int,
            };
            assert(s[idx] == entry);
            assert forall|a: int, b: int|
                0 <= a < s.len() && 0 <= b < s.len() && a != b implies !registers(#[trigger] s[a], (#[trigger] s[b]).kind, s[b].step_type@) by {
                if a != idx && b != idx {
                    assert(s[a] == o[a] && s[b] == o[b]);
                } else if a == idx {
                    assert(s[b] == o[b]);
                    if registers(o[b], kind, t0) {
                        if pos is Some {
                            assert(!registers(o[b], o[idx].kind, o[idx].step_type@));
                        }
                    }
                } else {
                    assert(s[a] == o[a]);
                    if pos is Some {
                        assert(!registers(o[a], o[idx].kind, o[idx].step_type@));
                    }
                }
            }
            assert forall|k: ComponentKind, t: Seq<char>| #[trigger] registered(s, k, t) == if k == kind && t == t0 {
                Some(entry)
            } else {
                registered(o, k, t)
            } by {
                if k == kind && t == t0 {
                    assert(registers(s[idx], k, t));
                    let c = choose|c: int| 0 <= c < s.len() && registers(#[trigger] s[c], k, t);
                    if c != idx {
                        assert(!registers(s[c], s[idx].kind, s[idx].step_type@));
                    }
                } else {
                    if is_registered(o, k, t) {
                        let c = choose|c: int| 0 <= c < o.len() && registers(#[trigger] o[c], k, t);
                        assert(c != idx);
                        assert(registers(s[c], k, t));
                        let d = choose|d: int| 0 <= d < s.len() && registers(#[trigger] s[d], k, t);
                        assert(d != idx);
                        if d != c {
                            assert(!registers(o[d], o[c].kind, o[c].step_type@));
                        }
                    }
                    if is_registered(s, k, t) {
                        let d = choose|d: int| 0 <= d < s.len() && registers(#[trigger] s[d], k, t);
                        assert(d != idx);
                        assert(registers(o[d], k, t));
                    }
                }
            }
        }
    }
}

/// Why a manifest cannot be loaded.
#[derive(Debug)]
pub enum ManifestError {
    BuiltinOutsideTrusted { name: String },
    UnsupportedProtocol { name: String, protocol: String },
    NoRegistrations { name: String },
    ReservedPrefix { registration: String },
    DuplicateStep { name: String, kind: ComponentKind, step_type: String },
    ExistingStep { name: String, kind: ComponentKind, step_type: String },
    DuplicateNamed { name: String, label: String, component_type: String },
    ExistingNamed { name: String, label: String, component_type: String },
    ControlStep { name: String, step_type: String },
}

/// The mathematical content of a [`ManifestError`].
pub ghost enum ManifestErrorView {
    BuiltinOutsideTrusted { name: Seq<char> },
    UnsupportedProtocol { name: Seq<char>, protocol: Seq<char> },
    NoRegistrations { name: Seq<char> },
    ReservedPrefix { registration: Seq<char> },
    DuplicateStep { name: Seq<char>, kind: ComponentKind, step_type: Seq<char> },
    ExistingStep { name: Seq<char>, kind: ComponentKind, step_type: Seq<char> },
    DuplicateNamed { name: Seq<char>, label: Seq<char>, component_type: Seq<char> },
    ExistingNamed { name: Seq<char>, label: Seq<char>, component_type: Seq<char> },
    ControlStep { name: Seq<char>, step_type: Seq<char> },
}

impl View for ManifestError {
    type V = ManifestErrorView;

    open spec fn view(&self) -> ManifestErrorView {
        match self {
            ManifestError::BuiltinOutsideTrusted { name } => ManifestErrorView::BuiltinOutsideTrusted { name: name@ },
            ManifestError::UnsupportedProtocol { name, protocol } => ManifestErrorView::UnsupportedProtocol {
                name: name@,
                protocol: protocol@,
            },
            ManifestError::NoRegistrations { name } => ManifestErrorView::NoRegistrations { name: name@ },
            ManifestError::ReservedPrefix { registration } => ManifestErrorView::ReservedPrefix { registration: registration@ },
            ManifestError::DuplicateStep { name, kind, step_type } => ManifestErrorView::DuplicateStep {
                name: name@,
                kind: *kind,
                step_type: step_type@,
            },
            ManifestError::ExistingStep { name, kind, step_type } => ManifestErrorView::ExistingStep {
                name: name@,
                kind: *kind,
                step_type: step_type@,
            },
            ManifestError::DuplicateNamed { name, label, component_type } => ManifestErrorView::DuplicateNamed {
                name: name@,
                label: label@,
                component_type: component_type@,
            },
            ManifestError::ExistingNamed { name, label, component_type } => ManifestErrorView::ExistingNamed {
                name: name@,
                label: label@,
                component_type: component_type@,
            },
            ManifestError::ControlStep { name, step_type } => ManifestErrorView::ControlStep {
                name: name@,
                step_type: step_type@,
            },
        }
    }
}

/// The text of a manifest error.
pub open spec fn manifest_error_text(e: ManifestErrorView) -> Seq<char> {
    match e {
        ManifestErrorView::BuiltinOutsideTrusted { name } => "extension '"@ + name
            + "' declares builtin=true outside Sohara's trusted builtin path"@,
        ManifestErrorView::UnsupportedProtocol { name, protocol } => "extension '"@ + name
            + "' uses unsupported protocol '"@ + protocol + "'; expected '"@ + protocol_name() + "'"@,
        ManifestErrorView::NoRegistrations { name } => "extension '"@ + name + "' must declare at least one registration"@,
        ManifestErrorView::ReservedPrefix { registration } => "registration '"@ + registration
            + "' is reserved for Sohara builtin extensions"@,
        ManifestErrorView::DuplicateStep { name, kind, step_type } => "extension '"@ + name + "' declares duplicate kind='"@
            + kind_name(kind) + "' type='"@ + step_type + "'"@,
        ManifestErrorView::ExistingStep { name, kind, step_type } => "extension '"@ + name
            + "' duplicates existing registration for kind='"@ + kind_name(kind) + "' type='"@ + step_type + "'"@,
        ManifestErrorView::DuplicateNamed { name, label, component_type } => "extension '"@ + name + "' declares duplicate "@
            + label + " type='"@ + component_type + "'"@,
        ManifestErrorView::ExistingNamed { name, label, component_type } => "extension '"@ + name + "' duplicates existing "@
            + label + " type='"@ + component_type + "'"@,
        ManifestErrorView::ControlStep { name, step_type } => "extension '"@ + name + "' step '"@ + step_type
            + "': control steps are not supported in the stdio host"@,
    }
}

impl ManifestError {
    /// The human-readable text of the error.
    pub fn message(&self) -> (r: String)
        ensures
            r@ == manifest_error_text(self@),
    {
        match self {
            ManifestError::BuiltinOutsideTrusted { name } => concat3(
                "extension '",
                name.as_str(),
                "' declares builtin=true outside Sohara's trusted builtin path",
            ),
            ManifestError::UnsupportedProtocol { name, protocol } => {
                let mut r = concat5("extension '", name.as_str(), "' uses unsupported protocol '", protocol.as_str(), "'; expected '");
                r.append("sohara.stdio/v1");
                r.append("'");
                r
            },
            ManifestError::NoRegistrations { name } => concat3(
                "extension '",
                name.as_str(),
                "' must declare at least one registration",
            ),
            ManifestError::ReservedPrefix { registration } => concat3(
                "registration '",
                registration.as_str(),
                "' is reserved for Sohara builtin extensions",
            ),
            ManifestError::DuplicateStep { name, kind, step_type } => {
                let mut r = concat5("extension '", name.as_str(), "' declares duplicate kind='", kind.as_str(), "' type='");
                r.append(step_type.as_str());
                r.append("'");
                r
            },
            ManifestError::ExistingStep { name, kind, step_type } => {
                let mut r = concat5(
                    "extension '",
                    name.as_str(),
                    "' duplicates existing registration for kind='",
                    kind.as_str(),
                    "' type='",
                );
                r.append(step_type.as_str());
                r.append("'");
                r
            },
            ManifestError::DuplicateNamed { name, label, component_type } => {
                let mut r = concat5("extension '", name.as_str(), "' declares duplicate ", label.as_str(), " type='");
                r.append(component_type.as_str());
                r.append("'");
                r
            },
            ManifestError::ExistingNamed { name, label, component_type } => {
                let mut r = concat5("extension '", name.as_str(), "' duplicates existing ", label.as_str(), " type='");
                r.append(component_type.as_str());
                r.append("'");
                r
            },
            ManifestError::ControlStep { name, step_type } => {
                let mut r = concat5(
                    "extension '",
                    name.as_str(),
                    "' step '",
                    step_type.as_str(),
                    "': control steps are not supported in the stdio host",
                );
                r
            },
        }
    }
}

/// The registration names of a manifest: its steps (`kind:type`), then its
/// triggers, state stores and event buses (`trigger:type` and so on).
pub open spec fn registrations_of(m: StdioExtensionManifest) -> Seq<Seq<char>> {
    m.steps@.map_values(|s: StepRegistration| reg_key(s.kind, s.step_type@)) + m.triggers@.map_values(
        |t: NamedRegistration| "trigger:"@ + t.component_type@,
    ) + m.state_stores@.map_values(|t: NamedRegistration| "state_store:"@ + t.component_type@)
        + m.event_buses@.map_values(|t: NamedRegistration| "event_bus:"@ + t.component_type@)
}

fn push_named(out: &mut Vec<String>, prefix: &str, regs: &Vec<NamedRegistration>)
    ensures
        final(out)@.len() == old(out)@.len() + regs@.len(),
        forall|i: int| 0 <= i < old(out)@.len() ==> #[trigger] final(out)@[i] == old(out)@[i],
        forall|i: int|
            0 <= i < regs@.len() ==> #[trigger] final(out)@[old(out)@.len() + i]@ == prefix@ + regs@[i].component_type@,
{
    let mut i: usize = 0;
    while i < regs.len()
        invariant
            i <= regs@.len(),
            out@.len() == old(out)@.len() + i,
            forall|q: int| 0 <= q < old(out)@.len() ==> #[trigger] out@[q] == old(out)@[q],
            forall|q: int| 0 <= q < i ==> #[trigger] out@[old(out)@.len() + q]@ == prefix@ + regs@[q].component_type@,
        decreases regs.len() - i,
    {
        out.push(concat2(prefix, regs[i].component_type.as_str()));
        i = i + 1;
    }
}

/// The registration names of a manifest.
pub fn manifest_registrations(m: &StdioExtensionManifest) -> (r: Vec<String>)
    ensures
        r@.len() == registrations_of(*m).len(),
        forall|i: int| 0 <= i < r@.len() ==> (#[trigger] r@[i])@ == registrations_of(*m)[i],
{
    let mut out: Vec<String> = Vec::new();
    let mut i: usize = 0;
    while i < m.steps.len()
        invariant
            i <= m.steps@.len(),
            out@.len() == i,
            forall|q: int| 0 <= q < i ==> (#[trigger] out@[q])@ == reg_key(m.steps@[q].kind, m.steps@[q].step_type@),
        decreases m.steps.len() - i,
    {
        out.push(concat3(m.steps[i].kind.as_str(), ":", m.steps[i].step_type.as_str()));
        i = i + 1;
    }
    push_named(&mut out, "trigger:", &m.triggers);
    push_named(&mut out, "state_store:", &m.state_stores);
    push_named(&mut out, "event_bus:", &m.event_buses);
    proof {
        let regs = registrations_of(*m);
        let a = m.steps@.len() as int;
        let b = a + m.triggers@.len();
        let c = b + m.state_stores@.len();
        assert forall|q: int| 0 <= q < out@.len() implies (#[trigger] out@[q])@ == regs[q] by {
            if q < a {
            } else if q < b {
                assert(out@[a + (q - a)]@ == "trigger:"@ + m.triggers@[q - a].component_type@);
            } else if q < c {
                assert(out@[b + (q - b)]@ == "state_store:"@ + m.state_stores@[q - b].component_type@);
            } else {
                assert(out@[c + (q - c)]@ == "event_bus:"@ + m.event_buses@[q - c].component_type@);
            }
        }
    }
    out
}

/// The part of a registration name after its last colon.
pub open spec fn last_segment(s: Seq<char>) -> Seq<char>
    decreases s.len(),
{
    if s.len() == 0 {
        s
    } else if s.last() == ':' {
        Seq::empty()
    } else {
        last_segment(s.drop_last()).push(s.last())
    }
}

/// A registration whose last segment claims the builtin prefix.
pub open spec fn is_reserved(reg: Seq<char>) -> bool {
    seq_starts_with(last_segment(reg), "builtin-"@)
}

/// The first registration that claims the builtin prefix.
pub open spec fn first_reserved(regs: Seq<Seq<char>>) -> Option<Seq<char>>
    decreases regs.len(),
{
    if regs.len() == 0 {
        None
    } else if is_reserved(regs[0]) {
        Some(regs[0])
    } else {
        first_reserved(regs.drop_first())
    }
}

/// The part of `s` after its last colon (all of it without a colon).
pub fn segment_after_last_colon(s: &str) -> (r: String)
    ensures
        r@ == last_segment(s@),
{
    let n = s.unicode_len();
    let mut start: usize = 0;
    let mut i: usize = 0;
    assert(s@.subrange(0, 0) =~= Seq::<char>::empty());
    while i < n
        invariant
            n == s@.len(),
            start <= i <= n,
            last_segment(s@.subrange(0, i as int)) == s@.subrange(start as int, i as int),
        decreases n - i,
    {
        let c = s.get_char(i);
        assert(s@.subrange(0, i + 1).drop_last() =~= s@.subrange(0, i as int));
        if c == ':' {
            start = i + 1;
            assert(s@.subrange(start as int, i + 1) =~= Seq::<char>::empty());
        } else {
            assert(s@.subrange(start as int, i + 1) =~= s@.subrange(start as int, i as int).push(c));
        }
        i = i + 1;
    }
    assert(s@.subrange(0, n as int) =~= s@);
    s.substring_char(start, n).to_owned()
}

/// Check that only a trusted builtin manifest claims the builtin prefix.
pub fn validate_builtin_prefixes(m: &StdioExtensionManifest, trusted: bool) -> (r: Result<(), ManifestError>)
    ensures
        match first_reserved(registrations_of(*m)) {
            Some(reg) => if !trusted || !m.builtin {
                r matches Err(e) && e@ == ManifestErrorView::ReservedPrefix { registration: reg }
            } else {
                r is Ok
            },
            None => r is Ok,
        },
{
    let regs = manifest_registrations(m);
    let ghost all = registrations_of(*m);
    let mut i: usize = 0;
    assert(all.subrange(0, all.len() as int) =~= all);
    while i < regs.len()
        invariant
            i <= regs@.len(),
            all == registrations_of(*m),
            regs@.len() == all.len(),
            forall|q: int| 0 <= q < regs@.len() ==> (#[trigger] regs@[q])@ == all[q],
            first_reserved(all) == first_reserved(all.subrange(i as int, all.len() as int)),
        decreases regs.len() - i,
    {
        let ghost rest = all.subrange(i as int, all.len() as int);
        assert(rest[0] == all[i as int]);
        let seg = segment_after_last_colon(regs[i].as_str());
        if starts_with(seg.as_str(), "builtin-") {
            assert(is_reserved(all[i as int]));
            if !trusted || !m.builtin {
                let reg = regs[i].clone();
                assert(reg@ == all[i as int]);
                assert(first_reserved(rest) == Some(all[i as int]));
                assert(first_reserved(registrations_of(*m)) == Some(reg@));
                let e = ManifestError::ReservedPrefix { registration: reg };
                assert(e@ == ManifestErrorView::ReservedPrefix { registration: reg@ });
                return Err(e);
            }
            return Ok(());
        }
        assert(rest.drop_first() =~= all.subrange(i + 1, all.len() as int));
        i = i + 1;
    }
    Ok(())
}

/// The first problem among the manifest's steps from position `i` on: a
/// step declared twice, or one the registry already has.
pub open spec fn step_problem(m: StdioExtensionManifest, reg: Seq<RegisteredStep>, i: int) -> Option<ManifestErrorView>
    decreases m.steps@.len() - i,
{
    if i < 0 || i >= m.steps@.len() {
        None
    } else {
        let s = m.steps@[i];
        if exists|j: int| 0 <= j < i && (#[trigger] m.steps@[j]).kind == s.kind && m.steps@[j].step_type@ == s.step_type@ {
            Some(ManifestErrorView::DuplicateStep { name: m.name@, kind: s.kind, step_type: s.step_type@ })
        } else if is_registered(reg, s.kind, s.step_type@) {
            Some(ManifestErrorView::ExistingStep { name: m.name@, kind: s.kind, step_type: s.step_type@ })
        } else {
            step_problem(m, reg, i + 1)
        }
    }
}

/// The first problem among named registrations from position `i` on: a
/// type declared twice, or one the host already has.
pub open spec fn named_problem<T: Keyed>(
    name: Seq<char>,
    label: Seq<char>,
    regs: Seq<NamedRegistration>,
    table: Seq<T>,
    i: int,
) -> Option<ManifestErrorView>
    decreases regs.len() - i,
{
    if i < 0 || i >= regs.len() {
        None
    } else {
        let t = regs[i].component_type@;
        if exists|j: int| 0 <= j < i && (#[trigger] regs[j]).component_type@ == t {
            Some(ManifestErrorView::DuplicateNamed { name, label, component_type: t })
        } else if has_key(table, t) {
            Some(ManifestErrorView::ExistingNamed { name, label, component_type: t })
        } else {
            named_problem(name, label, regs, table, i + 1)
        }
    }
}

/// One loaded extension manifest.
#[derive(Debug)]
pub struct LoadedExtension {
    pub name: String,
    pub version: String,
    pub registrations: Vec<String>,
}

/// Host-side registry of loaded stdio extensions beyond step factories.
#[derive(Debug)]
pub struct StdioExtensionHost {
    pub loaded: Vec<LoadedExtension>,
    /// One spec per trigger type.
    pub triggers: Vec<AsyncSpec>,
    /// One spec per state store type.
    pub state_stores: Vec<BlockingSpec>,
    /// One spec per event bus type.
    pub event_buses: Vec<BlockingSpec>,
}

impl StdioExtensionHost {
    /// One spec per type in each table.
    pub open spec fn wf(&self) -> bool {
        &&& unique_keys(self.triggers@)
        &&& unique_keys(self.state_stores@)
        &&& unique_keys(self.event_buses@)
    }

    /// A host with nothing loaded.
    pub fn new() -> (r: StdioExtensionHost)
        ensures
            r.wf(),
            r.loaded@.len() == 0,
            r.triggers@.len() == 0,
            r.state_stores@.len() == 0,
            r.event_buses@.len() == 0,
    {
        StdioExtensionHost { loaded: Vec::new(), triggers: Vec::new(), state_stores: Vec::new(), event_buses: Vec::new() }
    }

    /// The loaded manifests, in load order.
    pub fn loaded(&self) -> (r: &Vec<LoadedExtension>)
        ensures
            r == &self.loaded,
    {
        &self.loaded
    }
}

/// Why a manifest cannot be loaded, checked in this order: a builtin claim
/// outside the trusted path, an unsupported protocol, no registrations, a
/// reserved registration name, then duplicated or already known steps,
/// triggers, state stores and event buses.
pub open spec fn manifest_problem(
    m: StdioExtensionManifest,
    reg: Seq<RegisteredStep>,
    host: StdioExtensionHost,
    trusted: bool,
) -> Option<ManifestErrorView> {
    if m.builtin && !trusted {
        Some(ManifestErrorView::BuiltinOutsideTrusted { name: m.name@ })
    } else if m.protocol@ != protocol_name() {
        Some(ManifestErrorView::UnsupportedProtocol { name: m.name@, protocol: m.protocol@ })
    } else if m.steps@.len() == 0 && m.triggers@.len() == 0 && m.state_stores@.len() == 0 && m.event_buses@.len() == 0 {
        Some(ManifestErrorView::NoRegistrations { name: m.name@ })
    } else if first_reserved(registrations_of(m)) is Some && (!trusted || !m.builtin) {
        Some(ManifestErrorView::ReservedPrefix { registration: first_reserved(registrations_of(m))->0 })
    } else {
        match step_problem(m, reg, 0) {
            Some(e) => Some(e),
            None => match named_problem(m.name@, "trigger"@, m.triggers@, host.triggers@, 0) {
                Some(e) => Some(e),
                None => match named_problem(m.name@, "state_store"@, m.state_stores@, host.state_stores@, 0) {
                    Some(e) => Some(e),
                    None => named_problem(m.name@, "event_bus"@, m.event_buses@, host.event_buses@, 0),
                },
            },
        }
    }
}

fn validate_steps(m: &StdioExtensionManifest, registry: &ComponentRegistry) -> (r: Result<(), ManifestError>)
    ensures
        match step_problem(*m, registry.steps@, 0) {
            Some(e) => r matches Err(x) && x@ == e,
            None => r is Ok,
        },
{
    let mut i: usize = 0;
    while i < m.steps.len()
        invariant
            i <= m.steps@.len(),
            step_problem(*m, registry.steps@, 0) == step_problem(*m, registry.steps@, i as int),
        decreases m.steps.len() - i,
    {
        let s = &m.steps[i];
        let mut j: usize = 0;
        while j < i
            invariant
                j <= i < m.steps@.len(),
                *s == m.steps@[i as int],
                step_problem(*m, registry.steps@, 0) == step_problem(*m, registry.steps@, i as int),
                forall|q: int| 0 <= q < j ==> !((#[trigger] m.steps@[q]).kind == s.kind && m.steps@[q].step_type@ == s.step_type@),
            decreases i - j,
        {
            if m.steps[j].kind == s.kind && str_eq(m.steps[j].step_type.as_str(), s.step_type.as_str()) {
                assert(m.steps@[j as int].kind == s.kind && m.steps@[j as int].step_type@ == s.step_type@);
                return Err(ManifestError::DuplicateStep { name: m.name.clone(), kind: s.kind, step_type: s.step_type.clone() });
            }
            j = j + 1;
        }
        if registry.contains(s.kind, s.step_type.as_str()) {
            return Err(ManifestError::ExistingStep { name: m.name.clone(), kind: s.kind, step_type: s.step_type.clone() });
        }
        i = i + 1;
    }
    Ok(())
}

fn validate_named<T: Keyed>(name: &String, label: &str, regs: &Vec<NamedRegistration>, table: &Vec<T>) -> (r: Result<(), ManifestError>)
    ensures
        match named_problem(name@, label@, regs@, table@, 0) {
            Some(e) => r matches Err(x) && x@ == e,
            None => r is Ok,
        },
{
    let mut i: usize = 0;
    while i < regs.len()
        invariant
            i <= regs@.len(),
            named_problem(name@, label@, regs@, table@, 0) == named_problem(name@, label@, regs@, table@, i as int),
        decreases regs.len() - i,
    {
        let t = &regs[i].component_type;
        let mut j: usize = 0;
        while j < i
            invariant
                j <= i < regs@.len(),
                *t == regs@[i as int].component_type,
                named_problem(name@, label@, regs@, table@, 0) == named_problem(name@, label@, regs@, table@, i as int),
                forall|q: int| 0 <= q < j ==> (#[trigger] regs@[q]).component_type@ != t@,
            decreases i - j,
        {
            if str_eq(regs[j].component_type.as_str(), t.as_str()) {
                assert(regs@[j as int].component_type@ == t@);
                return Err(ManifestError::DuplicateNamed { name: name.clone(), label: label.to_owned(), component_type: t.clone() });
            }
            j = j + 1;
        }
        if find_key(table, t.as_str()).is_some() {
            return Err(ManifestError::ExistingNamed { name: name.clone(), label: label.to_owned(), component_type: t.clone() });
        }
        i = i + 1;
    }
    Ok(())
}

/// Check a manifest before registering it.
pub fn validate_manifest(
    m: &StdioExtensionManifest,
    registry: &ComponentRegistry,
    host: &StdioExtensionHost,
    trusted: bool,
) -> (r: Result<(), ManifestError>)
    ensures
        match manifest_problem(*m, registry.steps@, *host, trusted) {
            Some(e) => r matches Err(x) && x@ == e,
            None => r is Ok,
        },
{
    if m.builtin && !trusted {
        return Err(ManifestError::BuiltinOutsideTrusted { name: m.name.clone() });
    }
    if !str_eq(m.protocol.as_str(), "sohara.stdio/v1") {
        return Err(ManifestError::UnsupportedProtocol { name: m.name.clone(), protocol: m.protocol.clone() });
    }
    if m.steps.len() == 0 && m.triggers.len() == 0 && m.state_stores.len() == 0 && m.event_buses.len() == 0 {
        return Err(ManifestError::NoRegistrations { name: m.name.clone() });
    }
    match validate_builtin_prefixes(m, trusted) {
        Err(e) => return Err(e),
        Ok(()) => {},
    }
    match validate_steps(m, registry) {
        Err(e) => return Err(e),
        Ok(()) => {},
    }
    match validate_named(&m.name, "trigger", &m.triggers, &host.triggers) {
        Err(e) => return Err(e),
        Ok(()) => {},
    }
    match validate_named(&m.name, "state_store", &m.state_stores, &host.state_stores) {
        Err(e) => return Err(e),
        Ok(()) => {},
    }
    validate_named(&m.name, "event_bus", &m.event_buses, &host.event_buses)
}

/// Where a manifest's command (or working directory) points: an absolute
/// or single-component path is kept; any other path is taken relative to
/// the manifest's directory.
pub open spec fn resolved_path(manifest_path: Seq<char>, command: Seq<char>) -> Seq<char> {
    if path_is_absolute(command) || path_component_count(command) == 1 {
        command
    } else {
        path_join(
            match path_parent(manifest_path) {
                Some(p) => p,
                None => "."@,
            },
            command,
        )
    }
}

/// Resolve a manifest's command against the manifest's own path.
pub fn resolve_command(manifest_path: &str, command: &str) -> (r: String)
    ensures
        r@ == resolved_path(manifest_path@, command@),
{
    if is_absolute(command) || component_count(command) == 1 {
        return command.to_owned();
    }
    match parent(manifest_path) {
        Some(p) => join(p.as_str(), command),
        None => join(".", command),
    }
}

/// The view of an optional string.
pub open spec fn opt_text(o: Option<String>) -> Option<Seq<char>> {
    match o {
        Some(s) => Some(s@),
        None => None,
    }
}

/// The working directory an extension runs in.
pub open spec fn resolved_cwd(m: StdioExtensionManifest, manifest_path: Seq<char>) -> Option<Seq<char>> {
    match m.cwd {
        Some(c) => Some(resolved_path(manifest_path, c@)),
        None => None,
    }
}

/// `spec` reaches the manifest's extension for a component of `kind` and
/// type `t`.
pub open spec fn serves(
    spec: AsyncSpec,
    m: StdioExtensionManifest,
    manifest_path: Seq<char>,
    kind: AsyncKind,
    t: Seq<char>,
) -> bool {
    &&& spec.extension_name == m.name
    &&& spec.extension_version == m.version
    &&& spec.protocol == m.protocol
    &&& spec.command@ == resolved_path(manifest_path, m.command@)
    &&& opt_text(spec.cwd) == resolved_cwd(m, manifest_path)
    &&& spec.args@ == m.args@
    &&& spec.kind == kind
    &&& spec.component_type@ == t
}

/// `spec` reaches the manifest's extension for a blocking component.
pub open spec fn serves_blocking(
    spec: BlockingSpec,
    m: StdioExtensionManifest,
    manifest_path: Seq<char>,
    kind: BlockingKind,
    t: Seq<char>,
) -> bool {
    &&& spec.extension_name == m.name
    &&& spec.extension_version == m.version
    &&& spec.protocol == m.protocol
    &&& spec.command@ == resolved_path(manifest_path, m.command@)
    &&& opt_text(spec.cwd) == resolved_cwd(m, manifest_path)
    &&& spec.args@ == m.args@
    &&& spec.kind == kind
    &&& spec.component_type@ == t
}

/// The asynchronous kind a step kind is served as.
pub open spec fn async_of(k: ComponentKind) -> AsyncKind {
    match k {
        ComponentKind::Source => AsyncKind::Source,
        ComponentKind::Transform => AsyncKind::Transform,
        _ => AsyncKind::Sink,
    }
}

/// The position of the first control step, if any.
pub open spec fn first_control(steps: Seq<StepRegistration>) -> Option<int> {
    if exists|i: int| 0 <= i < steps.len() && (#[trigger] steps[i]).kind == ComponentKind::Control {
        Some(choose|i: int| 0 <= i < steps.len() && (#[trigger] steps[i]).kind == ComponentKind::Control
            && forall|j: int| 0 <= j < i ==> (#[trigger] steps[j]).kind != ComponentKind::Control)
    } else {
        None
    }
}

fn async_spec(m: &StdioExtensionManifest, command: &String, cwd: &Option<String>, kind: AsyncKind, t: &String) -> (r: AsyncSpec)
    ensures
        r.extension_name == m.name,
        r.extension_version == m.version,
        r.protocol == m.protocol,
        r.command == *command,
        r.cwd == *cwd,
        r.args@ == m.args@,
        r.kind == kind,
        r.component_type == *t,
{
    AsyncSpec {
        extension_name: m.name.clone(),
        extension_version: m.version.clone(),
        protocol: m.protocol.clone(),
        command: command.clone(),
        cwd: dup_opt(cwd),
        args: dup_strings(&m.args),
        kind,
        component_type: t.clone(),
    }
}

fn blocking_spec(m: &StdioExtensionManifest, command: &String, cwd: &Option<String>, kind: BlockingKind, t: &String) -> (r: BlockingSpec)
    ensures
        r.extension_name == m.name,
        r.extension_version == m.version,
        r.protocol == m.protocol,
        r.command == *command,
        r.cwd == *cwd,
        r.args@ == m.args@,
        r.kind == kind,
        r.component_type == *t,
{
    BlockingSpec {
        extension_name: m.name.clone(),
        extension_version: m.version.clone(),
        protocol: m.protocol.clone(),
        command: command.clone(),
        cwd: dup_opt(cwd),
        args: dup_strings(&m.args),
        kind,
        component_type: t.clone(),
    }
}

/// The table holds, under `t`, a spec reaching the manifest's extension.
pub open spec fn blocking_entry(table: Seq<BlockingSpec>, m: StdioExtensionManifest, path: Seq<char>, kind: BlockingKind, t: Seq<char>) -> bool {
    match lookup(table, t) {
        Some(sp) => serves_blocking(sp, m, path, kind, t),
        None => false,
    }
}

/// The table holds, under `t`, a spec reaching the manifest's extension.
pub open spec fn async_entry(table: Seq<AsyncSpec>, m: StdioExtensionManifest, path: Seq<char>, kind: AsyncKind, t: Seq<char>) -> bool {
    match lookup(table, t) {
        Some(sp) => serves(sp, m, path, kind, t),
        None => false,
    }
}

/// The registry holds, for `kind` and `t`, a spec reaching the manifest's
/// extension.
pub open spec fn step_entry(steps: Seq<RegisteredStep>, m: StdioExtensionManifest, path: Seq<char>, kind: ComponentKind, t: Seq<char>) -> bool {
    match registered(steps, kind, t) {
        Some(e) => match e.spec {
            Some(sp) => serves(sp, m, path, async_of(kind), t),
            None => false,
        },
        None => false,
    }
}

/// Register the blocking components of `regs` into `table`.
fn register_blocking(
    table: &mut Vec<BlockingSpec>,
    m: &StdioExtensionManifest,
    manifest_path: &str,
    command: &String,
    cwd: &Option<String>,
    kind: BlockingKind,
    regs: &Vec<NamedRegistration>,
)
    requires
        unique_keys(old(table)@),
        command@ == resolved_path(manifest_path@, m.command@),
        opt_text(*cwd) == resolved_cwd(*m, manifest_path@),
    ensures
        unique_keys(final(table)@),
        forall|i: int|
            0 <= i < regs@.len() ==> blocking_entry(final(table)@, *m, manifest_path@, kind, (#[trigger] regs@[i]).component_type@),
        forall|k: Seq<char>|
            !(exists|i: int| 0 <= i < regs@.len() && (#[trigger] regs@[i]).component_type@ == k) ==> #[trigger] lookup(
                final(table)@,
                k,
            ) == lookup(old(table)@, k),
{
    let mut i: usize = 0;
    while i < regs.len()
        invariant
            i <= regs@.len(),
            unique_keys(table@),
            command@ == resolved_path(manifest_path@, m.command@),
            opt_text(*cwd) == resolved_cwd(*m, manifest_path@),
            forall|q: int|
                0 <= q < i ==> blocking_entry(table@, *m, manifest_path@, kind, (#[trigger] regs@[q]).component_type@),
            forall|k: Seq<char>|
                !(exists|q: int| 0 <= q < i && (#[trigger] regs@[q]).component_type@ == k) ==> #[trigger] lookup(table@, k)
                    == lookup(old(table)@, k),
        decreases regs.len() - i,
    {
        let sp = blocking_spec(m, command, cwd, kind, &regs[i].component_type);
        upsert(table, sp);
        proof {
            assert forall|k: Seq<char>| !(exists|q: int| 0 <= q < i + 1 && (#[trigger] regs@[q]).component_type@ == k) implies #[trigger] lookup(table@, k)
                == lookup(old(table)@, k) by {
                assert(regs@[i as int].component_type@ != k);
            }
        }
        i = i + 1;
    }
}

/// Register a validated manifest: its steps into the registry, its
/// triggers, state stores and event buses into the host, and the manifest
/// into the host's list. A control step stops the registration with an
/// error; the steps before it stay registered.
pub fn register_manifest(
    registry: &mut ComponentRegistry,
    host: &mut StdioExtensionHost,
    m: &StdioExtensionManifest,
    manifest_path: &str,
) -> (r: Result<(), ManifestError>)
    requires
        old(registry).wf(),
        old(host).wf(),
    ensures
        final(registry).wf(),
        final(host).wf(),
        forall|i: int|
            0 <= i < m.steps@.len() && (match first_control(m.steps@) {
                Some(c) => i < c,
                None => true,
            }) ==> step_entry(final(registry).steps@, *m, manifest_path@, (#[trigger] m.steps@[i]).kind, m.steps@[i].step_type@),
        forall|k: ComponentKind, t: Seq<char>|
            !(exists|i: int| 0 <= i < m.steps@.len() && registers_step(#[trigger] m.steps@[i], k, t)) ==> #[trigger] registered(
                final(registry).steps@,
                k,
                t,
            ) == registered(old(registry).steps@, k, t),
        match first_control(m.steps@) {
            Some(c) => {
                &&& r matches Err(e) && e@ == ManifestErrorView::ControlStep { name: m.name@, step_type: m.steps@[c].step_type@ }
                &&& *final(host) == *old(host)
            },
            None => {
                &&& r is Ok
                &&& forall|i: int|
                    0 <= i < m.triggers@.len() ==> async_entry(final(host).triggers@, *m, manifest_path@, AsyncKind::Trigger, (#[trigger] m.triggers@[i]).component_type@)
                &&& forall|i: int|
                    0 <= i < m.state_stores@.len() ==> blocking_entry(final(host).state_stores@, *m, manifest_path@, BlockingKind::StateStore, (#[trigger] m.state_stores@[i]).component_type@)
                &&& forall|i: int|
                    0 <= i < m.event_buses@.len() ==> blocking_entry(final(host).event_buses@, *m, manifest_path@, BlockingKind::EventBus, (#[trigger] m.event_buses@[i]).component_type@)
                &&& forall|t: Seq<char>|
                    !(exists|i: int| 0 <= i < m.triggers@.len() && (#[trigger] m.triggers@[i]).component_type@ == t)
                        ==> #[trigger] lookup(final(host).triggers@, t) == lookup(old(host).triggers@, t)
                &&& forall|t: Seq<char>|
                    !(exists|i: int| 0 <= i < m.state_stores@.len() && (#[trigger] m.state_stores@[i]).component_type@ == t)
                        ==> #[trigger] lookup(final(host).state_stores@, t) == lookup(old(host).state_stores@, t)
                &&& forall|t: Seq<char>|
                    !(exists|i: int| 0 <= i < m.event_buses@.len() && (#[trigger] m.event_buses@[i]).component_type@ == t)
                        ==> #[trigger] lookup(final(host).event_buses@, t) == lookup(old(host).event_buses@, t)
                &&& final(host).loaded@.len() == old(host).loaded@.len() + 1
                &&& final(host).loaded@.drop_last() == old(host).loaded@
                &&& final(host).loaded@.last().name == m.name
                &&& final(host).loaded@.last().version == m.version
                &&& final(host).loaded@.last().registrations@.len() == registrations_of(*m).len()
                &&& forall|i: int|
                    0 <= i < registrations_of(*m).len() ==> (#[trigger] final(host).loaded@.last().registrations@[i])@
                        == registrations_of(*m)[i]
            },
        },
{
    let command = resolve_command(manifest_path, m.command.as_str());
    let cwd = match &m.cwd {
        Some(c) => Some(resolve_command(manifest_path, c.as_str())),
        None => None,
    };
    let mut i: usize = 0;
    while i < m.steps.len()
        invariant
            i <= m.steps@.len(),
            registry.wf(),
            command@ == resolved_path(manifest_path@, m.command@),
            opt_text(cwd) == resolved_cwd(*m, manifest_path@),
            forall|q: int| 0 <= q < i ==> (#[trigger] m.steps@[q]).kind != ComponentKind::Control,
            forall|q: int|
                0 <= q < i ==> step_entry(registry.steps@, *m, manifest_path@, (#[trigger] m.steps@[q]).kind, m.steps@[q].step_type@),
            forall|k: ComponentKind, t: Seq<char>|
                !(exists|q: int| 0 <= q < i && registers_step(#[trigger] m.steps@[q], k, t)) ==> #[trigger] registered(
                    registry.steps@,
                    k,
                    t,
                ) == registered(old(registry).steps@, k, t),
            *host == *old(host),
            host.wf(),
        decreases m.steps.len() - i,
    {
        let step = &m.steps[i];
        let kind = match step.kind {
            ComponentKind::Source => AsyncKind::Source,
            ComponentKind::Transform => AsyncKind::Transform,
            ComponentKind::Sink => AsyncKind::Sink,
            ComponentKind::Control => {
                proof {
                    let c = first_control(m.steps@);
                    assert(m.steps@[i as int].kind == ComponentKind::Control);
                    let w = choose|w: int| 0 <= w < m.steps@.len() && (#[trigger] m.steps@[w]).kind == ComponentKind::Control
                        && forall|j: int| 0 <= j < w ==> (#[trigger] m.steps@[j]).kind != ComponentKind::Control;
                    assert(w == i) by {
                        if w < i {
                            assert(m.steps@[w].kind != ComponentKind::Control);
                        } else if w > i {
                            assert(m.steps@[i as int].kind != ComponentKind::Control);
                        }
                    }
                }
                return Err(ManifestError::ControlStep { name: m.name.clone(), step_type: step.step_type.clone() });
            },
        };
        let sp = async_spec(m, &command, &cwd, kind, &step.step_type);
        let ghost before = registry.steps@;
        registry.register(step.kind, step.step_type.clone(), Some(sp));
        proof {
            assert forall|q: int|
                0 <= q < i + 1 implies step_entry(registry.steps@, *m, manifest_path@, (#[trigger] m.steps@[q]).kind, m.steps@[q].step_type@) by {
                if q < i && !(m.steps@[q].kind == step.kind && m.steps@[q].step_type@ == step.step_type@) {
                    assert(registered(registry.steps@, m.steps@[q].kind, m.steps@[q].step_type@) == registered(
                        before,
                        m.steps@[q].kind,
                        m.steps@[q].step_type@,
                    ));
                }
            }
            assert forall|k: ComponentKind, t: Seq<char>|
                !(exists|q: int| 0 <= q < i + 1 && registers_step(#[trigger] m.steps@[q], k, t)) implies #[trigger] registered(
                    registry.steps@,
                    k,
                    t,
                ) == registered(old(registry).steps@, k, t) by {
                assert(!registers_step(m.steps@[i as int], k, t));
            }
        }
        i = i + 1;
    }
    proof {
        assert(first_control(m.steps@) is None) by {
            if exists|q: int| 0 <= q < m.steps@.len() && (#[trigger] m.steps@[q]).kind == ComponentKind::Control {
                let q = choose|q: int| 0 <= q < m.steps@.len() && (#[trigger] m.steps@[q]).kind == ComponentKind::Control;
                assert(m.steps@[q].kind != ComponentKind::Control);
            }
        }
    }
    let mut j: usize = 0;
    while j < m.triggers.len()
        invariant
            j <= m.triggers@.len(),
            host.wf(),
            command@ == resolved_path(manifest_path@, m.command@),
            opt_text(cwd) == resolved_cwd(*m, manifest_path@),
            forall|q: int|
                0 <= q < j ==> async_entry(host.triggers@, *m, manifest_path@, AsyncKind::Trigger, (#[trigger] m.triggers@[q]).component_type@),
            host.loaded == old(host).loaded,
            host.state_stores == old(host).state_stores,
            host.event_buses == old(host).event_buses,
            forall|t: Seq<char>|
                !(exists|q: int| 0 <= q < j && (#[trigger] m.triggers@[q]).component_type@ == t) ==> #[trigger] lookup(host.triggers@, t)
                    == lookup(old(host).triggers@, t),
        decreases m.triggers.len() - j,
    {
        let sp = async_spec(m, &command, &cwd, AsyncKind::Trigger, &m.triggers[j].component_type);
        upsert(&mut host.triggers, sp);
        proof {
            assert forall|t: Seq<char>| !(exists|q: int| 0 <= q < j + 1 && (#[trigger] m.triggers@[q]).component_type@ == t) implies #[trigger] lookup(host.triggers@, t)
                == lookup(old(host).triggers@, t) by {
                assert(m.triggers@[j as int].component_type@ != t);
            }
        }
        j = j + 1;
    }
    register_blocking(&mut host.state_stores, m, manifest_path, &command, &cwd, BlockingKind::StateStore, &m.state_stores);
    register_blocking(&mut host.event_buses, m, manifest_path, &command, &cwd, BlockingKind::EventBus, &m.event_buses);
    let ghost before = host.loaded@;
    host.loaded.push(LoadedExtension {
        name: m.name.clone(),
        version: m.version.clone(),
        registrations: manifest_registrations(m),
    });
    assert(host.loaded@.drop_last() =~= before);
    Ok(())
}

/// Registration `s` declares `kind` and `t`.
pub open spec fn registers_step(s: StepRegistration, kind: ComponentKind, t: Seq<char>) -> bool {
    s.kind == kind && s.step_type@ == t
}

/// An error raised while talking to an extension, by the part of the
/// flow it is reported as.
#[derive(Debug)]
pub enum HostError {
    Config(String),
    Source(String),
    Transform(String),
    Sink(String),
    Runtime(String),
}

/// The category an asynchronous component's errors are reported under.
pub open spec fn async_error_view(kind: AsyncKind, message: String) -> HostError {
    match kind {
        AsyncKind::Source | AsyncKind::Trigger => HostError::Source(message),
        AsyncKind::Transform => HostError::Transform(message),
        AsyncKind::Sink => HostError::Sink(message),
    }
}

/// Report an error of an asynchronous component.
pub fn async_error(spec: &AsyncSpec, message: String) -> (r: HostError)
    ensures
        r == async_error_view(spec.kind, message),
{
    match spec.kind {
        AsyncKind::Source | AsyncKind::Trigger => HostError::Source(message),
        AsyncKind::Transform => HostError::Transform(message),
        AsyncKind::Sink => HostError::Sink(message),
    }
}

/// Report an error of a blocking component.
pub fn blocking_error(message: String) -> (r: HostError)
    ensures
        r == HostError::Runtime(message),
{
    HostError::Runtime(message)
}

/// The text of a failed write of a request.
pub fn write_error(method: &str, error: &str) -> (r: String)
    ensures
        r@ == "failed to write "@ + method@ + " request to extension: "@ + error@,
{
    let mut r = concat3("failed to write ", method, " request to extension: ");
    r.append(error);
    r
}

/// The text of a failed flush of a request.
pub fn flush_error(method: &str, error: &str) -> (r: String)
    ensures
        r@ == "failed to flush "@ + method@ + " request to extension: "@ + error@,
{
    let mut r = concat3("failed to flush ", method, " request to extension: ");
    r.append(error);
    r
}

/// The text of a failed read of a response.
pub fn read_error(method: &str, error: &str) -> (r: String)
    ensures
        r@ == "failed to read "@ + method@ + " response from extension: "@ + error@,
{
    let mut r = concat3("failed to read ", method, " response from extension: ");
    r.append(error);
    r
}

/// The decimal text of a signed number.
pub open spec fn signed_digits(n: i64) -> Seq<char> {
    if n < 0 {
        "-"@ + digits((-n) as nat, 10)
    } else {
        digits(n as nat, 10)
    }
}

/// The decimal text of a signed number.
pub fn signed_decimal(n: i64) -> (r: String)
    ensures
        r@ == signed_digits(n),
{
    if n < 0 {
        let magnitude: u64 = ((-(n + 1)) as u64) + 1;
        let d = decimal(magnitude);
        concat2("-", d.as_str())
    } else {
        decimal(n as u64)
    }
}

/// Check the envelope of a JSON-RPC response: version `2.0` and the id of
/// the request.
pub fn validate_jsonrpc(method: &str, id: u64, version: &str, response_id: u64) -> (r: Result<(), String>)
    ensures
        version@ != "2.0"@ ==> (r matches Err(e) && e@ == "invalid "@ + method@ + " JSON-RPC version: "@ + version@),
        version@ == "2.0"@ && response_id != id ==> (r matches Err(e) && e@ == "mismatched "@ + method@
            + " response id: expected "@ + digits(id as nat, 10) + ", got "@ + digits(response_id as nat, 10)),
        version@ == "2.0"@ && response_id == id ==> r is Ok,
{
    if !str_eq(version, "2.0") {
        let mut e = concat3("invalid ", method, " JSON-RPC version: ");
        e.append(version);
        return Err(e);
    }
    if response_id != id {
        let expected = decimal(id);
        let got = decimal(response_id);
        let mut e = concat5("mismatched ", method, " response id: expected ", expected.as_str(), ", got ");
        e.append(got.as_str());
        return Err(e);
    }
    Ok(())
}

/// The error member of a JSON-RPC response.
#[derive(Debug)]
pub struct JsonRpcError {
    pub code: i64,
    pub message: String,
}

/// Take the result of a JSON-RPC response: its error, or a missing result,
/// is reported with the component's name and the method.
pub fn take_result<T>(result: Option<T>, error: Option<JsonRpcError>, method: &str, name: &str) -> (r: Result<T, String>)
    ensures
        error matches Some(e) ==> (r matches Err(m) && m@ == "extension '"@ + name@ + "' "@ + method@ + " failed: "@
            + e.message@ + " ("@ + signed_digits(e.code) + ")"@),
        error is None && result is None ==> (r matches Err(m) && m@ == "extension '"@ + name@
            + "' returned no result for "@ + method@),
        error is None ==> (result matches Some(v) ==> r == Ok::<T, String>(v)),
{
    match error {
        Some(e) => {
            let mut m = concat5("extension '", name, "' ", method, " failed: ");
            m.append(e.message.as_str());
            m.append(" (");
            let code = signed_decimal(e.code);
            m.append(code.as_str());
            m.append(")");
            Err(m)
        },
        None => match result {
            Some(v) => Ok(v),
            None => Err(concat4_owned("extension '", name, "' returned no result for ", method)),
        },
    }
}

fn concat4_owned(a: &str, b: &str, c: &str, d: &str) -> (r: String)
    ensures
        r@ == a@ + b@ + c@ + d@,
{
    crate::text::concat4(a, b, c, d)
}

/// Check that an extension advertises the capability a component needs.
pub fn ensure_capability(caps: &ExtensionCapabilities, spec: &AsyncSpec) -> (r: Result<(), HostError>)
    ensures
        caps.supports_async_spec(spec.kind) ==> r is Ok,
        !caps.supports_async_spec(spec.kind) ==> (r matches Err(e) && e == async_error_view(
            spec.kind,
            e_message(e),
        ) && e_message(e)@ == "extension '"@ + spec.extension_name@ + "' does not advertise "@ + async_kind_text(spec.kind)
            + " capability"@),
{
    if caps.supports_async(spec.kind) {
        return Ok(());
    }
    let m = concat5(
        "extension '",
        spec.extension_name.as_str(),
        "' does not advertise ",
        async_kind_name(spec.kind),
        " capability",
    );
    Err(async_error(spec, m))
}

/// The message an error carries.
pub open spec fn e_message(e: HostError) -> String {
    match e {
        HostError::Config(m) => m,
        HostError::Source(m) => m,
        HostError::Transform(m) => m,
        HostError::Sink(m) => m,
        HostError::Runtime(m) => m,
    }
}

impl ExtensionCapabilities {
    /// Whether the extension serves an asynchronous component of the kind.
    pub open spec fn supports_async_spec(&self, kind: AsyncKind) -> bool {
        match kind {
            AsyncKind::Source => self.source,
            AsyncKind::Transform => self.transform,
            AsyncKind::Sink => self.sink,
            AsyncKind::Trigger => self.trigger,
        }
    }
}

/// Check the protocol an extension answered `initialize` with.
pub fn check_protocol(extension_name: &str, host_protocol: &str, answered: &str) -> (r: Result<(), String>)
    ensures
        answered@ == host_protocol@ ==> r is Ok,
        answered@ != host_protocol@ ==> (r matches Err(m) && m@ == "extension '"@ + extension_name@
            + "' protocol mismatch: host="@ + host_protocol@ + " extension="@ + answered@),
{
    if str_eq(answered, host_protocol) {
        return Ok(());
    }
    let mut m = concat5("extension '", extension_name, "' protocol mismatch: host=", host_protocol, " extension=");
    m.append(answered);
    Err(m)
}

/// The ids of a client's JSON-RPC requests: 1, 2, 3, ... in order.
#[derive(Debug)]
pub struct RequestIds {
    next_id: u64,
}

impl RequestIds {
    /// The id the next request takes.
    pub closed spec fn upcoming(&self) -> u64 {
        self.next_id
    }

    /// A fresh client's ids, starting at 1.
    pub fn new() -> (r: RequestIds)
        ensures
            r.upcoming() == 1,
    {
        RequestIds { next_id: 1 }
    }

    /// Take the id of the next request.
    pub fn take_id(&mut self) -> (r: u64)
        requires
            old(self).upcoming() < u64::MAX,
        ensures
            r == old(self).upcoming(),
            final(self).upcoming() == r + 1,
    {
        let id = self.next_id;
        self.next_id = self.next_id + 1;
        id
    }
}

/// What a step factory builds for an extension's step.
#[derive(Debug, Clone, Copy, PartialEq, Eq, Structural)]
pub enum BuiltKind {
    Source,
    Transform,
    Sink,
}

/// Decide what a step factory builds: a source, transform or sink named
/// `extension::type`. A build without step metadata, or of a trigger,
/// is refused.
pub fn plan_step_build(spec: &AsyncSpec, has_step: bool) -> (r: Result<(BuiltKind, String), HostError>)
    ensures
        !has_step ==> (r matches Err(HostError::Config(m)) && m@ == "stdio extension '"@ + spec.component_type@
            + "' requires step metadata during build"@),
        has_step && spec.kind == AsyncKind::Trigger ==> (r matches Err(HostError::Config(m)) && m@ == "trigger '"@
            + spec.component_type@ + "' must be declared under flow.triggers, not steps"@),
        has_step && spec.kind != AsyncKind::Trigger ==> (r matches Ok((k, name)) && name@ == spec.extension_name@ + "::"@
            + spec.component_type@ && k == match spec.kind {
                AsyncKind::Source => BuiltKind::Source,
                AsyncKind::Transform => BuiltKind::Transform,
                _ => BuiltKind::Sink,
            }),
{
    if !has_step {
        return Err(HostError::Config(concat3(
            "stdio extension '",
            spec.component_type.as_str(),
            "' requires step metadata during build",
        )));
    }
    let name = concat3(spec.extension_name.as_str(), "::", spec.component_type.as_str());
    match spec.kind {
        AsyncKind::Source => Ok((BuiltKind::Source, name)),
        AsyncKind::Transform => Ok((BuiltKind::Transform, name)),
        AsyncKind::Sink => Ok((BuiltKind::Sink, name)),
        AsyncKind::Trigger => Err(HostError::Config(concat3(
            "trigger '",
            spec.component_type.as_str(),
            "' must be declared under flow.triggers, not steps",
        ))),
    }
}

/// The records pulled from an extension and not yet handed out.
#[derive(Debug)]
pub struct PullBuffer {
    pub buffered: Vec<crate::runtime::record::Record>,
    /// The extension said it has nothing more.
    pub finished: bool,
}

/// What a pulling source or trigger does next.
#[derive(Debug)]
pub enum PullStep {
    /// Hand out this record.
    Emit(crate::runtime::record::Record),
    /// The stream ended.
    End,
    /// Ask the extension for more.
    Pull,
}

impl PullBuffer {
    /// Nothing buffered, not finished.
    pub fn new() -> (r: PullBuffer)
        ensures
            r.buffered@.len() == 0,
            !r.finished,
    {
        PullBuffer { buffered: Vec::new(), finished: false }
    }

    /// The next step: the oldest buffered record, else the end when the
    /// extension finished, else a pull.
    pub fn next_step(&mut self) -> (r: PullStep)
        ensures
            old(self).buffered@.len() > 0 ==> (r matches PullStep::Emit(rec) && rec == old(self).buffered@[0]
                && final(self).buffered@ == old(self).buffered@.drop_first()),
            old(self).buffered@.len() == 0 && old(self).finished ==> r is End && *final(self) == *old(self),
            old(self).buffered@.len() == 0 && !old(self).finished ==> r is Pull && *final(self) == *old(self),
            final(self).finished == old(self).finished,
    {
        if self.buffered.len() > 0 {
            let rec = self.buffered.remove(0);
            return PullStep::Emit(rec);
        }
        if self.finished {
            PullStep::End
        } else {
            PullStep::Pull
        }
    }

    /// Take a pull's answer. A source must get records or the end; a
    /// trigger that gets neither simply pulls again later (the result is
    /// then `Ok(false)`).
    pub fn accept(&mut self, records: Vec<crate::runtime::record::Record>, done: bool, is_trigger: bool, extension_name: &str) -> (r: Result<bool, String>)
        ensures
            !done && records@.len() == 0 && !is_trigger ==> (r matches Err(m) && m@ == "extension '"@ + extension_name@
                + "' returned no records and done=false for source.pull"@ && *final(self) == *old(self)),
            !done && records@.len() == 0 && is_trigger ==> r == Ok::<bool, String>(false) && *final(self) == *old(self),
            done || records@.len() > 0 ==> r == Ok::<bool, String>(true) && final(self).finished == done
                && final(self).buffered@ == records@,
    {
        if !done && records.len() == 0 {
            if is_trigger {
                return Ok(false);
            }
            return Err(concat3("extension '", extension_name, "' returned no records and done=false for source.pull"));
        }
        self.finished = done;
        self.buffered = records;
        Ok(true)
    }
}

/// Loading the same extension twice fails: once a manifest passed its
/// checks and was registered, checking it again against the grown registry
/// and host reports it as already registered.
pub proof fn manifest_loads_once(
    m: StdioExtensionManifest,
    path: Seq<char>,
    reg: Seq<RegisteredStep>,
    host: StdioExtensionHost,
    reg2: Seq<RegisteredStep>,
    host2: StdioExtensionHost,
    trusted: bool,
)
    requires
        manifest_problem(m, reg, host, trusted) is None,
        first_control(m.steps@) is None,
        forall|i: int| 0 <= i < m.steps@.len() ==> step_entry(reg2, m, path, (#[trigger] m.steps@[i]).kind, m.steps@[i].step_type@),
        forall|i: int|
            0 <= i < m.triggers@.len() ==> async_entry(host2.triggers@, m, path, AsyncKind::Trigger, (#[trigger] m.triggers@[i]).component_type@),
        forall|i: int|
            0 <= i < m.state_stores@.len() ==> blocking_entry(host2.state_stores@, m, path, BlockingKind::StateStore, (#[trigger] m.state_stores@[i]).component_type@),
        forall|i: int|
            0 <= i < m.event_buses@.len() ==> blocking_entry(host2.event_buses@, m, path, BlockingKind::EventBus, (#[trigger] m.event_buses@[i]).component_type@),
    ensures
        manifest_problem(m, reg2, host2, trusted) is Some,
{
    if m.steps@.len() > 0 {
        let s = m.steps@[0];
        assert(step_entry(reg2, m, path, s.kind, s.step_type@));
        assert(is_registered(reg2, s.kind, s.step_type@));
        assert(step_problem(m, reg2, 0) is Some);
    } else if m.triggers@.len() > 0 {
        let t = m.triggers@[0].component_type@;
        assert(async_entry(host2.triggers@, m, path, AsyncKind::Trigger, t));
        assert(has_key(host2.triggers@, t));
        assert(step_problem(m, reg2, 0) is None);
        assert(named_problem(m.name@, "trigger"@, m.triggers@, host2.triggers@, 0) is Some);
    } else if m.state_stores@.len() > 0 {
        let t = m.state_stores@[0].component_type@;
        assert(blocking_entry(host2.state_stores@, m, path, BlockingKind::StateStore, t));
        assert(has_key(host2.state_stores@, t));
        assert(step_problem(m, reg2, 0) is None);
        assert(named_problem(m.name@, "trigger"@, m.triggers@, host2.triggers@, 0) is None);
        assert(named_problem(m.name@, "state_store"@, m.state_stores@, host2.state_stores@, 0) is Some);
    } else {
        let t = m.event_buses@[0].component_type@;
        assert(blocking_entry(host2.event_buses@, m, path, BlockingKind::EventBus, t));
        assert(has_key(host2.event_buses@, t));
        assert(step_problem(m, reg2, 0) is None);
        assert(named_problem(m.name@, "trigger"@, m.triggers@, host2.triggers@, 0) is None);
        assert(named_problem(m.name@, "state_store"@, m.state_stores@, host2.state_stores@, 0) is None);
        assert(named_problem(m.name@, "event_bus"@, m.event_buses@, host2.event_buses@, 0) is Some);
    }
}

/// One path given to the extension loader, as found on disk.
#[derive(Debug)]
pub enum ListedPath {
    /// Nothing exists at the path.
    Missing { path: String },
    /// A file.
    File { path: String },
    /// A directory, with its entries' paths, each flagged when it is a file.
    Dir { path: String, entries: Vec<(String, bool)> },
}

/// Why the manifest paths cannot be taken.
#[derive(Debug, PartialEq)]
pub enum ManifestPathError {
    /// The given path does not exist.
    NotFound { path: String },
    /// A given file is no `.json`, `.yaml` or `.yml` manifest.
    Unsupported { path: String },
}

impl ManifestPathError {
    /// The error's text.
    pub fn message(&self) -> (r: String)
        ensures
            r@ == match self {
                ManifestPathError::NotFound { path } => "extension path '"@ + path@ + "' does not exist"@,
                ManifestPathError::Unsupported { path } => "unsupported extension manifest '"@ + path@
                    + "'; use .json/.yaml/.yml"@,
            },
    {
        match self {
            ManifestPathError::NotFound { path } => concat3("extension path '", path.as_str(), "' does not exist"),
            ManifestPathError::Unsupported { path } => concat3(
                "unsupported extension manifest '",
                path.as_str(),
                "'; use .json/.yaml/.yml",
            ),
        }
    }
}

/// A path names a manifest file: its extension is `json`, `yaml` or `yml`.
pub open spec fn supported_manifest(p: Seq<char>) -> bool {
    path_extension(p) == Some("json"@) || path_extension(p) == Some("yaml"@) || path_extension(p) == Some("yml"@)
}

/// Whether a path names a manifest file.
pub fn is_supported_manifest(p: &str) -> (r: bool)
    ensures
        r == supported_manifest(p@),
{
    match extension(p) {
        Some(e) => {
            proof {
                reveal_strlit("json");
                reveal_strlit("yaml");
                reveal_strlit("yml");
            }
            str_eq(e.as_str(), "json") || str_eq(e.as_str(), "yaml") || str_eq(e.as_str(), "yml")
        },
        None => false,
    }
}

/// What is wrong with one listed path, if anything.
pub open spec fn path_problem(l: ListedPath) -> Option<ManifestPathError> {
    match l {
        ListedPath::Missing { path } => Some(ManifestPathError::NotFound { path }),
        ListedPath::File { path } => if supported_manifest(path@) {
            None
        } else {
            Some(ManifestPathError::Unsupported { path })
        },
        ListedPath::Dir { .. } => None,
    }
}

/// The first problem among the listed paths, in order.
pub open spec fn first_path_problem(ls: Seq<ListedPath>) -> Option<ManifestPathError>
    decreases ls.len(),
{
    if ls.len() == 0 {
        None
    } else {
        match first_path_problem(ls.drop_last()) {
            Some(e) => Some(e),
            None => path_problem(ls.last()),
        }
    }
}

/// The manifest files among a directory's entries, in entry order.
pub open spec fn dir_manifests(es: Seq<(String, bool)>) -> Seq<String>
    decreases es.len(),
{
    if es.len() == 0 {
        Seq::empty()
    } else {
        dir_manifests(es.drop_last()) + if es.last().1 && supported_manifest(es.last().0@) {
            seq![es.last().0]
        } else {
            Seq::empty()
        }
    }
}

/// The manifest files the listed paths name, in listing order: each listed
/// manifest file, and the manifest files directly inside each listed
/// directory.
pub open spec fn listed_manifests(ls: Seq<ListedPath>) -> Seq<String>
    decreases ls.len(),
{
    if ls.len() == 0 {
        Seq::empty()
    } else {
        listed_manifests(ls.drop_last()) + match ls.last() {
            ListedPath::File { path } => if supported_manifest(path@) {
                seq![path]
            } else {
                Seq::empty()
            },
            ListedPath::Dir { entries, .. } => dir_manifests(entries@),
            ListedPath::Missing { .. } => Seq::empty(),
        }
    }
}

/// The manifest files to load from the given paths, sorted stably in path
/// order (component by component): the first missing path or unsupported
/// file is an error; otherwise every listed manifest file and every
/// manifest file inside a listed directory.
pub fn select_manifests(listed: &Vec<ListedPath>) -> (r: Result<Vec<String>, ManifestPathError>)
    ensures
        match first_path_problem(listed@) {
            Some(e) => r == Err::<Vec<String>, ManifestPathError>(e),
            None => r matches Ok(v) && paths_sorted(v@) && v@.to_multiset() == listed_manifests(listed@).to_multiset()
                && forall|k: Seq<(u8, Seq<char>)>| #[trigger] with_parts(v@, k) == with_parts(listed_manifests(listed@), k),
        },
{
    let mut found: Vec<String> = Vec::new();
    let mut i: usize = 0;
    while i < listed.len()
        invariant
            i <= listed@.len(),
            first_path_problem(listed@.subrange(0, i as int)) is None,
            found@ == listed_manifests(listed@.subrange(0, i as int)),
        decreases listed.len() - i,
    {
        let ghost pre = listed@.subrange(0, i as int);
        let ghost next = listed@.subrange(0, i + 1);
        assert(next.drop_last() =~= pre);
        assert(next.last() == listed@[i as int]);
        match &listed[i] {
            ListedPath::Missing { path } => {
                proof {
                    lemma_problem_extends(listed@, i as int);
                }
                return Err(ManifestPathError::NotFound { path: path.clone() });
            },
            ListedPath::File { path } => {
                if is_supported_manifest(path.as_str()) {
                    found.push(path.clone());
                    assert(found@ =~= listed_manifests(next));
                } else {
                    proof {
                        lemma_problem_extends(listed@, i as int);
                    }
                    return Err(ManifestPathError::Unsupported { path: path.clone() });
                }
            },
            ListedPath::Dir { entries, .. } => {
                let ghost base = found@;
                let mut j: usize = 0;
                while j < entries.len()
                    invariant
                        j <= entries@.len(),
                        found@ == base + dir_manifests(entries@.subrange(0, j as int)),
                    decreases entries.len() - j,
                {
                    assert(entries@.subrange(0, j + 1).drop_last() =~= entries@.subrange(0, j as int));
                    if entries[j].1 && is_supported_manifest(entries[j].0.as_str()) {
                        found.push(entries[j].0.clone());
                    }
                    assert(found@ =~= base + dir_manifests(entries@.subrange(0, j + 1)));
                    j = j + 1;
                }
                assert(entries@.subrange(0, entries@.len() as int) =~= entries@);
                assert(found@ =~= listed_manifests(next));
            },
        }
        i = i + 1;
    }
    assert(listed@.subrange(0, listed@.len() as int) =~= listed@);
    Ok(sort_paths(found))
}

/// When the listed paths before `i` have no problem and path `i` has one,
/// that is the first problem of every longer listing.
proof fn lemma_problem_extends(ls: Seq<ListedPath>, i: int)
    requires
        0 <= i < ls.len(),
        first_path_problem(ls.subrange(0, i)) is None,
        path_problem(ls[i]) is Some,
    ensures
        first_path_problem(ls) == path_problem(ls[i]),
    decreases ls.len() - i,
{
    if ls.len() == i + 1 {
        assert(ls.drop_last() =~= ls.subrange(0, i));
    } else {
        assert(ls.drop_last().subrange(0, i) =~= ls.subrange(0, i));
        assert(ls.drop_last()[i] == ls[i]);
        lemma_problem_extends(ls.drop_last(), i);
    }
}

} // verus!
