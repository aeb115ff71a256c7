use std::collections::BTreeMap;
use vstd::prelude::*;
use crate::text::owned;

verus! {

/// Schema version written into every new run specification.
pub const RUN_SPEC_SCHEMA_VERSION: u32 = 1;

/// Schema version written into every new event.
pub const EVENT_SCHEMA_VERSION: u32 = 1;

/// Step budget given to a run specification built by `RunSpec::new`.
pub const DEFAULT_MAX_STEPS: usize = 128;

// ---------------------------------------------------------------------------
// Executable data types
// ---------------------------------------------------------------------------

#[derive(Debug, PartialEq, Eq)]
pub struct RunSpec {
    pub schema_version: u32,
    pub run_id: String,
    pub name: String,
    pub namespace: RunNamespace,
    pub budget: BudgetGroup,
    pub capability_leases: Vec<CapabilityLease>,
    pub steps: Vec<Step>,
    pub metadata: BTreeMap<String, String>,
}

#[derive(Debug, PartialEq, Eq)]
pub struct RunNamespace {
    pub workspace_root: String,
    pub visible_capabilities: Vec<String>,
}

#[derive(Clone, Copy, Debug, PartialEq, Eq, Structural)]
pub struct BudgetGroup {
    pub max_steps: usize,
}

#[derive(Debug, PartialEq, Eq)]
pub struct CapabilityLease {
    pub capability_id: String,
    pub permissions: Vec<String>,
}

#[derive(Debug, PartialEq, Eq)]
pub struct Step {
    pub id: String,
    pub title: String,
    pub action: StepAction,
}

#[derive(Debug, PartialEq, Eq)]
pub enum StepAction {
    Message { role: String, content: String },
    CapabilityInvoke { capability_id: String, input: String },
    Delegate { child: Box<ChildRunSpec>, merge_mode: MergeMode },
}

#[derive(Debug, PartialEq, Eq)]
pub struct ChildRunSpec {
    pub parent_run_id: String,
    pub run: RunSpec,
    pub memory_view: Vec<String>,
    pub sandbox_profile: String,
    pub return_contract: String,
}

#[derive(Debug, PartialEq, Eq)]
pub struct ChildRunResult {
    pub run_id: String,
    pub status: RunStatus,
    pub summary: String,
    pub artifacts: Vec<String>,
    pub proposed_effects: Vec<EffectProposal>,
    pub events_digest: String,
    pub usage: RunUsage,
    pub diagnostics: Vec<String>,
}

#[derive(Clone, Copy, Debug, Default, PartialEq, Eq, Structural)]
pub struct RunUsage {
    pub steps: usize,
    pub events: usize,
}

#[derive(Clone, Copy, Debug, PartialEq, Eq, Structural)]
pub enum MergeMode {
    SummaryOnly,
    AppendMessages,
}

#[derive(Debug, PartialEq, Eq)]
pub struct RunState {
    pub run_id: String,
    pub status: RunStatus,
    pub next_step_index: usize,
    pub messages: Vec<Message>,
    pub outputs: Vec<String>,
    pub denied_actions: Vec<String>,
}

#[derive(Debug, PartialEq, Eq)]
pub struct Message {
    pub role: String,
    pub content: String,
}

#[derive(Clone, Copy, Debug, PartialEq, Eq, Structural)]
pub enum RunStatus {
    Ready,
    Running,
    Completed,
    Failed,
}

#[derive(Clone, Copy, Debug, PartialEq, Eq, Structural)]
pub enum EventKind {
    RunCreated,
    RunStarted,
    StepProposed,
    ShellDecision,
    StepStarted,
    StepCompleted,
    EffectProposed,
    EffectCommitted,
    CapabilityDenied,
    ChildRunCreated,
    ChildRunCompleted,
    RunCompleted,
    RunFailed,
}

#[derive(Debug, PartialEq, Eq)]
pub struct Event {
    pub schema_version: u32,
    pub run_id: String,
    pub step_id: Option<String>,
    pub kind: EventKind,
    pub detail: String,
    pub sequence: u64,
    pub timestamp_ms: u64,
    pub spec_digest: String,
    pub causation_id: Option<String>,
    pub commit_id: Option<String>,
    pub effect: Option<Effect>,
    pub writer_epoch: u64,
}

#[derive(Debug, PartialEq, Eq)]
pub struct Effect {
    pub summary: String,
    pub messages: Vec<Message>,
    pub outputs: Vec<String>,
}

#[derive(Debug, PartialEq, Eq)]
pub struct EffectProposal {
    pub summary: String,
    pub messages: Vec<Message>,
    pub outputs: Vec<String>,
}

// ---------------------------------------------------------------------------
// Mathematical models
// ---------------------------------------------------------------------------

pub struct MessageView {
    pub role: Seq<char>,
    pub content: Seq<char>,
}

/// Model shared by `Effect` and `EffectProposal`, which hold the same data.
pub struct EffectView {
    pub summary: Seq<char>,
    pub messages: Seq<MessageView>,
    pub outputs: Seq<Seq<char>>,
}

pub struct CapabilityLeaseView {
    pub capability_id: Seq<char>,
    pub permissions: Seq<Seq<char>>,
}

pub struct RunNamespaceView {
    pub workspace_root: Seq<char>,
    pub visible_capabilities: Seq<Seq<char>>,
}

pub struct RunStateView {
    pub run_id: Seq<char>,
    pub status: RunStatus,
    pub next_step_index: usize,
    pub messages: Seq<MessageView>,
    pub outputs: Seq<Seq<char>>,
    pub denied_actions: Seq<Seq<char>>,
}

pub struct EventView {
    pub schema_version: u32,
    pub run_id: Seq<char>,
    pub step_id: Option<Seq<char>>,
    pub kind: EventKind,
    pub detail: Seq<char>,
    pub sequence: u64,
    pub timestamp_ms: u64,
    pub spec_digest: Seq<char>,
    pub causation_id: Option<Seq<char>>,
    pub commit_id: Option<Seq<char>>,
    pub effect: Option<EffectView>,
    pub writer_epoch: u64,
}

pub struct RunSpecView {
    pub schema_version: u32,
    pub run_id: Seq<char>,
    pub name: Seq<char>,
    pub namespace: RunNamespaceView,
    pub budget: BudgetGroup,
    pub capability_leases: Seq<CapabilityLeaseView>,
    pub steps: Seq<StepView>,
    pub metadata: Map<String, String>,
}

pub struct StepView {
    pub id: Seq<char>,
    pub title: Seq<char>,
    pub action: StepActionView,
}

pub enum StepActionView {
    Message { role: Seq<char>, content: Seq<char> },
    CapabilityInvoke { capability_id: Seq<char>, input: Seq<char> },
    Delegate { child: ChildRunSpecView, merge_mode: MergeMode },
}

pub struct ChildRunSpecView {
    pub parent_run_id: Seq<char>,
    pub run: RunSpecView,
    pub memory_view: Seq<Seq<char>>,
    pub sandbox_profile: Seq<char>,
    pub return_contract: Seq<char>,
}

pub struct ChildRunResultView {
    pub run_id: Seq<char>,
    pub status: RunStatus,
    pub summary: Seq<char>,
    pub artifacts: Seq<Seq<char>>,
    pub proposed_effects: Seq<EffectView>,
    pub events_digest: Seq<char>,
    pub usage: RunUsage,
    pub diagnostics: Seq<Seq<char>>,
}

/// The model of a list of messages.
pub open spec fn messages_view(messages: Seq<Message>) -> Seq<MessageView> {
    messages.map_values(|m: Message| m@)
}

/// The model of a list of effect proposals.
pub open spec fn proposals_view(proposals: Seq<EffectProposal>) -> Seq<EffectView> {
    proposals.map_values(|p: EffectProposal| p@)
}

/// The model of a list of leases.
pub open spec fn leases_view(leases: Seq<CapabilityLease>) -> Seq<CapabilityLeaseView> {
    leases.map_values(|l: CapabilityLease| l@)
}

/// The model of a list of events.
pub open spec fn events_view(events: Seq<Event>) -> Seq<EventView> {
    events.map_values(|e: Event| e@)
}

/// The model of an optional string.
pub open spec fn opt_string_view(s: Option<String>) -> Option<Seq<char>> {
    match s {
        Some(v) => Some(v@),
        None => None,
    }
}

impl View for Message {
    type V = MessageView;

    open spec fn view(&self) -> MessageView {
        MessageView { role: self.role@, content: self.content@ }
    }
}

impl View for Effect {
    type V = EffectView;

    open spec fn view(&self) -> EffectView {
        EffectView {
            summary: self.summary@,
            messages: messages_view(self.messages@),
            outputs: self.outputs.deep_view(),
        }
    }
}

impl View for EffectProposal {
    type V = EffectView;

    open spec fn view(&self) -> EffectView {
        EffectView {
            summary: self.summary@,
            messages: messages_view(self.messages@),
            outputs: self.outputs.deep_view(),
        }
    }
}

impl View for CapabilityLease {
    type V = CapabilityLeaseView;

    open spec fn view(&self) -> CapabilityLeaseView {
        CapabilityLeaseView {
            capability_id: self.capability_id@,
            permissions: self.permissions.deep_view(),
        }
    }
}

impl View for RunNamespace {
    type V = RunNamespaceView;

    open spec fn view(&self) -> RunNamespaceView {
        RunNamespaceView {
            workspace_root: self.workspace_root@,
            visible_capabilities: self.visible_capabilities.deep_view(),
        }
    }
}

impl View for RunState {
    type V = RunStateView;

    open spec fn view(&self) -> RunStateView {
        RunStateView {
            run_id: self.run_id@,
            status: self.status,
            next_step_index: self.next_step_index,
            messages: messages_view(self.messages@),
            outputs: self.outputs.deep_view(),
            denied_actions: self.denied_actions.deep_view(),
        }
    }
}

impl View for Event {
    type V = EventView;

    open spec fn view(&self) -> EventView {
        EventView {
            schema_version: self.schema_version,
            run_id: self.run_id@,
            step_id: opt_string_view(self.step_id),
            kind: self.kind,
            detail: self.detail@,
            sequence: self.sequence,
            timestamp_ms: self.timestamp_ms,
            spec_digest: self.spec_digest@,
            causation_id: opt_string_view(self.causation_id),
            commit_id: opt_string_view(self.commit_id),
            effect: match self.effect {
                Some(e) => Some(e@),
                None => None,
            },
            writer_epoch: self.writer_epoch,
        }
    }
}

impl View for ChildRunResult {
    type V = ChildRunResultView;

    open spec fn view(&self) -> ChildRunResultView {
        ChildRunResultView {
            run_id: self.run_id@,
            status: self.status,
            summary: self.summary@,
            artifacts: self.artifacts.deep_view(),
            proposed_effects: proposals_view(self.proposed_effects@),
            events_digest: self.events_digest@,
            usage: self.usage,
            diagnostics: self.diagnostics.deep_view(),
        }
    }
}

/// The model of a list of steps, built element by element so that the
/// recursion through nested child runs is well founded.
pub open spec fn steps_view(steps: Seq<Step>) -> Seq<StepView>
    decreases steps,
{
    if steps.len() == 0 {
        Seq::empty()
    } else {
        steps_view(steps.drop_last()).push(step_view(steps.last()))
    }
}

pub open spec fn step_view(step: Step) -> StepView
    decreases step,
{
    StepView { id: step.id@, title: step.title@, action: step_action_view(step.action) }
}

pub open spec fn step_action_view(action: StepAction) -> StepActionView
    decreases action,
{
    match action {
        StepAction::Message { role, content } => StepActionView::Message {
            role: role@,
            content: content@,
        },
        StepAction::CapabilityInvoke { capability_id, input } => StepActionView::CapabilityInvoke {
            capability_id: capability_id@,
            input: input@,
        },
        StepAction::Delegate { child, merge_mode } => StepActionView::Delegate {
            child: child_run_spec_view(*child),
            merge_mode,
        },
    }
}

pub open spec fn child_run_spec_view(child: ChildRunSpec) -> ChildRunSpecView
    decreases child,
{
    ChildRunSpecView {
        parent_run_id: child.parent_run_id@,
        run: run_spec_view(child.run),
        memory_view: child.memory_view.deep_view(),
        sandbox_profile: child.sandbox_profile@,
        return_contract: child.return_contract@,
    }
}

pub open spec fn run_spec_view(spec: RunSpec) -> RunSpecView
    decreases spec,
{
    RunSpecView {
        schema_version: spec.schema_version,
        run_id: spec.run_id@,
        name: spec.name@,
        namespace: spec.namespace@,
        budget: spec.budget,
        capability_leases: leases_view(spec.capability_leases@),
        steps: steps_view(spec.steps@),
        metadata: spec.metadata@,
    }
}

impl View for Step {
    type V = StepView;

    open spec fn view(&self) -> StepView {
        step_view(*self)
    }
}

impl View for StepAction {
    type V = StepActionView;

    open spec fn view(&self) -> StepActionView {
        step_action_view(*self)
    }
}

impl View for ChildRunSpec {
    type V = ChildRunSpecView;

    open spec fn view(&self) -> ChildRunSpecView {
        child_run_spec_view(*self)
    }
}

impl View for RunSpec {
    type V = RunSpecView;

    open spec fn view(&self) -> RunSpecView {
        run_spec_view(*self)
    }
}

// ---------------------------------------------------------------------------
// Copies that keep the model
// ---------------------------------------------------------------------------

impl Clone for Message {
    fn clone(&self) -> (r: Self)
        ensures
            r@ == self@,
    {
        Message { role: self.role.clone(), content: self.content.clone() }
    }
}

/// Copies a list of messages, keeping its model.
pub fn clone_messages(messages: &Vec<Message>) -> (r: Vec<Message>)
    ensures
        messages_view(r@) == messages_view(messages@),
{
    let mut r: Vec<Message> = Vec::new();
    let mut i: usize = 0;
    while i < messages.len()
        invariant
            i <= messages.len(),
            r@.len() == i,
            forall|j: int| 0 <= j < i ==> #[trigger] r@[j]@ == messages@[j]@,
        decreases messages.len() - i,
    {
        r.push(messages[i].clone());
        i = i + 1;
    }
    assert(messages_view(r@) =~= messages_view(messages@));
    r
}

/// Copies a list of strings, keeping its model.
pub fn clone_strings(strings: &Vec<String>) -> (r: Vec<String>)
    ensures
        r.deep_view() == strings.deep_view(),
{
    let mut r: Vec<String> = Vec::new();
    let mut i: usize = 0;
    while i < strings.len()
        invariant
            i <= strings.len(),
            r@.len() == i,
            forall|j: int| 0 <= j < i ==> #[trigger] r@[j]@ == strings@[j]@,
        decreases strings.len() - i,
    {
        r.push(strings[i].clone());
        i = i + 1;
    }
    assert(r.deep_view() =~= strings.deep_view());
    r
}

impl Clone for Effect {
    fn clone(&self) -> (r: Self)
        ensures
            r@ == self@,
    {
        Effect {
            summary: self.summary.clone(),
            messages: clone_messages(&self.messages),
            outputs: clone_strings(&self.outputs),
        }
    }
}

impl Clone for EffectProposal {
    fn clone(&self) -> (r: Self)
        ensures
            r@ == self@,
    {
        EffectProposal {
            summary: self.summary.clone(),
            messages: clone_messages(&self.messages),
            outputs: clone_strings(&self.outputs),
        }
    }
}

impl Clone for CapabilityLease {
    fn clone(&self) -> (r: Self)
        ensures
            r@ == self@,
    {
        CapabilityLease {
            capability_id: self.capability_id.clone(),
            permissions: clone_strings(&self.permissions),
        }
    }
}

impl Clone for RunNamespace {
    fn clone(&self) -> (r: Self)
        ensures
            r@ == self@,
    {
        RunNamespace {
            workspace_root: self.workspace_root.clone(),
            visible_capabilities: clone_strings(&self.visible_capabilities),
        }
    }
}

impl Clone for RunState {
    fn clone(&self) -> (r: Self)
        ensures
            r@ == self@,
    {
        RunState {
            run_id: self.run_id.clone(),
            status: self.status,
            next_step_index: self.next_step_index,
            messages: clone_messages(&self.messages),
            outputs: clone_strings(&self.outputs),
            denied_actions: clone_strings(&self.denied_actions),
        }
    }
}

/// Copies an optional string, keeping its model.
pub fn clone_opt_string(s: &Option<String>) -> (r: Option<String>)
    ensures
        opt_string_view(r) == opt_string_view(*s),
{
    match s {
        Some(v) => Some(v.clone()),
        None => None,
    }
}

impl Clone for Event {
    fn clone(&self) -> (r: Self)
        ensures
            r@ == self@,
    {
        Event {
            schema_version: self.schema_version,
            run_id: self.run_id.clone(),
            step_id: clone_opt_string(&self.step_id),
            kind: self.kind,
            detail: self.detail.clone(),
            sequence: self.sequence,
            timestamp_ms: self.timestamp_ms,
            spec_digest: self.spec_digest.clone(),
            causation_id: clone_opt_string(&self.causation_id),
            commit_id: clone_opt_string(&self.commit_id),
            effect: match &self.effect {
                Some(e) => Some(e.clone()),
                None => None,
            },
            writer_epoch: self.writer_epoch,
        }
    }
}

/// Copies a list of leases, keeping its model.
pub fn clone_leases(leases: &Vec<CapabilityLease>) -> (r: Vec<CapabilityLease>)
    ensures
        leases_view(r@) == leases_view(leases@),
{
    let mut r: Vec<CapabilityLease> = Vec::new();
    let mut i: usize = 0;
    while i < leases.len()
        invariant
            i <= leases.len(),
            r@.len() == i,
            forall|j: int| 0 <= j < i ==> #[trigger] r@[j]@ == leases@[j]@,
        decreases leases.len() - i,
    {
        r.push(leases[i].clone());
        i = i + 1;
    }
    assert(leases_view(r@) =~= leases_view(leases@));
    r
}

/// Copies a step list, keeping its model.
pub fn clone_steps(steps: &Vec<Step>) -> (r: Vec<Step>)
    ensures
        steps_view(r@) == steps_view(steps@),
    decreases steps, 0nat,
{
    let mut r: Vec<Step> = Vec::new();
    let mut i: usize = 0;
    while i < steps.len()
        invariant
            i <= steps.len(),
            r@.len() == i,
            forall|j: int| 0 <= j < i ==> #[trigger] r@[j]@ == steps@[j]@,
        decreases steps.len() - i,
    {
        assert(decreases_to!(steps => steps@[i as int]));
        let s = clone_step(&steps[i]);
        r.push(s);
        i = i + 1;
    }
    proof {
        lemma_steps_view_pointwise(r@, steps@);
    }
    r
}

/// Two step lists whose steps have equal models have equal models.
pub proof fn lemma_steps_view_pointwise(a: Seq<Step>, b: Seq<Step>)
    requires
        a.len() == b.len(),
        forall|j: int| 0 <= j < a.len() ==> #[trigger] a[j]@ == b[j]@,
    ensures
        steps_view(a) == steps_view(b),
    decreases a.len(),
{
    if a.len() > 0 {
        assert forall|j: int| 0 <= j < a.drop_last().len() implies #[trigger] a.drop_last()[j]@
            == b.drop_last()[j]@ by {
            assert(a[j]@ == b[j]@);
        }
        lemma_steps_view_pointwise(a.drop_last(), b.drop_last());
        assert(a[a.len() - 1]@ == b[b.len() - 1]@);
    }
}

/// The model of a step list has one entry per step, each the step's own model.
pub proof fn lemma_steps_view_index(steps: Seq<Step>)
    ensures
        steps_view(steps).len() == steps.len(),
        forall|j: int| 0 <= j < steps.len() ==> #[trigger] steps_view(steps)[j] == steps[j]@,
    decreases steps.len(),
{
    if steps.len() > 0 {
        lemma_steps_view_index(steps.drop_last());
    }
}

/// Copies a step, keeping its model.
pub fn clone_step(step: &Step) -> (r: Step)
    ensures
        r@ == step@,
    decreases step, 0nat,
{
    let action = match &step.action {
        StepAction::Message { role, content } => StepAction::Message {
            role: role.clone(),
            content: content.clone(),
        },
        StepAction::CapabilityInvoke { capability_id, input } => StepAction::CapabilityInvoke {
            capability_id: capability_id.clone(),
            input: input.clone(),
        },
        StepAction::Delegate { child, merge_mode } => StepAction::Delegate {
            child: Box::new(clone_child_run_spec(child)),
            merge_mode: *merge_mode,
        },
    };
    Step { id: step.id.clone(), title: step.title.clone(), action }
}

/// Copies a child run specification, keeping its model.
pub fn clone_child_run_spec(child: &ChildRunSpec) -> (r: ChildRunSpec)
    ensures
        r@ == child@,
    decreases child, 0nat,
{
    ChildRunSpec {
        parent_run_id: child.parent_run_id.clone(),
        run: clone_run_spec(&child.run),
        memory_view: clone_strings(&child.memory_view),
        sandbox_profile: child.sandbox_profile.clone(),
        return_contract: child.return_contract.clone(),
    }
}

/// Copies a run specification, keeping its model.
pub fn clone_run_spec(spec: &RunSpec) -> (r: RunSpec)
    ensures
        r@ == spec@,
    decreases spec, 0nat,
{
    RunSpec {
        schema_version: spec.schema_version,
        run_id: spec.run_id.clone(),
        name: spec.name.clone(),
        namespace: spec.namespace.clone(),
        budget: spec.budget,
        capability_leases: clone_leases(&spec.capability_leases),
        steps: clone_steps(&spec.steps),
        metadata: spec.metadata.clone(),
    }
}

impl Clone for Step {
    fn clone(&self) -> (r: Self)
        ensures
            r@ == self@,
    {
        clone_step(self)
    }
}

impl Clone for ChildRunSpec {
    fn clone(&self) -> (r: Self)
        ensures
            r@ == self@,
    {
        clone_child_run_spec(self)
    }
}

impl Clone for RunSpec {
    fn clone(&self) -> (r: Self)
        ensures
            r@ == self@,
    {
        clone_run_spec(self)
    }
}

// ---------------------------------------------------------------------------
// Constructors
// ---------------------------------------------------------------------------

impl Effect {
    /// An effect with the given summary and no messages or outputs.
    pub fn empty(summary: &str) -> (r: Self)
        ensures
            r@ == (EffectView { summary: summary@, messages: Seq::empty(), outputs: Seq::empty() }),
    {
        let r = Effect { summary: owned(summary), messages: Vec::new(), outputs: Vec::new() };
        assert(r@.outputs =~= Seq::<Seq<char>>::empty());
        assert(r@.messages =~= Seq::<MessageView>::empty());
        r
    }
}

impl EffectProposal {
    /// A proposal with the given summary and no messages or outputs.
    pub fn empty(summary: &str) -> (r: Self)
        ensures
            r@ == (EffectView { summary: summary@, messages: Seq::empty(), outputs: Seq::empty() }),
    {
        let r = EffectProposal { summary: owned(summary), messages: Vec::new(), outputs: Vec::new() };
        assert(r@.outputs =~= Seq::<Seq<char>>::empty());
        assert(r@.messages =~= Seq::<MessageView>::empty());
        r
    }
}

/// The model of a fresh event as `Event::new` builds it.
pub open spec fn new_event_view(
    run_id: Seq<char>,
    step_id: Option<Seq<char>>,
    kind: EventKind,
    detail: Seq<char>,
) -> EventView {
    EventView {
        schema_version: EVENT_SCHEMA_VERSION,
        run_id,
        step_id,
        kind,
        detail,
        sequence: 0,
        timestamp_ms: 0,
        spec_digest: Seq::empty(),
        causation_id: None,
        commit_id: None,
        effect: None,
        writer_epoch: 0,
    }
}

impl Event {
    /// An event of the current schema with no sequence, time, digest, causation,
    /// commit or effect yet.
    pub fn new(run_id: &str, step_id: Option<String>, kind: EventKind, detail: &str) -> (r: Self)
        ensures
            r@ == new_event_view(run_id@, opt_string_view(step_id), kind, detail@),
    {
        Event {
            schema_version: EVENT_SCHEMA_VERSION,
            run_id: owned(run_id),
            step_id,
            kind,
            detail: owned(detail),
            sequence: 0,
            timestamp_ms: 0,
            spec_digest: String::new(),
            causation_id: None,
            commit_id: None,
            effect: None,
            writer_epoch: 0,
        }
    }
}

impl From<EffectProposal> for Effect {
    fn from(proposal: EffectProposal) -> (r: Self) {
        Effect { summary: proposal.summary, messages: proposal.messages, outputs: proposal.outputs }
    }
}

impl vstd::std_specs::convert::FromSpecImpl<EffectProposal> for Effect {
    open spec fn obeys_from_spec() -> bool {
        true
    }

    open spec fn from_spec(proposal: EffectProposal) -> Self {
        Effect { summary: proposal.summary, messages: proposal.messages, outputs: proposal.outputs }
    }
}

impl RunSpec {
    /// A run specification of the current schema: workspace root `.`, no visible
    /// capabilities, a budget of 128 steps, no leases and no metadata.
    pub fn new(run_id: &str, name: &str, steps: Vec<Step>) -> (r: Self)
        ensures
            r@.schema_version == RUN_SPEC_SCHEMA_VERSION,
            r@.run_id == run_id@,
            r@.name == name@,
            r@.namespace.workspace_root == "."@,
            r@.namespace.visible_capabilities == Seq::<Seq<char>>::empty(),
            r@.budget.max_steps == DEFAULT_MAX_STEPS,
            r@.capability_leases == Seq::<CapabilityLeaseView>::empty(),
            r@.steps == steps_view(steps@),
            r@.metadata == Map::<String, String>::empty(),
    {
        let r = RunSpec {
            schema_version: RUN_SPEC_SCHEMA_VERSION,
            run_id: owned(run_id),
            name: owned(name),
            namespace: RunNamespace { workspace_root: owned("."), visible_capabilities: Vec::new() },
            budget: BudgetGroup { max_steps: DEFAULT_MAX_STEPS },
            capability_leases: Vec::new(),
            steps,
            metadata: BTreeMap::new(),
        };
        assert(r@.namespace.visible_capabilities =~= Seq::<Seq<char>>::empty());
        assert(r@.capability_leases =~= Seq::<CapabilityLeaseView>::empty());
        r
    }
}

impl ChildRunSpec {
    /// A child run of `parent_run_id` with an empty memory view, the
    /// `default-deny` sandbox and the `effect-proposals-v1` return contract.
    pub fn new(parent_run_id: &str, run: RunSpec) -> (r: Self)
        ensures
            r@.parent_run_id == parent_run_id@,
            r@.run == run@,
            r@.memory_view == Seq::<Seq<char>>::empty(),
            r@.sandbox_profile == "default-deny"@,
            r@.return_contract == "effect-proposals-v1"@,
    {
        let r = ChildRunSpec {
            parent_run_id: owned(parent_run_id),
            run,
            memory_view: Vec::new(),
            sandbox_profile: owned("default-deny"),
            return_contract: owned("effect-proposals-v1"),
        };
        assert(r@.memory_view =~= Seq::<Seq<char>>::empty());
        r
    }
}

impl RunState {
    /// The state of a run that has not started: `Ready`, at step 0, with no
    /// messages, outputs or denied actions.
    pub fn from_spec(spec: &RunSpec) -> (r: Self)
        ensures
            r@ == (RunStateView {
                run_id: spec.run_id@,
                status: RunStatus::Ready,
                next_step_index: 0,
                messages: Seq::empty(),
                outputs: Seq::empty(),
                denied_actions: Seq::empty(),
            }),
    {
        let r = RunState {
            run_id: spec.run_id.clone(),
            status: RunStatus::Ready,
            next_step_index: 0,
            messages: Vec::new(),
            outputs: Vec::new(),
            denied_actions: Vec::new(),
        };
        assert(r@.messages =~= Seq::<MessageView>::empty());
        assert(r@.outputs =~= Seq::<Seq<char>>::empty());
        assert(r@.denied_actions =~= Seq::<Seq<char>>::empty());
        r
    }
}

} // verus!
