use std::collections::BTreeSet;
use vstd::prelude::*;
use crate::eventbus::{EventBus, InMemoryEventBus};
use crate::eventlog::EventJournal;
use crate::runspec::{
    CapabilityLease, CapabilityLeaseView, ChildRunSpec, ChildRunSpecView, Effect, EffectProposal, Event,
    EventKind, EventView, MergeMode, Message, MessageView, RunSpec, RunSpecView, RunState, RunStatus,
    Step, StepAction, clone_messages, clone_strings, events_view, leases_view, messages_view,
    opt_string_view, RunStateView, StepView, StepActionView, ChildRunResultView,
};
use crate::runstore::{CHECKPOINT_SCHEMA_VERSION, MemoryRunStore, RunStore, RunStoreRecord, RunStoreRecordView};
use crate::scheduler::{QueueScheduler, Scheduler, step_at_view};
use crate::shell::{Shell, ShellDecision, ShellDecisionView};
use crate::subrun::{LocalSubRunTransport, SubRunTransport};
use crate::text::{decimal, list_contains, owned, push_decimal, push_str, starts_with_seq, starts_with_str, str_eq};
use crate::transport::CapabilityTransport;

verus! {

/// Why a run stopped.
#[derive(Debug)]
pub enum KernelError {
    Denied(String),
    Capability(String),
    BudgetExceeded(String),
    EventLog(String),
    RunStore(String),
    MissingCheckpoint(String),
    Scheduler(String),
}

/// The state a run ended in and the events it produced.
#[derive(Debug)]
pub struct RunReport {
    pub state: RunState,
    pub events: Vec<Event>,
}

/// Nesting of child runs is bounded by this many levels; no call stack gets
/// that deep, so in practice a child run is never refused for it.
pub const MAX_CHILD_RUN_DEPTH: u64 = 0xffff_ffff_ffff_ffff;

// ---------------------------------------------------------------------------
// Models of what a run records
// ---------------------------------------------------------------------------

/// How many events of `kind` there are.
pub open spec fn count_kind(events: Seq<EventView>, kind: EventKind) -> nat
    decreases events.len(),
{
    if events.len() == 0 {
        0
    } else {
        count_kind(events.drop_last(), kind) + if events.last().kind == kind { 1nat } else { 0nat }
    }
}

/// The effect an event commits, if it is a commit that carries one.
pub open spec fn committed_effect(e: EventView) -> Option<crate::runspec::EffectView> {
    if e.kind == EventKind::EffectCommitted {
        e.effect
    } else {
        None
    }
}

/// The messages the committed effects of `events` add, in order.
pub open spec fn committed_messages(events: Seq<EventView>) -> Seq<MessageView>
    decreases events.len(),
{
    if events.len() == 0 {
        Seq::empty()
    } else {
        committed_messages(events.drop_last()) + match committed_effect(events.last()) {
            Some(e) => e.messages,
            None => Seq::empty(),
        }
    }
}

/// The outputs the committed effects of `events` add, in order.
pub open spec fn committed_outputs(events: Seq<EventView>) -> Seq<Seq<char>>
    decreases events.len(),
{
    if events.len() == 0 {
        Seq::empty()
    } else {
        committed_outputs(events.drop_last()) + match committed_effect(events.last()) {
            Some(e) => e.outputs,
            None => Seq::empty(),
        }
    }
}

/// The causation id of the event numbered `sequence` in run `run_id`: the
/// event before it, written `<run_id>:<sequence - 1>`.
pub open spec fn causation_for(run_id: Seq<char>, sequence: nat) -> Option<Seq<char>> {
    if sequence > 1 {
        Some(run_id + ":"@ + decimal((sequence - 1) as nat))
    } else {
        None
    }
}

/// The events belong to run `run_id` and are numbered `base + 1`, `base + 2`, ...,
/// each caused by the one before.
pub open spec fn numbered_from(events: Seq<EventView>, run_id: Seq<char>, base: nat) -> bool {
    forall|i: int|
        0 <= i < events.len() ==> {
            &&& (#[trigger] events[i]).run_id == run_id
            &&& events[i].sequence == base + i + 1
            &&& events[i].causation_id == causation_for(run_id, (base + i + 1) as nat)
        }
}

/// An event the kernel writes: `kind` for step `step_id` with `detail`,
/// numbered `sequence` and carrying `effect`.
pub open spec fn kernel_event(
    run_id: Seq<char>,
    step_id: Option<Seq<char>>,
    kind: EventKind,
    detail: Seq<char>,
    effect: Option<crate::runspec::EffectView>,
    sequence: nat,
) -> EventView {
    EventView {
        schema_version: crate::runspec::EVENT_SCHEMA_VERSION,
        run_id,
        step_id,
        kind,
        detail,
        sequence: sequence as u64,
        timestamp_ms: 0,
        spec_digest: Seq::empty(),
        causation_id: causation_for(run_id, sequence),
        commit_id: None,
        effect,
        writer_epoch: 0,
    }
}

/// `log` is no journal, or a journal that may append `e` successfully.
spec fn log_takes(log: Option<Box<dyn EventJournal>>, e: EventView) -> bool {
    match log {
        Some(j) => j.may_append(e, Ok(())),
        None => true,
    }
}

/// The event numbers ran out, or `log` is a journal that may refuse some event
/// with `message`.
spec fn log_failure(log: Option<Box<dyn EventJournal>>, message: Seq<char>) -> bool {
    message == "event_sequence_exhausted"@ || match log {
        Some(j) => exists|e: EventView| #[trigger] j.may_append(e, Err(message)),
        None => false,
    }
}

/// A scheduler of type `S` may answer some run with the error `message`.
pub open spec fn scheduler_may_fail<S: Scheduler>(message: Seq<char>) -> bool {
    exists|sc: S, spec: RunSpecView, state: RunStateView|
        #[trigger] sc.may_propose(spec, state, Err::<Option<StepView>, Seq<char>>(message))
}

/// The RunFailed event a run records for step `step_id` as event `sequence`.
pub open spec fn run_failed_event(run_id: Seq<char>, step_id: Seq<char>, detail: Seq<char>, sequence: u64) -> EventView {
    kernel_event(run_id, Some(step_id), EventKind::RunFailed, detail, None, sequence as nat)
}

/// The state is the start state with the events of the run so far applied:
/// committed effects appended, one step consumed per proposal, and one denial
/// recorded per proposal that did not start.
pub open spec fn tracks(state: crate::runspec::RunStateView, events: Seq<EventView>, start: crate::runspec::RunStateView) -> bool {
    &&& state.run_id == start.run_id
    &&& state.messages == start.messages + committed_messages(events)
    &&& state.outputs == start.outputs + committed_outputs(events)
    &&& state.next_step_index == start.next_step_index + count_kind(events, EventKind::StepProposed)
    &&& state.denied_actions.len() + count_kind(events, EventKind::StepStarted) == start.denied_actions.len()
        + count_kind(events, EventKind::StepProposed)
    &&& state.denied_actions == start.denied_actions + denied_steps(events)
}

proof fn lemma_tracks_empty(start: crate::runspec::RunStateView)
    ensures
        tracks(start, Seq::empty(), start),
{
    assert(start.messages + committed_messages(Seq::<EventView>::empty()) =~= start.messages);
    assert(start.outputs + committed_outputs(Seq::<EventView>::empty()) =~= start.outputs);
    assert(start.denied_actions + denied_steps(Seq::<EventView>::empty()) =~= start.denied_actions);
}

proof fn lemma_tracks_push(
    state: crate::runspec::RunStateView,
    events: Seq<EventView>,
    start: crate::runspec::RunStateView,
    e: EventView,
)
    requires
        tracks(state, events, start),
        neutral(e),
    ensures
        tracks(state, events.push(e), start),
{
    lemma_append_one(events, e);
    assert(committed_messages(events.push(e)) =~= committed_messages(events));
    assert(committed_outputs(events.push(e)) =~= committed_outputs(events));
    assert(events.push(e).drop_last() == events);
}

/// An event that neither proposes nor starts a step, records no decision of
/// the shell, and commits no effect.
pub open spec fn neutral(e: EventView) -> bool {
    e.kind != EventKind::StepProposed && e.kind != EventKind::StepStarted && e.kind
        != EventKind::EffectCommitted && e.kind != EventKind::ShellDecision
}

/// The step the kernel runs after the shell's `decision` on `proposed`: the
/// proposed step itself, or the shell's replacement when it rewrote it.
pub open spec fn executed_step(proposed: StepView, decision: ShellDecisionView) -> StepView {
    match decision {
        ShellDecisionView::Rewrite { new_step, .. } => new_step,
        _ => proposed,
    }
}

/// The events one step records when `proposed` was proposed and the shell
/// decided `decision` on it: the proposal and the decision; and, unless the
/// decision denies the step, the start of the step the decision leaves, the
/// creation and completion of its child run when it delegates, and its
/// completion, proposed effect and committed effect, all three under one
/// summary.
pub open spec fn step_block(block: Seq<EventView>, proposed: StepView, decision: ShellDecisionView) -> bool {
    &&& block.len() >= 2
    &&& block[0].kind == EventKind::StepProposed
    &&& block[0].step_id == Some(proposed.id)
    &&& block[0].detail == proposed.title
    &&& block[1].kind == EventKind::ShellDecision
    &&& block[1].step_id == Some(proposed.id)
    &&& block[1].detail == decision_detail(decision)
    &&& decision is Deny ==> block.len() == 2
    &&& !(decision is Deny) ==> {
        let executed = executed_step(proposed, decision);
        let n = block.len() as int;
        &&& n == (if executed.action is Delegate { 8int } else { 6int })
        &&& block[2].kind == EventKind::StepStarted
        &&& block[2].step_id == Some(executed.id)
        &&& block[2].detail == executed.title
        &&& executed.action is Delegate ==> block[3].kind == EventKind::ChildRunCreated && block[4].kind
            == EventKind::ChildRunCompleted
        &&& block[n - 3].kind == EventKind::StepCompleted
        &&& block[n - 2].kind == EventKind::EffectProposed
        &&& block[n - 1].kind == EventKind::EffectCommitted
        &&& block[n - 2].detail == block[n - 3].detail
        &&& block[n - 1].detail == block[n - 3].detail
        &&& block[n - 3].step_id == Some(executed.id)
        &&& block[n - 2].step_id == Some(executed.id)
        &&& block[n - 1].step_id == Some(executed.id)
    }
}

/// Step `k` of a run that started in `start` and recorded `head` before its
/// steps: in the state the run had reached, a scheduler of type `S` may have
/// proposed `proposals[k]`, the shell decided `decisions[k]` on it, and
/// `blocks[k]` is what the step recorded.
pub open spec fn step_taken<S: Scheduler, H: Shell>(
    shell: H,
    spec: RunSpecView,
    start: RunStateView,
    head: Seq<EventView>,
    blocks: Seq<Seq<EventView>>,
    proposals: Seq<StepView>,
    decisions: Seq<ShellDecisionView>,
    k: int,
) -> bool {
    let at = state_after(start, head + blocks.take(k).flatten());
    &&& step_block(blocks[k], proposals[k], decisions[k])
    &&& exists|sc: S| #[trigger] sc.may_propose(spec, at, Ok::<Option<StepView>, Seq<char>>(Some(proposals[k])))
    &&& decisions[k] == shell.decision(spec, at, proposals[k])
}

/// The `events` a run that started in `start` recorded after `head` are its
/// steps one after another, each taken as `step_taken` says.
pub open spec fn in_step_blocks<S: Scheduler, H: Shell>(
    shell: H,
    spec: RunSpecView,
    start: RunStateView,
    head: Seq<EventView>,
    events: Seq<EventView>,
) -> bool {
    exists|blocks: Seq<Seq<EventView>>, proposals: Seq<StepView>, decisions: Seq<ShellDecisionView>|
        #![trigger blocks.flatten(), proposals.len(), decisions.len()]
        {
            &&& blocks.flatten() == events
            &&& blocks.len() == proposals.len()
            &&& blocks.len() == decisions.len()
            &&& forall|k: int|
                0 <= k < blocks.len() ==> #[trigger] step_taken::<S, H>(shell, spec, start, head, blocks, proposals, decisions, k)
        }
}

/// The detail of a decision event records a denial.
pub open spec fn denies(detail: Seq<char>) -> bool {
    detail.len() >= 5 && detail.subrange(0, 5) == "deny:"@
}

/// The detail the kernel records for a decision of the shell.
pub open spec fn decision_detail(d: ShellDecisionView) -> Seq<char> {
    match d {
        ShellDecisionView::Allow => "allow"@,
        ShellDecisionView::Rewrite { reason, .. } => "rewrite:"@ + reason,
        ShellDecisionView::Deny { reason } => "deny:"@ + reason,
    }
}

/// A recorded decision denies exactly when the shell denied.
proof fn lemma_decision_detail_denies(d: ShellDecisionView)
    ensures
        denies(decision_detail(d)) <==> d is Deny,
{
    reveal_strlit("allow");
    reveal_strlit("rewrite:");
    reveal_strlit("deny:");
    match d {
        ShellDecisionView::Allow => {
            assert(decision_detail(d).subrange(0, 5)[0] == 'a');
        },
        ShellDecisionView::Rewrite { reason, .. } => {
            assert(decision_detail(d)[0] == 'r');
            assert(decision_detail(d).subrange(0, 5)[0] == 'r');
        },
        ShellDecisionView::Deny { reason } => {
            assert(decision_detail(d).subrange(0, 5) =~= "deny:"@);
        },
    }
}

/// The ids of the steps the shell denied, in the order of their decision events.
pub open spec fn denied_steps(events: Seq<EventView>) -> Seq<Seq<char>>
    decreases events.len(),
{
    if events.len() == 0 {
        Seq::empty()
    } else if events.last().kind == EventKind::ShellDecision && denies(events.last().detail) {
        denied_steps(events.drop_last()).push(
            match events.last().step_id {
                Some(id) => id,
                None => Seq::empty(),
            },
        )
    } else {
        denied_steps(events.drop_last())
    }
}

/// The state a run of `spec` starts in: ready, at its first step, with nothing recorded.
pub open spec fn ready_state(spec: RunSpecView) -> RunStateView {
    RunStateView {
        run_id: spec.run_id,
        status: RunStatus::Ready,
        next_step_index: 0,
        messages: Seq::empty(),
        outputs: Seq::empty(),
        denied_actions: Seq::empty(),
    }
}

/// The state of a run that started in `start`, while it runs, once `events`
/// are recorded: committed effects applied, one step consumed per proposal,
/// and the denied steps noted.
pub open spec fn state_after(start: RunStateView, events: Seq<EventView>) -> RunStateView {
    RunStateView {
        run_id: start.run_id,
        status: RunStatus::Running,
        next_step_index: (start.next_step_index + count_kind(events, EventKind::StepProposed)) as usize,
        messages: start.messages + committed_messages(events),
        outputs: start.outputs + committed_outputs(events),
        denied_actions: start.denied_actions + denied_steps(events),
    }
}

/// A decision event `decided` answers the step proposed by `proposed` in run
/// state `at`: the two name the same step, and the decision recorded is what
/// `shell` decides in `at` for a step with that id and the proposed title.
#[verifier::opaque]
pub open spec fn answers<H: Shell>(
    shell: H,
    spec: RunSpecView,
    at: RunStateView,
    proposed: EventView,
    decided: EventView,
) -> bool {
    &&& proposed.kind == EventKind::StepProposed
    &&& proposed.step_id == decided.step_id
    &&& exists|step: StepView|
        #![trigger shell.decision(spec, at, step)]
        decided.step_id == Some(step.id) && proposed.detail == step.title && decided.detail == decision_detail(
            shell.decision(spec, at, step),
        )
}

/// Event `i` of a run that started in `start` keeps the audit: a decision
/// event answers the step proposed just before it, in the state the run was
/// in when that step was proposed, and a step is started only right after a
/// decision that did not deny it.
pub open spec fn audited_at<H: Shell>(shell: H, spec: RunSpecView, start: RunStateView, events: Seq<EventView>, i: int) -> bool {
    &&& events[i].kind == EventKind::ShellDecision ==> 1 <= i && answers(
        shell,
        spec,
        state_after(start, events.subrange(0, i - 1)),
        events[i - 1],
        events[i],
    )
    &&& events[i].kind == EventKind::StepStarted ==> 1 <= i && events[i - 1].kind == EventKind::ShellDecision
        && !denies(events[i - 1].detail)
}

/// The events of a run that started in `start` keep an audit of the shell:
/// every event keeps it.
pub open spec fn audited<H: Shell>(shell: H, spec: RunSpecView, start: RunStateView, events: Seq<EventView>) -> bool {
    forall|i: int| 0 <= i < events.len() ==> #[trigger] audited_at(shell, spec, start, events, i)
}

proof fn lemma_audited_push<H: Shell>(shell: H, spec: RunSpecView, start: RunStateView, events: Seq<EventView>, e: EventView)
    requires
        audited(shell, spec, start, events),
        e.kind == EventKind::ShellDecision ==> events.len() >= 1 && answers(
            shell,
            spec,
            state_after(start, events.drop_last()),
            events.last(),
            e,
        ),
        e.kind == EventKind::StepStarted ==> events.len() >= 1 && events.last().kind == EventKind::ShellDecision
            && !denies(events.last().detail),
    ensures
        audited(shell, spec, start, events.push(e)),
{
    let ev = events.push(e);
    assert forall|i: int| 0 <= i < ev.len() implies #[trigger] audited_at(shell, spec, start, ev, i) by {
        if i < events.len() {
            assert(audited_at(shell, spec, start, events, i));
            assert(ev[i] == events[i]);
            if i >= 1 {
                assert(ev[i - 1] == events[i - 1]);
                assert(ev.subrange(0, i - 1) == events.subrange(0, i - 1));
            }
        } else {
            assert(ev[i] == e);
            if i >= 1 {
                assert(ev[i - 1] == events.last());
                assert(ev.subrange(0, i - 1) == events.drop_last());
            }
        }
    }
}

/// Appending events that record no decision and start no step keeps the audit.
proof fn lemma_audited_neutral_tail<H: Shell>(
    shell: H,
    spec: RunSpecView,
    start: RunStateView,
    events: Seq<EventView>,
    prefix_len: int,
)
    requires
        0 <= prefix_len <= events.len(),
        audited(shell, spec, start, events.subrange(0, prefix_len)),
        forall|i: int| prefix_len <= i < events.len() ==> neutral(#[trigger] events[i]),
    ensures
        audited(shell, spec, start, events),
{
    let pre = events.subrange(0, prefix_len);
    assert forall|i: int| 0 <= i < events.len() implies #[trigger] audited_at(shell, spec, start, events, i) by {
        if i >= prefix_len {
            assert(neutral(events[i]));
        } else {
            assert(audited_at(shell, spec, start, pre, i));
            assert(pre[i] == events[i]);
            if i >= 1 {
                assert(pre[i - 1] == events[i - 1]);
                assert(pre.subrange(0, i - 1) == events.subrange(0, i - 1));
            }
        }
    }
}

/// `effect` is a proposal the kernel may get by running `step` in `state`: the
/// step's message, an answer the transport may give to the invocation, or the
/// merge of a result the child-run transport may deliver for the validated
/// child once its run completed.
pub open spec fn step_yields<T: CapabilityTransport, R: SubRunTransport>(
    transport: T,
    subrun: R,
    spec: RunSpec,
    state: RunStateView,
    step: StepView,
    effect: crate::runspec::EffectView,
) -> bool {
    match step.action {
        StepActionView::Message { role, content } => effect == message_proposal_view(role, content),
        StepActionView::CapabilityInvoke { capability_id, input } => transport.may_return(
            spec.capability_leases@,
            capability_id,
            input,
            spec@,
            state,
            Ok(effect),
        ),
        StepActionView::Delegate { child, merge_mode } => child_run_verdict(spec@, child) is Ok && exists|
            child_state: RunStateView,
            event_count: nat,
            res: ChildRunResultView,
        |
            #![trigger subrun.may_deliver(child, child_state, event_count, res)]
            child_state.status == RunStatus::Completed && child_state.run_id == child.run.run_id
                && subrun.may_deliver(child, child_state, event_count, res) && effect == child_proposal_view(
                res,
                merge_mode,
            ),
    }
}

/// The event, if it commits an effect, commits what running its step yields.
#[verifier::opaque]
pub open spec fn commits_yield<T: CapabilityTransport, R: SubRunTransport>(
    transport: T,
    subrun: R,
    spec: RunSpec,
    e: EventView,
) -> bool {
    e.kind == EventKind::EffectCommitted ==> (e.effect matches Some(effect) && exists|
        state: RunStateView,
        step: StepView,
    |
        #![trigger step_yields(transport, subrun, spec, state, step, effect)]
        e.step_id == Some(step.id) && step_yields(transport, subrun, spec, state, step, effect))
}

/// Every effect committed in `events` is what running its step yields.
pub open spec fn committed_yields<T: CapabilityTransport, R: SubRunTransport>(
    transport: T,
    subrun: R,
    spec: RunSpec,
    events: Seq<EventView>,
) -> bool {
    forall|i: int| 0 <= i < events.len() ==> #[trigger] commits_yield(transport, subrun, spec, events[i])
}

proof fn lemma_committed_push<T: CapabilityTransport, R: SubRunTransport>(
    transport: T,
    subrun: R,
    spec: RunSpec,
    events: Seq<EventView>,
    e: EventView,
)
    requires
        committed_yields(transport, subrun, spec, events),
        commits_yield(transport, subrun, spec, e),
    ensures
        committed_yields(transport, subrun, spec, events.push(e)),
{
    assert forall|i: int| 0 <= i < events.push(e).len() implies #[trigger] commits_yield(
        transport,
        subrun,
        spec,
        events.push(e)[i],
    ) by {
        if i < events.len() {
            assert(events.push(e)[i] == events[i]);
        }
    }
}

proof fn lemma_commits_yield_other<T: CapabilityTransport, R: SubRunTransport>(transport: T, subrun: R, spec: RunSpec, e: EventView)
    requires
        e.kind != EventKind::EffectCommitted,
    ensures
        commits_yield(transport, subrun, spec, e),
{
    reveal(commits_yield);
}

proof fn lemma_committed_neutral_tail<T: CapabilityTransport, R: SubRunTransport>(
    transport: T,
    subrun: R,
    spec: RunSpec,
    events: Seq<EventView>,
    prefix_len: int,
)
    requires
        0 <= prefix_len <= events.len(),
        committed_yields(transport, subrun, spec, events.subrange(0, prefix_len)),
        forall|i: int| prefix_len <= i < events.len() ==> neutral(#[trigger] events[i]),
    ensures
        committed_yields(transport, subrun, spec, events),
{
    assert forall|i: int| 0 <= i < events.len() implies #[trigger] commits_yield(transport, subrun, spec, events[i]) by {
        if i < prefix_len {
            assert(events.subrange(0, prefix_len)[i] == events[i]);
        } else {
            assert(neutral(events[i]));
            lemma_commits_yield_other(transport, subrun, spec, events[i]);
        }
    }
}

/// The run state as it was while the run was running.
pub open spec fn while_running(state: RunStateView) -> RunStateView {
    RunStateView { status: RunStatus::Running, ..state }
}

/// The event records a step the scheduler handed out: some state of the
/// scheduler, asked about the run at cursor `index`, hands back a step with the
/// event's id and title.
#[verifier::opaque]
pub open spec fn proposed_by<S: Scheduler>(spec: RunSpecView, index: nat, e: EventView) -> bool {
    exists|sc: S, st: RunStateView, step: StepView|
        #![trigger sc.may_propose(spec, st, Ok::<Option<StepView>, Seq<char>>(Some(step)))]
        sc.may_propose(spec, st, Ok::<Option<StepView>, Seq<char>>(Some(step))) && st.next_step_index == index
            && e.step_id == Some(step.id) && e.detail == step.title
}

/// Event `i`, if it proposes a step, records the step the scheduler handed out
/// at the cursor the run had reached: `start` plus the steps proposed before it.
pub open spec fn scheduled_at<S: Scheduler>(spec: RunSpecView, start: nat, events: Seq<EventView>, i: int) -> bool {
    events[i].kind == EventKind::StepProposed ==> proposed_by::<S>(
        spec,
        start + count_kind(events.subrange(0, i), EventKind::StepProposed),
        events[i],
    )
}

/// Every step proposed in `events` is one the scheduler handed out, in order,
/// starting at cursor `start`.
pub open spec fn scheduled<S: Scheduler>(spec: RunSpecView, start: nat, events: Seq<EventView>) -> bool {
    forall|i: int| 0 <= i < events.len() ==> #[trigger] scheduled_at::<S>(spec, start, events, i)
}

/// Under the queue scheduler, the steps a run proposes are the
/// specification's own, in order: the k-th proposal (counting from cursor
/// `start`) names the step at index `start + k`.
pub proof fn lemma_queue_proposes_spec_steps(spec: RunSpecView, start: nat, events: Seq<EventView>, i: int)
    requires
        scheduled::<QueueScheduler>(spec, start, events),
        0 <= i < events.len(),
        events[i].kind == EventKind::StepProposed,
    ensures
        ({
            let index = start + count_kind(events.subrange(0, i), EventKind::StepProposed);
            &&& index < spec.steps.len()
            &&& events[i].step_id == Some(spec.steps[index as int].id)
            &&& events[i].detail == spec.steps[index as int].title
        }),
{
    assert(scheduled_at::<QueueScheduler>(spec, start, events, i));
    reveal(proposed_by);
    let index = start + count_kind(events.subrange(0, i), EventKind::StepProposed);
    let (sc, st, step) = choose|sc: QueueScheduler, st: RunStateView, step: StepView|
        sc.may_propose(spec, st, Ok::<Option<StepView>, Seq<char>>(Some(step))) && st.next_step_index == index
            && events[i].step_id == Some(step.id) && events[i].detail == step.title;
    assert(step_at_view(spec, st.next_step_index) == Some(step));
}

/// A queue scheduler never answers with an error, so a run it schedules never
/// stops on a scheduler error.
pub proof fn lemma_queue_never_fails(message: Seq<char>)
    ensures
        !scheduler_may_fail::<QueueScheduler>(message),
{
}

/// Under the queue scheduler, a run ends only once its cursor is past the
/// specification's last step.
pub proof fn lemma_queue_ends_past_last_step(spec: RunSpecView, state: RunStateView)
    requires
        exists|sc: QueueScheduler| #[trigger] sc.may_propose(spec, state, Ok::<Option<StepView>, Seq<char>>(None)),
    ensures
        state.next_step_index >= spec.steps.len(),
{
    let sc = choose|sc: QueueScheduler| #[trigger] sc.may_propose(spec, state, Ok::<Option<StepView>, Seq<char>>(None));
    assert(step_at_view(spec, state.next_step_index) is None);
}

/// No event from position `k` on proposes a step.
pub open spec fn no_proposal_from(events: Seq<EventView>, k: nat) -> bool {
    forall|i: int| k <= i < events.len() ==> (#[trigger] events[i]).kind != EventKind::StepProposed
}

proof fn lemma_no_proposal_push(events: Seq<EventView>, k: nat, e: EventView)
    requires
        no_proposal_from(events, k),
        e.kind != EventKind::StepProposed,
    ensures
        no_proposal_from(events.push(e), k),
{
    assert forall|i: int| k <= i < events.push(e).len() implies (#[trigger] events.push(e)[i]).kind
        != EventKind::StepProposed by {
        if i < events.len() {
            assert(events.push(e)[i] == events[i]);
        }
    }
}

proof fn lemma_no_proposal_neutral_tail(events: Seq<EventView>, k: nat, prefix_len: int)
    requires
        0 <= prefix_len <= events.len(),
        no_proposal_from(events.subrange(0, prefix_len), k),
        forall|i: int| prefix_len <= i < events.len() ==> neutral(#[trigger] events[i]),
    ensures
        no_proposal_from(events, k),
{
    assert forall|i: int| k <= i < events.len() implies (#[trigger] events[i]).kind != EventKind::StepProposed by {
        if i < prefix_len {
            assert(events.subrange(0, prefix_len)[i] == events[i]);
        } else {
            assert(neutral(events[i]));
        }
    }
}

/// Appending an event that proposes no step keeps the schedule.
proof fn lemma_scheduled_push<S: Scheduler>(spec: RunSpecView, start: nat, events: Seq<EventView>, e: EventView)
    requires
        scheduled::<S>(spec, start, events),
        e.kind != EventKind::StepProposed,
    ensures
        scheduled::<S>(spec, start, events.push(e)),
{
    let ev = events.push(e);
    assert forall|i: int| 0 <= i < ev.len() implies #[trigger] scheduled_at::<S>(spec, start, ev, i) by {
        if i < events.len() {
            assert(scheduled_at::<S>(spec, start, events, i));
            assert(ev[i] == events[i]);
            assert(ev.subrange(0, i) == events.subrange(0, i));
        }
    }
}

/// The checkpoint the kernel writes for `state` after event `last_sequence`.
pub open spec fn checkpoint_view(state: crate::runspec::RunStateView, last_sequence: u64) -> RunStoreRecordView {
    RunStoreRecordView {
        checkpoint_version: CHECKPOINT_SCHEMA_VERSION,
        run_id: state.run_id,
        spec_digest: Seq::empty(),
        last_sequence,
        writer_epoch: 0,
        applied_commit_ids: Set::empty(),
        state,
    }
}

proof fn lemma_append_one(events: Seq<EventView>, e: EventView)
    ensures
        count_kind(events.push(e), EventKind::StepProposed) == count_kind(events, EventKind::StepProposed)
            + if e.kind == EventKind::StepProposed { 1nat } else { 0nat },
        count_kind(events.push(e), EventKind::StepStarted) == count_kind(events, EventKind::StepStarted)
            + if e.kind == EventKind::StepStarted { 1nat } else { 0nat },
        committed_messages(events.push(e)) == committed_messages(events) + match committed_effect(e) {
            Some(x) => x.messages,
            None => Seq::<MessageView>::empty(),
        },
        committed_outputs(events.push(e)) == committed_outputs(events) + match committed_effect(e) {
            Some(x) => x.outputs,
            None => Seq::<Seq<char>>::empty(),
        },
{
    assert(events.push(e).drop_last() == events);
}

proof fn lemma_denied_push(events: Seq<EventView>, e: EventView)
    ensures
        denied_steps(events.push(e)) == if e.kind == EventKind::ShellDecision && denies(e.detail) {
            denied_steps(events).push(
                match e.step_id {
                    Some(id) => id,
                    None => Seq::empty(),
                },
            )
        } else {
            denied_steps(events)
        },
{
    assert(events.push(e).drop_last() == events);
}

proof fn lemma_numbered_push(events: Seq<EventView>, run_id: Seq<char>, base: nat, e: EventView)
    requires
        numbered_from(events, run_id, base),
        e.run_id == run_id,
        e.sequence == base + events.len() + 1,
        e.causation_id == causation_for(run_id, (base + events.len() + 1) as nat),
    ensures
        numbered_from(events.push(e), run_id, base),
{
    assert forall|i: int| 0 <= i < events.push(e).len() implies {
        &&& (#[trigger] events.push(e)[i]).run_id == run_id
        &&& events.push(e)[i].sequence == base + i + 1
        &&& events.push(e)[i].causation_id == causation_for(run_id, (base + i + 1) as nat)
    } by {
        if i < events.len() {
            assert(events.push(e)[i] == events[i]);
        }
    }
}

/// Neutral events change neither the step counts nor the committed effects.
proof fn lemma_neutral_tail(events: Seq<EventView>, prefix_len: int)
    requires
        0 <= prefix_len <= events.len(),
        forall|i: int| prefix_len <= i < events.len() ==> neutral(#[trigger] events[i]),
    ensures
        count_kind(events, EventKind::StepProposed) == count_kind(
            events.subrange(0, prefix_len),
            EventKind::StepProposed,
        ),
        count_kind(events, EventKind::StepStarted) == count_kind(
            events.subrange(0, prefix_len),
            EventKind::StepStarted,
        ),
        committed_messages(events) == committed_messages(events.subrange(0, prefix_len)),
        committed_outputs(events) == committed_outputs(events.subrange(0, prefix_len)),
        denied_steps(events) == denied_steps(events.subrange(0, prefix_len)),
    decreases events.len(),
{
    if events.len() > prefix_len {
        let shorter = events.drop_last();
        assert forall|i: int| prefix_len <= i < shorter.len() implies neutral(#[trigger] shorter[i]) by {
            assert(shorter[i] == events[i]);
        }
        lemma_neutral_tail(shorter, prefix_len);
        assert(shorter.subrange(0, prefix_len) == events.subrange(0, prefix_len));
        assert(neutral(events[events.len() - 1]));
        assert(committed_messages(events) =~= committed_messages(shorter));
        assert(committed_outputs(events) =~= committed_outputs(shorter));
    } else {
        assert(events.subrange(0, prefix_len) == events);
    }
}

// ---------------------------------------------------------------------------
// Checks on child runs
// ---------------------------------------------------------------------------

/// `path` lies under `base`, comparing whole path components (as
/// `std::path::Path::starts_with` decides).
pub uninterp spec fn path_starts_with(path: Seq<char>, base: Seq<char>) -> bool;

/// Whether `path` lies under `base`, by `std::path::Path::starts_with`.
#[verifier::external_body]
fn path_is_under(path: &str, base: &str) -> (r: bool)
    ensures
        r == path_starts_with(path@, base@),
{
    std::path::Path::new(path).starts_with(std::path::Path::new(base))
}

/// The first capability of `child` that `parent` does not show.
pub open spec fn first_not_visible(child: Seq<Seq<char>>, parent: Seq<Seq<char>>) -> Option<Seq<char>>
    decreases child.len(),
{
    if child.len() == 0 {
        None
    } else if !parent.contains(child[0]) {
        Some(child[0])
    } else {
        first_not_visible(child.drop_first(), parent)
    }
}

/// The first lease of `leases` for `capability_id`.
pub open spec fn first_lease_for(leases: Seq<CapabilityLeaseView>, capability_id: Seq<char>) -> Option<
    CapabilityLeaseView,
>
    decreases leases.len(),
{
    if leases.len() == 0 {
        None
    } else if leases[0].capability_id == capability_id {
        Some(leases[0])
    } else {
        first_lease_for(leases.drop_first(), capability_id)
    }
}

/// The first lease of `child` that `parent` does not delegate: either no parent
/// lease names its capability, or the first parent lease that does lacks one of
/// its permissions.
pub open spec fn first_undelegated(
    child: Seq<CapabilityLeaseView>,
    parent: Seq<CapabilityLeaseView>,
) -> Option<Seq<char>>
    decreases child.len(),
{
    if child.len() == 0 {
        None
    } else {
        let lease = child[0];
        match first_lease_for(parent, lease.capability_id) {
            None => Some("child_capability_not_delegated:"@ + lease.capability_id),
            Some(p) => match first_not_visible(lease.permissions, p.permissions) {
                Some(perm) => Some(
                    "child_permission_not_delegated:"@ + lease.capability_id + ":"@ + perm,
                ),
                None => first_undelegated(child.drop_first(), parent),
            },
        }
    }
}

/// Whether `child` may run under `parent`, and if not, why: it must name the
/// parent, stay within its step budget and workspace, see only capabilities the
/// parent sees, and hold only leases and permissions the parent holds.
pub open spec fn child_run_verdict(parent: RunSpecView, child: ChildRunSpecView) -> Result<(), Seq<char>> {
    child_run_verdict_given(
        parent,
        child,
        path_starts_with(child.run.namespace.workspace_root, parent.namespace.workspace_root),
    )
}

/// The verdict on `child`, given whether its workspace lies under the parent's.
pub open spec fn child_run_verdict_given(parent: RunSpecView, child: ChildRunSpecView, within_workspace: bool) -> Result<
    (),
    Seq<char>,
> {
    if child.parent_run_id != parent.run_id {
        Err("child_parent_mismatch:"@ + child.parent_run_id + ":"@ + parent.run_id)
    } else if child.run.budget.max_steps > parent.budget.max_steps {
        Err(
            "child_budget_exceeds_parent:"@ + decimal(child.run.budget.max_steps as nat) + ":"@
                + decimal(parent.budget.max_steps as nat),
        )
    } else if !within_workspace {
        Err("child_namespace_outside_parent:"@ + child.run.namespace.workspace_root)
    } else {
        match first_not_visible(
            child.run.namespace.visible_capabilities,
            parent.namespace.visible_capabilities,
        ) {
            Some(c) => Err("child_namespace_capability_not_visible:"@ + c),
            None => match first_undelegated(child.run.capability_leases, parent.capability_leases) {
                Some(e) => Err(e),
                None => Ok(()),
            },
        }
    }
}

proof fn lemma_none_missing(items: Seq<Seq<char>>, allowed: Seq<Seq<char>>)
    requires
        first_not_visible(items, allowed) is None,
    ensures
        forall|x: Seq<char>| items.contains(x) ==> allowed.contains(x),
    decreases items.len(),
{
    if items.len() > 0 {
        lemma_none_missing(items.drop_first(), allowed);
        assert forall|x: Seq<char>| items.contains(x) implies allowed.contains(x) by {
            let k = choose|k: int| 0 <= k < items.len() && items[k] == x;
            if k > 0 {
                assert(items.drop_first()[k - 1] == x);
            }
        }
    }
}

proof fn lemma_first_lease_found(leases: Seq<CapabilityLeaseView>, capability_id: Seq<char>)
    requires
        first_lease_for(leases, capability_id) is Some,
    ensures
        exists|j: int|
            0 <= j < leases.len() && leases[j] == first_lease_for(leases, capability_id)->Some_0
                && leases[j].capability_id == capability_id,
    decreases leases.len(),
{
    if leases[0].capability_id == capability_id {
        assert(leases[0] == first_lease_for(leases, capability_id)->Some_0);
    } else {
        lemma_first_lease_found(leases.drop_first(), capability_id);
        let j = choose|j: int|
            0 <= j < leases.drop_first().len() && leases.drop_first()[j] == first_lease_for(
                leases.drop_first(),
                capability_id,
            )->Some_0 && leases.drop_first()[j].capability_id == capability_id;
        assert(leases[j + 1] == leases.drop_first()[j]);
    }
}

proof fn lemma_none_undelegated(child: Seq<CapabilityLeaseView>, parent: Seq<CapabilityLeaseView>)
    requires
        first_undelegated(child, parent) is None,
    ensures
        forall|i: int|
            0 <= i < child.len() ==> exists|j: int|
                0 <= j < parent.len() && parent[j].capability_id == (#[trigger] child[i]).capability_id
                    && forall|perm: Seq<char>| child[i].permissions.contains(perm) ==> parent[j].permissions.contains(perm),
    decreases child.len(),
{
    if child.len() > 0 {
        let lease = child[0];
        let found = first_lease_for(parent, lease.capability_id);
        assert(found is Some);
        let p = found->Some_0;
        assert(first_not_visible(lease.permissions, p.permissions) is None);
        lemma_none_missing(lease.permissions, p.permissions);
        lemma_first_lease_found(parent, lease.capability_id);
        lemma_none_undelegated(child.drop_first(), parent);
        assert forall|i: int| 0 <= i < child.len() implies exists|j: int|
            0 <= j < parent.len() && parent[j].capability_id == (#[trigger] child[i]).capability_id
                && forall|perm: Seq<char>| child[i].permissions.contains(perm) ==> parent[j].permissions.contains(perm) by {
            if i > 0 {
                assert(child[i] == child.drop_first()[i - 1]);
            } else {
                let j = choose|j: int|
                    0 <= j < parent.len() && parent[j] == p && parent[j].capability_id == lease.capability_id;
                assert(parent[j].capability_id == child[0].capability_id);
            }
        }
    }
}

/// A child run that passes validation stays within its parent: it names the
/// parent, its budget is no larger, its workspace lies under the parent's, it
/// sees only capabilities the parent sees, and each of its leases is backed by
/// a parent lease for the same capability granting every permission it holds.
pub proof fn lemma_validated_child_within_parent(parent: RunSpecView, child: ChildRunSpecView)
    requires
        child_run_verdict(parent, child) is Ok,
    ensures
        child.parent_run_id == parent.run_id,
        child.run.budget.max_steps <= parent.budget.max_steps,
        path_starts_with(child.run.namespace.workspace_root, parent.namespace.workspace_root),
        forall|c: Seq<char>|
            child.run.namespace.visible_capabilities.contains(c) ==> parent.namespace.visible_capabilities.contains(c),
        forall|i: int|
            0 <= i < child.run.capability_leases.len() ==> exists|j: int|
                0 <= j < parent.capability_leases.len() && parent.capability_leases[j].capability_id
                    == (#[trigger] child.run.capability_leases[i]).capability_id && forall|perm: Seq<char>|
                    child.run.capability_leases[i].permissions.contains(perm)
                        ==> parent.capability_leases[j].permissions.contains(perm),
{
    lemma_none_missing(child.run.namespace.visible_capabilities, parent.namespace.visible_capabilities);
    lemma_none_undelegated(child.run.capability_leases, parent.capability_leases);
}

/// The first entry of `items` that `allowed` lacks.
fn first_missing(items: &Vec<String>, allowed: &Vec<String>) -> (r: Option<usize>)
    ensures
        match r {
            Some(i) => i < items@.len() && first_not_visible(items.deep_view(), allowed.deep_view())
                == Some(items.deep_view()[i as int]),
            None => first_not_visible(items.deep_view(), allowed.deep_view()) is None,
        },
{
    let mut i: usize = 0;
    assert(items.deep_view().subrange(0, items.deep_view().len() as int) == items.deep_view());
    while i < items.len()
        invariant
            i <= items@.len(),
            first_not_visible(items.deep_view(), allowed.deep_view()) == first_not_visible(
                items.deep_view().subrange(i as int, items.deep_view().len() as int),
                allowed.deep_view(),
            ),
        decreases items@.len() - i,
    {
        let ghost rest = items.deep_view().subrange(i as int, items.deep_view().len() as int);
        assert(rest[0] == items.deep_view()[i as int]);
        assert(rest.drop_first() == items.deep_view().subrange(i + 1, items.deep_view().len() as int));
        if !list_contains(allowed, items[i].as_str()) {
            return Some(i);
        }
        i = i + 1;
    }
    None
}

/// The position of the first lease for `capability_id`.
fn find_lease(leases: &Vec<CapabilityLease>, capability_id: &str) -> (r: Option<usize>)
    ensures
        match r {
            Some(i) => i < leases@.len() && first_lease_for(leases_view(leases@), capability_id@)
                == Some(leases@[i as int]@),
            None => first_lease_for(leases_view(leases@), capability_id@) is None,
        },
{
    let ghost all = leases_view(leases@);
    let mut i: usize = 0;
    assert(all.subrange(0, all.len() as int) == all);
    while i < leases.len()
        invariant
            all == leases_view(leases@),
            i <= leases@.len(),
            first_lease_for(all, capability_id@) == first_lease_for(
                all.subrange(i as int, all.len() as int),
                capability_id@,
            ),
        decreases leases@.len() - i,
    {
        let ghost rest = all.subrange(i as int, all.len() as int);
        assert(rest[0] == leases@[i as int]@);
        assert(rest.drop_first() == all.subrange(i + 1, all.len() as int));
        if str_eq(leases[i].capability_id.as_str(), capability_id) {
            return Some(i);
        }
        i = i + 1;
    }
    None
}

/// Checks that `child` may run under `parent`.
pub fn validate_child_run(parent: &RunSpec, child: &ChildRunSpec) -> (r: Result<(), String>)
    ensures
        match (r, child_run_verdict(parent@, child@)) {
            (Ok(()), Ok(())) => true,
            (Err(e), Err(expected)) => e@ == expected,
            _ => false,
        },
{
    let within = path_is_under(child.run.namespace.workspace_root.as_str(), parent.namespace.workspace_root.as_str());
    check_child_run(parent, child, within)
}

/// Checks that `child` may run under `parent`, given whether the child's
/// workspace lies under the parent's.
pub fn check_child_run(parent: &RunSpec, child: &ChildRunSpec, within_workspace: bool) -> (r: Result<(), String>)
    ensures
        match (r, child_run_verdict_given(parent@, child@, within_workspace)) {
            (Ok(()), Ok(())) => true,
            (Err(e), Err(expected)) => e@ == expected,
            _ => false,
        },
{
    if !str_eq(child.parent_run_id.as_str(), parent.run_id.as_str()) {
        let mut e = owned("child_parent_mismatch:");
        push_str(&mut e, child.parent_run_id.as_str());
        push_str(&mut e, ":");
        push_str(&mut e, parent.run_id.as_str());
        return Err(e);
    }
    if child.run.budget.max_steps > parent.budget.max_steps {
        let mut e = owned("child_budget_exceeds_parent:");
        push_decimal(&mut e, child.run.budget.max_steps as u128);
        push_str(&mut e, ":");
        push_decimal(&mut e, parent.budget.max_steps as u128);
        return Err(e);
    }
    if !within_workspace {
        let mut e = owned("child_namespace_outside_parent:");
        push_str(&mut e, child.run.namespace.workspace_root.as_str());
        return Err(e);
    }
    match first_missing(&child.run.namespace.visible_capabilities, &parent.namespace.visible_capabilities) {
        Some(i) => {
            let mut e = owned("child_namespace_capability_not_visible:");
            push_str(&mut e, child.run.namespace.visible_capabilities[i].as_str());
            return Err(e);
        },
        None => {},
    }
    let child_leases = &child.run.capability_leases;
    let ghost all = leases_view(child_leases@);
    let ghost parents = leases_view(parent.capability_leases@);
    let mut k: usize = 0;
    assert(all.subrange(0, all.len() as int) == all);
    assert(child@.run == child.run@);
    assert(child.run@.capability_leases == all);
    assert(parent@.capability_leases == parents);
    while k < child_leases.len()
        invariant
            all == leases_view(child_leases@),
            parents == leases_view(parent.capability_leases@),
            k <= child_leases@.len(),
            first_undelegated(all, parents) == first_undelegated(all.subrange(k as int, all.len() as int), parents),
            child_run_verdict_given(parent@, child@, within_workspace) == match first_undelegated(all, parents) {
                Some(e) => Err(e),
                None => Ok(()),
            },
        decreases child_leases@.len() - k,
    {
        let ghost rest = all.subrange(k as int, all.len() as int);
        assert(rest[0] == child_leases@[k as int]@);
        assert(rest.drop_first() == all.subrange(k + 1, all.len() as int));
        let lease = &child_leases[k];
        match find_lease(&parent.capability_leases, lease.capability_id.as_str()) {
            None => {
                let mut e = owned("child_capability_not_delegated:");
                push_str(&mut e, lease.capability_id.as_str());
                assert(first_undelegated(rest, parents) == Some(
                    "child_capability_not_delegated:"@ + lease.capability_id@,
                ));
                return Err(e);
            },
            Some(p) => {
                match first_missing(&lease.permissions, &parent.capability_leases[p].permissions) {
                    Some(j) => {
                        let mut e = owned("child_permission_not_delegated:");
                        push_str(&mut e, lease.capability_id.as_str());
                        push_str(&mut e, ":");
                        push_str(&mut e, lease.permissions[j].as_str());
                        assert(parent.capability_leases@[p as int]@.permissions
                            == parent.capability_leases@[p as int].permissions.deep_view());
                        assert(first_undelegated(rest, parents) == Some(
                            "child_permission_not_delegated:"@ + lease.capability_id@ + ":"@
                                + lease.permissions.deep_view()[j as int],
                        ));
                        return Err(e);
                    },
                    None => {},
                }
            },
        }
        k = k + 1;
    }
    Ok(())
}

// ---------------------------------------------------------------------------
// Effects
// ---------------------------------------------------------------------------

/// What a message step proposes: the message itself, under the summary
/// `message:<role>`, with no outputs.
pub open spec fn message_proposal_view(role: Seq<char>, content: Seq<char>) -> crate::runspec::EffectView {
    crate::runspec::EffectView {
        summary: "message:"@ + role,
        messages: seq![MessageView { role, content }],
        outputs: Seq::empty(),
    }
}

/// What a parent proposes once a child run returns: a proposal named
/// `child_run:<id>` that either notes how many effects the child proposed
/// (`SummaryOnly`) or carries all their messages and outputs (`AppendMessages`).
pub open spec fn child_proposal_view(result: crate::runspec::ChildRunResultView, mode: MergeMode) -> crate::runspec::EffectView {
    let summary = "child_run:"@ + result.run_id;
    match mode {
        MergeMode::SummaryOnly => crate::runspec::EffectView {
            summary,
            messages: Seq::empty(),
            outputs: seq![
                "child_summary:"@ + result.run_id + ":"@ + decimal(result.proposed_effects.len())
                    + " proposed_effects"@,
            ],
        },
        MergeMode::AppendMessages => crate::runspec::EffectView {
            summary,
            messages: merged_messages(result.proposed_effects),
            outputs: merged_outputs(result.proposed_effects),
        },
    }
}

/// The messages of the effects, in order.
pub open spec fn merged_messages(effects: Seq<crate::runspec::EffectView>) -> Seq<MessageView>
    decreases effects.len(),
{
    if effects.len() == 0 {
        Seq::empty()
    } else {
        merged_messages(effects.drop_last()) + effects.last().messages
    }
}

/// The outputs of the effects, in order.
pub open spec fn merged_outputs(effects: Seq<crate::runspec::EffectView>) -> Seq<Seq<char>>
    decreases effects.len(),
{
    if effects.len() == 0 {
        Seq::empty()
    } else {
        merged_outputs(effects.drop_last()) + effects.last().outputs
    }
}

/// Merging messages and outputs is splitting-invariant: merging the effects
/// of two results one after the other gives the merge of each, in order.
pub proof fn lemma_merge_appends(first: Seq<crate::runspec::EffectView>, second: Seq<crate::runspec::EffectView>)
    ensures
        merged_messages(first + second) == merged_messages(first) + merged_messages(second),
        merged_outputs(first + second) == merged_outputs(first) + merged_outputs(second),
    decreases second.len(),
{
    if second.len() == 0 {
        assert(first + second =~= first);
        assert(merged_messages(first) + merged_messages(second) =~= merged_messages(first));
        assert(merged_outputs(first) + merged_outputs(second) =~= merged_outputs(first));
    } else {
        let fs = first + second;
        lemma_merge_appends(first, second.drop_last());
        assert(fs.drop_last() =~= first + second.drop_last());
        assert(fs.last() == second.last());
        assert(merged_messages(fs) == merged_messages(fs.drop_last()) + fs.last().messages);
        assert(merged_outputs(fs) == merged_outputs(fs.drop_last()) + fs.last().outputs);
        assert(merged_messages(second) == merged_messages(second.drop_last()) + second.last().messages);
        assert(merged_outputs(second) == merged_outputs(second.drop_last()) + second.last().outputs);
        assert(merged_messages(fs) =~= merged_messages(first) + merged_messages(second));
        assert(merged_outputs(fs) =~= merged_outputs(first) + merged_outputs(second));
    }
}

/// With `AppendMessages`, a child result with a single proposed effect hands
/// the parent exactly that effect's messages and outputs.
pub proof fn lemma_append_merge_of_one_effect(result: crate::runspec::ChildRunResultView)
    requires
        result.proposed_effects.len() == 1,
    ensures
        child_proposal_view(result, MergeMode::AppendMessages).messages == result.proposed_effects[0].messages,
        child_proposal_view(result, MergeMode::AppendMessages).outputs == result.proposed_effects[0].outputs,
        child_proposal_view(result, MergeMode::AppendMessages).summary == "child_run:"@ + result.run_id,
{
    let e = result.proposed_effects;
    assert(e.drop_last() =~= Seq::<crate::runspec::EffectView>::empty());
    assert(merged_messages(e.drop_last()) == Seq::<MessageView>::empty());
    assert(merged_outputs(e.drop_last()) == Seq::<Seq<char>>::empty());
    assert(merged_messages(e) == merged_messages(e.drop_last()) + e.last().messages);
    assert(merged_outputs(e) == merged_outputs(e.drop_last()) + e.last().outputs);
    assert(merged_messages(e) =~= e[0].messages);
    assert(merged_outputs(e) =~= e[0].outputs);
}

/// With `AppendMessages`, the merged messages and outputs of a child result
/// whose effects are those of `first` followed by those of `second` are the
/// merged ones of `first` followed by the merged ones of `second`: every
/// effect the child proposed reaches the parent, in order.
pub proof fn lemma_append_merge_keeps_every_effect(
    result: crate::runspec::ChildRunResultView,
    first: crate::runspec::ChildRunResultView,
    second: crate::runspec::ChildRunResultView,
)
    requires
        result.proposed_effects == first.proposed_effects + second.proposed_effects,
    ensures
        child_proposal_view(result, MergeMode::AppendMessages).messages == child_proposal_view(
            first,
            MergeMode::AppendMessages,
        ).messages + child_proposal_view(second, MergeMode::AppendMessages).messages,
        child_proposal_view(result, MergeMode::AppendMessages).outputs == child_proposal_view(
            first,
            MergeMode::AppendMessages,
        ).outputs + child_proposal_view(second, MergeMode::AppendMessages).outputs,
{
    lemma_merge_appends(first.proposed_effects, second.proposed_effects);
}

/// The proposal a parent makes from a child run's result.
pub fn child_run_proposal(result: crate::runspec::ChildRunResult, mode: MergeMode) -> (r: EffectProposal)
    ensures
        r@ == child_proposal_view(result@, mode),
{
    let mut summary = owned("child_run:");
    push_str(&mut summary, result.run_id.as_str());
    let mut proposal = EffectProposal::empty(summary.as_str());
    match mode {
        MergeMode::SummaryOnly => {
            let mut line = owned("child_summary:");
            push_str(&mut line, result.run_id.as_str());
            push_str(&mut line, ":");
            push_decimal(&mut line, result.proposed_effects.len() as u128);
            push_str(&mut line, " proposed_effects");
            proposal.outputs.push(line);
            assert(proposal@.outputs =~= child_proposal_view(result@, mode).outputs);
            assert(proposal@.messages =~= child_proposal_view(result@, mode).messages);
        },
        MergeMode::AppendMessages => {
            let ghost effects = crate::runspec::proposals_view(result.proposed_effects@);
            let crate::runspec::ChildRunResult { proposed_effects, .. } = result;
            let mut i: usize = 0;
            while i < proposed_effects.len()
                invariant
                    i <= proposed_effects@.len(),
                    effects == crate::runspec::proposals_view(proposed_effects@),
                    proposal@.summary == summary@,
                    proposal@.messages == merged_messages(effects.subrange(0, i as int)),
                    proposal@.outputs == merged_outputs(effects.subrange(0, i as int)),
                decreases proposed_effects@.len() - i,
            {
                let ghost m0 = proposal@.messages;
                let ghost o0 = proposal@.outputs;
                let mut more_messages = clone_messages(&proposed_effects[i].messages);
                let mut more_outputs = clone_strings(&proposed_effects[i].outputs);
                proposal.messages.append(&mut more_messages);
                proposal.outputs.append(&mut more_outputs);
                proof {
                    let next = effects.subrange(0, i + 1);
                    assert(next.drop_last() == effects.subrange(0, i as int));
                    assert(next.last() == proposed_effects@[i as int]@);
                    assert(proposal@.messages =~= m0 + next.last().messages);
                    assert(proposal@.outputs =~= o0 + next.last().outputs);
                }
                i = i + 1;
            }
            assert(effects.subrange(0, i as int) == effects);
        },
    }
    proposal
}

/// Adds an effect's messages and outputs to the run state.
pub fn apply_effect(state: &mut RunState, effect: Effect)
    ensures
        final(state)@ == (crate::runspec::RunStateView {
            messages: old(state)@.messages + effect@.messages,
            outputs: old(state)@.outputs + effect@.outputs,
            ..old(state)@
        }),
{
    let ghost m0 = old(state)@.messages;
    let ghost o0 = old(state)@.outputs;
    let Effect { summary, mut messages, mut outputs } = effect;
    let ghost mv = messages_view(messages@);
    let ghost ov = outputs.deep_view();
    let ghost before_m = state.messages@;
    let ghost before_o = state.outputs@;
    state.messages.append(&mut messages);
    state.outputs.append(&mut outputs);
    assert(messages_view(state.messages@) =~= m0 + mv);
    assert(state.outputs.deep_view() =~= o0 + ov);
}

/// The debug name of a run status.
fn status_name(status: RunStatus) -> (r: &'static str)
    ensures
        r@ == status_name_spec(status),
{
    match status {
        RunStatus::Ready => "Ready",
        RunStatus::Running => "Running",
        RunStatus::Completed => "Completed",
        RunStatus::Failed => "Failed",
    }
}

/// The name `{:?}` prints for a run status.
pub open spec fn status_name_spec(status: RunStatus) -> Seq<char> {
    match status {
        RunStatus::Ready => "Ready"@,
        RunStatus::Running => "Running"@,
        RunStatus::Completed => "Completed"@,
        RunStatus::Failed => "Failed"@,
    }
}

/// The detail a run records for the shell's decision on a step: `allow`,
/// `rewrite:<reason>` or `deny:<reason>`.
pub fn decision_text(decision: &ShellDecision) -> (r: String)
    ensures
        r@ == decision_detail(decision@),
{
    match decision {
        ShellDecision::Allow => owned("allow"),
        ShellDecision::Rewrite { reason, .. } => {
            let mut detail = owned("rewrite:");
            push_str(&mut detail, reason.as_str());
            detail
        },
        ShellDecision::Deny { reason } => {
            let mut detail = owned("deny:");
            push_str(&mut detail, reason.as_str());
            detail
        },
    }
}

/// The error a run stops with when the transport refuses a capability call
/// with `detail`: a denial when the detail says so, a capability failure
/// otherwise.
pub fn capability_failure(detail: String) -> (r: KernelError)
    ensures
        starts_with_seq(detail@, "capability_denied:"@) ==> (r matches KernelError::Denied(d) && d@ == detail@),
        !starts_with_seq(detail@, "capability_denied:"@) ==> (r matches KernelError::Capability(d) && d@ == detail@),
{
    if starts_with_str(detail.as_str(), "capability_denied:") {
        KernelError::Denied(detail)
    } else {
        KernelError::Capability(detail)
    }
}

/// The detail of a run that ran out of its budget of `max_steps` steps.
pub fn budget_exceeded_detail(max_steps: usize) -> (r: String)
    ensures
        r@ == "budget_exceeded:"@ + decimal(max_steps as nat),
{
    let mut detail = owned("budget_exceeded:");
    push_decimal(&mut detail, max_steps as u128);
    detail
}

// ---------------------------------------------------------------------------
// The kernel
// ---------------------------------------------------------------------------

/// Runs a specification step by step: the scheduler proposes, the shell
/// decides, the transport executes, and every transition is recorded as an
/// event and checkpointed.
pub struct Kernel<S, H, T, R> {
    scheduler: S,
    shell: H,
    transport: T,
    subrun_transport: R,
    event_log: Option<Box<dyn EventJournal>>,
    run_store: CheckpointStore,
}

/// Where a kernel keeps its checkpoints: a store of its own in memory, or the
/// store it was given.
enum CheckpointStore {
    Memory(MemoryRunStore),
    Given(Box<dyn RunStore>),
}

impl<S, H, T> Kernel<S, H, T, LocalSubRunTransport> {
    /// A kernel that runs child runs in process and keeps checkpoints in memory.
    pub fn new(scheduler: S, shell: H, transport: T, event_log: Option<Box<dyn EventJournal>>) -> (r: Self)
        ensures
            r.shell() == shell,
            r.transport() == transport,
            r.subrun_transport() == LocalSubRunTransport,
            r.checkpoints() == Map::<Seq<char>, RunStoreRecordView>::empty(),
            r.keeps_checkpoints_in_memory(),
    {
        Kernel {
            scheduler,
            shell,
            transport,
            subrun_transport: LocalSubRunTransport,
            event_log,
            run_store: CheckpointStore::Memory(MemoryRunStore::new()),
        }
    }
}

impl<S, H, T, R> Kernel<S, H, T, R> {
    /// A kernel with the given child-run transport that keeps checkpoints in memory.
    pub fn with_subrun_transport(
        scheduler: S,
        shell: H,
        transport: T,
        subrun_transport: R,
        event_log: Option<Box<dyn EventJournal>>,
    ) -> (r: Self)
        ensures
            r.shell() == shell,
            r.transport() == transport,
            r.subrun_transport() == subrun_transport,
            r.checkpoints() == Map::<Seq<char>, RunStoreRecordView>::empty(),
            r.keeps_checkpoints_in_memory(),
    {
        Kernel {
            scheduler,
            shell,
            transport,
            subrun_transport,
            event_log,
            run_store: CheckpointStore::Memory(MemoryRunStore::new()),
        }
    }

    /// A kernel with every service given.
    pub fn with_services(
        scheduler: S,
        shell: H,
        transport: T,
        subrun_transport: R,
        event_log: Option<Box<dyn EventJournal>>,
        run_store: Box<dyn RunStore>,
    ) -> (r: Self)
        ensures
            r.shell() == shell,
            r.transport() == transport,
            r.subrun_transport() == subrun_transport,
            !r.keeps_checkpoints_in_memory(),
    {
        Kernel { scheduler, shell, transport, subrun_transport, event_log, run_store: CheckpointStore::Given(run_store) }
    }

    /// The shell that decides on every step the kernel runs.
    pub closed spec fn shell(&self) -> H {
        self.shell
    }

    /// Whether the kernel records its events in a journal.
    pub closed spec fn journaled(&self) -> bool {
        self.event_log is Some
    }

    /// The journal accepts `e`: appending it may succeed (always so without a journal).
    pub closed spec fn journal_takes(&self, e: EventView) -> bool {
        log_takes(self.event_log, e)
    }

    /// Every event of `events` is one the journal accepts.
    pub closed spec fn journal_took_all(&self, events: Seq<EventView>) -> bool {
        forall|i: int| 0 <= i < events.len() ==> #[trigger] log_takes(self.event_log, events[i])
    }

    proof fn lemma_took_push(&self, events: Seq<EventView>, e: EventView)
        requires
            self.journal_took_all(events),
            self.journal_takes(e),
        ensures
            self.journal_took_all(events.push(e)),
    {
        assert forall|i: int| 0 <= i < events.push(e).len() implies #[trigger] log_takes(self.event_log, events.push(e)[i]) by {
            if i < events.len() {
                assert(events.push(e)[i] == events[i]);
            }
        }
    }

    /// The journal may refuse `e` with `error`.
    pub closed spec fn journal_refuses(&self, e: EventView, error: Seq<char>) -> bool {
        match self.event_log {
            Some(j) => j.may_append(e, Err(error)),
            None => false,
        }
    }

    /// A journal failure with `message`: the event numbers ran out, or the
    /// journal refused an event with that message.
    pub closed spec fn journal_failure(&self, message: Seq<char>) -> bool {
        log_failure(self.event_log, message)
    }

    /// A run stopped on its budget, the one of `m` steps named in `detail`,
    /// for some `m` of at most `max_steps`: the journal took its RunFailed event
    /// with `detail`, and its checkpoint, stored as Failed with the step cursor
    /// at or past `m`, ends with that event.
    pub open spec fn stopped_on_budget(&self, detail: Seq<char>, max_steps: nat) -> bool {
        exists|id: Seq<char>, run_id: Seq<char>, m: nat, step_id: Seq<char>|
            #![trigger decimal(m), self.journal_takes(run_failed_event(run_id, step_id, detail, self.checkpoints()[id].last_sequence))]
            {
                &&& m <= max_steps
                &&& detail == "budget_exceeded:"@ + decimal(m)
                &&& self.checkpoints().contains_key(id)
                &&& self.checkpoints()[id].state.status == RunStatus::Failed
                &&& self.checkpoints()[id].state.next_step_index >= m
                &&& self.journal_takes(run_failed_event(run_id, step_id, detail, self.checkpoints()[id].last_sequence))
            }
    }

    proof fn lemma_stopped_wider(&self, detail: Seq<char>, a: nat, b: nat)
        requires
            self.stopped_on_budget(detail, a),
            a <= b,
        ensures
            self.stopped_on_budget(detail, b),
    {
    }

    /// The transport that reaches the capabilities a run invokes.
    pub closed spec fn transport(&self) -> T {
        self.transport
    }

    /// The transport that hands child results back.
    pub closed spec fn subrun_transport(&self) -> R {
        self.subrun_transport
    }

    /// The checkpoints the kernel's run store holds.
    pub closed spec fn checkpoints(&self) -> Map<Seq<char>, RunStoreRecordView> {
        match self.run_store {
            CheckpointStore::Memory(m) => m.stored(),
            CheckpointStore::Given(b) => b.stored(),
        }
    }

    /// Whether the kernel keeps its checkpoints in a store of its own in
    /// memory, where putting and getting one never fails.
    pub closed spec fn keeps_checkpoints_in_memory(&self) -> bool {
        self.run_store is Memory
    }

    /// The checkpoint stored for `run_id`, if any.
    pub fn checkpoint_of(&self, run_id: &str) -> (r: Result<Option<RunStoreRecord>, String>)
        ensures
            r matches Ok(found) ==> match found {
                Some(x) => self.checkpoints().contains_key(run_id@) && x@ == self.checkpoints()[run_id@],
                None => !self.checkpoints().contains_key(run_id@),
            },
            self.keeps_checkpoints_in_memory() ==> r is Ok,
    {
        match &self.run_store {
            CheckpointStore::Memory(m) => m.get(run_id),
            CheckpointStore::Given(b) => b.get(run_id),
        }
    }
}

impl<S: Scheduler, H: Shell, T: CapabilityTransport, R: SubRunTransport> Kernel<S, H, T, R> {
    /// Runs `spec` from its first step.
    pub fn run(&mut self, spec: &RunSpec) -> (r: Result<RunReport, KernelError>)
        ensures
            final(self).shell() == old(self).shell(),
            final(self).transport() == old(self).transport(),
            final(self).subrun_transport() == old(self).subrun_transport(),
            r matches Ok(report) ==> {
                let ev = events_view(report.events@);
                &&& report.state@.run_id == spec.run_id@
                &&& report.state.status == RunStatus::Completed
                &&& numbered_from(ev, spec.run_id@, 0)
                &&& ev.len() >= 3
                &&& ev[0] == kernel_event(spec.run_id@, None, EventKind::RunCreated, spec.name@, None, 1)
                &&& ev[1] == kernel_event(spec.run_id@, None, EventKind::RunStarted, "kernel_started"@, None, 2)
                &&& ev.last() == kernel_event(spec.run_id@, None, EventKind::RunCompleted, "ok"@, None, ev.len())
                &&& report.state@.messages == committed_messages(ev)
                &&& report.state@.outputs == committed_outputs(ev)
                &&& report.state.next_step_index == count_kind(ev, EventKind::StepProposed)
                &&& report.state.next_step_index <= spec.budget.max_steps
                &&& report.state@.denied_actions.len() + count_kind(ev, EventKind::StepStarted)
                    == count_kind(ev, EventKind::StepProposed)
                &&& report.state@.denied_actions == denied_steps(ev)
                &&& audited(old(self).shell(), spec@, ready_state(spec@), ev)
                &&& scheduled::<S>(spec@, 0, ev)
                &&& exists|sc: S| #[trigger] sc.may_propose(spec@, while_running(report.state@), Ok::<Option<StepView>, Seq<char>>(None))
                &&& committed_yields(old(self).transport(), old(self).subrun_transport(), *spec, ev)
                &&& final(self).checkpoints().contains_key(spec.run_id@)
                &&& final(self).checkpoints()[spec.run_id@] == checkpoint_view(report.state@, ev.len() as u64)
                &&& old(self).journal_took_all(ev)
                &&& in_step_blocks::<S, H>(old(self).shell(), spec@, ready_state(spec@), ev.subrange(0, 2), ev.subrange(2, ev.len() - 1))
            },
            r matches Err(KernelError::BudgetExceeded(d)) ==> final(self).stopped_on_budget(d@, spec.budget.max_steps as nat),
            r matches Err(KernelError::EventLog(m)) ==> old(self).journal_failure(m@),
            r matches Err(KernelError::RunStore(_)) ==> !old(self).keeps_checkpoints_in_memory(),
            final(self).keeps_checkpoints_in_memory() == old(self).keeps_checkpoints_in_memory(),
            r matches Err(KernelError::Scheduler(e)) ==> scheduler_may_fail::<S>(e@),
    {
        let state = RunState::from_spec(spec);
        let r = self.run_from_state(spec, state, false, 0, MAX_CHILD_RUN_DEPTH);
        proof {
            if r is Ok {
                let report = r->Ok_0;
                assert(report.state@.messages =~= committed_messages(events_view(report.events@)));
                assert(report.state@.outputs =~= committed_outputs(events_view(report.events@)));
                assert(report.state@.denied_actions =~= denied_steps(events_view(report.events@)));
            }
        }
        r
    }

    /// Continues `spec` from the checkpoint stored under its run id.
    pub fn resume(&mut self, spec: &RunSpec) -> (r: Result<RunReport, KernelError>)
        ensures
            final(self).shell() == old(self).shell(),
            final(self).transport() == old(self).transport(),
            final(self).subrun_transport() == old(self).subrun_transport(),
            !old(self).checkpoints().contains_key(spec.run_id@) ==> (r matches Err(
                KernelError::MissingCheckpoint(id),
            ) && id@ == spec.run_id@) || (r matches Err(KernelError::RunStore(_)) && !old(self).keeps_checkpoints_in_memory()),
            r matches Err(KernelError::BudgetExceeded(d)) ==> final(self).stopped_on_budget(d@, spec.budget.max_steps as nat),
            r matches Err(KernelError::EventLog(m)) ==> old(self).journal_failure(m@),
            r matches Err(KernelError::RunStore(_)) ==> !old(self).keeps_checkpoints_in_memory(),
            final(self).keeps_checkpoints_in_memory() == old(self).keeps_checkpoints_in_memory(),
            r matches Err(KernelError::Scheduler(e)) ==> scheduler_may_fail::<S>(e@),
            r matches Ok(report) ==> {
                let ev = events_view(report.events@);
                let start = old(self).checkpoints()[spec.run_id@];
                &&& old(self).checkpoints().contains_key(spec.run_id@)
                &&& report.state@.run_id == start.state.run_id
                &&& report.state.status == RunStatus::Completed
                &&& numbered_from(ev, spec.run_id@, start.last_sequence as nat)
                &&& ev.len() >= 2
                &&& ev[0] == kernel_event(spec.run_id@, None, EventKind::RunStarted, "kernel_resumed"@, None, (start.last_sequence + 1) as nat)
                &&& ev.last() == kernel_event(spec.run_id@, None, EventKind::RunCompleted, "ok"@, None, (start.last_sequence + ev.len()) as nat)
                &&& report.state@.messages == start.state.messages + committed_messages(ev)
                &&& report.state@.outputs == start.state.outputs + committed_outputs(ev)
                &&& report.state.next_step_index == start.state.next_step_index + count_kind(ev, EventKind::StepProposed)
                &&& report.state@.denied_actions.len() + count_kind(ev, EventKind::StepStarted)
                    == start.state.denied_actions.len() + count_kind(ev, EventKind::StepProposed)
                &&& report.state@.denied_actions == start.state.denied_actions + denied_steps(ev)
                &&& audited(old(self).shell(), spec@, start.state, ev)
                &&& scheduled::<S>(spec@, start.state.next_step_index as nat, ev)
                &&& exists|sc: S| #[trigger] sc.may_propose(spec@, while_running(report.state@), Ok::<Option<StepView>, Seq<char>>(None))
                &&& committed_yields(old(self).transport(), old(self).subrun_transport(), *spec, ev)
                &&& final(self).checkpoints().contains_key(report.state@.run_id)
                &&& final(self).checkpoints()[report.state@.run_id] == checkpoint_view(
                    report.state@, (start.last_sequence + ev.len()) as u64)
                &&& old(self).journal_took_all(ev)
                &&& in_step_blocks::<S, H>(old(self).shell(), spec@, start.state, ev.subrange(0, 1), ev.subrange(1, ev.len() - 1))
            },
    {
        let found = match self.checkpoint_of(spec.run_id.as_str()) {
            Ok(found) => found,
            Err(e) => return Err(KernelError::RunStore(e)),
        };
        let checkpoint = match found {
            Some(record) => record,
            None => return Err(KernelError::MissingCheckpoint(spec.run_id.clone())),
        };
        let ghost start = checkpoint@;
        let last_sequence = checkpoint.last_sequence;
        let state = checkpoint.state;
        assert(state@ == start.state);
        self.run_from_state(spec, state, true, last_sequence, MAX_CHILD_RUN_DEPTH)
    }

    /// Records an event and keeps the numbering facts the run relies on.
    fn record(
        &self,
        events: &mut Vec<Event>,
        bus: &mut InMemoryEventBus,
        base: u64,
        run_id: &str,
        step_id: Option<String>,
        kind: EventKind,
        detail: String,
        effect: Option<Effect>,
    ) -> (r: Result<(), KernelError>)
        requires
            numbered_from(events_view(old(events)@), run_id@, base as nat),
            self.journal_took_all(events_view(old(events)@)),
        ensures
            self.journal_took_all(events_view(final(events)@)),
            r is Ok ==> {
                let e = kernel_event(
                    run_id@,
                    opt_string_view(step_id),
                    kind,
                    detail@,
                    match effect {
                        Some(x) => Some(x@),
                        None => None,
                    },
                    (base + old(events)@.len() + 1) as nat,
                );
                &&& events_view(final(events)@) == events_view(old(events)@).push(e)
                &&& numbered_from(events_view(final(events)@), run_id@, base as nat)
                &&& base + final(events)@.len() <= u64::MAX
                &&& self.journal_takes(e)
            },
            r is Err ==> (r matches Err(KernelError::EventLog(_))),
            r is Err ==> final(events)@ == old(events)@,
            r matches Err(KernelError::EventLog(m)) ==> (base + old(events)@.len() + 1 > u64::MAX && m@ == "event_sequence_exhausted"@) || self.journal_refuses(
                kernel_event(
                    run_id@,
                    opt_string_view(step_id),
                    kind,
                    detail@,
                    match effect {
                        Some(x) => Some(x@),
                        None => None,
                    },
                    (base + old(events)@.len() + 1) as nat,
                ),
                m@,
            ),
            !self.journaled() && base + old(events)@.len() + 1 <= u64::MAX ==> r is Ok,
            r matches Err(KernelError::EventLog(m)) ==> self.journal_failure(m@),
    {
        let ghost before = events_view(events@);
        let r = self.push_event(events, bus, base, run_id, step_id, kind, detail, effect);
        proof {
            if r is Ok {
                let ev = events_view(events@);
                lemma_numbered_push(before, run_id@, base as nat, ev.last());
                assert(ev.drop_last() == before);
                self.lemma_took_push(before, ev.last());
                assert(before.push(ev.last()) == ev);
            }
        }
        r
    }

    fn run_from_state(
        &mut self,
        spec: &RunSpec,
        state: RunState,
        resumed: bool,
        base: u64,
        depth: u64,
    ) -> (r: Result<RunReport, KernelError>)
        ensures
            final(self).shell == old(self).shell,
            final(self).transport == old(self).transport,
            final(self).subrun_transport == old(self).subrun_transport,
            final(self).event_log == old(self).event_log,
            r matches Ok(report) ==> {
                let ev = events_view(report.events@);
                let n = ev.len();
                &&& numbered_from(ev, spec.run_id@, base as nat)
                &&& report.state.status == RunStatus::Completed
                &&& tracks(report.state@, ev, state@)
                &&& audited(old(self).shell, spec@, state@, ev)
                &&& scheduled::<S>(spec@, state.next_step_index as nat, ev)
                &&& committed_yields(old(self).transport, old(self).subrun_transport, *spec, ev)
                &&& exists|sc: S| #[trigger] sc.may_propose(
                    spec@,
                    while_running(report.state@),
                    Ok::<Option<StepView>, Seq<char>>(None),
                )
                &&& !resumed ==> n >= 3 && ev[0] == kernel_event(spec.run_id@, None, EventKind::RunCreated, spec.name@, None, (base + 1) as nat)
                    && ev[1] == kernel_event(spec.run_id@, None, EventKind::RunStarted, "kernel_started"@, None, (base + 2) as nat)
                &&& resumed ==> n >= 2 && ev[0] == kernel_event(spec.run_id@, None, EventKind::RunStarted, "kernel_resumed"@, None, (base + 1) as nat)
                &&& ev.last() == kernel_event(spec.run_id@, None, EventKind::RunCompleted, "ok"@, None, (base + n) as nat)
                &&& report.state.next_step_index <= spec.budget.max_steps || count_kind(ev, EventKind::StepProposed) == 0
                &&& final(self).checkpoints().contains_key(state@.run_id)
                &&& final(self).checkpoints()[state@.run_id] == checkpoint_view(report.state@, (base + n) as u64)
                &&& old(self).journal_took_all(ev)
                &&& in_step_blocks::<S, H>(
                    old(self).shell,
                    spec@,
                    state@,
                    ev.subrange(0, if resumed { 1 } else { 2 }),
                    ev.subrange(if resumed { 1 } else { 2 }, n - 1),
                )
            },
            r matches Err(KernelError::BudgetExceeded(d)) ==> final(self).stopped_on_budget(d@, spec.budget.max_steps as nat),
            r matches Err(KernelError::EventLog(m)) ==> old(self).journal_failure(m@),
            r matches Err(KernelError::RunStore(_)) ==> !old(self).keeps_checkpoints_in_memory(),
            final(self).keeps_checkpoints_in_memory() == old(self).keeps_checkpoints_in_memory(),
            r matches Err(KernelError::Scheduler(e)) ==> scheduler_may_fail::<S>(e@),
            !(r matches Err(KernelError::MissingCheckpoint(_))),
        decreases depth, 2nat,
    {
        let mut state = state;
        let ghost s0 = state@;
        let ghost shell0 = self.shell;
        let mut events: Vec<Event> = Vec::new();
        let mut bus = InMemoryEventBus::new();
        proof {
            assert(events_view(events@) =~= Seq::<EventView>::empty());
            lemma_tracks_empty(s0);
        }
        if !resumed {
            match self.record(&mut events, &mut bus, base, spec.run_id.as_str(), None, EventKind::RunCreated, spec.name.clone(), None) {
                Ok(()) => {},
                Err(e) => return Err(e),
            }
            proof {
                lemma_scheduled_push::<S>(spec@, s0.next_step_index as nat, Seq::<EventView>::empty(), events_view(events@)[0]);
                lemma_commits_yield_other(self.transport, self.subrun_transport, *spec, events_view(events@)[0]);
                lemma_committed_push(self.transport, self.subrun_transport, *spec, Seq::<EventView>::empty(), events_view(events@)[0]);
                lemma_tracks_push(state@, Seq::<EventView>::empty(), s0, events_view(events@)[0]);
                lemma_audited_push(self.shell, spec@, s0, Seq::<EventView>::empty(), events_view(events@)[0]);
                assert(Seq::<EventView>::empty().push(events_view(events@)[0]) == events_view(events@));
            }
        }
        state.status = RunStatus::Running;
        let started = if resumed { owned("kernel_resumed") } else { owned("kernel_started") };
        let ghost ev_before = events_view(events@);
        match self.record(&mut events, &mut bus, base, spec.run_id.as_str(), None, EventKind::RunStarted, started, None) {
            Ok(()) => {},
            Err(e) => return Err(e),
        }
        let ghost head = events_view(events@);
        proof {
            lemma_tracks_push(state@, ev_before, s0, head.last());
            assert(head.drop_last() == ev_before);
            if resumed {
                assert(ev_before =~= Seq::<EventView>::empty());
            }
            lemma_audited_push(self.shell, spec@, s0, ev_before, head.last());
            lemma_scheduled_push::<S>(spec@, s0.next_step_index as nat, ev_before, head.last());
            lemma_commits_yield_other(self.transport, self.subrun_transport, *spec, head.last());
            lemma_committed_push(self.transport, self.subrun_transport, *spec, ev_before, head.last());
        }
        match self.checkpoint(&state, base + events.len() as u64) {
            Ok(()) => {},
            Err(e) => return Err(e),
        }
        let ghost mut blocks: Seq<Seq<EventView>> = Seq::empty();
        let ghost mut proposals: Seq<StepView> = Seq::empty();
        let ghost mut decisions: Seq<ShellDecisionView> = Seq::empty();
        proof {
            assert(events_view(events@).subrange(head.len() as int, events@.len() as int) =~= blocks.flatten());
        }
        loop
            invariant
                events_view(events@).subrange(head.len() as int, events@.len() as int) == blocks.flatten(),
                blocks.len() == proposals.len(),
                blocks.len() == decisions.len(),
                forall|k: int|
                    0 <= k < blocks.len() ==> #[trigger] step_taken::<S, H>(shell0, spec@, s0, head, blocks, proposals, decisions, k),
                head.len() == (if resumed { 1int } else { 2int }),
                state.status == RunStatus::Running,
                tracks(state@, events_view(events@), s0),
                numbered_from(events_view(events@), spec.run_id@, base as nat),
                self.shell == shell0,
                shell0 == old(self).shell,
                self.transport == old(self).transport,
                self.subrun_transport == old(self).subrun_transport,
                self.event_log == old(self).event_log,
                audited(shell0, spec@, s0, events_view(events@)),
                scheduled::<S>(spec@, s0.next_step_index as nat, events_view(events@)),
                committed_yields(old(self).transport, old(self).subrun_transport, *spec, events_view(events@)),
                events@.len() >= head.len() >= 1,
                events_view(events@).subrange(0, head.len() as int) == head,
                state.next_step_index <= spec.budget.max_steps || count_kind(events_view(events@), EventKind::StepProposed) == 0,
                base + events@.len() <= u64::MAX,
                self.journal_took_all(events_view(events@)),
                self.keeps_checkpoints_in_memory() == old(self).keeps_checkpoints_in_memory(),
            ensures
                exists|sc: S| #[trigger] sc.may_propose(spec@, state@, Ok::<Option<StepView>, Seq<char>>(None)),
            decreases (if state.next_step_index < spec.budget.max_steps {
                spec.budget.max_steps - state.next_step_index
            } else {
                0
            }),
        {
            let ghost sched0 = self.scheduler;
            let next = self.scheduler.next(spec, &state);
            let original_step = match next {
                Err(e) => {
                    assert(sched0.may_propose(spec@, state@, Err::<Option<StepView>, Seq<char>>(e@)));
                    return Err(KernelError::Scheduler(e));
                },
                Ok(None) => {
                    assert(sched0.may_propose(spec@, state@, Ok::<Option<StepView>, Seq<char>>(None)));
                    break;
                },
                Ok(Some(s)) => s,
            };
            let ghost step_v = original_step@;
            let ghost st_before = state@;
            assert(sched0.may_propose(spec@, st_before, Ok::<Option<StepView>, Seq<char>>(Some(step_v))));
            if state.next_step_index >= spec.budget.max_steps {
                state.status = RunStatus::Failed;
                let detail = budget_exceeded_detail(spec.budget.max_steps);
                match self.record(&mut events, &mut bus, base, spec.run_id.as_str(), Some(original_step.id.clone()), EventKind::RunFailed, detail.clone(), None) {
                    Ok(()) => {},
                    Err(e) => return Err(e),
                }
                let ghost failed_seq = (base + events.len()) as u64;
                let ghost failed = run_failed_event(spec.run_id@, original_step@.id, detail@, failed_seq);
                assert(events_view(events@).last() == failed);
                assert(self.journal_takes(failed));
                match self.checkpoint(&state, base + events.len() as u64) {
                    Ok(()) => {},
                    Err(e) => return Err(e),
                }
                proof {
                    let id = state@.run_id;
                    let m = spec.budget.max_steps as nat;
                    assert(self.checkpoints()[id] == checkpoint_view(state@, failed_seq));
                    assert(self.journal_takes(failed));
                    assert(run_failed_event(spec.run_id@, original_step@.id, detail@, self.checkpoints()[id].last_sequence) == failed);
                    assert(detail@ == "budget_exceeded:"@ + decimal(m));
                    assert({
                        &&& m <= spec.budget.max_steps as nat
                        &&& detail@ == "budget_exceeded:"@ + decimal(m)
                        &&& self.checkpoints().contains_key(id)
                        &&& self.checkpoints()[id].state.status == RunStatus::Failed
                        &&& self.checkpoints()[id].state.next_step_index >= m
                        &&& self.journal_takes(run_failed_event(spec.run_id@, original_step@.id, detail@, self.checkpoints()[id].last_sequence))
                    });
                }
                return Err(KernelError::BudgetExceeded(detail));
            }
            let ghost ev0 = events_view(events@);
            let ghost idx0 = state.next_step_index;
            match self.run_step(spec, &mut state, original_step, &mut events, &mut bus, base, depth, Ghost(s0)) {
                Ok(()) => {},
                Err(e) => return Err(e),
            }
            proof {
                let ev = events_view(events@);
                assert(ev.subrange(0, head.len() as int) == ev.subrange(0, ev0.len() as int).subrange(0, head.len() as int));
                let start = s0.next_step_index as nat;
                assert forall|i: int| 0 <= i < ev.len() implies #[trigger] scheduled_at::<S>(spec@, start, ev, i) by {
                    if i < ev0.len() {
                        assert(scheduled_at::<S>(spec@, start, ev0, i));
                        assert(ev.subrange(0, ev0.len() as int)[i] == ev[i]);
                        assert(ev.subrange(0, i) == ev0.subrange(0, i));
                    } else if i == ev0.len() {
                        assert(ev.subrange(0, i) == ev0);
                        assert(st_before.next_step_index == start + count_kind(ev0, EventKind::StepProposed));
                        reveal(proposed_by);
                        assert(ev[i].step_id == Some(step_v.id) && ev[i].detail == step_v.title);
                    } else {
                        assert(ev[i].kind != EventKind::StepProposed);
                    }
                }
                let nb = ev.subrange(ev0.len() as int, ev.len() as int);
                let dk = shell0.decision(spec@, st_before, step_v);
                blocks.lemma_flatten_push(nb);
                assert(ev.subrange(0, ev0.len() as int) == ev0);
                assert(ev.subrange(head.len() as int, ev.len() as int) =~= ev0.subrange(head.len() as int, ev0.len() as int) + nb);
                assert(ev0 =~= head + blocks.flatten());
                assert(st_before == state_after(s0, ev0));
                let nblocks = blocks.push(nb);
                let nprops = proposals.push(step_v);
                let ndecs = decisions.push(dk);
                assert forall|k: int| 0 <= k < nblocks.len() implies #[trigger] step_taken::<S, H>(
                    shell0, spec@, s0, head, nblocks, nprops, ndecs, k,
                ) by {
                    if k < blocks.len() {
                        assert(step_taken::<S, H>(shell0, spec@, s0, head, blocks, proposals, decisions, k));
                        assert(nblocks.take(k) =~= blocks.take(k));
                        assert(nblocks[k] == blocks[k] && nprops[k] == proposals[k] && ndecs[k] == decisions[k]);
                    } else {
                        assert(nblocks.take(k) =~= blocks);
                        assert(state_after(s0, head + nblocks.take(k).flatten()) == st_before);
                        assert(sched0.may_propose(spec@, st_before, Ok::<Option<StepView>, Seq<char>>(Some(step_v))));
                    }
                }
                blocks = nblocks;
                proposals = nprops;
                decisions = ndecs;
            }
            match self.checkpoint(&state, base + events.len() as u64) {
                Ok(()) => {},
                Err(e) => return Err(e),
            }
        }
        let ghost ev7 = events_view(events@);
        match self.record(&mut events, &mut bus, base, spec.run_id.as_str(), None, EventKind::RunCompleted, owned("ok"), None) {
            Ok(()) => {},
            Err(e) => return Err(e),
        }
        proof {
            let ev = events_view(events@);
            lemma_tracks_push(state@, ev7, s0, ev.last());
            assert(ev.drop_last() == ev7);
            lemma_audited_push(shell0, spec@, s0, ev7, ev.last());
            lemma_scheduled_push::<S>(spec@, s0.next_step_index as nat, ev7, ev.last());
            lemma_commits_yield_other(self.transport, self.subrun_transport, *spec, ev.last());
            lemma_committed_push(self.transport, self.subrun_transport, *spec, ev7, ev.last());
            lemma_append_one(ev7, ev.last());
            assert(ev.subrange(0, head.len() as int) == ev7.subrange(0, head.len() as int));
            assert(ev[0] == head[0]);
            if !resumed {
                assert(ev[1] == head[1]);
            }
            assert(ev.subrange(head.len() as int, ev.len() - 1) == ev7.subrange(head.len() as int, ev7.len() as int));
            assert(ev.subrange(0, head.len() as int) == head);
            assert(in_step_blocks::<S, H>(shell0, spec@, s0, ev.subrange(0, head.len() as int), ev.subrange(head.len() as int, ev.len() - 1))) by {
                assert({
                    &&& blocks.flatten() == ev.subrange(head.len() as int, ev.len() - 1)
                    &&& blocks.len() == proposals.len()
                    &&& blocks.len() == decisions.len()
                    &&& forall|k: int|
                        0 <= k < blocks.len() ==> #[trigger] step_taken::<S, H>(shell0, spec@, s0, ev.subrange(0, head.len() as int), blocks, proposals, decisions, k)
                });
            }
        }
        let ghost running = state@;
        state.status = RunStatus::Completed;
        assert(while_running(state@) == running);
        match self.checkpoint(&state, base + events.len() as u64) {
            Ok(()) => {},
            Err(e) => return Err(e),
        }
        Ok(RunReport { state, events })
    }

    /// Takes one step the scheduler proposed: records the proposal, asks the
    /// shell, and either records a denial or runs the (possibly rewritten) step
    /// and commits its effect. The step cursor advances by one either way.
    #[verifier::rlimit(100)]
    fn run_step(
        &mut self,
        spec: &RunSpec,
        state: &mut RunState,
        original_step: Step,
        events: &mut Vec<Event>,
        bus: &mut InMemoryEventBus,
        base: u64,
        depth: u64,
        Ghost(s0): Ghost<crate::runspec::RunStateView>,
    ) -> (r: Result<(), KernelError>)
        requires
            old(state).next_step_index < spec.budget.max_steps,
            old(state).status == RunStatus::Running,
            tracks(old(state)@, events_view(old(events)@), s0),
            numbered_from(events_view(old(events)@), spec.run_id@, base as nat),
            audited(old(self).shell, spec@, s0, events_view(old(events)@)),
            committed_yields(old(self).transport, old(self).subrun_transport, *spec, events_view(old(events)@)),
            old(self).journal_took_all(events_view(old(events)@)),
        ensures
            final(self).journal_took_all(events_view(final(events)@)),
            final(self).shell == old(self).shell,
            final(self).transport == old(self).transport,
            final(self).subrun_transport == old(self).subrun_transport,
            final(self).event_log == old(self).event_log,
            r is Ok ==> {
                &&& final(state).next_step_index == old(state).next_step_index + 1
                &&& final(state).status == old(state).status
                &&& tracks(final(state)@, events_view(final(events)@), s0)
                &&& numbered_from(events_view(final(events)@), spec.run_id@, base as nat)
                &&& audited(final(self).shell, spec@, s0, events_view(final(events)@))
                &&& committed_yields(final(self).transport, final(self).subrun_transport, *spec, events_view(final(events)@))
                &&& final(events)@.len() >= old(events)@.len()
                &&& events_view(final(events)@).subrange(0, old(events)@.len() as int) == events_view(old(events)@)
                &&& base + final(events)@.len() <= u64::MAX
                &&& final(events)@.len() > old(events)@.len()
                &&& events_view(final(events)@)[old(events)@.len() as int] == kernel_event(
                    spec.run_id@,
                    Some(original_step@.id),
                    EventKind::StepProposed,
                    original_step@.title,
                    None,
                    (base + old(events)@.len() + 1) as nat,
                )
                &&& no_proposal_from(events_view(final(events)@), old(events)@.len() + 1)
                &&& step_block(
                    events_view(final(events)@).subrange(old(events)@.len() as int, final(events)@.len() as int),
                    original_step@,
                    old(self).shell.decision(spec@, old(state)@, original_step@),
                )
            },
            r matches Err(KernelError::BudgetExceeded(d)) ==> final(self).stopped_on_budget(d@, spec.budget.max_steps as nat),
            r matches Err(KernelError::EventLog(m)) ==> old(self).journal_failure(m@),
            r matches Err(KernelError::RunStore(_)) ==> !old(self).keeps_checkpoints_in_memory(),
            final(self).keeps_checkpoints_in_memory() == old(self).keeps_checkpoints_in_memory(),
            r matches Err(KernelError::Scheduler(e)) ==> scheduler_may_fail::<S>(e@),
            !(r matches Err(KernelError::MissingCheckpoint(_))),
        decreases depth, 1nat,
    {
        let ghost ev0 = events_view(events@);
        match self.record(events, bus, base, spec.run_id.as_str(), Some(original_step.id.clone()), EventKind::StepProposed, original_step.title.clone(), None) {
            Ok(()) => {},
            Err(e) => return Err(e),
        }
        let ghost ev1 = events_view(events@);
        proof {
            lemma_append_one(ev0, ev1.last());
            assert(ev1.drop_last() == ev0);
            lemma_denied_push(ev0, ev1.last());
            lemma_audited_push(self.shell, spec@, s0, ev0, ev1.last());
            lemma_commits_yield_other(self.transport, self.subrun_transport, *spec, ev1.last());
            lemma_committed_push(self.transport, self.subrun_transport, *spec, ev0, ev1.last());
        }
        let ghost st = state@;
        let ghost original_step_v = original_step@;
        let decision = self.shell.before_step(spec, state, &original_step);
        let ghost dv = decision@;
        proof {
            lemma_decision_detail_denies(dv);
            assert(st == state_after(s0, ev0));
            assert(ev1.drop_last() == ev0);
        }
        let detail = decision_text(&decision);
        let step = match decision {
            ShellDecision::Allow => {
                match self.record(events, bus, base, spec.run_id.as_str(), Some(original_step.id.clone()), EventKind::ShellDecision, detail, None) {
                    Ok(()) => {},
                    Err(e) => return Err(e),
                }
                original_step
            },
            ShellDecision::Rewrite { new_step, .. } => {
                match self.record(events, bus, base, spec.run_id.as_str(), Some(original_step.id.clone()), EventKind::ShellDecision, detail, None) {
                    Ok(()) => {},
                    Err(e) => return Err(e),
                }
                new_step
            },
            ShellDecision::Deny { .. } => {
                let ghost d0 = state@.denied_actions;
                state.denied_actions.push(original_step.id.clone());
                assert(state@.denied_actions =~= d0.push(original_step.id@));
                match self.record(events, bus, base, spec.run_id.as_str(), Some(original_step.id.clone()), EventKind::ShellDecision, detail, None) {
                    Ok(()) => {},
                    Err(e) => return Err(e),
                }
                state.next_step_index = state.next_step_index + 1;
                proof {
                    let ev = events_view(events@);
                    lemma_append_one(ev1, ev.last());
                    assert(ev.drop_last() == ev1);
                    assert(ev.subrange(0, ev0.len() as int) == ev0);
                    assert(ev.last().detail == decision_detail(dv));
                    lemma_denied_push(ev1, ev.last());
                    assert(denied_steps(ev) == denied_steps(ev0).push(original_step.id@));
                    assert(state@.denied_actions =~= s0.denied_actions + denied_steps(ev));
                    reveal(answers);
                    assert(ev.last().step_id == Some(original_step@.id) && ev1.last().detail == original_step@.title
                        && ev.last().detail == decision_detail(self.shell.decision(spec@, st, original_step@)));
                    assert(answers(self.shell, spec@, st, ev1.last(), ev.last()));
                    lemma_audited_push(self.shell, spec@, s0, ev1, ev.last());
                    lemma_commits_yield_other(self.transport, self.subrun_transport, *spec, ev.last());
                    lemma_committed_push(self.transport, self.subrun_transport, *spec, ev1, ev.last());
                    assert(no_proposal_from(ev1, ev0.len() + 1));
                    lemma_no_proposal_push(ev1, ev0.len() + 1, ev.last());
                    assert(ev[ev0.len() as int] == ev1[ev0.len() as int]);
                    let b = ev.subrange(ev0.len() as int, ev.len() as int);
                    assert(b[0] == ev1.last());
                    assert(b[1] == ev.last());
                    assert(step_block(b, original_step@, dv));
                }
                return Ok(());
            },
        };
        let ghost ev2 = events_view(events@);
        assert(step@ == executed_step(original_step_v, dv));
        proof {
            lemma_append_one(ev1, ev2.last());
            assert(ev2.drop_last() == ev1);
            assert(ev2.last().detail == decision_detail(dv));
            lemma_denied_push(ev1, ev2.last());
            reveal(answers);
            assert(ev2.last().step_id == Some(original_step@.id) && ev1.last().detail == original_step@.title
                && ev2.last().detail == decision_detail(self.shell.decision(spec@, st, original_step@)));
            assert(answers(self.shell, spec@, st, ev1.last(), ev2.last()));
            lemma_audited_push(self.shell, spec@, s0, ev1, ev2.last());
            lemma_commits_yield_other(self.transport, self.subrun_transport, *spec, ev2.last());
            lemma_committed_push(self.transport, self.subrun_transport, *spec, ev1, ev2.last());
            assert(no_proposal_from(ev1, ev0.len() + 1));
            lemma_no_proposal_push(ev1, ev0.len() + 1, ev2.last());
        }
        match self.record(events, bus, base, spec.run_id.as_str(), Some(step.id.clone()), EventKind::StepStarted, step.title.clone(), None) {
            Ok(()) => {},
            Err(e) => return Err(e),
        }
        let ghost ev3 = events_view(events@);
        proof {
            lemma_append_one(ev2, ev3.last());
            assert(ev3.drop_last() == ev2);
            lemma_denied_push(ev2, ev3.last());
            lemma_audited_push(self.shell, spec@, s0, ev2, ev3.last());
            lemma_commits_yield_other(self.transport, self.subrun_transport, *spec, ev3.last());
            lemma_committed_push(self.transport, self.subrun_transport, *spec, ev2, ev3.last());
            lemma_no_proposal_push(ev2, ev0.len() + 1, ev3.last());
        }
        let ghost st_exec = state@;
        let ghost transport0 = self.transport;
        let ghost subrun0 = self.subrun_transport;
        let proposal = match self.execute_step(spec, state, &step, events, base, depth) {
            Ok(p) => p,
            Err(e) => return Err(e),
        };
        let ghost ev4 = events_view(events@);
        proof {
            lemma_neutral_tail(ev4, ev3.len() as int);
            lemma_audited_neutral_tail(self.shell, spec@, s0, ev4, ev3.len() as int);
            lemma_committed_neutral_tail(self.transport, self.subrun_transport, *spec, ev4, ev3.len() as int);
            lemma_no_proposal_neutral_tail(ev4, ev0.len() + 1, ev3.len() as int);
            assert(ev4[ev0.len() as int] == ev3[ev0.len() as int]);
        }
        match self.record(events, bus, base, spec.run_id.as_str(), Some(step.id.clone()), EventKind::StepCompleted, proposal.summary.clone(), None) {
            Ok(()) => {},
            Err(e) => return Err(e),
        }
        let ghost ev5 = events_view(events@);
        proof {
            lemma_append_one(ev4, ev5.last());
            assert(ev5.drop_last() == ev4);
            lemma_denied_push(ev4, ev5.last());
            lemma_audited_push(self.shell, spec@, s0, ev4, ev5.last());
            lemma_commits_yield_other(self.transport, self.subrun_transport, *spec, ev5.last());
            lemma_committed_push(self.transport, self.subrun_transport, *spec, ev4, ev5.last());
            lemma_no_proposal_push(ev4, ev0.len() + 1, ev5.last());
        }
        match self.record(events, bus, base, spec.run_id.as_str(), Some(step.id.clone()), EventKind::EffectProposed, proposal.summary.clone(), None) {
            Ok(()) => {},
            Err(e) => return Err(e),
        }
        let ghost ev6 = events_view(events@);
        proof {
            lemma_append_one(ev5, ev6.last());
            assert(ev6.drop_last() == ev5);
            lemma_denied_push(ev5, ev6.last());
            lemma_audited_push(self.shell, spec@, s0, ev5, ev6.last());
            lemma_commits_yield_other(self.transport, self.subrun_transport, *spec, ev6.last());
            lemma_committed_push(self.transport, self.subrun_transport, *spec, ev5, ev6.last());
            lemma_no_proposal_push(ev5, ev0.len() + 1, ev6.last());
        }
        let ghost proposal_v = proposal@;
        let effect = Effect::from(proposal);
        assert(effect@ == proposal_v);
        assert(self.transport == transport0 && self.subrun_transport == subrun0);
        assert(step_yields(self.transport, self.subrun_transport, *spec, st_exec, step@, effect@));
        match self.record(events, bus, base, spec.run_id.as_str(), Some(step.id.clone()), EventKind::EffectCommitted, effect.summary.clone(), Some(effect.clone())) {
            Ok(()) => {},
            Err(e) => return Err(e),
        }
        let ghost ev7 = events_view(events@);
        proof {
            lemma_append_one(ev6, ev7.last());
            assert(ev7.drop_last() == ev6);
            lemma_denied_push(ev6, ev7.last());
            lemma_audited_push(self.shell, spec@, s0, ev6, ev7.last());
            reveal(commits_yield);
            assert(ev7.last().effect == Some(effect@));
            assert(ev7.last().step_id == Some(step@.id));
            assert(step_yields(self.transport, self.subrun_transport, *spec, st_exec, step@, effect@));
            lemma_committed_push(self.transport, self.subrun_transport, *spec, ev6, ev7.last());
            lemma_no_proposal_push(ev6, ev0.len() + 1, ev7.last());
            assert(ev7[ev0.len() as int] == ev1[ev0.len() as int]);
        }
        proof {
            let l0 = ev0.len() as int;
            let n7 = ev7.len() as int;
            let b = ev7.subrange(l0, n7);
            assert(step_block(b, original_step_v, dv)) by {
                assert(ev4.subrange(0, ev3.len() as int) == ev3);
                assert forall|j: int| 0 <= j < ev4.len() implies ev7[j] == ev4[j] by {
                    assert(ev7[j] == ev6[j]);
                    assert(ev6[j] == ev5[j]);
                }
                assert forall|j: int| 0 <= j < ev3.len() implies ev7[j] == ev3[j] by {
                    assert(ev7[j] == ev4[j]);
                    assert(ev4.subrange(0, ev3.len() as int)[j] == ev4[j]);
                }
                assert(ev3[l0] == ev2[l0] && ev2[l0] == ev1[l0]);
                assert(ev3[l0 + 1] == ev2[l0 + 1]);
                assert(b[0] == ev1.last());
                assert(b[1] == ev2.last());
                assert(b[2] == ev3.last());
                assert(b[b.len() - 1] == ev7.last());
                assert(b[b.len() - 2] == ev6.last());
                assert(b[b.len() - 3] == ev5.last());
                assert(!denies(ev2.last().detail));
                if step@.action is Delegate {
                    assert(b[3] == ev4[l0 + 3]);
                    assert(b[4] == ev4[l0 + 4]);
                } else {
                    assert(ev4.len() == ev3.len());
                }
            }
        }
        apply_effect(state, effect);
        state.next_step_index = state.next_step_index + 1;
        proof {
            assert(state@.messages =~= s0.messages + committed_messages(ev7));
            assert(state@.outputs =~= s0.outputs + committed_outputs(ev7));
            assert(denied_steps(ev7) == denied_steps(ev0));
            assert(ev7.subrange(0, ev0.len() as int) == ev0) by {
                assert(ev7.subrange(0, ev0.len() as int) == ev4.subrange(0, ev0.len() as int));
                assert(ev4.subrange(0, ev3.len() as int) == ev3);
                assert(ev4.subrange(0, ev0.len() as int) == ev3.subrange(0, ev0.len() as int));
            }
        }
        Ok(())
    }

    fn execute_step(
        &mut self,
        spec: &RunSpec,
        state: &RunState,
        step: &Step,
        events: &mut Vec<Event>,
        base: u64,
        depth: u64,
    ) -> (r: Result<EffectProposal, KernelError>)
        requires
            numbered_from(events_view(old(events)@), spec.run_id@, base as nat),
            old(self).journal_took_all(events_view(old(events)@)),
        ensures
            final(self).journal_took_all(events_view(final(events)@)),
            final(self).shell == old(self).shell,
            final(self).transport == old(self).transport,
            final(self).subrun_transport == old(self).subrun_transport,
            final(self).event_log == old(self).event_log,
            numbered_from(events_view(final(events)@), spec.run_id@, base as nat),
            final(events)@.len() >= old(events)@.len(),
            events_view(final(events)@).subrange(0, old(events)@.len() as int) == events_view(old(events)@),
            forall|i: int|
                old(events)@.len() <= i < final(events)@.len() ==> neutral(#[trigger] events_view(final(events)@)[i]),
            r matches Err(KernelError::BudgetExceeded(d)) ==> final(self).stopped_on_budget(d@, spec.budget.max_steps as nat),
            r matches Err(KernelError::EventLog(m)) ==> old(self).journal_failure(m@),
            r matches Err(KernelError::RunStore(_)) ==> !old(self).keeps_checkpoints_in_memory(),
            final(self).keeps_checkpoints_in_memory() == old(self).keeps_checkpoints_in_memory(),
            r matches Err(KernelError::Scheduler(e)) ==> scheduler_may_fail::<S>(e@),
            !(r matches Err(KernelError::MissingCheckpoint(_))),
            base + final(events)@.len() <= u64::MAX || final(events)@.len() == old(events)@.len(),
            r matches Ok(p) ==> step_yields(old(self).transport, old(self).subrun_transport, *spec, state@, step@, p@),
            forall|i: int|
                old(events)@.len() <= i < final(events)@.len() ==> #[trigger] old(self).journal_takes(
                    events_view(final(events)@)[i],
                ),
            !old(self).journaled() && base + old(events)@.len() + 1 <= u64::MAX && !(step@.action is Delegate
                && child_run_verdict(spec@, step@.action->child) is Ok) ==> !(r matches Err(KernelError::EventLog(_))),
            step@.action matches StepActionView::Message { role, content } ==> (r matches Ok(p) && p@
                == message_proposal_view(role, content) && final(events)@.len() == old(events)@.len()),
            step@.action matches StepActionView::CapabilityInvoke { capability_id, input } ==> {
                &&& r matches Err(e) ==> (e is Denied || e is Capability || e is EventLog)
                &&& r matches Ok(p) ==> old(self).transport.may_return(
                    spec.capability_leases@,
                    capability_id,
                    input,
                    spec@,
                    state@,
                    Ok(p@),
                ) && final(events)@ == old(events)@
                &&& r matches Err(KernelError::Capability(d)) ==> old(self).transport.may_return(
                    spec.capability_leases@,
                    capability_id,
                    input,
                    spec@,
                    state@,
                    Err(d@),
                ) && !starts_with_seq(d@, "capability_denied:"@) && final(events)@ == old(events)@
                &&& r matches Err(KernelError::Denied(d)) ==> old(self).transport.may_return(
                    spec.capability_leases@,
                    capability_id,
                    input,
                    spec@,
                    state@,
                    Err(d@),
                ) && starts_with_seq(d@, "capability_denied:"@) && events_view(final(events)@)
                    == events_view(old(events)@).push(
                    kernel_event(
                        spec.run_id@,
                        Some(step@.id),
                        EventKind::CapabilityDenied,
                        d@,
                        None,
                        (base + old(events)@.len() + 1) as nat,
                    ),
                )
                &&& r matches Err(KernelError::EventLog(_)) ==> final(events)@ == old(events)@
            },
            step@.action matches StepActionView::Delegate { child, merge_mode } ==> {
                &&& child_run_verdict(spec@, child) matches Err(m) ==> (r matches Err(KernelError::Denied(d))
                    && d@ == m && events_view(final(events)@) == events_view(old(events)@).push(
                    kernel_event(
                        spec.run_id@,
                        Some(step@.id),
                        EventKind::CapabilityDenied,
                        m,
                        None,
                        (base + old(events)@.len() + 1) as nat,
                    ),
                )) || (r matches Err(KernelError::EventLog(_)) && final(events)@ == old(events)@)
                &&& r matches Ok(p) ==> child_run_verdict(spec@, child) is Ok && exists|
                    child_state: RunStateView,
                    event_count: nat,
                    res: ChildRunResultView,
                |
                    #![trigger old(self).subrun_transport.may_deliver(child, child_state, event_count, res)]
                    {
                        &&& child_state.status == RunStatus::Completed
                        &&& child_state.run_id == child.run.run_id
                        &&& event_count >= 3
                        &&& exists|child_events: Seq<EventView>|
                            #![trigger committed_messages(child_events)]
                            {
                                &&& child_events.len() == event_count
                                &&& numbered_from(child_events, child.run.run_id, 0)
                                &&& child_state.messages == committed_messages(child_events)
                                &&& child_state.outputs == committed_outputs(child_events)
                                &&& child_state.next_step_index == count_kind(child_events, EventKind::StepProposed)
                            }
                        &&& old(self).subrun_transport.may_deliver(child, child_state, event_count, res)
                        &&& p@ == child_proposal_view(res, merge_mode)
                        &&& events_view(final(events)@) == events_view(old(events)@).push(
                            kernel_event(
                                spec.run_id@,
                                Some(step@.id),
                                EventKind::ChildRunCreated,
                                child.run.run_id,
                                None,
                                (base + old(events)@.len() + 1) as nat,
                            ),
                        ).push(
                            kernel_event(
                                spec.run_id@,
                                Some(step@.id),
                                EventKind::ChildRunCompleted,
                                res.run_id + ":"@ + status_name_spec(res.status) + ":"@ + res.events_digest,
                                None,
                                (base + old(events)@.len() + 2) as nat,
                            ),
                        )
                    }
            },
        decreases depth, 0nat,
    {
        let ghost ev0 = events_view(events@);
        match &step.action {
            StepAction::Message { role, content } => {
                let mut summary = owned("message:");
                push_str(&mut summary, role.as_str());
                let mut messages: Vec<Message> = Vec::new();
                messages.push(Message { role: role.clone(), content: content.clone() });
                assert(events_view(events@).subrange(0, ev0.len() as int) == ev0);
                let proposal = EffectProposal { summary, messages, outputs: Vec::new() };
                assert(proposal@.messages =~= seq![MessageView { role: role@, content: content@ }]);
                assert(proposal@.outputs =~= Seq::<Seq<char>>::empty());
                assert(proposal@ == message_proposal_view(role@, content@));
                Ok(proposal)
            },
            StepAction::CapabilityInvoke { capability_id, input } => {
                match self.transport.invoke(
                    spec.capability_leases.as_slice(),
                    capability_id.as_str(),
                    input.as_str(),
                    spec,
                    state,
                ) {
                    Ok(proposal) => {
                        assert(events_view(events@).subrange(0, ev0.len() as int) == ev0);
                        Ok(proposal)
                    },
                    Err(detail) => {
                        match capability_failure(detail) {
                            KernelError::Denied(detail) => {
                                let mut bus = InMemoryEventBus::new();
                                match self.record(events, &mut bus, base, spec.run_id.as_str(), Some(step.id.clone()), EventKind::CapabilityDenied, detail.clone(), None) {
                                    Ok(()) => {},
                                    Err(e) => return Err(e),
                                }
                                assert(events_view(events@).drop_last() == ev0);
                                Err(KernelError::Denied(detail))
                            },
                            other => {
                                assert(events_view(events@).subrange(0, ev0.len() as int) == ev0);
                                Err(other)
                            },
                        }
                    },
                }
            },
            StepAction::Delegate { child, merge_mode } => {
                if let Err(detail) = validate_child_run(spec, child) {
                    let mut bus = InMemoryEventBus::new();
                    match self.record(events, &mut bus, base, spec.run_id.as_str(), Some(step.id.clone()), EventKind::CapabilityDenied, detail.clone(), None) {
                        Ok(()) => {},
                        Err(e) => return Err(e),
                    }
                    assert(events_view(events@).drop_last() == ev0);
                    return Err(KernelError::Denied(detail));
                }
                let mut bus = InMemoryEventBus::new();
                match self.record(events, &mut bus, base, spec.run_id.as_str(), Some(step.id.clone()), EventKind::ChildRunCreated, child.run.run_id.clone(), None) {
                    Ok(()) => {},
                    Err(e) => return Err(e),
                }
                let ghost ev1 = events_view(events@);
                assert(ev1.drop_last() == ev0);
                if depth == 0 {
                    return Err(KernelError::Denied(owned("child_run_depth_exhausted")));
                }
                let child_state = RunState::from_spec(&child.run);
                let report = match self.run_from_state(&child.run, child_state, false, 0, depth - 1) {
                    Ok(report) => report,
                    Err(e) => {
                        proof {
                            if e is BudgetExceeded {
                                let d = e->BudgetExceeded_0@;
                                self.lemma_stopped_wider(d, child.run.budget.max_steps as nat, spec.budget.max_steps as nat);
                            }
                        }
                        return Err(e);
                    },
                };
                let child_result = match self.subrun_transport.execute(child, report) {
                    Ok(x) => x,
                    Err(e) => return Err(e),
                };
                let mut detail = child_result.run_id.clone();
                push_str(&mut detail, ":");
                push_str(&mut detail, status_name(child_result.status));
                push_str(&mut detail, ":");
                push_str(&mut detail, child_result.events_digest.as_str());
                let mut bus2 = InMemoryEventBus::new();
                match self.record(events, &mut bus2, base, spec.run_id.as_str(), Some(step.id.clone()), EventKind::ChildRunCompleted, detail, None) {
                    Ok(()) => {},
                    Err(e) => return Err(e),
                }
                proof {
                    let ev = events_view(events@);
                    assert(ev.drop_last() == ev1);
                    assert(ev.subrange(0, ev0.len() as int) == ev0);
                    assert forall|i: int| ev0.len() <= i < ev.len() implies neutral(#[trigger] ev[i]) by {
                        if i == ev0.len() {
                            assert(ev[i] == ev1[i]);
                        }
                    }
                }
                let proposal = child_run_proposal(child_result, *merge_mode);
                assert(proposal@ == child_proposal_view(child_result@, *merge_mode));
                Ok(proposal)
            },
        }
    }

    /// Records an event: journals it (when there is a journal), publishes it on
    /// the bus and appends it to `events`, numbered after `base` and the events
    /// already there.
    fn push_event(
        &self,
        events: &mut Vec<Event>,
        bus: &mut InMemoryEventBus,
        base: u64,
        run_id: &str,
        step_id: Option<String>,
        kind: EventKind,
        detail: String,
        effect: Option<Effect>,
    ) -> (r: Result<(), KernelError>)
        ensures
            r is Ok ==> events_view(final(events)@) == events_view(old(events)@).push(
                kernel_event(
                    run_id@,
                    opt_string_view(step_id),
                    kind,
                    detail@,
                    match effect {
                        Some(e) => Some(e@),
                        None => None,
                    },
                    (base + old(events)@.len() + 1) as nat,
                ),
            ),
            r is Ok ==> base + old(events)@.len() + 1 <= u64::MAX,
            r is Ok ==> self.journal_takes(
                kernel_event(
                    run_id@,
                    opt_string_view(step_id),
                    kind,
                    detail@,
                    match effect {
                        Some(e) => Some(e@),
                        None => None,
                    },
                    (base + old(events)@.len() + 1) as nat,
                ),
            ),
            r is Err ==> final(events)@ == old(events)@,
            r is Err ==> (r matches Err(KernelError::EventLog(_))),
            r matches Err(KernelError::EventLog(m)) ==> (base + old(events)@.len() + 1 > u64::MAX && m@ == "event_sequence_exhausted"@) || self.journal_refuses(
                kernel_event(
                    run_id@,
                    opt_string_view(step_id),
                    kind,
                    detail@,
                    match effect {
                        Some(e) => Some(e@),
                        None => None,
                    },
                    (base + old(events)@.len() + 1) as nat,
                ),
                m@,
            ),
            !self.journaled() && base + old(events)@.len() + 1 <= u64::MAX ==> r is Ok,
    {
        let len = events.len();
        if (base as u128) + (len as u128) + 1 > 0xffff_ffff_ffff_ffffu128 {
            return Err(KernelError::EventLog(owned("event_sequence_exhausted")));
        }
        let sequence: u64 = base + (len as u64) + 1;
        let mut event = Event::new(run_id, step_id, kind, detail.as_str());
        event.sequence = sequence;
        if sequence > 1 {
            let mut cause = owned(run_id);
            push_str(&mut cause, ":");
            push_decimal(&mut cause, (sequence - 1) as u128);
            event.causation_id = Some(cause);
        }
        event.effect = effect;
        match &self.event_log {
            Some(journal) => {
                if let Err(e) = journal.append(&event) {
                    return Err(KernelError::EventLog(e));
                }
            },
            None => {},
        }
        bus.publish(event.clone());
        let ghost before = events@;
        events.push(event);
        assert(events_view(events@) =~= events_view(before).push(event@));
        Ok(())
    }

    /// Writes a checkpoint of `state` after event `last_sequence`.
    fn checkpoint(&mut self, state: &RunState, last_sequence: u64) -> (r: Result<(), KernelError>)
        ensures
            final(self).shell == old(self).shell,
            final(self).transport == old(self).transport,
            final(self).subrun_transport == old(self).subrun_transport,
            final(self).event_log == old(self).event_log,
            r is Err ==> (r matches Err(KernelError::RunStore(_))),
            final(self).keeps_checkpoints_in_memory() == old(self).keeps_checkpoints_in_memory(),
            old(self).keeps_checkpoints_in_memory() ==> r is Ok,
            r is Ok ==> final(self).checkpoints() == old(self).checkpoints().insert(
                state@.run_id,
                checkpoint_view(state@, last_sequence),
            ),
    {
        let record = RunStoreRecord {
            checkpoint_version: CHECKPOINT_SCHEMA_VERSION,
            run_id: state.run_id.clone(),
            spec_digest: String::new(),
            last_sequence,
            writer_epoch: 0,
            applied_commit_ids: BTreeSet::new(),
            state: state.clone(),
        };
        let put = match &mut self.run_store {
            CheckpointStore::Memory(m) => m.put(record),
            CheckpointStore::Given(b) => b.put(record),
        };
        match put {
            Ok(()) => Ok(()),
            Err(e) => Err(KernelError::RunStore(e)),
        }
    }
}

} // verus!
