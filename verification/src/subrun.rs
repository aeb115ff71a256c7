use vstd::prelude::*;
use crate::kernel::{KernelError, RunReport};
use crate::runspec::{ChildRunResult, ChildRunResultView, ChildRunSpec, ChildRunSpecView, EffectProposal, EffectView, RunStateView, RunUsage, clone_messages, clone_strings, events_view};
use crate::text::{decimal, owned, push_decimal, push_str};

verus! {

/// Carries a finished child run back to its parent. The kernel runs the child
/// itself and hands the transport the child's report.
pub trait SubRunTransport {
    /// Whether `result` is a result the transport may hand back for `child`,
    /// whose run ended in `state` after `event_count` events.
    spec fn may_deliver(&self, child: ChildRunSpecView, state: RunStateView, event_count: nat, result: ChildRunResultView) -> bool;

    /// Hands back the result of `child`, whose run produced `report`; a
    /// transport that cannot reports a denial or a capability failure.
    fn execute(&self, child: &ChildRunSpec, report: RunReport) -> (r: Result<ChildRunResult, KernelError>)
        ensures
            r matches Err(e) ==> e is Denied || e is Capability,
            r matches Ok(x) ==> self.may_deliver(child@, report.state@, report.events@.len(), x@),
    ;
}

/// The result a transport named `transport` reports for a child run that ended
/// in `state` after `event_count` events: one proposed effect carrying the
/// child's messages and outputs.
pub open spec fn child_result_view(
    child: ChildRunSpecView,
    state: RunStateView,
    event_count: nat,
    transport: Seq<char>,
) -> ChildRunResultView {
    let summary = "child_result:"@ + child.run.run_id;
    ChildRunResultView {
        run_id: child.run.run_id,
        status: state.status,
        summary,
        artifacts: Seq::empty(),
        proposed_effects: seq![EffectView { summary, messages: state.messages, outputs: state.outputs }],
        events_digest: "events:"@ + decimal(event_count),
        usage: RunUsage { steps: state.next_step_index, events: event_count as usize },
        diagnostics: seq!["transport:"@ + transport],
    }
}

/// Packages a child run's report as the result its parent sees.
pub fn result_from_report(child: &ChildRunSpec, report: RunReport, transport: &str) -> (r: ChildRunResult)
    ensures
        r@ == child_result_view(child@, report.state@, report.events@.len(), transport@),
{
    let event_count = report.events.len();
    let steps = report.state.next_step_index;
    let mut summary = owned("child_result:");
    push_str(&mut summary, child.run.run_id.as_str());
    let proposed_effect = EffectProposal {
        summary: summary.clone(),
        messages: report.state.messages,
        outputs: report.state.outputs,
    };
    let mut proposed_effects: Vec<EffectProposal> = Vec::new();
    proposed_effects.push(proposed_effect);
    let mut events_digest = owned("events:");
    push_decimal(&mut events_digest, event_count as u128);
    let mut diagnostic = owned("transport:");
    push_str(&mut diagnostic, transport);
    let mut diagnostics: Vec<String> = Vec::new();
    diagnostics.push(diagnostic);
    let r = ChildRunResult {
        run_id: child.run.run_id.clone(),
        status: report.state.status,
        summary,
        artifacts: Vec::new(),
        proposed_effects,
        events_digest,
        usage: RunUsage { steps, events: event_count },
        diagnostics,
    };
    assert(r@.artifacts =~= Seq::<Seq<char>>::empty());
    assert(r@.diagnostics =~= seq!["transport:"@ + transport@]);
    assert(r@.proposed_effects =~= seq![EffectView { summary: r@.summary, messages: report.state@.messages, outputs: report.state@.outputs }]);
    r
}

/// Hands child results back in this process.
#[derive(Clone, Copy, Debug, Default)]
pub struct LocalSubRunTransport;

impl SubRunTransport for LocalSubRunTransport {
    open spec fn may_deliver(&self, child: ChildRunSpecView, state: RunStateView, event_count: nat, result: ChildRunResultView) -> bool {
        result == child_result_view(child, state, event_count, "local"@)
    }

    fn execute(&self, child: &ChildRunSpec, report: RunReport) -> (r: Result<ChildRunResult, KernelError>)
        ensures
            r matches Ok(x) && x@ == child_result_view(child@, report.state@, report.events@.len(), "local"@),
    {
        Ok(result_from_report(child, report, "local"))
    }
}

/// Stands in for a transport that hands child results back from another host.
#[derive(Clone, Copy, Debug, Default)]
pub struct RemoteSubRunTransportMock;

impl SubRunTransport for RemoteSubRunTransportMock {
    open spec fn may_deliver(&self, child: ChildRunSpecView, state: RunStateView, event_count: nat, result: ChildRunResultView) -> bool {
        result == child_result_view(child, state, event_count, "remote-mock"@)
    }

    fn execute(&self, child: &ChildRunSpec, report: RunReport) -> (r: Result<ChildRunResult, KernelError>)
        ensures
            r matches Ok(x) && x@ == child_result_view(child@, report.state@, report.events@.len(), "remote-mock"@),
    {
        Ok(result_from_report(child, report, "remote-mock"))
    }
}

} // verus!
