use std::cell::RefCell;
use std::rc::Rc;

use axiom_core::kernel::{budget_exceeded_detail, capability_failure, check_child_run, decision_text, validate_child_run};
use axiom_core::eventlog::scan_integrity;
use axiom_core::{
    AuditShell, CapabilityContext, CapabilityLease, CapabilityRegistry, ChildRunSpec, EffectProposal, Event,
    EventJournal, EventKind, Kernel, KernelError, LocalTransport, MergeMode, Message, MockModelDriver,
    ModelDecision, QueueScheduler, ShellDecision, ReActScheduler, RemoteSubRunTransportMock, RunSpec, RunStatus, Step,
    StepAction, StaticCapability,
};

fn message_step(id: &str, title: &str, content: &str) -> Step {
    Step {
        id: id.to_string(),
        title: title.to_string(),
        action: StepAction::Message { role: "user".to_string(), content: content.to_string() },
    }
}

fn invoke_step(id: &str, capability_id: &str, input: &str) -> Step {
    Step {
        id: id.to_string(),
        title: format!("invoke {capability_id}"),
        action: StepAction::CapabilityInvoke { capability_id: capability_id.to_string(), input: input.to_string() },
    }
}

fn echo_registry() -> CapabilityRegistry {
    let mut registry = CapabilityRegistry::new();
    registry.register(
        "tool/echo",
        StaticCapability::new(|input: &str, _ctx: &CapabilityContext<'_>| {
            Ok(EffectProposal {
                summary: "tool_echo".to_string(),
                messages: vec![Message { role: "tool".to_string(), content: format!("echo:{input}") }],
                outputs: vec![input.to_string()],
            })
        }),
    );
    registry
}

fn echo_lease() -> CapabilityLease {
    CapabilityLease { capability_id: "tool/echo".to_string(), permissions: vec!["invoke".to_string()] }
}

struct SharedJournal {
    events: Rc<RefCell<Vec<Event>>>,
}

impl EventJournal for SharedJournal {
    fn append(&self, event: &Event) -> Result<(), String> {
        self.events.borrow_mut().push(event.clone());
        Ok(())
    }

    fn load_after(&self, run_id: &str, sequence: u64) -> Result<Vec<Event>, String> {
        Ok(axiom_core::eventlog::select_after(&self.events.borrow(), run_id, sequence))
    }
}

fn kinds(events: &[Event]) -> Vec<EventKind> {
    events.iter().map(|e| e.kind).collect()
}

#[test]
fn demo_run_completes_with_message_and_tool_effects() {
    let mut spec = RunSpec::new(
        "demo-run",
        "demo",
        vec![message_step("step-1", "user prompt", "please echo hello"), invoke_step("step-2", "tool/echo", "hello")],
    );
    spec.capability_leases.push(echo_lease());
    let mut kernel = Kernel::new(QueueScheduler, AuditShell, LocalTransport::new(echo_registry()), None);
    let report = kernel.run(&spec).expect("run succeeds");
    assert_eq!(report.state.run_id, "demo-run");
    assert_eq!(report.state.status, RunStatus::Completed);
    assert_eq!(report.state.next_step_index, 2);
    assert_eq!(report.state.messages.len(), 2);
    assert_eq!(report.state.messages[0].content, "please echo hello");
    assert_eq!(report.state.messages[1].content, "echo:hello");
    assert_eq!(report.state.outputs, vec!["hello".to_string()]);
    assert_eq!(report.events.len(), 15);
    let step_kinds = vec![
        EventKind::StepProposed,
        EventKind::ShellDecision,
        EventKind::StepStarted,
        EventKind::StepCompleted,
        EventKind::EffectProposed,
        EventKind::EffectCommitted,
    ];
    let mut expected = vec![EventKind::RunCreated, EventKind::RunStarted];
    expected.extend(step_kinds.clone());
    expected.extend(step_kinds);
    expected.push(EventKind::RunCompleted);
    assert_eq!(kinds(&report.events), expected);
    assert_eq!(report.events[0].detail, "demo");
    assert_eq!(report.events[1].detail, "kernel_started");
    assert_eq!(report.events[3].detail, "allow");
    assert_eq!(report.events[6].detail, "message:user");
    assert_eq!(report.events[12].detail, "tool_echo");
    assert_eq!(report.events[14].detail, "ok");
    for (i, event) in report.events.iter().enumerate() {
        assert_eq!(event.sequence, i as u64 + 1);
        assert_eq!(event.run_id, "demo-run");
    }
    assert_eq!(report.events[0].causation_id, None);
    assert_eq!(report.events[1].causation_id, Some("demo-run:1".to_string()));
    let committed = report.events[13].effect.as_ref().expect("commit carries its effect");
    assert_eq!(committed.outputs, vec!["hello".to_string()]);
}

#[test]
fn replaying_committed_effects_rebuilds_the_state() {
    let mut spec = RunSpec::new(
        "replay",
        "replay",
        vec![message_step("a", "first", "one"), invoke_step("b", "tool/echo", "two"), message_step("c", "third", "three")],
    );
    spec.capability_leases.push(echo_lease());
    let mut kernel = Kernel::new(QueueScheduler, AuditShell, LocalTransport::new(echo_registry()), None);
    let report = kernel.run(&spec).unwrap();
    let mut messages = Vec::new();
    let mut outputs = Vec::new();
    for event in &report.events {
        if event.kind == EventKind::EffectCommitted {
            let effect = event.effect.as_ref().unwrap();
            messages.extend(effect.messages.iter().cloned());
            outputs.extend(effect.outputs.iter().cloned());
        }
    }
    assert_eq!(messages, report.state.messages);
    assert_eq!(outputs, report.state.outputs);
    let proposed = report.events.iter().filter(|e| e.kind == EventKind::StepProposed).count();
    assert_eq!(proposed, report.state.next_step_index);
}

#[test]
fn budget_exhaustion_fails_the_run() {
    let mut spec = RunSpec::new("budget", "budget", vec![message_step("a", "a", "1"), message_step("b", "b", "2")]);
    spec.budget.max_steps = 1;
    let mut kernel = Kernel::new(QueueScheduler, AuditShell, LocalTransport::new(CapabilityRegistry::new()), None);
    match kernel.run(&spec) {
        Err(KernelError::BudgetExceeded(detail)) => assert_eq!(detail, "budget_exceeded:1"),
        other => panic!("unexpected {other:?}"),
    }
}

#[test]
fn denied_step_is_recorded_and_skipped() {
    let spec = RunSpec::new("deny", "deny", vec![message_step("a", "[deny] drop", "x"), message_step("b", "keep", "y")]);
    let mut kernel = Kernel::new(QueueScheduler, AuditShell, LocalTransport::new(CapabilityRegistry::new()), None);
    let report = kernel.run(&spec).unwrap();
    assert_eq!(report.state.denied_actions, vec!["a".to_string()]);
    assert_eq!(report.state.next_step_index, 2);
    assert_eq!(report.state.messages.len(), 1);
    assert_eq!(report.state.messages[0].content, "y");
    assert_eq!(report.events[3].detail, "deny:title_matched_deny_rule");
    let proposed = report.events.iter().filter(|e| e.kind == EventKind::StepProposed).count();
    let started = report.events.iter().filter(|e| e.kind == EventKind::StepStarted).count();
    assert_eq!(report.state.denied_actions.len() + started, proposed);
}

#[test]
fn rewritten_step_runs_with_new_title() {
    let spec = RunSpec::new("rw", "rw", vec![message_step("a", "[rewrite] hello [rewrite]", "x")]);
    let mut kernel = Kernel::new(QueueScheduler, AuditShell, LocalTransport::new(CapabilityRegistry::new()), None);
    let report = kernel.run(&spec).unwrap();
    assert_eq!(report.events[3].detail, "rewrite:title_matched_rewrite_rule");
    assert_eq!(report.events[4].kind, EventKind::StepStarted);
    assert_eq!(report.events[4].detail, "[rewritten] hello [rewritten]");
}

#[test]
fn invoking_without_lease_is_denied() {
    let spec = RunSpec::new("nolease", "nolease", vec![invoke_step("a", "tool/echo", "hi")]);
    let mut kernel = Kernel::new(QueueScheduler, AuditShell, LocalTransport::new(echo_registry()), None);
    let journal = Rc::new(RefCell::new(Vec::new()));
    let mut journaled = Kernel::new(
        QueueScheduler,
        AuditShell,
        LocalTransport::new(echo_registry()),
        Some(Box::new(SharedJournal { events: journal.clone() })),
    );
    match kernel.run(&spec) {
        Err(KernelError::Denied(detail)) => assert_eq!(detail, "capability_denied:tool/echo"),
        other => panic!("unexpected {other:?}"),
    }
    let _ = journaled.run(&spec);
    let events = journal.borrow();
    assert_eq!(events.last().unwrap().kind, EventKind::CapabilityDenied);
    assert_eq!(events.last().unwrap().detail, "capability_denied:tool/echo");
}

#[test]
fn unknown_capability_is_a_capability_error() {
    let mut spec = RunSpec::new("missing", "missing", vec![invoke_step("a", "tool/echo", "hi")]);
    spec.capability_leases.push(echo_lease());
    let mut kernel = Kernel::new(QueueScheduler, AuditShell, LocalTransport::new(CapabilityRegistry::new()), None);
    match kernel.run(&spec) {
        Err(KernelError::Capability(detail)) => assert_eq!(detail, "capability_not_found:tool/echo"),
        other => panic!("unexpected {other:?}"),
    }
}

#[test]
fn journal_written_by_a_run_scans_clean() {
    let mut spec = RunSpec::new("journal", "journal", vec![message_step("a", "a", "1"), invoke_step("b", "tool/echo", "2")]);
    spec.capability_leases.push(echo_lease());
    let journal = Rc::new(RefCell::new(Vec::new()));
    let mut kernel = Kernel::new(
        QueueScheduler,
        AuditShell,
        LocalTransport::new(echo_registry()),
        Some(Box::new(SharedJournal { events: journal.clone() })),
    );
    let report = kernel.run(&spec).unwrap();
    let lines: Vec<Option<Event>> = journal.borrow().iter().cloned().map(Some).collect();
    assert_eq!(lines.len(), report.events.len());
    let integrity = scan_integrity(&lines);
    assert!(integrity.is_clean());
    assert_eq!(integrity.valid_events, report.events.len());
}

#[test]
fn resume_continues_from_the_checkpoint() {
    let spec = RunSpec::new("resume", "resume", vec![message_step("a", "a", "1")]);
    let mut kernel = Kernel::new(QueueScheduler, AuditShell, LocalTransport::new(CapabilityRegistry::new()), None);
    let first = kernel.run(&spec).unwrap();
    let stored = kernel.checkpoint_of("resume").unwrap().unwrap();
    assert_eq!(stored.state, first.state);
    assert_eq!(stored.last_sequence, first.events.len() as u64);
    let resumed = kernel.resume(&spec).unwrap();
    assert_eq!(resumed.events.len(), 2);
    assert_eq!(resumed.events[0].kind, EventKind::RunStarted);
    assert_eq!(resumed.events[0].detail, "kernel_resumed");
    assert_eq!(resumed.events[0].sequence, first.events.len() as u64 + 1);
    assert_eq!(resumed.state.messages, first.state.messages);
    assert_eq!(resumed.state.status, RunStatus::Completed);
}

#[test]
fn resume_without_checkpoint_is_missing() {
    let spec = RunSpec::new("nothing", "nothing", vec![]);
    let mut kernel = Kernel::new(QueueScheduler, AuditShell, LocalTransport::new(CapabilityRegistry::new()), None);
    match kernel.resume(&spec) {
        Err(KernelError::MissingCheckpoint(id)) => assert_eq!(id, "nothing"),
        other => panic!("unexpected {other:?}"),
    }
}

fn child_spec(parent: &str, id: &str) -> ChildRunSpec {
    ChildRunSpec::new(parent, RunSpec::new(id, "child", vec![message_step("c1", "child step", "from child")]))
}

#[test]
fn child_run_summary_only_merges_a_summary() {
    let child = child_spec("parent", "child");
    let spec = RunSpec::new(
        "parent",
        "parent",
        vec![Step {
            id: "delegate".to_string(),
            title: "delegate".to_string(),
            action: StepAction::Delegate { child: Box::new(child), merge_mode: MergeMode::SummaryOnly },
        }],
    );
    let mut kernel = Kernel::new(QueueScheduler, AuditShell, LocalTransport::new(CapabilityRegistry::new()), None);
    let report = kernel.run(&spec).unwrap();
    assert_eq!(report.state.outputs, vec!["child_summary:child:1 proposed_effects".to_string()]);
    assert!(report.state.messages.is_empty());
    let created = report.events.iter().find(|e| e.kind == EventKind::ChildRunCreated).unwrap();
    assert_eq!(created.detail, "child");
    let completed = report.events.iter().find(|e| e.kind == EventKind::ChildRunCompleted).unwrap();
    assert_eq!(completed.detail, "child:Completed:events:9");
    let committed = report.events.iter().find(|e| e.kind == EventKind::EffectCommitted).unwrap();
    assert_eq!(committed.detail, "child_run:child");
}

#[test]
fn child_run_append_messages_merges_child_messages() {
    let child = child_spec("parent", "child");
    let spec = RunSpec::new(
        "parent",
        "parent",
        vec![Step {
            id: "delegate".to_string(),
            title: "delegate".to_string(),
            action: StepAction::Delegate { child: Box::new(child), merge_mode: MergeMode::AppendMessages },
        }],
    );
    let mut kernel = Kernel::with_subrun_transport(
        QueueScheduler,
        AuditShell,
        LocalTransport::new(CapabilityRegistry::new()),
        RemoteSubRunTransportMock,
        None,
    );
    let report = kernel.run(&spec).unwrap();
    assert_eq!(report.state.messages.len(), 1);
    assert_eq!(report.state.messages[0].content, "from child");
}

#[test]
fn child_run_with_wrong_parent_is_denied() {
    let child = child_spec("someone-else", "child");
    let spec = RunSpec::new(
        "parent",
        "parent",
        vec![Step {
            id: "delegate".to_string(),
            title: "delegate".to_string(),
            action: StepAction::Delegate { child: Box::new(child), merge_mode: MergeMode::SummaryOnly },
        }],
    );
    let mut kernel = Kernel::new(QueueScheduler, AuditShell, LocalTransport::new(CapabilityRegistry::new()), None);
    match kernel.run(&spec) {
        Err(KernelError::Denied(detail)) => assert_eq!(detail, "child_parent_mismatch:someone-else:parent"),
        other => panic!("unexpected {other:?}"),
    }
}

#[test]
fn child_validation_reports_each_violation() {
    let mut parent = RunSpec::new("p", "p", vec![]);
    parent.namespace.workspace_root = "/work".to_string();
    parent.namespace.visible_capabilities = vec!["tool/a".to_string()];
    parent.capability_leases.push(CapabilityLease {
        capability_id: "tool/a".to_string(),
        permissions: vec!["invoke".to_string()],
    });

    let mut child = ChildRunSpec::new("p", RunSpec::new("c", "c", vec![]));
    child.run.namespace.workspace_root = "/work/sub".to_string();
    assert!(validate_child_run(&parent, &child).is_ok());

    child.run.budget.max_steps = 500;
    assert_eq!(validate_child_run(&parent, &child), Err("child_budget_exceeds_parent:500:128".to_string()));
    child.run.budget.max_steps = 128;

    child.run.namespace.workspace_root = "/workspace".to_string();
    assert_eq!(validate_child_run(&parent, &child), Err("child_namespace_outside_parent:/workspace".to_string()));
    child.run.namespace.workspace_root = "/work/sub".to_string();

    child.run.namespace.visible_capabilities = vec!["tool/a".to_string(), "tool/b".to_string()];
    assert_eq!(validate_child_run(&parent, &child), Err("child_namespace_capability_not_visible:tool/b".to_string()));
    child.run.namespace.visible_capabilities = vec!["tool/a".to_string()];

    child.run.capability_leases.push(CapabilityLease {
        capability_id: "tool/a".to_string(),
        permissions: vec!["invoke".to_string(), "admin".to_string()],
    });
    assert_eq!(validate_child_run(&parent, &child), Err("child_permission_not_delegated:tool/a:admin".to_string()));

    child.run.capability_leases[0].capability_id = "tool/z".to_string();
    assert_eq!(validate_child_run(&parent, &child), Err("child_capability_not_delegated:tool/z".to_string()));
}

#[test]
fn react_scheduler_asks_the_model_after_scripted_steps() {
    let spec = RunSpec::new("react", "react", vec![message_step("a", "a", "scripted")]);
    let model = MockModelDriver::scripted(vec![
        ModelDecision::Respond { content: "thinking done".to_string() },
        ModelDecision::Finish,
    ]);
    let mut kernel = Kernel::new(ReActScheduler::new(model), AuditShell, LocalTransport::new(CapabilityRegistry::new()), None);
    let report = kernel.run(&spec).unwrap();
    assert_eq!(report.state.next_step_index, 2);
    assert_eq!(report.state.messages[1].role, "assistant");
    assert_eq!(report.state.messages[1].content, "thinking done");
    let proposed: Vec<_> = report.events.iter().filter(|e| e.kind == EventKind::StepProposed).collect();
    assert_eq!(proposed[1].step_id, Some("react-2-response".to_string()));
}

#[test]
fn exhausted_model_script_is_a_scheduler_error() {
    let spec = RunSpec::new("react", "react", vec![]);
    let model = MockModelDriver::scripted(vec![]);
    let mut kernel = Kernel::new(ReActScheduler::new(model), AuditShell, LocalTransport::new(CapabilityRegistry::new()), None);
    match kernel.run(&spec) {
        Err(KernelError::Scheduler(detail)) => assert_eq!(detail, "mock_model_script_exhausted"),
        other => panic!("unexpected {other:?}"),
    }
}

#[test]
fn every_started_step_follows_an_allowing_decision() {
    let spec = RunSpec::new(
        "audit",
        "audit",
        vec![
            message_step("a", "[deny] one", "x"),
            message_step("b", "[rewrite] two", "y"),
            message_step("c", "three", "z"),
        ],
    );
    let mut kernel = Kernel::new(QueueScheduler, AuditShell, LocalTransport::new(CapabilityRegistry::new()), None);
    let report = kernel.run(&spec).unwrap();
    for (i, e) in report.events.iter().enumerate() {
        if e.kind == EventKind::StepStarted {
            let before = &report.events[i - 1];
            assert_eq!(before.kind, EventKind::ShellDecision);
            assert!(!before.detail.starts_with("deny:"));
        }
        if e.kind == EventKind::ShellDecision {
            let proposed = &report.events[i - 1];
            assert_eq!(proposed.kind, EventKind::StepProposed);
            assert_eq!(proposed.step_id, e.step_id);
        }
    }
    let decisions: Vec<&str> =
        report.events.iter().filter(|e| e.kind == EventKind::ShellDecision).map(|e| e.detail.as_str()).collect();
    assert_eq!(decisions, vec!["deny:title_matched_deny_rule", "rewrite:title_matched_rewrite_rule", "allow"]);
    assert_eq!(report.state.denied_actions, vec!["a".to_string()]);
}

#[test]
fn child_checks_take_the_workspace_answer_as_given() {
    let parent = RunSpec::new("p", "p", vec![]);
    let mut child = ChildRunSpec::new("p", RunSpec::new("c", "c", vec![]));
    assert!(check_child_run(&parent, &child, true).is_ok());
    assert_eq!(check_child_run(&parent, &child, false), Err("child_namespace_outside_parent:.".to_string()));
    child.parent_run_id = "q".to_string();
    assert_eq!(check_child_run(&parent, &child, false), Err("child_parent_mismatch:q:p".to_string()));
    child.parent_run_id = "p".to_string();
    child.run.namespace.workspace_root = "/etc".to_string();
    assert!(check_child_run(&parent, &child, true).is_ok());
    assert_eq!(validate_child_run(&parent, &child), Err("child_namespace_outside_parent:/etc".to_string()));
}

struct FailingJournal;

impl EventJournal for FailingJournal {
    fn append(&self, _event: &Event) -> Result<(), String> {
        Err("journal_offline".to_string())
    }

    fn load_after(&self, _run_id: &str, _sequence: u64) -> Result<Vec<Event>, String> {
        Ok(Vec::new())
    }
}

#[test]
fn journal_failure_stops_the_run() {
    let spec = RunSpec::new("j", "j", vec![message_step("a", "a", "x")]);
    let mut kernel = Kernel::new(
        QueueScheduler,
        AuditShell,
        LocalTransport::new(CapabilityRegistry::new()),
        Some(Box::new(FailingJournal)),
    );
    match kernel.run(&spec) {
        Err(KernelError::EventLog(detail)) => assert_eq!(detail, "journal_offline"),
        other => panic!("unexpected {other:?}"),
    }
}

#[test]
fn reading_a_run_back_after_any_point_gives_the_rest_in_order() {
    let spec = RunSpec::new("rb", "rb", vec![message_step("a", "a", "x"), message_step("b", "b", "y")]);
    let mut kernel = Kernel::new(QueueScheduler, AuditShell, LocalTransport::new(CapabilityRegistry::new()), None);
    let report = kernel.run(&spec).unwrap();
    let mut mixed = report.events.clone();
    mixed.reverse();
    mixed.insert(1, Event::new("other", None, EventKind::RunCreated, ""));
    for k in 0..=report.events.len() {
        let back = axiom_core::eventlog::select_after(&mixed, "rb", k as u64);
        assert_eq!(back, report.events[k..].to_vec());
    }
}

#[test]
fn budget_exhaustion_stores_a_failed_checkpoint() {
    let mut spec = RunSpec::new("r", "n", vec![message_step("s1", "s1", "x"), message_step("s2", "s2", "y")]);
    spec.budget.max_steps = 1;
    let shared = Rc::new(RefCell::new(Vec::new()));
    let mut kernel = Kernel::new(
        QueueScheduler,
        AuditShell,
        LocalTransport::new(CapabilityRegistry::new()),
        Some(Box::new(SharedJournal { events: shared.clone() })),
    );
    match kernel.run(&spec) {
        Err(KernelError::BudgetExceeded(detail)) => assert_eq!(detail, "budget_exceeded:1"),
        other => panic!("unexpected {other:?}"),
    }
    let record = kernel.checkpoint_of("r").unwrap().unwrap();
    assert_eq!(record.state.status, RunStatus::Failed);
    assert_eq!(record.state.next_step_index, 1);
    assert_eq!(record.state.messages, vec![Message { role: "user".to_string(), content: "x".to_string() }]);
    let journal = shared.borrow();
    let last = journal.last().unwrap();
    assert_eq!(last.kind, EventKind::RunFailed);
    assert_eq!(last.detail, "budget_exceeded:1");
    assert_eq!(last.step_id, Some("s2".to_string()));
    assert_eq!(last.sequence, record.last_sequence);
}

#[test]
fn message_steps_record_six_events_each() {
    let spec = RunSpec::new("r", "n", vec![message_step("s1", "s1", "x"), message_step("s2", "s2", "y")]);
    let mut kernel = Kernel::new(QueueScheduler, AuditShell, LocalTransport::new(CapabilityRegistry::new()), None);
    let report = kernel.run(&spec).unwrap();
    let step = [
        EventKind::StepProposed,
        EventKind::ShellDecision,
        EventKind::StepStarted,
        EventKind::StepCompleted,
        EventKind::EffectProposed,
        EventKind::EffectCommitted,
    ];
    let mut expected = vec![EventKind::RunCreated, EventKind::RunStarted];
    expected.extend_from_slice(&step);
    expected.extend_from_slice(&step);
    expected.push(EventKind::RunCompleted);
    assert_eq!(kinds(&report.events), expected);
    assert_eq!(report.events.len(), 3 + 6 * 2);
    assert!(report.events.iter().all(|e| e.run_id == "r"));
    assert_eq!(report.events[0].detail, "n");
    assert_eq!(report.events[1].detail, "kernel_started");
    assert_eq!(report.events[3].detail, "allow");
    assert_eq!(report.events[7].detail, "message:user");
    assert_eq!(report.state.status, RunStatus::Completed);
    assert_eq!(report.state.next_step_index, 2);
    assert!(report.state.outputs.is_empty());
}

#[test]
fn a_lone_denied_step_never_starts() {
    let spec = RunSpec::new("r", "n", vec![message_step("s1", "[deny] x", "hi")]);
    let mut kernel = Kernel::new(QueueScheduler, AuditShell, LocalTransport::new(CapabilityRegistry::new()), None);
    let report = kernel.run(&spec).unwrap();
    assert_eq!(
        kinds(&report.events),
        vec![
            EventKind::RunCreated,
            EventKind::RunStarted,
            EventKind::StepProposed,
            EventKind::ShellDecision,
            EventKind::RunCompleted
        ]
    );
    assert_eq!(report.events[3].detail, "deny:title_matched_deny_rule");
    assert_eq!(report.state.denied_actions, vec!["s1".to_string()]);
    assert!(report.state.messages.is_empty());
    assert_eq!(report.state.next_step_index, 1);
}

#[test]
fn decisions_are_recorded_as_text() {
    assert_eq!(decision_text(&ShellDecision::Allow), "allow");
    assert_eq!(decision_text(&ShellDecision::Deny { reason: "r".to_string() }), "deny:r");
    assert_eq!(
        decision_text(&ShellDecision::Rewrite { new_step: message_step("a", "b", "c"), reason: "why".to_string() }),
        "rewrite:why"
    );
}

#[test]
fn refused_calls_are_denials_only_when_they_say_so() {
    match capability_failure("capability_denied:tool".to_string()) {
        KernelError::Denied(d) => assert_eq!(d, "capability_denied:tool"),
        other => panic!("unexpected {other:?}"),
    }
    match capability_failure("capability_not_found:tool".to_string()) {
        KernelError::Capability(d) => assert_eq!(d, "capability_not_found:tool"),
        other => panic!("unexpected {other:?}"),
    }
}

#[test]
fn budget_detail_names_the_budget() {
    assert_eq!(budget_exceeded_detail(128), "budget_exceeded:128");
    assert_eq!(budget_exceeded_detail(0), "budget_exceeded:0");
}

#[test]
fn a_new_kernel_holds_no_checkpoint() {
    let kernel = Kernel::new(QueueScheduler, AuditShell, LocalTransport::new(CapabilityRegistry::new()), None);
    assert!(kernel.checkpoint_of("anything").unwrap().is_none());
}
