use axiom_core::subrun::result_from_report;
use axiom_core::{
    ChildRunSpec, Event, EventBus, EventKind, InMemoryEventBus, LocalSubRunTransport, Message, RemoteSubRunTransportMock,
    RunReport, RunSpec, RunState, RunStatus, SubRunTransport,
};

#[test]
fn bus_keeps_events_in_order() {
    let mut bus = InMemoryEventBus::new();
    assert!(bus.snapshot().is_empty());
    bus.publish(Event::new("r", None, EventKind::RunCreated, "a"));
    bus.publish(Event::new("r", Some("s".to_string()), EventKind::StepStarted, "b"));
    let seen = bus.snapshot();
    assert_eq!(seen.len(), 2);
    assert_eq!(seen[0].detail, "a");
    assert_eq!(seen[1].step_id.as_deref(), Some("s"));
    assert_eq!(InMemoryEventBus::default().snapshot().len(), 0);
}

fn finished_child() -> (ChildRunSpec, RunReport) {
    let child = ChildRunSpec::new("parent", RunSpec::new("kid", "kid", vec![]));
    let mut state = RunState::from_spec(&child.run);
    state.status = RunStatus::Completed;
    state.next_step_index = 2;
    state.messages.push(Message { role: "tool".to_string(), content: "m".to_string() });
    state.outputs.push("o".to_string());
    let events = vec![
        Event::new("kid", None, EventKind::RunCreated, ""),
        Event::new("kid", None, EventKind::RunCompleted, ""),
    ];
    (child, RunReport { state, events })
}

#[test]
fn child_results_summarize_the_report() {
    let (child, report) = finished_child();
    let result = result_from_report(&child, report, "here");
    assert_eq!(result.run_id, "kid");
    assert_eq!(result.status, RunStatus::Completed);
    assert_eq!(result.summary, "child_result:kid");
    assert!(result.artifacts.is_empty());
    assert_eq!(result.proposed_effects.len(), 1);
    assert_eq!(result.proposed_effects[0].summary, "child_result:kid");
    assert_eq!(result.proposed_effects[0].outputs, vec!["o".to_string()]);
    assert_eq!(result.proposed_effects[0].messages[0].content, "m");
    assert_eq!(result.events_digest, "events:2");
    assert_eq!(result.usage.steps, 2);
    assert_eq!(result.usage.events, 2);
    assert_eq!(result.diagnostics, vec!["transport:here".to_string()]);
}

#[test]
fn sub_run_transports_name_themselves() {
    let (child, report) = finished_child();
    let local = LocalSubRunTransport.execute(&child, report).unwrap();
    assert_eq!(local.diagnostics, vec!["transport:local".to_string()]);
    let (child, report) = finished_child();
    let remote = RemoteSubRunTransportMock.execute(&child, report).unwrap();
    assert_eq!(remote.diagnostics, vec!["transport:remote-mock".to_string()]);
}
