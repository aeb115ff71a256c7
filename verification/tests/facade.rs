use std::cell::RefCell;
use std::rc::Rc;

use axiom_core::{AllowWrap, Event, EventJournal, EventKind, RunSpec, WrapError, WrapHarness, WrapPolicy};

struct Recorder {
    events: Rc<RefCell<Vec<Event>>>,
}

impl EventJournal for Recorder {
    fn append(&self, event: &Event) -> Result<(), String> {
        self.events.borrow_mut().push(event.clone());
        Ok(())
    }

    fn load_after(&self, _run_id: &str, _sequence: u64) -> Result<Vec<Event>, String> {
        Ok(self.events.borrow().clone())
    }
}

struct Broken;

impl EventJournal for Broken {
    fn append(&self, _event: &Event) -> Result<(), String> {
        Err("disk full".to_string())
    }

    fn load_after(&self, _run_id: &str, _sequence: u64) -> Result<Vec<Event>, String> {
        Ok(vec![])
    }
}

struct DenyAll;

impl WrapPolicy for DenyAll {
    fn authorize(&self, spec: &RunSpec) -> Result<(), String> {
        Err(format!("no:{}", spec.run_id))
    }
}

#[test]
fn wrapped_success_records_five_events() {
    let shared = Rc::new(RefCell::new(Vec::new()));
    let harness = WrapHarness::new(AllowWrap, Some(Box::new(Recorder { events: shared.clone() })));
    let spec = RunSpec::new("w1", "wrap", vec![]);
    let report = harness.run(&spec, "dg", || Ok::<u32, String>(7)).unwrap();
    assert_eq!(report.output, 7);
    let kinds: Vec<EventKind> = report.events.iter().map(|e| e.kind).collect();
    assert_eq!(
        kinds,
        vec![
            EventKind::RunCreated,
            EventKind::RunStarted,
            EventKind::StepStarted,
            EventKind::StepCompleted,
            EventKind::RunCompleted
        ]
    );
    for (i, e) in report.events.iter().enumerate() {
        assert_eq!(e.sequence, i as u64 + 1);
        assert_eq!(e.spec_digest, "dg");
        assert_eq!(e.writer_epoch, 1);
        let expected = if i == 0 { None } else { Some(format!("w1:{i}")) };
        assert_eq!(e.causation_id, expected);
    }
    assert_eq!(report.events[2].detail, "external_executor_started");
    assert_eq!(*shared.borrow(), report.events);
}

#[test]
fn wrapped_failure_records_run_failed() {
    let shared = Rc::new(RefCell::new(Vec::new()));
    let harness = WrapHarness::new(AllowWrap, Some(Box::new(Recorder { events: shared.clone() })));
    let spec = RunSpec::new("w2", "wrap", vec![]);
    match harness.run(&spec, "dg", || Err::<u32, String>("boom".to_string())) {
        Err(WrapError::External(e)) => assert_eq!(e, "boom"),
        other => panic!("unexpected {other:?}"),
    }
    let events = shared.borrow();
    assert_eq!(events.len(), 4);
    assert_eq!(events[3].kind, EventKind::RunFailed);
    assert_eq!(events[3].detail, "external_executor_failed:boom");
}

#[test]
fn denied_wrap_never_runs_the_executor() {
    let harness = WrapHarness::new(DenyAll, None);
    let spec = RunSpec::new("w3", "wrap", vec![]);
    let ran = RefCell::new(false);
    match harness.run(&spec, "dg", || {
        *ran.borrow_mut() = true;
        Ok::<(), String>(())
    }) {
        Err(WrapError::Denied(e)) => assert_eq!(e, "no:w3"),
        other => panic!("unexpected {other:?}"),
    }
    assert!(!*ran.borrow());
}

#[test]
fn journal_failure_is_an_event_log_error() {
    let harness = WrapHarness::new(AllowWrap, Some(Box::new(Broken)));
    let spec = RunSpec::new("w4", "wrap", vec![]);
    match harness.run(&spec, "dg", || Ok::<(), String>(())) {
        Err(WrapError::EventLog(e)) => assert_eq!(e, "disk full"),
        other => panic!("unexpected {other:?}"),
    }
}
