use axiom_core::eventlog::{compact_journal, repair_journal, replay_summary_of, scan_integrity, select_after, validation_summary_of};
use axiom_core::{Event, EventKind, JsonlEventLog};

fn ev(run: &str, seq: u64, kind: EventKind, commit: Option<&str>) -> Event {
    let mut e = Event::new(run, None, kind, "d");
    e.sequence = seq;
    e.commit_id = commit.map(|c| c.to_string());
    e
}

#[test]
fn integrity_scan_finds_corruption_gaps_and_repeats() {
    let lines = vec![
        Some(ev("a", 1, EventKind::RunCreated, Some("c1"))),
        None,
        Some(ev("b", 5, EventKind::RunCreated, None)),
        Some(ev("a", 3, EventKind::RunStarted, Some("c1"))),
        Some(ev("b", 6, EventKind::RunStarted, Some("c1"))),
    ];
    let report = scan_integrity(&lines);
    assert_eq!(report.total_lines, 5);
    assert_eq!(report.valid_events, 4);
    assert_eq!(report.corrupt_lines, vec![2]);
    assert_eq!(report.sequence_anomalies, vec!["a:4:1:3".to_string()]);
    assert_eq!(report.duplicate_commit_ids, vec!["c1".to_string(), "c1".to_string()]);
    assert!(!report.is_clean());
}

#[test]
fn clean_journal_is_clean() {
    let lines = vec![Some(ev("a", 1, EventKind::RunCreated, None)), Some(ev("a", 2, EventKind::RunCompleted, None))];
    let report = scan_integrity(&lines);
    assert!(report.is_clean());
    assert_eq!(report.valid_events, 2);
}

#[test]
fn repair_keeps_events_and_quarantines_bad_lines() {
    let lines = vec![Some(ev("a", 1, EventKind::RunCreated, None)), None, Some(ev("a", 2, EventKind::RunStarted, None)), None];
    let (kept, report) = repair_journal(&lines).unwrap();
    assert_eq!(kept.len(), 2);
    assert_eq!(report.source_lines, 4);
    assert_eq!(report.repaired_events, 2);
    assert_eq!(report.quarantined_lines, vec![2, 4]);
}

#[test]
fn repair_refuses_semantic_damage() {
    let lines = vec![Some(ev("a", 1, EventKind::RunCreated, None)), Some(ev("a", 5, EventKind::RunStarted, None))];
    assert_eq!(
        repair_journal(&lines).unwrap_err(),
        "journal_semantic_corruption_requires_manual_reconciliation".to_string()
    );
}

#[test]
fn compaction_drops_events_up_to_the_boundary() {
    let lines = vec![
        Some(ev("a", 1, EventKind::RunCreated, None)),
        Some(ev("b", 1, EventKind::RunCreated, None)),
        Some(ev("a", 2, EventKind::RunStarted, None)),
        Some(ev("a", 3, EventKind::RunCompleted, None)),
    ];
    let (kept, report) = compact_journal(&lines, vec![("a".to_string(), 2)]).unwrap();
    assert_eq!(kept.len(), 2);
    assert_eq!(kept[0].run_id, "b");
    assert_eq!(kept[1].sequence, 3);
    assert_eq!(report.source_events, 4);
    assert_eq!(report.retained_events, 2);
    assert_eq!(report.dropped_events, 2);
    assert_eq!(report.snapshot_boundaries, vec![("a".to_string(), 2)]);
}

#[test]
fn compaction_requires_a_clean_journal() {
    let lines = vec![Some(ev("a", 1, EventKind::RunCreated, None)), None];
    assert_eq!(compact_journal(&lines, vec![]).unwrap_err(), "journal_must_be_clean_before_compaction".to_string());
}

#[test]
fn select_after_filters_and_orders_stably() {
    let mut x = ev("a", 3, EventKind::StepStarted, None);
    x.detail = "first three".to_string();
    let mut y = ev("a", 3, EventKind::StepCompleted, None);
    y.detail = "second three".to_string();
    let events = vec![x, ev("a", 1, EventKind::RunCreated, None), ev("b", 9, EventKind::RunCreated, None), ev("a", 2, EventKind::RunStarted, None), y];
    let picked = select_after(&events, "a", 1);
    let got: Vec<(u64, String)> = picked.iter().map(|e| (e.sequence, e.detail.clone())).collect();
    assert_eq!(got, vec![(2, "d".to_string()), (3, "first three".to_string()), (3, "second three".to_string())]);
}

#[test]
fn summaries_count_lines_and_outcomes() {
    let events = vec![ev("a", 1, EventKind::RunCompleted, None), ev("b", 1, EventKind::RunFailed, None), ev("c", 1, EventKind::RunCompleted, None)];
    let summary = replay_summary_of(&events);
    assert_eq!(summary.total_events, 3);
    assert_eq!(summary.completed_runs, 2);
    assert_eq!(summary.failed_runs, 1);
    let lines = vec![Some(ev("a", 1, EventKind::RunCreated, None)), None, None];
    let validation = validation_summary_of(&lines);
    assert_eq!(validation.valid_lines, 1);
    assert_eq!(validation.invalid_lines, 2);
}

#[test]
fn event_log_keeps_its_path() {
    let log = JsonlEventLog::new("target/events.jsonl");
    assert_eq!(log.path(), "target/events.jsonl");
}
