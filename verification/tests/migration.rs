use axiom_core::migration::{
    checkpoint_json_version, checkpoint_schema_version, event_line_version, event_schema_version, migrate_event_kind, migrate_legacy_checkpoint,
    migrate_legacy_event,
};
use axiom_core::{
    CHECKPOINT_SCHEMA_VERSION, CheckpointMigrationContext, EventKind, EventMigrationContext, MigrationReport,
    MigrationStatus, RunSpec, RunState, validate_run_spec_version,
};

#[test]
fn legacy_kinds_map_to_current_kinds() {
    assert_eq!(migrate_event_kind("RunCreated"), Ok((EventKind::RunCreated, None)));
    assert_eq!(migrate_event_kind("RunFailed"), Ok((EventKind::RunFailed, None)));
    let (kind, warning) = migrate_event_kind("EffectApplied").unwrap();
    assert_eq!(kind, EventKind::EffectCommitted);
    assert_eq!(
        warning.as_deref(),
        Some("legacy EffectApplied has no payload; recovery requires a checkpoint at or after this event")
    );
    assert_eq!(migrate_event_kind("Nope"), Err("unknown_legacy_event_kind:Nope".to_string()));
}

#[test]
fn run_spec_version_must_be_current() {
    assert!(validate_run_spec_version(1).is_ok());
    assert_eq!(
        validate_run_spec_version(2),
        Err("unsupported_runspec_schema_version:2:current=1".to_string())
    );
    assert_eq!(
        validate_run_spec_version(0),
        Err("unsupported_runspec_schema_version:0:current=1".to_string())
    );
}

#[test]
fn schema_versions_accept_current_and_legacy() {
    assert_eq!(event_schema_version(None), Ok(0));
    assert_eq!(event_schema_version(Some(1)), Ok(1));
    assert_eq!(event_schema_version(Some(3)), Err("unsupported_event_schema_version:3:current=1".to_string()));
    assert_eq!(checkpoint_schema_version(Some(0)), Ok(0));
    assert_eq!(checkpoint_schema_version(Some(CHECKPOINT_SCHEMA_VERSION as u64)), Ok(1));
    assert_eq!(
        checkpoint_schema_version(Some(9)),
        Err("unsupported_checkpoint_schema_version:9:current=1".to_string())
    );
}

#[test]
fn legacy_event_gets_sequence_digest_and_causation() {
    let context = EventMigrationContext { spec_digest: "d1".to_string(), writer_epoch: 4 };
    let outcome =
        migrate_legacy_event("run-1", Some("s1".to_string()), "EffectApplied", "detail", &context, 3).unwrap();
    let event = &outcome.value;
    assert_eq!(event.schema_version, 1);
    assert_eq!(event.run_id, "run-1");
    assert_eq!(event.step_id.as_deref(), Some("s1"));
    assert_eq!(event.kind, EventKind::EffectCommitted);
    assert_eq!(event.detail, "detail");
    assert_eq!(event.sequence, 3);
    assert_eq!(event.timestamp_ms, 0);
    assert_eq!(event.spec_digest, "d1");
    assert_eq!(event.causation_id.as_deref(), Some("run-1:2"));
    assert!(event.commit_id.is_none());
    assert!(event.effect.is_none());
    assert_eq!(event.writer_epoch, 4);
    assert_eq!(outcome.status, MigrationStatus::Migrated { from_version: 0 });
    assert_eq!(outcome.warnings.len(), 1);

    let first = migrate_legacy_event("run-1", None, "RunCreated", "", &context, 1).unwrap();
    assert!(first.value.causation_id.is_none());
    assert!(first.warnings.is_empty());

    assert_eq!(
        migrate_legacy_event("run-1", None, "Bogus", "", &context, 1).map(|o| o.value.sequence),
        Err("unknown_legacy_event_kind:Bogus".to_string())
    );
}

#[test]
fn legacy_checkpoint_takes_the_context() {
    let state = RunState::from_spec(&RunSpec::new("r", "n", vec![]));
    let context = CheckpointMigrationContext { spec_digest: "dg".to_string(), last_sequence: 12, writer_epoch: 2 };
    let outcome = migrate_legacy_checkpoint("r".to_string(), state, &context);
    assert_eq!(outcome.value.checkpoint_version, CHECKPOINT_SCHEMA_VERSION);
    assert_eq!(outcome.value.run_id, "r");
    assert_eq!(outcome.value.spec_digest, "dg");
    assert_eq!(outcome.value.last_sequence, 12);
    assert_eq!(outcome.value.writer_epoch, 2);
    assert!(outcome.value.applied_commit_ids.is_empty());
    assert_eq!(outcome.status, MigrationStatus::Migrated { from_version: 0 });
    assert_eq!(
        outcome.warnings,
        vec!["legacy_checkpoint_has_no_commit_ids; migrate only at a trusted journal boundary".to_string()]
    );
}

#[test]
fn migration_report_counts_records() {
    let mut report = MigrationReport::default();
    assert_eq!(report.next_sequence(), 1);
    report.record(MigrationStatus::Current, vec![]);
    report.record(MigrationStatus::Migrated { from_version: 0 }, vec!["w".to_string()]);
    assert_eq!(report.total_records, 2);
    assert_eq!(report.current_records, 1);
    assert_eq!(report.migrated_records, 1);
    assert_eq!(report.warnings, vec!["w".to_string()]);
    assert_eq!(report.next_sequence(), 3);
}

#[test]
fn versions_are_read_from_json_text() {
    assert_eq!(event_line_version(r#"{"run_id":"r","kind":"RunCreated"}"#), Ok(0));
    assert_eq!(event_line_version(r#"{"schema_version":1}"#), Ok(1));
    assert_eq!(event_line_version(r#"{"schema_version":"1"}"#), Ok(0));
    assert_eq!(
        event_line_version(r#"{"schema_version":7}"#),
        Err("unsupported_event_schema_version:7:current=1".to_string())
    );
    let parse_error = serde_json::from_str::<serde_json::Value>("{oops").unwrap_err().to_string();
    assert_eq!(event_line_version("{oops"), Err(parse_error));
    assert_eq!(checkpoint_json_version(r#"{"checkpoint_version":1}"#), Ok(1));
    assert_eq!(
        checkpoint_json_version(r#"{"checkpoint_version":4294967297}"#),
        Ok(1)
    );
    assert_eq!(
        checkpoint_json_version(r#"{"checkpoint_version":2}"#),
        Err("unsupported_checkpoint_schema_version:2:current=1".to_string())
    );
}
