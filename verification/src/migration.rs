use std::collections::BTreeSet;
use vstd::prelude::*;
use crate::kernel::causation_for;
use crate::runspec::{Event, EventKind, EventView, RunState, RunStateView, EVENT_SCHEMA_VERSION, RUN_SPEC_SCHEMA_VERSION, opt_string_view};
use crate::runstore::{CHECKPOINT_SCHEMA_VERSION, RunStoreRecord, RunStoreRecordView};
use crate::text::{decimal, owned, push_decimal, push_str, str_eq};

verus! {

/// Whether a record was already current or was brought up from an older version.
#[derive(Clone, Copy, Debug, PartialEq, Eq, Structural)]
pub enum MigrationStatus {
    Current,
    Migrated { from_version: u32 },
}

/// A migrated record with how it was migrated and what to watch out for.
#[derive(Debug)]
pub struct MigrationOutcome<T> {
    pub value: T,
    pub status: MigrationStatus,
    pub warnings: Vec<String>,
}

/// What legacy events lack and migration supplies.
#[derive(Debug)]
pub struct EventMigrationContext {
    pub spec_digest: String,
    pub writer_epoch: u64,
}

/// What legacy checkpoints lack and migration supplies.
#[derive(Debug)]
pub struct CheckpointMigrationContext {
    pub spec_digest: String,
    pub last_sequence: u64,
    pub writer_epoch: u64,
}

/// Counts over a migrated event log.
#[derive(Debug, Default, PartialEq, Eq)]
pub struct MigrationReport {
    pub total_records: usize,
    pub migrated_records: usize,
    pub current_records: usize,
    pub warnings: Vec<String>,
}

/// What a legacy event kind name becomes, with a warning where the new kind
/// carries more than the old one did.
pub open spec fn legacy_kind(kind: Seq<char>) -> Result<(EventKind, Option<Seq<char>>), Seq<char>> {
    if kind == "RunCreated"@ {
        Ok((EventKind::RunCreated, None))
    } else if kind == "RunStarted"@ {
        Ok((EventKind::RunStarted, None))
    } else if kind == "StepProposed"@ {
        Ok((EventKind::StepProposed, None))
    } else if kind == "ShellDecision"@ {
        Ok((EventKind::ShellDecision, None))
    } else if kind == "StepStarted"@ {
        Ok((EventKind::StepStarted, None))
    } else if kind == "StepCompleted"@ {
        Ok((EventKind::StepCompleted, None))
    } else if kind == "EffectApplied"@ {
        Ok(
            (
                EventKind::EffectCommitted,
                Some(
                    "legacy EffectApplied has no payload; recovery requires a checkpoint at or after this event"@,
                ),
            ),
        )
    } else if kind == "CapabilityDenied"@ {
        Ok((EventKind::CapabilityDenied, None))
    } else if kind == "ChildRunCreated"@ {
        Ok((EventKind::ChildRunCreated, None))
    } else if kind == "ChildRunCompleted"@ {
        Ok((EventKind::ChildRunCompleted, None))
    } else if kind == "RunCompleted"@ {
        Ok((EventKind::RunCompleted, None))
    } else if kind == "RunFailed"@ {
        Ok((EventKind::RunFailed, None))
    } else {
        Err("unknown_legacy_event_kind:"@ + kind)
    }
}

/// The name each event kind is written under.
pub open spec fn kind_name(kind: EventKind) -> Seq<char> {
    match kind {
        EventKind::RunCreated => "RunCreated"@,
        EventKind::RunStarted => "RunStarted"@,
        EventKind::StepProposed => "StepProposed"@,
        EventKind::ShellDecision => "ShellDecision"@,
        EventKind::StepStarted => "StepStarted"@,
        EventKind::StepCompleted => "StepCompleted"@,
        EventKind::EffectProposed => "EffectProposed"@,
        EventKind::EffectCommitted => "EffectCommitted"@,
        EventKind::CapabilityDenied => "CapabilityDenied"@,
        EventKind::ChildRunCreated => "ChildRunCreated"@,
        EventKind::ChildRunCompleted => "ChildRunCompleted"@,
        EventKind::RunCompleted => "RunCompleted"@,
        EventKind::RunFailed => "RunFailed"@,
    }
}

/// Migration keeps the meaning of every legacy kind: a legacy kind written
/// under the name of a current kind becomes that same kind, with no warning.
/// (Legacy logs never held the two effect kinds under their current names;
/// their one effect kind, `EffectApplied`, becomes `EffectCommitted`.)
pub proof fn lemma_legacy_kinds_keep_their_meaning(kind: EventKind)
    requires
        kind != EventKind::EffectProposed,
        kind != EventKind::EffectCommitted,
    ensures
        legacy_kind(kind_name(kind)) == Ok::<(EventKind, Option<Seq<char>>), Seq<char>>((kind, None)),
{
    match kind {
        EventKind::RunCreated => {
            reveal_strlit("RunCreated");
            reveal_strlit("RunStarted");
            reveal_strlit("StepProposed");
            reveal_strlit("ShellDecision");
            reveal_strlit("StepStarted");
            reveal_strlit("StepCompleted");
            reveal_strlit("EffectApplied");
            reveal_strlit("CapabilityDenied");
            reveal_strlit("ChildRunCreated");
            reveal_strlit("ChildRunCompleted");
            reveal_strlit("RunCompleted");
            reveal_strlit("RunFailed");
        },
        EventKind::RunStarted => {
            reveal_strlit("RunCreated");
            reveal_strlit("RunStarted");
            reveal_strlit("StepProposed");
            reveal_strlit("ShellDecision");
            reveal_strlit("StepStarted");
            reveal_strlit("StepCompleted");
            reveal_strlit("EffectApplied");
            reveal_strlit("CapabilityDenied");
            reveal_strlit("ChildRunCreated");
            reveal_strlit("ChildRunCompleted");
            reveal_strlit("RunCompleted");
            reveal_strlit("RunFailed");
            assert("RunStarted"@[3] != "RunCreated"@[3]);
            assert("RunStarted"@ != "RunCreated"@);
        },
        EventKind::StepProposed => {
            reveal_strlit("RunCreated");
            reveal_strlit("RunStarted");
            reveal_strlit("StepProposed");
            reveal_strlit("ShellDecision");
            reveal_strlit("StepStarted");
            reveal_strlit("StepCompleted");
            reveal_strlit("EffectApplied");
            reveal_strlit("CapabilityDenied");
            reveal_strlit("ChildRunCreated");
            reveal_strlit("ChildRunCompleted");
            reveal_strlit("RunCompleted");
            reveal_strlit("RunFailed");
            assert("StepProposed"@.len() != "RunCreated"@.len());
            assert("StepProposed"@.len() != "RunStarted"@.len());
        },
        EventKind::ShellDecision => {
            reveal_strlit("RunCreated");
            reveal_strlit("RunStarted");
            reveal_strlit("StepProposed");
            reveal_strlit("ShellDecision");
            reveal_strlit("StepStarted");
            reveal_strlit("StepCompleted");
            reveal_strlit("EffectApplied");
            reveal_strlit("CapabilityDenied");
            reveal_strlit("ChildRunCreated");
            reveal_strlit("ChildRunCompleted");
            reveal_strlit("RunCompleted");
            reveal_strlit("RunFailed");
            assert("ShellDecision"@.len() != "RunCreated"@.len());
            assert("ShellDecision"@.len() != "RunStarted"@.len());
            assert("ShellDecision"@.len() != "StepProposed"@.len());
        },
        EventKind::StepStarted => {
            reveal_strlit("RunCreated");
            reveal_strlit("RunStarted");
            reveal_strlit("StepProposed");
            reveal_strlit("ShellDecision");
            reveal_strlit("StepStarted");
            reveal_strlit("StepCompleted");
            reveal_strlit("EffectApplied");
            reveal_strlit("CapabilityDenied");
            reveal_strlit("ChildRunCreated");
            reveal_strlit("ChildRunCompleted");
            reveal_strlit("RunCompleted");
            reveal_strlit("RunFailed");
            assert("StepStarted"@.len() != "RunCreated"@.len());
            assert("StepStarted"@.len() != "RunStarted"@.len());
            assert("StepStarted"@.len() != "StepProposed"@.len());
            assert("StepStarted"@.len() != "ShellDecision"@.len());
        },
        EventKind::StepCompleted => {
            reveal_strlit("RunCreated");
            reveal_strlit("RunStarted");
            reveal_strlit("StepProposed");
            reveal_strlit("ShellDecision");
            reveal_strlit("StepStarted");
            reveal_strlit("StepCompleted");
            reveal_strlit("EffectApplied");
            reveal_strlit("CapabilityDenied");
            reveal_strlit("ChildRunCreated");
            reveal_strlit("ChildRunCompleted");
            reveal_strlit("RunCompleted");
            reveal_strlit("RunFailed");
            assert("StepCompleted"@.len() != "RunCreated"@.len());
            assert("StepCompleted"@.len() != "RunStarted"@.len());
            assert("StepCompleted"@.len() != "StepProposed"@.len());
            assert("StepCompleted"@[1] != "ShellDecision"@[1]);
            assert("StepCompleted"@ != "ShellDecision"@);
            assert("StepCompleted"@.len() != "StepStarted"@.len());
        },
        EventKind::CapabilityDenied => {
            reveal_strlit("RunCreated");
            reveal_strlit("RunStarted");
            reveal_strlit("StepProposed");
            reveal_strlit("ShellDecision");
            reveal_strlit("StepStarted");
            reveal_strlit("StepCompleted");
            reveal_strlit("EffectApplied");
            reveal_strlit("CapabilityDenied");
            reveal_strlit("ChildRunCreated");
            reveal_strlit("ChildRunCompleted");
            reveal_strlit("RunCompleted");
            reveal_strlit("RunFailed");
            assert("CapabilityDenied"@.len() != "RunCreated"@.len());
            assert("CapabilityDenied"@.len() != "RunStarted"@.len());
            assert("CapabilityDenied"@.len() != "StepProposed"@.len());
            assert("CapabilityDenied"@.len() != "ShellDecision"@.len());
            assert("CapabilityDenied"@.len() != "StepStarted"@.len());
            assert("CapabilityDenied"@.len() != "StepCompleted"@.len());
            assert("CapabilityDenied"@.len() != "EffectApplied"@.len());
        },
        EventKind::ChildRunCreated => {
            reveal_strlit("RunCreated");
            reveal_strlit("RunStarted");
            reveal_strlit("StepProposed");
            reveal_strlit("ShellDecision");
            reveal_strlit("StepStarted");
            reveal_strlit("StepCompleted");
            reveal_strlit("EffectApplied");
            reveal_strlit("CapabilityDenied");
            reveal_strlit("ChildRunCreated");
            reveal_strlit("ChildRunCompleted");
            reveal_strlit("RunCompleted");
            reveal_strlit("RunFailed");
            assert("ChildRunCreated"@.len() != "RunCreated"@.len());
            assert("ChildRunCreated"@.len() != "RunStarted"@.len());
            assert("ChildRunCreated"@.len() != "StepProposed"@.len());
            assert("ChildRunCreated"@.len() != "ShellDecision"@.len());
            assert("ChildRunCreated"@.len() != "StepStarted"@.len());
            assert("ChildRunCreated"@.len() != "StepCompleted"@.len());
            assert("ChildRunCreated"@.len() != "EffectApplied"@.len());
            assert("ChildRunCreated"@.len() != "CapabilityDenied"@.len());
        },
        EventKind::ChildRunCompleted => {
            reveal_strlit("RunCreated");
            reveal_strlit("RunStarted");
            reveal_strlit("StepProposed");
            reveal_strlit("ShellDecision");
            reveal_strlit("StepStarted");
            reveal_strlit("StepCompleted");
            reveal_strlit("EffectApplied");
            reveal_strlit("CapabilityDenied");
            reveal_strlit("ChildRunCreated");
            reveal_strlit("ChildRunCompleted");
            reveal_strlit("RunCompleted");
            reveal_strlit("RunFailed");
            assert("ChildRunCompleted"@.len() != "RunCreated"@.len());
            assert("ChildRunCompleted"@.len() != "RunStarted"@.len());
            assert("ChildRunCompleted"@.len() != "StepProposed"@.len());
            assert("ChildRunCompleted"@.len() != "ShellDecision"@.len());
            assert("ChildRunCompleted"@.len() != "StepStarted"@.len());
            assert("ChildRunCompleted"@.len() != "StepCompleted"@.len());
            assert("ChildRunCompleted"@.len() != "EffectApplied"@.len());
            assert("ChildRunCompleted"@.len() != "CapabilityDenied"@.len());
            assert("ChildRunCompleted"@.len() != "ChildRunCreated"@.len());
        },
        EventKind::RunCompleted => {
            reveal_strlit("RunCreated");
            reveal_strlit("RunStarted");
            reveal_strlit("StepProposed");
            reveal_strlit("ShellDecision");
            reveal_strlit("StepStarted");
            reveal_strlit("StepCompleted");
            reveal_strlit("EffectApplied");
            reveal_strlit("CapabilityDenied");
            reveal_strlit("ChildRunCreated");
            reveal_strlit("ChildRunCompleted");
            reveal_strlit("RunCompleted");
            reveal_strlit("RunFailed");
            assert("RunCompleted"@.len() != "RunCreated"@.len());
            assert("RunCompleted"@.len() != "RunStarted"@.len());
            assert("RunCompleted"@[0] != "StepProposed"@[0]);
            assert("RunCompleted"@ != "StepProposed"@);
            assert("RunCompleted"@.len() != "ShellDecision"@.len());
            assert("RunCompleted"@.len() != "StepStarted"@.len());
            assert("RunCompleted"@.len() != "StepCompleted"@.len());
            assert("RunCompleted"@.len() != "EffectApplied"@.len());
            assert("RunCompleted"@.len() != "CapabilityDenied"@.len());
            assert("RunCompleted"@.len() != "ChildRunCreated"@.len());
            assert("RunCompleted"@.len() != "ChildRunCompleted"@.len());
        },
        EventKind::RunFailed => {
            reveal_strlit("RunCreated");
            reveal_strlit("RunStarted");
            reveal_strlit("StepProposed");
            reveal_strlit("ShellDecision");
            reveal_strlit("StepStarted");
            reveal_strlit("StepCompleted");
            reveal_strlit("EffectApplied");
            reveal_strlit("CapabilityDenied");
            reveal_strlit("ChildRunCreated");
            reveal_strlit("ChildRunCompleted");
            reveal_strlit("RunCompleted");
            reveal_strlit("RunFailed");
            assert("RunFailed"@.len() != "RunCreated"@.len());
            assert("RunFailed"@.len() != "RunStarted"@.len());
            assert("RunFailed"@.len() != "StepProposed"@.len());
            assert("RunFailed"@.len() != "ShellDecision"@.len());
            assert("RunFailed"@.len() != "StepStarted"@.len());
            assert("RunFailed"@.len() != "StepCompleted"@.len());
            assert("RunFailed"@.len() != "EffectApplied"@.len());
            assert("RunFailed"@.len() != "CapabilityDenied"@.len());
            assert("RunFailed"@.len() != "ChildRunCreated"@.len());
            assert("RunFailed"@.len() != "ChildRunCompleted"@.len());
            assert("RunFailed"@.len() != "RunCompleted"@.len());
        },
        _ => {},
    }
}

/// A legacy `EffectApplied` event becomes a committed effect, with a warning
/// that it carries no payload.
pub proof fn lemma_legacy_effect_applied_is_committed()
    ensures
        legacy_kind("EffectApplied"@) matches Ok((k, w)) && k == EventKind::EffectCommitted && w is Some,
{
    reveal_strlit("RunCreated");
    reveal_strlit("RunStarted");
    reveal_strlit("StepProposed");
    reveal_strlit("ShellDecision");
    reveal_strlit("StepStarted");
    reveal_strlit("StepCompleted");
    reveal_strlit("EffectApplied");
    reveal_strlit("CapabilityDenied");
    reveal_strlit("ChildRunCreated");
    reveal_strlit("ChildRunCompleted");
    reveal_strlit("RunCompleted");
    reveal_strlit("RunFailed");
    assert("EffectApplied"@.len() != "RunCreated"@.len());
    assert("EffectApplied"@.len() != "RunStarted"@.len());
    assert("EffectApplied"@.len() != "StepProposed"@.len());
    assert("EffectApplied"@[0] != "ShellDecision"@[0]);
    assert("EffectApplied"@ != "ShellDecision"@);
    assert("EffectApplied"@.len() != "StepStarted"@.len());
    assert("EffectApplied"@[0] != "StepCompleted"@[0]);
    assert("EffectApplied"@ != "StepCompleted"@);
}

/// Maps a legacy event kind name to the current kind.
pub fn migrate_event_kind(kind: &str) -> (r: Result<(EventKind, Option<String>), String>)
    ensures
        match (r, legacy_kind(kind@)) {
            (Ok((k, w)), Ok((k2, w2))) => k == k2 && opt_string_view(w) == w2,
            (Err(e), Err(m)) => e@ == m,
            _ => false,
        },
{
    if str_eq(kind, "RunCreated") {
        Ok((EventKind::RunCreated, None))
    } else if str_eq(kind, "RunStarted") {
        Ok((EventKind::RunStarted, None))
    } else if str_eq(kind, "StepProposed") {
        Ok((EventKind::StepProposed, None))
    } else if str_eq(kind, "ShellDecision") {
        Ok((EventKind::ShellDecision, None))
    } else if str_eq(kind, "StepStarted") {
        Ok((EventKind::StepStarted, None))
    } else if str_eq(kind, "StepCompleted") {
        Ok((EventKind::StepCompleted, None))
    } else if str_eq(kind, "EffectApplied") {
        Ok(
            (
                EventKind::EffectCommitted,
                Some(
                    owned(
                        "legacy EffectApplied has no payload; recovery requires a checkpoint at or after this event",
                    ),
                ),
            ),
        )
    } else if str_eq(kind, "CapabilityDenied") {
        Ok((EventKind::CapabilityDenied, None))
    } else if str_eq(kind, "ChildRunCreated") {
        Ok((EventKind::ChildRunCreated, None))
    } else if str_eq(kind, "ChildRunCompleted") {
        Ok((EventKind::ChildRunCompleted, None))
    } else if str_eq(kind, "RunCompleted") {
        Ok((EventKind::RunCompleted, None))
    } else if str_eq(kind, "RunFailed") {
        Ok((EventKind::RunFailed, None))
    } else {
        let mut e = owned("unknown_legacy_event_kind:");
        push_str(&mut e, kind);
        Err(e)
    }
}

/// Accepts only run specifications of the current schema.
pub fn validate_run_spec_version(schema_version: u32) -> (r: Result<(), String>)
    ensures
        schema_version == RUN_SPEC_SCHEMA_VERSION ==> r is Ok,
        schema_version != RUN_SPEC_SCHEMA_VERSION ==> (r matches Err(e) && e@ == "unsupported_runspec_schema_version:"@
            + decimal(schema_version as nat) + ":current="@ + decimal(RUN_SPEC_SCHEMA_VERSION as nat)),
{
    if schema_version == RUN_SPEC_SCHEMA_VERSION {
        Ok(())
    } else {
        let mut e = owned("unsupported_runspec_schema_version:");
        push_decimal(&mut e, schema_version as u128);
        push_str(&mut e, ":current=");
        push_decimal(&mut e, RUN_SPEC_SCHEMA_VERSION as u128);
        Err(e)
    }
}

/// The schema version a record declares: its version field cut to 32 bits, or 0
/// when the field is missing or not an unsigned integer.
pub open spec fn declared_version(field: Option<u64>) -> u32 {
    match field {
        Some(v) => v as u32,
        None => 0,
    }
}

/// The schema version a record declares in `field`, when it is `current` or 0
/// (the legacy form); any other version is refused, naming it and the current
/// one after `prefix`.
pub open spec fn version_result(field: Option<u64>, current: u32, prefix: Seq<char>) -> Result<u32, Seq<char>> {
    let v = declared_version(field);
    if v == current || v == 0 {
        Ok(v)
    } else {
        Err(prefix + decimal(v as nat) + ":current="@ + decimal(current as nat))
    }
}

/// Reads the schema version of an event record: the current version and 0 (the
/// legacy form) are accepted; any other is refused.
pub fn event_schema_version(field: Option<u64>) -> (r: Result<u32, String>)
    ensures
        match (r, version_result(field, EVENT_SCHEMA_VERSION, "unsupported_event_schema_version:"@)) {
            (Ok(a), Ok(b)) => a == b,
            (Err(e), Err(m)) => e@ == m,
            _ => false,
        },
{
    let version: u32 = match field {
        Some(v) => v as u32,
        None => 0,
    };
    if version == EVENT_SCHEMA_VERSION || version == 0 {
        Ok(version)
    } else {
        let mut e = owned("unsupported_event_schema_version:");
        push_decimal(&mut e, version as u128);
        push_str(&mut e, ":current=");
        push_decimal(&mut e, EVENT_SCHEMA_VERSION as u128);
        Err(e)
    }
}

/// Reads the version of a checkpoint record: the current version and 0 (the
/// legacy form) are accepted; any other is refused.
pub fn checkpoint_schema_version(field: Option<u64>) -> (r: Result<u32, String>)
    ensures
        match (r, version_result(field, CHECKPOINT_SCHEMA_VERSION, "unsupported_checkpoint_schema_version:"@)) {
            (Ok(a), Ok(b)) => a == b,
            (Err(e), Err(m)) => e@ == m,
            _ => false,
        },
{
    let version: u32 = match field {
        Some(v) => v as u32,
        None => 0,
    };
    if version == CHECKPOINT_SCHEMA_VERSION || version == 0 {
        Ok(version)
    } else {
        let mut e = owned("unsupported_checkpoint_schema_version:");
        push_decimal(&mut e, version as u128);
        push_str(&mut e, ":current=");
        push_decimal(&mut e, CHECKPOINT_SCHEMA_VERSION as u128);
        Err(e)
    }
}

/// What `serde_json` reads from the JSON text `json` as the field `key` of its
/// top-level value: the field as an unsigned integer, `None` when it is
/// missing or not one, or the text of the parse error.
pub uninterp spec fn json_u64_field(json: Seq<char>, key: Seq<char>) -> Result<Option<u64>, Seq<char>>;

/// `serde_json::from_str::<serde_json::Value>` on `json`, then `Value::get` of
/// `key` and `Value::as_u64`: a function of the text and the key alone, whose
/// value is not stated beyond its name.
#[verifier::external_body]
fn read_json_u64_field(json: &str, key: &str) -> (r: Result<Option<u64>, String>)
    ensures
        match (r, json_u64_field(json@, key@)) {
            (Ok(a), Ok(b)) => a == b,
            (Err(e), Err(m)) => e@ == m,
            _ => false,
        },
{
    match serde_json::from_str::<serde_json::Value>(json) {
        Ok(value) => match value.get(key) {
            Some(field) => Ok(field.as_u64()),
            None => Ok(None),
        },
        Err(e) => Err(e.to_string()),
    }
}

/// The schema version of the event on a journal line: the line's
/// `schema_version` field read as `event_schema_version` reads it, or the
/// parse error.
pub fn event_line_version(line: &str) -> (r: Result<u32, String>)
    ensures
        match json_u64_field(line@, "schema_version"@) {
            Err(m) => r matches Err(e) && e@ == m,
            Ok(f) => match (r, version_result(f, EVENT_SCHEMA_VERSION, "unsupported_event_schema_version:"@)) {
                (Ok(a), Ok(b)) => a == b,
                (Err(e), Err(m)) => e@ == m,
                _ => false,
            },
        },
{
    match read_json_u64_field(line, "schema_version") {
        Err(e) => Err(e),
        Ok(field) => event_schema_version(field),
    }
}

/// The version of a checkpoint's JSON text: its `checkpoint_version` field read
/// as `checkpoint_schema_version` reads it, or the parse error.
pub fn checkpoint_json_version(json: &str) -> (r: Result<u32, String>)
    ensures
        match json_u64_field(json@, "checkpoint_version"@) {
            Err(m) => r matches Err(e) && e@ == m,
            Ok(f) => match (r, version_result(f, CHECKPOINT_SCHEMA_VERSION, "unsupported_checkpoint_schema_version:"@)) {
                (Ok(a), Ok(b)) => a == b,
                (Err(e), Err(m)) => e@ == m,
                _ => false,
            },
        },
{
    match read_json_u64_field(json, "checkpoint_version") {
        Err(e) => Err(e),
        Ok(field) => checkpoint_schema_version(field),
    }
}

/// The current form of a legacy event that was line `sequence` of its log: the
/// kind mapped, numbered `sequence`, caused by the event before it, with the
/// context's digest and writer epoch and no time.
pub open spec fn migrated_event(
    run_id: Seq<char>,
    step_id: Option<Seq<char>>,
    kind: EventKind,
    detail: Seq<char>,
    spec_digest: Seq<char>,
    writer_epoch: u64,
    sequence: u64,
) -> EventView {
    EventView {
        schema_version: EVENT_SCHEMA_VERSION,
        run_id,
        step_id,
        kind,
        detail,
        sequence,
        timestamp_ms: 0,
        spec_digest,
        causation_id: causation_for(run_id, sequence as nat),
        commit_id: None,
        effect: None,
        writer_epoch,
    }
}

/// Brings a legacy (version 0) event up to the current schema.
pub fn migrate_legacy_event(
    run_id: &str,
    step_id: Option<String>,
    kind: &str,
    detail: &str,
    context: &EventMigrationContext,
    sequence: u64,
) -> (r: Result<MigrationOutcome<Event>, String>)
    ensures
        match (r, legacy_kind(kind@)) {
            (Ok(outcome), Ok((k, w))) => outcome.value@ == migrated_event(
                run_id@,
                opt_string_view(step_id),
                k,
                detail@,
                context.spec_digest@,
                context.writer_epoch,
                sequence,
            ) && outcome.status == (MigrationStatus::Migrated { from_version: 0 })
                && outcome.warnings.deep_view() == match w {
                Some(x) => seq![x],
                None => Seq::<Seq<char>>::empty(),
            },
            (Err(e), Err(m)) => e@ == m,
            _ => false,
        },
{
    let (kind, warning) = match migrate_event_kind(kind) {
        Ok(x) => x,
        Err(e) => return Err(e),
    };
    let mut event = Event::new(run_id, step_id, kind, detail);
    event.sequence = sequence;
    event.timestamp_ms = 0;
    event.spec_digest = context.spec_digest.clone();
    event.writer_epoch = context.writer_epoch;
    if sequence > 1 {
        let mut cause = owned(run_id);
        push_str(&mut cause, ":");
        push_decimal(&mut cause, (sequence - 1) as u128);
        event.causation_id = Some(cause);
    }
    let mut warnings: Vec<String> = Vec::new();
    match warning {
        Some(w) => warnings.push(w),
        None => {},
    }
    assert(warnings.deep_view() =~= match warning {
        Some(x) => seq![x@],
        None => Seq::<Seq<char>>::empty(),
    });
    Ok(MigrationOutcome { value: event, status: MigrationStatus::Migrated { from_version: 0 }, warnings })
}

/// The warning every migrated legacy checkpoint carries.
pub open spec fn legacy_checkpoint_warning() -> Seq<char> {
    "legacy_checkpoint_has_no_commit_ids; migrate only at a trusted journal boundary"@
}

/// Brings a legacy (version 0) checkpoint up to the current schema, taking the
/// digest, last sequence and writer epoch from the context and no commit ids.
pub fn migrate_legacy_checkpoint(
    run_id: String,
    state: RunState,
    context: &CheckpointMigrationContext,
) -> (r: MigrationOutcome<RunStoreRecord>)
    ensures
        r.value@ == (RunStoreRecordView {
            checkpoint_version: CHECKPOINT_SCHEMA_VERSION,
            run_id: run_id@,
            spec_digest: context.spec_digest@,
            last_sequence: context.last_sequence,
            writer_epoch: context.writer_epoch,
            applied_commit_ids: Set::empty(),
            state: state@,
        }),
        r.status == (MigrationStatus::Migrated { from_version: 0 }),
        r.warnings.deep_view() == seq![legacy_checkpoint_warning()],
{
    let mut warnings: Vec<String> = Vec::new();
    warnings.push(owned("legacy_checkpoint_has_no_commit_ids; migrate only at a trusted journal boundary"));
    assert(warnings.deep_view() =~= seq![legacy_checkpoint_warning()]);
    MigrationOutcome {
        value: RunStoreRecord {
            checkpoint_version: CHECKPOINT_SCHEMA_VERSION,
            run_id,
            spec_digest: context.spec_digest.clone(),
            last_sequence: context.last_sequence,
            writer_epoch: context.writer_epoch,
            applied_commit_ids: BTreeSet::new(),
            state,
        },
        status: MigrationStatus::Migrated { from_version: 0 },
        warnings,
    }
}

impl MigrationReport {
    /// The sequence number the next record of a migrated log gets: its line number.
    pub fn next_sequence(&self) -> (r: u64)
        requires
            self.total_records < u64::MAX,
        ensures
            r == self.total_records + 1,
    {
        self.total_records as u64 + 1
    }

    /// Counts one more migrated record and keeps its warnings.
    pub fn record(&mut self, status: MigrationStatus, warnings: Vec<String>)
        requires
            old(self).total_records < usize::MAX,
            old(self).migrated_records + old(self).current_records <= old(self).total_records,
        ensures
            final(self).total_records == old(self).total_records + 1,
            final(self).migrated_records == old(self).migrated_records + if status is Migrated { 1usize } else { 0 },
            final(self).current_records == old(self).current_records + if status is Current { 1usize } else { 0 },
            final(self).warnings.deep_view() == old(self).warnings.deep_view() + warnings.deep_view(),
    {
        self.total_records = self.total_records + 1;
        match status {
            MigrationStatus::Current => {
                self.current_records = self.current_records + 1;
            },
            MigrationStatus::Migrated { .. } => {
                self.migrated_records = self.migrated_records + 1;
            },
        }
        let ghost w0 = self.warnings.deep_view();
        let ghost w1 = warnings.deep_view();
        let mut more = warnings;
        self.warnings.append(&mut more);
        assert(self.warnings.deep_view() =~= w0 + w1);
    }
}

} // verus!
