use vstd::prelude::*;
use crate::eventlog::EventJournal;
use crate::kernel::causation_for;
use crate::runspec::{Event, EventKind, EventView, RunSpec, RunSpecView, events_view, EVENT_SCHEMA_VERSION};
use crate::text::{owned, push_decimal, push_str};
use std::time::{Duration, SystemTime, SystemTimeError, UNIX_EPOCH};

verus! {

/// Decides whether an outside executor may run under a specification.
pub trait WrapPolicy {
    /// Whether `result` is a verdict the policy may give on `spec` (any verdict,
    /// unless the policy says more).
    open spec fn may_authorize(&self, spec: RunSpecView, result: Result<(), Seq<char>>) -> bool {
        true
    }

    fn authorize(&self, spec: &RunSpec) -> (r: Result<(), String>)
        ensures
            self.may_authorize(
                spec@,
                match r {
                    Ok(()) => Ok(()),
                    Err(e) => Err(e@),
                },
            ),
    ;
}

/// Lets every executor run.
#[derive(Default)]
pub struct AllowWrap;

impl WrapPolicy for AllowWrap {
    open spec fn may_authorize(&self, spec: RunSpecView, result: Result<(), Seq<char>>) -> bool {
        result is Ok
    }

    fn authorize(&self, spec: &RunSpec) -> (r: Result<(), String>)
        ensures
            r is Ok,
    {
        Ok(())
    }
}

/// Why a wrapped execution stopped.
#[derive(Debug)]
pub enum WrapError {
    Denied(String),
    External(String),
    EventLog(String),
}

/// The output of a wrapped execution and the events recorded around it.
#[derive(Debug)]
pub struct WrapReport<T> {
    pub output: T,
    pub events: Vec<Event>,
}

/// Runs an outside executor as a one-step run: authorizes it, and records its
/// start and its outcome as events (journaled when there is a journal).
pub struct WrapHarness<P> {
    policy: P,
    event_log: Option<Box<dyn EventJournal>>,
}

#[verifier::external_type_specification]
#[verifier::external_body]
pub struct ExSystemTime(std::time::SystemTime);

#[verifier::external_type_specification]
#[verifier::external_body]
pub struct ExSystemTimeError(std::time::SystemTimeError);

/// `std::time::SystemTime::now`: the clock's current time. It depends on the
/// clock, so nothing is stated of it.
#[verifier::external_body]
fn system_time_now() -> SystemTime {
    SystemTime::now()
}

/// `std::time::SystemTime::duration_since`, measured from `UNIX_EPOCH`: the
/// time elapsed since the epoch, or an error for a time before it. It depends
/// on the clock's value, so nothing is stated of it.
#[verifier::external_body]
fn since_unix_epoch(time: &SystemTime) -> Result<Duration, SystemTimeError> {
    time.duration_since(UNIX_EPOCH)
}

/// `std::time::Duration::as_millis`: the whole milliseconds of a duration; the
/// duration is opaque here, so nothing is stated of the number.
#[verifier::external_body]
fn duration_millis(duration: &Duration) -> u128 {
    duration.as_millis()
}

/// The text `std::time::SystemTimeError` displays; nothing is stated of it.
#[verifier::external_body]
fn time_error_text(error: &SystemTimeError) -> String {
    error.to_string()
}

/// The current time in milliseconds since the Unix epoch (cut to 64 bits), or
/// why the clock could not say.
fn unix_time_ms() -> Result<u64, String> {
    let now = system_time_now();
    match since_unix_epoch(&now) {
        Ok(elapsed) => {
            let ms = duration_millis(&elapsed);
            Ok(#[verifier::truncate] (ms as u64))
        },
        Err(e) => Err(time_error_text(&e)),
    }
}

/// The event the harness records as number `sequence` of a wrapped run
/// (its time aside): writer epoch 1, the specification's digest, and caused by
/// the event before it.
pub open spec fn wrap_event_matches(
    e: EventView,
    run_id: Seq<char>,
    spec_digest: Seq<char>,
    kind: EventKind,
    detail: Seq<char>,
    sequence: nat,
) -> bool {
    &&& e.schema_version == EVENT_SCHEMA_VERSION
    &&& e.run_id == run_id
    &&& e.step_id is None
    &&& e.kind == kind
    &&& e.detail == detail
    &&& e.sequence == sequence
    &&& e.spec_digest == spec_digest
    &&& e.causation_id == causation_for(run_id, sequence)
    &&& e.commit_id is None
    &&& e.effect is None
    &&& e.writer_epoch == 1
}

impl<P: WrapPolicy> WrapHarness<P> {
    pub fn new(policy: P, event_log: Option<Box<dyn EventJournal>>) -> (r: Self)
        ensures
            r.policy() == policy,
            r.journaled() == event_log is Some,
    {
        WrapHarness { policy, event_log }
    }

    /// The policy that authorizes executions.
    pub closed spec fn policy(&self) -> P {
        self.policy
    }

    /// Whether the harness records its events in a journal.
    pub closed spec fn journaled(&self) -> bool {
        self.event_log is Some
    }

    /// The journal accepts `e`: appending it may succeed (always so without a journal).
    pub closed spec fn journal_takes(&self, e: EventView) -> bool {
        match self.event_log {
            Some(j) => j.may_append(e, Ok(())),
            None => true,
        }
    }

    /// Runs `external` under `spec` (whose digest is `spec_digest`).
    pub fn run<T, F: FnOnce() -> Result<T, String>>(&self, spec: &RunSpec, spec_digest: &str, external: F) -> (r: Result<
        WrapReport<T>,
        WrapError,
    >)
        requires
            external.requires(()),
        ensures
            r matches Ok(report) ==> {
                let ev = events_view(report.events@);
                &&& external.ensures((), Ok::<T, String>(report.output))
                &&& ev.len() == 5
                &&& wrap_event_matches(ev[0], spec.run_id@, spec_digest@, EventKind::RunCreated, "wrap_created"@, 1)
                &&& wrap_event_matches(ev[1], spec.run_id@, spec_digest@, EventKind::RunStarted, "wrap_started"@, 2)
                &&& wrap_event_matches(ev[2], spec.run_id@, spec_digest@, EventKind::StepStarted, "external_executor_started"@, 3)
                &&& wrap_event_matches(ev[3], spec.run_id@, spec_digest@, EventKind::StepCompleted, "external_executor_completed"@, 4)
                &&& wrap_event_matches(ev[4], spec.run_id@, spec_digest@, EventKind::RunCompleted, "wrap_completed"@, 5)
            },
            r matches Err(WrapError::External(e)) ==> external.ensures((), Err::<T, String>(e)),
            r matches Err(WrapError::External(e)) ==> exists|failed: EventView|
                #[trigger] self.journal_takes(failed) && wrap_event_matches(
                    failed,
                    spec.run_id@,
                    spec_digest@,
                    EventKind::RunFailed,
                    "external_executor_failed:"@ + e@,
                    4,
                ),
            r matches Ok(report) ==> forall|i: int|
                0 <= i < report.events@.len() ==> #[trigger] self.journal_takes(events_view(report.events@)[i]),
            r matches Err(WrapError::Denied(e)) ==> self.policy().may_authorize(spec@, Err(e@)),
            !(r matches Err(WrapError::Denied(_))) ==> self.policy().may_authorize(spec@, Ok(())),
    {
        if let Err(e) = self.policy.authorize(spec) {
            return Err(WrapError::Denied(e));
        }
        let mut events: Vec<Event> = Vec::new();
        match self.emit(spec, spec_digest, &mut events, EventKind::RunCreated, "wrap_created") {
            Ok(()) => {},
            Err(e) => return Err(e),
        }
        match self.emit(spec, spec_digest, &mut events, EventKind::RunStarted, "wrap_started") {
            Ok(()) => {},
            Err(e) => return Err(e),
        }
        match self.emit(spec, spec_digest, &mut events, EventKind::StepStarted, "external_executor_started") {
            Ok(()) => {},
            Err(e) => return Err(e),
        }
        let ghost e3 = events_view(events@);
        match external() {
            Ok(output) => {
                match self.emit(spec, spec_digest, &mut events, EventKind::StepCompleted, "external_executor_completed") {
                    Ok(()) => {},
                    Err(e) => return Err(e),
                }
                match self.emit(spec, spec_digest, &mut events, EventKind::RunCompleted, "wrap_completed") {
                    Ok(()) => {},
                    Err(e) => return Err(e),
                }
                Ok(WrapReport { output, events })
            },
            Err(error) => {
                let mut detail = owned("external_executor_failed:");
                push_str(&mut detail, error.as_str());
                match self.emit(spec, spec_digest, &mut events, EventKind::RunFailed, detail.as_str()) {
                    Ok(()) => {},
                    Err(e) => return Err(e),
                }
                assert(self.journal_takes(events_view(events@).last()));
                Err(WrapError::External(error))
            },
        }
    }

    /// Records the next event of a wrapped run.
    fn emit(&self, spec: &RunSpec, spec_digest: &str, events: &mut Vec<Event>, kind: EventKind, detail: &str) -> (r: Result<(), WrapError>)
        requires
            old(events)@.len() < 5,
        ensures
            r is Ok ==> final(events)@.len() == old(events)@.len() + 1
                && events_view(final(events)@).drop_last() == events_view(old(events)@)
                && wrap_event_matches(events_view(final(events)@).last(), spec.run_id@, spec_digest@, kind, detail@, (old(events)@.len() + 1) as nat)
                && self.journal_takes(events_view(final(events)@).last()),
            r is Err ==> (r matches Err(WrapError::EventLog(_))),
    {
        let sequence: u64 = events.len() as u64 + 1;
        let mut event = Event::new(spec.run_id.as_str(), None, kind, detail);
        event.sequence = sequence;
        event.timestamp_ms = match unix_time_ms() {
            Ok(t) => t,
            Err(e) => return Err(WrapError::EventLog(e)),
        };
        event.spec_digest = owned(spec_digest);
        event.writer_epoch = 1;
        if sequence > 1 {
            let mut cause = spec.run_id.clone();
            push_str(&mut cause, ":");
            push_decimal(&mut cause, (sequence - 1) as u128);
            event.causation_id = Some(cause);
        }
        match &self.event_log {
            Some(journal) => {
                if let Err(e) = journal.append(&event) {
                    return Err(WrapError::EventLog(e));
                }
            },
            None => {},
        }
        let ghost before = events_view(events@);
        events.push(event);
        assert(events_view(events@).drop_last() =~= before);
        Ok(())
    }
}

impl Default for WrapHarness<AllowWrap> {
    /// A harness that lets every executor run and keeps no journal.
    fn default() -> (r: Self)
        ensures
            !r.journaled(),
    {
        WrapHarness::new(AllowWrap, None)
    }
}

} // verus!
