use vstd::prelude::*;
use crate::kernel::{count_kind, numbered_from};
use crate::runspec::{Event, EventKind, EventView, events_view, opt_string_view};
use crate::text::{decimal, owned, push_decimal, push_str, str_eq};

verus! {

/// The model of an outcome that carries nothing but success or an error text.
pub open spec fn unit_result_view(r: Result<(), String>) -> Result<(), Seq<char>> {
    match r {
        Ok(()) => Ok(()),
        Err(e) => Err(e@),
    }
}

/// A durable record of events.
pub trait EventJournal {
    /// Whether `result` is an outcome the journal may give when asked to
    /// append `event`. A journal that says nothing may give any outcome.
    open spec fn may_append(&self, event: EventView, result: Result<(), Seq<char>>) -> bool {
        true
    }

    fn append(&self, event: &Event) -> (r: Result<(), String>)
        ensures
            self.may_append(event@, unit_result_view(r)),
    ;

    fn load_after(&self, run_id: &str, sequence: u64) -> Result<Vec<Event>, String>;
}

/// A journal kept as one JSON event per line in a file; the file work is done
/// by the application around this library, which hands the parsed lines to
/// the functions of this module.
#[derive(Debug)]
pub struct JsonlEventLog {
    path: String,
}

impl JsonlEventLog {
    pub fn new(path: &str) -> (r: Self)
        ensures
            r.file_path() == path@,
    {
        JsonlEventLog { path: owned(path) }
    }

    pub closed spec fn file_path(&self) -> Seq<char> {
        self.path@
    }

    /// The journal file.
    pub fn path(&self) -> (r: &str)
        ensures
            r@ == self.file_path(),
    {
        self.path.as_str()
    }
}

/// Counts over a whole journal.
#[derive(Clone, Copy, Debug, PartialEq, Eq, Structural)]
pub struct ReplaySummary {
    pub total_events: usize,
    pub completed_runs: usize,
    pub failed_runs: usize,
}

/// How many lines of a journal hold an event and how many do not.
#[derive(Clone, Copy, Debug, PartialEq, Eq, Structural)]
pub struct ValidationSummary {
    pub valid_lines: usize,
    pub invalid_lines: usize,
}

/// What a scan of a journal found.
#[derive(Debug, PartialEq, Eq)]
pub struct JournalIntegrityReport {
    pub total_lines: usize,
    pub valid_events: usize,
    pub corrupt_lines: Vec<usize>,
    pub sequence_anomalies: Vec<String>,
    pub duplicate_commit_ids: Vec<String>,
}

/// What a repair kept and set aside.
#[derive(Debug, PartialEq, Eq)]
pub struct JournalRepairReport {
    pub source_lines: usize,
    pub repaired_events: usize,
    pub quarantined_lines: Vec<usize>,
}

/// What a compaction kept and dropped, and the per-run boundaries it used.
#[derive(Debug, PartialEq, Eq)]
pub struct JournalCompactionReport {
    pub source_events: usize,
    pub retained_events: usize,
    pub dropped_events: usize,
    pub snapshot_boundaries: Vec<(String, u64)>,
}

// ---------------------------------------------------------------------------
// Models
// ---------------------------------------------------------------------------

/// The model of a journal's lines: the event each line holds, or `None` for a
/// line that does not parse as an event.
pub open spec fn lines_view(lines: Seq<Option<Event>>) -> Seq<Option<EventView>> {
    lines.map_values(|l: Option<Event>| match l {
        Some(e) => Some(e@),
        None => None,
    })
}

/// The sequence number of the last event of run `run_id` among the first `i` lines.
pub open spec fn previous_sequence(lines: Seq<Option<EventView>>, i: int, run_id: Seq<char>) -> Option<u64>
    decreases i,
{
    if i <= 0 {
        None
    } else {
        match lines[i - 1] {
            Some(e) => if e.run_id == run_id {
                Some(e.sequence)
            } else {
                previous_sequence(lines, i - 1, run_id)
            },
            None => previous_sequence(lines, i - 1, run_id),
        }
    }
}

/// Some event among the first `i` lines carries commit id `c`.
pub open spec fn commit_seen_before(lines: Seq<Option<EventView>>, i: int, c: Seq<char>) -> bool {
    exists|j: int| 0 <= j < i && carries_commit(#[trigger] lines[j], c)
}

/// The line holds an event with commit id `c`.
pub open spec fn carries_commit(line: Option<EventView>, c: Seq<char>) -> bool {
    match line {
        Some(e) => e.commit_id == Some(c),
        None => false,
    }
}

/// The 1-based numbers of the first `n` lines that hold no event.
pub open spec fn corrupt_upto(lines: Seq<Option<EventView>>, n: int) -> Seq<usize>
    decreases n,
{
    if n <= 0 {
        Seq::empty()
    } else if lines[n - 1] is None {
        corrupt_upto(lines, n - 1).push(n as usize)
    } else {
        corrupt_upto(lines, n - 1)
    }
}

/// The anomaly line `<run>:<line>:<previous>:<sequence>`, if the event on line
/// `i + 1` does not follow the previous event of its run by exactly one.
pub open spec fn anomaly_at(lines: Seq<Option<EventView>>, i: int) -> Option<Seq<char>> {
    match lines[i] {
        Some(e) => match previous_sequence(lines, i, e.run_id) {
            Some(p) => if e.sequence != p + 1 {
                Some(
                    e.run_id + ":"@ + decimal((i + 1) as nat) + ":"@ + decimal(p as nat) + ":"@
                        + decimal(e.sequence as nat),
                )
            } else {
                None
            },
            None => None,
        },
        None => None,
    }
}

/// The sequence anomalies among the first `n` lines, in line order.
pub open spec fn anomalies_upto(lines: Seq<Option<EventView>>, n: int) -> Seq<Seq<char>>
    decreases n,
{
    if n <= 0 {
        Seq::empty()
    } else {
        match anomaly_at(lines, n - 1) {
            Some(a) => anomalies_upto(lines, n - 1).push(a),
            None => anomalies_upto(lines, n - 1),
        }
    }
}

/// The commit id of the event on line `i + 1`, if an earlier event carried it too.
pub open spec fn duplicate_at(lines: Seq<Option<EventView>>, i: int) -> Option<Seq<char>> {
    match lines[i] {
        Some(e) => match e.commit_id {
            Some(c) => if commit_seen_before(lines, i, c) {
                Some(c)
            } else {
                None
            },
            None => None,
        },
        None => None,
    }
}

/// The repeated commit ids among the first `n` lines, one per repeat, in line order.
pub open spec fn duplicates_upto(lines: Seq<Option<EventView>>, n: int) -> Seq<Seq<char>>
    decreases n,
{
    if n <= 0 {
        Seq::empty()
    } else {
        match duplicate_at(lines, n - 1) {
            Some(c) => duplicates_upto(lines, n - 1).push(c),
            None => duplicates_upto(lines, n - 1),
        }
    }
}

/// How many of the first `n` lines hold an event.
pub open spec fn valid_upto(lines: Seq<Option<EventView>>, n: int) -> nat
    decreases n,
{
    if n <= 0 {
        0
    } else {
        valid_upto(lines, n - 1) + if lines[n - 1] is Some { 1nat } else { 0nat }
    }
}

/// The model of an integrity report.
pub struct IntegrityView {
    pub total_lines: nat,
    pub valid_events: nat,
    pub corrupt_lines: Seq<usize>,
    pub sequence_anomalies: Seq<Seq<char>>,
    pub duplicate_commit_ids: Seq<Seq<char>>,
}

impl JournalIntegrityReport {
    pub open spec fn model(&self) -> IntegrityView {
        IntegrityView {
            total_lines: self.total_lines as nat,
            valid_events: self.valid_events as nat,
            corrupt_lines: self.corrupt_lines@,
            sequence_anomalies: self.sequence_anomalies.deep_view(),
            duplicate_commit_ids: self.duplicate_commit_ids.deep_view(),
        }
    }

    /// Whether the scan found nothing wrong.
    pub fn is_clean(&self) -> (r: bool)
        ensures
            r == (self.corrupt_lines@.len() == 0 && self.sequence_anomalies@.len() == 0
                && self.duplicate_commit_ids@.len() == 0),
    {
        self.corrupt_lines.len() == 0 && self.sequence_anomalies.len() == 0
            && self.duplicate_commit_ids.len() == 0
    }
}

impl Default for JournalIntegrityReport {
    fn default() -> (r: Self)
        ensures
            r.model() == (IntegrityView {
                total_lines: 0,
                valid_events: 0,
                corrupt_lines: Seq::empty(),
                sequence_anomalies: Seq::empty(),
                duplicate_commit_ids: Seq::empty(),
            }),
    {
        let r = JournalIntegrityReport {
            total_lines: 0,
            valid_events: 0,
            corrupt_lines: Vec::new(),
            sequence_anomalies: Vec::new(),
            duplicate_commit_ids: Vec::new(),
        };
        assert(r.corrupt_lines@ =~= Seq::<usize>::empty());
        assert(r.sequence_anomalies.deep_view() =~= Seq::<Seq<char>>::empty());
        assert(r.duplicate_commit_ids.deep_view() =~= Seq::<Seq<char>>::empty());
        r
    }
}

/// What a scan finds in a journal: every line counted, the unparsable ones
/// listed, each event that does not follow its run's previous event by one
/// reported, and each reuse of a commit id reported.
pub open spec fn integrity_of(lines: Seq<Option<EventView>>) -> IntegrityView {
    IntegrityView {
        total_lines: lines.len(),
        valid_events: valid_upto(lines, lines.len() as int),
        corrupt_lines: corrupt_upto(lines, lines.len() as int),
        sequence_anomalies: anomalies_upto(lines, lines.len() as int),
        duplicate_commit_ids: duplicates_upto(lines, lines.len() as int),
    }
}

// ---------------------------------------------------------------------------
// Scanning
// ---------------------------------------------------------------------------

proof fn lemma_valid_upto_bound(lines: Seq<Option<EventView>>, n: int)
    requires
        0 <= n,
    ensures
        valid_upto(lines, n) <= n,
    decreases n,
{
    if n > 0 {
        lemma_valid_upto_bound(lines, n - 1);
    }
}

proof fn lemma_line_view(lines: Seq<Option<Event>>, i: int)
    requires
        0 <= i < lines.len(),
    ensures
        lines_view(lines)[i] == match lines[i] {
            Some(e) => Some(e@),
            None => None::<EventView>,
        },
{
}

/// The sequence number of the last event of `run_id` before line `i + 1`.
fn previous_sequence_in(lines: &Vec<Option<Event>>, i: usize, run_id: &str) -> (r: Option<u64>)
    requires
        i <= lines@.len(),
    ensures
        r == previous_sequence(lines_view(lines@), i as int, run_id@),
{
    let ghost lv = lines_view(lines@);
    let mut j: usize = i;
    while j > 0
        invariant
            j <= i <= lines@.len(),
            lv == lines_view(lines@),
            previous_sequence(lv, i as int, run_id@) == previous_sequence(lv, j as int, run_id@),
        decreases j,
    {
        proof {
            lemma_line_view(lines@, j - 1);
        }
        match &lines[j - 1] {
            Some(e) => {
                if str_eq(e.run_id.as_str(), run_id) {
                    return Some(e.sequence);
                }
            },
            None => {},
        }
        j = j - 1;
    }
    None
}

/// Whether an event before line `i + 1` carries commit id `c`.
fn commit_seen_in(lines: &Vec<Option<Event>>, i: usize, c: &str) -> (r: bool)
    requires
        i <= lines@.len(),
    ensures
        r == commit_seen_before(lines_view(lines@), i as int, c@),
{
    let ghost lv = lines_view(lines@);
    let mut j: usize = 0;
    while j < i
        invariant
            j <= i <= lines@.len(),
            lv == lines_view(lines@),
            forall|k: int| 0 <= k < j ==> !carries_commit(#[trigger] lv[k], c@),
        decreases i - j,
    {
        proof {
            lemma_line_view(lines@, j as int);
        }
        match &lines[j] {
            Some(e) => {
                match &e.commit_id {
                    Some(x) => {
                        if str_eq(x.as_str(), c) {
                            assert(carries_commit(lv[j as int], c@));
                            return true;
                        }
                    },
                    None => {},
                }
            },
            None => {},
        }
        j = j + 1;
    }
    false
}

proof fn lemma_previous_is_last_of_run(lines: Seq<Option<EventView>>, i: int, j: int, earlier: EventView)
    requires
        0 <= j < i <= lines.len(),
        lines[j] == Some(earlier),
        forall|k: int| j < k < i ==> !(#[trigger] lines[k] matches Some(x) && x.run_id == earlier.run_id),
    ensures
        previous_sequence(lines, i, earlier.run_id) == Some(earlier.sequence),
    decreases i,
{
    if i - 1 > j {
        assert(!(lines[i - 1] matches Some(x) && x.run_id == earlier.run_id));
        lemma_previous_is_last_of_run(lines, i - 1, j, earlier);
    }
}

proof fn lemma_anomaly_listed(lines: Seq<Option<EventView>>, i: int, n: int)
    requires
        0 <= i < n <= lines.len(),
        anomaly_at(lines, i) is Some,
    ensures
        anomalies_upto(lines, n).contains(anomaly_at(lines, i)->Some_0),
    decreases n,
{
    if n - 1 == i {
        assert(anomalies_upto(lines, n).last() == anomaly_at(lines, i)->Some_0);
    } else {
        lemma_anomaly_listed(lines, i, n - 1);
        let prior = anomalies_upto(lines, n - 1);
        let k = choose|k: int| 0 <= k < prior.len() && prior[k] == anomaly_at(lines, i)->Some_0;
        match anomaly_at(lines, n - 1) {
            Some(a) => assert(prior.push(a)[k] == prior[k]),
            None => {},
        }
    }
}

/// An event whose sequence number is not one more than that of the last
/// earlier event of its run is reported, naming its line (counted from 1), the
/// previous number and its own: so a journal scans free of anomalies only if
/// every run in it is numbered consecutively.
pub proof fn lemma_out_of_sequence_event_is_reported(
    lines: Seq<Option<EventView>>,
    i: int,
    j: int,
    event: EventView,
    earlier: EventView,
)
    requires
        0 <= j < i < lines.len(),
        lines[i] == Some(event),
        lines[j] == Some(earlier),
        earlier.run_id == event.run_id,
        forall|k: int| j < k < i ==> !(#[trigger] lines[k] matches Some(x) && x.run_id == event.run_id),
        event.sequence != earlier.sequence + 1,
    ensures
        integrity_of(lines).sequence_anomalies.contains(
            event.run_id + ":"@ + decimal((i + 1) as nat) + ":"@ + decimal(earlier.sequence as nat) + ":"@
                + decimal(event.sequence as nat),
        ),
        integrity_of(lines).sequence_anomalies.len() > 0,
{
    lemma_previous_is_last_of_run(lines, i, j, earlier);
    lemma_anomaly_listed(lines, i, lines.len() as int);
}

/// Scans a journal's lines (each the event it holds, or `None` if it does not
/// parse) for corruption, sequence gaps and reused commit ids.
pub fn scan_integrity(lines: &Vec<Option<Event>>) -> (r: JournalIntegrityReport)
    ensures
        r.model() == integrity_of(lines_view(lines@)),
{
    let ghost lv = lines_view(lines@);
    let mut report = JournalIntegrityReport::default();
    let mut i: usize = 0;
    while i < lines.len()
        invariant
            i <= lines@.len(),
            lv == lines_view(lines@),
            report.model() == (IntegrityView {
                total_lines: i as nat,
                valid_events: valid_upto(lv, i as int),
                corrupt_lines: corrupt_upto(lv, i as int),
                sequence_anomalies: anomalies_upto(lv, i as int),
                duplicate_commit_ids: duplicates_upto(lv, i as int),
            }),
        decreases lines@.len() - i,
    {
        proof {
            lemma_line_view(lines@, i as int);
            lemma_valid_upto_bound(lv, i as int);
        }
        let line_number = i + 1;
        report.total_lines = report.total_lines + 1;
        match &lines[i] {
            None => {
                report.corrupt_lines.push(line_number);
            },
            Some(event) => {
                report.valid_events = report.valid_events + 1;
                let ghost a0 = report.sequence_anomalies.deep_view();
                match previous_sequence_in(lines, i, event.run_id.as_str()) {
                    Some(previous) => {
                        if (event.sequence as u128) != (previous as u128) + 1 {
                            let mut a = event.run_id.clone();
                            push_str(&mut a, ":");
                            push_decimal(&mut a, line_number as u128);
                            push_str(&mut a, ":");
                            push_decimal(&mut a, previous as u128);
                            push_str(&mut a, ":");
                            push_decimal(&mut a, event.sequence as u128);
                            report.sequence_anomalies.push(a);
                            assert(report.sequence_anomalies.deep_view() =~= a0.push(anomaly_at(lv, i as int)->Some_0));
                        }
                    },
                    None => {},
                }
                let ghost d0 = report.duplicate_commit_ids.deep_view();
                match &event.commit_id {
                    Some(c) => {
                        if commit_seen_in(lines, i, c.as_str()) {
                            report.duplicate_commit_ids.push(c.clone());
                            assert(report.duplicate_commit_ids.deep_view() =~= d0.push(c@));
                        }
                    },
                    None => {},
                }
            },
        }
        i = i + 1;
    }
    report
}

/// Counts the events of a parsed journal, and the runs it records as completed
/// and as failed.
pub fn replay_summary_of(events: &Vec<Event>) -> (r: ReplaySummary)
    ensures
        r.total_events == events@.len(),
        r.completed_runs == count_kind(events_view(events@), EventKind::RunCompleted),
        r.failed_runs == count_kind(events_view(events@), EventKind::RunFailed),
{
    let mut completed: usize = 0;
    let mut failed: usize = 0;
    let mut i: usize = 0;
    while i < events.len()
        invariant
            i <= events@.len(),
            completed == count_kind(events_view(events@.subrange(0, i as int)), EventKind::RunCompleted),
            failed == count_kind(events_view(events@.subrange(0, i as int)), EventKind::RunFailed),
            completed <= i,
            failed <= i,
        decreases events@.len() - i,
    {
        proof {
            let prefix = events_view(events@.subrange(0, i + 1));
            assert(prefix.drop_last() =~= events_view(events@.subrange(0, i as int)));
            assert(prefix.last() == events@[i as int]@);
        }
        match events[i].kind {
            EventKind::RunCompleted => {
                completed = completed + 1;
            },
            EventKind::RunFailed => {
                failed = failed + 1;
            },
            _ => {},
        }
        i = i + 1;
    }
    assert(events@.subrange(0, i as int) == events@);
    ReplaySummary { total_events: events.len(), completed_runs: completed, failed_runs: failed }
}

/// Counts the lines that hold an event and those that do not.
pub fn validation_summary_of(lines: &Vec<Option<Event>>) -> (r: ValidationSummary)
    ensures
        r.valid_lines == valid_upto(lines_view(lines@), lines@.len() as int),
        r.valid_lines + r.invalid_lines == lines@.len(),
{
    let ghost lv = lines_view(lines@);
    let mut valid: usize = 0;
    let mut invalid: usize = 0;
    let mut i: usize = 0;
    while i < lines.len()
        invariant
            i <= lines@.len(),
            lv == lines_view(lines@),
            valid == valid_upto(lv, i as int),
            valid + invalid == i,
        decreases lines@.len() - i,
    {
        proof {
            lemma_line_view(lines@, i as int);
        }
        if lines[i].is_some() {
            valid = valid + 1;
        } else {
            invalid = invalid + 1;
        }
        i = i + 1;
    }
    ValidationSummary { valid_lines: valid, invalid_lines: invalid }
}

// ---------------------------------------------------------------------------
// Repair and compaction
// ---------------------------------------------------------------------------

/// The events of the first `n` lines, in order.
pub open spec fn events_upto(lines: Seq<Option<EventView>>, n: int) -> Seq<EventView>
    decreases n,
{
    if n <= 0 {
        Seq::empty()
    } else {
        match lines[n - 1] {
            Some(e) => events_upto(lines, n - 1).push(e),
            None => events_upto(lines, n - 1),
        }
    }
}

/// Repairs a journal with no semantic damage by keeping the lines that hold an
/// event and setting the others aside: the events to keep, and the report.
/// A journal with sequence gaps or reused commit ids is refused.
pub fn repair_journal(lines: &Vec<Option<Event>>) -> (r: Result<(Vec<Event>, JournalRepairReport), String>)
    ensures
        ({
            let lv = lines_view(lines@);
            let scan = integrity_of(lv);
            match r {
                Err(e) => (scan.sequence_anomalies.len() > 0 || scan.duplicate_commit_ids.len() > 0)
                    && e@ == "journal_semantic_corruption_requires_manual_reconciliation"@,
                Ok((kept, report)) => scan.sequence_anomalies.len() == 0 && scan.duplicate_commit_ids.len() == 0
                    && events_view(kept@) == events_upto(lv, lv.len() as int)
                    && report.source_lines == lv.len()
                    && report.repaired_events == kept@.len()
                    && report.quarantined_lines@ == scan.corrupt_lines,
            }
        }),
{
    let ghost lv = lines_view(lines@);
    let integrity = scan_integrity(lines);
    if integrity.sequence_anomalies.len() > 0 || integrity.duplicate_commit_ids.len() > 0 {
        return Err(owned("journal_semantic_corruption_requires_manual_reconciliation"));
    }
    let mut kept: Vec<Event> = Vec::new();
    let mut i: usize = 0;
    while i < lines.len()
        invariant
            i <= lines@.len(),
            lv == lines_view(lines@),
            events_view(kept@) == events_upto(lv, i as int),
        decreases lines@.len() - i,
    {
        proof {
            lemma_line_view(lines@, i as int);
        }
        match &lines[i] {
            Some(e) => {
                let ghost k0 = events_view(kept@);
                kept.push(e.clone());
                assert(events_view(kept@) =~= k0.push(e@));
            },
            None => {},
        }
        i = i + 1;
    }
    let repaired_events = kept.len();
    let report = JournalRepairReport {
        source_lines: integrity.total_lines,
        repaired_events,
        quarantined_lines: integrity.corrupt_lines,
    };
    Ok((kept, report))
}

/// The model of per-run compaction boundaries.
pub open spec fn boundaries_view(b: Seq<(String, u64)>) -> Seq<(Seq<char>, u64)> {
    b.map_values(|p: (String, u64)| (p.0@, p.1))
}

/// The boundary of run `run_id`: the first one given for it, or 0.
pub open spec fn boundary_for(b: Seq<(Seq<char>, u64)>, run_id: Seq<char>) -> u64
    decreases b.len(),
{
    if b.len() == 0 {
        0
    } else if b[0].0 == run_id {
        b[0].1
    } else {
        boundary_for(b.drop_first(), run_id)
    }
}

/// The events to keep: those numbered past their run's boundary.
pub open spec fn retained_of(events: Seq<EventView>, b: Seq<(Seq<char>, u64)>) -> Seq<EventView>
    decreases events.len(),
{
    if events.len() == 0 {
        Seq::empty()
    } else if events.last().sequence > boundary_for(b, events.last().run_id) {
        retained_of(events.drop_last(), b).push(events.last())
    } else {
        retained_of(events.drop_last(), b)
    }
}

fn boundary_in(b: &Vec<(String, u64)>, run_id: &str) -> (r: u64)
    ensures
        r == boundary_for(boundaries_view(b@), run_id@),
{
    let ghost bv = boundaries_view(b@);
    let mut i: usize = 0;
    assert(bv.subrange(0, bv.len() as int) == bv);
    while i < b.len()
        invariant
            i <= b@.len(),
            bv == boundaries_view(b@),
            boundary_for(bv, run_id@) == boundary_for(bv.subrange(i as int, bv.len() as int), run_id@),
        decreases b@.len() - i,
    {
        let ghost rest = bv.subrange(i as int, bv.len() as int);
        assert(rest[0] == (b@[i as int].0@, b@[i as int].1));
        assert(rest.drop_first() == bv.subrange(i + 1, bv.len() as int));
        if str_eq(b[i].0.as_str(), run_id) {
            return b[i].1;
        }
        i = i + 1;
    }
    0
}

/// Compacts a clean journal: keeps the events numbered past their run's
/// snapshot boundary (0 for a run with none) and reports the counts. A journal
/// with any corruption is refused.
pub fn compact_journal(lines: &Vec<Option<Event>>, snapshot_boundaries: Vec<(String, u64)>) -> (r: Result<
    (Vec<Event>, JournalCompactionReport),
    String,
>)
    ensures
        ({
            let lv = lines_view(lines@);
            let scan = integrity_of(lv);
            let clean = scan.corrupt_lines.len() == 0 && scan.sequence_anomalies.len() == 0
                && scan.duplicate_commit_ids.len() == 0;
            match r {
                Err(e) => !clean && e@ == "journal_must_be_clean_before_compaction"@,
                Ok((kept, report)) => clean
                    && events_view(kept@) == retained_of(events_upto(lv, lv.len() as int), boundaries_view(snapshot_boundaries@))
                    && report.source_events == scan.valid_events
                    && report.retained_events == kept@.len()
                    && report.dropped_events == scan.valid_events - kept@.len()
                    && report.snapshot_boundaries@ == snapshot_boundaries@,
            }
        }),
{
    let ghost lv = lines_view(lines@);
    let ghost bv = boundaries_view(snapshot_boundaries@);
    let integrity = scan_integrity(lines);
    if !integrity.is_clean() {
        return Err(owned("journal_must_be_clean_before_compaction"));
    }
    let mut kept: Vec<Event> = Vec::new();
    let mut i: usize = 0;
    while i < lines.len()
        invariant
            i <= lines@.len(),
            lv == lines_view(lines@),
            bv == boundaries_view(snapshot_boundaries@),
            events_view(kept@) == retained_of(events_upto(lv, i as int), bv),
            kept@.len() <= valid_upto(lv, i as int),
        decreases lines@.len() - i,
    {
        proof {
            lemma_line_view(lines@, i as int);
        }
        match &lines[i] {
            Some(e) => {
                let boundary = boundary_in(&snapshot_boundaries, e.run_id.as_str());
                let ghost k0 = events_view(kept@);
                proof {
                    let up = events_upto(lv, i + 1);
                    assert(up == events_upto(lv, i as int).push(e@));
                    assert(up.drop_last() == events_upto(lv, i as int));
                    assert(up.last() == e@);
                }
                if e.sequence > boundary {
                    kept.push(e.clone());
                    assert(events_view(kept@) =~= k0.push(e@));
                }
            },
            None => {},
        }
        i = i + 1;
    }
    let retained = kept.len();
    let report = JournalCompactionReport {
        source_events: integrity.valid_events,
        retained_events: retained,
        dropped_events: integrity.valid_events - retained,
        snapshot_boundaries,
    };
    Ok((kept, report))
}

// ---------------------------------------------------------------------------
// Reading after a point
// ---------------------------------------------------------------------------

/// The events of run `run_id` numbered past `sequence`, in journal order.
pub open spec fn events_after(events: Seq<EventView>, run_id: Seq<char>, sequence: u64) -> Seq<EventView>
    decreases events.len(),
{
    if events.len() == 0 {
        Seq::empty()
    } else if events.last().run_id == run_id && events.last().sequence > sequence {
        events_after(events.drop_last(), run_id, sequence).push(events.last())
    } else {
        events_after(events.drop_last(), run_id, sequence)
    }
}

/// `e` placed into `sorted` after every event whose sequence number is not
/// greater than its own.
pub open spec fn insert_by_sequence(sorted: Seq<EventView>, e: EventView) -> Seq<EventView>
    decreases sorted.len(),
{
    if sorted.len() == 0 {
        seq![e]
    } else if sorted.last().sequence <= e.sequence {
        sorted.push(e)
    } else {
        insert_by_sequence(sorted.drop_last(), e).push(sorted.last())
    }
}

/// The events ordered by sequence number, keeping journal order among equal
/// numbers (the stable sort `sort_by_key` performs).
pub open spec fn sort_by_sequence(events: Seq<EventView>) -> Seq<EventView>
    decreases events.len(),
{
    if events.len() == 0 {
        Seq::empty()
    } else {
        insert_by_sequence(sort_by_sequence(events.drop_last()), events.last())
    }
}

/// The sequence numbers never decrease along the events.
pub open spec fn ordered_by_sequence(s: Seq<EventView>) -> bool {
    forall|i: int, j: int| 0 <= i <= j < s.len() ==> s[i].sequence <= s[j].sequence
}

proof fn lemma_insert_by_sequence_keeps_order(sorted: Seq<EventView>, e: EventView)
    requires
        ordered_by_sequence(sorted),
    ensures
        ordered_by_sequence(insert_by_sequence(sorted, e)),
        insert_by_sequence(sorted, e).to_multiset() == sorted.to_multiset().insert(e),
    decreases sorted.len(),
{
    broadcast use vstd::seq_lib::group_to_multiset_ensures;

    if sorted.len() == 0 {
        assert(seq![e] =~= Seq::<EventView>::empty().push(e));
    } else if sorted.last().sequence <= e.sequence {
    } else {
        let init = sorted.drop_last();
        let last = sorted.last();
        assert(sorted =~= init.push(last));
        lemma_insert_by_sequence_keeps_order(init, e);
        let r = insert_by_sequence(init, e);
        assert forall|i: int| 0 <= i < r.len() implies #[trigger] r[i].sequence <= last.sequence by {
            assert(r.to_multiset().count(r[i]) > 0);
            if r[i] != e {
                assert(init.to_multiset().count(r[i]) > 0);
                assert(init.contains(r[i]));
                let j = choose|j: int| 0 <= j < init.len() && init[j] == r[i];
                assert(sorted[j].sequence <= sorted[sorted.len() - 1].sequence);
            }
        }
    }
}

/// Ordering by sequence number puts the events in non-decreasing order and
/// keeps each of them, as often as it occurs.
pub proof fn lemma_sort_by_sequence_is_ordered_permutation(events: Seq<EventView>)
    ensures
        ordered_by_sequence(sort_by_sequence(events)),
        sort_by_sequence(events).to_multiset() == events.to_multiset(),
    decreases events.len(),
{
    broadcast use vstd::seq_lib::group_to_multiset_ensures;

    if events.len() > 0 {
        lemma_sort_by_sequence_is_ordered_permutation(events.drop_last());
        lemma_insert_by_sequence_keeps_order(sort_by_sequence(events.drop_last()), events.last());
        assert(events =~= events.drop_last().push(events.last()));
    }
}

/// The events selected after a point are exactly those of the journal that
/// belong to the run and are numbered past the point.
pub proof fn lemma_events_after_selects(events: Seq<EventView>, run_id: Seq<char>, sequence: u64, e: EventView)
    ensures
        events_after(events, run_id, sequence).contains(e) <==> (events.contains(e) && e.run_id == run_id
            && e.sequence > sequence),
    decreases events.len(),
{
    if events.len() > 0 {
        let init = events.drop_last();
        lemma_events_after_selects(init, run_id, sequence, e);
        assert(events =~= init.push(events.last()));
        let sel = events_after(init, run_id, sequence);
        if events.last().run_id == run_id && events.last().sequence > sequence {
            assert(events_after(events, run_id, sequence) == sel.push(events.last()));
            if sel.push(events.last()).contains(e) && e != events.last() {
                let j = choose|j: int| 0 <= j < sel.push(events.last()).len() && sel.push(events.last())[j] == e;
                assert(sel[j] == e);
            }
            if sel.contains(e) {
                let j = choose|j: int| 0 <= j < sel.len() && sel[j] == e;
                assert(sel.push(events.last())[j] == e);
            }
            if events.contains(e) && e != events.last() {
                let j = choose|j: int| 0 <= j < events.len() && events[j] == e;
                assert(init[j] == e);
            }
            if init.contains(e) {
                let j = choose|j: int| 0 <= j < init.len() && init[j] == e;
                assert(events[j] == e);
            }
            assert(sel.push(events.last())[sel.len() as int] == events.last());
            assert(events[events.len() - 1] == events.last());
        } else {
            if events.contains(e) && e != events.last() {
                let j = choose|j: int| 0 <= j < events.len() && events[j] == e;
                assert(init[j] == e);
            }
            if init.contains(e) {
                let j = choose|j: int| 0 <= j < init.len() && init[j] == e;
                assert(events[j] == e);
            }
        }
    }
}

proof fn lemma_insert_at(sorted: Seq<EventView>, e: EventView, k: int)
    requires
        0 <= k <= sorted.len(),
        forall|j: int| k <= j < sorted.len() ==> (#[trigger] sorted[j]).sequence > e.sequence,
        k > 0 ==> sorted[k - 1].sequence <= e.sequence,
    ensures
        insert_by_sequence(sorted, e) == sorted.insert(k, e),
    decreases sorted.len(),
{
    if sorted.len() == 0 {
        assert(sorted.insert(k, e) =~= seq![e]);
    } else if sorted.last().sequence <= e.sequence {
        assert(k == sorted.len());
        assert(sorted.insert(k, e) =~= sorted.push(e));
    } else {
        lemma_insert_at(sorted.drop_last(), e, k);
        assert(sorted.insert(k, e) =~= sorted.drop_last().insert(k, e).push(sorted.last()));
    }
}

/// The events of run `run_id` numbered past `sequence`, ordered by sequence
/// number (journal order among equal numbers).
pub fn select_after(events: &Vec<Event>, run_id: &str, sequence: u64) -> (r: Vec<Event>)
    ensures
        events_view(r@) == sort_by_sequence(events_after(events_view(events@), run_id@, sequence)),
        ordered_by_sequence(events_view(r@)),
        events_view(r@).to_multiset() == events_after(events_view(events@), run_id@, sequence).to_multiset(),
{
    proof {
        lemma_sort_by_sequence_is_ordered_permutation(events_after(events_view(events@), run_id@, sequence));
    }
    let ghost ev = events_view(events@);
    let mut out: Vec<Event> = Vec::new();
    let mut i: usize = 0;
    while i < events.len()
        invariant
            i <= events@.len(),
            ev == events_view(events@),
            events_view(out@) == sort_by_sequence(events_after(ev.subrange(0, i as int), run_id@, sequence)),
        decreases events@.len() - i,
    {
        let ghost pre = ev.subrange(0, i as int);
        let ghost next = ev.subrange(0, i + 1);
        assert(next.drop_last() == pre);
        assert(next.last() == events@[i as int]@);
        let e = &events[i];
        if str_eq(e.run_id.as_str(), run_id) && e.sequence > sequence {
            let ghost sorted = events_view(out@);
            let mut k: usize = out.len();
            while k > 0 && out[k - 1].sequence > e.sequence
                invariant
                    k <= out@.len(),
                    sorted == events_view(out@),
                    forall|j: int| k <= j < out@.len() ==> (#[trigger] sorted[j]).sequence > e.sequence,
                decreases k,
            {
                k = k - 1;
            }
            proof {
                lemma_insert_at(sorted, e@, k as int);
                assert(events_after(next, run_id@, sequence) == events_after(pre, run_id@, sequence).push(e@));
                assert(events_after(next, run_id@, sequence).drop_last() == events_after(pre, run_id@, sequence));
            }
            out.insert(k, e.clone());
            assert(events_view(out@) =~= sorted.insert(k as int, e@));
        } else {
            assert(events_after(next, run_id@, sequence) == events_after(pre, run_id@, sequence));
        }
        i = i + 1;
    }
    assert(ev.subrange(0, i as int) == ev);
    out
}

// ---------------------------------------------------------------------------
// Laws
// ---------------------------------------------------------------------------

/// The lines of a journal that holds exactly `events`.
pub open spec fn journal_of(events: Seq<EventView>) -> Seq<Option<EventView>> {
    events.map_values(|e: EventView| Some(e))
}

proof fn lemma_journal_of_counts(events: Seq<EventView>, run_id: Seq<char>, base: nat, n: int)
    requires
        numbered_from(events, run_id, base),
        forall|i: int| 0 <= i < events.len() ==> (#[trigger] events[i]).commit_id is None,
        0 <= n <= events.len(),
    ensures
        valid_upto(journal_of(events), n) == n,
        corrupt_upto(journal_of(events), n) == Seq::<usize>::empty(),
        anomalies_upto(journal_of(events), n) == Seq::<Seq<char>>::empty(),
        duplicates_upto(journal_of(events), n) == Seq::<Seq<char>>::empty(),
    decreases n,
{
    let lines = journal_of(events);
    if n > 0 {
        lemma_journal_of_counts(events, run_id, base, n - 1);
        let i = n - 1;
        let e = events[i];
        assert(lines[i] == Some(e));
        assert(e.run_id == run_id);
        if i > 0 {
            assert(lines[i - 1] == Some(events[i - 1]));
            assert(events[i - 1].run_id == run_id);
            assert(previous_sequence(lines, i, run_id) == Some(events[i - 1].sequence));
            assert(events[i - 1].sequence == base + i);
            assert(e.sequence == base + i + 1);
        }
        assert(anomaly_at(lines, i) is None);
        assert(duplicate_at(lines, i) is None);
    }
}

/// A journal holding the events of one run as the kernel numbers them
/// (consecutively after a base, none with a commit id) scans clean: no corrupt
/// line, no sequence anomaly, no repeated commit id.
pub proof fn lemma_kernel_journal_scans_clean(events: Seq<EventView>, run_id: Seq<char>, base: nat)
    requires
        numbered_from(events, run_id, base),
        forall|i: int| 0 <= i < events.len() ==> (#[trigger] events[i]).commit_id is None,
    ensures
        integrity_of(journal_of(events)).valid_events == events.len(),
        integrity_of(journal_of(events)).corrupt_lines.len() == 0,
        integrity_of(journal_of(events)).sequence_anomalies.len() == 0,
        integrity_of(journal_of(events)).duplicate_commit_ids.len() == 0,
{
    lemma_journal_of_counts(events, run_id, base, events.len() as int);
}

/// Compaction keeps only events numbered past their run's boundary, and never
/// more events than the journal holds.
pub proof fn lemma_compaction_keeps_only_events_past_boundary(events: Seq<EventView>, b: Seq<(Seq<char>, u64)>)
    ensures
        retained_of(events, b).len() <= events.len(),
        forall|i: int| 0 <= i < retained_of(events, b).len() ==> #[trigger] retained_of(events, b)[i].sequence
            > boundary_for(b, retained_of(events, b)[i].run_id),
    decreases events.len(),
{
    if events.len() > 0 {
        lemma_compaction_keeps_only_events_past_boundary(events.drop_last(), b);
    }
}

proof fn lemma_events_after_none(events: Seq<EventView>, run_id: Seq<char>, sequence: u64)
    requires
        forall|i: int| 0 <= i < events.len() ==> (#[trigger] events[i]).sequence <= sequence,
    ensures
        events_after(events, run_id, sequence) == Seq::<EventView>::empty(),
    decreases events.len(),
{
    if events.len() > 0 {
        let init = events.drop_last();
        assert forall|i: int| 0 <= i < init.len() implies (#[trigger] init[i]).sequence <= sequence by {
            assert(init[i] == events[i]);
        }
        lemma_events_after_none(init, run_id, sequence);
    }
}

proof fn lemma_events_after_numbered(events: Seq<EventView>, run_id: Seq<char>, base: u64, k: int)
    requires
        numbered_from(events, run_id, base as nat),
        0 <= k <= events.len(),
        base + k <= u64::MAX,
    ensures
        events_after(events, run_id, (base + k) as u64) == events.subrange(k, events.len() as int),
    decreases events.len(),
{
    if events.len() > 0 {
        let n = events.len() as int;
        let init = events.drop_last();
        assert forall|i: int| 0 <= i < init.len() implies {
            &&& (#[trigger] init[i]).run_id == run_id
            &&& init[i].sequence == base + i + 1
            &&& init[i].causation_id == crate::kernel::causation_for(run_id, (base + i + 1) as nat)
        } by {
            assert(init[i] == events[i]);
        }
        assert(events[n - 1].sequence == base + n);
        if k == n {
            assert forall|i: int| 0 <= i < init.len() implies (#[trigger] init[i]).sequence <= (base + k) as u64 by {
                assert(init[i] == events[i]);
            }
            lemma_events_after_none(init, run_id, (base + k) as u64);
            assert(events.subrange(k, n) =~= Seq::<EventView>::empty());
        } else {
            lemma_events_after_numbered(init, run_id, base, k);
            assert(events.subrange(k, n) =~= init.subrange(k, n - 1).push(events.last()));
        }
    }
}

proof fn lemma_sort_ordered_is_identity(events: Seq<EventView>)
    requires
        ordered_by_sequence(events),
    ensures
        sort_by_sequence(events) == events,
    decreases events.len(),
{
    if events.len() > 0 {
        let init = events.drop_last();
        assert(ordered_by_sequence(init)) by {
            assert forall|i: int, j: int| 0 <= i <= j < init.len() implies init[i].sequence <= init[j].sequence by {
                assert(init[i] == events[i]);
                assert(init[j] == events[j]);
            }
        }
        lemma_sort_ordered_is_identity(init);
        if init.len() > 0 {
            assert(init.last() == events[events.len() - 2]);
        } else {
            assert(seq![events.last()] =~= events);
        }
        assert(init.push(events.last()) =~= events);
    }
}

/// A journal gives back what the kernel wrote: reading the events of a run
/// (numbered consecutively after `base`, as the kernel numbers them) past the
/// `k`-th of them yields exactly the events after it, in the order written.
pub proof fn lemma_journal_reads_back_kernel_events(events: Seq<EventView>, run_id: Seq<char>, base: u64, k: int)
    requires
        numbered_from(events, run_id, base as nat),
        0 <= k <= events.len(),
        base + k <= u64::MAX,
    ensures
        sort_by_sequence(events_after(events, run_id, (base + k) as u64)) == events.subrange(k, events.len() as int),
{
    lemma_events_after_numbered(events, run_id, base, k);
    let tail = events.subrange(k, events.len() as int);
    assert(ordered_by_sequence(tail)) by {
        assert forall|i: int, j: int| 0 <= i <= j < tail.len() implies tail[i].sequence <= tail[j].sequence by {
            assert(tail[i] == events[k + i]);
            assert(tail[j] == events[k + j]);
        }
    }
    lemma_sort_ordered_is_identity(tail);
}

} // verus!
