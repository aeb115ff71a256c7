use vstd::prelude::*;
use crate::naming::{hex_id, path_join, spec_hex_id, spec_path_join};
use crate::text::{decimal, owned, push_decimal, push_str, starts_with_seq, str_eq};
use vstd::string::StringSliceAdditionalSpecFns;

verus! {

/// The right of one holder to write a run, numbered by epoch and valid until
/// `expires_at_ms`.
#[derive(Debug, PartialEq, Eq)]
pub struct WriterLease {
    pub run_id: String,
    pub holder_id: String,
    pub epoch: u64,
    pub expires_at_ms: u64,
}

pub struct WriterLeaseView {
    pub run_id: Seq<char>,
    pub holder_id: Seq<char>,
    pub epoch: u64,
    pub expires_at_ms: u64,
}

impl View for WriterLease {
    type V = WriterLeaseView;

    open spec fn view(&self) -> WriterLeaseView {
        WriterLeaseView {
            run_id: self.run_id@,
            holder_id: self.holder_id@,
            epoch: self.epoch,
            expires_at_ms: self.expires_at_ms,
        }
    }
}

impl Clone for WriterLease {
    fn clone(&self) -> (r: Self)
        ensures
            r@ == self@,
    {
        WriterLease {
            run_id: self.run_id.clone(),
            holder_id: self.holder_id.clone(),
            epoch: self.epoch,
            expires_at_ms: self.expires_at_ms,
        }
    }
}

/// The model of an optional lease.
pub open spec fn opt_lease_view(l: Option<WriterLease>) -> Option<WriterLeaseView> {
    match l {
        Some(x) => Some(x@),
        None => None,
    }
}

/// `a + b`, or `u64::MAX` when that overflows.
pub open spec fn saturating_add(a: u64, b: u64) -> u64 {
    if a + b > u64::MAX { u64::MAX } else { (a + b) as u64 }
}

/// `a - b`, or 0 when that underflows.
pub open spec fn saturating_sub(a: u64, b: u64) -> u64 {
    if a < b { 0 } else { (a - b) as u64 }
}

/// What acquiring the lease of `run_id` for `holder_id` at `now_ms` gives, when
/// `previous` is the lease on record: an unexpired lease of another holder
/// refuses; an unexpired lease of the same holder is extended in its epoch; an
/// expired lease is taken over in the next epoch; with no lease, epoch 1 starts.
pub open spec fn acquire_outcome(
    previous: Option<WriterLeaseView>,
    run_id: Seq<char>,
    holder_id: Seq<char>,
    now_ms: u64,
    ttl_ms: u64,
) -> Result<WriterLeaseView, Seq<char>> {
    let expires = saturating_add(now_ms, ttl_ms);
    match previous {
        Some(active) => if active.expires_at_ms > now_ms && active.holder_id != holder_id {
            Err(
                "writer_lease_held:"@ + run_id + ":"@ + active.holder_id + ":"@ + decimal(
                    active.epoch as nat,
                ),
            )
        } else if active.holder_id == holder_id && active.expires_at_ms > now_ms {
            Ok(WriterLeaseView { run_id, holder_id, epoch: active.epoch, expires_at_ms: expires })
        } else {
            Ok(WriterLeaseView { run_id, holder_id, epoch: (active.epoch + 1) as u64, expires_at_ms: expires })
        },
        None => Ok(WriterLeaseView { run_id, holder_id, epoch: 1, expires_at_ms: expires }),
    }
}

/// Whether `lease` is still the lease on record (`current`) and unexpired at `now_ms`.
pub open spec fn validate_outcome(current: Option<WriterLeaseView>, lease: WriterLeaseView, now_ms: u64) -> Result<
    (),
    Seq<char>,
> {
    match current {
        None => Err("writer_lease_missing:"@ + lease.run_id),
        Some(c) => if c.holder_id != lease.holder_id || c.epoch != lease.epoch {
            Err(
                "writer_fenced:"@ + lease.run_id + ":"@ + lease.holder_id + ":"@ + decimal(
                    lease.epoch as nat,
                ) + ":"@ + c.holder_id + ":"@ + decimal(c.epoch as nat),
            )
        } else if c.expires_at_ms <= now_ms {
            Err(
                "writer_lease_expired:"@ + lease.run_id + ":"@ + lease.holder_id + ":"@ + decimal(
                    lease.epoch as nat,
                ),
            )
        } else {
            Ok(())
        },
    }
}

/// What renewing `lease` at `now_ms` gives: the same lease, valid for `ttl_ms`
/// more, if it is still current.
pub open spec fn renew_outcome(current: Option<WriterLeaseView>, lease: WriterLeaseView, now_ms: u64, ttl_ms: u64) -> Result<
    WriterLeaseView,
    Seq<char>,
> {
    match validate_outcome(current, lease, now_ms) {
        Err(e) => Err(e),
        Ok(()) => Ok(WriterLeaseView { expires_at_ms: saturating_add(now_ms, ttl_ms), ..lease }),
    }
}

/// What releasing `lease` gives: if it is current (checked just before it
/// expires), the record becomes the same lease expired at time 0.
pub open spec fn release_outcome(current: Option<WriterLeaseView>, lease: WriterLeaseView) -> Result<
    WriterLeaseView,
    Seq<char>,
> {
    match validate_outcome(current, lease, saturating_sub(lease.expires_at_ms, 1)) {
        Err(e) => Err(e),
        Ok(()) => Ok(WriterLeaseView { expires_at_ms: 0, ..lease }),
    }
}

/// Whether acquiring at `now_ms` would need an epoch past `u64::MAX`: the lease
/// on record has expired and its epoch is already the largest.
pub open spec fn epoch_exhausted(previous: Option<WriterLeaseView>, now_ms: u64) -> bool {
    previous matches Some(p) && p.epoch == u64::MAX && p.expires_at_ms <= now_ms
}

/// Decides an acquisition against the lease on record.
pub fn acquire_decision(
    previous: Option<&WriterLease>,
    run_id: &str,
    holder_id: &str,
    now_ms: u64,
    ttl_ms: u64,
) -> (r: Result<WriterLease, String>)
    requires
        !epoch_exhausted(match previous { Some(p) => Some(p@), None => None }, now_ms),
    ensures
        match (r, acquire_outcome(match previous { Some(p) => Some(p@), None => None }, run_id@, holder_id@, now_ms, ttl_ms)) {
            (Ok(l), Ok(m)) => l@ == m,
            (Err(e), Err(m)) => e@ == m,
            _ => false,
        },
{
    let expires_at_ms = now_ms.saturating_add(ttl_ms);
    let epoch: u64 = match previous {
        Some(active) => {
            let same_holder = str_eq(active.holder_id.as_str(), holder_id);
            if active.expires_at_ms > now_ms && !same_holder {
                let mut e = owned("writer_lease_held:");
                push_str(&mut e, run_id);
                push_str(&mut e, ":");
                push_str(&mut e, active.holder_id.as_str());
                push_str(&mut e, ":");
                push_decimal(&mut e, active.epoch as u128);
                return Err(e);
            }
            if same_holder && active.expires_at_ms > now_ms {
                active.epoch
            } else {
                active.epoch + 1
            }
        },
        None => 1,
    };
    Ok(WriterLease { run_id: owned(run_id), holder_id: owned(holder_id), epoch, expires_at_ms })
}

/// Checks that `lease` is still the lease on record and unexpired at `now_ms`.
pub fn validate_current(current: Option<&WriterLease>, lease: &WriterLease, now_ms: u64) -> (r: Result<(), String>)
    ensures
        match (r, validate_outcome(match current { Some(c) => Some(c@), None => None }, lease@, now_ms)) {
            (Ok(()), Ok(())) => true,
            (Err(e), Err(m)) => e@ == m,
            _ => false,
        },
{
    let current = match current {
        Some(c) => c,
        None => {
            let mut e = owned("writer_lease_missing:");
            push_str(&mut e, lease.run_id.as_str());
            return Err(e);
        },
    };
    if !str_eq(current.holder_id.as_str(), lease.holder_id.as_str()) || current.epoch != lease.epoch {
        let mut e = owned("writer_fenced:");
        push_str(&mut e, lease.run_id.as_str());
        push_str(&mut e, ":");
        push_str(&mut e, lease.holder_id.as_str());
        push_str(&mut e, ":");
        push_decimal(&mut e, lease.epoch as u128);
        push_str(&mut e, ":");
        push_str(&mut e, current.holder_id.as_str());
        push_str(&mut e, ":");
        push_decimal(&mut e, current.epoch as u128);
        return Err(e);
    }
    if current.expires_at_ms <= now_ms {
        let mut e = owned("writer_lease_expired:");
        push_str(&mut e, lease.run_id.as_str());
        push_str(&mut e, ":");
        push_str(&mut e, lease.holder_id.as_str());
        push_str(&mut e, ":");
        push_decimal(&mut e, lease.epoch as u128);
        return Err(e);
    }
    Ok(())
}

/// Decides a renewal against the lease on record.
pub fn renew_decision(current: Option<&WriterLease>, lease: &WriterLease, now_ms: u64, ttl_ms: u64) -> (r: Result<
    WriterLease,
    String,
>)
    ensures
        match (r, renew_outcome(match current { Some(c) => Some(c@), None => None }, lease@, now_ms, ttl_ms)) {
            (Ok(l), Ok(m)) => l@ == m,
            (Err(e), Err(m)) => e@ == m,
            _ => false,
        },
{
    match validate_current(current, lease, now_ms) {
        Err(e) => Err(e),
        Ok(()) => {
            let mut renewed = lease.clone();
            renewed.expires_at_ms = now_ms.saturating_add(ttl_ms);
            Ok(renewed)
        },
    }
}

/// Decides a release against the lease on record.
pub fn release_decision(current: Option<&WriterLease>, lease: &WriterLease) -> (r: Result<WriterLease, String>)
    ensures
        match (r, release_outcome(match current { Some(c) => Some(c@), None => None }, lease@)) {
            (Ok(l), Ok(m)) => l@ == m,
            (Err(e), Err(m)) => e@ == m,
            _ => false,
        },
{
    match validate_current(current, lease, lease.expires_at_ms.saturating_sub(1)) {
        Err(e) => Err(e),
        Ok(()) => {
            let mut released = lease.clone();
            released.expires_at_ms = 0;
            Ok(released)
        },
    }
}

// ---------------------------------------------------------------------------
// Laws of the lease protocol
// ---------------------------------------------------------------------------

/// While a lease is unexpired, no other holder can acquire the run.
pub proof fn lemma_lease_excludes_other_holders(
    previous: Option<WriterLeaseView>,
    run_id: Seq<char>,
    holder_id: Seq<char>,
    now_ms: u64,
    ttl_ms: u64,
    other_holder: Seq<char>,
    later_ms: u64,
    later_ttl_ms: u64,
)
    requires
        acquire_outcome(previous, run_id, holder_id, now_ms, ttl_ms) is Ok,
        other_holder != holder_id,
        later_ms < acquire_outcome(previous, run_id, holder_id, now_ms, ttl_ms)->Ok_0.expires_at_ms,
    ensures
        acquire_outcome(
            Some(acquire_outcome(previous, run_id, holder_id, now_ms, ttl_ms)->Ok_0),
            run_id,
            other_holder,
            later_ms,
            later_ttl_ms,
        ) is Err,
{
}

/// A freshly acquired lease is valid from the moment it was taken until it expires.
pub proof fn lemma_acquired_lease_is_valid(
    previous: Option<WriterLeaseView>,
    run_id: Seq<char>,
    holder_id: Seq<char>,
    now_ms: u64,
    ttl_ms: u64,
    at_ms: u64,
)
    requires
        acquire_outcome(previous, run_id, holder_id, now_ms, ttl_ms) is Ok,
        at_ms < acquire_outcome(previous, run_id, holder_id, now_ms, ttl_ms)->Ok_0.expires_at_ms,
    ensures
        validate_outcome(
            Some(acquire_outcome(previous, run_id, holder_id, now_ms, ttl_ms)->Ok_0),
            acquire_outcome(previous, run_id, holder_id, now_ms, ttl_ms)->Ok_0,
            at_ms,
        ) is Ok,
{
}

/// When another holder takes over a lease, the previous holder is fenced: its
/// lease no longer validates at any time.
pub proof fn lemma_takeover_fences_previous_holder(
    previous: WriterLeaseView,
    new_holder: Seq<char>,
    now_ms: u64,
    ttl_ms: u64,
    at_ms: u64,
)
    requires
        !epoch_exhausted(Some(previous), now_ms),
        new_holder != previous.holder_id,
        acquire_outcome(Some(previous), previous.run_id, new_holder, now_ms, ttl_ms) is Ok,
    ensures
        acquire_outcome(Some(previous), previous.run_id, new_holder, now_ms, ttl_ms)->Ok_0.epoch
            == previous.epoch + 1,
        validate_outcome(
            Some(acquire_outcome(Some(previous), previous.run_id, new_holder, now_ms, ttl_ms)->Ok_0),
            previous,
            at_ms,
        ) is Err,
{
}

/// Epochs never go back: re-acquiring keeps the epoch for the same unexpired
/// holder and raises it otherwise.
pub proof fn lemma_epochs_never_decrease(
    previous: WriterLeaseView,
    run_id: Seq<char>,
    holder_id: Seq<char>,
    now_ms: u64,
    ttl_ms: u64,
)
    requires
        !epoch_exhausted(Some(previous), now_ms),
        acquire_outcome(Some(previous), run_id, holder_id, now_ms, ttl_ms) is Ok,
    ensures
        acquire_outcome(Some(previous), run_id, holder_id, now_ms, ttl_ms)->Ok_0.epoch >= previous.epoch,
        holder_id != previous.holder_id ==> acquire_outcome(Some(previous), run_id, holder_id, now_ms, ttl_ms)->Ok_0.epoch
            > previous.epoch,
{
}

/// Renewing keeps the run, the holder and the epoch; only the expiry moves.
pub proof fn lemma_renew_keeps_identity(
    current: Option<WriterLeaseView>,
    lease: WriterLeaseView,
    now_ms: u64,
    ttl_ms: u64,
)
    requires
        renew_outcome(current, lease, now_ms, ttl_ms) is Ok,
    ensures
        renew_outcome(current, lease, now_ms, ttl_ms)->Ok_0.run_id == lease.run_id,
        renew_outcome(current, lease, now_ms, ttl_ms)->Ok_0.holder_id == lease.holder_id,
        renew_outcome(current, lease, now_ms, ttl_ms)->Ok_0.epoch == lease.epoch,
        renew_outcome(current, lease, now_ms, ttl_ms)->Ok_0.expires_at_ms == saturating_add(now_ms, ttl_ms),
{
}

/// A lease validates exactly when it is the lease on record, held by the same
/// holder in the same epoch, and that lease has not yet expired.
pub proof fn lemma_validates_only_the_current_lease(current: Option<WriterLeaseView>, lease: WriterLeaseView, now_ms: u64)
    ensures
        validate_outcome(current, lease, now_ms) is Ok <==> (current matches Some(c) && c.holder_id
            == lease.holder_id && c.epoch == lease.epoch && now_ms < c.expires_at_ms),
{
}

/// A lease of another holder or of another epoch than the lease on record is
/// fenced at every time: the refusal starts with `writer_fenced:`.
pub proof fn lemma_stale_lease_is_fenced(current: WriterLeaseView, lease: WriterLeaseView, now_ms: u64)
    requires
        current.holder_id != lease.holder_id || current.epoch != lease.epoch,
    ensures
        validate_outcome(Some(current), lease, now_ms) matches Err(m) && starts_with_seq(m, "writer_fenced:"@),
{
    let m = validate_outcome(Some(current), lease, now_ms)->Err_0;
    let rest = lease.run_id + ":"@ + lease.holder_id + ":"@ + decimal(lease.epoch as nat) + ":"@ + current.holder_id
        + ":"@ + decimal(current.epoch as nat);
    assert(m =~= "writer_fenced:"@ + rest);
    assert(m.subrange(0, "writer_fenced:"@.len() as int) =~= "writer_fenced:"@);
}

/// When the same holder takes its own lease back after it expired, the lease
/// moves to the next epoch and the lease of the old epoch is fenced from then
/// on, at every time.
pub proof fn lemma_reacquire_fences_old_epoch(previous: WriterLeaseView, now_ms: u64, ttl_ms: u64, at_ms: u64)
    requires
        previous.expires_at_ms <= now_ms,
        !epoch_exhausted(Some(previous), now_ms),
    ensures
        acquire_outcome(Some(previous), previous.run_id, previous.holder_id, now_ms, ttl_ms) is Ok,
        acquire_outcome(Some(previous), previous.run_id, previous.holder_id, now_ms, ttl_ms)->Ok_0.epoch
            == previous.epoch + 1,
        validate_outcome(
            Some(acquire_outcome(Some(previous), previous.run_id, previous.holder_id, now_ms, ttl_ms)->Ok_0),
            previous,
            at_ms,
        ) is Err,
{
}

/// Once released, a lease no longer validates at any time.
pub proof fn lemma_released_lease_is_invalid(current: Option<WriterLeaseView>, lease: WriterLeaseView, at_ms: u64)
    requires
        release_outcome(current, lease) is Ok,
    ensures
        validate_outcome(Some(release_outcome(current, lease)->Ok_0), lease, at_ms) is Err,
{
}

// ---------------------------------------------------------------------------
// Lease stores
// ---------------------------------------------------------------------------

/// The lease on record for `run_id`, if any.
pub open spec fn lease_on_record(leases: Map<Seq<char>, WriterLeaseView>, run_id: Seq<char>) -> Option<
    WriterLeaseView,
> {
    if leases.contains_key(run_id) {
        Some(leases[run_id])
    } else {
        None
    }
}

/// Keeps one writer lease per run and fences writers by epoch.
pub trait RunLeaseStore {
    /// The leases on record, by run id.
    spec fn leases(&self) -> Map<Seq<char>, WriterLeaseView>;

    fn acquire(&mut self, run_id: &str, holder_id: &str, now_ms: u64, ttl_ms: u64) -> (r: Result<
        WriterLease,
        String,
    >)
        requires
            !epoch_exhausted(lease_on_record(old(self).leases(), run_id@), now_ms),
        ensures
            r matches Ok(l) ==> acquire_outcome(lease_on_record(old(self).leases(), run_id@), run_id@, holder_id@, now_ms, ttl_ms) == Ok::<WriterLeaseView, Seq<char>>(l@)
                && final(self).leases() == old(self).leases().insert(run_id@, l@),
            acquire_outcome(lease_on_record(old(self).leases(), run_id@), run_id@, holder_id@, now_ms, ttl_ms) matches Err(m)
                ==> (r matches Err(e) && e@ == m && final(self).leases() == old(self).leases()),
    ;

    fn renew(&mut self, lease: &WriterLease, now_ms: u64, ttl_ms: u64) -> (r: Result<WriterLease, String>)
        ensures
            r matches Ok(l) ==> renew_outcome(lease_on_record(old(self).leases(), lease.run_id@), lease@, now_ms, ttl_ms) == Ok::<WriterLeaseView, Seq<char>>(l@)
                && final(self).leases() == old(self).leases().insert(lease.run_id@, l@),
            renew_outcome(lease_on_record(old(self).leases(), lease.run_id@), lease@, now_ms, ttl_ms) matches Err(m)
                ==> (r matches Err(e) && e@ == m && final(self).leases() == old(self).leases()),
    ;

    fn validate(&self, lease: &WriterLease, now_ms: u64) -> (r: Result<(), String>)
        ensures
            r is Ok ==> validate_outcome(lease_on_record(self.leases(), lease.run_id@), lease@, now_ms) is Ok,
            validate_outcome(lease_on_record(self.leases(), lease.run_id@), lease@, now_ms) matches Err(m)
                ==> (r matches Err(e) && e@ == m),
    ;

    fn release(&mut self, lease: &WriterLease) -> (r: Result<(), String>)
        ensures
            r is Ok ==> release_outcome(lease_on_record(old(self).leases(), lease.run_id@), lease@) is Ok
                && final(self).leases() == old(self).leases().insert(
                    lease.run_id@,
                    release_outcome(lease_on_record(old(self).leases(), lease.run_id@), lease@)->Ok_0,
                ),
            release_outcome(lease_on_record(old(self).leases(), lease.run_id@), lease@) matches Err(m)
                ==> (r matches Err(e) && e@ == m && final(self).leases() == old(self).leases()),
    ;
}

/// The run ids of a list of leases, in order.
pub open spec fn lease_ids(leases: Seq<WriterLease>) -> Seq<Seq<char>> {
    leases.map_values(|l: WriterLease| l.run_id@)
}

/// The leases of a list, by run id.
pub open spec fn leases_by_id(leases: Seq<WriterLease>) -> Map<Seq<char>, WriterLeaseView> {
    Map::new(
        |k: Seq<char>| lease_ids(leases).contains(k),
        |k: Seq<char>| leases[lease_ids(leases).index_of(k)]@,
    )
}

proof fn lemma_lease_lookup(leases: Seq<WriterLease>, i: int)
    requires
        lease_ids(leases).no_duplicates(),
        0 <= i < leases.len(),
    ensures
        leases_by_id(leases).contains_key(leases[i].run_id@),
        leases_by_id(leases)[leases[i].run_id@] == leases[i]@,
{
    let ids = lease_ids(leases);
    assert(ids[i] == leases[i].run_id@);
    assert(ids.contains(leases[i].run_id@));
    let j = ids.index_of(leases[i].run_id@);
    assert(ids[j] == ids[i]);
}

/// Keeps leases in memory.
pub struct MemoryRunLeaseStore {
    leases: Vec<WriterLease>,
}

impl MemoryRunLeaseStore {
    #[verifier::type_invariant]
    spec fn one_per_run(self) -> bool {
        lease_ids(self.leases@).no_duplicates()
    }

    /// A store with no leases.
    pub fn new() -> (r: Self)
        ensures
            r.leases() == Map::<Seq<char>, WriterLeaseView>::empty(),
    {
        let r = MemoryRunLeaseStore { leases: Vec::new() };
        assert(leases_by_id(r.leases@) =~= Map::<Seq<char>, WriterLeaseView>::empty());
        r
    }

    fn position(&self, run_id: &str) -> (r: Option<usize>)
        ensures
            match r {
                Some(i) => i < self.leases@.len() && self.leases@[i as int].run_id@ == run_id@
                    && lease_on_record(self.leases(), run_id@) == Some(self.leases@[i as int]@),
                None => lease_on_record(self.leases(), run_id@) is None,
            },
    {
        proof {
            use_type_invariant(self);
        }
        let mut i: usize = 0;
        while i < self.leases.len()
            invariant
                i <= self.leases@.len(),
                lease_ids(self.leases@).no_duplicates(),
                forall|j: int| 0 <= j < i ==> lease_ids(self.leases@)[j] != run_id@,
            decreases self.leases@.len() - i,
        {
            if str_eq(self.leases[i].run_id.as_str(), run_id) {
                proof {
                    lemma_lease_lookup(self.leases@, i as int);
                }
                return Some(i);
            }
            i = i + 1;
        }
        None
    }

    /// Records `lease` as the lease of its run.
    fn store(&mut self, lease: WriterLease)
        ensures
            final(self).leases() == old(self).leases().insert(lease.run_id@, lease@),
    {
        proof {
            use_type_invariant(&*self);
        }
        let p = self.position(lease.run_id.as_str());
        let mut taken = MemoryRunLeaseStore::new();
        std::mem::swap(&mut taken, self);
        let mut leases = taken.leases;
        let ghost old_leases = leases@;
        let ghost old_ids = lease_ids(old_leases);
        let ghost key = lease.run_id@;
        let ghost val = lease@;
        match p {
            Some(i) => {
                leases.set(i, lease);
                proof {
                    let ids = lease_ids(leases@);
                    assert(ids =~= old_ids);
                    assert forall|k: Seq<char>| #![auto] leases_by_id(leases@).contains_key(k)
                        == leases_by_id(old_leases).insert(key, val).contains_key(k) by {
                        if k == key {
                            assert(ids[i as int] == key);
                        }
                    }
                    assert forall|k: Seq<char>| #![auto] leases_by_id(leases@).contains_key(k)
                        implies leases_by_id(leases@)[k] == leases_by_id(old_leases).insert(key, val)[k] by {
                        let j = ids.index_of(k);
                        lemma_lease_lookup(leases@, j);
                        if j != i {
                            lemma_lease_lookup(old_leases, j);
                            assert(old_ids[i as int] == key);
                        }
                    }
                    assert(leases_by_id(leases@) =~= leases_by_id(old_leases).insert(key, val));
                }
            },
            None => {
                leases.push(lease);
                proof {
                    let ids = lease_ids(leases@);
                    assert(ids =~= old_ids.push(key));
                    assert(!old_ids.contains(key));
                    assert forall|a: int, b: int| 0 <= a < ids.len() && 0 <= b < ids.len() && a != b
                        implies ids[a] != ids[b] by {
                        if a < old_ids.len() && b < old_ids.len() {
                            assert(old_ids[a] != old_ids[b]);
                        } else if a == old_ids.len() {
                            assert(old_ids[b] != key);
                        } else {
                            assert(old_ids[a] != key);
                        }
                    }
                    assert forall|k: Seq<char>| #![auto] leases_by_id(leases@).contains_key(k)
                        == leases_by_id(old_leases).insert(key, val).contains_key(k) by {
                        if ids.contains(k) && k != key {
                            let j = ids.index_of(k);
                            assert(old_ids[j] == k);
                        }
                        if old_ids.contains(k) {
                            let j = old_ids.index_of(k);
                            assert(ids[j] == k);
                        }
                        if k == key {
                            assert(ids[old_ids.len() as int] == key);
                        }
                    }
                    assert forall|k: Seq<char>| #![auto] leases_by_id(leases@).contains_key(k)
                        implies leases_by_id(leases@)[k] == leases_by_id(old_leases).insert(key, val)[k] by {
                        let j = ids.index_of(k);
                        lemma_lease_lookup(leases@, j);
                        if j < old_leases.len() {
                            lemma_lease_lookup(old_leases, j);
                        }
                    }
                    assert(leases_by_id(leases@) =~= leases_by_id(old_leases).insert(key, val));
                }
            },
        }
        *self = MemoryRunLeaseStore { leases };
    }
}

impl Default for MemoryRunLeaseStore {
    fn default() -> (r: Self)
        ensures
            r.leases() == Map::<Seq<char>, WriterLeaseView>::empty(),
    {
        MemoryRunLeaseStore::new()
    }
}

impl RunLeaseStore for MemoryRunLeaseStore {
    closed spec fn leases(&self) -> Map<Seq<char>, WriterLeaseView> {
        leases_by_id(self.leases@)
    }

    fn acquire(&mut self, run_id: &str, holder_id: &str, now_ms: u64, ttl_ms: u64) -> (r: Result<
        WriterLease,
        String,
    >)
        ensures
            r is Ok <==> acquire_outcome(lease_on_record(old(self).leases(), run_id@), run_id@, holder_id@, now_ms, ttl_ms) is Ok,
    {
        let decision = match self.position(run_id) {
            Some(i) => acquire_decision(Some(&self.leases[i]), run_id, holder_id, now_ms, ttl_ms),
            None => acquire_decision(None, run_id, holder_id, now_ms, ttl_ms),
        };
        match decision {
            Ok(lease) => {
                self.store(lease.clone());
                Ok(lease)
            },
            Err(e) => Err(e),
        }
    }

    fn renew(&mut self, lease: &WriterLease, now_ms: u64, ttl_ms: u64) -> (r: Result<WriterLease, String>)
        ensures
            r is Ok <==> renew_outcome(lease_on_record(old(self).leases(), lease.run_id@), lease@, now_ms, ttl_ms) is Ok,
    {
        let decision = match self.position(lease.run_id.as_str()) {
            Some(i) => renew_decision(Some(&self.leases[i]), lease, now_ms, ttl_ms),
            None => renew_decision(None, lease, now_ms, ttl_ms),
        };
        match decision {
            Ok(renewed) => {
                self.store(renewed.clone());
                Ok(renewed)
            },
            Err(e) => Err(e),
        }
    }

    fn validate(&self, lease: &WriterLease, now_ms: u64) -> (r: Result<(), String>)
        ensures
            r is Ok <==> validate_outcome(lease_on_record(self.leases(), lease.run_id@), lease@, now_ms) is Ok,
    {
        match self.position(lease.run_id.as_str()) {
            Some(i) => validate_current(Some(&self.leases[i]), lease, now_ms),
            None => validate_current(None, lease, now_ms),
        }
    }

    fn release(&mut self, lease: &WriterLease) -> (r: Result<(), String>)
        ensures
            r is Ok <==> release_outcome(lease_on_record(old(self).leases(), lease.run_id@), lease@) is Ok,
    {
        let decision = match self.position(lease.run_id.as_str()) {
            Some(i) => release_decision(Some(&self.leases[i]), lease),
            None => release_decision(None, lease),
        };
        match decision {
            Ok(released) => {
                self.store(released);
                Ok(())
            },
            Err(e) => Err(e),
        }
    }
}

/// Keeps one lease file per run under a root directory, locked while it is
/// read and rewritten; the file work is done by the application around this
/// library, which decides with `acquire_decision`, `renew_decision`,
/// `validate_current` and `release_decision`.
pub struct FileRunLeaseStore {
    root: String,
}

/// The file name of a run's lease: the hex id of the run, then `.lease`.
pub open spec fn lease_file_name(run_id: &str) -> Seq<char> {
    spec_hex_id(run_id.spec_bytes()) + ".lease"@
}

impl FileRunLeaseStore {
    pub fn new(root: &str) -> (r: Self)
        ensures
            r.root_path() == root@,
    {
        FileRunLeaseStore { root: owned(root) }
    }

    pub closed spec fn root_path(&self) -> Seq<char> {
        self.root@
    }

    /// The root directory.
    pub fn root(&self) -> (r: &str)
        ensures
            r@ == self.root_path(),
    {
        self.root.as_str()
    }

    /// The path of a run's lease file.
    pub fn lease_path(&self, run_id: &str) -> (r: String)
        ensures
            r@ == spec_path_join(self.root_path(), lease_file_name(run_id)),
    {
        let mut name = hex_id(run_id);
        push_str(&mut name, ".lease");
        path_join(self.root.as_str(), name.as_str())
    }
}

} // verus!
