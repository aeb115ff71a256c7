use vstd::prelude::*;
use crate::runspec::{CapabilityLease, EffectProposal, EffectView, RunSpec, RunSpecView, RunState, RunStateView};
use crate::text::{owned, push_str, str_eq, list_contains};

verus! {

/// What a capability sees of the run that invokes it.
pub struct CapabilityContext<'a> {
    pub run_spec: &'a RunSpec,
    pub run_state: &'a RunState,
}

/// The model of an invocation's outcome: the proposal's model, or the error text.
pub open spec fn proposal_result_view(r: Result<EffectProposal, String>) -> Result<EffectView, Seq<char>> {
    match r {
        Ok(p) => Ok(p@),
        Err(e) => Err(e@),
    }
}

/// A tool or service that a run may invoke through a lease.
pub trait CapabilityDriver {
    /// Whether `result` is an answer the driver may give to `input` from a run
    /// of `spec` in `state`. A driver that says nothing may give any answer.
    open spec fn may_answer(&self, input: Seq<char>, spec: RunSpecView, state: RunStateView, result: Result<EffectView, Seq<char>>) -> bool {
        true
    }

    fn invoke(&self, input: &str, ctx: &CapabilityContext<'_>) -> (r: Result<EffectProposal, String>)
        ensures
            self.may_answer(input@, ctx.run_spec@, ctx.run_state@, proposal_result_view(r)),
    ;
}

/// A capability backed by a function.
pub struct StaticCapability<F: Fn(&str, &CapabilityContext<'_>) -> Result<EffectProposal, String>> {
    handler: F,
}

impl<F: Fn(&str, &CapabilityContext<'_>) -> Result<EffectProposal, String>> StaticCapability<F> {
    #[verifier::type_invariant]
    spec fn handler_total(self) -> bool {
        forall|i: &str, c: &CapabilityContext<'_>| #[trigger] self.handler.requires((i, c))
    }

    /// Wraps a handler that accepts every input.
    pub fn new(handler: F) -> (r: Self)
        requires
            forall|i: &str, c: &CapabilityContext<'_>| #[trigger] handler.requires((i, c)),
        ensures
            r.handler() == handler,
    {
        StaticCapability { handler }
    }

    /// The wrapped handler.
    pub closed spec fn handler(self) -> F {
        self.handler
    }
}

impl<F: Fn(&str, &CapabilityContext<'_>) -> Result<EffectProposal, String>> CapabilityDriver for StaticCapability<F> {
    /// An answer the handler may give to the same input and run.
    open spec fn may_answer(&self, input: Seq<char>, spec: RunSpecView, state: RunStateView, result: Result<EffectView, Seq<char>>) -> bool {
        exists|i: &str, c: &CapabilityContext<'_>, r: Result<EffectProposal, String>|
            #![trigger self.handler().ensures((i, c), r)]
            i@ == input && c.run_spec@ == spec && c.run_state@ == state && proposal_result_view(r) == result
                && self.handler().ensures((i, c), r)
    }

    fn invoke(&self, input: &str, ctx: &CapabilityContext<'_>) -> (r: Result<EffectProposal, String>)
        ensures
            self.handler().ensures((input, ctx), r),
    {
        proof {
            use_type_invariant(self);
        }
        let r = (self.handler)(input, ctx);
        assert(self.handler().ensures((input, ctx), r));
        r
    }
}

/// Drivers by capability id; an id is registered at most once.
pub struct CapabilityRegistry {
    ids: Vec<String>,
    drivers: Vec<DriverSlot>,
}

/// One registered driver.
struct DriverSlot {
    driver: Box<dyn CapabilityDriver>,
}

fn slot_of<D: CapabilityDriver + 'static>(driver: D) -> DriverSlot {
    DriverSlot { driver: Box::new(driver) }
}

/// A lease in `leases` names `capability_id`.
pub open spec fn spec_is_leased(leases: Seq<CapabilityLease>, capability_id: Seq<char>) -> bool {
    exists|i: int| 0 <= i < leases.len() && (#[trigger] leases[i]).capability_id@ == capability_id
}

/// A lease in `leases` names `capability_id` and grants `permission`.
pub open spec fn spec_allows(
    leases: Seq<CapabilityLease>,
    capability_id: Seq<char>,
    permission: Seq<char>,
) -> bool {
    exists|i: int|
        0 <= i < leases.len() && (#[trigger] leases[i]).capability_id@ == capability_id
            && leases[i].permissions.deep_view().contains(permission)
}

impl CapabilityRegistry {
    #[verifier::type_invariant]
    spec fn well_formed(self) -> bool {
        &&& self.ids.deep_view().no_duplicates()
        &&& self.ids@.len() == self.drivers@.len()
    }

    /// The registered capability ids, in the order of first registration.
    pub closed spec fn capability_ids(&self) -> Seq<Seq<char>> {
        self.ids.deep_view()
    }

    /// Whether `result` is an answer the driver registered under
    /// `capability_id` may give to `input` from a run of `spec` in `state`.
    pub closed spec fn driver_may_answer(
        &self,
        capability_id: Seq<char>,
        input: Seq<char>,
        spec: RunSpecView,
        state: RunStateView,
        result: Result<EffectView, Seq<char>>,
    ) -> bool {
        self.drivers@[self.ids.deep_view().index_of(capability_id)].driver.may_answer(input, spec, state, result)
    }

    /// A registry with no capabilities.
    pub fn new() -> (r: Self)
        ensures
            r.capability_ids() == Seq::<Seq<char>>::empty(),
    {
        let r = CapabilityRegistry { ids: Vec::new(), drivers: Vec::new() };
        assert(r.ids.deep_view() =~= Seq::<Seq<char>>::empty());
        r
    }

    /// Registers `driver` under `capability_id`, replacing any driver that id had.
    pub fn register<D: CapabilityDriver + 'static>(&mut self, capability_id: &str, driver: D)
        ensures
            final(self).capability_ids().to_set() == old(self).capability_ids().to_set().insert(
                capability_id@,
            ),
            old(self).capability_ids().contains(capability_id@) ==> final(self).capability_ids()
                == old(self).capability_ids(),
            !old(self).capability_ids().contains(capability_id@) ==> final(self).capability_ids()
                == old(self).capability_ids().push(capability_id@),
            forall|other: Seq<char>, input: Seq<char>, spec: RunSpecView, state: RunStateView, result: Result<
                EffectView,
                Seq<char>,
            >|
                other != capability_id@ && old(self).capability_ids().contains(other)
                    ==> #[trigger] final(self).driver_may_answer(other, input, spec, state, result)
                    == old(self).driver_may_answer(other, input, spec, state, result),
    {
        proof {
            use_type_invariant(&*self);
        }
        let ghost old_self = *self;
        let boxed = slot_of(driver);
        let mut taken = CapabilityRegistry::new();
        std::mem::swap(&mut taken, self);
        proof {
            use_type_invariant(&taken);
        }
        let mut ids = taken.ids;
        let mut drivers = taken.drivers;
        let ghost before = ids.deep_view();
        match position_in(&ids, capability_id) {
            Some(i) => {
                let ghost dl = drivers@.len();
                let ghost d0 = drivers@;
                drivers.set(i, boxed);
                assert(drivers@.len() == dl);
                assert(forall|j: int| 0 <= j < dl && j != i ==> drivers@[j] == d0[j]);
                assert(ids.deep_view() == before);
                assert(before.contains(capability_id@)) by {
                    assert(before[i as int] == capability_id@);
                }
                assert(before.to_set() =~= before.to_set().insert(capability_id@));
            },
            None => {
                let name = owned(capability_id);
                ids.push(name);
                let ghost dl = drivers@.len();
                let ghost d0 = drivers@;
                drivers.push(boxed);
                assert(drivers@.len() == dl + 1);
                assert(forall|j: int| 0 <= j < dl ==> drivers@[j] == d0[j]);
                assert(ids.deep_view() =~= before.push(capability_id@));
                proof {
                    before.lemma_push_to_set_commute(capability_id@);
                    assert forall|a: int, b: int|
                        0 <= a < b < ids.deep_view().len() implies ids.deep_view()[a]
                        != ids.deep_view()[b] by {
                        if b == before.len() {
                            assert(before[a] == ids.deep_view()[a]);
                        }
                    }
                }
            },
        }
        let ghost old_drivers = old_self.drivers@;
        *self = CapabilityRegistry { ids, drivers };
        proof {
            use_type_invariant(&*self);
            assert forall|other: Seq<char>, input: Seq<char>, spec: RunSpecView, state: RunStateView, result: Result<
                EffectView,
                Seq<char>,
            >|
                other != capability_id@ && before.contains(other) implies #[trigger] self.driver_may_answer(
                other,
                input,
                spec,
                state,
                result,
            ) == old_self.driver_may_answer(other, input, spec, state, result) by {
                let j = before.index_of(other);
                lemma_index_of_unique(before, j, other);
                lemma_index_of_unique(self.ids.deep_view(), j, other);
            }
        }
    }

    /// Whether a driver is registered under `capability_id`.
    pub fn contains(&self, capability_id: &str) -> (r: bool)
        ensures
            r == self.capability_ids().contains(capability_id@),
    {
        position_in(&self.ids, capability_id).is_some()
    }

    /// Invokes the driver registered under `capability_id`; an unknown id gives
    /// `capability_not_found:<id>`.
    pub fn invoke(&self, capability_id: &str, input: &str, ctx: &CapabilityContext<'_>) -> (r: Result<
        EffectProposal,
        String,
    >)
        ensures
            !self.capability_ids().contains(capability_id@) ==> (r matches Err(e) && e@
                == "capability_not_found:"@ + capability_id@),
            self.capability_ids().contains(capability_id@) ==> self.driver_may_answer(
                capability_id@,
                input@,
                ctx.run_spec@,
                ctx.run_state@,
                proposal_result_view(r),
            ),
    {
        proof {
            use_type_invariant(self);
        }
        match position_in(&self.ids, capability_id) {
            Some(i) => {
                proof {
                    let ids = self.ids.deep_view();
                    let j = ids.index_of(capability_id@);
                    assert(ids[i as int] == capability_id@);
                    assert(0 <= j < ids.len() && ids[j] == capability_id@);
                    assert(j == i);
                }
                self.drivers[i].driver.invoke(input, ctx)
            },
            None => {
                let mut e = owned("capability_not_found:");
                push_str(&mut e, capability_id);
                Err(e)
            },
        }
    }

    /// Whether a lease names `capability_id`.
    pub fn is_leased(leasable: &[CapabilityLease], capability_id: &str) -> (r: bool)
        ensures
            r == spec_is_leased(leasable@, capability_id@),
    {
        let mut i: usize = 0;
        while i < leasable.len()
            invariant
                i <= leasable@.len(),
                forall|j: int| 0 <= j < i ==> (#[trigger] leasable@[j]).capability_id@ != capability_id@,
            decreases leasable@.len() - i,
        {
            if str_eq(leasable[i].capability_id.as_str(), capability_id) {
                return true;
            }
            i = i + 1;
        }
        false
    }

    /// Whether a lease names `capability_id` and grants `permission`.
    pub fn allows(leasable: &[CapabilityLease], capability_id: &str, permission: &str) -> (r: bool)
        ensures
            r == spec_allows(leasable@, capability_id@, permission@),
    {
        let mut i: usize = 0;
        while i < leasable.len()
            invariant
                i <= leasable@.len(),
                forall|j: int|
                    0 <= j < i ==> !((#[trigger] leasable@[j]).capability_id@ == capability_id@
                        && leasable@[j].permissions.deep_view().contains(permission@)),
            decreases leasable@.len() - i,
        {
            if str_eq(leasable[i].capability_id.as_str(), capability_id) && list_contains(
                &leasable[i].permissions,
                permission,
            ) {
                return true;
            }
            i = i + 1;
        }
        false
    }
}

impl Default for CapabilityRegistry {
    fn default() -> (r: Self)
        ensures
            r.capability_ids() == Seq::<Seq<char>>::empty(),
    {
        Self::new()
    }
}

proof fn lemma_index_of_unique(s: Seq<Seq<char>>, k: int, x: Seq<char>)
    requires
        s.no_duplicates(),
        0 <= k < s.len(),
        s[k] == x,
    ensures
        s.index_of(x) == k,
{
    let j = s.index_of(x);
    assert(s.contains(x));
    assert(0 <= j < s.len() && s[j] == x);
}

/// The first position of `capability_id` in `ids`.
fn position_in(ids: &Vec<String>, capability_id: &str) -> (r: Option<usize>)
    ensures
        match r {
            Some(i) => i < ids@.len() && ids.deep_view()[i as int] == capability_id@,
            None => !ids.deep_view().contains(capability_id@),
        },
{
    let mut i: usize = 0;
    while i < ids.len()
        invariant
            i <= ids@.len(),
            forall|j: int| 0 <= j < i ==> ids.deep_view()[j] != capability_id@,
        decreases ids@.len() - i,
    {
        if str_eq(ids[i].as_str(), capability_id) {
            return Some(i);
        }
        i = i + 1;
    }
    None
}

} // verus!
