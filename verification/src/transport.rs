use vstd::prelude::*;
use crate::capability::{proposal_result_view, spec_allows, CapabilityContext, CapabilityRegistry};
use crate::runspec::{CapabilityLease, EffectProposal, EffectView, RunSpec, RunSpecView, RunState, RunStateView};
use crate::text::{owned, push_str};

verus! {

/// How the kernel reaches the capabilities a run invokes.
pub trait CapabilityTransport {
    /// Whether `result` is an outcome the transport may give when `run_spec`,
    /// in `run_state` and holding `capability_leases`, invokes `capability_id`
    /// with `input`.
    spec fn may_return(
        &self,
        capability_leases: Seq<CapabilityLease>,
        capability_id: Seq<char>,
        input: Seq<char>,
        run_spec: RunSpecView,
        run_state: RunStateView,
        result: Result<EffectView, Seq<char>>,
    ) -> bool;

    fn invoke(
        &self,
        capability_leases: &[CapabilityLease],
        capability_id: &str,
        input: &str,
        run_spec: &RunSpec,
        run_state: &RunState,
    ) -> (r: Result<EffectProposal, String>)
        ensures
            self.may_return(
                capability_leases@,
                capability_id@,
                input@,
                run_spec@,
                run_state@,
                proposal_result_view(r),
            ),
    ;
}

/// What a transport backed by a registry answers before it reaches a driver:
/// a refusal when no lease grants `invoke`, and `capability_not_found` when the
/// registry has no driver for the id. `None` means the driver decides.
pub open spec fn registry_gate(
    registry: CapabilityRegistry,
    capability_leases: Seq<CapabilityLease>,
    capability_id: Seq<char>,
) -> Option<Seq<char>> {
    if !spec_allows(capability_leases, capability_id, "invoke"@) {
        Some("capability_denied:"@ + capability_id)
    } else if !registry.capability_ids().contains(capability_id) {
        Some("capability_not_found:"@ + capability_id)
    } else {
        None
    }
}

/// Transport that calls drivers in this process.
pub struct LocalTransport {
    registry: CapabilityRegistry,
}

impl LocalTransport {
    pub fn new(registry: CapabilityRegistry) -> (r: Self)
        ensures
            r.registry() == registry,
    {
        LocalTransport { registry }
    }

    pub closed spec fn registry(&self) -> CapabilityRegistry {
        self.registry
    }
}

impl CapabilityTransport for LocalTransport {
    /// When the lease or the lookup refuses the invocation, that refusal is
    /// the outcome; otherwise the registered driver answers.
    open spec fn may_return(
        &self,
        capability_leases: Seq<CapabilityLease>,
        capability_id: Seq<char>,
        input: Seq<char>,
        run_spec: RunSpecView,
        run_state: RunStateView,
        result: Result<EffectView, Seq<char>>,
    ) -> bool {
        match registry_gate(self.registry(), capability_leases, capability_id) {
            Some(e) => result == Err::<EffectView, Seq<char>>(e),
            None => self.registry().driver_may_answer(capability_id, input, run_spec, run_state, result),
        }
    }

    fn invoke(
        &self,
        capability_leases: &[CapabilityLease],
        capability_id: &str,
        input: &str,
        run_spec: &RunSpec,
        run_state: &RunState,
    ) -> (r: Result<EffectProposal, String>)
        ensures
            registry_gate(self.registry(), capability_leases@, capability_id@) matches Some(e) ==> (
            r matches Err(got) && got@ == e),
    {
        invoke_with_registry(&self.registry, capability_leases, capability_id, input, run_spec, run_state)
    }
}

/// Transport standing in for a remote capability host; it calls the same
/// registry in this process.
pub struct RemoteTransportMock {
    registry: CapabilityRegistry,
}

impl RemoteTransportMock {
    pub fn new(registry: CapabilityRegistry) -> (r: Self)
        ensures
            r.registry() == registry,
    {
        RemoteTransportMock { registry }
    }

    pub closed spec fn registry(&self) -> CapabilityRegistry {
        self.registry
    }
}

impl CapabilityTransport for RemoteTransportMock {
    /// When the lease or the lookup refuses the invocation, that refusal is
    /// the outcome; otherwise the registered driver answers.
    open spec fn may_return(
        &self,
        capability_leases: Seq<CapabilityLease>,
        capability_id: Seq<char>,
        input: Seq<char>,
        run_spec: RunSpecView,
        run_state: RunStateView,
        result: Result<EffectView, Seq<char>>,
    ) -> bool {
        match registry_gate(self.registry(), capability_leases, capability_id) {
            Some(e) => result == Err::<EffectView, Seq<char>>(e),
            None => self.registry().driver_may_answer(capability_id, input, run_spec, run_state, result),
        }
    }

    fn invoke(
        &self,
        capability_leases: &[CapabilityLease],
        capability_id: &str,
        input: &str,
        run_spec: &RunSpec,
        run_state: &RunState,
    ) -> (r: Result<EffectProposal, String>)
        ensures
            registry_gate(self.registry(), capability_leases@, capability_id@) matches Some(e) ==> (
            r matches Err(got) && got@ == e),
    {
        invoke_with_registry(&self.registry, capability_leases, capability_id, input, run_spec, run_state)
    }
}

/// Invokes `capability_id` through `registry` when a lease grants `invoke`.
pub fn invoke_with_registry(
    registry: &CapabilityRegistry,
    capability_leases: &[CapabilityLease],
    capability_id: &str,
    input: &str,
    run_spec: &RunSpec,
    run_state: &RunState,
) -> (r: Result<EffectProposal, String>)
    ensures
        registry_gate(*registry, capability_leases@, capability_id@) matches Some(e) ==> (r matches Err(
            got,
        ) && got@ == e),
        registry_gate(*registry, capability_leases@, capability_id@) is None ==> registry.driver_may_answer(
            capability_id@,
            input@,
            run_spec@,
            run_state@,
            proposal_result_view(r),
        ),
{
    if !CapabilityRegistry::allows(capability_leases, capability_id, "invoke") {
        let mut e = owned("capability_denied:");
        push_str(&mut e, capability_id);
        return Err(e);
    }
    let ctx = CapabilityContext { run_spec, run_state };
    registry.invoke(capability_id, input, &ctx)
}

} // verus!
