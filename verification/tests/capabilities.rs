use axiom_core::transport::invoke_with_registry;
use axiom_core::{
    CapabilityContext, CapabilityLease, CapabilityRegistry, CapabilityTransport, EffectProposal, LocalTransport,
    RemoteTransportMock, RunSpec, RunState, StaticCapability,
};

fn upper_registry() -> CapabilityRegistry {
    let mut registry = CapabilityRegistry::default();
    registry.register(
        "tool/upper",
        StaticCapability::new(|input: &str, ctx: &CapabilityContext<'_>| {
            Ok(EffectProposal {
                summary: format!("upper for {}", ctx.run_spec.run_id),
                messages: vec![],
                outputs: vec![input.to_uppercase()],
            })
        }),
    );
    registry
}

fn lease(id: &str, permissions: &[&str]) -> CapabilityLease {
    CapabilityLease { capability_id: id.to_string(), permissions: permissions.iter().map(|p| p.to_string()).collect() }
}

#[test]
fn registry_invokes_registered_drivers() {
    let registry = upper_registry();
    assert!(registry.contains("tool/upper"));
    assert!(!registry.contains("tool/lower"));
    let spec = RunSpec::new("r1", "n", vec![]);
    let state = RunState::from_spec(&spec);
    let ctx = CapabilityContext { run_spec: &spec, run_state: &state };
    let effect = registry.invoke("tool/upper", "abc", &ctx).unwrap();
    assert_eq!(effect.outputs, vec!["ABC".to_string()]);
    assert_eq!(effect.summary, "upper for r1");
    assert_eq!(registry.invoke("tool/lower", "abc", &ctx), Err("capability_not_found:tool/lower".to_string()));
}

#[test]
fn registering_an_id_again_replaces_its_driver() {
    let mut registry = upper_registry();
    registry.register(
        "tool/upper",
        StaticCapability::new(|_input: &str, _ctx: &CapabilityContext<'_>| Err("replaced".to_string())),
    );
    let spec = RunSpec::new("r1", "n", vec![]);
    let state = RunState::from_spec(&spec);
    let ctx = CapabilityContext { run_spec: &spec, run_state: &state };
    assert_eq!(registry.invoke("tool/upper", "abc", &ctx), Err("replaced".to_string()));
}

#[test]
fn leases_grant_named_permissions() {
    let leases = vec![lease("tool/a", &["read"]), lease("tool/b", &["invoke", "read"])];
    assert!(CapabilityRegistry::is_leased(&leases, "tool/a"));
    assert!(!CapabilityRegistry::is_leased(&leases, "tool/c"));
    assert!(CapabilityRegistry::allows(&leases, "tool/b", "invoke"));
    assert!(!CapabilityRegistry::allows(&leases, "tool/a", "invoke"));
    assert!(!CapabilityRegistry::allows(&[], "tool/a", "read"));
}

#[test]
fn transports_check_the_lease_then_the_registry() {
    let spec = RunSpec::new("r1", "n", vec![]);
    let state = RunState::from_spec(&spec);
    let granted = vec![lease("tool/upper", &["invoke"]), lease("tool/missing", &["invoke"])];
    let local = LocalTransport::new(upper_registry());
    let remote = RemoteTransportMock::new(upper_registry());
    for transport in [&local as &dyn CapabilityTransport, &remote as &dyn CapabilityTransport] {
        assert_eq!(transport.invoke(&granted, "tool/upper", "x", &spec, &state).unwrap().outputs, vec!["X".to_string()]);
        assert_eq!(
            transport.invoke(&[], "tool/upper", "x", &spec, &state),
            Err("capability_denied:tool/upper".to_string())
        );
        assert_eq!(
            transport.invoke(&granted, "tool/missing", "x", &spec, &state),
            Err("capability_not_found:tool/missing".to_string())
        );
    }
    let registry = upper_registry();
    let read_only = vec![lease("tool/upper", &["read"])];
    assert_eq!(
        invoke_with_registry(&registry, &read_only, "tool/upper", "x", &spec, &state),
        Err("capability_denied:tool/upper".to_string())
    );
}
