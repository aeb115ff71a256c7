use axiom_core::{
    AuditShell, CompositeShell, MinimalPolicyEngine, PolicyEngine, PolicyMiddleware, RunSpec, RunState, Shell,
    ShellDecision, Step, StepAction, TitlePolicyMiddleware,
};

fn step(title: &str, action: StepAction) -> Step {
    Step { id: "s".to_string(), title: title.to_string(), action }
}

fn say(title: &str) -> Step {
    step(title, StepAction::Message { role: "user".to_string(), content: "hi".to_string() })
}

fn invoke(title: &str, capability_id: &str) -> Step {
    step(title, StepAction::CapabilityInvoke { capability_id: capability_id.to_string(), input: "x".to_string() })
}

fn context() -> (RunSpec, RunState) {
    let spec = RunSpec::new("r", "n", vec![]);
    let state = RunState::from_spec(&spec);
    (spec, state)
}

#[test]
fn empty_composite_allows() {
    let (spec, state) = context();
    assert_eq!(CompositeShell::new().before_step(&spec, &state, &say("anything")), ShellDecision::Allow);
}

#[test]
fn audit_shell_denies_and_rewrites_by_title() {
    let (spec, state) = context();
    assert_eq!(
        AuditShell.before_step(&spec, &state, &say("please [deny] this")),
        ShellDecision::Deny { reason: "title_matched_deny_rule".to_string() }
    );
    assert_eq!(
        AuditShell.before_step(&spec, &state, &say("[rewrite] a [rewrite] b")),
        ShellDecision::Rewrite {
            new_step: say("[rewritten] a [rewritten] b"),
            reason: "title_matched_rewrite_rule".to_string()
        }
    );
    assert_eq!(AuditShell.before_step(&spec, &state, &say("plain")), ShellDecision::Allow);
}

#[test]
fn minimal_policy_denies_title_terms_before_capabilities() {
    let (spec, state) = context();
    let engine = MinimalPolicyEngine::new().deny_capability("tool/rm").deny_title_term("secret").deny_title_term("rm");
    assert_eq!(
        engine.evaluate(&spec, &state, &invoke("read secret rm", "tool/rm")),
        Some(ShellDecision::Deny { reason: "policy_denied_title_term:secret".to_string() })
    );
    assert_eq!(
        engine.evaluate(&spec, &state, &invoke("call", "tool/rm")),
        Some(ShellDecision::Deny { reason: "policy_denied_capability:tool/rm".to_string() })
    );
    assert_eq!(engine.evaluate(&spec, &state, &invoke("call", "tool/ls")), None);
    assert_eq!(engine.evaluate(&spec, &state, &say("hello")), None);
}

#[test]
fn composite_chains_rewrites_and_stops_at_a_denial() {
    let (spec, state) = context();
    let mut shell = CompositeShell::default();
    shell.push(TitlePolicyMiddleware);
    shell.push(PolicyMiddleware::new(MinimalPolicyEngine::new().deny_title_term("[rewritten] bad")));
    assert_eq!(
        shell.before_step(&spec, &state, &say("[rewrite] bad")),
        ShellDecision::Deny { reason: "policy_denied_title_term:[rewritten] bad".to_string() }
    );
    assert_eq!(
        shell.before_step(&spec, &state, &say("[rewrite] ok")),
        ShellDecision::Rewrite { new_step: say("[rewritten] ok"), reason: "title_matched_rewrite_rule".to_string() }
    );

    let mut twice = CompositeShell::new();
    twice.push(TitlePolicyMiddleware);
    twice.push(TitlePolicyMiddleware);
    assert_eq!(
        twice.before_step(&spec, &state, &say("[rewrite] x")),
        ShellDecision::Rewrite {
            new_step: say("[rewritten] x"),
            reason: "title_matched_rewrite_rule".to_string()
        }
    );
}
