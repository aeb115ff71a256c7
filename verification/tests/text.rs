use axiom_core::scheduler::{scripted_step, step_for_decision};
use axiom_core::text::{
    contains_str, decimal_string, join_strings, replace_str, starts_with_str, str_lt, zero_padded_string,
};
use axiom_core::{ModelDecision, RunSpec, Step, StepAction};

#[test]
fn decimal_and_padding() {
    assert_eq!(decimal_string(0), "0");
    assert_eq!(decimal_string(1234567890), "1234567890");
    assert_eq!(decimal_string(u64::MAX), u64::MAX.to_string());
    assert_eq!(zero_padded_string(42, 6), "000042");
    assert_eq!(zero_padded_string(1234567, 3), "1234567");
    assert_eq!(zero_padded_string(7, 0), "7");
}

#[test]
fn searching_and_replacing() {
    assert!(contains_str("a [deny] b", "[deny]"));
    assert!(contains_str("abc", ""));
    assert!(!contains_str("ab", "abc"));
    assert!(starts_with_str("/tmp/x", "/tmp"));
    assert!(!starts_with_str("/t", "/tmp"));
    assert_eq!(replace_str("aXbXc", "X", "--"), "a--b--c");
    assert_eq!(replace_str("aaa", "aa", "b"), "ba");
    assert_eq!(replace_str("abc", "z", "y"), "abc");
}

#[test]
fn joining_and_ordering() {
    let parts = vec!["a".to_string(), "b".to_string(), "c".to_string()];
    assert_eq!(join_strings(&parts, "+"), "a+b+c");
    assert_eq!(join_strings(&vec![], "+"), "");
    assert!(str_lt("ab", "b"));
    assert!(str_lt("a", "ab"));
    assert!(!str_lt("b", "ab"));
    assert!(!str_lt("a", "a"));
}

#[test]
fn model_decisions_become_steps() {
    let tool = step_for_decision(3, ModelDecision::Invoke { capability_id: "tool/x".to_string(), input: "i".to_string() })
        .unwrap();
    assert_eq!(tool.id, "react-3-tool");
    assert_eq!(tool.title, "invoke tool/x");
    assert_eq!(tool.action, StepAction::CapabilityInvoke { capability_id: "tool/x".to_string(), input: "i".to_string() });
    let reply = step_for_decision(12, ModelDecision::Respond { content: "ok".to_string() }).unwrap();
    assert_eq!(reply.id, "react-12-response");
    assert_eq!(reply.title, "assistant response");
    assert_eq!(reply.action, StepAction::Message { role: "assistant".to_string(), content: "ok".to_string() });
    assert!(step_for_decision(1, ModelDecision::Finish).is_none());
}

#[test]
fn scripted_steps_follow_the_cursor() {
    let step = Step {
        id: "s1".to_string(),
        title: "t".to_string(),
        action: StepAction::Message { role: "user".to_string(), content: "c".to_string() },
    };
    let spec = RunSpec::new("r", "n", vec![step.clone()]);
    assert_eq!(scripted_step(&spec, 0), Some(step));
    assert_eq!(scripted_step(&spec, 1), None);
}
