use ioi_kernel::intent::{extract_json, plan_action, IntentAction, IntentError, IntentPlan};

#[test]
fn finds_the_first_object() {
    let raw = "Sure! Here is the plan:\n{\"operation_id\": \"transfer\", \"params\": {\"to\": \"0x1\"}}\nThanks.";
    assert_eq!(extract_json(raw).as_deref(), Some("{\"operation_id\": \"transfer\", \"params\": {\"to\": \"0x1\"}}"));
}

#[test]
fn braces_in_strings_and_escapes() {
    let raw = r#"x {"a": "}{", "b": "say \"}\""} tail {"c":1}"#;
    assert_eq!(extract_json(raw).as_deref(), Some(r#"{"a": "}{", "b": "say \"}\""}"#));
}

#[test]
fn unicode_around_the_object() {
    let raw = "héllo → {\"k\": \"ü\"} ✓";
    assert_eq!(extract_json(raw).as_deref(), Some("{\"k\": \"ü\"}"));
}

#[test]
fn no_object() {
    assert_eq!(extract_json("no braces here"), None);
    assert_eq!(extract_json("{\"unclosed\": {\"x\": 1}"), None);
    assert_eq!(extract_json("} {"), None);
    assert_eq!(extract_json("{}"), Some("{}".to_string()));
}

fn plan(op: &str, to: Option<&str>, amount: Option<u64>, goal: Option<&str>) -> IntentPlan {
    IntentPlan {
        operation_id: op.to_string(),
        to: to.map(|s| s.to_string()),
        amount,
        goal: goal.map(|s| s.to_string()),
        gas_ceiling: 0,
    }
}

#[test]
fn plan_transfer_decodes_the_address() {
    let addr = format!("0x{}", "ab".repeat(32));
    let r = plan_action(&plan("transfer", Some(&addr), Some(500), None), [0u8; 32]);
    match r {
        Ok(IntentAction::Transfer { to, amount }) => {
            assert_eq!(to, [0xabu8; 32]);
            assert_eq!(amount, 500);
        }
        _ => panic!("expected a transfer"),
    }
}

#[test]
fn plan_transfer_strips_repeated_0x_prefixes() {
    let addr = format!("0x0x{}", "01".repeat(32));
    let r = plan_action(&plan("transfer", Some(&addr), Some(1), None), [0u8; 32]);
    assert!(matches!(r, Ok(IntentAction::Transfer { to, amount: 1 }) if to == [1u8; 32]));
}

#[test]
fn plan_transfer_errors() {
    let good = "00".repeat(32);
    assert_eq!(plan_action(&plan("transfer", None, Some(1), None), [0u8; 32]).err(), Some(IntentError::MissingTo));
    assert_eq!(plan_action(&plan("transfer", Some(&good), None, None), [0u8; 32]).err(), Some(IntentError::MissingAmount));
    assert_eq!(plan_action(&plan("transfer", None, None, None), [0u8; 32]).err(), Some(IntentError::MissingTo));
    assert_eq!(plan_action(&plan("transfer", Some("0xzz"), Some(1), None), [0u8; 32]).err(), Some(IntentError::InvalidHex));
    assert_eq!(plan_action(&plan("transfer", Some("abc"), Some(1), None), [0u8; 32]).err(), Some(IntentError::InvalidHex));
    assert_eq!(plan_action(&plan("transfer", Some("0xabcd"), Some(1), None), [0u8; 32]).err(), Some(IntentError::InvalidAddressLength));
}

#[test]
fn plan_start_agent_uses_the_goal_or_a_default() {
    let r = plan_action(&plan("start_agent", None, None, Some("book a flight")), [7u8; 32]);
    match r {
        Ok(IntentAction::StartAgent(p)) => {
            assert_eq!(p.session_id, [7u8; 32]);
            assert_eq!(p.goal, "book a flight");
            assert_eq!(p.max_steps, 10);
            assert_eq!(p.parent_session_id, None);
            assert_eq!(p.initial_budget, 10_000_000);
        }
        _ => panic!("expected a start"),
    }
    match plan_action(&plan("start_agent", None, None, None), [7u8; 32]) {
        Ok(IntentAction::StartAgent(p)) => assert_eq!(p.goal, "Unknown goal"),
        _ => panic!("expected a start"),
    }
}

#[test]
fn plan_unknown_operation_is_refused() {
    assert_eq!(plan_action(&plan("governance_vote", None, None, None), [0u8; 32]).err(), Some(IntentError::UnknownOperation));
    assert_eq!(plan_action(&plan("Transfer", None, None, None), [0u8; 32]).err(), Some(IntentError::UnknownOperation));
}
