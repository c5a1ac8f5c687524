use ioi_kernel::rules::Verdict;
use ioi_kernel::agent::{
    resume_call, step_call, action_target, gate_action, ActionGate, ActionTarget, block_action, charge_inference, decode_start_params, decode_step_params, encode_start_params, pause_for_approval,
    record_action_result, record_output, resume_session, select_runtime, start_session, step_gate, AgentState,
    AgentStatus, ApprovalToken, RuntimeChoice, StartAgentParams, StepGate,
};
use ioi_kernel::service::{RejectReason, TransactionError};

fn params(parent: Option<[u8; 32]>, budget: u64) -> StartAgentParams {
    StartAgentParams { session_id: [1u8; 32], goal: "book a flight".to_string(), max_steps: 10, parent_session_id: parent, initial_budget: budget }
}

fn running(budget: u64) -> AgentState {
    start_session(false, None, params(None, budget)).unwrap().session
}

#[test]
fn start_params_encoding_roundtrip() {
    let p = params(Some([7u8; 32]), 500);
    let b = encode_start_params(&p);
    let mut expected = vec![1u8; 32];
    expected.push(13 * 4);
    expected.extend_from_slice(b"book a flight");
    expected.extend_from_slice(&10u32.to_le_bytes());
    expected.push(1);
    expected.extend_from_slice(&[7u8; 32]);
    expected.extend_from_slice(&500u64.to_le_bytes());
    assert_eq!(b, expected);
    let q = decode_start_params(&b).unwrap();
    assert_eq!(q.goal, "book a flight");
    assert_eq!(q.parent_session_id, Some([7u8; 32]));
    assert_eq!(q.initial_budget, 500);
    assert_eq!(q.max_steps, 10);
    let none = encode_start_params(&params(None, 1));
    assert_eq!(decode_start_params(&none).unwrap().parent_session_id, None);
    assert!(decode_start_params(&b[..b.len() - 1]).is_none());
    let mut bad_tag = none.clone();
    let tag_at = none.len() - 9;
    bad_tag[tag_at] = 2;
    assert!(decode_start_params(&bad_tag).is_none());
    assert_eq!(decode_step_params(&[5u8; 32]).unwrap().session_id, [5u8; 32]);
    assert!(decode_step_params(&[5u8; 31]).is_none());
}

#[test]
fn start_with_parent_moves_budget() {
    let mut parent = running(1000);
    parent.session_id = [7u8; 32];
    let out = start_session(false, Some(parent), params(Some([7u8; 32]), 400)).unwrap();
    let p = out.parent.unwrap();
    assert_eq!(p.budget, 600);
    assert_eq!(p.child_session_ids, vec![[1u8; 32]]);
    assert_eq!(out.session.budget, 400);
    assert!(matches!(out.session.status, AgentStatus::Running));
    assert_eq!(out.session.parent_session_id, Some([7u8; 32]));
}

#[test]
fn start_refusals() {
    assert_eq!(start_session(true, None, params(None, 1)).err(), Some(TransactionError::Invalid(RejectReason::SessionExists)));
    assert_eq!(
        start_session(false, None, params(Some([7u8; 32]), 1)).err(),
        Some(TransactionError::Invalid(RejectReason::ParentNotFound))
    );
    assert_eq!(
        start_session(false, Some(running(10)), params(Some([7u8; 32]), 11)).err(),
        Some(TransactionError::Invalid(RejectReason::InsufficientParentBudget))
    );
}

#[test]
fn step_gating() {
    assert!(matches!(step_gate(running(5)), Ok(StepGate::Proceed)));
    match step_gate(running(0)) {
        Ok(StepGate::Halt(s)) => assert!(matches!(s.status, AgentStatus::Failed(ref r) if r == "Budget Exhausted (Pre-check)")),
        _ => panic!("expected a halt"),
    }
    let mut tired = running(5);
    tired.consecutive_failures = 3;
    match step_gate(tired) {
        Ok(StepGate::Halt(s)) => assert!(matches!(s.status, AgentStatus::Failed(ref r) if r == "Too many consecutive failures")),
        _ => panic!("expected a halt"),
    }
    let mut paused = running(5);
    paused.status = AgentStatus::Paused("x".to_string());
    assert_eq!(step_gate(paused).err(), Some(TransactionError::Invalid(RejectReason::AgentPaused)));
    let mut done = running(5);
    done.status = AgentStatus::Completed(None);
    assert_eq!(step_gate(done).err(), Some(TransactionError::Invalid(RejectReason::AgentNotRunning)));
}

#[test]
fn inference_charges() {
    let (s, go) = charge_inference(running(100), 40, 21);
    assert!(go);
    assert_eq!((s.budget, s.tokens_used), (85, 15));
    let (s, go) = charge_inference(running(10), 400, 0);
    assert!(!go);
    assert_eq!((s.budget, s.tokens_used), (0, 100));
    assert!(matches!(s.status, AgentStatus::Failed(ref r) if r == "Budget Exhausted during step"));
}

#[test]
fn runtime_choice() {
    let mut s = running(1);
    assert_eq!(select_runtime(&s), RuntimeChoice::Reasoning);
    s.step_count = 3;
    s.last_action_type = Some("gui__click".to_string());
    assert_eq!(select_runtime(&s), RuntimeChoice::Fast);
    s.last_action_type = Some("gui__type".to_string());
    assert_eq!(select_runtime(&s), RuntimeChoice::Fast);
    s.last_action_type = Some("sys__exec".to_string());
    assert_eq!(select_runtime(&s), RuntimeChoice::Reasoning);
    s.last_action_type = Some("gui__click".to_string());
    s.consecutive_failures = 1;
    assert_eq!(select_runtime(&s), RuntimeChoice::Reasoning);
}

#[test]
fn approval_round_trip() {
    let hash_hex = "ab".repeat(32);
    let paused = pause_for_approval(running(5), "sys__exec", "{\"name\":\"sys__exec\"}".to_string(), Some(&hash_hex));
    assert!(matches!(paused.status, AgentStatus::Paused(ref r) if r == "Waiting for User Approval"));
    assert_eq!(paused.pending_approval.as_ref().unwrap().request_hash, [0xab; 32]);
    assert_eq!(paused.pending_tool_call.as_deref(), Some("{\"name\":\"sys__exec\"}"));
    assert_eq!(
        paused.history.last().unwrap(),
        "System: Action 'sys__exec' halted by Agency Firewall. Requesting authorization."
    );
    let token = ApprovalToken { request_hash: [0xab; 32], approver_sig: vec![1, 2] };
    let resumed = resume_session(paused, Some(token)).unwrap();
    assert!(matches!(resumed.status, AgentStatus::Running));
    assert_eq!(resumed.pending_approval.as_ref().unwrap().approver_sig, vec![1, 2]);
    assert_eq!(resumed.pending_tool_call.as_deref(), Some("{\"name\":\"sys__exec\"}"));
    assert_eq!(resumed.history.last().unwrap(), "System: Authorization GRANTED. You may retry the action immediately.");
    assert_eq!(resume_session(resumed, None).err(), Some(TransactionError::Invalid(RejectReason::AgentNotPaused)));
    // A hash that is not 32 hex bytes leaves no placeholder approval.
    let p2 = pause_for_approval(running(5), "a", "c".to_string(), Some("zz"));
    assert!(p2.pending_approval.is_none());
    let r2 = resume_session(p2, None).unwrap();
    assert_eq!(r2.history.last().unwrap(), "System: Resumed by user/controller without specific approval.");
}

#[test]
fn outcomes_in_history() {
    let s = record_output(running(5), "{}");
    assert_eq!(s.history, vec!["Action: {}".to_string()]);
    let s = block_action(s, "sys__exec");
    assert_eq!(s.consecutive_failures, 1);
    assert_eq!(s.history[1], "System: Action 'sys__exec' was BLOCKED by security policy. Do not retry this exact action.");
    let mut s = s;
    s.pending_tool_call = Some("x".to_string());
    let s = record_action_result(s, false, Some("Tool Output: 1".to_string()));
    assert_eq!(s.history.len(), 3);
    assert!(s.pending_tool_call.is_some());
    let s = record_action_result(s, true, None);
    assert!(s.pending_tool_call.is_none());
    assert_eq!(s.history.len(), 3);
}

#[test]
fn action_targets_by_tool_name() {
    assert_eq!(action_target("filesystem__write_file"), ActionTarget::FsWrite);
    assert_eq!(action_target("filesystem__read_file"), ActionTarget::FsRead);
    assert_eq!(action_target("filesystem__list_allowed_directories"), ActionTarget::FsRead);
    assert_eq!(action_target("gui__click"), ActionTarget::GuiClick);
    assert_eq!(action_target("gui__type"), ActionTarget::GuiType);
    assert_eq!(action_target("browser__navigate"), ActionTarget::BrowserNavigate);
    assert_eq!(action_target("sys__exec"), ActionTarget::SysExec);
    assert_eq!(action_target("weather__lookup"), ActionTarget::Custom("weather__lookup".to_string()));
}

#[test]
fn gate_follows_the_verdict() {
    let h = [9u8; 32];
    assert_eq!(gate_action("sys__exec", Verdict::Block, h), ActionGate::Blocked);
    assert_eq!(gate_action("agent__complete", Verdict::Block, h), ActionGate::Blocked);
    assert_eq!(gate_action("sys__exec", Verdict::RequireApproval, h), ActionGate::PendingApproval(h));
    assert_eq!(gate_action("sys__exec", Verdict::Allow, h), ActionGate::Execute);
    assert_eq!(gate_action("agent__delegate", Verdict::Allow, h), ActionGate::Finished(None));
    assert_eq!(gate_action("agent__await_result", Verdict::Allow, h), ActionGate::Finished(None));
    assert_eq!(gate_action("agent__pause", Verdict::Allow, h), ActionGate::Finished(None));
    assert_eq!(gate_action("agent__complete", Verdict::Allow, h), ActionGate::Finished(None));
    assert_eq!(
        gate_action("commerce__checkout", Verdict::Allow, h),
        ActionGate::Finished(Some("System: Initiated UCP Checkout (Pending Guardian Approval)".to_string()))
    );
}

#[test]
fn calls_on_a_missing_session_are_refused() {
    assert_eq!(resume_call(None, None).err(), Some(TransactionError::Invalid(RejectReason::SessionNotFound)));
    assert!(matches!(step_call(None), Err(TransactionError::Invalid(RejectReason::SessionNotFound))));
}
