//! The desktop agent's session state machine: sessions are started (possibly
//! funded from a parent's budget), stepped while running and within budget,
//! paused for approval and resumed. The decisions are made here over typed
//! session records; capturing the screen, running inference and executing
//! tools stay with the caller, which hands back what they produced.

use vstd::prelude::*;
use vstd::bytes::*;
use vstd::utf8::encode_utf8;
use crate::bytes::{append_bytes, read_array};
use vstd::string::{StringExecFns, StringSliceAdditionalSpecFns};
use crate::rules::Verdict;
use crate::service::method_is;
use crate::codec::{hex_decode, lemma_scale_str_unique, push_scale_str, read_scale_string, spec_hex_decode, spec_scale_str};
use crate::service::{RejectReason, TransactionError};

verus! {

/// The call parameters of `start@v1`.
#[derive(Debug, Clone)]
pub struct StartAgentParams {
    pub session_id: [u8; 32],
    pub goal: String,
    pub max_steps: u32,
    pub parent_session_id: Option<[u8; 32]>,
    pub initial_budget: u64,
}

/// The call parameters of `step@v1`.
#[derive(Debug, Clone, Copy)]
pub struct StepAgentParams {
    pub session_id: [u8; 32],
}

/// The canonical encoding of an optional session id: `0`, or `1` and the id.
pub open spec fn spec_option_id_bytes(o: Option<[u8; 32]>) -> Seq<u8> {
    match o {
        None => seq![0u8],
        Some(id) => seq![1u8] + id@,
    }
}

/// Whether a goal fits the encoding's `u32` length.
pub open spec fn spec_goal_fits(goal: Seq<char>) -> bool {
    encode_utf8(goal).len() <= u32::MAX
}

/// The canonical encoding of start parameters: the session id, the goal as a
/// length-prefixed string, the step limit, the optional parent and the budget,
/// integers little-endian.
pub open spec fn spec_start_params_bytes(p: StartAgentParams) -> Seq<u8> {
    p.session_id@ + spec_scale_str(p.goal@) + spec_u32_to_le_bytes(p.max_steps)
        + spec_option_id_bytes(p.parent_session_id) + spec_u64_to_le_bytes(p.initial_budget)
}

/// Encodes start parameters.
pub fn encode_start_params(p: &StartAgentParams) -> (b: Vec<u8>)
    requires
        spec_goal_fits(p.goal@),
    ensures
        b@ == spec_start_params_bytes(*p),
{
    let mut out: Vec<u8> = Vec::new();
    append_bytes(&mut out, p.session_id.as_slice());
    push_scale_str(&mut out, p.goal.as_str());
    let m = u32_to_le_bytes(p.max_steps);
    append_bytes(&mut out, m.as_slice());
    match &p.parent_session_id {
        None => out.push(0u8),
        Some(id) => {
            out.push(1u8);
            append_bytes(&mut out, id.as_slice());
        }
    }
    let bud = u64_to_le_bytes(p.initial_budget);
    append_bytes(&mut out, bud.as_slice());
    assert(out@ =~= spec_start_params_bytes(*p));
    out
}

/// The parts that follow the goal in an encoding of start parameters.
spec fn spec_start_tail(p: StartAgentParams) -> Seq<u8> {
    spec_u32_to_le_bytes(p.max_steps) + spec_option_id_bytes(p.parent_session_id) + spec_u64_to_le_bytes(p.initial_budget)
}

proof fn lemma_start_split(p: StartAgentParams)
    ensures
        spec_start_params_bytes(p) == p.session_id@ + (spec_scale_str(p.goal@) + spec_start_tail(p)),
        spec_start_params_bytes(p).subrange(32, spec_start_params_bytes(p).len() as int)
            == spec_scale_str(p.goal@) + spec_start_tail(p),
        spec_start_params_bytes(p).subrange(0, 32) == p.session_id@,
{
    assert(spec_start_params_bytes(p) =~= p.session_id@ + (spec_scale_str(p.goal@) + spec_start_tail(p)));
    assert(spec_start_params_bytes(p).subrange(32, spec_start_params_bytes(p).len() as int)
        =~= spec_scale_str(p.goal@) + spec_start_tail(p));
    assert(spec_start_params_bytes(p).subrange(0, 32) =~= p.session_id@);
}

/// Decodes start parameters; succeeds exactly on the encoding of some parameters.
pub fn decode_start_params(b: &[u8]) -> (r: Option<StartAgentParams>)
    ensures
        match r {
            Some(p) => spec_goal_fits(p.goal@) && spec_start_params_bytes(p) == b@,
            None => forall|p: StartAgentParams|
                spec_goal_fits(p.goal@) ==> #[trigger] spec_start_params_bytes(p) != b@,
        },
{
    proof {
        lemma_auto_spec_u32_to_from_le_bytes();
        lemma_auto_spec_u64_to_from_le_bytes();
    }
    if b.len() < 32 {
        assert forall|p: StartAgentParams| spec_goal_fits(p.goal@) implies #[trigger] spec_start_params_bytes(p) != b@ by {
            lemma_start_split(p);
        }
        return None;
    }
    let session_id: [u8; 32] = read_array(b, 0);
    let tail = vstd::slice::slice_subrange(b, 32, b.len());
    let (goal, rest) = match read_scale_string(tail) {
        Some(x) => x,
        None => {
            assert forall|p: StartAgentParams| spec_goal_fits(p.goal@) implies #[trigger] spec_start_params_bytes(p) != b@ by {
                lemma_start_split(p);
                if spec_start_params_bytes(p) == b@ {
                    assert(tail@ == spec_scale_str(p.goal@) + spec_start_tail(p));
                }
            }
            return None;
        }
    };
    // Every encoding that could match agrees with what was read so far.
    assert forall|p: StartAgentParams| spec_goal_fits(p.goal@) && #[trigger] spec_start_params_bytes(p) == b@
        implies p.goal@ == goal@ && rest@ == spec_start_tail(p) && p.session_id@ == session_id@ by {
        lemma_start_split(p);
        assert(tail@ == spec_scale_str(p.goal@) + spec_start_tail(p));
        lemma_scale_str_unique(goal@, p.goal@, rest@, spec_start_tail(p));
    }
    if rest.len() < 13 {
        assert forall|p: StartAgentParams| spec_goal_fits(p.goal@) implies #[trigger] spec_start_params_bytes(p) != b@ by {
            if spec_start_params_bytes(p) == b@ {
                assert(spec_start_tail(p).len() >= 13);
            }
        }
        return None;
    }
    let max_steps = u32_from_le_bytes(vstd::slice::slice_subrange(rest, 0, 4));
    let tag = rest[4];
    let (parent, after): (Option<[u8; 32]>, usize) = if tag == 0 {
        (None, 5)
    } else if tag == 1 && rest.len() >= 41 {
        (Some(read_array(rest, 5)), 37)
    } else {
        assert forall|p: StartAgentParams| spec_goal_fits(p.goal@) implies #[trigger] spec_start_params_bytes(p) != b@ by {
            if spec_start_params_bytes(p) == b@ {
                let t = spec_start_tail(p);
                assert(t[4] == spec_option_id_bytes(p.parent_session_id)[0]);
            }
        }
        return None;
    };
    if rest.len() != after + 8 {
        assert forall|p: StartAgentParams| spec_goal_fits(p.goal@) implies #[trigger] spec_start_params_bytes(p) != b@ by {
            if spec_start_params_bytes(p) == b@ {
                let t = spec_start_tail(p);
                assert(t[4] == spec_option_id_bytes(p.parent_session_id)[0]);
            }
        }
        return None;
    }
    let initial_budget = u64_from_le_bytes(vstd::slice::slice_subrange(rest, after, after + 8));
    let p = StartAgentParams { session_id, goal, max_steps, parent_session_id: parent, initial_budget };
    proof {
        let m = rest@.subrange(0, 4);
        let o = rest@.subrange(4, after as int);
        let u = rest@.subrange(after as int, after + 8);
        assert(spec_u32_to_le_bytes(max_steps) == m);
        assert(spec_u64_to_le_bytes(initial_budget) == u);
        assert(spec_option_id_bytes(parent) =~= o);
        assert(rest@ =~= m + o + u);
        assert(tail@ =~= b@.subrange(32, b@.len() as int));
        assert(b@ =~= session_id@ + tail@);
        assert(spec_start_params_bytes(p) =~= b@);
    }
    Some(p)
}

/// Decodes step parameters: exactly a 32-byte session id.
pub fn decode_step_params(b: &[u8]) -> (r: Option<StepAgentParams>)
    ensures
        match r {
            Some(p) => p.session_id@ == b@,
            None => b@.len() != 32,
        },
{
    if b.len() != 32 {
        return None;
    }
    let session_id: [u8; 32] = read_array(b, 0);
    assert(session_id@ =~= b@);
    Some(StepAgentParams { session_id })
}

/// Decoding gives back what was encoded.
pub proof fn lemma_start_params_roundtrip(p: StartAgentParams, q: StartAgentParams)
    requires
        spec_goal_fits(p.goal@),
        spec_goal_fits(q.goal@),
        spec_start_params_bytes(p) == spec_start_params_bytes(q),
    ensures
        p.session_id@ == q.session_id@,
        p.goal@ == q.goal@,
        p.max_steps == q.max_steps,
        p.parent_session_id == q.parent_session_id,
        p.initial_budget == q.initial_budget,
{
    lemma_start_split(p);
    lemma_start_split(q);
    lemma_scale_str_unique(p.goal@, q.goal@, spec_start_tail(p), spec_start_tail(q));
    lemma_auto_spec_u32_to_from_le_bytes();
    lemma_auto_spec_u64_to_from_le_bytes();
    let tp = spec_start_tail(p);
    let tq = spec_start_tail(q);
    assert(tp.subrange(0, 4) =~= spec_u32_to_le_bytes(p.max_steps));
    assert(tq.subrange(0, 4) =~= spec_u32_to_le_bytes(q.max_steps));
    assert(tp[4] == spec_option_id_bytes(p.parent_session_id)[0]);
    assert(tq[4] == spec_option_id_bytes(q.parent_session_id)[0]);
    let n = spec_option_id_bytes(p.parent_session_id).len() as int;
    assert(tp.subrange(4, 4 + n) =~= spec_option_id_bytes(p.parent_session_id));
    assert(tq.subrange(4, 4 + n) =~= spec_option_id_bytes(q.parent_session_id));
    assert(tp.subrange(4 + n, tp.len() as int) =~= spec_u64_to_le_bytes(p.initial_budget));
    assert(tq.subrange(4 + n, tq.len() as int) =~= spec_u64_to_le_bytes(q.initial_budget));
    match p.parent_session_id {
        Some(a) => {
            match q.parent_session_id {
                Some(c) => {
                    assert(a@ =~= tp.subrange(5, 37));
                    assert(c@ =~= tq.subrange(5, 37));
                    assert(a == c);
                }
                None => {}
            }
        }
        None => {}
    }
    assert(p.session_id@ =~= spec_start_params_bytes(p).subrange(0, 32));
}

/// An approval of a gated request, by the hash of that request.
#[derive(Debug, Clone)]
pub struct ApprovalToken {
    pub request_hash: [u8; 32],
    pub approver_sig: Vec<u8>,
}

/// The lifecycle status of a session.
#[derive(Debug, Clone)]
pub enum AgentStatus {
    Idle,
    Running,
    Completed(Option<String>),
    Failed(String),
    Paused(String),
}

/// The persisted state of an agent session.
#[derive(Debug, Clone)]
pub struct AgentState {
    pub session_id: [u8; 32],
    pub goal: String,
    pub history: Vec<String>,
    pub status: AgentStatus,
    pub step_count: u32,
    pub max_steps: u32,
    pub last_action_type: Option<String>,
    pub parent_session_id: Option<[u8; 32]>,
    pub child_session_ids: Vec<[u8; 32]>,
    pub budget: u64,
    pub tokens_used: u64,
    pub consecutive_failures: u8,
    /// The approval granted for the pending request, if any.
    pub pending_approval: Option<ApprovalToken>,
    /// The raw tool call waiting for approval, retried as is on resumption.
    pub pending_tool_call: Option<String>,
}

/// A status as mathematical values.
pub enum StatusView {
    Idle,
    Running,
    Completed(Option<Seq<char>>),
    Failed(Seq<char>),
    Paused(Seq<char>),
}

/// An approval token as mathematical values.
pub struct ApprovalView {
    pub request_hash: Seq<u8>,
    pub approver_sig: Seq<u8>,
}

/// A session state as mathematical values.
pub struct AgentView {
    pub session_id: Seq<u8>,
    pub goal: Seq<char>,
    pub history: Seq<Seq<char>>,
    pub status: StatusView,
    pub step_count: u32,
    pub max_steps: u32,
    pub last_action_type: Option<Seq<char>>,
    pub parent_session_id: Option<Seq<u8>>,
    pub child_session_ids: Seq<Seq<u8>>,
    pub budget: u64,
    pub tokens_used: u64,
    pub consecutive_failures: u8,
    pub pending_approval: Option<ApprovalView>,
    pub pending_tool_call: Option<Seq<char>>,
}

impl AgentStatus {
    pub open spec fn view(&self) -> StatusView {
        match self {
            AgentStatus::Idle => StatusView::Idle,
            AgentStatus::Running => StatusView::Running,
            AgentStatus::Completed(r) => StatusView::Completed(match r { Some(x) => Some(x@), None => None }),
            AgentStatus::Failed(r) => StatusView::Failed(r@),
            AgentStatus::Paused(r) => StatusView::Paused(r@),
        }
    }
}

impl ApprovalToken {
    pub open spec fn view(&self) -> ApprovalView {
        ApprovalView { request_hash: self.request_hash@, approver_sig: self.approver_sig@ }
    }
}

/// An optional string as a sequence of characters.
pub open spec fn opt_str_view(o: Option<String>) -> Option<Seq<char>> {
    match o { Some(x) => Some(x@), None => None }
}

impl AgentState {
    pub open spec fn view(&self) -> AgentView {
        AgentView {
            session_id: self.session_id@,
            goal: self.goal@,
            history: self.history@.map_values(|h: String| h@),
            status: self.status.view(),
            step_count: self.step_count,
            max_steps: self.max_steps,
            last_action_type: opt_str_view(self.last_action_type),
            parent_session_id: match self.parent_session_id { Some(x) => Some(x@), None => None },
            child_session_ids: self.child_session_ids@.map_values(|c: [u8; 32]| c@),
            budget: self.budget,
            tokens_used: self.tokens_used,
            consecutive_failures: self.consecutive_failures,
            pending_approval: match self.pending_approval { Some(t) => Some(t.view()), None => None },
            pending_tool_call: opt_str_view(self.pending_tool_call),
        }
    }
}

/// The state a started session begins in: running, with the goal, limits and
/// budget it was started with and an empty history.
pub open spec fn spec_new_session(p: StartAgentParams) -> AgentView {
    AgentView {
        session_id: p.session_id@,
        goal: p.goal@,
        history: Seq::empty(),
        status: StatusView::Running,
        step_count: 0,
        max_steps: p.max_steps,
        last_action_type: None,
        parent_session_id: match p.parent_session_id { Some(x) => Some(x@), None => None },
        child_session_ids: Seq::empty(),
        budget: p.initial_budget,
        tokens_used: 0,
        consecutive_failures: 0,
        pending_approval: None,
        pending_tool_call: None,
    }
}

/// What a successful start writes: the new session, and the parent session
/// after funding it, when there is a parent.
pub struct StartOutcome {
    pub session: AgentState,
    pub parent: Option<AgentState>,
}

/// The outcome of starting a session. `exists` says whether the session id is
/// taken; `parent` is the stored parent session, when one is named and found.
/// A named parent must exist and hold the initial budget, which moves from it
/// to the new session, whose id joins the parent's children.
pub open spec fn spec_start_result(exists: bool, parent: Option<AgentView>, p: StartAgentParams)
    -> Result<(AgentView, Option<AgentView>), TransactionError>
{
    if exists {
        Err(TransactionError::Invalid(RejectReason::SessionExists))
    } else {
        match p.parent_session_id {
            None => Ok((spec_new_session(p), None)),
            Some(_) => match parent {
                None => Err(TransactionError::Invalid(RejectReason::ParentNotFound)),
                Some(par) => if par.budget < p.initial_budget {
                    Err(TransactionError::Invalid(RejectReason::InsufficientParentBudget))
                } else {
                    Ok((spec_new_session(p), Some(AgentView {
                        budget: (par.budget - p.initial_budget) as u64,
                        child_session_ids: par.child_session_ids.push(p.session_id@),
                        ..par
                    })))
                },
            },
        }
    }
}

/// Starts a session (`start@v1`).
pub fn start_session(exists: bool, parent: Option<AgentState>, p: StartAgentParams) -> (r: Result<StartOutcome, TransactionError>)
    ensures
        match (r, spec_start_result(exists, match parent { Some(x) => Some(x.view()), None => None }, p)) {
            (Ok(o), Ok((s, q))) => o.session.view() == s && match (o.parent, q) {
                (Some(a), Some(b)) => a.view() == b,
                (None, None) => true,
                _ => false,
            },
            (Err(e), Err(f)) => e == f,
            _ => false,
        },
{
    if exists {
        return Err(TransactionError::Invalid(RejectReason::SessionExists));
    }
    let has_parent = p.parent_session_id.is_some();
    let session_id = p.session_id;
    let initial_budget = p.initial_budget;
    let new_parent = if has_parent {
        match parent {
            None => return Err(TransactionError::Invalid(RejectReason::ParentNotFound)),
            Some(mut par) => {
                if par.budget < initial_budget {
                    return Err(TransactionError::Invalid(RejectReason::InsufficientParentBudget));
                }
                let ghost before = par.view();
                par.budget = par.budget - initial_budget;
                par.child_session_ids.push(session_id);
                proof {
                    assert(par.view().child_session_ids =~= before.child_session_ids.push(session_id@));
                    assert(par.view().history =~= before.history);
                }
                Some(par)
            },
        }
    } else {
        None
    };
    let session = AgentState {
        session_id: p.session_id,
        goal: p.goal,
        history: Vec::new(),
        status: AgentStatus::Running,
        step_count: 0,
        max_steps: p.max_steps,
        last_action_type: None,
        parent_session_id: p.parent_session_id,
        child_session_ids: Vec::new(),
        budget: p.initial_budget,
        tokens_used: 0,
        consecutive_failures: 0,
        pending_approval: None,
        pending_tool_call: None,
    };
    proof {
        assert(session.view().history =~= Seq::<Seq<char>>::empty());
        assert(session.view().child_session_ids =~= Seq::<Seq<u8>>::empty());
    }
    Ok(StartOutcome { session, parent: new_parent })
}

/// The history line a resumption with an approval adds.
pub open spec fn spec_granted_line() -> Seq<char> {
    "System: Authorization GRANTED. You may retry the action immediately."@
}

/// The history line a resumption without an approval adds.
pub open spec fn spec_resumed_line() -> Seq<char> {
    "System: Resumed by user/controller without specific approval."@
}

/// The outcome of resuming a session (`resume@v1`): only a paused session
/// resumes; it runs again with its failure count reset, keeps the approval it
/// was given, if any, and notes the resumption in its history.
pub open spec fn spec_resume(st: AgentView, token: Option<ApprovalView>) -> Result<AgentView, TransactionError> {
    match st.status {
        StatusView::Paused(_) => Ok(AgentView {
            status: StatusView::Running,
            pending_approval: match token { Some(t) => Some(t), None => st.pending_approval },
            history: st.history.push(match token { Some(_) => spec_granted_line(), None => spec_resumed_line() }),
            consecutive_failures: 0,
            ..st
        }),
        _ => Err(TransactionError::Invalid(RejectReason::AgentNotPaused)),
    }
}

/// Resumes a paused session, with the approval the controller gave, if any.
pub fn resume_session(st: AgentState, token: Option<ApprovalToken>) -> (r: Result<AgentState, TransactionError>)
    ensures
        match (r, spec_resume(st.view(), match token { Some(t) => Some(t.view()), None => None })) {
            (Ok(a), Ok(b)) => a.view() == b,
            (Err(e), Err(f)) => e == f,
            _ => false,
        },
{
    let mut st = st;
    match st.status {
        AgentStatus::Paused(_) => {}
        _ => return Err(TransactionError::Invalid(RejectReason::AgentNotPaused)),
    }
    let ghost before = st.view();
    st.status = AgentStatus::Running;
    match token {
        Some(t) => {
            st.pending_approval = Some(t);
            st.history.push(String::from_str("System: Authorization GRANTED. You may retry the action immediately."));
        }
        None => {
            st.history.push(String::from_str("System: Resumed by user/controller without specific approval."));
        }
    }
    st.consecutive_failures = 0;
    proof {
        assert(st.view().history =~= before.history.push(
            match token { Some(_) => spec_granted_line(), None => spec_resumed_line() }));
    }
    Ok(st)
}

/// The `resume@v1` call on what is stored under the session's key: a missing
/// session is refused as not found; a stored one resumes as
/// [`resume_session`] says.
pub fn resume_call(stored: Option<AgentState>, token: Option<ApprovalToken>) -> (r: Result<AgentState, TransactionError>)
    ensures
        stored is None ==> r == Err::<AgentState, TransactionError>(TransactionError::Invalid(RejectReason::SessionNotFound)),
        stored matches Some(st) ==> match (r, spec_resume(st.view(), match token { Some(t) => Some(t.view()), None => None })) {
            (Ok(a), Ok(b)) => a.view() == b,
            (Err(e), Err(f)) => e == f,
            _ => false,
        },
{
    match stored {
        None => Err(TransactionError::Invalid(RejectReason::SessionNotFound)),
        Some(st) => resume_session(st, token),
    }
}

/// The checks of a `step@v1` call on what is stored under the session's key:
/// a missing session is refused as not found; a stored one is checked as
/// [`step_gate`] says.
pub fn step_call(stored: Option<AgentState>) -> (r: Result<StepGate, TransactionError>)
    ensures
        stored is None ==> (r matches Err(e) && e == TransactionError::Invalid(RejectReason::SessionNotFound)),
        stored matches Some(st) ==> match (r, spec_step_gate(st.view())) {
            (Ok(StepGate::Proceed), Ok(None)) => true,
            (Ok(StepGate::Halt(a)), Ok(Some(b))) => a.view() == b,
            (Err(e), Err(f)) => e == f,
            _ => false,
        },
{
    match stored {
        None => Err(TransactionError::Invalid(RejectReason::SessionNotFound)),
        Some(st) => step_gate(st),
    }
}

/// What a step does after its checks: go on, or stop with the state to persist.
pub enum StepGate {
    Proceed,
    Halt(AgentState),
}

/// The outcome of the checks at the start of a step (`step@v1`): a paused or
/// otherwise not running session is refused; a session without budget, or
/// with three consecutive failures, fails and stops; else the step proceeds.
pub open spec fn spec_step_gate(st: AgentView) -> Result<Option<AgentView>, TransactionError> {
    match st.status {
        StatusView::Running => if st.budget == 0 {
            Ok(Some(AgentView { status: StatusView::Failed("Budget Exhausted (Pre-check)"@), ..st }))
        } else if st.consecutive_failures >= 3 {
            Ok(Some(AgentView { status: StatusView::Failed("Too many consecutive failures"@), ..st }))
        } else {
            Ok(None)
        },
        StatusView::Paused(_) => Err(TransactionError::Invalid(RejectReason::AgentPaused)),
        _ => Err(TransactionError::Invalid(RejectReason::AgentNotRunning)),
    }
}

/// Checks whether a session may take a step.
pub fn step_gate(st: AgentState) -> (r: Result<StepGate, TransactionError>)
    ensures
        match (r, spec_step_gate(st.view())) {
            (Ok(StepGate::Proceed), Ok(None)) => true,
            (Ok(StepGate::Halt(a)), Ok(Some(b))) => a.view() == b,
            (Err(e), Err(f)) => e == f,
            _ => false,
        },
{
    let mut st = st;
    match st.status {
        AgentStatus::Running => {}
        AgentStatus::Paused(_) => return Err(TransactionError::Invalid(RejectReason::AgentPaused)),
        _ => return Err(TransactionError::Invalid(RejectReason::AgentNotRunning)),
    }
    if st.budget == 0 {
        st.status = AgentStatus::Failed(String::from_str("Budget Exhausted (Pre-check)"));
        return Ok(StepGate::Halt(st));
    }
    if st.consecutive_failures >= 3 {
        st.status = AgentStatus::Failed(String::from_str("Too many consecutive failures"));
        return Ok(StepGate::Halt(st));
    }
    Ok(StepGate::Proceed)
}

/// The token cost of an inference: a quarter of the prompt's and of the
/// output's byte lengths, each rounded down.
pub open spec fn spec_inference_cost(prompt_len: u64, output_len: u64) -> int {
    prompt_len / 4 + output_len / 4
}

/// The state after paying for an inference: the tokens are counted; the cost
/// comes out of the budget, or, where the budget does not cover it, the budget
/// is emptied and the session fails. The flag says whether the step goes on.
pub open spec fn spec_charge(st: AgentView, prompt_len: u64, output_len: u64) -> (AgentView, bool) {
    let cost = spec_inference_cost(prompt_len, output_len);
    let counted = AgentView { tokens_used: (st.tokens_used + cost) as u64, ..st };
    if st.budget >= cost {
        (AgentView { budget: (st.budget - cost) as u64, ..counted }, true)
    } else {
        (AgentView { budget: 0, status: StatusView::Failed("Budget Exhausted during step"@), ..counted }, false)
    }
}

/// Charges a session for an inference whose prompt and output had the given byte lengths.
pub fn charge_inference(st: AgentState, prompt_len: u64, output_len: u64) -> (r: (AgentState, bool))
    requires
        st.tokens_used + spec_inference_cost(prompt_len, output_len) <= u64::MAX,
    ensures
        (r.0.view(), r.1) == spec_charge(st.view(), prompt_len, output_len),
{
    let mut st = st;
    let cost = prompt_len / 4 + output_len / 4;
    st.tokens_used = st.tokens_used + cost;
    if st.budget >= cost {
        st.budget = st.budget - cost;
        (st, true)
    } else {
        st.budget = 0;
        st.status = AgentStatus::Failed(String::from_str("Budget Exhausted during step"));
        (st, false)
    }
}

/// Which inference runtime a step uses.
#[derive(Debug, Clone, Copy, PartialEq, Eq, Structural)]
pub enum RuntimeChoice {
    /// The slower, stronger model.
    Reasoning,
    /// The fast model, for quick follow-ups of GUI actions.
    Fast,
}

/// The runtime for the next step: the fast one only right after a click or a
/// typing action that did not fail, and not on the first step.
pub open spec fn spec_select_runtime(st: AgentView) -> RuntimeChoice {
    if st.consecutive_failures > 0 || st.step_count == 0 {
        RuntimeChoice::Reasoning
    } else if st.last_action_type == Some("gui__click"@) || st.last_action_type == Some("gui__type"@) {
        RuntimeChoice::Fast
    } else {
        RuntimeChoice::Reasoning
    }
}

pub(crate) fn str_is(s: &str, lit: &str) -> (r: bool)
    ensures
        r == (s@ == lit@),
{
    proof {
        vstd::utf8::encode_utf8_decode_utf8(s@);
        vstd::utf8::encode_utf8_decode_utf8(lit@);
    }
    crate::bytes::bytes_eq(s.as_bytes(), lit.as_bytes())
}

/// Chooses the inference runtime for the next step.
pub fn select_runtime(st: &AgentState) -> (r: RuntimeChoice)
    ensures
        r == spec_select_runtime(st.view()),
{
    if st.consecutive_failures > 0 || st.step_count == 0 {
        return RuntimeChoice::Reasoning;
    }
    match &st.last_action_type {
        Some(a) => {
            if str_is(a.as_str(), "gui__click") || str_is(a.as_str(), "gui__type") {
                RuntimeChoice::Fast
            } else {
                RuntimeChoice::Reasoning
            }
        }
        None => RuntimeChoice::Reasoning,
    }
}

/// The request hash carried by a pending-approval refusal, where its hex text
/// denotes exactly 32 bytes.
pub open spec fn spec_approval_hash(hex: Option<Seq<char>>) -> Option<Seq<u8>> {
    match hex {
        Some(h) => match spec_hex_decode(encode_utf8(h)) {
            Some(v) => if v.len() == 32 { Some(v) } else { None },
            None => None,
        },
        None => None,
    }
}

/// The history line for an action halted pending authorization.
pub open spec fn spec_halted_line(action: Seq<char>) -> Seq<char> {
    "System: Action '"@ + action + "' halted by Agency Firewall. Requesting authorization."@
}

/// The state after the firewall asked for approval of an action: paused, with
/// the raw tool call kept for an exact retry, a placeholder approval for the
/// request hash when one was given, and a note in the history.
pub open spec fn spec_pause(st: AgentView, action: Seq<char>, tool_call: Seq<char>, hex: Option<Seq<char>>) -> AgentView {
    AgentView {
        status: StatusView::Paused("Waiting for User Approval"@),
        pending_approval: match spec_approval_hash(hex) {
            Some(h) => Some(ApprovalView { request_hash: h, approver_sig: Seq::empty() }),
            None => st.pending_approval,
        },
        pending_tool_call: Some(tool_call),
        history: st.history.push(spec_halted_line(action)),
        ..st
    }
}

/// Pauses a session whose action the firewall sent for approval.
pub fn pause_for_approval(st: AgentState, action: &str, tool_call: String, request_hash_hex: Option<&str>) -> (r: AgentState)
    ensures
        r.view() == spec_pause(st.view(), action@, tool_call@, match request_hash_hex { Some(h) => Some(h@), None => None }),
{
    let mut st = st;
    let ghost before = st.view();
    st.status = AgentStatus::Paused(String::from_str("Waiting for User Approval"));
    match request_hash_hex {
        Some(h) => {
            match hex_decode(h.as_bytes()) {
                Some(v) => {
                    if v.len() == 32 {
                        let hash: [u8; 32] = read_array(v.as_slice(), 0);
                        assert(hash@ =~= v@);
                        st.pending_approval = Some(ApprovalToken { request_hash: hash, approver_sig: Vec::new() });
                    }
                }
                None => {}
            }
        }
        None => {}
    }
    st.pending_tool_call = Some(tool_call);
    let mut line = String::from_str("System: Action '");
    line.append(action);
    line.append("' halted by Agency Firewall. Requesting authorization.");
    st.history.push(line);
    proof {
        assert(st.view().history =~= before.history.push(spec_halted_line(action@)));
    }
    st
}

/// The history line for an action the policy blocked.
pub open spec fn spec_blocked_line(action: Seq<char>) -> Seq<char> {
    "System: Action '"@ + action + "' was BLOCKED by security policy. Do not retry this exact action."@
}

/// Records that the policy blocked an action: a note in the history and one
/// more consecutive failure.
pub fn block_action(st: AgentState, action: &str) -> (r: AgentState)
    requires
        st.consecutive_failures < u8::MAX,
    ensures
        r.view() == (AgentView {
            history: st.view().history.push(spec_blocked_line(action@)),
            consecutive_failures: (st.consecutive_failures + 1) as u8,
            ..st.view()
        }),
{
    let mut st = st;
    let ghost before = st.view();
    let mut line = String::from_str("System: Action '");
    line.append(action);
    line.append("' was BLOCKED by security policy. Do not retry this exact action.");
    st.history.push(line);
    st.consecutive_failures = st.consecutive_failures + 1;
    proof {
        assert(st.view().history =~= before.history.push(spec_blocked_line(action@)));
    }
    st
}

/// Records what an executed action reported: its history entry, if any, and,
/// when it succeeded, the end of any pending approval and stored tool call.
pub fn record_action_result(st: AgentState, success: bool, entry: Option<String>) -> (r: AgentState)
    ensures
        r.view() == (AgentView {
            history: match entry { Some(e) => st.view().history.push(e@), None => st.view().history },
            pending_approval: if success { None } else { st.view().pending_approval },
            pending_tool_call: if success { None } else { st.view().pending_tool_call },
            ..st.view()
        }),
{
    let mut st = st;
    let ghost before = st.view();
    match entry {
        Some(e) => {
            st.history.push(e);
            proof {
                assert(st.view().history =~= before.history.push(e@));
            }
        }
        None => {}
    }
    if success {
        st.pending_approval = None;
        st.pending_tool_call = None;
    }
    st
}

/// Notes the model's output in the history as the action it chose.
pub fn record_output(st: AgentState, output: &str) -> (r: AgentState)
    ensures
        r.view() == (AgentView { history: st.view().history.push("Action: "@ + output@), ..st.view() }),
{
    let mut st = st;
    let ghost before = st.view();
    let mut line = String::from_str("Action: ");
    line.append(output);
    st.history.push(line);
    proof {
        assert(st.view().history =~= before.history.push("Action: "@ + output@));
    }
    st
}

/// Funding a child session moves budget, it does not create it: the parent's
/// remaining budget and the child's budget add up to what the parent had.
pub proof fn lemma_start_conserves_budget(exists: bool, parent: AgentView, p: StartAgentParams)
    requires
        p.parent_session_id is Some,
        spec_start_result(exists, Some(parent), p) is Ok,
    ensures
        ({
            let (child, par) = spec_start_result(exists, Some(parent), p)->Ok_0;
            &&& par matches Some(q) && q.budget + child.budget == parent.budget
            &&& par->0.child_session_ids == parent.child_session_ids.push(p.session_id@)
        }),
{
}

/// A failed, completed or idle session never takes another step and cannot be
/// resumed; only a running session steps and only a paused one resumes.
pub proof fn lemma_status_gates(st: AgentView, token: Option<ApprovalView>)
    ensures
        spec_step_gate(st) is Ok <==> st.status is Running,
        spec_resume(st, token) is Ok <==> st.status is Paused,
{
}

/// Paying for inference never raises the budget, and counts exactly the cost.
pub proof fn lemma_charge_bounded(st: AgentView, prompt_len: u64, output_len: u64)
    requires
        st.tokens_used + spec_inference_cost(prompt_len, output_len) <= u64::MAX,
    ensures
        spec_charge(st, prompt_len, output_len).0.budget <= st.budget,
        spec_charge(st, prompt_len, output_len).0.tokens_used == st.tokens_used + spec_inference_cost(prompt_len, output_len),
        spec_charge(st, prompt_len, output_len).1 ==>
            spec_charge(st, prompt_len, output_len).0.budget + spec_inference_cost(prompt_len, output_len) == st.budget,
{
}

/// An action sent for approval is retried exactly: after the pause, resuming
/// runs the session again with the same stored tool call and no failures.
pub proof fn lemma_pause_resume_keeps_call(st: AgentView, action: Seq<char>, tool_call: Seq<char>, hex: Option<Seq<char>>, token: Option<ApprovalView>)
    ensures
        ({
            let r = spec_resume(spec_pause(st, action, tool_call, hex), token);
            &&& r is Ok
            &&& r->Ok_0.status is Running
            &&& r->Ok_0.pending_tool_call == Some(tool_call)
            &&& r->Ok_0.consecutive_failures == 0
        }),
{
}


/// The kind of action a tool call asks for, as the policy sees it.
#[derive(Debug, Clone, PartialEq, Eq)]
pub enum ActionTarget {
    FsWrite,
    FsRead,
    GuiClick,
    GuiType,
    BrowserNavigate,
    SysExec,
    Custom(String),
}

/// Whether a tool name is the given name.
pub open spec fn name_is(name: Seq<u8>, lit: &str) -> bool {
    name == lit.spec_bytes()
}

/// The kind of a tool, numbered in the order of [`ActionTarget`]'s variants:
/// file writes, file reads (reading a file or listing the allowed
/// directories), clicks, typing, navigation, commands, and anything else.
pub open spec fn spec_target_kind(name: Seq<u8>) -> int {
    if name_is(name, "filesystem__write_file") {
        0
    } else if name_is(name, "filesystem__read_file") || name_is(name, "filesystem__list_allowed_directories") {
        1
    } else if name_is(name, "gui__click") {
        2
    } else if name_is(name, "gui__type") {
        3
    } else if name_is(name, "browser__navigate") {
        4
    } else if name_is(name, "sys__exec") {
        5
    } else {
        6
    }
}

/// The kind of action a tool asks for; an unknown tool is a custom action
/// under its own name.
pub fn action_target(name: &str) -> (t: ActionTarget)
    ensures
        match t {
            ActionTarget::FsWrite => spec_target_kind(name.spec_bytes()) == 0,
            ActionTarget::FsRead => spec_target_kind(name.spec_bytes()) == 1,
            ActionTarget::GuiClick => spec_target_kind(name.spec_bytes()) == 2,
            ActionTarget::GuiType => spec_target_kind(name.spec_bytes()) == 3,
            ActionTarget::BrowserNavigate => spec_target_kind(name.spec_bytes()) == 4,
            ActionTarget::SysExec => spec_target_kind(name.spec_bytes()) == 5,
            ActionTarget::Custom(s) => spec_target_kind(name.spec_bytes()) == 6 && s@ == name@,
        },
{
    if method_is(name, "filesystem__write_file".as_bytes()) {
        ActionTarget::FsWrite
    } else if method_is(name, "filesystem__read_file".as_bytes())
        || method_is(name, "filesystem__list_allowed_directories".as_bytes()) {
        ActionTarget::FsRead
    } else if method_is(name, "gui__click".as_bytes()) {
        ActionTarget::GuiClick
    } else if method_is(name, "gui__type".as_bytes()) {
        ActionTarget::GuiType
    } else if method_is(name, "browser__navigate".as_bytes()) {
        ActionTarget::BrowserNavigate
    } else if method_is(name, "sys__exec".as_bytes()) {
        ActionTarget::SysExec
    } else {
        ActionTarget::Custom(String::from_str(name))
    }
}

/// What happens to a tool call once the policy has judged it.
#[derive(Debug, Clone, PartialEq, Eq)]
pub enum ActionGate {
    /// The policy blocked the call.
    Blocked,
    /// The call waits for the user's approval of the request with this hash.
    PendingApproval([u8; 32]),
    /// A meta tool: the call succeeds at once, with this history entry if any.
    Finished(Option<String>),
    /// The call goes to the tool drivers.
    Execute,
}

/// Whether a tool only steers the agent: delegating, awaiting a result,
/// pausing or completing.
pub open spec fn spec_is_meta_tool(name: Seq<u8>) -> bool {
    name_is(name, "agent__delegate") || name_is(name, "agent__await_result")
        || name_is(name, "agent__pause") || name_is(name, "agent__complete")
}

/// The history entry of a checkout.
pub open spec fn spec_checkout_line() -> Seq<char> {
    "System: Initiated UCP Checkout (Pending Guardian Approval)"@
}

/// Gates a tool call on the policy's verdict. A block stops the call; a
/// demand for approval holds it under the request's hash; an allowed meta
/// tool or checkout finishes at once (a checkout with a note that it
/// started); any other allowed call is executed.
pub fn gate_action(name: &str, verdict: Verdict, request_hash: [u8; 32]) -> (g: ActionGate)
    ensures
        verdict == Verdict::Block ==> g is Blocked,
        verdict == Verdict::RequireApproval ==> g == ActionGate::PendingApproval(request_hash),
        verdict == Verdict::Allow ==> {
            if spec_is_meta_tool(name.spec_bytes()) {
                g == ActionGate::Finished(None)
            } else if name_is(name.spec_bytes(), "commerce__checkout") {
                g matches ActionGate::Finished(Some(line)) && line@ == spec_checkout_line()
            } else {
                g is Execute
            }
        },
{
    match verdict {
        Verdict::Block => ActionGate::Blocked,
        Verdict::RequireApproval => ActionGate::PendingApproval(request_hash),
        Verdict::Allow => {
            if method_is(name, "agent__delegate".as_bytes()) || method_is(name, "agent__await_result".as_bytes())
                || method_is(name, "agent__pause".as_bytes()) || method_is(name, "agent__complete".as_bytes()) {
                ActionGate::Finished(None)
            } else if method_is(name, "commerce__checkout".as_bytes()) {
                ActionGate::Finished(Some(String::from_str("System: Initiated UCP Checkout (Pending Guardian Approval)")))
            } else {
                ActionGate::Execute
            }
        },
    }
}

} // verus!
