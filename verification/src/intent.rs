//! Intent resolution: the model's free-form answer is cut down to the JSON
//! object it contains, and the plan it holds is turned into the action that
//! the resolver signs for.

use vstd::prelude::*;
use vstd::string::{StrSliceExecFns, StringExecFns, StringSliceAdditionalSpecFns};
use vstd::utf8::encode_utf8;
use crate::agent::StartAgentParams;
use crate::codec::{hex_decode, spec_hex_decode};
use crate::service::method_is;

verus! {

/// The index of the first `{` at or after `i`.
pub open spec fn spec_first_brace(s: Seq<char>, i: nat) -> Option<nat>
    decreases s.len() - i,
{
    if i >= s.len() {
        None
    } else if s[i as int] == '{' {
        Some(i)
    } else {
        spec_first_brace(s, i + 1)
    }
}

/// Scans from index `i` with `depth` open braces, inside a string literal or
/// not, and after a backslash or not. A character after a backslash is
/// skipped; a quote toggles the string state; outside strings braces open and
/// close. The result is the index just past the brace that closes the
/// outermost object, or `None` when the text ends first.
pub open spec fn spec_scan_object(s: Seq<char>, i: nat, depth: nat, in_string: bool, escape: bool) -> Option<nat>
    decreases s.len() - i,
{
    if i >= s.len() {
        None
    } else {
        let c = s[i as int];
        if escape {
            spec_scan_object(s, i + 1, depth, in_string, false)
        } else if c == '\\' {
            spec_scan_object(s, i + 1, depth, in_string, true)
        } else if c == '"' {
            spec_scan_object(s, i + 1, depth, !in_string, false)
        } else if !in_string && c == '{' {
            spec_scan_object(s, i + 1, depth + 1, in_string, false)
        } else if !in_string && c == '}' {
            if depth <= 1 {
                Some(i + 1)
            } else {
                spec_scan_object(s, i + 1, (depth - 1) as nat, in_string, false)
            }
        } else {
            spec_scan_object(s, i + 1, depth, in_string, false)
        }
    }
}

/// The first balanced JSON object in a text: from the first `{` to the brace
/// that closes it, braces inside string literals and escaped characters not
/// counting; `None` where there is no `{` or it is never closed.
pub open spec fn spec_extract_json(s: Seq<char>) -> Option<Seq<char>> {
    match spec_first_brace(s, 0) {
        None => None,
        Some(start) => match spec_scan_object(s, start, 0, false, false) {
            None => None,
            Some(end) => Some(s.subrange(start as int, end as int)),
        },
    }
}

/// The characters of a string, in order.
pub(crate) fn chars_of(raw: &str) -> (r: Vec<char>)
    ensures
        r@ == raw@,
{
    let n = raw.unicode_len();
    let mut r: Vec<char> = Vec::new();
    for c in it: raw.chars()
        invariant
            n == raw@.len(),
            it.seq() == raw@,
            r@ == it.seq().take(it.index() as int),
    {
        r.push(c);
    }
    r
}

/// Extracts the first JSON object from a text, ignoring what surrounds it.
/// Handles nested braces and string escaping.
pub fn extract_json(raw: &str) -> (r: Option<String>)
    ensures
        match r {
            Some(j) => spec_extract_json(raw@) == Some(j@),
            None => spec_extract_json(raw@) is None,
        },
{
    let chars = chars_of(raw);
    let n = chars.len();
    let mut start: usize = 0;
    while start < n && chars[start] != '{'
        invariant
            n == chars@.len(),
            chars@ == raw@,
            start <= n,
            spec_first_brace(raw@, 0) == spec_first_brace(raw@, start as nat),
        decreases n - start,
    {
        start = start + 1;
    }
    if start == n {
        return None;
    }
    assert(spec_first_brace(raw@, start as nat) == Some(start as nat));
    let mut depth: usize = 0;
    let mut in_string = false;
    let mut escape = false;
    let mut i: usize = start;
    while i < n
        invariant
            n == chars@.len(),
            chars@ == raw@,
            start <= i <= n,
            depth <= i - start,
            spec_first_brace(raw@, 0) == Some(start as nat),
            spec_scan_object(raw@, start as nat, 0, false, false)
                == spec_scan_object(raw@, i as nat, depth as nat, in_string, escape),
        decreases n - i,
    {
        let c = chars[i];
        if escape {
            escape = false;
        } else if c == '\\' {
            escape = true;
        } else if c == '"' {
            in_string = !in_string;
        } else if !in_string && c == '{' {
            depth = depth + 1;
        } else if !in_string && c == '}' {
            if depth <= 1 {
                assert(spec_scan_object(raw@, i as nat, depth as nat, in_string, escape) == Some((i + 1) as nat));
                let sub = raw.substring_char(start, i + 1);
                let json = String::from_str(sub);
                assert(json@ == raw@.subrange(start as int, i + 1));
                return Some(json);
            }
            depth = depth - 1;
        }
        i = i + 1;
    }
    None
}


/// The plan the model answers with, as the resolver reads it: the operation
/// and the parameters it looks up (`to` and `goal` where the model gave them
/// as strings, `amount` where it gave an unsigned integer).
#[derive(Debug, Clone)]
pub struct IntentPlan {
    pub operation_id: String,
    pub to: Option<String>,
    pub amount: Option<u64>,
    pub goal: Option<String>,
    pub gas_ceiling: u64,
}

/// What a plan asks to be signed.
#[derive(Debug, Clone)]
pub enum IntentAction {
    /// A transfer of `amount` to the 32-byte account `to`.
    Transfer { to: [u8; 32], amount: u64 },
    /// A call starting a desktop agent session.
    StartAgent(StartAgentParams),
}

/// Why a plan cannot be turned into an action.
#[derive(Debug, Clone, Copy, PartialEq, Eq)]
pub enum IntentError {
    /// A transfer without a `to` string.
    MissingTo,
    /// A transfer without an unsigned `amount`.
    MissingAmount,
    /// The `to` address is not hex.
    InvalidHex,
    /// The `to` address is not 32 bytes.
    InvalidAddressLength,
    /// An operation other than `transfer` and `start_agent`.
    UnknownOperation,
}

/// The operation id of transfers. (`transfer`)
pub open spec fn spec_op_transfer() -> Seq<u8> {
    seq![116u8, 114u8, 97u8, 110u8, 115u8, 102u8, 101u8, 114u8]
}

/// The operation id of agent starts. (`start_agent`)
pub open spec fn spec_op_start_agent() -> Seq<u8> {
    seq![115u8, 116u8, 97u8, 114u8, 116u8, 95u8, 97u8, 103u8, 101u8, 110u8, 116u8]
}

/// A string with every leading `0x` removed.
pub open spec fn spec_strip_0x(s: Seq<u8>) -> Seq<u8>
    decreases s.len(),
{
    if s.len() >= 2 && s[0] == 48u8 && s[1] == 120u8 {
        spec_strip_0x(s.subrange(2, s.len() as int))
    } else {
        s
    }
}

/// The account a transfer's `to` string names: its hex digits after any
/// leading `0x`, which must denote 32 bytes.
pub open spec fn spec_transfer_target(to: Seq<u8>) -> Result<Seq<u8>, IntentError> {
    match spec_hex_decode(spec_strip_0x(to)) {
        None => Err(IntentError::InvalidHex),
        Some(b) => if b.len() == 32 { Ok(b) } else { Err(IntentError::InvalidAddressLength) },
    }
}

fn strip_0x(s: &[u8]) -> (r: &[u8])
    ensures
        r@ == spec_strip_0x(s@),
    decreases s@.len(),
{
    let n = s.len();
    if n >= 2 && s[0] == 48u8 && s[1] == 120u8 {
        let rest = vstd::slice::slice_subrange(s, 2, n);
        strip_0x(rest)
    } else {
        s
    }
}

/// Turns a plan into the action to sign. A `transfer` needs a `to` string,
/// then an `amount`, then a `to` of 32 hex-encoded bytes (after any leading
/// `0x`); a `start_agent` starts a session with the given id for the plan's
/// goal ("Unknown goal" without one), at most 10 steps, no parent and a
/// budget of 10,000,000; any other operation is refused.
pub fn plan_action(plan: &IntentPlan, session_id: [u8; 32]) -> (r: Result<IntentAction, IntentError>)
    ensures
        encode_utf8(plan.operation_id@) == spec_op_transfer() ==> match plan.to {
            None => r == Err::<IntentAction, IntentError>(IntentError::MissingTo),
            Some(to) => match plan.amount {
                None => r == Err::<IntentAction, IntentError>(IntentError::MissingAmount),
                Some(a) => match spec_transfer_target(encode_utf8(to@)) {
                    Err(e) => r == Err::<IntentAction, IntentError>(e),
                    Ok(b) => (r matches Ok(IntentAction::Transfer { to: t, amount }) && t@ == b && amount == a),
                },
            },
        },
        encode_utf8(plan.operation_id@) == spec_op_start_agent() ==>
            (r matches Ok(IntentAction::StartAgent(p)) && p.session_id == session_id
            && p.goal@ == (match plan.goal { Some(g) => g@, None => "Unknown goal"@ })
            && p.max_steps == 10 && p.parent_session_id is None && p.initial_budget == 10_000_000),
        encode_utf8(plan.operation_id@) != spec_op_transfer()
            && encode_utf8(plan.operation_id@) != spec_op_start_agent() ==>
            r == Err::<IntentAction, IntentError>(IntentError::UnknownOperation),
{
    let transfer: [u8; 8] = [116u8, 114u8, 97u8, 110u8, 115u8, 102u8, 101u8, 114u8];
    let start_agent: [u8; 11] = [115u8, 116u8, 97u8, 114u8, 116u8, 95u8, 97u8, 103u8, 101u8, 110u8, 116u8];
    assert(transfer@ =~= spec_op_transfer());
    assert(start_agent@ =~= spec_op_start_agent());
    let op = plan.operation_id.as_str();
    if method_is(op, transfer.as_slice()) {
        let to = match &plan.to {
            Some(t) => t,
            None => return Err(IntentError::MissingTo),
        };
        let amount = match plan.amount {
            Some(a) => a,
            None => return Err(IntentError::MissingAmount),
        };
        let hex = strip_0x(to.as_str().as_bytes());
        let bytes = match hex_decode(hex) {
            Some(b) => b,
            None => return Err(IntentError::InvalidHex),
        };
        if bytes.len() != 32 {
            return Err(IntentError::InvalidAddressLength);
        }
        let account: [u8; 32] = crate::bytes::read_array(bytes.as_slice(), 0);
        assert(account@ =~= bytes@);
        Ok(IntentAction::Transfer { to: account, amount })
    } else if method_is(op, start_agent.as_slice()) {
        let goal = match &plan.goal {
            Some(g) => g.clone(),
            None => {
                proof {
                    reveal_strlit("Unknown goal");
                }
                String::from_str("Unknown goal")
            },
        };
        Ok(IntentAction::StartAgent(StartAgentParams {
            session_id,
            goal,
            max_steps: 10,
            parent_session_id: None,
            initial_budget: 10_000_000,
        }))
    } else {
        Err(IntentError::UnknownOperation)
    }
}

} // verus!
