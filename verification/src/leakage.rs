//! The leakage controller: a per-session token budget on context export that
//! stops massive data exfiltration.

use vstd::prelude::*;
use vstd::bytes::*;
use vstd::string::StringSliceAdditionalSpecFns;
use crate::bytes::{append_bytes, read_array};
use crate::keys::{leakage_usage_prefix, leakage_policy_prefix, spec_leakage_usage_prefix, spec_leakage_policy_prefix,
    method_register_policy, method_check_and_debit, spec_method_register_policy, spec_method_check_and_debit};
use crate::service::{TxContext, TransactionError, RejectReason, method_is};
use crate::state::StateMap;

verus! {

/// The leakage policy of a session or agent class.
#[derive(Debug, Clone, Copy, PartialEq, Eq, Structural)]
pub struct LeakagePolicy {
    /// Maximum tokens allowed per epoch (or session lifetime).
    pub max_tokens_per_epoch: u64,
    /// The cost multiplier for high-entropy data, in percent (100 is 1.00x).
    pub entropy_multiplier_percent: u16,
}

/// The usage recorded for a session.
#[derive(Debug, Clone, Copy, PartialEq, Eq, Structural)]
pub struct UsageRecord {
    pub tokens_consumed: u64,
    pub last_update_height: u64,
}

/// Parameters of `register_policy@v1`.
#[derive(Debug, Clone, Copy)]
pub struct RegisterPolicyParams {
    pub session_id: [u8; 32],
    pub policy: LeakagePolicy,
}

/// Parameters of `check_and_debit@v1`.
#[derive(Debug, Clone, Copy)]
pub struct CheckLeakageParams {
    pub session_id: [u8; 32],
    pub tokens_requested: u64,
    pub is_high_entropy: bool,
}

/// The leakage controller service.
#[derive(Debug, Default)]
pub struct LeakageController;

/// The policy that applies where none is registered.
pub open spec fn spec_default_policy() -> LeakagePolicy {
    LeakagePolicy { max_tokens_per_epoch: 1_000_000, entropy_multiplier_percent: 100 }
}

impl Default for LeakagePolicy {
    /// A conservative budget of a million tokens at a 1.00x multiplier.
    fn default() -> (p: Self)
        ensures
            p == spec_default_policy(),
    {
        Self { max_tokens_per_epoch: 1_000_000, entropy_multiplier_percent: 100 }
    }
}

impl Default for UsageRecord {
    /// No tokens consumed at height 0.
    fn default() -> (u: Self)
        ensures
            u == (UsageRecord { tokens_consumed: 0, last_update_height: 0 }),
    {
        Self { tokens_consumed: 0, last_update_height: 0 }
    }
}

// ---------------------------------------------------------------------------
// Canonical encodings (SCALE: fixed-width integers little-endian, fields in order)
// ---------------------------------------------------------------------------

/// The encoding of a policy: 8 bytes of limit, 2 bytes of multiplier.
pub open spec fn spec_policy_bytes(p: LeakagePolicy) -> Seq<u8> {
    spec_u64_to_le_bytes(p.max_tokens_per_epoch) + spec_u16_to_le_bytes(p.entropy_multiplier_percent)
}

/// The policy that exactly ten bytes encode.
pub open spec fn spec_decode_policy(b: Seq<u8>) -> Option<LeakagePolicy> {
    if b.len() != 10 {
        None
    } else {
        Some(LeakagePolicy {
            max_tokens_per_epoch: spec_u64_from_le_bytes(b.subrange(0, 8)),
            entropy_multiplier_percent: spec_u16_from_le_bytes(b.subrange(8, 10)),
        })
    }
}

/// The encoding of a usage record: tokens consumed, then the height, 8 bytes each.
pub open spec fn spec_usage_bytes(u: UsageRecord) -> Seq<u8> {
    spec_u64_to_le_bytes(u.tokens_consumed) + spec_u64_to_le_bytes(u.last_update_height)
}

/// The usage record that exactly sixteen bytes encode.
pub open spec fn spec_decode_usage(b: Seq<u8>) -> Option<UsageRecord> {
    if b.len() != 16 {
        None
    } else {
        Some(UsageRecord {
            tokens_consumed: spec_u64_from_le_bytes(b.subrange(0, 8)),
            last_update_height: spec_u64_from_le_bytes(b.subrange(8, 16)),
        })
    }
}

/// The parameters of `register_policy@v1` that exactly 42 bytes encode.
pub open spec fn spec_decode_register_params(b: Seq<u8>) -> Option<(Seq<u8>, LeakagePolicy)> {
    if b.len() != 42 {
        None
    } else {
        match spec_decode_policy(b.subrange(32, 42)) {
            Some(p) => Some((b.subrange(0, 32), p)),
            None => None,
        }
    }
}

/// The parameters of `check_and_debit@v1` that exactly 41 bytes encode; the
/// flag byte must be 0 or 1.
pub open spec fn spec_decode_check_params(b: Seq<u8>) -> Option<(Seq<u8>, u64, bool)> {
    if b.len() != 41 || b[40] > 1 {
        None
    } else {
        Some((b.subrange(0, 32), spec_u64_from_le_bytes(b.subrange(32, 40)), b[40] == 1))
    }
}

fn policy_to_bytes(p: &LeakagePolicy) -> (r: Vec<u8>)
    ensures
        r@ == spec_policy_bytes(*p),
{
    let mut r = u64_to_le_bytes(p.max_tokens_per_epoch);
    let m = u16_to_le_bytes(p.entropy_multiplier_percent);
    append_bytes(&mut r, m.as_slice());
    r
}

fn policy_from_bytes(b: &[u8]) -> (r: Option<LeakagePolicy>)
    ensures
        r == spec_decode_policy(b@),
{
    if b.len() != 10 {
        return None;
    }
    let max = u64_from_le_bytes(vstd::slice::slice_subrange(b, 0, 8));
    let mult = u16_from_le_bytes(vstd::slice::slice_subrange(b, 8, 10));
    Some(LeakagePolicy { max_tokens_per_epoch: max, entropy_multiplier_percent: mult })
}

fn usage_to_bytes(u: &UsageRecord) -> (r: Vec<u8>)
    ensures
        r@ == spec_usage_bytes(*u),
{
    let mut r = u64_to_le_bytes(u.tokens_consumed);
    let h = u64_to_le_bytes(u.last_update_height);
    append_bytes(&mut r, h.as_slice());
    r
}

fn usage_from_bytes(b: &[u8]) -> (r: Option<UsageRecord>)
    ensures
        r == spec_decode_usage(b@),
{
    if b.len() != 16 {
        return None;
    }
    let t = u64_from_le_bytes(vstd::slice::slice_subrange(b, 0, 8));
    let h = u64_from_le_bytes(vstd::slice::slice_subrange(b, 8, 16));
    Some(UsageRecord { tokens_consumed: t, last_update_height: h })
}

// ---------------------------------------------------------------------------
// Budget logic
// ---------------------------------------------------------------------------

/// The state key of a session's usage record.
pub open spec fn spec_usage_key(session_id: Seq<u8>) -> Seq<u8> {
    spec_leakage_usage_prefix() + session_id
}

/// The state key of a session's policy.
pub open spec fn spec_policy_key(session_id: Seq<u8>) -> Seq<u8> {
    spec_leakage_policy_prefix() + session_id
}

/// The policy in force for a session: the registered one, the default where
/// none is registered, `None` where the stored bytes do not decode.
pub open spec fn spec_stored_policy(st: Map<Seq<u8>, Seq<u8>>, session_id: Seq<u8>) -> Option<LeakagePolicy> {
    if st.contains_key(spec_policy_key(session_id)) {
        spec_decode_policy(st[spec_policy_key(session_id)])
    } else {
        Some(spec_default_policy())
    }
}

/// The usage recorded for a session: the stored record, an empty one where
/// none is stored, `None` where the stored bytes do not decode.
pub open spec fn spec_stored_usage(st: Map<Seq<u8>, Seq<u8>>, session_id: Seq<u8>) -> Option<UsageRecord> {
    if st.contains_key(spec_usage_key(session_id)) {
        spec_decode_usage(st[spec_usage_key(session_id)])
    } else {
        Some(UsageRecord { tokens_consumed: 0, last_update_height: 0 })
    }
}

/// The cost multiplier in percent: the policy's for high-entropy data, else 100.
pub open spec fn spec_multiplier(p: LeakagePolicy, is_high_entropy: bool) -> nat {
    if is_high_entropy { p.entropy_multiplier_percent as nat } else { 100 }
}

/// The cost of `tokens` under a policy: `tokens * multiplier / 100`, rounded down.
pub open spec fn spec_cost(p: LeakagePolicy, tokens: u64, is_high_entropy: bool) -> nat {
    ((tokens as nat) * spec_multiplier(p, is_high_entropy)) / 100
}

/// `used + cost`, saturating at `u64::MAX`.
pub open spec fn spec_saturating_total(used: u64, cost: nat) -> int {
    if used + cost > u64::MAX { u64::MAX as int } else { used + cost }
}

/// Whether the cost computation of a debit stays within `u64`.
pub open spec fn spec_debit_fits(st: Map<Seq<u8>, Seq<u8>>, session_id: Seq<u8>, tokens: u64, is_high_entropy: bool) -> bool {
    spec_stored_policy(st, session_id) matches Some(p) ==> tokens * spec_multiplier(p, is_high_entropy) <= u64::MAX
}

/// The state after debiting `tokens` from a session's budget, or why not.
pub open spec fn spec_debit(
    st: Map<Seq<u8>, Seq<u8>>,
    session_id: Seq<u8>,
    tokens: u64,
    is_high_entropy: bool,
    height: u64,
) -> Result<Map<Seq<u8>, Seq<u8>>, TransactionError> {
    match spec_stored_policy(st, session_id) {
        None => Err(TransactionError::Deserialization),
        Some(p) => match spec_stored_usage(st, session_id) {
            None => Err(TransactionError::Deserialization),
            Some(u) => {
                let new_total = spec_saturating_total(u.tokens_consumed, spec_cost(p, tokens, is_high_entropy));
                if new_total > p.max_tokens_per_epoch {
                    Err(TransactionError::Invalid(RejectReason::LeakageBudgetExceeded))
                } else {
                    Ok(st.insert(spec_usage_key(session_id), spec_usage_bytes(
                        UsageRecord { tokens_consumed: new_total as u64, last_update_height: height })))
                }
            }
        },
    }
}

impl LeakageController {
    /// The state key of a session's usage record.
    pub fn get_usage_key(session_id: &[u8; 32]) -> (r: Vec<u8>)
        ensures
            r@ == spec_usage_key(session_id@),
    {
        let mut r = leakage_usage_prefix();
        append_bytes(&mut r, session_id.as_slice());
        r
    }

    /// The state key of a session's policy.
    pub fn get_policy_key(session_id: &[u8; 32]) -> (r: Vec<u8>)
        ensures
            r@ == spec_policy_key(session_id@),
    {
        let mut r = leakage_policy_prefix();
        append_bytes(&mut r, session_id.as_slice());
        r
    }

    /// Checks the budget of a session and debits the cost of `tokens` from it:
    /// the usage grows by the cost (saturating) unless that would pass the limit.
    pub fn debit_budget(
        state: &mut StateMap,
        session_id: &[u8; 32],
        tokens: u64,
        is_high_entropy: bool,
        current_height: u64,
    ) -> (r: Result<(), TransactionError>)
        requires
            spec_debit_fits(old(state).view(), session_id@, tokens, is_high_entropy),
        ensures
            match spec_debit(old(state).view(), session_id@, tokens, is_high_entropy, current_height) {
                Ok(st) => r is Ok && final(state).view() == st,
                Err(e) => r == Err::<(), TransactionError>(e) && final(state).view() == old(state).view(),
            },
    {
        let policy_key = Self::get_policy_key(session_id);
        let usage_key = Self::get_usage_key(session_id);
        let policy = match state.get(policy_key.as_slice()) {
            Some(bytes) => match policy_from_bytes(bytes.as_slice()) {
                Some(p) => p,
                None => return Err(TransactionError::Deserialization),
            },
            None => LeakagePolicy::default(),
        };
        let multiplier: u64 = if is_high_entropy { policy.entropy_multiplier_percent as u64 } else { 100 };
        let cost = (tokens * multiplier) / 100;
        let mut usage = match state.get(usage_key.as_slice()) {
            Some(bytes) => match usage_from_bytes(bytes.as_slice()) {
                Some(u) => u,
                None => return Err(TransactionError::Deserialization),
            },
            None => UsageRecord::default(),
        };
        let new_total = usage.tokens_consumed.saturating_add(cost);
        if new_total > policy.max_tokens_per_epoch {
            return Err(TransactionError::Invalid(RejectReason::LeakageBudgetExceeded));
        }
        usage.tokens_consumed = new_total;
        usage.last_update_height = current_height;
        let bytes = usage_to_bytes(&usage);
        state.insert(usage_key.as_slice(), bytes.as_slice());
        Ok(())
    }
}


/// The state after a leakage service call, or why it fails.
pub open spec fn spec_handle_leakage_call(
    st: Map<Seq<u8>, Seq<u8>>,
    method: Seq<u8>,
    params: Seq<u8>,
    ctx: TxContext,
) -> Result<Map<Seq<u8>, Seq<u8>>, TransactionError> {
    if method == spec_method_register_policy() {
        match spec_decode_register_params(params) {
            None => Err(TransactionError::Deserialization),
            Some((sid, p)) => Ok(st.insert(spec_policy_key(sid), spec_policy_bytes(p))),
        }
    } else if method == spec_method_check_and_debit() {
        match spec_decode_check_params(params) {
            None => Err(TransactionError::Deserialization),
            Some((sid, tokens, high)) => spec_debit(st, sid, tokens, high, ctx.block_height),
        }
    } else {
        Err(TransactionError::Unsupported)
    }
}

/// Whether the cost computation of a leakage call stays within `u64`.
pub open spec fn spec_leakage_call_fits(st: Map<Seq<u8>, Seq<u8>>, method: Seq<u8>, params: Seq<u8>) -> bool {
    method == spec_method_check_and_debit() ==> (spec_decode_check_params(params) matches Some((sid, tokens, high))
        ==> spec_debit_fits(st, sid, tokens, high))
}

impl LeakageController {
    /// Dispatches a service call: `register_policy@v1` stores (or replaces) a
    /// session's policy; `check_and_debit@v1` debits the session's budget.
    pub fn handle_service_call(
        &self,
        state: &mut StateMap,
        method: &str,
        params: &[u8],
        ctx: &TxContext,
    ) -> (r: Result<(), TransactionError>)
        requires
            spec_leakage_call_fits(old(state).view(), method.spec_bytes(), params@),
        ensures
            match spec_handle_leakage_call(old(state).view(), method.spec_bytes(), params@, *ctx) {
                Ok(st) => r is Ok && final(state).view() == st,
                Err(e) => r == Err::<(), TransactionError>(e) && final(state).view() == old(state).view(),
            },
    {
        let register = method_register_policy();
        let check = method_check_and_debit();
        if method_is(method, register.as_slice()) {
            if params.len() != 42 {
                return Err(TransactionError::Deserialization);
            }
            let session_id: [u8; 32] = read_array(params, 0);
            let policy = match policy_from_bytes(vstd::slice::slice_subrange(params, 32, 42)) {
                Some(p) => p,
                None => return Err(TransactionError::Deserialization),
            };
            let key = Self::get_policy_key(&session_id);
            let bytes = policy_to_bytes(&policy);
            state.insert(key.as_slice(), bytes.as_slice());
            Ok(())
        } else if method_is(method, check.as_slice()) {
            if params.len() != 41 || params[40] > 1 {
                return Err(TransactionError::Deserialization);
            }
            let session_id: [u8; 32] = read_array(params, 0);
            let tokens = u64_from_le_bytes(vstd::slice::slice_subrange(params, 32, 40));
            let is_high_entropy = params[40] == 1;
            Self::debit_budget(state, &session_id, tokens, is_high_entropy, ctx.block_height)
        } else {
            Err(TransactionError::Unsupported)
        }
    }
}

/// Law: a successful debit leaves the session's recorded usage within the
/// limit of its policy, and records exactly the previous usage plus the cost.
pub proof fn lemma_debit_stays_within_budget(
    st: Map<Seq<u8>, Seq<u8>>,
    session_id: Seq<u8>,
    tokens: u64,
    is_high_entropy: bool,
    height: u64,
)
    requires
        spec_debit(st, session_id, tokens, is_high_entropy, height) is Ok,
    ensures
        ({
            let after = spec_debit(st, session_id, tokens, is_high_entropy, height)->Ok_0;
            let p = spec_stored_policy(st, session_id)->Some_0;
            let before = spec_stored_usage(st, session_id)->Some_0;
            &&& spec_stored_policy(after, session_id) == Some(p)
            &&& spec_stored_usage(after, session_id) matches Some(u)
            &&& u.tokens_consumed <= p.max_tokens_per_epoch
            &&& u.tokens_consumed == spec_saturating_total(before.tokens_consumed, spec_cost(p, tokens, is_high_entropy))
            &&& u.last_update_height == height
        }),
{
    lemma_auto_spec_u64_to_from_le_bytes();
    let p = spec_stored_policy(st, session_id)->Some_0;
    let before = spec_stored_usage(st, session_id)->Some_0;
    let total = spec_saturating_total(before.tokens_consumed, spec_cost(p, tokens, is_high_entropy));
    let new_u = UsageRecord { tokens_consumed: total as u64, last_update_height: height };
    let after = spec_debit(st, session_id, tokens, is_high_entropy, height)->Ok_0;
    assert(after == st.insert(spec_usage_key(session_id), spec_usage_bytes(new_u)));
    let b = spec_usage_bytes(new_u);
    assert(spec_u64_to_le_bytes(new_u.tokens_consumed).len() == 8);
    assert(spec_u64_to_le_bytes(height).len() == 8);
    assert(b.subrange(0, 8) =~= spec_u64_to_le_bytes(new_u.tokens_consumed));
    assert(b.subrange(8, 16) =~= spec_u64_to_le_bytes(height));
    // The policy key and the usage key differ in their prefixes.
    assert(spec_policy_key(session_id)[9] != spec_usage_key(session_id)[9]);
    assert(spec_policy_key(session_id) != spec_usage_key(session_id));
    assert(after[spec_usage_key(session_id)] == b);
    assert(spec_decode_usage(b) == Some(new_u));
}

} // verus!
