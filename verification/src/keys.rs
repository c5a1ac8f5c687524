//! The byte strings that name state keys, and the key builders.

use vstd::prelude::*;
use vstd::bytes::*;
use crate::bytes::append_bytes;
use vstd::string::StringSliceAdditionalSpecFns;

verus! {

/// Prefix of the stored state of an agent session. (`agent::state::`)
pub open spec fn spec_agent_state_prefix() -> Seq<u8> {
    seq![97u8, 103u8, 101u8, 110u8, 116u8, 58u8, 58u8, 115u8, 116u8, 97u8, 116u8, 101u8, 58u8, 58u8]
}

/// Prefix of the stored state of an agent session. (`agent::state::`)
pub fn agent_state_prefix() -> (r: Vec<u8>)
    ensures
        r@ == spec_agent_state_prefix(),
{
    let r: Vec<u8> = vec![97u8, 103u8, 101u8, 110u8, 116u8, 58u8, 58u8, 115u8, 116u8, 97u8, 116u8, 101u8, 58u8, 58u8];
    assert(r@ =~= spec_agent_state_prefix());
    r
}

/// Prefix of the skill vector index. (`skills::vector::`)
pub open spec fn spec_skill_index_prefix() -> Seq<u8> {
    seq![115u8, 107u8, 105u8, 108u8, 108u8, 115u8, 58u8, 58u8, 118u8, 101u8, 99u8, 116u8, 111u8, 114u8, 58u8, 58u8]
}

/// Prefix of the skill vector index. (`skills::vector::`)
pub fn skill_index_prefix() -> (r: Vec<u8>)
    ensures
        r@ == spec_skill_index_prefix(),
{
    let r: Vec<u8> = vec![115u8, 107u8, 105u8, 108u8, 108u8, 115u8, 58u8, 58u8, 118u8, 101u8, 99u8, 116u8, 111u8, 114u8, 58u8, 58u8];
    assert(r@ =~= spec_skill_index_prefix());
    r
}

/// Prefix of the stored steps of an agent session. (`agent::trace::`)
pub open spec fn spec_trace_prefix() -> Seq<u8> {
    seq![97u8, 103u8, 101u8, 110u8, 116u8, 58u8, 58u8, 116u8, 114u8, 97u8, 99u8, 101u8, 58u8, 58u8]
}

/// Prefix of the stored steps of an agent session. (`agent::trace::`)
pub fn trace_prefix() -> (r: Vec<u8>)
    ensures
        r@ == spec_trace_prefix(),
{
    let r: Vec<u8> = vec![97u8, 103u8, 101u8, 110u8, 116u8, 58u8, 58u8, 116u8, 114u8, 97u8, 99u8, 101u8, 58u8, 58u8];
    assert(r@ =~= spec_trace_prefix());
    r
}

/// Prefix of the leakage usage record of a session. (`leakage::usage::`)
pub open spec fn spec_leakage_usage_prefix() -> Seq<u8> {
    seq![108u8, 101u8, 97u8, 107u8, 97u8, 103u8, 101u8, 58u8, 58u8, 117u8, 115u8, 97u8, 103u8, 101u8, 58u8, 58u8]
}

/// Prefix of the leakage usage record of a session. (`leakage::usage::`)
pub fn leakage_usage_prefix() -> (r: Vec<u8>)
    ensures
        r@ == spec_leakage_usage_prefix(),
{
    let r: Vec<u8> = vec![108u8, 101u8, 97u8, 107u8, 97u8, 103u8, 101u8, 58u8, 58u8, 117u8, 115u8, 97u8, 103u8, 101u8, 58u8, 58u8];
    assert(r@ =~= spec_leakage_usage_prefix());
    r
}

/// Prefix of the leakage policy of a session. (`leakage::policy::`)
pub open spec fn spec_leakage_policy_prefix() -> Seq<u8> {
    seq![108u8, 101u8, 97u8, 107u8, 97u8, 103u8, 101u8, 58u8, 58u8, 112u8, 111u8, 108u8, 105u8, 99u8, 121u8, 58u8, 58u8]
}

/// Prefix of the leakage policy of a session. (`leakage::policy::`)
pub fn leakage_policy_prefix() -> (r: Vec<u8>)
    ensures
        r@ == spec_leakage_policy_prefix(),
{
    let r: Vec<u8> = vec![108u8, 101u8, 97u8, 107u8, 97u8, 103u8, 101u8, 58u8, 58u8, 112u8, 111u8, 108u8, 105u8, 99u8, 121u8, 58u8, 58u8];
    assert(r@ =~= spec_leakage_policy_prefix());
    r
}

/// Prefix of the registered light-client verifiers. (`ibc::verifier::`)
pub open spec fn spec_verifier_prefix() -> Seq<u8> {
    seq![105u8, 98u8, 99u8, 58u8, 58u8, 118u8, 101u8, 114u8, 105u8, 102u8, 105u8, 101u8, 114u8, 58u8, 58u8]
}

/// Prefix of the registered light-client verifiers. (`ibc::verifier::`)
pub fn verifier_prefix() -> (r: Vec<u8>)
    ensures
        r@ == spec_verifier_prefix(),
{
    let r: Vec<u8> = vec![105u8, 98u8, 99u8, 58u8, 58u8, 118u8, 101u8, 114u8, 105u8, 102u8, 105u8, 101u8, 114u8, 58u8, 58u8];
    assert(r@ =~= spec_verifier_prefix());
    r
}

/// Prefix of provider records: `providers::{account_id}`. (`providers::`)
pub open spec fn spec_provider_prefix() -> Seq<u8> {
    seq![112u8, 114u8, 111u8, 118u8, 105u8, 100u8, 101u8, 114u8, 115u8, 58u8, 58u8]
}

/// Prefix of provider records: `providers::{account_id}`. (`providers::`)
pub fn provider_prefix() -> (r: Vec<u8>)
    ensures
        r@ == spec_provider_prefix(),
{
    let r: Vec<u8> = vec![112u8, 114u8, 111u8, 118u8, 105u8, 100u8, 101u8, 114u8, 115u8, 58u8, 58u8];
    assert(r@ =~= spec_provider_prefix());
    r
}

/// Prefix of heartbeats: `heartbeats::{account_id}::{model_hash}`. (`heartbeats::`)
pub open spec fn spec_heartbeat_prefix() -> Seq<u8> {
    seq![104u8, 101u8, 97u8, 114u8, 116u8, 98u8, 101u8, 97u8, 116u8, 115u8, 58u8, 58u8]
}

/// Prefix of heartbeats: `heartbeats::{account_id}::{model_hash}`. (`heartbeats::`)
pub fn heartbeat_prefix() -> (r: Vec<u8>)
    ensures
        r@ == spec_heartbeat_prefix(),
{
    let r: Vec<u8> = vec![104u8, 101u8, 97u8, 114u8, 116u8, 98u8, 101u8, 97u8, 116u8, 115u8, 58u8, 58u8];
    assert(r@ =~= spec_heartbeat_prefix());
    r
}

/// The separator between key components. (`::`)
pub open spec fn spec_key_separator() -> Seq<u8> {
    seq![58u8, 58u8]
}

/// The separator between key components. (`::`)
pub fn key_separator() -> (r: Vec<u8>)
    ensures
        r@ == spec_key_separator(),
{
    let r: Vec<u8> = vec![58u8, 58u8];
    assert(r@ =~= spec_key_separator());
    r
}

/// The key of the next compute request id. (`compute::next_id`)
pub open spec fn spec_compute_next_id_key() -> Seq<u8> {
    seq![99u8, 111u8, 109u8, 112u8, 117u8, 116u8, 101u8, 58u8, 58u8, 110u8, 101u8, 120u8, 116u8, 95u8, 105u8, 100u8]
}

/// The key of the next compute request id. (`compute::next_id`)
pub fn compute_next_id_key() -> (r: Vec<u8>)
    ensures
        r@ == spec_compute_next_id_key(),
{
    let r: Vec<u8> = vec![99u8, 111u8, 109u8, 112u8, 117u8, 116u8, 101u8, 58u8, 58u8, 110u8, 101u8, 120u8, 116u8, 95u8, 105u8, 100u8];
    assert(r@ =~= spec_compute_next_id_key());
    r
}

/// Prefix of compute job tickets: `tickets::{id}` with a decimal id. (`tickets::`)
pub open spec fn spec_tickets_prefix() -> Seq<u8> {
    seq![116u8, 105u8, 99u8, 107u8, 101u8, 116u8, 115u8, 58u8, 58u8]
}

/// Prefix of compute job tickets: `tickets::{id}` with a decimal id. (`tickets::`)
pub fn tickets_prefix() -> (r: Vec<u8>)
    ensures
        r@ == spec_tickets_prefix(),
{
    let r: Vec<u8> = vec![116u8, 105u8, 99u8, 107u8, 101u8, 116u8, 115u8, 58u8, 58u8];
    assert(r@ =~= spec_tickets_prefix());
    r
}

/// Prefix of account balances: `balance::{account_id}`. (`balance::`)
pub open spec fn spec_balance_prefix() -> Seq<u8> {
    seq![98u8, 97u8, 108u8, 97u8, 110u8, 99u8, 101u8, 58u8, 58u8]
}

/// Prefix of account balances: `balance::{account_id}`. (`balance::`)
pub fn balance_prefix() -> (r: Vec<u8>)
    ensures
        r@ == spec_balance_prefix(),
{
    let r: Vec<u8> = vec![98u8, 97u8, 108u8, 97u8, 110u8, 99u8, 101u8, 58u8, 58u8];
    assert(r@ =~= spec_balance_prefix());
    r
}

/// Method name of leakage policy registration. (`register_policy@v1`)
pub open spec fn spec_method_register_policy() -> Seq<u8> {
    seq![114u8, 101u8, 103u8, 105u8, 115u8, 116u8, 101u8, 114u8, 95u8, 112u8, 111u8, 108u8, 105u8, 99u8, 121u8, 64u8, 118u8, 49u8]
}

/// Method name of leakage policy registration. (`register_policy@v1`)
pub fn method_register_policy() -> (r: Vec<u8>)
    ensures
        r@ == spec_method_register_policy(),
{
    let r: Vec<u8> = vec![114u8, 101u8, 103u8, 105u8, 115u8, 116u8, 101u8, 114u8, 95u8, 112u8, 111u8, 108u8, 105u8, 99u8, 121u8, 64u8, 118u8, 49u8];
    assert(r@ =~= spec_method_register_policy());
    r
}

/// Method name of the leakage budget check. (`check_and_debit@v1`)
pub open spec fn spec_method_check_and_debit() -> Seq<u8> {
    seq![99u8, 104u8, 101u8, 99u8, 107u8, 95u8, 97u8, 110u8, 100u8, 95u8, 100u8, 101u8, 98u8, 105u8, 116u8, 64u8, 118u8, 49u8]
}

/// Method name of the leakage budget check. (`check_and_debit@v1`)
pub fn method_check_and_debit() -> (r: Vec<u8>)
    ensures
        r@ == spec_method_check_and_debit(),
{
    let r: Vec<u8> = vec![99u8, 104u8, 101u8, 99u8, 107u8, 95u8, 97u8, 110u8, 100u8, 95u8, 100u8, 101u8, 98u8, 105u8, 116u8, 64u8, 118u8, 49u8];
    assert(r@ =~= spec_method_check_and_debit());
    r
}

/// Method name of provider registration. (`register@v1`)
pub open spec fn spec_method_register_provider() -> Seq<u8> {
    seq![114u8, 101u8, 103u8, 105u8, 115u8, 116u8, 101u8, 114u8, 64u8, 118u8, 49u8]
}

/// Method name of provider registration. (`register@v1`)
pub fn method_register_provider() -> (r: Vec<u8>)
    ensures
        r@ == spec_method_register_provider(),
{
    let r: Vec<u8> = vec![114u8, 101u8, 103u8, 105u8, 115u8, 116u8, 101u8, 114u8, 64u8, 118u8, 49u8];
    assert(r@ =~= spec_method_register_provider());
    r
}

/// Method name of provider heartbeats. (`heartbeat@v1`)
pub open spec fn spec_method_heartbeat() -> Seq<u8> {
    seq![104u8, 101u8, 97u8, 114u8, 116u8, 98u8, 101u8, 97u8, 116u8, 64u8, 118u8, 49u8]
}

/// Method name of provider heartbeats. (`heartbeat@v1`)
pub fn method_heartbeat() -> (r: Vec<u8>)
    ensures
        r@ == spec_method_heartbeat(),
{
    let r: Vec<u8> = vec![104u8, 101u8, 97u8, 114u8, 116u8, 98u8, 101u8, 97u8, 116u8, 64u8, 118u8, 49u8];
    assert(r@ =~= spec_method_heartbeat());
    r
}

/// The state key of an agent session: `agent::state::` followed by the session id.
pub fn get_state_key(session_id: &[u8; 32]) -> (r: Vec<u8>)
    ensures
        r@ == spec_agent_state_prefix() + session_id@,
{
    let mut r = agent_state_prefix();
    append_bytes(&mut r, session_id.as_slice());
    r
}

/// The key of one step of an agent session: `agent::trace::`, the session id,
/// then the step as four little-endian bytes.
pub fn get_trace_key(session_id: &[u8; 32], step: u32) -> (r: Vec<u8>)
    ensures
        r@ == spec_trace_prefix() + session_id@ + spec_u32_to_le_bytes(step),
{
    let mut r = trace_prefix();
    append_bytes(&mut r, session_id.as_slice());
    let s = u32_to_le_bytes(step);
    append_bytes(&mut r, s.as_slice());
    r
}

/// The registry key of a light-client verifier: `ibc::verifier::` followed by
/// the client type.
pub fn verifier_map_key(client_type: &str) -> (r: Vec<u8>)
    ensures
        r@ == spec_verifier_prefix() + client_type.spec_bytes(),
{
    let mut r = verifier_prefix();
    append_bytes(&mut r, client_type.as_bytes());
    r
}

/// Reads a stored `u64`: the little-endian value of exactly eight bytes, and 0
/// for a missing value or one of another length.
pub fn u64_from_le_bytes(bytes: Option<&Vec<u8>>) -> (r: u64)
    ensures
        r == match bytes {
            Some(b) => if b@.len() == 8 { spec_u64_from_le_bytes(b@) } else { 0 },
            None => 0,
        },
{
    match bytes {
        Some(b) => {
            if b.len() == 8 {
                vstd::bytes::u64_from_le_bytes(b.as_slice())
            } else {
                0
            }
        }
        None => 0,
    }
}

} // verus!
