//! The compute market: task requests become on-chain job tickets with fresh
//! ids, and settled provisioning removes them.

use vstd::prelude::*;
use vstd::bytes::*;
use vstd::string::{StringExecFns, StringSliceAdditionalSpecFns};
use vstd::utf8::encode_utf8;
use crate::bytes::append_bytes;
use crate::codec::{push_scale_str, spec_scale_str};
use crate::keys::{compute_next_id_key, tickets_prefix, spec_compute_next_id_key, spec_tickets_prefix};
use crate::service::TxContext;
use crate::state::StateMap;

verus! {

/// The requirements of an external compute task.
#[derive(Debug, Clone)]
pub struct ComputeSpecs {
    /// The class of provider required (e.g. "bare-metal", "api-gateway").
    pub provider_type: String,
    /// The specific model or capability required (e.g. "gpu-h100").
    pub capability_id: String,
    /// Geographic or network region preference.
    pub region: String,
}

/// The immutable, on-chain record of a compute request.
#[derive(Debug, Clone)]
pub struct JobTicket {
    pub request_id: u64,
    pub owner: [u8; 32],
    pub specs: ComputeSpecs,
    pub max_bid: u64,
    pub expiry_height: u64,
    pub security_tier: u8,
    pub nonce: u64,
}

/// The proof a provider submits to claim payment.
#[derive(Debug, Clone)]
pub struct ProvisioningReceipt {
    pub request_id: u64,
    pub ticket_root: [u8; 32],
    pub provider_id: Vec<u8>,
    pub endpoint_uri: String,
    pub instance_id: String,
    pub provider_signature: Vec<u8>,
}

/// The compute market service.
#[derive(Default, Debug)]
pub struct ComputeMarketService;

/// The decimal ASCII digits of `n`.
pub open spec fn spec_decimal(n: nat) -> Seq<u8>
    decreases n,
{
    if n < 10 {
        seq![(48 + n) as u8]
    } else {
        spec_decimal(n / 10).push((48 + n % 10) as u8)
    }
}

/// Appends the decimal ASCII digits of `n`.
pub fn push_decimal(out: &mut Vec<u8>, n: u64)
    ensures
        final(out)@ == old(out)@ + spec_decimal(n as nat),
    decreases n,
{
    if n >= 10 {
        push_decimal(out, n / 10);
    }
    let d = (n % 10) as u8;
    out.push(48 + d);
    assert(final(out)@ =~= old(out)@ + spec_decimal(n as nat));
}

/// The decimal digits of `n` as characters.
pub open spec fn spec_decimal_chars(n: nat) -> Seq<char>
    decreases n,
{
    if n < 10 {
        seq![(48 + n) as char]
    } else {
        spec_decimal_chars(n / 10).push((48 + n % 10) as char)
    }
}

fn digit_str(d: u64) -> (s: &'static str)
    requires
        d < 10,
    ensures
        s@ == seq![(48 + d) as char],
{
    match d {
        0 => {
            proof {
                reveal_strlit("0");
            }
            "0"
        }
        1 => {
            proof {
                reveal_strlit("1");
            }
            "1"
        }
        2 => {
            proof {
                reveal_strlit("2");
            }
            "2"
        }
        3 => {
            proof {
                reveal_strlit("3");
            }
            "3"
        }
        4 => {
            proof {
                reveal_strlit("4");
            }
            "4"
        }
        5 => {
            proof {
                reveal_strlit("5");
            }
            "5"
        }
        6 => {
            proof {
                reveal_strlit("6");
            }
            "6"
        }
        7 => {
            proof {
                reveal_strlit("7");
            }
            "7"
        }
        8 => {
            proof {
                reveal_strlit("8");
            }
            "8"
        }
        _ => {
            proof {
                reveal_strlit("9");
            }
            "9"
        }
    }
}

/// The decimal digits of `n` as a string.
pub fn decimal_string(n: u64) -> (r: String)
    ensures
        r@ == spec_decimal_chars(n as nat),
    decreases n,
{
    let mut s = if n >= 10 { decimal_string(n / 10) } else { String::new() };
    s.append(digit_str(n % 10));
    assert(s@ =~= spec_decimal_chars(n as nat));
    s
}

/// The state key of a ticket: `tickets::` and the decimal id.
pub open spec fn spec_ticket_key(id: u64) -> Seq<u8> {
    spec_tickets_prefix() + spec_decimal(id as nat)
}

/// The state key of a ticket: `tickets::` and the decimal id.
pub fn ticket_key(id: u64) -> (r: Vec<u8>)
    ensures
        r@ == spec_ticket_key(id),
{
    let mut r = tickets_prefix();
    push_decimal(&mut r, id);
    r
}

/// The encoding of a job ticket: fields in order, integers little-endian, the
/// owner's 32 bytes, the three spec strings length-prefixed.
pub open spec fn spec_ticket_bytes(t: JobTicket) -> Seq<u8> {
    spec_u64_to_le_bytes(t.request_id) + t.owner@ + spec_scale_str(t.specs.provider_type@)
        + spec_scale_str(t.specs.capability_id@) + spec_scale_str(t.specs.region@)
        + spec_u64_to_le_bytes(t.max_bid) + spec_u64_to_le_bytes(t.expiry_height)
        + seq![t.security_tier] + spec_u64_to_le_bytes(t.nonce)
}

/// Whether the strings of a spec fit the encoding's `u32` lengths.
pub open spec fn spec_specs_fit(s: ComputeSpecs) -> bool {
    &&& encode_utf8(s.provider_type@).len() <= u32::MAX
    &&& encode_utf8(s.capability_id@).len() <= u32::MAX
    &&& encode_utf8(s.region@).len() <= u32::MAX
}

/// The encoding of a job ticket.
pub fn ticket_to_bytes(t: &JobTicket) -> (b: Vec<u8>)
    requires
        spec_specs_fit(t.specs),
    ensures
        b@ == spec_ticket_bytes(*t),
{
    let mut out = u64_to_le_bytes(t.request_id);
    append_bytes(&mut out, t.owner.as_slice());
    push_scale_str(&mut out, t.specs.provider_type.as_str());
    push_scale_str(&mut out, t.specs.capability_id.as_str());
    push_scale_str(&mut out, t.specs.region.as_str());
    let a = u64_to_le_bytes(t.max_bid);
    append_bytes(&mut out, a.as_slice());
    let e = u64_to_le_bytes(t.expiry_height);
    append_bytes(&mut out, e.as_slice());
    out.push(t.security_tier);
    let n = u64_to_le_bytes(t.nonce);
    append_bytes(&mut out, n.as_slice());
    assert(out@ =~= spec_ticket_bytes(*t));
    out
}

/// The id the next request gets: the stored counter, or 1 where none is stored.
pub open spec fn spec_next_id(st: Map<Seq<u8>, Seq<u8>>) -> u64 {
    if st.contains_key(spec_compute_next_id_key()) {
        spec_u64_from_le_bytes(st[spec_compute_next_id_key()])
    } else {
        1
    }
}

/// Whether the stored counter can be read and advanced: it is absent, or eight
/// bytes below `u64::MAX`.
pub open spec fn spec_counter_ok(st: Map<Seq<u8>, Seq<u8>>) -> bool {
    st.contains_key(spec_compute_next_id_key()) ==> (st[spec_compute_next_id_key()].len() == 8
        && spec_u64_from_le_bytes(st[spec_compute_next_id_key()]) < u64::MAX)
}

/// The ticket that a request with id `id` records.
pub open spec fn spec_new_ticket(id: u64, ctx: TxContext, specs: ComputeSpecs) -> JobTicket {
    JobTicket {
        request_id: id,
        owner: ctx.signer_account_id,
        specs,
        max_bid: 1000,
        expiry_height: (ctx.block_height + 600) as u64,
        security_tier: 1,
        nonce: 0,
    }
}

/// The state after a request: the counter advanced and the ticket recorded
/// under the id the request took.
pub open spec fn spec_after_request(st: Map<Seq<u8>, Seq<u8>>, ctx: TxContext, specs: ComputeSpecs) -> Map<Seq<u8>, Seq<u8>> {
    let id = spec_next_id(st);
    st.insert(spec_compute_next_id_key(), spec_u64_to_le_bytes((id + 1) as u64))
        .insert(spec_ticket_key(id), spec_ticket_bytes(spec_new_ticket(id, ctx, specs)))
}

proof fn lemma_decimal_nonempty(n: nat)
    ensures
        spec_decimal(n).len() >= 1,
        n >= 10 ==> spec_decimal(n).len() >= 2,
    decreases n,
{
    if n >= 10 {
        lemma_decimal_nonempty(n / 10);
    }
}

/// Distinct numbers have distinct decimal digits.
pub proof fn lemma_decimal_injective(a: nat, b: nat)
    requires
        spec_decimal(a) == spec_decimal(b),
    ensures
        a == b,
    decreases a,
{
    lemma_decimal_nonempty(a);
    lemma_decimal_nonempty(b);
    if a >= 10 && b >= 10 {
        assert(spec_decimal(a).drop_last() =~= spec_decimal(a / 10));
        assert(spec_decimal(b).drop_last() =~= spec_decimal(b / 10));
        lemma_decimal_injective(a / 10, b / 10);
        assert(spec_decimal(a).last() == (48 + a % 10) as u8);
        assert(spec_decimal(b).last() == (48 + b % 10) as u8);
        assert(a % 10 == b % 10);
    } else if a < 10 && b < 10 {
        assert(spec_decimal(a)[0] == (48 + a) as u8);
        assert(spec_decimal(b)[0] == (48 + b) as u8);
    } else {
        assert(spec_decimal(a).len() != spec_decimal(b).len());
    }
}

/// Distinct request ids are stored under distinct ticket keys, none of them the
/// key of the id counter.
pub proof fn lemma_ticket_keys_distinct(a: u64, b: u64)
    ensures
        a != b ==> spec_ticket_key(a) != spec_ticket_key(b),
        spec_ticket_key(a) != spec_compute_next_id_key(),
{
    if spec_ticket_key(a) == spec_ticket_key(b) {
        let n = spec_tickets_prefix().len() as int;
        assert(spec_ticket_key(a).subrange(n, spec_ticket_key(a).len() as int) =~= spec_decimal(a as nat));
        assert(spec_ticket_key(b).subrange(n, spec_ticket_key(b).len() as int) =~= spec_decimal(b as nat));
        lemma_decimal_injective(a as nat, b as nat);
    }
    assert(spec_ticket_key(a)[0] != spec_compute_next_id_key()[0]);
}

/// Each request takes a fresh id: the one after it gets the next integer, and
/// the counter can be advanced again while below `u64::MAX - 1`.
pub proof fn lemma_request_advances_id(st: Map<Seq<u8>, Seq<u8>>, ctx: TxContext, specs: ComputeSpecs)
    requires
        spec_counter_ok(st),
    ensures
        spec_next_id(spec_after_request(st, ctx, specs)) == spec_next_id(st) + 1,
        spec_next_id(st) + 1 < u64::MAX ==> spec_counter_ok(spec_after_request(st, ctx, specs)),
{
    let id = spec_next_id(st);
    lemma_ticket_keys_distinct(id, id);
    let bytes = spec_u64_to_le_bytes((id + 1) as u64);
    lemma_auto_spec_u64_to_from_le_bytes();
    assert(bytes.len() == 8);
    assert(spec_u64_from_le_bytes(bytes) == id + 1);
}

impl ComputeMarketService {
    /// Takes the next request id and advances the stored counter.
    fn next_id(&self, state: &mut StateMap) -> (id: u64)
        requires
            spec_counter_ok(old(state).view()),
        ensures
            id == spec_next_id(old(state).view()),
            final(state).view() == old(state).view().insert(spec_compute_next_id_key(), spec_u64_to_le_bytes((id + 1) as u64)),
    {
        let key = compute_next_id_key();
        let id = match state.get(key.as_slice()) {
            Some(b) => u64_from_le_bytes(b.as_slice()),
            None => 1,
        };
        let next = u64_to_le_bytes(id + 1);
        state.insert(key.as_slice(), next.as_slice());
        id
    }

    /// Dispatches a new task request: records a ticket owned by the signer under
    /// a fresh id, with a bid cap of 1000 and an expiry 600 blocks ahead.
    pub fn request_task(&self, state: &mut StateMap, params: ComputeSpecs, ctx: &TxContext) -> (r: Result<(), crate::service::TransactionError>)
        requires
            spec_counter_ok(old(state).view()),
            ctx.block_height + 600 <= u64::MAX,
            spec_specs_fit(params),
        ensures
            r is Ok,
            final(state).view() == spec_after_request(old(state).view(), *ctx, params),
    {
        let id = self.next_id(state);
        let ticket = JobTicket {
            request_id: id,
            owner: ctx.signer_account_id,
            specs: params,
            max_bid: 1000,
            expiry_height: ctx.block_height + 600,
            security_tier: 1,
            nonce: 0,
        };
        let key = ticket_key(id);
        let bytes = ticket_to_bytes(&ticket);
        state.insert(key.as_slice(), bytes.as_slice());
        Ok(())
    }

    /// Settles a completed provisioning request: its ticket is removed.
    pub fn finalize_provisioning(&self, state: &mut StateMap, params: ProvisioningReceipt, _ctx: &TxContext) -> (r: Result<(), crate::service::TransactionError>)
        ensures
            r is Ok,
            final(state).view() == old(state).view().remove(spec_ticket_key(params.request_id)),
    {
        let key = ticket_key(params.request_id);
        state.delete(key.as_slice());
        Ok(())
    }
}

} // verus!
