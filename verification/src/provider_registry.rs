//! The provider registry: compute providers register once and prove readiness
//! with fresh heartbeats.

use vstd::prelude::*;
use vstd::bytes::*;
use vstd::string::StringSliceAdditionalSpecFns;
use vstd::utf8::encode_utf8;
use crate::bytes::append_bytes;
use crate::codec::{
    lemma_compact_unique, lemma_scale_str_unique, push_scale_str, read_scale_string, scale_compact, scale_decode_compact,
    spec_scale_compact, spec_scale_str,
};
use crate::keys::{
    heartbeat_prefix, key_separator, method_heartbeat, method_register_provider, provider_prefix, spec_heartbeat_prefix,
    spec_key_separator, spec_method_heartbeat, spec_method_register_provider, spec_provider_prefix,
};
use crate::bytes::read_array;
use crate::service::{method_is, TxContext, TransactionError, RejectReason};
use crate::state::StateMap;

verus! {

/// The supply tier of a provider.
#[derive(Debug, Clone, Copy, PartialEq, Eq, Structural)]
pub enum SupplyTier {
    /// Tier 0: Foundation / Partner Nodes (Managed Supply).
    Foundation,
    /// Tier 1: Verified DePIN (Pro Supply).
    Verified,
    /// Tier 2: Community / Spot (Open Supply).
    Community,
}

/// The standing of a provider.
#[derive(Debug, Clone, Copy, PartialEq, Eq, Structural)]
pub enum ProviderStatus {
    Active,
    Jailed,
    Slashed,
}

/// The stored record of a provider.
#[derive(Debug, Clone)]
pub struct ProviderRecord {
    pub tier: SupplyTier,
    pub endpoint: String,
    pub capabilities: Vec<String>,
    pub stake: u128,
    pub status: ProviderStatus,
}

/// Parameters of `register@v1`.
#[derive(Debug, Clone)]
pub struct RegisterProviderParams {
    pub tier: SupplyTier,
    pub endpoint: String,
    pub capabilities: Vec<String>,
}

/// Parameters of `heartbeat@v1`.
#[derive(Debug, Clone, Copy)]
pub struct HeartbeatParams {
    pub model_hash: [u8; 32],
    pub timestamp: u64,
}

/// The provider registry service.
#[derive(Debug, Clone, Default)]
pub struct ProviderRegistryService;

/// The variant index of a tier in the encoding.
pub open spec fn spec_tier_index(t: SupplyTier) -> u8 {
    match t {
        SupplyTier::Foundation => 0,
        SupplyTier::Verified => 1,
        SupplyTier::Community => 2,
    }
}

/// The variant index of a status in the encoding.
pub open spec fn spec_status_index(s: ProviderStatus) -> u8 {
    match s {
        ProviderStatus::Active => 0,
        ProviderStatus::Jailed => 1,
        ProviderStatus::Slashed => 2,
    }
}

/// The concatenated encodings of a list of strings.
pub open spec fn spec_scale_strs(v: Seq<Seq<char>>) -> Seq<u8>
    decreases v.len(),
{
    if v.len() == 0 {
        Seq::empty()
    } else {
        spec_scale_strs(v.drop_last()) + spec_scale_str(v.last())
    }
}

/// The string values of a list of strings.
pub open spec fn strings_view(v: Seq<String>) -> Seq<Seq<char>> {
    v.map_values(|s: String| s@)
}

/// The encoding of a provider record: tier index, endpoint, the compact count
/// and encodings of the capabilities, the stake (16 bytes little-endian), status index.
pub open spec fn spec_record_bytes(
    tier: SupplyTier,
    endpoint: Seq<char>,
    capabilities: Seq<Seq<char>>,
    stake: u128,
    status: ProviderStatus,
) -> Seq<u8> {
    seq![spec_tier_index(tier)] + spec_scale_str(endpoint) + spec_scale_compact(capabilities.len() as u32)
        + spec_scale_strs(capabilities) + spec_u128_to_le_bytes(stake) + seq![spec_status_index(status)]
}

/// Whether the strings of a registration fit the encoding's `u32` lengths.
pub open spec fn spec_register_params_fit(p: RegisterProviderParams) -> bool {
    &&& encode_utf8(p.endpoint@).len() <= u32::MAX
    &&& p.capabilities@.len() <= u32::MAX
    &&& forall|i: int| 0 <= i < p.capabilities@.len() ==> encode_utf8(#[trigger] p.capabilities@[i]@).len() <= u32::MAX
}

/// The state key of a provider record.
pub open spec fn spec_provider_key(account: Seq<u8>) -> Seq<u8> {
    spec_provider_prefix() + account
}

/// The state key of a provider's heartbeat for a model.
pub open spec fn spec_heartbeat_key(account: Seq<u8>, model_hash: Seq<u8>) -> Seq<u8> {
    spec_heartbeat_prefix() + account + spec_key_separator() + model_hash
}

/// The block time in whole seconds.
pub open spec fn spec_now_secs(ctx: TxContext) -> int {
    ctx.block_timestamp_ns as int / 1_000_000_000
}

/// The state after a registration of the given tier, endpoint and
/// capabilities, or why it is refused.
pub open spec fn spec_register_fields(
    st: Map<Seq<u8>, Seq<u8>>,
    ctx: TxContext,
    tier: SupplyTier,
    endpoint: Seq<char>,
    capabilities: Seq<Seq<char>>,
) -> Result<Map<Seq<u8>, Seq<u8>>, TransactionError> {
    let key = spec_provider_key(ctx.signer_account_id@);
    if st.contains_key(key) {
        Err(TransactionError::Invalid(RejectReason::ProviderAlreadyRegistered))
    } else {
        Ok(st.insert(key, spec_record_bytes(tier, endpoint, capabilities, 0, ProviderStatus::Active)))
    }
}

/// The state after a registration, or why it is refused.
pub open spec fn spec_register(
    st: Map<Seq<u8>, Seq<u8>>,
    ctx: TxContext,
    p: RegisterProviderParams,
) -> Result<Map<Seq<u8>, Seq<u8>>, TransactionError> {
    spec_register_fields(st, ctx, p.tier, p.endpoint@, strings_view(p.capabilities@))
}

/// The state after a heartbeat, or why it is refused: the timestamp must lie
/// within 60 seconds before and 10 seconds after the block time.
pub open spec fn spec_heartbeat(
    st: Map<Seq<u8>, Seq<u8>>,
    ctx: TxContext,
    p: HeartbeatParams,
) -> Result<Map<Seq<u8>, Seq<u8>>, TransactionError> {
    let now = spec_now_secs(ctx);
    if p.timestamp > now + 10 || p.timestamp < now - 60 {
        Err(TransactionError::Invalid(RejectReason::HeartbeatOutOfBounds))
    } else {
        Ok(st.insert(spec_heartbeat_key(ctx.signer_account_id@, p.model_hash@), spec_u64_to_le_bytes(p.timestamp)))
    }
}

/// Whether every string of a list fits the encoding's `u32` length.
pub open spec fn spec_strs_fit(v: Seq<Seq<char>>) -> bool {
    forall|i: int| 0 <= i < v.len() ==> encode_utf8(#[trigger] v[i]).len() <= u32::MAX
}

proof fn lemma_scale_strs_front(v: Seq<Seq<char>>)
    requires
        v.len() > 0,
    ensures
        spec_scale_strs(v) == spec_scale_str(v[0]) + spec_scale_strs(v.drop_first()),
    decreases v.len(),
{
    if v.len() == 1 {
        assert(v.drop_first() =~= Seq::<Seq<char>>::empty());
        assert(v.drop_last() =~= Seq::<Seq<char>>::empty());
        assert(spec_scale_strs(v) =~= spec_scale_str(v[0]) + spec_scale_strs(v.drop_first()));
    } else {
        lemma_scale_strs_front(v.drop_last());
        assert(v.drop_last().drop_first() =~= v.drop_first().drop_last());
        assert(v.drop_first().last() == v.last());
        assert(v.drop_last()[0] == v[0]);
        assert(spec_scale_strs(v) =~= spec_scale_str(v[0]) + spec_scale_strs(v.drop_first()));
    }
}

/// Lists of strings of one length are read back unambiguously from their encodings.
proof fn lemma_scale_strs_unique(u: Seq<Seq<char>>, w: Seq<Seq<char>>, x: Seq<u8>, y: Seq<u8>)
    requires
        u.len() == w.len(),
        spec_strs_fit(u),
        spec_strs_fit(w),
        spec_scale_strs(u) + x == spec_scale_strs(w) + y,
    ensures
        u == w,
        x == y,
    decreases u.len(),
{
    if u.len() == 0 {
        assert(spec_scale_strs(u) + x =~= x);
        assert(spec_scale_strs(w) + y =~= y);
        assert(u =~= w);
    } else {
        lemma_scale_strs_front(u);
        lemma_scale_strs_front(w);
        assert(encode_utf8(u[0]).len() <= u32::MAX);
        assert(encode_utf8(w[0]).len() <= u32::MAX);
        assert(spec_scale_strs(u) + x =~= spec_scale_str(u[0]) + (spec_scale_strs(u.drop_first()) + x));
        assert(spec_scale_strs(w) + y =~= spec_scale_str(w[0]) + (spec_scale_strs(w.drop_first()) + y));
        lemma_scale_str_unique(u[0], w[0], spec_scale_strs(u.drop_first()) + x, spec_scale_strs(w.drop_first()) + y);
        assert forall|i: int| 0 <= i < u.drop_first().len() implies
            encode_utf8(#[trigger] u.drop_first()[i]).len() <= u32::MAX by {
            assert(u.drop_first()[i] == u[i + 1]);
        }
        assert forall|i: int| 0 <= i < w.drop_first().len() implies
            encode_utf8(#[trigger] w.drop_first()[i]).len() <= u32::MAX by {
            assert(w.drop_first()[i] == w[i + 1]);
        }
        lemma_scale_strs_unique(u.drop_first(), w.drop_first(), x, y);
        assert(u =~= seq![u[0]] + u.drop_first());
        assert(w =~= seq![w[0]] + w.drop_first());
    }
}

/// Reads `n` SCALE strings from the front of `b`.
fn read_scale_strs(b: &[u8], n: u32) -> (r: Option<(Vec<String>, &[u8])>)
    ensures
        match r {
            Some((v, rest)) => v@.len() == n && spec_strs_fit(strings_view(v@))
                && b@ == spec_scale_strs(strings_view(v@)) + rest@,
            None => forall|v: Seq<Seq<char>>, rest: Seq<u8>|
                v.len() == n && spec_strs_fit(v) ==> b@ != #[trigger] (spec_scale_strs(v) + rest),
        },
{
    let mut out: Vec<String> = Vec::new();
    let mut cur: &[u8] = b;
    let mut i: u32 = 0;
    while i < n
        invariant
            i <= n,
            out@.len() == i,
            spec_strs_fit(strings_view(out@)),
            b@ == spec_scale_strs(strings_view(out@)) + cur@,
        decreases n - i,
    {
        match read_scale_string(cur) {
            Some((s, rest)) => {
                let ghost before = strings_view(out@);
                out.push(s);
                proof {
                    assert(strings_view(out@) =~= before.push(s@));
                    assert(strings_view(out@).drop_last() =~= before);
                    assert(b@ =~= spec_scale_strs(strings_view(out@)) + rest@);
                }
                cur = rest;
                i = i + 1;
            }
            None => {
                proof {
                    let k = i as int;
                    assert forall|v: Seq<Seq<char>>, rest: Seq<u8>|
                        v.len() == n && spec_strs_fit(v) implies b@ != #[trigger] (spec_scale_strs(v) + rest) by {
                        if b@ == spec_scale_strs(v) + rest {
                            let pre = v.subrange(0, k);
                            let post = v.subrange(k, v.len() as int);
                            lemma_scale_strs_concat(pre, post);
                            assert(v =~= pre + post);
                            assert(spec_strs_fit(pre));
                            assert(spec_strs_fit(post));
                            assert(b@ =~= spec_scale_strs(pre) + (spec_scale_strs(post) + rest));
                            lemma_scale_strs_unique(pre, strings_view(out@), spec_scale_strs(post) + rest, cur@);
                            lemma_scale_strs_front(post);
                            assert(cur@ =~= spec_scale_str(post[0]) + (spec_scale_strs(post.drop_first()) + rest));
                        }
                    }
                }
                return None;
            }
        }
    }
    Some((out, cur))
}

proof fn lemma_scale_strs_concat(a: Seq<Seq<char>>, b: Seq<Seq<char>>)
    ensures
        spec_scale_strs(a + b) == spec_scale_strs(a) + spec_scale_strs(b),
    decreases b.len(),
{
    if b.len() == 0 {
        assert(a + b =~= a);
        assert(spec_scale_strs(a) + spec_scale_strs(b) =~= spec_scale_strs(a));
    } else {
        lemma_scale_strs_concat(a, b.drop_last());
        assert((a + b).drop_last() =~= a + b.drop_last());
        assert((a + b).last() == b.last());
        assert(spec_scale_strs(a + b) =~= spec_scale_strs(a) + spec_scale_strs(b));
    }
}

fn push_scale_strs(out: &mut Vec<u8>, v: &Vec<String>)
    requires
        forall|i: int| 0 <= i < v@.len() ==> encode_utf8(#[trigger] v@[i]@).len() <= u32::MAX,
    ensures
        final(out)@ == old(out)@ + spec_scale_strs(strings_view(v@)),
{
    let ghost start = out@;
    let n = v.len();
    let mut i: usize = 0;
    while i < n
        invariant
            n == v@.len(),
            i <= n,
            forall|j: int| 0 <= j < v@.len() ==> encode_utf8(#[trigger] v@[j]@).len() <= u32::MAX,
            out@ == start + spec_scale_strs(strings_view(v@.subrange(0, i as int))),
        decreases n - i,
    {
        let s: &str = v[i].as_str();
        assert(s.spec_bytes() == encode_utf8(v@[i as int]@));
        push_scale_str(out, s);
        assert(strings_view(v@.subrange(0, i + 1)).drop_last() =~= strings_view(v@.subrange(0, i as int)));
        i = i + 1;
    }
    assert(v@.subrange(0, n as int) =~= v@);
}

/// The encoding of a provider record.
pub fn record_to_bytes(r: &ProviderRecord) -> (b: Vec<u8>)
    requires
        encode_utf8(r.endpoint@).len() <= u32::MAX,
        r.capabilities@.len() <= u32::MAX,
        forall|i: int| 0 <= i < r.capabilities@.len() ==> encode_utf8(#[trigger] r.capabilities@[i]@).len() <= u32::MAX,
    ensures
        b@ == spec_record_bytes(r.tier, r.endpoint@, strings_view(r.capabilities@), r.stake, r.status),
{
    let mut out: Vec<u8> = Vec::new();
    let tier: u8 = match r.tier {
        SupplyTier::Foundation => 0,
        SupplyTier::Verified => 1,
        SupplyTier::Community => 2,
    };
    out.push(tier);
    push_scale_str(&mut out, r.endpoint.as_str());
    let count = scale_compact(r.capabilities.len() as u32);
    append_bytes(&mut out, count.as_slice());
    push_scale_strs(&mut out, &r.capabilities);
    let stake = u128_to_le_bytes(r.stake);
    append_bytes(&mut out, stake.as_slice());
    let status: u8 = match r.status {
        ProviderStatus::Active => 0,
        ProviderStatus::Jailed => 1,
        ProviderStatus::Slashed => 2,
    };
    out.push(status);
    assert(strings_view(r.capabilities@).len() == r.capabilities@.len());
    assert(out@ =~= spec_record_bytes(r.tier, r.endpoint@, strings_view(r.capabilities@), r.stake, r.status));
    out
}

impl ProviderRegistryService {
    /// `register@v1`: records the signer as an active provider with no stake,
    /// unless it is already registered.
    pub fn register(&self, state: &mut StateMap, ctx: &TxContext, p: RegisterProviderParams) -> (r: Result<(), TransactionError>)
        requires
            spec_register_params_fit(p),
        ensures
            match spec_register(old(state).view(), *ctx, p) {
                Ok(st) => r is Ok && final(state).view() == st,
                Err(e) => r == Err::<(), TransactionError>(e) && final(state).view() == old(state).view(),
            },
    {
        let mut key = provider_prefix();
        append_bytes(&mut key, ctx.signer_account_id.as_slice());
        if state.get(key.as_slice()).is_some() {
            return Err(TransactionError::Invalid(RejectReason::ProviderAlreadyRegistered));
        }
        let ghost caps = strings_view(p.capabilities@);
        let record = ProviderRecord {
            tier: p.tier,
            endpoint: p.endpoint,
            capabilities: p.capabilities,
            stake: 0,
            status: ProviderStatus::Active,
        };
        let bytes = record_to_bytes(&record);
        state.insert(key.as_slice(), bytes.as_slice());
        Ok(())
    }

    /// `heartbeat@v1`: stores the heartbeat time of the signer for a model when
    /// it is fresh: no more than 10 seconds ahead of and 60 seconds behind the block time.
    pub fn heartbeat(&self, state: &mut StateMap, ctx: &TxContext, p: HeartbeatParams) -> (r: Result<(), TransactionError>)
        requires
            spec_now_secs(*ctx) >= 60,
        ensures
            match spec_heartbeat(old(state).view(), *ctx, p) {
                Ok(st) => r is Ok && final(state).view() == st,
                Err(e) => r == Err::<(), TransactionError>(e) && final(state).view() == old(state).view(),
            },
    {
        let now = ctx.block_timestamp_ns / 1_000_000_000;
        if p.timestamp > now + 10 || p.timestamp < now - 60 {
            return Err(TransactionError::Invalid(RejectReason::HeartbeatOutOfBounds));
        }
        let mut key = heartbeat_prefix();
        append_bytes(&mut key, ctx.signer_account_id.as_slice());
        let sep = key_separator();
        append_bytes(&mut key, sep.as_slice());
        append_bytes(&mut key, p.model_hash.as_slice());
        let value = u64_to_le_bytes(p.timestamp);
        state.insert(key.as_slice(), value.as_slice());
        Ok(())
    }
}

/// The encoding of registration parameters: the tier index, the endpoint, and
/// the compact count and encodings of the capabilities.
pub open spec fn spec_register_params_bytes(tier: SupplyTier, endpoint: Seq<char>, capabilities: Seq<Seq<char>>) -> Seq<u8> {
    seq![spec_tier_index(tier)] + spec_scale_str(endpoint) + spec_scale_compact(capabilities.len() as u32)
        + spec_scale_strs(capabilities)
}

/// Whether registration fields fit the encoding's `u32` lengths.
pub open spec fn spec_register_fields_fit(endpoint: Seq<char>, capabilities: Seq<Seq<char>>) -> bool {
    &&& encode_utf8(endpoint).len() <= u32::MAX
    &&& capabilities.len() <= u32::MAX
    &&& spec_strs_fit(capabilities)
}

/// Whether some registration parameters encode to `b`.
pub open spec fn spec_register_params_decode(b: Seq<u8>) -> bool {
    exists|t: SupplyTier, e: Seq<char>, c: Seq<Seq<char>>|
        spec_register_fields_fit(e, c) && #[trigger] spec_register_params_bytes(t, e, c) == b
}

/// Decodes registration parameters; succeeds exactly on an encoding of some parameters.
#[verifier::spinoff_prover]
#[verifier::rlimit(60)]
pub fn decode_register_params(b: &[u8]) -> (r: Option<RegisterProviderParams>)
    ensures
        match r {
            Some(p) => spec_register_params_fit(p)
                && spec_register_params_bytes(p.tier, p.endpoint@, strings_view(p.capabilities@)) == b@,
            None => !spec_register_params_decode(b@),
        },
{
    if b.len() < 1 || b[0] > 2 {
        proof {
            if spec_register_params_decode(b@) {
                let (t, e, c) = choose|t: SupplyTier, e: Seq<char>, c: Seq<Seq<char>>|
                    spec_register_fields_fit(e, c) && #[trigger] spec_register_params_bytes(t, e, c) == b@;
                assert(spec_register_params_bytes(t, e, c)[0] == spec_tier_index(t));
            }
        }
        return None;
    }
    let tier = if b[0] == 0 { SupplyTier::Foundation } else if b[0] == 1 { SupplyTier::Verified } else { SupplyTier::Community };
    let tail = vstd::slice::slice_subrange(b, 1, b.len());
    proof {
        assert(b@ =~= seq![spec_tier_index(tier)] + tail@);
        assert forall|t: SupplyTier, e: Seq<char>, c: Seq<Seq<char>>|
            spec_register_fields_fit(e, c) && #[trigger] spec_register_params_bytes(t, e, c) == b@ implies
            t == tier && tail@ == spec_scale_str(e) + (spec_scale_compact(c.len() as u32) + spec_scale_strs(c)) by {
            assert(spec_register_params_bytes(t, e, c) =~= seq![spec_tier_index(t)]
                + (spec_scale_str(e) + (spec_scale_compact(c.len() as u32) + spec_scale_strs(c))));
            assert(tail@ =~= b@.subrange(1, b@.len() as int));
        }
    }
    let (endpoint, rest) = match read_scale_string(tail) {
        Some(x) => x,
        None => {
            proof {
                if spec_register_params_decode(b@) {
                    let (t, e, c) = choose|t: SupplyTier, e: Seq<char>, c: Seq<Seq<char>>|
                        spec_register_fields_fit(e, c) && #[trigger] spec_register_params_bytes(t, e, c) == b@;
                    assert(tail@ == spec_scale_str(e) + (spec_scale_compact(c.len() as u32) + spec_scale_strs(c)));
                }
            }
            return None;
        }
    };
    proof {
        assert forall|t: SupplyTier, e: Seq<char>, c: Seq<Seq<char>>|
            spec_register_fields_fit(e, c) && #[trigger] spec_register_params_bytes(t, e, c) == b@ implies
            e == endpoint@ && rest@ == spec_scale_compact(c.len() as u32) + spec_scale_strs(c) by {
            lemma_scale_str_unique(e, endpoint@, spec_scale_compact(c.len() as u32) + spec_scale_strs(c), rest@);
        }
    }
    let (count, rest2) = match scale_decode_compact(rest) {
        Some(x) => x,
        None => {
            proof {
                if spec_register_params_decode(b@) {
                    let (t, e, c) = choose|t: SupplyTier, e: Seq<char>, c: Seq<Seq<char>>|
                        spec_register_fields_fit(e, c) && #[trigger] spec_register_params_bytes(t, e, c) == b@;
                    assert(spec_scale_compact(c.len() as u32).is_prefix_of(rest@));
                }
            }
            return None;
        }
    };
    proof {
        assert forall|t: SupplyTier, e: Seq<char>, c: Seq<Seq<char>>|
            spec_register_fields_fit(e, c) && #[trigger] spec_register_params_bytes(t, e, c) == b@ implies
            c.len() == count && rest2@ == spec_scale_strs(c) by {
            lemma_compact_unique(count, c.len() as u32, rest2@, spec_scale_strs(c));
        }
    }
    let (capabilities, rest3) = match read_scale_strs(rest2, count) {
        Some(x) => x,
        None => {
            proof {
                if spec_register_params_decode(b@) {
                    let (t, e, c) = choose|t: SupplyTier, e: Seq<char>, c: Seq<Seq<char>>|
                        spec_register_fields_fit(e, c) && #[trigger] spec_register_params_bytes(t, e, c) == b@;
                    assert(rest2@ == spec_scale_strs(c) + Seq::<u8>::empty());
                }
            }
            return None;
        }
    };
    if rest3.len() != 0 {
        proof {
            if spec_register_params_decode(b@) {
                let (t, e, c) = choose|t: SupplyTier, e: Seq<char>, c: Seq<Seq<char>>|
                    spec_register_fields_fit(e, c) && #[trigger] spec_register_params_bytes(t, e, c) == b@;
                assert(rest2@ == spec_scale_strs(c) + Seq::<u8>::empty());
                lemma_scale_strs_unique(c, strings_view(capabilities@), Seq::<u8>::empty(), rest3@);
            }
        }
        return None;
    }
    let p = RegisterProviderParams { tier, endpoint, capabilities };
    proof {
        assert(strings_view(p.capabilities@).len() == p.capabilities@.len());
        assert forall|i: int| 0 <= i < p.capabilities@.len() implies
            encode_utf8(#[trigger] p.capabilities@[i]@).len() <= u32::MAX by {
            assert(strings_view(p.capabilities@)[i] == p.capabilities@[i]@);
        }
        assert(rest3@ =~= Seq::<u8>::empty());
        assert(spec_register_params_bytes(p.tier, p.endpoint@, strings_view(p.capabilities@)) =~= b@);
    }
    Some(p)
}

/// The encoding of heartbeat parameters: the model hash and the timestamp, little-endian.
pub open spec fn spec_heartbeat_params_bytes(p: HeartbeatParams) -> Seq<u8> {
    p.model_hash@ + spec_u64_to_le_bytes(p.timestamp)
}

/// Decodes heartbeat parameters: exactly 40 bytes.
pub fn decode_heartbeat_params(b: &[u8]) -> (r: Option<HeartbeatParams>)
    ensures
        match r {
            Some(p) => spec_heartbeat_params_bytes(p) == b@,
            None => b@.len() != 40,
        },
{
    if b.len() != 40 {
        return None;
    }
    let model_hash: [u8; 32] = read_array(b, 0);
    let ts_bytes = vstd::slice::slice_subrange(b, 32, 40);
    let timestamp = u64_from_le_bytes(ts_bytes);
    proof {
        lemma_auto_spec_u64_to_from_le_bytes();
        assert(b@ =~= model_hash@ + ts_bytes@);
    }
    Some(HeartbeatParams { model_hash, timestamp })
}

/// The outcome of a registry call: the new state, or the error.
pub open spec fn spec_handle_provider_call(
    st: Map<Seq<u8>, Seq<u8>>,
    method: Seq<u8>,
    params: Seq<u8>,
    ctx: TxContext,
) -> Result<Map<Seq<u8>, Seq<u8>>, TransactionError> {
    if method == spec_method_register_provider() {
        if spec_register_params_decode(params) {
            let (t, e, c) = choose|t: SupplyTier, e: Seq<char>, c: Seq<Seq<char>>|
                spec_register_fields_fit(e, c) && #[trigger] spec_register_params_bytes(t, e, c) == params;
            spec_register_fields(st, ctx, t, e, c)
        } else {
            Err(TransactionError::Deserialization)
        }
    } else if method == spec_method_heartbeat() {
        if params.len() == 40 {
            spec_heartbeat(st, ctx, HeartbeatParams {
                model_hash: choose|h: [u8; 32]| h@ == params.subrange(0, 32),
                timestamp: spec_u64_from_le_bytes(params.subrange(32, 40)),
            })
        } else {
            Err(TransactionError::Deserialization)
        }
    } else {
        Err(TransactionError::Unsupported)
    }
}

impl ProviderRegistryService {
    /// Dispatches a registry call: `register@v1` or `heartbeat@v1`, with
    /// canonically encoded parameters.
    pub fn handle_service_call(
        &self,
        state: &mut StateMap,
        method: &str,
        params: &[u8],
        ctx: &TxContext,
    ) -> (r: Result<(), TransactionError>)
        requires
            method.spec_bytes() == spec_method_heartbeat() && params@.len() == 40 ==> spec_now_secs(*ctx) >= 60,
        ensures
            match spec_handle_provider_call(old(state).view(), method.spec_bytes(), params@, *ctx) {
                Ok(st) => r is Ok && final(state).view() == st,
                Err(e) => r == Err::<(), TransactionError>(e) && final(state).view() == old(state).view(),
            },
    {
        let register = method_register_provider();
        let heartbeat = method_heartbeat();
        if method_is(method, register.as_slice()) {
            match decode_register_params(params) {
                Some(p) => {
                    proof {
                        let (t, e, c) = choose|t: SupplyTier, e: Seq<char>, c: Seq<Seq<char>>|
                            spec_register_fields_fit(e, c) && #[trigger] spec_register_params_bytes(t, e, c) == params@;
                        assert(spec_register_fields_fit(p.endpoint@, strings_view(p.capabilities@)));
                        lemma_register_params_unique(t, e, c, p.tier, p.endpoint@, strings_view(p.capabilities@));
                    }
                    self.register(state, ctx, p)
                }
                None => Err(TransactionError::Deserialization),
            }
        } else if method_is(method, heartbeat.as_slice()) {
            match decode_heartbeat_params(params) {
                Some(p) => {
                    proof {
                        lemma_auto_spec_u64_to_from_le_bytes();
                        let h = choose|h: [u8; 32]| h@ == params@.subrange(0, 32);
                        assert(p.model_hash@ =~= params@.subrange(0, 32));
                        assert(h@ == p.model_hash@);
                        assert(params@.subrange(32, 40) =~= spec_u64_to_le_bytes(p.timestamp));
                    }
                    self.heartbeat(state, ctx, p)
                }
                None => Err(TransactionError::Deserialization),
            }
        } else {
            Err(TransactionError::Unsupported)
        }
    }
}

/// Registration parameters are read back unambiguously from their encoding.
pub proof fn lemma_register_params_unique(
    t1: SupplyTier, e1: Seq<char>, c1: Seq<Seq<char>>,
    t2: SupplyTier, e2: Seq<char>, c2: Seq<Seq<char>>,
)
    requires
        spec_register_fields_fit(e1, c1),
        spec_register_fields_fit(e2, c2),
        spec_register_params_bytes(t1, e1, c1) == spec_register_params_bytes(t2, e2, c2),
    ensures
        t1 == t2,
        e1 == e2,
        c1 == c2,
{
    let b1 = spec_register_params_bytes(t1, e1, c1);
    let b2 = spec_register_params_bytes(t2, e2, c2);
    assert(b1[0] == spec_tier_index(t1));
    assert(b2[0] == spec_tier_index(t2));
    let x1 = spec_scale_compact(c1.len() as u32) + spec_scale_strs(c1);
    let x2 = spec_scale_compact(c2.len() as u32) + spec_scale_strs(c2);
    assert(b1 =~= seq![spec_tier_index(t1)] + (spec_scale_str(e1) + x1));
    assert(b2 =~= seq![spec_tier_index(t2)] + (spec_scale_str(e2) + x2));
    assert(spec_scale_str(e1) + x1 =~= b1.subrange(1, b1.len() as int));
    assert(spec_scale_str(e2) + x2 =~= b2.subrange(1, b2.len() as int));
    lemma_scale_str_unique(e1, e2, x1, x2);
    lemma_compact_unique(c1.len() as u32, c2.len() as u32, spec_scale_strs(c1), spec_scale_strs(c2));
    assert(spec_scale_strs(c1) + Seq::<u8>::empty() =~= spec_scale_strs(c1));
    assert(spec_scale_strs(c2) + Seq::<u8>::empty() =~= spec_scale_strs(c2));
    lemma_scale_strs_unique(c1, c2, Seq::<u8>::empty(), Seq::<u8>::empty());
}

} // verus!
