//! The parameters of governance calls as they arrive: canonically (SCALE)
//! encoded bytes, decoded here into typed values.

use vstd::prelude::*;
use vstd::bytes::*;
use vstd::utf8::encode_utf8;
use crate::bytes::read_array;
use crate::codec::{
    lemma_scale_bytes_unique, lemma_scale_str_unique, read_scale_bytes, read_scale_string, spec_scale_bytes,
    spec_scale_str,
};
use crate::governance::{decode_vote, spec_decode_vote, spec_vote_index, VoteOption};

verus! {

/// The parameters of a vote.
#[derive(Debug, Clone, Copy, PartialEq, Eq, Structural)]
pub struct VoteParams {
    pub proposal_id: u64,
    pub option: VoteOption,
}

/// The parameters of a stake: the staker's public key and the amount.
#[derive(Debug, Clone)]
pub struct StakeParams {
    pub public_key: Vec<u8>,
    pub amount: u64,
}

/// The parameters of an unstake.
#[derive(Debug, Clone, Copy, PartialEq, Eq, Structural)]
pub struct UnstakeParams {
    pub amount: u64,
}

/// The parameters of storing a module: its manifest and its artifact.
#[derive(Debug, Clone)]
pub struct StoreModuleParams {
    pub manifest: String,
    pub artifact: Vec<u8>,
}

/// The parameters of scheduling a module swap.
#[derive(Debug, Clone)]
pub struct SwapModuleParams {
    pub service_id: String,
    pub manifest_hash: [u8; 32],
    pub artifact_hash: [u8; 32],
    pub activation_height: u64,
}

/// The encoding of vote parameters: the proposal id little-endian, then the option's index.
pub open spec fn spec_vote_params_bytes(p: VoteParams) -> Seq<u8> {
    spec_u64_to_le_bytes(p.proposal_id) + seq![spec_vote_index(p.option)]
}

/// Decodes vote parameters; succeeds exactly on an encoding of some parameters.
pub fn decode_vote_params(b: &[u8]) -> (r: Option<VoteParams>)
    ensures
        match r {
            Some(p) => spec_vote_params_bytes(p) == b@,
            None => forall|p: VoteParams| #[trigger] spec_vote_params_bytes(p) != b@,
        },
{
    proof {
        lemma_auto_spec_u64_to_from_le_bytes();
    }
    if b.len() != 9 {
        return None;
    }
    let id_bytes = vstd::slice::slice_subrange(b, 0, 8);
    let opt_bytes = vstd::slice::slice_subrange(b, 8, 9);
    match decode_vote(opt_bytes) {
        None => {
            proof {
                assert forall|p: VoteParams| #[trigger] spec_vote_params_bytes(p) != b@ by {
                    if spec_vote_params_bytes(p) == b@ {
                        assert(opt_bytes@ =~= seq![spec_vote_index(p.option)]);
                    }
                }
            }
            None
        }
        Some(option) => {
            let proposal_id = u64_from_le_bytes(id_bytes);
            let p = VoteParams { proposal_id, option };
            proof {
                assert(b@ =~= id_bytes@ + opt_bytes@);
                assert(opt_bytes@ =~= seq![opt_bytes@[0]]);
            }
            Some(p)
        }
    }
}

/// The encoding of unstake parameters: the amount, little-endian.
pub open spec fn spec_unstake_params_bytes(p: UnstakeParams) -> Seq<u8> {
    spec_u64_to_le_bytes(p.amount)
}

/// Decodes unstake parameters: exactly eight bytes.
pub fn decode_unstake_params(b: &[u8]) -> (r: Option<UnstakeParams>)
    ensures
        match r {
            Some(p) => spec_unstake_params_bytes(p) == b@,
            None => b@.len() != 8,
        },
{
    proof {
        lemma_auto_spec_u64_to_from_le_bytes();
    }
    if b.len() != 8 {
        return None;
    }
    Some(UnstakeParams { amount: u64_from_le_bytes(b) })
}

/// The encoding of stake parameters: the key as a byte vector, then the amount little-endian.
pub open spec fn spec_stake_params_bytes(public_key: Seq<u8>, amount: u64) -> Seq<u8> {
    spec_scale_bytes(public_key) + spec_u64_to_le_bytes(amount)
}

/// Decodes stake parameters; succeeds exactly on an encoding of some parameters.
pub fn decode_stake_params(b: &[u8]) -> (r: Option<StakeParams>)
    ensures
        match r {
            Some(p) => p.public_key@.len() <= u32::MAX && spec_stake_params_bytes(p.public_key@, p.amount) == b@,
            None => forall|k: Seq<u8>, a: u64| k.len() <= u32::MAX ==> #[trigger] spec_stake_params_bytes(k, a) != b@,
        },
{
    proof {
        lemma_auto_spec_u64_to_from_le_bytes();
    }
    match read_scale_bytes(b) {
        None => {
            assert forall|k: Seq<u8>, a: u64| k.len() <= u32::MAX implies #[trigger] spec_stake_params_bytes(k, a) != b@ by {
                assert(b@ != spec_scale_bytes(k) + spec_u64_to_le_bytes(a));
            }
            None
        }
        Some((public_key, rest)) => {
            if rest.len() != 8 {
                assert forall|k: Seq<u8>, a: u64| k.len() <= u32::MAX implies #[trigger] spec_stake_params_bytes(k, a) != b@ by {
                    if spec_stake_params_bytes(k, a) == b@ {
                        lemma_scale_bytes_unique(k, public_key@, spec_u64_to_le_bytes(a), rest@);
                    }
                }
                return None;
            }
            let amount = u64_from_le_bytes(rest);
            Some(StakeParams { public_key, amount })
        }
    }
}

/// The encoding of store-module parameters: the manifest as a string, then the artifact as a byte vector.
pub open spec fn spec_store_module_params_bytes(manifest: Seq<char>, artifact: Seq<u8>) -> Seq<u8> {
    spec_scale_str(manifest) + spec_scale_bytes(artifact)
}

/// Decodes store-module parameters; succeeds exactly on an encoding of some parameters.
pub fn decode_store_module_params(b: &[u8]) -> (r: Option<StoreModuleParams>)
    ensures
        match r {
            Some(p) => encode_utf8(p.manifest@).len() <= u32::MAX && p.artifact@.len() <= u32::MAX
                && spec_store_module_params_bytes(p.manifest@, p.artifact@) == b@,
            None => forall|m: Seq<char>, a: Seq<u8>| encode_utf8(m).len() <= u32::MAX && a.len() <= u32::MAX
                ==> #[trigger] spec_store_module_params_bytes(m, a) != b@,
        },
{
    match read_scale_string(b) {
        None => {
            assert forall|m: Seq<char>, a: Seq<u8>| encode_utf8(m).len() <= u32::MAX && a.len() <= u32::MAX
                implies #[trigger] spec_store_module_params_bytes(m, a) != b@ by {
                assert(b@ != spec_scale_str(m) + spec_scale_bytes(a));
            }
            None
        }
        Some((manifest, rest)) => {
            match read_scale_bytes(rest) {
                None => {
                    assert forall|m: Seq<char>, a: Seq<u8>| encode_utf8(m).len() <= u32::MAX && a.len() <= u32::MAX
                        implies #[trigger] spec_store_module_params_bytes(m, a) != b@ by {
                        if spec_store_module_params_bytes(m, a) == b@ {
                            lemma_scale_str_unique(m, manifest@, spec_scale_bytes(a), rest@);
                            assert(rest@ == spec_scale_bytes(a) + Seq::<u8>::empty());
                        }
                    }
                    None
                }
                Some((artifact, tail)) => {
                    if tail.len() != 0 {
                        assert forall|m: Seq<char>, a: Seq<u8>| encode_utf8(m).len() <= u32::MAX && a.len() <= u32::MAX
                            implies #[trigger] spec_store_module_params_bytes(m, a) != b@ by {
                            if spec_store_module_params_bytes(m, a) == b@ {
                                lemma_scale_str_unique(m, manifest@, spec_scale_bytes(a), rest@);
                                lemma_scale_bytes_unique(a, artifact@, Seq::<u8>::empty(), tail@);
                            }
                        }
                        return None;
                    }
                    assert(tail@ =~= Seq::<u8>::empty());
                    assert(b@ =~= spec_store_module_params_bytes(manifest@, artifact@));
                    Some(StoreModuleParams { manifest, artifact })
                }
            }
        }
    }
}

/// The encoding of swap-module parameters: the service id as a string, both
/// hashes, then the activation height little-endian.
pub open spec fn spec_swap_module_params_bytes(service_id: Seq<char>, manifest_hash: Seq<u8>, artifact_hash: Seq<u8>, activation_height: u64) -> Seq<u8> {
    spec_scale_str(service_id) + manifest_hash + artifact_hash + spec_u64_to_le_bytes(activation_height)
}

/// Decodes swap-module parameters; succeeds exactly on an encoding of some parameters.
pub fn decode_swap_module_params(b: &[u8]) -> (r: Option<SwapModuleParams>)
    ensures
        match r {
            Some(p) => encode_utf8(p.service_id@).len() <= u32::MAX
                && spec_swap_module_params_bytes(p.service_id@, p.manifest_hash@, p.artifact_hash@, p.activation_height) == b@,
            None => forall|s: Seq<char>, m: [u8; 32], a: [u8; 32], h: u64| encode_utf8(s).len() <= u32::MAX
                ==> #[trigger] spec_swap_module_params_bytes(s, m@, a@, h) != b@,
        },
{
    proof {
        lemma_auto_spec_u64_to_from_le_bytes();
    }
    match read_scale_string(b) {
        None => {
            assert forall|s: Seq<char>, m: [u8; 32], a: [u8; 32], h: u64| encode_utf8(s).len() <= u32::MAX
                implies #[trigger] spec_swap_module_params_bytes(s, m@, a@, h) != b@ by {
                assert(spec_swap_module_params_bytes(s, m@, a@, h) =~= spec_scale_str(s) + (m@ + a@ + spec_u64_to_le_bytes(h)));
                assert(b@ != spec_scale_str(s) + (m@ + a@ + spec_u64_to_le_bytes(h)));
            }
            None
        }
        Some((service_id, rest)) => {
            if rest.len() != 72 {
                assert forall|s: Seq<char>, m: [u8; 32], a: [u8; 32], h: u64| encode_utf8(s).len() <= u32::MAX
                    implies #[trigger] spec_swap_module_params_bytes(s, m@, a@, h) != b@ by {
                    if spec_swap_module_params_bytes(s, m@, a@, h) == b@ {
                        assert(spec_swap_module_params_bytes(s, m@, a@, h) =~= spec_scale_str(s) + (m@ + a@ + spec_u64_to_le_bytes(h)));
                        lemma_scale_str_unique(s, service_id@, m@ + a@ + spec_u64_to_le_bytes(h), rest@);
                    }
                }
                return None;
            }
            let manifest_hash: [u8; 32] = read_array(rest, 0);
            let artifact_hash: [u8; 32] = read_array(rest, 32);
            let h_bytes = vstd::slice::slice_subrange(rest, 64, 72);
            let activation_height = u64_from_le_bytes(h_bytes);
            proof {
                assert(rest@ =~= manifest_hash@ + artifact_hash@ + h_bytes@);
                assert(b@ =~= spec_swap_module_params_bytes(service_id@, manifest_hash@, artifact_hash@, activation_height));
            }
            Some(SwapModuleParams { service_id, manifest_hash, artifact_hash, activation_height })
        }
    }
}

} // verus!
