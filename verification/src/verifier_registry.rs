//! Registration of dynamic light-client verifiers: the artifact is stored once
//! under its SHA-256, and the client type is mapped to that hash.

use vstd::prelude::*;
use vstd::utf8::encode_utf8;
use crate::bytes::append_bytes;
use vstd::string::StringSliceAdditionalSpecFns;
use crate::codec::{hex_encode, spec_hex_encode, lemma_scale_bytes_unique, lemma_scale_str_unique, spec_scale_bytes, spec_scale_str};
use crate::crypto::{sha256, sha256_accepts, sha256_spec};
use crate::gov_params::decode_store_module_params;
use crate::keys::{spec_verifier_prefix, verifier_map_key};
use crate::state::StateMap;

verus! {

/// The parameters of a verifier registration.
#[derive(Debug, Clone)]
pub struct RegisterVerifierParams {
    pub client_type: String,
    pub artifact: Vec<u8>,
}

/// Why a registration was refused.
#[derive(Debug, Clone, Copy, PartialEq, Eq, Structural)]
pub enum RegistryError {
    /// The parameters are not an encoding of a client type and an artifact.
    Deserialization,
}

/// The encoding of registration parameters: the client type as a string, then
/// the artifact as a byte vector.
pub open spec fn spec_register_params_bytes(client_type: Seq<char>, artifact: Seq<u8>) -> Seq<u8> {
    spec_scale_str(client_type) + spec_scale_bytes(artifact)
}

/// A client type and an artifact that the encoding can carry.
pub open spec fn spec_params_fit(client_type: Seq<char>, artifact: Seq<u8>) -> bool {
    encode_utf8(client_type).len() <= u32::MAX && artifact.len() <= u32::MAX
}

/// The key under which an artifact is stored: the artifact prefix, then its SHA-256.
pub open spec fn spec_artifact_key(artifact_prefix: Seq<u8>, artifact: Seq<u8>) -> Seq<u8> {
    artifact_prefix + sha256_spec(artifact)
}

/// The state after a registration: the artifact is stored under its hash
/// unless something is stored there already, and the client type's registry
/// key maps to the hash.
pub open spec fn spec_register_verifier(
    st: Map<Seq<u8>, Seq<u8>>,
    artifact_prefix: Seq<u8>,
    client_type: Seq<char>,
    artifact: Seq<u8>,
) -> Map<Seq<u8>, Seq<u8>> {
    let ak = spec_artifact_key(artifact_prefix, artifact);
    let stored = if st.contains_key(ak) { st } else { st.insert(ak, artifact) };
    stored.insert(spec_verifier_prefix() + encode_utf8(client_type), sha256_spec(artifact))
}

/// Decodes registration parameters; succeeds exactly on an encoding of some parameters.
pub fn decode_register_verifier_params(b: &[u8]) -> (r: Option<RegisterVerifierParams>)
    ensures
        match r {
            Some(p) => spec_params_fit(p.client_type@, p.artifact@)
                && spec_register_params_bytes(p.client_type@, p.artifact@) == b@,
            None => forall|c: Seq<char>, a: Seq<u8>| spec_params_fit(c, a)
                ==> #[trigger] spec_register_params_bytes(c, a) != b@,
        },
{
    match decode_store_module_params(b) {
        Some(p) => Some(RegisterVerifierParams { client_type: p.manifest, artifact: p.artifact }),
        None => {
            assert forall|c: Seq<char>, a: Seq<u8>| spec_params_fit(c, a)
                implies #[trigger] spec_register_params_bytes(c, a) != b@ by {
                assert(crate::gov_params::spec_store_module_params_bytes(c, a)
                    == spec_register_params_bytes(c, a));
            }
            None
        }
    }
}

/// Two encodings of registration parameters are equal only for equal parameters.
pub proof fn lemma_register_params_unique(c1: Seq<char>, a1: Seq<u8>, c2: Seq<char>, a2: Seq<u8>)
    requires
        spec_params_fit(c1, a1),
        spec_params_fit(c2, a2),
        spec_register_params_bytes(c1, a1) == spec_register_params_bytes(c2, a2),
    ensures
        c1 == c2,
        a1 == a2,
{
    lemma_scale_str_unique(c1, c2, spec_scale_bytes(a1), spec_scale_bytes(a2));
    lemma_scale_bytes_unique(a1, a2, Seq::<u8>::empty(), Seq::<u8>::empty());
    assert(spec_scale_bytes(a1) + Seq::<u8>::empty() =~= spec_scale_bytes(a1));
    assert(spec_scale_bytes(a2) + Seq::<u8>::empty() =~= spec_scale_bytes(a2));
}

/// Registers a dynamic verifier: decodes the client type and the artifact,
/// stores the artifact under `artifact_prefix` and its SHA-256 if nothing is
/// stored there yet, and maps the client type's registry key to the hash.
/// Parameters that do not decode are refused and the state is left as it was.
pub fn register_verifier(state: &mut StateMap, artifact_prefix: &[u8], params: &[u8]) -> (r: Result<(), RegistryError>)
    ensures
        r is Err <==> !(exists|c: Seq<char>, a: Seq<u8>|
            spec_params_fit(c, a) && #[trigger] spec_register_params_bytes(c, a) == params@),
        r is Err ==> final(state)@ == old(state)@,
        forall|c: Seq<char>, a: Seq<u8>| spec_params_fit(c, a) && #[trigger] spec_register_params_bytes(c, a) == params@
            ==> r is Ok && final(state)@ == spec_register_verifier(old(state)@, artifact_prefix@, c, a),
{
    let p = match decode_register_verifier_params(params) {
        Some(p) => p,
        None => return Err(RegistryError::Deserialization),
    };
    proof {
        assert forall|c: Seq<char>, a: Seq<u8>| spec_params_fit(c, a) && #[trigger] spec_register_params_bytes(c, a) == params@
            implies c == p.client_type@ && a == p.artifact@ by {
            lemma_register_params_unique(c, a, p.client_type@, p.artifact@);
        }
        assert(sha256_accepts(p.artifact@));
    }
    // An artifact that fits the encoding is short enough to hash, so the
    // refusal below is never taken.
    let hash = match sha256(p.artifact.as_slice()) {
        Some(h) => h,
        None => return Err(RegistryError::Deserialization),
    };
    let mut artifact_key = crate::state::to_vec(artifact_prefix);
    append_bytes(&mut artifact_key, hash.as_slice());
    let ghost before = state@;
    if state.get(artifact_key.as_slice()).is_none() {
        state.insert(artifact_key.as_slice(), p.artifact.as_slice());
    }
    let map_key = verifier_map_key(p.client_type.as_str());
    state.insert(map_key.as_slice(), hash.as_slice());
    proof {
        assert(artifact_key@ == spec_artifact_key(artifact_prefix@, p.artifact@));
        assert(state@ == spec_register_verifier(before, artifact_prefix@, p.client_type@, p.artifact@));
    }
    Ok(())
}

/// Prefix of the headers verified for a counterparty chain. (`ibc::light_clients::`)
pub open spec fn spec_light_clients_prefix() -> Seq<u8> {
    seq![105u8, 98u8, 99u8, 58u8, 58u8, 108u8, 105u8, 103u8, 104u8, 116u8, 95u8, 99u8, 108u8, 105u8, 101u8, 110u8, 116u8, 115u8, 58u8, 58u8]
}

/// Prefix of the headers verified for a counterparty chain. (`ibc::light_clients::`)
fn light_clients_prefix() -> (r: Vec<u8>)
    ensures
        r@ == spec_light_clients_prefix(),
{
    let r: Vec<u8> = vec![105u8, 98u8, 99u8, 58u8, 58u8, 108u8, 105u8, 103u8, 104u8, 116u8, 95u8, 99u8, 108u8, 105u8, 101u8, 110u8, 116u8, 115u8, 58u8, 58u8];
    assert(r@ =~= spec_light_clients_prefix());
    r
}

/// Separator between a chain id and a state root in a header key. (`::state_root::`)
pub open spec fn spec_state_root_infix() -> Seq<u8> {
    seq![58u8, 58u8, 115u8, 116u8, 97u8, 116u8, 101u8, 95u8, 114u8, 111u8, 111u8, 116u8, 58u8, 58u8]
}

/// Separator between a chain id and a state root in a header key. (`::state_root::`)
fn state_root_infix() -> (r: Vec<u8>)
    ensures
        r@ == spec_state_root_infix(),
{
    let r: Vec<u8> = vec![58u8, 58u8, 115u8, 116u8, 97u8, 116u8, 101u8, 95u8, 114u8, 111u8, 111u8, 116u8, 58u8, 58u8];
    assert(r@ =~= spec_state_root_infix());
    r
}

/// Prefix of state values proven to exist on a counterparty chain. (`ibc::verified::kv::`)
pub open spec fn spec_verified_kv_prefix() -> Seq<u8> {
    seq![105u8, 98u8, 99u8, 58u8, 58u8, 118u8, 101u8, 114u8, 105u8, 102u8, 105u8, 101u8, 100u8, 58u8, 58u8, 107u8, 118u8, 58u8, 58u8]
}

/// Prefix of state values proven to exist on a counterparty chain. (`ibc::verified::kv::`)
fn verified_kv_prefix() -> (r: Vec<u8>)
    ensures
        r@ == spec_verified_kv_prefix(),
{
    let r: Vec<u8> = vec![105u8, 98u8, 99u8, 58u8, 58u8, 118u8, 101u8, 114u8, 105u8, 102u8, 105u8, 101u8, 100u8, 58u8, 58u8, 107u8, 118u8, 58u8, 58u8];
    assert(r@ =~= spec_verified_kv_prefix());
    r
}

/// Separator between a chain id and a proven path. (`::`)
pub open spec fn spec_path_separator() -> Seq<u8> {
    seq![58u8, 58u8]
}

/// Separator between a chain id and a proven path. (`::`)
fn path_separator() -> (r: Vec<u8>)
    ensures
        r@ == spec_path_separator(),
{
    let r: Vec<u8> = vec![58u8, 58u8];
    assert(r@ =~= spec_path_separator());
    r
}

/// The key of a verified header: `ibc::light_clients::{chain}::state_root::`
/// followed by the state root in lowercase hex.
pub fn state_root_key(chain_id: &str, state_root: &[u8]) -> (r: Vec<u8>)
    requires
        2 * state_root@.len() <= isize::MAX,
    ensures
        r@ == spec_light_clients_prefix() + chain_id.spec_bytes() + spec_state_root_infix()
            + spec_hex_encode(state_root@),
{
    let mut r = light_clients_prefix();
    append_bytes(&mut r, chain_id.as_bytes());
    let infix = state_root_infix();
    append_bytes(&mut r, infix.as_slice());
    let hex = hex_encode(state_root);
    append_bytes(&mut r, hex.as_slice());
    r
}

/// The key of a proven counterparty value: `ibc::verified::kv::{chain}::`
/// followed by the proven path in lowercase hex.
pub fn verified_kv_key(chain_id: &str, path: &[u8]) -> (r: Vec<u8>)
    requires
        2 * path@.len() <= isize::MAX,
    ensures
        r@ == spec_verified_kv_prefix() + chain_id.spec_bytes() + spec_path_separator()
            + spec_hex_encode(path@),
{
    let mut r = verified_kv_prefix();
    append_bytes(&mut r, chain_id.as_bytes());
    let sep = path_separator();
    append_bytes(&mut r, sep.as_slice());
    let hex = hex_encode(path);
    append_bytes(&mut r, hex.as_slice());
    r
}

} // verus!
