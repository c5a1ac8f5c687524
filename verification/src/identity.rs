//! Key rotation of accounts (for example from classical to post-quantum keys):
//! a rotation stages a new credential that becomes active after a grace
//! period, and the validator set follows the promoted key.

use vstd::prelude::*;
use vstd::bytes::*;
use crate::bytes::{append_bytes, bytes_eq, read_array};
use crate::crypto::{sha256, sha256_spec, ed25519_parse_key, ed25519_parse_signature, ed25519_verify,
    ed25519_key_ok, ed25519_signature_ok, ed25519_verify_spec};
use crate::validators::{copy_validators, find_validator, spec_find, spec_total_weight, spec_weights_fit, total_weight, ActiveKeyRecord, ValidatorSetV1, ValidatorSetsV1, ValidatorV1};

verus! {

/// A credential of an account: its key (by hash and suite) and from when it applies.
#[derive(Debug, Clone)]
pub struct Credential {
    pub suite: u8,
    pub public_key_hash: [u8; 32],
    pub activation_height: u64,
    pub l2_location: Option<String>,
    pub weight: u64,
}

/// The chain's migration policy.
#[derive(Debug, Clone)]
pub struct MigrationConfig {
    pub chain_id: u32,
    pub grace_period_blocks: u64,
    pub allowed_target_suites: Vec<u8>,
    pub allow_downgrade: bool,
    pub accept_staged_during_grace: bool,
}

/// A request to rotate from the active key to a new one, signed by both.
#[derive(Debug, Clone)]
pub struct RotationProof {
    pub old_public_key: Vec<u8>,
    pub old_signature: Vec<u8>,
    pub new_public_key: Vec<u8>,
    pub new_signature: Vec<u8>,
    pub target_suite: u8,
    pub l2_location: Option<String>,
}

/// What the suite tables report on a rotation: the account-id hashes of both
/// keys (`None` where the key material does not parse for its suite), the
/// verdicts of the signatures over the challenge for suites other than
/// Ed25519 (an Ed25519 signature is verified here), and whether the suites
/// are post-quantum.
#[derive(Debug, Clone, Copy)]
pub struct RotationChecks {
    pub old_key_hash: Option<[u8; 32]>,
    pub new_key_hash: Option<[u8; 32]>,
    pub old_signature_valid: bool,
    pub new_signature_valid: bool,
    pub target_is_post_quantum: bool,
    pub active_is_post_quantum: bool,
}

/// Why a rotation is refused.
#[derive(Debug, Clone, Copy, PartialEq, Eq, Structural)]
pub enum RotationError {
    /// The chain's policy does not allow the target suite.
    SuiteNotAllowed,
    /// The account has no active credential.
    NoActiveCredential,
    /// A rotation is already staged.
    RotationInProgress,
    /// The target suite is older than the active one and policy forbids downgrades.
    DowngradeForbidden,
    /// A key does not parse for its suite.
    InvalidKeyMaterial,
    /// The old key is not the active credential's key.
    OldKeyMismatch,
    /// The old key's signature over the challenge does not verify.
    OldSignatureInvalid,
    /// The new key's signature over the challenge does not verify.
    NewSignatureInvalid,
}

/// What a rotation changes: the credentials, the promotion index of the
/// activation height (when it changes) and the rotation nonce.
pub struct RotationOutcome {
    pub creds: (Option<Credential>, Option<Credential>),
    pub activation_height: u64,
    pub promotion_index: Option<Vec<[u8; 32]>>,
    pub next_nonce: u64,
}

/// The suite id of Ed25519 keys, as the chain's identity contract encodes the
/// suite (`Ed25519 = 0`).
pub const SUITE_ED25519: u8 = 0;

/// Whether a signature over `message` verifies under `public_key` of `suite`:
/// for Ed25519 the key and signature must parse and the signature verify;
/// for other suites the reported verdict stands.
pub open spec fn spec_signature_ok(suite: u8, public_key: Seq<u8>, message: Seq<u8>, signature: Seq<u8>, reported: bool) -> bool {
    if suite == SUITE_ED25519 {
        ed25519_key_ok(public_key) && ed25519_signature_ok(signature) && ed25519_verify_spec(public_key, message, signature)
    } else {
        reported
    }
}

/// Verifies a rotation signature under its suite (see [`spec_signature_ok`]).
fn verify_rotation_signature(suite: u8, public_key: &[u8], message: &[u8], signature: &[u8], reported: bool) -> (r: bool)
    ensures
        r == spec_signature_ok(suite, public_key@, message@, signature@, reported),
{
    if suite == SUITE_ED25519 {
        if !ed25519_parse_key(public_key) {
            return false;
        }
        if !ed25519_parse_signature(signature) {
            return false;
        }
        ed25519_verify(public_key, message, signature)
    } else {
        reported
    }
}

/// The challenge both keys sign.
pub open spec fn spec_challenge(chain_id: u32, account: Seq<u8>, nonce: u64) -> Seq<u8> {
    sha256_spec(spec_challenge_preimage(chain_id, account, nonce))
}

/// The domain separator of rotation challenges. (`DePIN-PQ-MIGRATE/v1`)
pub open spec fn spec_challenge_domain() -> Seq<u8> {
    seq![68u8, 101u8, 80u8, 73u8, 78u8, 45u8, 80u8, 81u8, 45u8, 77u8, 73u8, 71u8, 82u8, 65u8, 84u8, 69u8, 47u8, 118u8, 49u8]
}

/// The preimage of the challenge both keys sign: the domain, the chain id,
/// the account and its rotation nonce, integers little-endian.
pub open spec fn spec_challenge_preimage(chain_id: u32, account: Seq<u8>, nonce: u64) -> Seq<u8> {
    spec_challenge_domain() + spec_u32_to_le_bytes(chain_id) + account + spec_u64_to_le_bytes(nonce)
}

/// The rotation challenge for an account at a nonce: the SHA-256 of its preimage.
pub fn rotation_challenge(config: &MigrationConfig, account: &[u8; 32], nonce: u64) -> (r: [u8; 32])
    ensures
        r@ == sha256_spec(spec_challenge_preimage(config.chain_id, account@, nonce)),
{
    let mut pre: Vec<u8> = vec![68u8, 101u8, 80u8, 73u8, 78u8, 45u8, 80u8, 81u8, 45u8, 77u8, 73u8, 71u8, 82u8, 65u8, 84u8, 69u8, 47u8, 118u8, 49u8];
    let c = u32_to_le_bytes(config.chain_id);
    append_bytes(&mut pre, c.as_slice());
    append_bytes(&mut pre, account.as_slice());
    let n = u64_to_le_bytes(nonce);
    append_bytes(&mut pre, n.as_slice());
    assert(pre@ =~= spec_challenge_preimage(config.chain_id, account@, nonce));
    match sha256(pre.as_slice()) {
        Some(d) => read_array(d.as_slice(), 0),
        None => [0u8; 32],
    }
}

/// Each rotation signs a fresh challenge: challenges at distinct nonces have
/// distinct preimages, so a signed challenge cannot be replayed after the
/// nonce moves on.
pub proof fn lemma_challenge_fresh(chain_id: u32, account: Seq<u8>, n1: u64, n2: u64)
    requires
        n1 != n2,
    ensures
        spec_challenge_preimage(chain_id, account, n1) != spec_challenge_preimage(chain_id, account, n2),
{
    lemma_auto_spec_u64_to_from_le_bytes();
    let a = spec_challenge_preimage(chain_id, account, n1);
    let b = spec_challenge_preimage(chain_id, account, n2);
    let k = a.len() - 8;
    assert(a.subrange(k, a.len() as int) =~= spec_u64_to_le_bytes(n1));
    assert(b.subrange(k, b.len() as int) =~= spec_u64_to_le_bytes(n2));
}

/// The outcome of a rotation request, checked in order: the suite must be
/// allowed, an active credential must exist with nothing staged, a downgrade
/// needs the policy's consent unless it is a post-quantum upgrade, the old
/// key must be the active one, and both signatures must verify. The new
/// credential activates after the grace period.
pub open spec fn spec_rotate_error(config: MigrationConfig, account: Seq<u8>, nonce: u64,
    creds: (Option<Credential>, Option<Credential>), proof: RotationProof, checks: RotationChecks)
    -> Option<RotationError>
{
    if !config.allowed_target_suites@.contains(proof.target_suite) {
        Some(RotationError::SuiteNotAllowed)
    } else {
        match creds.0 {
            None => Some(RotationError::NoActiveCredential),
            Some(active) => { if creds.1 is Some {
                Some(RotationError::RotationInProgress)
            } else if !config.allow_downgrade && !(checks.target_is_post_quantum && !checks.active_is_post_quantum)
                && proof.target_suite < active.suite {
                Some(RotationError::DowngradeForbidden)
            } else {
                match checks.old_key_hash {
                    None => Some(RotationError::InvalidKeyMaterial),
                    Some(h) => { if h != active.public_key_hash {
                        Some(RotationError::OldKeyMismatch)
                    } else if !spec_signature_ok(active.suite, proof.old_public_key@,
                        spec_challenge(config.chain_id, account, nonce), proof.old_signature@, checks.old_signature_valid) {
                        Some(RotationError::OldSignatureInvalid)
                    } else if !spec_signature_ok(proof.target_suite, proof.new_public_key@,
                        spec_challenge(config.chain_id, account, nonce), proof.new_signature@, checks.new_signature_valid) {
                        Some(RotationError::NewSignatureInvalid)
                    } else if checks.new_key_hash is None {
                        Some(RotationError::InvalidKeyMaterial)
                    } else {
                        None
                    } },
                }
            } },
        }
    }
}

fn clone_opt_string(o: &Option<String>) -> (r: Option<String>)
    ensures
        r == *o,
{
    match o {
        Some(s) => Some(s.clone()),
        None => None,
    }
}

fn contains_account(l: &Vec<[u8; 32]>, account: &[u8; 32]) -> (r: bool)
    ensures
        r == l@.contains(*account),
{
    let n = l.len();
    let mut i: usize = 0;
    while i < n
        invariant
            n == l@.len(),
            i <= n,
            forall|j: int| 0 <= j < i ==> l@[j] != *account,
        decreases n - i,
    {
        if bytes_eq(l[i].as_slice(), account.as_slice()) {
            assert(l@[i as int] =~= *account);
            return true;
        }
        i = i + 1;
    }
    false
}

/// Rotates the account's key: checks the request and stages the new
/// credential. `index` is the promotion index stored for the activation
/// height, if it decodes; the account joins it when absent. The nonce moves on.
pub fn rotate(
    config: &MigrationConfig,
    account: &[u8; 32],
    creds: (Option<Credential>, Option<Credential>),
    proof: &RotationProof,
    checks: RotationChecks,
    nonce: u64,
    index: Option<Vec<[u8; 32]>>,
    current_height: u64,
) -> (r: Result<RotationOutcome, RotationError>)
    requires
        current_height + config.grace_period_blocks <= u64::MAX,
        nonce < u64::MAX,
    ensures
        match r {
            Err(e) => spec_rotate_error(*config, account@, nonce, creds, *proof, checks) == Some(e),
            Ok(o) => {
                &&& spec_rotate_error(*config, account@, nonce, creds, *proof, checks) is None
                &&& o.activation_height == current_height + config.grace_period_blocks
                &&& o.creds.0 == creds.0
                &&& o.creds.1 matches Some(c) && c.suite == proof.target_suite
                    && Some(c.public_key_hash) == checks.new_key_hash
                    && c.activation_height == o.activation_height && c.l2_location == proof.l2_location && c.weight == 1
                &&& o.next_nonce == nonce + 1
                &&& match index {
                    Some(l) => { if l@.contains(*account) { o.promotion_index is None } else {
                        o.promotion_index matches Some(n) && n@ == l@.push(*account)
                    } },
                    None => o.promotion_index matches Some(n) && n@ == seq![*account],
                }
            },
        },
{
    let n = config.allowed_target_suites.len();
    let mut i: usize = 0;
    let mut allowed = false;
    while i < n
        invariant
            n == config.allowed_target_suites@.len(),
            i <= n,
            allowed <==> (exists|j: int| 0 <= j < i && config.allowed_target_suites@[j] == proof.target_suite),
        decreases n - i,
    {
        if config.allowed_target_suites[i] == proof.target_suite {
            allowed = true;
        }
        i = i + 1;
    }
    if !allowed {
        return Err(RotationError::SuiteNotAllowed);
    }
    let active = match &creds.0 {
        None => return Err(RotationError::NoActiveCredential),
        Some(a) => a,
    };
    if creds.1.is_some() {
        return Err(RotationError::RotationInProgress);
    }
    let is_pq_upgrade = checks.target_is_post_quantum && !checks.active_is_post_quantum;
    if !config.allow_downgrade && !is_pq_upgrade && proof.target_suite < active.suite {
        return Err(RotationError::DowngradeForbidden);
    }
    let old_hash = match checks.old_key_hash {
        None => return Err(RotationError::InvalidKeyMaterial),
        Some(h) => h,
    };
    if !bytes_eq(old_hash.as_slice(), active.public_key_hash.as_slice()) {
        proof {
            if old_hash == active.public_key_hash {
                assert(old_hash@ == active.public_key_hash@);
            }
        }
        return Err(RotationError::OldKeyMismatch);
    }
    assert(old_hash =~= active.public_key_hash);
    let challenge = rotation_challenge(config, account, nonce);
    if !verify_rotation_signature(active.suite, proof.old_public_key.as_slice(), challenge.as_slice(),
        proof.old_signature.as_slice(), checks.old_signature_valid) {
        return Err(RotationError::OldSignatureInvalid);
    }
    if !verify_rotation_signature(proof.target_suite, proof.new_public_key.as_slice(), challenge.as_slice(),
        proof.new_signature.as_slice(), checks.new_signature_valid) {
        return Err(RotationError::NewSignatureInvalid);
    }
    let new_hash = match checks.new_key_hash {
        None => return Err(RotationError::InvalidKeyMaterial),
        Some(h) => h,
    };
    let activation_height = current_height + config.grace_period_blocks;
    let new_cred = Credential {
        suite: proof.target_suite,
        public_key_hash: new_hash,
        activation_height,
        l2_location: clone_opt_string(&proof.l2_location),
        weight: 1,
    };
    let promotion_index = match index {
        None => {
            let mut l: Vec<[u8; 32]> = Vec::new();
            l.push(*account);
            assert(l@ =~= seq![*account]);
            Some(l)
        }
        Some(mut l) => {
            if contains_account(&l, account) {
                None
            } else {
                l.push(*account);
                Some(l)
            }
        }
    };
    Ok(RotationOutcome { creds: (creds.0, Some(new_cred)), activation_height, promotion_index, next_nonce: nonce + 1 })
}

/// The credentials after the promotion check at `height`: a staged
/// credential whose activation height has come becomes the active one and
/// nothing stays staged; `None` where nothing changes.
pub open spec fn spec_promote(creds: (Option<Credential>, Option<Credential>), height: u64)
    -> Option<(Option<Credential>, Option<Credential>)>
{
    match creds.1 {
        Some(staged) => if height >= staged.activation_height { Some((Some(staged), None)) } else { None },
        None => None,
    }
}

/// Promotes a staged credential whose activation height has come.
pub fn promote(creds: (Option<Credential>, Option<Credential>), height: u64) -> (r: Option<(Option<Credential>, Option<Credential>)>)
    ensures
        r == spec_promote(creds, height),
{
    match creds.1 {
        Some(staged) => {
            if height >= staged.activation_height {
                Some((Some(staged), None))
            } else {
                None
            }
        }
        None => None,
    }
}

/// A staged rotation takes effect exactly at its activation height: the
/// promotion check then makes the new credential active and clears the stage.
pub proof fn lemma_rotation_promotes_at_activation(
    creds: (Option<Credential>, Option<Credential>),
    staged: Credential,
    height: u64,
)
    requires
        creds.1 == Some(staged),
    ensures
        height < staged.activation_height ==> spec_promote(creds, height) is None,
        height >= staged.activation_height ==> spec_promote(creds, height) == Some((Some(staged), None::<Credential>)),
{
}

/// The validator sets after a promoted key takes effect at `promotion_height`:
/// the next set, re-based to take effect one block later, records the new key
/// for the account; `None` where the account is not a validator (nothing is written).
pub open spec fn spec_key_update(sets: ValidatorSetsV1, account: [u8; 32], suite: u8, key_hash: [u8; 32], promotion_height: u64)
    -> Option<Seq<ValidatorV1>>
{
    let target = (promotion_height + 1) as u64;
    let base = match sets.next {
        Some(n) => n.validators@,
        None => sets.current.validators@,
    };
    match spec_find(base, account) {
        None => None,
        Some(i) => Some(base.update(i, ValidatorV1 {
            consensus_key: ActiveKeyRecord { suite, public_key_hash: key_hash, since_height: target },
            ..base[i]
        })),
    }
}

proof fn lemma_total_weight_keeps(vs: Seq<ValidatorV1>, i: int, v: ValidatorV1)
    requires
        0 <= i < vs.len(),
        v.weight == vs[i].weight,
    ensures
        spec_total_weight(vs.update(i, v)) == spec_total_weight(vs),
    decreases vs.len(),
{
    if i < vs.len() - 1 {
        assert(vs.update(i, v).drop_last() =~= vs.drop_last().update(i, v));
        lemma_total_weight_keeps(vs.drop_last(), i, v);
    } else {
        assert(vs.update(i, v).drop_last() =~= vs.drop_last());
    }
}

/// Records a promoted key in the next validator set.
pub fn apply_validator_key_update(sets: ValidatorSetsV1, account: &[u8; 32], suite: u8, key_hash: [u8; 32], promotion_height: u64)
    -> (r: Option<ValidatorSetsV1>)
    requires
        promotion_height + 1 <= u64::MAX,
        spec_weights_fit(match sets.next { Some(n) => n.validators@, None => sets.current.validators@ }),
    ensures
        match (r, spec_key_update(sets, *account, suite, key_hash, promotion_height)) {
            (Some(s), Some(vs)) => {
                &&& s.current == sets.current
                &&& s.next matches Some(n) && n.effective_from_height == promotion_height + 1
                    && n.validators@ == vs && n.total_weight == spec_total_weight(vs)
            },
            (None, None) => true,
            _ => false,
        },
{
    let target = promotion_height + 1;
    let mut vs: Vec<ValidatorV1> = match &sets.next {
        Some(n) => copy_validators(&n.validators),
        None => copy_validators(&sets.current.validators),
    };
    match find_validator(&vs, account) {
        None => None,
        Some(i) => {
            let v = vs[i];
            let ghost before = vs@;
            let updated = ValidatorV1 { consensus_key: ActiveKeyRecord { suite, public_key_hash: key_hash, since_height: target }, ..v };
            vs.set(i, updated);
            proof {
                lemma_total_weight_keeps(before, i as int, updated);
            }
            let t = total_weight(&vs);
            Some(ValidatorSetsV1 { current: sets.current, next: Some(ValidatorSetV1 { effective_from_height: target, total_weight: t, validators: vs }) })
        }
    }
}

} // verus!
