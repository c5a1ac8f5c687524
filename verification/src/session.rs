//! Payment sessions: incremental, signed promises to pay a provider, and the
//! solvency check that ties a session to the settled balance of its payer.

use vstd::prelude::*;
use vstd::bytes::*;
use crate::bytes::{append_bytes, bytes_eq};
use crate::crypto::{
    ed25519_key_ok, ed25519_parse_key, ed25519_parse_signature, ed25519_signature_ok, ed25519_verify,
    ed25519_verify_spec,
};
use crate::keys::{balance_prefix, spec_balance_prefix};
use crate::service::{RejectReason, TransactionError};
use crate::state::StateMap;

verus! {

/// An incremental promise to pay for work within a session.
#[derive(Debug, Clone)]
pub struct PaymentTicket {
    /// Unique session identifier.
    pub session_id: [u8; 32],
    /// Identity of the provider being paid.
    pub provider_id: [u8; 32],
    /// Hash binding the ticket to pricing and dispute rules.
    pub terms_hash: [u8; 32],
    /// Monotonic counter to prevent replay.
    pub seq: u64,
    /// Total cumulative amount authorized for this session so far.
    pub cumulative_amount: u128,
    /// Merkle root of the receipt history included in this payment step.
    pub receipt_root: [u8; 32],
    /// Signature from the payer authorizing this ticket.
    pub payer_sig: Vec<u8>,
}

/// The bytes the payer signs: the canonical encoding of the ticket with an
/// empty signature (fixed fields in order, integers little-endian, and the
/// empty signature as its one-byte compact length 0).
pub open spec fn spec_sign_bytes(t: PaymentTicket) -> Seq<u8> {
    t.session_id@ + t.provider_id@ + t.terms_hash@ + spec_u64_to_le_bytes(t.seq)
        + spec_u128_to_le_bytes(t.cumulative_amount) + t.receipt_root@ + seq![0u8]
}

/// The outcome of checking a ticket against the session's last accepted
/// sequence number and amount: the provider must match, the sequence number
/// must grow, the amount must not shrink, and the payer's signature over the
/// sign bytes must verify.
pub open spec fn spec_verify_ticket(t: PaymentTicket, payer_pk: Seq<u8>, expected_provider: Seq<u8>, last_seq: u64, last_amount: u128)
    -> Result<(), TransactionError>
{
    if t.provider_id@ != expected_provider {
        Err(TransactionError::Invalid(RejectReason::ProviderMismatch))
    } else if t.seq <= last_seq {
        Err(TransactionError::Invalid(RejectReason::NonMonotonicSequence))
    } else if t.cumulative_amount < last_amount {
        Err(TransactionError::Invalid(RejectReason::NonMonotonicAmount))
    } else if !ed25519_key_ok(payer_pk) {
        Err(TransactionError::Invalid(RejectReason::InvalidPublicKey))
    } else if !ed25519_signature_ok(t.payer_sig@) {
        Err(TransactionError::Invalid(RejectReason::InvalidSignatureFormat))
    } else if !ed25519_verify_spec(payer_pk, spec_sign_bytes(t), t.payer_sig@) {
        Err(TransactionError::InvalidSignature)
    } else {
        Ok(())
    }
}

impl PaymentTicket {
    /// Serializes the ticket for signing (excluding the signature itself).
    pub fn to_sign_bytes(&self) -> (r: Result<Vec<u8>, TransactionError>)
        ensures
            r matches Ok(b) && b@ == spec_sign_bytes(*self),
    {
        let mut out: Vec<u8> = Vec::new();
        append_bytes(&mut out, self.session_id.as_slice());
        append_bytes(&mut out, self.provider_id.as_slice());
        append_bytes(&mut out, self.terms_hash.as_slice());
        let s = u64_to_le_bytes(self.seq);
        append_bytes(&mut out, s.as_slice());
        let a = u128_to_le_bytes(self.cumulative_amount);
        append_bytes(&mut out, a.as_slice());
        append_bytes(&mut out, self.receipt_root.as_slice());
        out.push(0u8);
        assert(out@ =~= spec_sign_bytes(*self));
        Ok(out)
    }

    /// Verifies the ticket against the payer's public key and the session's
    /// last accepted sequence number and cumulative amount.
    pub fn verify(&self, payer_pk: &[u8], expected_provider: &[u8; 32], last_seq: u64, last_amount: u128)
        -> (r: Result<(), TransactionError>)
        ensures
            r == spec_verify_ticket(*self, payer_pk@, expected_provider@, last_seq, last_amount),
    {
        if !bytes_eq(self.provider_id.as_slice(), expected_provider.as_slice()) {
            return Err(TransactionError::Invalid(RejectReason::ProviderMismatch));
        }
        if self.seq <= last_seq {
            return Err(TransactionError::Invalid(RejectReason::NonMonotonicSequence));
        }
        if self.cumulative_amount < last_amount {
            return Err(TransactionError::Invalid(RejectReason::NonMonotonicAmount));
        }
        let sign_bytes = match self.to_sign_bytes() {
            Ok(b) => b,
            Err(e) => return Err(e),
        };
        if !ed25519_parse_key(payer_pk) {
            return Err(TransactionError::Invalid(RejectReason::InvalidPublicKey));
        }
        if !ed25519_parse_signature(self.payer_sig.as_slice()) {
            return Err(TransactionError::Invalid(RejectReason::InvalidSignatureFormat));
        }
        if ed25519_verify(payer_pk, sign_bytes.as_slice(), self.payer_sig.as_slice()) {
            Ok(())
        } else {
            Err(TransactionError::InvalidSignature)
        }
    }
}

/// A ticket that was accepted is refused when presented again: once the
/// session has recorded its sequence number and amount, the same ticket no
/// longer raises the sequence number.
pub proof fn lemma_ticket_replay_refused(t: PaymentTicket, pk: Seq<u8>, provider: Seq<u8>, last_seq: u64, last_amount: u128)
    requires
        spec_verify_ticket(t, pk, provider, last_seq, last_amount) is Ok,
    ensures
        spec_verify_ticket(t, pk, provider, t.seq, t.cumulative_amount)
            == Err::<(), TransactionError>(TransactionError::Invalid(RejectReason::NonMonotonicSequence)),
{
}

/// The key of an account balance: `balance::` and the account id.
pub open spec fn spec_balance_key(account: Seq<u8>) -> Seq<u8> {
    spec_balance_prefix() + account
}

/// The outcome of a solvency check: an absent balance or one below the amount
/// is insufficient; a stored balance must be the 16-byte canonical encoding of a `u128`.
pub open spec fn spec_check_solvency(st: Map<Seq<u8>, Seq<u8>>, payer: Seq<u8>, amount: u128) -> Result<(), TransactionError> {
    let key = spec_balance_key(payer);
    if !st.contains_key(key) {
        Err(TransactionError::InsufficientFunds)
    } else if st[key].len() != 16 {
        Err(TransactionError::Deserialization)
    } else if spec_u128_from_le_bytes(st[key]) < amount {
        Err(TransactionError::InsufficientFunds)
    } else {
        Ok(())
    }
}

/// Checks that the payer's settled balance covers the amount.
pub fn check_solvency(state: &StateMap, payer_id: &[u8; 32], amount: u128) -> (r: Result<(), TransactionError>)
    ensures
        r == spec_check_solvency(state.view(), payer_id@, amount),
{
    let mut key = balance_prefix();
    append_bytes(&mut key, payer_id.as_slice());
    assert(key@ == spec_balance_key(payer_id@));
    let balance_bytes = match state.get(key.as_slice()) {
        Some(b) => b,
        None => return Err(TransactionError::InsufficientFunds),
    };
    if balance_bytes.len() != 16 {
        return Err(TransactionError::Deserialization);
    }
    let balance = u128_from_le_bytes(balance_bytes.as_slice());
    if balance < amount {
        return Err(TransactionError::InsufficientFunds);
    }
    Ok(())
}

} // verus!
