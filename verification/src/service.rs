//! What every service call sees: the transaction context and the errors it can return.

use vstd::prelude::*;
use vstd::string::StringSliceAdditionalSpecFns;
use crate::bytes::bytes_eq;

verus! {

/// The context of the transaction that makes a service call.
#[derive(Debug, Clone, Copy)]
pub struct TxContext {
    /// The account that signed the transaction.
    pub signer_account_id: [u8; 32],
    /// The height of the block that includes the transaction.
    pub block_height: u64,
    /// The block timestamp in nanoseconds.
    pub block_timestamp_ns: u64,
}

/// Why a valid-looking call was refused.
#[derive(Debug, Clone, Copy, PartialEq, Eq, Structural)]
pub enum RejectReason {
    /// The leakage budget of the session would be exceeded.
    LeakageBudgetExceeded,
    /// The provider is already registered.
    ProviderAlreadyRegistered,
    /// A heartbeat timestamp is too far from the block time.
    HeartbeatOutOfBounds,
    /// A payment ticket names another provider.
    ProviderMismatch,
    /// A payment ticket's sequence number does not exceed the last one.
    NonMonotonicSequence,
    /// A payment ticket's cumulative amount is below the last one.
    NonMonotonicAmount,
    /// The payer's public key does not parse.
    InvalidPublicKey,
    /// The signature bytes do not parse.
    InvalidSignatureFormat,
    /// A session with this id already exists.
    SessionExists,
    /// The named parent session does not exist.
    ParentNotFound,
    /// The parent session cannot fund the initial budget.
    InsufficientParentBudget,
    /// The session does not exist.
    SessionNotFound,
    /// Only a paused session can be resumed.
    AgentNotPaused,
    /// The session is paused.
    AgentPaused,
    /// The session is not running.
    AgentNotRunning,
    /// The staker has no active consensus key.
    NoActiveKey,
    /// No validator set exists yet.
    NoValidatorSet,
    /// The staker is not in the validator set.
    NotValidator,
    /// A swap's activation height lies before the current block.
    ActivationHeightPassed,
    /// No manifest is stored under the hash.
    ManifestNotFound,
    /// No artifact is stored under the hash.
    ArtifactNotFound,
}

/// Errors of a service call.
#[derive(Debug, Clone, Copy, PartialEq, Eq, Structural)]
pub enum TransactionError {
    /// The call is well-formed but refused.
    Invalid(RejectReason),
    /// The service has no such method.
    Unsupported,
    /// Parameters or stored bytes do not decode.
    Deserialization,
    /// The payer's balance does not cover the amount.
    InsufficientFunds,
    /// A signature does not verify.
    InvalidSignature,
    /// Data could not be hashed.
    Crypto,
}

/// Whether a method name is exactly the given byte string.
pub fn method_is(method: &str, name: &[u8]) -> (r: bool)
    ensures
        r == (method.spec_bytes() == name@),
{
    bytes_eq(method.as_bytes(), name)
}

} // verus!
