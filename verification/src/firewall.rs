//! The semantic firewall's determinism boundary: inference output becomes
//! canonical JSON (RFC 8785), and its hash is the intent hash.

use vstd::prelude::*;
use vstd::string::StringSliceAdditionalSpecFns;
use serde_json::Value;
use crate::crypto::{sha256, sha256_accepts, sha256_spec};

verus! {

/// Errors of the firewall.
#[derive(Debug, Clone, Copy, PartialEq, Eq, Structural)]
pub enum FirewallError {
    /// The inference output is not JSON.
    InvalidJson,
    /// The canonical serializer refused the value.
    Canonicalization,
    /// The canonical bytes could not be hashed.
    Hashing,
}

/// Whether serde_json parses a text as a JSON value.
pub uninterp spec fn json_parses(raw: Seq<char>) -> bool;

/// The RFC 8785 canonical bytes that serde_jcs writes for the JSON value
/// serde_json parses from a text; `None` where the serializer refuses the
/// value. The value in between is opaque to the library, so the bytes are
/// named over the text.
pub uninterp spec fn json_canonical(raw: Seq<char>) -> Option<Seq<u8>>;

/// Calls serde_json's `from_str` into a `Value`, then serde_jcs's `to_vec`
/// on that value.
/// Claims: the parse fails exactly when the text does not parse (named
/// `json_parses`), and otherwise the result is the named canonical bytes of
/// the text, or the serializer's refusal where the name gives none. Both
/// steps are deterministic functions of their input.
#[verifier::external_body]
fn parse_and_canonicalize(raw: &str) -> (res: Result<Vec<u8>, FirewallError>)
    ensures
        !json_parses(raw@) ==> res is Err && res->Err_0 == FirewallError::InvalidJson,
        json_parses(raw@) && json_canonical(raw@) is Some ==> res is Ok && res->Ok_0@ == json_canonical(raw@)->0,
        json_parses(raw@) && json_canonical(raw@) is None ==> res is Err && res->Err_0 == FirewallError::Canonicalization,
{
    let value: Value = match serde_json::from_str(raw) {
        Ok(v) => v,
        Err(_) => return Err(FirewallError::InvalidJson),
    };
    match serde_jcs::to_vec(&value) {
        Ok(b) => Ok(b),
        Err(_) => Err(FirewallError::Canonicalization),
    }
}

/// The semantic firewall.
pub struct SemanticFirewall;

impl SemanticFirewall {
    /// Validates inputs against a template; every input passes for now.
    pub fn preflight_check(_input: &[u8]) -> (r: Result<(), FirewallError>)
        ensures
            r is Ok,
    {
        Ok(())
    }

    /// Converts raw inference output into canonical JSON bytes: parse, then
    /// serialize with sorted keys and canonical number formatting.
    pub fn canonicalize(raw_output: &str) -> (r: Result<Vec<u8>, FirewallError>)
        ensures
            !json_parses(raw_output@) ==> r == Err::<Vec<u8>, FirewallError>(FirewallError::InvalidJson),
            json_parses(raw_output@) ==> match json_canonical(raw_output@) {
                Some(b) => r matches Ok(v) && v@ == b,
                None => r == Err::<Vec<u8>, FirewallError>(FirewallError::Canonicalization),
            },
    {
        parse_and_canonicalize(raw_output)
    }

    /// The intent hash of canonical bytes: their SHA-256.
    pub fn compute_intent_hash(canonical_bytes: &[u8]) -> (r: Result<[u8; 32], FirewallError>)
        ensures
            match r {
                Ok(h) => sha256_accepts(canonical_bytes@) && h@ == sha256_spec(canonical_bytes@),
                Err(e) => e == FirewallError::Hashing && !sha256_accepts(canonical_bytes@),
            },
    {
        match sha256(canonical_bytes) {
            Some(d) => Ok(crate::bytes::read_array(d.as_slice(), 0)),
            None => Err(FirewallError::Hashing),
        }
    }
}

/// A service that normalises JSON output deterministically.
pub struct OutputNormaliser;

impl OutputNormaliser {
    /// Normalises raw JSON (RFC 8785) and returns the SHA-256 of the canonical bytes.
    pub fn normalise_and_hash(raw_json: &str) -> (r: Result<Vec<u8>, FirewallError>)
        ensures
            !json_parses(raw_json@) ==> r == Err::<Vec<u8>, FirewallError>(FirewallError::InvalidJson),
            json_parses(raw_json@) ==> match json_canonical(raw_json@) {
                Some(b) => if sha256_accepts(b) {
                    r matches Ok(h) && h@ == sha256_spec(b) && h@.len() == 32
                } else {
                    r == Err::<Vec<u8>, FirewallError>(FirewallError::Hashing)
                },
                None => r == Err::<Vec<u8>, FirewallError>(FirewallError::Canonicalization),
            },
    {
        let canonical_bytes = SemanticFirewall::canonicalize(raw_json)?;
        match sha256(canonical_bytes.as_slice()) {
            Some(d) => Ok(d),
            None => Err(FirewallError::Hashing),
        }
    }
}

} // verus!
