//! The hash functions and the varint length prefix that the library takes from
//! outside crates. Each call stands behind a trusted wrapper.

use vstd::prelude::*;
use dcrypt::algorithms::hash::{HashFunction, Sha256, Sha512};
use dcrypt::sign::eddsa::{Ed25519, Ed25519PublicKey, Ed25519Signature};

verus! {

/// The SHA-256 digest of a byte string, as dcrypt computes it.
pub uninterp spec fn sha256_spec(data: Seq<u8>) -> Seq<u8>;

/// The SHA-512 digest of a byte string, as dcrypt computes it.
pub uninterp spec fn sha512_spec(data: Seq<u8>) -> Seq<u8>;

/// Inputs that SHA-256 accepts: dcrypt refuses a message whose bit length
/// overflows a `u64`, that is one of `2^61` bytes or more.
pub open spec fn sha256_accepts(data: Seq<u8>) -> bool {
    data.len() < 0x2000_0000_0000_0000
}

/// The protobuf (LEB128) varint encoding of a length, least significant group first.
pub open spec fn varint_spec(v: nat) -> Seq<u8>
    decreases v,
{
    if v < 128 {
        seq![v as u8]
    } else {
        seq![((v % 128) + 128) as u8] + varint_spec(v / 128)
    }
}

/// Calls dcrypt's `Sha256::digest` (through `HashFunction::digest`).
/// Claims: a returned digest is 32 bytes and is the named SHA-256 of the input;
/// dcrypt fails exactly when the message bit length overflows a `u64`, so an
/// input gets a digest if and only if it has fewer than `2^61` bytes.
#[verifier::external_body]
pub(crate) fn sha256(data: &[u8]) -> (res: Option<Vec<u8>>)
    ensures
        res is Some <==> sha256_accepts(data@),
        res matches Some(d) ==> d@ == sha256_spec(data@) && d@.len() == 32,
{
    match <Sha256 as HashFunction>::digest(data) {
        Ok(d) => Some(d.as_ref().to_vec()),
        Err(_) => None,
    }
}

/// Calls dcrypt's `Sha512::digest` (through `HashFunction::digest`).
/// Claims: the digest is 64 bytes and is the named SHA-512 of the input.
/// dcrypt keeps the message length in a `u128`, so its length check never
/// fails for an in-memory slice and a digest always comes back.
#[verifier::external_body]
pub(crate) fn sha512(data: &[u8]) -> (res: Option<Vec<u8>>)
    ensures
        res is Some,
        res matches Some(d) ==> d@ == sha512_spec(data@) && d@.len() == 64,
{
    match <Sha512 as HashFunction>::digest(data) {
        Ok(d) => Some(d.as_ref().to_vec()),
        Err(_) => None,
    }
}

/// Calls prost's `encode_length_delimiter` on a fresh `Vec`.
/// Claims: the bytes written are the LEB128 varint of `length`; prost only
/// fails when the buffer cannot take ten more bytes, which a fresh `Vec` always can.
#[verifier::external_body]
pub(crate) fn encode_length_delimiter(length: usize) -> (res: Option<Vec<u8>>)
    ensures
        res is Some,
        res matches Some(b) ==> b@ == varint_spec(length as nat),
{
    let mut buf: Vec<u8> = Vec::new();
    match prost::encode_length_delimiter(length, &mut buf) {
        Ok(()) => Some(buf),
        Err(_) => None,
    }
}

/// Whether dcrypt accepts a byte string as an Ed25519 public key.
pub uninterp spec fn ed25519_key_ok(pk: Seq<u8>) -> bool;

/// Whether dcrypt accepts a byte string as an Ed25519 signature.
pub uninterp spec fn ed25519_signature_ok(sig: Seq<u8>) -> bool;

/// Whether dcrypt's strict Ed25519 verification accepts the signature of the message under the key.
pub uninterp spec fn ed25519_verify_spec(pk: Seq<u8>, msg: Seq<u8>, sig: Seq<u8>) -> bool;

/// Calls dcrypt's `Ed25519PublicKey::from_bytes`.
/// Claims: the outcome is the named acceptance of the bytes, and a key that is
/// not 32 bytes long is refused (the source converts to a 32-byte array first).
#[verifier::external_body]
pub(crate) fn ed25519_parse_key(pk: &[u8]) -> (r: bool)
    ensures
        r == ed25519_key_ok(pk@),
        pk@.len() != 32 ==> !r,
{
    Ed25519PublicKey::from_bytes(pk).is_ok()
}

/// Calls dcrypt's `Ed25519Signature::from_bytes`.
/// Claims: the outcome is the named acceptance of the bytes, and a signature
/// that is not 64 bytes long is refused (the source converts to a 64-byte array first).
#[verifier::external_body]
pub(crate) fn ed25519_parse_signature(sig: &[u8]) -> (r: bool)
    ensures
        r == ed25519_signature_ok(sig@),
        sig@.len() != 64 ==> !r,
{
    Ed25519Signature::from_bytes(sig).is_ok()
}

/// Calls dcrypt's `Ed25519::verify` on the parsed key and signature.
/// Claims: where both parse, the outcome is the named verification of the
/// message, key and signature; what it computes is not stated.
#[verifier::external_body]
pub(crate) fn ed25519_verify(pk: &[u8], msg: &[u8], sig: &[u8]) -> (r: bool)
    requires
        ed25519_key_ok(pk@),
        ed25519_signature_ok(sig@),
    ensures
        r == ed25519_verify_spec(pk@, msg@, sig@),
{
    match (Ed25519PublicKey::from_bytes(pk), Ed25519Signature::from_bytes(sig)) {
        (Ok(k), Ok(s)) => <Ed25519 as dcrypt::api::Signature>::verify(msg, &s, &k).is_ok(),
        _ => false,
    }
}

} // verus!
