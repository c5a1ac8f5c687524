//! KZG commitments, proofs and witnesses as bytes.

use vstd::prelude::*;

verus! {

/// Opaque witness that lets proofs be produced later without the full input.
#[derive(Debug, Clone)]
pub struct KZGWitness {
    /// Coefficients of the polynomial, each a little-endian field element.
    pub coeffs: Vec<[u8; 32]>,
    /// A fingerprint of the reference string used to create this witness.
    pub srs_id: [u8; 32],
}

/// A KZG commitment to a polynomial: a compressed G1 point.
#[derive(Debug, Clone)]
pub struct KZGCommitment(pub Vec<u8>);

impl KZGCommitment {
    /// The compressed G1 point as a byte slice.
    pub fn to_bytes(&self) -> (b: &[u8])
        ensures
            b@ == self.0@,
    {
        self.0.as_slice()
    }
}

/// A KZG proof: a commitment to the quotient polynomial (a compressed G1 point).
#[derive(Debug, Clone)]
pub struct KZGProof(pub Vec<u8>);

impl KZGProof {
    /// The compressed G1 point as a byte slice.
    pub fn to_bytes(&self) -> (b: &[u8])
        ensures
            b@ == self.0@,
    {
        self.0.as_slice()
    }
}

} // verus!
