# ioi_kernel

The core logic of the IOI kernel as a Verus library: every function in `src/`
carries a `requires`/`ensures` contract over mathematical models (`Seq`, `Map`,
`int`, views of the library's types) and is proved by Verus, free of panics and
of arithmetic overflow.

## Layout

- State trees and proofs: `iavl` (ICS-23 style existence and non-existence
  proofs, with the laws on the lexicographic successor and on roots built from
  leaf hashes), `iavl_tree` (the versioned AVL tree), `jellyfish` and
  `jellyfish_tree` (nibble paths and the sparse Merkle tree),
  `hash_commitment` (hash commitments and their proof encoding), `verkle`
  (the Verkle tree's node update and lookup, with the laws that a set value
  is read back and a removed one is gone), `mhnsw`.
- Chain services: `governance`, `gov_params`, `gov_contract`, `gov_tally`,
  `proposal_codec` (proposals, votes, tallies and their stored encoding),
  `identity` (key rotation with Ed25519 signatures checked over the rotation
  challenge), `validators`, `validator_codec`, `upgrade`, `provider_registry`,
  `compute_market`, `verifier_registry` (light-client verifier registration and
  the IBC state keys), `state` (the key-value state model), `keys`.
- Agentic service: `agent` (session start, resume, step gating and pausing),
  `execution` (tool-call planning), `intent`, `tools`, `firewall` (JSON
  canonicalisation and hashing), `leakage`, `scrubber`, `safety`, `rules`,
  `prompt_wrapper`, `session`.
- Storage: `scs_format` and `scs_store` (the sovereign context store's header,
  table of contents, frames and visual index).
- Outside crates: `crypto` and `codec` hold the trusted wrappers around dcrypt
  (SHA-256, SHA-512, Ed25519), parity-scale-codec, prost, hex, serde_json and
  serde_jcs. Each wrapper's doc comment says what its contract claims of the
  outside function; these claims are the only unproved statements.

`app/` holds what cannot be verified: the tool executor's drivers, reading a
model's plan and policy documents as JSON, and the floating-point grounding of
model clicks in screen pixels.
