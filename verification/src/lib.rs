//! Verified core logic of the IOI kernel: the SCS container header, hash
//! commitments and their proof encoding, IAVL proof verification, the IAVL and
//! Jellyfish state trees, the Verkle node update, nibble paths, mHNSW node
//! hashing, the chain services and the agentic service decisions.

pub mod agent;
pub mod bytes;
pub mod codec;
pub mod compute_market;
pub mod crypto;
pub mod execution;
pub mod firewall;
pub mod gov_contract;
pub mod gov_params;
pub mod gov_tally;
pub mod governance;
pub mod hash_commitment;
pub mod iavl;
pub mod iavl_tree;
pub mod ibc;
pub mod identity;
pub mod intent;
pub mod jellyfish;
pub mod jellyfish_tree;
pub mod keys;
pub mod kzg;
pub mod leakage;
pub mod mhnsw;
pub mod prompt_wrapper;
pub mod proposal_codec;
pub mod provider_registry;
pub mod rules;
pub mod safety;
pub mod scrubber;
pub mod scs_format;
pub mod scs_store;
pub mod service;
pub mod session;
pub mod state;
pub mod tools;
pub mod upgrade;
pub mod validator_codec;
pub mod validators;
pub mod verifier_registry;
pub mod verkle;
