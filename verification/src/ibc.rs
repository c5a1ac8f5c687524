//! IBC pieces that carry no outside state: the channel manager placeholder that
//! owns IBC ports, and the light-client errors.

use vstd::prelude::*;

verus! {

/// An IBC application module placeholder; all channel and packet state lives
/// in the chain state, so it is stateless.
#[derive(Debug, Default)]
pub struct ChannelManager {}

impl ChannelManager {
    /// Creates a new `ChannelManager`.
    pub fn new() -> (m: Self)
        ensures
            m == (ChannelManager {}),
    {
        ChannelManager {}
    }
}

/// Errors common to all light clients.
#[derive(Debug, Clone)]
pub enum IbcError {
    /// No client state is stored for the client id.
    ClientStateNotFound(String),
    /// No consensus state is stored for the client id at the height.
    ConsensusStateNotFound(String, u64),
}

} // verus!
