//! The channels that game state is sent over.

use vstd::prelude::*;

verus! {

/// The number that tells this protocol from others.
pub const PROTOCOL_ID: u64 = 7;

/// A channel between client and server.
#[derive(Debug, Clone, Copy, PartialEq, Eq, Structural)]
pub enum NettyChannel {
    /// Messages that arrive, and in order.
    Reliable,
    /// Messages that may be lost.
    Unreliable,
    /// Messages of the laser cannon system.
    LaserCannonSystem,
}

impl NettyChannel {
    /// The number of the channel on the wire.
    pub open spec fn spec_id(self) -> u8 {
        match self {
            NettyChannel::Reliable => 0,
            NettyChannel::Unreliable => 1,
            NettyChannel::LaserCannonSystem => 2,
        }
    }

    /// The number of the channel on the wire.
    pub fn id(&self) -> (id: u8)
        ensures
            id == self.spec_id(),
    {
        match self {
            NettyChannel::Reliable => 0,
            NettyChannel::Unreliable => 1,
            NettyChannel::LaserCannonSystem => 2,
        }
    }
}

} // verus!
