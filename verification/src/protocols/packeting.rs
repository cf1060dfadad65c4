//! A protocol that prepares outbound packets.

use vstd::prelude::*;

verus! {

/// Implemented by nodes that prepare their outbound packets in a custom way.
pub trait PacketingProtocol {
    /// Prepares the node to prepare packets.
    fn enable_packeting_protocol(&self);
}

} // verus!
