//! The error type shared by the packet and transport layers.

use vstd::prelude::*;

verus! {

/// What can go wrong below the channel layer.
#[derive(Clone, Copy, Debug, PartialEq, Eq, Structural)]
pub enum RnsError {
    /// A fixed-capacity buffer cannot take the bytes offered to it.
    OutOfMemory,
    /// A packet does not have the shape the operation expects.
    PacketError,
    /// The peer or the interface is not reachable.
    ConnectionError,
    /// An address does not match the keys and the name it is claimed for.
    IncorrectHash,
    /// A signature was found bad.
    IncorrectSignature,
}

} // verus!
