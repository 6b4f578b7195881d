//! The transport core: what a node does with every packet that comes in,
//! and what it does when its clocks tick.
//!
//! Times are whole microseconds on a clock that never runs backwards.

use vstd::prelude::*;

pub mod action;
pub mod announce_table;
pub mod handler;
pub mod laws;
pub mod link_table;
pub mod maintenance;
pub mod node;
pub mod packet_cache;
pub mod path_requests;
pub mod path_table;

pub use crate::transport::action::AnnounceEvent;
pub use crate::transport::action::ReceivedData;
pub use crate::transport::action::TransportAction;
pub use crate::transport::action::TxMessage;
pub use crate::transport::action::TxMessageType;
pub use crate::transport::handler::create_retransmit_packet;
pub use crate::transport::handler::TransportConfig;
pub use crate::transport::handler::TransportHandler;
pub use crate::transport::node::Transport;

verus! {

/// The most hops a packet may have travelled and still be passed on.
pub const PATHFINDER_M: usize = 128;

/// Microseconds between two checks of the links.
pub const INTERVAL_LINKS_CHECK: u64 = 1_000_000;

/// Microseconds of silence after which a link that a peer opened is
/// closed.
pub const INTERVAL_INPUT_LINK_CLEANUP: u64 = 20_000_000;

/// Microseconds after which the clock of an active link of this node is
/// set anew.
pub const INTERVAL_OUTPUT_LINK_RESTART: u64 = 60_000_000;

/// Microseconds after which the request of a pending link of this node is
/// sent again.
pub const INTERVAL_OUTPUT_LINK_REPEAT: u64 = 6_000_000;

/// Microseconds between two keep-alives on the active links of this node.
pub const INTERVAL_OUTPUT_LINK_KEEP: u64 = 5_000_000;

/// Microseconds between two cleanups of the interfaces.
pub const INTERVAL_IFACE_CLEANUP: u64 = 10_000_000;

/// Microseconds between two rounds of passing announces on.
pub const INTERVAL_ANNOUNCES_RETRANSMIT: u64 = 1_000_000;

/// Microseconds that the long sweep lets a packet stay in the cache.
pub const INTERVAL_KEEP_PACKET_CACHED: u64 = 180_000_000;

/// Microseconds between two long sweeps of the cache.
pub const INTERVAL_PACKET_CACHE_CLEANUP: u64 = 90_000_000;

/// Microseconds that the short sweep lets a packet stay in the cache.
pub const INTERVAL_KEEP_PACKET_BRIEFLY: u64 = 4_000_000;

/// Microseconds between two short sweeps of the cache.
pub const INTERVAL_PACKET_CACHE_SHORT_CLEANUP: u64 = 1_000_000;

} // verus!
