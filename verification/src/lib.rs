//! Transport core of a Reticulum mesh node and the reliable message channel
//! that rides on its links.
//!
//! Everything in this crate is synchronous and free of I/O: handlers take the
//! current time and the inbound packet, and answer with the new state and the
//! list of things to send or publish. The runtime that owns the sockets and
//! the timers drives them.

pub mod channel;
pub mod crypt;
pub mod destination;
pub mod error;
pub mod hash;
pub mod packet;
pub mod table;
pub mod transport;
