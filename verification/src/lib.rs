//! A lightweight messaging layer over TCP: endpoints send and receive typed
//! messages to and from peer addresses, with connections created, reused and
//! multiplexed per distinct peer.
//!
//! This crate holds the verified core: the wire framing, the peer-address
//! model, the address-to-connection stream table, and the decision logic of
//! the writer loop and the per-connection reader task. Sockets, task spawning
//! and the binary payload codec live outside it; they hand the core plain
//! bytes and take plain bytes back.

pub mod addr;
pub mod frame;
pub mod reader;
pub mod table;
pub mod writer;

use vstd::prelude::*;

verus! {

} // verus!
