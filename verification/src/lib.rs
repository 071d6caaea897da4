//! A Layer-4 reverse proxy core for the Minecraft Java-edition wire protocol.
//!
//! The library covers the per-connection engine: handshake decoding,
//! hostname routing with client-affine balancing, the handshake-rewrite
//! primers, the splice byte accounting, the metrics aggregation state,
//! and the connection lifecycle. Network I/O lives outside the library;
//! every function here is a pure computation over plain values.

use vstd::prelude::*;

pub mod addr;
pub mod client;
pub mod encoding;
pub mod error;
pub mod forwarding;
pub mod metrics;
pub mod packet;
pub mod packets;
pub mod piping;
pub mod router;
pub mod server;
pub mod uuid;
pub mod varint;

verus! {

/// Frames larger than this are rejected while reading.
pub const MAX_PACKET: usize = 2097152;

} // verus!
