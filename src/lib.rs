//! Server-authoritative state replication for a real-time multiplayer world.
//!
//! The library holds the logic of the replication layer: the wire protocol
//! and its byte encoding, the per-client identity mapping between server
//! entities and local entities, the lobby registries on both sides, the
//! server's per-tick engine and the client's reconciliation engine. The
//! transport, rendering and physics stand outside and talk to it through
//! plain values.

pub mod ids;
pub mod mapping;
pub mod wire;
pub mod protocol;
pub mod codec;
pub mod round_trip;
pub mod client;
pub mod server;
pub mod timing;
pub mod input;
