//! Identities, vectors and errors shared by the server and the client.
use vstd::prelude::*;

verus! {

/// Logical player identity, assigned by the transport at connection time.
pub type PlayerId = u64;

/// Handle of an object in the server's world. Meaningful only to the server.
#[derive(Clone, Copy, PartialEq, Eq, Structural, Debug, Hash)]
pub struct ServerEntityId(pub u64);

/// Handle of a local object mirrored by one client. Meaningful only to that client.
#[derive(Clone, Copy, PartialEq, Eq, Structural, Debug, Hash)]
pub struct ClientEntityId(pub u64);

/// A vector of three `f32` components, each held as its IEEE-754 bit pattern.
///
/// The replication layer copies positions around and never computes with
/// them, so it keeps the exact bits that it was handed.
#[derive(Clone, Copy, PartialEq, Eq, Structural, Debug, Hash)]
pub struct Vec3 {
    pub x: u32,
    pub y: u32,
    pub z: u32,
}

/// A rotation quaternion of four `f32` components, held as bit patterns.
#[derive(Clone, Copy, PartialEq, Eq, Structural, Debug, Hash)]
pub struct Quat {
    pub x: u32,
    pub y: u32,
    pub z: u32,
    pub w: u32,
}

/// Bit pattern of `0.0_f32`.
pub const F32_ZERO: u32 = 0x0000_0000;

/// Bit pattern of `1.0_f32`.
pub const F32_ONE: u32 = 0x3f80_0000;

/// Bit pattern of `2.0_f32`.
pub const F32_TWO: u32 = 0x4000_0000;

impl Vec3 {
    pub fn new(x: u32, y: u32, z: u32) -> (r: Vec3)
        ensures
            r == (Vec3 { x, y, z }),
    {
        Vec3 { x, y, z }
    }
}

impl Quat {
    /// The rotation that does nothing: `(0, 0, 0, 1)`.
    pub fn identity() -> (r: Quat)
        ensures
            r == (Quat { x: F32_ZERO, y: F32_ZERO, z: F32_ZERO, w: F32_ONE }),
    {
        Quat { x: F32_ZERO, y: F32_ZERO, z: F32_ZERO, w: F32_ONE }
    }
}

/// Structural invariant violations: the only failures that leave a tick.
#[derive(Clone, Copy, PartialEq, Eq, Structural, Debug)]
pub enum ReplicationError {
    /// A server entity identity was registered while already registered.
    DuplicateRegistration,
    /// A player identity was announced or connected while already present.
    DuplicatePlayer,
    /// Every handle of the 64-bit handle space has been handed out.
    HandleSpaceExhausted,
}

} // verus!
