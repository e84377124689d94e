//! Replication of a rigid-body world over an unreliable datagram transport.
//!
//! The server encodes a snapshot of its world into a compact packet, eliding
//! bodies at rest; the client decodes each packet into a mirrored world that
//! grows as new bodies appear. Every float of the protocol is handled as its
//! IEEE-754 bit pattern, so values are copied bit for bit and never recomputed.
pub mod body;
pub mod decode;
pub mod encode;
pub mod laws;
pub mod session;
pub mod simulation;
pub mod units;
pub mod wire;
