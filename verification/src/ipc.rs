//! The node's local control socket: the frames a client and the node exchange,
//! and how the node answers a request.
//!
//! Frames are length-delimited, a 4-byte big-endian length and then that many
//! bytes, with a cap so a client cannot announce a huge length to force an
//! allocation. Each frame body is a fixed-arity `[tag, ..fields]` array in
//! canonical CBOR. An absent digest is the empty byte string, so the arity stays
//! fixed.

pub mod answers;
pub mod conn;
pub mod frame;
pub mod laws;
pub mod readback;
pub mod request;
pub mod serve;

pub use frame::Frame;
pub use request::Request;

use vstd::prelude::*;

verus! {

/// The protocol this build speaks. A client that sees another version must
/// disconnect rather than guess.
pub const PROTOCOL_VERSION: u64 = 7;

/// Largest frame accepted in either direction.
pub const MAX_FRAME: usize = 262144;

} // verus!
