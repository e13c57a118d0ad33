//! A private, authenticated, compressed tunnel over a plain byte stream.
//!
//! A connection first runs an obfuscated liveness check (the magic
//! exchange, `magic`), then a Noise XK key exchange (`exchange`) whose
//! messages carry an obfuscated length prefix (`net`); `session` strings
//! the two together. After that every byte travels in encrypted,
//! compressed frames (`codec`). Everything here is computation on bytes:
//! reading and writing the socket is left to the caller.
use vstd::prelude::*;

pub mod bits;
pub mod codec;
pub mod config;
pub mod exchange;
pub mod leb128;
pub mod magic;
pub mod metafs;
pub mod net;
pub mod photofs;
pub mod session;

verus! {

/// The hard ceiling on any single message or frame, in bytes.
pub const SIZE_LIMIT: usize = 65535;

/// The TCP port that both ends of a tunnel use.
pub const XENON_PORT: u16 = 28988;

/// The largest HTTP/2 frame the layer above is told to use.
pub const MAX_FRAME_SIZE: u32 = 61440;

} // verus!
