//! Wire types and framing: messages to bytes and back, and nothing about
//! sockets, audio devices or threads.

use vstd::prelude::*;

pub mod api;
pub mod discovery;
pub mod framing;
pub mod media;

verus! {

/// Bumped only for changes that a peer cannot parse.
pub const PROTOCOL_VERSION: u32 = 1;

/// Default control port, clear of the ports that game streaming tools occupy.
pub const DEFAULT_CONTROL_PORT: u16 = 42100;

/// Default media port.
pub const DEFAULT_MEDIA_PORT: u16 = 42101;

} // verus!
