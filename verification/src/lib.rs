//! Connection-lifecycle core of a peer-to-peer networking layer.
//!
//! The crate manages the life of a TCP peer connection from the moment a
//! socket is accepted, through a nonce-based handshake against a table of
//! pre-registered sessions, to an established connection carrying framed
//! messages.  It owns three identifier spaces (stream tokens, handshake
//! timer tokens, node tokens), the bidirectional maps tying them together,
//! and the capacity-bounded pools they are drawn from.
//!
//! All socket, timer and event-loop plumbing lives outside this crate; the
//! embedding hands peer addresses and received bytes in, and carries the
//! returned frames and actions out.

use vstd::prelude::*;

pub mod connection;
pub mod error;
pub mod handler;
pub mod manager;
pub mod message;
pub mod session;
pub mod token_generator;
pub mod unprocessed_connection;

verus! {

/// Integer key of a TCP connection slot, drawn from
/// `[FIRST_CONNECTION_TOKEN, LAST_CONNECTION_TOKEN)`.
pub type StreamToken = usize;

/// Integer key of a pending-handshake timer, drawn from
/// `[FIRST_WAIT_SYNC_TOKEN, LAST_WAIT_SYNC_TOKEN)`.
pub type TimerToken = usize;

/// Identifier a connection is known by to upper layers; numerically equal
/// to the stream token of the owning connection.
pub type NodeToken = usize;

/// Unique per-session identifier; primary key for session lookup during the
/// handshake.
pub type Nonce = u64;

/// Protocol version carried by a negotiation request.
pub type Version = u64;

/// Upper bound on live connections.
pub const MAX_CONNECTIONS: usize = 32;

/// Upper bound on in-flight inbound handshakes.
pub const MAX_SYNC_WAITS: usize = 10;

/// Token reserved for the listening socket.
pub const ACCEPT_TOKEN: StreamToken = 0;

pub const FIRST_CONNECTION_TOKEN: StreamToken = ACCEPT_TOKEN + 1;

pub const LAST_CONNECTION_TOKEN: StreamToken = FIRST_CONNECTION_TOKEN + MAX_CONNECTIONS;

pub const FIRST_WAIT_SYNC_TOKEN: TimerToken = LAST_CONNECTION_TOKEN;

pub const LAST_WAIT_SYNC_TOKEN: TimerToken = FIRST_WAIT_SYNC_TOKEN + MAX_SYNC_WAITS;

/// Handshake deadline, in milliseconds after accept.
pub const WAIT_SYNC_MS: u64 = 10 * 1000;

} // verus!
