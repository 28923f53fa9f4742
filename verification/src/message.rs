//! Commands posted to the handler by upper layers.

use vstd::prelude::*;

use crate::session::{Session, SocketAddr};
use crate::{NodeToken, Version};

verus! {

/// A command from an upper layer, delivered to the handler one at a time.
#[derive(Clone, Debug, PartialOrd, PartialEq)]
pub enum Message {
    /// Make a session available for one future handshake with this peer.
    RegisterSession(SocketAddr, Session),
    /// Register the session if possible, then open an outbound connection.
    RequestConnection(SocketAddr, Session),
    /// Enqueue a negotiation request on an established connection.
    RequestNegotiation { node_id: NodeToken, extension_name: String, version: Version },
    /// Enqueue an extension frame on an established connection.
    SendExtensionMessage {
        node_id: NodeToken,
        extension_name: String,
        need_encryption: bool,
        data: Vec<u8>,
    },
}

} // verus!
