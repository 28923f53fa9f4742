//! Failure taxonomy of the connection handler.

use vstd::prelude::*;

use crate::{NodeToken, StreamToken};

verus! {

/// Why an operation on the connection handler failed.  Capacity and lookup
/// failures leave the state unchanged.
#[derive(Clone, Copy, PartialEq, Eq, Structural, Debug)]
pub enum Error {
    /// The stream token names neither an established nor a pending connection.
    InvalidStream(StreamToken),
    /// The node token names no established connection.
    InvalidNode(NodeToken),
    /// Every connection slot is taken.
    TooManyConnections,
    /// Every handshake timer is armed.
    TooManyWaitingSync,
    /// A session is already registered for this peer address or nonce.
    SessionAlreadyRegistered,
    /// No session is registered for this peer address.
    UnavailableSession,
    /// The first inbound frame is not a Sync frame.
    MalformedSync,
    /// The Sync frame names a nonce with no registered session.
    UnregisteredNonce,
}

impl Error {
    /// The stable textual reason reported for this failure.
    pub open spec fn message_spec(self) -> Seq<char> {
        match self {
            Error::InvalidStream(_) => "InvalidStream"@,
            Error::InvalidNode(_) => "InvalidNode"@,
            Error::TooManyConnections => "TooManyConnections"@,
            Error::TooManyWaitingSync => "TooManyWaitingSync"@,
            Error::SessionAlreadyRegistered => "SessionAlreadyRegistered"@,
            Error::UnavailableSession => "UnavailableSession"@,
            Error::MalformedSync => "MalformedSync"@,
            Error::UnregisteredNonce => "UnregisteredNonce"@,
        }
    }

    pub fn message(&self) -> (r: String)
        ensures
            r@ == self.message_spec(),
    {
        broadcast use vstd::string::to_string_from_display_ensures_for_str;

        match self {
            Error::InvalidStream(_) => "InvalidStream".to_string(),
            Error::InvalidNode(_) => "InvalidNode".to_string(),
            Error::TooManyConnections => "TooManyConnections".to_string(),
            Error::TooManyWaitingSync => "TooManyWaitingSync".to_string(),
            Error::SessionAlreadyRegistered => "SessionAlreadyRegistered".to_string(),
            Error::UnavailableSession => "UnavailableSession".to_string(),
            Error::MalformedSync => "MalformedSync".to_string(),
            Error::UnregisteredNonce => "UnregisteredNonce".to_string(),
        }
    }
}

} // verus!
