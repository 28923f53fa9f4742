//! Peer addresses and pre-negotiated sessions.

use vstd::prelude::*;

use crate::Nonce;

verus! {

/// IPv4 address and port of a remote peer, held as plain values.
#[derive(Clone, Copy, PartialEq, Eq, Structural, PartialOrd, Debug)]
pub struct SocketAddr {
    pub ip: u32,
    pub port: u16,
}

impl SocketAddr {
    /// The address packed into a single integer, used as a map key.
    pub open spec fn key_spec(self) -> u64 {
        (((self.ip as int) * 0x10000) + (self.port as int)) as u64
    }

    pub fn key(self) -> (r: u64)
        ensures
            r == self.key_spec(),
    {
        (self.ip as u64) * 0x10000 + (self.port as u64)
    }
}

/// Two distinct addresses never pack to the same key.
pub proof fn lemma_addr_key_injective(a: SocketAddr, b: SocketAddr)
    ensures
        (a.key_spec() == b.key_spec()) <==> (a == b),
{
    if a.key_spec() == b.key_spec() {
        assert(a.ip == b.ip && a.port == b.port) by (nonlinear_arith)
            requires
                (a.ip as int) * 0x10000 + (a.port as int) == (b.ip as int) * 0x10000 + (
                b.port as int),
                a.port < 0x10000,
                b.port < 0x10000,
        ;
    }
}

/// A pre-negotiated session: possession of the pair unlocks exactly one
/// handshake.
#[derive(Clone, Copy, PartialEq, Eq, Structural, PartialOrd, Debug)]
pub struct Session {
    pub secret: u64,
    pub nonce: Nonce,
}

/// A session as it sits in the registry, together with the peer address it
/// was registered for.
#[derive(Clone, Copy, PartialEq, Eq, Structural, Debug)]
pub struct RegisteredSession {
    pub session: Session,
    pub registered_for: SocketAddr,
}

} // verus!
