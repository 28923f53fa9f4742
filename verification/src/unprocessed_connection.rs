//! A freshly accepted connection that has not yet completed its handshake.

use std::collections::HashMap;

use vstd::prelude::*;

use crate::connection::{Connection, Frame};
use crate::error::Error;
use crate::session::{RegisteredSession, Session, SocketAddr};
use crate::Nonce;

verus! {

/// Leading byte of a Sync frame.
pub const SYNC_TAG: u8 = 1;

/// A Sync frame is the tag byte followed by the eight-byte big-endian nonce.
pub const SYNC_FRAME_LEN: usize = 9;

/// The value of eight big-endian bytes.
pub open spec fn be_u64(s: Seq<u8>) -> u64
    recommends
        s.len() == 8,
{
    ((s[0] as int) * 0x100000000000000 + (s[1] as int) * 0x1000000000000 + (s[2] as int)
        * 0x10000000000 + (s[3] as int) * 0x100000000 + (s[4] as int) * 0x1000000 + (s[5] as int)
        * 0x10000 + (s[6] as int) * 0x100 + (s[7] as int)) as u64
}

/// The nonce carried by a complete Sync frame at the head of `buf`.
pub open spec fn sync_frame_nonce(buf: Seq<u8>) -> Nonce
    recommends
        buf.len() >= SYNC_FRAME_LEN,
{
    be_u64(buf.subrange(1, SYNC_FRAME_LEN as int))
}

fn read_be_u64(buf: &Vec<u8>, start: usize) -> (r: u64)
    requires
        start + 8 <= buf.len(),
    ensures
        r == be_u64(buf@.subrange(start as int, start + 8)),
{
    let r = (buf[start] as u64) * 0x100000000000000 + (buf[start + 1] as u64) * 0x1000000000000 + (
    buf[start + 2] as u64) * 0x10000000000 + (buf[start + 3] as u64) * 0x100000000 + (buf[start
        + 4] as u64) * 0x1000000 + (buf[start + 5] as u64) * 0x10000 + (buf[start + 6] as u64)
        * 0x100 + (buf[start + 7] as u64);
    proof {
        let s = buf@.subrange(start as int, start + 8);
        assert(s[0] == buf@[start as int] && s[1] == buf@[start + 1] && s[2] == buf@[start + 2]
            && s[3] == buf@[start + 3] && s[4] == buf@[start + 4] && s[5] == buf@[start + 5] && s[6]
            == buf@[start + 6] && s[7] == buf@[start + 7]);
    }
    r
}

/// Wraps a stream whose handshake is still pending: the peer address, the
/// bytes buffered so far, and, once a valid Sync frame arrived, the session
/// it named.
pub struct UnprocessedConnection {
    peer: SocketAddr,
    buffer: Vec<u8>,
    session: Option<Session>,
}

impl UnprocessedConnection {
    pub closed spec fn peer_spec(self) -> SocketAddr {
        self.peer
    }

    pub closed spec fn buffer_spec(self) -> Seq<u8> {
        self.buffer@
    }

    /// The session named by the parsed Sync frame, once one arrived.
    pub closed spec fn parsed_session(self) -> Option<Session> {
        self.session
    }

    pub open spec fn is_fresh(self, peer: SocketAddr) -> bool {
        &&& self.peer_spec() == peer
        &&& self.buffer_spec() == Seq::<u8>::empty()
        &&& self.parsed_session() is None
    }

    pub fn new(peer: SocketAddr) -> (c: UnprocessedConnection)
        ensures
            c.is_fresh(peer),
    {
        UnprocessedConnection { peer, buffer: Vec::new(), session: None }
    }

    pub fn peer(&self) -> (p: SocketAddr)
        ensures
            p == self.peer_spec(),
    {
        self.peer
    }

    /// Buffers the newly received bytes and attempts to parse the Sync frame
    /// that opens the handshake.  Returns `Ok(None)` while the frame is still
    /// incomplete, `Ok(Some(session))` once a complete Sync named a session
    /// registered in `sessions`, and an error if the frame is malformed or
    /// names an unknown nonce.
    pub fn receive(
        &mut self,
        incoming: &Vec<u8>,
        sessions: &HashMap<Nonce, RegisteredSession>,
    ) -> (r: Result<Option<Session>, Error>)
        requires
            old(self).parsed_session() is None,
        ensures
            final(self).peer_spec() == old(self).peer_spec(),
            ({
                let buf = old(self).buffer_spec() + incoming@;
                &&& (buf.len() < SYNC_FRAME_LEN) ==> {
                    &&& r == Ok::<Option<Session>, Error>(None)
                    &&& final(self).buffer_spec() == buf
                    &&& final(self).parsed_session() is None
                }
                &&& (buf.len() >= SYNC_FRAME_LEN && buf[0] != SYNC_TAG) ==> {
                    &&& r == Err::<Option<Session>, Error>(Error::MalformedSync)
                    &&& final(self).buffer_spec() == buf
                    &&& final(self).parsed_session() is None
                }
                &&& (buf.len() >= SYNC_FRAME_LEN && buf[0] == SYNC_TAG && !sessions@.contains_key(
                    sync_frame_nonce(buf),
                )) ==> {
                    &&& r == Err::<Option<Session>, Error>(Error::UnregisteredNonce)
                    &&& final(self).buffer_spec() == buf
                    &&& final(self).parsed_session() is None
                }
                &&& (buf.len() >= SYNC_FRAME_LEN && buf[0] == SYNC_TAG && sessions@.contains_key(
                    sync_frame_nonce(buf),
                )) ==> {
                    &&& r == Ok::<Option<Session>, Error>(
                        Some(sessions@[sync_frame_nonce(buf)].session),
                    )
                    &&& final(self).parsed_session() == Some(
                        sessions@[sync_frame_nonce(buf)].session,
                    )
                    &&& final(self).buffer_spec() == buf.subrange(
                        SYNC_FRAME_LEN as int,
                        buf.len() as int,
                    )
                }
            }),
    {
        let ghost buf = old(self).buffer_spec() + incoming@;
        let mut i: usize = 0;
        while i < incoming.len()
            invariant
                i <= incoming.len(),
                self.buffer@ == old(self).buffer@ + incoming@.subrange(0, i as int),
                self.peer == old(self).peer,
                self.session == old(self).session,
            decreases incoming.len() - i,
        {
            self.buffer.push(incoming[i]);
            proof {
                assert(old(self).buffer@ + incoming@.subrange(0, i as int + 1) =~= (old(
                    self,
                ).buffer@ + incoming@.subrange(0, i as int)).push(incoming@[i as int]));
            }
            i = i + 1;
        }
        proof {
            assert(incoming@.subrange(0, incoming@.len() as int) =~= incoming@);
            assert(self.buffer@ =~= buf);
        }
        if self.buffer.len() < SYNC_FRAME_LEN {
            return Ok(None);
        }
        if self.buffer[0] != SYNC_TAG {
            return Err(Error::MalformedSync);
        }
        let nonce = read_be_u64(&self.buffer, 1);
        proof {
            assert(self.buffer@.subrange(1, 9) =~= buf.subrange(1, SYNC_FRAME_LEN as int));
        }
        match sessions.get(&nonce) {
            None => Err(Error::UnregisteredNonce),
            Some(reg) => {
                let session = reg.session;
                self.session = Some(session);
                let ghost full = self.buffer@;
                let mut rest: Vec<u8> = Vec::new();
                let mut j: usize = SYNC_FRAME_LEN;
                while j < self.buffer.len()
                    invariant
                        SYNC_FRAME_LEN <= j <= self.buffer@.len(),
                        self.buffer@ == full,
                        full.len() >= SYNC_FRAME_LEN,
                        rest@ == full.subrange(SYNC_FRAME_LEN as int, j as int),
                    decreases self.buffer@.len() - j,
                {
                    rest.push(self.buffer[j]);
                    proof {
                        assert(full.subrange(SYNC_FRAME_LEN as int, j as int + 1) =~= full.subrange(
                            SYNC_FRAME_LEN as int,
                            j as int,
                        ).push(full[j as int]));
                    }
                    j = j + 1;
                }
                proof {
                    assert(rest@ =~= buf.subrange(SYNC_FRAME_LEN as int, buf.len() as int));
                }
                self.buffer = rest;
                Ok(Some(session))
            },
        }
    }

    /// Consumes the pending connection once a Sync arrived, yielding the
    /// established connection with the named session installed and the bytes
    /// that followed the Sync frame.
    pub fn process(self) -> (r: (Connection, Vec<u8>))
        requires
            self.parsed_session() is Some,
        ensures
            Some(r.0.session_spec()) == self.parsed_session(),
            r.0.queue_spec() == Seq::<Frame>::empty(),
            r.1@ == self.buffer_spec(),
    {
        let UnprocessedConnection { peer: _, buffer, session } = self;
        let connection = Connection::new(session.unwrap());
        (connection, buffer)
    }
}

} // verus!
