//! An established, session-bearing connection and its outbound frame queue.

use vstd::prelude::*;

use crate::session::Session;
use crate::{Nonce, Version};

verus! {

/// A frame queued for transmission.  Encoding frames to wire bytes is the
/// embedding's concern; the handler core only observes Sync and Ack.
#[derive(Clone, PartialEq, Eq, Debug)]
pub enum Frame {
    Sync(Nonce),
    Ack,
    NegotiationRequest { extension_name: String, version: Version },
    Extension { extension_name: String, need_encryption: bool, data: Vec<u8> },
}

/// A handshake-complete connection: the installed session and the queue of
/// frames awaiting transmission, in enqueue order.
pub struct Connection {
    session: Session,
    send_queue: Vec<Frame>,
}

impl Connection {
    pub closed spec fn session_spec(self) -> Session {
        self.session
    }

    pub closed spec fn queue_spec(self) -> Seq<Frame> {
        self.send_queue@
    }

    pub fn new(session: Session) -> (c: Connection)
        ensures
            c.session_spec() == session,
            c.queue_spec() == Seq::<Frame>::empty(),
    {
        Connection { session, send_queue: Vec::new() }
    }

    /// The session installed at handshake completion.
    pub fn session(&self) -> (s: Session)
        ensures
            s == self.session_spec(),
    {
        self.session
    }

    pub fn enqueue_sync(&mut self, nonce: Nonce)
        ensures
            final(self).session_spec() == old(self).session_spec(),
            final(self).queue_spec() == old(self).queue_spec().push(Frame::Sync(nonce)),
    {
        self.send_queue.push(Frame::Sync(nonce));
    }

    pub fn enqueue_ack(&mut self)
        ensures
            final(self).session_spec() == old(self).session_spec(),
            final(self).queue_spec() == old(self).queue_spec().push(Frame::Ack),
    {
        self.send_queue.push(Frame::Ack);
    }

    pub fn enqueue_negotiation_request(&mut self, extension_name: String, version: Version)
        ensures
            final(self).session_spec() == old(self).session_spec(),
            final(self).queue_spec() == old(self).queue_spec().push(
                Frame::NegotiationRequest { extension_name, version },
            ),
    {
        self.send_queue.push(Frame::NegotiationRequest { extension_name, version });
    }

    pub fn enqueue_extension_message(
        &mut self,
        extension_name: String,
        need_encryption: bool,
        data: Vec<u8>,
    )
        ensures
            final(self).session_spec() == old(self).session_spec(),
            final(self).queue_spec() == old(self).queue_spec().push(
                Frame::Extension { extension_name, need_encryption, data },
            ),
    {
        self.send_queue.push(Frame::Extension { extension_name, need_encryption, data });
    }

    /// Takes the next frame to transmit, oldest first; `None` once the queue
    /// is drained.
    pub fn send(&mut self) -> (r: Option<Frame>)
        ensures
            final(self).session_spec() == old(self).session_spec(),
            match r {
                Some(f) => {
                    &&& old(self).queue_spec().len() > 0
                    &&& f == old(self).queue_spec()[0]
                    &&& final(self).queue_spec() == old(self).queue_spec().remove(0)
                },
                None => {
                    &&& old(self).queue_spec().len() == 0
                    &&& final(self).queue_spec() == old(self).queue_spec()
                },
            },
    {
        if self.send_queue.len() == 0 {
            None
        } else {
            Some(self.send_queue.remove(0))
        }
    }
}

} // verus!
