//! The reactor-facing facade: event callbacks, upper-layer commands and the
//! node directory.

use std::collections::HashMap;

use vstd::prelude::*;

use crate::connection::Frame;
use crate::error::Error;
use crate::manager::{
    buffered_more_bytes, eviction_transition, handshake_transition, Manager, ManagerView,
    ReceiveOutcome,
};
use crate::message::Message;
use crate::session::SocketAddr;
use crate::unprocessed_connection::{sync_frame_nonce, SYNC_FRAME_LEN, SYNC_TAG};
use crate::{
    NodeToken, StreamToken, TimerToken, ACCEPT_TOKEN, FIRST_CONNECTION_TOKEN,
    FIRST_WAIT_SYNC_TOKEN, LAST_CONNECTION_TOKEN, LAST_WAIT_SYNC_TOKEN, MAX_CONNECTIONS,
    MAX_SYNC_WAITS,
};

verus! {

/// What the embedding must do after a command was handled.
#[derive(Clone, Copy, PartialEq, Eq, Structural, Debug)]
pub enum MessageOutcome {
    /// Nothing further: the command was fully absorbed.
    Done,
    /// Open a TCP connection to the address, then report back through
    /// `connection_opened`.
    OpenConnection(SocketAddr),
    /// Refresh the reactor registration of this node's stream.
    UpdateRegistration(NodeToken),
}

/// Serializes every event and command onto the manager and keeps the
/// `NodeToken` to `SocketAddr` directory that upper layers consult.  The
/// embedding wraps it in its lock of choice; every method here takes the
/// whole state exclusively.
pub struct Handler {
    manager: Manager,
    node_token_to_socket: HashMap<NodeToken, SocketAddr>,
    socket_to_node_token: HashMap<u64, NodeToken>,
}

impl Handler {
    pub closed spec fn manager_spec(self) -> Manager {
        self.manager
    }

    /// Directory from node token to peer address.
    pub closed spec fn fwd(self) -> Map<NodeToken, SocketAddr> {
        self.node_token_to_socket@
    }

    /// Directory from packed peer-address key to node token.
    pub closed spec fn rev(self) -> Map<u64, NodeToken> {
        self.socket_to_node_token@
    }

    /// The two directory maps are exact inverses.
    pub open spec fn inv_directory(self) -> bool {
        &&& forall|t: NodeToken|
            self.fwd().dom().contains(t) ==> self.rev().contains_pair(self.fwd()[t].key_spec(), t)
        &&& forall|k: u64|
            self.rev().dom().contains(k) ==> (self.fwd().dom().contains(self.rev()[k])
                && self.fwd()[self.rev()[k]].key_spec() == k)
    }

    /// Every directory entry names a live stream token.
    pub open spec fn inv_directory_live(self) -> bool {
        forall|t: NodeToken| self.fwd().dom().contains(t) ==> self.manager_spec()@.live(t)
    }

    pub open spec fn wf(self) -> bool {
        &&& self.manager_spec().wf()
        &&& self.inv_directory()
        &&& self.inv_directory_live()
    }

    /// Creates the handler with an empty manager and an empty directory.
    /// Binding the listener, the reactor and the client callback stay with
    /// the embedding.
    pub fn new() -> (h: Handler)
        ensures
            h.wf(),
            h.fwd() == Map::<NodeToken, SocketAddr>::empty(),
            h.rev() == Map::<u64, NodeToken>::empty(),
            h.manager_spec()@.connections.len() == 0,
            h.manager_spec()@.unprocessed_connections.len() == 0,
            h.manager_spec()@.registered_sessions.len() == 0,
            h.manager_spec()@.socket_to_session.len() == 0,
            h.manager_spec()@.streams_outstanding() == 0,
            h.manager_spec()@.timers_outstanding() == 0,
    {
        let h = Handler {
            manager: Manager::listen(),
            node_token_to_socket: HashMap::new(),
            socket_to_node_token: HashMap::new(),
        };
        proof {
            assert(h.fwd().dom() =~= Set::<NodeToken>::empty());
            assert(h.rev().dom() =~= Set::<u64>::empty());
        }
        h
    }

    /// Read-only access to the manager, for querying its state.
    pub fn manager(&self) -> (m: &Manager)
        ensures
            *m == self.manager_spec(),
    {
        &self.manager
    }

    /// One accepted socket from `peer`: installs the pending connection and
    /// the directory entries, and returns the stream token to register and
    /// the timer token to arm for `WAIT_SYNC_MS`.  The caller must not
    /// already hold a directory entry for `peer`.
    pub fn accepted(&mut self, peer: SocketAddr) -> (r: Result<(StreamToken, TimerToken), Error>)
        requires
            old(self).wf(),
            !old(self).rev().dom().contains(peer.key_spec()),
        ensures
            final(self).wf(),
            match r {
                Ok((t, tt)) => {
                    &&& FIRST_CONNECTION_TOKEN <= t < LAST_CONNECTION_TOKEN
                    &&& FIRST_WAIT_SYNC_TOKEN <= tt < LAST_WAIT_SYNC_TOKEN
                    &&& !old(self).manager_spec()@.stream_allocated(t)
                    &&& final(self).manager_spec()@.unprocessed_connections.dom() == old(
                        self,
                    ).manager_spec()@.unprocessed_connections.dom().insert(t)
                    &&& final(self).manager_spec()@.unprocessed_connections[t].is_fresh(peer)
                    &&& final(self).manager_spec()@.stream_to_timer == old(
                        self,
                    ).manager_spec()@.stream_to_timer.insert(t, tt)
                    &&& final(self).manager_spec()@.timer_to_stream == old(
                        self,
                    ).manager_spec()@.timer_to_stream.insert(tt, t)
                    &&& final(self).manager_spec()@.connections == old(
                        self,
                    ).manager_spec()@.connections
                    &&& final(self).manager_spec()@.registered_sessions == old(
                        self,
                    ).manager_spec()@.registered_sessions
                    &&& final(self).manager_spec()@.socket_to_session == old(
                        self,
                    ).manager_spec()@.socket_to_session
                    &&& final(self).manager_spec()@.streams_outstanding() == old(
                        self,
                    ).manager_spec()@.streams_outstanding() + 1
                    &&& final(self).manager_spec()@.timers_outstanding() == old(
                        self,
                    ).manager_spec()@.timers_outstanding() + 1
                    &&& final(self).fwd() == old(self).fwd().insert(t, peer)
                    &&& final(self).rev() == old(self).rev().insert(peer.key_spec(), t)
                },
                Err(e) => {
                    &&& final(self).manager_spec()@ == old(self).manager_spec()@
                    &&& final(self).fwd() == old(self).fwd()
                    &&& final(self).rev() == old(self).rev()
                    &&& (e == Error::TooManyConnections <==> old(
                        self,
                    ).manager_spec()@.streams_outstanding() == MAX_CONNECTIONS)
                    &&& (e == Error::TooManyWaitingSync <==> (old(
                        self,
                    ).manager_spec()@.streams_outstanding() < MAX_CONNECTIONS && old(
                        self,
                    ).manager_spec()@.timers_outstanding() == MAX_SYNC_WAITS))
                    &&& (e == Error::TooManyConnections || e == Error::TooManyWaitingSync)
                },
            },
    {
        let token_pair = match self.manager.accept(peer) {
            Err(e) => {
                proof {
                    lemma_directory_preserved_view_eq(*old(self), *self);
                }
                return Err(e);
            },
            Ok(p) => p,
        };
        let (token, timer_token) = token_pair;
        proof {
            assert(old(self).manager_spec()@.stream_allocated(token)
                <==> old(self).manager_spec()@.live(token));
            assert(!old(self).fwd().dom().contains(token));
        }
        let key = peer.key();
        self.node_token_to_socket.insert(token, peer);
        self.socket_to_node_token.insert(key, token);
        proof {
            let pre = *old(self);
            let post = *self;
            assert forall|t2: NodeToken|
                post.fwd().dom().contains(t2) implies post.rev().contains_pair(
                post.fwd()[t2].key_spec(),
                t2,
            ) by {
                if t2 != token {
                    assert(pre.fwd().dom().contains(t2));
                    assert(pre.rev().contains_pair(pre.fwd()[t2].key_spec(), t2));
                    assert(pre.fwd()[t2].key_spec() != peer.key_spec());
                }
            }
            assert forall|k: u64|
                post.rev().dom().contains(k) implies (post.fwd().dom().contains(post.rev()[k])
                && post.fwd()[post.rev()[k]].key_spec() == k) by {
                if k != peer.key_spec() {
                    assert(pre.rev().dom().contains(k));
                    assert(pre.fwd().dom().contains(pre.rev()[k]));
                    assert(pre.fwd()[pre.rev()[k]].key_spec() == k);
                }
            }
            assert forall|t2: NodeToken|
                post.fwd().dom().contains(t2) implies post.manager_spec()@.live(t2) by {
                if t2 != token {
                    assert(pre.fwd().dom().contains(t2));
                    assert(pre.manager_spec()@.live(t2));
                }
            }
        }
        Ok((token, timer_token))
    }

    /// The outbound counterpart of `accepted`: called once the embedding's
    /// TCP connect to `peer` went through.  Consumes the registered session,
    /// installs the connection with `Sync(nonce)` queued — no handshake
    /// timer is armed — and adds the directory entries.
    pub fn connection_opened(&mut self, peer: SocketAddr) -> (r: Result<StreamToken, Error>)
        requires
            old(self).wf(),
            !old(self).rev().dom().contains(peer.key_spec()),
        ensures
            final(self).wf(),
            match r {
                Ok(t) => {
                    let session = old(self).manager_spec()@.socket_to_session[peer.key_spec()];
                    &&& old(self).manager_spec()@.socket_to_session.dom().contains(peer.key_spec())
                    &&& FIRST_CONNECTION_TOKEN <= t < LAST_CONNECTION_TOKEN
                    &&& final(self).manager_spec()@.connections.dom() == old(
                        self,
                    ).manager_spec()@.connections.dom().insert(t)
                    &&& final(self).manager_spec()@.connections[t].session_spec() == session
                    &&& final(self).manager_spec()@.connections[t].queue_spec() == seq![
                        Frame::Sync(session.nonce),
                    ]
                    &&& final(self).manager_spec()@.socket_to_session == old(
                        self,
                    ).manager_spec()@.socket_to_session.remove(peer.key_spec())
                    &&& final(self).manager_spec()@.stream_to_timer == old(
                        self,
                    ).manager_spec()@.stream_to_timer
                    &&& final(self).manager_spec()@.timer_to_stream == old(
                        self,
                    ).manager_spec()@.timer_to_stream
                    &&& final(self).manager_spec()@.unprocessed_connections == old(
                        self,
                    ).manager_spec()@.unprocessed_connections
                    &&& final(self).fwd() == old(self).fwd().insert(t, peer)
                    &&& final(self).rev() == old(self).rev().insert(peer.key_spec(), t)
                },
                Err(e) => {
                    &&& final(self).manager_spec()@ == old(self).manager_spec()@
                    &&& final(self).fwd() == old(self).fwd()
                    &&& final(self).rev() == old(self).rev()
                    &&& (e == Error::UnavailableSession <==> !old(
                        self,
                    ).manager_spec()@.socket_to_session.dom().contains(peer.key_spec()))
                    &&& (e == Error::UnavailableSession || e == Error::TooManyConnections)
                },
            },
    {
        let token = match self.manager.connect(peer) {
            Err(e) => {
                proof {
                    lemma_directory_preserved_view_eq(*old(self), *self);
                }
                return Err(e);
            },
            Ok(t) => t,
        };
        proof {
            assert(old(self).manager_spec()@.stream_allocated(token)
                <==> old(self).manager_spec()@.live(token));
            assert(!old(self).fwd().dom().contains(token));
        }
        let key = peer.key();
        self.node_token_to_socket.insert(token, peer);
        self.socket_to_node_token.insert(key, token);
        proof {
            let pre = *old(self);
            let post = *self;
            assert forall|t2: NodeToken|
                post.fwd().dom().contains(t2) implies post.rev().contains_pair(
                post.fwd()[t2].key_spec(),
                t2,
            ) by {
                if t2 != token {
                    assert(pre.fwd().dom().contains(t2));
                    assert(pre.rev().contains_pair(pre.fwd()[t2].key_spec(), t2));
                    assert(pre.fwd()[t2].key_spec() != peer.key_spec());
                }
            }
            assert forall|k: u64|
                post.rev().dom().contains(k) implies (post.fwd().dom().contains(post.rev()[k])
                && post.fwd()[post.rev()[k]].key_spec() == k) by {
                if k != peer.key_spec() {
                    assert(pre.rev().dom().contains(k));
                    assert(pre.fwd().dom().contains(pre.rev()[k]));
                    assert(pre.fwd()[pre.rev()[k]].key_spec() == k);
                }
            }
            assert forall|t2: NodeToken|
                post.fwd().dom().contains(t2) implies post.manager_spec()@.live(t2) by {
                if t2 != token {
                    assert(pre.fwd().dom().contains(t2));
                    assert(pre.manager_spec()@.live(t2));
                }
            }
        }
        Ok(token)
    }

    /// Dispatches one upper-layer command.
    pub fn message(&mut self, message: Message) -> (r: Result<MessageOutcome, Error>)
        requires
            old(self).wf(),
        ensures
            final(self).wf(),
            final(self).fwd() == old(self).fwd(),
            final(self).rev() == old(self).rev(),
            match message {
                Message::RegisterSession(address, session) => match r {
                    Ok(o) => {
                        &&& o == MessageOutcome::Done
                        &&& !old(self).manager_spec()@.socket_to_session.dom().contains(
                            address.key_spec(),
                        )
                        &&& !old(self).manager_spec()@.registered_sessions.dom().contains(
                            session.nonce,
                        )
                        &&& final(self).manager_spec()@.socket_to_session == old(
                            self,
                        ).manager_spec()@.socket_to_session.insert(address.key_spec(), session)
                        &&& final(self).manager_spec()@.registered_sessions.dom() == old(
                            self,
                        ).manager_spec()@.registered_sessions.dom().insert(session.nonce)
                        &&& final(self).manager_spec()@.connections == old(
                            self,
                        ).manager_spec()@.connections
                        &&& final(self).manager_spec()@.unprocessed_connections == old(
                            self,
                        ).manager_spec()@.unprocessed_connections
                    },
                    Err(e) => {
                        &&& e == Error::SessionAlreadyRegistered
                        &&& (old(self).manager_spec()@.socket_to_session.dom().contains(
                            address.key_spec(),
                        ) || old(self).manager_spec()@.registered_sessions.dom().contains(
                            session.nonce,
                        ))
                        &&& final(self).manager_spec()@ == old(self).manager_spec()@
                    },
                },
                Message::RequestConnection(address, session) => {
                    &&& r == Ok::<MessageOutcome, Error>(MessageOutcome::OpenConnection(address))
                    &&& (!old(self).manager_spec()@.socket_to_session.dom().contains(
                        address.key_spec(),
                    ) && !old(self).manager_spec()@.registered_sessions.dom().contains(
                        session.nonce,
                    )) ==> final(self).manager_spec()@.socket_to_session == old(
                        self,
                    ).manager_spec()@.socket_to_session.insert(address.key_spec(), session)
                    &&& (old(self).manager_spec()@.socket_to_session.dom().contains(
                        address.key_spec(),
                    ) || old(self).manager_spec()@.registered_sessions.dom().contains(
                        session.nonce,
                    )) ==> final(self).manager_spec()@ == old(self).manager_spec()@
                    &&& final(self).manager_spec()@.connections == old(
                        self,
                    ).manager_spec()@.connections
                    &&& final(self).manager_spec()@.unprocessed_connections == old(
                        self,
                    ).manager_spec()@.unprocessed_connections
                },
                Message::RequestNegotiation { node_id, extension_name, version } => match r {
                    Ok(o) => {
                        &&& o == MessageOutcome::UpdateRegistration(node_id)
                        &&& old(self).manager_spec()@.connections.dom().contains(node_id)
                        &&& final(self).manager_spec()@.connections[node_id].queue_spec() == old(
                            self,
                        ).manager_spec()@.connections[node_id].queue_spec().push(
                            Frame::NegotiationRequest { extension_name, version },
                        )
                    },
                    Err(e) => {
                        &&& e == Error::InvalidNode(node_id)
                        &&& !old(self).manager_spec()@.connections.dom().contains(node_id)
                        &&& final(self).manager_spec()@ == old(self).manager_spec()@
                    },
                },
                Message::SendExtensionMessage { node_id, extension_name, need_encryption, data } => match r {
                    Ok(o) => {
                        &&& o == MessageOutcome::UpdateRegistration(node_id)
                        &&& old(self).manager_spec()@.connections.dom().contains(node_id)
                        &&& final(self).manager_spec()@.connections[node_id].queue_spec() == old(
                            self,
                        ).manager_spec()@.connections[node_id].queue_spec().push(
                            Frame::Extension { extension_name, need_encryption, data },
                        )
                    },
                    Err(e) => {
                        &&& e == Error::InvalidNode(node_id)
                        &&& !old(self).manager_spec()@.connections.dom().contains(node_id)
                        &&& final(self).manager_spec()@ == old(self).manager_spec()@
                    },
                },
            },
    {
        match message {
            Message::RegisterSession(address, session) => {
                let res = self.manager.register_session(address, session);
                proof {
                    lemma_directory_preserved(*old(self), *self);
                }
                match res {
                    Ok(_) => Ok(MessageOutcome::Done),
                    Err(e) => Err(e),
                }
            },
            Message::RequestConnection(address, session) => {
                let _ = self.manager.register_session(address, session);
                proof {
                    lemma_directory_preserved(*old(self), *self);
                }
                Ok(MessageOutcome::OpenConnection(address))
            },
            Message::RequestNegotiation { node_id, extension_name, version } => {
                let res = self.manager.enqueue_negotiation_request(
                    node_id,
                    extension_name,
                    version,
                );
                proof {
                    lemma_directory_preserved(*old(self), *self);
                }
                match res {
                    Ok(_) => Ok(MessageOutcome::UpdateRegistration(node_id)),
                    Err(e) => Err(e),
                }
            },
            Message::SendExtensionMessage { node_id, extension_name, need_encryption, data } => {
                let res = self.manager.enqueue_extension_message(
                    node_id,
                    extension_name,
                    need_encryption,
                    data,
                );
                proof {
                    lemma_directory_preserved(*old(self), *self);
                }
                match res {
                    Ok(_) => Ok(MessageOutcome::UpdateRegistration(node_id)),
                    Err(e) => Err(e),
                }
            },
        }
    }

    /// One batch of bytes arrived on `stream`; see `Manager::receive`.  On
    /// `HandshakeCompleted` the caller must notify the client that the node
    /// was added, and stop its read loop.
    pub fn stream_readable(&mut self, stream: StreamToken, incoming: &Vec<u8>) -> (r: Result<
        ReceiveOutcome,
        Error,
    >)
        requires
            old(self).wf(),
        ensures
            final(self).wf(),
            final(self).fwd() == old(self).fwd(),
            final(self).rev() == old(self).rev(),
            match r {
                Ok(outcome) => match outcome {
                    ReceiveOutcome::Established => {
                        &&& old(self).manager_spec()@.connections.dom().contains(stream)
                        &&& final(self).manager_spec()@ == old(self).manager_spec()@
                    },
                    ReceiveOutcome::NeedMoreBytes => ({
                        let buf = old(
                            self,
                        ).manager_spec()@.unprocessed_connections[stream].buffer_spec()
                            + incoming@;
                        &&& old(self).manager_spec()@.unprocessed_connections.dom().contains(
                            stream,
                        )
                        &&& buf.len() < SYNC_FRAME_LEN
                        &&& buffered_more_bytes(
                            old(self).manager_spec()@,
                            final(self).manager_spec()@,
                            stream,
                            buf,
                        )
                    }),
                    ReceiveOutcome::HandshakeCompleted { leftover } => ({
                        let buf = old(
                            self,
                        ).manager_spec()@.unprocessed_connections[stream].buffer_spec()
                            + incoming@;
                        &&& old(self).manager_spec()@.unprocessed_connections.dom().contains(
                            stream,
                        )
                        &&& buf.len() >= SYNC_FRAME_LEN
                        &&& buf[0] == SYNC_TAG
                        &&& old(self).manager_spec()@.registered_sessions.dom().contains(
                            sync_frame_nonce(buf),
                        )
                        &&& leftover@ == buf.subrange(SYNC_FRAME_LEN as int, buf.len() as int)
                        &&& handshake_transition(
                            old(self).manager_spec()@,
                            final(self).manager_spec()@,
                            stream,
                            sync_frame_nonce(buf),
                        )
                    }),
                },
                Err(e) => match e {
                    Error::InvalidStream(t) => {
                        &&& t == stream
                        &&& !old(self).manager_spec()@.live(stream)
                        &&& final(self).manager_spec()@ == old(self).manager_spec()@
                    },
                    Error::MalformedSync => ({
                        let buf = old(
                            self,
                        ).manager_spec()@.unprocessed_connections[stream].buffer_spec()
                            + incoming@;
                        &&& buf.len() >= SYNC_FRAME_LEN
                        &&& buf[0] != SYNC_TAG
                        &&& buffered_more_bytes(
                            old(self).manager_spec()@,
                            final(self).manager_spec()@,
                            stream,
                            buf,
                        )
                    }),
                    Error::UnregisteredNonce => ({
                        let buf = old(
                            self,
                        ).manager_spec()@.unprocessed_connections[stream].buffer_spec()
                            + incoming@;
                        &&& buf.len() >= SYNC_FRAME_LEN
                        &&& buf[0] == SYNC_TAG
                        &&& !old(self).manager_spec()@.registered_sessions.dom().contains(
                            sync_frame_nonce(buf),
                        )
                        &&& buffered_more_bytes(
                            old(self).manager_spec()@,
                            final(self).manager_spec()@,
                            stream,
                            buf,
                        )
                    }),
                    _ => false,
                },
            },
    {
        let res = self.manager.receive(stream, incoming);
        proof {
            let pre = *old(self);
            let post = *self;
            assert forall|t: NodeToken|
                pre.manager_spec()@.live(t) implies post.manager_spec()@.live(t) by {
                assert(pre.manager_spec()@.live(t));
            }
            lemma_directory_preserved_mono(pre, post);
        }
        res
    }

    /// Drains the outbound queue of an established connection, returning the
    /// frames to transmit in enqueue order.  Writing to a stream still in
    /// its handshake is a no-op.
    pub fn stream_writable(&mut self, stream: StreamToken) -> (r: Result<Vec<Frame>, Error>)
        requires
            old(self).wf(),
        ensures
            final(self).wf(),
            final(self).fwd() == old(self).fwd(),
            final(self).rev() == old(self).rev(),
            match r {
                Ok(frames) => {
                    if old(self).manager_spec()@.unprocessed_connections.dom().contains(stream) {
                        frames@.len() == 0 && final(self).manager_spec()@ == old(
                            self,
                        ).manager_spec()@
                    } else {
                        &&& old(self).manager_spec()@.connections.dom().contains(stream)
                        &&& frames@ == old(self).manager_spec()@.connections[stream].queue_spec()
                        &&& final(self).manager_spec()@.connections[stream].queue_spec().len() == 0
                        &&& final(self).manager_spec()@.connections.dom() == old(
                            self,
                        ).manager_spec()@.connections.dom()
                        &&& final(self).manager_spec()@.connections[stream].session_spec() == old(
                            self,
                        ).manager_spec()@.connections[stream].session_spec()
                        &&& forall|u: StreamToken|
                            u != stream && old(self).manager_spec()@.connections.dom().contains(u)
                                ==> final(self).manager_spec()@.connections[u] == old(
                                self,
                            ).manager_spec()@.connections[u]
                        &&& final(self).manager_spec()@ == (ManagerView {
                            connections: final(self).manager_spec()@.connections,
                            ..old(self).manager_spec()@
                        })
                    }
                },
                Err(e) => {
                    &&& e == Error::InvalidStream(stream)
                    &&& !old(self).manager_spec()@.live(stream)
                    &&& final(self).manager_spec()@ == old(self).manager_spec()@
                },
            },
    {
        if self.manager.has_unprocessed(stream) {
            return Ok(Vec::new());
        }
        if !self.manager.has_connection(stream) {
            return Err(Error::InvalidStream(stream));
        }
        let mut frames: Vec<Frame> = Vec::new();
        loop
            invariant
                self.wf(),
                self.fwd() == old(self).fwd(),
                self.rev() == old(self).rev(),
                old(self).manager_spec()@.connections.dom().contains(stream),
                self.manager_spec()@.connections.dom() == old(
                    self,
                ).manager_spec()@.connections.dom(),
                self.manager_spec()@.connections[stream].session_spec() == old(
                    self,
                ).manager_spec()@.connections[stream].session_spec(),
                frames@ + self.manager_spec()@.connections[stream].queue_spec() == old(
                    self,
                ).manager_spec()@.connections[stream].queue_spec(),
                forall|u: StreamToken|
                    u != stream && old(self).manager_spec()@.connections.dom().contains(u)
                        ==> self.manager_spec()@.connections[u] == old(
                        self,
                    ).manager_spec()@.connections[u],
                self.manager_spec()@ == (ManagerView {
                    connections: self.manager_spec()@.connections,
                    ..old(self).manager_spec()@
                }),
            decreases self.manager_spec()@.connections[stream].queue_spec().len(),
        {
            let ghost loop_pre = self.manager_spec()@;
            let step = self.manager.send(stream);
            match step {
                Ok(Some(frame)) => {
                    frames.push(frame);
                    proof {
                        assert(frames@ + self.manager_spec()@.connections[stream].queue_spec()
                            =~= old(self).manager_spec()@.connections[stream].queue_spec());
                        assert(self.manager_spec()@ =~= (ManagerView {
                            connections: self.manager_spec()@.connections,
                            ..old(self).manager_spec()@
                        }));
                        lemma_directory_preserved(*old(self), *self);
                    }
                },
                Ok(None) => {
                    proof {
                        assert(frames@ + loop_pre.connections[stream].queue_spec() =~= frames@);
                        lemma_directory_preserved(*old(self), *self);
                    }
                    return Ok(frames);
                },
                Err(_) => {
                    proof {
                        assert(false);
                    }
                },
            }
        }
    }

    /// Peer hangup: drops both directory entries for the stream.  Returns
    /// whether the manager still owns state for it, in which case the
    /// embedding must deregister the stream, which ends in
    /// `deregister_stream`.
    pub fn stream_hup(&mut self, stream: StreamToken) -> (dereg: bool)
        requires
            old(self).wf(),
        ensures
            final(self).wf(),
            final(self).manager_spec()@ == old(self).manager_spec()@,
            dereg == old(self).manager_spec()@.live(stream),
            !final(self).fwd().dom().contains(stream),
            final(self).fwd() == old(self).fwd().remove(stream),
            old(self).fwd().dom().contains(stream) ==> final(self).rev() == old(
                self,
            ).rev().remove(old(self).fwd()[stream].key_spec()),
            !old(self).fwd().dom().contains(stream) ==> final(self).rev() == old(self).rev(),
    {
        let addr_opt = self.node_token_to_socket.remove(&stream);
        match addr_opt {
            Some(address) => {
                let key = address.key();
                self.socket_to_node_token.remove(&key);
            },
            None => {
                proof {
                    assert(self.node_token_to_socket@ =~= old(self).node_token_to_socket@);
                }
            },
        }
        proof {
            let pre = *old(self);
            let post = *self;
            assert forall|t2: NodeToken|
                post.fwd().dom().contains(t2) implies post.rev().contains_pair(
                post.fwd()[t2].key_spec(),
                t2,
            ) by {
                assert(pre.fwd().dom().contains(t2));
                assert(pre.rev().contains_pair(pre.fwd()[t2].key_spec(), t2));
                if pre.fwd().dom().contains(stream) {
                    if pre.fwd()[t2].key_spec() == pre.fwd()[stream].key_spec() {
                        assert(pre.rev().contains_pair(pre.fwd()[stream].key_spec(), t2));
                        assert(pre.rev().contains_pair(pre.fwd()[stream].key_spec(), stream));
                        assert(t2 == stream);
                    }
                }
            }
            assert forall|k: u64|
                post.rev().dom().contains(k) implies (post.fwd().dom().contains(post.rev()[k])
                && post.fwd()[post.rev()[k]].key_spec() == k) by {
                assert(pre.rev().dom().contains(k));
                assert(pre.fwd().dom().contains(pre.rev()[k]));
                assert(pre.fwd()[pre.rev()[k]].key_spec() == k);
                if pre.rev()[k] == stream {
                    assert(pre.fwd()[stream].key_spec() == k);
                }
            }
            assert forall|t2: NodeToken|
                post.fwd().dom().contains(t2) implies post.manager_spec()@.live(t2) by {
                assert(pre.fwd().dom().contains(t2));
                assert(pre.manager_spec()@.live(t2));
            }
        }
        let live = match self.manager.register_stream(stream) {
            Ok(_) => true,
            Err(_) => false,
        };
        live
    }

    /// The handshake deadline fired: evicts the pending connection the timer
    /// was armed for, directory entries included, and returns the evicted
    /// stream token.  A no-op when the handshake already completed or the
    /// stream is already gone.
    pub fn timeout(&mut self, timer: TimerToken) -> (r: Option<StreamToken>)
        requires
            old(self).wf(),
            FIRST_WAIT_SYNC_TOKEN <= timer < LAST_WAIT_SYNC_TOKEN,
        ensures
            final(self).wf(),
            match r {
                None => {
                    &&& !old(self).manager_spec()@.timer_to_stream.dom().contains(timer)
                    &&& final(self).manager_spec()@ == old(self).manager_spec()@
                    &&& final(self).fwd() == old(self).fwd()
                    &&& final(self).rev() == old(self).rev()
                },
                Some(s) => {
                    &&& old(self).manager_spec()@.timer_to_stream.contains_pair(timer, s)
                    &&& eviction_transition(
                        old(self).manager_spec()@,
                        final(self).manager_spec()@,
                        s,
                        timer,
                    )
                    &&& !final(self).fwd().dom().contains(s)
                    &&& final(self).fwd() == old(self).fwd().remove(s)
                },
            },
    {
        let stream = match self.manager.remove_waiting_sync_by_timer_token(timer) {
            None => {
                proof {
                    lemma_directory_preserved_view_eq(*old(self), *self);
                }
                return None;
            },
            Some(s) => s,
        };
        let addr_opt = self.node_token_to_socket.remove(&stream);
        match addr_opt {
            Some(address) => {
                let key = address.key();
                self.socket_to_node_token.remove(&key);
            },
            None => {
                proof {
                    assert(self.node_token_to_socket@ =~= old(self).node_token_to_socket@);
                }
            },
        }
        proof {
            lemma_directory_cleanup(*old(self), *self, stream);
        }
        Some(stream)
    }

    /// The reactor finished deregistering the stream: tears down whichever
    /// connection state the token still owns, directory entries included.
    /// Returns `true` when an established connection was removed, `false`
    /// for a pending one, so the caller knows which kind of slot was freed.
    pub fn deregister_stream(&mut self, stream: StreamToken) -> (r: Result<bool, Error>)
        requires
            old(self).wf(),
        ensures
            final(self).wf(),
            match r {
                Ok(processed) => {
                    &&& processed == old(self).manager_spec()@.connections.dom().contains(stream)
                    &&& !final(self).manager_spec()@.live(stream)
                    &&& !final(self).manager_spec()@.stream_allocated(stream)
                    &&& !final(self).fwd().dom().contains(stream)
                    &&& final(self).fwd() == old(self).fwd().remove(stream)
                    &&& processed ==> final(self).manager_spec()@.connections == old(
                        self,
                    ).manager_spec()@.connections.remove(stream)
                    &&& !processed ==> eviction_transition(
                        old(self).manager_spec()@,
                        final(self).manager_spec()@,
                        stream,
                        old(self).manager_spec()@.stream_to_timer[stream],
                    )
                },
                Err(e) => {
                    &&& e == Error::InvalidStream(stream)
                    &&& !old(self).manager_spec()@.live(stream)
                    &&& final(self).manager_spec()@ == old(self).manager_spec()@
                    &&& final(self).fwd() == old(self).fwd()
                    &&& final(self).rev() == old(self).rev()
                },
            },
    {
        let processed: bool;
        if self.manager.has_connection(stream) {
            self.manager.deregister_connection(stream);
            processed = true;
        } else if self.manager.has_unprocessed(stream) {
            let removed = self.manager.remove_waiting_sync_by_stream_token(stream);
            proof {
                assert(removed is Some);
            }
            processed = false;
        } else {
            return Err(Error::InvalidStream(stream));
        }
        let addr_opt = self.node_token_to_socket.remove(&stream);
        match addr_opt {
            Some(address) => {
                let key = address.key();
                self.socket_to_node_token.remove(&key);
            },
            None => {
                proof {
                    assert(self.node_token_to_socket@ =~= old(self).node_token_to_socket@);
                }
            },
        }
        proof {
            lemma_directory_cleanup(*old(self), *self, stream);
        }
        Ok(processed)
    }

    /// Validity check run when the reactor registers a stream: the listener
    /// token is always valid, a connection token must be live.
    pub fn register_stream(&self, token: StreamToken) -> (r: Result<(), Error>)
        ensures
            token == ACCEPT_TOKEN ==> r is Ok,
            token != ACCEPT_TOKEN ==> match r {
                Ok(_) => self.manager_spec()@.live(token),
                Err(e) => e == Error::InvalidStream(token) && !self.manager_spec()@.live(token),
            },
    {
        if token == ACCEPT_TOKEN {
            return Ok(());
        }
        self.manager.register_stream(token)
    }

    /// Validity check run when the reactor refreshes a stream registration.
    pub fn update_stream(&self, token: StreamToken) -> (r: Result<(), Error>)
        ensures
            match r {
                Ok(_) => self.manager_spec()@.live(token),
                Err(e) => e == Error::InvalidStream(token) && !self.manager_spec()@.live(token),
            },
    {
        self.manager.reregister_stream(token)
    }

    /// The peer address a node token maps to, if the connection is live.
    pub fn node_token_to_address(&self, node: &NodeToken) -> (r: Option<SocketAddr>)
        ensures
            r == (if self.fwd().dom().contains(*node) {
                Some(self.fwd()[*node])
            } else {
                None::<SocketAddr>
            }),
    {
        match self.node_token_to_socket.get(node) {
            Some(address) => Some(*address),
            None => None,
        }
    }

    /// The node token a peer address maps to, if the connection is live.
    pub fn address_to_node_token(&self, address: &SocketAddr) -> (r: Option<NodeToken>)
        ensures
            r == (if self.rev().dom().contains(address.key_spec()) {
                Some(self.rev()[address.key_spec()])
            } else {
                None::<NodeToken>
            }),
    {
        let key = address.key();
        match self.socket_to_node_token.get(&key) {
            Some(node) => Some(*node),
            None => None,
        }
    }
}

/// Read-only projection of the node directory, for upper layers.
pub trait AddressConverter {
    fn node_token_to_address(&self, node: &NodeToken) -> Option<SocketAddr>;

    fn address_to_node_token(&self, address: &SocketAddr) -> Option<NodeToken>;
}

impl AddressConverter for Handler {
    fn node_token_to_address(&self, node: &NodeToken) -> Option<SocketAddr> {
        Handler::node_token_to_address(self, node)
    }

    fn address_to_node_token(&self, address: &SocketAddr) -> Option<NodeToken> {
        Handler::address_to_node_token(self, address)
    }
}

/// Transfers the directory invariants when neither the directory nor the
/// manager's view changed.
proof fn lemma_directory_preserved_view_eq(pre: Handler, post: Handler)
    requires
        pre.inv_directory(),
        pre.inv_directory_live(),
        post.fwd() == pre.fwd(),
        post.rev() == pre.rev(),
        post.manager_spec()@ == pre.manager_spec()@,
    ensures
        post.inv_directory(),
        post.inv_directory_live(),
{
    assert forall|t: NodeToken| pre.manager_spec()@.live(t) implies post.manager_spec()@.live(
        t,
    ) by {
        assert(pre.manager_spec()@.live(t));
    }
    lemma_directory_preserved_mono(pre, post);
}

/// Transfers the directory invariants when the directory is unchanged and
/// no live stream died.
proof fn lemma_directory_preserved_mono(pre: Handler, post: Handler)
    requires
        pre.inv_directory(),
        pre.inv_directory_live(),
        post.fwd() == pre.fwd(),
        post.rev() == pre.rev(),
        forall|t: NodeToken| pre.manager_spec()@.live(t) ==> post.manager_spec()@.live(t),
    ensures
        post.inv_directory(),
        post.inv_directory_live(),
{
    assert forall|t: NodeToken|
        post.fwd().dom().contains(t) implies post.rev().contains_pair(
        post.fwd()[t].key_spec(),
        t,
    ) by {
        assert(pre.rev().contains_pair(pre.fwd()[t].key_spec(), t));
    }
    assert forall|k: u64|
        post.rev().dom().contains(k) implies (post.fwd().dom().contains(post.rev()[k])
        && post.fwd()[post.rev()[k]].key_spec() == k) by {
        assert(pre.fwd().dom().contains(pre.rev()[k]));
    }
    assert forall|t: NodeToken|
        post.fwd().dom().contains(t) implies post.manager_spec()@.live(t) by {
        assert(pre.manager_spec()@.live(t));
    }
}

/// Transfers the directory invariants when the directory is unchanged and
/// the two connection tables kept their domains.
proof fn lemma_directory_preserved(pre: Handler, post: Handler)
    requires
        pre.inv_directory(),
        pre.inv_directory_live(),
        post.fwd() == pre.fwd(),
        post.rev() == pre.rev(),
        post.manager_spec()@.connections.dom() == pre.manager_spec()@.connections.dom(),
        post.manager_spec()@.unprocessed_connections.dom() == pre.manager_spec(
        )@.unprocessed_connections.dom(),
    ensures
        post.inv_directory(),
        post.inv_directory_live(),
{
    assert forall|t: NodeToken| pre.manager_spec()@.live(t) implies post.manager_spec()@.live(
        t,
    ) by {
        assert(pre.manager_spec()@.live(t));
    }
    lemma_directory_preserved_mono(pre, post);
}

/// Re-establishes the directory invariants after the stream `stream` lost
/// its manager state and both of its directory entries.
proof fn lemma_directory_cleanup(pre: Handler, post: Handler, stream: StreamToken)
    requires
        pre.inv_directory(),
        pre.inv_directory_live(),
        post.fwd() == pre.fwd().remove(stream),
        pre.fwd().dom().contains(stream) ==> post.rev() == pre.rev().remove(
            pre.fwd()[stream].key_spec(),
        ),
        !pre.fwd().dom().contains(stream) ==> post.rev() == pre.rev(),
        forall|t: NodeToken|
            t != stream && pre.manager_spec()@.live(t) ==> post.manager_spec()@.live(t),
    ensures
        post.inv_directory(),
        post.inv_directory_live(),
{
    assert forall|t2: NodeToken|
        post.fwd().dom().contains(t2) implies post.rev().contains_pair(
        post.fwd()[t2].key_spec(),
        t2,
    ) by {
        assert(pre.fwd().dom().contains(t2));
        assert(pre.rev().contains_pair(pre.fwd()[t2].key_spec(), t2));
        if pre.fwd().dom().contains(stream) {
            if pre.fwd()[t2].key_spec() == pre.fwd()[stream].key_spec() {
                assert(pre.rev().contains_pair(pre.fwd()[stream].key_spec(), t2));
                assert(pre.rev().contains_pair(pre.fwd()[stream].key_spec(), stream));
                assert(t2 == stream);
            }
        }
    }
    assert forall|k: u64|
        post.rev().dom().contains(k) implies (post.fwd().dom().contains(post.rev()[k])
        && post.fwd()[post.rev()[k]].key_spec() == k) by {
        assert(pre.rev().dom().contains(k));
        assert(pre.fwd().dom().contains(pre.rev()[k]));
        assert(pre.fwd()[pre.rev()[k]].key_spec() == k);
        if pre.rev()[k] == stream {
            assert(pre.fwd()[stream].key_spec() == k);
        }
    }
    assert forall|t2: NodeToken|
        post.fwd().dom().contains(t2) implies post.manager_spec()@.live(t2) by {
        assert(pre.fwd().dom().contains(t2));
        assert(pre.manager_spec()@.live(t2));
    }
}

/// Directory bijection: the two directory maps hold inverse entries for
/// every live connection.
pub proof fn lemma_directory_bijection(h: Handler)
    requires
        h.wf(),
    ensures
        forall|t: NodeToken|
            h.fwd().dom().contains(t) ==> h.rev().contains_pair(h.fwd()[t].key_spec(), t),
        forall|k: u64|
            h.rev().dom().contains(k) ==> (h.fwd().dom().contains(h.rev()[k])
                && h.fwd()[h.rev()[k]].key_spec() == k),
        forall|t: NodeToken| h.fwd().dom().contains(t) ==> h.manager_spec()@.live(t),
{
}

} // verus!
