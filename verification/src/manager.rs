//! The connection manager: token pools, connection tables, session registry
//! and the handshake state machine.

use std::collections::{HashMap, HashSet};

use vstd::prelude::*;

use crate::connection::{Connection, Frame};
use crate::error::Error;
use crate::session::{RegisteredSession, Session, SocketAddr};
use crate::token_generator::{count_used, lemma_count_used_le_len, TokenGenerator};
use crate::unprocessed_connection::{sync_frame_nonce, UnprocessedConnection, SYNC_FRAME_LEN, SYNC_TAG};
use crate::{
    NodeToken, Nonce, StreamToken, TimerToken, Version, FIRST_CONNECTION_TOKEN,
    FIRST_WAIT_SYNC_TOKEN, LAST_CONNECTION_TOKEN, LAST_WAIT_SYNC_TOKEN, MAX_CONNECTIONS,
    MAX_SYNC_WAITS,
};

verus! {

/// What `Manager::receive` decided for one batch of received bytes.
#[derive(Clone, PartialEq, Eq, Debug)]
pub enum ReceiveOutcome {
    /// The token names an established connection: the embedding should run
    /// its frame codec over the bytes and keep reading.
    Established,
    /// The handshake frame is still incomplete; the connection stays pending
    /// and the caller may retry once more bytes arrive.
    NeedMoreBytes,
    /// The handshake completed: an Ack is queued, the timer is disarmed and
    /// the session is consumed.  `leftover` holds the bytes that followed
    /// the Sync frame.  The caller must notify upper layers that the node
    /// was added, and stop its read loop so the stream registration can be
    /// refreshed before the next read.
    HandshakeCompleted { leftover: Vec<u8> },
}

/// Spec-level snapshot of the manager state.
#[verifier::ext_equal]
pub ghost struct ManagerView {
    /// Slot flags of the stream-token pool; slot `i` stands for token
    /// `FIRST_CONNECTION_TOKEN + i`.
    pub tokens_used: Seq<bool>,
    pub unprocessed_tokens: Set<StreamToken>,
    pub connections: Map<StreamToken, Connection>,
    pub unprocessed_connections: Map<StreamToken, UnprocessedConnection>,
    pub registered_sessions: Map<Nonce, RegisteredSession>,
    pub socket_to_session: Map<u64, Session>,
    /// Slot flags of the timer-token pool; slot `i` stands for token
    /// `FIRST_WAIT_SYNC_TOKEN + i`.
    pub timers_used: Seq<bool>,
    pub stream_to_timer: Map<StreamToken, TimerToken>,
    pub timer_to_stream: Map<TimerToken, StreamToken>,
}

impl ManagerView {
    pub open spec fn stream_allocated(self, t: StreamToken) -> bool {
        FIRST_CONNECTION_TOKEN <= t < LAST_CONNECTION_TOKEN && self.tokens_used[t
            - FIRST_CONNECTION_TOKEN]
    }

    pub open spec fn timer_allocated(self, tm: TimerToken) -> bool {
        FIRST_WAIT_SYNC_TOKEN <= tm < LAST_WAIT_SYNC_TOKEN && self.timers_used[tm
            - FIRST_WAIT_SYNC_TOKEN]
    }

    pub open spec fn streams_outstanding(self) -> nat {
        count_used(self.tokens_used)
    }

    pub open spec fn timers_outstanding(self) -> nat {
        count_used(self.timers_used)
    }

    /// A stream token is live while one of the two connection tables owns it.
    pub open spec fn live(self, t: StreamToken) -> bool {
        self.connections.dom().contains(t) || self.unprocessed_connections.dom().contains(t)
    }
}

/// Holds between two manager states when receiving on the pending stream
/// `stream` only grew its buffer to `buf` and decided nothing else.
pub open spec fn buffered_more_bytes(
    pre: ManagerView,
    post: ManagerView,
    stream: StreamToken,
    buf: Seq<u8>,
) -> bool {
    &&& post.tokens_used == pre.tokens_used
    &&& post.timers_used == pre.timers_used
    &&& post.connections == pre.connections
    &&& post.registered_sessions == pre.registered_sessions
    &&& post.socket_to_session == pre.socket_to_session
    &&& post.stream_to_timer == pre.stream_to_timer
    &&& post.timer_to_stream == pre.timer_to_stream
    &&& post.unprocessed_tokens == pre.unprocessed_tokens
    &&& post.unprocessed_connections.dom() == pre.unprocessed_connections.dom()
    &&& post.unprocessed_connections[stream].peer_spec()
        == pre.unprocessed_connections[stream].peer_spec()
    &&& post.unprocessed_connections[stream].buffer_spec() == buf
    &&& post.unprocessed_connections[stream].parsed_session() is None
    &&& forall|u: StreamToken|
        u != stream && pre.unprocessed_connections.dom().contains(u)
            ==> post.unprocessed_connections[u] == pre.unprocessed_connections[u]
}

/// Holds between two manager states when the pending stream `stream`
/// completed its handshake consuming the session registered under `nonce`:
/// the connection is promoted with an Ack queued, the timer pair is torn
/// down and its token freed, the stream token stays allocated, and the
/// session leaves both indexes.
pub open spec fn handshake_transition(
    pre: ManagerView,
    post: ManagerView,
    stream: StreamToken,
    nonce: Nonce,
) -> bool {
    let timer = pre.stream_to_timer[stream];
    let reg = pre.registered_sessions[nonce];
    &&& post.tokens_used == pre.tokens_used
    &&& post.connections.dom() == pre.connections.dom().insert(stream)
    &&& post.connections[stream].session_spec() == reg.session
    &&& post.connections[stream].queue_spec() == seq![Frame::Ack]
    &&& forall|u: StreamToken|
        u != stream && pre.connections.dom().contains(u) ==> post.connections[u]
            == pre.connections[u]
    &&& post.unprocessed_connections == pre.unprocessed_connections.remove(stream)
    &&& post.unprocessed_tokens == pre.unprocessed_tokens.remove(stream)
    &&& post.stream_to_timer == pre.stream_to_timer.remove(stream)
    &&& post.timer_to_stream == pre.timer_to_stream.remove(timer)
    &&& !post.timer_allocated(timer)
    &&& post.timers_outstanding() + 1 == pre.timers_outstanding()
    &&& post.registered_sessions == pre.registered_sessions.remove(nonce)
    &&& post.socket_to_session == pre.socket_to_session.remove(reg.registered_for.key_spec())
    &&& forall|k: u64|
        post.socket_to_session.dom().contains(k) ==> post.socket_to_session[k].nonce != nonce
}

/// Holds between two manager states when every trace of the pending stream
/// `stream` and its timer `timer` was evicted and both tokens went back to
/// their pools, everything else staying as it was.
pub open spec fn eviction_transition(
    pre: ManagerView,
    post: ManagerView,
    stream: StreamToken,
    timer: TimerToken,
) -> bool {
    &&& post.connections == pre.connections
    &&& post.registered_sessions == pre.registered_sessions
    &&& post.socket_to_session == pre.socket_to_session
    &&& post.unprocessed_connections == pre.unprocessed_connections.remove(stream)
    &&& post.unprocessed_tokens == pre.unprocessed_tokens.remove(stream)
    &&& post.stream_to_timer == pre.stream_to_timer.remove(stream)
    &&& post.timer_to_stream == pre.timer_to_stream.remove(timer)
    &&& !post.stream_allocated(stream)
    &&& !post.timer_allocated(timer)
    &&& forall|u: StreamToken| u != stream ==> post.stream_allocated(u) == pre.stream_allocated(u)
    &&& forall|tm: TimerToken| tm != timer ==> post.timer_allocated(tm) == pre.timer_allocated(tm)
    &&& post.streams_outstanding() + 1 == pre.streams_outstanding()
    &&& post.timers_outstanding() + 1 == pre.timers_outstanding()
}

/// Owns the whole connection state: both token pools, the established and
/// pending connection tables, the session registry and the timer maps.
pub struct Manager {
    tokens: TokenGenerator,
    unprocessed_tokens: HashSet<StreamToken>,
    connections: HashMap<StreamToken, Connection>,
    unprocessed_connections: HashMap<StreamToken, UnprocessedConnection>,
    registered_sessions: HashMap<Nonce, RegisteredSession>,
    socket_to_session: HashMap<u64, Session>,
    waiting_sync_tokens: TokenGenerator,
    waiting_sync_stream_to_timer: HashMap<StreamToken, TimerToken>,
    waiting_sync_timer_to_stream: HashMap<TimerToken, StreamToken>,
}

impl View for Manager {
    type V = ManagerView;

    closed spec fn view(&self) -> ManagerView {
        ManagerView {
            tokens_used: self.tokens@,
            unprocessed_tokens: self.unprocessed_tokens@,
            connections: self.connections@,
            unprocessed_connections: self.unprocessed_connections@,
            registered_sessions: self.registered_sessions@,
            socket_to_session: self.socket_to_session@,
            timers_used: self.waiting_sync_tokens@,
            stream_to_timer: self.waiting_sync_stream_to_timer@,
            timer_to_stream: self.waiting_sync_timer_to_stream@,
        }
    }
}

impl Manager {
    pub closed spec fn generators_pinned(self) -> bool {
        &&& self.tokens.wf()
        &&& self.tokens.base_spec() == FIRST_CONNECTION_TOKEN
        &&& self.waiting_sync_tokens.wf()
        &&& self.waiting_sync_tokens.base_spec() == FIRST_WAIT_SYNC_TOKEN
    }

    pub open spec fn inv_lengths(self) -> bool {
        &&& self@.tokens_used.len() == MAX_CONNECTIONS
        &&& self@.timers_used.len() == MAX_SYNC_WAITS
    }

    /// A stream token is allocated exactly while it is live, and never owned
    /// by both connection tables at once.
    pub open spec fn inv_partition(self) -> bool {
        &&& forall|t: StreamToken| self@.stream_allocated(t) <==> self@.live(t)
        &&& forall|t: StreamToken|
            !(self@.connections.dom().contains(t)
                && self@.unprocessed_connections.dom().contains(t))
    }

    /// The number of allocated stream tokens equals the number of
    /// established plus pending connections.
    pub open spec fn inv_token_conservation(self) -> bool {
        self@.streams_outstanding() == self@.connections.len()
            + self@.unprocessed_connections.len()
    }

    /// The pending-token set mirrors the pending-connection table.
    pub open spec fn inv_unprocessed_tokens(self) -> bool {
        forall|t: StreamToken|
            self@.unprocessed_tokens.contains(t) <==> self@.unprocessed_connections.dom().contains(
                t,
            )
    }

    /// The two timer maps are exact inverses, their stream-side domain is
    /// the pending set, and their timer-side domain is exactly the allocated
    /// timer tokens.
    pub open spec fn inv_timer_bijection(self) -> bool {
        &&& forall|s: StreamToken, tm: TimerToken|
            self@.stream_to_timer.contains_pair(s, tm) <==> self@.timer_to_stream.contains_pair(
                tm,
                s,
            )
        &&& forall|s: StreamToken|
            self@.stream_to_timer.dom().contains(s) <==> self@.unprocessed_connections.dom(
            ).contains(s)
        &&& forall|tm: TimerToken|
            self@.timer_allocated(tm) <==> self@.timer_to_stream.dom().contains(tm)
    }

    /// Sessions are indexed by their own nonce, and every session reachable
    /// by address is the one registered under its nonce, for that address.
    pub open spec fn inv_sessions(self) -> bool {
        &&& forall|n: Nonce|
            self@.registered_sessions.dom().contains(n)
                ==> self@.registered_sessions[n].session.nonce == n
        &&& forall|k: u64|
            self@.socket_to_session.dom().contains(k) ==> {
                &&& self@.registered_sessions.dom().contains(self@.socket_to_session[k].nonce)
                &&& self@.registered_sessions[self@.socket_to_session[k].nonce].session
                    == self@.socket_to_session[k]
                &&& self@.registered_sessions[self@.socket_to_session[k].nonce].registered_for.key_spec()
                    == k
            }
    }

    /// A stored pending connection has not parsed its Sync frame yet: the
    /// moment one does, it is promoted in the same operation.
    pub open spec fn inv_unprocessed_pending(self) -> bool {
        forall|t: StreamToken|
            self@.unprocessed_connections.dom().contains(t)
                ==> self@.unprocessed_connections[t].parsed_session() is None
    }

    pub open spec fn wf(self) -> bool {
        &&& self.generators_pinned()
        &&& self.inv_lengths()
        &&& self.inv_partition()
        &&& self.inv_token_conservation()
        &&& self.inv_unprocessed_tokens()
        &&& self.inv_timer_bijection()
        &&& self.inv_sessions()
        &&& self.inv_unprocessed_pending()
    }

    /// Creates an empty manager.  Binding the TCP listener and registering
    /// it under `ACCEPT_TOKEN` is the embedding's task.
    pub fn listen() -> (m: Manager)
        ensures
            m.wf(),
            m@.connections == Map::<StreamToken, Connection>::empty(),
            m@.unprocessed_connections == Map::<StreamToken, UnprocessedConnection>::empty(),
            m@.registered_sessions == Map::<Nonce, RegisteredSession>::empty(),
            m@.socket_to_session == Map::<u64, Session>::empty(),
            m@.stream_to_timer == Map::<StreamToken, TimerToken>::empty(),
            m@.timer_to_stream == Map::<TimerToken, StreamToken>::empty(),
            m@.unprocessed_tokens == Set::<StreamToken>::empty(),
            m@.streams_outstanding() == 0,
            m@.timers_outstanding() == 0,
    {
        let m = Manager {
            tokens: TokenGenerator::new(FIRST_CONNECTION_TOKEN, MAX_CONNECTIONS),
            unprocessed_tokens: HashSet::new(),
            connections: HashMap::new(),
            unprocessed_connections: HashMap::new(),
            registered_sessions: HashMap::new(),
            socket_to_session: HashMap::new(),
            waiting_sync_tokens: TokenGenerator::new(FIRST_WAIT_SYNC_TOKEN, MAX_SYNC_WAITS),
            waiting_sync_stream_to_timer: HashMap::new(),
            waiting_sync_timer_to_stream: HashMap::new(),
        };
        proof {
            assert(m@.connections.dom() =~= Set::<StreamToken>::empty());
            assert(m@.unprocessed_connections.dom() =~= Set::<StreamToken>::empty());
            assert(m@.connections.len() == 0);
            assert(m@.unprocessed_connections.len() == 0);
            assert forall|t: StreamToken| !m@.stream_allocated(t) && !m@.live(t) by {
                assert(!m.tokens.is_allocated(t));
            }
            assert forall|tm: TimerToken| !m@.timer_allocated(tm) by {
                assert(!m.waiting_sync_tokens.is_allocated(tm));
            }
        }
        m
    }

    /// Makes `session` available for one future handshake with `address`,
    /// indexed both by the address and by the session's nonce.  Fails, with
    /// the state unchanged, when either index already holds an entry.
    pub fn register_session(&mut self, address: SocketAddr, session: Session) -> (r: Result<
        (),
        Error,
    >)
        requires
            old(self).wf(),
        ensures
            final(self).wf(),
            match r {
                Ok(_) => {
                    &&& !old(self)@.socket_to_session.dom().contains(address.key_spec())
                    &&& !old(self)@.registered_sessions.dom().contains(session.nonce)
                    &&& final(self)@ == (ManagerView {
                        registered_sessions: old(self)@.registered_sessions.insert(
                            session.nonce,
                            RegisteredSession { session, registered_for: address },
                        ),
                        socket_to_session: old(self)@.socket_to_session.insert(
                            address.key_spec(),
                            session,
                        ),
                        ..old(self)@
                    })
                },
                Err(e) => {
                    &&& e == Error::SessionAlreadyRegistered
                    &&& (old(self)@.socket_to_session.dom().contains(address.key_spec()) || old(self)@.registered_sessions.dom().contains(session.nonce))
                    &&& final(self)@ == old(self)@
                },
            },
    {
        let key = address.key();
        if self.socket_to_session.contains_key(&key) {
            return Err(Error::SessionAlreadyRegistered);
        }
        if self.registered_sessions.contains_key(&session.nonce) {
            return Err(Error::SessionAlreadyRegistered);
        }
        self.registered_sessions.insert(
            session.nonce,
            RegisteredSession { session, registered_for: address },
        );
        self.socket_to_session.insert(key, session);
        proof {
            let pre = old(self)@;
            let post = self@;
            lemma_token_state_invs_preserved(*old(self), *self);
            assert forall|n: Nonce| post.registered_sessions.dom().contains(n) implies post.registered_sessions[n].session.nonce
                == n by {
                if n != session.nonce {
                    assert(pre.registered_sessions.dom().contains(n));
                }
            }
            assert forall|k: u64| post.socket_to_session.dom().contains(k) implies {
                &&& post.registered_sessions.dom().contains(post.socket_to_session[k].nonce)
                &&& post.registered_sessions[post.socket_to_session[k].nonce].session
                    == post.socket_to_session[k]
                &&& post.registered_sessions[post.socket_to_session[k].nonce].registered_for.key_spec()
                    == k
            } by {
                if k != address.key_spec() {
                    assert(pre.socket_to_session.dom().contains(k));
                    assert(pre.registered_sessions.dom().contains(pre.socket_to_session[k].nonce));
                    assert(pre.socket_to_session[k].nonce != session.nonce);
                }
            }
            assert(post == (ManagerView {
                registered_sessions: pre.registered_sessions.insert(
                    session.nonce,
                    RegisteredSession { session, registered_for: address },
                ),
                socket_to_session: pre.socket_to_session.insert(address.key_spec(), session),
                ..pre
            }));
        }
        Ok(())
    }

    /// Installs a fresh pending connection for a just-accepted stream from
    /// `peer`: allocates a stream token and a handshake-timer token, records
    /// the timer pairing in both directions, and stores the connection.
    /// Fails, with the state unchanged, when either pool is exhausted; the
    /// stream-token pool is consulted first.
    pub fn register_unprocessed_connection(&mut self, peer: SocketAddr) -> (r: Result<
        (StreamToken, TimerToken),
        Error,
    >)
        requires
            old(self).wf(),
        ensures
            final(self).wf(),
            match r {
                Ok((t, tt)) => {
                    &&& FIRST_CONNECTION_TOKEN <= t < LAST_CONNECTION_TOKEN
                    &&& FIRST_WAIT_SYNC_TOKEN <= tt < LAST_WAIT_SYNC_TOKEN
                    &&& !old(self)@.stream_allocated(t)
                    &&& !old(self)@.timer_allocated(tt)
                    &&& final(self)@.stream_allocated(t)
                    &&& final(self)@.timer_allocated(tt)
                    &&& final(self)@.connections == old(self)@.connections
                    &&& final(self)@.registered_sessions == old(self)@.registered_sessions
                    &&& final(self)@.socket_to_session == old(self)@.socket_to_session
                    &&& final(self)@.unprocessed_connections.dom() == old(self)@.unprocessed_connections.dom().insert(t)
                    &&& final(self)@.unprocessed_connections[t].is_fresh(peer)
                    &&& forall|u: StreamToken|
                        u != t && old(self)@.unprocessed_connections.dom().contains(u) ==> final(self)@.unprocessed_connections[u] == old(self)@.unprocessed_connections[u]
                    &&& final(self)@.stream_to_timer == old(self)@.stream_to_timer.insert(t, tt)
                    &&& final(self)@.timer_to_stream == old(self)@.timer_to_stream.insert(tt, t)
                    &&& final(self)@.unprocessed_tokens == old(self)@.unprocessed_tokens.insert(t)
                    &&& final(self)@.streams_outstanding() == old(self)@.streams_outstanding() + 1
                    &&& final(self)@.timers_outstanding() == old(self)@.timers_outstanding() + 1
                },
                Err(e) => {
                    &&& final(self)@ == old(self)@
                    &&& (e == Error::TooManyConnections <==> old(self)@.streams_outstanding()
                        == MAX_CONNECTIONS)
                    &&& (e == Error::TooManyWaitingSync <==> (old(self)@.streams_outstanding()
                        < MAX_CONNECTIONS && old(self)@.timers_outstanding() == MAX_SYNC_WAITS))
                    &&& (e == Error::TooManyConnections || e == Error::TooManyWaitingSync)
                },
            },
    {
        proof {
            lemma_count_used_le_len(self.tokens@);
            lemma_count_used_le_len(self.waiting_sync_tokens@);
        }
        let token = match self.tokens.gen() {
            Some(t) => t,
            None => {
                return Err(Error::TooManyConnections);
            },
        };
        proof {
            lemma_count_used_le_len(self.tokens@);
            assert(old(self)@.streams_outstanding() < MAX_CONNECTIONS);
        }
        let timer_token = match self.waiting_sync_tokens.gen() {
            Some(tt) => tt,
            None => {
                let restored = self.tokens.restore(token);
                proof {
                    assert(restored);
                    assert(self.tokens@ =~= old(self).tokens@);
                    assert(self@ =~= old(self)@);
                }
                return Err(Error::TooManyWaitingSync);
            },
        };
        let connection = UnprocessedConnection::new(peer);
        proof {
            assert(!old(self)@.stream_allocated(token));
            assert(!old(self)@.live(token));
            assert(!old(self)@.unprocessed_connections.dom().contains(token));
            assert(!old(self)@.stream_to_timer.dom().contains(token));
            assert(!old(self)@.timer_allocated(timer_token));
            assert(!old(self)@.timer_to_stream.dom().contains(timer_token));
        }
        self.waiting_sync_stream_to_timer.insert(token, timer_token);
        self.waiting_sync_timer_to_stream.insert(timer_token, token);
        self.unprocessed_connections.insert(token, connection);
        self.unprocessed_tokens.insert(token);
        proof {
            let pre = old(self)@;
            let post = self@;
            lemma_session_invs_preserved(*old(self), *self);
            assert(post.unprocessed_connections.dom() =~= pre.unprocessed_connections.dom().insert(
                token,
            ));
            assert(post.unprocessed_connections.len() == pre.unprocessed_connections.len() + 1);
            assert forall|t: StreamToken| post.stream_allocated(t) <==> post.live(t) by {
                if t != token {
                    assert(pre.stream_allocated(t) <==> pre.live(t));
                    assert(self.tokens.is_allocated(t) == old(self).tokens.is_allocated(t));
                }
            }
            assert forall|t: StreamToken|
                !(post.connections.dom().contains(t) && post.unprocessed_connections.dom().contains(
                    t,
                )) by {
                if t != token {
                    assert(!(pre.connections.dom().contains(t)
                        && pre.unprocessed_connections.dom().contains(t)));
                } else {
                    assert(!pre.connections.dom().contains(token));
                }
            }
            assert forall|t: StreamToken|
                post.unprocessed_tokens.contains(t) <==> post.unprocessed_connections.dom(
                ).contains(t) by {
                if t != token {
                    assert(pre.unprocessed_tokens.contains(t)
                        <==> pre.unprocessed_connections.dom().contains(t));
                }
            }
            assert forall|s: StreamToken, tm: TimerToken|
                post.stream_to_timer.contains_pair(s, tm) <==> post.timer_to_stream.contains_pair(
                    tm,
                    s,
                ) by {
                assert(pre.stream_to_timer.contains_pair(s, tm)
                    <==> pre.timer_to_stream.contains_pair(tm, s));
                assert(pre.stream_to_timer.contains_pair(token, tm)
                    <==> pre.timer_to_stream.contains_pair(tm, token));
                assert(pre.stream_to_timer.contains_pair(s, timer_token)
                    <==> pre.timer_to_stream.contains_pair(timer_token, s));
            }
            assert forall|s: StreamToken|
                post.stream_to_timer.dom().contains(s) <==> post.unprocessed_connections.dom(
                ).contains(s) by {
                if s != token {
                    assert(pre.stream_to_timer.dom().contains(s)
                        <==> pre.unprocessed_connections.dom().contains(s));
                }
            }
            assert forall|tm: TimerToken|
                post.timer_allocated(tm) <==> post.timer_to_stream.dom().contains(tm) by {
                if tm != timer_token {
                    assert(pre.timer_allocated(tm) <==> pre.timer_to_stream.dom().contains(tm));
                    assert(self.waiting_sync_tokens.is_allocated(tm) == old(self).waiting_sync_tokens.is_allocated(tm));
                }
            }
            assert forall|t: StreamToken|
                post.unprocessed_connections.dom().contains(t)
                    implies post.unprocessed_connections[t].parsed_session() is None by {
                if t != token {
                    assert(pre.unprocessed_connections.dom().contains(t));
                    assert(pre.unprocessed_connections[t].parsed_session() is None);
                }
            }
        }
        Ok((token, timer_token))
    }

    /// Accepts one freshly arrived stream from `peer`.  This is the
    /// state-machine half of accepting: the listener handed the socket to
    /// the embedding, which keeps it keyed by the returned stream token and
    /// arms the returned timer token for `WAIT_SYNC_MS`.
    pub fn accept(&mut self, peer: SocketAddr) -> (r: Result<(StreamToken, TimerToken), Error>)
        requires
            old(self).wf(),
        ensures
            final(self).wf(),
            match r {
                Ok((t, tt)) => {
                    &&& FIRST_CONNECTION_TOKEN <= t < LAST_CONNECTION_TOKEN
                    &&& FIRST_WAIT_SYNC_TOKEN <= tt < LAST_WAIT_SYNC_TOKEN
                    &&& !old(self)@.stream_allocated(t)
                    &&& !old(self)@.timer_allocated(tt)
                    &&& final(self)@.stream_allocated(t)
                    &&& final(self)@.timer_allocated(tt)
                    &&& final(self)@.connections == old(self)@.connections
                    &&& final(self)@.registered_sessions == old(self)@.registered_sessions
                    &&& final(self)@.socket_to_session == old(self)@.socket_to_session
                    &&& final(self)@.unprocessed_connections.dom() == old(self)@.unprocessed_connections.dom().insert(t)
                    &&& final(self)@.unprocessed_connections[t].is_fresh(peer)
                    &&& forall|u: StreamToken|
                        u != t && old(self)@.unprocessed_connections.dom().contains(u) ==> final(self)@.unprocessed_connections[u] == old(self)@.unprocessed_connections[u]
                    &&& final(self)@.stream_to_timer == old(self)@.stream_to_timer.insert(t, tt)
                    &&& final(self)@.timer_to_stream == old(self)@.timer_to_stream.insert(tt, t)
                    &&& final(self)@.streams_outstanding() == old(self)@.streams_outstanding() + 1
                    &&& final(self)@.timers_outstanding() == old(self)@.timers_outstanding() + 1
                },
                Err(e) => {
                    &&& final(self)@ == old(self)@
                    &&& (e == Error::TooManyConnections <==> old(self)@.streams_outstanding()
                        == MAX_CONNECTIONS)
                    &&& (e == Error::TooManyWaitingSync <==> (old(self)@.streams_outstanding()
                        < MAX_CONNECTIONS && old(self)@.timers_outstanding() == MAX_SYNC_WAITS))
                    &&& (e == Error::TooManyConnections || e == Error::TooManyWaitingSync)
                },
            },
    {
        self.register_unprocessed_connection(peer)
    }

    /// Builds the outbound connection for `peer`: consumes the session
    /// registered for the address, installs a connection with `Sync(nonce)`
    /// already queued, and allocates its stream token.  No handshake timer
    /// is armed for outbound connections.  Fails, with the state unchanged,
    /// when no session is registered for the address or when the connection
    /// pool is exhausted.
    pub fn create_connection(&mut self, peer: SocketAddr) -> (r: Result<StreamToken, Error>)
        requires
            old(self).wf(),
        ensures
            final(self).wf(),
            match r {
                Ok(t) => {
                    let session = old(self)@.socket_to_session[peer.key_spec()];
                    &&& old(self)@.socket_to_session.dom().contains(peer.key_spec())
                    &&& FIRST_CONNECTION_TOKEN <= t < LAST_CONNECTION_TOKEN
                    &&& !old(self)@.stream_allocated(t)
                    &&& final(self)@.stream_allocated(t)
                    &&& final(self)@.connections.dom() == old(self)@.connections.dom().insert(t)
                    &&& final(self)@.connections[t].session_spec() == session
                    &&& final(self)@.connections[t].queue_spec() == seq![
                        Frame::Sync(session.nonce),
                    ]
                    &&& forall|u: StreamToken|
                        u != t && old(self)@.connections.dom().contains(u) ==> final(self)@.connections[u] == old(self)@.connections[u]
                    &&& final(self)@.socket_to_session == old(self)@.socket_to_session.remove(
                        peer.key_spec(),
                    )
                    &&& final(self)@.registered_sessions == old(self)@.registered_sessions
                    &&& final(self)@.unprocessed_connections == old(self)@.unprocessed_connections
                    &&& final(self)@.unprocessed_tokens == old(self)@.unprocessed_tokens
                    &&& final(self)@.stream_to_timer == old(self)@.stream_to_timer
                    &&& final(self)@.timer_to_stream == old(self)@.timer_to_stream
                    &&& final(self)@.timers_used == old(self)@.timers_used
                    &&& final(self)@.streams_outstanding() == old(self)@.streams_outstanding() + 1
                },
                Err(e) => {
                    &&& final(self)@ == old(self)@
                    &&& (e == Error::UnavailableSession <==> !old(self)@.socket_to_session.dom(
                    ).contains(peer.key_spec()))
                    &&& (e == Error::TooManyConnections <==> (old(self)@.socket_to_session.dom(
                    ).contains(peer.key_spec()) && old(self)@.streams_outstanding()
                        == MAX_CONNECTIONS))
                    &&& (e == Error::UnavailableSession || e == Error::TooManyConnections)
                },
            },
    {
        let key = peer.key();
        let session = match self.socket_to_session.get(&key) {
            None => {
                return Err(Error::UnavailableSession);
            },
            Some(s) => *s,
        };
        let token = match self.tokens.gen() {
            Some(t) => t,
            None => {
                return Err(Error::TooManyConnections);
            },
        };
        proof {
            lemma_count_used_le_len(self.tokens@);
        }
        let mut connection = Connection::new(session);
        connection.enqueue_sync(session.nonce);
        self.socket_to_session.remove(&key);
        self.connections.insert(token, connection);
        proof {
            let pre = old(self)@;
            let post = self@;
            assert(!pre.stream_allocated(token));
            assert(!pre.live(token));
            assert(!pre.connections.dom().contains(token));
            assert(post.connections.dom() =~= pre.connections.dom().insert(token));
            assert(post.connections.len() == pre.connections.len() + 1);
            assert(post.connections[token].queue_spec() =~= seq![Frame::Sync(session.nonce)]);
            assert forall|t: StreamToken| post.stream_allocated(t) <==> post.live(t) by {
                if t != token {
                    assert(pre.stream_allocated(t) <==> pre.live(t));
                    assert(self.tokens.is_allocated(t) == old(self).tokens.is_allocated(t));
                }
            }
            assert forall|t: StreamToken|
                !(post.connections.dom().contains(t) && post.unprocessed_connections.dom().contains(
                    t,
                )) by {
                if t != token {
                    assert(!(pre.connections.dom().contains(t)
                        && pre.unprocessed_connections.dom().contains(t)));
                } else {
                    assert(!pre.live(token));
                }
            }
            assert forall|t: StreamToken|
                post.unprocessed_tokens.contains(t) <==> post.unprocessed_connections.dom(
                ).contains(t) by {
                assert(pre.unprocessed_tokens.contains(t) <==> pre.unprocessed_connections.dom(
                ).contains(t));
            }
            assert forall|s: StreamToken, tm: TimerToken|
                post.stream_to_timer.contains_pair(s, tm) <==> post.timer_to_stream.contains_pair(
                    tm,
                    s,
                ) by {
                assert(pre.stream_to_timer.contains_pair(s, tm)
                    <==> pre.timer_to_stream.contains_pair(tm, s));
            }
            assert forall|s: StreamToken|
                post.stream_to_timer.dom().contains(s) <==> post.unprocessed_connections.dom(
                ).contains(s) by {
                assert(pre.stream_to_timer.dom().contains(s)
                    <==> pre.unprocessed_connections.dom().contains(s));
            }
            assert forall|tm: TimerToken|
                post.timer_allocated(tm) <==> post.timer_to_stream.dom().contains(tm) by {
                assert(pre.timer_allocated(tm) <==> pre.timer_to_stream.dom().contains(tm));
            }
            assert forall|n: Nonce|
                post.registered_sessions.dom().contains(n)
                    implies post.registered_sessions[n].session.nonce == n by {
                assert(pre.registered_sessions.dom().contains(n));
            }
            assert forall|k: u64| post.socket_to_session.dom().contains(k) implies {
                &&& post.registered_sessions.dom().contains(post.socket_to_session[k].nonce)
                &&& post.registered_sessions[post.socket_to_session[k].nonce].session
                    == post.socket_to_session[k]
                &&& post.registered_sessions[post.socket_to_session[k].nonce].registered_for.key_spec()
                    == k
            } by {
                assert(pre.socket_to_session.dom().contains(k));
                assert(pre.registered_sessions.dom().contains(pre.socket_to_session[k].nonce));
            }
            assert forall|t: StreamToken|
                post.unprocessed_connections.dom().contains(t)
                    implies post.unprocessed_connections[t].parsed_session() is None by {
                assert(pre.unprocessed_connections.dom().contains(t));
                assert(pre.unprocessed_connections[t].parsed_session() is None);
            }
        }
        Ok(token)
    }

    /// Opens an outbound connection to `peer` using its pre-registered
    /// session.  This is the state-machine half of connecting: the embedding
    /// performs the TCP connect and keys the socket by the returned token.
    pub fn connect(&mut self, peer: SocketAddr) -> (r: Result<StreamToken, Error>)
        requires
            old(self).wf(),
        ensures
            final(self).wf(),
            match r {
                Ok(t) => {
                    let session = old(self)@.socket_to_session[peer.key_spec()];
                    &&& old(self)@.socket_to_session.dom().contains(peer.key_spec())
                    &&& FIRST_CONNECTION_TOKEN <= t < LAST_CONNECTION_TOKEN
                    &&& !old(self)@.stream_allocated(t)
                    &&& final(self)@.stream_allocated(t)
                    &&& final(self)@.connections.dom() == old(self)@.connections.dom().insert(t)
                    &&& final(self)@.connections[t].session_spec() == session
                    &&& final(self)@.connections[t].queue_spec() == seq![
                        Frame::Sync(session.nonce),
                    ]
                    &&& final(self)@.socket_to_session == old(self)@.socket_to_session.remove(
                        peer.key_spec(),
                    )
                    &&& final(self)@.registered_sessions == old(self)@.registered_sessions
                    &&& final(self)@.unprocessed_connections == old(self)@.unprocessed_connections
                    &&& final(self)@.stream_to_timer == old(self)@.stream_to_timer
                    &&& final(self)@.timer_to_stream == old(self)@.timer_to_stream
                    &&& final(self)@.timers_used == old(self)@.timers_used
                    &&& final(self)@.streams_outstanding() == old(self)@.streams_outstanding() + 1
                },
                Err(e) => {
                    &&& final(self)@ == old(self)@
                    &&& (e == Error::UnavailableSession <==> !old(self)@.socket_to_session.dom(
                    ).contains(peer.key_spec()))
                    &&& (e == Error::TooManyConnections <==> (old(self)@.socket_to_session.dom(
                    ).contains(peer.key_spec()) && old(self)@.streams_outstanding()
                        == MAX_CONNECTIONS))
                    &&& (e == Error::UnavailableSession || e == Error::TooManyConnections)
                },
            },
    {
        self.create_connection(peer)
    }

    /// Takes the next outbound frame of an established connection, oldest
    /// first; `Ok(None)` once its queue is drained.
    pub fn send(&mut self, stream: StreamToken) -> (r: Result<Option<Frame>, Error>)
        requires
            old(self).wf(),
        ensures
            final(self).wf(),
            match r {
                Err(e) => {
                    &&& e == Error::InvalidStream(stream)
                    &&& !old(self)@.connections.dom().contains(stream)
                    &&& final(self)@ == old(self)@
                },
                Ok(opt) => {
                    let queue = old(self)@.connections[stream].queue_spec();
                    &&& old(self)@.connections.dom().contains(stream)
                    &&& final(self)@.connections.dom() == old(self)@.connections.dom()
                    &&& final(self)@.connections[stream].session_spec() == old(self)@.connections[stream].session_spec()
                    &&& forall|u: StreamToken|
                        u != stream && old(self)@.connections.dom().contains(u) ==> final(self)@.connections[u] == old(self)@.connections[u]
                    &&& final(self)@ == (ManagerView {
                        connections: final(self)@.connections,
                        ..old(self)@
                    })
                    &&& match opt {
                        Some(f) => {
                            &&& queue.len() > 0
                            &&& f == queue[0]
                            &&& final(self)@.connections[stream].queue_spec() == queue.remove(0)
                        },
                        None => {
                            &&& queue.len() == 0
                            &&& final(self)@.connections[stream].queue_spec() == queue
                        },
                    }
                },
            },
    {
        let conn_opt = self.connections.remove(&stream);
        let mut connection = match conn_opt {
            None => {
                proof {
                    assert(self@ =~= old(self)@);
                }
                return Err(Error::InvalidStream(stream));
            },
            Some(c) => c,
        };
        let frame = connection.send();
        self.connections.insert(stream, connection);
        proof {
            let pre = old(self)@;
            let post = self@;
            assert(post.connections.dom() =~= pre.connections.dom());
            lemma_invs_preserved_same_doms(*old(self), *self);
            lemma_session_invs_preserved(*old(self), *self);
            assert forall|t: StreamToken|
                post.unprocessed_connections.dom().contains(t)
                    implies post.unprocessed_connections[t].parsed_session() is None by {
                assert(pre.unprocessed_connections.dom().contains(t));
                assert(pre.unprocessed_connections[t].parsed_session() is None);
            }
            assert(post =~= (ManagerView { connections: post.connections, ..pre }));
        }
        Ok(frame)
    }

    /// Queues a negotiation request on the connection known by `node`.
    pub fn enqueue_negotiation_request(
        &mut self,
        node: NodeToken,
        extension_name: String,
        version: Version,
    ) -> (r: Result<(), Error>)
        requires
            old(self).wf(),
        ensures
            final(self).wf(),
            match r {
                Err(e) => {
                    &&& e == Error::InvalidNode(node)
                    &&& !old(self)@.connections.dom().contains(node)
                    &&& final(self)@ == old(self)@
                },
                Ok(_) => {
                    &&& old(self)@.connections.dom().contains(node)
                    &&& final(self)@.connections.dom() == old(self)@.connections.dom()
                    &&& final(self)@.connections[node].session_spec() == old(self)@.connections[node].session_spec()
                    &&& final(self)@.connections[node].queue_spec() == old(self)@.connections[node].queue_spec().push(
                        Frame::NegotiationRequest { extension_name, version },
                    )
                    &&& forall|u: StreamToken|
                        u != node && old(self)@.connections.dom().contains(u) ==> final(self)@.connections[u] == old(self)@.connections[u]
                    &&& final(self)@ == (ManagerView {
                        connections: final(self)@.connections,
                        ..old(self)@
                    })
                },
            },
    {
        let conn_opt = self.connections.remove(&node);
        let mut connection = match conn_opt {
            None => {
                proof {
                    assert(self@ =~= old(self)@);
                }
                return Err(Error::InvalidNode(node));
            },
            Some(c) => c,
        };
        connection.enqueue_negotiation_request(extension_name, version);
        self.connections.insert(node, connection);
        proof {
            let pre = old(self)@;
            let post = self@;
            assert(post.connections.dom() =~= pre.connections.dom());
            lemma_invs_preserved_same_doms(*old(self), *self);
            lemma_session_invs_preserved(*old(self), *self);
            assert forall|t: StreamToken|
                post.unprocessed_connections.dom().contains(t)
                    implies post.unprocessed_connections[t].parsed_session() is None by {
                assert(pre.unprocessed_connections.dom().contains(t));
                assert(pre.unprocessed_connections[t].parsed_session() is None);
            }
            assert(post =~= (ManagerView { connections: post.connections, ..pre }));
        }
        Ok(())
    }

    /// Queues an extension frame on the connection known by `node`.
    pub fn enqueue_extension_message(
        &mut self,
        node: NodeToken,
        extension_name: String,
        need_encryption: bool,
        data: Vec<u8>,
    ) -> (r: Result<(), Error>)
        requires
            old(self).wf(),
        ensures
            final(self).wf(),
            match r {
                Err(e) => {
                    &&& e == Error::InvalidNode(node)
                    &&& !old(self)@.connections.dom().contains(node)
                    &&& final(self)@ == old(self)@
                },
                Ok(_) => {
                    &&& old(self)@.connections.dom().contains(node)
                    &&& final(self)@.connections.dom() == old(self)@.connections.dom()
                    &&& final(self)@.connections[node].session_spec() == old(self)@.connections[node].session_spec()
                    &&& final(self)@.connections[node].queue_spec() == old(self)@.connections[node].queue_spec().push(
                        Frame::Extension { extension_name, need_encryption, data },
                    )
                    &&& forall|u: StreamToken|
                        u != node && old(self)@.connections.dom().contains(u) ==> final(self)@.connections[u] == old(self)@.connections[u]
                    &&& final(self)@ == (ManagerView {
                        connections: final(self)@.connections,
                        ..old(self)@
                    })
                },
            },
    {
        let conn_opt = self.connections.remove(&node);
        let mut connection = match conn_opt {
            None => {
                proof {
                    assert(self@ =~= old(self)@);
                }
                return Err(Error::InvalidNode(node));
            },
            Some(c) => c,
        };
        connection.enqueue_extension_message(extension_name, need_encryption, data);
        self.connections.insert(node, connection);
        proof {
            let pre = old(self)@;
            let post = self@;
            assert(post.connections.dom() =~= pre.connections.dom());
            lemma_invs_preserved_same_doms(*old(self), *self);
            lemma_session_invs_preserved(*old(self), *self);
            assert forall|t: StreamToken|
                post.unprocessed_connections.dom().contains(t)
                    implies post.unprocessed_connections[t].parsed_session() is None by {
                assert(pre.unprocessed_connections.dom().contains(t));
                assert(pre.unprocessed_connections[t].parsed_session() is None);
            }
            assert(post =~= (ManagerView { connections: post.connections, ..pre }));
        }
        Ok(())
    }

    /// Evicts the pending connection known by its stream token: both timer
    /// map entries go, the timer token and the stream token return to their
    /// pools, and the evicted connection is handed back.  A no-op returning
    /// `None` when the token has no pending entry, so that this reaper and
    /// its timer-keyed dual can run in either order without residue.
    pub fn remove_waiting_sync_by_stream_token(&mut self, stream: StreamToken) -> (r: Option<
        UnprocessedConnection,
    >)
        requires
            old(self).wf(),
        ensures
            final(self).wf(),
            match r {
                None => {
                    &&& !old(self)@.unprocessed_connections.dom().contains(stream)
                    &&& final(self)@ == old(self)@
                },
                Some(u) => {
                    &&& old(self)@.unprocessed_connections.dom().contains(stream)
                    &&& u == old(self)@.unprocessed_connections[stream]
                    &&& eviction_transition(
                        old(self)@,
                        final(self)@,
                        stream,
                        old(self)@.stream_to_timer[stream],
                    )
                },
            },
    {
        let timer = match self.waiting_sync_stream_to_timer.remove(&stream) {
            None => {
                proof {
                    assert(old(self)@.stream_to_timer.dom().contains(stream)
                        <==> old(self)@.unprocessed_connections.dom().contains(stream));
                    assert(self.waiting_sync_stream_to_timer@ =~= old(
                        self,
                    ).waiting_sync_stream_to_timer@);
                    assert(self@ =~= old(self)@);
                }
                return None;
            },
            Some(tm) => tm,
        };
        proof {
            assert(old(self)@.stream_to_timer.contains_pair(stream, timer));
            assert(old(self)@.timer_to_stream.contains_pair(timer, stream));
            assert(old(self)@.timer_allocated(timer));
            assert(old(self)@.unprocessed_connections.dom().contains(stream));
            assert(old(self)@.live(stream));
            assert(old(self)@.stream_allocated(stream));
        }
        let restored_timer = self.waiting_sync_tokens.restore(timer);
        proof {
            assert(restored_timer);
        }
        self.waiting_sync_timer_to_stream.remove(&timer);
        self.unprocessed_tokens.remove(&stream);
        let unp_opt = self.unprocessed_connections.remove(&stream);
        proof {
            assert(unp_opt is Some);
        }
        let unp = unp_opt.unwrap();
        let restored_stream = self.tokens.restore(stream);
        proof {
            assert(restored_stream);
        }
        proof {
            let pre = old(self)@;
            let post = self@;
            lemma_session_invs_preserved(*old(self), *self);
            assert(post.unprocessed_connections.dom() =~= pre.unprocessed_connections.dom().remove(
                stream,
            ));
            assert(post.unprocessed_connections.len() + 1 == pre.unprocessed_connections.len());
            assert forall|t: StreamToken| post.stream_allocated(t) <==> post.live(t) by {
                if t != stream {
                    assert(pre.stream_allocated(t) <==> pre.live(t));
                    assert(self.tokens.is_allocated(t) == old(self).tokens.is_allocated(t));
                }
            }
            assert forall|t: StreamToken|
                !(post.connections.dom().contains(t) && post.unprocessed_connections.dom().contains(
                    t,
                )) by {
                assert(!(pre.connections.dom().contains(t)
                    && pre.unprocessed_connections.dom().contains(t)));
            }
            assert forall|t: StreamToken|
                post.unprocessed_tokens.contains(t) <==> post.unprocessed_connections.dom(
                ).contains(t) by {
                if t != stream {
                    assert(pre.unprocessed_tokens.contains(t) <==> pre.unprocessed_connections.dom(
                    ).contains(t));
                }
            }
            assert forall|s: StreamToken, tm: TimerToken|
                post.stream_to_timer.contains_pair(s, tm) <==> post.timer_to_stream.contains_pair(
                    tm,
                    s,
                ) by {
                assert(pre.stream_to_timer.contains_pair(s, tm)
                    <==> pre.timer_to_stream.contains_pair(tm, s));
                assert(pre.stream_to_timer.contains_pair(stream, tm)
                    <==> pre.timer_to_stream.contains_pair(tm, stream));
                assert(pre.stream_to_timer.contains_pair(s, timer)
                    <==> pre.timer_to_stream.contains_pair(timer, s));
            }
            assert forall|s: StreamToken|
                post.stream_to_timer.dom().contains(s) <==> post.unprocessed_connections.dom(
                ).contains(s) by {
                if s != stream {
                    assert(pre.stream_to_timer.dom().contains(s)
                        <==> pre.unprocessed_connections.dom().contains(s));
                }
            }
            assert forall|tm: TimerToken|
                post.timer_allocated(tm) <==> post.timer_to_stream.dom().contains(tm) by {
                if tm != timer {
                    assert(pre.timer_allocated(tm) <==> pre.timer_to_stream.dom().contains(tm));
                    assert(self.waiting_sync_tokens.is_allocated(tm) == old(
                        self,
                    ).waiting_sync_tokens.is_allocated(tm));
                }
            }
            assert forall|t: StreamToken|
                post.unprocessed_connections.dom().contains(t)
                    implies post.unprocessed_connections[t].parsed_session() is None by {
                assert(pre.unprocessed_connections.dom().contains(t));
                assert(pre.unprocessed_connections[t].parsed_session() is None);
            }
            assert forall|u: StreamToken|
                u != stream implies post.stream_allocated(u) == pre.stream_allocated(u) by {
                assert(self.tokens.is_allocated(u) == old(self).tokens.is_allocated(u));
            }
            assert forall|tm: TimerToken|
                tm != timer implies post.timer_allocated(tm) == pre.timer_allocated(tm) by {
                assert(self.waiting_sync_tokens.is_allocated(tm) == old(
                    self,
                ).waiting_sync_tokens.is_allocated(tm));
            }
        }
        Some(unp)
    }

    /// Evicts the pending connection known by its timer token; the dual
    /// reaper, used when the handshake deadline fires.  Returns the evicted
    /// stream token; a no-op returning `None` when the timer is not armed.
    pub fn remove_waiting_sync_by_timer_token(&mut self, timer: TimerToken) -> (r: Option<
        StreamToken,
    >)
        requires
            old(self).wf(),
        ensures
            final(self).wf(),
            match r {
                None => {
                    &&& !old(self)@.timer_to_stream.dom().contains(timer)
                    &&& final(self)@ == old(self)@
                },
                Some(s) => {
                    &&& old(self)@.timer_to_stream.contains_pair(timer, s)
                    &&& old(self)@.unprocessed_connections.dom().contains(s)
                    &&& eviction_transition(old(self)@, final(self)@, s, timer)
                },
            },
    {
        let stream = match self.waiting_sync_timer_to_stream.get(&timer) {
            None => {
                return None;
            },
            Some(s) => *s,
        };
        proof {
            assert(old(self)@.timer_to_stream.contains_pair(timer, stream));
            assert(old(self)@.stream_to_timer.contains_pair(stream, timer));
            assert(old(self)@.stream_to_timer[stream] == timer);
            assert(old(self)@.unprocessed_connections.dom().contains(stream));
        }
        let removed = self.remove_waiting_sync_by_stream_token(stream);
        proof {
            assert(removed is Some);
        }
        Some(stream)
    }

    /// Removes an established connection and returns its stream token to
    /// the pool.
    pub fn deregister_connection(&mut self, token: StreamToken)
        requires
            old(self).wf(),
            old(self)@.connections.dom().contains(token),
        ensures
            final(self).wf(),
            final(self)@.connections == old(self)@.connections.remove(token),
            !final(self)@.stream_allocated(token),
            forall|u: StreamToken|
                u != token ==> final(self)@.stream_allocated(u) == old(self)@.stream_allocated(u),
            final(self)@.streams_outstanding() + 1 == old(self)@.streams_outstanding(),
            final(self)@ == (ManagerView {
                tokens_used: final(self)@.tokens_used,
                connections: final(self)@.connections,
                ..old(self)@
            }),
    {
        let removed = self.connections.remove(&token);
        proof {
            assert(removed is Some);
            assert(old(self)@.live(token));
            assert(old(self)@.stream_allocated(token));
        }
        let restored = self.tokens.restore(token);
        proof {
            assert(restored);
            let pre = old(self)@;
            let post = self@;
            lemma_session_invs_preserved(*old(self), *self);
            assert(post.connections.dom() =~= pre.connections.dom().remove(token));
            assert(post.connections.len() + 1 == pre.connections.len());
            assert forall|t: StreamToken| post.stream_allocated(t) <==> post.live(t) by {
                if t != token {
                    assert(pre.stream_allocated(t) <==> pre.live(t));
                    assert(self.tokens.is_allocated(t) == old(self).tokens.is_allocated(t));
                } else {
                    assert(!pre.unprocessed_connections.dom().contains(token));
                }
            }
            assert forall|t: StreamToken|
                !(post.connections.dom().contains(t) && post.unprocessed_connections.dom().contains(
                    t,
                )) by {
                assert(!(pre.connections.dom().contains(t)
                    && pre.unprocessed_connections.dom().contains(t)));
            }
            assert forall|t: StreamToken|
                post.unprocessed_tokens.contains(t) <==> post.unprocessed_connections.dom(
                ).contains(t) by {
                assert(pre.unprocessed_tokens.contains(t) <==> pre.unprocessed_connections.dom(
                ).contains(t));
            }
            assert forall|s: StreamToken, tm: TimerToken|
                post.stream_to_timer.contains_pair(s, tm) <==> post.timer_to_stream.contains_pair(
                    tm,
                    s,
                ) by {
                assert(pre.stream_to_timer.contains_pair(s, tm)
                    <==> pre.timer_to_stream.contains_pair(tm, s));
            }
            assert forall|s: StreamToken|
                post.stream_to_timer.dom().contains(s) <==> post.unprocessed_connections.dom(
                ).contains(s) by {
                assert(pre.stream_to_timer.dom().contains(s)
                    <==> pre.unprocessed_connections.dom().contains(s));
            }
            assert forall|tm: TimerToken|
                post.timer_allocated(tm) <==> post.timer_to_stream.dom().contains(tm) by {
                assert(pre.timer_allocated(tm) <==> pre.timer_to_stream.dom().contains(tm));
            }
            assert forall|t: StreamToken|
                post.unprocessed_connections.dom().contains(t)
                    implies post.unprocessed_connections[t].parsed_session() is None by {
                assert(pre.unprocessed_connections.dom().contains(t));
                assert(pre.unprocessed_connections[t].parsed_session() is None);
            }
            assert forall|u: StreamToken|
                u != token implies post.stream_allocated(u) == pre.stream_allocated(u) by {
                assert(self.tokens.is_allocated(u) == old(self).tokens.is_allocated(u));
            }
        }
    }

    /// Removes a pending connection and everything tied to it; used when the
    /// stream is torn down before its handshake completed.
    pub fn deregister_unprocessed_connection(&mut self, token: StreamToken)
        requires
            old(self).wf(),
            old(self)@.unprocessed_connections.dom().contains(token),
        ensures
            final(self).wf(),
            eviction_transition(
                old(self)@,
                final(self)@,
                token,
                old(self)@.stream_to_timer[token],
            ),
    {
        let removed = self.remove_waiting_sync_by_stream_token(token);
        proof {
            assert(removed is Some);
        }
    }

    /// Checks that `token` names a live stream whose socket the embedding
    /// may register with its reactor; the socket itself lives with the
    /// embedding, keyed by the token.
    pub fn register_stream(&self, token: StreamToken) -> (r: Result<(), Error>)
        ensures
            match r {
                Ok(_) => self@.live(token),
                Err(e) => e == Error::InvalidStream(token) && !self@.live(token),
            },
    {
        if self.connections.contains_key(&token) {
            return Ok(());
        }
        if self.unprocessed_connections.contains_key(&token) {
            return Ok(());
        }
        Err(Error::InvalidStream(token))
    }

    /// Checks that `token` names a live stream whose reactor registration
    /// the embedding may refresh.
    pub fn reregister_stream(&self, token: StreamToken) -> (r: Result<(), Error>)
        ensures
            match r {
                Ok(_) => self@.live(token),
                Err(e) => e == Error::InvalidStream(token) && !self@.live(token),
            },
    {
        if self.connections.contains_key(&token) {
            return Ok(());
        }
        if self.unprocessed_connections.contains_key(&token) {
            return Ok(());
        }
        Err(Error::InvalidStream(token))
    }

    /// Tells which kind of connection owns `token`, for the embedding to
    /// tear the right state down after deregistering the socket: `Ok(true)`
    /// for an established connection, `Ok(false)` for a pending one.
    pub fn deregister_stream(&self, token: StreamToken) -> (r: Result<bool, Error>)
        ensures
            match r {
                Ok(processed) => {
                    &&& processed == self@.connections.dom().contains(token)
                    &&& !processed ==> self@.unprocessed_connections.dom().contains(token)
                },
                Err(e) => e == Error::InvalidStream(token) && !self@.live(token),
            },
    {
        if self.connections.contains_key(&token) {
            return Ok(true);
        }
        if self.unprocessed_connections.contains_key(&token) {
            return Ok(false);
        }
        Err(Error::InvalidStream(token))
    }

    /// The hot path: one batch of bytes arrived on `stream`.  Established
    /// connections are left to the embedding's codec; a pending connection
    /// buffers the bytes and, once a complete Sync frame naming a registered
    /// session is there, atomically completes the handshake.
    pub fn receive(&mut self, stream: StreamToken, incoming: &Vec<u8>) -> (r: Result<
        ReceiveOutcome,
        Error,
    >)
        requires
            old(self).wf(),
        ensures
            final(self).wf(),
            match r {
                Ok(outcome) => match outcome {
                    ReceiveOutcome::Established => {
                        &&& old(self)@.connections.dom().contains(stream)
                        &&& final(self)@ == old(self)@
                    },
                    ReceiveOutcome::NeedMoreBytes => ({
                        let buf = old(self)@.unprocessed_connections[stream].buffer_spec()
                            + incoming@;
                        &&& !old(self)@.connections.dom().contains(stream)
                        &&& old(self)@.unprocessed_connections.dom().contains(stream)
                        &&& buf.len() < SYNC_FRAME_LEN
                        &&& buffered_more_bytes(old(self)@, final(self)@, stream, buf)
                    }),
                    ReceiveOutcome::HandshakeCompleted { leftover } => ({
                        let buf = old(self)@.unprocessed_connections[stream].buffer_spec()
                            + incoming@;
                        &&& !old(self)@.connections.dom().contains(stream)
                        &&& old(self)@.unprocessed_connections.dom().contains(stream)
                        &&& buf.len() >= SYNC_FRAME_LEN
                        &&& buf[0] == SYNC_TAG
                        &&& old(self)@.registered_sessions.dom().contains(sync_frame_nonce(buf))
                        &&& leftover@ == buf.subrange(SYNC_FRAME_LEN as int, buf.len() as int)
                        &&& handshake_transition(
                            old(self)@,
                            final(self)@,
                            stream,
                            sync_frame_nonce(buf),
                        )
                    }),
                },
                Err(e) => match e {
                    Error::InvalidStream(t) => {
                        &&& t == stream
                        &&& !old(self)@.live(stream)
                        &&& final(self)@ == old(self)@
                    },
                    Error::MalformedSync => ({
                        let buf = old(self)@.unprocessed_connections[stream].buffer_spec()
                            + incoming@;
                        &&& !old(self)@.connections.dom().contains(stream)
                        &&& old(self)@.unprocessed_connections.dom().contains(stream)
                        &&& buf.len() >= SYNC_FRAME_LEN
                        &&& buf[0] != SYNC_TAG
                        &&& buffered_more_bytes(old(self)@, final(self)@, stream, buf)
                    }),
                    Error::UnregisteredNonce => ({
                        let buf = old(self)@.unprocessed_connections[stream].buffer_spec()
                            + incoming@;
                        &&& !old(self)@.connections.dom().contains(stream)
                        &&& old(self)@.unprocessed_connections.dom().contains(stream)
                        &&& buf.len() >= SYNC_FRAME_LEN
                        &&& buf[0] == SYNC_TAG
                        &&& !old(self)@.registered_sessions.dom().contains(sync_frame_nonce(buf))
                        &&& buffered_more_bytes(old(self)@, final(self)@, stream, buf)
                    }),
                    _ => false,
                },
            },
    {
        if self.connections.contains_key(&stream) {
            return Ok(ReceiveOutcome::Established);
        }
        let unp_opt = self.unprocessed_connections.remove(&stream);
        let mut unp = match unp_opt {
            None => {
                proof {
                    assert(self.unprocessed_connections@ =~= old(self).unprocessed_connections@);
                    assert(self@ =~= old(self)@);
                }
                return Err(Error::InvalidStream(stream));
            },
            Some(u) => u,
        };
        let ghost pre = old(self)@;
        let ghost buf = pre.unprocessed_connections[stream].buffer_spec() + incoming@;
        let res = unp.receive(incoming, &self.registered_sessions);
        match res {
            Ok(None) => {
                self.unprocessed_connections.insert(stream, unp);
                proof {
                    assert(self@.unprocessed_connections.dom()
                        =~= pre.unprocessed_connections.dom());
                    lemma_invs_preserved_same_doms(*old(self), *self);
                    lemma_session_invs_preserved(*old(self), *self);
                    assert forall|t: StreamToken|
                        self@.unprocessed_connections.dom().contains(t)
                            implies self@.unprocessed_connections[t].parsed_session() is None by {
                        if t != stream {
                            assert(pre.unprocessed_connections.dom().contains(t));
                            assert(pre.unprocessed_connections[t].parsed_session() is None);
                        }
                    }
                }
                Ok(ReceiveOutcome::NeedMoreBytes)
            },
            Err(e) => {
                self.unprocessed_connections.insert(stream, unp);
                proof {
                    assert(self@.unprocessed_connections.dom()
                        =~= pre.unprocessed_connections.dom());
                    lemma_invs_preserved_same_doms(*old(self), *self);
                    lemma_session_invs_preserved(*old(self), *self);
                    assert forall|t: StreamToken|
                        self@.unprocessed_connections.dom().contains(t)
                            implies self@.unprocessed_connections[t].parsed_session() is None by {
                        if t != stream {
                            assert(pre.unprocessed_connections.dom().contains(t));
                            assert(pre.unprocessed_connections[t].parsed_session() is None);
                        }
                    }
                }
                Err(e)
            },
            Ok(Some(session)) => {
                let ghost nonce = sync_frame_nonce(buf);
                proof {
                    assert(session == pre.registered_sessions[nonce].session);
                    assert(session.nonce == nonce);
                    assert(old(self)@.stream_to_timer.dom().contains(stream));
                }
                let timer_opt = self.waiting_sync_stream_to_timer.remove(&stream);
                proof {
                    assert(timer_opt is Some);
                }
                let timer = timer_opt.unwrap();
                proof {
                    assert(pre.stream_to_timer.contains_pair(stream, timer));
                    assert(pre.timer_to_stream.contains_pair(timer, stream));
                    assert(pre.timer_allocated(timer));
                }
                let restored = self.waiting_sync_tokens.restore(timer);
                proof {
                    assert(restored);
                }
                self.waiting_sync_timer_to_stream.remove(&timer);
                self.unprocessed_tokens.remove(&stream);
                let (mut connection, leftover) = unp.process();
                connection.enqueue_ack();
                let reg_opt = self.registered_sessions.remove(&session.nonce);
                proof {
                    assert(reg_opt is Some);
                }
                let reg = reg_opt.unwrap();
                proof {
                    assert(reg == pre.registered_sessions[nonce]);
                    assert(reg.session == session);
                }
                let rkey = reg.registered_for.key();
                self.socket_to_session.remove(&rkey);
                self.connections.insert(stream, connection);
                proof {
                    let post = self@;
                    assert(post.connections.dom() =~= pre.connections.dom().insert(stream));
                    assert(!pre.connections.dom().contains(stream));
                    assert(post.connections.len() == pre.connections.len() + 1);
                    assert(post.unprocessed_connections.dom()
                        =~= pre.unprocessed_connections.dom().remove(stream));
                    assert(post.unprocessed_connections.len() + 1
                        == pre.unprocessed_connections.len());
                    assert(post.connections[stream].queue_spec() =~= seq![Frame::Ack]);
                    assert forall|t: StreamToken| post.stream_allocated(t) <==> post.live(t) by {
                        assert(pre.stream_allocated(t) <==> pre.live(t));
                    }
                    assert forall|t: StreamToken|
                        !(post.connections.dom().contains(t)
                            && post.unprocessed_connections.dom().contains(t)) by {
                        assert(!(pre.connections.dom().contains(t)
                            && pre.unprocessed_connections.dom().contains(t)));
                    }
                    assert forall|t: StreamToken|
                        post.unprocessed_tokens.contains(t) <==> post.unprocessed_connections.dom(
                        ).contains(t) by {
                        if t != stream {
                            assert(pre.unprocessed_tokens.contains(t)
                                <==> pre.unprocessed_connections.dom().contains(t));
                        }
                    }
                    assert forall|s: StreamToken, tm: TimerToken|
                        post.stream_to_timer.contains_pair(s, tm)
                            <==> post.timer_to_stream.contains_pair(tm, s) by {
                        assert(pre.stream_to_timer.contains_pair(s, tm)
                            <==> pre.timer_to_stream.contains_pair(tm, s));
                        assert(pre.stream_to_timer.contains_pair(stream, tm)
                            <==> pre.timer_to_stream.contains_pair(tm, stream));
                        assert(pre.stream_to_timer.contains_pair(s, timer)
                            <==> pre.timer_to_stream.contains_pair(timer, s));
                    }
                    assert forall|s: StreamToken|
                        post.stream_to_timer.dom().contains(s)
                            <==> post.unprocessed_connections.dom().contains(s) by {
                        if s != stream {
                            assert(pre.stream_to_timer.dom().contains(s)
                                <==> pre.unprocessed_connections.dom().contains(s));
                        }
                    }
                    assert forall|tm: TimerToken|
                        post.timer_allocated(tm) <==> post.timer_to_stream.dom().contains(tm) by {
                        if tm != timer {
                            assert(pre.timer_allocated(tm) <==> pre.timer_to_stream.dom().contains(
                                tm,
                            ));
                            assert(self.waiting_sync_tokens.is_allocated(tm) == old(
                                self,
                            ).waiting_sync_tokens.is_allocated(tm));
                        }
                    }
                    assert forall|n2: Nonce|
                        post.registered_sessions.dom().contains(n2)
                            implies post.registered_sessions[n2].session.nonce == n2 by {
                        assert(pre.registered_sessions.dom().contains(n2));
                    }
                    assert forall|k: u64| post.socket_to_session.dom().contains(k) implies {
                        &&& post.registered_sessions.dom().contains(post.socket_to_session[k].nonce)
                        &&& post.registered_sessions[post.socket_to_session[k].nonce].session
                            == post.socket_to_session[k]
                        &&& post.registered_sessions[post.socket_to_session[k].nonce].registered_for.key_spec()
                            == k
                    } by {
                        assert(pre.socket_to_session.dom().contains(k));
                        assert(pre.registered_sessions.dom().contains(
                            pre.socket_to_session[k].nonce,
                        ));
                        if pre.socket_to_session[k].nonce == nonce {
                            assert(pre.registered_sessions[nonce].registered_for.key_spec() == k);
                            assert(false);
                        }
                    }
                    assert forall|k: u64|
                        post.socket_to_session.dom().contains(k)
                            implies post.socket_to_session[k].nonce != nonce by {
                        assert(pre.socket_to_session.dom().contains(k));
                        if pre.socket_to_session[k].nonce == nonce {
                            assert(pre.registered_sessions[nonce].registered_for.key_spec() == k);
                            assert(false);
                        }
                    }
                    assert forall|t: StreamToken|
                        post.unprocessed_connections.dom().contains(t)
                            implies post.unprocessed_connections[t].parsed_session() is None by {
                        assert(pre.unprocessed_connections.dom().contains(t));
                        assert(pre.unprocessed_connections[t].parsed_session() is None);
                    }
                }
                Ok(ReceiveOutcome::HandshakeCompleted { leftover })
            },
        }
    }

    /// How many stream tokens are out, counted over the two connection
    /// tables; by token conservation this equals the allocated stream
    /// tokens.
    pub fn live_stream_count(&self) -> (r: usize)
        requires
            self.wf(),
        ensures
            r == self@.connections.len() + self@.unprocessed_connections.len(),
            r == self@.streams_outstanding(),
    {
        proof {
            lemma_count_used_le_len(self@.tokens_used);
        }
        self.connections.len() + self.unprocessed_connections.len()
    }

    pub fn has_connection(&self, token: StreamToken) -> (r: bool)
        ensures
            r == self@.connections.dom().contains(token),
    {
        self.connections.contains_key(&token)
    }

    pub fn has_unprocessed(&self, token: StreamToken) -> (r: bool)
        ensures
            r == self@.unprocessed_connections.dom().contains(token),
    {
        self.unprocessed_connections.contains_key(&token)
    }

    pub fn has_registered_session(&self, nonce: Nonce) -> (r: bool)
        ensures
            r == self@.registered_sessions.dom().contains(nonce),
    {
        self.registered_sessions.contains_key(&nonce)
    }

    pub fn has_session_for(&self, address: &SocketAddr) -> (r: bool)
        ensures
            r == self@.socket_to_session.dom().contains(address.key_spec()),
    {
        let key = address.key();
        self.socket_to_session.contains_key(&key)
    }

    /// The timer armed for a pending stream, if any.
    pub fn timer_of_stream(&self, token: StreamToken) -> (r: Option<TimerToken>)
        ensures
            match r {
                Some(tm) => self@.stream_to_timer.contains_pair(token, tm),
                None => !self@.stream_to_timer.dom().contains(token),
            },
    {
        match self.waiting_sync_stream_to_timer.get(&token) {
            Some(tm) => Some(*tm),
            None => None,
        }
    }

    /// The pending stream a timer is armed for, if any.
    pub fn stream_of_timer(&self, timer: TimerToken) -> (r: Option<StreamToken>)
        ensures
            match r {
                Some(s) => self@.timer_to_stream.contains_pair(timer, s),
                None => !self@.timer_to_stream.dom().contains(timer),
            },
    {
        match self.waiting_sync_timer_to_stream.get(&timer) {
            Some(s) => Some(*s),
            None => None,
        }
    }
}

/// Transfers the token-side invariants from `pre` to `post` when no
/// token-side component changed.
proof fn lemma_token_state_invs_preserved(pre: Manager, post: Manager)
    requires
        pre.inv_lengths(),
        pre.inv_partition(),
        pre.inv_token_conservation(),
        pre.inv_unprocessed_tokens(),
        pre.inv_timer_bijection(),
        pre.inv_unprocessed_pending(),
        post@.tokens_used == pre@.tokens_used,
        post@.timers_used == pre@.timers_used,
        post@.connections == pre@.connections,
        post@.unprocessed_connections == pre@.unprocessed_connections,
        post@.unprocessed_tokens == pre@.unprocessed_tokens,
        post@.stream_to_timer == pre@.stream_to_timer,
        post@.timer_to_stream == pre@.timer_to_stream,
    ensures
        post.inv_lengths(),
        post.inv_partition(),
        post.inv_token_conservation(),
        post.inv_unprocessed_tokens(),
        post.inv_timer_bijection(),
        post.inv_unprocessed_pending(),
{
    assert forall|t: StreamToken| post@.stream_allocated(t) <==> post@.live(t) by {
        assert(pre@.stream_allocated(t) <==> pre@.live(t));
    }
    assert forall|t: StreamToken|
        !(post@.connections.dom().contains(t) && post@.unprocessed_connections.dom().contains(
            t,
        )) by {
        assert(!(pre@.connections.dom().contains(t) && pre@.unprocessed_connections.dom().contains(
            t,
        )));
    }
    assert forall|t: StreamToken|
        post@.unprocessed_tokens.contains(t) <==> post@.unprocessed_connections.dom().contains(
            t,
        ) by {
        assert(pre@.unprocessed_tokens.contains(t) <==> pre@.unprocessed_connections.dom().contains(
            t,
        ));
    }
    assert forall|s: StreamToken, tm: TimerToken|
        post@.stream_to_timer.contains_pair(s, tm) <==> post@.timer_to_stream.contains_pair(
            tm,
            s,
        ) by {
        assert(pre@.stream_to_timer.contains_pair(s, tm) <==> pre@.timer_to_stream.contains_pair(
            tm,
            s,
        ));
    }
    assert forall|s: StreamToken|
        post@.stream_to_timer.dom().contains(s) <==> post@.unprocessed_connections.dom().contains(
            s,
        ) by {
        assert(pre@.stream_to_timer.dom().contains(s) <==> pre@.unprocessed_connections.dom(
        ).contains(s));
    }
    assert forall|tm: TimerToken|
        post@.timer_allocated(tm) <==> post@.timer_to_stream.dom().contains(tm) by {
        assert(pre@.timer_allocated(tm) <==> pre@.timer_to_stream.dom().contains(tm));
    }
    assert forall|t: StreamToken|
        post@.unprocessed_connections.dom().contains(t)
            implies post@.unprocessed_connections[t].parsed_session() is None by {
        assert(pre@.unprocessed_connections.dom().contains(t));
        assert(pre@.unprocessed_connections[t].parsed_session() is None);
    }
}

/// Transfers the session invariants from `pre` to `post` when neither
/// session index changed.
proof fn lemma_session_invs_preserved(pre: Manager, post: Manager)
    requires
        pre.inv_sessions(),
        post@.registered_sessions == pre@.registered_sessions,
        post@.socket_to_session == pre@.socket_to_session,
    ensures
        post.inv_sessions(),
{
    assert forall|n: Nonce|
        post@.registered_sessions.dom().contains(n)
            implies post@.registered_sessions[n].session.nonce == n by {
        assert(pre@.registered_sessions.dom().contains(n));
    }
    assert forall|k: u64| post@.socket_to_session.dom().contains(k) implies {
        &&& post@.registered_sessions.dom().contains(post@.socket_to_session[k].nonce)
        &&& post@.registered_sessions[post@.socket_to_session[k].nonce].session
            == post@.socket_to_session[k]
        &&& post@.registered_sessions[post@.socket_to_session[k].nonce].registered_for.key_spec()
            == k
    } by {
        assert(pre@.socket_to_session.dom().contains(k));
        assert(pre@.registered_sessions.dom().contains(pre@.socket_to_session[k].nonce));
    }
}

/// Transfers the token-side invariants (except the pending-parse one) when
/// the two connection tables kept their domains and nothing else changed.
proof fn lemma_invs_preserved_same_doms(pre: Manager, post: Manager)
    requires
        pre.inv_lengths(),
        pre.inv_partition(),
        pre.inv_token_conservation(),
        pre.inv_unprocessed_tokens(),
        pre.inv_timer_bijection(),
        post@.tokens_used == pre@.tokens_used,
        post@.timers_used == pre@.timers_used,
        post@.connections.dom() == pre@.connections.dom(),
        post@.unprocessed_connections.dom() == pre@.unprocessed_connections.dom(),
        post@.unprocessed_tokens == pre@.unprocessed_tokens,
        post@.stream_to_timer == pre@.stream_to_timer,
        post@.timer_to_stream == pre@.timer_to_stream,
    ensures
        post.inv_lengths(),
        post.inv_partition(),
        post.inv_token_conservation(),
        post.inv_unprocessed_tokens(),
        post.inv_timer_bijection(),
{
    assert forall|t: StreamToken| post@.stream_allocated(t) <==> post@.live(t) by {
        assert(pre@.stream_allocated(t) <==> pre@.live(t));
    }
    assert forall|t: StreamToken|
        !(post@.connections.dom().contains(t) && post@.unprocessed_connections.dom().contains(
            t,
        )) by {
        assert(!(pre@.connections.dom().contains(t) && pre@.unprocessed_connections.dom().contains(
            t,
        )));
    }
    assert forall|t: StreamToken|
        post@.unprocessed_tokens.contains(t) <==> post@.unprocessed_connections.dom().contains(
            t,
        ) by {
        assert(pre@.unprocessed_tokens.contains(t) <==> pre@.unprocessed_connections.dom().contains(
            t,
        ));
    }
    assert forall|s: StreamToken, tm: TimerToken|
        post@.stream_to_timer.contains_pair(s, tm) <==> post@.timer_to_stream.contains_pair(
            tm,
            s,
        ) by {
        assert(pre@.stream_to_timer.contains_pair(s, tm) <==> pre@.timer_to_stream.contains_pair(
            tm,
            s,
        ));
    }
    assert forall|s: StreamToken|
        post@.stream_to_timer.dom().contains(s) <==> post@.unprocessed_connections.dom().contains(
            s,
        ) by {
        assert(pre@.stream_to_timer.dom().contains(s) <==> pre@.unprocessed_connections.dom(
        ).contains(s));
    }
    assert forall|tm: TimerToken|
        post@.timer_allocated(tm) <==> post@.timer_to_stream.dom().contains(tm) by {
        assert(pre@.timer_allocated(tm) <==> pre@.timer_to_stream.dom().contains(tm));
    }
}

/// Token conservation: the allocated stream tokens are exactly as many as
/// the established plus pending connections.
pub proof fn lemma_token_conservation(m: Manager)
    requires
        m.wf(),
    ensures
        m@.streams_outstanding() == m@.connections.len() + m@.unprocessed_connections.len(),
{
}

/// Capacity bounds: never more than `MAX_CONNECTIONS` stream tokens nor
/// `MAX_SYNC_WAITS` timer tokens outstanding.
pub proof fn lemma_capacity_bounds(m: Manager)
    requires
        m.wf(),
    ensures
        m@.streams_outstanding() <= MAX_CONNECTIONS,
        m@.timers_outstanding() <= MAX_SYNC_WAITS,
{
    lemma_count_used_le_len(m@.tokens_used);
    lemma_count_used_le_len(m@.timers_used);
}

/// Timer/stream bijection: the two timer maps are exact inverses and their
/// stream-side domain is exactly the pending-connection set.
pub proof fn lemma_timer_stream_bijection(m: Manager)
    requires
        m.wf(),
    ensures
        forall|s: StreamToken, tm: TimerToken|
            m@.stream_to_timer.contains_pair(s, tm) <==> m@.timer_to_stream.contains_pair(tm, s),
        forall|s: StreamToken|
            m@.stream_to_timer.dom().contains(s) <==> m@.unprocessed_connections.dom().contains(s),
        forall|s: StreamToken|
            m@.unprocessed_tokens.contains(s) <==> m@.unprocessed_connections.dom().contains(s),
{
}

/// Session single use: once a nonce is no longer registered, no entry of the
/// address index can reach a session with that nonce, so the session cannot
/// be consumed a second time.
pub proof fn lemma_session_single_use(m: Manager, nonce: Nonce)
    requires
        m.wf(),
        !m@.registered_sessions.dom().contains(nonce),
    ensures
        forall|k: u64|
            m@.socket_to_session.dom().contains(k) ==> m@.socket_to_session[k].nonce != nonce,
{
}

} // verus!
