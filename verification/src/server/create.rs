//! The table of peers and the events that change it.

use std::collections::HashMap;
use vstd::prelude::*;
use vstd::std_specs::iter::IteratorSpec;
use crate::messages::address::{Address, IpAddress};
use crate::node::model::NodeView;
use crate::node::Node;
use super::logic::{handle_incoming_messages, spec_handle_incoming_messages, Inbox, InboxView};

verus! {

/// The seconds that one tick of the reactor lasts: the timeout of its poll.
pub const WAITING_TIME: u8 = 5;

/// The token of the listener. No peer ever gets it.
pub const SERVER_TOKEN: usize = 0;

/// Whom an event is for.
#[derive(Debug, Clone, Copy, PartialEq, Eq, Structural)]
pub enum Target {
    /// The listener: connections wait to be accepted.
    Listener,
    /// A peer in the table.
    Peer,
    /// Nobody. Such events happen, and are ignored.
    Unknown,
}

/// What the server made of a readable peer.
#[derive(Debug)]
pub struct Handled {
    /// The bytes to write to the peer's connection.
    pub outgoing: Vec<u8>,
    /// Whether the peer has left the table, and its connection is to be
    /// dropped.
    pub done: bool,
}

/// The server's table: each connected node under its token.
pub struct Server {
    connections: HashMap<usize, Node>,
    server_token: usize,
    unique_token: usize,
}

/// What a `Server` holds.
#[verifier::ext_equal]
pub struct ServerView {
    /// The peers by their tokens.
    pub connections: Map<usize, NodeView>,
    /// The token of the listener.
    pub server_token: usize,
    /// The token that the next peer will get.
    pub unique_token: usize,
}

impl ServerView {
    /// A server without peers.
    pub open spec fn initial() -> ServerView {
        ServerView { connections: Map::empty(), server_token: SERVER_TOKEN, unique_token: 1 }
    }

    /// Tokens are handed out in increasing order and none is the listener's:
    /// every peer's token lies between the listener's and the next one.
    pub open spec fn wf(self) -> bool {
        &&& self.server_token == SERVER_TOKEN
        &&& self.server_token < self.unique_token
        &&& forall|token: usize| #[trigger]
            self.connections.contains_key(token) ==> self.server_token < token
                < self.unique_token
    }

    /// Whom an event with `token` is for.
    pub open spec fn target(self, token: usize) -> Target {
        if token == self.server_token {
            Target::Listener
        } else if self.connections.contains_key(token) {
            Target::Peer
        } else {
            Target::Unknown
        }
    }

    /// The server after a new peer has joined under the next token.
    pub open spec fn register_node(self, node: NodeView) -> ServerView {
        ServerView {
            connections: self.connections.insert(self.unique_token, node),
            unique_token: (self.unique_token + 1) as usize,
            ..self
        }
    }

    /// The server without the peer under `token`.
    pub open spec fn remove(self, token: usize) -> ServerView {
        ServerView { connections: self.connections.remove(token), ..self }
    }

    /// The peer under `token` after the read path has served it, and whether
    /// it is done with. A read that failed for good makes an end of the peer,
    /// too.
    pub open spec fn served(self, token: usize, inbox: InboxView) -> (NodeView, bool) {
        let (node, result) = spec_handle_incoming_messages(self.connections[token], inbox);
        (
            node,
            match result {
                Ok(done) => done,
                Err(_) => true,
            },
        )
    }

    /// The server after the socket under `token` was readable and `inbox`
    /// was read from it. An event for a token without a peer changes
    /// nothing. Otherwise the peer is served; if it is done with, it leaves
    /// the table, and if not, it stays, with nothing left to write.
    pub open spec fn handle_event(self, token: usize, inbox: InboxView) -> ServerView {
        if !self.connections.contains_key(token) {
            self
        } else if self.served(token, inbox).1 {
            self.remove(token)
        } else {
            ServerView {
                connections: self.connections.insert(
                    token,
                    self.served(token, inbox).0.flushed(),
                ),
                ..self
            }
        }
    }

    /// What the event leaves to be written to the connection under `token`.
    pub open spec fn outgoing_of_event(self, token: usize, inbox: InboxView) -> Seq<u8> {
        if self.connections.contains_key(token) {
            self.served(token, inbox).0.outgoing
        } else {
            Seq::empty()
        }
    }

    /// The server after the peer under `token` has handed over what it wants
    /// written.
    pub open spec fn flush(self, token: usize) -> ServerView {
        if self.connections.contains_key(token) {
            ServerView {
                connections: self.connections.insert(token, self.connections[token].flushed()),
                ..self
            }
        } else {
            self
        }
    }

    /// The server after a tick: every peer has aged by `WAITING_TIME`
    /// seconds and has gone through its routine.
    pub open spec fn tick(self) -> ServerView {
        ServerView {
            connections: self.connections.map_values(
                |node: NodeView| node.delta_time(WAITING_TIME).routine(),
            ),
            ..self
        }
    }
}

impl View for Server {
    type V = ServerView;

    closed spec fn view(&self) -> ServerView {
        ServerView {
            connections: self.connections@.map_values(|node: Node| node@),
            server_token: self.server_token,
            unique_token: self.unique_token,
        }
    }
}

impl Server {
    /// A server without peers.
    pub fn new() -> (server: Self)
        ensures
            server@ == ServerView::initial(),
            server@.wf(),
    {
        // Token 0 is the listener's; the peers' tokens start behind it.
        let server_token: usize = SERVER_TOKEN;
        let unique_token: usize = server_token + 1;
        let server = Server {
            connections: HashMap::<usize, Node>::new(),
            server_token,
            unique_token,
        };
        assert(server@.connections =~= Map::<usize, NodeView>::empty());
        server
    }

    /// Whom an event with `token` is for.
    pub fn target(&self, token: usize) -> (target: Target)
        ensures
            target == self@.target(token),
    {
        if token == self.server_token {
            Target::Listener
        } else if self.connections.contains_key(&token) {
            Target::Peer
        } else {
            Target::Unknown
        }
    }

    /// The tokens of the peers, each once, in no particular order.
    fn tokens(&self) -> (tokens: Vec<usize>)
        ensures
            tokens@.no_duplicates(),
            tokens@.to_set() == self@.connections.dom(),
    {
        broadcast use vstd::std_specs::hash::group_hash_axioms;

        let ghost keys = vstd::std_specs::hash::spec_keys_iter(&self.connections).remaining().unref();
        let mut tokens: Vec<usize> = Vec::new();
        for token in iter: self.connections.keys()
            invariant
                iter.seq().unref() == keys,
                tokens@ == keys.take(iter.index()),
        {
            tokens.push(*token);
        }
        assert(tokens@ =~= keys);
        assert(self@.connections.dom() =~= self.connections@.dom());
        tokens
    }

    /// Hands out a token that no peer has had before, unless the tokens have
    /// run out.
    fn next_token(&mut self) -> (token: Option<usize>)
        requires
            old(self)@.wf(),
        ensures
            match token {
                Some(next) => {
                    &&& next == old(self)@.unique_token
                    &&& final(self)@.unique_token == next + 1
                },
                None => old(self)@.unique_token == usize::MAX && final(self)@ == old(self)@,
            },
            final(self)@.connections == old(self)@.connections,
            final(self)@.server_token == old(self)@.server_token,
            final(self)@.wf(),
    {
        let next: usize = self.unique_token;
        if next == usize::MAX {
            return None;
        }
        self.unique_token = next + 1;
        assert forall|token: usize| #[trigger]
            self@.connections.contains_key(token) implies self@.server_token < token
            < self@.unique_token by {
            assert(old(self)@.connections.contains_key(token));
        }
        Some(next)
    }

    /// Adds a peer for a connection that was just made, and returns the
    /// token under which the connection is to be registered for events. The
    /// token is new: strictly above every token handed out before. Nothing
    /// happens if the tokens have run out.
    pub fn register_node(&mut self, local_ip: IpAddress, local_port: u16, is_ingoing: bool) -> (token:
        Option<usize>)
        requires
            old(self)@.wf(),
        ensures
            match token {
                Some(token) => {
                    &&& token == old(self)@.unique_token
                    &&& !old(self)@.connections.contains_key(token)
                    &&& token != old(self)@.server_token
                    &&& final(self)@ == old(self)@.register_node(
                        NodeView::initial(Address::spec_new(0, local_ip, local_port), is_ingoing),
                    )
                },
                None => old(self)@.unique_token == usize::MAX && final(self)@ == old(self)@,
            },
            final(self)@.wf(),
    {
        let token = match self.next_token() {
            Some(token) => token,
            None => {
                return None;
            },
        };
        let node = Node::new(local_ip, local_port, is_ingoing);
        self.connections.insert(token, node);
        assert(self@.connections =~= old(self)@.connections.insert(token, node@));
        assert forall|other: usize| #[trigger]
            self@.connections.contains_key(other) implies self@.server_token < other
            < self@.unique_token by {
            if other != token {
                assert(old(self)@.connections.contains_key(other));
            }
        }
        Some(token)
    }
}

impl Server {
    /// How many peers there are.
    pub fn len(&self) -> (len: usize)
        ensures
            len == self@.connections.len(),
    {
        broadcast use vstd::std_specs::hash::group_hash_axioms;

        assert(self@.connections.dom() =~= self.connections@.dom());
        self.connections.len()
    }

    /// The peer under `token`, if there is one.
    pub fn peer(&self, token: usize) -> (peer: Option<&Node>)
        ensures
            match peer {
                Some(node) => self@.connections.contains_key(token) && node@
                    == self@.connections[token],
                None => !self@.connections.contains_key(token),
            },
    {
        broadcast use vstd::std_specs::hash::group_hash_axioms;

        self.connections.get(&token)
    }

    /// Drops the peer under `token`, if there is one, and tells whether there
    /// was.
    pub fn remove(&mut self, token: usize) -> (removed: bool)
        requires
            old(self)@.wf(),
        ensures
            removed == old(self)@.connections.contains_key(token),
            final(self)@ == old(self)@.remove(token),
            final(self)@.wf(),
    {
        broadcast use vstd::std_specs::hash::group_hash_axioms;

        let removed = self.connections.remove(&token).is_some();
        assert(self@.connections =~= old(self)@.connections.remove(token));
        assert forall|other: usize| #[trigger]
            self@.connections.contains_key(other) implies self@.server_token < other
            < self@.unique_token by {
            assert(old(self)@.connections.contains_key(other));
        }
        removed
    }

    /// Serves the peer whose socket was readable: hands it what was read,
    /// takes what it wants written, and drops it from the table if it is done
    /// with. An event for a token without a peer is ignored.
    pub fn handle_event(&mut self, token: usize, inbox: &Inbox) -> (handled: Handled)
        requires
            old(self)@.wf(),
        ensures
            final(self)@ == old(self)@.handle_event(token, inbox@),
            handled.outgoing@ == old(self)@.outgoing_of_event(token, inbox@),
            handled.done == (old(self)@.connections.contains_key(token) && old(self)@.served(
                token,
                inbox@,
            ).1),
            final(self)@.wf(),
    {
        broadcast use vstd::std_specs::hash::group_hash_axioms;

        let mut node = match self.connections.remove(&token) {
            Some(node) => node,
            None => {
                // Sporadic events happen, we can safely ignore them.
                assert(self@.connections =~= old(self)@.connections);
                return Handled { outgoing: Vec::new(), done: false };
            },
        };
        let done = match handle_incoming_messages(&mut node, inbox) {
            Ok(result) => result,
            // Close the connection.
            Err(_) => true,
        };
        let outgoing = node.take_outgoing();
        if !done {
            self.connections.insert(token, node);
        }
        assert(self@.connections =~= old(self)@.handle_event(token, inbox@).connections);
        assert forall|other: usize| #[trigger]
            self@.connections.contains_key(other) implies self@.server_token < other
            < self@.unique_token by {
            assert(old(self)@.connections.contains_key(other));
        }
        Handled { outgoing, done }
    }

    /// Takes what the peer under `token` wants written to its connection.
    pub fn take_outgoing(&mut self, token: usize) -> (outgoing: Vec<u8>)
        requires
            old(self)@.wf(),
        ensures
            final(self)@ == old(self)@.flush(token),
            outgoing@ == if old(self)@.connections.contains_key(token) {
                old(self)@.connections[token].outgoing
            } else {
                Seq::empty()
            },
            final(self)@.wf(),
    {
        broadcast use vstd::std_specs::hash::group_hash_axioms;

        let mut node = match self.connections.remove(&token) {
            Some(node) => node,
            None => {
                assert(self@.connections =~= old(self)@.connections);
                return Vec::new();
            },
        };
        let outgoing = node.take_outgoing();
        self.connections.insert(token, node);
        assert(self@.connections =~= old(self)@.flush(token).connections);
        assert forall|other: usize| #[trigger]
            self@.connections.contains_key(other) implies self@.server_token < other
            < self@.unique_token by {
            assert(old(self)@.connections.contains_key(other));
        }
        outgoing
    }

    /// One tick: every peer ages by `WAITING_TIME` seconds and goes through
    /// its routine.
    pub fn tick(&mut self)
        requires
            old(self)@.wf(),
        ensures
            final(self)@ == old(self)@.tick(),
            final(self)@.wf(),
    {
        broadcast use vstd::std_specs::hash::group_hash_axioms;

        let tokens = self.tokens();
        let ghost before = self@;
        let mut i: usize = 0;
        while i < tokens.len()
            invariant
                i <= tokens@.len(),
                tokens@.no_duplicates(),
                tokens@.to_set() == before.connections.dom(),
                self@.server_token == before.server_token,
                self@.unique_token == before.unique_token,
                self@.connections.dom() == before.connections.dom(),
                forall|j: int|
                    0 <= j < i ==> self@.connections[#[trigger] tokens@[j]]
                        == before.connections[tokens@[j]].delta_time(WAITING_TIME).routine(),
                forall|j: int|
                    i <= j < tokens@.len() ==> self@.connections[#[trigger] tokens@[j]]
                        == before.connections[tokens@[j]],
            decreases tokens@.len() - i,
        {
            let token: usize = tokens[i];
            let ghost earlier = self@;
            assert(tokens@.contains(tokens@[i as int]));
            assert(earlier.connections.dom().contains(token));
            match self.connections.remove(&token) {
                Some(mut node) => {
                    node.delta_time(WAITING_TIME);
                    node.routine();
                    self.connections.insert(token, node);
                    assert(self@.connections =~= earlier.connections.insert(
                        token,
                        earlier.connections[token].delta_time(WAITING_TIME).routine(),
                    ));
                },
                None => {},
            }
            i = i + 1;
        }
        assert(self@.connections =~= before.tick().connections) by {
            assert forall|token: usize| before.connections.contains_key(token) implies
                self@.connections[token] == before.connections[token].delta_time(
                WAITING_TIME,
            ).routine() by {
                assert(tokens@.to_set().contains(token));
                let j = choose|j: int| 0 <= j < tokens@.len() && tokens@[j] == token;
                assert(self@.connections[tokens@[j]] == before.connections[tokens@[j]].delta_time(
                    WAITING_TIME,
                ).routine());
            }
        }
        assert forall|other: usize| #[trigger]
            self@.connections.contains_key(other) implies self@.server_token < other
            < self@.unique_token by {
            assert(before.connections.contains_key(other));
        }
    }
}

} // verus!
