//! The peer as a mathematical state machine: what one message does to a
//! peer, and what a peer makes of a buffer.

use vstd::prelude::*;
use crate::messages::address::AddressView;
use crate::messages::header::{Header, HeaderView, HEADER_SIZE};
use crate::messages::states::{
    CurrentAction, PayloadKind, PingState, PingType, WhoamiSate, LAST_SEEN_THRESHOLD, MAGIC,
    PING_CALLBACK, PING_MSG, PONG_MSG, SERVICES, VERSION, WHOAMIACK_MSG, WHOAMI_MSG,
};
use crate::messages::whoami::{Whoami, WhoamiView};

verus! {

/// The header of a message of this protocol.
pub open spec fn frame_header(msg_type: Seq<char>, length: u64) -> HeaderView {
    HeaderView { magic: MAGIC, msg_type, length }
}

/// The ping or pong message as it goes on the wire.
pub open spec fn ping_frame(ping: PingType) -> Seq<u8> {
    match ping {
        PingType::Ping => frame_header(PING_MSG@, 0).spec_encode(),
        PingType::Pong => frame_header(PONG_MSG@, 0).spec_encode(),
    }
}

/// The whoamiack message as it goes on the wire.
pub open spec fn whoamiack_frame() -> Seq<u8> {
    frame_header(WHOAMIACK_MSG@, 0).spec_encode()
}

/// The names of the services that this node advertises.
pub open spec fn advertised() -> Seq<Seq<char>> {
    Seq::new(SERVICES@.len(), |i: int| SERVICES@[i]@)
}

/// What a node at `local` says of itself.
pub open spec fn local_whoami(local: AddressView) -> WhoamiView {
    WhoamiView::spec_new(VERSION, local, advertised())
}

/// The whoami message of a node at `local` as it goes on the wire.
pub open spec fn whoami_frame(local: AddressView) -> Seq<u8> {
    frame_header(WHOAMI_MSG@, local_whoami(local).spec_byte_size() as u64).spec_encode()
        + local_whoami(local).spec_encode()
}

/// What a peer holds.
#[verifier::ext_equal]
pub struct NodeView {
    /// The bytes received and not yet consumed.
    pub buffer: Seq<u8>,
    /// Whether the remote node opened the connection.
    pub is_ingoing: bool,
    /// Whether the handshake is complete and the peer alive.
    pub is_valid: bool,
    /// What the peer needs next from its buffer.
    pub current_action: CurrentAction,
    /// How far the whoami exchange is: for the local node, for the remote node.
    pub whoami_state: (WhoamiSate, WhoamiSate),
    /// The address that the remote node reported for itself.
    pub address: Option<AddressView>,
    /// The services that the remote node offers.
    pub services: Seq<Seq<char>>,
    /// The seconds left until the next ping is due.
    pub last_ping_sent: u8,
    /// A second countdown of the same length, kept beside the first.
    pub last_ping_recv: u8,
    /// The seconds since bytes last came in.
    pub last_seen: u32,
    /// Whether the last ping was answered.
    pub ping_state: PingState,
    /// The address of this end of the connection.
    pub local: AddressView,
    /// The bytes that wait to be written to the connection.
    pub outgoing: Seq<u8>,
    /// Whether a fatal error has ended the peer.
    pub closed: bool,
}

impl NodeView {
    /// The peer right after the connection was made.
    pub open spec fn initial(local: AddressView, is_ingoing: bool) -> NodeView {
        NodeView {
            buffer: Seq::empty(),
            is_ingoing,
            is_valid: false,
            current_action: CurrentAction::WaitingHeader,
            whoami_state: (WhoamiSate::Unkn, WhoamiSate::Unkn),
            address: None,
            services: Seq::empty(),
            last_ping_sent: PING_CALLBACK,
            last_ping_recv: PING_CALLBACK,
            last_seen: 0,
            ping_state: PingState::Ack,
            local,
            outgoing: Seq::empty(),
            closed: false,
        }
    }

    /// The peer with `bytes` behind what its buffer holds.
    pub open spec fn append(self, bytes: Seq<u8>) -> NodeView {
        NodeView { buffer: self.buffer + bytes, ..self }
    }

    /// The peer with another buffer.
    pub open spec fn with_buffer(self, buffer: Seq<u8>) -> NodeView {
        NodeView { buffer, ..self }
    }

    /// The peer after it has noted that bytes came in.
    pub open spec fn heard(self) -> NodeView {
        NodeView { last_seen: 0, ..self }
    }

    /// The peer ended by a fatal error.
    pub open spec fn close(self) -> NodeView {
        NodeView { closed: true, ..self }
    }

    /// The peer after it has queued a ping or a pong.
    pub open spec fn send_ping(self, ping: PingType) -> NodeView {
        NodeView { outgoing: self.outgoing + ping_frame(ping), ..self }
    }

    /// The peer after it has queued its whoami: the local side has sent.
    pub open spec fn send_whoami(self) -> NodeView {
        NodeView {
            outgoing: self.outgoing + whoami_frame(self.local),
            whoami_state: (WhoamiSate::Sent, self.whoami_state.1),
            ..self
        }
    }

    /// The peer after it has queued a whoamiack: the remote side is
    /// acknowledged.
    pub open spec fn send_whoamiack(self) -> NodeView {
        NodeView {
            outgoing: self.outgoing + whoamiack_frame(),
            whoami_state: (self.whoami_state.0, WhoamiSate::Ack),
            ..self
        }
    }

    /// What a header does to the peer, once it is off the buffer. A wrong
    /// magic number ends the peer. A ping is answered, a pong and a whoamiack
    /// are noted, and a whoami or a message of an unknown type leaves the peer
    /// waiting for the payload that the header announces.
    pub open spec fn on_header(self, header: HeaderView) -> NodeView {
        if header.magic != MAGIC {
            self.close()
        } else if header.msg_type == PING_MSG@ {
            self.send_ping(PingType::Pong)
        } else if header.msg_type == PONG_MSG@ {
            NodeView { ping_state: PingState::Ack, ..self }
        } else if header.msg_type == WHOAMI_MSG@ {
            NodeView {
                current_action: CurrentAction::WaitingPayload(header.length, PayloadKind::Whoami),
                ..self
            }
        } else if header.msg_type == WHOAMIACK_MSG@ {
            NodeView { whoami_state: (WhoamiSate::Ack, self.whoami_state.1), ..self }
        } else {
            NodeView {
                current_action: CurrentAction::WaitingPayload(header.length, PayloadKind::Skip),
                ..self
            }
        }
    }

    /// What a whoami does to the peer, once it is off the buffer: the peer
    /// acknowledges it, sends its own if it has not done so yet, and keeps
    /// what the remote node said of itself.
    pub open spec fn on_whoami(self, whoami: WhoamiView) -> NodeView {
        let acked = self.send_whoamiack();
        let replied = if acked.whoami_state.0 == WhoamiSate::Unkn {
            acked.send_whoami()
        } else {
            acked
        };
        NodeView { address: Some(whoami.from), services: whoami.names(), ..replied }
    }

    /// What a payload does to the peer, once it is off the buffer. A whoami
    /// that does not decode ends the peer.
    pub open spec fn on_payload(self, kind: PayloadKind, payload: Seq<u8>) -> NodeView {
        let waiting = NodeView { current_action: CurrentAction::WaitingHeader, ..self };
        match kind {
            PayloadKind::Skip => waiting,
            PayloadKind::Whoami => match Whoami::spec_decode(payload) {
                Err(_) => waiting.close(),
                Ok(whoami) => waiting.on_whoami(whoami),
            },
        }
    }

    /// How many bytes the peer needs at the front of its buffer to go on.
    pub open spec fn demand(self) -> nat {
        match self.current_action {
            CurrentAction::WaitingHeader => HEADER_SIZE as nat,
            CurrentAction::WaitingPayload(length, _) => length as nat,
        }
    }

    /// One step: the peer takes what it waits for off the front of its
    /// buffer and acts on it. There is no step for a peer that has ended, nor
    /// for one whose buffer is shorter than its demand.
    pub open spec fn step(self) -> Option<NodeView> {
        if self.closed || self.buffer.len() < self.demand() {
            None
        } else {
            let front = self.buffer.subrange(0, self.demand() as int);
            let rest = self.with_buffer(self.buffer.skip(self.demand() as int));
            match self.current_action {
                CurrentAction::WaitingHeader => match Header::spec_decode(front) {
                    Err(_) => Some(self.close()),
                    Ok(header) => Some(rest.on_header(header)),
                },
                CurrentAction::WaitingPayload(_, kind) => Some(rest.on_payload(kind, front)),
            }
        }
    }

    /// A bound on the steps that the peer can still take.
    pub open spec fn measure(self) -> nat {
        if self.closed {
            0
        } else {
            2 * self.buffer.len() + match self.current_action {
                CurrentAction::WaitingHeader => 0nat,
                CurrentAction::WaitingPayload(_, _) => 1nat,
            }
        }
    }

    /// The peer after it has taken every step that its buffer allows.
    pub open spec fn run(self) -> NodeView
        decreases self.measure(),
    {
        match self.step() {
            None => self,
            Some(next) => next.run(),
        }
    }

    /// The peer after it has worked through its buffer: it notes that bytes
    /// came in, then takes every step that the buffer allows. A peer that has
    /// ended does nothing.
    pub open spec fn handle_buffer(self) -> NodeView {
        if self.closed {
            self
        } else {
            self.heard().run()
        }
    }

    /// The peer after `bytes` have come in and it has worked through its
    /// buffer.
    pub open spec fn receive(self, bytes: Seq<u8>) -> NodeView {
        self.append(bytes).handle_buffer()
    }

    /// The peer after `delta` seconds: the ping countdowns run down to zero
    /// and no further, and the silence grows, up to the largest number.
    pub open spec fn delta_time(self, delta: u8) -> NodeView {
        NodeView {
            last_ping_recv: if delta < self.last_ping_recv {
                (self.last_ping_recv - delta) as u8
            } else {
                0
            },
            last_ping_sent: if delta < self.last_ping_sent {
                (self.last_ping_sent - delta) as u8
            } else {
                0
            },
            last_seen: if self.last_seen + delta <= u32::MAX {
                (self.last_seen + delta) as u32
            } else {
                u32::MAX
            },
            ..self
        }
    }

    /// The peer after its periodic routine: a ping goes out when the
    /// countdown has run down; a node that opened the connection and has not
    /// introduced itself sends its whoami; and the peer is valid when both
    /// sides are acknowledged, unless it has been silent for too long with a
    /// ping unanswered. A peer that has ended does nothing.
    pub open spec fn routine(self) -> NodeView {
        if self.closed {
            self
        } else {
            let pinged = if self.last_ping_sent == 0 {
                NodeView {
                    last_ping_sent: PING_CALLBACK,
                    ping_state: PingState::Sent,
                    ..self.send_ping(PingType::Ping)
                }
            } else {
                self
            };
            let greeted = if !pinged.is_ingoing && pinged.whoami_state.0 == WhoamiSate::Unkn {
                pinged.send_whoami()
            } else {
                pinged
            };
            let acknowledged = greeted.whoami_state.0 == WhoamiSate::Ack
                && greeted.whoami_state.1 == WhoamiSate::Ack;
            let dead = greeted.last_seen > LAST_SEEN_THRESHOLD && greeted.ping_state
                == PingState::Sent;
            NodeView { is_valid: acknowledged && !dead, ..greeted }
        }
    }

    /// The peer with nothing left to write.
    pub open spec fn flushed(self) -> NodeView {
        NodeView { outgoing: Seq::empty(), ..self }
    }
}

} // verus!
