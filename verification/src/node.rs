//! One peer: a connection with its buffer, its handshake and its liveness.
//!
//! A peer never touches its socket. Bytes that were read are handed to it,
//! and what it wants written waits in a queue until the owner of the socket
//! takes it out.

use vstd::prelude::*;
use vstd::slice::{slice_subrange, slice_to_vec};
use vstd::utf8::is_ascii_chars;
use crate::messages::address::{Address, AddressView, IpAddress};
use crate::messages::header::{Header, HEADER_SIZE};
use crate::messages::states::{
    CurrentAction, PayloadKind, PingState, PingType, WhoamiSate, LAST_SEEN_THRESHOLD, MAGIC,
    PING_CALLBACK, PING_MSG, PONG_MSG, SERVICES, VERSION, WHOAMIACK_MSG, WHOAMI_MSG,
};
use crate::messages::text::same_text;
use crate::messages::var_str::VarStrView;
use crate::messages::whoami::{services_size, texts_of, Whoami};
use crate::messages::ByteSize;
use self::model::{advertised, local_whoami, whoami_frame, NodeView};

pub mod laws;
pub mod model;

verus! {

/// A remote node connected to this one.
///
/// The fields say how far the connection has come and what has been learned
/// of the remote node; the methods are the protocol.
#[derive(Debug)]
pub struct Node {
    pub buffer: Vec<u8>,
    /// True if the remote node opened the connection, false if this one did.
    pub is_ingoing: bool,
    /// True if the handshake is complete and the pings are answered.
    pub is_valid: bool,
    current_action: CurrentAction,
    /// (local, remote)
    whoami_state: (WhoamiSate, WhoamiSate),
    /// Given by the whoami message.
    pub address: Option<Address>,
    services: Vec<String>,
    last_ping_sent: u8,
    last_ping_recv: u8,
    last_seen: u32,
    ping_state: PingState,
    local: Address,
    outgoing: Vec<u8>,
    closed: bool,
}

impl View for Node {
    type V = NodeView;

    closed spec fn view(&self) -> NodeView {
        NodeView {
            buffer: self.buffer@,
            is_ingoing: self.is_ingoing,
            is_valid: self.is_valid,
            current_action: self.current_action,
            whoami_state: self.whoami_state,
            address: match self.address {
                Some(address) => Some(address@),
                None => None,
            },
            services: texts_of(self.services@),
            last_ping_sent: self.last_ping_sent,
            last_ping_recv: self.last_ping_recv,
            last_seen: self.last_seen,
            ping_state: self.ping_state,
            local: self.local@,
            outgoing: self.outgoing@,
            closed: self.closed,
        }
    }
}

/// A message type that a header takes and gives back: ASCII, at most
/// twelve characters, no zero character at the end.
pub open spec fn frame_type_ok(msg_type: Seq<char>) -> bool {
    &&& is_ascii_chars(msg_type)
    &&& msg_type.len() <= 12
    &&& (msg_type.len() == 0 || msg_type.last() != '\0')
}

/// The message types are ASCII and fit the header's field.
pub proof fn lemma_message_types()
    ensures
        frame_type_ok(PING_MSG@),
        frame_type_ok(PONG_MSG@),
        frame_type_ok(WHOAMI_MSG@),
        frame_type_ok(WHOAMIACK_MSG@),
        advertised().len() == 1,
        is_ascii_chars(advertised()[0]),
        advertised()[0].len() == 4,
{
    reveal_strlit("2plus2is4");
    reveal_strlit("minus1thats3");
    reveal_strlit("whoami");
    reveal_strlit("whoamiack");
    reveal_strlit("node");
}

/// What a node says of itself is well formed and takes 36 bytes.
pub proof fn lemma_local_whoami(local: AddressView)
    requires
        local.wf(),
    ensures
        local_whoami(local).wf(),
        local_whoami(local).spec_byte_size() == 36,
{
    let whoami = local_whoami(local);
    lemma_message_types();
    crate::messages::text::lemma_ascii_bytes_of_text(advertised()[0]);
    reveal_with_fuel(services_size, 2);
    assert(whoami.services[0] == VarStrView::of_text(advertised()[0]));
    assert(whoami.services.drop_first() =~= Seq::<VarStrView>::empty());
}

impl Node {
    /// A peer for a connection that was just made. `local_ip` and
    /// `local_port` are the address of this end of the connection.
    pub fn new(local_ip: IpAddress, local_port: u16, is_ingoing: bool) -> (node: Self)
        ensures
            node@ == NodeView::initial(Address::spec_new(0, local_ip, local_port), is_ingoing),
    {
        let node = Node {
            buffer: Vec::new(),
            is_ingoing,
            is_valid: false,
            current_action: CurrentAction::WaitingHeader,
            whoami_state: (WhoamiSate::Unkn, WhoamiSate::Unkn),
            address: None,
            services: Vec::new(),
            last_ping_sent: PING_CALLBACK,
            last_ping_recv: PING_CALLBACK,
            last_seen: 0,
            ping_state: PingState::Ack,
            local: Address::new(0, local_ip, local_port),
            outgoing: Vec::new(),
            closed: false,
        };
        assert(node@.services =~= Seq::<Seq<char>>::empty());
        node
    }

    /// Works through the buffer: takes one message after the other off its
    /// front and acts on each, until the buffer is too short for what the
    /// peer waits for, or a fatal error ends the peer.
    pub fn handle_buffer(&mut self)
        ensures
            final(self)@ == old(self)@.handle_buffer(),
    {
        if self.closed {
            return ;
        }
        // We got a message from the node.
        self.last_seen = 0;
        let ghost start = self@;
        loop
            invariant
                self@.run() == start.run(),
            ensures
                self@ == start.run(),
            decreases self@.measure(),
        {
            if self.closed {
                break ;
            }
            let stop = match self.current_action {
                CurrentAction::WaitingHeader => self.do_header(),
                CurrentAction::WaitingPayload(length, kind) => self.do_payload(length, kind),
            };
            if stop {
                break ;
            }
        }
    }

    /// Takes `data` into the buffer and works through it.
    pub fn receive(&mut self, data: &[u8])
        ensures
            final(self)@ == old(self)@.receive(data@),
    {
        self.buffer.extend_from_slice(data);
        assert(self@ == old(self)@.append(data@));
        self.handle_buffer();
    }

    /// Sends a ping if one is due, sends the whoami if this node opened the
    /// connection and has not introduced itself, and judges the peer.
    pub fn routine(&mut self)
        ensures
            final(self)@ == old(self)@.routine(),
    {
        if self.closed {
            return ;
        }
        if self.last_ping_sent == 0 {
            self.send_ping(PingType::Ping);
            self.last_ping_sent = PING_CALLBACK;
            self.ping_state = PingState::Sent;
        }
        if !self.is_ingoing && self.whoami_state.0 == WhoamiSate::Unkn {
            self.send_whoami();
        }
        self.is_valid = self.whoami_state.0 == WhoamiSate::Ack && self.whoami_state.1
            == WhoamiSate::Ack;
        if self.last_seen > LAST_SEEN_THRESHOLD {
            // Above this threshold the node shows no sign of life: it is
            // dead if it also left our ping unanswered.
            if self.ping_state == PingState::Sent {
                self.is_valid = false;
            }
        }
    }

    /// Parses the header at the front of the buffer, if one is there, and
    /// acts on it. Returns true if the peer has to wait for more bytes.
    fn do_header(&mut self) -> (stop: bool)
        requires
            !old(self)@.closed,
            old(self)@.current_action == CurrentAction::WaitingHeader,
        ensures
            match old(self)@.step() {
                None => stop && final(self)@ == old(self)@,
                Some(next) => !stop && final(self)@ == next,
            },
    {
        if self.buffer.len() < HEADER_SIZE {
            return true;
        }
        match Header::read_buffer(&mut self.buffer) {
            Err(_) => {
                self.closed = true;
            },
            Ok((header, buffer)) => {
                self.buffer = buffer;
                if header.magic() != MAGIC {
                    self.closed = true;
                } else {
                    let msg = header.msg().as_str();
                    if same_text(msg, PING_MSG) {
                        self.send_ping(PingType::Pong);
                    } else if same_text(msg, PONG_MSG) {
                        self.ping_state = PingState::Ack;
                    } else if same_text(msg, WHOAMI_MSG) {
                        self.current_action = CurrentAction::WaitingPayload(
                            header.length(),
                            PayloadKind::Whoami,
                        );
                    } else if same_text(msg, WHOAMIACK_MSG) {
                        self.whoami_state.0 = WhoamiSate::Ack;
                    } else {
                        self.current_action = CurrentAction::WaitingPayload(
                            header.length(),
                            PayloadKind::Skip,
                        );
                    }
                }
            },
        }
        false
    }

    /// Takes the payload off the front of the buffer, if all of it is there,
    /// and acts on it. Returns true if the peer has to wait for more bytes.
    fn do_payload(&mut self, length: u64, kind: PayloadKind) -> (stop: bool)
        requires
            !old(self)@.closed,
            old(self)@.current_action == CurrentAction::WaitingPayload(length, kind),
        ensures
            match old(self)@.step() {
                None => stop && final(self)@ == old(self)@,
                Some(next) => !stop && final(self)@ == next,
            },
    {
        let len: usize = self.buffer.len();
        if (len as u64) < length {
            return true;
        }
        let length: usize = length as usize;
        let whoami = match kind {
            PayloadKind::Whoami => Some(
                Whoami::try_from(slice_subrange(self.buffer.as_slice(), 0, length)),
            ),
            PayloadKind::Skip => None,
        };
        self.buffer = slice_to_vec(slice_subrange(self.buffer.as_slice(), length, len));
        self.current_action = CurrentAction::WaitingHeader;
        match whoami {
            Some(Ok(whoami)) => self.do_whoami(whoami),
            Some(Err(_)) => {
                self.closed = true;
            },
            None => {},
        }
        false
    }

    /// Acts on a whoami: acknowledges it, answers with this node's own if
    /// that has not gone out yet, and keeps what the remote node reported.
    fn do_whoami(&mut self, whoami: Whoami)
        ensures
            final(self)@ == old(self)@.on_whoami(whoami@),
    {
        self.send_whoamiack();
        if self.whoami_state.0 == WhoamiSate::Unkn {
            self.send_whoami();
        }
        self.address = Some(whoami.from());
        self.services = whoami.services();
    }

    /// Queues the whoami message and sets the local state to `Sent`.
    fn send_whoami(&mut self)
        ensures
            final(self)@ == old(self)@.send_whoami(),
    {
        let mut services: Vec<String> = Vec::new();
        let mut i: usize = 0;
        while i < SERVICES.len()
            invariant
                i <= SERVICES@.len(),
                services@.len() == i,
                forall|j: int| 0 <= j < i ==> (#[trigger] services@[j])@ == SERVICES@[j]@,
            decreases SERVICES@.len() - i,
        {
            services.push(SERVICES[i].to_owned());
            i = i + 1;
        }
        let whoami = Whoami::new(VERSION, self.local, services);
        proof {
            self.local.lemma_wf();
            lemma_local_whoami(self.local@);
            lemma_message_types();
            assert(texts_of(services@) =~= advertised());
        }
        let header = Header::new(MAGIC, WHOAMI_MSG, whoami.byte_size() as u64).unwrap();
        let mut header: Vec<u8> = Vec::<u8>::from(header);
        self.outgoing.append(&mut header);
        let mut whoami: Vec<u8> = Vec::<u8>::from(whoami);
        self.outgoing.append(&mut whoami);
        self.whoami_state.0 = WhoamiSate::Sent;
        assert(self@.outgoing =~= old(self)@.outgoing + whoami_frame(old(self)@.local));
    }

    /// Queues the whoamiack message and sets the remote state to `Ack`.
    fn send_whoamiack(&mut self)
        ensures
            final(self)@ == old(self)@.send_whoamiack(),
    {
        proof {
            lemma_message_types();
        }
        let header = Header::new(MAGIC, WHOAMIACK_MSG, 0).unwrap();
        let mut header: Vec<u8> = Vec::<u8>::from(header);
        self.outgoing.append(&mut header);
        self.whoami_state.1 = WhoamiSate::Ack;
    }

    /// Queues a ping or a pong.
    fn send_ping(&mut self, ping: PingType)
        ensures
            final(self)@ == old(self)@.send_ping(ping),
    {
        proof {
            lemma_message_types();
        }
        let msg_type = if ping == PingType::Ping {
            PING_MSG
        } else {
            PONG_MSG
        };
        let header = Header::new(MAGIC, msg_type, 0).unwrap();
        let mut header: Vec<u8> = Vec::<u8>::from(header);
        self.outgoing.append(&mut header);
    }

    /// Whether a fatal error has ended the peer.
    pub fn is_closed(&self) -> (closed: bool)
        ensures
            closed == self@.closed,
    {
        self.closed
    }

    /// Hands over the bytes that wait to be written to the connection.
    pub fn take_outgoing(&mut self) -> (bytes: Vec<u8>)
        ensures
            bytes@ == old(self)@.outgoing,
            final(self)@ == old(self)@.flushed(),
    {
        let mut bytes: Vec<u8> = Vec::new();
        bytes.append(&mut self.outgoing);
        bytes
    }

    /// What the peer needs next from its buffer.
    pub fn current_action(&self) -> (action: CurrentAction)
        ensures
            action == self@.current_action,
    {
        self.current_action
    }

    /// How far the whoami exchange is: for the local node, for the remote
    /// node.
    pub fn whoami_state(&self) -> (state: (WhoamiSate, WhoamiSate))
        ensures
            state == self@.whoami_state,
    {
        self.whoami_state
    }

    /// Whether the last ping was answered.
    pub fn ping_state(&self) -> (state: PingState)
        ensures
            state == self@.ping_state,
    {
        self.ping_state
    }

    /// The seconds since bytes last came in.
    pub fn last_seen(&self) -> (seconds: u32)
        ensures
            seconds == self@.last_seen,
    {
        self.last_seen
    }

    /// The seconds left until the next ping is due.
    pub fn last_ping_sent(&self) -> (seconds: u8)
        ensures
            seconds == self@.last_ping_sent,
    {
        self.last_ping_sent
    }

    /// The services that the remote node offers.
    pub fn services(&self) -> (services: &Vec<String>)
        ensures
            texts_of(services@) == self@.services,
    {
        &self.services
    }

    /// Lets `delta` seconds pass.
    pub fn delta_time(&mut self, delta: u8)
        ensures
            final(self)@ == old(self)@.delta_time(delta),
    {
        self.last_ping_recv = if delta < self.last_ping_recv {
            self.last_ping_recv - delta
        } else {
            0
        };
        self.last_ping_sent = if delta < self.last_ping_sent {
            self.last_ping_sent - delta
        } else {
            0
        };
        self.last_seen = self.last_seen.saturating_add(delta as u32);
    }
}

} // verus!
