//! What holds of every peer, however its bytes arrive.

use vstd::prelude::*;
use crate::messages::header::{lemma_header_round_trip, HeaderView, HEADER_SIZE};
use crate::messages::states::{
    CurrentAction, PingState, PingType, WhoamiSate, MAGIC, PING_MSG, PONG_MSG, WHOAMIACK_MSG,
    WHOAMI_MSG,
};
use crate::messages::address::AddressView;
use crate::messages::whoami::{lemma_whoami_round_trip, Whoami, WhoamiView};
use super::model::{frame_header, local_whoami, whoami_frame, whoamiack_frame, NodeView};

verus! {

/// A peer that has worked through its buffer can take no further step: it
/// has ended, or its buffer is shorter than what it waits for.
pub proof fn lemma_run_rests(node: NodeView)
    ensures
        node.run().step() is None,
        node.run().closed || node.run().buffer.len() < node.run().demand(),
    decreases node.measure(),
{
    if node.step() is Some {
        lemma_run_rests(node.step()->Some_0);
    }
}

/// A peer at rest stays as it is.
pub proof fn lemma_run_at_rest(node: NodeView)
    requires
        node.closed || node.buffer.len() < node.demand(),
    ensures
        node.run() == node,
{
}

/// Working through the buffer takes bytes off its front and nothing else:
/// what is left is the end of what was there.
pub proof fn lemma_run_leaves_suffix(node: NodeView)
    ensures
        node.run().buffer.len() <= node.buffer.len(),
        node.run().buffer == node.buffer.skip(node.buffer.len() - node.run().buffer.len()),
    decreases node.measure(),
{
    match node.step() {
        None => {
            assert(node.buffer.skip(0) =~= node.buffer);
        },
        Some(next) => {
            lemma_run_leaves_suffix(next);
            let taken = node.buffer.len() - next.buffer.len();
            let left = next.run().buffer.len();
            assert(next.buffer == node.buffer.skip(taken)) by {
                assert(node.buffer.skip(0) =~= node.buffer);
            }
            assert(node.buffer.skip(taken).skip(next.buffer.len() - left) =~= node.buffer.skip(
                node.buffer.len() - left,
            ));
        },
    }
}

/// Working through the buffer changes neither the clocks, nor the direction
/// of the connection, nor its verdict, nor the local address; it only adds to
/// what waits to be written; and a peer that has ended stays ended.
pub proof fn lemma_run_keeps(node: NodeView)
    ensures
        node.run().last_seen == node.last_seen,
        node.run().last_ping_sent == node.last_ping_sent,
        node.run().last_ping_recv == node.last_ping_recv,
        node.run().is_ingoing == node.is_ingoing,
        node.run().is_valid == node.is_valid,
        node.run().local == node.local,
        node.outgoing.is_prefix_of(node.run().outgoing),
        node.closed ==> node.run() == node,
    decreases node.measure(),
{
    match node.step() {
        None => {},
        Some(next) => {
            lemma_run_keeps(next);
        },
    }
}

/// A step does not look beyond the bytes it takes: with more bytes behind
/// the buffer the same step is taken, and the bytes are still behind.
pub proof fn lemma_step_append(node: NodeView, more: Seq<u8>)
    requires
        node.step() is Some,
    ensures
        node.append(more).step() == Some(node.step()->Some_0.append(more)),
{
    let longer = node.append(more);
    let demand = node.demand() as int;
    assert(longer.buffer.subrange(0, demand) =~= node.buffer.subrange(0, demand));
    assert(longer.buffer.skip(demand) =~= node.buffer.skip(demand) + more);
    assert(longer.step()->Some_0 =~= node.step()->Some_0.append(more));
}

/// Working through a longer buffer is working through the shorter one
/// first, and then through what is left with the rest behind it.
pub proof fn lemma_run_append(node: NodeView, more: Seq<u8>)
    ensures
        node.append(more).run() == node.run().append(more).run(),
    decreases node.measure(),
{
    match node.step() {
        None => {},
        Some(next) => {
            lemma_step_append(node, more);
            lemma_run_append(next, more);
        },
    }
}

/// Bytes that come in two deliveries leave the peer as the same bytes in one
/// delivery do.
pub proof fn lemma_receive_in_two(node: NodeView, first: Seq<u8>, second: Seq<u8>)
    ensures
        node.receive(first).receive(second) == node.receive(first + second),
{
    let once = node.receive(first + second);
    let twice = node.receive(first).receive(second);
    assert(node.append(first).append(second) =~= node.append(first + second));
    if node.closed {
    } else {
        let fresh = node.append(first).heard();
        let halfway = fresh.run();
        assert(fresh.append(second) =~= node.append(first + second).heard());
        lemma_run_append(fresh, second);
        lemma_run_keeps(fresh);
        if halfway.closed {
            lemma_run_at_rest(halfway.append(second));
        } else {
            assert(halfway.append(second).heard() =~= halfway.append(second));
        }
    }
}

/// The bytes of some deliveries, one after the other.
pub open spec fn join(chunks: Seq<Seq<u8>>) -> Seq<u8>
    decreases chunks.len(),
{
    if chunks.len() == 0 {
        Seq::empty()
    } else {
        join(chunks.drop_last()) + chunks.last()
    }
}

/// The bytes of a buffer as deliveries of one byte each.
pub open spec fn singles(bytes: Seq<u8>) -> Seq<Seq<u8>> {
    Seq::new(bytes.len(), |i: int| seq![bytes[i]])
}

impl NodeView {
    /// The peer after some deliveries, each worked through as it came.
    pub open spec fn receive_all(self, chunks: Seq<Seq<u8>>) -> NodeView
        decreases chunks.len(),
    {
        if chunks.len() == 0 {
            self
        } else {
            self.receive_all(chunks.drop_last()).receive(chunks.last())
        }
    }
}

/// However the bytes are cut into deliveries, the peer ends as if they had
/// come in one.
pub proof fn lemma_receive_in_chunks(node: NodeView, chunks: Seq<Seq<u8>>)
    requires
        chunks.len() > 0,
    ensures
        node.receive_all(chunks) == node.receive(join(chunks)),
    decreases chunks.len(),
{
    let before = chunks.drop_last();
    if before.len() == 0 {
        assert(join(before) =~= Seq::<u8>::empty());
        assert(join(chunks) =~= chunks.last());
        assert(node.receive_all(before) == node);
    } else {
        lemma_receive_in_chunks(node, before);
        lemma_receive_in_two(node, join(before), chunks.last());
    }
}

/// One byte at a time is one way to cut a buffer.
pub proof fn lemma_join_singles(bytes: Seq<u8>)
    ensures
        join(singles(bytes)) == bytes,
    decreases bytes.len(),
{
    if bytes.len() == 0 {
        assert(join(singles(bytes)) =~= bytes);
    } else {
        lemma_join_singles(bytes.drop_last());
        assert(singles(bytes).drop_last() =~= singles(bytes.drop_last()));
        assert(join(singles(bytes)) =~= bytes);
    }
}

/// Bytes fed one at a time leave the peer as the same bytes fed at once do.
pub proof fn lemma_receive_byte_by_byte(node: NodeView, bytes: Seq<u8>)
    requires
        bytes.len() > 0,
    ensures
        node.receive_all(singles(bytes)) == node.receive(bytes),
{
    lemma_join_singles(bytes);
    lemma_receive_in_chunks(node, singles(bytes));
}

/// A message: its type and its payload.
pub struct Frame {
    pub msg_type: Seq<char>,
    pub payload: Seq<u8>,
}

impl Frame {
    /// The header that goes before the payload.
    pub open spec fn header(self) -> HeaderView {
        frame_header(self.msg_type, self.payload.len() as u64)
    }

    /// The bytes on the wire.
    pub open spec fn spec_encode(self) -> Seq<u8> {
        self.header().spec_encode() + self.payload
    }

    /// A message as a node of this protocol sends it: the type fits the
    /// header and does not end in a zero character, the payload is short
    /// enough for its length to be written down, a ping, a pong and a
    /// whoamiack carry no payload, and the payload of a whoami decodes.
    pub open spec fn valid(self) -> bool {
        &&& self.header().wf()
        &&& (self.msg_type.len() == 0 || self.msg_type.last() != '\0')
        &&& self.payload.len() <= u64::MAX
        &&& (self.msg_type == PING_MSG@ || self.msg_type == PONG_MSG@ || self.msg_type
            == WHOAMIACK_MSG@ ==> self.payload.len() == 0)
        &&& (self.msg_type == WHOAMI_MSG@ ==> Whoami::spec_decode(self.payload) is Ok)
    }
}

/// The bytes of some messages, one after the other.
pub open spec fn encode_frames(frames: Seq<Frame>) -> Seq<u8>
    decreases frames.len(),
{
    if frames.len() == 0 {
        Seq::empty()
    } else {
        frames.first().spec_encode() + encode_frames(frames.drop_first())
    }
}

impl NodeView {
    /// What a whole message does to a peer that waits for a header: what its
    /// header does, and then what its payload does, if the header left the
    /// peer waiting for one. The buffer plays no part.
    pub open spec fn on_frame(self, frame: Frame) -> NodeView {
        let headed = self.on_header(frame.header());
        match headed.current_action {
            CurrentAction::WaitingHeader => headed,
            CurrentAction::WaitingPayload(_, kind) => headed.on_payload(kind, frame.payload),
        }
    }

    /// What some messages do to a peer, one after the other.
    pub open spec fn on_frames(self, frames: Seq<Frame>) -> NodeView
        decreases frames.len(),
    {
        if frames.len() == 0 {
            self
        } else {
            self.on_frame(frames.first()).on_frames(frames.drop_first())
        }
    }

    /// The peer is alive and waits for a header.
    pub open spec fn awaits_header(self) -> bool {
        !self.closed && self.current_action == CurrentAction::WaitingHeader
    }
}

/// The message of the given type with the given payload.
pub open spec fn message(msg_type: Seq<char>, payload: Seq<u8>) -> Frame {
    Frame { msg_type, payload }
}

/// No two of the four message types are the same.
pub proof fn lemma_message_types_differ()
    ensures
        PING_MSG@ != PONG_MSG@,
        PING_MSG@ != WHOAMI_MSG@,
        PING_MSG@ != WHOAMIACK_MSG@,
        PONG_MSG@ != WHOAMI_MSG@,
        PONG_MSG@ != WHOAMIACK_MSG@,
        WHOAMI_MSG@ != WHOAMIACK_MSG@,
{
    reveal_strlit("2plus2is4");
    reveal_strlit("minus1thats3");
    reveal_strlit("whoami");
    reveal_strlit("whoamiack");
    assert(PING_MSG@.len() == 9 && PONG_MSG@.len() == 12 && WHOAMI_MSG@.len() == 6
        && WHOAMIACK_MSG@.len() == 9);
    assert(WHOAMIACK_MSG@[0] != PING_MSG@[0]);
}

/// The four messages of the protocol are valid, and each does to a peer that
/// waits for a header what the protocol says: a ping is answered with a
/// pong, a pong settles the ping that is out, a whoamiack acknowledges the
/// local side, and a whoami is acknowledged, answered with the node's own if
/// that has not gone out yet, and remembered.
pub proof fn lemma_protocol_messages(node: NodeView, whoami: WhoamiView)
    requires
        node.awaits_header(),
        whoami.wf(),
        whoami.spec_byte_size() <= u64::MAX,
    ensures
        message(PING_MSG@, Seq::empty()).valid(),
        node.on_frame(message(PING_MSG@, Seq::empty())) == node.send_ping(PingType::Pong),
        message(PONG_MSG@, Seq::empty()).valid(),
        node.on_frame(message(PONG_MSG@, Seq::empty())).ping_state == PingState::Ack,
        node.on_frame(message(PONG_MSG@, Seq::empty())).outgoing == node.outgoing,
        message(WHOAMIACK_MSG@, Seq::empty()).valid(),
        node.on_frame(message(WHOAMIACK_MSG@, Seq::empty())).whoami_state == (
            WhoamiSate::Ack,
            node.whoami_state.1,
        ),
        node.on_frame(message(WHOAMIACK_MSG@, Seq::empty())).outgoing == node.outgoing,
        message(WHOAMI_MSG@, whoami.spec_encode()).valid(),
        node.on_frame(message(WHOAMI_MSG@, whoami.spec_encode())) == node.on_whoami(whoami),
{
    lemma_message_types_differ();
    crate::node::lemma_message_types();
    lemma_whoami_round_trip(whoami, Seq::empty());
    assert(whoami.spec_encode() + Seq::<u8>::empty() =~= whoami.spec_encode());
    assert(node.on_frame(message(WHOAMI_MSG@, whoami.spec_encode())) =~= node.on_whoami(whoami));
}

/// The whoami that a node sends is a valid message, so the node at the other
/// end acts on it.
pub proof fn lemma_whoami_frame_is_a_message(local: AddressView)
    requires
        local.wf(),
    ensures
        message(WHOAMI_MSG@, local_whoami(local).spec_encode()).valid(),
        whoami_frame(local) == message(WHOAMI_MSG@, local_whoami(local).spec_encode()).spec_encode(),
        local_whoami(local).wf(),
        local_whoami(local).spec_byte_size() == 36,
        local_whoami(local).from == local,
{
    crate::node::lemma_local_whoami(local);
    crate::node::lemma_message_types();
    lemma_message_types_differ();
    let payload = local_whoami(local).spec_encode();
    lemma_whoami_round_trip(local_whoami(local), Seq::empty());
    assert(payload + Seq::<u8>::empty() =~= payload);
    assert(payload.len() == 36);
    assert(Whoami::spec_decode(payload) is Ok);
}

/// A valid message leaves the peer alive and waiting for the next header.
pub proof fn lemma_on_frame_awaits_header(node: NodeView, frame: Frame)
    requires
        node.awaits_header(),
        frame.valid(),
    ensures
        node.on_frame(frame).awaits_header(),
        node.on_frame(frame).buffer == node.buffer,
        node.on_frame(frame).last_seen == node.last_seen,
{
}

/// A peer that waits for a header and finds a valid message at the front of
/// its buffer takes exactly that message off and acts on it; then it goes on
/// with what follows.
pub proof fn lemma_frame_consumed(node: NodeView, frame: Frame, rest: Seq<u8>)
    requires
        node.awaits_header(),
        frame.valid(),
        node.buffer == frame.spec_encode() + rest,
    ensures
        node.run() == node.with_buffer(rest).on_frame(frame).run(),
{
    let header = frame.header();
    lemma_header_round_trip(header);
    assert(node.buffer.subrange(0, HEADER_SIZE as int) =~= header.spec_encode());
    assert(node.buffer.skip(HEADER_SIZE as int) =~= frame.payload + rest);
    let headed = node.step()->Some_0;
    assert(headed =~= node.with_buffer(frame.payload + rest).on_header(header));
    match headed.current_action {
        CurrentAction::WaitingHeader => {
            assert(frame.payload.len() == 0);
            assert(frame.payload + rest =~= rest);
            assert(headed == node.with_buffer(rest).on_frame(frame));
            assert(node.run() == headed.run());
        },
        CurrentAction::WaitingPayload(length, kind) => {
            let size = frame.payload.len() as int;
            assert(headed.buffer.subrange(0, size) =~= frame.payload);
            assert(headed.buffer.skip(size) =~= rest);
            assert(headed.step()->Some_0 =~= node.with_buffer(rest).on_frame(frame));
        },
    }
}

/// What a message does to a peer does not depend on its buffer.
pub proof fn lemma_on_frame_ignores_buffer(node: NodeView, frame: Frame, buffer: Seq<u8>)
    ensures
        node.with_buffer(buffer).on_frame(frame) == node.on_frame(frame).with_buffer(buffer),
{
    assert(node.with_buffer(buffer).on_frame(frame) =~= node.on_frame(frame).with_buffer(buffer));
}

/// What messages do to a peer does not depend on its buffer.
pub proof fn lemma_on_frames_ignores_buffer(node: NodeView, frames: Seq<Frame>, buffer: Seq<u8>)
    ensures
        node.with_buffer(buffer).on_frames(frames) == node.on_frames(frames).with_buffer(buffer),
    decreases frames.len(),
{
    if frames.len() > 0 {
        lemma_on_frame_ignores_buffer(node, frames.first(), buffer);
        lemma_on_frames_ignores_buffer(node.on_frame(frames.first()), frames.drop_first(), buffer);
    }
}

/// A peer that waits for a header and finds valid messages at the front of
/// its buffer acts on them in their order, and goes on with what follows.
pub proof fn lemma_frames_consumed(node: NodeView, frames: Seq<Frame>, tail: Seq<u8>)
    requires
        node.awaits_header(),
        forall|i: int| 0 <= i < frames.len() ==> (#[trigger] frames[i]).valid(),
        node.buffer == encode_frames(frames) + tail,
    ensures
        node.run() == node.on_frames(frames).with_buffer(tail).run(),
        node.on_frames(frames).awaits_header(),
    decreases frames.len(),
{
    if frames.len() == 0 {
        assert(encode_frames(frames) + tail =~= tail);
    } else {
        let first = frames.first();
        let others = frames.drop_first();
        let rest = encode_frames(others) + tail;
        assert(first.valid());
        assert forall|i: int| 0 <= i < others.len() implies (#[trigger] others[i]).valid() by {
            assert(frames[i + 1].valid());
        }
        assert(encode_frames(frames) + tail =~= first.spec_encode() + rest);
        lemma_frame_consumed(node, first, rest);
        lemma_on_frame_ignores_buffer(node, first, rest);
        lemma_on_frame_awaits_header(node, first);
        let acted = node.on_frame(first);
        let next = acted.with_buffer(rest);
        lemma_frames_consumed(next, others, tail);
        lemma_on_frames_ignores_buffer(acted, others, rest);
    }
}

/// Framing progress. Let valid messages, with the beginning of one more
/// behind them, reach an idle peer in deliveries cut anywhere. Then the peer
/// has acted on every message, in their order, and has gone on with the
/// unfinished one; where that one is shorter than a header it makes no
/// progress on it and keeps it all in its buffer.
pub proof fn lemma_framing_progress(
    node: NodeView,
    frames: Seq<Frame>,
    tail: Seq<u8>,
    chunks: Seq<Seq<u8>>,
)
    requires
        node.awaits_header(),
        node.buffer.len() == 0,
        forall|i: int| 0 <= i < frames.len() ==> (#[trigger] frames[i]).valid(),
        chunks.len() > 0,
        join(chunks) == encode_frames(frames) + tail,
    ensures
        node.receive_all(chunks) == node.heard().on_frames(frames).with_buffer(tail).run(),
        tail.len() < HEADER_SIZE ==> node.receive_all(chunks) == node.heard().on_frames(
            frames,
        ).with_buffer(tail),
{
    let fresh = node.heard();
    let fed = fresh.with_buffer(join(chunks));
    lemma_receive_in_chunks(node, chunks);
    assert(node.buffer + join(chunks) =~= join(chunks));
    assert(node.append(join(chunks)).heard() =~= fed);
    lemma_frames_consumed(fed, frames, tail);
    lemma_on_frames_ignores_buffer(fresh, frames, join(chunks));
    let done = fresh.on_frames(frames);
    assert(fed.on_frames(frames).with_buffer(tail) =~= done.with_buffer(tail));
    if tail.len() < HEADER_SIZE {
        lemma_run_at_rest(done.with_buffer(tail));
    }
}

/// An idle peer that receives one valid message acts on it and is idle
/// again.
pub proof fn lemma_receive_frame(node: NodeView, frame: Frame)
    requires
        node.awaits_header(),
        node.buffer.len() == 0,
        frame.valid(),
    ensures
        node.receive(frame.spec_encode()) == node.heard().on_frame(frame),
{
    let frames = seq![frame];
    let nothing = Seq::<u8>::empty();
    let fed = node.append(frame.spec_encode()).heard();
    reveal_with_fuel(encode_frames, 2);
    reveal_with_fuel(NodeView::on_frames, 2);
    assert(frames.drop_first() =~= Seq::<Frame>::empty());
    assert(fed.buffer =~= encode_frames(frames) + nothing);
    lemma_frames_consumed(fed, frames, nothing);
    lemma_on_frame_ignores_buffer(node.heard(), frame, fed.buffer);
    lemma_on_frame_awaits_header(node.heard(), frame);
    lemma_run_at_rest(node.heard().on_frame(frame));
    assert(fed =~= node.heard().with_buffer(fed.buffer));
    assert(node.heard().on_frame(frame).with_buffer(fed.buffer).with_buffer(nothing)
        =~= node.heard().on_frame(frame));
}

/// An idle peer that receives two valid messages in one delivery acts on the
/// first, then on the second, and is idle again.
pub proof fn lemma_receive_two_frames(node: NodeView, first: Frame, second: Frame)
    requires
        node.awaits_header(),
        node.buffer.len() == 0,
        first.valid(),
        second.valid(),
    ensures
        node.receive(first.spec_encode() + second.spec_encode()) == node.heard().on_frame(
            first,
        ).on_frame(second),
{
    let after_first = node.receive(first.spec_encode());
    lemma_receive_in_two(node, first.spec_encode(), second.spec_encode());
    lemma_receive_frame(node, first);
    lemma_on_frame_awaits_header(node.heard(), first);
    lemma_receive_frame(after_first, second);
    assert(after_first.heard() =~= after_first);
}

/// The node that is called takes the whoami of the node that called: it
/// answers with a whoamiack and its own whoami.
proof fn lemma_handshake_answer(node: NodeView, near: AddressView)
    requires
        near.wf(),
        node.local.wf(),
        node.awaits_header(),
        node.buffer.len() == 0,
        node.outgoing.len() == 0,
        node.whoami_state == (WhoamiSate::Unkn, WhoamiSate::Unkn),
    ensures
        ({
            let answering = node.receive(whoami_frame(near));
            &&& answering.awaits_header()
            &&& answering.buffer.len() == 0
            &&& answering.last_seen == 0
            &&& answering.local == node.local
            &&& answering.outgoing == whoamiack_frame() + whoami_frame(node.local)
            &&& answering.whoami_state == (WhoamiSate::Sent, WhoamiSate::Ack)
            &&& answering.address == Some(near)
        }),
{
    lemma_whoami_frame_is_a_message(near);
    lemma_receive_frame(node, message(WHOAMI_MSG@, local_whoami(near).spec_encode()));
    lemma_protocol_messages(node.heard(), local_whoami(near));
    let answering = node.heard().on_whoami(local_whoami(near));
    assert(answering.outgoing =~= whoamiack_frame() + whoami_frame(node.local));
}

/// The node that called takes the whoamiack and the whoami of the node that
/// it called: both sides are acknowledged now, and it answers with a
/// whoamiack alone.
proof fn lemma_handshake_greeted(node: NodeView, far: AddressView)
    requires
        far.wf(),
        node.awaits_header(),
        node.buffer.len() == 0,
        node.outgoing.len() == 0,
        node.whoami_state == (WhoamiSate::Sent, WhoamiSate::Unkn),
    ensures
        ({
            let greeted = node.receive(whoamiack_frame() + whoami_frame(far));
            &&& greeted.awaits_header()
            &&& greeted.last_seen == 0
            &&& greeted.outgoing == whoamiack_frame()
            &&& greeted.whoami_state == (WhoamiSate::Ack, WhoamiSate::Ack)
            &&& greeted.address == Some(far)
        }),
{
    let ack = message(WHOAMIACK_MSG@, Seq::empty());
    let hello = message(WHOAMI_MSG@, local_whoami(far).spec_encode());
    lemma_whoami_frame_is_a_message(far);
    lemma_protocol_messages(node.heard(), local_whoami(far));
    lemma_on_frame_awaits_header(node.heard(), ack);
    lemma_protocol_messages(node.heard().on_frame(ack), local_whoami(far));
    lemma_receive_two_frames(node, ack, hello);
    assert(ack.spec_encode() =~= whoamiack_frame());
    let greeted = node.heard().on_frame(ack).on_whoami(local_whoami(far));
    assert(greeted.outgoing =~= whoamiack_frame());
}

/// The node that was called takes the whoamiack: both sides are
/// acknowledged now, and nothing is left to say.
proof fn lemma_handshake_answered(node: NodeView)
    requires
        node.local.wf(),
        node.awaits_header(),
        node.buffer.len() == 0,
        node.outgoing.len() == 0,
        node.whoami_state == (WhoamiSate::Sent, WhoamiSate::Ack),
    ensures
        ({
            let answered = node.receive(whoamiack_frame());
            &&& answered.awaits_header()
            &&& answered.last_seen == 0
            &&& answered.outgoing == Seq::<u8>::empty()
            &&& answered.whoami_state == (WhoamiSate::Ack, WhoamiSate::Ack)
            &&& answered.address == node.address
        }),
{
    let ack = message(WHOAMIACK_MSG@, Seq::empty());
    lemma_whoami_frame_is_a_message(node.local);
    lemma_protocol_messages(node.heard(), local_whoami(node.local));
    lemma_receive_frame(node, ack);
    assert(ack.spec_encode() =~= whoamiack_frame());
    assert(node.heard().on_frame(ack).outgoing =~= Seq::<u8>::empty());
}

/// The handshake. A node opens a connection to another and both go through
/// their routine and their buffers as the bytes travel. The first sends its
/// whoami unprompted; the second acknowledges it and answers with its own;
/// the first acknowledges that. Then each side is acknowledged on both sides
/// and has sent exactly one whoami, nothing is left to send, and the routine
/// finds both peers valid.
pub proof fn lemma_handshake(near: AddressView, far: AddressView)
    requires
        near.wf(),
        far.wf(),
    ensures
        ({
            let greeting = NodeView::initial(near, false).routine();
            let answering = NodeView::initial(far, true).routine().receive(greeting.outgoing);
            let greeted = greeting.flushed().receive(answering.outgoing);
            let answered = answering.flushed().receive(greeted.outgoing);
            &&& greeting.outgoing == whoami_frame(near)
            &&& answering.outgoing == whoamiack_frame() + whoami_frame(far)
            &&& greeted.outgoing == whoamiack_frame()
            &&& answered.outgoing == Seq::<u8>::empty()
            &&& greeted.whoami_state == (WhoamiSate::Ack, WhoamiSate::Ack)
            &&& answered.whoami_state == (WhoamiSate::Ack, WhoamiSate::Ack)
            &&& greeted.address == Some(far)
            &&& answered.address == Some(near)
            &&& greeted.routine().is_valid
            &&& answered.routine().is_valid
            &&& greeted.routine().outgoing == greeted.outgoing
            &&& answered.routine().outgoing == answered.outgoing
        }),
{
    // The node that opened the connection introduces itself.
    let greeting = NodeView::initial(near, false).routine();
    assert(greeting.outgoing =~= whoami_frame(near));

    // The other node acknowledges and answers.
    let waiting = NodeView::initial(far, true).routine();
    lemma_handshake_answer(waiting, near);
    let answering = waiting.receive(greeting.outgoing);
    lemma_run_keeps(waiting.append(greeting.outgoing).heard());

    // The first node takes the acknowledgement and the whoami.
    lemma_handshake_greeted(greeting.flushed(), far);
    let greeted = greeting.flushed().receive(answering.outgoing);
    lemma_run_keeps(greeting.flushed().append(answering.outgoing).heard());

    // The second node takes the acknowledgement.
    lemma_handshake_answered(answering.flushed());
    let answered = answering.flushed().receive(greeted.outgoing);
    lemma_run_keeps(answering.flushed().append(greeted.outgoing).heard());
}

/// Magic enforcement. A header with a wrong magic number at the front of
/// the buffer ends a peer that waits for a header, whatever follows it.
pub proof fn lemma_wrong_magic_ends_peer(node: NodeView, header: HeaderView, rest: Seq<u8>)
    requires
        node.awaits_header(),
        header.wf(),
        header.magic != MAGIC,
        node.buffer == header.spec_encode() + rest,
    ensures
        node.run().closed,
        node.handle_buffer().closed,
        node.run().outgoing == node.outgoing,
{
    lemma_header_round_trip(header);
    assert(node.buffer.subrange(0, HEADER_SIZE as int) =~= header.spec_encode());
    let ended = node.step()->Some_0;
    assert(ended.closed);
    lemma_run_at_rest(ended);
    let fresh = node.heard();
    assert(fresh.buffer.subrange(0, HEADER_SIZE as int) =~= header.spec_encode());
    assert(fresh.step()->Some_0.closed);
    lemma_run_at_rest(fresh.step()->Some_0);
}

} // verus!
