//! The read path: how much to read from a socket, when to stop, and what to
//! do with what was read.

use vstd::prelude::*;
use crate::node::Node;

verus! {

/// The size of the read buffer before any byte is read.
pub const INITIAL_READ_SIZE: usize = 4096;

/// By how much the read buffer grows each time it is full.
pub const READ_GROWTH: usize = 1024;

/// The kinds of I/O error that the read path tells apart.
#[derive(Debug, Clone, Copy, PartialEq, Eq, Structural)]
pub enum IoErrorKind {
    /// The socket has nothing more for now.
    WouldBlock,
    /// The call was interrupted before it read anything.
    Interrupted,
    /// Anything else.
    Other,
}

/// Whether the socket has nothing more for now.
pub fn would_block(err: &IoErrorKind) -> (yes: bool)
    ensures
        yes == (*err == IoErrorKind::WouldBlock),
{
    *err == IoErrorKind::WouldBlock
}

/// Whether the call was interrupted and should be made again.
pub fn interrupted(err: &IoErrorKind) -> (yes: bool)
    ensures
        yes == (*err == IoErrorKind::Interrupted),
{
    *err == IoErrorKind::Interrupted
}

/// The size of the read buffer once `bytes_read` bytes are in it: 4 KiB at
/// first, and 1 KiB more each time the buffer is full.
pub open spec fn buffer_size(bytes_read: nat) -> nat {
    if bytes_read < INITIAL_READ_SIZE {
        INITIAL_READ_SIZE as nat
    } else {
        (INITIAL_READ_SIZE + READ_GROWTH * ((bytes_read - INITIAL_READ_SIZE) / (
        READ_GROWTH as int) + 1)) as nat
    }
}

/// What has been read from a socket since it became readable.
#[derive(Debug)]
pub struct Inbox {
    received_data: Vec<u8>,
    connection_closed: bool,
    failed: bool,
    finished: bool,
}

/// What an `Inbox` holds.
#[verifier::ext_equal]
pub struct InboxView {
    /// The bytes read, in the order they came.
    pub received_data: Seq<u8>,
    /// Whether the other side has closed the connection.
    pub connection_closed: bool,
    /// Whether a read failed for good.
    pub failed: bool,
    /// Whether reading is over for now.
    pub finished: bool,
}

impl InboxView {
    /// Nothing read yet.
    pub open spec fn empty() -> InboxView {
        InboxView {
            received_data: Seq::empty(),
            connection_closed: false,
            failed: false,
            finished: false,
        }
    }

    /// How many bytes the next read may bring: the room left in the read
    /// buffer.
    pub open spec fn window(self) -> nat {
        (buffer_size(self.received_data.len()) - self.received_data.len()) as nat
    }

    /// The inbox after one more read. No bytes mean that the other side has
    /// closed the connection. A read that would block ends the reading, an
    /// interrupted one is made again, and any other error is fatal.
    pub open spec fn record(self, outcome: Result<Seq<u8>, IoErrorKind>) -> InboxView {
        match outcome {
            Ok(chunk) => if chunk.len() == 0 {
                InboxView { connection_closed: true, finished: true, ..self }
            } else {
                InboxView { received_data: self.received_data + chunk, ..self }
            },
            Err(IoErrorKind::WouldBlock) => InboxView { finished: true, ..self },
            Err(IoErrorKind::Interrupted) => self,
            Err(IoErrorKind::Other) => InboxView { failed: true, finished: true, ..self },
        }
    }
}

impl View for Inbox {
    type V = InboxView;

    closed spec fn view(&self) -> InboxView {
        InboxView {
            received_data: self.received_data@,
            connection_closed: self.connection_closed,
            failed: self.failed,
            finished: self.finished,
        }
    }
}

/// The read buffer always has room, never more than its first size.
pub proof fn lemma_window_bounds(inbox: InboxView)
    ensures
        0 < inbox.window() <= INITIAL_READ_SIZE,
        inbox.received_data.len() >= INITIAL_READ_SIZE ==> inbox.window() <= READ_GROWTH,
{
}

impl Inbox {
    /// An inbox for a socket that has just become readable.
    pub fn new() -> (inbox: Self)
        ensures
            inbox@ == InboxView::empty(),
    {
        Inbox {
            received_data: Vec::new(),
            connection_closed: false,
            failed: false,
            finished: false,
        }
    }

    /// How many bytes to ask of the next read.
    pub fn window(&self) -> (room: usize)
        ensures
            room == self@.window(),
            0 < room <= INITIAL_READ_SIZE,
    {
        let bytes_read: usize = self.received_data.len();
        if bytes_read < INITIAL_READ_SIZE {
            INITIAL_READ_SIZE - bytes_read
        } else {
            READ_GROWTH - (bytes_read - INITIAL_READ_SIZE) % READ_GROWTH
        }
    }

    /// Whether the socket is to be read again.
    pub fn wants_more(&self) -> (more: bool)
        ensures
            more == !self@.finished,
    {
        !self.finished
    }

    /// Takes in what one read came to: the bytes it brought, or the kind of
    /// its error.
    pub fn record(&mut self, outcome: Result<&[u8], IoErrorKind>)
        ensures
            final(self)@ == old(self)@.record(
                match outcome {
                    Ok(chunk) => Ok(chunk@),
                    Err(e) => Err(e),
                },
            ),
    {
        match outcome {
            Ok(chunk) => {
                if chunk.len() == 0 {
                    // Reading 0 bytes means the other side has closed the
                    // connection or is done writing, then so are we.
                    self.connection_closed = true;
                    self.finished = true;
                } else {
                    self.received_data.extend_from_slice(chunk);
                }
            },
            Err(err) => {
                if would_block(&err) {
                    // The connection is not ready for more: stop for now.
                    self.finished = true;
                } else if interrupted(&err) {
                    // Read again.
                } else {
                    // Other errors we consider fatal.
                    self.failed = true;
                    self.finished = true;
                }
            },
        }
    }
}

/// What the read path makes of an inbox: after a fatal read error nothing
/// reaches the peer; otherwise the peer gets the bytes, if there are any, and
/// works through them. The peer is done with if the connection was closed or
/// a fatal protocol error has ended it.
pub open spec fn spec_handle_incoming_messages(
    node: crate::node::model::NodeView,
    inbox: InboxView,
) -> (crate::node::model::NodeView, Result<bool, IoErrorKind>) {
    if inbox.failed {
        (node, Err(IoErrorKind::Other))
    } else {
        let served = if inbox.received_data.len() != 0 {
            node.receive(inbox.received_data)
        } else {
            node
        };
        (served, Ok(inbox.connection_closed || served.closed))
    }
}

/// Hands what was read to the peer, which works through its buffer, and
/// tells whether the peer is done with.
pub fn handle_incoming_messages(node: &mut Node, inbox: &Inbox) -> (done: Result<
    bool,
    IoErrorKind,
>)
    ensures
        (final(node)@, done) == spec_handle_incoming_messages(old(node)@, inbox@),
{
    if inbox.failed {
        return Err(IoErrorKind::Other);
    }
    if inbox.received_data.len() != 0 {
        node.receive(inbox.received_data.as_slice());
    }
    if inbox.connection_closed {
        return Ok(true);
    }
    Ok(node.is_closed())
}

} // verus!
