//! The states a connection moves through, and the constants of the protocol.

use vstd::prelude::*;

verus! {

/// How far one side of a connection is in the whoami exchange. A connection
/// keeps a pair of these: one for the local node, one for the remote node.
#[derive(Debug, Clone, Copy, PartialEq, Eq, Structural)]
pub enum WhoamiSate {
    /// The whoami exchange has not started.
    Unkn,
    /// The whoami message has been sent.
    Sent,
    /// The whoami message has been acknowledged.
    Ack,
}

/// Which payload a connection is waiting for.
#[derive(Debug, Clone, Copy, PartialEq, Eq, Structural)]
pub enum PayloadKind {
    /// The payload of a whoami message.
    Whoami,
    /// The payload of a message of an unknown type, to be dropped.
    Skip,
}

/// What a connection needs next from its buffer.
#[derive(Debug, Clone, Copy, PartialEq, Eq, Structural)]
pub enum CurrentAction {
    /// The default: the node is waiting for a new message.
    WaitingHeader,
    /// A header announced a payload of this many bytes.
    WaitingPayload(u64, PayloadKind),
}

/// The two keep-alive messages.
#[derive(Debug, Clone, Copy, PartialEq, Eq, Structural)]
pub enum PingType {
    Ping,
    Pong,
}

/// Whether the last ping was answered.
#[derive(Debug, Clone, Copy, PartialEq, Eq, Structural)]
pub enum PingState {
    /// A ping is out and no pong has come back yet.
    Sent,
    /// No ping is waiting for its pong.
    Ack,
}

pub const WHOAMI_MSG: &'static str = "whoami";

pub const WHOAMIACK_MSG: &'static str = "whoamiack";

pub const PING_MSG: &'static str = "2plus2is4";

pub const PONG_MSG: &'static str = "minus1thats3";

/// The version of the protocol that this node speaks.
pub const VERSION: u32 = 1;

/// The services that this node advertises.
pub const SERVICES: [&'static str; 1] = ["node"];

/// A ping is sent each `PING_CALLBACK` seconds.
pub const PING_CALLBACK: u8 = 42;

/// After this many seconds of silence a peer counts as inactive.
pub const LAST_SEEN_THRESHOLD: u32 = 300;

/// The magic number that starts every header.
pub const MAGIC: u32 = 422021;

} // verus!
