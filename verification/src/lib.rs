//! A peer-to-peer node core: the wire format, the per-connection state
//! machine and the bookkeeping of the reactor that drives many peers.

pub mod messages;
pub mod node;
pub mod server;
