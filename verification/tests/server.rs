use peer_node::messages::address::IpAddress;
use peer_node::messages::header::Header;
use peer_node::messages::states::{WhoamiSate, MAGIC, PING_MSG, PONG_MSG, WHOAMI_MSG};
use peer_node::server::create::{Server, Target, SERVER_TOKEN, WAITING_TIME};
use peer_node::server::logic::{
    handle_incoming_messages, interrupted, would_block, Inbox, IoErrorKind, INITIAL_READ_SIZE,
    READ_GROWTH,
};
use peer_node::node::Node;

const LOCALHOST: IpAddress = IpAddress::V4([127, 0, 0, 1]);

fn frame(magic: u32, msg_type: &str) -> Vec<u8> {
    Vec::<u8>::from(Header::new(magic, msg_type, 0).unwrap())
}

fn inbox_of(chunks: &[&[u8]]) -> Inbox {
    let mut inbox = Inbox::new();
    for chunk in chunks {
        inbox.record(Ok(chunk));
    }
    inbox.record(Err(IoErrorKind::WouldBlock));
    inbox
}

#[test]
fn error_kinds() {
    assert!(would_block(&IoErrorKind::WouldBlock));
    assert!(!would_block(&IoErrorKind::Interrupted));
    assert!(!would_block(&IoErrorKind::Other));
    assert!(interrupted(&IoErrorKind::Interrupted));
    assert!(!interrupted(&IoErrorKind::WouldBlock));
    assert!(!interrupted(&IoErrorKind::Other));
}

#[test]
fn read_window_follows_the_growing_buffer() {
    let mut inbox = Inbox::new();
    assert_eq!(inbox.window(), INITIAL_READ_SIZE);
    inbox.record(Ok(&[0u8; 96]));
    assert_eq!(inbox.window(), 4000);
    inbox.record(Ok(&[0u8; 4000]));
    // Full: the buffer has grown by 1 KiB.
    assert_eq!(inbox.window(), READ_GROWTH);
    inbox.record(Ok(&[0u8; 1000]));
    assert_eq!(inbox.window(), 24);
    inbox.record(Ok(&[0u8; 24]));
    assert_eq!(inbox.window(), 1024);
    assert!(inbox.wants_more());
}

#[test]
fn reading_stops_on_close_would_block_and_failure() {
    let mut inbox = Inbox::new();
    inbox.record(Err(IoErrorKind::Interrupted));
    assert!(inbox.wants_more());
    inbox.record(Ok(&[1, 2, 3]));
    assert!(inbox.wants_more());
    inbox.record(Err(IoErrorKind::WouldBlock));
    assert!(!inbox.wants_more());

    let mut inbox = Inbox::new();
    inbox.record(Ok(&[]));
    assert!(!inbox.wants_more());

    let mut inbox = Inbox::new();
    inbox.record(Err(IoErrorKind::Other));
    assert!(!inbox.wants_more());
}

#[test]
fn read_path_feeds_the_peer() {
    let mut node = Node::new(LOCALHOST, 8000, true);
    let ping = frame(MAGIC, PING_MSG);
    let inbox = inbox_of(&[&ping[..10], &ping[10..]]);
    assert_eq!(handle_incoming_messages(&mut node, &inbox), Ok(false));
    assert_eq!(node.take_outgoing(), frame(MAGIC, PONG_MSG));
}

#[test]
fn read_path_reports_a_closed_connection_after_serving_the_peer() {
    let mut node = Node::new(LOCALHOST, 8000, true);
    let mut inbox = Inbox::new();
    inbox.record(Ok(&frame(MAGIC, PING_MSG)));
    inbox.record(Ok(&[]));
    assert_eq!(handle_incoming_messages(&mut node, &inbox), Ok(true));
    assert_eq!(node.take_outgoing(), frame(MAGIC, PONG_MSG));
}

#[test]
fn read_path_drops_what_was_read_before_a_fatal_error() {
    let mut node = Node::new(LOCALHOST, 8000, true);
    let mut inbox = Inbox::new();
    inbox.record(Ok(&frame(MAGIC, PING_MSG)));
    inbox.record(Err(IoErrorKind::Other));
    assert_eq!(handle_incoming_messages(&mut node, &inbox), Err(IoErrorKind::Other));
    assert!(node.buffer.is_empty());
    assert!(node.take_outgoing().is_empty());
}

#[test]
fn read_path_without_bytes_leaves_the_peer_alone() {
    let mut node = Node::new(LOCALHOST, 8000, true);
    node.delta_time(10);
    let inbox = inbox_of(&[]);
    assert_eq!(handle_incoming_messages(&mut node, &inbox), Ok(false));
    assert_eq!(node.last_seen(), 10);
}

#[test]
fn read_path_is_done_with_a_peer_that_a_fatal_error_ended() {
    let mut node = Node::new(LOCALHOST, 8000, true);
    let inbox = inbox_of(&[&frame(0xDEADBEEF, PING_MSG)]);
    assert_eq!(handle_incoming_messages(&mut node, &inbox), Ok(true));
    assert!(node.is_closed());
}

#[test]
fn tokens_are_fresh_and_increasing() {
    let mut server = Server::new();
    assert_eq!(server.len(), 0);
    assert_eq!(server.target(SERVER_TOKEN), Target::Listener);
    assert_eq!(server.target(1), Target::Unknown);

    assert_eq!(server.register_node(LOCALHOST, 8000, true), Some(1));
    assert_eq!(server.register_node(LOCALHOST, 8001, false), Some(2));
    assert_eq!(server.register_node(LOCALHOST, 8002, true), Some(3));
    assert_eq!(server.len(), 3);
    assert_eq!(server.target(2), Target::Peer);
    assert!(server.peer(1).unwrap().is_ingoing);
    assert!(!server.peer(2).unwrap().is_ingoing);

    // A token that was given up is not handed out again.
    assert!(server.remove(2));
    assert!(!server.remove(2));
    assert_eq!(server.target(2), Target::Unknown);
    assert_eq!(server.register_node(LOCALHOST, 8003, true), Some(4));
    assert_eq!(server.len(), 3);
    assert_eq!(server.target(SERVER_TOKEN), Target::Listener);
    assert!(server.peer(SERVER_TOKEN).is_none());
}

#[test]
fn malformed_magic_removes_the_peer() {
    let mut server = Server::new();
    let token = server.register_node(LOCALHOST, 8000, true).unwrap();
    let other = server.register_node(LOCALHOST, 8001, true).unwrap();
    let inbox = inbox_of(&[&frame(0xDEADBEEF, PING_MSG)]);
    let handled = server.handle_event(token, &inbox);
    assert!(handled.done);
    assert!(handled.outgoing.is_empty());
    assert!(server.peer(token).is_none());
    assert_eq!(server.target(token), Target::Unknown);
    assert!(server.peer(other).is_some());
    assert_eq!(server.len(), 1);
}

#[test]
fn event_serves_the_peer_and_hands_over_its_reply() {
    let mut server = Server::new();
    let token = server.register_node(LOCALHOST, 8000, true).unwrap();
    let handled = server.handle_event(token, &inbox_of(&[&frame(MAGIC, PING_MSG)]));
    assert!(!handled.done);
    assert_eq!(handled.outgoing, frame(MAGIC, PONG_MSG));
    assert!(server.peer(token).is_some());
    assert!(server.take_outgoing(token).is_empty());
}

#[test]
fn event_for_an_unknown_token_is_ignored() {
    let mut server = Server::new();
    let token = server.register_node(LOCALHOST, 8000, true).unwrap();
    let handled = server.handle_event(token + 1, &inbox_of(&[&frame(MAGIC, PING_MSG)]));
    assert!(!handled.done);
    assert!(handled.outgoing.is_empty());
    assert_eq!(server.len(), 1);
    let handled = server.handle_event(SERVER_TOKEN, &inbox_of(&[&frame(MAGIC, PING_MSG)]));
    assert!(!handled.done);
    assert_eq!(server.len(), 1);
}

#[test]
fn closed_connection_and_failed_read_remove_the_peer() {
    let mut server = Server::new();
    let closed = server.register_node(LOCALHOST, 8000, true).unwrap();
    let failed = server.register_node(LOCALHOST, 8001, true).unwrap();

    let mut inbox = Inbox::new();
    inbox.record(Ok(&frame(MAGIC, PING_MSG)));
    inbox.record(Ok(&[]));
    let handled = server.handle_event(closed, &inbox);
    assert!(handled.done);
    assert_eq!(handled.outgoing, frame(MAGIC, PONG_MSG));
    assert!(server.peer(closed).is_none());

    let mut inbox = Inbox::new();
    inbox.record(Err(IoErrorKind::Other));
    let handled = server.handle_event(failed, &inbox);
    assert!(handled.done);
    assert!(server.peer(failed).is_none());
    assert_eq!(server.len(), 0);
}

#[test]
fn tick_ages_every_peer_and_runs_its_routine() {
    let mut server = Server::new();
    let inbound = server.register_node(LOCALHOST, 8000, true).unwrap();
    let outbound = server.register_node(LOCALHOST, 9000, false).unwrap();
    server.tick();
    for token in [inbound, outbound] {
        let node = server.peer(token).unwrap();
        assert_eq!(node.last_seen(), WAITING_TIME as u32);
        assert_eq!(node.last_ping_sent(), 37);
    }
    assert_eq!(
        server.peer(outbound).unwrap().whoami_state(),
        (WhoamiSate::Sent, WhoamiSate::Unkn)
    );
    assert!(server.take_outgoing(inbound).is_empty());
    let sent = server.take_outgoing(outbound);
    assert_eq!(sent.len(), 60);
    assert_eq!(&sent[..24], &Vec::<u8>::from(Header::new(MAGIC, WHOAMI_MSG, 36).unwrap())[..]);
    assert!(server.take_outgoing(outbound).is_empty());
    assert!(server.take_outgoing(77).is_empty());

    // Nine ticks make 45 seconds: every peer pings.
    for _ in 0..8 {
        server.tick();
    }
    assert_eq!(server.take_outgoing(inbound), frame(MAGIC, PING_MSG));
    assert_eq!(server.take_outgoing(outbound), frame(MAGIC, PING_MSG));
}
