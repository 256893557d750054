use peer_node::messages::address::{Address, IpAddress};
use peer_node::messages::header::Header;
use peer_node::messages::states::{
    CurrentAction, PayloadKind, PingState, WhoamiSate, LAST_SEEN_THRESHOLD, MAGIC, PING_CALLBACK,
    PING_MSG, PONG_MSG, VERSION, WHOAMIACK_MSG, WHOAMI_MSG,
};
use peer_node::messages::whoami::Whoami;
use peer_node::messages::ByteSize;
use peer_node::node::Node;

const LOCALHOST: IpAddress = IpAddress::V4([127, 0, 0, 1]);

fn frame(msg_type: &str, payload: &[u8]) -> Vec<u8> {
    let header = Header::new(MAGIC, msg_type, payload.len() as u64).unwrap();
    let mut bytes = Vec::<u8>::from(header);
    bytes.extend_from_slice(payload);
    bytes
}

fn whoami_payload(port: u16, services: &[&str]) -> Vec<u8> {
    let services = services.iter().map(|s| s.to_string()).collect();
    Vec::<u8>::from(Whoami::new(VERSION, Address::new(0, LOCALHOST, port), services))
}

/// Everything that a test can see of a peer.
fn snapshot(node: &Node) -> String {
    format!(
        "{:?} {} {} {:?} {:?} {:?} {:?} {} {} {:?} {}",
        node.buffer,
        node.is_ingoing,
        node.is_valid,
        node.current_action(),
        node.whoami_state(),
        node.address,
        node.services(),
        node.last_ping_sent(),
        node.last_seen(),
        node.ping_state(),
        node.is_closed(),
    )
}

#[test]
fn new_peer_starts_idle() {
    let node = Node::new(LOCALHOST, 8000, true);
    assert!(node.buffer.is_empty());
    assert!(node.is_ingoing);
    assert!(!node.is_valid);
    assert_eq!(node.current_action(), CurrentAction::WaitingHeader);
    assert_eq!(node.whoami_state(), (WhoamiSate::Unkn, WhoamiSate::Unkn));
    assert_eq!(node.address, None);
    assert!(node.services().is_empty());
    assert_eq!(node.last_ping_sent(), PING_CALLBACK);
    assert_eq!(node.last_seen(), 0);
    assert_eq!(node.ping_state(), PingState::Ack);
    assert!(!node.is_closed());
}

#[test]
fn outbound_handshake() {
    let mut client = Node::new(LOCALHOST, 9000, false);
    let mut server = Node::new(LOCALHOST, 8000, true);

    // First tick: only the side that opened the connection introduces itself.
    client.delta_time(5);
    client.routine();
    server.delta_time(5);
    server.routine();
    let client_whoami = client.take_outgoing();
    assert_eq!(client_whoami, frame(WHOAMI_MSG, &whoami_payload(9000, &["node"])));
    assert!(server.take_outgoing().is_empty());
    assert_eq!(client.whoami_state(), (WhoamiSate::Sent, WhoamiSate::Unkn));

    // The server acknowledges, and answers with its own whoami.
    server.receive(&client_whoami);
    let mut expected = frame(WHOAMIACK_MSG, &[]);
    expected.extend(frame(WHOAMI_MSG, &whoami_payload(8000, &["node"])));
    let server_reply = server.take_outgoing();
    assert_eq!(server_reply, expected);
    assert_eq!(server.whoami_state(), (WhoamiSate::Sent, WhoamiSate::Ack));

    // The client takes the acknowledgement and acknowledges in turn.
    client.receive(&server_reply);
    let client_reply = client.take_outgoing();
    assert_eq!(client_reply, frame(WHOAMIACK_MSG, &[]));
    assert_eq!(client.whoami_state(), (WhoamiSate::Ack, WhoamiSate::Ack));

    server.receive(&client_reply);
    assert!(server.take_outgoing().is_empty());
    assert_eq!(server.whoami_state(), (WhoamiSate::Ack, WhoamiSate::Ack));

    // Second tick: both sides are valid, and nobody repeats itself.
    client.delta_time(5);
    client.routine();
    server.delta_time(5);
    server.routine();
    assert!(client.is_valid);
    assert!(server.is_valid);
    assert!(client.take_outgoing().is_empty());
    assert!(server.take_outgoing().is_empty());
    assert_eq!(client.address, Some(Address::new(0, LOCALHOST, 8000)));
    assert_eq!(server.address, Some(Address::new(0, LOCALHOST, 9000)));
    assert_eq!(client.services(), &vec!["node".to_string()]);
}

#[test]
fn ping_pong() {
    let mut near = Node::new(LOCALHOST, 9000, false);
    let mut far = Node::new(LOCALHOST, 8000, true);
    near.routine();
    let _ = near.take_outgoing();

    // 40 seconds: no ping yet.
    for _ in 0..8 {
        near.delta_time(5);
        near.routine();
    }
    assert_eq!(near.last_ping_sent(), 2);
    assert!(near.take_outgoing().is_empty());
    assert_eq!(near.ping_state(), PingState::Ack);

    // 45 seconds: the countdown has run down, and the ping goes out.
    near.delta_time(5);
    near.routine();
    let ping = near.take_outgoing();
    assert_eq!(ping, frame(PING_MSG, &[]));
    assert_eq!(near.ping_state(), PingState::Sent);
    assert_eq!(near.last_ping_sent(), PING_CALLBACK);

    far.receive(&ping);
    let pong = far.take_outgoing();
    assert_eq!(pong, frame(PONG_MSG, &[]));

    near.receive(&pong);
    assert_eq!(near.ping_state(), PingState::Ack);
    assert!(near.take_outgoing().is_empty());
}

#[test]
fn dead_peer_detection() {
    let mut node = Node::new(LOCALHOST, 8000, true);
    node.receive(&frame(WHOAMI_MSG, &whoami_payload(9000, &["node"])));
    node.receive(&frame(WHOAMIACK_MSG, &[]));
    node.routine();
    assert!(node.is_valid);

    // Five minutes of silence: a ping went out long ago and no pong came.
    for _ in 0..60 {
        node.delta_time(5);
        node.routine();
    }
    assert_eq!(node.last_seen(), LAST_SEEN_THRESHOLD);
    assert_eq!(node.ping_state(), PingState::Sent);
    assert!(node.is_valid);

    node.delta_time(5);
    node.routine();
    assert!(!node.is_valid);

    let total = LAST_SEEN_THRESHOLD + PING_CALLBACK as u32;
    while node.last_seen() < total {
        node.delta_time(5);
        node.routine();
    }
    assert!(!node.is_valid);
    assert!(!node.is_closed());
}

#[test]
fn malformed_magic_closes_the_peer() {
    let mut node = Node::new(LOCALHOST, 8000, true);
    let header = Header::new(0xDEADBEEF, PING_MSG, 0).unwrap();
    let mut bytes = Vec::<u8>::from(header);
    bytes.extend(frame(PING_MSG, &[]));
    node.receive(&bytes);
    assert!(node.is_closed());
    assert!(node.take_outgoing().is_empty());
    assert_eq!(node.buffer, frame(PING_MSG, &[]));

    // A peer that has ended does nothing more.
    node.receive(&frame(PING_MSG, &[]));
    node.routine();
    assert!(node.is_closed());
    assert!(node.take_outgoing().is_empty());
}

#[test]
fn malformed_header_closes_the_peer() {
    let mut node = Node::new(LOCALHOST, 8000, true);
    let mut bytes = frame(PING_MSG, &[]);
    bytes[5] = 0xC3;
    node.receive(&bytes);
    assert!(node.is_closed());
    assert_eq!(node.buffer, bytes);
}

#[test]
fn malformed_whoami_closes_the_peer() {
    let mut node = Node::new(LOCALHOST, 8000, true);
    let mut payload = whoami_payload(9000, &["node"]);
    let last = payload.len() - 1;
    payload[last] = 0xFF;
    node.receive(&frame(WHOAMI_MSG, &payload));
    assert!(node.is_closed());
    assert_eq!(node.whoami_state(), (WhoamiSate::Unkn, WhoamiSate::Unkn));
    assert!(node.take_outgoing().is_empty());

    let mut node = Node::new(LOCALHOST, 8000, true);
    let payload = whoami_payload(9000, &["node"]);
    node.receive(&frame(WHOAMI_MSG, &payload[..payload.len() - 1]));
    assert!(node.is_closed());
}

#[test]
fn chunked_whoami() {
    let payload = whoami_payload(9000, &["node", "network"]);
    let bytes = frame(WHOAMI_MSG, &payload);
    assert_eq!(bytes.len(), 68);

    let mut node = Node::new(LOCALHOST, 8000, true);
    node.receive(&frame(WHOAMIACK_MSG, &[]));
    assert_eq!(node.whoami_state(), (WhoamiSate::Ack, WhoamiSate::Unkn));
    for (i, byte) in bytes.iter().enumerate() {
        assert_eq!(node.whoami_state(), (WhoamiSate::Ack, WhoamiSate::Unkn));
        assert_eq!(node.buffer.len(), if i < 24 { i } else { i - 24 });
        node.receive(&[*byte]);
    }
    assert_eq!(node.whoami_state(), (WhoamiSate::Ack, WhoamiSate::Ack));
    assert!(node.buffer.is_empty());
    assert_eq!(node.current_action(), CurrentAction::WaitingHeader);
    assert_eq!(node.take_outgoing(), frame(WHOAMIACK_MSG, &[]));
    assert_eq!(node.services(), &vec!["node".to_string(), "network".to_string()]);
    assert_eq!(node.address, Some(Address::new(0, LOCALHOST, 9000)));
}

#[test]
fn whoami_header_leaves_the_peer_waiting_for_the_payload() {
    let mut node = Node::new(LOCALHOST, 8000, true);
    let bytes = frame(WHOAMI_MSG, &whoami_payload(9000, &["node"]));
    node.receive(&bytes[..30]);
    assert_eq!(node.current_action(), CurrentAction::WaitingPayload(36, PayloadKind::Whoami));
    assert_eq!(node.buffer, bytes[24..30].to_vec());
}

#[test]
fn unknown_message_type() {
    let mut node = Node::new(LOCALHOST, 8000, true);
    let mut bytes = frame("banana", &[1, 2, 3, 4, 5, 6, 7]);
    bytes.extend(frame(PING_MSG, &[]));
    node.receive(&bytes);
    assert!(!node.is_closed());
    assert!(node.buffer.is_empty());
    assert_eq!(node.current_action(), CurrentAction::WaitingHeader);
    assert_eq!(node.take_outgoing(), frame(PONG_MSG, &[]));
}

#[test]
fn unknown_message_type_waits_for_all_of_its_payload() {
    let mut node = Node::new(LOCALHOST, 8000, true);
    let bytes = frame("banana", &[1, 2, 3, 4, 5, 6, 7]);
    node.receive(&bytes[..28]);
    assert_eq!(node.current_action(), CurrentAction::WaitingPayload(7, PayloadKind::Skip));
    assert_eq!(node.buffer, vec![1, 2, 3, 4]);
    node.receive(&bytes[28..]);
    assert_eq!(node.current_action(), CurrentAction::WaitingHeader);
    assert!(node.buffer.is_empty());
}

#[test]
fn whoami_of_another_version_is_accepted() {
    let mut node = Node::new(LOCALHOST, 8000, true);
    let whoami = Whoami::new(VERSION + 1, Address::new(0, LOCALHOST, 9000), Vec::new());
    node.receive(&frame(WHOAMI_MSG, &Vec::<u8>::from(whoami)));
    assert!(!node.is_closed());
    assert_eq!(node.whoami_state(), (WhoamiSate::Sent, WhoamiSate::Ack));
}

#[test]
fn framing_progress() {
    let mut stream = frame(PING_MSG, &[]);
    stream.extend(frame(WHOAMI_MSG, &whoami_payload(9000, &["node"])));
    stream.extend(frame("banana", &[9, 9, 9]));
    stream.extend(frame(WHOAMIACK_MSG, &[]));
    let tail = frame(PONG_MSG, &[])[..23].to_vec();
    stream.extend(tail.clone());

    for cut in [1usize, 2, 3, 7, 24, 25, 59, 60, 1000] {
        let mut node = Node::new(LOCALHOST, 8000, true);
        for chunk in stream.chunks(cut) {
            node.receive(chunk);
        }
        assert_eq!(node.buffer, tail);
        assert_eq!(node.current_action(), CurrentAction::WaitingHeader);
        assert_eq!(node.whoami_state(), (WhoamiSate::Ack, WhoamiSate::Ack));
        let mut expected = frame(PONG_MSG, &[]);
        expected.extend(frame(WHOAMIACK_MSG, &[]));
        expected.extend(frame(WHOAMI_MSG, &whoami_payload(8000, &["node"])));
        assert_eq!(node.take_outgoing(), expected);
    }
}

#[test]
fn one_byte_at_a_time_is_the_same_as_all_at_once() {
    let mut stream = frame(WHOAMI_MSG, &whoami_payload(9000, &["node", "network"]));
    stream.extend(frame(PING_MSG, &[]));
    stream.extend(frame("banana", &[1, 2, 3, 4, 5, 6, 7]));
    stream.extend(frame(PONG_MSG, &[]));
    stream.extend(&frame(WHOAMIACK_MSG, &[])[..10]);

    let mut whole = Node::new(LOCALHOST, 8000, false);
    whole.delta_time(7);
    whole.receive(&stream);

    let mut dripped = Node::new(LOCALHOST, 8000, false);
    dripped.delta_time(7);
    for byte in &stream {
        dripped.receive(&[*byte]);
    }
    assert_eq!(snapshot(&whole), snapshot(&dripped));
    assert_eq!(whole.take_outgoing(), dripped.take_outgoing());
    assert_eq!(whole.last_seen(), 0);
}

#[test]
fn one_byte_at_a_time_is_the_same_after_a_fatal_error() {
    let mut stream = frame(PING_MSG, &[]);
    stream.extend(Vec::<u8>::from(Header::new(7, PING_MSG, 0).unwrap()));
    stream.extend(frame(PING_MSG, &[]));

    let mut whole = Node::new(LOCALHOST, 8000, false);
    whole.receive(&stream);
    let mut dripped = Node::new(LOCALHOST, 8000, false);
    for byte in &stream {
        dripped.receive(&[*byte]);
    }
    assert!(whole.is_closed());
    assert_eq!(snapshot(&whole), snapshot(&dripped));
    assert_eq!(whole.take_outgoing(), frame(PONG_MSG, &[]));
    assert_eq!(dripped.take_outgoing(), frame(PONG_MSG, &[]));
}

#[test]
fn delta_time_counts_down_to_zero_and_up_to_the_top() {
    let mut node = Node::new(LOCALHOST, 8000, true);
    node.delta_time(40);
    assert_eq!(node.last_ping_sent(), 2);
    assert_eq!(node.last_seen(), 40);
    node.delta_time(2);
    assert_eq!(node.last_ping_sent(), 0);
    node.delta_time(255);
    assert_eq!(node.last_ping_sent(), 0);
    assert_eq!(node.last_seen(), 297);
}

#[test]
fn handle_buffer_resets_the_silence() {
    let mut node = Node::new(LOCALHOST, 8000, true);
    node.delta_time(100);
    assert_eq!(node.last_seen(), 100);
    node.buffer.extend_from_slice(&frame(PING_MSG, &[])[..5]);
    node.handle_buffer();
    assert_eq!(node.last_seen(), 0);
    assert_eq!(node.buffer.len(), 5);
}

#[test]
fn inbound_peer_does_not_greet_first() {
    let mut node = Node::new(LOCALHOST, 8000, true);
    node.routine();
    assert!(node.take_outgoing().is_empty());
    assert_eq!(node.whoami_state(), (WhoamiSate::Unkn, WhoamiSate::Unkn));
}

#[test]
fn local_whoami_takes_36_bytes() {
    let mut node = Node::new(IpAddress::V6([1; 16]), 8000, false);
    node.routine();
    let sent = node.take_outgoing();
    assert_eq!(sent.len(), 24 + 36);
    let whoami = Whoami::try_from(&sent[24..]).unwrap();
    assert_eq!(whoami.byte_size(), 36);
    assert_eq!(whoami.version(), VERSION);
    assert_eq!(whoami.from(), Address::new(0, IpAddress::V6([1; 16]), 8000));
    assert_eq!(whoami.services(), vec!["node".to_string()]);
}
