//! The multiplexer: dispatch, routing, lifecycle and the outbound queue.

use ws_mux::commands::{encode_command, Command};
use ws_mux::frames::{assemble_frame, Frame, PUBKEY_BYTES_LEN};
use ws_mux::ws_socket::{
    BinaryDispatch, HandledMsg, ListenEvent, MultiWsSocketDescriptor, PeerManager, ReadStep,
    SubWsSocketDescriptor,
};

/// A 33-byte peer identifier.
fn peer(tag: u8) -> Vec<u8> {
    vec![tag; PUBKEY_BYTES_LEN]
}

/// A peer manager that records every call and gives a fixed verdict.
struct MockPeerManager {
    accept: bool,
    inbound: Vec<SubWsSocketDescriptor>,
    disconnected: Vec<SubWsSocketDescriptor>,
}

impl MockPeerManager {
    fn new(accept: bool) -> Self {
        MockPeerManager { accept, inbound: Vec::new(), disconnected: Vec::new() }
    }
}

impl PeerManager for MockPeerManager {
    fn new_inbound_connection(&mut self, socket: SubWsSocketDescriptor) -> Result<(), ()> {
        self.inbound.push(socket);
        if self.accept {
            Ok(())
        } else {
            Err(())
        }
    }

    fn socket_disconnected(&mut self, socket: &SubWsSocketDescriptor) {
        self.disconnected.push(socket.clone());
    }
}

fn expect_data(step: ReadStep) -> Vec<u8> {
    match step {
        ReadStep::Data(bytes) => bytes,
        ReadStep::Failed => panic!("read failed where data was due"),
        ReadStep::Pending => panic!("read pending where data was due"),
    }
}

#[test]
fn dispatch_then_read_round_trips_the_payload() {
    let mut mux = MultiWsSocketDescriptor::new(peer(1));
    let socket = mux.create_new_subsocket(peer(2));

    let dispatch = mux.handle_binary(assemble_frame(&peer(2), &vec![9, 8, 7]));
    assert!(matches!(dispatch, BinaryDispatch::Routed));
    assert_eq!(expect_data(mux.try_read(&socket)), vec![9, 8, 7]);
    assert!(matches!(mux.try_read(&socket), ReadStep::Pending));

    // The empty payload arrives as an empty read, not as nothing.
    let dispatch = mux.handle_binary(assemble_frame(&peer(2), &Vec::new()));
    assert!(matches!(dispatch, BinaryDispatch::Routed));
    assert_eq!(expect_data(mux.try_read(&socket)), Vec::<u8>::new());
    assert!(matches!(mux.try_read(&socket), ReadStep::Pending));
}

#[test]
fn undersized_binary_frame_is_dropped() {
    let mut mux = MultiWsSocketDescriptor::new(peer(1));
    let mut pm = MockPeerManager::new(true);

    let handled = mux.handle_incoming_msg(&mut pm, Frame::Binary(vec![0; PUBKEY_BYTES_LEN - 1]));
    assert!(matches!(handled, HandledMsg::Ignored));
    assert!(pm.inbound.is_empty());
    assert!(pm.disconnected.is_empty());
    assert!(mux.next_outbound().is_none());
}

#[test]
fn disconnect_command_for_unknown_peer_is_a_noop() {
    let mut mux = MultiWsSocketDescriptor::new(peer(1));
    let mut pm = MockPeerManager::new(true);

    let text = encode_command(&Command::Disconnect { to: peer(1), from: peer(9) });
    let handled = mux.handle_incoming_msg(&mut pm, Frame::Text(text));
    assert!(matches!(handled, HandledMsg::Ignored));
    assert!(pm.disconnected.is_empty());
}

#[test]
fn malformed_command_is_dropped() {
    let mut mux = MultiWsSocketDescriptor::new(peer(1));
    let mut pm = MockPeerManager::new(true);
    let handled = mux.handle_incoming_msg(&mut pm, Frame::Text("{half a".to_string()));
    assert!(matches!(handled, HandledMsg::Ignored));
    assert!(pm.inbound.is_empty());
    assert!(pm.disconnected.is_empty());
}

#[test]
fn disconnect_twice_sends_a_single_command() {
    let mut mux = MultiWsSocketDescriptor::new(peer(1));
    let socket = mux.create_new_subsocket(peer(2));

    mux.disconnect_socket(&socket);
    mux.disconnect_socket(&socket);

    let expected = encode_command(&Command::Disconnect { to: peer(2), from: peer(1) });
    match mux.next_outbound() {
        Some(Frame::Text(text)) => assert_eq!(text, expected),
        _ => panic!("one disconnect command was due"),
    }
    assert!(mux.next_outbound().is_none());

    // The stopped socket neither sends nor reads.
    assert_eq!(mux.send_data(&socket, &vec![1, 2]), 0);
    assert!(matches!(mux.try_read(&socket), ReadStep::Failed));
}

#[test]
fn server_disconnect_stops_and_removes_the_socket() {
    let mut mux = MultiWsSocketDescriptor::new(peer(1));
    let socket = mux.create_new_subsocket(peer(2));
    let mut pm = MockPeerManager::new(true);

    let text = encode_command(&Command::Disconnect { to: peer(1), from: peer(2) });
    let handled = mux.handle_incoming_msg(&mut pm, Frame::Text(text));
    match handled {
        HandledMsg::PeerDisconnected(gone) => {
            assert_eq!(gone.id(), socket.id());
            assert!(gone.is_stopped());
        },
        _ => panic!("the relay's disconnect names a known peer"),
    }
    assert_eq!(pm.disconnected.len(), 1);
    assert!(matches!(mux.try_read(&socket), ReadStep::Failed));
}

#[test]
fn connect_notifies_each_stale_entry_once_and_clears_the_table() {
    let mut mux = MultiWsSocketDescriptor::new(peer(1));
    let stale_socket = mux.create_new_subsocket(peer(2));
    let mut pm = MockPeerManager::new(true);
    assert!(!mux.connected());

    mux.connect_with(&mut pm);
    assert!(mux.connected());
    assert_eq!(pm.disconnected.len(), 1);
    assert_eq!(pm.disconnected[0].id(), stale_socket.id());
    assert!(pm.disconnected[0].is_stopped());

    // The table is empty before the first new frame: the same peer is
    // unseen again.
    let dispatch = mux.handle_binary(assemble_frame(&peer(2), &vec![5]));
    assert!(matches!(dispatch, BinaryDispatch::NewPeer(_, _)));
}

#[test]
fn second_frame_for_unseen_peer_routes_to_the_first_socket() {
    let mut mux = MultiWsSocketDescriptor::new(peer(1));

    let first = mux.handle_binary(assemble_frame(&peer(3), &vec![1]));
    let (socket, pending) = match first {
        BinaryDispatch::NewPeer(socket, payload) => (socket, payload),
        _ => panic!("an unseen peer makes a new socket"),
    };
    assert_eq!(pending, vec![1]);

    // The second frame arrives before any verdict on the first: no second
    // socket, the payload joins the created socket's queue.
    let second = mux.handle_binary(assemble_frame(&peer(3), &vec![2]));
    assert!(matches!(second, BinaryDispatch::Routed));
    assert_eq!(expect_data(mux.try_read(&socket)), vec![2]);

    // Acceptance then lets the held payload in as well.
    assert!(mux.forward_to_subsocket(&peer(3), pending));
    assert_eq!(expect_data(mux.try_read(&socket)), vec![1]);
    assert!(matches!(mux.try_read(&socket), ReadStep::Pending));
}

#[test]
fn accepted_inbound_socket_reads_the_first_payload() {
    let mut mux = MultiWsSocketDescriptor::new(peer(1));
    let mut pm = MockPeerManager::new(true);

    let handled = mux.handle_incoming_msg(&mut pm, Frame::Binary(assemble_frame(&peer(4), &vec![5, 6])));
    let socket = match handled {
        HandledMsg::NewInbound(socket) => socket,
        _ => panic!("an accepted unseen peer is a new inbound socket"),
    };
    assert_eq!(pm.inbound.len(), 1);
    assert!(pm.disconnected.is_empty());
    assert_eq!(expect_data(mux.try_read(&socket)), vec![5, 6]);
}

#[test]
fn rejected_inbound_socket_is_fully_unwound() {
    let mut mux = MultiWsSocketDescriptor::new(peer(1));
    let mut pm = MockPeerManager::new(false);

    let handled = mux.handle_incoming_msg(&mut pm, Frame::Binary(assemble_frame(&peer(4), &vec![5])));
    assert!(matches!(handled, HandledMsg::InboundRejected));
    assert_eq!(pm.inbound.len(), 1);
    assert_eq!(pm.disconnected.len(), 1);
    assert!(pm.disconnected[0].is_stopped());
    assert_eq!(pm.disconnected[0].peer_pubkey(), &peer(4));

    // The unwind queued a disconnect command for the relay.
    let expected = encode_command(&Command::Disconnect { to: peer(4), from: peer(1) });
    match mux.next_outbound() {
        Some(Frame::Text(text)) => assert_eq!(text, expected),
        _ => panic!("the unwind owes the relay a disconnect command"),
    }

    // And the peer is unseen again.
    let mut accepting = MockPeerManager::new(true);
    let handled = mux.handle_incoming_msg(
        &mut accepting,
        Frame::Binary(assemble_frame(&peer(4), &vec![6])),
    );
    assert!(matches!(handled, HandledMsg::NewInbound(_)));
}

#[test]
fn keep_alive_pings_only_when_attached() {
    let mut mux = MultiWsSocketDescriptor::new(peer(1));
    mux.attempt_keep_alive();
    assert!(mux.next_outbound().is_none());

    let stale = mux.connect();
    assert!(stale.is_empty());
    mux.attempt_keep_alive();
    match mux.next_outbound() {
        Some(Frame::Text(text)) => assert_eq!(text, "\"Ping\""),
        _ => panic!("an attached multiplexer pings"),
    }
}

#[test]
fn outbound_frames_keep_per_peer_order_and_carry_the_address() {
    let mut mux = MultiWsSocketDescriptor::new(peer(1));
    let socket = mux.create_new_subsocket(peer(2));

    assert_eq!(mux.send_data(&socket, &vec![1]), 1);
    assert_eq!(mux.send_data(&socket, &vec![2, 2]), 2);

    let mut expected_first = peer(2);
    expected_first.push(1);
    match mux.next_outbound() {
        Some(Frame::Binary(bytes)) => assert_eq!(bytes, expected_first),
        _ => panic!("the first send comes out first"),
    }
    let mut expected_second = peer(2);
    expected_second.push(2);
    expected_second.push(2);
    match mux.next_outbound() {
        Some(Frame::Binary(bytes)) => assert_eq!(bytes, expected_second),
        _ => panic!("the second send follows"),
    }
    assert!(mux.next_outbound().is_none());
}

#[test]
fn send_through_an_unregistered_socket_reports_zero() {
    let mut mux = MultiWsSocketDescriptor::new(peer(1));
    let stranger = SubWsSocketDescriptor::new(99, peer(5), peer(1));
    assert_eq!(mux.send_data(&stranger, &vec![1, 2, 3]), 0);
    assert!(matches!(mux.try_read(&stranger), ReadStep::Failed));
    assert!(mux.next_outbound().is_none());
}

#[test]
fn listen_steps_end_the_loop_on_failure_or_stop() {
    let mut mux = MultiWsSocketDescriptor::new(peer(1));
    let _ = mux.connect();
    assert!(mux.connected());

    assert!(mux.listen_step(ListenEvent::Quiet));
    assert!(mux.listen_step(ListenEvent::Tick));
    assert!(mux.connected());

    mux.stop();
    assert!(!mux.listen_step(ListenEvent::Tick));
    assert!(!mux.connected());

    let mut fresh = MultiWsSocketDescriptor::new(peer(1));
    let _ = fresh.connect();
    assert!(!fresh.listen_step(ListenEvent::Failed));
    assert!(!fresh.connected());
}
