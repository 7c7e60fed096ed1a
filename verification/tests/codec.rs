//! The control-command codec and the binary framing.

use ws_mux::commands::{decode_command, encode_command, Command};
use ws_mux::frames::{assemble_frame, bytes_eq, split_frame, Frame, TransportEvent,
    PUBKEY_BYTES_LEN};
use ws_mux::ws_socket::{SocketError, WsTcpSocketDescriptor};

#[test]
fn ping_encodes_as_the_relay_expects() {
    let text = encode_command(&Command::Ping);
    assert_eq!(text, "\"Ping\"");
    // Cross-check against the relay's own command type.
    assert_eq!(
        text,
        serde_json::to_string(&ln_websocket_proxy::MutinyProxyCommand::Ping).unwrap()
    );
}

#[test]
fn disconnect_encodes_as_the_relay_expects() {
    let text = encode_command(&Command::Disconnect {
        to: vec![1, 1],
        from: vec![10, 10],
    });
    assert_eq!(text, "{\"Disconnect\":{\"to\":[1,1],\"from\":[10,10]}}");
    assert_eq!(
        text,
        serde_json::to_string(&ln_websocket_proxy::MutinyProxyCommand::Disconnect {
            to: vec![1, 1],
            from: vec![10, 10],
        })
        .unwrap()
    );
}

#[test]
fn commands_round_trip_through_the_codec() {
    let command = Command::Disconnect {
        to: vec![7; 33],
        from: vec![9; 33],
    };
    let decoded = decode_command(&encode_command(&command));
    match decoded {
        Some(Command::Disconnect { to, from }) => {
            assert_eq!(to, vec![7; 33]);
            assert_eq!(from, vec![9; 33]);
        },
        _ => panic!("disconnect command lost in the codec"),
    }
    assert!(matches!(
        decode_command(&encode_command(&Command::Ping)),
        Some(Command::Ping)
    ));
}

#[test]
fn malformed_text_decodes_to_nothing() {
    assert!(decode_command("not json at all").is_none());
    assert!(decode_command("{\"Unknown\":{}}").is_none());
    assert!(decode_command("").is_none());
}

#[test]
fn assemble_then_split_returns_the_payload() {
    let peer = vec![5u8; PUBKEY_BYTES_LEN];
    let payload = vec![1u8, 2, 3];
    let framed = assemble_frame(&peer, &payload);
    assert_eq!(framed.len(), PUBKEY_BYTES_LEN + 3);
    let (id, body) = split_frame(&framed).unwrap();
    assert_eq!(id, peer);
    assert_eq!(body, payload);

    // The empty payload round-trips too.
    let framed_empty = assemble_frame(&peer, &Vec::new());
    let (id_2, body_2) = split_frame(&framed_empty).unwrap();
    assert_eq!(id_2, peer);
    assert!(body_2.is_empty());
}

#[test]
fn undersized_frame_does_not_split() {
    let short = vec![0u8; PUBKEY_BYTES_LEN - 1];
    assert!(split_frame(&short).is_none());
    assert!(split_frame(&Vec::new()).is_none());
    let exact = vec![0u8; PUBKEY_BYTES_LEN];
    let (id, body) = split_frame(&exact).unwrap();
    assert_eq!(id, exact);
    assert!(body.is_empty());
}

#[test]
fn bytes_eq_compares_byte_for_byte() {
    assert!(bytes_eq(&vec![1, 2, 3], &vec![1, 2, 3]));
    assert!(!bytes_eq(&vec![1, 2, 3], &vec![1, 2, 4]));
    assert!(!bytes_eq(&vec![1, 2, 3], &vec![1, 2]));
    assert!(bytes_eq(&Vec::new(), &Vec::new()));
}

#[test]
fn direct_socket_filters_transport_events() {
    let socket = WsTcpSocketDescriptor::new(0);
    match socket.read(TransportEvent::Frame(Frame::Binary(vec![4, 5]))) {
        Some(Ok(bytes)) => assert_eq!(bytes, vec![4, 5]),
        _ => panic!("binary frame should come through"),
    }
    assert!(socket
        .read(TransportEvent::Frame(Frame::Text("\"Ping\"".to_string())))
        .is_none());
    assert!(socket.read(TransportEvent::Quiet).is_none());
    match socket.read(TransportEvent::Failed) {
        Some(Err(SocketError::ConnectionFailed)) => {},
        _ => panic!("transport failure should fail the read"),
    }
}

#[test]
fn direct_socket_send_builds_the_frame() {
    let socket = WsTcpSocketDescriptor::new(0);
    let (frame, sent) = socket.send_data(&vec![9, 9, 9]);
    assert_eq!(sent, 3);
    match frame {
        Frame::Binary(bytes) => assert_eq!(bytes, vec![9, 9, 9]),
        Frame::Text(_) => panic!("a direct send is a binary frame"),
    }
}
