//! Socket identity: equality and hashing go by the creation-order integer
//! alone, never by the peer identifier.

use std::collections::hash_map::DefaultHasher;
use std::hash::{Hash, Hasher};

use ws_mux::socket::MutinySocketDescriptor;
use ws_mux::ws_socket::{create_new_subsocket, MultiWsSocketDescriptor, WsTcpSocketDescriptor};

const PEER_PUBKEY: &str = "02e6642fd69bd211f93f7f1f36ca51a26a5290eb2dd1b0d8279a87bb0d480c8443";

const OTHER_PEER_PUBKEY: &str =
    "03b661d965727a0751bd876efe3c826f89d5056f98501924222abd552bc2ba0ab1";

fn nibble(c: u8) -> u8 {
    match c {
        b'0'..=b'9' => c - b'0',
        b'a'..=b'f' => c - b'a' + 10,
        b'A'..=b'F' => c - b'A' + 10,
        _ => panic!("not a hex digit"),
    }
}

fn hex_to_bytes(s: &str) -> Vec<u8> {
    let b = s.as_bytes();
    assert_eq!(b.len() % 2, 0);
    let mut out = Vec::new();
    let mut i: usize = 0;
    while i < b.len() {
        out.push(nibble(b[i]) * 16 + nibble(b[i + 1]));
        i += 2;
    }
    out
}

#[test]
fn test_eq_for_ws_socket_descriptor() {
    // Test ne and eq for WsTcpSocketDescriptor
    let tcp_ws = MutinySocketDescriptor::Tcp(WsTcpSocketDescriptor::new(0));

    let tcp_ws_2 = MutinySocketDescriptor::Tcp(WsTcpSocketDescriptor::new(1));
    assert_ne!(tcp_ws, tcp_ws_2);

    let tcp_ws_3 = MutinySocketDescriptor::Tcp(WsTcpSocketDescriptor::new(2));
    assert_eq!(tcp_ws_3.clone(), tcp_ws_3);

    // Test ne and eq for SubWsSocketDescriptor: sockets made at different
    // times, here for the same remote peer, are distinct.
    let mut mux = MultiWsSocketDescriptor::new(hex_to_bytes(PEER_PUBKEY));

    let sub_ws_socket = create_new_subsocket(&mut mux, hex_to_bytes(OTHER_PEER_PUBKEY));
    let mutiny_ws = MutinySocketDescriptor::Mutiny(sub_ws_socket);

    let sub_ws_socket_2 = create_new_subsocket(&mut mux, hex_to_bytes(OTHER_PEER_PUBKEY));
    let mutiny_ws_2 = MutinySocketDescriptor::Mutiny(sub_ws_socket_2);
    assert_ne!(mutiny_ws, mutiny_ws_2);

    let sub_ws_socket_3 = create_new_subsocket(&mut mux, hex_to_bytes(OTHER_PEER_PUBKEY));
    let mutiny_ws_3 = MutinySocketDescriptor::Mutiny(sub_ws_socket_3);
    assert_eq!(mutiny_ws_3.clone(), mutiny_ws_3);
}

fn hash_of<T: Hash>(value: &T) -> u64 {
    let mut hasher = DefaultHasher::new();
    value.hash(&mut hasher);
    hasher.finish()
}

#[test]
fn distinct_peers_give_unequal_sockets_and_hashes() {
    let mut mux = MultiWsSocketDescriptor::new(hex_to_bytes(PEER_PUBKEY));
    let a = mux.create_new_subsocket(hex_to_bytes(OTHER_PEER_PUBKEY));
    let b = mux.create_new_subsocket(hex_to_bytes(PEER_PUBKEY));
    assert_ne!(a, b);
    assert_ne!(hash_of(&a), hash_of(&b));
    assert_ne!(a.id(), b.id());
}

#[test]
fn duplicate_socket_equal_and_same_hash() {
    let mut mux = MultiWsSocketDescriptor::new(hex_to_bytes(PEER_PUBKEY));
    let a = mux.create_new_subsocket(hex_to_bytes(OTHER_PEER_PUBKEY));
    let twin = a.clone();
    assert_eq!(a, twin);
    assert_eq!(hash_of(&a), hash_of(&twin));

    // Same peer, created later: a different socket.
    let later = mux.create_new_subsocket(hex_to_bytes(OTHER_PEER_PUBKEY));
    assert_ne!(a, later);
    assert_ne!(hash_of(&a), hash_of(&later));
}

#[test]
fn tcp_socket_identity_is_id() {
    let a = WsTcpSocketDescriptor::new(7);
    let b = WsTcpSocketDescriptor::new(7);
    let c = WsTcpSocketDescriptor::new(8);
    assert_eq!(a, b);
    assert_ne!(a, c);
    assert_eq!(a.id(), 7);
    assert_eq!(hash_of(&a), hash_of(&b));
}
