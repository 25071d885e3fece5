//! The clients of the rendezvous server.

use yipd::addr::SockAddr;
use yipd::rendezvous::{ConfiguredServerRendezvous, RdvEvent, Rendezvous, TlsRelayRendezvous};
use yipd::wire::{Body, EgressDatagram, Message, Record};

fn server() -> SockAddr {
    SockAddr::V4 { ip: 0xCB00_7101, port: 51821 }
}

fn node_id(key: &[u8; 32]) -> u128 {
    let mut id = [0u8; 16];
    for (i, b) in key.iter().enumerate() {
        id[i % 16] ^= b.rotate_left((i / 16) as u32);
    }
    u128::from_be_bytes(id)
}

/// The message in a datagram for the server.
fn message(dg: EgressDatagram) -> Message {
    match dg.body {
        Body::Server(m) => m,
        Body::Tunnel(_) => panic!("a message for the server"),
    }
}

#[test]
fn register_targets_server_with_our_node_id() {
    let mut r = ConfiguredServerRendezvous::new(server());
    let me = node_id(&[1u8; 32]);
    let dg = r.register(me, None).expect("UDP register is always Some");
    assert_eq!(dg.dst, server());
    assert!(matches!(message(dg), Message::Register { node, counter: 0 } if node == me));
}

#[test]
fn register_emits_signed_when_record_present() {
    let mut r = ConfiguredServerRendezvous::new(server());
    let me = u128::from_be_bytes([3u8; 16]);
    let rec = Record { node_id: me, encoded: vec![1, 2, 3] };
    let dg = r.register(me, Some(rec)).expect("Some");
    assert!(matches!(message(dg), Message::RegisterSigned { record }
        if record.node_id == me && record.encoded == vec![1, 2, 3]));
}

#[test]
fn register_falls_back_to_unsigned_without_record() {
    let mut r = ConfiguredServerRendezvous::new(server());
    let me = u128::from_be_bytes([3u8; 16]);
    let dg = r.register(me, None).expect("Some");
    assert!(matches!(message(dg), Message::Register { node, .. } if node == me));
}

#[test]
fn lookup_targets_server_with_queried_node_id() {
    let mut r = ConfiguredServerRendezvous::new(server());
    let peer = node_id(&[2u8; 32]);
    let dg = r.lookup(peer);
    assert_eq!(dg.dst, server());
    assert!(matches!(message(dg), Message::Lookup { node } if node == peer));
}

#[test]
fn server_addr_returns_configured_server() {
    let r = ConfiguredServerRendezvous::new(server());
    assert_eq!(r.server_addr(), server());
}

#[test]
fn relay_wraps_payload_for_dst() {
    let mut r = ConfiguredServerRendezvous::new(server());
    let (me, peer) = (node_id(&[1u8; 32]), node_id(&[2u8; 32]));
    let dg = r.relay(me, peer, &[4, 5, 6]);
    assert_eq!(dg.dst, server());
    assert!(matches!(message(dg), Message::RelaySend { src, dst, payload }
        if src == me && dst == peer && payload == vec![4, 5, 6]));
}

#[test]
fn parse_maps_server_messages_to_events() {
    let r = ConfiguredServerRendezvous::new(server());
    let n = node_id(&[2u8; 32]);
    let a = SockAddr::V4 { ip: 0xC633_6407, port: 41000 };
    let info = Message::PeerInfo { node: n, reflexive: a, record: None };
    assert!(matches!(r.parse(Some(info)), RdvEvent::PeerCandidate { node, addr, record }
        if node == n && addr == a && record.is_none()));
    let hint = Message::PunchHint { node: n, reflexive: a };
    assert!(matches!(r.parse(Some(hint)), RdvEvent::PunchTo { node, addr }
        if node == n && addr == a));
    let deliver = Message::RelayDeliver { src: n, payload: vec![1, 2] };
    assert!(matches!(r.parse(Some(deliver)), RdvEvent::Relayed { src, payload }
        if src == n && payload == vec![1, 2]));
    assert!(matches!(r.parse(Some(Message::NotFound { node: n })), RdvEvent::NotFound { node }
        if node == n));
    assert!(matches!(r.parse(None), RdvEvent::Ignored));
    // What only a client sends is nothing a client acts on.
    assert!(matches!(r.parse(Some(Message::Lookup { node: n })), RdvEvent::Ignored));
}

#[test]
fn tls_relay_register_is_none_but_relay_works() {
    let addr = SockAddr::V4 { ip: 0xCB00_7109, port: 443 };
    let mut r = TlsRelayRendezvous::new(addr);
    let n = node_id(&[7u8; 32]);
    assert!(r.register(n, None).is_none(), "the relay connection registers on its own");
    let dg = r.relay(node_id(&[1u8; 32]), n, b"payload");
    assert_eq!(dg.dst, addr, "relay egress is addressed to the relay");
    assert_eq!(r.server_addr(), addr);
    assert!(matches!(message(r.lookup(n)), Message::Lookup { node: 0 }));
}

#[test]
fn what_is_sent_through_the_relay_is_what_is_delivered() {
    let mut r = ConfiguredServerRendezvous::new(server());
    let (me, peer) = (node_id(&[1u8; 32]), node_id(&[2u8; 32]));
    match message(r.relay(me, peer, &[4, 5, 6])) {
        Message::RelaySend { src, payload, .. } => {
            let far = ConfiguredServerRendezvous::new(server());
            let ev = far.parse(Some(Message::RelayDeliver { src, payload }));
            assert!(matches!(ev, RdvEvent::Relayed { src, payload }
                if src == me && payload == vec![4, 5, 6]));
        }
        _ => panic!("a message through the relay"),
    }
}
