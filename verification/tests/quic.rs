//! Connections: who dials, what a datagram becomes on the way, and when to wake.

use std::sync::Arc;
use std::time::{Duration, Instant};

use bytes::BytesMut;
use quinn_proto::crypto::rustls::{QuicClientConfig, QuicServerConfig};
use quinn_proto::{
    ClientConfig, ConnectionHandle, DatagramEvent, Endpoint, EndpointConfig, MtuDiscoveryConfig,
    ServerConfig, TransportConfig,
};
use rustls::client::danger::{HandshakeSignatureValid, ServerCertVerified, ServerCertVerifier};
use rustls::pki_types::{CertificateDer, PrivatePkcs8KeyDer, ServerName, UnixTime};
use rustls::{DigitallySignedStruct, SignatureScheme};
use yipd::addr::SockAddr;
use yipd::quic::{
    client_peers, connection_role, first_symbol_size, quic_symbol_size, wait_for, ClientPeer,
    ConnEvent, ConnRole, DatagramRefusal, QuicEndpoint, QuicPeer, QuicSendError, QUIC_SYMBOL_CAP,
    QUIC_YIP_OVERHEAD,
};

// ── a pair of endpoints without a network ───────────────────────────────────

#[derive(Debug)]
struct AnyCert;

impl ServerCertVerifier for AnyCert {
    fn verify_server_cert(
        &self,
        _end_entity: &CertificateDer<'_>,
        _intermediates: &[CertificateDer<'_>],
        _server_name: &ServerName<'_>,
        _ocsp_response: &[u8],
        _now: UnixTime,
    ) -> Result<ServerCertVerified, rustls::Error> {
        Ok(ServerCertVerified::assertion())
    }

    fn verify_tls12_signature(
        &self,
        _message: &[u8],
        _cert: &CertificateDer<'_>,
        _dss: &DigitallySignedStruct,
    ) -> Result<HandshakeSignatureValid, rustls::Error> {
        Ok(HandshakeSignatureValid::assertion())
    }

    fn verify_tls13_signature(
        &self,
        _message: &[u8],
        _cert: &CertificateDer<'_>,
        _dss: &DigitallySignedStruct,
    ) -> Result<HandshakeSignatureValid, rustls::Error> {
        Ok(HandshakeSignatureValid::assertion())
    }

    fn supported_verify_schemes(&self) -> Vec<SignatureScheme> {
        provider().signature_verification_algorithms.supported_schemes()
    }
}

fn provider() -> rustls::crypto::CryptoProvider {
    rustls::crypto::ring::default_provider()
}

fn transport(datagrams: bool) -> Arc<TransportConfig> {
    let mut cfg = TransportConfig::default();
    cfg.datagram_receive_buffer_size(if datagrams { Some(4 * 1024 * 1024) } else { None });
    cfg.datagram_send_buffer_size(4 * 1024 * 1024);
    let mut mtud = MtuDiscoveryConfig::default();
    mtud.upper_bound(1452);
    cfg.mtu_discovery_config(Some(mtud));
    cfg.min_mtu(1200);
    cfg.initial_mtu(1200);
    Arc::new(cfg)
}

fn server_config(datagrams: bool) -> ServerConfig {
    let made = rcgen::generate_simple_self_signed(vec!["localhost".into()]).expect("a cert");
    let key = PrivatePkcs8KeyDer::from(made.key_pair.serialize_der());
    let mut tls = rustls::ServerConfig::builder_with_provider(Arc::new(provider()))
        .with_safe_default_protocol_versions()
        .expect("versions")
        .with_no_client_auth()
        .with_single_cert(vec![made.cert.into()], key.into())
        .expect("a server cert");
    tls.alpn_protocols = vec![b"h3".to_vec()];
    let crypto = QuicServerConfig::try_from(tls).expect("a QUIC config");
    let mut cfg = ServerConfig::with_crypto(Arc::new(crypto));
    cfg.transport_config(transport(datagrams));
    cfg
}

fn client_config() -> ClientConfig {
    let mut tls = rustls::ClientConfig::builder_with_provider(Arc::new(provider()))
        .with_safe_default_protocol_versions()
        .expect("versions")
        .dangerous()
        .with_custom_certificate_verifier(Arc::new(AnyCert))
        .with_no_client_auth();
    tls.alpn_protocols = vec![b"h3".to_vec()];
    let crypto = QuicClientConfig::try_from(tls).expect("a QUIC config");
    let mut cfg = ClientConfig::new(Arc::new(crypto));
    cfg.transport_config(transport(true));
    cfg
}

/// A loopback address, by its port.
fn at(port: u16) -> SockAddr {
    SockAddr::V4 { ip: 0x7F00_0001, port }
}

fn written(port: u16) -> String {
    format!("127.0.0.1:{port}")
}

struct Side {
    port: u16,
    endpoint: Endpoint,
    quic: QuicEndpoint,
    recvd: Vec<(SockAddr, Vec<u8>)>,
    newly_up: Vec<usize>,
}

/// A packet on its way: where to, and what.
type Packet = (u16, Vec<u8>);

impl Side {
    fn new(port: u16, datagrams: bool) -> Side {
        let server = Some(Arc::new(server_config(datagrams)));
        let endpoint = Endpoint::new(Arc::new(EndpointConfig::default()), server, true, None);
        let (recvd, newly_up) = (Vec::new(), Vec::new());
        Side { port, endpoint, quic: QuicEndpoint::new(), recvd, newly_up }
    }

    fn connect(&mut self, now: Instant, port: u16) {
        let to = written(port).parse().expect("an address");
        let (handle, conn) =
            self.endpoint.connect(now, client_config(), to, "localhost").expect("a connection");
        self.quic.add_conn(handle.0, conn, at(port));
    }

    fn take(&mut self, now: Instant, from: u16, data: &[u8], out: &mut Vec<Packet>) {
        let mut buf = Vec::new();
        let src = written(from).parse().expect("an address");
        let data = BytesMut::from(data);
        match self.endpoint.handle(now, src, None, None, data, &mut buf) {
            Some(DatagramEvent::ConnectionEvent(ch, ev)) => {
                if let Some(i) = self.quic.position(ch.0) {
                    self.quic.conns[i].conn.handle_event(ev);
                }
            }
            Some(DatagramEvent::Response(t)) => {
                out.push((t.destination.port(), buf[..t.size].to_vec()));
            }
            Some(DatagramEvent::NewConnection(incoming)) => {
                let mut buf = Vec::new();
                if let Ok((ch, conn)) = self.endpoint.accept(incoming, now, &mut buf, None) {
                    self.quic.add_conn(ch.0, conn, at(from));
                }
            }
            None => {}
        }
    }

    fn drive(&mut self, now: Instant, out: &mut Vec<Packet>) {
        for i in 0..self.quic.conns.len() {
            let handle = ConnectionHandle(self.quic.conns[i].handle);
            self.quic.conns[i].conn.handle_timeout(now);
            while let Some(ev) = self.quic.conns[i].conn.poll_endpoint_events() {
                if let Some(back) = self.endpoint.handle_event(handle, ev) {
                    self.quic.conns[i].conn.handle_event(back);
                }
            }
            self.quic.drive_conn(i, &mut self.recvd, &mut self.newly_up);
            self.flush(i, now, out);
        }
        self.quic.reap();
    }

    fn flush(&mut self, i: usize, now: Instant, out: &mut Vec<Packet>) {
        let mut buf = Vec::new();
        while let Some(t) = self.quic.conns[i].conn.poll_transmit(now, 1, &mut buf) {
            out.push((t.destination.port(), buf[..t.size].to_vec()));
            buf.clear();
        }
    }

    fn is_up(&self) -> bool {
        self.quic.conns.iter().any(|c| c.up)
    }
}

struct Pair {
    client: Side,
    server: Side,
    now: Instant,
    pending: Vec<Packet>,
}

impl Pair {
    fn new() -> Pair {
        Pair::with_datagrams(true)
    }

    fn with_datagrams(server_takes: bool) -> Pair {
        let mut client = Side::new(1, true);
        let server = Side::new(2, server_takes);
        let now = Instant::now();
        client.connect(now, 2);
        Pair { client, server, now, pending: Vec::new() }
    }

    fn round(&mut self) {
        self.client.drive(self.now, &mut self.pending);
        self.server.drive(self.now, &mut self.pending);
        for (to, bytes) in std::mem::take(&mut self.pending) {
            if to == self.server.port {
                self.server.take(self.now, self.client.port, &bytes, &mut self.pending);
            } else {
                self.client.take(self.now, self.server.port, &bytes, &mut self.pending);
            }
        }
        self.now += Duration::from_millis(1);
    }

    fn run(&mut self, rounds: usize) {
        for _ in 0..rounds {
            self.round();
        }
    }

    fn established(&self) -> bool {
        self.client.is_up() && self.server.is_up()
    }

    fn client_max_datagram(&mut self) -> Option<usize> {
        self.client.quic.conns.first_mut().and_then(|c| c.conn.datagrams().max_size())
    }

    fn send_client(&mut self, payload: &[u8]) -> Result<(), QuicSendError> {
        let i = self.client.quic.send_datagram(at(2), payload)?;
        self.client.flush(i, self.now, &mut self.pending);
        Ok(())
    }
}

#[test]
fn quic_symbol_size_matches_spec() {
    // Unchanged from the plain path.
    assert_eq!(quic_symbol_size(1414), 1200);
    // Constrained path: 1000 - 28 = 972.
    assert_eq!(quic_symbol_size(1000), 972);
    // Exactly at the cap boundary: 1228 - 28 = 1200.
    assert_eq!(quic_symbol_size(1228), 1200);
    // Pathologically small: nothing is left.
    assert_eq!(quic_symbol_size(10), 0);
}

#[test]
fn connection_role_is_by_static_key_order() {
    let small = [0x01u8; 32];
    let large = [0x02u8; 32];
    assert_eq!(connection_role(&small, &large), ConnRole::Client);
    assert_eq!(connection_role(&large, &small), ConnRole::Server);
    assert_eq!(connection_role(&small, &small), ConnRole::Server);
}

#[test]
fn client_server_handshake_reaches_1rtt() {
    let mut pair = Pair::new();
    pair.run(300);
    assert!(pair.established(), "both endpoints must reach 1-RTT");
}

#[test]
fn yip_datagram_round_trips_through_a_datagram_frame() {
    let mut pair = Pair::new();
    pair.run(300);
    assert!(pair.established(), "handshake must complete first");
    let payload = vec![0xABu8; 1000];
    pair.send_client(&payload).expect("send datagram");
    pair.run(30);
    assert!(
        pair.server.recvd.iter().any(|(addr, bytes)| *addr == at(1) && *bytes == payload),
        "server did not receive the datagram intact; got {:?}",
        pair.server.recvd
    );
}

#[test]
fn oversized_datagram_is_rejected_not_truncated() {
    let mut pair = Pair::new();
    pair.run(300);
    assert!(pair.established(), "handshake must complete first");
    let max = pair.client_max_datagram().expect("an established connection has a maximum");
    let err = pair.send_client(&vec![0x5Au8; max + 1]).expect_err("must be rejected");
    assert!(
        matches!(err, QuicSendError::Datagram(DatagramRefusal::TooLarge)),
        "expected TooLarge, got {err:?}"
    );
    pair.run(20);
    assert!(
        !pair.server.recvd.iter().any(|(_, bytes)| bytes.len() > max),
        "an over-max datagram must never appear on the peer"
    );
    assert!(pair.server.recvd.is_empty(), "nothing of it arrives");
}

#[test]
fn max_datagram_size_stays_within_symbol_budget() {
    let mut pair = Pair::new();
    pair.run(300);
    assert!(pair.established());
    let mds = pair.client_max_datagram().expect("established MDS");
    let sym = quic_symbol_size(mds);
    assert!(sym <= QUIC_SYMBOL_CAP, "symbol size {sym} exceeds cap");
    assert!(
        usize::from(sym) + QUIC_YIP_OVERHEAD <= mds || sym == QUIC_SYMBOL_CAP,
        "symbol size {sym} + overhead must fit MDS {mds}"
    );
}

#[test]
fn a_datagram_of_exactly_the_limit_is_taken_whole() {
    let mut pair = Pair::new();
    pair.run(300);
    let max = pair.client_max_datagram().expect("established MDS");
    let payload = vec![0x77u8; max];
    pair.send_client(&payload).expect("it fits");
    pair.run(30);
    assert_eq!(pair.server.recvd, vec![(at(1), payload)]);
}

#[test]
fn datagrams_arrive_in_order_and_once() {
    let mut pair = Pair::new();
    pair.run(300);
    for i in 0..3u8 {
        pair.send_client(&[i; 40]).expect("send");
    }
    pair.run(30);
    let got: Vec<Vec<u8>> = pair.server.recvd.iter().map(|(_, b)| b.clone()).collect();
    assert_eq!(got, vec![vec![0u8; 40], vec![1; 40], vec![2; 40]]);
}

#[test]
fn the_size_is_reported_once_when_a_connection_comes_up() {
    let mut pair = Pair::new();
    pair.run(300);
    assert_eq!(pair.client.newly_up.len(), 1);
    let mds = pair.client.newly_up[0];
    assert!(mds > QUIC_YIP_OVERHEAD);
    assert_eq!(first_symbol_size(false, &pair.client.newly_up), Some(quic_symbol_size(mds)));
    assert_eq!(first_symbol_size(true, &pair.client.newly_up), None);
    assert_eq!(first_symbol_size(false, &[]), None);
}

#[test]
fn nothing_is_sent_where_no_connection_is_up() {
    let mut pair = Pair::new();
    assert_eq!(pair.send_client(&[1]), Err(QuicSendError::NoConnection));
    pair.run(300);
    assert_eq!(pair.client.quic.send_datagram(at(9), &[1]), Err(QuicSendError::NoConnection));
}

#[test]
fn a_peer_that_takes_no_datagrams_refuses_them() {
    let mut pair = Pair::with_datagrams(false);
    pair.run(300);
    assert!(pair.established());
    assert!(pair.client.newly_up.is_empty(), "such a connection has no datagram size");
    assert_eq!(
        pair.send_client(&[1]),
        Err(QuicSendError::Datagram(DatagramRefusal::UnsupportedByPeer))
    );
}

#[test]
fn a_side_that_takes_no_datagrams_has_them_switched_off() {
    let mut pair = Pair::with_datagrams(false);
    pair.run(300);
    assert_eq!(
        pair.server.quic.send_datagram(at(1), &[1]),
        Err(QuicSendError::Datagram(DatagramRefusal::Disabled))
    );
}

#[test]
fn a_full_buffer_blocks() {
    let mut pair = Pair::new();
    pair.run(300);
    let mut blocked = false;
    for _ in 0..8_000 {
        match pair.client.quic.send_datagram(at(2), &[3u8; 1000]) {
            Ok(_) => {}
            Err(e) => {
                assert_eq!(e, QuicSendError::Datagram(DatagramRefusal::Blocked));
                blocked = true;
                break;
            }
        }
    }
    assert!(blocked, "four megabytes wait at most");
}

#[test]
fn a_lost_connection_is_dead_and_then_gone() {
    let mut pair = Pair::new();
    pair.run(300);
    let (mut recv, mut up) = (Vec::new(), Vec::new());
    pair.client.quic.on_event(0, ConnEvent::Lost, &mut recv, &mut up);
    assert!(pair.client.quic.conns[0].dead);
    assert!(!pair.client.quic.has_conn_to(at(2)));
    assert_eq!(pair.send_client(&[1]), Err(QuicSendError::NoConnection));
    pair.client.quic.reap();
    assert!(pair.client.quic.conns.is_empty());
}

#[test]
fn a_peer_is_redialled_once_a_second_and_only_without_a_connection() {
    let mut pair = Pair::new();
    let mut connected = ClientPeer { addr: at(2), last_attempt_ms: None };
    assert!(!pair.client.quic.redial(&mut connected, 0), "a handshake in flight is enough");
    assert_eq!(connected.last_attempt_ms, None);

    let mut other = ClientPeer { addr: at(7), last_attempt_ms: None };
    assert!(pair.client.quic.redial(&mut other, 500));
    assert_eq!(other.last_attempt_ms, Some(500));
    assert!(!pair.client.quic.redial(&mut other, 1_499));
    assert!(pair.client.quic.redial(&mut other, 1_500));
    assert_eq!(other.last_attempt_ms, Some(1_500));

    pair.client.quic.conns[0].dead = true;
    assert!(pair.client.quic.redial(&mut connected, 3_000));
}

#[test]
fn a_node_dials_the_peers_with_larger_keys() {
    let peers = [
        QuicPeer { public_key: [9u8; 32], addr: at(1) },
        QuicPeer { public_key: [1u8; 32], addr: at(2) },
        QuicPeer { public_key: [7u8; 32], addr: at(3) },
        QuicPeer { public_key: [5u8; 32], addr: at(4) },
    ];
    let dialled: Vec<SockAddr> =
        client_peers(&[5u8; 32], &peers).iter().map(|c| c.addr).collect();
    assert_eq!(dialled, vec![at(1), at(3)]);
}

#[test]
fn the_wait_is_the_soonest_timer_within_a_tick() {
    assert_eq!(wait_for(None), 10);
    assert_eq!(wait_for(Some(0)), 0);
    assert_eq!(wait_for(Some(9)), 9);
    assert_eq!(wait_for(Some(10)), 10);
    assert_eq!(wait_for(Some(u128::MAX)), 10);

    assert_eq!(QuicEndpoint::new().next_timeout_ms(&Instant::now()), 10);
    let mut pair = Pair::new();
    let now = pair.now;
    pair.run(3);
    assert_eq!(pair.client.quic.next_timeout_ms(&(now + Duration::from_secs(60))), 0);
}
