//! The peer table, driven from end to end by a small stand-in for what surrounds it: a
//! handshake, sessions, certificates, a path per peer, an envelope and a message codec.

use std::cell::RefCell;
use std::collections::HashSet;
use std::rc::Rc;
use std::time::{SystemTime, UNIX_EPOCH};

use yipd::addr::SockAddr;
use yipd::entropy::{jitter_ms, random_draw};
use yipd::epoch::{DataPlane, EpochSet, EpochSlot, OpenStep, RekeyInFlight, TunnelMode};
use yipd::peer::{
    Identity, PathAction, PathKind, PathStage, PathStep, PeerState, MAX_PENDING_TUN,
};
use yipd::peer_manager::egress::{finish_dispatch, own_dispatch, DispatchOut, Sealed};
use yipd::peer_manager::handshake::{Attempt, OpenedInit};
use yipd::peer_manager::obf::{
    enveloped, junk_body_len, junk_burst_len, Decoys, DeobfStep, ObfPlan, UdpKind, Unwrap, JUNK_BURST_MAX,
    JUNK_BURST_MIN, JUNK_MAX_LEN, JUNK_MIN_LEN, OBF_MTU_BUDGET,
};
use yipd::peer_manager::relay::{RdvStep, RelayedKind};
use yipd::peer_manager::rounds::{DrawFor, PeerTick, TickRound};
use yipd::peer_manager::routing::{
    data_step, DataRoute, DataStep, Member, Opened, PathMove, TunStep,
};
use yipd::peer_manager::{
    Completed, PeerConfig, PeerManager, Reaction, Root, Started, HANDSHAKE_RETRY_MS,
    HANDSHAKE_TOTAL_MS, REG_REFRESH_MS, REKEY_INTERVAL_MS,
};
use yipd::rendezvous::{RdvEvent, RdvProfile, Rendezvous};
use yipd::wire::{
    frame_init_payload, parse_init_payload, Body, EgressDatagram, Message, Record,
    WireCodes,
};

const INIT: u8 = 0;
const RESP: u8 = 1;
const DATA: u8 = 2;
const CONTROL: u8 = 3;
const GOSSIP: u8 = 4;
const JUNK_TYPE: u8 = 0xF0;
const RDV_TYPE: u8 = 0xF1;

fn codes() -> WireCodes {
    WireCodes {
        init: INIT,
        resp: RESP,
        data: DATA,
        control: CONTROL,
        gossip: GOSSIP,
        junk: JUNK_TYPE,
        rdv: RDV_TYPE,
        min_envelope: ENVELOPE,
    }
}

// ── small values ────────────────────────────────────────────────────────────

/// An IPv4 address and port, written the usual way.
fn sa(s: &str) -> SockAddr {
    let (host, port) = s.split_once(':').expect("host:port");
    let mut ip: u32 = 0;
    for part in host.split('.') {
        ip = ip * 256 + part.parse::<u32>().expect("octet");
    }
    SockAddr::V4 { ip, port: port.parse().expect("port") }
}

fn draw() -> u64 {
    random_draw().expect("the system has randomness")
}

fn random_bytes(n: usize) -> Vec<u8> {
    (0..n).map(|_| draw() as u8).collect()
}

fn random_key() -> [u8; 32] {
    let mut k = [0u8; 32];
    k.copy_from_slice(&random_bytes(32));
    k
}

#[derive(Clone, Copy)]
struct Keypair {
    public: [u8; 32],
}

fn generate_keypair() -> Keypair {
    Keypair { public: random_key() }
}

fn halves(key: &[u8; 32]) -> (u128, u128) {
    let mut a = [0u8; 16];
    let mut b = [0u8; 16];
    a.copy_from_slice(&key[..16]);
    b.copy_from_slice(&key[16..]);
    (u128::from_be_bytes(a), u128::from_be_bytes(b))
}

fn node_id(key: &[u8; 32]) -> u128 {
    let (a, b) = halves(key);
    a.rotate_left(3).wrapping_add(b.wrapping_mul(5))
}

fn node_addr(key: &[u8; 32]) -> u128 {
    let (a, b) = halves(key);
    (a.rotate_left(7).wrapping_add(b.wrapping_mul(11)) >> 8) | (0xfdu128 << 120)
}

fn identity(key: [u8; 32]) -> Identity {
    Identity { public_key: key, addr: node_addr(&key), node: node_id(&key) }
}

fn config(key: [u8; 32], endpoint: Option<SockAddr>) -> PeerConfig {
    PeerConfig { id: identity(key), endpoint }
}

fn peer_cfg(tag_byte: u8, endpoint: &str) -> PeerConfig {
    config([tag_byte; 32], Some(sa(endpoint)))
}

/// A label of the present moment, later than every label given before.
fn now_label() -> [u8; 12] {
    let nanos = || SystemTime::now().duration_since(UNIX_EPOCH).expect("after 1970");
    let first = nanos();
    let mut t = nanos();
    while t <= first {
        t = nanos();
    }
    let mut out = [0u8; 12];
    out[..8].copy_from_slice(&t.as_secs().to_be_bytes());
    out[8..].copy_from_slice(&t.subsec_nanos().to_be_bytes());
    out
}

fn shifted_ts(ts: [u8; 12], by: i64) -> [u8; 12] {
    let mut secs = [0u8; 8];
    secs.copy_from_slice(&ts[..8]);
    let moved = u64::from_be_bytes(secs).wrapping_add_signed(by);
    let mut out = ts;
    out[..8].copy_from_slice(&moved.to_be_bytes());
    out
}

fn older_ts(ts: [u8; 12]) -> [u8; 12] {
    shifted_ts(ts, -1)
}

fn newer_ts(ts: [u8; 12]) -> [u8; 12] {
    shifted_ts(ts, 1)
}

fn framed(cert: &[u8]) -> Vec<u8> {
    frame_init_payload(&now_label(), cert)
}

fn init_payload_with_ts(ts: [u8; 12], cert: &[u8]) -> Vec<u8> {
    let mut out = ts.to_vec();
    out.extend_from_slice(cert);
    out
}

// ── the handshake and its sessions ──────────────────────────────────────────

/// What an initiator keeps until it is answered.
#[derive(Debug, Clone)]
struct Half {
    eph: [u8; 32],
    peer: [u8; 32],
}

/// Both directions of a session; the two ends count apart.
#[derive(Debug)]
struct Session {
    key: u64,
    sent: u64,
    seen: Vec<u64>,
}

impl Session {
    fn seal(&mut self, inner: &[u8]) -> Vec<u8> {
        self.sent += 2;
        let mut b = vec![DATA];
        b.extend_from_slice(&(self.sent ^ self.key).to_be_bytes());
        b.extend_from_slice(&self.key.wrapping_add(self.sent).to_be_bytes());
        b.extend_from_slice(inner);
        b
    }

    /// What a datagram holds, once.
    fn open(&mut self, dg: &[u8]) -> Option<Vec<u8>> {
        if dg.len() < 17 || dg[0] != DATA {
            return None;
        }
        let count = be(&dg[1..9]) ^ self.key;
        if be(&dg[9..17]) != self.key.wrapping_add(count) || self.seen.contains(&count) {
            return None;
        }
        self.seen.push(count);
        Some(dg[17..].to_vec())
    }
}

fn be(b: &[u8]) -> u64 {
    let mut a = [0u8; 8];
    a.copy_from_slice(b);
    u64::from_be_bytes(a)
}

fn completed(eph: &[u8; 32], reph: &[u8; 32], initiator: bool) -> Completed<Session> {
    let key = be(&eph[..8]) ^ be(&reph[8..16]);
    let mut obf_key = [0u8; 16];
    for i in 0..16 {
        obf_key[i] = eph[i] ^ reph[i] ^ 0x3C;
    }
    Completed {
        session: Session { key, sent: if initiator { 0 } else { 1 }, seen: Vec::new() },
        conn_tag: be(&eph[16..24]) ^ be(&reph[24..32]),
        obf_key,
    }
}

/// `[init][ephemeral][initiator][responder][payload]`.
fn start_initiator(from: &[u8; 32], to: &[u8; 32], payload: &[u8]) -> (Half, Vec<u8>) {
    let eph = random_key();
    let mut pkt = vec![INIT];
    pkt.extend_from_slice(&eph);
    pkt.extend_from_slice(from);
    pkt.extend_from_slice(to);
    pkt.extend_from_slice(payload);
    (Half { eph, peer: *to }, pkt)
}

fn key_in(pkt: &[u8], at: usize) -> Option<[u8; 32]> {
    let mut k = [0u8; 32];
    k.copy_from_slice(pkt.get(at..at + 32)?);
    Some(k)
}

fn init_ephemeral(pkt: &[u8]) -> Option<[u8; 32]> {
    key_in(pkt, 1)
}

struct Responded {
    done: Completed<Session>,
    resp_pkt: Vec<u8>,
    remote: [u8; 32],
    payload: Vec<u8>,
    eph: [u8; 32],
}

/// Opens an init meant for `local` and answers it: `[resp][ephemeral][its ephemeral]
/// [responder][payload]`.
fn start_responder(local: &[u8; 32], pkt: &[u8], payload: &[u8]) -> Option<Responded> {
    let eph = key_in(pkt, 1)?;
    let remote = key_in(pkt, 33)?;
    if pkt[0] != INIT || key_in(pkt, 65)? != *local {
        return None;
    }
    let reph = random_key();
    let mut resp_pkt = vec![RESP];
    resp_pkt.extend_from_slice(&reph);
    resp_pkt.extend_from_slice(&eph);
    resp_pkt.extend_from_slice(local);
    resp_pkt.extend_from_slice(payload);
    let done = completed(&eph, &reph, false);
    Some(Responded { done, resp_pkt, remote, payload: pkt[97..].to_vec(), eph })
}

fn read_response(hs: &Half, pkt: &[u8]) -> Option<(Completed<Session>, Vec<u8>)> {
    let reph = key_in(pkt, 1)?;
    if pkt[0] != RESP || key_in(pkt, 33)? != hs.eph || key_in(pkt, 65)? != hs.peer {
        return None;
    }
    Some((completed(&hs.eph, &reph, true), pkt[97..].to_vec()))
}

fn session_plane(session: Session, conn_tag: u64, peer_addr: SockAddr) -> DataPlane<Session> {
    DataPlane { session, conn_tag, mode: TunnelMode::L3Tun, peer_addr, obf: false, symbol_size: 1200 }
}

fn fake_established_dataplane(conn_tag: u64, peer_addr: SockAddr) -> DataPlane<Session> {
    session_plane(Session { key: draw(), sent: 0, seen: Vec::new() }, conn_tag, peer_addr)
}

fn established_with(conn_tag: u64, peer_addr: SockAddr) -> PeerState<Session, Half> {
    PeerState::Established(EpochSet::new(fake_established_dataplane(conn_tag, peer_addr), 0))
}

// ── the envelope ────────────────────────────────────────────────────────────

/// A nonce, a check, the type and the length.
const ENVELOPE: usize = 15;

fn derive_key(secret: &[u8]) -> [u8; 16] {
    let mut k = [0x5Au8; 16];
    for (i, b) in secret.iter().enumerate() {
        k[i % 16] = k[i % 16].rotate_left(1) ^ b;
    }
    k
}

fn check_of(key: &[u8; 16], nonce: &[u8], tail: &[u8]) -> [u8; 4] {
    let mut h: u32 = 0x811c_9dc5;
    for b in key.iter().chain(nonce).chain(tail) {
        h = (h ^ u32::from(*b)).wrapping_mul(0x0100_0193);
    }
    h.to_be_bytes()
}

fn masked(key: &[u8; 16], nonce: &[u8], plain: &[u8]) -> Vec<u8> {
    let at = |i: usize| key[i % 16] ^ nonce[i % 8] ^ (i as u8);
    plain.iter().enumerate().map(|(i, b)| b ^ at(i)).collect()
}

fn obfuscate(key: &[u8; 16], ptype: u8, body: &[u8], pad: usize) -> Vec<u8> {
    let nonce = random_bytes(8);
    let len = u16::try_from(body.len()).expect("a datagram's body");
    let mut plain = vec![ptype];
    plain.extend_from_slice(&len.to_be_bytes());
    plain.extend_from_slice(body);
    plain.extend_from_slice(&random_bytes(pad));
    let mut out = nonce.clone();
    out.extend_from_slice(&check_of(key, &nonce, &plain));
    out.extend_from_slice(&masked(key, &nonce, &plain));
    out
}

fn deobfuscate(key: &[u8; 16], dg: &[u8]) -> Option<(u8, Vec<u8>)> {
    if dg.len() < ENVELOPE {
        return None;
    }
    let plain = masked(key, &dg[..8], &dg[12..]);
    let len = usize::from(u16::from_be_bytes([plain[1], plain[2]]));
    if check_of(key, &dg[..8], &plain) != dg[8..12] || plain.len() < 3 + len {
        return None;
    }
    Some((plain[0], plain[3..3 + len].to_vec()))
}

// ── the message codec ───────────────────────────────────────────────────────

fn put_addr(a: &SockAddr, out: &mut Vec<u8>) {
    match a {
        SockAddr::V4 { ip, port } => {
            out.extend_from_slice(&ip.to_be_bytes());
            out.extend_from_slice(&port.to_be_bytes());
        }
        SockAddr::V6 { .. } => panic!("only IPv4 here"),
    }
}

fn get_addr(b: &[u8]) -> Option<SockAddr> {
    let ip = u32::from_be_bytes([*b.first()?, *b.get(1)?, *b.get(2)?, *b.get(3)?]);
    let port = u16::from_be_bytes([*b.get(4)?, *b.get(5)?]);
    Some(SockAddr::V4 { ip, port })
}

fn get_id(b: &[u8], at: usize) -> Option<u128> {
    let mut a = [0u8; 16];
    a.copy_from_slice(b.get(at..at + 16)?);
    Some(u128::from_be_bytes(a))
}

fn encode(msg: &Message) -> Vec<u8> {
    let mut out = Vec::new();
    match msg {
        Message::Register { node, counter } => {
            out.push(0);
            out.extend_from_slice(&node.to_be_bytes());
            out.extend_from_slice(&counter.to_be_bytes());
        }
        Message::RegisterSigned { record } => {
            out.push(1);
            out.extend_from_slice(&record.node_id.to_be_bytes());
            out.extend_from_slice(&record.encoded);
        }
        Message::Lookup { node } => {
            out.push(2);
            out.extend_from_slice(&node.to_be_bytes());
        }
        Message::PeerInfo { node, reflexive, record } => {
            out.push(3);
            out.extend_from_slice(&node.to_be_bytes());
            put_addr(reflexive, &mut out);
            if let Some(r) = record {
                out.extend_from_slice(&r.node_id.to_be_bytes());
                out.extend_from_slice(&r.encoded);
            }
        }
        Message::PunchHint { node, reflexive } => {
            out.push(4);
            out.extend_from_slice(&node.to_be_bytes());
            put_addr(reflexive, &mut out);
        }
        Message::RelaySend { src, dst, payload } => {
            out.push(5);
            out.extend_from_slice(&src.to_be_bytes());
            out.extend_from_slice(&dst.to_be_bytes());
            out.extend_from_slice(payload);
        }
        Message::RelayDeliver { src, payload } => {
            out.push(6);
            out.extend_from_slice(&src.to_be_bytes());
            out.extend_from_slice(payload);
        }
        Message::NotFound { node } => {
            out.push(7);
            out.extend_from_slice(&node.to_be_bytes());
        }
    }
    out
}

fn decode(b: &[u8]) -> Option<Message> {
    let node = get_id(b, 1)?;
    let rest = &b[17..];
    match b[0] {
        0 => Some(Message::Register { node, counter: be(rest.get(..8)?) }),
        1 => {
            Some(Message::RegisterSigned { record: Record { node_id: node, encoded: rest.to_vec() } })
        }
        2 => Some(Message::Lookup { node }),
        3 => {
            let reflexive = get_addr(rest)?;
            let record = get_id(rest, 6).map(|id| Record { node_id: id, encoded: rest[22..].to_vec() });
            Some(Message::PeerInfo { node, reflexive, record })
        }
        4 => Some(Message::PunchHint { node, reflexive: get_addr(rest)? }),
        5 => {
            let dst = get_id(rest, 0)?;
            Some(Message::RelaySend { src: node, dst, payload: rest[16..].to_vec() })
        }
        6 => Some(Message::RelayDeliver { src: node, payload: rest.to_vec() }),
        7 => Some(Message::NotFound { node }),
        _ => None,
    }
}

// ── certificates and the directory ──────────────────────────────────────────

const CA: u8 = 42;

#[derive(Clone, Debug, PartialEq)]
struct Cert {
    ca: u8,
    member: [u8; 32],
    not_after: u64,
}

impl Cert {
    fn encoded(&self) -> Vec<u8> {
        let mut out = b"CERT".to_vec();
        out.push(self.ca);
        out.extend_from_slice(&self.member);
        out.extend_from_slice(&self.not_after.to_be_bytes());
        out
    }

    fn decode(b: &[u8]) -> Option<Cert> {
        if b.len() != 45 || &b[..4] != b"CERT" {
            return None;
        }
        Some(Cert { ca: b[4], member: key_in(b, 5)?, not_after: be(&b[37..45]) })
    }
}

fn mk_cert(ca: u8, member: [u8; 32]) -> Cert {
    Cert { ca, member, not_after: u64::MAX }
}

/// What a member publishes of itself.
#[derive(Clone, Debug)]
struct Entry {
    cert: Cert,
    endpoints: Vec<SockAddr>,
}

fn mk_record(ca: u8, member: [u8; 32], endpoints: Vec<SockAddr>) -> Entry {
    Entry { cert: mk_cert(ca, member), endpoints }
}

impl Entry {
    fn encoded(&self) -> Vec<u8> {
        let mut out = self.cert.encoded();
        for e in &self.endpoints {
            put_addr(e, &mut out);
        }
        out
    }

    fn decode(b: &[u8]) -> Option<Entry> {
        let cert = Cert::decode(b.get(..45)?)?;
        let endpoints = b[45..].chunks(6).map(get_addr).collect::<Option<Vec<SockAddr>>>()?;
        Some(Entry { cert, endpoints })
    }

    fn record(&self) -> Record {
        Record { node_id: node_id(&self.cert.member), encoded: self.encoded() }
    }
}

fn wall_secs() -> u64 {
    yipd::clock::now_secs()
}

struct Directory {
    own: Cert,
    roots: Vec<Root>,
    entries: Vec<Entry>,
}

impl Directory {
    fn trusts(&self, cert: &Cert, now_secs: u64) -> bool {
        cert.ca == CA && now_secs < cert.not_after
    }

    fn ingest_record(&mut self, e: Entry, now_secs: u64) -> bool {
        let ok = self.trusts(&e.cert, now_secs);
        if ok {
            self.entries.push(e);
        }
        ok
    }

    fn resolve(&self, addr: u128) -> Option<&Entry> {
        self.entries.iter().find(|e| node_addr(&e.cert.member) == addr)
    }

    fn cert_covers(&self, cert: &[u8], key: &[u8; 32]) -> bool {
        match Cert::decode(cert) {
            Some(c) => c.member == *key && self.trusts(&c, wall_secs()),
            None => false,
        }
    }

    fn member_cert_valid(&self, key: &[u8; 32]) -> bool {
        match self.entries.iter().find(|e| e.cert.member == *key) {
            Some(e) => self.trusts(&e.cert, wall_secs()),
            None => true,
        }
    }
}

fn directory_for(own: [u8; 32], roots: Vec<Root>) -> Directory {
    Directory { own: mk_cert(CA, own), roots, entries: Vec::new() }
}

fn root(key: [u8; 32], addr: SockAddr) -> Root {
    Root { id: identity(key), addr }
}

// ── the path of a peer ──────────────────────────────────────────────────────

const DIRECT_MS: u64 = 3_000;
const PUNCH_MS: u64 = 5_000;

struct Path {
    stage: PathStage,
    endpoint: Option<SockAddr>,
    candidate: Option<SockAddr>,
    since: Option<u64>,
    settled: Option<PathKind>,
}

impl Path {
    fn on_peer_candidate(&mut self, addr: SockAddr, now_ms: u64) {
        self.candidate = Some(addr);
        self.stage = PathStage::Punching;
        self.since = Some(now_ms);
    }

    fn advance(&mut self, now_ms: u64) -> PathStep {
        let since = *self.since.get_or_insert(now_ms);
        if self.stage == PathStage::Direct && now_ms - since >= DIRECT_MS {
            self.stage = PathStage::Punching;
            self.since = Some(now_ms);
        } else if self.stage == PathStage::Punching && now_ms - since >= PUNCH_MS {
            self.stage = PathStage::Relaying;
        }
        let action = match self.stage {
            PathStage::Direct => match self.endpoint {
                Some(a) => PathAction::Probe(a),
                None => PathAction::Idle,
            },
            PathStage::Punching => match self.candidate {
                Some(a) => PathAction::Probe(a),
                None => PathAction::NeedLookup,
            },
            PathStage::Relaying => PathAction::Relay,
            PathStage::Failed => PathAction::Failed,
        };
        PathStep { stage: self.stage, action }
    }
}

// ── a server client that keeps what it is asked to send ─────────────────────

struct MockRdv {
    server: SockAddr,
    sent: Rc<RefCell<Vec<Vec<u8>>>>,
}

impl MockRdv {
    fn to_server(&self, msg: Message) -> EgressDatagram {
        self.sent.borrow_mut().push(encode(&msg));
        EgressDatagram { fate: 0, dst: self.server, body: Body::Server(msg) }
    }
}

impl Rendezvous for MockRdv {
    fn profile(&self) -> RdvProfile {
        RdvProfile { server: self.server, registers: true, names_lookups: true }
    }

    fn register(&mut self, node: u128, signed: Option<Record>) -> Option<EgressDatagram> {
        Some(match signed {
            Some(record) => self.to_server(Message::RegisterSigned { record }),
            None => self.to_server(Message::Register { node, counter: 0 }),
        })
    }

    fn lookup(&mut self, node: u128) -> EgressDatagram {
        self.to_server(Message::Lookup { node })
    }

    fn relay(&mut self, src: u128, dst: u128, payload: &[u8]) -> EgressDatagram {
        self.to_server(Message::RelaySend { src, dst, payload: payload.to_vec() })
    }

    fn parse(&self, msg: Option<Message>) -> RdvEvent {
        match msg {
            Some(Message::PeerInfo { node, reflexive, record }) => {
                RdvEvent::PeerCandidate { node, addr: reflexive, record }
            }
            Some(Message::PunchHint { node, reflexive }) => {
                RdvEvent::PunchTo { node, addr: reflexive }
            }
            Some(Message::RelayDeliver { src, payload }) => RdvEvent::Relayed { src, payload },
            Some(Message::NotFound { node }) => RdvEvent::NotFound { node },
            _ => RdvEvent::Ignored,
        }
    }

    fn server_addr(&self) -> SockAddr {
        self.server
    }
}

fn mock_server() -> SockAddr {
    sa("203.0.113.1:51821")
}

// ── a node ──────────────────────────────────────────────────────────────────

type Manager = PeerManager<MockRdv, Session, Half>;

/// A datagram as it goes out.
#[derive(Debug, Clone, PartialEq)]
struct Wire {
    fate: u16,
    dst: SockAddr,
    bytes: Vec<u8>,
}

#[derive(Debug)]
enum Out {
    Nothing,
    Tun(Vec<u8>),
    Udp(Vec<Wire>),
    Both(Vec<u8>, Vec<Wire>),
}

impl Out {
    fn is_nothing(&self) -> bool {
        matches!(self, Out::Nothing)
    }

    fn udp(&self) -> &[Wire] {
        match self {
            Out::Udp(e) | Out::Both(_, e) => e,
            _ => &[],
        }
    }
}

struct Node {
    pm: Manager,
    paths: Vec<Path>,
    directory: Option<Directory>,
}

fn node(local: [u8; 32], peers: &[PeerConfig]) -> Node {
    node_with(local, peers, TunnelMode::L3Tun, None, None)
}

fn node_with(
    local: [u8; 32],
    peers: &[PeerConfig],
    mode: TunnelMode,
    rendezvous: Option<MockRdv>,
    directory: Option<Directory>,
) -> Node {
    let roots = directory.as_ref().map(|d| d.roots.clone());
    let pm = PeerManager::new(
        identity(local),
        peers,
        mode,
        codes(),
        rendezvous,
        roots,
        false,
        REKEY_INTERVAL_MS,
    );
    let mut n = Node { pm, paths: Vec::new(), directory };
    n.sync();
    n
}

type SentLog = Rc<RefCell<Vec<Vec<u8>>>>;

fn mock_rdv() -> (MockRdv, SentLog) {
    let sent: SentLog = Rc::new(RefCell::new(Vec::new()));
    (MockRdv { server: mock_server(), sent: sent.clone() }, sent)
}

fn pm_with_mock_rdv(local: &Keypair, peers: &[PeerConfig]) -> (Node, SentLog) {
    let (rdv, sent) = mock_rdv();
    (node_with(local.public, peers, TunnelMode::L3Tun, Some(rdv), None), sent)
}

impl Node {
    fn local(&self) -> [u8; 32] {
        self.pm.local.public_key
    }

    /// A path for each peer that has none yet.
    fn sync(&mut self) {
        for p in self.pm.peers.iter().skip(self.paths.len()) {
            let (stage, endpoint) = (p.stage, p.endpoint);
            self.paths.push(Path { stage, endpoint, candidate: None, since: None, settled: None });
        }
    }

    fn set_obf_psk(&mut self, psk: Option<[u8; 32]>) {
        self.pm.set_obf_psk(psk.map(|p| derive_key(&p)));
    }

    fn own_cert(&self) -> Vec<u8> {
        self.directory.as_ref().map(|d| d.own.encoded()).unwrap_or_default()
    }

    fn cert_valid(&self, cert: &[u8], key: &[u8; 32]) -> bool {
        match &self.directory {
            Some(d) => d.cert_covers(cert, key),
            None => false,
        }
    }

    fn start_toward(&self, idx: usize) -> Started<Half> {
        let payload = framed(&self.own_cert());
        let (hs, init_pkt) =
            start_initiator(&self.local(), &self.pm.peers[idx].id.public_key, &payload);
        Started { hs, init_pkt }
    }

    fn decoys(&self) -> Decoys {
        let n = junk_burst_len(draw());
        let bodies = (0..n).map(|_| random_bytes(junk_body_len(draw()))).collect();
        Decoys::new(bodies).expect("drawn within the bounds")
    }

    fn begin(
        &mut self,
        idx: usize,
        target: SockAddr,
        via_relay: bool,
        now_ms: u64,
    ) -> Option<Vec<EgressDatagram>> {
        let started = Some(self.start_toward(idx));
        let decoys =
            if self.pm.obf_key.is_some() && !via_relay { Some(self.decoys()) } else { None };
        self.pm.begin_handshake(idx, target, via_relay, now_ms, started, draw(), decoys)
    }

    /// What `begin` sends, before any envelope.
    fn begin_handshake(
        &mut self,
        idx: usize,
        target: SockAddr,
        via_relay: bool,
        now_ms: u64,
    ) -> Option<Vec<Wire>> {
        let out = self.begin(idx, target, via_relay, now_ms)?;
        Some(out.into_iter().map(plain).collect())
    }

    fn seal(&mut self, idx: usize, packets: &[Vec<u8>]) -> Vec<EgressDatagram> {
        let PeerState::Established(epochs) = &mut self.pm.peers[idx].state else {
            panic!("only a session seals");
        };
        let dp = &mut epochs.current;
        let sealed: Vec<Sealed> = packets
            .iter()
            .map(|p| {
                let bytes = dp.session.seal(p);
                Sealed { fate: (dp.session.sent >> 1) as u16, dst: dp.peer_addr, bytes }
            })
            .collect();
        self.pm.sealed_egress(idx, sealed)
    }

    fn open(&mut self, idx: usize, dg: &[u8]) -> Option<Opened> {
        let PeerState::Established(epochs) = &mut self.pm.peers[idx].state else {
            return None;
        };
        let mut tried = Vec::new();
        let mut found = None;
        let (slot, inner) = loop {
            match epochs.open_step(&tried) {
                OpenStep::Try(slot) => {
                    let dp = match slot {
                        EpochSlot::Current => Some(&mut epochs.current),
                        EpochSlot::Next => epochs.next.as_mut().map(|n| &mut n.dp),
                        EpochSlot::Previous => epochs.previous.as_mut(),
                    };
                    found = dp.and_then(|d| d.session.open(dg));
                    tried.push(found.is_some());
                }
                OpenStep::Opened(slot) => break (slot, found?),
                OpenStep::Closed => return None,
            }
        };
        let tun = if inner.is_empty() { None } else { Some(inner) };
        Some(Opened { slot, tun, send: Vec::new() })
    }

    fn react(&mut self, r: Reaction) -> DispatchOut {
        let mut egress = r.egress;
        if let Some((idx, packets)) = r.seal {
            egress.extend(self.seal(idx, &packets));
        }
        self.sync();
        if let Some((idx, kind)) = r.settled {
            assert_eq!(self.pm.peers[idx].path_kind, Some(kind));
            self.paths[idx].settled = Some(kind);
        }
        finish_dispatch(None, egress)
    }

    fn open_init(&self, dg: &[u8]) -> Option<OpenedInit<Session>> {
        let r = start_responder(&self.local(), dg, &self.own_cert())?;
        let cert_valid = match parse_init_payload(&r.payload) {
            Some((_, cert)) => self.cert_valid(&cert, &r.remote),
            None => false,
        };
        Some(OpenedInit {
            done: r.done,
            resp_pkt: r.resp_pkt,
            remote: identity(r.remote),
            payload: r.payload,
            eph: r.eph,
            cert_valid,
        })
    }

    fn on_init(&mut self, src: SockAddr, dg: &[u8], now_ms: u64) -> DispatchOut {
        match self.open_init(dg) {
            Some(opened) => {
                let r = self.pm.handle_handshake_init(src, opened, now_ms);
                self.react(r)
            }
            None => DispatchOut::Nothing,
        }
    }

    fn relayed_init(&mut self, idx: usize, dg: &[u8], now_ms: u64) -> DispatchOut {
        match self.open_init(dg) {
            Some(opened) => {
                let r = self.pm.relayed_handshake_init(idx, opened, now_ms);
                self.react(r)
            }
            None => DispatchOut::Nothing,
        }
    }

    fn on_resp(
        &mut self,
        attempt: Option<Attempt<Half>>,
        src: Option<SockAddr>,
        dg: &[u8],
        now_ms: u64,
    ) -> DispatchOut {
        let Some(a) = attempt else {
            return DispatchOut::Nothing;
        };
        let (done, cert_valid) = match read_response(&a.hs, dg) {
            Some((done, cert)) => (Some(done), self.cert_valid(&cert, &a.hs.peer)),
            None => (None, false),
        };
        let r = match a.rekey_target {
            Some(t) => self.pm.rekey_resp_core(a.peer, t, src.is_none(), done, cert_valid, now_ms),
            None => self.pm.complete_handshake(a.peer, src, done, cert_valid, now_ms),
        };
        self.react(r)
    }

    fn on_data(&mut self, src: SockAddr, dg: &[u8], now_ms: u64) -> DispatchOut {
        match self.pm.handle_data_or_control(src, dg, now_ms) {
            DataRoute::To(i) => {
                let opened = self.open(i, dg);
                self.pm.dispatch_established(i, src, opened, now_ms)
            }
            DataRoute::Try(order) => {
                let mut tried = Vec::new();
                let mut opened = None;
                loop {
                    match data_step(&order, &tried) {
                        DataStep::Try(i) => {
                            opened = self.open(i, dg);
                            tried.push(opened.is_some());
                        }
                        DataStep::Deliver(i) => {
                            return self.pm.dispatch_established(i, src, opened, now_ms);
                        }
                        DataStep::Drop => return DispatchOut::Nothing,
                    }
                }
            }
        }
    }

    fn on_gossip(&mut self, src: SockAddr, dg: &[u8]) -> DispatchOut {
        if self.pm.on_gossip(src).is_none() {
            return DispatchOut::Nothing;
        }
        if let (Some(e), Some(d)) = (Entry::decode(&dg[1..]), &mut self.directory) {
            d.ingest_record(e, wall_secs());
        }
        DispatchOut::Nothing
    }

    fn on_rdv(&mut self, dg: &[u8], now_ms: u64) -> DispatchOut {
        let msg = decode(dg);
        let record_valid = match (&msg, &self.directory) {
            (Some(Message::PeerInfo { record: Some(r), .. }), Some(d)) => {
                Entry::decode(&r.encoded).is_some_and(|e| {
                    node_id(&e.cert.member) == r.node_id && d.trusts(&e.cert, wall_secs())
                })
            }
            _ => false,
        };
        match self.pm.on_rdv(msg, record_valid) {
            RdvStep::Nothing => DispatchOut::Nothing,
            RdvStep::Candidate { peer, addr, begin } => {
                self.paths[peer].on_peer_candidate(addr, now_ms);
                self.pm.set_stage(peer, self.paths[peer].stage);
                if begin {
                    let out = self.begin(peer, addr, false, now_ms).unwrap_or_default();
                    return finish_dispatch(None, out);
                }
                DispatchOut::Nothing
            }
            RdvStep::Relayed { peer, kind, dg } => match kind {
                RelayedKind::Init => self.relayed_init(peer, &dg, now_ms),
                RelayedKind::Resp => {
                    let attempt = self.pm.relayed_handshake_resp(peer);
                    self.on_resp(attempt, None, &dg, now_ms)
                }
                RelayedKind::Data => {
                    let opened = self.open(peer, &dg);
                    self.pm.relayed_data(peer, opened, now_ms)
                }
            },
        }
    }

    fn on_plain(&mut self, src: SockAddr, dg: &[u8], now_ms: u64) -> DispatchOut {
        match self.pm.on_udp_dispatch(src, dg) {
            UdpKind::Drop => DispatchOut::Nothing,
            UdpKind::Server => self.on_rdv(dg, now_ms),
            UdpKind::Init => self.on_init(src, dg, now_ms),
            UdpKind::Resp => {
                let attempt = self.pm.handle_handshake_resp(src);
                self.on_resp(attempt, Some(src), dg, now_ms)
            }
            UdpKind::Gossip => self.on_gossip(src, dg),
            UdpKind::Data => self.on_data(src, dg, now_ms),
        }
    }

    /// What a datagram unmasks to, by the keys in the order in which they are tried.
    fn deobf_ingress(&self, src: SockAddr, dg: &[u8]) -> Option<Vec<u8>> {
        let mut answers = Vec::new();
        loop {
            match self.pm.deobf_ingress(src, &answers) {
                DeobfStep::Try(key) => answers.push(deobfuscate(&key, dg)),
                DeobfStep::Drop => return None,
                DeobfStep::Deliver(plain) => return Some(plain),
            }
        }
    }

    fn on_udp(&mut self, src: SockAddr, dg: &[u8], now_ms: u64) -> Out {
        let out = match self.pm.on_udp(src, dg) {
            Unwrap::Plain => self.on_plain(src, dg, now_ms),
            Unwrap::Drop => DispatchOut::Nothing,
            Unwrap::Server(key) => match self.pm.server_message(deobfuscate(&key, dg)) {
                Some(body) => self.on_rdv(&body, now_ms),
                None => DispatchOut::Nothing,
            },
            Unwrap::Trials => match self.deobf_ingress(src, dg) {
                Some(plain) => self.on_plain(src, &plain, now_ms),
                None => DispatchOut::Nothing,
            },
        };
        let (tun, udp) = own_dispatch(out);
        let wires: Vec<Wire> = udp.into_iter().map(|d| self.wrapped(d)).collect();
        match (tun, wires.is_empty()) {
            (Some(t), true) => Out::Tun(t),
            (Some(t), false) => Out::Both(t, wires),
            (None, false) => Out::Udp(wires),
            (None, true) => Out::Nothing,
        }
    }

    fn wrapped(&self, d: EgressDatagram) -> Wire {
        let w = plain(d);
        let plan = self.pm.obf_egress(w.dst, &w.bytes);
        let envelope = match plan {
            ObfPlan::Keep => None,
            ObfPlan::Wrap { key, ptype, skip, pad_max } => {
                let pad = yipd::entropy::random_pad(pad_max).expect("randomness");
                Some(obfuscate(&key, ptype, &w.bytes[skip..], pad))
            }
        };
        let bytes = enveloped(&plan, w.bytes, envelope).expect("every envelope is made here");
        Wire { bytes, fate: w.fate, dst: w.dst }
    }

    fn moved(&mut self, idx: usize, step: PathMove, now_ms: u64) -> Vec<EgressDatagram> {
        match step {
            PathMove::Begin { target, via_relay } => {
                self.begin(idx, target, via_relay, now_ms).unwrap_or_default()
            }
            PathMove::Ask(d) => d.into_iter().collect(),
            PathMove::Nothing => Vec::new(),
        }
    }

    fn on_tun(&mut self, inner: &[u8], now_ms: u64) -> Vec<Wire> {
        let resolved = match (self.pm.tun_to_resolve(inner), &self.directory) {
            (Some(addr), Some(d)) => d.resolve(addr).map(|e| Member {
                id: identity(e.cert.member),
                endpoints: e.endpoints.clone(),
            }),
            _ => None,
        };
        let step = self.pm.on_tun_dispatch(inner, resolved, now_ms);
        self.sync();
        let out = match step {
            TunStep::Drop | TunStep::Queued => Vec::new(),
            TunStep::Seal(i) => self.seal(i, &[inner.to_vec()]),
            TunStep::Probe(i, addr) => self.begin(i, addr, false, now_ms).unwrap_or_default(),
            TunStep::AskPath(i) => {
                let asked = self.paths[i].advance(now_ms);
                let m = self.pm.drive_path_idle(i, asked, now_ms);
                self.moved(i, m, now_ms)
            }
        };
        out.into_iter().map(|d| self.wrapped(d)).collect()
    }

    /// The answers for one peer's turn, given what its path said.
    fn turn(&mut self, idx: usize, path: Option<PathStep>, d: Option<DrawFor>) -> PeerTick<Half> {
        let started = d.map(|_| self.start_toward(idx));
        let decoys = if self.pm.takes_decoys(d) { Some(self.decoys()) } else { None };
        PeerTick { path, started, decoys, draw: draw(), retire: false, session: Vec::new() }
    }

    /// One round of a tick. Gossip is driven by the tests that are about it.
    fn round(&mut self, round: TickRound, now_ms: u64) -> Vec<EgressDatagram> {
        match round {
            TickRound::Register => {
                let signed = self.directory.as_ref().map(|d| {
                    Entry { cert: d.own.clone(), endpoints: vec![sa("10.0.0.1:51820")] }.record()
                });
                self.pm.tick_register(signed, now_ms, draw())
            }
            TickRound::Peers => {
                let mut turns = Vec::new();
                for i in 0..self.pm.peers.len() {
                    let asked = self.pm.may_escalate(i);
                    let path = if asked { Some(self.paths[i].advance(now_ms)) } else { None };
                    let d = self.pm.draw_for(i, path, now_ms);
                    turns.push(self.turn(i, path, d));
                }
                self.pm.tick_peers(turns, now_ms)
            }
            TickRound::Idle => {
                let mut turns = Vec::new();
                for i in 0..self.pm.peers.len() {
                    let asked = self.pm.asks_idle(i);
                    let path = if asked { Some(self.paths[i].advance(now_ms)) } else { None };
                    let d = self.pm.idle_draw_for(i, path, now_ms);
                    turns.push(self.turn(i, path, d));
                }
                self.pm.tick_idle(turns, now_ms)
            }
            TickRound::Gossip => Vec::new(),
            TickRound::Cover => {
                let bodies: Vec<Option<Vec<u8>>> = (0..self.pm.peers.len())
                    .map(|i| {
                        if self.pm.cover_due(i, now_ms) {
                            Some(random_bytes(junk_body_len(draw())))
                        } else {
                            None
                        }
                    })
                    .collect();
                self.pm.tick_covers(&bodies, now_ms)
            }
            TickRound::Sweep => {
                let d = self.directory.as_ref().expect("only a mesh is swept");
                let valid: Vec<bool> =
                    self.pm.peers.iter().map(|p| d.member_cert_valid(&p.id.public_key)).collect();
                self.pm.tick_sweep(&valid, now_ms);
                Vec::new()
            }
        }
    }

    fn tick(&mut self, now_ms: u64) -> Option<Vec<Wire>> {
        let mut out = Vec::new();
        let mut last = None;
        while let Some(round) = self.pm.tick_step(last, now_ms) {
            out.extend(self.round(round, now_ms));
            last = Some(round);
        }
        if out.is_empty() {
            return None;
        }
        Some(out.into_iter().map(|d| self.wrapped(d)).collect())
    }
}

fn plain(d: EgressDatagram) -> Wire {
    let bytes = match d.body {
        Body::Tunnel(b) => b,
        Body::Server(m) => encode(&m),
    };
    Wire { fate: d.fate, dst: d.dst, bytes }
}

// ── what the tests look at ──────────────────────────────────────────────────

fn epochs(n: &Node, idx: usize) -> Option<&EpochSet<Session, Half>> {
    match &n.pm.peers[idx].state {
        PeerState::Established(e) => Some(e),
        _ => None,
    }
}

fn established_tag(n: &Node, idx: usize) -> Option<u64> {
    epochs(n, idx).map(|e| e.current.conn_tag)
}

fn next_conn_tag(n: &Node) -> u64 {
    epochs(n, 0).expect("Established").next.as_ref().expect("next must be installed").dp.conn_tag
}

fn is_idle(n: &Node, idx: usize) -> bool {
    matches!(n.pm.peers[idx].state, PeerState::Idle)
}

fn is_handshaking(n: &Node, idx: usize) -> bool {
    matches!(n.pm.peers[idx].state, PeerState::Handshaking(_))
}

fn is_established(n: &Node, idx: usize) -> bool {
    matches!(n.pm.peers[idx].state, PeerState::Established(_))
}

fn resp_bytes(out: &Out) -> Vec<Vec<u8>> {
    out.udp().iter().filter(|d| d.bytes[0] == RESP).map(|d| d.bytes.clone()).collect()
}

fn dummy_tun_pkt() -> Vec<u8> {
    vec![0x45u8; 40]
}

fn ipv6_pkt_to(dst: u128) -> Vec<u8> {
    let mut inner = vec![0u8; 40];
    inner[0] = 0x60;
    inner[24..40].copy_from_slice(&dst.to_be_bytes());
    inner
}

/// The payloads of the given kind in messages for the relay.
fn relayed_bytes(out: &[Wire], kind: u8) -> Vec<Vec<u8>> {
    out.iter()
        .filter(|d| d.dst == mock_server())
        .filter_map(|d| match decode(&d.bytes) {
            Some(Message::RelaySend { payload, .. }) if payload.first() == Some(&kind) => {
                Some(payload)
            }
            _ => None,
        })
        .collect()
}

fn has_handshake_init(out: &Option<Vec<Wire>>) -> bool {
    out.iter().flatten().any(|d| d.dst != mock_server() && d.bytes[0] == INIT)
}

fn has_relayed_handshake_init(out: &[Wire]) -> bool {
    !relayed_bytes(out, INIT).is_empty()
}

fn has_relayed_handshake_resp(out: &Out) -> bool {
    !relayed_bytes(out.udp(), RESP).is_empty()
}

fn is_relay_send(d: &Wire) -> bool {
    d.dst == mock_server() && matches!(decode(&d.bytes), Some(Message::RelaySend { .. }))
}

fn relay_deliver(src: &[u8; 32], payload: Vec<u8>) -> Vec<u8> {
    encode(&Message::RelayDeliver { src: node_id(src), payload })
}

fn wrap_relay_deliver(n: &Node, payload: &[u8]) -> Vec<u8> {
    encode(&Message::RelayDeliver { src: n.pm.peers[0].id.node, payload: payload.to_vec() })
}

fn peer_info(node: u128, reflexive: SockAddr, record: Option<Record>) -> Vec<u8> {
    encode(&Message::PeerInfo { node, reflexive, record })
}

// ── ready-made nodes ────────────────────────────────────────────────────────

fn pm_with_established_peer(
    local_pub: [u8; 32],
    peer_pubkey: [u8; 32],
    interval_ms: u64,
) -> (Node, u64, SockAddr) {
    const FAKE_TAG: u64 = 0x1234_5678_9abc_def0;
    let ep = sa("10.0.0.1:1000");
    let mut n = node(local_pub, &[config(peer_pubkey, Some(ep))]);
    n.pm.rekey_interval_ms = interval_ms;
    n.pm.peers[0].state = established_with(FAKE_TAG, ep);
    n.pm.by_tag.insert(FAKE_TAG, 0);
    (n, FAKE_TAG, ep)
}

fn established_pm_pair(
    interval_ms: u64,
) -> (Node, Node, SockAddr, SockAddr, Keypair, Keypair) {
    let (kp_a, kp_b) = (generate_keypair(), generate_keypair());
    let (ep_a, ep_b) = (sa("10.0.0.1:1000"), sa("10.0.0.2:2000"));
    let mut pm_a = node(kp_a.public, &[config(kp_b.public, Some(ep_b))]);
    let mut pm_b = node(kp_b.public, &[config(kp_a.public, Some(ep_a))]);
    pm_a.pm.rekey_interval_ms = interval_ms;
    pm_b.pm.rekey_interval_ms = interval_ms;
    let init = pm_a.on_tun(&dummy_tun_pkt(), 0)[0].bytes.clone();
    let resp = resp_bytes(&pm_b.on_udp(ep_a, &init, 0));
    assert_eq!(resp.len(), 1, "cold-start init must produce one resp");
    pm_a.on_udp(ep_b, &resp[0], 0);
    assert!(established_tag(&pm_a, 0).is_some());
    assert_eq!(established_tag(&pm_a, 0), established_tag(&pm_b, 0));
    (pm_a, pm_b, ep_a, ep_b, kp_a, kp_b)
}

/// An initiator and a responder with a session, and the initiator's address.
fn established_pair_for_roaming() -> (Node, Node, SockAddr) {
    let (pm_a, pm_b, ep_a, _, _, _) = established_pm_pair(REKEY_INTERVAL_MS);
    (pm_a, pm_b, ep_a)
}

fn responder_established_for_initiator(now_ms: u64) -> (Node, Vec<u8>) {
    let (kp_r, kp_a) = (generate_keypair(), generate_keypair());
    let (mut pm_r, _sent) = pm_with_mock_rdv(&kp_r, &[config(kp_a.public, None)]);
    let (_hs, a_init_pkt) = start_initiator(&kp_a.public, &kp_r.public, &framed(&[]));
    let out = pm_r.on_udp(mock_server(), &relay_deliver(&kp_a.public, a_init_pkt.clone()), now_ms);
    assert!(has_relayed_handshake_resp(&out));
    assert!(is_established(&pm_r, 0), "responder must be Established");
    assert!(pm_r.pm.peers[0].relay, "responder must be relay-reached for A");
    (pm_r, a_init_pkt)
}

fn responder_established_direct_for_initiator(now_ms: u64) -> (Node, Keypair, Vec<u8>) {
    let (kp_r, kp_a) = (generate_keypair(), generate_keypair());
    let ep_a = sa("10.0.0.9:9000");
    let (mut pm_r, _sent) = pm_with_mock_rdv(&kp_r, &[config(kp_a.public, Some(ep_a))]);
    let (_hs, a_init_pkt) = start_initiator(&kp_a.public, &kp_r.public, &framed(&[]));
    let resp1 = resp_bytes(&pm_r.on_udp(ep_a, &a_init_pkt, now_ms));
    assert_eq!(resp1.len(), 1, "cold-start direct init must produce one HandshakeResp");
    assert!(is_established(&pm_r, 0), "responder must be Established");
    assert!(!pm_r.pm.peers[0].relay, "responder must be direct (not relay) for A");
    (pm_r, kp_a, a_init_pkt)
}

fn established_relay_pm(rekey_interval_ms: u64) -> (Node, Keypair, Keypair, u64) {
    const OLD_TAG: u64 = 0xAAAA_BBBB_CCCC_DDDD;
    let (local, peer_kp) = (generate_keypair(), generate_keypair());
    let (mut n, _sent) = pm_with_mock_rdv(&local, &[config(peer_kp.public, None)]);
    n.pm.rekey_interval_ms = rekey_interval_ms;
    n.pm.peers[0].state = established_with(OLD_TAG, mock_server());
    n.pm.by_tag.insert(OLD_TAG, 0);
    n.pm.peers[0].relay = true;
    n.pm.peers[0].path_kind = Some(PathKind::Relayed);
    (n, local, peer_kp, OLD_TAG)
}

/// A mesh node with one member that has a session, set up by a handshake.
fn pm_mesh_established_peer(interval_ms: u64) -> (Node, u64) {
    let (local, peer) = (generate_keypair(), generate_keypair());
    let peer_ep = sa("10.0.0.2:2000");
    let mut n = node_with(
        local.public,
        &[config(peer.public, Some(peer_ep))],
        TunnelMode::L3Tun,
        None,
        Some(directory_for(local.public, Vec::new())),
    );
    n.pm.rekey_interval_ms = interval_ms;
    let payload = framed(&valid_cert_bytes(&n, 0));
    let (_hs, init_pkt) = start_initiator(&peer.public, &local.public, &payload);
    let out = n.on_udp(peer_ep, &init_pkt, 0);
    assert!(matches!(out, Out::Udp(_)), "cold-start init must establish the session");
    let tag = established_tag(&n, 0).expect("established with the peer");
    (n, tag)
}

fn peer_src(n: &Node, idx: usize) -> SockAddr {
    n.pm.peers[idx].endpoint.expect("peer has a learned/configured endpoint")
}

fn rekey_init_with_payload(n: &Node, idx: usize, payload: &[u8]) -> Vec<u8> {
    start_initiator(&n.pm.peers[idx].id.public_key, &n.local(), &framed(payload)).1
}

fn valid_cert_bytes(n: &Node, idx: usize) -> Vec<u8> {
    mk_cert(CA, n.pm.peers[idx].id.public_key).encoded()
}

fn expired_cert_bytes(n: &Node, idx: usize) -> Vec<u8> {
    Cert { ca: CA, member: n.pm.peers[idx].id.public_key, not_after: 1 }.encoded()
}

/// Puts the peer's own rekey in flight toward `target`, and gives its init.
fn splice_rekey(n: &mut Node, to: &[u8; 32], target: SockAddr) -> Vec<u8> {
    let (hs, init_pkt) = start_initiator(&n.local(), to, &framed(&[]));
    let PeerState::Established(e) = &mut n.pm.peers[0].state else {
        panic!("must be Established");
    };
    e.rekey = Some(RekeyInFlight {
        hs,
        init_pkt: init_pkt.clone(),
        started_ms: 100,
        last_sent_ms: 100,
        retry_ms: 1000,
        target,
    });
    init_pkt
}

// ── handshakes ──────────────────────────────────────────────────────────────

#[test]
fn handshake_handshake_init_from_unconfigured_key_is_not_admitted() {
    let local_kp = generate_keypair();
    let mut n = node(local_kp.public, &[peer_cfg(1, "10.0.0.1:1000")]);
    let stranger = generate_keypair();
    let (_hs, init_pkt) = start_initiator(&stranger.public, &local_kp.public, &framed(&[]));
    let src = sa("203.0.113.5:5");
    assert!(
        n.on_udp(src, &init_pkt, 0).is_nothing(),
        "must not admit or reply to an unconfigured HandshakeInit"
    );
    assert!(n.pm.by_tag.is_empty(), "no peer must have been admitted");
}

#[test]
fn handshake_fresh_new_ephemeral_init_rebuilds_and_relearns_endpoint() {
    let (kp_r, kp_i) = (generate_keypair(), generate_keypair());
    let ep_i = sa("10.0.0.31:3100");
    let mut pm_r = node(kp_r.public, &[config(kp_i.public, Some(ep_i))]);

    let t1 = now_label();
    let (_, init_pkt_1) =
        start_initiator(&kp_i.public, &kp_r.public, &init_payload_with_ts(t1, &[]));
    let resp1 = resp_bytes(&pm_r.on_udp(ep_i, &init_pkt_1, 0));
    assert_eq!(resp1.len(), 1);
    let old_tag = established_tag(&pm_r, 0).unwrap();
    assert!(pm_r.pm.by_tag.contains_key(&old_tag));

    pm_r.pm.drop_session(0);
    assert!(is_idle(&pm_r, 0));
    assert!(!pm_r.pm.by_tag.contains_key(&old_tag), "drop_session must evict the old tag");
    assert_eq!(
        pm_r.pm.peers[0].last_accepted_init_ts,
        Some(t1),
        "last_accepted_init_ts survives drop_session"
    );

    let t2 = newer_ts(t1);
    let new_src = sa("10.0.0.32:3200");
    let (_, init_pkt_2) =
        start_initiator(&kp_i.public, &kp_r.public, &init_payload_with_ts(t2, &[]));
    let resp2 = resp_bytes(&pm_r.on_udp(new_src, &init_pkt_2, 200));
    assert_eq!(resp2.len(), 1, "a fresh-ts cold-start Init must rebuild the session");
    let new_tag = established_tag(&pm_r, 0).unwrap();
    assert_ne!(new_tag, old_tag);
    assert!(pm_r.pm.by_tag.contains_key(&new_tag));
    assert!(!pm_r.pm.by_tag.contains_key(&old_tag), "the old tag must stay evicted");
    assert_eq!(
        pm_r.pm.peers[0].endpoint,
        Some(new_src),
        "endpoint must be relearned from the new source"
    );
    assert_eq!(
        pm_r.pm.peers[0].last_accepted_init_ts,
        Some(t2),
        "last_accepted_init_ts must advance to the new label"
    );
}

#[test]
fn handshake_stale_replayed_cold_start_init_does_not_hijack_endpoint() {
    let (kp_r, kp_i) = (generate_keypair(), generate_keypair());
    let ep_i = sa("10.0.0.34:3400");
    let mut pm_r = node(kp_r.public, &[config(kp_i.public, Some(ep_i))]);

    let t1 = now_label();
    let (_, init_pkt_1) =
        start_initiator(&kp_i.public, &kp_r.public, &init_payload_with_ts(t1, &[]));
    let resp1 = resp_bytes(&pm_r.on_udp(ep_i, &init_pkt_1, 0));
    assert_eq!(resp1.len(), 1);
    assert_eq!(pm_r.pm.peers[0].endpoint, Some(ep_i));

    pm_r.pm.drop_session(0);
    assert!(is_idle(&pm_r, 0));
    assert_eq!(pm_r.pm.peers[0].last_accepted_init_ts, Some(t1));

    let t0 = older_ts(t1);
    let (_, init_pkt_2) =
        start_initiator(&kp_i.public, &kp_r.public, &init_payload_with_ts(t0, &[]));
    let spoofed = sa("203.0.113.77:7");
    assert!(
        pm_r.on_udp(spoofed, &init_pkt_2, 200).is_nothing(),
        "a stale-ts cold-start Init must be silently dropped"
    );
    assert!(is_idle(&pm_r, 0), "a rejected cold-start Init must not admit a session");
    assert_eq!(
        pm_r.pm.peers[0].endpoint,
        Some(ep_i),
        "endpoint must NOT be hijacked toward the spoofed source"
    );
    assert_eq!(pm_r.pm.peers[0].last_accepted_init_ts, Some(t1));
    assert!(pm_r.pm.by_tag.is_empty(), "no session must have been admitted");
}

#[test]
fn handshake_glare_simultaneous_init_converges_on_one_session() {
    let (kp_a, kp_b) = (generate_keypair(), generate_keypair());
    let (ep_a, ep_b) = (sa("10.0.0.1:1000"), sa("10.0.0.2:2000"));
    let mut pm_a = node(kp_a.public, &[config(kp_b.public, Some(ep_b))]);
    let mut pm_b = node(kp_b.public, &[config(kp_a.public, Some(ep_a))]);

    let pkt = dummy_tun_pkt();
    let init_a = pm_a.on_tun(&pkt, 0)[0].bytes.clone();
    let init_b = pm_b.on_tun(&pkt, 0)[0].bytes.clone();
    assert_eq!(init_a[0], INIT);
    assert_eq!(init_b[0], INIT);

    let resp_from_a = resp_bytes(&pm_a.on_udp(ep_b, &init_b, 0));
    let resp_from_b = resp_bytes(&pm_b.on_udp(ep_a, &init_a, 0));
    assert_eq!(
        resp_from_a.len() + resp_from_b.len(),
        1,
        "exactly one side must adopt the responder role under glare"
    );
    for r in &resp_from_a {
        pm_b.on_udp(ep_a, r, 0);
    }
    for r in &resp_from_b {
        pm_a.on_udp(ep_b, r, 0);
    }
    let tag_a = established_tag(&pm_a, 0).expect("pm_a must be Established");
    let tag_b = established_tag(&pm_b, 0).expect("pm_b must be Established");
    assert_eq!(tag_a, tag_b, "both peers must converge on ONE shared session");
}

fn pm_handshaking_direct_peer(peer: [u8; 32], endpoint: &str, started_ms: u64) -> (Node, usize) {
    let local = generate_keypair();
    let (mut n, _sent) = pm_with_mock_rdv(&local, &[config(peer, Some(sa(endpoint)))]);
    n.on_tun(&dummy_tun_pkt(), started_ms);
    assert!(is_handshaking(&n, 0), "setup must drive the peer into Handshaking");
    (n, 0)
}

fn path_switch_sends_fresh_init() {
    let (mut n, idx) = pm_handshaking_direct_peer([7u8; 32], "10.0.0.9:9000", 100);
    let (orig_init, orig_target) = match &n.pm.peers[idx].state {
        PeerState::Handshaking(h) => (h.init_pkt.clone(), h.target),
        _ => panic!("peer must be Handshaking"),
    };
    let orig_eph = init_ephemeral(&orig_init).expect("valid Init carries an ephemeral");
    let server = n.pm.server_addr();

    n.pm.peers[idx].state = PeerState::Idle;
    n.pm.peers[idx].endpoint = None;
    let out = n.begin_handshake(idx, server, true, 5_000).expect("emits an Init");

    match &n.pm.peers[idx].state {
        PeerState::Handshaking(h) => {
            let new_eph = init_ephemeral(&h.init_pkt).expect("valid Init carries an ephemeral");
            assert_ne!(new_eph, orig_eph, "path switch must draw a FRESH ephemeral");
            assert_eq!(h.target, server, "target must update to the new path");
            assert_ne!(h.target, orig_target);
        }
        _ => panic!("peer must be Handshaking again after the fresh begin_handshake"),
    }
    assert!(n.pm.peers[idx].relay, "relay flag must be set for a relay re-target");
    assert!(n.pm.peers[idx].endpoint.is_none(), "relay re-target clears endpoint");
    assert!(has_relayed_handshake_init(&out), "must emit a relay-wrapped Init");
}

#[test]
fn handshake_path_switch_sends_fresh_init_and_responder_rebuilds() {
    path_switch_sends_fresh_init();
}

#[test]
fn mod_path_switch_sends_fresh_init_and_responder_rebuilds() {
    path_switch_sends_fresh_init();
}

fn mesh_node(local: [u8; 32], peers: &[PeerConfig], roots: Vec<Root>) -> Node {
    let d = directory_for(local, roots);
    node_with(local, peers, TunnelMode::L3Tun, None, Some(d))
}

#[test]
fn handshake_cert_in_handshake_admits_valid_rejects_invalid() {
    let local = generate_keypair();
    let src = sa("203.0.113.5:5");
    {
        let stranger = generate_keypair();
        let mut n = mesh_node(local.public, &[], Vec::new());
        let cert = mk_cert(CA, stranger.public).encoded();
        let (_, init_pkt) = start_initiator(&stranger.public, &local.public, &framed(&cert));
        let replies = resp_bytes(&n.on_udp(src, &init_pkt, 0));
        assert_eq!(replies.len(), 1, "a valid cert is admitted and replied to");
        assert_eq!(n.pm.peers.len(), 1, "the cert-verified member was admitted");
        assert_eq!(n.pm.peers[0].id.public_key, stranger.public);
        assert!(is_established(&n, 0));
        assert_eq!(n.pm.peers[0].endpoint, Some(src), "endpoint learned from src");
    }
    {
        let stranger = generate_keypair();
        let mut n = mesh_node(local.public, &[], Vec::new());
        let (_, init_pkt) = start_initiator(&stranger.public, &local.public, &framed(&[]));
        assert!(n.on_udp(src, &init_pkt, 0).is_nothing());
        assert!(n.pm.peers.is_empty(), "no cert means no admission");
        assert!(n.pm.by_tag.is_empty());
    }
    {
        let stranger = generate_keypair();
        let mut n = mesh_node(local.public, &[], Vec::new());
        let bad = mk_cert(99, stranger.public).encoded();
        let (_, init_pkt) = start_initiator(&stranger.public, &local.public, &framed(&bad));
        assert!(n.on_udp(src, &init_pkt, 0).is_nothing());
        assert!(n.pm.peers.is_empty(), "untrusted-CA cert means no admission");
        assert!(n.pm.by_tag.is_empty());
    }
}

#[test]
fn handshake_framed_init_payload_still_establishes_and_admits_by_cert() {
    let local = generate_keypair();
    let src = sa("203.0.113.5:5");
    let stranger = generate_keypair();
    let cert = mk_cert(CA, stranger.public).encoded();
    {
        let mut n = mesh_node(local.public, &[], Vec::new());
        let (_, init_pkt) = start_initiator(&stranger.public, &local.public, &framed(&cert));
        let replies = resp_bytes(&n.on_udp(src, &init_pkt, 0));
        assert_eq!(replies.len(), 1, "a framed [ts || cert] Init is admitted and replied to");
        assert_eq!(n.pm.peers.len(), 1, "the cert-verified member was admitted");
        assert!(is_established(&n, 0));
    }
    {
        let mut n = mesh_node(local.public, &[], Vec::new());
        let (_, init_pkt) = start_initiator(&stranger.public, &local.public, &cert);
        assert!(
            n.on_udp(src, &init_pkt, 0).is_nothing(),
            "an unframed raw-cert Init must no longer admit"
        );
        assert!(n.pm.peers.is_empty(), "no admission from an unframed payload");
        assert!(n.pm.by_tag.is_empty());
    }
}

fn rekey_init_with_invalid_cert() {
    let (mut n, tag) = pm_mesh_established_peer(100_000);
    assert_eq!(established_tag(&n, 0), Some(tag));
    let init = rekey_init_with_payload(&n, 0, b"not-a-valid-cert");
    let src = peer_src(&n, 0);
    let out = n.on_udp(src, &init, 200_000);
    assert!(is_idle(&n, 0), "invalid-cert rekey drops the session");
    assert!(!n.pm.by_tag.values().any(|&i| i == 0), "the peer's conn_tag is removed");
    assert!(out.udp().is_empty(), "no resp for a revoked rekey");
}

#[test]
fn handshake_rekey_init_with_invalid_cert_drops_session() {
    rekey_init_with_invalid_cert();
}

#[test]
fn mod_rekey_init_with_invalid_cert_drops_session() {
    rekey_init_with_invalid_cert();
}

fn rekey_init_with_valid_cert() {
    let (mut n, tag) = pm_mesh_established_peer(100_000);
    let init = rekey_init_with_payload(&n, 0, &valid_cert_bytes(&n, 0));
    let src = peer_src(&n, 0);
    let resp = resp_bytes(&n.on_udp(src, &init, 200_000));
    assert_eq!(resp.len(), 1, "a genuine rekey Init with a valid cert must produce a Resp");
    assert_eq!(
        established_tag(&n, 0),
        Some(tag),
        "current stays on the OLD epoch until the initiator confirms"
    );
    assert!(
        epochs(&n, 0).expect("valid cert rekeys, no drop").next.is_some(),
        "the valid-cert rekey Init installed a next epoch"
    );
}

#[test]
fn handshake_rekey_init_with_valid_cert_still_rekeys() {
    rekey_init_with_valid_cert();
}

#[test]
fn mod_rekey_init_with_valid_cert_still_rekeys() {
    rekey_init_with_valid_cert();
}

fn revoked_tabled_peer_reinit() {
    let (mut n, _tag) = pm_mesh_established_peer(100_000);
    n.pm.drop_session(0);
    assert!(is_idle(&n, 0));
    assert!(n.pm.by_tag.is_empty());
    let init = rekey_init_with_payload(&n, 0, &expired_cert_bytes(&n, 0));
    let src = peer_src(&n, 0);
    assert!(
        n.on_udp(src, &init, 300_000).is_nothing(),
        "an expired cert must not re-admit a tabled peer"
    );
    assert!(is_idle(&n, 0), "peer stays Idle");
    assert!(n.pm.by_tag.is_empty(), "no conn_tag was installed for the rejected re-init");
}

#[test]
fn handshake_revoked_tabled_peer_cold_start_reinit_rejected() {
    revoked_tabled_peer_reinit();
}

#[test]
fn mod_revoked_tabled_peer_cold_start_reinit_rejected() {
    revoked_tabled_peer_reinit();
}

#[test]
fn handshake_root_exempt_from_readmission_check() {
    let (local, r) = (generate_keypair(), generate_keypair());
    let root_ep = sa("198.51.100.1:51820");
    let mut n = mesh_node(local.public, &[], vec![root(r.public, root_ep)]);
    assert_eq!(n.pm.peers.len(), 1);
    assert_eq!(n.pm.peers[0].id.public_key, r.public);
    assert!(is_idle(&n, 0));
    let (_, init_pkt) = start_initiator(&r.public, &local.public, &framed(&[]));
    let out = n.on_udp(root_ep, &init_pkt, 0);
    assert_eq!(resp_bytes(&out).len(), 1, "the root is admitted despite presenting no cert");
    assert!(is_established(&n, 0));
}

#[test]
fn handshake_root_established_not_dropped_on_certless_rekey_init() {
    let (local, r) = (generate_keypair(), generate_keypair());
    let root_ep = sa("198.51.100.1:51820");
    let mut n = mesh_node(local.public, &[], vec![root(r.public, root_ep)]);
    n.pm.rekey_interval_ms = 100_000;
    let (_, init_pkt) = start_initiator(&r.public, &local.public, &framed(&[]));
    let out = n.on_udp(root_ep, &init_pkt, 0);
    assert_eq!(resp_bytes(&out).len(), 1, "root cold-start admitted");
    assert!(is_established(&n, 0));
    let tag = established_tag(&n, 0).expect("root established");
    let (_, init_pkt2) = start_initiator(&r.public, &local.public, &framed(&[]));
    let _out2 = n.on_udp(root_ep, &init_pkt2, 200_000);
    assert!(is_established(&n, 0), "the root's session must NOT be dropped");
    assert_eq!(established_tag(&n, 0), Some(tag), "no teardown occurred");
}

#[test]
fn handshake_readmission_check_is_noop_without_membership() {
    let (local, peer) = (generate_keypair(), generate_keypair());
    let peer_ep = sa("10.0.0.2:2000");
    let mut n = node(local.public, &[config(peer.public, Some(peer_ep))]);
    let (_, init1) = start_initiator(&peer.public, &local.public, &framed(&[]));
    assert_eq!(resp_bytes(&n.on_udp(peer_ep, &init1, 0)).len(), 1, "cold-start establishes");
    assert!(is_established(&n, 0));
    n.pm.drop_session(0);
    assert!(is_idle(&n, 0));
    let (_, init2) = start_initiator(&peer.public, &local.public, &framed(&[]));
    assert_eq!(
        resp_bytes(&n.on_udp(peer_ep, &init2, 1_000)).len(),
        1,
        "re-establishment from Idle needs no cert without membership"
    );
    assert!(is_established(&n, 0));
}

#[test]
fn handshake_initiator_rejects_responder_with_bad_cert() {
    let (local, peer_kp) = (generate_keypair(), generate_keypair());
    let peer_ep = sa("10.0.0.4:51820");
    let cfg = config(peer_kp.public, Some(peer_ep));
    {
        let mut n = mesh_node(local.public, &[cfg], Vec::new());
        let init_out = n.on_tun(&dummy_tun_pkt(), 0);
        assert_eq!(init_out.len(), 1);
        assert!(is_handshaking(&n, 0));
        let r = start_responder(&peer_kp.public, &init_out[0].bytes, &[]).unwrap();
        assert!(n.on_udp(peer_ep, &r.resp_pkt, 0).is_nothing());
        assert!(is_idle(&n, 0), "no responder cert: the session must not establish");
    }
    {
        let mut n = mesh_node(local.public, &[cfg], Vec::new());
        let init_out = n.on_tun(&dummy_tun_pkt(), 0);
        let bad_cert = mk_cert(77, peer_kp.public).encoded();
        let r = start_responder(&peer_kp.public, &init_out[0].bytes, &bad_cert).unwrap();
        assert!(n.on_udp(peer_ep, &r.resp_pkt, 0).is_nothing());
        assert!(is_idle(&n, 0), "untrusted-CA responder cert: must not establish");
    }
}

#[test]
fn handshake_initiator_admits_root_responder_despite_missing_cert() {
    let (local, r) = (generate_keypair(), generate_keypair());
    let root_ep = sa("198.51.100.7:51820");
    let cfg = config(r.public, Some(root_ep));
    let mut n = mesh_node(local.public, &[cfg], vec![root(r.public, root_ep)]);
    let idx = n
        .pm
        .peers
        .iter()
        .position(|p| p.id.public_key == r.public)
        .expect("root is a peer");
    let init_out = n.on_tun(&dummy_tun_pkt(), 0);
    let init_pkt = init_out
        .iter()
        .find(|d| d.dst == root_ep)
        .map(|d| d.bytes.clone())
        .expect("an Init toward the root");
    assert!(is_handshaking(&n, idx));
    let answer = start_responder(&r.public, &init_pkt, &[]).unwrap();
    let _ = n.on_udp(root_ep, &answer.resp_pkt, 0);
    assert!(is_established(&n, idx), "a root responder is admitted despite a missing cert");
}

#[test]
fn handshake_begin_handshake_obf_on_direct_emits_junk_burst_then_init() {
    let mut n = node([10u8; 32], &[peer_cfg(9, "10.0.0.9:9000")]);
    n.set_obf_psk(Some([0x99u8; 32]));
    let target = sa("203.0.113.9:9000");
    let dgs = n.begin_handshake(0, target, false, 0).expect("handshake starts");

    let min_len = 1 + usize::try_from(JUNK_BURST_MIN).expect("fits usize");
    let max_len = 1 + usize::try_from(JUNK_BURST_MAX).expect("fits usize");
    assert!(
        (min_len..=max_len).contains(&dgs.len()),
        "expected 1 Init and the junk burst, got {} datagrams",
        dgs.len()
    );
    for d in &dgs {
        assert_eq!(d.dst, target, "every datagram targets `target`");
    }
    let (junk, init) = dgs.split_at(dgs.len() - 1);
    assert!(!junk.is_empty(), "at least JUNK_BURST_MIN junk datagrams");
    for j in junk {
        assert_eq!(j.bytes[0], JUNK_TYPE, "junk datagram is plaintext [JUNK_TYPE][body]");
    }
    assert_eq!(init.len(), 1, "exactly one real Init");
    assert_eq!(init[0].bytes[0], INIT);
    assert!(is_handshaking(&n, 0));
}

#[test]
fn handshake_begin_handshake_obf_on_direct_junk_count_varies() {
    let mut n = node([12u8; 32], &[peer_cfg(10, "10.0.0.10:10000")]);
    n.set_obf_psk(Some([0xAAu8; 32]));
    let target = sa("203.0.113.10:10000");
    let mut counts = HashSet::new();
    for _ in 0..64 {
        n.pm.peers[0].state = PeerState::Idle;
        let dgs = n.begin_handshake(0, target, false, 0).expect("handshake starts");
        counts.insert(dgs.len() - 1);
    }
    assert!(counts.len() > 1, "junk count must vary across 64 calls, saw only {counts:?}");
}

#[test]
fn handshake_begin_handshake_obf_off_direct_emits_init_only() {
    let mut n = node([14u8; 32], &[peer_cfg(11, "10.0.0.11:11000")]);
    assert!(n.pm.obf_key.is_none());
    let target = sa("203.0.113.11:11000");
    let dgs = n.begin_handshake(0, target, false, 0).expect("handshake starts");
    assert_eq!(dgs.len(), 1, "no junk when obf is off");
    assert_eq!(dgs[0].dst, target);
    assert_eq!(dgs[0].bytes[0], INIT);
}

fn begin_through_relay_with_obf() {
    let (local, peer_kp) = (generate_keypair(), generate_keypair());
    let (mut n, _sent) = pm_with_mock_rdv(&local, &[config(peer_kp.public, None)]);
    n.set_obf_psk(Some([0xBBu8; 32]));
    let server = mock_server();
    let dgs = n.begin_handshake(0, server, true, 0).expect("relay handshake starts");
    assert_eq!(dgs.len(), 1, "relay path never emits junk");
    assert_eq!(dgs[0].dst, server);
    assert!(n.pm.peers[0].relay, "peer marked relay-routed");
}

#[test]
fn handshake_begin_handshake_obf_on_relay_emits_wrapped_init_only_no_junk() {
    begin_through_relay_with_obf();
}

#[test]
fn mod_begin_handshake_obf_on_relay_emits_wrapped_init_only_no_junk() {
    begin_through_relay_with_obf();
}

// ── the table and its timers ────────────────────────────────────────────────

#[test]
fn stale_replayed_init_is_rejected_and_endpoint_unchanged() {
    let (kp_r, kp_i) = (generate_keypair(), generate_keypair());
    let ep_i = sa("10.0.0.30:3000");
    let mut pm_r = node(kp_r.public, &[config(kp_i.public, Some(ep_i))]);
    pm_r.pm.rekey_interval_ms = 100;
    let t1 = now_label();
    let (_, first) = start_initiator(&kp_i.public, &kp_r.public, &init_payload_with_ts(t1, &[]));
    assert_eq!(resp_bytes(&pm_r.on_udp(ep_i, &first, 0)).len(), 1);
    let tag1 = established_tag(&pm_r, 0).unwrap();
    assert_eq!(pm_r.pm.peers[0].endpoint, Some(ep_i));
    assert_eq!(pm_r.pm.peers[0].last_accepted_init_ts, Some(t1));

    let stale = init_payload_with_ts(older_ts(t1), &[]);
    let (_, second) = start_initiator(&kp_i.public, &kp_r.public, &stale);
    let spoofed = sa("203.0.113.66:6");
    assert!(pm_r.on_udp(spoofed, &second, 100).is_nothing());
    assert_eq!(established_tag(&pm_r, 0), Some(tag1), "current must be untouched");
    assert_eq!(pm_r.pm.peers[0].endpoint, Some(ep_i));
    assert_eq!(pm_r.pm.peers[0].last_accepted_init_ts, Some(t1));
}

#[test]
fn retransmit_still_replays_cached_resp_regardless_of_ts() {
    let (kp_r, kp_i) = (generate_keypair(), generate_keypair());
    let ep_i = sa("10.0.0.33:3300");
    let mut pm_r = node(kp_r.public, &[config(kp_i.public, Some(ep_i))]);
    let t1 = now_label();
    let (_, init_pkt) =
        start_initiator(&kp_i.public, &kp_r.public, &init_payload_with_ts(t1, &[]));
    let resp1 = resp_bytes(&pm_r.on_udp(ep_i, &init_pkt, 0));
    assert_eq!(resp1.len(), 1);
    let tag1 = established_tag(&pm_r, 0).unwrap();
    let resp2 = resp_bytes(&pm_r.on_udp(ep_i, &init_pkt, 500));
    assert_eq!(resp2, resp1, "a retransmit must resend the cached Resp verbatim");
    assert_eq!(established_tag(&pm_r, 0), Some(tag1));
    assert_eq!(pm_r.pm.peers[0].endpoint, Some(ep_i));
    assert_eq!(pm_r.pm.peers[0].last_accepted_init_ts, Some(t1));
}

#[test]
fn duplicate_init_after_established_does_not_tear_down_session() {
    let (kp_r, kp_i) = (generate_keypair(), generate_keypair());
    let ep_i = sa("10.0.0.7:7000");
    let mut pm_r = node(kp_r.public, &[config(kp_i.public, Some(ep_i))]);
    let (_, init_pkt) = start_initiator(&kp_i.public, &kp_r.public, &framed(&[]));
    let resp1 = resp_bytes(&pm_r.on_udp(ep_i, &init_pkt, 0));
    assert_eq!(resp1.len(), 1, "first init must produce one HandshakeResp");
    let tag1 = established_tag(&pm_r, 0).expect("responder must be Established");
    let resp2 = resp_bytes(&pm_r.on_udp(ep_i, &init_pkt, 0));
    let tag2 = established_tag(&pm_r, 0).expect("responder must stay Established");
    assert_eq!(tag1, tag2, "duplicate init must not rekey the live session");
    assert_eq!(resp2, resp1, "duplicate init must re-send the cached HandshakeResp verbatim");
}

#[test]
fn initiator_retransmits_same_init_within_total_window_then_gives_up() {
    let kp_local = generate_keypair();
    let mut n = node(kp_local.public, &[config([7u8; 32], Some(sa("10.0.0.9:9000")))]);
    let init_out = n.on_tun(&dummy_tun_pkt(), 0);
    assert_eq!(init_out.len(), 1);
    let init_bytes = init_out[0].bytes.clone();
    assert_eq!(init_bytes[0], INIT);
    assert!(is_handshaking(&n, 0));

    let mut t = 0u64;
    for _ in 0..20 {
        t += HANDSHAKE_RETRY_MS;
        let out = n.tick(t).unwrap_or_default();
        assert_eq!(out.len(), 1, "a retransmit is emitted every retry interval");
        assert_eq!(out[0].bytes, init_bytes, "retransmit reuses the same init");
        assert!(is_handshaking(&n, 0), "peer keeps handshaking within the total window");
    }
    let out = n.tick(HANDSHAKE_TOTAL_MS + HANDSHAKE_RETRY_MS).unwrap_or_default();
    assert!(out.is_empty(), "no further init once the total window elapsed");
    assert!(is_idle(&n, 0), "peer reverts to Idle after the total window");
    assert!(n.pm.peers[0].pending_tun.is_empty(), "pending buffer cleared on give-up");
}

#[test]
fn pending_tun_is_capped_while_handshaking() {
    let kp_local = generate_keypair();
    let mut n = node(kp_local.public, &[config([7u8; 32], Some(sa("10.0.0.9:9000")))]);
    for _ in 0..(MAX_PENDING_TUN + 50) {
        let _ = n.on_tun(&dummy_tun_pkt(), 0);
    }
    assert!(is_handshaking(&n, 0));
    assert!(
        n.pm.peers[0].pending_tun.len() <= MAX_PENDING_TUN,
        "pending buffer must stay capped at MAX_PENDING_TUN"
    );
}

#[test]
fn rendezvous_only_peer_emits_lookup_on_tun_traffic() {
    let (local, peer_kp) = (generate_keypair(), generate_keypair());
    let (mut n, sent) = pm_with_mock_rdv(&local, &[config(peer_kp.public, None)]);
    let out = n.on_tun(&dummy_tun_pkt(), 0);
    assert_eq!(out.len(), 1, "one lookup datagram is emitted");
    assert_eq!(out[0].dst, mock_server(), "lookup targets the server");
    assert!(
        matches!(decode(&out[0].bytes), Some(Message::Lookup { node })
            if node == node_id(&peer_kp.public)),
        "the datagram is a Lookup for the peer's node id"
    );
    assert!(
        sent.borrow().iter().any(|m| matches!(decode(m), Some(Message::Lookup { .. }))),
        "the mock recorded a Lookup"
    );
    assert!(is_idle(&n, 0));
    assert_eq!(n.pm.peers[0].pending_tun.len(), 1);
}

#[test]
fn peer_candidate_then_tick_probes_candidate_with_init() {
    let (local, peer_kp) = (generate_keypair(), generate_keypair());
    let (mut n, _sent) = pm_with_mock_rdv(&local, &[config(peer_kp.public, None)]);
    let candidate = sa("198.51.100.7:41000");
    let buf = peer_info(node_id(&peer_kp.public), candidate, None);
    assert!(n.on_udp(mock_server(), &buf, 0).is_nothing());
    assert_eq!(n.pm.peers[0].stage, PathStage::Punching);
    let out = n.tick(1).unwrap_or_default();
    let init = out
        .iter()
        .find(|d| d.dst == candidate)
        .expect("a handshake Init is emitted toward the candidate");
    assert_eq!(init.bytes[0], INIT, "the datagram to the candidate is a handshake Init");
    assert!(is_handshaking(&n, 0));
}

/// A mesh node with a server client and one peer of unknown address.
fn mesh_with_server(peer: [u8; 32]) -> Node {
    let local = generate_keypair();
    let (rdv, _sent) = mock_rdv();
    let d = directory_for(local.public, vec![root([3u8; 32], sa("10.0.0.99:51820"))]);
    let peers = [config(peer, None)];
    node_with(local.public, &peers, TunnelMode::L3Tun, Some(rdv), Some(d))
}

#[test]
fn peer_candidate_with_valid_signed_record_is_accepted_and_probed() {
    let peer_kp = generate_keypair();
    let mut n = mesh_with_server(peer_kp.public);
    let candidate = sa("198.51.100.7:41000");
    let rec = mk_record(CA, peer_kp.public, vec![candidate]).record();
    let buf = peer_info(node_id(&peer_kp.public), candidate, Some(rec));
    assert!(n.on_udp(mock_server(), &buf, 0).is_nothing());
    assert_eq!(n.paths[0].candidate, Some(candidate), "a signed record sets the candidate");
    let out = n.tick(1).unwrap_or_default();
    let init = out
        .iter()
        .find(|d| d.dst == candidate)
        .expect("a handshake Init is emitted toward the verified candidate");
    assert_eq!(init.bytes[0], INIT);
    assert!(is_handshaking(&n, 0));
}

#[test]
fn peer_candidate_with_invalid_record_is_dropped_no_probe() {
    let peer_kp = generate_keypair();
    let mut n = mesh_with_server(peer_kp.public);
    let candidate = sa("198.51.100.7:41000");
    let forged = mk_record(177, peer_kp.public, vec![candidate]).record();
    let buf = peer_info(node_id(&peer_kp.public), candidate, Some(forged));
    assert!(n.on_udp(mock_server(), &buf, 0).is_nothing());
    assert_eq!(n.paths[0].candidate, None, "an unverifiable record sets no candidate");
    let out = n.tick(1).unwrap_or_default();
    assert!(!out.iter().any(|d| d.dst == candidate), "no probe toward a forged candidate");
    assert!(is_idle(&n, 0));
}

#[test]
fn peer_candidate_with_valid_record_for_wrong_node_is_dropped() {
    let (peer_kp, other_kp) = (generate_keypair(), generate_keypair());
    let mut n = mesh_with_server(peer_kp.public);
    let candidate = sa("198.51.100.7:41000");
    let wrong = mk_record(CA, other_kp.public, vec![candidate]).record();
    let buf = peer_info(node_id(&peer_kp.public), candidate, Some(wrong));
    assert!(n.on_udp(mock_server(), &buf, 0).is_nothing());
    assert_eq!(n.paths[0].candidate, None, "a record of another node sets no candidate");
    let out = n.tick(1).unwrap_or_default();
    assert!(!out.iter().any(|d| d.dst == candidate));
    assert!(is_idle(&n, 0));
}

#[test]
fn no_rendezvous_direct_endpoint_is_pure_2a() {
    let local = generate_keypair();
    let endpoint = sa("10.0.0.2:51820");
    let mut n = node(local.public, &[config([7u8; 32], Some(endpoint))]);
    let out = n.on_tun(&dummy_tun_pkt(), 0);
    assert_eq!(out.len(), 1);
    assert_eq!(out[0].dst, endpoint, "Init targets the configured endpoint");
    assert_eq!(out[0].bytes[0], INIT);
    assert!(is_handshaking(&n, 0));
    assert!(!n.pm.peers[0].relay);
    assert_eq!(n.pm.peers[0].path_kind, None);
}

/// A node told of a peer's address at 0 and probing it since 1, and the probe's init.
fn punching(candidate: SockAddr) -> (Node, Vec<u8>) {
    let (local, peer_kp) = (generate_keypair(), generate_keypair());
    let (mut n, _sent) = pm_with_mock_rdv(&local, &[config(peer_kp.public, None)]);
    let buf = peer_info(node_id(&peer_kp.public), candidate, None);
    assert!(n.on_udp(mock_server(), &buf, 0).is_nothing());
    let out = n.tick(1).unwrap_or_default();
    let init = out
        .iter()
        .find(|d| d.dst == candidate && d.bytes[0] == INIT)
        .expect("punch Init is probed toward the candidate")
        .bytes
        .clone();
    assert!(is_handshaking(&n, 0));
    assert!(!n.pm.peers[0].relay);
    (n, init)
}

#[test]
fn punch_handshake_escalates_to_relay_at_punch_window_not_90s() {
    let (mut n, _) = punching(sa("198.51.100.7:41000"));
    let out = n.tick(PUNCH_MS + 2).unwrap_or_default();
    assert_eq!(
        relayed_bytes(&out, INIT).len(),
        1,
        "escalated to relay: a relay-wrapped Init is sent to the server"
    );
    assert!(n.pm.peers[0].relay, "peer is now relay-reached");
    assert!(is_handshaking(&n, 0));
}

#[test]
fn punch_relay_retarget_draws_fresh_ephemeral_even_if_relay_flag_preset() {
    let (mut n, punch_init) = punching(sa("198.51.100.7:41000"));
    let e1 = init_ephemeral(&punch_init).expect("E1 ephemeral");
    n.pm.peers[0].relay = true;
    let out = n.tick(PUNCH_MS + 2).unwrap_or_default();
    let relay_init = relayed_bytes(&out, INIT);
    let e2 = init_ephemeral(&relay_init[0]).expect("E2 ephemeral");
    assert_ne!(e1, e2, "punch->relay retarget must draw a FRESH ephemeral");
    let out = n.tick(PUNCH_MS + 2 + HANDSHAKE_RETRY_MS + 1).unwrap_or_default();
    let relay_retx = relayed_bytes(&out, INIT);
    let e3 = init_ephemeral(&relay_retx[0]).expect("retransmit ephemeral");
    assert_eq!(e2, e3, "a relay Init already in flight must be RETRANSMITTED");
}

#[test]
fn late_punch_reply_after_relay_escalation_does_not_poison_relay() {
    let candidate = sa("198.51.100.7:41000");
    let (mut n, _) = punching(candidate);
    assert_eq!(n.pm.peers[0].endpoint, Some(candidate));
    let out = n.tick(PUNCH_MS + 2).unwrap_or_default();
    assert!(out.iter().any(is_relay_send), "escalated to relay");
    assert!(n.pm.peers[0].relay, "peer is now relay-reached");
    assert!(is_handshaking(&n, 0));
    assert_eq!(n.pm.peers[0].endpoint, None, "the stale punch endpoint must be cleared");

    let stray = vec![RESP; 64];
    assert!(n.on_udp(candidate, &stray, PUNCH_MS + 3).is_nothing());
    assert!(is_handshaking(&n, 0), "relay handshake must survive the stray late punch reply");
    assert!(n.pm.peers[0].relay);
    let out2 = n.tick(PUNCH_MS + HANDSHAKE_RETRY_MS + 3).unwrap_or_default();
    assert!(out2.iter().any(is_relay_send), "the relay attempt keeps retransmitting");
}

#[test]
fn established_responder_completes_retargeted_initiator_via_cached_resp() {
    let (mut pm_r, a_init_pkt) = responder_established_for_initiator(100);
    let tag_before = established_tag(&pm_r, 0);
    let relayed = wrap_relay_deliver(&pm_r, &a_init_pkt);
    let out = pm_r.on_udp(mock_server(), &relayed, 5_000);
    assert!(has_relayed_handshake_resp(&out), "must replay cached resp over the relay");
    assert_eq!(established_tag(&pm_r, 0), tag_before, "current session must be untouched");
}

#[test]
fn endpoint_peer_emits_lookup_and_punches_after_direct_window() {
    let (local, peer_kp) = (generate_keypair(), generate_keypair());
    let endpoint = sa("10.0.0.2:51820");
    let (mut n, sent) = pm_with_mock_rdv(&local, &[config(peer_kp.public, Some(endpoint))]);
    let out = n.on_tun(&dummy_tun_pkt(), 0);
    assert_eq!(out.len(), 1);
    assert_eq!(out[0].dst, endpoint, "Init targets the configured endpoint");
    assert!(is_handshaking(&n, 0));
    assert_eq!(n.pm.peers[0].stage, PathStage::Direct);

    let out = n.tick(DIRECT_MS + 1).unwrap_or_default();
    assert_eq!(n.pm.peers[0].stage, PathStage::Punching);
    assert!(
        out.iter().any(|d| d.dst == mock_server()
            && matches!(decode(&d.bytes), Some(Message::Lookup { node })
                if node == node_id(&peer_kp.public))),
        "a Lookup for the peer's node id must be emitted once the direct window elapses"
    );
    assert!(sent.borrow().iter().any(|m| matches!(decode(m), Some(Message::Lookup { .. }))));
    assert!(is_handshaking(&n, 0));
    assert!(!n.pm.peers[0].relay);

    let candidate = sa("198.51.100.7:41000");
    let buf = peer_info(node_id(&peer_kp.public), candidate, None);
    assert!(n.on_udp(mock_server(), &buf, DIRECT_MS + 2).is_nothing());
    let out = n.tick(DIRECT_MS + 3).unwrap_or_default();
    assert!(
        out.iter().any(|d| d.dst == candidate && d.bytes[0] == INIT),
        "the peer re-targets to the punch candidate"
    );
    assert_eq!(n.pm.peers[0].endpoint, Some(candidate));
    assert!(is_handshaking(&n, 0));
}

#[test]
fn on_tun_unknown_addr_resolves_admits_and_handshakes() {
    let (local, peer) = (generate_keypair(), generate_keypair());
    let peer_ep = sa("198.51.100.50:6000");
    let mut n = mesh_node(local.public, &[], Vec::new());
    let d = n.directory.as_mut().unwrap();
    assert!(d.ingest_record(mk_record(CA, peer.public, vec![peer_ep]), wall_secs()));
    assert!(n.pm.peers.is_empty());
    let out = n.on_tun(&ipv6_pkt_to(node_addr(&peer.public)), 0);
    assert_eq!(n.pm.peers.len(), 1, "resolve+admit created one peer");
    assert_eq!(n.pm.peers[0].id.public_key, peer.public);
    assert_eq!(n.pm.peers[0].endpoint, Some(peer_ep));
    assert_eq!(out.len(), 1);
    assert_eq!(out[0].dst, peer_ep);
    assert_eq!(out[0].bytes[0], INIT);
    assert!(is_handshaking(&n, 0));
}

#[test]
fn on_tun_single_known_peer_still_resolves_a_different_dst() {
    let (local, r, peer) = (generate_keypair(), generate_keypair(), generate_keypair());
    let (root_ep, peer_ep) = (sa("198.51.100.1:51820"), sa("198.51.100.50:6000"));
    let mut n = mesh_node(local.public, &[], vec![root(r.public, root_ep)]);
    let d = n.directory.as_mut().unwrap();
    assert!(d.ingest_record(mk_record(CA, peer.public, vec![peer_ep]), wall_secs()));
    assert_eq!(n.pm.peers.len(), 1, "precondition: exactly one known peer (the root)");
    assert_eq!(n.pm.peers[0].id.public_key, r.public);
    let out = n.on_tun(&ipv6_pkt_to(node_addr(&peer.public)), 0);
    assert_eq!(n.pm.peers.len(), 2, "resolve+admit created a second peer");
    assert_eq!(n.pm.peers[1].id.public_key, peer.public);
    assert_eq!(n.pm.peers[1].endpoint, Some(peer_ep));
    assert_eq!(out.len(), 1);
    assert_eq!(out[0].dst, peer_ep, "must target the resolved peer, not the root");
}

#[test]
fn no_membership_behaves_as_2a_2b() {
    let local = generate_keypair();
    let mut n = node(local.public, &[]);
    let unknown = generate_keypair();
    let out = n.on_tun(&ipv6_pkt_to(node_addr(&unknown.public)), 0);
    assert!(out.is_empty(), "unknown addr dropped");
    assert!(n.pm.peers.is_empty(), "no resolve/admit without membership");
    let stranger = generate_keypair();
    let cert = mk_cert(CA, stranger.public).encoded();
    let (_, init_pkt) = start_initiator(&stranger.public, &local.public, &framed(&cert));
    assert!(n.on_udp(sa("203.0.113.5:5"), &init_pkt, 0).is_nothing());
    assert!(n.pm.peers.is_empty());
    assert!(n.pm.by_tag.is_empty());
}

#[test]
fn by_addr_maps_each_peers_node_addr() {
    let (peer_a, peer_b) = (peer_cfg(1, "10.0.0.1:1000"), peer_cfg(2, "10.0.0.2:2000"));
    let n = node([8u8; 32], &[peer_a, peer_b]);
    let (addr_a, addr_b) = (node_addr(&[1u8; 32]), node_addr(&[2u8; 32]));
    assert_eq!(n.pm.by_addr.get(&addr_a), Some(&0));
    assert_eq!(n.pm.by_addr.get(&addr_b), Some(&1));
    assert_eq!(n.pm.peers[0].id.addr, addr_a);
    assert_eq!(n.pm.peers[1].id.addr, addr_b);
}

#[test]
fn local_addr_matches_node_addr_of_local_pub() {
    let local_pub = [42u8; 32];
    assert_eq!(node(local_pub, &[]).pm.local_addr(), node_addr(&local_pub));
}

#[test]
fn data_symbol_size_defaults_to_1200_and_is_settable() {
    let mut n = node([2u8; 32], &[]);
    assert_eq!(n.pm.data_symbol_size, yipd::peer_manager::DEFAULT_DATA_SYMBOL_SIZE);
    assert_eq!(n.pm.data_symbol_size, 1200);
    n.pm.set_data_symbol_size(1350);
    assert_eq!(n.pm.data_symbol_size, 1350);
}

#[test]
fn jitter_ms_within_bounds_and_not_constant() {
    let mut seen = HashSet::new();
    for _ in 0..64 {
        let v = jitter_ms(1000).expect("randomness");
        assert!((750..=1250).contains(&v), "jitter_ms(1000) out of the band: {v}");
        seen.insert(v);
    }
    assert!(seen.len() > 1, "jitter_ms(1000) returned the same value on every call");
}

#[test]
fn obf_off_gating_yields_exact_base_interval() {
    let n = node([2u8; 32], &[]);
    for _ in 0..8 {
        assert_eq!(n.pm.interval_ms(HANDSHAKE_RETRY_MS, draw()), HANDSHAKE_RETRY_MS);
        assert_eq!(n.pm.interval_ms(REG_REFRESH_MS, draw()), REG_REFRESH_MS);
    }
}

// ── gossip ──────────────────────────────────────────────────────────────────

fn gossip_of(e: &Entry) -> Vec<u8> {
    let mut dg = vec![GOSSIP];
    dg.extend_from_slice(&e.encoded());
    dg
}

/// A mesh node with a session to `peer` at `ep`.
fn mesh_with_session(peer: [u8; 32], ep: SockAddr, tag: u64) -> Node {
    let local = generate_keypair();
    let mut n = mesh_node(local.public, &[config(peer, Some(ep))], Vec::new());
    n.pm.peers[0].state = established_with(tag, ep);
    n.pm.by_tag.insert(tag, 0);
    n
}

fn resolved(n: &Node, key: &[u8; 32]) -> Option<Vec<SockAddr>> {
    n.directory.as_ref().unwrap().resolve(node_addr(key)).map(|e| e.endpoints.clone())
}

#[test]
fn gossip_ingest_accepts_valid_rejects_forged() {
    let src = sa("203.0.113.8:8");
    let mut n = mesh_with_session(generate_keypair().public, src, 0x9988_7766_5544_3322);

    let good = generate_keypair();
    let good_ep = sa("192.0.2.20:6666");
    let dg = gossip_of(&mk_record(CA, good.public, vec![good_ep]));
    assert!(n.on_udp(src, &dg, 0).is_nothing());
    assert_eq!(
        resolved(&n, &good.public),
        Some(vec![good_ep]),
        "valid gossip record is ingested and resolvable"
    );

    let bad = generate_keypair();
    let dg2 = gossip_of(&mk_record(123, bad.public, vec![sa("192.0.2.30:7000")]));
    assert!(n.on_udp(src, &dg2, 0).is_nothing());
    assert_eq!(resolved(&n, &bad.public), None, "a forged record is rejected");
}

#[test]
fn gossip_from_non_established_src_is_dropped() {
    let peer_ep = sa("10.0.0.3:51820");
    let mut n = mesh_with_session(generate_keypair().public, peer_ep, 0x1357_9bdf_2468_ace0);
    let member = generate_keypair();
    let member_ep = sa("192.0.2.40:9000");
    let dg = gossip_of(&mk_record(CA, member.public, vec![member_ep]));

    let spoofed_src = sa("203.0.113.200:4000");
    assert!(n.on_udp(spoofed_src, &dg, 0).is_nothing());
    assert_eq!(
        resolved(&n, &member.public),
        None,
        "gossip from a non-Established src must be dropped, not ingested"
    );
    assert!(n.on_udp(peer_ep, &dg, 0).is_nothing());
    assert_eq!(
        resolved(&n, &member.public),
        Some(vec![member_ep]),
        "gossip from an Established peer's endpoint is ingested normally"
    );
}

#[test]
fn anti_hijack_established_peer_unmoved_by_gossip_and_resolve() {
    const TAG: u64 = 0x0a0b_0c0d_0e0f_1011;
    let peer = generate_keypair();
    let committed_ep = sa("10.0.0.2:51820");
    let mut n = mesh_with_session(peer.public, committed_ep, TAG);
    n.pm.peers[0].path_kind = Some(PathKind::Direct);

    let hijack_ep = sa("198.51.100.9:40000");
    let dg = gossip_of(&mk_record(CA, peer.public, vec![hijack_ep]));
    assert!(n.on_udp(committed_ep, &dg, 0).is_nothing());
    assert_eq!(resolved(&n, &peer.public), Some(vec![hijack_ep]));
    assert_eq!(n.pm.peers.len(), 1);
    assert_eq!(established_tag(&n, 0), Some(TAG), "session unchanged");
    assert_eq!(n.pm.peers[0].endpoint, Some(committed_ep), "committed egress unchanged");
    assert!(!n.pm.peers[0].relay);

    let _ = n.on_tun(&ipv6_pkt_to(node_addr(&peer.public)), 0);
    assert_eq!(n.pm.peers.len(), 1, "no re-admit");
    assert_eq!(n.pm.peers[0].endpoint, Some(committed_ep));
}

#[test]
fn gossip_replies_go_back_to_the_sender_and_no_more_than_eight() {
    let ep = sa("10.0.0.3:51820");
    let mut n = mesh_with_session([5u8; 32], ep, 7);
    assert_eq!(n.pm.on_gossip(ep), Some(0));
    let replies: Vec<Vec<u8>> = (0..10u8).map(|i| vec![0xC0, i]).collect();
    let out: Vec<Wire> = n.pm.gossip_replies(0, ep, &replies).into_iter().map(plain).collect();
    assert_eq!(out.len(), 8);
    for (i, d) in out.iter().enumerate() {
        assert_eq!(d.dst, ep);
        assert_eq!(d.bytes, vec![GOSSIP, 0xC0, i as u8]);
    }
}

#[test]
fn gossip_digests_reach_four_targets_at_most() {
    let peers: Vec<PeerConfig> =
        (1..=6u8).map(|i| config([i; 32], Some(sa(&format!("10.0.0.{i}:1000"))))).collect();
    let mut n = mesh_node([9u8; 32], &peers, vec![root([60u8; 32], sa("10.0.0.60:1"))]);
    for i in 0..3 {
        let ep = peers[i].endpoint.unwrap();
        n.pm.peers[i].state = established_with(100 + i as u64, ep);
        n.pm.by_tag.insert(100 + i as u64, i);
    }
    let out: Vec<Wire> = n.pm.tick_gossip(&[0xD1]).into_iter().map(plain).collect();
    assert!(out.iter().all(|d| d.bytes == vec![GOSSIP, 0xD1]));
    let dsts: Vec<SockAddr> = out.iter().map(|d| d.dst).collect();
    let expected: Vec<SockAddr> = (1..=3u8)
        .map(|i| sa(&format!("10.0.0.{i}:1000")))
        .chain([sa("10.0.0.60:1")])
        .collect();
    assert_eq!(dsts, expected);
    assert!(n.pm.gossip_bootstrap().is_none(), "a node with a session does not bootstrap");
    for i in 3..5 {
        let ep = peers[i].endpoint.unwrap();
        n.pm.peers[i].state = established_with(100 + i as u64, ep);
        n.pm.by_tag.insert(100 + i as u64, i);
    }
    assert_eq!(n.pm.tick_gossip(&[0xD1]).len(), 4);
}

#[test]
fn a_mesh_node_without_a_session_bootstraps_from_a_root() {
    let root_ep = sa("198.51.100.1:51820");
    let n = mesh_node([9u8; 32], &[peer_cfg(1, "10.0.0.1:1000")], vec![root([60u8; 32], root_ep)]);
    assert_eq!(n.pm.gossip_bootstrap(), Some((1, root_ep)));
    assert!(node([9u8; 32], &[peer_cfg(1, "10.0.0.1:1000")]).pm.gossip_bootstrap().is_none());
}

// ── obfuscation ─────────────────────────────────────────────────────────────

#[test]
fn obf_on_data_roundtrips_through_send_and_on_udp() {
    let peer_ep = sa("10.0.0.2:2000");
    let mut n = node([8u8; 32], &[peer_cfg(2, "10.0.0.2:2000")]);
    n.set_obf_psk(Some([0x11u8; 32]));
    let (eph, reph) = (random_key(), random_key());
    let mut initiator = completed(&eph, &reph, true).session;
    let mine = completed(&eph, &reph, false);
    let sess = mine.obf_key;
    let dp = session_plane(mine.session, mine.conn_tag, peer_ep);
    n.pm.peers[0].state = PeerState::Established(EpochSet::new(dp, 0));
    n.pm.peers[0].session_obf_key = Some(sess);
    n.pm.by_tag.insert(mine.conn_tag, 0);

    let inner = vec![0x33u8; 200];
    let dg = initiator.seal(&inner);
    assert_eq!(dg[0], DATA);
    let wrapped = obfuscate(&sess, DATA, &dg[1..], 0);
    let wrapped2 = obfuscate(&sess, DATA, &dg[1..], 0);
    assert_ne!(wrapped, wrapped2, "obfuscation must randomize the wire form");
    match n.on_udp(peer_ep, &wrapped, 1) {
        Out::Tun(t) => assert_eq!(t, inner),
        other => panic!("obf-wrapped Data must route to the peer and decode, got {other:?}"),
    }
}

#[test]
fn obf_on_unknown_src_handshake_init_via_obf_psk() {
    let (kp_r, kp_i) = (generate_keypair(), generate_keypair());
    let mut n = node(kp_r.public, &[config(kp_i.public, Some(sa("10.0.0.7:7000")))]);
    let psk = [0x22u8; 32];
    n.set_obf_psk(Some(psk));
    let obf_key = derive_key(&psk);
    let (_, init_pkt) = start_initiator(&kp_i.public, &kp_r.public, &framed(&[]));
    let wrapped = obfuscate(&obf_key, INIT, &init_pkt[1..], 32);
    let src = sa("203.0.113.5:41000");
    let out = n.on_udp(src, &wrapped, 0);
    assert!(matches!(out, Out::Udp(_)), "expected a wrapped HandshakeResp egress");
    assert_eq!(out.udp().len(), 1);
    let (ptype, _) = deobfuscate(&obf_key, &out.udp()[0].bytes)
        .expect("resp is wrapped under the network obf key");
    assert_eq!(ptype, RESP, "the reply is an obfuscated HandshakeResp");
    assert!(is_established(&n, 0));
    assert_eq!(n.pm.peers[0].endpoint, Some(src));
}

#[test]
fn obf_on_garbage_is_dropped_no_panic() {
    let kp = generate_keypair();
    let mut n = node(kp.public, &[peer_cfg(3, "10.0.0.3:3000")]);
    n.set_obf_psk(Some([0x44u8; 32]));
    let src = sa("203.0.113.9:9");
    assert!(n.on_udp(src, &[0xABu8; 80], 0).is_nothing());
    assert!(n.on_udp(src, &[], 0).is_nothing());
    assert!(n.on_udp(src, &[0u8; 3], 0).is_nothing());
    assert!(is_idle(&n, 0));
    assert!(n.pm.by_tag.is_empty());
}

#[test]
fn junk_burst_is_single_wrapped_end_to_end() {
    let mut n = node([16u8; 32], &[peer_cfg(12, "10.0.0.12:12000")]);
    let psk = [0xCCu8; 32];
    n.set_obf_psk(Some(psk));
    let network_key = derive_key(&psk);
    let wire = n.on_tun(&dummy_tun_pkt(), 0);
    assert!(!wire.is_empty(), "the first TUN packet starts a handshake");
    let mut junk_count = 0usize;
    let mut init_count = 0usize;
    for d in &wire {
        assert!(
            d.bytes.len() <= OBF_MTU_BUDGET,
            "wrapped datagram must stay within OBF_MTU_BUDGET, got {}",
            d.bytes.len()
        );
        let (ptype, body) = deobfuscate(&network_key, &d.bytes)
            .expect("every emitted datagram must recover under a SINGLE deobfuscate call");
        if ptype == JUNK_TYPE {
            junk_count += 1;
        } else if ptype == INIT {
            init_count += 1;
            assert!(!body.is_empty(), "the real Init carries msg1 bytes");
        } else {
            panic!("unexpected ptype {ptype} on the wire");
        }
    }
    assert!(
        junk_count >= usize::try_from(JUNK_BURST_MIN).expect("fits usize"),
        "at least JUNK_BURST_MIN junk datagrams, got {junk_count}"
    );
    assert_eq!(init_count, 1, "exactly one real HandshakeInit");
}

#[test]
fn obf_off_on_udp_is_plaintext_as_today() {
    let (kp_r, kp_i) = (generate_keypair(), generate_keypair());
    let ep_i = sa("10.0.0.7:7000");
    let mut n = node(kp_r.public, &[config(kp_i.public, Some(ep_i))]);
    let (_, init_pkt) = start_initiator(&kp_i.public, &kp_r.public, &framed(&[]));
    let resp = resp_bytes(&n.on_udp(ep_i, &init_pkt, 0));
    assert_eq!(resp.len(), 1, "one plaintext HandshakeResp is emitted");
    assert_eq!(resp[0][0], RESP, "reply carries a plaintext PacketType prefix");
    assert!(is_established(&n, 0));
}

#[test]
fn obf_on_egress_to_server_is_wrapped_under_rdv_type() {
    let (local, peer_kp) = (generate_keypair(), generate_keypair());
    let (mut n, _sent) = pm_with_mock_rdv(&local, &[config(peer_kp.public, None)]);
    let psk = [0x55u8; 32];
    n.set_obf_psk(Some(psk));
    let obf_key = derive_key(&psk);
    let out = n.on_tun(&dummy_tun_pkt(), 0);
    assert_eq!(out.len(), 1, "one lookup datagram is emitted");
    assert_eq!(out[0].dst, mock_server());
    let plaintext = encode(&Message::Lookup { node: node_id(&peer_kp.public) });
    assert_ne!(out[0].bytes, plaintext, "the on-wire bytes must be obfuscated");
    let (ptype, body) =
        deobfuscate(&obf_key, &out[0].bytes).expect("wrapped under the network key");
    assert_eq!(ptype, RDV_TYPE);
    assert_eq!(body, plaintext, "unwrapping recovers the original Lookup");
}

#[test]
fn obf_on_ingress_from_server_is_unwrapped_before_on_rdv() {
    let (local, peer_kp) = (generate_keypair(), generate_keypair());
    let (mut n, _sent) = pm_with_mock_rdv(&local, &[config(peer_kp.public, None)]);
    let psk = [0x66u8; 32];
    n.set_obf_psk(Some(psk));
    let obf_key = derive_key(&psk);
    let candidate = sa("198.51.100.9:41001");
    let plain = peer_info(node_id(&peer_kp.public), candidate, None);

    let wrong_key = derive_key(&[0x67u8; 32]);
    let wrapped_wrong = obfuscate(&wrong_key, RDV_TYPE, &plain, 0);
    assert!(n.on_udp(mock_server(), &wrapped_wrong, 0).is_nothing());
    assert_eq!(n.paths[0].candidate, None);

    let wrapped_wrong_type = obfuscate(&obf_key, DATA, &plain, 0);
    assert!(n.on_udp(mock_server(), &wrapped_wrong_type, 0).is_nothing());
    assert_eq!(n.paths[0].candidate, None);

    let wrapped = obfuscate(&obf_key, RDV_TYPE, &plain, 5);
    assert!(n.on_udp(mock_server(), &wrapped, 0).is_nothing());
    assert_eq!(n.paths[0].candidate, Some(candidate));
}

#[test]
fn obf_off_rendezvous_traffic_stays_plaintext() {
    let (local, peer_kp) = (generate_keypair(), generate_keypair());
    let (mut n, _sent) = pm_with_mock_rdv(&local, &[config(peer_kp.public, None)]);
    let out = n.on_tun(&dummy_tun_pkt(), 0);
    assert_eq!(out.len(), 1);
    assert_eq!(
        out[0].bytes,
        encode(&Message::Lookup { node: node_id(&peer_kp.public) }),
        "obf-off Lookup egress is plain, unwrapped Message bytes"
    );
    let candidate = sa("198.51.100.9:41002");
    let plain = peer_info(node_id(&peer_kp.public), candidate, None);
    assert!(n.on_udp(mock_server(), &plain, 0).is_nothing());
    assert_eq!(n.paths[0].candidate, Some(candidate));
}

fn established_obf_peer_with_data() -> (Node, [u8; 16], Vec<u8>) {
    const TAG: u64 = 0x9999_1111_2222_3333;
    let peer_ep = sa("10.0.0.30:3030");
    let mut n = node([32u8; 32], &[peer_cfg(30, "10.0.0.30:3030")]);
    n.set_obf_psk(Some([0xCCu8; 32]));
    n.pm.peers[0].state = established_with(TAG, peer_ep);
    let sess = [0xDDu8; 16];
    n.pm.peers[0].session_obf_key = Some(sess);
    n.pm.by_tag.insert(TAG, 0);
    let mut plaintext = vec![DATA];
    plaintext.extend_from_slice(&[0x55u8; 40]);
    (n, sess, plaintext)
}

#[test]
fn deobf_finds_roamed_peer_session_key_by_trial() {
    let (n, sess, plaintext) = established_obf_peer_with_data();
    let obf = obfuscate(&sess, DATA, &plaintext[1..], 0);
    let roamed = sa("198.51.100.231:41111");
    assert_ne!(n.pm.peers[0].endpoint, Some(roamed));
    assert_eq!(
        n.deobf_ingress(roamed, &obf),
        Some(plaintext),
        "roamed peer's data must deobfuscate via the trial fallback"
    );
}

#[test]
fn deobf_trial_does_not_accept_foreign_datagram() {
    let (n, _sess, _plaintext) = established_obf_peer_with_data();
    assert!(
        n.deobf_ingress(sa("203.0.113.9:9"), &[0xABu8; 64]).is_none(),
        "a datagram under no known session key must not deobfuscate"
    );
}

fn junk_of(n: &Node) -> Vec<u8> {
    n.pm.build_junk(&random_bytes(junk_body_len(draw())))
}

#[test]
fn build_junk_roundtrips_to_junk_type() {
    let n = node([2u8; 32], &[peer_cfg(5, "10.0.0.5:5000")]);
    let dg = junk_of(&n);
    assert_eq!(dg[0], JUNK_TYPE, "leading byte is the plaintext JUNK_TYPE");
    let body_len = dg.len() - 1;
    assert!((JUNK_MIN_LEN..=JUNK_MAX_LEN).contains(&body_len), "got {body_len}");
}

#[test]
fn obf_on_session_keyed_junk_is_dropped_state_unchanged() {
    const TAG: u64 = 0xABCD_EF01;
    let peer_ep = sa("10.0.0.6:6000");
    let mut n = node([4u8; 32], &[peer_cfg(6, "10.0.0.6:6000")]);
    n.set_obf_psk(Some([0x66u8; 32]));
    n.pm.peers[0].state = established_with(TAG, peer_ep);
    let sess = [0x77u8; 16];
    n.pm.peers[0].session_obf_key = Some(sess);
    n.pm.by_tag.insert(TAG, 0);
    let junk = obfuscate(&sess, JUNK_TYPE, &junk_of(&n)[1..], 0);
    let before_tag = n.pm.by_tag.get(&TAG).copied();
    assert!(n.on_udp(peer_ep, &junk, 0).is_nothing(), "session-keyed junk must be dropped");
    assert!(is_established(&n, 0));
    assert_eq!(n.pm.peers[0].session_obf_key, Some(sess));
    assert_eq!(n.pm.by_tag.get(&TAG).copied(), before_tag, "by_tag untouched");
}

#[test]
fn obf_on_network_keyed_junk_from_unknown_src_is_dropped_no_panic() {
    let mut n = node([6u8; 32], &[peer_cfg(7, "10.0.0.7:7000")]);
    let psk = [0x88u8; 32];
    n.set_obf_psk(Some(psk));
    let junk = obfuscate(&derive_key(&psk), JUNK_TYPE, &junk_of(&n)[1..], 0);
    assert!(n.on_udp(sa("203.0.113.55:5555"), &junk, 0).is_nothing());
    assert!(is_idle(&n, 0));
    assert!(n.pm.by_tag.is_empty());
}

#[test]
fn obf_off_junk_shaped_datagram_takes_unchanged_plaintext_path() {
    let mut n = node([8u8; 32], &[peer_cfg(8, "10.0.0.8:8000")]);
    assert!(n.pm.obf_key.is_none());
    let mut dg = vec![JUNK_TYPE];
    dg.extend_from_slice(&[0u8; 16]);
    assert!(n.on_udp(sa("203.0.113.66:6666"), &dg, 0).is_nothing());
    assert!(is_idle(&n, 0));
}

// ── idle cover and the certificate sweep ────────────────────────────────────

const COVER_TEST_NOW_MS: u64 = 20;

fn obf_on_established_peer_for_cover(
    cover_traffic_ms: Option<u64>,
    obf_on: bool,
) -> (Node, SockAddr, [u8; 16]) {
    const TAG: u64 = 0x1234_5678_9abc_def0;
    let peer_ep = sa("10.0.0.20:2020");
    let mut n = node([22u8; 32], &[peer_cfg(20, "10.0.0.20:2020")]);
    if obf_on {
        n.set_obf_psk(Some([0xAAu8; 32]));
    }
    n.pm.set_cover_traffic_ms(cover_traffic_ms);
    n.pm.peers[0].state = established_with(TAG, peer_ep);
    let sess = [0xBBu8; 16];
    n.pm.peers[0].session_obf_key = Some(sess);
    n.pm.by_tag.insert(TAG, 0);
    (n, peer_ep, sess)
}

#[test]
fn tick_emits_one_cover_for_idle_established_peer() {
    let (mut n, peer_ep, sess) = obf_on_established_peer_for_cover(Some(COVER_TEST_NOW_MS), true);
    let out = n.tick(COVER_TEST_NOW_MS).expect("idle peer gets a cover datagram");
    assert_eq!(out.len(), 1, "exactly one cover datagram");
    assert_eq!(out[0].dst, peer_ep);
    let (ptype, _) = deobfuscate(&sess, &out[0].bytes)
        .expect("cover is wrapped under the peer's session key");
    assert_eq!(ptype, JUNK_TYPE, "cover datagram deobfuscates to plaintext JUNK_TYPE");
    assert_eq!(n.pm.peers[0].last_cover_ms, COVER_TEST_NOW_MS);
}

#[test]
fn tick_emits_no_cover_for_active_peer() {
    let (mut n, _, _) = obf_on_established_peer_for_cover(Some(COVER_TEST_NOW_MS), true);
    n.pm.peers[0].last_activity_ms = COVER_TEST_NOW_MS;
    assert!(n.tick(COVER_TEST_NOW_MS).is_none());
}

#[test]
fn tick_emits_no_cover_when_cover_traffic_ms_unset() {
    let (mut n, _, _) = obf_on_established_peer_for_cover(None, true);
    assert!(n.tick(COVER_TEST_NOW_MS).is_none());
}

#[test]
fn tick_emits_no_cover_when_obf_off() {
    let (mut n, _, _) = obf_on_established_peer_for_cover(Some(COVER_TEST_NOW_MS), false);
    assert!(n.pm.obf_key.is_none());
    assert!(n.tick(COVER_TEST_NOW_MS).is_none());
}

#[test]
fn tick_emits_no_cover_for_relay_peer() {
    let (mut n, _, _) = obf_on_established_peer_for_cover(Some(COVER_TEST_NOW_MS), true);
    n.pm.peers[0].relay = true;
    assert!(n.tick(COVER_TEST_NOW_MS).is_none());
}

fn pm_mesh_two_established_one_expired(expired: [u8; 32], valid: [u8; 32]) -> (Node, u64) {
    const TAG0: u64 = 0xAAAA_0000_0000_0001;
    const TAG1: u64 = 0xBBBB_0000_0000_0002;
    let local = generate_keypair();
    let (ep0, ep1) = (sa("10.0.0.2:2000"), sa("10.0.0.3:3000"));
    let peers = [config(expired, Some(ep0)), config(valid, Some(ep1))];
    let mut n = mesh_node(local.public, &peers, Vec::new());
    let d = n.directory.as_mut().unwrap();
    let short = Cert { ca: CA, member: expired, not_after: 1 };
    assert!(d.ingest_record(Entry { cert: short, endpoints: vec![ep0] }, 0));
    assert!(d.ingest_record(mk_record(CA, valid, vec![ep1]), 0));
    n.pm.rekey_interval_ms = 100_000;
    n.pm.peers[0].state = established_with(TAG0, ep0);
    n.pm.by_tag.insert(TAG0, 0);
    n.pm.peers[1].state = established_with(TAG1, ep1);
    n.pm.by_tag.insert(TAG1, 1);
    (n, TAG1)
}

#[test]
fn tick_sweep_drops_established_peer_with_expired_cert() {
    let (mut n, tag1) = pm_mesh_two_established_one_expired([1u8; 32], [2u8; 32]);
    n.tick(500_000);
    assert!(is_idle(&n, 0), "expired-cert peer's session is dropped");
    assert!(!n.pm.by_tag.values().any(|&i| i == 0), "its conn_tag is removed");
    assert_eq!(established_tag(&n, 1), Some(tag1), "the valid peer is untouched");
}

#[test]
fn tick_sweep_is_noop_without_membership() {
    let (mut n, tag, _ep) = pm_with_established_peer([1u8; 32], [2u8; 32], 100);
    n.tick(500_000);
    assert_eq!(established_tag(&n, 0), Some(tag), "membership-off: sweep is a no-op");
}

// ── rekeying ────────────────────────────────────────────────────────────────

#[test]
fn tick_initiates_rekey_for_established_winner_once() {
    let (mut n, tag, _ep) = pm_with_established_peer([1u8; 32], [2u8; 32], 100);
    let out = n.tick(150);
    assert!(has_handshake_init(&out), "winner past the interval must emit a rekey HandshakeInit");
    assert_eq!(established_tag(&n, 0), Some(tag), "current epoch must be untouched");
    assert!(epochs(&n, 0).expect("still Established").rekey.is_some());
    let out2 = n.tick(160);
    assert!(!has_handshake_init(&out2), "a rekey already in flight must not emit a second Init");
    assert_eq!(established_tag(&n, 0), Some(tag));
}

#[test]
fn tick_schedules_rekey_for_relay_winner_via_relay_wrap() {
    let (mut n, tag, _ep) = pm_with_established_peer([1u8; 32], [2u8; 32], 100);
    n.pm.peers[0].relay = true;
    n.pm.rendezvous = Some(mock_rdv().0);
    n.pm.registered_once = true;
    n.pm.last_register_ms = 150;
    n.pm.reg_refresh_ms = u64::MAX;
    let out = n.tick(150);
    assert!(
        has_relayed_handshake_init(out.as_deref().unwrap_or(&[])),
        "a relay peer past the interval must emit a relay-wrapped rekey HandshakeInit"
    );
    assert!(!has_handshake_init(&out), "never a raw HandshakeInit");
    assert!(epochs(&n, 0).expect("still Established").rekey.is_some());
    assert_eq!(established_tag(&n, 0), Some(tag));
}

#[test]
fn tick_rekey_loser_waits_for_2x_interval() {
    let (mut n, tag, _ep) = pm_with_established_peer([3u8; 32], [2u8; 32], 100);
    let out = n.tick(150);
    assert!(!has_handshake_init(&out), "a glare-loser must not rekey before 2x the interval");
    assert!(epochs(&n, 0).expect("still Established").rekey.is_none());
    let out2 = n.tick(250);
    assert!(has_handshake_init(&out2), "a glare-loser must rekey once past 2x the interval");
    assert_eq!(established_tag(&n, 0), Some(tag));
}

#[test]
fn tick_rekey_retransmits_same_init_after_retry_ms() {
    let (mut n, tag, ep) = pm_with_established_peer([1u8; 32], [2u8; 32], 100);
    let out = n.tick(100).unwrap();
    let first_init = out.iter().find(|d| d.bytes[0] == INIT).expect("rekey Init").bytes.clone();
    let mid = n.tick(100 + HANDSHAKE_RETRY_MS - 1);
    assert!(!has_handshake_init(&mid), "must not retransmit before retry_ms elapses");
    let out2 = n.tick(100 + HANDSHAKE_RETRY_MS).unwrap();
    let retransmit = out2
        .iter()
        .find(|d| d.bytes[0] == INIT && d.dst == ep)
        .expect("retransmitted rekey Init");
    assert_eq!(retransmit.bytes, first_init, "retransmit must resend the exact same Init bytes");
    assert_eq!(established_tag(&n, 0), Some(tag));
}

#[test]
fn tick_rekey_abandoned_after_handshake_total_ms_keeps_current() {
    let (mut n, tag, _ep) = pm_with_established_peer([1u8; 32], [2u8; 32], 100);
    n.tick(100);
    assert!(epochs(&n, 0).expect("still Established").rekey.is_some());
    n.tick(100 + HANDSHAKE_TOTAL_MS);
    assert!(epochs(&n, 0).expect("still Established").rekey.is_none());
    assert_eq!(established_tag(&n, 0), Some(tag), "abandoning a rekey leaves current alone");
}

#[test]
fn rekey_resp_promotes_initiator_and_keeps_previous_for_grace() {
    let (mut pm_a, mut pm_b, ep_a, ep_b, _kp_a, kp_b) = established_pm_pair(100);
    let old_tag = established_tag(&pm_a, 0).unwrap();
    let old_payload = vec![0xAAu8; 24];
    let old_frame = pm_b.on_tun(&old_payload, 50)[0].bytes.clone();
    assert_eq!(old_frame[0], DATA);

    let init_pkt = splice_rekey(&mut pm_a, &kp_b.public, ep_b);
    let resp = resp_bytes(&pm_b.on_udp(ep_a, &init_pkt, 100));
    assert_eq!(resp.len(), 1, "a genuine rekey Init must produce a Resp");
    assert_eq!(established_tag(&pm_b, 0), Some(old_tag), "B stays on the old epoch");
    assert!(epochs(&pm_b, 0).unwrap().next.is_some());

    let out = pm_a.on_udp(ep_b, &resp[0], 100);
    assert!(matches!(out, Out::Udp(_)), "expected Udp egress (the new-epoch confirm frame)");
    let confirm_frames: Vec<Vec<u8>> = out.udp().iter().map(|d| d.bytes.clone()).collect();
    assert!(!confirm_frames.is_empty(), "A must emit at least one NEW-epoch frame");
    let new_tag = established_tag(&pm_a, 0).unwrap();
    assert_ne!(new_tag, old_tag, "current must become the NEW epoch");
    let e = epochs(&pm_a, 0).expect("pm_a must still be Established");
    assert!(e.rekey.is_none(), "rekey must be cleared on completion");
    assert_eq!(
        e.previous.as_ref().expect("old epoch must move to previous").conn_tag,
        old_tag,
        "previous must hold the OLD epoch"
    );

    match pm_a.on_udp(ep_b, &old_frame, 101) {
        Out::Tun(buf) => assert_eq!(buf, old_payload),
        _ => panic!("expected the old-epoch frame to open via `previous`"),
    }
    for f in &confirm_frames {
        pm_b.on_udp(ep_a, f, 101);
    }
    assert_eq!(established_tag(&pm_b, 0), Some(new_tag), "B must have confirmed the switch");

    let new_payload = vec![0xBBu8; 24];
    let new_frame = pm_b.on_tun(&new_payload, 101)[0].bytes.clone();
    match pm_a.on_udp(ep_b, &new_frame, 102) {
        Out::Tun(buf) => assert_eq!(buf, new_payload),
        _ => panic!("expected the new-epoch frame to open via `current`"),
    }
}

#[test]
fn rekey_resp_prime_emit_preserves_distinct_fec_fate() {
    let (mut pm_a, mut pm_b, ep_a, ep_b, _kp_a, kp_b) = established_pm_pair(100);
    pm_a.pm.peers[0].pending_tun.push(vec![0x11u8; 40]);
    pm_a.pm.peers[0].pending_tun.push(vec![0x22u8; 40]);
    let init_pkt = splice_rekey(&mut pm_a, &kp_b.public, ep_b);
    let resp = resp_bytes(&pm_b.on_udp(ep_a, &init_pkt, 100));
    assert_eq!(resp.len(), 1, "a genuine rekey Init must produce a Resp");
    let out = pm_a.on_udp(ep_b, &resp[0], 100);
    assert!(matches!(out, Out::Udp(_)), "expected Udp egress (the primed new-epoch frames)");
    let primed = out.udp();
    assert!(primed.len() >= 2, "2 packets must prime at least 2 datagrams, got {}", primed.len());
    let fates: HashSet<u16> = primed.iter().map(|d| d.fate).collect();
    assert!(fates.len() >= 2, "primed datagrams must carry DISTINCT fates, got {fates:?}");
}

#[test]
fn retransmitted_rekey_init_is_idempotent_new_ephemeral_builds_new_next() {
    let (_pm_a, mut pm_b, ep_a, _ep_b, kp_a, kp_b) = established_pm_pair(100);
    let (_, init_pkt_1) = start_initiator(&kp_a.public, &kp_b.public, &framed(&[]));
    let resp1 = resp_bytes(&pm_b.on_udp(ep_a, &init_pkt_1, 100));
    assert_eq!(resp1.len(), 1, "a genuine rekey Init must produce a Resp");
    let next_tag_1 = next_conn_tag(&pm_b);

    let resp2 = resp_bytes(&pm_b.on_udp(ep_a, &init_pkt_1, 150));
    assert_eq!(resp2, resp1, "a retransmitted rekey Init must resend the cached Resp verbatim");
    assert_eq!(next_conn_tag(&pm_b), next_tag_1, "and must NOT mint a second `next` session");
    let resp3 = resp_bytes(&pm_b.on_udp(ep_a, &init_pkt_1, 200));
    assert_eq!(resp3, resp1);
    assert_eq!(next_conn_tag(&pm_b), next_tag_1);

    let (_, init_pkt_2) = start_initiator(&kp_a.public, &kp_b.public, &framed(&[]));
    assert_ne!(init_pkt_1, init_pkt_2, "sanity: the two Inits must actually differ");
    let resp4 = resp_bytes(&pm_b.on_udp(ep_a, &init_pkt_2, 250));
    assert_eq!(resp4.len(), 1);
    assert_ne!(resp4, resp1, "a genuinely new rekey round must produce a NEW Resp");
    assert_ne!(next_conn_tag(&pm_b), next_tag_1, "a new rekey round must replace `next`");
}

#[test]
fn rekey_init_retransmit_before_resp_converges_on_one_session() {
    let (mut pm_a, mut pm_b, ep_a, ep_b, _kp_a, kp_b) = established_pm_pair(100);
    let init_pkt = splice_rekey(&mut pm_a, &kp_b.public, ep_b);
    let resp1 = resp_bytes(&pm_b.on_udp(ep_a, &init_pkt, 100));
    assert_eq!(resp1.len(), 1);
    let next_tag_after_init1 = next_conn_tag(&pm_b);

    let resp2 = resp_bytes(&pm_b.on_udp(ep_a, &init_pkt, 101));
    assert_eq!(resp2, resp1, "a retransmitted rekey Init is answered with the cached Resp");
    assert_eq!(next_conn_tag(&pm_b), next_tag_after_init1);

    let out = pm_a.on_udp(ep_b, &resp1[0], 102);
    assert!(matches!(out, Out::Udp(_)), "expected Udp egress (the new-epoch confirm frame)");
    let confirm_frames: Vec<Vec<u8>> = out.udp().iter().map(|d| d.bytes.clone()).collect();
    let a_new_tag = established_tag(&pm_a, 0).unwrap();
    assert_eq!(a_new_tag, next_tag_after_init1, "A must promote to the epoch B holds as `next`");
    for f in &confirm_frames {
        pm_b.on_udp(ep_a, f, 103);
    }
    assert_eq!(established_tag(&pm_b, 0), Some(a_new_tag), "both sides must converge");
}

#[test]
fn rekey_init_freshness_gate_replaces_age_gate() {
    let (mut pm_a, mut pm_b, ep_a, ep_b, kp_a, kp_b) = established_pm_pair(100);
    let old_tag_a = established_tag(&pm_a, 0).unwrap();
    let old_tag_b = established_tag(&pm_b, 0).unwrap();

    let t_b = now_label();
    let (_, early) = start_initiator(&kp_b.public, &kp_a.public, &init_payload_with_ts(t_b, &[]));
    let resp_early = resp_bytes(&pm_a.on_udp(ep_b, &early, 10));
    assert_eq!(resp_early.len(), 1, "a fresh-ts Init must complete regardless of current's age");
    assert!(epochs(&pm_a, 0).unwrap().next.is_some(), "next must be installed");
    assert_eq!(established_tag(&pm_a, 0), Some(old_tag_a));
    assert_eq!(pm_a.pm.peers[0].last_accepted_init_ts, Some(t_b));

    let last_b = pm_b.pm.peers[0].last_accepted_init_ts.expect("B admitted A's cold-start Init");
    let t_fresh = newer_ts(last_b);
    let (_, init_pkt) =
        start_initiator(&kp_a.public, &kp_b.public, &init_payload_with_ts(t_fresh, &[]));
    let resp = resp_bytes(&pm_b.on_udp(ep_a, &init_pkt, 100));
    assert_eq!(resp.len(), 1, "an admitted rekey Init must produce a Resp");
    assert!(epochs(&pm_b, 0).unwrap().next.is_some(), "next must be installed");
    assert_eq!(established_tag(&pm_b, 0), Some(old_tag_b), "current must be UNCHANGED");
    assert_eq!(pm_b.pm.peers[0].last_accepted_init_ts, Some(t_fresh));

    let t_stale = older_ts(t_fresh);
    let (_, stale) =
        start_initiator(&kp_a.public, &kp_b.public, &init_payload_with_ts(t_stale, &[]));
    assert!(pm_b.on_udp(ep_a, &stale, 100_000).is_nothing(), "a stale-ts rekey Init is dropped");
    assert_eq!(pm_b.pm.peers[0].last_accepted_init_ts, Some(t_fresh));

    let still_old = pm_b.on_tun(&dummy_tun_pkt(), 100_000);
    assert_eq!(still_old[0].bytes[0], DATA);
    assert_eq!(established_tag(&pm_b, 0), Some(old_tag_b));
}

#[test]
fn cold_start_init_retransmit_past_interval_half_resends_original_not_rekey() {
    let (kp_r, kp_i) = (generate_keypair(), generate_keypair());
    let ep_i = sa("10.0.0.20:2000");
    let mut pm_r = node(kp_r.public, &[config(kp_i.public, Some(ep_i))]);
    pm_r.pm.rekey_interval_ms = 100;
    let (_, init_pkt) = start_initiator(&kp_i.public, &kp_r.public, &framed(&[]));
    let resp1 = resp_bytes(&pm_r.on_udp(ep_i, &init_pkt, 0));
    assert_eq!(resp1.len(), 1, "first init must produce one HandshakeResp");
    let tag1 = established_tag(&pm_r, 0).expect("responder must be Established");
    let resp2 = resp_bytes(&pm_r.on_udp(ep_i, &init_pkt, 70));
    assert_eq!(resp2, resp1, "a cold-start retransmit must resend the ORIGINAL cached resp");
    assert_eq!(established_tag(&pm_r, 0), Some(tag1), "current must be unchanged");
    assert!(
        epochs(&pm_r, 0).expect("stay Established").next.is_none(),
        "a cold-start retransmit must NOT install a rekey `next`"
    );
}

// ── the relay ───────────────────────────────────────────────────────────────

#[test]
fn stale_replayed_relayed_cold_start_init_is_rejected() {
    let (local, peer_kp) = (generate_keypair(), generate_keypair());
    let (mut n, _sent) = pm_with_mock_rdv(&local, &[config(peer_kp.public, None)]);
    let t1 = now_label();
    let (_, first) =
        start_initiator(&peer_kp.public, &local.public, &init_payload_with_ts(t1, &[]));
    let out1 = n.on_udp(mock_server(), &relay_deliver(&peer_kp.public, first), 0);
    assert!(has_relayed_handshake_resp(&out1), "a genuine relayed Init must establish");
    assert!(n.pm.peers[0].relay, "sanity: the peer adopted the relay path");
    assert_eq!(n.pm.peers[0].last_accepted_init_ts, Some(t1));

    n.pm.drop_session(0);
    assert!(is_idle(&n, 0));
    assert_eq!(n.pm.peers[0].last_accepted_init_ts, Some(t1));

    let t0 = older_ts(t1);
    let (_, second) =
        start_initiator(&peer_kp.public, &local.public, &init_payload_with_ts(t0, &[]));
    let out2 = n.on_udp(mock_server(), &relay_deliver(&peer_kp.public, second), 200);
    assert!(out2.is_nothing(), "a stale-ts relayed Init must be silently dropped");
    assert!(is_idle(&n, 0));
    assert_eq!(n.pm.peers[0].last_accepted_init_ts, Some(t1));
    assert!(n.pm.by_tag.is_empty(), "no session must have been admitted");
}

#[test]
fn anti_hijack_established_peer_ignores_rendezvous_candidates() {
    const TAG: u64 = 0x0102_0304_0506_0708;
    let (local, peer_kp) = (generate_keypair(), generate_keypair());
    let endpoint = sa("10.0.0.2:51820");
    let (mut n, _sent) = pm_with_mock_rdv(&local, &[config(peer_kp.public, Some(endpoint))]);
    n.pm.peers[0].state = established_with(TAG, endpoint);
    n.pm.by_tag.insert(TAG, 0);
    n.pm.peers[0].path_kind = Some(PathKind::Direct);

    let hijack = sa("198.51.100.9:40000");
    let buf = peer_info(node_id(&peer_kp.public), hijack, None);
    assert!(n.on_udp(mock_server(), &buf, 0).is_nothing());
    let buf = encode(&Message::PunchHint { node: node_id(&peer_kp.public), reflexive: hijack });
    assert!(n.on_udp(mock_server(), &buf, 0).is_nothing());

    assert!(is_established(&n, 0));
    assert_eq!(n.pm.peers[0].endpoint, Some(endpoint));
    assert!(!n.pm.peers[0].relay);
    assert_eq!(n.pm.peers[0].stage, PathStage::Direct);
    assert_eq!(n.paths[0].candidate, None);
}

#[test]
fn anti_hijack_established_peer_ignores_relayed_handshake_init() {
    const TAG: u64 = 0x1122_3344_5566_7788;
    let (local, peer_kp) = (generate_keypair(), generate_keypair());
    let endpoint = sa("10.0.0.2:51820");
    let (mut n, _sent) = pm_with_mock_rdv(&local, &[config(peer_kp.public, Some(endpoint))]);
    n.pm.peers[0].state = established_with(TAG, endpoint);
    n.pm.by_tag.insert(TAG, 0);
    n.pm.peers[0].path_kind = Some(PathKind::Direct);
    assert!(!n.pm.peers[0].relay);
    let tag_before = established_tag(&n, 0).expect("established");

    let (_, init_pkt) = start_initiator(&peer_kp.public, &local.public, &framed(&[]));
    let buf = relay_deliver(&peer_kp.public, init_pkt);
    assert!(n.on_udp(mock_server(), &buf, 0).is_nothing());
    assert!(!n.pm.peers[0].relay, "relay flag must not be flipped");
    assert_eq!(n.pm.peers[0].endpoint, Some(endpoint), "endpoint unchanged");
    assert_eq!(established_tag(&n, 0), Some(tag_before), "session (conn_tag) unchanged");
}

#[test]
fn direct_established_responder_adopts_relay_on_fresh_relayed_init_and_rebuilds() {
    let (mut pm_r, kp_a, _a_init_pkt) = responder_established_direct_for_initiator(100);
    let local_pub = pm_r.local();
    let tag_before = established_tag(&pm_r, 0).expect("responder established");
    let last_ts = pm_r.pm.peers[0].last_accepted_init_ts.expect("cold-start recorded a ts");
    let t_fresh = newer_ts(last_ts);
    let (_, fresh) =
        start_initiator(&kp_a.public, &local_pub, &init_payload_with_ts(t_fresh, &[]));
    let relayed = wrap_relay_deliver(&pm_r, &fresh);
    let out = pm_r.on_udp(mock_server(), &relayed, 5_000);
    assert!(has_relayed_handshake_resp(&out), "must reply with a relay-wrapped Resp");
    assert!(pm_r.pm.peers[0].relay, "must adopt the relay for B's own egress");
    assert_eq!(established_tag(&pm_r, 0), Some(tag_before), "current epoch stays untouched");
    assert!(
        epochs(&pm_r, 0).expect("must stay Established").next.is_some(),
        "a fresh new-ephemeral Init must REBUILD: install a new `next` epoch"
    );
    assert_eq!(pm_r.pm.peers[0].last_accepted_init_ts, Some(t_fresh));
}

#[test]
fn direct_established_responder_ignores_relayed_new_ephemeral_init() {
    let (mut pm_r, kp_a, _a_init_pkt) = responder_established_direct_for_initiator(100);
    let local_pub = pm_r.local();
    let tag_before = established_tag(&pm_r, 0).expect("responder established");
    let last_ts = pm_r.pm.peers[0].last_accepted_init_ts.expect("cold-start recorded a ts");
    let t_stale = older_ts(last_ts);
    let (_, stale) =
        start_initiator(&kp_a.public, &local_pub, &init_payload_with_ts(t_stale, &[]));
    let relayed = wrap_relay_deliver(&pm_r, &stale);
    let dropped = pm_r.on_udp(mock_server(), &relayed, 5_000).is_nothing();
    assert!(!pm_r.pm.peers[0].relay, "must NOT adopt relay for a stale-ts relayed init");
    assert!(dropped, "must fail-closed drop, no reply");
    assert_eq!(established_tag(&pm_r, 0), Some(tag_before), "must NOT rebuild");
    assert_eq!(pm_r.pm.peers[0].last_accepted_init_ts, Some(last_ts));
}

#[test]
fn relay_rekey_init_retransmit_is_idempotent_new_ephemeral_builds_new_next() {
    let (mut n, local, peer_kp, _old_tag) = established_relay_pm(100);
    let (_, init_pkt_1) = start_initiator(&peer_kp.public, &local.public, &framed(&[]));
    let buf1 = relay_deliver(&peer_kp.public, init_pkt_1.clone());
    let resp1 = relayed_bytes(n.on_udp(mock_server(), &buf1, 100).udp(), RESP);
    assert_eq!(resp1.len(), 1, "a genuine relay rekey Init must produce a relay-wrapped Resp");
    let next_tag_1 = next_conn_tag(&n);

    let resp2 = relayed_bytes(n.on_udp(mock_server(), &buf1, 150).udp(), RESP);
    assert_eq!(resp2, resp1, "a retransmitted relay rekey Init must resend the cached Resp");
    assert_eq!(next_conn_tag(&n), next_tag_1, "and must NOT mint a second `next` session");
    let resp3 = relayed_bytes(n.on_udp(mock_server(), &buf1, 200).udp(), RESP);
    assert_eq!(resp3, resp1);
    assert_eq!(next_conn_tag(&n), next_tag_1);

    let (_, init_pkt_2) = start_initiator(&peer_kp.public, &local.public, &framed(&[]));
    assert_ne!(init_pkt_1, init_pkt_2, "sanity: the two Inits must actually differ");
    let buf2 = relay_deliver(&peer_kp.public, init_pkt_2);
    let resp4 = relayed_bytes(n.on_udp(mock_server(), &buf2, 250).udp(), RESP);
    assert_eq!(resp4.len(), 1);
    assert_ne!(resp4, resp1, "a genuinely new relay rekey round must produce a NEW Resp");
    assert_ne!(next_conn_tag(&n), next_tag_1, "and must replace `next`");
}

#[test]
fn relay_rekey_resp_completes_and_promotes() {
    let (mut n, local, peer_kp, old_tag) = established_relay_pm(100);
    let init_pkt = splice_rekey(&mut n, &peer_kp.public, mock_server());
    let r = start_responder(&peer_kp.public, &init_pkt, &[]).unwrap();
    assert_eq!(r.remote, local.public, "sanity: Resp matches pm's own Init");
    let buf = relay_deliver(&peer_kp.public, r.resp_pkt);
    let out = n.on_udp(mock_server(), &buf, 100);
    assert!(matches!(out, Out::Udp(_)), "expected relay-wrapped prime-emit egress");
    assert!(!out.udp().is_empty(), "the prime-emit must produce egress");
    assert!(out.udp().iter().all(is_relay_send), "the prime-emit must be relay-wrapped");

    let new_tag = established_tag(&n, 0).unwrap();
    assert_ne!(new_tag, old_tag, "current must become the NEW epoch");
    let e = epochs(&n, 0).expect("must still be Established");
    assert!(e.rekey.is_none(), "rekey must be cleared on completion");
    assert_eq!(e.previous.as_ref().expect("old epoch must move to previous").conn_tag, old_tag);
    assert_eq!(n.pm.by_tag.get(&new_tag), Some(&0), "by_tag updated for the new conn_tag");
    assert_eq!(n.pm.by_tag.get(&old_tag), None, "by_tag no longer maps the old conn_tag");
}

#[test]
fn direct_peer_ignores_relayed_rekey_resp() {
    let (mut n, local, peer_kp, old_tag) = established_relay_pm(100);
    n.pm.peers[0].relay = false;
    n.pm.peers[0].path_kind = Some(PathKind::Direct);
    let init_pkt = splice_rekey(&mut n, &peer_kp.public, mock_server());
    let r = start_responder(&peer_kp.public, &init_pkt, &[]).unwrap();
    assert_eq!(r.remote, local.public, "sanity: Resp matches pm's own Init");
    let buf = relay_deliver(&peer_kp.public, r.resp_pkt);
    let out = n.on_udp(mock_server(), &buf, 100);
    assert!(
        out.udp().iter().all(|d| !(d.dst == mock_server() && decode(&d.bytes).is_none())),
        "no bare (un-wrapped) datagram may be sent to the server"
    );
    assert_eq!(established_tag(&n, 0), Some(old_tag), "current must remain the OLD epoch");
    assert!(
        epochs(&n, 0).expect("must still be Established").rekey.is_some(),
        "rekey must stay in flight, awaiting a genuinely direct Resp"
    );
}

#[test]
fn relay_rekey_emit_is_noop_when_relay_wrap_returns_none() {
    const OLD_TAG: u64 = 0x1234_5678_9ABC_DEF0;
    let (local, peer_kp) = (generate_keypair(), generate_keypair());
    let mut n = node(local.public, &[config(peer_kp.public, None)]);
    n.pm.rekey_interval_ms = 100;
    n.pm.peers[0].state = established_with(OLD_TAG, mock_server());
    n.pm.by_tag.insert(OLD_TAG, 0);
    n.pm.peers[0].relay = true;
    n.pm.peers[0].path_kind = Some(PathKind::Relayed);
    let (_, init_pkt) = start_initiator(&peer_kp.public, &local.public, &framed(&[]));
    assert!(
        matches!(n.relayed_init(0, &init_pkt, 100), DispatchOut::Nothing),
        "no rendezvous: relay_wrap fails, no egress"
    );
    assert_eq!(established_tag(&n, 0), Some(OLD_TAG), "current must remain intact");
}

#[test]
fn revoked_tabled_relay_peer_cold_start_reinit_rejected() {
    let (local, peer) = (generate_keypair(), generate_keypair());
    let (rdv, _sent) = mock_rdv();
    let d = directory_for(local.public, Vec::new());
    let peers = [config(peer.public, None)];
    let mut n = node_with(local.public, &peers, TunnelMode::L3Tun, Some(rdv), Some(d));
    let payload = framed(&valid_cert_bytes(&n, 0));
    let (_, init_pkt) = start_initiator(&peer.public, &local.public, &payload);
    let out = n.on_udp(mock_server(), &relay_deliver(&peer.public, init_pkt), 0);
    assert!(has_relayed_handshake_resp(&out), "cold-start relayed init must establish");
    assert!(n.pm.peers[0].relay);

    n.pm.drop_session(0);
    assert!(is_idle(&n, 0));
    let expired = framed(&expired_cert_bytes(&n, 0));
    let (_, reinit_pkt) = start_initiator(&peer.public, &local.public, &expired);
    let out2 = n.on_udp(mock_server(), &relay_deliver(&peer.public, reinit_pkt), 300_000);
    assert!(out2.is_nothing(), "an expired cert must not re-admit a tabled relay peer");
    assert!(is_idle(&n, 0));
}

// ── routing ─────────────────────────────────────────────────────────────────

#[test]
fn route_tun_index_picks_peer_owning_the_inner_ipv6_dst() {
    let n = node([8u8; 32], &[peer_cfg(1, "10.0.0.1:1000"), peer_cfg(2, "10.0.0.2:2000")]);
    assert_eq!(n.pm.route_tun_index(&ipv6_pkt_to(node_addr(&[2u8; 32]))), Some(1));
}

#[test]
fn route_tun_index_falls_back_to_sole_peer_for_unmatched_l3_traffic() {
    let n = node([8u8; 32], &[peer_cfg(1, "10.0.0.1:1000")]);
    assert_eq!(n.pm.route_tun_index(&[0x45u8; 40]), Some(0));
}

#[test]
fn route_tun_index_l3_ambiguous_multi_peer_drops() {
    let n = node([8u8; 32], &[peer_cfg(1, "10.0.0.1:1000"), peer_cfg(2, "10.0.0.2:2000")]);
    assert_eq!(n.pm.route_tun_index(&[0x45u8; 40]), None);
}

#[test]
fn route_tun_index_l2_single_peer_forwards_regardless_of_inner() {
    let peers = [peer_cfg(1, "10.0.0.1:1000")];
    let n = node_with([8u8; 32], &peers, TunnelMode::L2Tap, None, None);
    assert_eq!(n.pm.route_tun_index(&[0xffu8; 14]), Some(0));
}

#[test]
fn routes_inner_dst_to_owning_peer_and_demuxes_by_tag() {
    const FAKE_TAG: u64 = 0xAAAA_BBBB_CCCC_DDDD;
    let (peer_a, peer_b) = (peer_cfg(1, "10.0.0.1:1000"), peer_cfg(2, "10.0.0.2:2000"));
    let mut n = node([8u8; 32], &[peer_a, peer_b]);
    assert_eq!(n.pm.by_addr.get(&node_addr(&[1u8; 32])), Some(&0));
    assert_eq!(n.pm.by_addr.get(&node_addr(&[2u8; 32])), Some(&1));
    let ep_b = peer_b.endpoint.unwrap();
    n.pm.peers[1].state = established_with(FAKE_TAG, ep_b);
    n.pm.by_tag.insert(FAKE_TAG, 1);

    let mut dg = vec![DATA];
    dg.extend_from_slice(&FAKE_TAG.to_be_bytes());
    dg.extend_from_slice(&[0u8; 8]);
    assert_eq!(n.pm.route_data(sa("203.0.113.9:9"), &dg), Some(1));

    let mut untagged_dg = vec![DATA];
    untagged_dg.extend_from_slice(&0u64.to_be_bytes());
    untagged_dg.extend_from_slice(&[0u8; 8]);
    assert_eq!(n.pm.route_data(ep_b, &untagged_dg), Some(1));
}

#[test]
fn dispatch_established_relearns_endpoint_directly() {
    let (mut pm_i, mut pm_r, old_ep) = established_pair_for_roaming();
    let dg = pm_i.on_tun(&dummy_tun_pkt(), 0)[0].bytes.clone();
    let new_src = sa("198.51.100.7:5000");
    assert_ne!(new_src, old_ep);
    let opened = pm_r.open(0, &dg);
    let out = pm_r.pm.dispatch_established(0, new_src, opened, 1_000);
    assert!(!matches!(out, DispatchOut::Nothing), "a genuine Data datagram must authenticate");
    assert_eq!(pm_r.pm.peers[0].endpoint, Some(new_src));
}

#[test]
fn relay_peer_endpoint_does_not_roam() {
    let (mut n, _local, _peer_kp, _old_tag) = established_relay_pm(100);
    assert!(n.pm.peers[0].relay);
    let placeholder = n.pm.peers[0].endpoint;
    n.pm.peers[0].relearn_endpoint(sa("198.51.100.9:7000"));
    assert_eq!(n.pm.peers[0].endpoint, placeholder, "a relay peer's endpoint must never roam");
}

#[test]
fn authenticated_data_from_new_src_roams_endpoint() {
    let (mut pm_i, mut pm_r, old_ep) = established_pair_for_roaming();
    let data = pm_i.on_tun(&dummy_tun_pkt(), 0);
    assert_eq!(data[0].bytes[0], DATA);
    let new_src = sa("198.51.100.222:60000");
    assert_ne!(new_src, old_ep);
    assert!(!pm_r.on_udp(new_src, &data[0].bytes, 1_000).is_nothing());
    assert_eq!(pm_r.pm.peers[0].endpoint, Some(new_src));
}

#[test]
fn roam_redirects_egress_to_the_new_source() {
    let (mut pm_i, mut pm_r, old_ep) = established_pair_for_roaming();
    let before = pm_r.on_tun(&dummy_tun_pkt(), 500);
    assert_eq!(before[0].dst, old_ep, "egress targets the original endpoint");
    let data = pm_i.on_tun(&dummy_tun_pkt(), 0);
    let new_src = sa("198.51.100.222:60000");
    assert!(!pm_r.on_udp(new_src, &data[0].bytes, 1_000).is_nothing());
    let after = pm_r.on_tun(&dummy_tun_pkt(), 2_000);
    assert_eq!(after[0].dst, new_src, "egress must follow the roam to the new source");
}

#[test]
fn replayed_data_from_spoofed_src_does_not_roam_endpoint() {
    let (mut pm_i, mut pm_r, old_ep) = established_pair_for_roaming();
    let dg = pm_i.on_tun(&dummy_tun_pkt(), 0)[0].bytes.clone();
    assert!(!pm_r.on_udp(old_ep, &dg, 1_000).is_nothing(), "the first delivery authenticates");
    assert_eq!(pm_r.pm.peers[0].endpoint, Some(old_ep));
    let spoof = sa("203.0.113.66:5555");
    assert!(pm_r.on_udp(spoof, &dg, 1_001).is_nothing(), "a replayed datagram is rejected");
    assert_eq!(pm_r.pm.peers[0].endpoint, Some(old_ep));
}

// ── what holds whatever happens ─────────────────────────────────────────────

#[test]
fn an_accepted_init_is_never_accepted_again() {
    let (kp_r, kp_i) = (generate_keypair(), generate_keypair());
    let ep_i = sa("10.0.0.31:3100");
    let (mut n, _sent) = pm_with_mock_rdv(&kp_r, &[config(kp_i.public, Some(ep_i))]);
    let t1 = now_label();
    let (_, init) = start_initiator(&kp_i.public, &kp_r.public, &init_payload_with_ts(t1, &[]));
    assert_eq!(resp_bytes(&n.on_udp(ep_i, &init, 0)).len(), 1);

    // A newer session, a dropped one, ticks and relayed traffic come in between.
    let t2 = newer_ts(t1);
    let (_, newer) = start_initiator(&kp_i.public, &kp_r.public, &init_payload_with_ts(t2, &[]));
    assert_eq!(resp_bytes(&n.on_udp(ep_i, &newer, 10)).len(), 1);
    n.tick(20);
    n.pm.drop_session(0);
    n.on_udp(mock_server(), &relay_deliver(&kp_i.public, vec![DATA; 40]), 30);

    assert!(n.on_udp(sa("203.0.113.1:1"), &init, 40).is_nothing());
    assert!(n.on_udp(mock_server(), &relay_deliver(&kp_i.public, init), 50).is_nothing());
    assert!(is_idle(&n, 0));
    assert_eq!(n.pm.peers[0].last_accepted_init_ts, Some(t2));
    assert_eq!(n.pm.peers[0].endpoint, Some(ep_i));
}

#[test]
fn admitting_a_member_again_changes_nothing() {
    let mut n = mesh_node([9u8; 32], &[peer_cfg(1, "10.0.0.1:1000")], Vec::new());
    let ep = sa("10.0.0.5:5000");
    n.pm.admit_member(identity([5u8; 32]), &vec![ep, sa("10.0.0.6:1")]);
    assert_eq!(n.pm.peers.len(), 2);
    assert_eq!(n.pm.peers[1].endpoint, Some(ep), "the first endpoint is the one to try");
    assert_eq!(n.pm.peers[0].endpoint, Some(sa("10.0.0.1:1000")));
    n.pm.admit_member(identity([5u8; 32]), &vec![sa("10.0.0.7:7")]);
    assert_eq!(n.pm.peers.len(), 2, "no key is there twice");
    assert_eq!(n.pm.peers[1].endpoint, Some(ep), "the peer that is there stays as it is");
    assert_eq!(n.pm.route_tun_index(&ipv6_pkt_to(node_addr(&[5u8; 32]))), Some(1));
    assert_eq!(n.pm.position(&[5u8; 32]), Some(1));
    assert_eq!(n.pm.position(&[6u8; 32]), None);
}

#[test]
fn a_session_that_this_side_began_stays_direct() {
    let (kp_a, kp_b) = (generate_keypair(), generate_keypair());
    let ep_b = sa("10.0.0.2:2000");
    let (mut n, _sent) = pm_with_mock_rdv(&kp_a, &[config(kp_b.public, Some(ep_b))]);
    let init = n.on_tun(&dummy_tun_pkt(), 0)[0].bytes.clone();
    let r = start_responder(&kp_b.public, &init, &[]).unwrap();
    n.on_udp(ep_b, &r.resp_pkt, 1);
    let tag = established_tag(&n, 0).expect("established");
    let (_, fresh) = start_initiator(&kp_b.public, &kp_a.public, &framed(&[]));
    assert!(n.on_udp(mock_server(), &relay_deliver(&kp_b.public, fresh), 10).is_nothing());
    assert!(!n.pm.peers[0].relay);
    assert_eq!(established_tag(&n, 0), Some(tag));
    assert!(epochs(&n, 0).unwrap().next.is_none());
    assert_eq!(n.pm.peers[0].path_kind, Some(PathKind::Direct));
}

#[test]
fn a_session_through_the_relay_is_relayed() {
    let (n, _) = responder_established_for_initiator(100);
    assert_eq!(n.pm.peers[0].path_kind, Some(PathKind::Relayed));
    assert_eq!(n.paths[0].settled, Some(PathKind::Relayed));
    let (n, _, _) = responder_established_direct_for_initiator(100);
    assert_eq!(n.pm.peers[0].path_kind, Some(PathKind::Direct));
    assert_eq!(n.paths[0].settled, Some(PathKind::Direct));
}

#[test]
fn the_queue_keeps_the_newest_packets() {
    let mut n = node([8u8; 32], &[config([7u8; 32], Some(sa("10.0.0.9:9000")))]);
    for i in 0..20u8 {
        n.on_tun(&[0x45, i], 0);
    }
    let queued: Vec<u8> = n.pm.peers[0].pending_tun.iter().map(|p| p[1]).collect();
    assert_eq!(queued, (4..20u8).collect::<Vec<u8>>());
}

#[test]
fn queued_packets_go_out_when_the_session_is_there() {
    let (kp_a, kp_b) = (generate_keypair(), generate_keypair());
    let ep_b = sa("10.0.0.2:2000");
    let mut a = node(kp_a.public, &[config(kp_b.public, Some(ep_b))]);
    let init = a.on_tun(&[0x45, 1], 0)[0].bytes.clone();
    a.on_tun(&[0x45, 2], 0);
    let r = start_responder(&kp_b.public, &init, &[]).unwrap();
    let out = a.on_udp(ep_b, &r.resp_pkt, 1);
    let mut far = r.done.session;
    let inner: Vec<Vec<u8>> = out.udp().iter().map(|d| far.open(&d.bytes).unwrap()).collect();
    assert_eq!(inner, vec![vec![0x45, 1], vec![0x45, 2]]);
    assert!(a.pm.peers[0].pending_tun.is_empty());
}

#[test]
fn cover_is_spaced_by_the_interval() {
    let (mut n, _, _) = obf_on_established_peer_for_cover(Some(20), true);
    assert_eq!(n.tick(20).map(|o| o.len()), Some(1));
    assert!(n.tick(39).is_none());
    assert_eq!(n.tick(40).map(|o| o.len()), Some(1));
}

#[test]
fn lookups_are_spaced_by_a_second() {
    let (local, peer_kp) = (generate_keypair(), generate_keypair());
    let (mut n, _sent) = pm_with_mock_rdv(&local, &[config(peer_kp.public, None)]);
    assert_eq!(n.on_tun(&dummy_tun_pkt(), 0).len(), 1);
    assert!(n.on_tun(&dummy_tun_pkt(), 999).is_empty());
    assert_eq!(n.on_tun(&dummy_tun_pkt(), 1_000).len(), 1);
}

#[test]
fn registrations_come_first_and_every_twenty_seconds() {
    let local = generate_keypair();
    let (mut n, sent) = pm_with_mock_rdv(&local, &[]);
    assert_eq!(n.pm.registration_due(5), Some(0));
    let out = n.tick(5).expect("the first tick registers");
    assert!(matches!(decode(&out[0].bytes), Some(Message::Register { node, counter: 0 })
        if node == node_id(&local.public)));
    assert!(n.tick(20_004).is_none());
    assert_eq!(n.pm.registration_due(20_005), Some(1));
    assert!(n.tick(20_005).is_some());
    assert_eq!(sent.borrow().len(), 2);
    assert_eq!(n.pm.reg_seq, 2);
}

#[test]
fn a_mesh_node_registers_with_its_record() {
    let mut n = mesh_with_server([4u8; 32]);
    let out = n.tick(0).expect("the first tick registers");
    let me = node_id(&n.local());
    assert!(out.iter().any(|d| matches!(decode(&d.bytes),
        Some(Message::RegisterSigned { record }) if record.node_id == me)));
}

#[test]
fn without_a_server_nothing_is_looked_up_relayed_or_registered() {
    let mut n = node([8u8; 32], &[config([7u8; 32], None)]);
    assert!(n.on_tun(&dummy_tun_pkt(), 0).is_empty());
    assert_eq!(n.pm.peers[0].pending_tun.len(), 1, "the packet waits");
    assert!(n.pm.maybe_lookup(0, 0).is_none());
    assert!(n.pm.relay_wrap(0, &[1, 2]).is_none());
    assert!(n.pm.registration_due(0).is_none());
    assert!(n.tick(1_000_000).is_none());
    assert_eq!(n.pm.server_addr(), SockAddr::unspecified());
}

#[test]
fn a_punch_hint_begins_a_handshake_at_once() {
    let (local, peer_kp) = (generate_keypair(), generate_keypair());
    let (mut n, _sent) = pm_with_mock_rdv(&local, &[config(peer_kp.public, None)]);
    let there = sa("198.51.100.7:41000");
    let hint = encode(&Message::PunchHint { node: node_id(&peer_kp.public), reflexive: there });
    let out = n.on_udp(mock_server(), &hint, 0);
    assert_eq!(out.udp().len(), 1);
    assert_eq!(out.udp()[0].dst, there);
    assert_eq!(out.udp()[0].bytes[0], INIT);
    assert!(is_handshaking(&n, 0));
    // A handshake that is under way is kept.
    assert!(n.on_udp(mock_server(), &hint, 1).is_nothing());
}

#[test]
fn unwrapped_traffic_keeps_to_the_key_it_came_under() {
    let (n, sess, _) = established_obf_peer_with_data();
    let network = derive_key(&[0xCCu8; 32]);
    let src = n.pm.peers[0].endpoint.unwrap();
    let body = [1u8; 20];
    // Sessions carry data, control and gossip; the network's key carries handshakes.
    for ptype in [DATA, CONTROL, GOSSIP] {
        assert!(n.deobf_ingress(src, &obfuscate(&sess, ptype, &body, 0)).is_some());
        assert!(n.deobf_ingress(src, &obfuscate(&network, ptype, &body, 0)).is_none());
    }
    for ptype in [INIT, RESP] {
        assert!(n.deobf_ingress(src, &obfuscate(&sess, ptype, &body, 0)).is_none());
        assert!(n.deobf_ingress(src, &obfuscate(&network, ptype, &body, 0)).is_some());
    }
    assert!(n.deobf_ingress(src, &obfuscate(&sess, JUNK_TYPE, &body, 0)).is_none());
    assert!(n.deobf_ingress(src, &obfuscate(&network, JUNK_TYPE, &body, 0)).is_none());
}

#[test]
fn egress_is_wrapped_under_the_key_of_its_kind() {
    let (mut n, sess, _) = established_obf_peer_with_data();
    let network = derive_key(&[0xCCu8; 32]);
    let ep = n.pm.peers[0].endpoint.unwrap();
    let data = n.on_tun(&dummy_tun_pkt(), 0);
    assert_eq!(deobfuscate(&sess, &data[0].bytes).map(|(t, _)| t), Some(DATA));
    assert_eq!(n.pm.obf_key_for_egress(ep, INIT), Some(network));
    assert_eq!(n.pm.obf_key_for_egress(ep, DATA), Some(sess));
    assert_eq!(n.pm.key_at(ep), Some(sess));
    assert_eq!(n.pm.key_at(sa("1.2.3.4:5")), None);
}

#[test]
fn a_retired_epoch_does_not_open_any_more() {
    let (mut pm_a, mut pm_b, ep_a, ep_b, _, kp_b) = established_pm_pair(100);
    let late = pm_b.on_tun(&[9u8; 24], 50)[0].bytes.clone();
    let init_pkt = splice_rekey(&mut pm_a, &kp_b.public, ep_b);
    let resp = resp_bytes(&pm_b.on_udp(ep_a, &init_pkt, 100));
    pm_a.on_udp(ep_b, &resp[0], 100);
    assert!(epochs(&pm_a, 0).unwrap().previous.is_some());
    pm_a.pm.retire_previous(0);
    assert!(epochs(&pm_a, 0).unwrap().previous.is_none());
    assert!(pm_a.on_udp(ep_b, &late, 200).is_nothing());
}

#[test]
fn what_cannot_be_wrapped_is_not_sent() {
    let wrap = ObfPlan::Wrap { key: [1u8; 16], ptype: DATA, skip: 1, pad_max: 0 };
    assert_eq!(enveloped(&wrap, vec![1, 2], None), None);
    assert_eq!(enveloped(&wrap, vec![1, 2], Some(vec![9])), Some(vec![9]));
    assert_eq!(enveloped(&ObfPlan::Keep, vec![1, 2], None), Some(vec![1, 2]));
}

fn enveloped_by(n: &Node, dst: SockAddr, dg: &[u8]) -> Vec<u8> {
    match n.pm.obf_egress(dst, dg) {
        ObfPlan::Wrap { key, ptype, skip, .. } => obfuscate(&key, ptype, &dg[skip..], 7),
        ObfPlan::Keep => dg.to_vec(),
    }
}

#[test]
fn what_one_side_wraps_the_other_side_unwraps() {
    let (a, _, data) = established_obf_peer_with_data();
    let (b, _, _) = established_obf_peer_with_data();
    let there = a.pm.peers[0].endpoint.unwrap();
    let elsewhere = sa("198.51.100.77:7777");
    let mut init = vec![INIT];
    init.extend_from_slice(&[0x31u8; 90]);
    for src in [b.pm.peers[0].endpoint.unwrap(), elsewhere] {
        let wire = enveloped_by(&a, there, &data);
        assert_ne!(wire, data);
        assert_eq!(b.deobf_ingress(src, &wire), Some(data.clone()));
        for dst in [there, elsewhere] {
            let wire = enveloped_by(&a, dst, &init);
            assert_ne!(wire, init);
            assert_eq!(b.deobf_ingress(src, &wire), Some(init.clone()));
        }
    }
}

#[test]
fn an_attempt_ends_when_its_whole_time_is_over() {
    let kp_local = generate_keypair();
    let mut n = node(kp_local.public, &[config([7u8; 32], Some(sa("10.0.0.9:9000")))]);
    assert_eq!(n.on_tun(&dummy_tun_pkt(), 0).len(), 1);
    assert_eq!(n.tick(HANDSHAKE_TOTAL_MS - 500).map(|out| out.len()), Some(1));
    assert!(n.tick(HANDSHAKE_TOTAL_MS - 1).is_none());
    assert!(is_handshaking(&n, 0), "not before the whole time is over");
    // No retransmission is due yet, and the attempt ends all the same.
    assert!(n.tick(HANDSHAKE_TOTAL_MS).is_none());
    assert!(is_idle(&n, 0));
    assert!(n.pm.peers[0].pending_tun.is_empty());
}

#[test]
fn an_answer_does_not_outlive_its_session() {
    let (kp_a, kp_b) = (generate_keypair(), generate_keypair());
    let (ep_a, ep_b) = (sa("10.0.0.41:4100"), sa("10.0.0.42:4200"));
    let mut a = node(kp_a.public, &[config(kp_b.public, Some(ep_b))]);
    let mut b = node(kp_b.public, &[config(kp_a.public, Some(ep_a))]);
    let (_, old_init) =
        start_initiator(&kp_b.public, &kp_a.public, &init_payload_with_ts(now_label(), &[]));
    assert_eq!(resp_bytes(&a.on_udp(ep_b, &old_init, 0)).len(), 1);
    assert!(a.pm.peers[0].cached_resp.is_some());
    assert_eq!(a.pm.peers[0].cached_resp_init_eph, init_ephemeral(&old_init));

    a.pm.drop_session(0);
    assert!(is_idle(&a, 0));
    assert_eq!(a.pm.peers[0].cached_resp, None);
    assert_eq!(a.pm.peers[0].cached_resp_init_eph, None);
    assert_eq!(a.pm.peers[0].session_obf_key, None);

    // A session that this side begins has no answer, and the old handshake gets none.
    let init = a.on_tun(&dummy_tun_pkt(), 100)[0].bytes.clone();
    let resp = resp_bytes(&b.on_udp(ep_a, &init, 100));
    a.on_udp(ep_b, &resp[0], 100);
    assert!(established_tag(&a, 0).is_some());
    assert_eq!(a.pm.peers[0].cached_resp, None);
    assert_eq!(a.pm.peers[0].cached_resp_init_eph, None);
    assert!(a.on_udp(ep_b, &old_init, 200).is_nothing());
}

#[test]
fn crossing_handshakes_leave_one_answer() {
    let (kp_a, kp_b) = (generate_keypair(), generate_keypair());
    let (ep_a, ep_b) = (sa("10.0.0.51:5100"), sa("10.0.0.52:5200"));
    let mut a = node(kp_a.public, &[config(kp_b.public, Some(ep_b))]);
    let mut b = node(kp_b.public, &[config(kp_a.public, Some(ep_a))]);
    let from_a = a.on_tun(&dummy_tun_pkt(), 0)[0].bytes.clone();
    let from_b = b.on_tun(&dummy_tun_pkt(), 0)[0].bytes.clone();
    let at_a = a.on_udp(ep_b, &from_b, 1);
    let at_b = b.on_udp(ep_a, &from_a, 1);
    let a_yields = kp_b.public < kp_a.public;
    assert_eq!(at_a.is_nothing(), !a_yields);
    assert_eq!(at_b.is_nothing(), a_yields);
    assert_eq!(is_handshaking(&a, 0), !a_yields);
    assert_eq!(is_handshaking(&b, 0), a_yields);
    if a_yields {
        b.on_udp(ep_a, &resp_bytes(&at_a)[0], 2);
    } else {
        a.on_udp(ep_b, &resp_bytes(&at_b)[0], 2);
    }
    assert!(established_tag(&a, 0).is_some());
    assert_eq!(established_tag(&a, 0), established_tag(&b, 0));
}

#[test]
fn the_first_session_that_opens_a_datagram_has_it() {
    let order = [4usize, 2, 7];
    assert_eq!(data_step(&order, &[]), DataStep::Try(4));
    assert_eq!(data_step(&order, &[false]), DataStep::Try(2));
    assert_eq!(data_step(&order, &[false, true]), DataStep::Deliver(2));
    assert_eq!(data_step(&order, &[false, true, true]), DataStep::Deliver(2));
    assert_eq!(data_step(&order, &[false, false, false]), DataStep::Drop);
    assert_eq!(data_step(&[], &[]), DataStep::Drop);
}

#[test]
fn epochs_are_tried_from_the_one_that_sends() {
    let addr = sa("10.0.0.1:1");
    let mut e: EpochSet<Session, Half> = EpochSet::new(fake_established_dataplane(1, addr), 0);
    assert_eq!(e.open_step(&[]), OpenStep::Try(EpochSlot::Current));
    assert_eq!(e.open_step(&[false]), OpenStep::Closed);
    e.install_next(fake_established_dataplane(2, addr), [3u8; 32], vec![RESP]);
    assert_eq!(e.open_step(&[false]), OpenStep::Try(EpochSlot::Next));
    e.previous = Some(fake_established_dataplane(3, addr));
    assert_eq!(e.open_step(&[false, false]), OpenStep::Try(EpochSlot::Previous));
    assert_eq!(e.open_step(&[false, true]), OpenStep::Opened(EpochSlot::Next));
    assert_eq!(e.open_step(&[false, false, false]), OpenStep::Closed);
}

#[test]
fn a_tick_makes_its_rounds_in_order() {
    let rounds = |n: &Node, now_ms: u64| {
        let mut seen = Vec::new();
        while let Some(r) = n.pm.tick_step(seen.last().copied(), now_ms) {
            seen.push(r);
        }
        seen
    };
    let (local, peer_kp) = (generate_keypair(), generate_keypair());
    let mut n = node(local.public, &[config(peer_kp.public, None)]);
    assert_eq!(rounds(&n, 0), vec![TickRound::Peers]);
    n.set_obf_psk(Some([1u8; 32]));
    n.pm.set_cover_traffic_ms(Some(50));
    assert_eq!(rounds(&n, 0), vec![TickRound::Peers, TickRound::Cover]);
    n.pm.roots = Some(Vec::new());
    assert_eq!(rounds(&n, 0), vec![TickRound::Peers, TickRound::Gossip, TickRound::Cover]);
    let late = n.pm.rekey_interval_ms;
    assert_eq!(
        rounds(&n, late),
        vec![TickRound::Peers, TickRound::Gossip, TickRound::Cover, TickRound::Sweep]
    );
    let (m, _sent) = pm_with_mock_rdv(&local, &[config(peer_kp.public, None)]);
    assert_eq!(
        rounds(&m, 0),
        vec![TickRound::Register, TickRound::Peers, TickRound::Idle]
    );
}

#[test]
fn packet_types_are_told_apart() {
    assert!(codes().distinct());
    assert!(!WireCodes { junk: DATA, ..codes() }.distinct());
    assert!(!WireCodes { resp: INIT, ..codes() }.distinct());
}
