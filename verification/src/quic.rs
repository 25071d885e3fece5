//! The QUIC costume around the tunnel: which side dials, how large a symbol may be,
//! and what the events of the connections lead to.

use vstd::prelude::*;

use crate::addr::SockAddr;
use crate::order::{before, law_order_irreflexive, law_order_total, less};

verus! {

/// Bytes of QUIC framing to reserve around a symbol.
pub const QUIC_YIP_OVERHEAD: usize = 28;

/// The largest symbol, which is also that of the path without QUIC.
pub const QUIC_SYMBOL_CAP: u16 = 1200;

/// The least time between two attempts to dial one peer.
pub const RECONNECT_DEBOUNCE_MS: u64 = 1_000;

/// The longest wait for input, so that the clock's tick is not missed.
pub const MAX_WAIT_MS: u64 = 10;

/// The symbol size for a path that takes datagrams of `mds` bytes.
pub open spec fn symbol_size(mds: int) -> int {
    if mds < QUIC_YIP_OVERHEAD {
        0
    } else if mds - QUIC_YIP_OVERHEAD < QUIC_SYMBOL_CAP {
        mds - QUIC_YIP_OVERHEAD
    } else {
        QUIC_SYMBOL_CAP as int
    }
}

/// The symbol size for a path that takes datagrams of `mds` bytes: what the framing
/// leaves, and no more than on a path without QUIC.
pub fn quic_symbol_size(mds: usize) -> (s: u16)
    ensures
        s == symbol_size(mds as int),
{
    let avail: usize = mds.saturating_sub(QUIC_YIP_OVERHEAD);
    if avail < QUIC_SYMBOL_CAP as usize {
        avail as u16
    } else {
        QUIC_SYMBOL_CAP
    }
}

/// A symbol and its framing fit into a datagram of the path, wherever the framing alone
/// does.
pub proof fn law_symbol_fits(mds: int)
    requires
        mds >= QUIC_YIP_OVERHEAD,
    ensures
        0 <= symbol_size(mds) <= QUIC_SYMBOL_CAP,
        symbol_size(mds) + QUIC_YIP_OVERHEAD <= mds,
{
}

/// A symbol is as large as the path allows: all that 28 bytes of framing leave of a datagram,
/// up to 1200 bytes, and nothing where the framing does not fit.
pub proof fn law_symbol_uses_the_path(mds: int)
    requires
        0 <= mds,
    ensures
        mds < 28 ==> symbol_size(mds) == 0,
        28 <= mds <= 1228 ==> symbol_size(mds) + 28 == mds,
        mds > 1228 ==> symbol_size(mds) == 1200,
{
}

/// The side that a node takes toward a peer.
#[derive(Clone, Copy, Debug, PartialEq, Eq, Structural)]
pub enum ConnRole {
    /// It dials.
    Client,
    /// It accepts.
    Server,
}

/// The node with the smaller key dials.
pub open spec fn role(local: Seq<u8>, peer: Seq<u8>) -> ConnRole {
    if before(local, peer) {
        ConnRole::Client
    } else {
        ConnRole::Server
    }
}

/// The side that the node with the key `local_pub` takes toward `peer_pub`.
pub fn connection_role(local_pub: &[u8; 32], peer_pub: &[u8; 32]) -> (r: ConnRole)
    ensures
        r == role(local_pub@, peer_pub@),
{
    if less(local_pub, peer_pub) {
        ConnRole::Client
    } else {
        ConnRole::Server
    }
}

/// Of two nodes with different keys exactly one dials, so that they have one connection;
/// a node does not dial itself.
pub proof fn law_one_side_dials(a: Seq<u8>, b: Seq<u8>)
    ensures
        a != b ==> role(a, b) != role(b, a),
        role(a, a) == ConnRole::Server,
        before(a, b) ==> role(a, b) == ConnRole::Client && role(b, a) == ConnRole::Server,
{
    if a != b {
        law_order_total(a, b);
    }
    law_order_irreflexive(a);
}

/// A peer of the configuration: its key and its address.
#[derive(Clone, Copy, Debug)]
pub struct QuicPeer {
    pub public_key: [u8; 32],
    pub addr: SockAddr,
}

/// A peer that this node dials.
#[derive(Clone, Copy, Debug, PartialEq, Eq, Structural)]
pub struct ClientPeer {
    pub addr: SockAddr,
    /// When it was last dialled.
    pub last_attempt_ms: Option<u64>,
}

/// The peers among the first `n` that a node dials.
pub open spec fn dialled(local: Seq<u8>, peers: Seq<QuicPeer>, n: nat) -> Seq<ClientPeer>
    decreases n,
{
    if n == 0 {
        Seq::empty()
    } else {
        let t = dialled(local, peers, (n - 1) as nat);
        if role(local, peers[n - 1].public_key@) is Client {
            t.push(ClientPeer { addr: peers[n - 1].addr, last_attempt_ms: None })
        } else {
            t
        }
    }
}

/// The peers that the node with the key `local_pub` dials, in their order.
pub fn client_peers(local_pub: &[u8; 32], peers: &[QuicPeer]) -> (out: Vec<ClientPeer>)
    ensures
        out@ == dialled(local_pub@, peers@, peers@.len()),
{
    let mut out: Vec<ClientPeer> = Vec::new();
    let mut i: usize = 0;
    while i < peers.len()
        invariant
            i <= peers@.len(),
            out@ == dialled(local_pub@, peers@, i as nat),
        decreases peers@.len() - i,
    {
        if let ConnRole::Client = connection_role(local_pub, &peers[i].public_key) {
            out.push(ClientPeer { addr: peers[i].addr, last_attempt_ms: None });
        }
        i = i + 1;
    }
    out
}

/// The symbol size to set after connections came up that take datagrams of the sizes
/// `newly_up`, if any.
pub open spec fn symbol_size_to_set(already_set: bool, newly_up: Seq<usize>) -> Option<int> {
    if already_set || newly_up.len() == 0 {
        None
    } else {
        Some(symbol_size(newly_up[0] as int))
    }
}

/// The first connection that ever came up sets the symbol size, and none after it does.
pub proof fn law_first_connection_sets_the_size(already_set: bool, newly_up: Seq<usize>)
    ensures
        already_set ==> symbol_size_to_set(already_set, newly_up) is None,
        newly_up.len() == 0 ==> symbol_size_to_set(already_set, newly_up) is None,
        !already_set && newly_up.len() > 0 ==> symbol_size_to_set(already_set, newly_up) == Some(
            symbol_size(newly_up.first() as int),
        ),
{
}

/// The symbol size to set after connections came up that take datagrams of the sizes
/// `newly_up`: that of the first connection ever, and no other.
pub fn first_symbol_size(already_set: bool, newly_up: &[usize]) -> (r: Option<u16>)
    ensures
        match r {
            Some(s) => !already_set && newly_up@.len() > 0 && s == symbol_size(
                newly_up@[0] as int,
            ),
            None => already_set || newly_up@.len() == 0,
        },
        symbol_size_to_set(already_set, newly_up@) == (match r {
            Some(s) => Some(s as int),
            None => None,
        }),
{
    if already_set || newly_up.len() == 0 {
        None
    } else {
        Some(quic_symbol_size(newly_up[0]))
    }
}

/// A connection of the QUIC implementation.
#[verifier::external_type_specification]
#[verifier::external_body]
pub struct ExConnection(quinn_proto::Connection);

/// A point in time of the monotonic clock.
#[verifier::external_type_specification]
#[verifier::external_body]
pub struct ExInstant(std::time::Instant);

/// The datagrams that were handed to a connection and not yet sent, oldest first.
pub uninterp spec fn outgoing_datagrams(conn: quinn_proto::Connection) -> Seq<Seq<u8>>;

/// The datagrams that a connection received and nobody took yet, oldest first.
pub uninterp spec fn received_datagrams(conn: quinn_proto::Connection) -> Seq<Seq<u8>>;

/// The largest datagram that a connection takes now; none where it takes no datagrams.
pub uninterp spec fn datagram_limit(conn: quinn_proto::Connection) -> Option<usize>;

/// The events that a connection has to report, in their order.
pub uninterp spec fn waiting_events(conn: quinn_proto::Connection) -> Seq<ConnEvent>;

/// Why a connection does not take a datagram of a length now; none where it takes it.
pub uninterp spec fn datagram_refusal(conn: quinn_proto::Connection, len: nat) -> Option<
    DatagramRefusal,
>;

/// When a connection wants to be woken; none where it waits for nothing.
pub uninterp spec fn next_timer(conn: quinn_proto::Connection) -> Option<std::time::Instant>;

/// The milliseconds from `now` until `then`; zero where `then` has passed.
pub uninterp spec fn millis_between(then: std::time::Instant, now: std::time::Instant) -> u128;

/// When a connection wants to be woken, in milliseconds from a point in time; zero for
/// what is due, and none where it waits for nothing.
pub open spec fn wakes_in(conn: quinn_proto::Connection, now: std::time::Instant) -> Option<u128> {
    match next_timer(conn) {
        Some(then) => Some(millis_between(then, now)),
        None => None,
    }
}

/// Whether what a connection holds and takes of datagrams is as before.
pub open spec fn same_datagrams(a: quinn_proto::Connection, b: quinn_proto::Connection) -> bool {
    &&& outgoing_datagrams(a) == outgoing_datagrams(b)
    &&& received_datagrams(a) == received_datagrams(b)
    &&& datagram_limit(a) == datagram_limit(b)
}

/// Why a connection did not take a datagram.
#[derive(Clone, Copy, Debug, PartialEq, Eq, Structural)]
pub enum DatagramRefusal {
    UnsupportedByPeer,
    Disabled,
    TooLarge,
    Blocked,
}

/// Why a datagram was not handed to QUIC.
#[derive(Clone, Copy, Debug, PartialEq, Eq, Structural)]
pub enum QuicSendError {
    /// There is no connection to the destination that is up.
    NoConnection,
    /// The connection refused it; nothing of it was sent.
    Datagram(DatagramRefusal),
}

/// What happened on a connection.
#[derive(Clone, Copy, Debug, PartialEq, Eq, Structural)]
pub enum ConnEvent {
    HandshakeDataReady,
    Connected,
    Lost,
    Stream,
    DatagramReceived,
    DatagramsUnblocked,
}

/// Hands a datagram to a connection, without pushing out older ones.
///
/// Calls `Datagrams::send` with `drop` unset. It queues the datagram whole behind those
/// that wait, or refuses it and queues nothing; what it received, its limit and its events
/// stay. One that is larger than the limit is refused as too large, and one for a
/// connection without a limit as unsupported, unless datagrams are switched off
/// altogether. Which other ones are refused rests on what the connection has buffered and
/// is configured to buffer: the refusal is named, and no more is said of it.
#[verifier::external_body]
fn datagram_send(conn: &mut quinn_proto::Connection, payload: &[u8]) -> (r: Result<
    (),
    DatagramRefusal,
>)
    ensures
        r == (match datagram_refusal(*old(conn), payload@.len()) {
            Some(e) => Err(e),
            None => Ok(()),
        }),
        received_datagrams(*final(conn)) == received_datagrams(*old(conn)),
        datagram_limit(*final(conn)) == datagram_limit(*old(conn)),
        waiting_events(*final(conn)) == waiting_events(*old(conn)),
        match r {
            Ok(_) => {
                &&& datagram_limit(*old(conn)) matches Some(m) && payload@.len() <= m
                &&& outgoing_datagrams(*final(conn)) == outgoing_datagrams(*old(conn)).push(
                    payload@,
                )
            },
            Err(_) => outgoing_datagrams(*final(conn)) == outgoing_datagrams(*old(conn)),
        },
        (datagram_limit(*old(conn)) matches Some(m) && payload@.len() > m) ==> (r matches Err(e)
            && (e is TooLarge || e is Disabled)),
        datagram_limit(*old(conn)) is None ==> (r matches Err(e) && (e is UnsupportedByPeer
            || e is Disabled)),
{
    let sent = conn.datagrams().send(bytes::Bytes::copy_from_slice(payload), false);
    sent.map_err(|e| match e {
        quinn_proto::SendDatagramError::UnsupportedByPeer => DatagramRefusal::UnsupportedByPeer,
        quinn_proto::SendDatagramError::Disabled => DatagramRefusal::Disabled,
        quinn_proto::SendDatagramError::TooLarge => DatagramRefusal::TooLarge,
        quinn_proto::SendDatagramError::Blocked(_) => DatagramRefusal::Blocked,
    })
}

/// Takes the oldest datagram that a connection received.
///
/// Calls `Datagrams::recv`, which takes the front of the queue of received datagrams and
/// touches nothing else.
#[verifier::external_body]
fn datagram_recv(conn: &mut quinn_proto::Connection) -> (r: Option<Vec<u8>>)
    ensures
        outgoing_datagrams(*final(conn)) == outgoing_datagrams(*old(conn)),
        datagram_limit(*final(conn)) == datagram_limit(*old(conn)),
        waiting_events(*final(conn)) == waiting_events(*old(conn)),
        match r {
            Some(b) => {
                &&& received_datagrams(*old(conn)).len() > 0
                &&& b@ == received_datagrams(*old(conn))[0]
                &&& received_datagrams(*final(conn)) == received_datagrams(*old(conn)).skip(1)
            },
            None => {
                &&& received_datagrams(*old(conn)).len() == 0
                &&& received_datagrams(*final(conn)) == received_datagrams(*old(conn))
            },
        },
{
    conn.datagrams().recv().map(|b| b.to_vec())
}

/// The largest datagram that a connection takes now.
///
/// Calls `Datagrams::max_size`, which only reads.
#[verifier::external_body]
fn datagram_max_size(conn: &mut quinn_proto::Connection) -> (r: Option<usize>)
    ensures
        *final(conn) == *old(conn),
        r == datagram_limit(*old(conn)),
{
    conn.datagrams().max_size()
}

/// Takes the next event of a connection.
///
/// Calls `Connection::poll`, which takes the front of what the connection has to report:
/// its events, then those of its streams, then the error it ended with. It touches no
/// datagram. Which events there are rests on what the network delivered, and is not said.
#[verifier::external_body]
fn conn_poll(conn: &mut quinn_proto::Connection) -> (r: Option<ConnEvent>)
    ensures
        same_datagrams(*final(conn), *old(conn)),
        match r {
            Some(ev) => {
                &&& waiting_events(*old(conn)).len() > 0
                &&& ev == waiting_events(*old(conn))[0]
                &&& waiting_events(*final(conn)) == waiting_events(*old(conn)).skip(1)
            },
            None => {
                &&& waiting_events(*old(conn)).len() == 0
                &&& waiting_events(*final(conn)) == waiting_events(*old(conn))
            },
        },
{
    conn.poll().map(|e| match e {
        quinn_proto::Event::HandshakeDataReady => ConnEvent::HandshakeDataReady,
        quinn_proto::Event::Connected => ConnEvent::Connected,
        quinn_proto::Event::ConnectionLost { .. } => ConnEvent::Lost,
        quinn_proto::Event::Stream(_) => ConnEvent::Stream,
        quinn_proto::Event::DatagramReceived => ConnEvent::DatagramReceived,
        quinn_proto::Event::DatagramsUnblocked => ConnEvent::DatagramsUnblocked,
    })
}

/// When a connection wants to be woken.
///
/// Calls `Connection::poll_timeout`, which only reads the connection's timers. When they are
/// set rests on what the network delivered: the result is named, and no more is said of it.
#[verifier::external_body]
fn conn_timer(conn: &mut quinn_proto::Connection) -> (r: Option<std::time::Instant>)
    ensures
        *final(conn) == *old(conn),
        r == next_timer(*old(conn)),
{
    conn.poll_timeout()
}

/// The milliseconds from `now` until `then`; zero where `then` has passed.
///
/// Calls `Instant::saturating_duration_since`, whose result rests on the two points in time
/// alone, and takes the whole milliseconds of it. The points are opaque: the result is named.
#[verifier::external_body]
fn millis_until(then: &std::time::Instant, now: &std::time::Instant) -> (r: u128)
    ensures
        r == millis_between(*then, *now),
{
    then.saturating_duration_since(*now).as_millis()
}

/// When a connection wants to be woken, in milliseconds from `now`; zero for what is due.
fn conn_wakes_in(conn: &mut quinn_proto::Connection, now: &std::time::Instant) -> (r: Option<u128>)
    ensures
        *final(conn) == *old(conn),
        r == wakes_in(*old(conn), *now),
{
    match conn_timer(conn) {
        Some(then) => Some(millis_until(&then, now)),
        None => None,
    }
}

/// One connection to one peer.
pub struct ConnEntry {
    pub handle: usize,
    pub conn: quinn_proto::Connection,
    pub peer_addr: SockAddr,
    /// Whether the handshake of the connection is done.
    pub up: bool,
    /// Whether the connection is lost; it is removed when the next round ends.
    pub dead: bool,
}

impl ConnEntry {
    /// Whether a datagram for `dst` can be handed to the connection.
    pub open spec fn serves(self, dst: SockAddr) -> bool {
        self.peer_addr == dst && self.up && !self.dead
    }

    /// Whether only the state behind the connection may differ.
    pub open spec fn same_flags(self, other: ConnEntry) -> bool {
        &&& self.handle == other.handle
        &&& self.peer_addr == other.peer_addr
        &&& self.up == other.up
        &&& self.dead == other.dead
    }
}

/// The first connection from `from` on that a datagram for `dst` can be handed to.
pub open spec fn first_serving(conns: Seq<ConnEntry>, dst: SockAddr, from: int) -> Option<int>
    decreases conns.len() - from,
{
    if from < 0 || from >= conns.len() {
        None
    } else if conns[from].serves(dst) {
        Some(from)
    } else {
        first_serving(conns, dst, from + 1)
    }
}

/// How handing a datagram of a length for `dst` to its connection goes: the connection's
/// place, or why it was not taken.
pub open spec fn send_outcome(conns: Seq<ConnEntry>, dst: SockAddr, len: nat) -> Result<
    int,
    QuicSendError,
> {
    match first_serving(conns, dst, 0) {
        None => Err(QuicSendError::NoConnection),
        Some(i) => match datagram_refusal(conns[i].conn, len) {
            None => Ok(i),
            Some(e) => Err(QuicSendError::Datagram(e)),
        },
    }
}

/// A datagram that was handed over went to a connection with its destination that is up and
/// not lost, and that took it; that there is none is said exactly where there is none; and
/// what a connection says against a datagram is handed on.
pub proof fn law_sending_is_reported(conns: Seq<ConnEntry>, dst: SockAddr, len: nat, i: int)
    ensures
        ({
            let r = send_outcome(conns, dst, len);
            let k = r->Ok_0;
            let none = forall|j: int|
                0 <= j < conns.len() ==> !((#[trigger] conns[j]).peer_addr == dst && conns[j].up
                    && !conns[j].dead);
            &&& r is Ok ==> {
                &&& 0 <= k < conns.len()
                &&& conns[k].peer_addr == dst && conns[k].up && !conns[k].dead
                &&& datagram_refusal(conns[k].conn, len) is None
            }
            &&& none ==> r == Err::<int, QuicSendError>(QuicSendError::NoConnection)
            &&& 0 <= i < conns.len() && conns[i].peer_addr == dst && conns[i].up && !conns[i].dead
                ==> r != Err::<int, QuicSendError>(QuicSendError::NoConnection)
        }),
{
    lemma_first_serving(conns, dst, 0, i);
}

/// The connections of this node.
pub struct QuicEndpoint {
    pub conns: Vec<ConnEntry>,
}

/// The connections among the first `n` that are not lost.
pub open spec fn surviving(conns: Seq<ConnEntry>, n: nat) -> Seq<ConnEntry>
    decreases n,
{
    if n == 0 {
        Seq::empty()
    } else if conns[n - 1].dead {
        surviving(conns, (n - 1) as nat)
    } else {
        surviving(conns, (n - 1) as nat).push(conns[n - 1])
    }
}

/// Received datagrams with the address of the peer they came from.
pub open spec fn from_peer(addr: SockAddr, dgs: Seq<Seq<u8>>) -> Seq<(SockAddr, Seq<u8>)> {
    Seq::new(dgs.len(), |i: int| (addr, dgs[i]))
}

/// What each received datagram of a list says.
pub open spec fn recv_views(v: Seq<(SockAddr, Vec<u8>)>) -> Seq<(SockAddr, Seq<u8>)> {
    Seq::new(v.len(), |i: int| (v[i].0, v[i].1@))
}

/// Whether some connection to `addr` is not lost.
pub open spec fn connected_to(conns: Seq<ConnEntry>, addr: SockAddr) -> bool {
    exists|i: int| 0 <= i < conns.len() && (#[trigger] conns[i]).peer_addr == addr && !conns[i].dead
}

/// Whether a peer is to be dialled: it has no connection and was not dialled within the
/// interval.
pub open spec fn dial_due(conns: Seq<ConnEntry>, c: ClientPeer, now_ms: u64) -> bool {
    &&& !connected_to(conns, c.addr)
    &&& match c.last_attempt_ms {
        None => true,
        Some(t) => crate::epoch::elapsed(now_ms, t) >= RECONNECT_DEBOUNCE_MS,
    }
}

/// A peer after it was dialled, or not.
pub open spec fn after_dial(conns: Seq<ConnEntry>, c: ClientPeer, now_ms: u64) -> ClientPeer {
    if dial_due(conns, c, now_ms) {
        ClientPeer { last_attempt_ms: Some(now_ms), ..c }
    } else {
        c
    }
}

/// The soonest of the timers of the first `n` connections.
pub open spec fn soonest_timer(conns: Seq<ConnEntry>, now: std::time::Instant, n: nat) -> Option<
    u128,
>
    decreases n,
{
    if n == 0 {
        None
    } else {
        match (soonest_timer(conns, now, (n - 1) as nat), wakes_in(conns[n - 1].conn, now)) {
            (Some(a), Some(b)) => Some(if a < b {
                a
            } else {
                b
            }),
            (Some(a), None) => Some(a),
            (None, b) => b,
        }
    }
}

/// The wait that a soonest timer asks for, in milliseconds: never longer than the tick.
pub open spec fn wait_of(soonest: Option<u128>) -> int {
    match soonest {
        Some(t) if t < MAX_WAIT_MS => t as int,
        _ => MAX_WAIT_MS as int,
    }
}

/// The wait that the soonest timer asks for, in milliseconds: never longer than the
/// tick, and none for a timer that is due.
pub fn wait_for(soonest: Option<u128>) -> (ms: i32)
    ensures
        ms == wait_of(soonest),
{
    match soonest {
        Some(t) => if t < MAX_WAIT_MS as u128 {
            t as i32
        } else {
            MAX_WAIT_MS as i32
        },
        None => MAX_WAIT_MS as i32,
    }
}

/// What a connection becomes by the events `evs`, what is received by them, and which
/// datagram sizes come up; each pair holds what was there before and after.
pub open spec fn driven(
    a: ConnEntry,
    b: ConnEntry,
    evs: Seq<ConnEvent>,
    recv: (Seq<(SockAddr, Seq<u8>)>, Seq<(SockAddr, Seq<u8>)>),
    newly_up: (Seq<usize>, Seq<usize>),
) -> bool {
    let got = evs.contains(ConnEvent::DatagramReceived);
    let up = evs.contains(ConnEvent::Connected);
    &&& b.handle == a.handle && b.peer_addr == a.peer_addr
    &&& b.up == (a.up || up)
    &&& b.dead == (a.dead || evs.contains(ConnEvent::Lost))
    &&& outgoing_datagrams(b.conn) == outgoing_datagrams(a.conn)
    &&& datagram_limit(b.conn) == datagram_limit(a.conn)
    &&& received_datagrams(b.conn) == if got {
        Seq::empty()
    } else {
        received_datagrams(a.conn)
    }
    &&& recv.1 == recv.0 + if got {
        from_peer(a.peer_addr, received_datagrams(a.conn))
    } else {
        Seq::empty()
    }
    &&& newly_up.1 == if up && !a.up && datagram_limit(a.conn) is Some {
        newly_up.0.push(datagram_limit(a.conn)->0)
    } else {
        newly_up.0
    }
}

/// The connections with one more that was dialled or accepted.
pub open spec fn with_conn(
    conns: Seq<ConnEntry>,
    handle: usize,
    conn: quinn_proto::Connection,
    peer_addr: SockAddr,
) -> Seq<ConnEntry> {
    conns.push(ConnEntry { handle, conn, peer_addr, up: false, dead: false })
}

/// A connection that was added is there, last, and its peer is not dialled again; it takes no
/// datagram before it is up, and changes for none where it goes.
pub proof fn law_added_connection_waits(
    conns: Seq<ConnEntry>,
    handle: usize,
    conn: quinn_proto::Connection,
    peer_addr: SockAddr,
    dst: SockAddr,
    last_attempt_ms: Option<u64>,
    now_ms: u64,
)
    ensures
        ({
            let all = with_conn(conns, handle, conn, peer_addr);
            &&& all.drop_last() == conns
            &&& all.last().handle == handle && all.last().conn == conn
            &&& all.last().peer_addr == peer_addr
            &&& !dial_due(all, ClientPeer { addr: peer_addr, last_attempt_ms }, now_ms)
            &&& first_serving(all, dst, 0) == first_serving(conns, dst, 0)
        }),
{
    let all = with_conn(conns, handle, conn, peer_addr);
    assert(all.drop_last() =~= conns);
    assert(all[conns.len() as int].peer_addr == peer_addr && !all[conns.len() as int].dead);
    lemma_serving_before(conns, all, dst, 0);
}

proof fn lemma_serving_before(conns: Seq<ConnEntry>, all: Seq<ConnEntry>, dst: SockAddr, from: int)
    requires
        0 <= from <= conns.len(),
        all.len() == conns.len() + 1,
        all.drop_last() == conns,
        !all.last().up,
    ensures
        first_serving(all, dst, from) == first_serving(conns, dst, from),
    decreases conns.len() - from,
{
    if from < conns.len() {
        assert(all[from] == conns[from]);
        lemma_serving_before(conns, all, dst, from + 1);
    } else {
        assert(first_serving(all, dst, from + 1) is None);
    }
}

impl QuicEndpoint {
    pub fn new() -> (q: Self)
        ensures
            q.conns@.len() == 0,
    {
        QuicEndpoint { conns: Vec::new() }
    }

    /// Adds a connection that was dialled or accepted.
    pub fn add_conn(&mut self, handle: usize, conn: quinn_proto::Connection, peer_addr: SockAddr)
        ensures
            final(self).conns@ == with_conn(old(self).conns@, handle, conn, peer_addr),
    {
        self.conns.push(ConnEntry { handle, conn, peer_addr, up: false, dead: false });
    }

    /// Whether some connection to `addr` is not lost.
    pub fn has_conn_to(&self, addr: SockAddr) -> (r: bool)
        ensures
            r == connected_to(self.conns@, addr),
    {
        let mut i: usize = 0;
        while i < self.conns.len()
            invariant
                i <= self.conns@.len(),
                forall|j: int|
                    0 <= j < i ==> !((#[trigger] self.conns@[j]).peer_addr == addr
                        && !self.conns@[j].dead),
            decreases self.conns@.len() - i,
        {
            if self.conns[i].peer_addr == addr && !self.conns[i].dead {
                assert(self.conns@[i as int].peer_addr == addr);
                return true;
            }
            i = i + 1;
        }
        false
    }

    /// The place of the connection with a handle: the first one that has it.
    pub fn position(&self, handle: usize) -> (r: Option<usize>)
        ensures
            match r {
                Some(i) => {
                    &&& i < self.conns@.len()
                    &&& self.conns@[i as int].handle == handle
                    &&& forall|j: int|
                        0 <= j < i ==> (#[trigger] self.conns@[j]).handle != handle
                },
                None => forall|j: int|
                    0 <= j < self.conns@.len() ==> (#[trigger] self.conns@[j]).handle != handle,
            },
    {
        let mut i: usize = 0;
        while i < self.conns.len()
            invariant
                i <= self.conns@.len(),
                forall|j: int| 0 <= j < i ==> (#[trigger] self.conns@[j]).handle != handle,
            decreases self.conns@.len() - i,
        {
            if self.conns[i].handle == handle {
                return Some(i);
            }
            i = i + 1;
        }
        None
    }

    /// Whether a peer is to be dialled now; notes that it was.
    pub fn redial(&self, client: &mut ClientPeer, now_ms: u64) -> (due: bool)
        ensures
            due == dial_due(self.conns@, *old(client), now_ms),
            *final(client) == after_dial(self.conns@, *old(client), now_ms),
    {
        let due: bool = !self.has_conn_to(client.addr) && match client.last_attempt_ms {
            None => true,
            Some(t) => now_ms.saturating_sub(t) >= RECONNECT_DEBOUNCE_MS,
        };
        if due {
            client.last_attempt_ms = Some(now_ms);
        }
        due
    }

    /// Does what an event of connection `i` asks for: a connection that comes up reports
    /// the datagrams it takes, once; received datagrams are all taken, in their order; a
    /// lost connection is marked.
    pub fn on_event(
        &mut self,
        i: usize,
        ev: ConnEvent,
        recv: &mut Vec<(SockAddr, Vec<u8>)>,
        newly_up: &mut Vec<usize>,
    )
        requires
            i < old(self).conns@.len(),
        ensures
            final(self).conns@.len() == old(self).conns@.len(),
            forall|j: int|
                0 <= j < old(self).conns@.len() && j != i ==> #[trigger] final(self).conns@[j]
                    == old(self).conns@[j],
            ({
                let a = old(self).conns@[i as int];
                let b = final(self).conns@[i as int];
                &&& b.handle == a.handle && b.peer_addr == a.peer_addr
                &&& b.up == (a.up || ev is Connected)
                &&& b.dead == (a.dead || ev is Lost)
                &&& outgoing_datagrams(b.conn) == outgoing_datagrams(a.conn)
                &&& datagram_limit(b.conn) == datagram_limit(a.conn)
                &&& waiting_events(b.conn) == waiting_events(a.conn)
                &&& received_datagrams(b.conn) == if ev is DatagramReceived {
                    Seq::empty()
                } else {
                    received_datagrams(a.conn)
                }
                &&& recv_views(final(recv)@) == recv_views(old(recv)@) + if ev is DatagramReceived {
                    from_peer(a.peer_addr, received_datagrams(a.conn))
                } else {
                    Seq::empty()
                }
                &&& final(newly_up)@ == if ev is Connected && !a.up && datagram_limit(
                    a.conn,
                ) is Some {
                    old(newly_up)@.push(datagram_limit(a.conn)->0)
                } else {
                    old(newly_up)@
                }
            }),
    {
        let addr: SockAddr = self.conns[i].peer_addr;
        match ev {
            ConnEvent::Connected => {
                if !self.conns[i].up {
                    self.conns[i].up = true;
                    if let Some(mds) = datagram_max_size(&mut self.conns[i].conn) {
                        newly_up.push(mds);
                    }
                }
                assert(recv_views(recv@) =~= recv_views(old(recv)@) + Seq::<
                    (SockAddr, Seq<u8>),
                >::empty());
            },
            ConnEvent::DatagramReceived => {
                self.take_received(i, addr, recv);
            },
            ConnEvent::Lost => {
                self.conns[i].dead = true;
                assert(recv_views(recv@) =~= recv_views(old(recv)@) + Seq::<
                    (SockAddr, Seq<u8>),
                >::empty());
            },
            _ => {
                assert(recv_views(recv@) =~= recv_views(old(recv)@) + Seq::<
                    (SockAddr, Seq<u8>),
                >::empty());
            },
        }
    }

    /// Takes every datagram that connection `i` received, in their order.
    fn take_received(&mut self, i: usize, addr: SockAddr, recv: &mut Vec<(SockAddr, Vec<u8>)>)
        requires
            i < old(self).conns@.len(),
        ensures
            final(self).conns@.len() == old(self).conns@.len(),
            forall|j: int|
                0 <= j < old(self).conns@.len() && j != i ==> #[trigger] final(self).conns@[j]
                    == old(self).conns@[j],
            final(self).conns@[i as int].same_flags(old(self).conns@[i as int]),
            outgoing_datagrams(final(self).conns@[i as int].conn) == outgoing_datagrams(
                old(self).conns@[i as int].conn,
            ),
            datagram_limit(final(self).conns@[i as int].conn) == datagram_limit(
                old(self).conns@[i as int].conn,
            ),
            waiting_events(final(self).conns@[i as int].conn) == waiting_events(
                old(self).conns@[i as int].conn,
            ),
            received_datagrams(final(self).conns@[i as int].conn).len() == 0,
            recv_views(final(recv)@) == recv_views(old(recv)@) + from_peer(
                addr,
                received_datagrams(old(self).conns@[i as int].conn),
            ),
    {
        let ghost all = received_datagrams(self.conns@[i as int].conn);
        let mut more: bool = true;
        let ghost mut k: int = 0;
        assert(all.skip(0) =~= all);
        assert(recv_views(recv@) =~= recv_views(old(recv)@) + from_peer(addr, all.take(0)));
        while more
            invariant
                i < self.conns@.len(),
                self.conns@.len() == old(self).conns@.len(),
                forall|j: int|
                    0 <= j < old(self).conns@.len() && j != i ==> #[trigger] self.conns@[j]
                        == old(self).conns@[j],
                self.conns@[i as int].same_flags(old(self).conns@[i as int]),
                outgoing_datagrams(self.conns@[i as int].conn) == outgoing_datagrams(
                    old(self).conns@[i as int].conn,
                ),
                datagram_limit(self.conns@[i as int].conn) == datagram_limit(
                    old(self).conns@[i as int].conn,
                ),
                waiting_events(self.conns@[i as int].conn) == waiting_events(
                    old(self).conns@[i as int].conn,
                ),
                0 <= k <= all.len(),
                received_datagrams(self.conns@[i as int].conn) == all.skip(k),
                recv_views(recv@) == recv_views(old(recv)@) + from_peer(addr, all.take(k)),
                !more ==> k == all.len(),
            decreases
                    all.len() - k + if more {
                        1int
                    } else {
                        0int
                    },
        {
            match datagram_recv(&mut self.conns[i].conn) {
                Some(b) => {
                    let ghost had = recv@;
                    recv.push((addr, b));
                    proof {
                        assert(all.skip(k)[0] == all[k]);
                        assert(all.skip(k).skip(1) =~= all.skip(k + 1));
                        assert(recv_views(recv@) =~= recv_views(had).push((addr, all[k])));
                        assert(from_peer(addr, all.take(k + 1)) =~= from_peer(
                            addr,
                            all.take(k),
                        ).push((addr, all[k])));
                        k = k + 1;
                    }
                },
                None => {
                    more = false;
                },
            }
        }
        assert(all.take(k) =~= all);
    }

    /// Takes every event of connection `i` and does what they ask for: a connection that
    /// comes up is noted with the datagrams it takes, once; where datagrams came in, all of
    /// them are taken, in their order; a lost connection is marked.
    pub fn drive_conn(
        &mut self,
        i: usize,
        recv: &mut Vec<(SockAddr, Vec<u8>)>,
        newly_up: &mut Vec<usize>,
    )
        requires
            i < old(self).conns@.len(),
        ensures
            final(self).conns@.len() == old(self).conns@.len(),
            forall|j: int|
                0 <= j < old(self).conns@.len() && j != i ==> #[trigger] final(self).conns@[j]
                    == old(self).conns@[j],
            waiting_events(final(self).conns@[i as int].conn).len() == 0,
            driven(
                old(self).conns@[i as int],
                final(self).conns@[i as int],
                waiting_events(old(self).conns@[i as int].conn),
                (recv_views(old(recv)@), recv_views(final(recv)@)),
                (old(newly_up)@, final(newly_up)@),
            ),
    {
        let ghost a = self.conns@[i as int];
        let ghost evs = waiting_events(a.conn);
        let ghost mut k: int = 0;
        let mut more: bool = true;
        proof {
            assert(evs.skip(0) =~= evs);
            assert(recv_views(recv@) =~= recv_views(old(recv)@) + Seq::<
                (SockAddr, Seq<u8>),
            >::empty());
        }
        while more
            invariant
                i < self.conns@.len(),
                self.conns@.len() == old(self).conns@.len(),
                a == old(self).conns@[i as int],
                evs == waiting_events(a.conn),
                forall|j: int|
                    0 <= j < old(self).conns@.len() && j != i ==> #[trigger] self.conns@[j]
                        == old(self).conns@[j],
                0 <= k <= evs.len(),
                waiting_events(self.conns@[i as int].conn) == evs.skip(k),
                driven(
                    a,
                    self.conns@[i as int],
                    evs.take(k),
                    (recv_views(old(recv)@), recv_views(recv@)),
                    (old(newly_up)@, newly_up@),
                ),
                !more ==> k == evs.len(),
            decreases
                    evs.len() - k + if more {
                        1int
                    } else {
                        0int
                    },
        {
            match conn_poll(&mut self.conns[i].conn) {
                Some(ev) => {
                    let ghost had = recv_views(recv@);
                    self.on_event(i, ev, recv, newly_up);
                    proof {
                        let was = evs.take(k);
                        let is = evs.take(k + 1);
                        assert(evs.skip(k)[0] == evs[k]);
                        assert(evs.skip(k).skip(1) =~= evs.skip(k + 1));
                        assert(is =~= was.push(ev));
                        assert forall|x: ConnEvent| #[trigger]
                            is.contains(x) == (was.contains(x) || ev == x) by {
                            if was.contains(x) {
                                let j = choose|j: int| 0 <= j < was.len() && was[j] == x;
                                assert(is[j] == x);
                            }
                            if ev == x {
                                assert(is[k] == x);
                            }
                        }
                        assert(had + Seq::<(SockAddr, Seq<u8>)>::empty() =~= had);
                        assert(from_peer(a.peer_addr, Seq::<Seq<u8>>::empty()) =~= Seq::<
                            (SockAddr, Seq<u8>),
                        >::empty());
                        k = k + 1;
                    }
                },
                None => {
                    more = false;
                },
            }
        }
        assert(evs.take(k) =~= evs);
    }

    /// Removes the connections that are lost.
    pub fn reap(&mut self)
        ensures
            final(self).conns@ == surviving(old(self).conns@, old(self).conns@.len()),
            forall|i: int|
                0 <= i < final(self).conns@.len() ==> !(#[trigger] final(self).conns@[i]).dead,
    {
        let ghost all = self.conns@;
        let n: usize = self.conns.len();
        let mut kept: Vec<ConnEntry> = Vec::new();
        let mut i: usize = 0;
        while i < n
            invariant
                i <= n,
                n == all.len(),
                self.conns@ =~= all.skip(i as int),
                kept@ == surviving(all, i as nat),
                forall|j: int| 0 <= j < kept@.len() ==> !(#[trigger] kept@[j]).dead,
            decreases n - i,
        {
            assert(all.skip(i as int)[0] == all[i as int]);
            let c: ConnEntry = self.conns.remove(0);
            assert(self.conns@ =~= all.skip(i + 1));
            if !c.dead {
                kept.push(c);
            }
            i = i + 1;
        }
        self.conns = kept;
    }

    /// Hands one datagram to the connection for `dst`, whole; gives the connection's
    /// place. A datagram that the connection does not take is refused, never cut.
    pub fn send_datagram(&mut self, dst: SockAddr, payload: &[u8]) -> (r: Result<
        usize,
        QuicSendError,
    >)
        ensures
            final(self).conns@.len() == old(self).conns@.len(),
            send_outcome(old(self).conns@, dst, payload@.len()) == (match r {
                Ok(i) => Ok(i as int),
                Err(e) => Err(e),
            }),
            match first_serving(old(self).conns@, dst, 0) {
                None => {
                    &&& r == Err::<usize, QuicSendError>(QuicSendError::NoConnection)
                    &&& final(self).conns@ == old(self).conns@
                },
                Some(i) => {
                    let a = old(self).conns@[i];
                    let b = final(self).conns@[i];
                    &&& b.same_flags(a)
                    &&& received_datagrams(b.conn) == received_datagrams(a.conn)
                    &&& datagram_limit(b.conn) == datagram_limit(a.conn)
                    &&& waiting_events(b.conn) == waiting_events(a.conn)
                    &&& forall|j: int|
                        0 <= j < old(self).conns@.len() && j != i ==> #[trigger]
                            final(self).conns@[j] == old(self).conns@[j]
                    &&& match datagram_refusal(a.conn, payload@.len()) {
                        None => {
                            &&& r == Ok::<usize, QuicSendError>(i as usize)
                            &&& datagram_limit(a.conn) matches Some(m) && payload@.len() <= m
                            &&& outgoing_datagrams(b.conn) == outgoing_datagrams(a.conn).push(
                                payload@,
                            )
                        },
                        Some(e) => {
                            &&& r == Err::<usize, QuicSendError>(QuicSendError::Datagram(e))
                            &&& outgoing_datagrams(b.conn) == outgoing_datagrams(a.conn)
                            &&& datagram_limit(a.conn) is Some && payload@.len()
                                > datagram_limit(a.conn)->0 ==> (e is TooLarge || e is Disabled)
                            &&& datagram_limit(a.conn) is None ==> (e is UnsupportedByPeer
                                || e is Disabled)
                        },
                    }
                },
            },
    {
        let mut i: usize = 0;
        while i < self.conns.len()
            invariant
                i <= self.conns@.len(),
                self.conns@ == old(self).conns@,
                first_serving(self.conns@, dst, 0) == first_serving(self.conns@, dst, i as int),
            decreases self.conns@.len() - i,
        {
            if self.conns[i].peer_addr == dst && self.conns[i].up && !self.conns[i].dead {
                return match datagram_send(&mut self.conns[i].conn, payload) {
                    Ok(_) => Ok(i),
                    Err(e) => Err(QuicSendError::Datagram(e)),
                };
            }
            i = i + 1;
        }
        Err(QuicSendError::NoConnection)
    }

    /// How long to wait for input, in milliseconds: until the soonest timer of the
    /// connections, and never longer than the tick.
    pub fn next_timeout_ms(&mut self, now: &std::time::Instant) -> (ms: i32)
        ensures
            ms == wait_of(soonest_timer(old(self).conns@, *now, old(self).conns@.len())),
            final(self).conns@ == old(self).conns@,
    {
        let n: usize = self.conns.len();
        let mut soonest: Option<u128> = None;
        let mut i: usize = 0;
        while i < n
            invariant
                i <= n,
                n == self.conns@.len(),
                self.conns@ == old(self).conns@,
                soonest == soonest_timer(self.conns@, *now, i as nat),
            decreases n - i,
        {
            let next: Option<u128> = conn_wakes_in(&mut self.conns[i].conn, now);
            assert(self.conns@ =~= old(self).conns@);
            soonest = match (soonest, next) {
                (Some(s), Some(t)) => Some(if s < t {
                    s
                } else {
                    t
                }),
                (Some(s), None) => Some(s),
                (None, t) => t,
            };
            i = i + 1;
        }
        wait_for(soonest)
    }
}

/// The peers that a node dials are those of its configuration with a greater key, each as
/// often as it is there and in that order; none was dialled yet.
pub proof fn law_dialled_have_greater_keys(local: Seq<u8>, peers: Seq<QuicPeer>)
    ensures
        ({
            let greater = peers.filter(|p: QuicPeer| before(local, p.public_key@));
            let out = dialled(local, peers, peers.len());
            &&& out.len() == greater.len()
            &&& forall|k: int|
                0 <= k < out.len() ==> (#[trigger] out[k]).addr == greater[k].addr
                    && out[k].last_attempt_ms is None
        }),
{
    assert(peers.take(peers.len() as int) =~= peers);
    lemma_dialled(local, peers, peers.len());
}

proof fn lemma_dialled(local: Seq<u8>, peers: Seq<QuicPeer>, n: nat)
    requires
        n <= peers.len(),
    ensures
        ({
            let greater = peers.take(n as int).filter(
                |p: QuicPeer| before(local, p.public_key@),
            );
            let out = dialled(local, peers, n);
            &&& out.len() == greater.len()
            &&& forall|k: int|
                0 <= k < out.len() ==> (#[trigger] out[k]).addr == greater[k].addr
                    && out[k].last_attempt_ms is None
        }),
    decreases n,
{
    reveal(Seq::filter);
    if n > 0 {
        lemma_dialled(local, peers, (n - 1) as nat);
        assert(peers.take(n as int).drop_last() =~= peers.take(n - 1));
    }
}

/// Reaping keeps every connection that is not lost, in their order, and no other.
pub proof fn law_reaping_keeps_the_living(conns: Seq<ConnEntry>)
    ensures
        surviving(conns, conns.len()) == conns.filter(|c: ConnEntry| !c.dead),
{
    assert(conns.take(conns.len() as int) =~= conns);
    lemma_surviving(conns, conns.len());
}

proof fn lemma_surviving(conns: Seq<ConnEntry>, n: nat)
    requires
        n <= conns.len(),
    ensures
        surviving(conns, n) == conns.take(n as int).filter(|c: ConnEntry| !c.dead),
    decreases n,
{
    reveal(Seq::filter);
    if n > 0 {
        lemma_surviving(conns, (n - 1) as nat);
        assert(conns.take(n as int).drop_last() =~= conns.take(n - 1));
    } else {
        assert(surviving(conns, 0) =~= conns.take(0).filter(|c: ConnEntry| !c.dead));
    }
}

/// A datagram goes to the first connection with its destination that is up and not lost, and
/// to one whenever there is one.
pub proof fn law_datagram_takes_a_live_connection(conns: Seq<ConnEntry>, dst: SockAddr, i: int)
    ensures
        ({
            let r = first_serving(conns, dst, 0);
            let k = r->0;
            &&& r is Some ==> {
                &&& 0 <= k < conns.len()
                &&& conns[k].peer_addr == dst && conns[k].up && !conns[k].dead
            }
            &&& 0 <= i < conns.len() && conns[i].peer_addr == dst && conns[i].up && !conns[i].dead
                ==> r is Some && k <= i
        }),
{
    lemma_first_serving(conns, dst, 0, i);
}

proof fn lemma_first_serving(conns: Seq<ConnEntry>, dst: SockAddr, from: int, i: int)
    requires
        0 <= from,
    ensures
        ({
            let r = first_serving(conns, dst, from);
            let k = r->0;
            &&& r is Some ==> {
                &&& from <= k < conns.len()
                &&& conns[k].peer_addr == dst && conns[k].up && !conns[k].dead
            }
            &&& from <= i < conns.len() && conns[i].peer_addr == dst && conns[i].up
                && !conns[i].dead ==> r is Some && k <= i
        }),
    decreases conns.len() - from,
{
    if from < conns.len() {
        lemma_first_serving(conns, dst, from + 1, i);
    }
}

/// A peer is dialled where no connection to it is left that is not lost, and it was not
/// dialled within the last second; the time is noted when it is, and only then.
pub proof fn law_dialling_spacing(conns: Seq<ConnEntry>, c: ClientPeer, now_ms: u64, i: int)
    requires
        c.last_attempt_ms is Some ==> c.last_attempt_ms->0 <= now_ms,
    ensures
        ({
            let due = dial_due(conns, c, now_ms);
            let after = after_dial(conns, c, now_ms);
            let rested = c.last_attempt_ms is None || now_ms - c.last_attempt_ms->0 >= 1_000;
            &&& 0 <= i < conns.len() && conns[i].peer_addr == c.addr && !conns[i].dead ==> !due
            &&& !rested ==> !due
            &&& rested && (forall|j: int|
                0 <= j < conns.len() ==> (#[trigger] conns[j]).peer_addr != c.addr
                    || conns[j].dead) ==> due
            &&& after.addr == c.addr
            &&& due ==> after.last_attempt_ms == Some(now_ms)
            &&& !due ==> after.last_attempt_ms == c.last_attempt_ms
        }),
{
}

/// The soonest timer is that of a connection, and none of a connection is sooner; there is
/// one whenever a connection has one.
pub proof fn law_soonest_timer_is_soonest(
    conns: Seq<ConnEntry>,
    now: std::time::Instant,
    n: nat,
    i: int,
) -> (k: int)
    requires
        n <= conns.len(),
    ensures
        soonest_timer(conns, now, n) is Some ==> 0 <= k < n && wakes_in(conns[k].conn, now)
            == soonest_timer(conns, now, n),
        0 <= i < n && wakes_in(conns[i].conn, now) is Some ==> soonest_timer(conns, now, n) is Some
            && soonest_timer(conns, now, n)->0 <= wakes_in(conns[i].conn, now)->0,
    decreases n,
{
    if n == 0 {
        0
    } else {
        let p = (n - 1) as nat;
        let k = law_soonest_timer_is_soonest(conns, now, p, i);
        match (soonest_timer(conns, now, p), wakes_in(conns[n - 1].conn, now)) {
            (Some(a), Some(b)) => if a < b {
                k
            } else {
                n - 1
            },
            (Some(_), None) => k,
            (None, _) => n - 1,
        }
    }
}

/// The wait for input ends with the soonest timer or after ten milliseconds, whichever comes
/// first.
pub proof fn law_wait_ends_in_time(soonest: Option<u128>)
    ensures
        0 <= wait_of(soonest) <= 10,
        soonest is None ==> wait_of(soonest) == 10,
        soonest is Some && soonest->0 <= 10 ==> wait_of(soonest) == soonest->0,
        soonest is Some && soonest->0 > 10 ==> wait_of(soonest) == 10,
{
}

/// What the events of a connection do: it is up once it connected, lost once it was lost, and
/// neither by anything else. All that it received is handed on with its peer's address, in
/// its order and unchanged, once it said that something came in. Its size of datagrams is
/// reported when it comes up, once. What was handed to it to send stays.
pub proof fn law_events_of_a_connection(
    a: ConnEntry,
    b: ConnEntry,
    evs: Seq<ConnEvent>,
    recv: (Seq<(SockAddr, Seq<u8>)>, Seq<(SockAddr, Seq<u8>)>),
    newly_up: (Seq<usize>, Seq<usize>),
    k: int,
)
    requires
        driven(a, b, evs, recv, newly_up),
    ensures
        ({
            let got = evs.contains(ConnEvent::DatagramReceived);
            let all = received_datagrams(a.conn);
            let limit = datagram_limit(a.conn);
            let more = evs.contains(ConnEvent::Connected) && !a.up && limit is Some;
            &&& b.peer_addr == a.peer_addr && b.handle == a.handle
            &&& b.up <==> a.up || evs.contains(ConnEvent::Connected)
            &&& b.dead <==> a.dead || evs.contains(ConnEvent::Lost)
            &&& got ==> recv.1.len() == recv.0.len() + all.len()
            &&& got && 0 <= k < all.len() ==> recv.1[recv.0.len() + k] == (a.peer_addr, all[k])
            &&& recv.1.take(recv.0.len() as int) == recv.0
            &&& !got ==> recv.1 == recv.0
            &&& got ==> received_datagrams(b.conn).len() == 0
            &&& !got ==> received_datagrams(b.conn) == all
            &&& more ==> newly_up.1 == newly_up.0.push(limit->0)
            &&& !more ==> newly_up.1 == newly_up.0
            &&& outgoing_datagrams(b.conn) == outgoing_datagrams(a.conn)
        }),
{
    assert(recv.1.take(recv.0.len() as int) =~= recv.0);
    if !evs.contains(ConnEvent::DatagramReceived) {
        assert(recv.1 =~= recv.0);
    }
}

} // verus!
