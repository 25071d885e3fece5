//! What goes over the wire: packet type codes, server messages, datagrams.

use vstd::prelude::*;

use crate::addr::SockAddr;
use crate::order::copied;

verus! {

/// The first byte of each kind of tunnel datagram, and the fixed cost of the
/// obfuscation envelope, as the wire protocol in use assigns them.
#[derive(Clone, Copy, Debug, PartialEq, Eq, Structural)]
pub struct WireCodes {
    pub init: u8,
    pub resp: u8,
    pub data: u8,
    pub control: u8,
    pub gossip: u8,
    /// A decoy inside an obfuscation envelope.
    pub junk: u8,
    /// A server message inside an obfuscation envelope.
    pub rdv: u8,
    /// Bytes that an envelope adds to a body with no padding.
    pub min_envelope: usize,
}

impl WireCodes {
    /// Whether each packet type has a code of its own, also apart from decoys.
    pub open spec fn distinct_spec(self) -> bool {
        let codes = seq![
            self.init,
            self.resp,
            self.data,
            self.control,
            self.gossip,
            self.junk,
        ];
        codes.no_duplicates()
    }

    /// Whether each packet type has a code of its own, also apart from decoys.
    pub fn distinct(&self) -> (r: bool)
        ensures
            r == self.distinct_spec(),
    {
        let codes: [u8; 6] = [
            self.init,
            self.resp,
            self.data,
            self.control,
            self.gossip,
            self.junk,
        ];
        let ghost all = seq![
            self.init,
            self.resp,
            self.data,
            self.control,
            self.gossip,
            self.junk,
        ];
        assert(codes@ =~= all);
        let mut i: usize = 0;
        while i < 6
            invariant
                i <= 6,
                codes@ == all,
                all.len() == 6,
                forall|a: int, b: int| 0 <= a < b < i ==> all[a] != all[b],
                self.distinct_spec() == all.no_duplicates(),
            decreases 6 - i,
        {
            let mut j: usize = 0;
            while j < i
                invariant
                    j <= i < 6,
                    codes@ == all,
                    all.len() == 6,
                    forall|a: int| 0 <= a < j ==> all[a] != all[i as int],
                    self.distinct_spec() == all.no_duplicates(),
                decreases i - j,
            {
                if codes[j] == codes[i] {
                    assert(all[j as int] == all[i as int]);
                    return false;
                }
                j = j + 1;
            }
            i = i + 1;
        }
        true
    }

    /// Whether `ptype` opens a session.
    pub open spec fn is_handshake_spec(self, ptype: u8) -> bool {
        ptype == self.init || ptype == self.resp
    }

    /// Whether `ptype` opens a session.
    pub fn is_handshake(&self, ptype: u8) -> (r: bool)
        ensures
            r == self.is_handshake_spec(ptype),
    {
        ptype == self.init || ptype == self.resp
    }

    /// Whether `ptype` travels inside a session.
    pub open spec fn is_session_spec(self, ptype: u8) -> bool {
        ptype == self.data || ptype == self.control || ptype == self.gossip
    }

    /// Whether `ptype` travels inside a session.
    pub fn is_session(&self, ptype: u8) -> (r: bool)
        ensures
            r == self.is_session_spec(ptype),
    {
        ptype == self.data || ptype == self.control || ptype == self.gossip
    }
}

/// A signed directory record: whom it is for, and its encoding.
#[derive(Debug)]
pub struct Record {
    pub node_id: u128,
    pub encoded: Vec<u8>,
}

/// What a [`Record`] says.
#[verifier::ext_equal]
pub struct RecordView {
    pub node_id: u128,
    pub encoded: Seq<u8>,
}

impl View for Record {
    type V = RecordView;

    open spec fn view(&self) -> RecordView {
        RecordView { node_id: self.node_id, encoded: self.encoded@ }
    }
}

/// What an optional record says.
pub open spec fn record_view(r: Option<Record>) -> Option<RecordView> {
    match r {
        Some(x) => Some(x@),
        None => None,
    }
}

/// A message to or from the rendezvous server.
#[allow(inconsistent_fields)]
#[derive(Debug)]
pub enum Message {
    Register { node: u128, counter: u64 },
    RegisterSigned { record: Record },
    Lookup { node: u128 },
    RelaySend { src: u128, dst: u128, payload: Vec<u8> },
    PeerInfo { node: u128, reflexive: SockAddr, record: Option<Record> },
    PunchHint { node: u128, reflexive: SockAddr },
    RelayDeliver { src: u128, payload: Vec<u8> },
    NotFound { node: u128 },
}

/// What a [`Message`] says.
#[allow(inconsistent_fields)]
#[verifier::ext_equal]
pub enum MessageView {
    Register { node: u128, counter: u64 },
    RegisterSigned { record: RecordView },
    Lookup { node: u128 },
    RelaySend { src: u128, dst: u128, payload: Seq<u8> },
    PeerInfo { node: u128, reflexive: SockAddr, record: Option<RecordView> },
    PunchHint { node: u128, reflexive: SockAddr },
    RelayDeliver { src: u128, payload: Seq<u8> },
    NotFound { node: u128 },
}

impl View for Message {
    type V = MessageView;

    open spec fn view(&self) -> MessageView {
        match *self {
            Message::Register { node, counter } => MessageView::Register { node, counter },
            Message::RegisterSigned { record } => MessageView::RegisterSigned { record: record@ },
            Message::Lookup { node } => MessageView::Lookup { node },
            Message::RelaySend { src, dst, payload } => MessageView::RelaySend {
                src,
                dst,
                payload: payload@,
            },
            Message::PeerInfo { node, reflexive, record } => MessageView::PeerInfo {
                node,
                reflexive,
                record: record_view(record),
            },
            Message::PunchHint { node, reflexive } => MessageView::PunchHint { node, reflexive },
            Message::RelayDeliver { src, payload } => MessageView::RelayDeliver {
                src,
                payload: payload@,
            },
            Message::NotFound { node } => MessageView::NotFound { node },
        }
    }
}

/// What a datagram carries: tunnel bytes, or a message for the server to encode.
#[derive(Debug)]
pub enum Body {
    Tunnel(Vec<u8>),
    Server(Message),
}

/// What a [`Body`] says.
#[verifier::ext_equal]
pub enum BodyView {
    Tunnel(Seq<u8>),
    Server(MessageView),
}

impl View for Body {
    type V = BodyView;

    open spec fn view(&self) -> BodyView {
        match *self {
            Body::Tunnel(b) => BodyView::Tunnel(b@),
            Body::Server(m) => BodyView::Server(m@),
        }
    }
}

/// A datagram to send. Datagrams of one error-correction object share a `fate`.
#[derive(Debug)]
pub struct EgressDatagram {
    pub fate: u16,
    pub dst: SockAddr,
    pub body: Body,
}

/// What an [`EgressDatagram`] says.
#[verifier::ext_equal]
pub struct EgressView {
    pub fate: u16,
    pub dst: SockAddr,
    pub body: BodyView,
}

impl View for EgressDatagram {
    type V = EgressView;

    open spec fn view(&self) -> EgressView {
        EgressView { fate: self.fate, dst: self.dst, body: self.body@ }
    }
}

/// What each datagram of a list says.
pub open spec fn egress_views(v: Seq<EgressDatagram>) -> Seq<EgressView> {
    Seq::new(v.len(), |i: int| v[i]@)
}

/// A tunnel datagram with no error-correction object.
pub open spec fn plain(dst: SockAddr, bytes: Seq<u8>) -> EgressView {
    EgressView { fate: 0, dst, body: BodyView::Tunnel(bytes) }
}

/// A tunnel datagram with no error-correction object.
pub fn plain_datagram(dst: SockAddr, bytes: Vec<u8>) -> (d: EgressDatagram)
    ensures
        d@ == plain(dst, bytes@),
{
    EgressDatagram { fate: 0, dst, body: Body::Tunnel(bytes) }
}

/// A message to the server at `dst`.
pub open spec fn to_server(dst: SockAddr, msg: MessageView) -> EgressView {
    EgressView { fate: 0, dst, body: BodyView::Server(msg) }
}

/// The tunnel datagram of a packet type and a body.
pub fn reassemble(ptype: u8, body: &[u8]) -> (dg: Vec<u8>)
    ensures
        dg@ == seq![ptype] + body@,
{
    let mut dg: Vec<u8> = Vec::new();
    dg.push(ptype);
    dg.extend_from_slice(body);
    assert(dg@ =~= seq![ptype] + body@);
    dg
}

/// The destination of an inner IPv6 packet: bytes 24 to 39 of its header, high byte
/// first. Nothing for a packet that is shorter than the header or not IPv6.
pub open spec fn ipv6_dst_spec(inner: Seq<u8>) -> Option<u128> {
    if inner.len() < 40 || inner[0] / 16 != 6 {
        None
    } else {
        Some(be_value(inner.subrange(24, 40)) as u128)
    }
}

/// The number that a byte string spells, high byte first.
pub open spec fn be_value(s: Seq<u8>) -> nat
    decreases s.len(),
{
    if s.len() == 0 {
        0
    } else {
        be_value(s.drop_last()) * 256 + s.last() as nat
    }
}

/// `256` to the power of `n`.
pub open spec fn pow256(n: nat) -> nat
    decreases n,
{
    if n == 0 {
        1
    } else {
        256 * pow256((n - 1) as nat)
    }
}

proof fn lemma_be_bound(s: Seq<u8>)
    ensures
        be_value(s) < pow256(s.len()),
    decreases s.len(),
{
    if s.len() > 0 {
        lemma_be_bound(s.drop_last());
    }
}

/// The number that `n` bytes of `s` from `at` on spell, high byte first.
fn be_number(s: &[u8], at: usize, n: usize) -> (v: u128)
    requires
        at + n <= s@.len(),
        n <= 16,
    ensures
        v == be_value(s@.subrange(at as int, at + n)),
{
    let len: usize = s.len();
    let mut v: u128 = 0;
    let mut i: usize = 0;
    assert(s@.subrange(at as int, at as int) =~= Seq::<u8>::empty());
    while i < n
        invariant
            i <= n,
            n <= 16,
            at + n <= len,
            len == s@.len(),
            v == be_value(s@.subrange(at as int, at + i)),
        decreases n - i,
    {
        let ghost done = s@.subrange(at as int, at + i);
        let ghost next = s@.subrange(at as int, at + i + 1);
        proof {
            assert(next.drop_last() =~= done);
            lemma_be_bound(next);
            reveal_with_fuel(pow256, 17);
            assert(pow256(next.len()) <= pow256(16)) by {
                let n = next.len();
                assert(n == 1 || n == 2 || n == 3 || n == 4 || n == 5 || n == 6 || n == 7 || n == 8
                    || n == 9 || n == 10 || n == 11 || n == 12 || n == 13 || n == 14 || n == 15 || n
                    == 16);
            }
            assert(pow256(16) == u128::MAX + 1);
        }
        v = v * 256 + s[at + i] as u128;
        i = i + 1;
    }
    v
}

/// The destination of an inner IPv6 packet.
pub fn ipv6_dst(inner: &[u8]) -> (r: Option<u128>)
    ensures
        r == ipv6_dst_spec(inner@),
{
    if inner.len() < 40 || inner[0] / 16 != 6 {
        return None;
    }
    Some(be_number(inner, 24, 16))
}

/// The connection tag that a data datagram would carry in the clear: its bytes 1 to
/// 8, high byte first.
pub open spec fn tag_hint_spec(dg: Seq<u8>) -> Option<u64> {
    if dg.len() < 9 {
        None
    } else {
        Some(be_value(dg.subrange(1, 9)) as u64)
    }
}

/// The connection tag that a data datagram would carry in the clear.
pub fn tag_hint(dg: &[u8]) -> (r: Option<u64>)
    ensures
        r == tag_hint_spec(dg@),
{
    if dg.len() < 9 {
        return None;
    }
    let v: u128 = be_number(dg, 1, 8);
    proof {
        lemma_be_bound(dg@.subrange(1, 9));
        reveal_with_fuel(pow256, 9);
    }
    Some(v as u64)
}

/// The bytes of a time label in a handshake payload.
pub const TIME_LABEL_LEN: usize = 12;

/// The time label and the certificate of a handshake payload; nothing for one that is too
/// short for a label.
pub open spec fn payload_parts(payload: Seq<u8>) -> Option<(Seq<u8>, Seq<u8>)> {
    if payload.len() < TIME_LABEL_LEN {
        None
    } else {
        Some((payload.take(12), payload.skip(12)))
    }
}

/// The payload of a handshake with a time label and a certificate.
pub open spec fn payload_of(label: Seq<u8>, cert: Seq<u8>) -> Seq<u8> {
    label + cert
}

/// A handshake payload: a time label, then a certificate.
pub fn parse_init_payload(payload: &[u8]) -> (r: Option<([u8; 12], Vec<u8>)>)
    ensures
        payload_parts(payload@) == (match r {
            Some(t) => Some((t.0@, t.1@)),
            None => None,
        }),
        payload@.len() < TIME_LABEL_LEN <==> r is None,
        r matches Some(t) ==> {
            &&& t.0@ == payload@.take(12)
            &&& t.1@ == payload@.skip(12)
        },
{
    if payload.len() < TIME_LABEL_LEN {
        return None;
    }
    let mut label: [u8; 12] = [0u8; 12];
    let mut cert: Vec<u8> = Vec::new();
    let mut i: usize = 0;
    while i < payload.len()
        invariant
            12 <= payload@.len(),
            i <= payload@.len(),
            forall|j: int| 0 <= j < 12 && j < i ==> label@[j] == payload@[j],
            i <= 12 ==> cert@.len() == 0,
            i > 12 ==> cert@ == payload@.subrange(12, i as int),
        decreases payload@.len() - i,
    {
        if i < 12 {
            label[i] = payload[i];
        } else {
            cert.push(payload[i]);
            assert(cert@ =~= payload@.subrange(12, i + 1));
        }
        i = i + 1;
    }
    assert(label@ =~= payload@.take(12));
    assert(cert@ =~= payload@.skip(12));
    Some((label, cert))
}

/// The payload of a handshake: a time label, then a certificate.
pub fn frame_init_payload(label: &[u8; 12], cert: &[u8]) -> (payload: Vec<u8>)
    ensures
        payload@ == payload_of(label@, cert@),
{
    let mut payload: Vec<u8> = copied(label);
    payload.extend_from_slice(cert);
    assert(payload@ =~= label@ + cert@);
    payload
}

/// A handshake payload is read back as it was put together.
pub proof fn law_init_payload_round_trip(label: Seq<u8>, cert: Seq<u8>)
    requires
        label.len() == TIME_LABEL_LEN,
    ensures
        (label + cert).take(12) == label,
        (label + cert).skip(12) == cert,
        (label + cert).len() >= TIME_LABEL_LEN,
        payload_of(label, cert) == label + cert,
        payload_parts(payload_of(label, cert)) == Some((label, cert)),
        forall|n: int| 0 <= n < 12 ==> #[trigger] payload_parts(label.take(n)) is None,
{
    assert((label + cert).take(12) =~= label);
    assert((label + cert).skip(12) =~= cert);
}

/// A number is spelled high byte first: a byte ahead of a string counts as many times 256 as
/// there are bytes behind it, and one byte alone is itself.
pub proof fn law_high_byte_first(a: u8, s: Seq<u8>)
    ensures
        be_value(seq![a]) == a,
        be_value(seq![a] + s) == a * pow256(s.len()) + be_value(s),
    decreases s.len(),
{
    let t = seq![a] + s;
    assert(seq![a].drop_last() =~= Seq::<u8>::empty());
    assert(be_value(Seq::<u8>::empty()) == 0);
    if s.len() == 0 {
        assert(t =~= seq![a]);
        assert(pow256(0) == 1);
    } else {
        let less = s.drop_last();
        law_high_byte_first(a, less);
        assert(t.drop_last() =~= seq![a] + less);
        assert(t.last() == s.last());
        let (b, p, v) = (a as int, pow256(less.len()) as int, be_value(less) as int);
        assert(pow256(s.len()) == 256 * p);
        assert((b * p + v) * 256 == b * (256 * p) + v * 256) by (nonlinear_arith);
    }
}

/// Strings of one length that spell the same number are the same.
pub proof fn law_spelling_is_unique(a: Seq<u8>, b: Seq<u8>)
    requires
        a.len() == b.len(),
        be_value(a) == be_value(b),
    ensures
        a == b,
    decreases a.len(),
{
    if a.len() > 0 {
        law_spelling_is_unique(a.drop_last(), b.drop_last());
        assert(a =~= a.drop_last().push(a.last()));
        assert(b =~= b.drop_last().push(b.last()));
    } else {
        assert(a =~= b);
    }
}

/// The destination of an IPv6 packet is what the sixteen bytes behind the first 24 spell; a
/// packet of another version, or one without a whole header, has none.
pub proof fn law_destination_stands_in_the_header(start: Seq<u8>, dst: Seq<u8>, rest: Seq<u8>)
    requires
        start.len() == 24,
        dst.len() == 16,
    ensures
        0x60 <= start[0] <= 0x6f ==> ipv6_dst_spec(start + dst + rest) is Some && ipv6_dst_spec(
            start + dst + rest,
        )->0 == be_value(dst),
        !(0x60 <= start[0] <= 0x6f) ==> ipv6_dst_spec(start + dst + rest) is None,
        forall|n: int|
            0 <= n < 40 ==> #[trigger] ipv6_dst_spec((start + dst).take(n)) is None,
{
    let inner = start + dst + rest;
    assert(inner.subrange(24, 40) =~= dst);
    lemma_be_bound(dst);
    assert(pow256(16) == u128::MAX + 1) by {
        reveal_with_fuel(pow256, 17);
    }
}

/// The connection tag that a datagram would carry is what the eight bytes behind its first
/// one spell; a shorter datagram carries none.
pub proof fn law_tag_follows_the_type(ptype: u8, tag: Seq<u8>, rest: Seq<u8>)
    requires
        tag.len() == 8,
    ensures
        tag_hint_spec(seq![ptype] + tag + rest) is Some,
        tag_hint_spec(seq![ptype] + tag + rest)->0 == be_value(tag),
        forall|n: int| 0 <= n < 9 ==> #[trigger] tag_hint_spec((seq![ptype] + tag).take(n)) is None,
{
    let dg = seq![ptype] + tag + rest;
    assert(dg.subrange(1, 9) =~= tag);
    lemma_be_bound(tag);
    assert(pow256(8) == u64::MAX + 1) by {
        reveal_with_fuel(pow256, 9);
    }
}

/// Handshakes are the two that open a session, and inside a session travel data, control and
/// gossip; nothing is both, and a decoy is neither.
pub proof fn law_packet_types(c: WireCodes, ptype: u8)
    requires
        c.distinct_spec(),
    ensures
        c.is_handshake_spec(c.init) && c.is_handshake_spec(c.resp),
        c.is_session_spec(c.data) && c.is_session_spec(c.control) && c.is_session_spec(c.gossip),
        c.is_handshake_spec(ptype) ==> ptype == c.init || ptype == c.resp,
        c.is_session_spec(ptype) ==> ptype == c.data || ptype == c.control || ptype == c.gossip,
        !(c.is_handshake_spec(ptype) && c.is_session_spec(ptype)),
        !c.is_handshake_spec(c.junk) && !c.is_session_spec(c.junk),
{
    let codes = seq![c.init, c.resp, c.data, c.control, c.gossip, c.junk];
    assert(forall|i: int, j: int| 0 <= i < j < 6 ==> codes[i] != codes[j]);
    assert(codes[0] != codes[2] && codes[0] != codes[3] && codes[0] != codes[4] && codes[0]
        != codes[5]);
    assert(codes[1] != codes[2] && codes[1] != codes[3] && codes[1] != codes[4] && codes[1]
        != codes[5]);
    assert(codes[2] != codes[5] && codes[3] != codes[5] && codes[4] != codes[5]);
}

} // verus!
