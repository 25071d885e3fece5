//! How peers are found and reached through a rendezvous server: the messages a
//! client sends to it, and what its answers mean.

use vstd::prelude::*;

use crate::addr::SockAddr;
use crate::order::copied;
use crate::wire::{Body, EgressDatagram, EgressView, Message, MessageView, Record, RecordView};

verus! {

/// A server datagram, as the session logic takes it.
#[derive(Debug)]
pub enum RdvEvent {
    /// Where a peer is: the answer to a lookup. The record, where the server has
    /// one, is handed on unverified.
    PeerCandidate { node: u128, addr: SockAddr, record: Option<Record> },
    /// A peer looked us up: send toward it, so that both bindings open.
    PunchTo { node: u128, addr: SockAddr },
    /// A tunnel datagram from `src` that came through the relay.
    Relayed { src: u128, payload: Vec<u8> },
    /// The peer of a lookup is not registered.
    NotFound { node: u128 },
    /// Nothing to act on.
    Ignored,
}

/// What an [`RdvEvent`] says.
#[verifier::ext_equal]
pub enum RdvEventView {
    PeerCandidate { node: u128, addr: SockAddr, record: Option<RecordView> },
    PunchTo { node: u128, addr: SockAddr },
    Relayed { src: u128, payload: Seq<u8> },
    NotFound { node: u128 },
    Ignored,
}

impl View for RdvEvent {
    type V = RdvEventView;

    open spec fn view(&self) -> RdvEventView {
        match *self {
            RdvEvent::PeerCandidate { node, addr, record } => RdvEventView::PeerCandidate {
                node,
                addr,
                record: crate::wire::record_view(record),
            },
            RdvEvent::PunchTo { node, addr } => RdvEventView::PunchTo { node, addr },
            RdvEvent::Relayed { src, payload } => RdvEventView::Relayed { src, payload: payload@ },
            RdvEvent::NotFound { node } => RdvEventView::NotFound { node },
            RdvEvent::Ignored => RdvEventView::Ignored,
        }
    }
}

/// What the answers of a server mean. A datagram that does not decode, and a message
/// that only clients send, mean nothing.
pub open spec fn parsed(msg: Option<MessageView>) -> RdvEventView {
    match msg {
        Some(MessageView::PeerInfo { node, reflexive, record }) => RdvEventView::PeerCandidate {
            node,
            addr: reflexive,
            record,
        },
        Some(MessageView::PunchHint { node, reflexive }) => RdvEventView::PunchTo {
            node,
            addr: reflexive,
        },
        Some(MessageView::RelayDeliver { src, payload }) => RdvEventView::Relayed { src, payload },
        Some(MessageView::NotFound { node }) => RdvEventView::NotFound { node },
        _ => RdvEventView::Ignored,
    }
}

/// What a client does, as far as callers can tell: the same on every call.
#[derive(Clone, Copy, Debug, PartialEq, Eq, Structural)]
pub struct RdvProfile {
    /// Where every datagram of the client goes.
    pub server: SockAddr,
    /// Whether registrations go through the client.
    pub registers: bool,
    /// Whether a lookup names the peer that was asked for.
    pub names_lookups: bool,
}

impl RdvProfile {
    /// What a client of one configured server does.
    pub open spec fn configured(server: SockAddr) -> RdvProfile {
        RdvProfile { server, registers: true, names_lookups: true }
    }

    /// What a client of a relay that is dialled over TLS does.
    pub open spec fn dialled(server: SockAddr) -> RdvProfile {
        RdvProfile { server, registers: false, names_lookups: false }
    }

    /// The datagram that registers `node`, with a signed record where there is one.
    pub open spec fn registration(self, node: u128, signed: Option<RecordView>) -> Option<
        EgressView,
    > {
        if !self.registers {
            None
        } else {
            match signed {
                Some(record) => Some(
                    crate::wire::to_server(self.server, MessageView::RegisterSigned { record }),
                ),
                None => Some(
                    crate::wire::to_server(
                        self.server,
                        MessageView::Register { node, counter: 0 },
                    ),
                ),
            }
        }
    }

    /// The datagram that asks where `node` is.
    pub open spec fn lookup(self, node: u128) -> EgressView {
        crate::wire::to_server(
            self.server,
            MessageView::Lookup {
                node: if self.names_lookups {
                    node
                } else {
                    0
                },
            },
        )
    }

    /// The datagram that has `payload` relayed from `src` to `dst`.
    pub open spec fn relay(self, src: u128, dst: u128, payload: Seq<u8>) -> EgressView {
        crate::wire::to_server(self.server, MessageView::RelaySend { src, dst, payload })
    }
}

/// How a peer is found and reached by its node id.
pub trait Rendezvous {
    /// What the client does.
    spec fn profile(&self) -> RdvProfile;

    /// The registration of `node`, signed in a mesh; `None` where registering is done
    /// elsewhere.
    fn register(&mut self, node: u128, signed: Option<Record>) -> (r: Option<EgressDatagram>)
        ensures
            final(self).profile() == old(self).profile(),
            match r {
                Some(d) => Some(d@),
                None => None,
            } == old(self).profile().registration(node, crate::wire::record_view(signed)),
    ;

    /// The question where `node` is.
    fn lookup(&mut self, node: u128) -> (d: EgressDatagram)
        ensures
            final(self).profile() == old(self).profile(),
            d@ == old(self).profile().lookup(node),
    ;

    /// `payload` for `dst`, to be relayed by the server.
    fn relay(&mut self, src: u128, dst: u128, payload: &[u8]) -> (d: EgressDatagram)
        ensures
            final(self).profile() == old(self).profile(),
            d@ == old(self).profile().relay(src, dst, payload@),
    ;

    /// What a decoded server datagram means; `None` stands for one that did not decode.
    fn parse(&self, msg: Option<Message>) -> (ev: RdvEvent)
        ensures
            ev@ == parsed(
                match msg {
                    Some(m) => Some(m@),
                    None => None,
                },
            ),
    ;

    /// Where the server is.
    fn server_addr(&self) -> (a: SockAddr)
        ensures
            a == self.profile().server,
    ;
}

fn parse_message(msg: Option<Message>) -> (ev: RdvEvent)
    ensures
        ev@ == parsed(
            match msg {
                Some(m) => Some(m@),
                None => None,
            },
        ),
{
    match msg {
        Some(Message::PeerInfo { node, reflexive, record }) => RdvEvent::PeerCandidate {
            node,
            addr: reflexive,
            record,
        },
        Some(Message::PunchHint { node, reflexive }) => RdvEvent::PunchTo { node, addr: reflexive },
        Some(Message::RelayDeliver { src, payload }) => RdvEvent::Relayed { src, payload },
        Some(Message::NotFound { node }) => RdvEvent::NotFound { node },
        _ => RdvEvent::Ignored,
    }
}

/// A client of one configured server, over UDP.
pub struct ConfiguredServerRendezvous {
    server: SockAddr,
}

impl ConfiguredServerRendezvous {
    pub fn new(server: SockAddr) -> (r: Self)
        ensures
            r.profile() == RdvProfile::configured(server),
    {
        ConfiguredServerRendezvous { server }
    }

    fn to_server(&self, msg: Message) -> (d: EgressDatagram)
        ensures
            d@ == crate::wire::to_server(self.profile().server, msg@),
    {
        EgressDatagram { fate: 0, dst: self.server, body: Body::Server(msg) }
    }
}

impl Rendezvous for ConfiguredServerRendezvous {
    closed spec fn profile(&self) -> RdvProfile {
        RdvProfile { server: self.server, registers: true, names_lookups: true }
    }

    fn register(&mut self, node: u128, signed: Option<Record>) -> (r: Option<EgressDatagram>) {
        match signed {
            Some(record) => Some(self.to_server(Message::RegisterSigned { record })),
            // The server accepts a zero counter as first seen.
            None => Some(self.to_server(Message::Register { node, counter: 0 })),
        }
    }

    fn lookup(&mut self, node: u128) -> (d: EgressDatagram) {
        self.to_server(Message::Lookup { node })
    }

    fn relay(&mut self, src: u128, dst: u128, payload: &[u8]) -> (d: EgressDatagram) {
        self.to_server(Message::RelaySend { src, dst, payload: copied(payload) })
    }

    fn parse(&self, msg: Option<Message>) -> (ev: RdvEvent) {
        parse_message(msg)
    }

    fn server_addr(&self) -> (a: SockAddr) {
        self.server
    }
}

/// A client of a relay that is dialled over TLS. The relay thread registers by
/// itself, so this client does not.
pub struct TlsRelayRendezvous {
    relay_addr: SockAddr,
}

impl TlsRelayRendezvous {
    pub fn new(relay_addr: SockAddr) -> (r: Self)
        ensures
            r.profile() == RdvProfile::dialled(relay_addr),
    {
        TlsRelayRendezvous { relay_addr }
    }

    fn to_server(&self, msg: Message) -> (d: EgressDatagram)
        ensures
            d@ == crate::wire::to_server(self.profile().server, msg@),
    {
        EgressDatagram { fate: 0, dst: self.relay_addr, body: Body::Server(msg) }
    }
}

impl Rendezvous for TlsRelayRendezvous {
    closed spec fn profile(&self) -> RdvProfile {
        RdvProfile { server: self.relay_addr, registers: false, names_lookups: false }
    }

    fn register(&mut self, node: u128, signed: Option<Record>) -> (r: Option<EgressDatagram>) {
        None
    }

    fn lookup(&mut self, node: u128) -> (d: EgressDatagram) {
        // No peer is looked up on the way straight to the relay; a stray call asks
        // for nobody.
        self.to_server(Message::Lookup { node: 0 })
    }

    fn relay(&mut self, src: u128, dst: u128, payload: &[u8]) -> (d: EgressDatagram) {
        self.to_server(Message::RelaySend { src, dst, payload: copied(payload) })
    }

    fn parse(&self, msg: Option<Message>) -> (ev: RdvEvent) {
        parse_message(msg)
    }

    fn server_addr(&self) -> (a: SockAddr) {
        self.relay_addr
    }
}

/// A datagram that one client has relayed reaches the other end as the event that a
/// relayed datagram from the sender came in, when the server delivers the payload
/// that it was sent.
pub proof fn law_relay_delivers_what_was_sent(
    p: RdvProfile,
    src: u128,
    dst: u128,
    payload: Seq<u8>,
)
    ensures
        p.relay(src, dst, payload).dst == p.server,
        p.relay(src, dst, payload).body matches crate::wire::BodyView::Server(
            MessageView::RelaySend { src: s, dst: d, payload: sent },
        ) && d == dst && parsed(Some(MessageView::RelayDeliver { src: s, payload: sent })) == (
        RdvEventView::Relayed { src, payload }),
{
}

/// A client of a configured server registers its node there, by what was signed where
/// something was, and asks there for the peer by its node id.
pub proof fn law_configured_client_asks_its_server(
    server: SockAddr,
    node: u128,
    signed: Option<RecordView>,
)
    ensures
        ({
            let p = RdvProfile::configured(server);
            let r = p.registration(node, signed);
            let q = p.lookup(node);
            &&& p.server == server
            &&& r is Some && r->0.dst == server && r->0.fate == 0
            &&& signed is None ==> r->0.body == crate::wire::BodyView::Server(
                MessageView::Register { node, counter: 0 },
            )
            &&& signed is Some ==> r->0.body == crate::wire::BodyView::Server(
                MessageView::RegisterSigned { record: signed->0 },
            )
            &&& q.dst == server && q.fate == 0
            &&& q.body == crate::wire::BodyView::Server(MessageView::Lookup { node })
        }),
{
}

/// A client of a relay over TLS leaves registering to the connection, and asks for nobody;
/// what it has relayed goes to the relay.
pub proof fn law_dialled_client_only_relays(
    server: SockAddr,
    node: u128,
    dst: u128,
    payload: Seq<u8>,
    signed: Option<RecordView>,
)
    ensures
        ({
            let p = RdvProfile::dialled(server);
            &&& p.registration(node, signed) is None
            &&& p.lookup(node).body == crate::wire::BodyView::Server(
                MessageView::Lookup { node: 0 },
            )
            &&& p.lookup(node).dst == server
            &&& p.relay(node, dst, payload).dst == server
            &&& p.relay(node, dst, payload).body == crate::wire::BodyView::Server(
                MessageView::RelaySend { src: node, dst, payload },
            )
        }),
{
}

} // verus!
