//! What the rendezvous server says, and sessions through the relay.

use vstd::prelude::*;

use crate::addr::SockAddr;
use crate::order::{before, is_key, less, same_key};
use crate::peer::{fresher, PathKind, PeerView};
use crate::peer_manager::egress::{finish_dispatch, DispatchOut};
use crate::peer_manager::handshake::OpenedInit;
use crate::peer_manager::routing::Opened;
use crate::peer_manager::{lemma_with_peer_wf, ManagerView, PeerManager, Reaction, ReactionView};
use crate::rendezvous::{parsed, RdvEvent, RdvEventView, Rendezvous};
use crate::wire::{
    egress_views, parse_init_payload, EgressDatagram, EgressView, Message, TIME_LABEL_LEN,
};

verus! {

broadcast use vstd::std_specs::hash::group_hash_axioms;

/// What kind of datagram came through the relay.
#[derive(Clone, Copy, Debug, PartialEq, Eq, Structural)]
pub enum RelayedKind {
    Init,
    Resp,
    Data,
}

/// What a message from the server asks for.
#[derive(Debug)]
pub enum RdvStep {
    Nothing,
    /// The peer's path is told of an address; where `begin` says so, a handshake toward
    /// it begins at once.
    Candidate { peer: usize, addr: SockAddr, begin: bool },
    /// A tunnel datagram from the peer, to be opened.
    Relayed { peer: usize, kind: RelayedKind, dg: Vec<u8> },
}

/// What an [`RdvStep`] says.
#[verifier::ext_equal]
pub enum RdvStepView {
    Nothing,
    Candidate { peer: usize, addr: SockAddr, begin: bool },
    Relayed { peer: usize, kind: RelayedKind, dg: Seq<u8> },
}

impl View for RdvStep {
    type V = RdvStepView;

    open spec fn view(&self) -> RdvStepView {
        match *self {
            RdvStep::Nothing => RdvStepView::Nothing,
            RdvStep::Candidate { peer, addr, begin } => RdvStepView::Candidate {
                peer,
                addr,
                begin,
            },
            RdvStep::Relayed { peer, kind, dg } => RdvStepView::Relayed { peer, kind, dg: dg@ },
        }
    }
}

impl<S, H> ManagerView<S, H> {
    /// The peer with a node id, if it is in the table and has no session.
    pub open spec fn sessionless(self, node: u128) -> Option<usize> {
        if self.by_node.contains_key(node) && self.peers[self.by_node[node] as int].state
            !is Established {
            Some(self.by_node[node])
        } else {
            None
        }
    }

    /// What kind of datagram a first byte announces.
    pub open spec fn relayed_kind(self, first: u8) -> RelayedKind {
        if first == self.codes.init {
            RelayedKind::Init
        } else if first == self.codes.resp {
            RelayedKind::Resp
        } else {
            RelayedKind::Data
        }
    }

    /// What an event from the server asks for. An address is only taken for a peer that
    /// has no session; in a mesh, a record that comes with it must be for that peer and
    /// valid. A relayed datagram turns a peer without a session to the relay.
    pub open spec fn rdv_step(self, ev: RdvEventView, record_valid: bool) -> (
        ManagerView<S, H>,
        RdvStepView,
    ) {
        match ev {
            RdvEventView::PeerCandidate { node, addr, record } => {
                let ok = match record {
                    Some(r) => self.roots is None || (r.node_id == node && record_valid),
                    None => true,
                };
                match self.sessionless(node) {
                    Some(i) if ok => (
                        self,
                        RdvStepView::Candidate { peer: i, addr, begin: false },
                    ),
                    _ => (self, RdvStepView::Nothing),
                }
            },
            RdvEventView::PunchTo { node, addr } => match self.sessionless(node) {
                Some(i) => (
                    self,
                    RdvStepView::Candidate {
                        peer: i,
                        addr,
                        begin: self.peers[i as int].state is Idle,
                    },
                ),
                None => (self, RdvStepView::Nothing),
            },
            RdvEventView::Relayed { src, payload } => {
                if payload.len() == 0 || !self.by_node.contains_key(src) {
                    (self, RdvStepView::Nothing)
                } else {
                    let i = self.by_node[src];
                    (
                        match self.sessionless(src) {
                            Some(j) => self.with_peer(
                                j as int,
                                PeerView { relay: true, ..self.peers[j as int] },
                            ),
                            None => self,
                        },
                        RdvStepView::Relayed {
                            peer: i,
                            kind: self.relayed_kind(payload[0]),
                            dg: payload,
                        },
                    )
                }
            },
            RdvEventView::NotFound { .. } | RdvEventView::Ignored => (self, RdvStepView::Nothing),
        }
    }

    /// What a message from the server asks for; nothing without a server.
    pub open spec fn on_rdv(self, msg: Option<Message>, record_valid: bool) -> (
        ManagerView<S, H>,
        RdvStepView,
    ) {
        if self.rendezvous is None {
            (self, RdvStepView::Nothing)
        } else {
            self.rdv_step(
                parsed(
                    match msg {
                        Some(m) => Some(m@),
                        None => None,
                    },
                ),
                record_valid,
            )
        }
    }

    /// Whether a direct session follows its peer to the relay: the peer began the session
    /// and has now begun another one, newer than all before, through the relay.
    pub open spec fn adopts_relay(self, i: int, eph: [u8; 32], ts: Seq<u8>) -> bool {
        let p = self.peers[i];
        &&& !p.relay
        &&& p.last_accepted_init_ts is Some
        &&& p.cached_resp_init_eph != Some(eph)
        &&& fresher(p.last_accepted_init_ts, ts)
    }

    /// What a handshake from peer `i` brings about that came through the relay.
    pub open spec fn relayed_init(self, i: int, o: OpenedInit<S>, now_ms: u64) -> (
        ManagerView<S, H>,
        ReactionView,
    ) {
        let p = self.peers[i];
        let ts = o.payload@.take(12);
        let ok = self.cert_admits(o.remote.public_key, o.cert_valid);
        if o.remote.public_key != p.id.public_key || o.payload@.len() < TIME_LABEL_LEN {
            (self, ReactionView::nothing())
        } else if p.state is Established {
            if !ok {
                (self.dropped(i), ReactionView::nothing())
            } else if p.relay {
                self.rekey_init(i, o.done, o.resp_pkt@, o.eph, ts, self.server(), true)
            } else if self.adopts_relay(i, o.eph, ts) {
                self.with_peer(i, PeerView { relay: true, ..p }).rekey_init(
                    i,
                    o.done,
                    o.resp_pkt@,
                    o.eph,
                    ts,
                    self.server(),
                    true,
                )
            } else {
                (self, ReactionView::nothing())
            }
        } else if p.state is Handshaking && before(
            self.local.public_key@,
            p.id.public_key@,
        ) {
            (self, ReactionView::nothing())
        } else if !ok || !fresher(p.last_accepted_init_ts, ts) {
            (self, ReactionView::nothing())
        } else {
            (
                self.accepted(i, None, o.done, ts, o.eph, o.resp_pkt@, now_ms),
                ReactionView {
                    egress: self.wrapped(i, o.resp_pkt@),
                    seal: Some((i as usize, p.pending_tun)),
                    settled: Some((i as usize, PathKind::Relayed)),
                },
            )
        }
    }
}

impl<R: Rendezvous, S, H> PeerManager<R, S, H> {
    /// The peer with a node id, if it is in the table and has no session.
    fn find_sessionless(&self, node: u128) -> (r: Option<usize>)
        requires
            self@.wf(),
        ensures
            r == self@.sessionless(node),
            r matches Some(i) ==> i < self@.peers.len(),
    {
        match self.by_node.get(&node) {
            Some(i) => {
                assert(self@.peers[*i as int] == self.peers@[*i as int]@);
                if self.peers[*i].is_established() {
                    None
                } else {
                    Some(*i)
                }
            },
            None => None,
        }
    }

    /// Turns peer `idx` to the relay.
    fn set_relay(&mut self, idx: usize)
        requires
            old(self)@.wf(),
            idx < old(self)@.peers.len(),
        ensures
            final(self)@.wf(),
            final(self)@ == old(self)@.with_peer(
                idx as int,
                PeerView { relay: true, ..old(self)@.peers[idx as int] },
            ),
    {
        proof {
            assert(self@.peers[idx as int] == self.peers@[idx as int]@);
            assert(self@.peer_wf(self@.peers[idx as int]));
        }
        self.peers[idx].relay = true;
        proof {
            let p = self.peers@[idx as int]@;
            lemma_with_peer_wf(old(self)@, idx as int, p);
            assert(self@ =~= old(self)@.with_peer(idx as int, p));
        }
    }

    /// Takes a datagram from the server, decoded; `None` stands for one that did not
    /// decode. `record_valid` says whether the record in it, if there is one, verifies
    /// now.
    pub fn on_rdv(&mut self, msg: Option<Message>, record_valid: bool) -> (r: RdvStep)
        requires
            old(self)@.wf(),
        ensures
            final(self)@.wf(),
            (final(self)@, r@) == old(self)@.on_rdv(msg, record_valid),
    {
        let ev: RdvEvent = match &self.rendezvous {
            Some(r) => r.parse(msg),
            None => {
                return RdvStep::Nothing;
            },
        };
        match ev {
            RdvEvent::PeerCandidate { node, addr, record } => {
                let ok: bool = match &record {
                    Some(r) => self.roots.is_none() || (r.node_id == node && record_valid),
                    None => true,
                };
                match self.find_sessionless(node) {
                    Some(i) => if ok {
                        RdvStep::Candidate { peer: i, addr, begin: false }
                    } else {
                        RdvStep::Nothing
                    },
                    None => RdvStep::Nothing,
                }
            },
            RdvEvent::PunchTo { node, addr } => match self.find_sessionless(node) {
                Some(i) => {
                    assert(self@.peers[i as int] == self.peers@[i as int]@);
                    RdvStep::Candidate { peer: i, addr, begin: self.peers[i].is_idle() }
                },
                None => RdvStep::Nothing,
            },
            RdvEvent::Relayed { src, payload } => self.on_relayed(src, payload),
            RdvEvent::NotFound { .. } | RdvEvent::Ignored => RdvStep::Nothing,
        }
    }

    /// Takes a tunnel datagram that the relay delivered.
    fn on_relayed(&mut self, src: u128, payload: Vec<u8>) -> (r: RdvStep)
        requires
            old(self)@.wf(),
        ensures
            final(self)@.wf(),
            (final(self)@, r@) == old(self)@.rdv_step(
                RdvEventView::Relayed { src, payload: payload@ },
                true,
            ),
    {
        if payload.len() == 0 {
            return RdvStep::Nothing;
        }
        let idx: usize = match self.by_node.get(&src) {
            Some(i) => *i,
            None => {
                return RdvStep::Nothing;
            },
        };
        if self.find_sessionless(src).is_some() {
            self.set_relay(idx);
        }
        let first: u8 = payload[0];
        let kind: RelayedKind = if first == self.codes.init {
            RelayedKind::Init
        } else if first == self.codes.resp {
            RelayedKind::Resp
        } else {
            RelayedKind::Data
        };
        RdvStep::Relayed { peer: idx, kind, dg: payload }
    }

    /// Takes a handshake from peer `idx` that came through the relay and could be opened.
    pub fn relayed_handshake_init(
        &mut self,
        idx: usize,
        opened: OpenedInit<S>,
        now_ms: u64,
    ) -> (r: Reaction)
        requires
            old(self)@.wf(),
            idx < old(self)@.peers.len(),
        ensures
            final(self)@.wf(),
            (final(self)@, r@) == old(self)@.relayed_init(idx as int, opened, now_ms),
    {
        let ghost m = self@;
        assert(m.peers[idx as int] == self.peers@[idx as int]@);
        if !same_key(&opened.remote.public_key, &self.peers[idx].id.public_key) {
            return Reaction::nothing();
        }
        let ts: [u8; 12] = match parse_init_payload(&opened.payload) {
            Some(t) => t.0,
            None => {
                return Reaction::nothing();
            },
        };
        let ok: bool = self.responder_cert_ok(&opened.remote.public_key, opened.cert_valid);
        if self.peers[idx].is_established() {
            if !ok {
                self.drop_session(idx);
                return Reaction::nothing();
            }
            if !self.peers[idx].relay {
                if self.peers[idx].last_accepted_init_ts.is_some() && !is_key(
                    &self.peers[idx].cached_resp_init_eph,
                    &opened.eph,
                ) && self.peers[idx].accept_fresh_init(&ts) {
                    self.set_relay(idx);
                } else {
                    return Reaction::nothing();
                }
            }
            let server: SockAddr = self.server_addr();
            return self.rekey_init_core(
                idx,
                opened.done,
                opened.resp_pkt,
                opened.eph,
                ts,
                server,
                true,
            );
        }
        if self.peers[idx].is_handshaking() && less(
            &self.local.public_key,
            &self.peers[idx].id.public_key,
        ) {
            return Reaction::nothing();
        }
        if !ok || !self.peers[idx].accept_fresh_init(&ts) {
            return Reaction::nothing();
        }
        let mut egress: Vec<EgressDatagram> = Vec::new();
        assert(egress_views(egress@) =~= Seq::<EgressView>::empty());
        self.relay_push(idx, &opened.resp_pkt, &mut egress);
        assert(egress_views(egress@) =~= m.wrapped(idx as int, opened.resp_pkt@));
        let pending = self.accept(
            idx,
            None,
            opened.done,
            ts,
            opened.eph,
            opened.resp_pkt,
            now_ms,
        );
        Reaction { egress, seal: Some((idx, pending)), settled: Some((idx, PathKind::Relayed)) }
    }

    /// Takes what a relayed datagram opened to in peer `idx`'s session; `None` for one
    /// that did not open. Every answer goes back through the relay, and the peer is not
    /// moved.
    pub fn relayed_data(&mut self, idx: usize, opened: Option<Opened>, now_ms: u64) -> (out:
        DispatchOut)
        requires
            old(self)@.wf(),
            idx < old(self)@.peers.len(),
        ensures
            final(self)@.wf(),
            out.tight(),
            (final(self)@, out.tun(), out.udp()) == old(self)@.delivered(
                idx as int,
                None,
                opened,
                now_ms,
            ),
            opened is None || old(self)@.peers[idx as int].state !is Established
                ==> out is Nothing && final(self)@ == old(self)@,
    {
        proof {
            assert(self@.peers[idx as int] == self.peers@[idx as int]@);
            assert(self@.peer_wf(self@.peers[idx as int]));
        }
        if !self.peers[idx].is_established() {
            return DispatchOut::Nothing;
        }
        match opened {
            None => DispatchOut::Nothing,
            Some(o) => {
                let udp = self.carry(idx, o.send, true);
                self.peers[idx].opened_under(o.slot, now_ms);
                proof {
                    let p = self.peers@[idx as int]@;
                    lemma_with_peer_wf(old(self)@, idx as int, p);
                    assert(self@ =~= old(self)@.with_peer(idx as int, p));
                }
                finish_dispatch(o.tun, udp)
            },
        }
    }
}

} // verus!
