//! What time alone brings about: registrations, escalation, retransmission, cover
//! traffic, and the sweep for certificates that are no longer valid.

use vstd::prelude::*;

use crate::addr::SockAddr;
use crate::epoch::{elapsed, EpochsView};
use crate::order::copied;
use crate::peer::{HandshakingView, PathAction, PathStep, PeerState, PeerView, StateView};
use crate::peer_manager::obf::junk_sized;
use crate::peer_manager::routing::{PathMove, PathMoveView};
use crate::peer_manager::{
    lemma_with_peer_wf, ManagerView, PeerManager, HANDSHAKE_RETRY_MS, HANDSHAKE_TOTAL_MS,
    REG_REFRESH_MS,
};
use crate::rendezvous::Rendezvous;
use crate::wire::{
    egress_views, plain, plain_datagram, reassemble, record_view, EgressDatagram, EgressView, Record,
    RecordView,
};

verus! {

broadcast use vstd::std_specs::hash::group_hash_axioms;

impl<S, H> ManagerView<S, H> {
    /// Whether this node is to register now: there is a server, and it has not registered
    /// yet or the interval is over.
    pub open spec fn registration_due(self, now_ms: u64) -> bool {
        &&& self.rendezvous is Some
        &&& !self.registered_once || elapsed(now_ms, self.last_register_ms) >= self.reg_refresh_ms
    }

    /// The number of the registration that is to be made now, if one is.
    pub open spec fn registration_number(self, now_ms: u64) -> Option<u64> {
        if self.registration_due(now_ms) {
            Some(self.reg_seq)
        } else {
            None
        }
    }

    /// What a registration comes to; signed records are for a mesh only.
    pub open spec fn registered(self, signed: Option<RecordView>, now_ms: u64, draw: u64) -> (
        ManagerView<S, H>,
        Seq<EgressView>,
    ) {
        if !self.registration_due(now_ms) {
            (self, Seq::empty())
        } else {
            (
                ManagerView {
                    reg_seq: if self.reg_seq < u64::MAX {
                        (self.reg_seq + 1) as u64
                    } else {
                        u64::MAX
                    },
                    last_register_ms: now_ms,
                    reg_refresh_ms: self.interval(REG_REFRESH_MS, draw),
                    registered_once: true,
                    ..self
                },
                match self.rendezvous->0.registration(
                    self.local.node,
                    if self.roots is Some {
                        signed
                    } else {
                        None
                    },
                ) {
                    Some(d) => seq![d],
                    None => Seq::empty(),
                },
            )
        }
    }

    /// Whether peer `i`'s path is to be asked while its handshake is under way: there is
    /// a server, and the handshake was not drawn for the relay.
    pub open spec fn may_escalate(self, i: int) -> bool {
        &&& self.rendezvous is Some
        &&& self.peers[i].state matches StateView::Handshaking(h) && !h.via_relay
    }

    /// What a step of peer `i`'s path comes to while a handshake that was not drawn for
    /// the relay is under way. A handshake toward the relay, or toward another address,
    /// is begun anew; the one under way is given up for it.
    pub open spec fn escalated(self, i: int, step: PathStep, now_ms: u64) -> (
        ManagerView<S, H>,
        PathMoveView,
    ) {
        let p = PeerView { stage: step.stage, ..self.peers[i] };
        let m = self.with_peer(i, p);
        match step.action {
            PathAction::Relay => (
                self.with_peer(i, PeerView { state: StateView::Idle, endpoint: None, ..p }),
                PathMoveView::Begin { target: self.server(), via_relay: true },
            ),
            PathAction::Probe(addr) if addr != p.state->Handshaking_0.target => (
                self.with_peer(i, PeerView { state: StateView::Idle, relay: false, ..p }),
                PathMoveView::Begin { target: addr, via_relay: false },
            ),
            PathAction::NeedLookup => {
                let (n, d) = m.looked_up(i, now_ms);
                (n, PathMoveView::Ask(d))
            },
            _ => (m, PathMoveView::Nothing),
        }
    }

    /// What time does to a handshake under way: one that has taken too long is given up
    /// with all that waited for it, and one that waited for its interval is sent again,
    /// byte for byte.
    pub open spec fn resent(self, i: int, now_ms: u64, draw: u64) -> (
        ManagerView<S, H>,
        Seq<EgressView>,
    ) {
        let p = self.peers[i];
        match p.state {
            StateView::Handshaking(h) => {
                if elapsed(now_ms, h.started_ms) >= HANDSHAKE_TOTAL_MS {
                    (
                        self.with_peer(
                            i,
                            PeerView { state: StateView::Idle, pending_tun: Seq::empty(), ..p },
                        ),
                        Seq::empty(),
                    )
                } else if elapsed(now_ms, h.last_sent_ms) < h.retry_ms {
                    (self, Seq::empty())
                } else {
                    (
                        self.with_peer(
                            i,
                            PeerView {
                                state: StateView::Handshaking(
                                    HandshakingView {
                                        retries: if h.retries < u32::MAX {
                                            (h.retries + 1) as u32
                                        } else {
                                            u32::MAX
                                        },
                                        last_sent_ms: now_ms,
                                        retry_ms: self.interval(HANDSHAKE_RETRY_MS, draw),
                                        ..h
                                    },
                                ),
                                ..p
                            },
                        ),
                        self.emitted(i, h.target, h.init_pkt, p.relay),
                    )
                }
            },
            _ => (self, Seq::empty()),
        }
    }

    /// Whether peer `i` is to be sent cover traffic now: obfuscation and cover traffic are
    /// on, its session is not relayed and its address known, and for the whole interval
    /// neither data nor cover traffic went by.
    pub open spec fn cover_due(self, i: int, now_ms: u64) -> bool {
        let p = self.peers[i];
        &&& self.obf_key is Some
        &&& self.cover_traffic_ms matches Some(iv) && {
            &&& p.state is Established
            &&& !p.relay
            &&& p.endpoint is Some
            &&& elapsed(now_ms, p.last_activity_ms) >= iv
            &&& elapsed(now_ms, p.last_cover_ms) >= iv
        }
    }

    /// Whether the certificates behind the sessions are to be looked at again.
    pub open spec fn sweep_due(self, now_ms: u64) -> bool {
        &&& self.roots is Some
        &&& elapsed(now_ms, self.last_cert_sweep_ms) >= self.rekey_interval_ms
    }

    /// The table after the sessions among the first `n` peers ended whose certificate is
    /// not valid.
    pub open spec fn swept(self, valid: Seq<bool>, n: nat) -> ManagerView<S, H>
        decreases n,
    {
        if n == 0 {
            self
        } else {
            let m = self.swept(valid, (n - 1) as nat);
            if m.peers[n - 1].state is Established && !valid[n - 1] {
                m.dropped(n - 1)
            } else {
                m
            }
        }
    }
}

impl<S, H> ManagerView<S, H> {
    /// The table after the certificates behind the sessions were looked at, if it is time.
    pub open spec fn after_sweep(self, valid: Seq<bool>, now_ms: u64) -> ManagerView<S, H> {
        if self.sweep_due(now_ms) {
            (ManagerView { last_cert_sweep_ms: now_ms, ..self }).swept(valid, valid.len())
        } else {
            self
        }
    }

    /// The table after peer `i` was sent cover traffic with the decoy body `body`, if it is
    /// time, and that traffic.
    pub open spec fn covered(self, i: int, body: Seq<u8>, now_ms: u64) -> (
        ManagerView<S, H>,
        Option<EgressView>,
    ) {
        if self.cover_due(i, now_ms) {
            (
                self.with_peer(i, PeerView { last_cover_ms: now_ms, ..self.peers[i] }),
                Some(plain(self.peers[i].endpoint->0, seq![self.codes.junk] + body)),
            )
        } else {
            (self, None)
        }
    }

    /// The table after the epoch that peer `i`'s session left was forgotten.
    pub open spec fn retired(self, i: int) -> ManagerView<S, H> {
        match self.peers[i].state {
            StateView::Established(e) => self.with_peer(
                i,
                self.peers[i].with_epochs(EpochsView { previous: None, ..e }),
            ),
            _ => self,
        }
    }
}

impl<R: Rendezvous, S, H> PeerManager<R, S, H> {
    /// Whether this node is to register now, and the number of the registration, which a
    /// signed record carries.
    pub fn registration_due(&self, now_ms: u64) -> (r: Option<u64>)
        ensures
            r == self@.registration_number(now_ms),
    {
        if self.rendezvous.is_some() && (!self.registered_once || now_ms.saturating_sub(
            self.last_register_ms,
        ) >= self.reg_refresh_ms) {
            Some(self.reg_seq)
        } else {
            None
        }
    }

    /// Registers this node if it is time. In a mesh, `signed` is the record that was
    /// signed for the number which [`PeerManager::registration_due`] gave.
    pub fn tick_register(&mut self, signed: Option<Record>, now_ms: u64, draw: u64) -> (out: Vec<
        EgressDatagram,
    >)
        requires
            old(self)@.wf(),
        ensures
            final(self)@.wf(),
            (final(self)@, egress_views(out@)) == old(self)@.registered(
                record_view(signed),
                now_ms,
                draw,
            ),
    {
        let mut out: Vec<EgressDatagram> = Vec::new();
        assert(egress_views(out@) =~= Seq::<EgressView>::empty());
        if self.registration_due(now_ms).is_none() {
            return out;
        }
        let node: u128 = self.local.node;
        let refresh: u64 = self.interval_ms(REG_REFRESH_MS, draw);
        let record: Option<Record> = if self.roots.is_some() {
            signed
        } else {
            None
        };
        match &mut self.rendezvous {
            Some(r) => {
                match r.register(node, record) {
                    Some(d) => {
                        out.push(d);
                        assert(egress_views(out@) =~= seq![d@]);
                    },
                    None => {},
                }
            },
            None => {},
        }
        self.reg_seq = self.reg_seq.saturating_add(1);
        self.last_register_ms = now_ms;
        self.reg_refresh_ms = refresh;
        self.registered_once = true;
        proof {
            assert(self@.peers =~= old(self)@.peers);
            assert forall|j: int| 0 <= j < self@.peers.len() implies self@.peer_wf(
                #[trigger] self@.peers[j],
            ) by {
                assert(old(self)@.peer_wf(old(self)@.peers[j]));
            }
        }
        out
    }

    /// Whether peer `idx`'s path is to be asked while its handshake is under way.
    pub fn may_escalate(&self, idx: usize) -> (r: bool)
        requires
            idx < self@.peers.len(),
        ensures
            r == self@.may_escalate(idx as int),
    {
        assert(self@.peers[idx as int] == self.peers@[idx as int]@);
        self.rendezvous.is_some() && match &self.peers[idx].state {
            PeerState::Handshaking(h) => !h.via_relay,
            _ => false,
        }
    }

    /// Takes a step of peer `idx`'s path while a handshake that was not drawn for the
    /// relay is under way.
    pub fn escalate(&mut self, idx: usize, step: PathStep, now_ms: u64) -> (r: PathMove)
        requires
            old(self)@.wf(),
            idx < old(self)@.peers.len(),
            old(self)@.may_escalate(idx as int),
        ensures
            final(self)@.wf(),
            (final(self)@, r@) == old(self)@.escalated(idx as int, step, now_ms),
    {
        self.set_stage(idx, step.stage);
        let ghost m = self@;
        proof {
            assert(m.peers[idx as int] == self.peers@[idx as int]@);
            assert(m.peer_wf(m.peers[idx as int]));
        }
        let probed: Option<SockAddr> = match &self.peers[idx].state {
            PeerState::Handshaking(h) => Some(h.target),
            _ => None,
        };
        let r: PathMove = match step.action {
            PathAction::Relay => {
                self.peers[idx].state = PeerState::Idle;
                self.peers[idx].endpoint = None;
                PathMove::Begin { target: self.server_addr(), via_relay: true }
            },
            PathAction::Probe(addr) => {
                if crate::addr::is_addr(probed, addr) {
                    PathMove::Nothing
                } else {
                    self.peers[idx].state = PeerState::Idle;
                    self.peers[idx].relay = false;
                    PathMove::Begin { target: addr, via_relay: false }
                }
            },
            PathAction::NeedLookup => {
                return PathMove::Ask(self.maybe_lookup(idx, now_ms));
            },
            PathAction::Idle | PathAction::Failed => PathMove::Nothing,
        };
        proof {
            let p = self.peers@[idx as int]@;
            lemma_with_peer_wf(m, idx as int, p);
            assert(self@ =~= m.with_peer(idx as int, p));
            assert(self@.peers =~= old(self)@.escalated(idx as int, step, now_ms).0.peers);
        }
        r
    }

    /// Drives a handshake with peer `idx` that is under way: sends it again when its
    /// interval is over, or gives it up.
    pub fn tick_handshaking(&mut self, idx: usize, now_ms: u64, draw: u64) -> (out: Vec<
        EgressDatagram,
    >)
        requires
            old(self)@.wf(),
            idx < old(self)@.peers.len(),
        ensures
            final(self)@.wf(),
            (final(self)@, egress_views(out@)) == old(self)@.resent(idx as int, now_ms, draw),
    {
        let ghost m = self@;
        proof {
            assert(m.peers[idx as int] == self.peers@[idx as int]@);
            assert(m.peer_wf(m.peers[idx as int]));
        }
        let nothing: Vec<EgressDatagram> = Vec::new();
        assert(egress_views(nothing@) =~= Seq::<EgressView>::empty());
        let retry_ms: u64 = self.interval_ms(HANDSHAKE_RETRY_MS, draw);
        let relay: bool = self.peers[idx].relay;
        let mut again: Option<(SockAddr, Vec<u8>)> = None;
        let mut give_up: bool = false;
        match &mut self.peers[idx].state {
            PeerState::Handshaking(h) => {
                if now_ms.saturating_sub(h.started_ms) >= HANDSHAKE_TOTAL_MS {
                    give_up = true;
                } else if now_ms.saturating_sub(h.last_sent_ms) >= h.retry_ms {
                    h.retries = h.retries.saturating_add(1);
                    h.last_sent_ms = now_ms;
                    h.retry_ms = retry_ms;
                    again = Some((h.target, copied(&h.init_pkt)));
                }
            },
            _ => {},
        }
        if give_up {
            self.peers[idx].state = PeerState::Idle;
            self.peers[idx].take_pending();
        }
        proof {
            let p = self.peers@[idx as int]@;
            lemma_with_peer_wf(m, idx as int, p);
            assert(self@ =~= m.with_peer(idx as int, p));
            assert(self@.peers =~= m.resent(idx as int, now_ms, draw).0.peers);
        }
        match again {
            Some((target, pkt)) => self.emit(idx, target, pkt, relay),
            None => nothing,
        }
    }

    /// Forgets the epoch that peer `idx`'s session left, when the caller finds it due.
    pub fn retire_previous(&mut self, idx: usize)
        requires
            old(self)@.wf(),
            idx < old(self)@.peers.len(),
        ensures
            final(self)@.wf(),
            final(self)@ == old(self)@.retired(idx as int),
    {
        let ghost m = self@;
        proof {
            assert(m.peers[idx as int] == self.peers@[idx as int]@);
            assert(m.peer_wf(m.peers[idx as int]));
        }
        match &mut self.peers[idx].state {
            PeerState::Established(e) => {
                e.retire_previous();
            },
            _ => {},
        }
        proof {
            let p = self.peers@[idx as int]@;
            lemma_with_peer_wf(m, idx as int, p);
            assert(self@ =~= m.with_peer(idx as int, p));
            if m.peers[idx as int].state !is Established {
                assert(self@.peers =~= m.peers);
            }
        }
    }

    /// Whether peer `idx` is to be sent cover traffic now.
    pub fn cover_due(&self, idx: usize, now_ms: u64) -> (r: bool)
        requires
            idx < self@.peers.len(),
        ensures
            r == self@.cover_due(idx as int, now_ms),
    {
        let p = &self.peers[idx];
        assert(self@.peers[idx as int] == p@);
        match self.cover_traffic_ms {
            Some(iv) => self.obf_key.is_some() && p.is_established() && !p.relay
                && p.endpoint.is_some() && now_ms.saturating_sub(p.last_activity_ms) >= iv
                && now_ms.saturating_sub(p.last_cover_ms) >= iv,
            None => false,
        }
    }

    /// Sends peer `idx` one cover datagram with the decoy body `body`, if it is time.
    pub fn tick_cover(&mut self, idx: usize, body: &[u8], now_ms: u64) -> (r: Option<EgressDatagram>)
        requires
            old(self)@.wf(),
            idx < old(self)@.peers.len(),
            junk_sized(body@),
        ensures
            final(self)@.wf(),
            ({
                let (m, d) = old(self)@.covered(idx as int, body@, now_ms);
                &&& final(self)@ == m
                &&& d == (match r {
                    Some(d) => Some(d@),
                    None => None,
                })
            }),
    {
        let ghost m = self@;
        proof {
            assert(m.peers[idx as int] == self.peers@[idx as int]@);
            assert(m.peer_wf(m.peers[idx as int]));
        }
        if !self.cover_due(idx, now_ms) {
            return None;
        }
        let junk: Vec<u8> = reassemble(self.codes.junk, body);
        match self.peers[idx].endpoint {
            None => None,
            Some(endpoint) => {
                self.peers[idx].last_cover_ms = now_ms;
                proof {
                    let p = self.peers@[idx as int]@;
                    lemma_with_peer_wf(m, idx as int, p);
                    assert(self@ =~= m.with_peer(idx as int, p));
                }
                Some(plain_datagram(endpoint, junk))
            },
        }
    }

    /// Whether the certificates behind the sessions are to be looked at again.
    pub fn sweep_due(&self, now_ms: u64) -> (r: bool)
        ensures
            r == self@.sweep_due(now_ms),
    {
        self.roots.is_some() && now_ms.saturating_sub(self.last_cert_sweep_ms)
            >= self.rekey_interval_ms
    }

    /// Ends every session whose certificate is no longer valid, if it is time; `valid`
    /// says of each peer whether it is.
    pub fn tick_sweep(&mut self, valid: &[bool], now_ms: u64)
        requires
            old(self)@.wf(),
            valid@.len() == old(self)@.peers.len(),
        ensures
            final(self)@.wf(),
            final(self)@ == old(self)@.after_sweep(valid@, now_ms),
    {
        if !self.sweep_due(now_ms) {
            return;
        }
        self.last_cert_sweep_ms = now_ms;
        let ghost m = self@;
        proof {
            assert(m.peers =~= old(self)@.peers);
            assert(m.wf()) by {
                assert forall|j: int| 0 <= j < m.peers.len() implies m.peer_wf(
                    #[trigger] m.peers[j],
                ) by {
                    assert(old(self)@.peer_wf(old(self)@.peers[j]));
                }
            }
        }
        let n: usize = valid.len();
        let mut i: usize = 0;
        while i < n
            invariant
                i <= n,
                n == valid@.len(),
                self@.wf(),
                self@.peers.len() == n,
                self@ == m.swept(valid@, i as nat),
            decreases n - i,
        {
            assert(self@.peers[i as int] == self.peers@[i as int]@);
            if self.peers[i].is_established() && !valid[i] {
                self.drop_session(i);
            }
            i = i + 1;
        }
    }
}

} // verus!
