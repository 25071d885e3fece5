//! Beginning, answering and completing handshakes.

use vstd::prelude::*;

use crate::addr::SockAddr;
use crate::epoch::{EpochsView, RekeyInFlight};
use crate::order::{before, contents, copied, less};
use crate::peer::{fresher, Identity, PathKind, PeerState, PeerView, StateView};
use crate::peer_manager::obf::Decoys;
use crate::peer_manager::{
    lemma_first_where_finds, lemma_forget_wf, lemma_tag_wf, lemma_with_peer_wf, picked, Completed,
    ManagerView, PeerManager, Pick, Reaction, ReactionView, Started, HANDSHAKE_RETRY_MS,
};
use crate::rendezvous::Rendezvous;
use crate::wire::{
    egress_views, parse_init_payload, plain, plain_datagram, reassemble, EgressDatagram, EgressView,
    TIME_LABEL_LEN,
};

verus! {

broadcast use vstd::std_specs::hash::group_hash_axioms;

/// A handshake that came in and that this side could open: the session it would give,
/// the response that would answer it, and who began it.
#[derive(Debug)]
pub struct OpenedInit<S> {
    pub done: Completed<S>,
    pub resp_pkt: Vec<u8>,
    /// Who began it, by the key that the handshake proved.
    pub remote: Identity,
    /// What the initiator sent along: a time label, then a certificate.
    pub payload: Vec<u8>,
    /// The initiator's ephemeral key.
    pub eph: [u8; 32],
    /// Whether that certificate decodes and is valid for `remote` now. Only looked at in
    /// a mesh.
    pub cert_valid: bool,
}

/// A handshake of this side that was waiting for the response that has come in.
#[derive(Debug)]
pub struct Attempt<H> {
    pub peer: usize,
    pub hs: H,
    /// For a rekey, where its handshake was sent.
    pub rekey_target: Option<SockAddr>,
}

impl<S, H> ManagerView<S, H> {
    /// The decoys ahead of a direct handshake: none with obfuscation off.
    pub open spec fn decoy_datagrams(self, dst: SockAddr, bodies: Seq<Seq<u8>>) -> Seq<EgressView> {
        if self.obf_key is Some {
            Seq::new(bodies.len(), |k: int| plain(dst, seq![self.codes.junk] + bodies[k]))
        } else {
            Seq::empty()
        }
    }

    /// Beginning a handshake with peer `i`: nothing comes of it when it could not be
    /// drawn, or when it would have to be relayed and there is no server.
    pub open spec fn begin(
        self,
        i: int,
        target: SockAddr,
        via_relay: bool,
        now_ms: u64,
        started: Option<Started<H>>,
        draw: u64,
        decoys: Seq<Seq<u8>>,
    ) -> (ManagerView<S, H>, Option<Seq<EgressView>>) {
        match started {
            None => (self, None),
            Some(st) => if via_relay && self.rendezvous is None {
                (self, None)
            } else {
                (
                    self.with_peer(
                        i,
                        self.peers[i].begun(
                            st.hs,
                            st.init_pkt@,
                            target,
                            via_relay,
                            now_ms,
                            self.interval(HANDSHAKE_RETRY_MS, draw),
                        ),
                    ),
                    Some(
                        if via_relay {
                            self.wrapped(i, st.init_pkt@)
                        } else {
                            self.decoy_datagrams(target, decoys) + seq![
                                plain(target, st.init_pkt@),
                            ]
                        },
                    ),
                )
            },
        }
    }

    /// The tags without those of a session.
    pub open spec fn tags_without(self, e: EpochsView<S, H>) -> Map<u64, usize> {
        Map::new(
            |t: u64| self.by_tag.contains_key(t) && !e.holds_tag(t),
            |t: u64| self.by_tag[t],
        )
    }

    /// The table after peer `i` lost its session: its tags are gone, it is idle, it holds no
    /// answer and no key of the session, and all else about it stays.
    pub open spec fn dropped(self, i: int) -> ManagerView<S, H> {
        let p = self.peers[i];
        let idle = self.with_peer(i, p.parted());
        match p.state {
            StateView::Established(e) => ManagerView { by_tag: self.tags_without(e), ..idle },
            _ => idle,
        }
    }

    /// The table after a session with peer `i` began by a handshake that this side
    /// answered, from `src` or through the relay.
    pub open spec fn accepted(
        self,
        i: int,
        src: Option<SockAddr>,
        done: Completed<S>,
        ts: Seq<u8>,
        eph: [u8; 32],
        resp: Seq<u8>,
        now_ms: u64,
    ) -> ManagerView<S, H> {
        let addr = match src {
            Some(a) => a,
            None => self.server(),
        };
        ManagerView {
            by_tag: self.by_tag.insert(done.conn_tag, i as usize),
            ..self.with_peer(
                i,
                self.peers[i].joined(
                    src,
                    self.data_plane(done, addr),
                    self.session_key(done),
                    now_ms,
                ).answered(ts, eph, resp),
            )
        }
    }

    /// What a direct handshake from peer `i` brings about.
    pub open spec fn init_from(
        self,
        i: int,
        src: SockAddr,
        o: OpenedInit<S>,
        ts: Seq<u8>,
        now_ms: u64,
    ) -> (ManagerView<S, H>, ReactionView) {
        let p = self.peers[i];
        let ok = self.cert_admits(o.remote.public_key, o.cert_valid);
        if p.state is Established {
            if p.relay {
                (self, ReactionView::nothing())
            } else if !ok {
                (self.dropped(i), ReactionView::nothing())
            } else {
                self.rekey_init(i, o.done, o.resp_pkt@, o.eph, ts, src, false)
            }
        } else if p.state is Handshaking && before(
            self.local.public_key@,
            p.id.public_key@,
        ) {
            (self, ReactionView::nothing())
        } else if !ok || !fresher(p.last_accepted_init_ts, ts) {
            (self, ReactionView::nothing())
        } else {
            (
                self.accepted(i, Some(src), o.done, ts, o.eph, o.resp_pkt@, now_ms),
                ReactionView {
                    egress: seq![plain(src, o.resp_pkt@)],
                    seal: Some((i as usize, p.pending_tun)),
                    settled: Some((i as usize, p.settles(Some(src)))),
                },
            )
        }
    }

    /// Takes the rekey of peer `i` out of its session, which it leaves alone.
    pub open spec fn take_rekey(self, i: int) -> (ManagerView<S, H>, Option<Attempt<H>>) {
        let e = self.peers[i].epochs();
        match e.rekey {
            Some(rk) => (
                self.with_peer(i, self.peers[i].with_epochs(EpochsView { rekey: None, ..e })),
                Some(Attempt { peer: i as usize, hs: rk.hs, rekey_target: Some(rk.target) }),
            ),
            None => (self, None),
        }
    }

    /// Takes the handshake of peer `i`, which is idle without it.
    pub open spec fn take_cold(self, i: int) -> (ManagerView<S, H>, Option<Attempt<H>>) {
        match self.peers[i].state {
            StateView::Handshaking(h) => (
                self.with_peer(i, PeerView { state: StateView::Idle, ..self.peers[i] }),
                Some(Attempt { peer: i as usize, hs: h.hs, rekey_target: None }),
            ),
            _ => (self, None),
        }
    }

    /// The handshake that a direct response from `src` is for: the rekey of a live
    /// session first, then a handshake under way.
    pub open spec fn take_direct(self, src: SockAddr) -> (ManagerView<S, H>, Option<Attempt<H>>) {
        match self.find_at(Pick::Rekeying, src) {
            Some(i) => self.take_rekey(i),
            None => match self.find_at(Pick::Handshaking, src) {
                Some(i) => self.take_cold(i),
                None => (self, None),
            },
        }
    }

    /// The handshake that a relayed response from peer `i` is for: the rekey of a session
    /// that is relayed too, or a handshake under way.
    pub open spec fn take_relayed(self, i: int) -> (ManagerView<S, H>, Option<Attempt<H>>) {
        if self.peers[i].state is Established && self.peers[i].relay {
            self.take_rekey(i)
        } else {
            self.take_cold(i)
        }
    }

    /// What completing a handshake of this side brings about: nothing when the response
    /// did not complete it or its certificate does not admit, else a session, and what
    /// waited for it to seal.
    pub open spec fn completed(
        self,
        i: int,
        src: Option<SockAddr>,
        done: Option<Completed<S>>,
        cert_valid: bool,
        now_ms: u64,
    ) -> (ManagerView<S, H>, ReactionView) {
        let p = self.peers[i];
        match done {
            Some(d) if self.cert_admits(p.id.public_key, cert_valid) => {
                let addr = match src {
                    Some(a) => a,
                    None => self.server(),
                };
                (
                    ManagerView {
                        by_tag: self.by_tag.insert(d.conn_tag, i as usize),
                        ..self.with_peer(
                            i,
                            p.joined(
                                src,
                                self.data_plane(d, addr),
                                self.session_key(d),
                                now_ms,
                            ),
                        )
                    },
                    ReactionView {
                        egress: Seq::empty(),
                        seal: Some((i as usize, p.pending_tun)),
                        settled: Some((i as usize, p.settles(src))),
                    },
                )
            },
            _ => (self, ReactionView::nothing()),
        }
    }

    /// The table with the initiator of a handshake in it, where it may be in it: a known
    /// peer, or in a mesh the holder of a valid certificate.
    pub open spec fn with_initiator(self, o: OpenedInit<S>) -> ManagerView<S, H> {
        if self.find_key(o.remote.public_key) is None && self.roots is Some && o.cert_valid {
            self.admitted(o.remote, Seq::empty())
        } else {
            self
        }
    }

    /// What a direct handshake from `src` brings about.
    pub open spec fn on_init(self, src: SockAddr, o: OpenedInit<S>, now_ms: u64) -> (
        ManagerView<S, H>,
        ReactionView,
    ) {
        if o.payload@.len() < TIME_LABEL_LEN {
            (self, ReactionView::nothing())
        } else {
            let m = self.with_initiator(o);
            match m.find_key(o.remote.public_key) {
                None => (m, ReactionView::nothing()),
                Some(i) => m.init_from(i, src, o, o.payload@.take(12), now_ms),
            }
        }
    }
}

impl<R: Rendezvous, S, H> PeerManager<R, S, H> {
    /// Puts a handshake with peer `idx` under way, toward `target` or through the relay,
    /// and gives the datagrams to send: the handshake last, after the decoys that cover
    /// a direct one when obfuscation is on. `started` is what drawing it gave; `None`
    /// comes back, and nothing changes, when that failed or there is no relay. The peer
    /// has neither a session nor another handshake under way.
    pub fn begin_handshake(
        &mut self,
        idx: usize,
        target: SockAddr,
        via_relay: bool,
        now_ms: u64,
        started: Option<Started<H>>,
        draw: u64,
        decoys: Option<Decoys>,
    ) -> (r: Option<Vec<EgressDatagram>>)
        requires
            old(self)@.wf(),
            idx < old(self)@.peers.len(),
            old(self)@.peers[idx as int].state is Idle,
            old(self)@.obf_key is Some && !via_relay ==> decoys is Some,
        ensures
            final(self)@.wf(),
            ({
                let bodies = match decoys {
                    Some(d) => d@,
                    None => Seq::empty(),
                };
                let (m, out) = old(self)@.begin(
                    idx as int,
                    target,
                    via_relay,
                    now_ms,
                    started,
                    draw,
                    bodies,
                );
                &&& final(self)@ == m
                &&& match r {
                    Some(v) => out == Some(egress_views(v@)),
                    None => out is None,
                }
            }),
            decoys matches Some(d) ==> Decoys::allowed(d@),
    {
        let n: usize = match &decoys {
            Some(d) => d.len(),
            None => 0,
        };
        let st: Started<H> = match started {
            Some(st) => st,
            None => {
                return None;
            },
        };
        let mut out: Vec<EgressDatagram> = Vec::new();
        assert(egress_views(out@) =~= Seq::<EgressView>::empty());
        if via_relay {
            match self.relay_wrap(idx, &st.init_pkt) {
                Some(d) => {
                    out.push(d);
                    assert(egress_views(out@) =~= seq![d@]);
                },
                None => {
                    return None;
                },
            }
        } else {
            if self.obf_key.is_some() {
                if let Some(d) = &decoys {
                    let mut k: usize = 0;
                    while k < n
                        invariant
                            k <= n,
                            n == d@.len(),
                            self@ == old(self)@,
                            self@.obf_key is Some,
                            egress_views(out@) == self@.decoy_datagrams(
                                target,
                                d@,
                            ).take(k as int),
                        decreases n - k,
                    {
                        let ghost sent = out@;
                        let body: Vec<u8> = d.body(k);
                        let junk: Vec<u8> = reassemble(self.codes.junk, &body);
                        out.push(plain_datagram(target, junk));
                        proof {
                            let all = self@.decoy_datagrams(target, d@);
                            assert(all.take(k + 1) =~= all.take(k as int).push(all[k as int]));
                            assert(egress_views(out@) =~= egress_views(sent).push(all[k as int]));
                        }
                        k = k + 1;
                    }
                    assert(self@.decoy_datagrams(target, d@).take(n as int)
                        =~= self@.decoy_datagrams(target, d@));
                }
            }
            let ghost burst = egress_views(out@);
            out.push(plain_datagram(target, copied(&st.init_pkt)));
            assert(egress_views(out@) =~= burst + seq![plain(target, st.init_pkt@)]);
        }
        let retry_ms: u64 = self.interval_ms(HANDSHAKE_RETRY_MS, draw);
        proof {
            assert(self@.peer_wf(self@.peers[idx as int]));
        }
        self.peers[idx].begin(st.hs, st.init_pkt, target, via_relay, now_ms, retry_ms);
        proof {
            let p = self.peers@[idx as int]@;
            assert(self@ =~= old(self)@.with_peer(idx as int, p));
            lemma_with_peer_wf(old(self)@, idx as int, p);
        }
        Some(out)
    }

    /// Ends peer `idx`'s session: forgets its tags, the answer that built it and its key, and
    /// makes the peer idle. The greatest time label that was accepted is kept, so that nothing
    /// older builds a session again.
    pub fn drop_session(&mut self, idx: usize)
        requires
            old(self)@.wf(),
            idx < old(self)@.peers.len(),
        ensures
            final(self)@.wf(),
            final(self)@ == old(self)@.dropped(idx as int),
    {
        let ghost m = self@;
        proof {
            assert(m.peers[idx as int] == self.peers@[idx as int]@);
            assert(m.peer_wf(m.peers[idx as int]));
        }
        let mut tags: Vec<u64> = Vec::new();
        match &self.peers[idx].state {
            PeerState::Established(e) => {
                tags.push(e.current.conn_tag);
                match &e.next {
                    Some(n) => {
                        tags.push(n.dp.conn_tag);
                    },
                    None => {},
                }
                match &e.previous {
                    Some(p) => {
                        tags.push(p.conn_tag);
                    },
                    None => {},
                }
                assert(forall|t: u64|
                    tags@.contains(t) ==> m.peers[idx as int].epochs().holds_tag(t));
                assert(tags@[0] == e.current.conn_tag);
                assert(e.next is Some ==> tags@[1] == e.next->0.dp.conn_tag);
                assert(e.previous is Some ==> tags@[tags@.len() - 1] == e.previous->0.conn_tag);
                assert forall|t: u64| m.peers[idx as int].epochs().holds_tag(t) implies tags@.contains(
                    t,
                ) by {
                    if e.current.conn_tag == t {
                        assert(tags@[0] == t);
                    } else if e.next is Some && e.next->0.dp.conn_tag == t {
                        assert(tags@[1] == t);
                    } else {
                        assert(tags@[tags@.len() - 1] == t);
                    }
                }
            },
            _ => {},
        }
        let n: usize = tags.len();
        let mut k: usize = 0;
        while k < n
            invariant
                k <= n,
                n == tags@.len(),
                self@ == (ManagerView { by_tag: self@.by_tag, ..m }),
                forall|t: u64| #[trigger]
                    self@.by_tag.contains_key(t) <==> m.by_tag.contains_key(t) && !tags@.take(
                        k as int,
                    ).contains(t),
                forall|t: u64| #[trigger]
                    self@.by_tag.contains_key(t) ==> self@.by_tag[t] == m.by_tag[t],
            decreases n - k,
        {
            let ghost was = self@.by_tag;
            self.by_tag.remove(&tags[k]);
            assert(self@.by_tag == was.remove(tags@[k as int]));
            assert forall|t: u64|
                tags@.take(k + 1).contains(t) <==> tags@.take(k as int).contains(t) || t
                    == tags@[k as int] by {
                let a = tags@.take(k as int);
                let b = tags@.take(k + 1);
                assert(b =~= a.push(tags@[k as int]));
                if a.contains(t) {
                    let j = choose|j: int| 0 <= j < a.len() && a[j] == t;
                    assert(b[j] == t);
                }
                assert(b[k as int] == tags@[k as int]);
            }
            k = k + 1;
        }
        assert(tags@.take(n as int) =~= tags@);
        self.peers[idx].part();
        proof {
            let p = self.peers@[idx as int]@;
            let d = m.dropped(idx as int);
            if m.peers[idx as int].state is Established {
                assert(self@.by_tag =~= d.by_tag);
            } else {
                assert(self@.by_tag =~= m.by_tag);
            }
            assert(self@.peers =~= d.peers);
            assert(self@ =~= d);
            lemma_with_peer_wf(m, idx as int, p);
            lemma_forget_wf(m.with_peer(idx as int, p), d.by_tag);
        }
    }

    /// Begins a session with peer `idx` by a handshake that this side answered, and gives
    /// what waited for it.
    pub(crate) fn accept(
        &mut self,
        idx: usize,
        src: Option<SockAddr>,
        done: Completed<S>,
        ts: [u8; 12],
        eph: [u8; 32],
        resp: Vec<u8>,
        now_ms: u64,
    ) -> (pending: Vec<Vec<u8>>)
        requires
            old(self)@.wf(),
            idx < old(self)@.peers.len(),
        ensures
            final(self)@.wf(),
            final(self)@ == old(self)@.accepted(
                idx as int,
                src,
                done,
                ts@,
                eph,
                resp@,
                now_ms,
            ),
            contents(pending@) == old(self)@.peers[idx as int].pending_tun,
    {
        let ghost m = self@;
        assert(m.peers[idx as int] == self.peers@[idx as int]@);
        let addr: SockAddr = match src {
            Some(a) => a,
            None => self.server_addr(),
        };
        let key: Option<[u8; 16]> = if self.obf_key.is_some() {
            Some(done.obf_key)
        } else {
            None
        };
        let dp = self.make_data_plane(done.session, done.conn_tag, addr);
        self.by_tag.insert(done.conn_tag, idx);
        let pending = self.peers[idx].join(src, dp, key, now_ms);
        self.peers[idx].remember_answer(ts, eph, resp);
        proof {
            let p = self.peers@[idx as int]@;
            lemma_with_peer_wf(m, idx as int, p);
            lemma_tag_wf(m.with_peer(idx as int, p), done.conn_tag, idx);
            assert(self@ =~= m.accepted(idx as int, src, done, ts@, eph, resp@, now_ms));
        }
        pending
    }

    /// Takes a direct handshake from `src` that could be opened. An unknown initiator is
    /// dropped without an answer unless, in a mesh, its certificate is valid.
    pub fn handle_handshake_init(
        &mut self,
        src: SockAddr,
        opened: OpenedInit<S>,
        now_ms: u64,
    ) -> (r: Reaction)
        requires
            old(self)@.wf(),
            old(self)@.with_initiator(opened).peers.len() <= usize::MAX,
        ensures
            final(self)@.wf(),
            (final(self)@, r@) == old(self)@.on_init(src, opened, now_ms),
    {
        let ts: [u8; 12] = match parse_init_payload(&opened.payload) {
            Some(t) => t.0,
            None => {
                return Reaction::nothing();
            },
        };
        let known: Option<usize> = self.position(&opened.remote.public_key);
        if known.is_none() && self.roots.is_some() && opened.cert_valid {
            let nowhere: Vec<SockAddr> = Vec::new();
            assert(nowhere@ =~= Seq::<SockAddr>::empty());
            self.admit_member(opened.remote, &nowhere);
        }
        let ghost m = self@;
        assert(m == old(self)@.with_initiator(opened));
        let idx: usize = match self.position(&opened.remote.public_key) {
            Some(i) => i,
            None => {
                return Reaction::nothing();
            },
        };
        assert(m.peers[idx as int] == self.peers@[idx as int]@);
        let ok: bool = self.responder_cert_ok(&opened.remote.public_key, opened.cert_valid);
        if self.peers[idx].is_established() {
            if self.peers[idx].relay {
                return Reaction::nothing();
            }
            if !ok {
                self.drop_session(idx);
                return Reaction::nothing();
            }
            return self.rekey_init_core(
                idx,
                opened.done,
                opened.resp_pkt,
                opened.eph,
                ts,
                src,
                false,
            );
        }
        if self.peers[idx].is_handshaking() && less(
            &self.local.public_key,
            &self.peers[idx].id.public_key,
        ) {
            return Reaction::nothing();
        }
        if !ok || !self.peers[idx].accept_fresh_init(&ts) {
            return Reaction::nothing();
        }
        let kind: PathKind = self.peers[idx].settle(Some(src));
        let mut egress: Vec<EgressDatagram> = Vec::new();
        egress.push(plain_datagram(src, copied(&opened.resp_pkt)));
        assert(egress_views(egress@) =~= seq![plain(src, opened.resp_pkt@)]);
        let pending = self.accept(
            idx,
            Some(src),
            opened.done,
            ts,
            opened.eph,
            opened.resp_pkt,
            now_ms,
        );
        Reaction { egress, seal: Some((idx, pending)), settled: Some((idx, kind)) }
    }

    /// Takes the rekey of peer `idx` out of its session.
    fn take_rekey_of(&mut self, idx: usize) -> (r: Option<Attempt<H>>)
        requires
            old(self)@.wf(),
            idx < old(self)@.peers.len(),
            old(self)@.peers[idx as int].state is Established,
        ensures
            final(self)@.wf(),
            (final(self)@, r) == old(self)@.take_rekey(idx as int),
    {
        let ghost m = self@;
        assert(m.peers[idx as int] == self.peers@[idx as int]@);
        assert(m.peer_wf(m.peers[idx as int]));
        let taken: Option<RekeyInFlight<H>> = match &mut self.peers[idx].state {
            PeerState::Established(e) => e.rekey.take(),
            _ => None,
        };
        proof {
            let p = self.peers@[idx as int]@;
            let e = m.peers[idx as int].epochs();
            assert(p =~= m.peers[idx as int].with_epochs(EpochsView { rekey: None, ..e }));
            lemma_with_peer_wf(m, idx as int, p);
            assert(self@ =~= m.with_peer(idx as int, p));
            if e.rekey is None {
                assert(p =~= m.peers[idx as int]);
                assert(self@.peers =~= m.peers);
            }
        }
        match taken {
            Some(rk) => Some(Attempt { peer: idx, hs: rk.hs, rekey_target: Some(rk.target) }),
            None => None,
        }
    }

    /// Takes the handshake of peer `idx`, which is idle without it.
    fn take_cold_of(&mut self, idx: usize) -> (r: Option<Attempt<H>>)
        requires
            old(self)@.wf(),
            idx < old(self)@.peers.len(),
        ensures
            final(self)@.wf(),
            (final(self)@, r) == old(self)@.take_cold(idx as int),
    {
        let ghost m = self@;
        assert(m.peers[idx as int] == self.peers@[idx as int]@);
        assert(m.peer_wf(m.peers[idx as int]));
        if !self.peers[idx].is_handshaking() {
            return None;
        }
        let mut state: PeerState<S, H> = PeerState::Idle;
        std::mem::swap(&mut self.peers[idx].state, &mut state);
        proof {
            let p = self.peers@[idx as int]@;
            lemma_with_peer_wf(m, idx as int, p);
            assert(self@ =~= m.with_peer(idx as int, p));
        }
        match state {
            PeerState::Handshaking(h) => Some(
                Attempt { peer: idx, hs: h.hs, rekey_target: None },
            ),
            _ => None,
        }
    }

    /// Takes out the handshake that a direct response from `src` is for. A rekey that is
    /// taken out leaves its session alone; a first handshake leaves its peer idle.
    pub fn handle_handshake_resp(&mut self, src: SockAddr) -> (r: Option<Attempt<H>>)
        requires
            old(self)@.wf(),
        ensures
            final(self)@.wf(),
            (final(self)@, r) == old(self)@.take_direct(src),
    {
        match self.find_at(Pick::Rekeying, src) {
            Some(i) => {
                proof {
                    lemma_first_where_finds(self@.peers, picked::<S, H>(Pick::Rekeying, src), 0);
                }
                self.take_rekey_of(i)
            },
            None => match self.find_at(Pick::Handshaking, src) {
                Some(i) => self.take_cold_of(i),
                None => None,
            },
        }
    }

    /// Takes out the handshake that a relayed response from peer `idx` is for. The rekey
    /// of a session that is not relayed stays where it is.
    pub fn relayed_handshake_resp(&mut self, idx: usize) -> (r: Option<Attempt<H>>)
        requires
            old(self)@.wf(),
            idx < old(self)@.peers.len(),
        ensures
            final(self)@.wf(),
            (final(self)@, r) == old(self)@.take_relayed(idx as int),
    {
        assert(self@.peers[idx as int] == self.peers@[idx as int]@);
        if self.peers[idx].is_established() && self.peers[idx].relay {
            self.take_rekey_of(idx)
        } else {
            self.take_cold_of(idx)
        }
    }

    /// Completes a handshake that was taken out for its response, which came from `src`
    /// or through the relay. `done` is what reading the response gave, and `cert_valid`
    /// whether the certificate in it decodes and is valid for the peer now. The peer is
    /// idle since its handshake was taken out.
    pub fn complete_handshake(
        &mut self,
        idx: usize,
        src: Option<SockAddr>,
        done: Option<Completed<S>>,
        cert_valid: bool,
        now_ms: u64,
    ) -> (r: Reaction)
        requires
            old(self)@.wf(),
            idx < old(self)@.peers.len(),
            old(self)@.peers[idx as int].state is Idle,
        ensures
            final(self)@.wf(),
            (final(self)@, r@) == old(self)@.completed(
                idx as int,
                src,
                done,
                cert_valid,
                now_ms,
            ),
    {
        let ghost m = self@;
        assert(m.peers[idx as int] == self.peers@[idx as int]@);
        let d: Completed<S> = match done {
            Some(d) => d,
            None => {
                return Reaction::nothing();
            },
        };
        if !self.responder_cert_ok(&self.peers[idx].id.public_key, cert_valid) {
            return Reaction::nothing();
        }
        let addr: SockAddr = match src {
            Some(a) => a,
            None => self.server_addr(),
        };
        let key: Option<[u8; 16]> = if self.obf_key.is_some() {
            Some(d.obf_key)
        } else {
            None
        };
        let dp = self.make_data_plane(d.session, d.conn_tag, addr);
        let kind: PathKind = self.peers[idx].settle(src);
        self.by_tag.insert(d.conn_tag, idx);
        let pending = self.peers[idx].join(src, dp, key, now_ms);
        proof {
            let p = self.peers@[idx as int]@;
            lemma_with_peer_wf(m, idx as int, p);
            lemma_tag_wf(m.with_peer(idx as int, p), d.conn_tag, idx);
            assert(self@ =~= m.completed(idx as int, src, done, cert_valid, now_ms).0);
        }
        let egress: Vec<EgressDatagram> = Vec::new();
        assert(egress_views(egress@) =~= Seq::<EgressView>::empty());
        Reaction { egress, seal: Some((idx, pending)), settled: Some((idx, kind)) }
    }
}

} // verus!
