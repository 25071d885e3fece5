//! Rekeying a live session: when to begin, how to answer, how to complete.

use vstd::prelude::*;

use crate::addr::SockAddr;
use crate::epoch::{elapsed, EpochsView, RekeyInFlight, RekeyView};
use crate::order::{before, contents, copied, is_key, less};
use crate::peer::{fresher, PeerState, PeerView};
use crate::peer_manager::{
    lemma_forget_wf, lemma_tag_wf, lemma_with_peer_wf, Completed, ManagerView, PeerManager,
    Reaction, ReactionView, Started, HANDSHAKE_RETRY_MS, HANDSHAKE_TOTAL_MS,
};
use crate::rendezvous::Rendezvous;
use crate::wire::{egress_views, plain, plain_datagram, EgressDatagram, EgressView};

verus! {

broadcast use vstd::std_specs::hash::group_hash_axioms;

impl<S, H> ManagerView<S, H> {
    /// A handshake datagram to peer `i`: through the relay, or to `dst`.
    pub open spec fn emitted(
        self,
        i: int,
        dst: SockAddr,
        bytes: Seq<u8>,
        via_relay: bool,
    ) -> Seq<EgressView> {
        if via_relay {
            self.wrapped(i, bytes)
        } else {
            seq![plain(dst, bytes)]
        }
    }

    /// How a peer with a session is answered that begins a handshake: the same handshake
    /// gets the same answer again; a stale one gets none; a new one prepares the next
    /// epoch, and the current one goes on sending.
    pub open spec fn rekey_init(
        self,
        i: int,
        done: Completed<S>,
        resp: Seq<u8>,
        eph: [u8; 32],
        ts: Seq<u8>,
        src: SockAddr,
        via_relay: bool,
    ) -> (ManagerView<S, H>, ReactionView) {
        let p = self.peers[i];
        let addr = if via_relay {
            self.server()
        } else {
            src
        };
        if p.cached_resp_init_eph == Some(eph) {
            match p.cached_resp {
                Some(cached) => (
                    self,
                    ReactionView::send(self.emitted(i, addr, cached, via_relay)),
                ),
                None => (self, ReactionView::nothing()),
            }
        } else if p.epochs().next matches Some(n) && n.init_eph == eph {
            (
                self,
                ReactionView::send(
                    self.emitted(i, addr, p.epochs().next->0.resp, via_relay),
                ),
            )
        } else if !fresher(p.last_accepted_init_ts, ts) {
            (self, ReactionView::nothing())
        } else {
            (
                self.with_peer(
                    i,
                    PeerView {
                        last_accepted_init_ts: Some(ts),
                        ..p.with_epochs(
                            p.epochs().with_next(self.data_plane(done, addr), eph, resp),
                        )
                    },
                ),
                ReactionView::send(self.emitted(i, addr, resp, via_relay)),
            )
        }
    }

    /// Where a rekey of peer `i`'s session is to be sent, if one is to be begun now: to
    /// the server for a relayed peer, else to where the peer is. The node with the
    /// smaller key begins once the epoch has reached the interval, the other one only
    /// at twice that age.
    pub open spec fn rekey_target(self, i: int, now_ms: u64) -> Option<SockAddr> {
        let p = self.peers[i];
        let winner = before(self.local.public_key@, p.id.public_key@);
        if !p.epochs().needs_rekey(now_ms, winner, self.rekey_interval_ms) {
            None
        } else if p.relay {
            Some(self.server())
        } else {
            p.endpoint
        }
    }

    /// What the schedule does for the rekey of peer `i`'s session: begin one that is due
    /// and was drawn, give up one that has taken too long, send again one that waits.
    pub open spec fn rekey_step(
        self,
        i: int,
        started: Option<Started<H>>,
        now_ms: u64,
        draw: u64,
    ) -> (ManagerView<S, H>, Seq<EgressView>) {
        let p = self.peers[i];
        let e = p.epochs();
        let retry_ms = self.interval(HANDSHAKE_RETRY_MS, draw);
        match e.rekey {
            None => match (self.rekey_target(i, now_ms), started) {
                (Some(target), Some(st)) => (
                    self.with_rekey(
                        i,
                        Some(
                            RekeyView {
                                hs: st.hs,
                                init_pkt: st.init_pkt@,
                                started_ms: now_ms,
                                last_sent_ms: now_ms,
                                retry_ms,
                                target,
                            },
                        ),
                    ),
                    self.emitted(i, target, st.init_pkt@, p.relay),
                ),
                _ => (self, Seq::empty()),
            },
            Some(rk) => if elapsed(now_ms, rk.started_ms) >= HANDSHAKE_TOTAL_MS {
                (self.with_rekey(i, None), Seq::empty())
            } else if elapsed(now_ms, rk.last_sent_ms) < rk.retry_ms {
                (self, Seq::empty())
            } else {
                (
                    self.with_rekey(
                        i,
                        Some(RekeyView { last_sent_ms: now_ms, retry_ms, ..rk }),
                    ),
                    self.emitted(i, rk.target, rk.init_pkt, p.relay),
                )
            },
        }
    }

    /// The table with another rekey in peer `i`'s session.
    pub open spec fn with_rekey(self, i: int, rekey: Option<RekeyView<H>>) -> ManagerView<S, H> {
        let p = self.peers[i];
        self.with_peer(i, p.with_epochs(EpochsView { rekey, ..p.epochs() }))
    }

    /// What completing a rekey brings about: nothing when the response did not complete
    /// it or its certificate does not admit, else a new epoch that sends, and what waited
    /// to seal under it, or one empty packet, so that the other side sees the epoch.
    pub open spec fn rekeyed(
        self,
        i: int,
        target: SockAddr,
        via_relay: bool,
        done: Option<Completed<S>>,
        cert_valid: bool,
        now_ms: u64,
    ) -> (ManagerView<S, H>, ReactionView) {
        let p = self.peers[i];
        match done {
            Some(d) if self.cert_admits(p.id.public_key, cert_valid) => {
                let addr = if via_relay {
                    self.server()
                } else {
                    target
                };
                (
                    ManagerView {
                        by_tag: self.by_tag.remove(p.epochs().current.conn_tag).insert(
                            d.conn_tag,
                            i as usize,
                        ),
                        ..self.with_peer(
                            i,
                            PeerView {
                                pending_tun: Seq::empty(),
                                ..p.with_epochs(
                                    p.epochs().promoted(self.data_plane(d, addr), now_ms),
                                )
                            },
                        )
                    },
                    ReactionView {
                        egress: Seq::empty(),
                        seal: Some(
                            (
                                i as usize,
                                if p.pending_tun.len() == 0 {
                                    seq![Seq::empty()]
                                } else {
                                    p.pending_tun
                                },
                            ),
                        ),
                        settled: None,
                    },
                )
            },
            _ => (self, ReactionView::nothing()),
        }
    }
}

impl<R: Rendezvous, S, H> PeerManager<R, S, H> {
    /// A handshake datagram to peer `idx`: through the relay, or to `dst`.
    pub(crate) fn emit(
        &mut self,
        idx: usize,
        dst: SockAddr,
        bytes: Vec<u8>,
        via_relay: bool,
    ) -> (out: Vec<EgressDatagram>)
        requires
            old(self)@.wf(),
            idx < old(self)@.peers.len(),
        ensures
            final(self)@ == old(self)@,
            egress_views(out@) == old(self)@.emitted(idx as int, dst, bytes@, via_relay),
    {
        let mut out: Vec<EgressDatagram> = Vec::new();
        assert(egress_views(out@) =~= Seq::<EgressView>::empty());
        if via_relay {
            self.relay_push(idx, &bytes, &mut out);
            assert(egress_views(out@) =~= old(self)@.wrapped(idx as int, bytes@));
        } else {
            out.push(plain_datagram(dst, bytes));
            assert(egress_views(out@) =~= seq![plain(dst, bytes@)]);
        }
        out
    }

    /// Answers a handshake from a peer that has a session, direct from `src` or through
    /// the relay.
    pub fn rekey_init_core(
        &mut self,
        idx: usize,
        done: Completed<S>,
        resp_pkt: Vec<u8>,
        init_eph: [u8; 32],
        init_ts: [u8; 12],
        src: SockAddr,
        via_relay: bool,
    ) -> (r: Reaction)
        requires
            old(self)@.wf(),
            idx < old(self)@.peers.len(),
            old(self)@.peers[idx as int].state is Established,
        ensures
            final(self)@.wf(),
            (final(self)@, r@) == old(self)@.rekey_init(
                idx as int,
                done,
                resp_pkt@,
                init_eph,
                init_ts@,
                src,
                via_relay,
            ),
    {
        let addr: SockAddr = if via_relay {
            self.server_addr()
        } else {
            src
        };
        let ghost m = self@;
        assert(self@.peers[idx as int] == self.peers@[idx as int]@);
        if is_key(&self.peers[idx].cached_resp_init_eph, &init_eph) {
            let cached: Option<Vec<u8>> = match &self.peers[idx].cached_resp {
                Some(c) => Some(copied(c)),
                None => None,
            };
            return match cached {
                Some(c) => {
                    let out = self.emit(idx, addr, c, via_relay);
                    Reaction::send(out)
                },
                None => Reaction::nothing(),
            };
        }
        let again: Option<Vec<u8>> = match &self.peers[idx].state {
            PeerState::Established(e) => e.next_cached_resp_for(&init_eph),
            _ => None,
        };
        if let Some(c) = again {
            let out = self.emit(idx, addr, c, via_relay);
            return Reaction::send(out);
        }
        if !self.peers[idx].accept_fresh_init(&init_ts) {
            return Reaction::nothing();
        }
        let answer: Vec<u8> = copied(&resp_pkt);
        let dp = self.make_data_plane(done.session, done.conn_tag, addr);
        match &mut self.peers[idx].state {
            PeerState::Established(e) => {
                e.install_next(dp, init_eph, resp_pkt);
            },
            _ => {},
        }
        self.peers[idx].last_accepted_init_ts = Some(init_ts);
        let ghost after = m.rekey_init(
            idx as int,
            done,
            resp_pkt@,
            init_eph,
            init_ts@,
            src,
            via_relay,
        ).0;
        assert(self.peers@[idx as int]@ =~= after.peers[idx as int]);
        assert(self@.peers =~= after.peers);
        proof {
            assert(m.peer_wf(m.peers[idx as int]));
            lemma_with_peer_wf(m, idx as int, after.peers[idx as int]);
            assert(self@ =~= m.with_peer(idx as int, after.peers[idx as int]));
        }
        let out = self.emit(idx, addr, answer, via_relay);
        Reaction::send(out)
    }

    /// Where a rekey of peer `idx`'s session is to be sent, if one is to be begun now.
    pub fn rekey_target(&self, idx: usize, now_ms: u64) -> (r: Option<SockAddr>)
        requires
            self@.wf(),
            idx < self@.peers.len(),
            self@.peers[idx as int].state is Established,
        ensures
            r == self@.rekey_target(idx as int, now_ms),
    {
        let p = &self.peers[idx];
        assert(self@.peers[idx as int] == p@);
        let winner: bool = less(&self.local.public_key, &p.id.public_key);
        let due: bool = match &p.state {
            PeerState::Established(e) => e.needs_rekey(now_ms, winner, self.rekey_interval_ms),
            _ => false,
        };
        if !due {
            None
        } else if p.relay {
            Some(self.server_addr())
        } else {
            p.endpoint
        }
    }

    /// Replaces the rekey of peer `idx`'s session.
    fn set_rekey(&mut self, idx: usize, rekey: Option<RekeyInFlight<H>>)
        requires
            old(self)@.wf(),
            idx < old(self)@.peers.len(),
            old(self)@.peers[idx as int].state is Established,
        ensures
            final(self)@.wf(),
            final(self)@ == old(self)@.with_rekey(
                idx as int,
                match rekey {
                    Some(rk) => Some(rk@),
                    None => None,
                },
            ),
    {
        let ghost m = self@;
        assert(m.peers[idx as int] == self.peers@[idx as int]@);
        assert(m.peer_wf(m.peers[idx as int]));
        match &mut self.peers[idx].state {
            PeerState::Established(e) => {
                e.rekey = rekey;
            },
            _ => {},
        }
        proof {
            let p = self.peers@[idx as int]@;
            lemma_with_peer_wf(m, idx as int, p);
            assert(self@ =~= m.with_peer(idx as int, p));
        }
    }

    /// Drives the rekey of peer `idx`'s session: begins one that is due, gives up one that
    /// has taken too long, or sends one again. `started` is what drawing a handshake gave
    /// where [`PeerManager::rekey_target`] asked for one. The epoch that sends is left
    /// alone whatever happens.
    pub fn drive_rekey_schedule(
        &mut self,
        idx: usize,
        started: Option<Started<H>>,
        now_ms: u64,
        draw: u64,
    ) -> (out: Vec<EgressDatagram>)
        requires
            old(self)@.wf(),
            idx < old(self)@.peers.len(),
            old(self)@.peers[idx as int].state is Established,
        ensures
            final(self)@.wf(),
            (final(self)@, egress_views(out@)) == old(self)@.rekey_step(
                idx as int,
                started,
                now_ms,
                draw,
            ),
    {
        let ghost m = self@;
        assert(m.peers[idx as int] == self.peers@[idx as int]@);
        let nothing: Vec<EgressDatagram> = Vec::new();
        assert(egress_views(nothing@) =~= Seq::<EgressView>::empty());
        let relay: bool = self.peers[idx].relay;
        let retry_ms: u64 = self.interval_ms(HANDSHAKE_RETRY_MS, draw);
        let target: Option<SockAddr> = self.rekey_target(idx, now_ms);
        let in_flight: Option<RekeyInFlight<H>> = match &mut self.peers[idx].state {
            PeerState::Established(e) => e.rekey.take(),
            _ => None,
        };
        proof {
            let p = self.peers@[idx as int]@;
            assert(m.peer_wf(m.peers[idx as int]));
            lemma_with_peer_wf(m, idx as int, p);
            assert(self@ =~= m.with_rekey(idx as int, None));
            assert forall|rk: Option<RekeyView<H>>| #[trigger]
                self@.with_rekey(idx as int, rk) == m.with_rekey(idx as int, rk) by {
                assert(self@.with_rekey(idx as int, rk).peers =~= m.with_rekey(
                    idx as int,
                    rk,
                ).peers);
            }
            if m.peers[idx as int].epochs().rekey is None {
                assert(m.with_rekey(idx as int, None).peers =~= m.peers);
            }
        }
        match in_flight {
            None => match (target, started) {
                (Some(target), Some(st)) => {
                    let pkt: Vec<u8> = copied(&st.init_pkt);
                    self.set_rekey(
                        idx,
                        Some(
                            RekeyInFlight {
                                hs: st.hs,
                                init_pkt: st.init_pkt,
                                started_ms: now_ms,
                                last_sent_ms: now_ms,
                                retry_ms,
                                target,
                            },
                        ),
                    );
                    self.emit(idx, target, pkt, relay)
                },
                _ => nothing,
            },
            Some(rk) => if now_ms.saturating_sub(rk.started_ms) >= HANDSHAKE_TOTAL_MS {
                nothing
            } else if now_ms.saturating_sub(rk.last_sent_ms) < rk.retry_ms {
                self.set_rekey(idx, Some(rk));
                assert(m.with_rekey(idx as int, Some(rk@)).peers =~= m.peers);
                nothing
            } else {
                let pkt: Vec<u8> = copied(&rk.init_pkt);
                let target: SockAddr = rk.target;
                self.set_rekey(
                    idx,
                    Some(
                        RekeyInFlight {
                            hs: rk.hs,
                            init_pkt: rk.init_pkt,
                            started_ms: rk.started_ms,
                            last_sent_ms: now_ms,
                            retry_ms,
                            target,
                        },
                    ),
                );
                self.emit(idx, target, pkt, relay)
            },
        }
    }

    /// Completes a rekey that was taken out for its response. `done` is what reading the
    /// response gave, and `cert_valid` whether the certificate in it decodes and is valid
    /// for the peer now. The session goes on as it was unless both are good.
    pub fn rekey_resp_core(
        &mut self,
        idx: usize,
        target: SockAddr,
        via_relay: bool,
        done: Option<Completed<S>>,
        cert_valid: bool,
        now_ms: u64,
    ) -> (r: Reaction)
        requires
            old(self)@.wf(),
            idx < old(self)@.peers.len(),
            old(self)@.peers[idx as int].state is Established,
        ensures
            final(self)@.wf(),
            (final(self)@, r@) == old(self)@.rekeyed(
                idx as int,
                target,
                via_relay,
                done,
                cert_valid,
                now_ms,
            ),
    {
        let ghost m = self@;
        assert(m.peers[idx as int] == self.peers@[idx as int]@);
        let d: Completed<S> = match done {
            Some(d) => d,
            None => {
                return Reaction::nothing();
            },
        };
        if !self.responder_cert_ok(&self.peers[idx].id.public_key, cert_valid) {
            return Reaction::nothing();
        }
        let addr: SockAddr = if via_relay {
            self.server_addr()
        } else {
            target
        };
        let dp = self.make_data_plane(d.session, d.conn_tag, addr);
        let mut old_tag: u64 = d.conn_tag;
        match &mut self.peers[idx].state {
            PeerState::Established(e) => {
                old_tag = e.current.conn_tag;
                e.promote_from_rekey(dp, now_ms);
            },
            _ => {},
        }
        let mut pending = self.peers[idx].take_pending();
        self.by_tag.remove(&old_tag);
        self.by_tag.insert(d.conn_tag, idx);
        proof {
            let p = self.peers@[idx as int]@;
            let after = m.rekeyed(idx as int, target, via_relay, done, cert_valid, now_ms).0;
            assert(p =~= after.peers[idx as int]);
            lemma_with_peer_wf(m, idx as int, p);
            let m1 = m.with_peer(idx as int, p);
            lemma_forget_wf(m1, m1.by_tag.remove(old_tag));
            let m2 = ManagerView { by_tag: m1.by_tag.remove(old_tag), ..m1 };
            lemma_tag_wf(m2, d.conn_tag, idx);
            assert(self@ =~= after);
        }
        if pending.len() == 0 {
            pending.push(Vec::new());
            assert(contents(pending@) =~= seq![Seq::<u8>::empty()]);
        }
        let egress: Vec<EgressDatagram> = Vec::new();
        assert(egress_views(egress@) =~= Seq::<EgressView>::empty());
        Reaction { egress, seal: Some((idx, pending)), settled: None }
    }
}

} // verus!
