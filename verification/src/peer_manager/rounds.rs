//! The rounds that a tick makes, and those of them that go over all peers: first every
//! peer by its state, then the idle ones by their paths, then cover traffic.
//!
//! Before a round the caller answers, peer by peer, what the round needs from
//! outside; [`PeerManager::draw_for`] and its like say what that is.

use vstd::prelude::*;

use crate::addr::SockAddr;
use crate::epoch::EpochsView;
use crate::peer::{PathAction, PathStep, PeerState, PeerView};
use crate::peer_manager::egress::{sealed_views, Sealed};
use crate::peer_manager::obf::{junk_sized, Decoys};
use crate::peer_manager::routing::{PathMove, PathMoveView};
use crate::peer_manager::{ManagerView, PeerManager, Started};
use crate::rendezvous::Rendezvous;
use crate::wire::{egress_views, plain, EgressDatagram, EgressView};

verus! {

broadcast use vstd::std_specs::hash::group_hash_axioms;

/// A round of a tick; they come in this order.
#[derive(Clone, Copy, Debug, PartialEq, Eq, Structural)]
pub enum TickRound {
    /// This node registers ([`PeerManager::tick_register`]).
    Register,
    /// Every peer by its state ([`PeerManager::tick_peers`]).
    Peers,
    /// The idle peers by their paths ([`PeerManager::tick_idle`]).
    Idle,
    /// Each digest that is due goes to its partners ([`PeerManager::tick_gossip`]), then a
    /// root is sought where there is no session ([`PeerManager::gossip_bootstrap`]).
    Gossip,
    /// Cover traffic ([`PeerManager::tick_covers`]).
    Cover,
    /// Sessions without a valid certificate end ([`PeerManager::tick_sweep`]).
    Sweep,
}

impl TickRound {
    /// The place of a round in a tick.
    pub open spec fn rank(self) -> int {
        match self {
            TickRound::Register => 0,
            TickRound::Peers => 1,
            TickRound::Idle => 2,
            TickRound::Gossip => 3,
            TickRound::Cover => 4,
            TickRound::Sweep => 5,
        }
    }
}

/// The round right after another one, whether or not it is to be made; the first one after
/// none.
pub open spec fn following(last: Option<TickRound>) -> Option<TickRound> {
    match last {
        None => Some(TickRound::Register),
        Some(TickRound::Register) => Some(TickRound::Peers),
        Some(TickRound::Peers) => Some(TickRound::Idle),
        Some(TickRound::Idle) => Some(TickRound::Gossip),
        Some(TickRound::Gossip) => Some(TickRound::Cover),
        Some(TickRound::Cover) => Some(TickRound::Sweep),
        Some(TickRound::Sweep) => None,
    }
}

/// The place that a tick has come to; before its first round, none.
pub open spec fn rank_of(last: Option<TickRound>) -> int {
    match last {
        None => -1,
        Some(r) => r.rank(),
    }
}

/// A handshake that a round needs drawn.
#[derive(Clone, Copy, Debug, PartialEq, Eq, Structural)]
pub enum DrawFor {
    /// One that begins toward an address, or through the relay.
    Begin { target: SockAddr, via_relay: bool },
    /// One that rekeys a session.
    Rekey { target: SockAddr },
}

/// What a round needs to know of one peer.
#[derive(Debug)]
pub struct PeerTick<H> {
    /// The step of the peer's path, where it is to be asked.
    pub path: Option<PathStep>,
    /// The handshake, where one is to be drawn and could be.
    pub started: Option<Started<H>>,
    /// The decoys ahead of it, where it takes any.
    pub decoys: Option<Decoys>,
    /// A random draw.
    pub draw: u64,
    /// Whether the epoch that the session left is due to be forgotten.
    pub retire: bool,
    /// What the session's transport sends by itself.
    pub session: Vec<Sealed>,
}

impl<H> PeerTick<H> {
    /// The bodies of the decoys.
    pub open spec fn decoy_bodies(self) -> Seq<Seq<u8>> {
        match self.decoys {
            Some(d) => d@,
            None => Seq::empty(),
        }
    }
}

/// The datagram that is there, or none.
pub open spec fn if_any(d: Option<EgressView>) -> Seq<EgressView> {
    match d {
        Some(x) => seq![x],
        None => Seq::empty(),
    }
}

/// The datagrams that are there, or none.
pub open spec fn if_some(d: Option<Seq<EgressView>>) -> Seq<EgressView> {
    match d {
        Some(x) => x,
        None => Seq::empty(),
    }
}

impl<S, H> ManagerView<S, H> {
    /// Whether a round is to be made: a registration and a sweep when they are due, the
    /// idle peers' paths with a server, gossip in a mesh, cover traffic where it and
    /// obfuscation are on, and the round over all peers always.
    pub open spec fn round_due(self, r: TickRound, now_ms: u64) -> bool {
        match r {
            TickRound::Register => self.registration_due(now_ms),
            TickRound::Peers => true,
            TickRound::Idle => self.rendezvous is Some,
            TickRound::Gossip => self.roots is Some,
            TickRound::Cover => self.obf_key is Some && self.cover_traffic_ms is Some,
            TickRound::Sweep => self.sweep_due(now_ms),
        }
    }

    /// The round that a tick makes after `last`: the next one in the order that is to be
    /// made; none where the tick is over.
    pub open spec fn next_round(self, last: Option<TickRound>, now_ms: u64) -> Option<TickRound>
        decreases 5 - rank_of(last),
    {
        match following(last) {
            None => None,
            Some(r) => if self.round_due(r, now_ms) {
                Some(r)
            } else {
                self.next_round(Some(r), now_ms)
            },
        }
    }

    /// The handshake that the round over all peers needs drawn for peer `i`, given the
    /// step of its path.
    pub open spec fn draw_for(self, i: int, path: Option<PathStep>, now_ms: u64) -> Option<DrawFor> {
        let p = self.peers[i];
        if self.may_escalate(i) {
            match path {
                Some(step) => match self.escalated(i, step, now_ms).1 {
                    PathMoveView::Begin { target, via_relay } => Some(
                        DrawFor::Begin { target, via_relay },
                    ),
                    _ => None,
                },
                None => None,
            }
        } else if p.state is Established {
            match self.rekey_target(i, now_ms) {
                Some(target) => Some(DrawFor::Rekey { target }),
                None => None,
            }
        } else {
            None
        }
    }

    /// Whether a handshake that is to be drawn takes decoys.
    pub open spec fn takes_decoys(self, draw: Option<DrawFor>) -> bool {
        self.obf_key is Some && (draw matches Some(DrawFor::Begin { via_relay, .. }) && !via_relay)
    }

    /// Whether `t` answers what the round over all peers needs to know of peer `i`.
    pub open spec fn answers(self, i: int, t: PeerTick<H>, now_ms: u64) -> bool {
        &&& self.may_escalate(i) ==> t.path is Some
        &&& self.takes_decoys(self.draw_for(i, t.path, now_ms)) ==> t.decoys is Some
    }

    /// What the round over all peers does for peer `i`. A handshake that is begun anew is
    /// not also sent again.
    pub open spec fn ticked(self, i: int, t: PeerTick<H>, now_ms: u64) -> (
        ManagerView<S, H>,
        Seq<EgressView>,
    ) {
        let p = self.peers[i];
        if self.may_escalate(i) {
            let (m, step) = self.escalated(i, t.path->0, now_ms);
            match step {
                PathMoveView::Begin { target, via_relay } => {
                    let (n, out) = m.begin(
                        i,
                        target,
                        via_relay,
                        now_ms,
                        t.started,
                        t.draw,
                        t.decoy_bodies(),
                    );
                    (n, if_some(out))
                },
                PathMoveView::Ask(d) => {
                    let (n, out) = m.resent(i, now_ms, t.draw);
                    (n, if_any(d) + out)
                },
                PathMoveView::Nothing => m.resent(i, now_ms, t.draw),
            }
        } else if p.state is Established {
            let m = self.with_peer(
                i,
                p.with_epochs(
                    if t.retire {
                        EpochsView { previous: None, ..p.epochs() }
                    } else {
                        p.epochs()
                    },
                ),
            );
            let (n, out) = m.rekey_step(i, t.started, now_ms, t.draw);
            (n, out + n.carried(i, sealed_views(t.session@), p.relay))
        } else {
            self.resent(i, now_ms, t.draw)
        }
    }

    /// What the round over all peers does for the first `n` of them.
    pub open spec fn ticked_upto(self, ts: Seq<PeerTick<H>>, n: nat, now_ms: u64) -> (
        ManagerView<S, H>,
        Seq<EgressView>,
    )
        decreases n,
    {
        if n == 0 {
            (self, Seq::empty())
        } else {
            let (m, out) = self.ticked_upto(ts, (n - 1) as nat, now_ms);
            let (k, more) = m.ticked(n - 1, ts[n - 1], now_ms);
            (k, out + more)
        }
    }

    /// Whether the path of peer `i` is to be asked in the round over the idle peers.
    pub open spec fn asks_idle(self, i: int) -> bool {
        self.rendezvous is Some && self.peers[i].state is Idle
    }

    /// The handshake that the round over the idle peers needs drawn for peer `i`.
    pub open spec fn idle_draw_for(self, i: int, path: Option<PathStep>, now_ms: u64) -> Option<
        DrawFor,
    > {
        match path {
            Some(step) if self.asks_idle(i) => match self.path_idle(i, step, now_ms).1 {
                PathMoveView::Begin { target, via_relay } => Some(
                    DrawFor::Begin { target, via_relay },
                ),
                _ => None,
            },
            _ => None,
        }
    }

    /// Whether `t` answers what the round over the idle peers needs to know of peer `i`.
    pub open spec fn idle_answers(self, i: int, t: PeerTick<H>, now_ms: u64) -> bool {
        &&& self.asks_idle(i) ==> t.path is Some
        &&& self.takes_decoys(self.idle_draw_for(i, t.path, now_ms)) ==> t.decoys is Some
    }

    /// What a step of peer `i`'s path does while the peer is idle.
    pub open spec fn idle_stepped(self, i: int, step: PathStep, t: PeerTick<H>, now_ms: u64) -> (
        ManagerView<S, H>,
        Seq<EgressView>,
    ) {
        let (m, step) = self.path_idle(i, step, now_ms);
        match step {
            PathMoveView::Begin { target, via_relay } => {
                let (n, out) = m.begin(
                    i,
                    target,
                    via_relay,
                    now_ms,
                    t.started,
                    t.draw,
                    t.decoy_bodies(),
                );
                (n, if_some(out))
            },
            PathMoveView::Ask(d) => (m, if_any(d)),
            PathMoveView::Nothing => (m, Seq::empty()),
        }
    }

    /// What the round over the idle peers does for peer `i`.
    pub open spec fn idle_ticked(self, i: int, t: PeerTick<H>, now_ms: u64) -> (
        ManagerView<S, H>,
        Seq<EgressView>,
    ) {
        if self.asks_idle(i) {
            self.idle_stepped(i, t.path->0, t, now_ms)
        } else {
            (self, Seq::empty())
        }
    }

    /// What the round over the idle peers does for the first `n` peers.
    pub open spec fn idle_upto(self, ts: Seq<PeerTick<H>>, n: nat, now_ms: u64) -> (
        ManagerView<S, H>,
        Seq<EgressView>,
    )
        decreases n,
    {
        if n == 0 {
            (self, Seq::empty())
        } else {
            let (m, out) = self.idle_upto(ts, (n - 1) as nat, now_ms);
            let (k, more) = m.idle_ticked(n - 1, ts[n - 1], now_ms);
            (k, out + more)
        }
    }

    /// Whether two tables differ in peer `i` alone.
    pub open spec fn only_peer(self, other: ManagerView<S, H>, i: int) -> bool {
        other == self.with_peer(i, other.peers[i]) && other.peers.len() == self.peers.len()
    }

    /// The table after cover traffic went to the first `n` peers that it is time for, and
    /// that traffic.
    pub open spec fn covered_upto(self, bodies: Seq<Option<Vec<u8>>>, n: nat, now_ms: u64) -> (
        ManagerView<S, H>,
        Seq<EgressView>,
    )
        decreases n,
    {
        if n == 0 {
            (self, Seq::empty())
        } else {
            let (m, out) = self.covered_upto(bodies, (n - 1) as nat, now_ms);
            if m.cover_due(n - 1, now_ms) {
                (
                    m.with_peer(n - 1, PeerView { last_cover_ms: now_ms, ..m.peers[n - 1] }),
                    out.push(
                        plain(
                            m.peers[n - 1].endpoint->0,
                            seq![self.codes.junk] + bodies[n - 1]->0@,
                        ),
                    ),
                )
            } else {
                (m, out)
            }
        }
    }
}

/// A tick goes forward: the round that it makes next stands after the last one and is to be
/// made, and every round between them is not; where no round is next, no round that is left
/// is to be made.
pub proof fn law_tick_goes_forward<S, H>(
    m: ManagerView<S, H>,
    last: Option<TickRound>,
    now_ms: u64,
)
    ensures
        match m.next_round(last, now_ms) {
            Some(r) => {
                &&& r.rank() > rank_of(last)
                &&& m.round_due(r, now_ms)
                &&& forall|q: TickRound|
                    rank_of(last) < q.rank() < r.rank() ==> !#[trigger] m.round_due(q, now_ms)
            },
            None => forall|q: TickRound|
                q.rank() > rank_of(last) ==> !#[trigger] m.round_due(q, now_ms),
        },
    decreases 5 - rank_of(last),
{
    match following(last) {
        Some(r) => {
            if !m.round_due(r, now_ms) {
                law_tick_goes_forward(m, Some(r), now_ms);
            }
            assert forall|q: TickRound| q.rank() == r.rank() implies q == r by {}
        },
        None => {},
    }
}

/// The round over all peers changes a peer only in its own turn.
pub proof fn lemma_ticked_frame<S, H>(m: ManagerView<S, H>, i: int, t: PeerTick<H>, now_ms: u64)
    requires
        0 <= i < m.peers.len(),
    ensures
        m.only_peer(m.ticked(i, t, now_ms).0, i),
{
    let n = m.ticked(i, t, now_ms).0;
    assert(n.peers =~= m.with_peer(i, n.peers[i]).peers);
    assert(n =~= m.with_peer(i, n.peers[i]));
}

/// The round over the idle peers changes a peer only in its own turn.
pub proof fn lemma_idle_frame<S, H>(m: ManagerView<S, H>, i: int, t: PeerTick<H>, now_ms: u64)
    requires
        0 <= i < m.peers.len(),
    ensures
        m.only_peer(m.idle_ticked(i, t, now_ms).0, i),
{
    let n = m.idle_ticked(i, t, now_ms).0;
    assert(n.peers =~= m.with_peer(i, n.peers[i]).peers);
    assert(n =~= m.with_peer(i, n.peers[i]));
}

impl<R: Rendezvous, S, H> PeerManager<R, S, H> {
    /// The round that a tick makes after `last`, and the first one after none; `None` where
    /// the tick is over. It is asked again after each round.
    pub fn tick_step(&self, last: Option<TickRound>, now_ms: u64) -> (r: Option<TickRound>)
        ensures
            r == self@.next_round(last, now_ms),
        decreases 5 - rank_of(last),
    {
        let next: TickRound = match last {
            None => TickRound::Register,
            Some(TickRound::Register) => TickRound::Peers,
            Some(TickRound::Peers) => TickRound::Idle,
            Some(TickRound::Idle) => TickRound::Gossip,
            Some(TickRound::Gossip) => TickRound::Cover,
            Some(TickRound::Cover) => TickRound::Sweep,
            Some(TickRound::Sweep) => {
                return None;
            },
        };
        let due: bool = match next {
            TickRound::Register => self.registration_due(now_ms).is_some(),
            TickRound::Peers => true,
            TickRound::Idle => self.rendezvous.is_some(),
            TickRound::Gossip => self.roots.is_some(),
            TickRound::Cover => self.obf_key.is_some() && self.cover_traffic_ms.is_some(),
            TickRound::Sweep => self.sweep_due(now_ms),
        };
        if due {
            Some(next)
        } else {
            self.tick_step(Some(next), now_ms)
        }
    }

    /// The handshake that the round over all peers needs drawn for peer `idx`, given the
    /// step of its path where [`PeerManager::may_escalate`] says to ask it.
    pub fn draw_for(&self, idx: usize, path: Option<PathStep>, now_ms: u64) -> (r: Option<DrawFor>)
        requires
            self@.wf(),
            idx < self@.peers.len(),
        ensures
            r == self@.draw_for(idx as int, path, now_ms),
    {
        assert(self@.peers[idx as int] == self.peers@[idx as int]@);
        if self.may_escalate(idx) {
            let probed: Option<SockAddr> = match &self.peers[idx].state {
                PeerState::Handshaking(h) => Some(h.target),
                _ => None,
            };
            match path {
                Some(step) => match step.action {
                    PathAction::Relay => Some(
                        DrawFor::Begin { target: self.server_addr(), via_relay: true },
                    ),
                    PathAction::Probe(addr) => if crate::addr::is_addr(probed, addr) {
                        None
                    } else {
                        Some(DrawFor::Begin { target: addr, via_relay: false })
                    },
                    _ => None,
                },
                None => None,
            }
        } else if self.peers[idx].is_established() {
            match self.rekey_target(idx, now_ms) {
                Some(target) => Some(DrawFor::Rekey { target }),
                None => None,
            }
        } else {
            None
        }
    }

    /// Whether a handshake that is to be drawn takes decoys.
    pub fn takes_decoys(&self, draw: Option<DrawFor>) -> (r: bool)
        ensures
            r == self@.takes_decoys(draw),
    {
        match draw {
            Some(DrawFor::Begin { via_relay, .. }) => self.obf_key.is_some() && !via_relay,
            _ => false,
        }
    }

    /// Does for peer `idx` what its turn in the round over all peers asks for.
    fn tick_peer(&mut self, idx: usize, t: PeerTick<H>, now_ms: u64) -> (out: Vec<EgressDatagram>)
        requires
            old(self)@.wf(),
            idx < old(self)@.peers.len(),
            old(self)@.answers(idx as int, t, now_ms),
        ensures
            final(self)@.wf(),
            (final(self)@, egress_views(out@)) == old(self)@.ticked(idx as int, t, now_ms),
    {
        let ghost m = self@;
        assert(m.peers[idx as int] == self.peers@[idx as int]@);
        if self.may_escalate(idx) {
            let step: PathStep = match t.path {
                Some(s) => s,
                None => {
                    return Vec::new();
                },
            };
            return match self.escalate(idx, step, now_ms) {
                PathMove::Begin { target, via_relay } => {
                    let begun = self.begin_handshake(
                        idx,
                        target,
                        via_relay,
                        now_ms,
                        t.started,
                        t.draw,
                        t.decoys,
                    );
                    or_none(begun)
                },
                PathMove::Ask(d) => {
                    let mut out: Vec<EgressDatagram> = just(d);
                    let mut more = self.tick_handshaking(idx, now_ms, t.draw);
                    let ghost (a, b) = (egress_views(out@), egress_views(more@));
                    out.append(&mut more);
                    assert(egress_views(out@) =~= a + b);
                    out
                },
                PathMove::Nothing => self.tick_handshaking(idx, now_ms, t.draw),
            };
        }
        if self.peers[idx].is_established() {
            if t.retire {
                self.retire_previous(idx);
            }
            proof {
                let p = m.peers[idx as int];
                let e = if t.retire {
                    EpochsView { previous: None, ..p.epochs() }
                } else {
                    p.epochs()
                };
                assert(self@.peers =~= m.with_peer(idx as int, p.with_epochs(e)).peers);
            }
            let mut out = self.drive_rekey_schedule(idx, t.started, now_ms, t.draw);
            let mut more = self.sealed_egress(idx, t.session);
            let ghost (a, b) = (egress_views(out@), egress_views(more@));
            out.append(&mut more);
            assert(egress_views(out@) =~= a + b);
            return out;
        }
        self.tick_handshaking(idx, now_ms, t.draw)
    }

    /// The round over all peers: escalates, rekeys, sends again or gives up, peer by
    /// peer. `inputs` holds an answer for each of them.
    pub fn tick_peers(&mut self, inputs: Vec<PeerTick<H>>, now_ms: u64) -> (out: Vec<
        EgressDatagram,
    >)
        requires
            old(self)@.wf(),
            inputs@.len() == old(self)@.peers.len(),
            forall|i: int|
                0 <= i < inputs@.len() ==> old(self)@.answers(i, #[trigger] inputs@[i], now_ms),
        ensures
            final(self)@.wf(),
            (final(self)@, egress_views(out@)) == old(self)@.ticked_upto(
                inputs@,
                inputs@.len(),
                now_ms,
            ),
    {
        let ghost m = self@;
        let ghost all = inputs@;
        let n: usize = inputs.len();
        let mut rest: Vec<PeerTick<H>> = inputs;
        let mut out: Vec<EgressDatagram> = Vec::new();
        assert(egress_views(out@) =~= Seq::<EgressView>::empty());
        let mut i: usize = 0;
        while i < n
            invariant
                i <= n,
                n == all.len(),
                n == m.peers.len(),
                self@.wf(),
                self@ == (ManagerView { peers: self@.peers, ..m }),
                self@.peers.len() == n,
                forall|j: int| i <= j < n ==> self@.peers[j] == #[trigger] m.peers[j],
                rest@.len() == n - i,
                forall|j: int| 0 <= j < n - i ==> #[trigger] rest@[j] == all[i + j],
                forall|j: int| 0 <= j < n ==> m.answers(j, #[trigger] all[j], now_ms),
                (self@, egress_views(out@)) == m.ticked_upto(all, i as nat, now_ms),
            decreases n - i,
        {
            assert(rest@[0] == all[i as int]);
            let t: PeerTick<H> = rest.remove(0);
            let ghost was = self@;
            proof {
                assert(m.answers(i as int, all[i as int], now_ms));
                assert(was.peers[i as int] == m.peers[i as int]);
                lemma_answers_local(m, was, i as int, t, now_ms);
                lemma_ticked_frame(was, i as int, t, now_ms);
            }
            let mut more = self.tick_peer(i, t, now_ms);
            let ghost (a, b) = (egress_views(out@), egress_views(more@));
            out.append(&mut more);
            assert(egress_views(out@) =~= a + b);
            i = i + 1;
        }
        out
    }

    /// Whether the path of peer `idx` is to be asked in the round over the idle peers.
    pub fn asks_idle(&self, idx: usize) -> (r: bool)
        requires
            idx < self@.peers.len(),
        ensures
            r == self@.asks_idle(idx as int),
    {
        assert(self@.peers[idx as int] == self.peers@[idx as int]@);
        self.rendezvous.is_some() && self.peers[idx].is_idle()
    }

    /// The handshake that the round over the idle peers needs drawn for peer `idx`, given
    /// the step of its path.
    pub fn idle_draw_for(&self, idx: usize, path: Option<PathStep>, now_ms: u64) -> (r: Option<
        DrawFor,
    >)
        requires
            idx < self@.peers.len(),
        ensures
            r == self@.idle_draw_for(idx as int, path, now_ms),
    {
        match path {
            Some(step) => if self.asks_idle(idx) {
                match step.action {
                    PathAction::Probe(addr) => Some(
                        DrawFor::Begin { target: addr, via_relay: false },
                    ),
                    PathAction::Relay => Some(
                        DrawFor::Begin { target: self.server_addr(), via_relay: true },
                    ),
                    _ => None,
                }
            } else {
                None
            },
            None => None,
        }
    }

    /// Does what a step of peer `idx`'s path asks for while the peer is idle. Also for a
    /// packet that made the peer's path be asked ([`crate::peer_manager::routing::TunStep`]).
    pub fn step_idle(&mut self, idx: usize, step: PathStep, t: PeerTick<H>, now_ms: u64) -> (out:
        Vec<EgressDatagram>)
        requires
            old(self)@.wf(),
            idx < old(self)@.peers.len(),
            old(self)@.asks_idle(idx as int),
            old(self)@.takes_decoys(old(self)@.idle_draw_for(idx as int, Some(step), now_ms))
                ==> t.decoys is Some,
        ensures
            final(self)@.wf(),
            (final(self)@, egress_views(out@)) == old(self)@.idle_stepped(
                idx as int,
                step,
                t,
                now_ms,
            ),
    {
        match self.drive_path_idle(idx, step, now_ms) {
            PathMove::Begin { target, via_relay } => {
                let begun = self.begin_handshake(
                    idx,
                    target,
                    via_relay,
                    now_ms,
                    t.started,
                    t.draw,
                    t.decoys,
                );
                or_none(begun)
            },
            PathMove::Ask(d) => just(d),
            PathMove::Nothing => {
                let out: Vec<EgressDatagram> = Vec::new();
                assert(egress_views(out@) =~= Seq::<EgressView>::empty());
                out
            },
        }
    }

    /// The round over the idle peers: takes the steps of their paths. `inputs` holds an
    /// answer for each peer of the table; without a server nothing happens.
    pub fn tick_idle(&mut self, inputs: Vec<PeerTick<H>>, now_ms: u64) -> (out: Vec<EgressDatagram>)
        requires
            old(self)@.wf(),
            inputs@.len() == old(self)@.peers.len(),
            forall|i: int|
                0 <= i < inputs@.len() ==> old(self)@.idle_answers(
                    i,
                    #[trigger] inputs@[i],
                    now_ms,
                ),
        ensures
            final(self)@.wf(),
            (final(self)@, egress_views(out@)) == old(self)@.idle_upto(
                inputs@,
                inputs@.len(),
                now_ms,
            ),
    {
        let ghost m = self@;
        let ghost all = inputs@;
        let n: usize = inputs.len();
        let mut rest: Vec<PeerTick<H>> = inputs;
        let mut out: Vec<EgressDatagram> = Vec::new();
        assert(egress_views(out@) =~= Seq::<EgressView>::empty());
        let mut i: usize = 0;
        while i < n
            invariant
                i <= n,
                n == all.len(),
                n == m.peers.len(),
                self@.wf(),
                self@ == (ManagerView { peers: self@.peers, ..m }),
                self@.peers.len() == n,
                forall|j: int| i <= j < n ==> self@.peers[j] == #[trigger] m.peers[j],
                rest@.len() == n - i,
                forall|j: int| 0 <= j < n - i ==> #[trigger] rest@[j] == all[i + j],
                forall|j: int| 0 <= j < n ==> m.idle_answers(j, #[trigger] all[j], now_ms),
                (self@, egress_views(out@)) == m.idle_upto(all, i as nat, now_ms),
            decreases n - i,
        {
            assert(rest@[0] == all[i as int]);
            let t: PeerTick<H> = rest.remove(0);
            let ghost was = self@;
            proof {
                assert(m.idle_answers(i as int, all[i as int], now_ms));
                assert(was.peers[i as int] == m.peers[i as int]);
                lemma_idle_answers_local(m, was, i as int, t, now_ms);
                lemma_idle_frame(was, i as int, t, now_ms);
            }
            if self.asks_idle(i) {
                let step: PathStep = match t.path {
                    Some(s) => s,
                    None => {
                        return Vec::new();
                    },
                };
                let mut more = self.step_idle(i, step, t, now_ms);
                let ghost (a, b) = (egress_views(out@), egress_views(more@));
                out.append(&mut more);
                assert(egress_views(out@) =~= a + b);
            } else {
                assert(egress_views(out@) =~= egress_views(out@) + Seq::<EgressView>::empty());
            }
            i = i + 1;
        }
        out
    }

    /// Cover traffic for every peer that it is time for. `bodies` holds the body of a
    /// decoy for each peer that [`PeerManager::cover_due`] holds of.
    pub fn tick_covers(&mut self, bodies: &[Option<Vec<u8>>], now_ms: u64) -> (out: Vec<
        EgressDatagram,
    >)
        requires
            old(self)@.wf(),
            bodies@.len() == old(self)@.peers.len(),
            forall|i: int|
                0 <= i < bodies@.len() ==> (old(self)@.cover_due(i, now_ms) ==> (
                #[trigger] bodies@[i] matches Some(b) && junk_sized(b@))),
        ensures
            final(self)@.wf(),
            (final(self)@, egress_views(out@)) == old(self)@.covered_upto(
                bodies@,
                bodies@.len(),
                now_ms,
            ),
    {
        let ghost m = self@;
        let n: usize = bodies.len();
        let mut out: Vec<EgressDatagram> = Vec::new();
        assert(egress_views(out@) =~= Seq::<EgressView>::empty());
        let mut i: usize = 0;
        while i < n
            invariant
                i <= n,
                n == bodies@.len(),
                n == m.peers.len(),
                self@.wf(),
                self@ == (ManagerView { peers: self@.peers, ..m }),
                self@.peers.len() == n,
                forall|j: int| i <= j < n ==> self@.peers[j] == #[trigger] m.peers[j],
                forall|j: int|
                    0 <= j < n ==> (m.cover_due(j, now_ms) ==> (
                    #[trigger] bodies@[j] matches Some(b) && junk_sized(b@))),
                (self@, egress_views(out@)) == m.covered_upto(bodies@, i as nat, now_ms),
            decreases n - i,
        {
            let ghost was = self@;
            assert(was.peers[i as int] == m.peers[i as int]);
            if self.cover_due(i, now_ms) {
                assert(m.cover_due(i as int, now_ms));
                match &bodies[i] {
                    Some(b) => {
                        match self.tick_cover(i, b, now_ms) {
                            Some(d) => {
                                let ghost sent = egress_views(out@);
                                out.push(d);
                                assert(egress_views(out@) =~= sent.push(d@));
                            },
                            None => {},
                        }
                    },
                    None => {},
                }
            }
            i = i + 1;
        }
        out
    }
}

/// What a round needs to know of a peer rests on that peer and on the settings alone.
proof fn lemma_answers_local<S, H>(
    m: ManagerView<S, H>,
    w: ManagerView<S, H>,
    i: int,
    t: PeerTick<H>,
    now_ms: u64,
)
    requires
        0 <= i < m.peers.len(),
        w == (ManagerView { peers: w.peers, ..m }),
        w.peers.len() == m.peers.len(),
        w.peers[i] == m.peers[i],
        m.answers(i, t, now_ms),
    ensures
        w.answers(i, t, now_ms),
{
}

proof fn lemma_idle_answers_local<S, H>(
    m: ManagerView<S, H>,
    w: ManagerView<S, H>,
    i: int,
    t: PeerTick<H>,
    now_ms: u64,
)
    requires
        0 <= i < m.peers.len(),
        w == (ManagerView { peers: w.peers, ..m }),
        w.peers.len() == m.peers.len(),
        w.peers[i] == m.peers[i],
        m.idle_answers(i, t, now_ms),
    ensures
        w.idle_answers(i, t, now_ms),
{
}

/// The datagrams that are there, or none.
fn or_none(d: Option<Vec<EgressDatagram>>) -> (out: Vec<EgressDatagram>)
    ensures
        egress_views(out@) == if_some(
            match d {
                Some(v) => Some(egress_views(v@)),
                None => None,
            },
        ),
{
    match d {
        Some(v) => v,
        None => {
            let out: Vec<EgressDatagram> = Vec::new();
            assert(egress_views(out@) =~= Seq::<EgressView>::empty());
            out
        },
    }
}

/// The datagram that is there, or none.
fn just(d: Option<EgressDatagram>) -> (out: Vec<EgressDatagram>)
    ensures
        egress_views(out@) == if_any(
            match d {
                Some(x) => Some(x@),
                None => None,
            },
        ),
{
    let mut out: Vec<EgressDatagram> = Vec::new();
    assert(egress_views(out@) =~= Seq::<EgressView>::empty());
    match d {
        Some(x) => {
            out.push(x);
            assert(egress_views(out@) =~= seq![x@]);
        },
        None => {},
    }
    out
}

} // verus!
