//! Which peer a packet belongs to, and what is done with it there.

use vstd::prelude::*;

use crate::addr::SockAddr;
use crate::epoch::{EpochSlot, TunnelMode};
use crate::peer::{Identity, PathAction, PathStep, PeerView, StateView};
use crate::peer_manager::egress::{finish_dispatch, sealed_views, DispatchOut, Sealed};
use crate::peer_manager::route_laws::{law_every_session_is_tried, names_the_live};
use crate::peer_manager::{lemma_with_peer_wf, ManagerView, PeerManager, Pick, LOOKUP_INTERVAL_MS};
use crate::rendezvous::Rendezvous;
use crate::wire::{ipv6_dst, ipv6_dst_spec, tag_hint, tag_hint_spec, EgressDatagram, EgressView};

verus! {

broadcast use vstd::std_specs::hash::group_hash_axioms;

/// A datagram that one of a session's epochs opened: the packet in it for the TUN
/// device, and what the transport answers.
#[derive(Debug)]
pub struct Opened {
    pub slot: EpochSlot,
    pub tun: Option<Vec<u8>>,
    pub send: Vec<Sealed>,
}

/// Where a data datagram goes.
#[derive(Debug)]
pub enum DataRoute {
    /// To one peer's session.
    To(usize),
    /// To every session in turn, until one opens it.
    Try(Vec<usize>),
}

impl DataRoute {
    /// The sessions that the datagram is tried in, in their order.
    pub open spec fn order(self) -> Seq<usize> {
        match self {
            DataRoute::To(i) => seq![i],
            DataRoute::Try(v) => v@,
        }
    }
}

/// What to do with a data datagram that is tried in one session after the other.
#[derive(Clone, Copy, Debug, PartialEq, Eq, Structural)]
pub enum DataStep {
    /// Try to open it in the peer's session.
    Try(usize),
    /// It opened in the peer's session.
    Deliver(usize),
    /// It opened in none.
    Drop,
}

/// What to do with a data datagram after the sessions of `order` up to the length of
/// `opened` were tried, from session `k` on: the first one that opened it has it.
pub open spec fn data_tried(order: Seq<usize>, opened: Seq<bool>, k: int) -> DataStep
    decreases order.len() - k,
{
    if k < 0 || k >= order.len() {
        DataStep::Drop
    } else if k >= opened.len() {
        DataStep::Try(order[k])
    } else if opened[k] {
        DataStep::Deliver(order[k])
    } else {
        data_tried(order, opened, k + 1)
    }
}

/// What to do with a data datagram that goes to every session of `order` in turn
/// ([`DataRoute::Try`]); `opened` says of those that were tried whether they opened it.
pub fn data_step(order: &[usize], opened: &[bool]) -> (r: DataStep)
    ensures
        r == data_tried(order@, opened@, 0),
{
    let mut k: usize = 0;
    while k < order.len() && k < opened.len()
        invariant
            k <= order@.len(),
            k <= opened@.len(),
            data_tried(order@, opened@, 0) == data_tried(order@, opened@, k as int),
        decreases order@.len() - k,
    {
        if opened[k] {
            return DataStep::Deliver(order[k]);
        }
        k = k + 1;
    }
    if k < order.len() {
        DataStep::Try(order[k])
    } else {
        DataStep::Drop
    }
}

/// The first session that opens a datagram has it, and none after it is tried; a datagram
/// that opens in none is dropped once all were tried.
pub proof fn law_first_session_has_it(order: Seq<usize>, opened: Seq<bool>, i: int)
    requires
        0 <= i <= opened.len() <= order.len(),
        forall|j: int| 0 <= j < i ==> !#[trigger] opened[j],
    ensures
        i < opened.len() && opened[i] ==> data_tried(order, opened, 0) == DataStep::Deliver(
            order[i],
        ),
        i == opened.len() && i < order.len() ==> data_tried(order, opened, 0) == DataStep::Try(
            order[i],
        ),
        i == opened.len() && i == order.len() ==> data_tried(order, opened, 0) == DataStep::Drop,
{
    lemma_tried_from(order, opened, 0, i);
}

proof fn lemma_tried_from(order: Seq<usize>, opened: Seq<bool>, k: int, i: int)
    requires
        0 <= k <= i <= opened.len() <= order.len(),
        forall|j: int| 0 <= j < i ==> !#[trigger] opened[j],
    ensures
        data_tried(order, opened, k) == data_tried(order, opened, i),
    decreases i - k,
{
    if k < i {
        assert(!opened[k]);
        lemma_tried_from(order, opened, k + 1, i);
    }
}

/// A member that the directory knows: who it is, and where it may be.
#[derive(Debug)]
pub struct Member {
    pub id: Identity,
    pub endpoints: Vec<SockAddr>,
}

/// What becomes of a packet from the TUN device.
#[derive(Clone, Copy, Debug, PartialEq, Eq, Structural)]
pub enum TunStep {
    /// It goes nowhere.
    Drop,
    /// It is sealed under the peer's session.
    Seal(usize),
    /// It waits for the handshake that is under way.
    Queued,
    /// It waits, and a handshake with the peer begins toward the address.
    Probe(usize, SockAddr),
    /// It waits, and the peer's path is asked what to do
    /// (see [`PeerManager::drive_path_idle`]).
    AskPath(usize),
}

/// What a step of a peer's path comes to.
#[derive(Debug)]
pub enum PathMove {
    /// Begin a handshake toward the address, or through the relay.
    Begin { target: SockAddr, via_relay: bool },
    /// Send a question to the server, unless one was sent just now.
    Ask(Option<EgressDatagram>),
    Nothing,
}

/// What a [`PathMove`] says.
#[verifier::ext_equal]
pub enum PathMoveView {
    Begin { target: SockAddr, via_relay: bool },
    Ask(Option<EgressView>),
    Nothing,
}

impl View for PathMove {
    type V = PathMoveView;

    open spec fn view(&self) -> PathMoveView {
        match *self {
            PathMove::Begin { target, via_relay } => PathMoveView::Begin { target, via_relay },
            PathMove::Ask(d) => PathMoveView::Ask(
                match d {
                    Some(d) => Some(d@),
                    None => None,
                },
            ),
            PathMove::Nothing => PathMoveView::Nothing,
        }
    }
}

impl<S, H> ManagerView<S, H> {
    /// The only peer, if there is just one.
    pub open spec fn sole_peer(self) -> Option<int> {
        if self.peers.len() == 1 {
            Some(0)
        } else {
            None
        }
    }

    /// The peer that a packet from the TUN device belongs to. Frames go to the only peer.
    /// IP packets go to the peer with their destination; where no peer has it, to the
    /// only peer, except in a mesh, where the directory may know the destination.
    /// Packets without an IPv6 destination go to the only peer.
    pub open spec fn tun_route(self, inner: Seq<u8>) -> Option<int> {
        match (self.mode, ipv6_dst_spec(inner)) {
            (TunnelMode::L2Tap, _) => self.sole_peer(),
            (TunnelMode::L3Tun, Some(dst)) => if self.by_addr.contains_key(dst) {
                Some(self.by_addr[dst] as int)
            } else if self.roots is None {
                self.sole_peer()
            } else {
                None
            },
            (TunnelMode::L3Tun, None) => self.sole_peer(),
        }
    }

    /// The destination to look up in the directory for a packet that belongs to no peer.
    pub open spec fn to_resolve(self, inner: Seq<u8>) -> Option<u128> {
        if self.tun_route(inner) is None && self.roots is Some {
            ipv6_dst_spec(inner)
        } else {
            None
        }
    }

    /// The table with the member in it that the directory gave for a packet.
    pub open spec fn with_resolved(self, inner: Seq<u8>, resolved: Option<Member>) -> ManagerView<
        S,
        H,
    > {
        match (self.to_resolve(inner), resolved) {
            (Some(_), Some(m)) => self.admitted(m.id, m.endpoints@),
            _ => self,
        }
    }

    /// What becomes of a packet that belongs to peer `i`.
    pub open spec fn tun_to(self, i: int, inner: Seq<u8>, now_ms: u64) -> (
        ManagerView<S, H>,
        TunStep,
    ) {
        let p = self.peers[i];
        let kept = self.with_peer(
            i,
            PeerView { pending_tun: crate::peer::queued(p.pending_tun, inner), ..p },
        );
        match p.state {
            StateView::Established(_) => (
                self.with_peer(i, PeerView { last_activity_ms: now_ms, ..p }),
                TunStep::Seal(i as usize),
            ),
            StateView::Handshaking(_) => (kept, TunStep::Queued),
            StateView::Idle => (
                kept,
                if self.rendezvous is Some {
                    TunStep::AskPath(i as usize)
                } else {
                    match p.endpoint {
                        Some(ep) => TunStep::Probe(i as usize, ep),
                        None => TunStep::Queued,
                    }
                },
            ),
        }
    }

    /// What becomes of a packet from the TUN device.
    pub open spec fn on_tun(
        self,
        inner: Seq<u8>,
        resolved: Option<Member>,
        now_ms: u64,
    ) -> (ManagerView<S, H>, TunStep) {
        let m = self.with_resolved(inner, resolved);
        match m.tun_route(inner) {
            Some(i) => m.tun_to(i, inner, now_ms),
            None => (m, TunStep::Drop),
        }
    }

    /// The session that a data datagram from `src` is for: by the tag in it, if a session
    /// has that tag, else by where it came from.
    pub open spec fn data_route(self, src: SockAddr, dg: Seq<u8>) -> Option<int> {
        match tag_hint_spec(dg) {
            Some(t) if self.by_tag.contains_key(t) && self.peers[self.by_tag[t] as int].state
                is Established => Some(self.by_tag[t] as int),
            _ => self.find_at(Pick::Live, src),
        }
    }

    /// The sessions that a data datagram from `src` is tried in.
    pub open spec fn tried_in(self, src: SockAddr, dg: Seq<u8>) -> Seq<usize> {
        match self.data_route(src, dg) {
            Some(i) => seq![i as usize],
            None => self.live(self.peers.len()),
        }
    }

    /// The table after a data or control datagram from `src` was routed: a peer that data
    /// came for is active.
    pub open spec fn heard(self, src: SockAddr, dg: Seq<u8>, now_ms: u64) -> ManagerView<S, H> {
        match self.data_route(src, dg) {
            Some(i) if dg[0] == self.codes.data => self.with_peer(
                i,
                PeerView { last_activity_ms: now_ms, ..self.peers[i] },
            ),
            _ => self,
        }
    }

    /// The places of the peers with a session among the first `n`.
    pub open spec fn live(self, n: nat) -> Seq<usize>
        decreases n,
    {
        if n == 0 {
            Seq::empty()
        } else if self.peers[n - 1].state is Established {
            self.live((n - 1) as nat).push((n - 1) as usize)
        } else {
            self.live((n - 1) as nat)
        }
    }

    /// The table after a datagram from `src` opened in peer `i`'s session.
    pub open spec fn after_open(
        self,
        i: int,
        slot: EpochSlot,
        src: Option<SockAddr>,
        now_ms: u64,
    ) -> ManagerView<S, H> {
        let p = self.peers[i];
        let q = p.with_epochs(p.epochs().after_open(slot, now_ms));
        self.with_peer(
            i,
            match src {
                Some(a) => q.seen_at(a),
                None => q,
            },
        )
    }

    /// What a datagram comes to that was tried in peer `i`'s session and came from `src`, or
    /// through the relay: the table after it, the packet for the TUN device, and what is
    /// sent. Nothing, where it did not open or there is no session.
    pub open spec fn delivered(
        self,
        i: int,
        src: Option<SockAddr>,
        opened: Option<Opened>,
        now_ms: u64,
    ) -> (ManagerView<S, H>, Option<Seq<u8>>, Seq<EgressView>) {
        match opened {
            Some(o) if self.peers[i].state is Established => (
                self.after_open(i, o.slot, src, now_ms),
                match o.tun {
                    Some(t) => Some(t@),
                    None => None,
                },
                self.carried(i, sealed_views(o.send@), src is None),
            ),
            _ => (self, None, Seq::empty()),
        }
    }

    /// The question to the server where peer `i` is, unless one was asked within the
    /// interval or there is no server.
    pub open spec fn looked_up(self, i: int, now_ms: u64) -> (
        ManagerView<S, H>,
        Option<EgressView>,
    ) {
        let p = self.peers[i];
        let due = match p.last_lookup_ms {
            None => true,
            Some(t) => crate::epoch::elapsed(now_ms, t) >= LOOKUP_INTERVAL_MS,
        };
        match self.rendezvous {
            Some(r) if due => (
                self.with_peer(i, PeerView { last_lookup_ms: Some(now_ms), ..p }),
                Some(r.lookup(p.id.node)),
            ),
            _ => (self, None),
        }
    }

    /// What a step of peer `i`'s path comes to while the peer is idle.
    pub open spec fn path_idle(self, i: int, step: PathStep, now_ms: u64) -> (
        ManagerView<S, H>,
        PathMoveView,
    ) {
        let m = self.with_peer(i, PeerView { stage: step.stage, ..self.peers[i] });
        match step.action {
            PathAction::Probe(addr) => (m, PathMoveView::Begin { target: addr, via_relay: false }),
            PathAction::Relay => (
                m,
                PathMoveView::Begin { target: self.server(), via_relay: true },
            ),
            PathAction::NeedLookup => {
                let (n, d) = m.looked_up(i, now_ms);
                (n, PathMoveView::Ask(d))
            },
            PathAction::Idle | PathAction::Failed => (m, PathMoveView::Nothing),
        }
    }
}

impl<R: Rendezvous, S, H> PeerManager<R, S, H> {
    /// The peer that a packet from the TUN device belongs to.
    pub fn route_tun_index(&self, inner: &[u8]) -> (r: Option<usize>)
        requires
            self@.wf(),
        ensures
            match r {
                Some(i) => self@.tun_route(inner@) == Some(i as int) && i < self@.peers.len(),
                None => self@.tun_route(inner@) is None,
            },
    {
        let sole: Option<usize> = if self.peers.len() == 1 {
            Some(0)
        } else {
            None
        };
        match self.mode {
            TunnelMode::L2Tap => sole,
            TunnelMode::L3Tun => match ipv6_dst(inner) {
                Some(dst) => {
                    if let Some(i) = self.by_addr.get(&dst) {
                        return Some(*i);
                    }
                    if self.roots.is_none() {
                        sole
                    } else {
                        None
                    }
                },
                None => sole,
            },
        }
    }

    /// The destination to look up in the directory for a packet that belongs to no peer:
    /// only in a mesh.
    pub fn tun_to_resolve(&self, inner: &[u8]) -> (r: Option<u128>)
        requires
            self@.wf(),
        ensures
            r == self@.to_resolve(inner@),
    {
        if self.route_tun_index(inner).is_none() && self.roots.is_some() {
            ipv6_dst(inner)
        } else {
            None
        }
    }

    /// Takes a packet from the TUN device. `resolved` is what the directory gave where
    /// [`PeerManager::tun_to_resolve`] asked for a destination; the member is admitted
    /// and the packet routed again.
    pub fn on_tun_dispatch(
        &mut self,
        inner: &[u8],
        resolved: Option<Member>,
        now_ms: u64,
    ) -> (r: TunStep)
        requires
            old(self)@.wf(),
            old(self)@.with_resolved(inner@, resolved).peers.len() <= usize::MAX,
        ensures
            final(self)@.wf(),
            (final(self)@, r) == old(self)@.on_tun(inner@, resolved, now_ms),
    {
        if self.tun_to_resolve(inner).is_some() {
            if let Some(m) = &resolved {
                self.admit_member(m.id, &m.endpoints);
            }
        }
        let ghost m = self@;
        assert(m == old(self)@.with_resolved(inner@, resolved));
        let idx: usize = match self.route_tun_index(inner) {
            Some(i) => i,
            None => {
                return TunStep::Drop;
            },
        };
        proof {
            assert(m.peers[idx as int] == self.peers@[idx as int]@);
            assert(m.peer_wf(m.peers[idx as int]));
        }
        let established: bool = self.peers[idx].is_established();
        let idle: bool = self.peers[idx].is_idle();
        let endpoint: Option<SockAddr> = self.peers[idx].endpoint;
        if established {
            self.peers[idx].last_activity_ms = now_ms;
        } else {
            self.peers[idx].push_pending(inner);
        }
        proof {
            let p = self.peers@[idx as int]@;
            lemma_with_peer_wf(m, idx as int, p);
            assert(self@ =~= m.with_peer(idx as int, p));
        }
        if established {
            TunStep::Seal(idx)
        } else if !idle {
            TunStep::Queued
        } else if self.rendezvous.is_some() {
            TunStep::AskPath(idx)
        } else {
            match endpoint {
                Some(ep) => TunStep::Probe(idx, ep),
                None => TunStep::Queued,
            }
        }
    }

    /// The session that a data datagram from `src` is for.
    pub fn route_data(&self, src: SockAddr, dg: &[u8]) -> (r: Option<usize>)
        requires
            self@.wf(),
        ensures
            match r {
                Some(i) => self@.data_route(src, dg@) == Some(i as int) && i < self@.peers.len(),
                None => self@.data_route(src, dg@) is None,
            },
    {
        if let Some(tag) = tag_hint(dg) {
            if let Some(i) = self.by_tag.get(&tag) {
                assert(self@.peers[*i as int] == self.peers@[*i as int]@);
                if self.peers[*i].is_established() {
                    return Some(*i);
                }
            }
        }
        self.find_at(Pick::Live, src)
    }

    /// Takes a data or control datagram from `src`: says whose session it is for, and
    /// notes that a peer is active that data came for.
    pub fn handle_data_or_control(&mut self, src: SockAddr, dg: &[u8], now_ms: u64) -> (r:
        DataRoute)
        requires
            old(self)@.wf(),
            dg@.len() > 0,
        ensures
            final(self)@.wf(),
            final(self)@ == old(self)@.heard(src, dg@, now_ms),
            r.order() == old(self)@.tried_in(src, dg@),
            match old(self)@.data_route(src, dg@) {
                Some(i) => {
                    &&& r == DataRoute::To(i as usize)
                    &&& final(self)@ == if dg@[0] == old(self)@.codes.data {
                        old(self)@.with_peer(
                            i,
                            PeerView { last_activity_ms: now_ms, ..old(self)@.peers[i] },
                        )
                    } else {
                        old(self)@
                    }
                },
                None => {
                    &&& r matches DataRoute::Try(v) && v@ == old(self)@.live(
                        old(self)@.peers.len(),
                    ) && names_the_live(old(self)@, v@)
                    &&& final(self)@ == old(self)@
                },
            },
    {
        match self.route_data(src, dg) {
            Some(idx) => {
                if dg[0] == self.codes.data {
                    proof {
                        assert(self@.peers[idx as int] == self.peers@[idx as int]@);
                        assert(self@.peer_wf(self@.peers[idx as int]));
                    }
                    self.peers[idx].last_activity_ms = now_ms;
                    proof {
                        let p = self.peers@[idx as int]@;
                        lemma_with_peer_wf(old(self)@, idx as int, p);
                        assert(self@ =~= old(self)@.with_peer(idx as int, p));
                    }
                }
                DataRoute::To(idx)
            },
            None => {
                let mut v: Vec<usize> = Vec::new();
                let mut i: usize = 0;
                while i < self.peers.len()
                    invariant
                        i <= self.peers@.len(),
                        v@ == self@.live(i as nat),
                    decreases self.peers@.len() - i,
                {
                    assert(self@.peers[i as int] == self.peers@[i as int]@);
                    if self.peers[i].is_established() {
                        v.push(i);
                    }
                    i = i + 1;
                }
                proof {
                    law_every_session_is_tried(self@);
                }
                DataRoute::Try(v)
            },
        }
    }

    /// Takes what a datagram from `src` opened to in peer `idx`'s session; `None` for one
    /// that did not open. Only one that opened moves the peer to `src`.
    pub fn dispatch_established(
        &mut self,
        idx: usize,
        src: SockAddr,
        opened: Option<Opened>,
        now_ms: u64,
    ) -> (out: DispatchOut)
        requires
            old(self)@.wf(),
            idx < old(self)@.peers.len(),
        ensures
            final(self)@.wf(),
            out.tight(),
            (final(self)@, out.tun(), out.udp()) == old(self)@.delivered(
                idx as int,
                Some(src),
                opened,
                now_ms,
            ),
            opened is None || old(self)@.peers[idx as int].state !is Established
                ==> out is Nothing && final(self)@ == old(self)@,
    {
        proof {
            assert(self@.peers[idx as int] == self.peers@[idx as int]@);
            assert(self@.peer_wf(self@.peers[idx as int]));
        }
        if !self.peers[idx].is_established() {
            return DispatchOut::Nothing;
        }
        match opened {
            None => DispatchOut::Nothing,
            Some(o) => {
                let udp = self.carry(idx, o.send, false);
                self.peers[idx].opened_under(o.slot, now_ms);
                self.peers[idx].relearn_endpoint(src);
                proof {
                    let p = self.peers@[idx as int]@;
                    lemma_with_peer_wf(old(self)@, idx as int, p);
                    assert(self@ =~= old(self)@.with_peer(idx as int, p));
                }
                finish_dispatch(o.tun, udp)
            },
        }
    }

    /// The question to the server where peer `idx` is, at most once per interval.
    pub fn maybe_lookup(&mut self, idx: usize, now_ms: u64) -> (r: Option<EgressDatagram>)
        requires
            old(self)@.wf(),
            idx < old(self)@.peers.len(),
        ensures
            final(self)@.wf(),
            ({
                let (m, d) = old(self)@.looked_up(idx as int, now_ms);
                &&& final(self)@ == m
                &&& d == (match r {
                    Some(d) => Some(d@),
                    None => None,
                })
            }),
    {
        proof {
            assert(self@.peers[idx as int] == self.peers@[idx as int]@);
            assert(self@.peer_wf(self@.peers[idx as int]));
        }
        let due: bool = match self.peers[idx].last_lookup_ms {
            None => true,
            Some(t) => now_ms.saturating_sub(t) >= LOOKUP_INTERVAL_MS,
        };
        if !due {
            return None;
        }
        let node: u128 = self.peers[idx].id.node;
        let d: EgressDatagram = match &mut self.rendezvous {
            Some(r) => r.lookup(node),
            None => {
                return None;
            },
        };
        self.peers[idx].last_lookup_ms = Some(now_ms);
        proof {
            let p = self.peers@[idx as int]@;
            lemma_with_peer_wf(old(self)@, idx as int, p);
            assert(self@ =~= old(self)@.with_peer(idx as int, p));
        }
        Some(d)
    }

    /// Takes a step of peer `idx`'s path while the peer is idle.
    pub fn drive_path_idle(&mut self, idx: usize, step: PathStep, now_ms: u64) -> (r: PathMove)
        requires
            old(self)@.wf(),
            idx < old(self)@.peers.len(),
        ensures
            final(self)@.wf(),
            (final(self)@, r@) == old(self)@.path_idle(idx as int, step, now_ms),
    {
        self.set_stage(idx, step.stage);
        match step.action {
            PathAction::Probe(addr) => PathMove::Begin { target: addr, via_relay: false },
            PathAction::Relay => PathMove::Begin { target: self.server_addr(), via_relay: true },
            PathAction::NeedLookup => PathMove::Ask(self.maybe_lookup(idx, now_ms)),
            PathAction::Idle | PathAction::Failed => PathMove::Nothing,
        }
    }

    /// Notes the stage that peer `idx`'s path is in.
    pub fn set_stage(&mut self, idx: usize, stage: crate::peer::PathStage)
        requires
            old(self)@.wf(),
            idx < old(self)@.peers.len(),
        ensures
            final(self)@.wf(),
            final(self)@ == old(self)@.with_peer(
                idx as int,
                PeerView { stage, ..old(self)@.peers[idx as int] },
            ),
    {
        proof {
            assert(self@.peers[idx as int] == self.peers@[idx as int]@);
            assert(self@.peer_wf(self@.peers[idx as int]));
        }
        self.peers[idx].stage = stage;
        proof {
            let p = self.peers@[idx as int]@;
            lemma_with_peer_wf(old(self)@, idx as int, p);
            assert(self@ =~= old(self)@.with_peer(idx as int, p));
        }
    }
}

} // verus!
