//! Mesh gossip: whom it is sent to, and whose is listened to.

use vstd::prelude::*;

use crate::addr::SockAddr;
use crate::order::contents;
use crate::peer_manager::{lemma_first_where_finds, picked, ManagerView, PeerManager, Pick, Root};
use crate::rendezvous::Rendezvous;
use crate::wire::{
    egress_views, plain, plain_datagram, reassemble, EgressDatagram, EgressView,
};

verus! {

broadcast use vstd::std_specs::hash::group_hash_axioms;

/// The most partners that one digest is sent to.
pub const MAX_GOSSIP_TARGETS: usize = 4;

/// The most answers to one gossip datagram.
pub const MAX_GOSSIP_REPLIES: usize = 8;

/// A gossip partner: its address, or the peer to reach through the relay.
pub type GossipTarget = (SockAddr, Option<usize>);

impl<S, H> ManagerView<S, H> {
    /// How peer `i` is reached for gossip: not at all without a session.
    pub open spec fn gossip_target(self, i: int) -> Option<GossipTarget> {
        let p = self.peers[i];
        if p.state !is Established {
            None
        } else if p.relay {
            Some((self.server(), Some(i as usize)))
        } else {
            match p.endpoint {
                Some(ep) => Some((ep, None)),
                None => None,
            }
        }
    }

    /// The partners among the first `n` peers, as far as there is room.
    pub open spec fn peer_targets(self, n: nat) -> Seq<GossipTarget>
        decreases n,
    {
        if n == 0 {
            Seq::empty()
        } else {
            let t = self.peer_targets((n - 1) as nat);
            match self.gossip_target(n - 1) {
                Some(x) if t.len() < MAX_GOSSIP_TARGETS => t.push(x),
                _ => t,
            }
        }
    }

    /// The first `n` roots after the partners `base`, as far as there is room.
    pub open spec fn root_targets(base: Seq<GossipTarget>, roots: Seq<Root>, n: nat) -> Seq<
        GossipTarget,
    >
        decreases n,
    {
        if n == 0 {
            base
        } else {
            let t = Self::root_targets(base, roots, (n - 1) as nat);
            if t.len() < MAX_GOSSIP_TARGETS {
                t.push((roots[n - 1].addr, None))
            } else {
                t
            }
        }
    }

    /// The partners of a digest: peers with a session first, then roots.
    pub open spec fn gossip_targets(self) -> Seq<GossipTarget> {
        let base = self.peer_targets(self.peers.len());
        match self.roots {
            Some(roots) => Self::root_targets(base, roots, roots.len()),
            None => base,
        }
    }

    /// A gossip datagram to the first `n` of `targets`.
    pub open spec fn to_targets(self, targets: Seq<GossipTarget>, bytes: Seq<u8>, n: nat) -> Seq<
        EgressView,
    >
        decreases n,
    {
        if n == 0 {
            Seq::empty()
        } else {
            self.to_targets(targets, bytes, (n - 1) as nat) + match targets[n - 1].1 {
                Some(i) => self.wrapped(i as int, bytes),
                None => seq![plain(targets[n - 1].0, bytes)],
            }
        }
    }

    /// The datagrams that carry one encoded digest to its partners.
    pub open spec fn digest_out(self, digest: Seq<u8>) -> Seq<EgressView> {
        self.to_targets(
            self.gossip_targets(),
            seq![self.codes.gossip] + digest,
            self.gossip_targets().len(),
        )
    }

    /// The first `n` answers to a gossip datagram from peer `i` at `src`.
    pub open spec fn gossip_answers(self, i: int, src: SockAddr, msgs: Seq<Seq<u8>>, n: nat) -> Seq<
        EgressView,
    >
        decreases n,
    {
        if n == 0 {
            Seq::empty()
        } else {
            self.gossip_answers(i, src, msgs, (n - 1) as nat) + self.emitted(
                i,
                src,
                seq![self.codes.gossip] + msgs[n - 1],
                self.peers[i].relay,
            )
        }
    }

    /// All the answers to a gossip datagram that are allowed.
    pub open spec fn answered_gossip(self, i: int, src: SockAddr, msgs: Seq<Seq<u8>>) -> Seq<
        EgressView,
    > {
        self.gossip_answers(
            i,
            src,
            msgs,
            if msgs.len() < MAX_GOSSIP_REPLIES {
                msgs.len()
            } else {
                MAX_GOSSIP_REPLIES as nat
            },
        )
    }

    /// The peer whose gossip a datagram from `src` is, if it is to be listened to.
    pub open spec fn gossip_from(self, src: SockAddr) -> Option<int> {
        if self.roots is None {
            None
        } else {
            self.find_at(Pick::Live, src)
        }
    }

    /// Whether any peer has a session.
    pub open spec fn any_live(self) -> bool {
        exists|i: int| 0 <= i < self.peers.len() && (#[trigger] self.peers[i]).state is Established
    }

    /// The first of the roots from `k` on that an idle peer is at, with that peer.
    pub open spec fn idle_root(self, roots: Seq<Root>, k: int) -> Option<(int, SockAddr)>
        decreases roots.len() - k,
    {
        if k < 0 || k >= roots.len() {
            None
        } else {
            match self.find_at(Pick::Idle, roots[k].addr) {
                Some(i) => Some((i, roots[k].addr)),
                None => self.idle_root(roots, k + 1),
            }
        }
    }

    /// The root to begin a handshake with so that gossip can start: only in a mesh, and
    /// only while there is no session at all.
    pub open spec fn bootstrap(self) -> Option<(int, SockAddr)> {
        match self.roots {
            Some(roots) if !self.any_live() => self.idle_root(roots, 0),
            _ => None,
        }
    }
}

impl<R: Rendezvous, S, H> PeerManager<R, S, H> {
    /// The peer whose gossip a datagram from `src` is, if it is to be listened to: only in
    /// a mesh, and only from where a peer with a session is.
    pub fn on_gossip(&self, src: SockAddr) -> (r: Option<usize>)
        ensures
            match r {
                Some(i) => {
                    &&& self@.roots is Some
                    &&& self@.find_at(Pick::Live, src) == Some(i as int)
                    &&& i < self@.peers.len()
                    &&& self@.peers[i as int].state is Established
                },
                None => self@.roots is None || self@.find_at(Pick::Live, src) is None,
            },
            self@.gossip_from(src) == (match r {
                Some(i) => Some(i as int),
                None => None,
            }),
    {
        if self.roots.is_none() {
            return None;
        }
        proof {
            lemma_first_where_finds(self@.peers, picked::<S, H>(Pick::Live, src), 0);
        }
        self.find_at(Pick::Live, src)
    }

    /// The answers to a gossip datagram from peer `idx` at `src`, at most as many as are
    /// allowed; `replies` are their encodings.
    pub fn gossip_replies(&mut self, idx: usize, src: SockAddr, replies: &Vec<Vec<u8>>) -> (out:
        Vec<EgressDatagram>)
        requires
            old(self)@.wf(),
            idx < old(self)@.peers.len(),
        ensures
            final(self)@ == old(self)@,
            egress_views(out@) == old(self)@.answered_gossip(
                idx as int,
                src,
                contents(replies@),
            ),
            out@.len() <= MAX_GOSSIP_REPLIES,
    {
        let relay: bool = self.peers[idx].relay;
        let n: usize = if replies.len() < MAX_GOSSIP_REPLIES {
            replies.len()
        } else {
            MAX_GOSSIP_REPLIES
        };
        let mut out: Vec<EgressDatagram> = Vec::new();
        assert(egress_views(out@) =~= Seq::<EgressView>::empty());
        let mut k: usize = 0;
        while k < n
            invariant
                self@ == old(self)@,
                self@.wf(),
                idx < self@.peers.len(),
                relay == self@.peers[idx as int].relay,
                k <= n,
                n <= replies@.len(),
                n <= MAX_GOSSIP_REPLIES,
                egress_views(out@) == self@.gossip_answers(
                    idx as int,
                    src,
                    contents(replies@),
                    k as nat,
                ),
                out@.len() <= k,
            decreases n - k,
        {
            let bytes: Vec<u8> = reassemble(self.codes.gossip, &replies[k]);
            let ghost sent = out@;
            let mut one: Vec<EgressDatagram> = self.emit(idx, src, bytes, relay);
            assert(egress_views(one@).len() == one@.len());
            out.append(&mut one);
            assert(egress_views(out@) =~= egress_views(sent) + self@.emitted(
                idx as int,
                src,
                bytes@,
                relay,
            ));
            k = k + 1;
        }
        out
    }

    /// The partners of a digest.
    pub fn gossip_targets(&self) -> (out: Vec<GossipTarget>)
        requires
            self@.wf(),
        ensures
            out@ == self@.gossip_targets(),
            out@.len() <= MAX_GOSSIP_TARGETS,
            forall|k: int|
                0 <= k < out@.len() ==> ((#[trigger] out@[k]).1 matches Some(i) ==> i
                    < self@.peers.len()),
    {
        let mut out: Vec<GossipTarget> = Vec::new();
        let mut i: usize = 0;
        while i < self.peers.len()
            invariant
                i <= self.peers@.len(),
                out@ == self@.peer_targets(i as nat),
                out@.len() <= MAX_GOSSIP_TARGETS,
                forall|k: int|
                    0 <= k < out@.len() ==> ((#[trigger] out@[k]).1 matches Some(j) ==> j < i),
            decreases self.peers@.len() - i,
        {
            let p = &self.peers[i];
            assert(self@.peers[i as int] == p@);
            if out.len() < MAX_GOSSIP_TARGETS && p.is_established() {
                if p.relay {
                    out.push((self.server_addr(), Some(i)));
                } else if let Some(ep) = p.endpoint {
                    out.push((ep, None));
                }
            }
            i = i + 1;
        }
        match &self.roots {
            Some(roots) => {
                let ghost base = out@;
                let mut k: usize = 0;
                while k < roots.len()
                    invariant
                        k <= roots@.len(),
                        out@ == ManagerView::<S, H>::root_targets(base, roots@, k as nat),
                        out@.len() <= MAX_GOSSIP_TARGETS,
                        forall|j: int|
                            0 <= j < out@.len() ==> ((#[trigger] out@[j]).1 matches Some(i) ==> i
                                < self@.peers.len()),
                    decreases roots@.len() - k,
                {
                    if out.len() < MAX_GOSSIP_TARGETS {
                        out.push((roots[k].addr, None));
                    }
                    k = k + 1;
                }
            },
            None => {},
        }
        out
    }

    /// The datagrams that carry one encoded digest to its partners.
    pub fn tick_gossip(&mut self, digest: &[u8]) -> (out: Vec<EgressDatagram>)
        requires
            old(self)@.wf(),
        ensures
            final(self)@ == old(self)@,
            egress_views(out@) == old(self)@.digest_out(digest@),
    {
        let bytes: Vec<u8> = reassemble(self.codes.gossip, digest);
        let targets: Vec<GossipTarget> = self.gossip_targets();
        let n: usize = targets.len();
        let mut out: Vec<EgressDatagram> = Vec::new();
        assert(egress_views(out@) =~= Seq::<EgressView>::empty());
        let mut k: usize = 0;
        while k < n
            invariant
                self@ == old(self)@,
                self@.wf(),
                k <= n,
                n == targets@.len(),
                forall|j: int|
                    0 <= j < n ==> ((#[trigger] targets@[j]).1 matches Some(i) ==> i
                        < self@.peers.len()),
                egress_views(out@) == self@.to_targets(targets@, bytes@, k as nat),
            decreases n - k,
        {
            let target: GossipTarget = targets[k];
            match target.1 {
                Some(i) => {
                    self.relay_push(i, &bytes, &mut out);
                },
                None => {
                    let ghost sent = out@;
                    out.push(plain_datagram(target.0, crate::order::copied(&bytes)));
                    assert(egress_views(out@) =~= egress_views(sent) + seq![
                        plain(target.0, bytes@),
                    ]);
                },
            }
            k = k + 1;
        }
        out
    }

    /// The root to begin a handshake with so that gossip can start, and its address.
    pub fn gossip_bootstrap(&self) -> (r: Option<(usize, SockAddr)>)
        ensures
            match r {
                Some((i, a)) => self@.bootstrap() == Some((i as int, a)) && i < self@.peers.len(),
                None => self@.bootstrap() is None,
            },
    {
        let roots = match &self.roots {
            Some(roots) => roots,
            None => {
                return None;
            },
        };
        let mut i: usize = 0;
        while i < self.peers.len()
            invariant
                i <= self.peers@.len(),
                self@.roots == Some(roots@),
                forall|j: int| 0 <= j < i ==> (#[trigger] self@.peers[j]).state !is Established,
            decreases self.peers@.len() - i,
        {
            assert(self@.peers[i as int] == self.peers@[i as int]@);
            if self.peers[i].is_established() {
                return None;
            }
            i = i + 1;
        }
        assert(!self@.any_live());
        let mut k: usize = 0;
        while k < roots.len()
            invariant
                k <= roots@.len(),
                self@.roots == Some(roots@),
                !self@.any_live(),
                self@.bootstrap() == self@.idle_root(roots@, k as int),
            decreases roots@.len() - k,
        {
            let addr: SockAddr = roots[k].addr;
            if let Some(i) = self.find_at(Pick::Idle, addr) {
                return Some((i, addr));
            }
            k = k + 1;
        }
        None
    }
}

/// A digest goes to no more partners than are allowed, in any table.
pub proof fn law_gossip_fan_out_bounded<S, H>(m: ManagerView<S, H>)
    ensures
        m.gossip_targets().len() <= MAX_GOSSIP_TARGETS,
{
    lemma_peer_targets_bounded(m, m.peers.len());
    match m.roots {
        Some(roots) => {
            lemma_root_targets_bounded::<S, H>(
                m.peer_targets(m.peers.len()),
                roots,
                roots.len(),
            );
        },
        None => {},
    }
}

proof fn lemma_peer_targets_bounded<S, H>(m: ManagerView<S, H>, n: nat)
    ensures
        m.peer_targets(n).len() <= MAX_GOSSIP_TARGETS,
    decreases n,
{
    if n > 0 {
        lemma_peer_targets_bounded(m, (n - 1) as nat);
    }
}

proof fn lemma_root_targets_bounded<S, H>(base: Seq<GossipTarget>, roots: Seq<Root>, n: nat)
    requires
        base.len() <= MAX_GOSSIP_TARGETS,
    ensures
        ManagerView::<S, H>::root_targets(base, roots, n).len() <= MAX_GOSSIP_TARGETS,
    decreases n,
{
    if n > 0 {
        lemma_root_targets_bounded::<S, H>(base, roots, (n - 1) as nat);
    }
}

} // verus!
