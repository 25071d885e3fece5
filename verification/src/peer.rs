//! One remote peer: who it is, how it is reached, and the state of its session.

use vstd::prelude::*;

use crate::addr::SockAddr;
use crate::epoch::{DataPlane, EpochSet, EpochSlot, EpochsView};
use crate::order::{contents, copied, less};

verus! {

/// TUN packets kept per peer while it has no session.
pub const MAX_PENDING_TUN: usize = 16;

/// A node: its public key, and the mesh address and the node id derived from it.
#[derive(Clone, Copy, Debug)]
pub struct Identity {
    pub public_key: [u8; 32],
    pub addr: u128,
    pub node: u128,
}

/// How far a peer's path has escalated.
#[derive(Clone, Copy, Debug, PartialEq, Eq, Structural)]
pub enum PathStage {
    Direct,
    Punching,
    Relaying,
    Failed,
}

/// The path that a session was completed over.
#[derive(Clone, Copy, Debug, PartialEq, Eq, Structural)]
pub enum PathKind {
    Direct,
    Punched,
    Relayed,
}

/// What to do next for a peer's path.
#[derive(Clone, Copy, Debug, PartialEq, Eq, Structural)]
pub enum PathAction {
    /// Begin a handshake toward the address.
    Probe(SockAddr),
    /// Begin a handshake through the relay.
    Relay,
    /// Ask the server where the peer is.
    NeedLookup,
    Idle,
    Failed,
}

/// A step of a peer's path: the stage it is in now, and what to do.
#[derive(Clone, Copy, Debug, PartialEq, Eq, Structural)]
pub struct PathStep {
    pub stage: PathStage,
    pub action: PathAction,
}

/// The kind that a session has which completes, without the relay, at `stage`.
pub open spec fn kind_for(stage: PathStage) -> PathKind {
    match stage {
        PathStage::Direct => PathKind::Direct,
        _ => PathKind::Punched,
    }
}

/// The kind that a session has which completes, without the relay, at `stage`.
pub fn kind_for_stage(stage: PathStage) -> (k: PathKind)
    ensures
        k == kind_for(stage),
{
    match stage {
        PathStage::Direct => PathKind::Direct,
        PathStage::Punching => PathKind::Punched,
        PathStage::Relaying | PathStage::Failed => PathKind::Punched,
    }
}

/// The stage that a peer's path begins at.
pub open spec fn first_stage(has_endpoint: bool, has_rendezvous: bool, relay_only: bool) -> PathStage {
    if relay_only {
        PathStage::Relaying
    } else if has_endpoint {
        PathStage::Direct
    } else if has_rendezvous {
        PathStage::Punching
    } else {
        PathStage::Failed
    }
}

/// The stage that a peer's path begins at: with the relay alone, relaying; with a
/// known endpoint, direct; else punching if there is a server, and failed if not.
pub fn first_stage_of(has_endpoint: bool, has_rendezvous: bool, relay_only: bool) -> (s: PathStage)
    ensures
        s == first_stage(has_endpoint, has_rendezvous, relay_only),
{
    if relay_only {
        PathStage::Relaying
    } else if has_endpoint {
        PathStage::Direct
    } else if has_rendezvous {
        PathStage::Punching
    } else {
        PathStage::Failed
    }
}

/// A handshake that this side has begun and that waits for its response.
#[derive(Debug)]
pub struct HandshakingState<H> {
    pub hs: H,
    pub started_ms: u64,
    pub last_sent_ms: u64,
    /// How long after `last_sent_ms` the handshake is sent again.
    pub retry_ms: u64,
    /// How often it was sent again.
    pub retries: u32,
    /// The datagram, sent again byte for byte.
    pub init_pkt: Vec<u8>,
    pub target: SockAddr,
    /// Whether it was drawn for the relay.
    pub via_relay: bool,
}

/// What a [`HandshakingState`] holds.
#[verifier::ext_equal]
pub struct HandshakingView<H> {
    pub hs: H,
    pub started_ms: u64,
    pub last_sent_ms: u64,
    pub retry_ms: u64,
    pub retries: u32,
    pub init_pkt: Seq<u8>,
    pub target: SockAddr,
    pub via_relay: bool,
}

impl<H> View for HandshakingState<H> {
    type V = HandshakingView<H>;

    open spec fn view(&self) -> HandshakingView<H> {
        HandshakingView {
            hs: self.hs,
            started_ms: self.started_ms,
            last_sent_ms: self.last_sent_ms,
            retry_ms: self.retry_ms,
            retries: self.retries,
            init_pkt: self.init_pkt@,
            target: self.target,
            via_relay: self.via_relay,
        }
    }
}

/// The state of a peer's session.
#[derive(Debug)]
pub enum PeerState<S, H> {
    Idle,
    Handshaking(HandshakingState<H>),
    Established(EpochSet<S, H>),
}

/// What a [`PeerState`] holds.
#[verifier::ext_equal]
pub enum StateView<S, H> {
    Idle,
    Handshaking(HandshakingView<H>),
    Established(EpochsView<S, H>),
}

impl<S, H> View for PeerState<S, H> {
    type V = StateView<S, H>;

    open spec fn view(&self) -> StateView<S, H> {
        match *self {
            PeerState::Idle => StateView::Idle,
            PeerState::Handshaking(h) => StateView::Handshaking(h@),
            PeerState::Established(e) => StateView::Established(e@),
        }
    }
}

/// One remote peer.
#[derive(Debug)]
pub struct Peer<S, H> {
    pub id: Identity,
    /// Where the peer is: as configured, probed, or seen. Not meaningful while the peer
    /// is reached through the relay.
    pub endpoint: Option<SockAddr>,
    pub state: PeerState<S, H>,
    /// TUN packets that wait for a session, oldest first.
    pub pending_tun: Vec<Vec<u8>>,
    /// The response that established the current session, where the peer began it; none
    /// without a session, or with one that this side began.
    pub cached_resp: Option<Vec<u8>>,
    /// The ephemeral key of the handshake that `cached_resp` answered; none where it is.
    pub cached_resp_init_eph: Option<[u8; 32]>,
    /// The greatest time label of a handshake that was accepted from this peer. Survives
    /// the session.
    pub last_accepted_init_ts: Option<[u8; 12]>,
    pub stage: PathStage,
    pub path_kind: Option<PathKind>,
    /// Whether everything for this peer goes through the relay.
    pub relay: bool,
    pub last_lookup_ms: Option<u64>,
    /// The key that wraps what travels inside the session; none without a session, or with
    /// obfuscation off.
    pub session_obf_key: Option<[u8; 16]>,
    /// When data was last sent to or received from the peer.
    pub last_activity_ms: u64,
    /// When a cover datagram was last sent to the peer.
    pub last_cover_ms: u64,
}

/// What a [`Peer`] holds.
#[verifier::ext_equal]
pub struct PeerView<S, H> {
    pub id: Identity,
    pub endpoint: Option<SockAddr>,
    pub state: StateView<S, H>,
    pub pending_tun: Seq<Seq<u8>>,
    pub cached_resp: Option<Seq<u8>>,
    pub cached_resp_init_eph: Option<[u8; 32]>,
    pub last_accepted_init_ts: Option<Seq<u8>>,
    pub stage: PathStage,
    pub path_kind: Option<PathKind>,
    pub relay: bool,
    pub last_lookup_ms: Option<u64>,
    pub session_obf_key: Option<[u8; 16]>,
    pub last_activity_ms: u64,
    pub last_cover_ms: u64,
}

impl<S, H> View for Peer<S, H> {
    type V = PeerView<S, H>;

    open spec fn view(&self) -> PeerView<S, H> {
        PeerView {
            id: self.id,
            endpoint: self.endpoint,
            state: self.state@,
            pending_tun: contents(self.pending_tun@),
            cached_resp: match self.cached_resp {
                Some(r) => Some(r@),
                None => None,
            },
            cached_resp_init_eph: self.cached_resp_init_eph,
            last_accepted_init_ts: match self.last_accepted_init_ts {
                Some(t) => Some(t@),
                None => None,
            },
            stage: self.stage,
            path_kind: self.path_kind,
            relay: self.relay,
            last_lookup_ms: self.last_lookup_ms,
            session_obf_key: self.session_obf_key,
            last_activity_ms: self.last_activity_ms,
            last_cover_ms: self.last_cover_ms,
        }
    }
}

/// A queue with one more packet: the oldest goes when it is full.
pub open spec fn queued(pending: Seq<Seq<u8>>, inner: Seq<u8>) -> Seq<Seq<u8>> {
    if pending.len() >= MAX_PENDING_TUN {
        pending.skip(1).push(inner)
    } else {
        pending.push(inner)
    }
}

/// Whether a time label is newer than the last one that was accepted.
pub open spec fn fresher(last: Option<Seq<u8>>, ts: Seq<u8>) -> bool {
    last matches Some(l) ==> crate::order::before(l, ts)
}

impl<S, H> PeerView<S, H> {
    /// A peer that nothing was exchanged with yet.
    pub open spec fn fresh(id: Identity, endpoint: Option<SockAddr>, stage: PathStage) -> PeerView<
        S,
        H,
    > {
        PeerView {
            id,
            endpoint,
            state: StateView::Idle,
            pending_tun: Seq::empty(),
            cached_resp: None,
            cached_resp_init_eph: None,
            last_accepted_init_ts: None,
            stage,
            path_kind: None,
            relay: false,
            last_lookup_ms: None,
            session_obf_key: None,
            last_activity_ms: 0,
            last_cover_ms: 0,
        }
    }

    /// The peer with a handshake under way toward `target`, or through the relay.
    pub open spec fn begun(
        self,
        hs: H,
        init_pkt: Seq<u8>,
        target: SockAddr,
        via_relay: bool,
        now_ms: u64,
        retry_ms: u64,
    ) -> PeerView<S, H> {
        PeerView {
            endpoint: if via_relay {
                self.endpoint
            } else {
                Some(target)
            },
            relay: self.relay || via_relay,
            state: StateView::Handshaking(
                HandshakingView {
                    hs,
                    started_ms: now_ms,
                    last_sent_ms: now_ms,
                    retry_ms,
                    retries: 0,
                    init_pkt,
                    target,
                    via_relay,
                },
            ),
            ..self
        }
    }

    /// The path that a session which completes with datagrams from `src`, or through the
    /// relay, settles on.
    pub open spec fn settles(self, src: Option<SockAddr>) -> PathKind {
        match src {
            Some(_) => kind_for(self.stage),
            None => PathKind::Relayed,
        }
    }

    /// The peer with a session that completed with datagrams from `src`, or through the
    /// relay where there is no `src`. What waited for a session has been taken out.
    pub open spec fn joined(
        self,
        src: Option<SockAddr>,
        dp: DataPlane<S>,
        obf_key: Option<[u8; 16]>,
        now_ms: u64,
    ) -> PeerView<S, H> {
        let base = PeerView {
            session_obf_key: obf_key,
            pending_tun: Seq::empty(),
            state: StateView::Established(EpochsView::fresh(dp, now_ms)),
            ..self
        };
        match src {
            Some(a) => PeerView {
                endpoint: Some(a),
                path_kind: Some(self.settles(src)),
                relay: false,
                ..base
            },
            None => PeerView { path_kind: Some(self.settles(src)), relay: true, ..base },
        }
    }

    /// The peer after this side answered the handshake that built the session.
    pub open spec fn answered(self, ts: Seq<u8>, eph: [u8; 32], resp: Seq<u8>) -> PeerView<S, H> {
        PeerView {
            last_accepted_init_ts: Some(ts),
            cached_resp: Some(resp),
            cached_resp_init_eph: Some(eph),
            ..self
        }
    }

    /// Whether the peer holds what belongs to a session only while it has one: the answer
    /// that built it, and its obfuscation key.
    pub open spec fn tidy(self) -> bool {
        self.state !is Established ==> {
            &&& self.cached_resp is None
            &&& self.cached_resp_init_eph is None
            &&& self.session_obf_key is None
        }
    }

    /// The peer without its session: idle, and nothing is left of what belonged to it.
    pub open spec fn parted(self) -> PeerView<S, H> {
        PeerView {
            state: StateView::Idle,
            cached_resp: None,
            cached_resp_init_eph: None,
            session_obf_key: None,
            ..self
        }
    }

    /// The live session.
    pub open spec fn epochs(self) -> EpochsView<S, H> {
        self.state->Established_0
    }

    /// The peer with other epochs.
    pub open spec fn with_epochs(self, e: EpochsView<S, H>) -> PeerView<S, H> {
        PeerView { state: StateView::Established(e), ..self }
    }

    /// The peer as seen at `src` after a datagram from there opened: a peer that is not
    /// relayed follows to where it was seen.
    pub open spec fn seen_at(self, src: SockAddr) -> PeerView<S, H> {
        if !self.relay && self.endpoint != Some(src) {
            PeerView {
                endpoint: Some(src),
                state: match self.state {
                    StateView::Established(e) => StateView::Established(e.roamed(src)),
                    s => s,
                },
                ..self
            }
        } else {
            self
        }
    }
}

impl<S, H> Peer<S, H> {
    pub fn new(id: Identity, endpoint: Option<SockAddr>, stage: PathStage) -> (p: Self)
        ensures
            p@ == PeerView::<S, H>::fresh(id, endpoint, stage),
    {
        let p = Peer {
            id,
            endpoint,
            state: PeerState::Idle,
            pending_tun: Vec::new(),
            cached_resp: None,
            cached_resp_init_eph: None,
            last_accepted_init_ts: None,
            stage,
            path_kind: None,
            relay: false,
            last_lookup_ms: None,
            session_obf_key: None,
            last_activity_ms: 0,
            last_cover_ms: 0,
        };
        assert(p@ =~= PeerView::<S, H>::fresh(id, endpoint, stage));
        p
    }

    pub fn is_idle(&self) -> (r: bool)
        ensures
            r == (self@.state is Idle),
    {
        match self.state {
            PeerState::Idle => true,
            _ => false,
        }
    }

    pub fn is_handshaking(&self) -> (r: bool)
        ensures
            r == (self@.state is Handshaking),
    {
        match self.state {
            PeerState::Handshaking(_) => true,
            _ => false,
        }
    }

    pub fn is_established(&self) -> (r: bool)
        ensures
            r == (self@.state is Established),
    {
        match self.state {
            PeerState::Established(_) => true,
            _ => false,
        }
    }

    /// Keeps a TUN packet until there is a session; the oldest goes when the queue is
    /// full.
    pub fn push_pending(&mut self, inner: &[u8])
        ensures
            final(self)@ == (PeerView {
                pending_tun: queued(old(self)@.pending_tun, inner@),
                ..old(self)@
            }),
    {
        if self.pending_tun.len() >= MAX_PENDING_TUN {
            self.pending_tun.remove(0);
        }
        self.pending_tun.push(copied(inner));
        assert(contents(self.pending_tun@) =~= queued(old(self)@.pending_tun, inner@));
    }

    /// Whether a time label is newer than every one that was accepted.
    pub fn accept_fresh_init(&self, ts: &[u8; 12]) -> (r: bool)
        ensures
            r == fresher(self@.last_accepted_init_ts, ts@),
    {
        match &self.last_accepted_init_ts {
            None => true,
            Some(last) => less(last, ts),
        }
    }

    /// Puts a handshake under way.
    pub fn begin(
        &mut self,
        hs: H,
        init_pkt: Vec<u8>,
        target: SockAddr,
        via_relay: bool,
        now_ms: u64,
        retry_ms: u64,
    )
        ensures
            final(self)@ == old(self)@.begun(hs, init_pkt@, target, via_relay, now_ms, retry_ms),
    {
        if via_relay {
            self.relay = true;
        } else {
            self.endpoint = Some(target);
        }
        self.state =
        PeerState::Handshaking(
            HandshakingState {
                hs,
                started_ms: now_ms,
                last_sent_ms: now_ms,
                retry_ms,
                retries: 0,
                init_pkt,
                target,
                via_relay,
            },
        );
    }

    /// The path that a session settles on: by the stage of the peer's path, or the relay.
    pub fn settle(&self, src: Option<SockAddr>) -> (k: PathKind)
        ensures
            k == self@.settles(src),
    {
        match src {
            Some(_) => kind_for_stage(self.stage),
            None => PathKind::Relayed,
        }
    }

    /// Begins a session, and hands out what waited for one.
    pub fn join(
        &mut self,
        src: Option<SockAddr>,
        dp: DataPlane<S>,
        obf_key: Option<[u8; 16]>,
        now_ms: u64,
    ) -> (pending: Vec<Vec<u8>>)
        ensures
            final(self)@ == old(self)@.joined(src, dp, obf_key, now_ms),
            contents(pending@) == old(self)@.pending_tun,
    {
        let pending = self.take_pending();
        self.session_obf_key = obf_key;
        self.path_kind = Some(self.settle(src));
        match src {
            Some(a) => {
                self.endpoint = Some(a);
                self.relay = false;
            },
            None => {
                self.relay = true;
            },
        }
        self.state = PeerState::Established(EpochSet::new(dp, now_ms));
        pending
    }

    /// Hands out what waited for a session.
    pub fn take_pending(&mut self) -> (pending: Vec<Vec<u8>>)
        ensures
            final(self)@ == (PeerView { pending_tun: Seq::empty(), ..old(self)@ }),
            contents(pending@) == old(self)@.pending_tun,
    {
        let mut pending: Vec<Vec<u8>> = Vec::new();
        std::mem::swap(&mut self.pending_tun, &mut pending);
        assert(contents(self.pending_tun@) =~= Seq::<Seq<u8>>::empty());
        pending
    }

    /// Ends the session, and forgets what belonged to it.
    pub fn part(&mut self)
        ensures
            final(self)@ == old(self)@.parted(),
    {
        self.state = PeerState::Idle;
        self.cached_resp = None;
        self.cached_resp_init_eph = None;
        self.session_obf_key = None;
    }

    /// Remembers the handshake that built the session, and its answer.
    pub fn remember_answer(&mut self, ts: [u8; 12], eph: [u8; 32], resp: Vec<u8>)
        ensures
            final(self)@ == old(self)@.answered(ts@, eph, resp@),
    {
        self.last_accepted_init_ts = Some(ts);
        self.cached_resp = Some(resp);
        self.cached_resp_init_eph = Some(eph);
    }

    /// Follows a peer that is not relayed to where a datagram that opened came from.
    pub fn relearn_endpoint(&mut self, src: SockAddr)
        ensures
            final(self)@ == old(self)@.seen_at(src),
    {
        if !self.relay && !crate::addr::is_addr(self.endpoint, src) {
            self.endpoint = Some(src);
            match &mut self.state {
                PeerState::Established(e) => {
                    e.set_peer_addr(src);
                },
                _ => {},
            }
        }
    }

    /// Records that an inbound datagram opened under one of the epochs.
    pub fn opened_under(&mut self, slot: EpochSlot, now_ms: u64)
        requires
            old(self)@.state is Established,
        ensures
            final(self)@ == old(self)@.with_epochs(old(self)@.epochs().after_open(slot, now_ms)),
    {
        match &mut self.state {
            PeerState::Established(e) => {
                e.opened_under(slot, now_ms);
            },
            _ => {},
        }
    }
}

} // verus!
