//! The table of peers and everything that is decided about it.
//!
//! A [`PeerManager`] holds no socket and no cipher. Where a step needs one, the
//! caller performs it and hands the outcome in: a handshake that was drawn or
//! opened, a verdict on a certificate, the next step of a peer's path, a random
//! draw, the datagrams that a session sealed.

pub mod egress;
pub mod gossip;
pub mod gossip_laws;
pub mod handshake;
pub mod laws;
pub mod obf;
pub mod obf_laws;
pub mod rekey;
pub mod rekey_laws;
pub mod relay;
pub mod rounds;
pub mod route_laws;
pub mod routing;
pub mod session_laws;
pub mod table_laws;
pub mod tick;
pub mod tick_laws;

use std::collections::HashMap;

use vstd::prelude::*;

use crate::addr::{is_addr, SockAddr};
use crate::epoch::{DataPlane, TunnelMode};
use crate::order::{contents, same_key};
use crate::peer::{
    first_stage, first_stage_of, Identity, PathKind, Peer, PeerState, PeerView, StateView,
    MAX_PENDING_TUN,
};
use crate::rendezvous::{RdvProfile, Rendezvous};
use crate::wire::{egress_views, EgressDatagram, EgressView, WireCodes};

verus! {

broadcast use vstd::std_specs::hash::group_hash_axioms;

/// How long a handshake waits before it is sent again.
pub const HANDSHAKE_RETRY_MS: u64 = 1_000;

/// How long one handshake is sent again before it is given up.
pub const HANDSHAKE_TOTAL_MS: u64 = 90_000;

/// How often this node registers with the server.
pub const REG_REFRESH_MS: u64 = 20_000;

/// The least time between two lookups of one peer.
pub const LOOKUP_INTERVAL_MS: u64 = 1_000;

/// The symbol size of a session unless another is set.
pub const DEFAULT_DATA_SYMBOL_SIZE: u16 = 1200;

/// How old an epoch gets before it is rekeyed, unless another interval is chosen.
pub const REKEY_INTERVAL_MS: u64 = 120_000;

/// A peer of the configuration.
#[derive(Clone, Copy, Debug)]
pub struct PeerConfig {
    pub id: Identity,
    pub endpoint: Option<SockAddr>,
}

/// A node that is admitted without a certificate.
#[derive(Clone, Copy, Debug)]
pub struct Root {
    pub id: Identity,
    pub addr: SockAddr,
}

/// The table of peers.
pub struct PeerManager<R, S, H> {
    pub local: Identity,
    pub mode: TunnelMode,
    pub codes: WireCodes,
    pub peers: Vec<Peer<S, H>>,
    /// Connection tags of sessions; a hint that may be stale.
    pub by_tag: HashMap<u64, usize>,
    pub by_addr: HashMap<u128, usize>,
    pub by_node: HashMap<u128, usize>,
    pub rendezvous: Option<R>,
    /// The roots of the mesh; `None` outside a mesh.
    pub roots: Option<Vec<Root>>,
    pub last_register_ms: u64,
    /// How long after `last_register_ms` this node registers again.
    pub reg_refresh_ms: u64,
    pub registered_once: bool,
    /// Counts registrations, and never goes back.
    pub reg_seq: u64,
    /// The network's obfuscation key; `None` with obfuscation off.
    pub obf_key: Option<[u8; 16]>,
    pub cover_traffic_ms: Option<u64>,
    pub data_symbol_size: u16,
    pub relay_only: bool,
    pub rekey_interval_ms: u64,
    pub last_cert_sweep_ms: u64,
}

/// What a [`PeerManager`] holds.
#[verifier::ext_equal]
pub struct ManagerView<S, H> {
    pub local: Identity,
    pub mode: TunnelMode,
    pub codes: WireCodes,
    pub peers: Seq<PeerView<S, H>>,
    pub by_tag: Map<u64, usize>,
    pub by_addr: Map<u128, usize>,
    pub by_node: Map<u128, usize>,
    pub rendezvous: Option<RdvProfile>,
    pub roots: Option<Seq<Root>>,
    pub last_register_ms: u64,
    pub reg_refresh_ms: u64,
    pub registered_once: bool,
    pub reg_seq: u64,
    pub obf_key: Option<[u8; 16]>,
    pub cover_traffic_ms: Option<u64>,
    pub data_symbol_size: u16,
    pub relay_only: bool,
    pub rekey_interval_ms: u64,
    pub last_cert_sweep_ms: u64,
}

/// What each peer of a list holds.
pub open spec fn peer_views<S, H>(v: Seq<Peer<S, H>>) -> Seq<PeerView<S, H>> {
    Seq::new(v.len(), |i: int| v[i]@)
}

impl<R: Rendezvous, S, H> View for PeerManager<R, S, H> {
    type V = ManagerView<S, H>;

    open spec fn view(&self) -> ManagerView<S, H> {
        ManagerView {
            local: self.local,
            mode: self.mode,
            codes: self.codes,
            peers: peer_views(self.peers@),
            by_tag: self.by_tag@,
            by_addr: self.by_addr@,
            by_node: self.by_node@,
            rendezvous: match self.rendezvous {
                Some(r) => Some(r.profile()),
                None => None,
            },
            roots: match self.roots {
                Some(r) => Some(r@),
                None => None,
            },
            last_register_ms: self.last_register_ms,
            reg_refresh_ms: self.reg_refresh_ms,
            registered_once: self.registered_once,
            reg_seq: self.reg_seq,
            obf_key: self.obf_key,
            cover_traffic_ms: self.cover_traffic_ms,
            data_symbol_size: self.data_symbol_size,
            relay_only: self.relay_only,
            rekey_interval_ms: self.rekey_interval_ms,
            last_cert_sweep_ms: self.last_cert_sweep_ms,
        }
    }
}

/// The first peer from `from` on that `p` holds of.
pub open spec fn first_where<S, H>(
    peers: Seq<PeerView<S, H>>,
    p: spec_fn(PeerView<S, H>) -> bool,
    from: int,
) -> Option<int>
    decreases peers.len() - from,
{
    if from < 0 || from >= peers.len() {
        None
    } else if p(peers[from]) {
        Some(from)
    } else {
        first_where(peers, p, from + 1)
    }
}

/// A search that has passed over `from..to` finds what it finds from `to` on.
pub proof fn lemma_first_where<S, H>(
    peers: Seq<PeerView<S, H>>,
    p: spec_fn(PeerView<S, H>) -> bool,
    from: int,
    to: int,
)
    requires
        0 <= from <= to <= peers.len(),
        forall|j: int| from <= j < to ==> !p(#[trigger] peers[j]),
    ensures
        first_where(peers, p, from) == first_where(peers, p, to),
    decreases to - from,
{
    if from < to {
        assert(!p(peers[from]));
        lemma_first_where(peers, p, from + 1, to);
    }
}

/// What a search finds is a peer that `p` holds of, and it holds of none before it.
pub proof fn lemma_first_where_finds<S, H>(
    peers: Seq<PeerView<S, H>>,
    p: spec_fn(PeerView<S, H>) -> bool,
    from: int,
)
    requires
        0 <= from,
    ensures
        match first_where(peers, p, from) {
            Some(i) => from <= i < peers.len() && p(peers[i]) && forall|j: int|
                from <= j < i ==> !p(#[trigger] peers[j]),
            None => forall|j: int| from <= j < peers.len() ==> !p(#[trigger] peers[j]),
        },
    decreases peers.len() - from,
{
    if from < peers.len() && !p(peers[from]) {
        lemma_first_where_finds(peers, p, from + 1);
    }
}

/// The peer has the public key `key`.
pub open spec fn has_key<S, H>(key: [u8; 32]) -> spec_fn(PeerView<S, H>) -> bool {
    |p: PeerView<S, H>| p.id.public_key == key
}

/// Which of the peers at an address is looked for.
#[derive(Clone, Copy, Debug, PartialEq, Eq, Structural)]
pub enum Pick {
    /// One with a session.
    Live,
    /// One with a session that is not relayed and whose rekey this side has begun.
    Rekeying,
    /// One with a handshake under way.
    Handshaking,
    /// One with neither.
    Idle,
}

/// The peer is at `addr` and in the state that is looked for.
pub open spec fn picked<S, H>(pick: Pick, addr: SockAddr) -> spec_fn(PeerView<S, H>) -> bool {
    |p: PeerView<S, H>|
        p.endpoint == Some(addr) && match pick {
            Pick::Live => p.state is Established,
            Pick::Rekeying => p.state matches StateView::Established(e) && e.rekey is Some
                && !p.relay,
            Pick::Handshaking => p.state is Handshaking,
            Pick::Idle => p.state is Idle,
        }
}

/// The map from the mesh addresses of the first `n` configured peers to their places.
pub open spec fn addr_index(cfg: Seq<PeerConfig>, n: nat) -> Map<u128, usize>
    decreases n,
{
    if n == 0 {
        Map::empty()
    } else {
        addr_index(cfg, (n - 1) as nat).insert(cfg[n - 1].id.addr, (n - 1) as usize)
    }
}

/// The map from the node ids of the first `n` configured peers to their places.
pub open spec fn node_index(cfg: Seq<PeerConfig>, n: nat) -> Map<u128, usize>
    decreases n,
{
    if n == 0 {
        Map::empty()
    } else {
        node_index(cfg, (n - 1) as nat).insert(cfg[n - 1].id.node, (n - 1) as usize)
    }
}

impl<S, H> ManagerView<S, H> {
    /// Every index points at a peer, every peer is as [`ManagerView::peer_wf`] says, and
    /// the packet types can be told apart.
    pub open spec fn wf(self) -> bool {
        &&& self.codes.distinct_spec()
        &&& forall|t: u64| #[trigger]
            self.by_tag.contains_key(t) ==> self.by_tag[t] < self.peers.len()
        &&& forall|a: u128| #[trigger]
            self.by_addr.contains_key(a) ==> self.by_addr[a] < self.peers.len()
        &&& forall|n: u128| #[trigger]
            self.by_node.contains_key(n) ==> self.by_node[n] < self.peers.len()
        &&& forall|i: int|
            0 <= i < self.peers.len() ==> self.peer_wf(#[trigger] self.peers[i])
    }

    /// A peer is indexed by its address and its node id, its queue is within the limit,
    /// and nothing of a session is left where there is none.
    pub open spec fn peer_wf(self, p: PeerView<S, H>) -> bool {
        &&& self.by_addr.contains_key(p.id.addr)
        &&& self.by_node.contains_key(p.id.node)
        &&& p.pending_tun.len() <= MAX_PENDING_TUN
        &&& p.tidy()
    }

    /// The table with another peer at `i`.
    pub open spec fn with_peer(self, i: int, p: PeerView<S, H>) -> ManagerView<S, H> {
        ManagerView { peers: self.peers.update(i, p), ..self }
    }

    /// The server's address, or the unspecified one without a server.
    pub open spec fn server(self) -> SockAddr {
        match self.rendezvous {
            Some(r) => r.server,
            None => SockAddr::unspecified_spec(),
        }
    }

    /// The place of the peer with a public key.
    pub open spec fn find_key(self, key: [u8; 32]) -> Option<int> {
        first_where(self.peers, has_key(key), 0)
    }

    /// The first peer at `addr` in the state that is looked for.
    pub open spec fn find_at(self, pick: Pick, addr: SockAddr) -> Option<int> {
        first_where(self.peers, picked(pick, addr), 0)
    }

    /// Whether a key belongs to a root of the mesh.
    pub open spec fn is_root(self, key: [u8; 32]) -> bool {
        match self.roots {
            Some(roots) => exists|i: int|
                0 <= i < roots.len() && (#[trigger] roots[i]).id.public_key == key,
            None => false,
        }
    }

    /// Whether a handshake may go on: outside a mesh always, in a mesh for a root and
    /// for a valid certificate.
    pub open spec fn cert_admits(self, key: [u8; 32], cert_valid: bool) -> bool {
        self.roots is None || self.is_root(key) || cert_valid
    }

    /// The table with a member, unless it is this node or already a peer.
    pub open spec fn admitted(self, id: Identity, endpoints: Seq<SockAddr>) -> ManagerView<S, H> {
        if id.public_key == self.local.public_key || self.find_key(id.public_key) is Some {
            self
        } else {
            ManagerView {
                peers: self.peers.push(
                    PeerView::fresh(
                        id,
                        if endpoints.len() > 0 {
                            Some(endpoints[0])
                        } else {
                            None
                        },
                        first_stage(
                            endpoints.len() > 0,
                            self.rendezvous is Some,
                            self.relay_only,
                        ),
                    ),
                ),
                by_addr: self.by_addr.insert(id.addr, self.peers.len() as usize),
                by_node: self.by_node.insert(id.node, self.peers.len() as usize),
                ..self
            }
        }
    }

    /// The table with the first `n` roots admitted, in their order.
    pub open spec fn with_roots(self, roots: Seq<Root>, n: nat) -> ManagerView<S, H>
        decreases n,
    {
        if n == 0 {
            self
        } else {
            self.with_roots(roots, (n - 1) as nat).admitted(
                roots[n - 1].id,
                seq![roots[n - 1].addr],
            )
        }
    }

    /// The table with the roots of its mesh admitted; outside a mesh, the table.
    pub open spec fn with_all_roots(self) -> ManagerView<S, H> {
        match self.roots {
            Some(r) => self.with_roots(r, r.len()),
            None => self,
        }
    }

    /// The table with obfuscation on under a key, or off.
    pub open spec fn with_obf_key(self, key: Option<[u8; 16]>) -> ManagerView<S, H> {
        ManagerView { obf_key: key, ..self }
    }

    /// The table with cover traffic after a silence, or without.
    pub open spec fn with_cover(self, ms: Option<u64>) -> ManagerView<S, H> {
        ManagerView { cover_traffic_ms: ms, ..self }
    }

    /// The table with another symbol size for the sessions to come.
    pub open spec fn with_symbol_size(self, s: u16) -> ManagerView<S, H> {
        ManagerView { data_symbol_size: s, ..self }
    }

    /// The retransmission interval that a draw gives: exact with obfuscation off.
    pub open spec fn interval(self, base: u64, draw: u64) -> u64 {
        if self.obf_key is Some {
            crate::entropy::jittered(base as int, draw as int) as u64
        } else {
            base
        }
    }

    /// The transport of a session with this table's settings.
    pub open spec fn data_plane(self, done: Completed<S>, peer_addr: SockAddr) -> DataPlane<S> {
        DataPlane {
            session: done.session,
            conn_tag: done.conn_tag,
            mode: self.mode,
            peer_addr,
            obf: self.obf_key is Some,
            symbol_size: self.data_symbol_size,
        }
    }

    /// The obfuscation key of a session: none with obfuscation off.
    pub open spec fn session_key(self, done: Completed<S>) -> Option<[u8; 16]> {
        if self.obf_key is Some {
            Some(done.obf_key)
        } else {
            None
        }
    }

    /// The datagram that carries `raw` to peer `i` through the relay; none without a
    /// server.
    pub open spec fn wrapped(self, i: int, raw: Seq<u8>) -> Seq<EgressView> {
        match self.rendezvous {
            Some(r) => seq![r.relay(self.local.node, self.peers[i].id.node, raw)],
            None => Seq::empty(),
        }
    }
}

/// A table stays well-formed when one of its peers changes without changing who it is.
pub proof fn lemma_with_peer_wf<S, H>(m: ManagerView<S, H>, i: int, p: PeerView<S, H>)
    requires
        m.wf(),
        0 <= i < m.peers.len(),
        p.id == m.peers[i].id,
        p.pending_tun.len() <= MAX_PENDING_TUN,
        p.tidy(),
    ensures
        m.with_peer(i, p).wf(),
{
    let n = m.with_peer(i, p);
    assert(m.peer_wf(m.peers[i]));
    assert forall|j: int| 0 <= j < n.peers.len() implies n.peer_wf(#[trigger] n.peers[j]) by {
        assert(m.peer_wf(m.peers[j]));
    }
}

/// A table stays well-formed when a tag is pointed at one of its peers.
pub proof fn lemma_tag_wf<S, H>(m: ManagerView<S, H>, tag: u64, i: usize)
    requires
        m.wf(),
        i < m.peers.len(),
    ensures
        (ManagerView { by_tag: m.by_tag.insert(tag, i), ..m }).wf(),
{
    let n = ManagerView { by_tag: m.by_tag.insert(tag, i), ..m };
    assert forall|j: int| 0 <= j < n.peers.len() implies n.peer_wf(#[trigger] n.peers[j]) by {
        assert(m.peer_wf(m.peers[j]));
    }
}

/// A table stays well-formed when tags are forgotten.
pub proof fn lemma_forget_wf<S, H>(m: ManagerView<S, H>, by_tag: Map<u64, usize>)
    requires
        m.wf(),
        forall|t: u64| #[trigger] by_tag.contains_key(t) ==> m.by_tag.contains_key(t)
            && by_tag[t] == m.by_tag[t],
    ensures
        (ManagerView { by_tag, ..m }).wf(),
{
    let n = ManagerView { by_tag, ..m };
    assert forall|j: int| 0 <= j < n.peers.len() implies n.peer_wf(#[trigger] n.peers[j]) by {
        assert(m.peer_wf(m.peers[j]));
    }
}

/// A handshake that has completed: its session, and what else its keys give.
#[derive(Debug)]
pub struct Completed<S> {
    pub session: S,
    pub conn_tag: u64,
    /// The session's obfuscation key.
    pub obf_key: [u8; 16],
}

/// A handshake that this side has drawn: its state, and the datagram that begins it.
#[derive(Debug)]
pub struct Started<H> {
    pub hs: H,
    pub init_pkt: Vec<u8>,
}

/// What came of a step: datagrams to send, packets to seal under a peer's current session
/// and to send after them (see [`PeerManager::sealed_egress`]), and the path that a new
/// session settled on, for the peer's path to know.
#[derive(Debug)]
pub struct Reaction {
    pub egress: Vec<EgressDatagram>,
    pub seal: Option<(usize, Vec<Vec<u8>>)>,
    pub settled: Option<(usize, PathKind)>,
}

/// What a [`Reaction`] says.
#[verifier::ext_equal]
pub struct ReactionView {
    pub egress: Seq<EgressView>,
    pub seal: Option<(usize, Seq<Seq<u8>>)>,
    pub settled: Option<(usize, PathKind)>,
}

impl View for Reaction {
    type V = ReactionView;

    open spec fn view(&self) -> ReactionView {
        ReactionView {
            egress: egress_views(self.egress@),
            seal: match self.seal {
                Some(s) => Some((s.0, contents(s.1@))),
                None => None,
            },
            settled: self.settled,
        }
    }
}

impl ReactionView {
    /// No reaction.
    pub open spec fn nothing() -> ReactionView {
        ReactionView { egress: Seq::empty(), seal: None, settled: None }
    }

    /// Datagrams to send, and nothing else.
    pub open spec fn send(egress: Seq<EgressView>) -> ReactionView {
        ReactionView { egress, seal: None, settled: None }
    }
}

impl Reaction {
    /// No reaction.
    pub fn nothing() -> (r: Reaction)
        ensures
            r@ == ReactionView::nothing(),
    {
        let r = Reaction { egress: Vec::new(), seal: None, settled: None };
        assert(r@.egress =~= Seq::<EgressView>::empty());
        r
    }

    /// Datagrams to send, and nothing else.
    pub fn send(egress: Vec<EgressDatagram>) -> (r: Reaction)
        ensures
            r@ == ReactionView::send(egress_views(egress@)),
    {
        Reaction { egress, seal: None, settled: None }
    }
}

impl<R: Rendezvous, S, H> PeerManager<R, S, H> {
    /// A table of the configured peers and, in a mesh, the roots. Every peer is idle; no
    /// handshake is under way until something asks for one.
    pub fn new(
        local: Identity,
        peers_cfg: &[PeerConfig],
        mode: TunnelMode,
        codes: WireCodes,
        rendezvous: Option<R>,
        roots: Option<Vec<Root>>,
        relay_only: bool,
        rekey_interval_ms: u64,
    ) -> (mgr: Self)
        requires
            codes.distinct_spec(),
            peers_cfg@.len() + (match roots {
                Some(r) => r@.len(),
                None => 0,
            }) <= usize::MAX,
        ensures
            mgr@.wf(),
            mgr@ == Self::configured(
                local,
                peers_cfg@,
                mode,
                codes,
                rendezvous,
                roots,
                relay_only,
                rekey_interval_ms,
            ).with_all_roots(),
    {
        let has_rendezvous: bool = rendezvous.is_some();
        let mut peers: Vec<Peer<S, H>> = Vec::new();
        let mut by_addr: HashMap<u128, usize> = HashMap::new();
        let mut by_node: HashMap<u128, usize> = HashMap::new();
        let mut i: usize = 0;
        while i < peers_cfg.len()
            invariant
                i <= peers_cfg@.len(),
                has_rendezvous == (rendezvous is Some),
                peers@.len() == i,
                forall|j: int|
                    0 <= j < i ==> (#[trigger] peers@[j])@ == Self::configured_peer(
                        peers_cfg@[j],
                        has_rendezvous,
                        relay_only,
                    ),
                by_addr@ == addr_index(peers_cfg@, i as nat),
                by_node@ == node_index(peers_cfg@, i as nat),
                forall|a: u128| #[trigger] by_addr@.contains_key(a) ==> by_addr@[a] < i,
                forall|a: u128| #[trigger] by_node@.contains_key(a) ==> by_node@[a] < i,
                forall|j: int|
                    0 <= j < i ==> {
                        &&& by_addr@.contains_key((#[trigger] peers_cfg@[j]).id.addr)
                        &&& by_node@.contains_key(peers_cfg@[j].id.node)
                    },
            decreases peers_cfg@.len() - i,
        {
            let p: PeerConfig = peers_cfg[i];
            by_addr.insert(p.id.addr, i);
            by_node.insert(p.id.node, i);
            peers.push(
                Peer::new(
                    p.id,
                    p.endpoint,
                    first_stage_of(p.endpoint.is_some(), has_rendezvous, relay_only),
                ),
            );
            i = i + 1;
        }
        let mut mgr = PeerManager {
            local,
            mode,
            codes,
            peers,
            by_tag: HashMap::new(),
            by_addr,
            by_node,
            rendezvous,
            roots: None,
            last_register_ms: 0,
            reg_refresh_ms: REG_REFRESH_MS,
            registered_once: false,
            reg_seq: 0,
            obf_key: None,
            cover_traffic_ms: None,
            data_symbol_size: DEFAULT_DATA_SYMBOL_SIZE,
            relay_only,
            rekey_interval_ms,
            last_cert_sweep_ms: 0,
        };
        let ghost base = Self::configured(
            local,
            peers_cfg@,
            mode,
            codes,
            rendezvous,
            roots,
            relay_only,
            rekey_interval_ms,
        );
        match roots {
            None => {
                assert(mgr@.peers =~= base.peers);
                assert(mgr@ =~= base);
                mgr
            },
            Some(list) => {
                mgr.roots = Some(list);
                assert(mgr@.peers =~= base.peers);
                assert(mgr@ =~= base);
                mgr.admit_roots();
                mgr
            },
        }
    }

    /// The peer that a configuration entry gives.
    pub open spec fn configured_peer(
        p: PeerConfig,
        has_rendezvous: bool,
        relay_only: bool,
    ) -> PeerView<S, H> {
        PeerView::fresh(
            p.id,
            p.endpoint,
            first_stage(p.endpoint is Some, has_rendezvous, relay_only),
        )
    }

    /// The table before the roots are admitted.
    pub open spec fn configured(
        local: Identity,
        cfg: Seq<PeerConfig>,
        mode: TunnelMode,
        codes: WireCodes,
        rendezvous: Option<R>,
        roots: Option<Vec<Root>>,
        relay_only: bool,
        rekey_interval_ms: u64,
    ) -> ManagerView<S, H> {
        ManagerView {
            local,
            mode,
            codes,
            peers: Seq::new(
                cfg.len(),
                |i: int| Self::configured_peer(cfg[i], rendezvous is Some, relay_only),
            ),
            by_tag: Map::empty(),
            by_addr: addr_index(cfg, cfg.len()),
            by_node: node_index(cfg, cfg.len()),
            rendezvous: match rendezvous {
                Some(r) => Some(r.profile()),
                None => None,
            },
            roots: match roots {
                Some(r) => Some(r@),
                None => None,
            },
            last_register_ms: 0,
            reg_refresh_ms: REG_REFRESH_MS,
            registered_once: false,
            reg_seq: 0,
            obf_key: None,
            cover_traffic_ms: None,
            data_symbol_size: DEFAULT_DATA_SYMBOL_SIZE,
            relay_only,
            rekey_interval_ms,
            last_cert_sweep_ms: 0,
        }
    }

    /// Admits the roots of the mesh, in their order.
    fn admit_roots(&mut self)
        requires
            old(self)@.wf(),
            old(self)@.roots matches Some(r) && old(self)@.peers.len() + r.len() <= usize::MAX,
        ensures
            final(self)@.wf(),
            old(self)@.roots matches Some(r) && final(self)@ == old(self)@.with_roots(r, r.len()),
    {
        let n: usize = match &self.roots {
            Some(list) => list.len(),
            None => 0,
        };
        let mut k: usize = 0;
        while k < n
            invariant
                self@.wf(),
                old(self)@.roots is Some,
                n == old(self)@.roots->0.len(),
                old(self)@.peers.len() + n <= usize::MAX,
                self@.roots == old(self)@.roots,
                k <= n,
                self@ == old(self)@.with_roots(self@.roots->0, k as nat),
                self@.peers.len() <= old(self)@.peers.len() + k,
            decreases n - k,
        {
            let root: Root = match &self.roots {
                Some(list) => list[k],
                None => {
                    return;
                },
            };
            let mut endpoints: Vec<SockAddr> = Vec::new();
            endpoints.push(root.addr);
            assert(endpoints@ =~= seq![root.addr]);
            self.admit_member(root.id, &endpoints);
            k = k + 1;
        }
    }

    /// The place of the peer with a public key.
    pub fn position(&self, key: &[u8; 32]) -> (r: Option<usize>)
        ensures
            match r {
                Some(i) => self@.find_key(*key) == Some(i as int) && i < self@.peers.len(),
                None => self@.find_key(*key) is None,
            },
    {
        let mut i: usize = 0;
        let ghost p = has_key::<S, H>(*key);
        while i < self.peers.len()
            invariant
                i <= self.peers@.len(),
                p == has_key::<S, H>(*key),
                forall|j: int| 0 <= j < i ==> !p(#[trigger] self@.peers[j]),
            decreases self.peers@.len() - i,
        {
            assert(self@.peers[i as int] == self.peers@[i as int]@);
            if same_key(&self.peers[i].id.public_key, key) {
                proof {
                    lemma_first_where(self@.peers, p, 0, i as int);
                }
                return Some(i);
            }
            i = i + 1;
        }
        proof {
            lemma_first_where(self@.peers, p, 0, i as int);
        }
        None
    }

    /// The first peer at `addr` in the state that is looked for.
    pub(crate) fn find_at(&self, pick: Pick, addr: SockAddr) -> (r: Option<usize>)
        ensures
            match r {
                Some(i) => self@.find_at(pick, addr) == Some(i as int) && i < self@.peers.len(),
                None => self@.find_at(pick, addr) is None,
            },
    {
        let mut i: usize = 0;
        let ghost p = picked::<S, H>(pick, addr);
        while i < self.peers.len()
            invariant
                i <= self.peers@.len(),
                p == picked::<S, H>(pick, addr),
                forall|j: int| 0 <= j < i ==> !p(#[trigger] self@.peers[j]),
            decreases self.peers@.len() - i,
        {
            let peer = &self.peers[i];
            assert(self@.peers[i as int] == peer@);
            if is_addr(peer.endpoint, addr) {
                let hit: bool = match pick {
                    Pick::Live => peer.is_established(),
                    Pick::Rekeying => match &peer.state {
                        PeerState::Established(e) => e.rekey.is_some() && !peer.relay,
                        _ => false,
                    },
                    Pick::Handshaking => peer.is_handshaking(),
                    Pick::Idle => peer.is_idle(),
                };
                if hit {
                    proof {
                        lemma_first_where(self@.peers, p, 0, i as int);
                    }
                    return Some(i);
                }
            }
            i = i + 1;
        }
        proof {
            lemma_first_where(self@.peers, p, 0, i as int);
        }
        None
    }

    /// Adds a member to the table: idle, at the first of its endpoints. Nothing happens
    /// for this node's own key, or for a key that is already in the table.
    pub fn admit_member(&mut self, id: Identity, endpoints: &Vec<SockAddr>)
        requires
            old(self)@.wf(),
            old(self)@.admitted(id, endpoints@).peers.len() <= usize::MAX,
        ensures
            final(self)@.wf(),
            final(self)@ == old(self)@.admitted(id, endpoints@),
    {
        if same_key(&id.public_key, &self.local.public_key) || self.position(
            &id.public_key,
        ).is_some() {
            return;
        }
        let idx: usize = self.peers.len();
        let stage = first_stage_of(
            endpoints.len() > 0,
            self.rendezvous.is_some(),
            self.relay_only,
        );
        let endpoint: Option<SockAddr> = if endpoints.len() > 0 {
            Some(endpoints[0])
        } else {
            None
        };
        self.by_addr.insert(id.addr, idx);
        self.by_node.insert(id.node, idx);
        self.peers.push(Peer::new(id, endpoint, stage));
        assert(self@.peers =~= old(self)@.admitted(id, endpoints@).peers);
        assert forall|i: int| 0 <= i < self@.peers.len() implies self@.peer_wf(
            #[trigger] self@.peers[i],
        ) by {
            if i < old(self)@.peers.len() {
                assert(old(self)@.peer_wf(old(self)@.peers[i]));
            }
        }
    }

    /// Turns obfuscation on with the key derived from the network's secret, or off.
    pub fn set_obf_psk(&mut self, derived_key: Option<[u8; 16]>)
        requires
            old(self)@.wf(),
        ensures
            final(self)@.wf(),
            final(self)@ == old(self)@.with_obf_key(derived_key),
    {
        self.obf_key = derived_key;
    }

    /// Sets how long a session is silent before cover traffic starts, or turns it off.
    pub fn set_cover_traffic_ms(&mut self, cover_traffic_ms: Option<u64>)
        requires
            old(self)@.wf(),
        ensures
            final(self)@.wf(),
            final(self)@ == old(self)@.with_cover(cover_traffic_ms),
    {
        self.cover_traffic_ms = cover_traffic_ms;
    }

    /// Sets the symbol size of the sessions to come.
    pub fn set_data_symbol_size(&mut self, s: u16)
        requires
            old(self)@.wf(),
        ensures
            final(self)@.wf(),
            final(self)@ == old(self)@.with_symbol_size(s),
    {
        self.data_symbol_size = s;
    }

    /// This node's mesh address.
    pub fn local_addr(&self) -> (a: u128)
        ensures
            a == self@.local.addr,
    {
        self.local.addr
    }

    /// The server's address, or the unspecified one without a server.
    pub fn server_addr(&self) -> (a: SockAddr)
        ensures
            a == self@.server(),
    {
        match &self.rendezvous {
            Some(r) => r.server_addr(),
            None => SockAddr::unspecified(),
        }
    }

    /// Whether a key belongs to a root of the mesh.
    pub fn is_root(&self, key: &[u8; 32]) -> (r: bool)
        ensures
            r == self@.is_root(*key),
    {
        match &self.roots {
            None => false,
            Some(roots) => {
                let mut i: usize = 0;
                while i < roots.len()
                    invariant
                        i <= roots@.len(),
                        self@.roots == Some(roots@),
                        forall|j: int|
                            0 <= j < i ==> (#[trigger] roots@[j]).id.public_key != *key,
                    decreases roots@.len() - i,
                {
                    if same_key(&roots[i].id.public_key, key) {
                        assert(self@.roots->0[i as int].id.public_key == *key);
                        return true;
                    }
                    i = i + 1;
                }
                false
            },
        }
    }

    /// Whether a handshake with the holder of `key` may go on, given whether the
    /// certificate it brought decoded and verified.
    pub fn responder_cert_ok(&self, key: &[u8; 32], cert_valid: bool) -> (r: bool)
        ensures
            r == self@.cert_admits(*key, cert_valid),
    {
        self.roots.is_none() || self.is_root(key) || cert_valid
    }

    /// The interval for a timer with base `base`: exact with obfuscation off, jittered
    /// by the draw with obfuscation on.
    pub fn interval_ms(&self, base: u64, draw: u64) -> (ms: u64)
        requires
            base + base / 4 <= u64::MAX,
        ensures
            ms == self@.interval(base, draw),
            self@.obf_key is None ==> ms == base,
            base - base / 4 <= ms <= base + base / 4,
    {
        if self.obf_key.is_some() {
            crate::entropy::jitter_from_draw(base, draw)
        } else {
            base
        }
    }

    /// The transport of a session with this table's settings.
    pub(crate) fn make_data_plane(
        &self,
        session: S,
        conn_tag: u64,
        peer_addr: SockAddr,
    ) -> (dp: DataPlane<S>)
        ensures
            dp == (DataPlane {
                session,
                conn_tag,
                mode: self@.mode,
                peer_addr,
                obf: self@.obf_key is Some,
                symbol_size: self@.data_symbol_size,
            }),
    {
        DataPlane {
            session,
            conn_tag,
            mode: self.mode,
            peer_addr,
            obf: self.obf_key.is_some(),
            symbol_size: self.data_symbol_size,
        }
    }
}

} // verus!
