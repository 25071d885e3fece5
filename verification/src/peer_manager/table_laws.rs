//! Who is in the table, and how a session leaves it.

use vstd::prelude::*;

use crate::addr::SockAddr;
use crate::epoch::TunnelMode;
use crate::peer::{Identity, PathStage, PeerView};
use crate::peer_manager::handshake::OpenedInit;
use crate::peer_manager::laws::Op;
use crate::peer_manager::session_laws::{no_root, others_stay};
use crate::peer_manager::{
    addr_index, has_key, lemma_first_where_finds, node_index, ManagerView, PeerConfig, PeerManager,
    Root,
};
use crate::rendezvous::Rendezvous;
use crate::wire::WireCodes;

verus! {

/// Whether `b` is what is left of peer `a` after its session ended: it is idle, holds no
/// answer and no key, and is the same in all else.
pub open spec fn left_of<S, H>(a: PeerView<S, H>, b: PeerView<S, H>) -> bool {
    &&& b.state is Idle
    &&& b.cached_resp is None
    &&& b.cached_resp_init_eph is None
    &&& b.session_obf_key is None
    &&& b.id == a.id
    &&& b.endpoint == a.endpoint
    &&& b.pending_tun == a.pending_tun
    &&& b.last_accepted_init_ts == a.last_accepted_init_ts
    &&& b.stage == a.stage
    &&& b.path_kind == a.path_kind
    &&& b.relay == a.relay
    &&& b.last_lookup_ms == a.last_lookup_ms
    &&& b.last_activity_ms == a.last_activity_ms
    &&& b.last_cover_ms == a.last_cover_ms
}

/// Whether a tag is one of a peer's session.
pub open spec fn tag_of<S, H>(p: PeerView<S, H>, t: u64) -> bool {
    p.state is Established && {
        let e = p.state->Established_0;
        ||| t == e.current.conn_tag
        ||| e.next is Some && t == e.next->0.dp.conn_tag
        ||| e.previous is Some && t == e.previous->0.conn_tag
    }
}

/// Ending a session ends that one alone: its tags are gone and every other tag points where
/// it did, nobody else is touched, and who is in the table and where it is found stays.
pub proof fn law_dropping_touches_one_session<S, H>(m: ManagerView<S, H>, i: int, t: u64)
    requires
        0 <= i < m.peers.len(),
    ensures
        ({
            let n = m.dropped(i);
            &&& left_of(m.peers[i], n.peers[i])
            &&& others_stay(m, n, i)
            &&& n.by_tag.contains_key(t) == (m.by_tag.contains_key(t) && !tag_of(m.peers[i], t))
            &&& n.by_tag.contains_key(t) ==> n.by_tag[t] == m.by_tag[t]
            &&& n.by_addr == m.by_addr
            &&& n.by_node == m.by_node
        }),
{
}

/// A sweep is made in a mesh alone, when the rekey interval has gone by since the last one;
/// it ends exactly the sessions without a valid certificate, and forgets no other tags.
pub proof fn law_sweep_ends_invalid_sessions<S, H>(
    m: ManagerView<S, H>,
    valid: Seq<bool>,
    now_ms: u64,
    j: int,
    t: u64,
)
    requires
        valid.len() == m.peers.len(),
        0 <= j < m.peers.len(),
        m.last_cert_sweep_ms <= now_ms,
    ensures
        ({
            let n = m.after_sweep(valid, now_ms);
            let due = m.roots is Some && now_ms - m.last_cert_sweep_ms >= m.rekey_interval_ms;
            &&& !due ==> n == m
            &&& due ==> {
                &&& n.last_cert_sweep_ms == now_ms
                &&& n.peers.len() == m.peers.len()
                &&& m.peers[j].state is Established && !valid[j] ==> left_of(
                    m.peers[j],
                    n.peers[j],
                )
                &&& m.peers[j].state !is Established || valid[j] ==> n.peers[j] == m.peers[j]
                &&& n.by_tag.contains_key(t) ==> m.by_tag.contains_key(t) && n.by_tag[t]
                    == m.by_tag[t]
                &&& m.by_tag.contains_key(t) && spared(m, valid, t) ==> n.by_tag.contains_key(t)
            }
        }),
{
    let w = ManagerView { last_cert_sweep_ms: now_ms, ..m };
    lemma_swept(w, valid, valid.len(), j);
    lemma_swept_tags(w, valid, valid.len(), t);
}

/// Whether a tag belongs to no session without a valid certificate.
pub open spec fn spared<S, H>(m: ManagerView<S, H>, valid: Seq<bool>, t: u64) -> bool {
    forall|k: int|
        0 <= k < valid.len() && !valid[k] ==> !tag_of(#[trigger] m.peers[k], t)
}

proof fn lemma_swept_tags<S, H>(m: ManagerView<S, H>, valid: Seq<bool>, n: nat, t: u64)
    requires
        n <= valid.len() == m.peers.len(),
    ensures
        ({
            let s = m.swept(valid, n);
            &&& s.by_tag.contains_key(t) ==> m.by_tag.contains_key(t) && s.by_tag[t] == m.by_tag[t]
            &&& m.by_tag.contains_key(t) && spared(m, valid, t) ==> s.by_tag.contains_key(t)
        }),
    decreases n,
{
    if n > 0 {
        lemma_swept_tags(m, valid, (n - 1) as nat, t);
        lemma_swept(m, valid, (n - 1) as nat, n - 1);
        assert(m.swept(valid, (n - 1) as nat).peers[n - 1] == m.peers[n - 1]);
    }
}

proof fn lemma_swept<S, H>(m: ManagerView<S, H>, valid: Seq<bool>, n: nat, j: int)
    requires
        n <= valid.len() == m.peers.len(),
        0 <= j < m.peers.len(),
    ensures
        ({
            let s = m.swept(valid, n);
            &&& s.peers.len() == m.peers.len()
            &&& s.last_cert_sweep_ms == m.last_cert_sweep_ms
            &&& j < n && m.peers[j].state is Established && !valid[j] ==> left_of(
                m.peers[j],
                s.peers[j],
            )
            &&& j >= n || m.peers[j].state !is Established || valid[j] ==> s.peers[j] == m.peers[j]
        }),
    decreases n,
{
    if n > 0 {
        lemma_swept(m, valid, (n - 1) as nat, j);
        lemma_swept(m, valid, (n - 1) as nat, n - 1);
    }
}

/// The stage that a peer's path begins at: relaying where nothing else is allowed; direct
/// where its address is known; punching where a server may tell it; else failed.
pub open spec fn starts_at<S, H>(m: ManagerView<S, H>, known: bool, stage: PathStage) -> bool {
    &&& m.relay_only <==> stage is Relaying
    &&& !m.relay_only && known <==> stage is Direct
    &&& !m.relay_only && !known && m.rendezvous is Some <==> stage is Punching
    &&& !m.relay_only && !known && m.rendezvous is None <==> stage is Failed
}

/// Whether nothing was exchanged with a peer yet.
pub open spec fn untouched<S, H>(p: PeerView<S, H>) -> bool {
    &&& p.state is Idle
    &&& p.pending_tun.len() == 0
    &&& p.cached_resp is None
    &&& p.cached_resp_init_eph is None
    &&& p.last_accepted_init_ts is None
    &&& p.path_kind is None
    &&& !p.relay
    &&& p.last_lookup_ms is None
    &&& p.session_obf_key is None
    &&& p.last_activity_ms == 0
    &&& p.last_cover_ms == 0
}

/// A member whose key is new comes last in the table, idle, at the first of its endpoints,
/// and is found by its mesh address and its node id; everybody else stays where they were.
/// This node's own key, and one that is there already, change nothing.
pub proof fn law_member_joins_the_table<S, H>(
    m: ManagerView<S, H>,
    id: Identity,
    endpoints: Seq<SockAddr>,
)
    requires
        m.peers.len() < usize::MAX,
    ensures
        ({
            let n = m.admitted(id, endpoints);
            let l = m.peers.len() as int;
            let known = exists|j: int|
                0 <= j < m.peers.len() && (#[trigger] m.peers[j]).id.public_key == id.public_key;
            &&& id.public_key == m.local.public_key || known ==> n == m
            &&& id.public_key != m.local.public_key && !known ==> {
                &&& n.peers.len() == l + 1
                &&& n.peers.drop_last() == m.peers
                &&& n.peers[l].id == id
                &&& untouched(n.peers[l])
                &&& endpoints.len() > 0 ==> n.peers[l].endpoint == Some(endpoints[0])
                &&& endpoints.len() == 0 ==> n.peers[l].endpoint is None
                &&& starts_at(m, endpoints.len() > 0, n.peers[l].stage)
                &&& n.by_addr == m.by_addr.insert(id.addr, l as usize)
                &&& n.by_node == m.by_node.insert(id.node, l as usize)
                &&& n.by_tag == m.by_tag
            }
        }),
{
    lemma_first_where_finds(m.peers, has_key::<S, H>(id.public_key), 0);
    let n = m.admitted(id, endpoints);
    if n != m {
        assert(n.peers.drop_last() =~= m.peers);
    }
}

/// The roots of a mesh are all in its table, unless this node is one of them; whoever was
/// in the table stays there, and nobody is in it who is neither.
pub proof fn law_roots_join_the_table<S, H>(m: ManagerView<S, H>, roots: Seq<Root>, n: nat, k: int)
    requires
        0 <= k < n <= roots.len(),
        m.peers.len() + n <= usize::MAX,
    ensures
        ({
            let w = m.with_roots(roots, n);
            &&& m.peers.len() <= w.peers.len() <= m.peers.len() + n
            &&& w.peers.take(m.peers.len() as int) == m.peers
            &&& roots[k].id.public_key != m.local.public_key ==> exists|j: int|
                0 <= j < w.peers.len() && (#[trigger] w.peers[j]).id.public_key
                    == roots[k].id.public_key
            &&& forall|j: int|
                m.peers.len() <= j < w.peers.len() ==> exists|r: int|
                    0 <= r < n && (#[trigger] w.peers[j]).id == (#[trigger] roots[r]).id
                        && w.peers[j].endpoint == Some(roots[r].addr) && untouched(w.peers[j])
        }),
    decreases n,
{
    lemma_roots_frame(m, roots, n);
    lemma_root_is_there(m, roots, n, k);
}

proof fn lemma_roots_frame<S, H>(m: ManagerView<S, H>, roots: Seq<Root>, n: nat)
    requires
        n <= roots.len(),
        m.peers.len() + n <= usize::MAX,
    ensures
        ({
            let w = m.with_roots(roots, n);
            &&& m.peers.len() <= w.peers.len() <= m.peers.len() + n
            &&& w.local == m.local
            &&& w.peers.take(m.peers.len() as int) == m.peers
            &&& forall|j: int|
                m.peers.len() <= j < w.peers.len() ==> exists|r: int|
                    0 <= r < n && (#[trigger] w.peers[j]).id == (#[trigger] roots[r]).id
                        && w.peers[j].endpoint == Some(roots[r].addr) && untouched(w.peers[j])
        }),
    decreases n,
{
    let l = m.peers.len() as int;
    if n == 0 {
        assert(m.peers.take(l) =~= m.peers);
    } else {
        let p = (n - 1) as nat;
        lemma_roots_frame(m, roots, p);
        let was = m.with_roots(roots, p);
        let w = m.with_roots(roots, n);
        law_member_joins_the_table(was, roots[n - 1].id, seq![roots[n - 1].addr]);
        if w != was {
            assert(was.peers =~= w.peers.drop_last());
            assert(w.peers.take(l) =~= was.peers.take(l));
            assert forall|j: int| l <= j < w.peers.len() implies exists|r: int|
                0 <= r < n && (#[trigger] w.peers[j]).id == (#[trigger] roots[r]).id
                    && w.peers[j].endpoint == Some(roots[r].addr) && untouched(w.peers[j]) by {
                if j < was.peers.len() {
                    assert(w.peers[j] == was.peers[j]);
                    let r = choose|r: int|
                        0 <= r < p && was.peers[j].id == (#[trigger] roots[r]).id
                            && was.peers[j].endpoint == Some(roots[r].addr) && untouched(
                            was.peers[j],
                        );
                    assert(w.peers[j].id == roots[r].id);
                } else {
                    assert(w.peers[j].id == roots[n - 1].id);
                }
            }
        }
    }
}

proof fn lemma_root_is_there<S, H>(m: ManagerView<S, H>, roots: Seq<Root>, n: nat, k: int)
    requires
        0 <= k < n <= roots.len(),
        m.peers.len() + n <= usize::MAX,
    ensures
        roots[k].id.public_key != m.local.public_key ==> exists|j: int|
            0 <= j < m.with_roots(roots, n).peers.len() && (#[trigger] m.with_roots(
                roots,
                n,
            ).peers[j]).id.public_key == roots[k].id.public_key,
    decreases n,
{
    let p = (n - 1) as nat;
    let was = m.with_roots(roots, p);
    let w = m.with_roots(roots, n);
    lemma_roots_frame(m, roots, p);
    law_member_joins_the_table(was, roots[n - 1].id, seq![roots[n - 1].addr]);
    let key = roots[k].id.public_key;
    if key != m.local.public_key {
        if k < n - 1 {
            lemma_root_is_there(m, roots, p, k);
            let j = choose|j: int|
                0 <= j < was.peers.len() && (#[trigger] was.peers[j]).id.public_key == key;
            if w != was {
                assert(was.peers =~= w.peers.drop_last());
            }
            assert(w.peers[j].id.public_key == key);
        } else if w != was {
            assert(w.peers[w.peers.len() - 1].id.public_key == key);
        }
    }
}

/// A table begins with the peers of its configuration, in their order, each idle and where
/// the configuration puts it. A peer is found by its mesh address and by its node id, the
/// last one where several have the same; nobody else is. Obfuscation and cover traffic are
/// off, and this node has not registered.
pub proof fn law_table_begins_as_configured<R: Rendezvous, S, H>(
    local: Identity,
    cfg: Seq<PeerConfig>,
    mode: TunnelMode,
    codes: WireCodes,
    rendezvous: Option<R>,
    roots: Option<Vec<Root>>,
    relay_only: bool,
    rekey_interval_ms: u64,
    i: int,
)
    requires
        0 <= i < cfg.len() <= usize::MAX,
    ensures
        ({
            let m = PeerManager::<R, S, H>::configured(
                local,
                cfg,
                mode,
                codes,
                rendezvous,
                roots,
                relay_only,
                rekey_interval_ms,
            );
            &&& m.local == local && m.mode == mode && m.codes == codes
            &&& m.relay_only == relay_only && m.rekey_interval_ms == rekey_interval_ms
            &&& m.rendezvous is Some == rendezvous is Some
            &&& rendezvous is Some ==> m.rendezvous == Some(rendezvous->0.profile())
            &&& m.roots is Some == roots is Some
            &&& roots is Some ==> m.roots == Some(roots->0@)
            &&& m.peers.len() == cfg.len()
            &&& m.peers[i].id == cfg[i].id
            &&& m.peers[i].endpoint == cfg[i].endpoint
            &&& untouched(m.peers[i])
            &&& starts_at(m, cfg[i].endpoint is Some, m.peers[i].stage)
            &&& (forall|j: int| i < j < cfg.len() ==> (#[trigger] cfg[j]).id.addr != cfg[i].id.addr)
                ==> m.by_addr.contains_key(cfg[i].id.addr) && m.by_addr[cfg[i].id.addr] == i
            &&& (forall|j: int| i < j < cfg.len() ==> (#[trigger] cfg[j]).id.node != cfg[i].id.node)
                ==> m.by_node.contains_key(cfg[i].id.node) && m.by_node[cfg[i].id.node] == i
            &&& forall|a: u128| #[trigger]
                m.by_addr.contains_key(a) ==> m.by_addr[a] < cfg.len()
                    && cfg[m.by_addr[a] as int].id.addr == a
            &&& forall|a: u128| #[trigger]
                m.by_node.contains_key(a) ==> m.by_node[a] < cfg.len()
                    && cfg[m.by_node[a] as int].id.node == a
            &&& m.by_tag == Map::<u64, usize>::empty()
            &&& m.obf_key is None && m.cover_traffic_ms is None
            &&& m.data_symbol_size == 1200
            &&& !m.registered_once && m.reg_seq == 0 && m.reg_refresh_ms == 20_000
            &&& m.last_register_ms == 0 && m.last_cert_sweep_ms == 0
        }),
{
    lemma_index(cfg, cfg.len());
    lemma_index_last(cfg, cfg.len(), i);
}

proof fn lemma_index(cfg: Seq<PeerConfig>, n: nat)
    requires
        n <= cfg.len() <= usize::MAX,
    ensures
        forall|a: u128| #[trigger]
            addr_index(cfg, n).contains_key(a) ==> addr_index(cfg, n)[a] < n
                && cfg[addr_index(cfg, n)[a] as int].id.addr == a,
        forall|a: u128| #[trigger]
            node_index(cfg, n).contains_key(a) ==> node_index(cfg, n)[a] < n
                && cfg[node_index(cfg, n)[a] as int].id.node == a,
    decreases n,
{
    if n > 0 {
        lemma_index(cfg, (n - 1) as nat);
    }
}

proof fn lemma_index_last(cfg: Seq<PeerConfig>, n: nat, i: int)
    requires
        0 <= i < n <= cfg.len() <= usize::MAX,
    ensures
        (forall|j: int| i < j < n ==> (#[trigger] cfg[j]).id.addr != cfg[i].id.addr)
            ==> addr_index(cfg, n).contains_key(cfg[i].id.addr) && addr_index(
            cfg,
            n,
        )[cfg[i].id.addr] == i,
        (forall|j: int| i < j < n ==> (#[trigger] cfg[j]).id.node != cfg[i].id.node)
            ==> node_index(cfg, n).contains_key(cfg[i].id.node) && node_index(
            cfg,
            n,
        )[cfg[i].id.node] == i,
    decreases n,
{
    if i < n - 1 {
        lemma_index_last(cfg, (n - 1) as nat, i);
        if forall|j: int| i < j < n ==> (#[trigger] cfg[j]).id.addr != cfg[i].id.addr {
            assert(cfg[n - 1].id.addr != cfg[i].id.addr);
        }
        if forall|j: int| i < j < n ==> (#[trigger] cfg[j]).id.node != cfg[i].id.node {
            assert(cfg[n - 1].id.node != cfg[i].id.node);
        }
    }
}

/// Who may go on with a handshake: outside a mesh everybody; in a mesh the holder of a valid
/// certificate and every root, and nobody else.
pub proof fn law_membership<S, H>(m: ManagerView<S, H>, key: [u8; 32], cert_valid: bool, k: int)
    ensures
        m.roots is None ==> m.cert_admits(key, cert_valid),
        m.cert_admits(key, true),
        m.roots is Some && 0 <= k < m.roots->0.len() && m.roots->0[k].id.public_key == key
            ==> m.is_root(key) && m.cert_admits(key, cert_valid),
        m.roots is Some && no_root(m, key) ==> !m.is_root(key) && !m.cert_admits(key, false),
{
}

/// A key is found at the first peer that has it, and found if any peer has it.
pub proof fn law_search_by_key<S, H>(m: ManagerView<S, H>, key: [u8; 32], i: int)
    requires
        0 <= i < m.peers.len(),
        m.peers[i].id.public_key == key,
    ensures
        m.find_key(key) is Some,
        0 <= m.find_key(key)->0 <= i,
        m.peers[m.find_key(key)->0].id.public_key == key,
{
    assert(has_key::<S, H>(key)(m.peers[i]));
    lemma_first_where_finds(m.peers, has_key::<S, H>(key), 0);
}

/// Whether the settings of two tables are the same.
pub open spec fn same_settings<S, H>(a: ManagerView<S, H>, b: ManagerView<S, H>) -> bool {
    &&& b.local == a.local
    &&& b.mode == a.mode
    &&& b.codes == a.codes
    &&& b.rendezvous == a.rendezvous
    &&& b.roots == a.roots
    &&& b.relay_only == a.relay_only
    &&& b.rekey_interval_ms == a.rekey_interval_ms
}

/// No step changes who this node is, how it reaches the server, or the roots of its mesh;
/// the other settings change only where they are set, and the registration and the sweep
/// only when they are made.
pub proof fn law_settings_stay<S, H>(m: ManagerView<S, H>, op: Op<S, H>)
    ensures
        ({
            let n = m.after(op);
            &&& same_settings(m, n)
            &&& op !is SetObf ==> n.obf_key == m.obf_key
            &&& op !is SetCover ==> n.cover_traffic_ms == m.cover_traffic_ms
            &&& op !is SetSymbolSize ==> n.data_symbol_size == m.data_symbol_size
            &&& op !is Register ==> n.reg_seq == m.reg_seq && n.registered_once
                == m.registered_once && n.last_register_ms == m.last_register_ms
                && n.reg_refresh_ms == m.reg_refresh_ms
            &&& op !is Sweep ==> n.last_cert_sweep_ms == m.last_cert_sweep_ms
        }),
{
    let n = m.after(op);
    match op {
        Op::SetObf { .. } | Op::SetCover { .. } | Op::SetSymbolSize { .. } | Op::Register { .. } => {
            reveal(ManagerView::after);
        },
        Op::Sweep { valid, now_ms } => {
            reveal(ManagerView::after);
            lemma_swept_settings(
                ManagerView { last_cert_sweep_ms: now_ms, ..m },
                valid,
                valid.len(),
            );
        },
        Op::Init { src, o, now_ms } => {
            lemma_init_settings(m, src, o, now_ms);
            assert(same_but_peers(m, n)) by {
                reveal(ManagerView::after);
            }
        },
        Op::RelayedInit { i, o, now_ms } => {
            lemma_relayed_settings(m, i, o, now_ms);
            assert(same_but_peers(m, n)) by {
                reveal(ManagerView::after);
            }
        },
        Op::Tun { inner, resolved, now_ms } => {
            assert(same_but_peers(m, n)) by {
                reveal(ManagerView::after);
                assert(same_but_peers(m, m.with_resolved(inner, resolved)));
            }
        },
        _ => {
            lemma_other_settings(m, op);
        },
    }
}

/// Whether two tables differ in their peers, and where those are found, at most.
pub open spec fn same_but_peers<S, H>(a: ManagerView<S, H>, b: ManagerView<S, H>) -> bool {
    b == (ManagerView {
        peers: b.peers,
        by_tag: b.by_tag,
        by_addr: b.by_addr,
        by_node: b.by_node,
        ..a
    })
}

proof fn lemma_init_settings<S, H>(
    m: ManagerView<S, H>,
    src: SockAddr,
    o: OpenedInit<S>,
    now_ms: u64,
)
    ensures
        same_but_peers(m, m.on_init(src, o, now_ms).0),
{
    assert(same_but_peers(m, m.with_initiator(o)));
}

proof fn lemma_relayed_settings<S, H>(m: ManagerView<S, H>, i: int, o: OpenedInit<S>, now_ms: u64)
    ensures
        same_but_peers(m, m.relayed_init(i, o, now_ms).0),
{
}

#[verifier::spinoff_prover]
#[verifier::rlimit(50)]
proof fn lemma_other_settings<S, H>(m: ManagerView<S, H>, op: Op<S, H>)
    requires
        !(op is SetObf || op is SetCover || op is SetSymbolSize || op is Register || op is Sweep
            || op is Init || op is RelayedInit || op is Tun),
    ensures
        same_but_peers(m, m.after(op)),
{
    reveal(ManagerView::after);
}

proof fn lemma_swept_settings<S, H>(m: ManagerView<S, H>, valid: Seq<bool>, n: nat)
    ensures
        ({
            let s = m.swept(valid, n);
            &&& same_settings(m, s)
            &&& s.obf_key == m.obf_key
            &&& s.cover_traffic_ms == m.cover_traffic_ms
            &&& s.data_symbol_size == m.data_symbol_size
            &&& s.reg_seq == m.reg_seq && s.registered_once == m.registered_once
            &&& s.last_register_ms == m.last_register_ms
            &&& s.reg_refresh_ms == m.reg_refresh_ms
        }),
    decreases n,
{
    if n > 0 {
        lemma_swept_settings(m, valid, (n - 1) as nat);
    }
}

/// A table of a mesh holds every root, but for this node, beside the peers that were
/// configured, which stand first; outside a mesh it holds those alone.
pub proof fn law_mesh_begins_with_its_roots<S, H>(m: ManagerView<S, H>, k: int)
    requires
        m.roots is Some ==> m.peers.len() + m.roots->0.len() <= usize::MAX,
    ensures
        ({
            let w = m.with_all_roots();
            let root = m.roots->0[k];
            &&& m.roots is None ==> w == m
            &&& m.roots is Some ==> m.peers.len() <= w.peers.len()
            &&& m.roots is Some ==> w.peers.take(m.peers.len() as int) == m.peers
            &&& m.roots is Some && 0 <= k < m.roots->0.len() && root.id.public_key
                != m.local.public_key ==> exists|j: int|
                0 <= j < w.peers.len() && (#[trigger] w.peers[j]).id.public_key
                    == root.id.public_key
        }),
{
    if m.roots is Some {
        lemma_roots_frame(m, m.roots->0, m.roots->0.len());
        if 0 <= k < m.roots->0.len() {
            lemma_root_is_there(m, m.roots->0, m.roots->0.len(), k);
        }
    }
}

/// Each setting is what it was set to, and setting one changes nothing else.
pub proof fn law_settings_take_effect<S, H>(
    m: ManagerView<S, H>,
    key: Option<[u8; 16]>,
    ms: Option<u64>,
    size: u16,
)
    ensures
        ({
            let a = m.with_obf_key(key);
            let b = m.with_cover(ms);
            let c = m.with_symbol_size(size);
            &&& a.obf_key == key && b.cover_traffic_ms == ms && c.data_symbol_size == size
            &&& a == (ManagerView { obf_key: a.obf_key, ..m })
            &&& b == (ManagerView { cover_traffic_ms: b.cover_traffic_ms, ..m })
            &&& c == (ManagerView { data_symbol_size: c.data_symbol_size, ..m })
        }),
{
}

} // verus!
