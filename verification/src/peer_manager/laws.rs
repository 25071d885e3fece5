//! What holds of the table of peers over many steps.

use vstd::prelude::*;

use crate::addr::SockAddr;
use crate::epoch::{elapsed, EpochSlot};
use crate::order::{before, law_order_irreflexive, law_order_total, law_order_transitive};
use crate::peer::{
    fresher, queued, Identity, PathKind, PathStage, PathStep, PeerView, StateView, MAX_PENDING_TUN,
};
use crate::peer_manager::handshake::OpenedInit;
use crate::peer_manager::obf::{DeobfView, Decoys, ObfPlan, Trial, Unmasked};
use crate::peer_manager::rounds::PeerTick;
use crate::peer_manager::routing::Member;
use crate::peer_manager::{
    has_key, lemma_first_where, lemma_first_where_finds, lemma_forget_wf, lemma_tag_wf,
    lemma_with_peer_wf, picked, Completed, ManagerView, Pick, ReactionView, Started,
    HANDSHAKE_TOTAL_MS, LOOKUP_INTERVAL_MS, REG_REFRESH_MS,
};
use crate::rendezvous::RdvEventView;
use crate::wire::{plain, BodyView, EgressView, RecordView, WireCodes, TIME_LABEL_LEN};

verus! {

/// A step that changes the table, with what came in from outside.
#[allow(inconsistent_fields)]
pub enum Op<S, H> {
    Admit { id: Identity, endpoints: Seq<SockAddr> },
    SetObf { key: Option<[u8; 16]> },
    SetCover { ms: Option<u64> },
    SetSymbolSize { size: u16 },
    Begin {
        i: int,
        target: SockAddr,
        via_relay: bool,
        now_ms: u64,
        started: Option<Started<H>>,
        draw: u64,
        decoys: Seq<Seq<u8>>,
    },
    Drop { i: int },
    Init { src: SockAddr, o: OpenedInit<S>, now_ms: u64 },
    TakeDirect { src: SockAddr },
    TakeRelayed { i: int },
    Complete {
        i: int,
        src: Option<SockAddr>,
        done: Option<Completed<S>>,
        cert_valid: bool,
        now_ms: u64,
    },
    RelayedInit { i: int, o: OpenedInit<S>, now_ms: u64 },
    Rdv { ev: RdvEventView, record_valid: bool },
    RekeyInit {
        i: int,
        done: Completed<S>,
        resp: Seq<u8>,
        eph: [u8; 32],
        ts: Seq<u8>,
        src: SockAddr,
        via_relay: bool,
    },
    RekeyStep { i: int, started: Option<Started<H>>, now_ms: u64, draw: u64 },
    Rekeyed {
        i: int,
        target: SockAddr,
        via_relay: bool,
        done: Option<Completed<S>>,
        cert_valid: bool,
        now_ms: u64,
    },
    Tun { inner: Seq<u8>, resolved: Option<Member>, now_ms: u64 },
    Active { i: int, now_ms: u64 },
    Opened { i: int, slot: EpochSlot, src: Option<SockAddr>, now_ms: u64 },
    LookUp { i: int, now_ms: u64 },
    PathIdle { i: int, step: PathStep, now_ms: u64 },
    Stage { i: int, stage: PathStage },
    Escalate { i: int, step: PathStep, now_ms: u64 },
    Resend { i: int, now_ms: u64, draw: u64 },
    Retire { i: int },
    Register { signed: Option<RecordView>, now_ms: u64, draw: u64 },
    Cover { i: int, now_ms: u64 },
    Sweep { valid: Seq<bool>, now_ms: u64 },
}

impl<S, H> ManagerView<S, H> {
    /// Whether a step may be taken.
    #[verifier::opaque]
    pub open spec fn allows(self, op: Op<S, H>) -> bool {
        let n = self.peers.len();
        match op {
            Op::Admit { id, endpoints } => self.admitted(id, endpoints).peers.len() <= usize::MAX,
            Op::Init { o, .. } => self.with_initiator(o).peers.len() <= usize::MAX,
            Op::Tun { inner, resolved, .. } => self.with_resolved(inner, resolved).peers.len()
                <= usize::MAX,
            Op::Begin { i, .. } => 0 <= i < n && self.peers[i].state is Idle,
            Op::Drop { i } => 0 <= i < n,
            Op::TakeRelayed { i } => 0 <= i < n,
            Op::Complete { i, .. } => 0 <= i < n && self.peers[i].state is Idle,
            Op::RelayedInit { i, .. } => 0 <= i < n,
            Op::RekeyInit { i, .. } => 0 <= i < n && self.peers[i].state is Established,
            Op::RekeyStep { i, .. } => 0 <= i < n && self.peers[i].state is Established,
            Op::Rekeyed { i, .. } => 0 <= i < n && self.peers[i].state is Established,
            Op::Active { i, .. } => 0 <= i < n,
            Op::Opened { i, .. } => 0 <= i < n && self.peers[i].state is Established,
            Op::LookUp { i, .. } => 0 <= i < n,
            Op::PathIdle { i, .. } => 0 <= i < n,
            Op::Stage { i, .. } => 0 <= i < n,
            Op::Escalate { i, .. } => 0 <= i < n && self.may_escalate(i),
            Op::Resend { i, .. } => 0 <= i < n,
            Op::Retire { i } => 0 <= i < n,
            Op::Cover { i, .. } => 0 <= i < n,
            Op::Sweep { valid, .. } => valid.len() == n,
            _ => true,
        }
    }

    /// The table after a step.
    #[verifier::opaque]
    pub open spec fn after(self, op: Op<S, H>) -> ManagerView<S, H> {
        match op {
            Op::Admit { id, endpoints } => self.admitted(id, endpoints),
            Op::SetObf { key } => self.with_obf_key(key),
            Op::SetCover { ms } => self.with_cover(ms),
            Op::SetSymbolSize { size } => self.with_symbol_size(size),
            Op::Begin { i, target, via_relay, now_ms, started, draw, decoys } => self.begin(
                i,
                target,
                via_relay,
                now_ms,
                started,
                draw,
                decoys,
            ).0,
            Op::Drop { i } => self.dropped(i),
            Op::Init { src, o, now_ms } => self.on_init(src, o, now_ms).0,
            Op::TakeDirect { src } => self.take_direct(src).0,
            Op::TakeRelayed { i } => self.take_relayed(i).0,
            Op::Complete { i, src, done, cert_valid, now_ms } => self.completed(
                i,
                src,
                done,
                cert_valid,
                now_ms,
            ).0,
            Op::RelayedInit { i, o, now_ms } => self.relayed_init(i, o, now_ms).0,
            Op::Rdv { ev, record_valid } => self.rdv_step(ev, record_valid).0,
            Op::RekeyInit { i, done, resp, eph, ts, src, via_relay } => self.rekey_init(
                i,
                done,
                resp,
                eph,
                ts,
                src,
                via_relay,
            ).0,
            Op::RekeyStep { i, started, now_ms, draw } => self.rekey_step(
                i,
                started,
                now_ms,
                draw,
            ).0,
            Op::Rekeyed { i, target, via_relay, done, cert_valid, now_ms } => self.rekeyed(
                i,
                target,
                via_relay,
                done,
                cert_valid,
                now_ms,
            ).0,
            Op::Tun { inner, resolved, now_ms } => self.on_tun(inner, resolved, now_ms).0,
            Op::Active { i, now_ms } => self.with_peer(
                i,
                PeerView { last_activity_ms: now_ms, ..self.peers[i] },
            ),
            Op::Opened { i, slot, src, now_ms } => self.after_open(i, slot, src, now_ms),
            Op::LookUp { i, now_ms } => self.looked_up(i, now_ms).0,
            Op::PathIdle { i, step, now_ms } => self.path_idle(i, step, now_ms).0,
            Op::Stage { i, stage } => self.with_peer(i, PeerView { stage, ..self.peers[i] }),
            Op::Escalate { i, step, now_ms } => self.escalated(i, step, now_ms).0,
            Op::Resend { i, now_ms, draw } => self.resent(i, now_ms, draw).0,
            Op::Retire { i } => self.retired(i),
            Op::Register { signed, now_ms, draw } => self.registered(signed, now_ms, draw).0,
            Op::Cover { i, now_ms } => self.covered(i, Seq::empty(), now_ms).0,
            Op::Sweep { valid, now_ms } => self.after_sweep(valid, now_ms),
        }
    }

    /// The table after the first `n` of a sequence of steps.
    pub open spec fn run(self, ops: Seq<Op<S, H>>, n: nat) -> ManagerView<S, H>
        decreases n,
    {
        if n == 0 {
            self
        } else {
            self.run(ops, (n - 1) as nat).after(ops[n - 1])
        }
    }

    /// Whether each of the first `n` steps may be taken when its turn comes.
    pub open spec fn allows_run(self, ops: Seq<Op<S, H>>, n: nat) -> bool {
        forall|k: int| 0 <= k < n ==> self.run(ops, k as nat).allows(#[trigger] ops[k])
    }
}

/// Whether a time label is the other one or newer.
pub open spec fn not_older(a: Option<Seq<u8>>, b: Option<Seq<u8>>) -> bool {
    match a {
        None => true,
        Some(x) => b matches Some(y) && (x == y || before(x, y)),
    }
}

/// Whether a peer is still itself, no time label was taken back, and what held of its queue
/// and of what belongs to a session still does.
pub open spec fn kept<S, H>(a: PeerView<S, H>, b: PeerView<S, H>) -> bool {
    &&& a.id == b.id
    &&& not_older(a.last_accepted_init_ts, b.last_accepted_init_ts)
    &&& a.pending_tun.len() <= MAX_PENDING_TUN ==> b.pending_tun.len() <= MAX_PENDING_TUN
    &&& a.tidy() ==> b.tidy()
}

/// Whether a table holds every peer of another one, at its place.
pub open spec fn grows<S, H>(a: ManagerView<S, H>, b: ManagerView<S, H>) -> bool {
    &&& a.peers.len() <= b.peers.len()
    &&& a.local == b.local
    &&& forall|j: int| 0 <= j < a.peers.len() ==> kept(#[trigger] a.peers[j], b.peers[j])
}

pub(crate) proof fn lemma_swept_grows<S, H>(m: ManagerView<S, H>, valid: Seq<bool>, n: nat)
    requires
        n <= m.peers.len(),
    ensures
        grows(m, m.swept(valid, n)),
        m.swept(valid, n).peers.len() == m.peers.len(),
        m.wf() ==> m.swept(valid, n).wf(),
        forall|j: int|
            0 <= j < m.peers.len() ==> {
                ||| (#[trigger] m.swept(valid, n).peers[j]) == m.peers[j]
                ||| m.swept(valid, n).peers[j] == m.peers[j].parted()
            },
    decreases n,
{
    if n > 0 {
        lemma_swept_grows(m, valid, (n - 1) as nat);
        let s = m.swept(valid, (n - 1) as nat);
        if m.wf() {
            lemma_dropped_wf(s, n - 1);
        }
    }
}

proof fn lemma_dropped_wf<S, H>(m: ManagerView<S, H>, i: int)
    requires
        m.wf(),
        0 <= i < m.peers.len(),
    ensures
        m.dropped(i).wf(),
{
    let p = m.peers[i].parted();
    assert(m.peer_wf(m.peers[i]));
    lemma_with_peer_wf(m, i, p);
    lemma_forget_wf(m.with_peer(i, p), m.dropped(i).by_tag);
}

/// The table with a member in it is well-formed, and holds every peer that it held.
proof fn lemma_admitted<S, H>(m: ManagerView<S, H>, id: Identity, endpoints: Seq<SockAddr>)
    requires
        m.wf(),
        m.admitted(id, endpoints).peers.len() <= usize::MAX,
    ensures
        m.admitted(id, endpoints).wf(),
        grows(m, m.admitted(id, endpoints)),
{
    let n = m.admitted(id, endpoints);
    assert forall|j: int| 0 <= j < n.peers.len() implies n.peer_wf(#[trigger] n.peers[j]) by {
        if j < m.peers.len() {
            assert(m.peer_wf(m.peers[j]));
        }
    }
}

/// A table in which one peer changed, and stayed itself, is well-formed.
proof fn lemma_one_peer<S, H>(m: ManagerView<S, H>, i: int, p: PeerView<S, H>)
    requires
        m.wf(),
        0 <= i < m.peers.len(),
        kept(m.peers[i], p),
    ensures
        m.with_peer(i, p).wf(),
        grows(m, m.with_peer(i, p)),
{
    assert(m.peer_wf(m.peers[i]));
    lemma_with_peer_wf(m, i, p);
}

proof fn lemma_rekey_init<S, H>(
    m: ManagerView<S, H>,
    i: int,
    done: Completed<S>,
    resp: Seq<u8>,
    eph: [u8; 32],
    ts: Seq<u8>,
    src: SockAddr,
    via_relay: bool,
)
    requires
        m.wf(),
        0 <= i < m.peers.len(),
        m.peers[i].state is Established,
    ensures
        m.rekey_init(i, done, resp, eph, ts, src, via_relay).0.wf(),
        grows(m, m.rekey_init(i, done, resp, eph, ts, src, via_relay).0),
{
    let n = m.rekey_init(i, done, resp, eph, ts, src, via_relay).0;
    lemma_one_peer(m, i, n.peers[i]);
    assert(n =~= m.with_peer(i, n.peers[i]));
}

proof fn lemma_accepted<S, H>(
    m: ManagerView<S, H>,
    i: int,
    src: Option<SockAddr>,
    done: Completed<S>,
    ts: Seq<u8>,
    eph: [u8; 32],
    resp: Seq<u8>,
    now_ms: u64,
)
    requires
        m.wf(),
        0 <= i < m.peers.len() <= usize::MAX,
        fresher(m.peers[i].last_accepted_init_ts, ts),
    ensures
        m.accepted(i, src, done, ts, eph, resp, now_ms).wf(),
        grows(m, m.accepted(i, src, done, ts, eph, resp, now_ms)),
{
    let n = m.accepted(i, src, done, ts, eph, resp, now_ms);
    lemma_one_peer(m, i, n.peers[i]);
    lemma_tag_wf(m.with_peer(i, n.peers[i]), done.conn_tag, i as usize);
}

/// Every step keeps the table well-formed and every peer in its place, and no step takes
/// a time label back: what was accepted once is not accepted again, whatever happens in
/// between.
pub proof fn law_labels_never_go_back<S, H>(m: ManagerView<S, H>, op: Op<S, H>)
    requires
        m.wf(),
        m.peers.len() <= usize::MAX,
        m.allows(op),
    ensures
        m.after(op).wf(),
        grows(m, m.after(op)),
{
    reveal(ManagerView::after);
    reveal(ManagerView::allows);
    match op {
        Op::Admit { id, endpoints } => {
            lemma_admitted(m, id, endpoints);
        },
        Op::SetObf { .. } | Op::SetCover { .. } | Op::SetSymbolSize { .. } | Op::Register { .. } => {
            lemma_settings_step(m, m.after(op));
        },
        Op::Drop { i } => {
            lemma_dropped_wf(m, i);
        },
        Op::Init { src, o, now_ms } => {
            lemma_init_step(m, src, o, now_ms);
        },
        Op::TakeDirect { src } => {
            lemma_take_step(m, src);
        },
        Op::Complete { i, src, done, cert_valid, now_ms } => {
            lemma_complete_step(m, i, src, done, cert_valid, now_ms);
        },
        Op::RelayedInit { i, o, now_ms } => {
            lemma_relayed_step(m, i, o, now_ms);
        },
        Op::Rdv { ev, record_valid } => {
            lemma_rdv_step(m, ev, record_valid);
        },
        Op::RekeyInit { i, done, resp, eph, ts, src, via_relay } => {
            lemma_rekey_init(m, i, done, resp, eph, ts, src, via_relay);
        },
        Op::Rekeyed { i, target, via_relay, done, cert_valid, now_ms } => {
            lemma_rekeyed_step(m, i, target, via_relay, done, cert_valid, now_ms);
        },
        Op::Tun { inner, resolved, now_ms } => {
            lemma_tun_step(m, inner, resolved, now_ms);
        },
        Op::Sweep { valid, now_ms } => {
            lemma_sweep_step(m, valid, now_ms);
        },
        _ => {
            let i = one_peer(op);
            lemma_one_peer_step(m, op);
            lemma_one_peer(m, i, m.after(op).peers[i]);
        },
    }
}

/// The only peer that a step of one of the simpler kinds changes.
spec fn one_peer<S, H>(op: Op<S, H>) -> int {
    match op {
        Op::Begin { i, .. } => i,
        Op::TakeRelayed { i } => i,
        Op::RekeyStep { i, .. } => i,
        Op::Active { i, .. } => i,
        Op::Opened { i, .. } => i,
        Op::LookUp { i, .. } => i,
        Op::PathIdle { i, .. } => i,
        Op::Stage { i, .. } => i,
        Op::Escalate { i, .. } => i,
        Op::Resend { i, .. } => i,
        Op::Retire { i } => i,
        Op::Cover { i, .. } => i,
        _ => -1,
    }
}

proof fn lemma_one_peer_step<S, H>(m: ManagerView<S, H>, op: Op<S, H>)
    requires
        m.wf(),
        one_peer(op) >= 0,
        m.allows(op),
    ensures
        m.only_peer(m.after(op), one_peer(op)),
        kept(m.peers[one_peer(op)], m.after(op).peers[one_peer(op)]),
{
    reveal(ManagerView::after);
    reveal(ManagerView::allows);
    let i = one_peer(op);
    let n = m.after(op);
    assert(n.peers =~= m.with_peer(i, n.peers[i]).peers);
    assert(n =~= m.with_peer(i, n.peers[i]));
}

proof fn lemma_settings_step<S, H>(m: ManagerView<S, H>, n: ManagerView<S, H>)
    requires
        m.wf(),
        n.peers == m.peers,
        n.local == m.local,
        n.codes == m.codes,
        n.by_tag == m.by_tag,
        n.by_addr == m.by_addr,
        n.by_node == m.by_node,
    ensures
        n.wf(),
        grows(m, n),
{
    assert forall|j: int| 0 <= j < n.peers.len() implies n.peer_wf(#[trigger] n.peers[j]) by {
        assert(m.peer_wf(m.peers[j]));
    }
}

proof fn lemma_take_step<S, H>(m: ManagerView<S, H>, src: SockAddr)
    requires
        m.wf(),
    ensures
        m.take_direct(src).0.wf(),
        grows(m, m.take_direct(src).0),
{
    let n = m.take_direct(src).0;
    lemma_first_where_finds(m.peers, picked::<S, H>(Pick::Rekeying, src), 0);
    lemma_first_where_finds(m.peers, picked::<S, H>(Pick::Handshaking, src), 0);
    match m.find_at(Pick::Rekeying, src) {
        Some(i) => {
            lemma_one_peer(m, i, n.peers[i]);
            assert(n =~= m.with_peer(i, n.peers[i]));
        },
        None => match m.find_at(Pick::Handshaking, src) {
            Some(i) => {
                lemma_one_peer(m, i, n.peers[i]);
                assert(n =~= m.with_peer(i, n.peers[i]));
            },
            None => {},
        },
    }
}

pub(crate) proof fn lemma_complete_step<S, H>(
    m: ManagerView<S, H>,
    i: int,
    src: Option<SockAddr>,
    done: Option<Completed<S>>,
    cert_valid: bool,
    now_ms: u64,
)
    requires
        m.wf(),
        0 <= i < m.peers.len() <= usize::MAX,
    ensures
        m.completed(i, src, done, cert_valid, now_ms).0.wf(),
        grows(m, m.completed(i, src, done, cert_valid, now_ms).0),
{
    let n = m.completed(i, src, done, cert_valid, now_ms).0;
    lemma_one_peer(m, i, n.peers[i]);
    if n != m {
        lemma_tag_wf(m.with_peer(i, n.peers[i]), done->0.conn_tag, i as usize);
    }
}

proof fn lemma_rdv_step<S, H>(m: ManagerView<S, H>, ev: RdvEventView, record_valid: bool)
    requires
        m.wf(),
    ensures
        m.rdv_step(ev, record_valid).0.wf(),
        grows(m, m.rdv_step(ev, record_valid).0),
{
    match ev {
        RdvEventView::Relayed { src, payload } => match m.sessionless(src) {
            Some(j) => {
                lemma_one_peer(m, j as int, PeerView { relay: true, ..m.peers[j as int] });
            },
            None => {},
        },
        _ => {},
    }
}

proof fn lemma_rekeyed_step<S, H>(
    m: ManagerView<S, H>,
    i: int,
    target: SockAddr,
    via_relay: bool,
    done: Option<Completed<S>>,
    cert_valid: bool,
    now_ms: u64,
)
    requires
        m.wf(),
        0 <= i < m.peers.len() <= usize::MAX,
        m.peers[i].state is Established,
    ensures
        m.rekeyed(i, target, via_relay, done, cert_valid, now_ms).0.wf(),
        grows(m, m.rekeyed(i, target, via_relay, done, cert_valid, now_ms).0),
{
    let n = m.rekeyed(i, target, via_relay, done, cert_valid, now_ms).0;
    lemma_one_peer(m, i, n.peers[i]);
    if n != m {
        let w = m.with_peer(i, n.peers[i]);
        let without = w.by_tag.remove(m.peers[i].epochs().current.conn_tag);
        lemma_forget_wf(w, without);
        lemma_tag_wf(ManagerView { by_tag: without, ..w }, done->0.conn_tag, i as usize);
    }
}

proof fn lemma_tun_step<S, H>(
    m: ManagerView<S, H>,
    inner: Seq<u8>,
    resolved: Option<Member>,
    now_ms: u64,
)
    requires
        m.wf(),
        m.with_resolved(inner, resolved).peers.len() <= usize::MAX,
    ensures
        m.on_tun(inner, resolved, now_ms).0.wf(),
        grows(m, m.on_tun(inner, resolved, now_ms).0),
{
    let n = m.on_tun(inner, resolved, now_ms).0;
    let w = m.with_resolved(inner, resolved);
    if w != m {
        lemma_admitted(m, resolved->0.id, resolved->0.endpoints@);
    }
    match w.tun_route(inner) {
        Some(i) => {
            assert(w.peer_wf(w.peers[i]));
            lemma_one_peer(w, i, n.peers[i]);
        },
        None => {},
    }
}

proof fn lemma_sweep_step<S, H>(m: ManagerView<S, H>, valid: Seq<bool>, now_ms: u64)
    requires
        m.wf(),
        valid.len() == m.peers.len(),
    ensures
        m.after(Op::Sweep { valid, now_ms }).wf(),
        grows(m, m.after(Op::Sweep { valid, now_ms })),
{
    reveal(ManagerView::after);
    reveal(ManagerView::allows);
    let w = ManagerView { last_cert_sweep_ms: now_ms, ..m };
    lemma_settings_step(m, w);
    lemma_swept_grows(w, valid, valid.len());
}

pub(crate) proof fn lemma_init_step<S, H>(m: ManagerView<S, H>, src: SockAddr, o: OpenedInit<S>, now_ms: u64)
    requires
        m.wf(),
        m.with_initiator(o).peers.len() <= usize::MAX,
    ensures
        m.on_init(src, o, now_ms).0.wf(),
        grows(m, m.on_init(src, o, now_ms).0),
{
    let w = m.with_initiator(o);
    let ts = o.payload@.take(12);
    if w != m {
        lemma_admitted(m, o.remote, Seq::empty());
    }
    lemma_first_where_finds(w.peers, has_key(o.remote.public_key), 0);
    match w.find_key(o.remote.public_key) {
        Some(i) => {
            let p = w.peers[i];
            if p.state is Established {
                lemma_rekey_init(w, i, o.done, o.resp_pkt@, o.eph, ts, src, false);
                lemma_dropped_wf(w, i);
            } else if fresher(p.last_accepted_init_ts, ts) {
                lemma_accepted(w, i, Some(src), o.done, ts, o.eph, o.resp_pkt@, now_ms);
            }
        },
        None => {},
    }
}

proof fn lemma_relayed_step<S, H>(m: ManagerView<S, H>, i: int, o: OpenedInit<S>, now_ms: u64)
    requires
        m.wf(),
        0 <= i < m.peers.len() <= usize::MAX,
    ensures
        m.relayed_init(i, o, now_ms).0.wf(),
        grows(m, m.relayed_init(i, o, now_ms).0),
{
    let ts = o.payload@.take(12);
    let p = m.peers[i];
    if p.state is Established {
        let w = m.with_peer(i, PeerView { relay: true, ..p });
        lemma_one_peer(m, i, PeerView { relay: true, ..p });
        lemma_rekey_init(m, i, o.done, o.resp_pkt@, o.eph, ts, m.server(), true);
        lemma_rekey_init(w, i, o.done, o.resp_pkt@, o.eph, ts, m.server(), true);
        lemma_dropped_wf(m, i);
    } else if fresher(p.last_accepted_init_ts, ts) {
        lemma_accepted(m, i, None, o.done, ts, o.eph, o.resp_pkt@, now_ms);
    }
}

proof fn lemma_not_older_transitive(a: Option<Seq<u8>>, b: Option<Seq<u8>>, c: Option<Seq<u8>>)
    requires
        not_older(a, b),
        not_older(b, c),
    ensures
        not_older(a, c),
{
    if a is Some && a != b && b != c {
        law_order_transitive(a->0, b->0, c->0);
    }
}

/// Over any sequence of steps the table stays well-formed, no peer leaves it, and no time
/// label is taken back.
pub proof fn law_labels_never_go_back_over_runs<S, H>(
    m: ManagerView<S, H>,
    ops: Seq<Op<S, H>>,
    n: nat,
)
    requires
        m.wf(),
        m.peers.len() <= usize::MAX,
        n <= ops.len(),
        m.allows_run(ops, n),
    ensures
        m.run(ops, n).wf(),
        m.run(ops, n).peers.len() <= usize::MAX,
        grows(m, m.run(ops, n)),
    decreases n,
{
    if n > 0 {
        let k = (n - 1) as nat;
        assert(m.allows_run(ops, k));
        law_labels_never_go_back_over_runs(m, ops, k);
        let w = m.run(ops, k);
        assert(w.allows(ops[k as int]));
        law_labels_never_go_back(w, ops[k as int]);
        lemma_len_after(w, ops[k as int]);
        let z = m.run(ops, n);
        assert forall|j: int| 0 <= j < m.peers.len() implies kept(
            #[trigger] m.peers[j],
            z.peers[j],
        ) by {
            assert(kept(m.peers[j], w.peers[j]));
            assert(kept(w.peers[j], z.peers[j]));
            lemma_not_older_transitive(
                m.peers[j].last_accepted_init_ts,
                w.peers[j].last_accepted_init_ts,
                z.peers[j].last_accepted_init_ts,
            );
        }
    }
}

proof fn lemma_len_after<S, H>(m: ManagerView<S, H>, op: Op<S, H>)
    requires
        m.wf(),
        m.peers.len() <= usize::MAX,
        m.allows(op),
    ensures
        m.after(op).peers.len() <= usize::MAX,
{
    reveal(ManagerView::after);
    reveal(ManagerView::allows);
    match op {
        Op::Init { src, o, now_ms } => {
            let w = m.with_initiator(o);
            lemma_first_where_finds(w.peers, has_key(o.remote.public_key), 0);
        },
        Op::TakeDirect { src } => {
            lemma_first_where_finds(m.peers, picked::<S, H>(Pick::Rekeying, src), 0);
            lemma_first_where_finds(m.peers, picked::<S, H>(Pick::Handshaking, src), 0);
        },
        Op::Sweep { valid, now_ms } => {
            lemma_swept_grows(
                ManagerView { last_cert_sweep_ms: now_ms, ..m },
                valid,
                valid.len(),
            );
        },
        _ => {},
    }
}

/// A direct handshake whose label is not newer than all that were accepted from its
/// initiator builds nothing and moves nobody: the table stays as it is, but for a live
/// session that ends because the certificate does not admit any more.
pub proof fn law_stale_init_builds_nothing<S, H>(
    m: ManagerView<S, H>,
    src: SockAddr,
    o: OpenedInit<S>,
    now_ms: u64,
    i: int,
)
    requires
        m.find_key(o.remote.public_key) == Some(i),
        !fresher(m.peers[i].last_accepted_init_ts, o.payload@.take(12)),
    ensures
        m.on_init(src, o, now_ms).1.seal is None,
        m.on_init(src, o, now_ms).0 == m || (m.on_init(src, o, now_ms).0 == m.dropped(i)
            && !m.cert_admits(o.remote.public_key, o.cert_valid)),
{
}

/// The same through the relay.
pub proof fn law_stale_relayed_init_builds_nothing<S, H>(
    m: ManagerView<S, H>,
    i: int,
    o: OpenedInit<S>,
    now_ms: u64,
)
    requires
        0 <= i < m.peers.len(),
        !fresher(m.peers[i].last_accepted_init_ts, o.payload@.take(12)),
    ensures
        m.relayed_init(i, o, now_ms).1.seal is None,
        m.relayed_init(i, o, now_ms).0 == m || (m.relayed_init(i, o, now_ms).0 == m.dropped(i)
            && !m.cert_admits(o.remote.public_key, o.cert_valid)),
{
}

/// A handshake that was accepted once is never accepted again, neither directly nor
/// through the relay, whatever steps came between and whether its session lives or not:
/// it builds no session, moves nobody and changes nothing, but that a live session ends
/// whose certificate does not admit any more.
pub proof fn law_replay_is_refused<S, H>(
    m: ManagerView<S, H>,
    i: int,
    ops: Seq<Op<S, H>>,
    replay: OpenedInit<S>,
    src: SockAddr,
    now_ms: u64,
)
    requires
        m.wf(),
        m.peers.len() <= usize::MAX,
        0 <= i < m.peers.len(),
        m.peers[i].last_accepted_init_ts == Some(replay.payload@.take(12)),
        m.allows_run(ops, ops.len()),
    ensures
        ({
            let z = m.run(ops, ops.len());
            let (n, r) = z.on_init(src, replay, now_ms);
            z.find_key(replay.remote.public_key) == Some(i) ==> {
                &&& r.seal is None
                &&& n == z || (n == z.dropped(i) && !z.cert_admits(
                    replay.remote.public_key,
                    replay.cert_valid,
                ))
            }
        }),
        ({
            let z = m.run(ops, ops.len());
            let (n, r) = z.relayed_init(i, replay, now_ms);
            &&& r.seal is None
            &&& n == z || (n == z.dropped(i) && !z.cert_admits(
                replay.remote.public_key,
                replay.cert_valid,
            ))
        }),
{
    law_labels_never_go_back_over_runs(m, ops, ops.len());
    let z = m.run(ops, ops.len());
    let ts = replay.payload@.take(12);
    assert(kept(m.peers[i], z.peers[i]));
    let last = z.peers[i].last_accepted_init_ts->0;
    law_order_irreflexive(ts);
    if before(last, ts) && before(ts, last) {
        law_order_transitive(ts, last, ts);
    }
    assert(!fresher(z.peers[i].last_accepted_init_ts, ts));
    if z.find_key(replay.remote.public_key) == Some(i) {
        law_stale_init_builds_nothing(z, src, replay, now_ms, i);
    }
    law_stale_relayed_init_builds_nothing(z, i, replay, now_ms);
}

/// Accepting a handshake records its label, directly and through the relay, for a first
/// session and for a rekey.
pub proof fn law_accepting_records_label<S, H>(
    m: ManagerView<S, H>,
    i: int,
    src: Option<SockAddr>,
    done: Completed<S>,
    ts: Seq<u8>,
    eph: [u8; 32],
    resp: Seq<u8>,
    now_ms: u64,
)
    requires
        0 <= i < m.peers.len(),
    ensures
        m.accepted(i, src, done, ts, eph, resp, now_ms).peers[i].last_accepted_init_ts == Some(ts),
        forall|addr: SockAddr, via_relay: bool|
            m.peers[i].state is Established && #[trigger] m.rekey_init(
                i,
                done,
                resp,
                eph,
                ts,
                addr,
                via_relay,
            ).0 != m ==> m.rekey_init(
                i,
                done,
                resp,
                eph,
                ts,
                addr,
                via_relay,
            ).0.peers[i].last_accepted_init_ts == Some(ts),
{
}

/// Ending a session keeps the label.
pub proof fn law_dropping_keeps_label<S, H>(m: ManagerView<S, H>, i: int)
    requires
        0 <= i < m.peers.len(),
    ensures
        m.dropped(i).peers[i].last_accepted_init_ts == m.peers[i].last_accepted_init_ts,
{
}

/// The answer that built a session ends with it: after any step, a peer without a session
/// holds neither an answer nor the key of the handshake that it answered, nor a session's
/// obfuscation key.
pub proof fn law_no_session_no_answer<S, H>(m: ManagerView<S, H>, op: Op<S, H>, j: int)
    requires
        m.wf(),
        m.peers.len() <= usize::MAX,
        m.allows(op),
        0 <= j < m.after(op).peers.len(),
        m.after(op).peers[j].state !is Established,
    ensures
        m.after(op).peers[j].cached_resp is None,
        m.after(op).peers[j].cached_resp_init_eph is None,
        m.after(op).peers[j].session_obf_key is None,
{
    law_labels_never_go_back(m, op);
    assert(m.after(op).peer_wf(m.after(op).peers[j]));
}

/// Ending a session leaves no answer behind, and a session that this side began has none,
/// so that no answer outlives the session that it built.
pub proof fn law_own_session_has_no_answer<S, H>(
    m: ManagerView<S, H>,
    i: int,
    src: Option<SockAddr>,
    done: Option<Completed<S>>,
    cert_valid: bool,
    now_ms: u64,
)
    requires
        m.wf(),
        0 <= i < m.peers.len(),
    ensures
        m.dropped(i).peers[i].cached_resp is None,
        m.dropped(i).peers[i].cached_resp_init_eph is None,
        m.peers[i].state is Idle ==> {
            let p = m.completed(i, src, done, cert_valid, now_ms).0.peers[i];
            p.cached_resp is None && p.cached_resp_init_eph is None
        },
{
    assert(m.peer_wf(m.peers[i]));
}

/// A stranger is not answered and leaves no trace: one that is not in the table and, in a
/// mesh, brings no valid certificate.
pub proof fn law_stranger_gets_nothing<S, H>(
    m: ManagerView<S, H>,
    src: SockAddr,
    o: OpenedInit<S>,
    now_ms: u64,
)
    requires
        m.find_key(o.remote.public_key) is None,
        m.roots is None || !o.cert_valid,
    ensures
        m.on_init(src, o, now_ms) == (m, ReactionView::nothing()),
{
}

/// What the server says never touches a live session: not where its peer is, not whether
/// it is relayed, not its epochs.
pub proof fn law_server_cannot_touch_live_sessions<S, H>(
    m: ManagerView<S, H>,
    ev: RdvEventView,
    record_valid: bool,
    j: int,
)
    requires
        m.wf(),
        0 <= j < m.peers.len(),
        m.peers[j].state is Established,
    ensures
        m.rdv_step(ev, record_valid).0.peers[j] == m.peers[j],
{
}

/// Admitting a member, also one that the directory gave, changes no peer that is there.
pub proof fn law_admitting_changes_nobody<S, H>(
    m: ManagerView<S, H>,
    id: Identity,
    endpoints: Seq<SockAddr>,
    j: int,
)
    requires
        0 <= j < m.peers.len(),
    ensures
        m.admitted(id, endpoints).peers[j] == m.peers[j],
{
}

/// Admitting a member twice is admitting it once.
pub proof fn law_admitting_is_idempotent<S, H>(
    m: ManagerView<S, H>,
    id: Identity,
    endpoints: Seq<SockAddr>,
    again: Seq<SockAddr>,
)
    ensures
        m.admitted(id, endpoints).admitted(id, again) == m.admitted(id, endpoints),
{
    let n = m.admitted(id, endpoints);
    if n != m {
        let k = m.peers.len() as int;
        let p = has_key::<S, H>(id.public_key);
        lemma_first_where_finds(m.peers, p, 0);
        assert forall|j: int| 0 <= j < k implies !p(#[trigger] n.peers[j]) by {
            assert(n.peers[j] == m.peers[j]);
        }
        lemma_first_where(n.peers, p, 0, k);
        assert(n.peers[k].id == id);
    }
}

/// No key is in the table twice, if none was before.
pub proof fn law_keys_stay_unique<S, H>(
    m: ManagerView<S, H>,
    id: Identity,
    endpoints: Seq<SockAddr>,
    a: int,
    b: int,
)
    requires
        forall|i: int, j: int|
            0 <= i < j < m.peers.len() ==> (#[trigger] m.peers[i]).id.public_key != (
            #[trigger] m.peers[j]).id.public_key,
        0 <= a < b < m.admitted(id, endpoints).peers.len(),
    ensures
        m.admitted(id, endpoints).peers[a].id.public_key != m.admitted(
            id,
            endpoints,
        ).peers[b].id.public_key,
{
    lemma_first_where_finds(m.peers, has_key::<S, H>(id.public_key), 0);
}

/// A packet for the address of a member that was just admitted goes to that member.
pub proof fn law_admitted_member_is_routed<S, H>(
    m: ManagerView<S, H>,
    id: Identity,
    endpoints: Seq<SockAddr>,
    inner: Seq<u8>,
)
    requires
        m.peers.len() < usize::MAX,
        m.mode is L3Tun,
        m.admitted(id, endpoints) != m,
        crate::wire::ipv6_dst_spec(inner) == Some(id.addr),
    ensures
        m.admitted(id, endpoints).tun_route(inner) == Some(m.peers.len() as int),
        m.admitted(id, endpoints).peers[m.peers.len() as int].id == id,
{
}

/// A peer that is reached through the relay is never moved by where a datagram came from.
pub proof fn law_relayed_peer_never_roams<S, H>(p: PeerView<S, H>, src: SockAddr)
    requires
        p.relay,
    ensures
        p.seen_at(src) == p,
{
}

/// A direct peer is where its last datagram that opened came from, and its session sends
/// there from then on.
pub proof fn law_direct_peer_roams<S, H>(
    m: ManagerView<S, H>,
    i: int,
    slot: EpochSlot,
    src: SockAddr,
    now_ms: u64,
)
    requires
        0 <= i < m.peers.len(),
        m.peers[i].state is Established,
        !m.peers[i].relay,
        m.peers[i].endpoint != Some(src),
    ensures
        ({
            let p = m.after_open(i, slot, Some(src), now_ms).peers[i];
            &&& p.endpoint == Some(src)
            &&& p.state is Established
            &&& p.epochs().current.peer_addr == src
        }),
{
}

/// The epoch that sends is left alone by the schedule of rekeys, by answering a rekey and
/// by taking one out, and by a rekey that does not complete.
pub proof fn law_rekey_spares_current_epoch<S, H>(
    m: ManagerView<S, H>,
    i: int,
    started: Option<Started<H>>,
    done: Completed<S>,
    resp: Seq<u8>,
    eph: [u8; 32],
    ts: Seq<u8>,
    src: SockAddr,
    via_relay: bool,
    cert_valid: bool,
    now_ms: u64,
    draw: u64,
)
    requires
        0 <= i < m.peers.len(),
        m.peers[i].state is Established,
    ensures
        ({
            let cur = m.peers[i].epochs().current;
            &&& m.rekey_step(i, started, now_ms, draw).0.peers[i].epochs().current == cur
            &&& m.rekey_init(i, done, resp, eph, ts, src, via_relay).0.peers[i].epochs().current
                == cur
            &&& m.take_rekey(i).0.peers[i].epochs().current == cur
        }),
        m.rekeyed(i, src, via_relay, None, cert_valid, now_ms).0 == m,
        !m.cert_admits(m.peers[i].id.public_key, cert_valid) ==> m.rekeyed(
            i,
            src,
            via_relay,
            Some(done),
            cert_valid,
            now_ms,
        ).0 == m,
{
}

/// A rekey that completes keeps the epoch that sent before, so that what is under way
/// still opens, and takes the tag over.
pub proof fn law_rekey_keeps_previous_epoch<S, H>(
    m: ManagerView<S, H>,
    i: int,
    target: SockAddr,
    via_relay: bool,
    done: Completed<S>,
    cert_valid: bool,
    now_ms: u64,
)
    requires
        0 <= i < m.peers.len() <= usize::MAX,
        m.peers[i].state is Established,
        m.cert_admits(m.peers[i].id.public_key, cert_valid),
    ensures
        ({
            let (n, r) = m.rekeyed(i, target, via_relay, Some(done), cert_valid, now_ms);
            let e = n.peers[i].epochs();
            &&& e.previous == Some(m.peers[i].epochs().current)
            &&& e.current.conn_tag == done.conn_tag
            &&& n.by_tag[done.conn_tag] == i
            &&& m.peers[i].epochs().current.conn_tag != done.conn_tag ==> !n.by_tag.contains_key(
                m.peers[i].epochs().current.conn_tag,
            )
            &&& n.peers[i].session_obf_key == m.peers[i].session_obf_key
            &&& r.seal matches Some(s) && s.1.len() > 0
        }),
{
}

/// A handshake that comes again is answered as it was the first time, byte for byte, and
/// builds nothing more: after it prepared the next epoch.
pub proof fn law_repeated_rekey_same_answer<S, H>(
    m: ManagerView<S, H>,
    i: int,
    done: Completed<S>,
    resp: Seq<u8>,
    eph: [u8; 32],
    ts: Seq<u8>,
    src: SockAddr,
    via_relay: bool,
    done2: Completed<S>,
    resp2: Seq<u8>,
    ts2: Seq<u8>,
)
    requires
        0 <= i < m.peers.len(),
        m.peers[i].state is Established,
        m.peers[i].cached_resp_init_eph != Some(eph),
        m.rekey_init(i, done, resp, eph, ts, src, via_relay).0 != m,
    ensures
        ({
            let (n, r) = m.rekey_init(i, done, resp, eph, ts, src, via_relay);
            n.rekey_init(i, done2, resp2, eph, ts2, src, via_relay) == (n, r)
        }),
{
}

/// The same after it built the session.
pub proof fn law_repeated_init_same_answer<S, H>(
    m: ManagerView<S, H>,
    i: int,
    src: SockAddr,
    done: Completed<S>,
    ts: Seq<u8>,
    eph: [u8; 32],
    resp: Seq<u8>,
    now_ms: u64,
    done2: Completed<S>,
    resp2: Seq<u8>,
    ts2: Seq<u8>,
)
    requires
        0 <= i < m.peers.len(),
    ensures
        ({
            let n = m.accepted(i, Some(src), done, ts, eph, resp, now_ms);
            n.rekey_init(i, done2, resp2, eph, ts2, src, false) == (
                n,
                ReactionView::send(seq![plain(src, resp)]),
            )
        }),
{
}

/// A session that this side began does not follow its peer to the relay: a relayed
/// handshake leaves it alone.
pub proof fn law_initiator_session_stays_direct<S, H>(
    m: ManagerView<S, H>,
    i: int,
    o: OpenedInit<S>,
    now_ms: u64,
)
    requires
        0 <= i < m.peers.len(),
        m.peers[i].state is Established,
        !m.peers[i].relay,
        m.peers[i].last_accepted_init_ts is None,
        m.cert_admits(o.remote.public_key, o.cert_valid),
    ensures
        m.relayed_init(i, o, now_ms) == (m, ReactionView::nothing()),
{
}

/// Whether peer `i` waits for the answer to its handshake, and the handshake `o` that comes
/// in from it is one to accept.
pub open spec fn crossed_by<S, H>(m: ManagerView<S, H>, i: int, o: OpenedInit<S>) -> bool {
    &&& m.find_key(o.remote.public_key) == Some(i)
    &&& m.peers[i].state is Handshaking
    &&& o.payload@.len() >= TIME_LABEL_LEN
    &&& m.cert_admits(o.remote.public_key, o.cert_valid)
    &&& fresher(m.peers[i].last_accepted_init_ts, o.payload@.take(12))
}

/// Whether a table answered the handshake `o` of peer `i` with exactly one datagram, and
/// has the session that it builds.
pub open spec fn answered_with<S, H>(
    n: ManagerView<S, H>,
    r: ReactionView,
    i: int,
    o: OpenedInit<S>,
    egress: Seq<EgressView>,
) -> bool {
    &&& n.peers[i].state is Established
    &&& n.peers[i].epochs().current.session == o.done.session
    &&& n.peers[i].cached_resp_init_eph == Some(o.eph)
    &&& r.egress == egress
}

/// When the handshakes of two nodes cross, exactly one of them answers, and has the
/// session; the other one, whose key is the smaller, ignores the handshake that comes in
/// and stays as it is, so that it still holds the one that is answered.
pub proof fn law_glare_has_one_winner<S, H>(
    a: ManagerView<S, H>,
    b: ManagerView<S, H>,
    i: int,
    j: int,
    to_a: OpenedInit<S>,
    to_b: OpenedInit<S>,
    at_a: SockAddr,
    at_b: SockAddr,
    now_ms: u64,
)
    requires
        a.local.public_key != b.local.public_key,
        to_a.remote.public_key == b.local.public_key,
        to_b.remote.public_key == a.local.public_key,
        crossed_by(a, i, to_a),
        crossed_by(b, j, to_b),
    ensures
        ({
            let (x, r) = a.on_init(at_b, to_a, now_ms);
            let (y, q) = b.on_init(at_a, to_b, now_ms);
            if before(a.local.public_key@, b.local.public_key@) {
                &&& (x, r) == (a, ReactionView::nothing())
                &&& answered_with(y, q, j, to_b, seq![plain(at_a, to_b.resp_pkt@)])
            } else {
                &&& answered_with(x, r, i, to_a, seq![plain(at_b, to_a.resp_pkt@)])
                &&& (y, q) == (b, ReactionView::nothing())
            }
        }),
        ({
            let (x, r) = a.relayed_init(i, to_a, now_ms);
            let (y, q) = b.relayed_init(j, to_b, now_ms);
            if before(a.local.public_key@, b.local.public_key@) {
                &&& (x, r) == (a, ReactionView::nothing())
                &&& answered_with(y, q, j, to_b, b.wrapped(j, to_b.resp_pkt@))
            } else {
                &&& answered_with(x, r, i, to_a, a.wrapped(i, to_a.resp_pkt@))
                &&& (y, q) == (b, ReactionView::nothing())
            }
        }),
{
    let (ka, kb) = (a.local.public_key, b.local.public_key);
    if ka@ == kb@ {
        assert(ka =~= kb);
    }
    law_order_total(ka@, kb@);
    lemma_first_where_finds(a.peers, has_key::<S, H>(kb), 0);
    lemma_first_where_finds(b.peers, has_key::<S, H>(ka), 0);
}

/// The side that ignored a crossing handshake still completes its own by the answer: the
/// two nodes end with one session.
pub proof fn law_glare_ends_with_one_session<S, H>(
    m: ManagerView<S, H>,
    i: int,
    o: OpenedInit<S>,
    src: SockAddr,
    done: Completed<S>,
    cert_valid: bool,
    now_ms: u64,
)
    requires
        crossed_by(m, i, o),
        before(m.local.public_key@, o.remote.public_key@),
        m.find_at(Pick::Rekeying, src) is None,
        m.find_at(Pick::Handshaking, src) == Some(i),
        m.cert_admits(o.remote.public_key, cert_valid),
    ensures
        ({
            let n = m.on_init(src, o, now_ms).0;
            let (t, attempt) = n.take_direct(src);
            let p = t.completed(i, Some(src), Some(done), cert_valid, now_ms).0.peers[i];
            &&& attempt is Some && attempt->0.hs == m.peers[i].state->Handshaking_0.hs
            &&& p.state is Established
            &&& p.epochs().current.session == done.session
        }),
{
    lemma_first_where_finds(m.peers, has_key::<S, H>(o.remote.public_key), 0);
}

/// Ending a session forgets every tag it had, and doing so twice is doing so once.
pub proof fn law_dropping_forgets_tags<S, H>(m: ManagerView<S, H>, i: int, t: u64)
    requires
        0 <= i < m.peers.len(),
    ensures
        m.dropped(i).peers[i].state is Idle,
        (m.peers[i].state is Established && m.peers[i].epochs().holds_tag(t))
            ==> !m.dropped(i).by_tag.contains_key(t),
        m.dropped(i).dropped(i) == m.dropped(i),
{
    assert(m.dropped(i).dropped(i).peers =~= m.dropped(i).peers);
}

/// What a handshake begins with: through the relay, or with obfuscation off, exactly one
/// datagram; else three to twelve decoys to the same address, then the handshake.
pub proof fn law_begin_shape<S, H>(
    m: ManagerView<S, H>,
    i: int,
    target: SockAddr,
    via_relay: bool,
    now_ms: u64,
    started: Started<H>,
    draw: u64,
    decoys: Seq<Seq<u8>>,
)
    requires
        0 <= i < m.peers.len(),
        via_relay ==> m.rendezvous is Some,
        Decoys::allowed(decoys),
    ensures
        m.begin(i, target, via_relay, now_ms, Some(started), draw, decoys).1 matches Some(out) && {
            &&& via_relay || m.obf_key is None ==> out.len() == 1
            &&& !via_relay && m.obf_key is Some ==> 4 <= out.len() <= 13
            &&& !via_relay && m.obf_key is Some ==> out.len() == decoys.len() + 1
            &&& !via_relay ==> out.last() == plain(target, started.init_pkt@)
            &&& !via_relay ==> forall|k: int|
                0 <= k < out.len() - 1 ==> {
                    &&& (#[trigger] out[k]).dst == target
                    &&& out[k].body matches BodyView::Tunnel(b) && b.len() >= 65 && b[0]
                        == m.codes.junk
                    &&& out[k].body == BodyView::Tunnel(seq![m.codes.junk] + decoys[k])
                }
        },
{
    let out = m.begin(i, target, via_relay, now_ms, Some(started), draw, decoys).1->0;
    if !via_relay && m.obf_key is Some {
        assert forall|k: int| 0 <= k < out.len() - 1 implies {
            &&& (#[trigger] out[k]).dst == target
            &&& out[k].body matches BodyView::Tunnel(b) && b.len() >= 65 && b[0] == m.codes.junk
            &&& out[k].body == BodyView::Tunnel(seq![m.codes.junk] + decoys[k])
        } by {
            assert(out[k] == plain(target, seq![m.codes.junk] + decoys[k]));
            assert(crate::peer_manager::obf::junk_sized(decoys[k]));
        }
    }
}

/// A handshake is sent again byte for byte, to the same address or through the relay,
/// and keeps its beginning; after the whole time, and not before, it is given up, and what
/// waited for it goes with it.
pub proof fn law_retransmission_is_verbatim<S, H>(
    m: ManagerView<S, H>,
    i: int,
    now_ms: u64,
    draw: u64,
)
    requires
        0 <= i < m.peers.len(),
        m.peers[i].state is Handshaking,
    ensures
        ({
            let h = m.peers[i].state->Handshaking_0;
            let (n, out) = m.resent(i, now_ms, draw);
            &&& n.peers[i].state is Handshaking ==> {
                let g = n.peers[i].state->Handshaking_0;
                &&& g.init_pkt == h.init_pkt && g.hs == h.hs
                &&& g.started_ms == h.started_ms && g.target == h.target
                &&& g.via_relay == h.via_relay
                &&& n.peers[i].pending_tun == m.peers[i].pending_tun
            }
            &&& (n.peers[i].state is Handshaking) == (elapsed(now_ms, h.started_ms)
                < HANDSHAKE_TOTAL_MS)
            &&& elapsed(now_ms, h.started_ms) >= HANDSHAKE_TOTAL_MS ==> {
                &&& n.peers[i].state is Idle
                &&& n.peers[i].pending_tun.len() == 0
                &&& out.len() == 0
            }
            &&& out.len() > 0 ==> out == m.emitted(i, h.target, h.init_pkt, m.peers[i].relay)
        }),
{
}

/// A handshake that is begun anew in a round is not sent again in the same round: what goes
/// out is the new one, and with nothing drawn nothing.
pub proof fn law_escalation_supersedes_retransmission<S, H>(
    m: ManagerView<S, H>,
    i: int,
    t: PeerTick<H>,
    now_ms: u64,
)
    requires
        0 <= i < m.peers.len(),
        m.may_escalate(i),
        m.escalated(i, t.path->0, now_ms).1 is Begin,
    ensures
        ({
            let (n, out) = m.ticked(i, t, now_ms);
            let begin = m.escalated(i, t.path->0, now_ms).1;
            let (target, via_relay) = (begin->target, begin->via_relay);
            match t.started {
                None => n.peers[i].state is Idle && out.len() == 0,
                Some(st) => {
                    &&& n.peers[i].state matches StateView::Handshaking(h) && {
                        &&& h.hs == st.hs
                        &&& h.init_pkt == st.init_pkt@
                        &&& h.started_ms == now_ms
                        &&& h.target == target
                        &&& h.via_relay == via_relay
                    }
                    &&& out == if via_relay {
                        m.wrapped(i, st.init_pkt@)
                    } else {
                        m.decoy_datagrams(target, t.decoy_bodies()) + seq![
                            plain(target, st.init_pkt@),
                        ]
                    }
                },
            }
        }),
{
}

/// The queue of a peer is within its limit, ends with the newest packet, and has lost the
/// oldest one at most.
pub proof fn law_queue_keeps_newest(pending: Seq<Seq<u8>>, inner: Seq<u8>)
    requires
        pending.len() <= MAX_PENDING_TUN,
    ensures
        0 < queued(pending, inner).len() <= MAX_PENDING_TUN,
        queued(pending, inner).last() == inner,
        queued(pending, inner).drop_last() == pending || queued(pending, inner).drop_last()
            == pending.skip(1),
        pending.len() < 16 ==> queued(pending, inner).drop_last() == pending,
        pending.len() == 16 ==> queued(pending, inner).drop_last() == pending.skip(1),
{
    let q = queued(pending, inner);
    if pending.len() >= MAX_PENDING_TUN {
        assert(q.drop_last() =~= pending.skip(1));
    } else {
        assert(q.drop_last() =~= pending);
    }
}

/// After cover traffic to a peer there is none until the interval is over.
pub proof fn law_cover_spacing<S, H>(
    m: ManagerView<S, H>,
    i: int,
    now_ms: u64,
    later_ms: u64,
)
    requires
        0 <= i < m.peers.len(),
        m.cover_due(i, now_ms),
        m.cover_traffic_ms matches Some(iv) && elapsed(later_ms, now_ms) < iv,
    ensures
        !m.after(Op::Cover { i, now_ms }).cover_due(i, later_ms),
{
    reveal(ManagerView::after);
    reveal(ManagerView::allows);
}

/// After a lookup of a peer there is none until the interval is over.
pub proof fn law_lookup_spacing<S, H>(
    m: ManagerView<S, H>,
    i: int,
    now_ms: u64,
    later_ms: u64,
)
    requires
        0 <= i < m.peers.len(),
        m.looked_up(i, now_ms).1 is Some,
        elapsed(later_ms, now_ms) < LOOKUP_INTERVAL_MS,
    ensures
        m.looked_up(i, now_ms).0.looked_up(i, later_ms).1 is None,
{
}

/// With a server the first tick registers; after a registration there is none until the
/// interval is over; and the numbers of registrations grow as long as they can.
pub proof fn law_registration_cadence<S, H>(
    m: ManagerView<S, H>,
    signed: Option<RecordView>,
    now_ms: u64,
    later_ms: u64,
    draw: u64,
)
    requires
        m.rendezvous is Some,
    ensures
        !m.registered_once ==> m.registration_due(now_ms),
        m.registration_due(now_ms) ==> {
            let n = m.registered(signed, now_ms, draw).0;
            &&& elapsed(later_ms, now_ms) < m.interval(REG_REFRESH_MS, draw)
                ==> !n.registration_due(later_ms)
            &&& m.reg_seq < u64::MAX ==> n.reg_seq == m.reg_seq + 1
            &&& n.reg_seq >= m.reg_seq
        },
{
}

/// Outside a mesh no certificate is asked for, no directory is consulted, nobody is
/// bootstrapped from, and no session is swept.
pub proof fn law_no_mesh_no_membership<S, H>(
    m: ManagerView<S, H>,
    key: [u8; 32],
    cert_valid: bool,
    inner: Seq<u8>,
    now_ms: u64,
)
    requires
        m.roots is None,
    ensures
        m.cert_admits(key, cert_valid),
        !m.is_root(key),
        m.to_resolve(inner) is None,
        m.bootstrap() is None,
        !m.sweep_due(now_ms),
{
}

/// Without a server no path is asked, nothing is looked up or relayed, and this node does
/// not register.
pub proof fn law_no_server_no_paths<S, H>(m: ManagerView<S, H>, i: int, raw: Seq<u8>, now_ms: u64)
    requires
        m.rendezvous is None,
    ensures
        !m.may_escalate(i),
        !m.asks_idle(i),
        m.looked_up(i, now_ms) == (m, None::<EgressView>),
        m.wrapped(i, raw).len() == 0,
        !m.registration_due(now_ms),
        m.server() == (SockAddr::V4 { ip: 0, port: 0 }),
{
}

/// A root is admitted whatever certificate it brings.
pub proof fn law_roots_are_exempt<S, H>(m: ManagerView<S, H>, key: [u8; 32], cert_valid: bool)
    requires
        m.is_root(key),
    ensures
        m.cert_admits(key, cert_valid),
{
}

/// The trial that a datagram was let through by.
pub open spec fn let_through<S, H>(
    m: ManagerView<S, H>,
    ts: Seq<Trial>,
    answers: Seq<Unmasked>,
    i: int,
    dg: Seq<u8>,
) -> bool {
    &&& 0 <= i < ts.len()
    &&& i < answers.len()
    &&& answers[i] is Some
    &&& dg == seq![(answers[i]->0).0] + (answers[i]->0).1@
    &&& dg[0] != m.codes.junk
    &&& if ts[i].session {
        m.codes.is_session_spec(dg[0])
    } else {
        m.codes.is_handshake_spec(dg[0])
    }
}

proof fn lemma_some_trial<S, H>(
    m: ManagerView<S, H>,
    ts: Seq<Trial>,
    answers: Seq<Unmasked>,
    k: int,
) -> (i: int)
    requires
        0 <= k,
        m.deobf(ts, answers, k) is Deliver,
    ensures
        let_through(m, ts, answers, i, m.deobf(ts, answers, k)->Deliver_0),
    decreases ts.len() - k,
{
    let dg = m.deobf(ts, answers, k)->Deliver_0;
    if let_through(m, ts, answers, k, dg) {
        k
    } else {
        lemma_some_trial(m, ts, answers, k + 1)
    }
}

/// Every key that is tried as a session's belongs to a session.
proof fn lemma_live_keys_live<S, H>(m: ManagerView<S, H>, n: nat, i: int) -> (p: int)
    requires
        n <= m.peers.len(),
        0 <= i < m.live_keys(n).len(),
    ensures
        0 <= p < n,
        m.live_keys(n)[i].session,
        m.peers[p].state is Established,
        m.peers[p].session_obf_key == Some(m.live_keys(n)[i].key),
    decreases n,
{
    if i < m.live_keys((n - 1) as nat).len() {
        lemma_live_keys_live(m, (n - 1) as nat, i)
    } else {
        n - 1
    }
}

/// What obfuscated traffic is let through as: what travels inside sessions, if a live
/// session's key opened it; a handshake, if the network's key did; and a decoy never.
pub proof fn law_unwrapping_is_typed<S, H>(
    m: ManagerView<S, H>,
    src: SockAddr,
    answers: Seq<Unmasked>,
) -> (i: int)
    requires
        m.deobf(m.trials(src), answers, 0) is Deliver,
    ensures
        let_through(
            m,
            m.trials(src),
            answers,
            i,
            m.deobf(m.trials(src), answers, 0)->Deliver_0,
        ),
        m.trials(src)[i].session ==> exists|p: int|
            0 <= p < m.peers.len() && (#[trigger] m.peers[p]).state is Established
                && m.peers[p].session_obf_key == Some(m.trials(src)[i].key),
        !m.trials(src)[i].session ==> m.obf_key == Some(m.trials(src)[i].key),
{
    let ts = m.trials(src);
    let i = lemma_some_trial(m, ts, answers, 0);
    let ahead: int = match m.key_at(src) {
        Some(_) => 1,
        None => 0,
    };
    let live = m.live_keys(m.peers.len());
    if ts[i].session {
        if i < ahead {
            lemma_first_where_finds(
                m.peers,
                crate::peer_manager::obf::keyed_at::<S, H>(src),
                0,
            );
        } else {
            assert(i - ahead < live.len());
            assert(ts[i] == live[i - ahead]);
            let p = lemma_live_keys_live(m, m.peers.len(), i - ahead);
        }
    } else if ahead <= i < ahead + live.len() {
        assert(ts[i] == live[i - ahead]);
        let p = lemma_live_keys_live(m, m.peers.len(), i - ahead);
    }
    i
}

/// What a session's key opened is let through from anywhere, if it travels inside
/// sessions, and a decoy is not: where each key opens only what was wrapped under it.
pub proof fn law_session_traffic_from_anywhere<S, H>(
    m: ManagerView<S, H>,
    p: int,
    src: SockAddr,
    ptype: u8,
    body: Vec<u8>,
    answers: Seq<Unmasked>,
)
    requires
        m.wf(),
        0 <= p < m.peers.len(),
        m.peers[p].state is Established,
        m.peers[p].session_obf_key is Some,
        m.codes.is_session_spec(ptype) || ptype == m.codes.junk,
        answers.len() == m.trials(src).len(),
        forall|j: int|
            0 <= j < answers.len() ==> #[trigger] answers[j] == if Some(m.trials(src)[j].key)
                == m.peers[p].session_obf_key {
                Some((ptype, body))
            } else {
                None
            },
    ensures
        m.deobf(m.trials(src), answers, 0) == if ptype == m.codes.junk {
            DeobfView::Drop
        } else {
            DeobfView::Deliver(seq![ptype] + body@)
        },
{
    let ts = m.trials(src);
    let at = lemma_live_key_is_tried(m, m.peers.len(), p);
    let ahead: int = match m.key_at(src) {
        Some(_) => 1,
        None => 0,
    };
    assert(ts[ahead + at] == m.live_keys(m.peers.len())[at]);
    assert(answers[ahead + at] is Some);
    lemma_codes_apart(m.codes);
    assert forall|j: int| 0 <= j <= ahead + at implies (#[trigger] ts[j]).session by {
        if j >= ahead {
            assert(ts[j] == m.live_keys(m.peers.len())[j - ahead]);
            let q = lemma_live_keys_live(m, m.peers.len(), j - ahead);
        }
    }
    lemma_from_anywhere(m, ts, answers, 0, ahead + at, ptype, body);
}

/// Neither a decoy nor a handshake has the code of what travels inside sessions.
pub(crate) proof fn lemma_codes_apart(c: WireCodes)
    requires
        c.distinct_spec(),
    ensures
        !c.is_session_spec(c.junk),
        !c.is_handshake_spec(c.junk),
        !c.is_session_spec(c.init),
        !c.is_session_spec(c.resp),
{
    let s = seq![c.init, c.resp, c.data, c.control, c.gossip, c.junk];
    assert(s[0] == c.init && s[1] == c.resp && s[2] == c.data && s[3] == c.control && s[4]
        == c.gossip && s[5] == c.junk);
}

proof fn lemma_from_anywhere<S, H>(
    m: ManagerView<S, H>,
    ts: Seq<Trial>,
    answers: Seq<Unmasked>,
    k: int,
    i: int,
    ptype: u8,
    body: Vec<u8>,
)
    requires
        0 <= k <= i < ts.len(),
        answers.len() == ts.len(),
        answers[i] is Some,
        forall|j: int| 0 <= j <= i ==> (#[trigger] ts[j]).session,
        forall|j: int|
            0 <= j < answers.len() ==> (#[trigger] answers[j]) is None || answers[j] == Some(
                (ptype, body),
            ),
        m.codes.is_session_spec(ptype) != (ptype == m.codes.junk),
    ensures
        m.deobf(ts, answers, k) == if ptype == m.codes.junk {
            DeobfView::Drop
        } else {
            DeobfView::Deliver(seq![ptype] + body@)
        },
    decreases i - k,
{
    assert(ts[k].session);
    if answers[k] is None {
        lemma_from_anywhere(m, ts, answers, k + 1, i, ptype, body);
    }
}

/// The first trial that gives anything decides, where it may carry what it gave.
proof fn lemma_first_answer_delivers<S, H>(
    m: ManagerView<S, H>,
    ts: Seq<Trial>,
    answers: Seq<Unmasked>,
    k: int,
    i: int,
)
    requires
        0 <= k <= i < ts.len(),
        i < answers.len(),
        forall|j: int| k <= j < i ==> (#[trigger] answers[j]) is None,
        answers[i] is Some,
        (answers[i]->0).0 != m.codes.junk,
        m.trial_accepts(ts[i], (answers[i]->0).0),
    ensures
        m.deobf(ts, answers, k) == DeobfView::Deliver(
            seq![(answers[i]->0).0] + (answers[i]->0).1@,
        ),
    decreases i - k,
{
    if k < i {
        assert(answers[k] is None);
        lemma_first_answer_delivers(m, ts, answers, k + 1, i);
    }
}

/// Every session with an obfuscation key is among those whose key is tried.
proof fn lemma_live_key_is_tried<S, H>(m: ManagerView<S, H>, n: nat, p: int) -> (i: int)
    requires
        0 <= p < n <= m.peers.len(),
        m.peers[p].state is Established,
        m.peers[p].session_obf_key is Some,
    ensures
        0 <= i < m.live_keys(n).len(),
        m.live_keys(n)[i] == (Trial { key: m.peers[p].session_obf_key->0, session: true }),
    decreases n,
{
    if p == n - 1 {
        m.live_keys((n - 1) as nat).len() as int
    } else {
        lemma_live_key_is_tried(m, (n - 1) as nat, p)
    }
}

/// A handshake gets through from anywhere between nodes of one network: one side wraps it
/// under the network's key, and the other side, whose sessions make nothing of it, lets
/// through exactly what was wrapped.
pub proof fn law_wrapped_handshake_gets_through<S, H>(
    a: ManagerView<S, H>,
    b: ManagerView<S, H>,
    key: [u8; 16],
    dst: SockAddr,
    src: SockAddr,
    dg: Seq<u8>,
    body: Vec<u8>,
    answers: Seq<Unmasked>,
)
    requires
        a.obf_key == Some(key),
        b.obf_key == Some(key),
        a.codes == b.codes,
        dg.len() > 0,
        a.codes.is_handshake_spec(dg[0]),
        a.codes.distinct_spec(),
        !a.is_server(dst),
        body@ == dg.skip(1),
        answers.len() == b.trials(src).len(),
        forall|j: int| 0 <= j < answers.len() - 1 ==> (#[trigger] answers[j]) is None,
        answers.last() == Some((dg[0], body)),
    ensures
        a.obf_plan(dst, dg) matches ObfPlan::Wrap { key: k, ptype, skip, .. } && k == key && ptype
            == dg[0] && skip == 1,
        b.deobf(b.trials(src), answers, 0) == DeobfView::Deliver(dg),
{
    let ts = b.trials(src);
    lemma_codes_apart(a.codes);
    assert(ts.last() == (Trial { key, session: false }));
    lemma_first_answer_delivers(b, ts, answers, 0, ts.len() - 1);
    assert(seq![dg[0]] + body@ =~= dg);
}

/// What travels inside a session gets through wherever its sender has moved to: it is
/// wrapped under the session's key, that key is among those that the other side tries, and
/// what was wrapped is let through where the keys before it make nothing of it.
pub proof fn law_wrapped_session_traffic_gets_through<S, H>(
    a: ManagerView<S, H>,
    b: ManagerView<S, H>,
    p: int,
    dst: SockAddr,
    src: SockAddr,
    dg: Seq<u8>,
    body: Vec<u8>,
) -> (i: int)
    requires
        0 <= p < b.peers.len(),
        b.peers[p].state is Established,
        b.peers[p].session_obf_key is Some,
        a.key_at(dst) == b.peers[p].session_obf_key,
        a.codes == b.codes,
        dg.len() > 0,
        a.codes.is_session_spec(dg[0]),
        a.codes.distinct_spec(),
        !a.is_server(dst),
        body@ == dg.skip(1),
    ensures
        a.obf_plan(dst, dg) matches ObfPlan::Wrap { key, ptype, skip, .. } && Some(key)
            == b.peers[p].session_obf_key && ptype == dg[0] && skip == 1,
        0 <= i < b.trials(src).len(),
        Some(b.trials(src)[i].key) == b.peers[p].session_obf_key,
        forall|answers: Seq<Unmasked>|
            i < answers.len() && answers[i] == Some((dg[0], body)) && (forall|j: int|
                0 <= j < i ==> (#[trigger] answers[j]) is None) ==> #[trigger] b.deobf(
                b.trials(src),
                answers,
                0,
            ) == DeobfView::Deliver(dg),
{
    let ts = b.trials(src);
    lemma_codes_apart(a.codes);
    let at = lemma_live_key_is_tried(b, b.peers.len(), p);
    let ahead: int = match b.key_at(src) {
        Some(_) => 1,
        None => 0,
    };
    let i = ahead + at;
    assert(ts[i] == b.live_keys(b.peers.len())[at]);
    assert forall|answers: Seq<Unmasked>|
        i < answers.len() && answers[i] == Some((dg[0], body)) && (forall|j: int|
            0 <= j < i ==> (#[trigger] answers[j]) is None) implies #[trigger] b.deobf(
        ts,
        answers,
        0,
    ) == DeobfView::Deliver(dg) by {
        lemma_first_answer_delivers(b, ts, answers, 0, i);
        assert(seq![dg[0]] + body@ =~= dg);
    }
    i
}

/// A session that came about through the relay is relayed, and one that did not is not.
pub proof fn law_path_of_a_session<S, H>(
    m: ManagerView<S, H>,
    i: int,
    src: Option<SockAddr>,
    done: Completed<S>,
    cert_valid: bool,
    now_ms: u64,
)
    requires
        0 <= i < m.peers.len(),
        m.cert_admits(m.peers[i].id.public_key, cert_valid),
    ensures
        ({
            let p = m.completed(i, src, Some(done), cert_valid, now_ms).0.peers[i];
            &&& p.relay == (src is None)
            &&& p.path_kind is Some
            &&& (p.path_kind == Some(PathKind::Relayed)) == (src is None)
            &&& src is Some ==> p.endpoint == src
            &&& p.pending_tun.len() == 0
        }),
{
}

/// Whether a live session's peer was left where it is, and its sending epoch alone.
pub open spec fn still<S, H>(a: PeerView<S, H>, b: PeerView<S, H>) -> bool {
    a.state is Established ==> {
        &&& b.endpoint == a.endpoint
        &&& a.relay ==> b.relay
        &&& b.state is Established ==> {
            &&& b.session_obf_key == a.session_obf_key
            &&& b.epochs().current == a.epochs().current
            &&& b.epochs().created_ms == a.epochs().created_ms
        }
    }
}

/// The peer at whose session a step may change where it sends: a datagram that opened, or
/// a rekey that this side completed.
pub open spec fn moves<S, H>(op: Op<S, H>) -> int {
    match op {
        Op::Opened { i, .. } => i,
        Op::Rekeyed { i, .. } => i,
        _ => -1,
    }
}

/// A live session is steered by nothing but datagrams that open in it and rekeys that
/// complete: no other step, whatever came in from the network, changes where its peer is
/// thought to be, takes it off the relay, or replaces the epoch that sends.
pub proof fn law_live_session_holds_still<S, H>(m: ManagerView<S, H>, op: Op<S, H>, j: int)
    requires
        m.wf(),
        m.peers.len() <= usize::MAX,
        m.allows(op),
        0 <= j < m.peers.len(),
        j != moves(op),
    ensures
        still(m.peers[j], m.after(op).peers[j]),
{
    reveal(ManagerView::after);
    reveal(ManagerView::allows);
    match op {
        Op::Init { src, o, now_ms } => {
            lemma_init_still(m, src, o, now_ms, j);
        },
        Op::TakeDirect { src } => {
            lemma_take_still(m, src, j);
        },
        Op::RelayedInit { i, o, now_ms } => {
            lemma_relayed_still(m, i, o, now_ms, j);
        },
        Op::Tun { inner, resolved, now_ms } => {
            lemma_tun_still(m, inner, resolved, now_ms, j);
        },
        Op::Sweep { valid, now_ms } => {
            lemma_swept_grows(
                ManagerView { last_cert_sweep_ms: now_ms, ..m },
                valid,
                valid.len(),
            );
        },
        Op::Opened { .. } | Op::Rekeyed { .. } => {},
        _ => {
            if one_peer(op) >= 0 {
                lemma_one_peer_step(m, op);
                lemma_one_peer_still(m, op, j);
            }
        },
    }
}

proof fn lemma_one_peer_still<S, H>(m: ManagerView<S, H>, op: Op<S, H>, j: int)
    requires
        m.wf(),
        one_peer(op) >= 0,
        m.allows(op),
        0 <= j < m.peers.len(),
        j != moves(op),
    ensures
        still(m.peers[j], m.after(op).peers[j]),
{
    reveal(ManagerView::after);
    reveal(ManagerView::allows);
    lemma_one_peer_step(m, op);
}

proof fn lemma_init_still<S, H>(
    m: ManagerView<S, H>,
    src: SockAddr,
    o: OpenedInit<S>,
    now_ms: u64,
    j: int,
)
    requires
        0 <= j < m.peers.len(),
    ensures
        still(m.peers[j], m.on_init(src, o, now_ms).0.peers[j]),
{
    let w = m.with_initiator(o);
    assert(w.peers[j] == m.peers[j]);
    lemma_first_where_finds(w.peers, has_key(o.remote.public_key), 0);
}

proof fn lemma_take_still<S, H>(m: ManagerView<S, H>, src: SockAddr, j: int)
    requires
        0 <= j < m.peers.len(),
    ensures
        still(m.peers[j], m.take_direct(src).0.peers[j]),
{
    lemma_first_where_finds(m.peers, picked::<S, H>(Pick::Rekeying, src), 0);
    lemma_first_where_finds(m.peers, picked::<S, H>(Pick::Handshaking, src), 0);
}

proof fn lemma_relayed_still<S, H>(
    m: ManagerView<S, H>,
    i: int,
    o: OpenedInit<S>,
    now_ms: u64,
    j: int,
)
    requires
        0 <= i < m.peers.len(),
        0 <= j < m.peers.len(),
    ensures
        still(m.peers[j], m.relayed_init(i, o, now_ms).0.peers[j]),
{
}

proof fn lemma_tun_still<S, H>(
    m: ManagerView<S, H>,
    inner: Seq<u8>,
    resolved: Option<Member>,
    now_ms: u64,
    j: int,
)
    requires
        m.wf(),
        m.with_resolved(inner, resolved).peers.len() <= usize::MAX,
        0 <= j < m.peers.len(),
    ensures
        still(m.peers[j], m.on_tun(inner, resolved, now_ms).0.peers[j]),
{
    let w = m.with_resolved(inner, resolved);
    if w != m {
        lemma_admitted(m, resolved->0.id, resolved->0.endpoints@);
    }
    assert(w.peers[j] == m.peers[j]);
}

} // verus!
