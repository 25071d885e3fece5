//! Where packets and datagrams go, and what comes in at the other end.

use vstd::prelude::*;

use crate::addr::SockAddr;
use crate::epoch::EpochSlot;
use crate::peer::{PathStep, PeerView};
use crate::peer_manager::egress::{sealed_views, SealedView};
use crate::peer_manager::laws::lemma_codes_apart;
use crate::peer_manager::relay::RdvStepView;
use crate::peer_manager::routing::{
    data_tried, law_first_session_has_it, DataStep, Member, Opened, PathMoveView, TunStep,
};
use crate::peer_manager::session_laws::{relayed_to, rest_stays};
use crate::peer_manager::{has_key, lemma_first_where_finds, picked, ManagerView, Pick};
use crate::rendezvous::parsed;
use crate::wire::{
    ipv6_dst_spec, tag_hint_spec, BodyView, EgressView, Message, MessageView, RecordView,
};

verus! {

/// Whether a list of places names the peers with a session, each once and no other, in the
/// order of the table.
pub open spec fn names_the_live<S, H>(m: ManagerView<S, H>, order: Seq<usize>) -> bool {
    &&& forall|i: int|
        0 <= i < m.peers.len() ==> (m.peers[i].state is Established <==> #[trigger] order.contains(
            i as usize,
        ))
    &&& forall|k: int|
        0 <= k < order.len() ==> (#[trigger] order[k]) < m.peers.len()
            && m.peers[order[k] as int].state is Established
    &&& forall|a: int, b: int|
        0 <= a < b < order.len() ==> #[trigger] order[a] < #[trigger] order[b]
}

/// Where no tag and no address names a session, every place whose peer has a session is
/// tried, each once and no other.
pub proof fn law_every_session_is_tried<S, H>(m: ManagerView<S, H>)
    requires
        m.peers.len() <= usize::MAX,
    ensures
        names_the_live(m, m.live(m.peers.len())),
{
    let order = m.live(m.peers.len());
    lemma_live(m, m.peers.len());
    assert forall|i: int| 0 <= i < m.peers.len() implies (m.peers[i].state is Established
        <==> #[trigger] order.contains(i as usize)) by {
        if m.peers[i].state is Established {
            lemma_live_holds(m, m.peers.len(), i);
        }
        if order.contains(i as usize) {
            let k = choose|k: int| 0 <= k < order.len() && order[k] == i as usize;
            assert(m.peers[order[k] as int].state is Established);
        }
    }
}

proof fn lemma_live<S, H>(m: ManagerView<S, H>, n: nat)
    requires
        n <= m.peers.len() <= usize::MAX,
    ensures
        ({
            let order = m.live(n);
            &&& forall|k: int|
                0 <= k < order.len() ==> (#[trigger] order[k]) < n
                    && m.peers[order[k] as int].state is Established
            &&& forall|a: int, b: int|
                0 <= a < b < order.len() ==> #[trigger] order[a] < #[trigger] order[b]
        }),
    decreases n,
{
    if n > 0 {
        lemma_live(m, (n - 1) as nat);
    }
}

proof fn lemma_live_holds<S, H>(m: ManagerView<S, H>, n: nat, i: int)
    requires
        0 <= i < n <= m.peers.len() <= usize::MAX,
        m.peers[i].state is Established,
    ensures
        m.live(n).contains(i as usize),
    decreases n,
{
    let was = m.live((n - 1) as nat);
    let order = m.live(n);
    if i == n - 1 {
        assert(order[order.len() - 1] == i as usize);
    } else {
        lemma_live_holds(m, (n - 1) as nat, i);
        let k = choose|k: int| 0 <= k < was.len() && was[k] == i as usize;
        assert(order[k] == i as usize);
    }
}

/// The session of a datagram is the one with the tag in it; else the first one at the
/// address that the datagram came from; and none, where there is no such session.
pub proof fn law_data_finds_its_session<S, H>(m: ManagerView<S, H>, src: SockAddr, dg: Seq<u8>)
    requires
        m.wf(),
    ensures
        ({
            let tag = tag_hint_spec(dg);
            let tagged = tag is Some && m.by_tag.contains_key(tag->0)
                && m.peers[m.by_tag[tag->0] as int].state is Established;
            let at = |i: int|
                0 <= i < m.peers.len() && m.peers[i].endpoint == Some(src)
                    && m.peers[i].state is Established;
            let r = m.data_route(src, dg);
            &&& tagged ==> r == Some(m.by_tag[tag->0] as int)
            &&& !tagged && r is Some ==> at(r->0) && forall|j: int|
                0 <= j < r->0 ==> !(#[trigger] m.peers[j].endpoint == Some(src)
                    && m.peers[j].state is Established)
            &&& !tagged && r is None ==> forall|j: int|
                0 <= j < m.peers.len() ==> !(#[trigger] m.peers[j].endpoint == Some(src)
                    && m.peers[j].state is Established)
        }),
{
    lemma_first_where_finds(m.peers, picked::<S, H>(Pick::Live, src), 0);
}

/// A peer counts as active when data comes for it, and only then: a control datagram does
/// not count, and nobody else is touched.
pub proof fn law_data_counts_as_activity<S, H>(
    m: ManagerView<S, H>,
    src: SockAddr,
    dg: Seq<u8>,
    now_ms: u64,
)
    requires
        dg.len() > 0,
    ensures
        ({
            let n = m.heard(src, dg, now_ms);
            let r = m.data_route(src, dg);
            let i = r->0;
            &&& r is None || dg[0] != m.codes.data ==> n == m
            &&& r is Some && 0 <= i < m.peers.len() && dg[0] == m.codes.data ==> {
                &&& n.peers[i].last_activity_ms == now_ms
                &&& n.peers[i] == (PeerView { last_activity_ms: now_ms, ..m.peers[i] })
                &&& rest_stays(m, n, i)
            }
        }),
{
}

/// A search by address finds the first peer there that is in the state looked for, and
/// finds one if there is one.
pub proof fn law_search_by_address<S, H>(m: ManagerView<S, H>, pick: Pick, addr: SockAddr, i: int)
    requires
        0 <= i < m.peers.len(),
        m.peers[i].endpoint == Some(addr),
        pick is Live ==> m.peers[i].state is Established,
        pick is Rekeying ==> m.peers[i].state is Established && !m.peers[i].relay
            && m.peers[i].epochs().rekey is Some,
        pick is Handshaking ==> m.peers[i].state is Handshaking,
        pick is Idle ==> m.peers[i].state is Idle,
    ensures
        m.find_at(pick, addr) is Some,
        ({
            let k = m.find_at(pick, addr)->0;
            let q = m.peers[k];
            &&& 0 <= k <= i
            &&& q.endpoint == Some(addr)
            &&& pick is Live ==> q.state is Established
            &&& pick is Rekeying ==> q.state is Established && !q.relay && q.epochs().rekey is Some
            &&& pick is Handshaking ==> q.state is Handshaking
            &&& pick is Idle ==> q.state is Idle
        }),
{
    assert(picked::<S, H>(pick, addr)(m.peers[i]));
    lemma_first_where_finds(m.peers, picked::<S, H>(pick, addr), 0);
}

/// A peer that has moved is heard: a datagram that no tag and no address names a session
/// for, and that opens in the session of peer `i` alone, is delivered there; the peer is
/// then where it came from, and what is sent to it goes there.
pub proof fn law_moved_peer_is_heard<S, H>(
    m: ManagerView<S, H>,
    i: int,
    src: SockAddr,
    slot: EpochSlot,
    opened: Seq<bool>,
    now_ms: u64,
)
    requires
        0 <= i < m.peers.len() <= usize::MAX,
        m.peers[i].state is Established,
        !m.peers[i].relay,
        m.peers[i].endpoint != Some(src),
        opened.len() == m.live(m.peers.len()).len(),
        forall|k: int|
            0 <= k < opened.len() ==> (#[trigger] opened[k] <==> m.live(m.peers.len())[k] == i),
    ensures
        data_tried(m.live(m.peers.len()), opened, 0) == DataStep::Deliver(i as usize),
        ({
            let n = m.after_open(i, slot, Some(src), now_ms);
            &&& n.peers[i].endpoint == Some(src)
            &&& n.peers[i].state is Established
            &&& n.peers[i].epochs().current.peer_addr == src
            &&& rest_stays(m, n, i)
        }),
{
    let order = m.live(m.peers.len());
    law_every_session_is_tried(m);
    assert(order.contains(i as usize));
    let k = choose|k: int| 0 <= k < order.len() && order[k] == i as usize;
    assert forall|j: int| 0 <= j < k implies !#[trigger] opened[j] by {
        assert(order[j] < order[k]);
    }
    assert(opened[k]);
    law_first_session_has_it(order, opened, k);
}

/// What is relayed for a peer goes to the server, as a request to hand it, unchanged, from
/// this node to that peer; without a server nothing is relayed.
pub proof fn law_relayed_names_both_ends<S, H>(m: ManagerView<S, H>, i: int, raw: Seq<u8>)
    ensures
        m.rendezvous is None ==> m.wrapped(i, raw).len() == 0,
        m.rendezvous is Some ==> m.wrapped(i, raw) == seq![
            EgressView {
                fate: 0,
                dst: m.rendezvous->0.server,
                body: BodyView::Server(
                    MessageView::RelaySend {
                        src: m.local.node,
                        dst: m.peers[i].id.node,
                        payload: raw,
                    },
                ),
            },
        ],
{
}

/// What node `a` relays for its peer `i`, once the server has handed it to the node that it
/// names, comes in there as a relayed datagram of the peer that `a` is there, unchanged. It
/// is taken for what its first byte says.
pub proof fn law_relayed_comes_in_from_its_sender<S, H>(
    a: ManagerView<S, H>,
    b: ManagerView<S, H>,
    i: int,
    j: int,
    raw: Seq<u8>,
    record_valid: bool,
)
    requires
        b.wf(),
        a.rendezvous is Some,
        0 <= i < a.peers.len(),
        a.peers[i].id.node == b.local.node,
        0 <= j < b.peers.len(),
        b.by_node.contains_key(a.local.node),
        b.by_node[a.local.node] == j,
        raw.len() > 0,
    ensures
        a.wrapped(i, raw).len() == 1,
        a.wrapped(i, raw)[0].dst == a.rendezvous->0.server,
        ({
            let sent = a.wrapped(i, raw)[0].body->Server_0;
            let delivered = parsed(
                Some(
                    MessageView::RelayDeliver {
                        src: sent->RelaySend_src,
                        payload: sent->RelaySend_payload,
                    },
                ),
            );
            let (n, step) = b.rdv_step(delivered, record_valid);
            &&& a.wrapped(i, raw)[0].body is Server
            &&& sent is RelaySend
            &&& sent->RelaySend_dst == b.local.node
            &&& step is Relayed
            &&& step->Relayed_peer == j
            &&& step->Relayed_dg == raw
            &&& (step->Relayed_kind is Init) == (raw[0] == b.codes.init)
            &&& (step->Relayed_kind is Resp) == (raw[0] == b.codes.resp)
            &&& b.peers[j].state is Established ==> n == b
            &&& b.peers[j].state !is Established ==> {
                &&& n.peers[j] == (PeerView { relay: true, ..b.peers[j] })
                &&& rest_stays(b, n, j)
            }
        }),
{
    lemma_codes_apart(b.codes);
}

/// What a server says of a peer is taken while the peer has no session, and then only its
/// address: a hint to punch begins a handshake with an idle peer, and an answer to a lookup
/// begins none. In a mesh an answer with a record is taken only where the record is for the
/// peer it names and verifies. No word of the server changes the table.
pub proof fn law_server_tells_addresses<S, H>(
    m: ManagerView<S, H>,
    node: u128,
    addr: SockAddr,
    record: Option<RecordView>,
    record_valid: bool,
)
    requires
        m.wf(),
    ensures
        ({
            let told = m.rdv_step(
                parsed(Some(MessageView::PeerInfo { node, reflexive: addr, record })),
                record_valid,
            );
            let hinted = m.rdv_step(
                parsed(Some(MessageView::PunchHint { node, reflexive: addr })),
                record_valid,
            );
            let i = m.by_node[node];
            let open = m.by_node.contains_key(node) && m.peers[i as int].state !is Established;
            let genuine = record is None || m.roots is None || (record->0.node_id == node
                && record_valid);
            &&& told.0 == m
            &&& hinted.0 == m
            &&& open && genuine ==> told.1 == (RdvStepView::Candidate {
                peer: i,
                addr,
                begin: false,
            })
            &&& !open || !genuine ==> told.1 is Nothing
            &&& open ==> hinted.1 == (RdvStepView::Candidate {
                peer: i,
                addr,
                begin: m.peers[i as int].state is Idle,
            })
            &&& !open ==> hinted.1 is Nothing
            &&& m.rdv_step(parsed(Some(MessageView::NotFound { node })), record_valid) == (
                m,
                RdvStepView::Nothing,
            )
            &&& m.rdv_step(parsed(Some(MessageView::Lookup { node })), record_valid) == (
                m,
                RdvStepView::Nothing,
            )
            &&& m.rdv_step(parsed(None), record_valid) == (m, RdvStepView::Nothing)
        }),
{
}

/// Peers are known to the server by their node ids, and nobody else is heard through it: an
/// empty datagram, and one from a node that is no peer, come to nothing.
pub proof fn law_stranger_is_not_relayed<S, H>(
    m: ManagerView<S, H>,
    src: u128,
    payload: Seq<u8>,
    record_valid: bool,
)
    requires
        payload.len() == 0 || !m.by_node.contains_key(src),
    ensures
        m.rdv_step(parsed(Some(MessageView::RelayDeliver { src, payload })), record_valid) == (
            m,
            RdvStepView::Nothing,
        ),
{
}

/// What is sealed for a peer is sent in its order, each datagram once: as it is where the
/// peer is reached directly, and each in a request of its own to the server where not.
pub proof fn law_sealed_is_sent_in_order<S, H>(
    m: ManagerView<S, H>,
    i: int,
    ds: Seq<SealedView>,
    k: int,
)
    requires
        0 <= k < ds.len(),
    ensures
        m.carried(i, ds, false).len() == ds.len(),
        m.carried(i, ds, false)[k] == (EgressView {
            fate: ds[k].fate,
            dst: ds[k].dst,
            body: BodyView::Tunnel(ds[k].bytes),
        }),
        m.rendezvous is None ==> m.carried(i, ds, true).len() == 0,
        m.rendezvous is Some ==> {
            &&& m.carried(i, ds, true).len() == ds.len()
            &&& m.carried(i, ds, true)[k] == (EgressView {
                fate: 0,
                dst: m.rendezvous->0.server,
                body: BodyView::Server(
                    MessageView::RelaySend {
                        src: m.local.node,
                        dst: m.peers[i].id.node,
                        payload: ds[k].bytes,
                    },
                ),
            })
        },
    decreases ds.len(),
{
    let less = ds.drop_last();
    if k < ds.len() - 1 {
        law_sealed_is_sent_in_order(m, i, less, k);
    } else {
        lemma_carried_len(m, i, less);
    }
}

proof fn lemma_carried_len<S, H>(m: ManagerView<S, H>, i: int, ds: Seq<SealedView>)
    ensures
        m.carried(i, ds, false).len() == ds.len(),
        m.rendezvous is None ==> m.carried(i, ds, true).len() == 0,
        m.rendezvous is Some ==> m.carried(i, ds, true).len() == ds.len(),
    decreases ds.len(),
{
    if ds.len() > 0 {
        lemma_carried_len(m, i, ds.drop_last());
    }
}

/// Where a packet from the TUN device goes: a frame to the only peer, an IP packet to the
/// peer that has its destination, and outside a mesh to the only peer where nobody has it.
/// In a mesh the directory is asked for a destination that nobody has, and only then.
pub proof fn law_packet_finds_its_peer<S, H>(m: ManagerView<S, H>, inner: Seq<u8>)
    ensures
        ({
            let dst = ipv6_dst_spec(inner);
            let sole = m.peers.len() == 1;
            let r = m.tun_route(inner);
            let known = m.mode is L3Tun && dst is Some && m.by_addr.contains_key(dst->0);
            let ip = m.mode is L3Tun && dst is Some;
            &&& known ==> r == Some(m.by_addr[dst->0] as int) && m.to_resolve(inner) is None
            &&& ip && !known && m.roots is Some ==> r is None && m.to_resolve(inner) == dst
            &&& ip && !known && m.roots is None && sole ==> r == Some(0int)
            &&& !ip && sole ==> r == Some(0int) && m.to_resolve(inner) is None
            &&& !known && !sole ==> r is None
            &&& m.roots is None ==> m.to_resolve(inner) is None
        }),
{
}

/// Whether a packet is kept for peer `i`, as the last of what waits for it.
pub open spec fn keeps_packet<S, H>(
    m: ManagerView<S, H>,
    n: ManagerView<S, H>,
    i: int,
    inner: Seq<u8>,
) -> bool {
    let was = m.peers[i].pending_tun;
    let now = n.peers[i].pending_tun;
    &&& now.len() > 0
    &&& now.last() == inner
    &&& was.len() < 16 ==> now.drop_last() == was
    &&& was.len() >= 16 ==> now.drop_last() == was.skip(1)
    &&& n.peers[i] == (PeerView { pending_tun: now, ..m.peers[i] })
}

/// What becomes of a packet that belongs to a peer: with a session it is sealed there and
/// the peer counts as active; without one it waits, behind all that waited before, and the
/// oldest goes where there is no room; an idle peer is probed at its address, or its path is
/// asked where there is a server. Nobody else is touched.
pub proof fn law_packet_is_sealed_or_waits<S, H>(
    m: ManagerView<S, H>,
    i: int,
    inner: Seq<u8>,
    resolved: Option<Member>,
    now_ms: u64,
)
    requires
        0 <= i < m.peers.len() <= usize::MAX,
        m.tun_route(inner) == Some(i),
    ensures
        ({
            let (n, step) = m.on_tun(inner, resolved, now_ms);
            let p = m.peers[i];
            &&& rest_stays(m, n, i)
            &&& p.state is Established ==> {
                &&& step == TunStep::Seal(i as usize)
                &&& n.peers[i] == (PeerView { last_activity_ms: now_ms, ..p })
            }
            &&& p.state !is Established ==> keeps_packet(m, n, i, inner)
            &&& p.state is Handshaking ==> step is Queued
            &&& p.state is Idle && m.rendezvous is Some ==> step == TunStep::AskPath(i as usize)
            &&& p.state is Idle && m.rendezvous is None && p.endpoint is Some ==> step
                == TunStep::Probe(i as usize, p.endpoint->0)
            &&& p.state is Idle && m.rendezvous is None && p.endpoint is None ==> step is Queued
        }),
{
    let (n, step) = m.on_tun(inner, resolved, now_ms);
    let was = m.peers[i].pending_tun;
    if m.peers[i].state !is Established {
        let now = n.peers[i].pending_tun;
        if was.len() < 16 {
            assert(now.drop_last() =~= was);
        } else {
            assert(now.drop_last() =~= was.skip(1));
        }
    }
}

/// A packet that belongs to nobody is dropped and changes nothing.
pub proof fn law_packet_for_nobody<S, H>(m: ManagerView<S, H>, inner: Seq<u8>, now_ms: u64)
    requires
        m.tun_route(inner) is None,
    ensures
        m.on_tun(inner, None, now_ms) == (m, TunStep::Drop),
{
}

/// A peer is looked up by its own node id, at the server, when it was never looked up or a
/// second has gone by since; the time counts from then on, and nothing else changes.
pub proof fn law_lookup_asks_for_the_peer<S, H>(m: ManagerView<S, H>, i: int, now_ms: u64)
    requires
        0 <= i < m.peers.len(),
        m.peers[i].last_lookup_ms is Some ==> m.peers[i].last_lookup_ms->0 <= now_ms,
    ensures
        ({
            let (n, d) = m.looked_up(i, now_ms);
            let last = m.peers[i].last_lookup_ms;
            let due = last is None || now_ms - last->0 >= 1_000;
            &&& m.rendezvous is Some && due ==> {
                &&& d is Some
                &&& d->0.fate == 0
                &&& d->0.dst == m.rendezvous->0.server
                &&& d->0.body is Server && d->0.body->Server_0 is Lookup
                &&& m.rendezvous->0.names_lookups ==> d->0.body->Server_0->Lookup_node
                    == m.peers[i].id.node
                &&& n.peers[i] == (PeerView { last_lookup_ms: Some(now_ms), ..m.peers[i] })
                &&& rest_stays(m, n, i)
            }
            &&& m.rendezvous is None || !due ==> n == m && d is None
        }),
{
}

/// The step of an idle peer's path is taken as it says: a probe goes to the address that it
/// names, a relayed handshake to the server, a lookup asks for the peer, and anything else
/// comes to nothing; the stage is noted.
pub proof fn law_path_is_followed<S, H>(m: ManagerView<S, H>, i: int, step: PathStep, now_ms: u64)
    requires
        0 <= i < m.peers.len(),
    ensures
        ({
            let (n, r) = m.path_idle(i, step, now_ms);
            &&& rest_stays(m, n, i)
            &&& n.peers[i].stage == step.stage
            &&& n.peers[i] == (PeerView {
                stage: n.peers[i].stage,
                last_lookup_ms: n.peers[i].last_lookup_ms,
                ..m.peers[i]
            })
            &&& step.action is Probe ==> r == (PathMoveView::Begin {
                target: step.action->Probe_0,
                via_relay: false,
            })
            &&& step.action is Relay && m.rendezvous is Some ==> r == (PathMoveView::Begin {
                target: m.rendezvous->0.server,
                via_relay: true,
            })
            &&& step.action is NeedLookup ==> r is Ask && r->Ask_0 == m.looked_up(i, now_ms).1
                && n.peers[i].last_lookup_ms == m.looked_up(i, now_ms).0.peers[i].last_lookup_ms
            &&& step.action is Idle || step.action is Failed ==> r is Nothing
            &&& step.action !is NeedLookup ==> n.peers[i].last_lookup_ms
                == m.peers[i].last_lookup_ms
        }),
{
}

/// A datagram that opened hands its packet to the TUN device unchanged, and what the
/// transport answers goes out in its order: as it is where the datagram came directly, each
/// through the relay where it came that way. The peer follows to where a direct one came
/// from. One that did not open comes to nothing.
pub proof fn law_opened_datagram_is_delivered<S, H>(
    m: ManagerView<S, H>,
    i: int,
    src: Option<SockAddr>,
    o: Opened,
    now_ms: u64,
    k: int,
)
    requires
        0 <= i < m.peers.len(),
    ensures
        ({
            let (n, tun, out) = m.delivered(i, src, Some(o), now_ms);
            let live = m.peers[i].state is Established;
            &&& m.delivered(i, src, None, now_ms) == (
                m,
                None::<Seq<u8>>,
                Seq::<EgressView>::empty(),
            )
            &&& !live ==> n == m && tun is None && out.len() == 0
            &&& live ==> {
                &&& tun is Some <==> o.tun is Some
                &&& o.tun is Some ==> tun == Some(o.tun->0@)
                &&& n.peers[i].state is Established
                &&& rest_stays(m, n, i)
                &&& src is Some && !m.peers[i].relay ==> n.peers[i].endpoint == src
                &&& src is None || m.peers[i].relay ==> n.peers[i].endpoint == m.peers[i].endpoint
                &&& src is Some ==> out.len() == o.send@.len()
                &&& src is Some && 0 <= k < o.send@.len() ==> out[k] == (EgressView {
                    fate: o.send@[k].fate,
                    dst: o.send@[k].dst,
                    body: BodyView::Tunnel(o.send@[k].bytes@),
                })
                &&& src is None && m.rendezvous is Some ==> out.len() == o.send@.len()
                &&& src is None && m.rendezvous is Some && 0 <= k < o.send@.len()
                    ==> relayed_to(m, i, o.send@[k].bytes@, seq![out[k]])
            }
        }),
{
    let ds = sealed_views(o.send@);
    lemma_carried_len(m, i, ds);
    if 0 <= k < ds.len() {
        law_sealed_is_sent_in_order(m, i, ds, k);
    }
}

/// What a session has sealed goes the way its peer is reached: as it is, or each datagram
/// through the relay.
pub proof fn law_sealed_goes_the_peers_way<S, H>(
    m: ManagerView<S, H>,
    i: int,
    ds: Seq<SealedView>,
    k: int,
)
    requires
        0 <= k < ds.len(),
        m.peers[i].relay ==> m.rendezvous is Some,
    ensures
        ({
            let out = m.sealed_out(i, ds);
            &&& out.len() == ds.len()
            &&& m.peers[i].relay ==> relayed_to(m, i, ds[k].bytes, seq![out[k]])
            &&& !m.peers[i].relay ==> out[k] == (EgressView {
                fate: ds[k].fate,
                dst: ds[k].dst,
                body: BodyView::Tunnel(ds[k].bytes),
            })
        }),
{
    law_sealed_is_sent_in_order(m, i, ds, k);
}

/// A server is heard where there is one: what it says is taken as its message means, and what
/// cannot be read means nothing. Without a server nothing is.
pub proof fn law_server_is_heard<S, H>(m: ManagerView<S, H>, msg: Message, record_valid: bool)
    ensures
        m.rendezvous is None ==> m.on_rdv(Some(msg), record_valid) == (m, RdvStepView::Nothing),
        m.rendezvous is Some ==> m.on_rdv(Some(msg), record_valid) == m.rdv_step(
            parsed(Some(msg@)),
            record_valid,
        ),
        m.on_rdv(None, record_valid) == (m, RdvStepView::Nothing),
{
}

/// In a mesh a packet for a destination that nobody has goes to the member that the directory
/// gives for it, which is a peer from then on, at the first of its endpoints: the packet waits
/// for it, and it is probed there, or its path is asked where there is a server. A member is
/// taken in only where the directory was asked.
pub proof fn law_resolved_member_gets_the_packet<S, H>(
    m: ManagerView<S, H>,
    inner: Seq<u8>,
    member: Member,
    now_ms: u64,
)
    requires
        m.peers.len() < usize::MAX,
        m.roots is Some,
        m.mode is L3Tun,
        ipv6_dst_spec(inner) == Some(member.id.addr),
        !m.by_addr.contains_key(member.id.addr),
        member.id.public_key != m.local.public_key,
        forall|k: int|
            0 <= k < m.peers.len() ==> (#[trigger] m.peers[k]).id.public_key
                != member.id.public_key,
    ensures
        ({
            let (n, step) = m.on_tun(inner, Some(member), now_ms);
            let i = m.peers.len() as int;
            let p = n.peers[i];
            &&& n.peers.len() == i + 1
            &&& forall|k: int| 0 <= k < i ==> #[trigger] n.peers[k] == m.peers[k]
            &&& p.id == member.id
            &&& p.state is Idle
            &&& p.pending_tun == seq![inner]
            &&& n.by_addr.contains_key(member.id.addr) && n.by_addr[member.id.addr] == i
            &&& n.by_node.contains_key(member.id.node) && n.by_node[member.id.node] == i
            &&& member.endpoints@.len() > 0 ==> p.endpoint == Some(member.endpoints@[0])
            &&& m.rendezvous is Some ==> step == TunStep::AskPath(i as usize)
            &&& m.rendezvous is None && member.endpoints@.len() > 0 ==> step == TunStep::Probe(
                i as usize,
                member.endpoints@[0],
            )
            &&& m.rendezvous is None && member.endpoints@.len() == 0 ==> step is Queued
        }),
        m.on_tun(inner, None, now_ms) == (m, TunStep::Drop),
{
    lemma_first_where_finds(m.peers, has_key::<S, H>(member.id.public_key), 0);
    let n = m.on_tun(inner, Some(member), now_ms).0;
    assert(n.peers[m.peers.len() as int].pending_tun =~= seq![inner]);
}

/// The sessions that a datagram is tried in: the one that its tag or its source names, alone;
/// where none is named, every session.
pub proof fn law_named_session_alone_is_tried<S, H>(
    m: ManagerView<S, H>,
    src: SockAddr,
    dg: Seq<u8>,
)
    requires
        m.peers.len() <= usize::MAX,
    ensures
        m.data_route(src, dg) is Some ==> m.tried_in(src, dg) == seq![
            m.data_route(src, dg)->0 as usize,
        ],
        m.data_route(src, dg) is None ==> names_the_live(m, m.tried_in(src, dg)),
{
    law_every_session_is_tried(m);
}

} // verus!
