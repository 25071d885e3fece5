//! What a session is once a handshake gave it, which handshakes give one, and where it sends.

use vstd::prelude::*;

use crate::addr::SockAddr;
use crate::order::before;
use crate::peer::{PathKind, PathStage, PeerView};
use crate::peer_manager::handshake::OpenedInit;
use crate::peer_manager::laws::{
    law_labels_never_go_back_over_runs, law_live_session_holds_still,
    law_session_traffic_from_anywhere, lemma_codes_apart, lemma_complete_step, lemma_init_step,
    lemma_swept_grows, moves, Op,
};
use crate::peer_manager::obf::{keyed_at, DeobfView, Unmasked};
use crate::peer_manager::rekey_laws::same_epochs;
use crate::peer_manager::table_laws::left_of;
use crate::peer_manager::{
    has_key, lemma_first_where, lemma_first_where_finds, picked, Completed, ManagerView, Pick,
    ReactionView, Started,
};
use crate::wire::{BodyView, EgressView, MessageView};

verus! {

/// Whether peer `i` of `n` has the session that `done` gave, and it began at `now_ms`: with
/// datagrams from `src`, or through the relay where there is none. The session sends to
/// where the datagrams came from, under the settings of the table `m` that it began in.
pub open spec fn begins<S, H>(
    m: ManagerView<S, H>,
    n: ManagerView<S, H>,
    i: int,
    src: Option<SockAddr>,
    done: Completed<S>,
    now_ms: u64,
) -> bool {
    let p = n.peers[i];
    let e = p.state->Established_0;
    &&& p.state is Established
    &&& e.current.session == done.session
    &&& e.current.conn_tag == done.conn_tag
    &&& e.current.mode == m.mode
    &&& e.current.obf == (m.obf_key is Some)
    &&& e.current.symbol_size == m.data_symbol_size
    &&& src is Some ==> e.current.peer_addr == src->0
    &&& (src is None && m.rendezvous is Some) ==> e.current.peer_addr == m.rendezvous->0.server
    &&& e.created_ms == now_ms
    &&& e.next is None && e.previous is None && e.rekey is None
    &&& n.by_tag.contains_key(done.conn_tag) && n.by_tag[done.conn_tag] == i
    &&& forall|t: u64|
        t != done.conn_tag ==> {
            &&& (#[trigger] n.by_tag.contains_key(t)) == m.by_tag.contains_key(t)
            &&& m.by_tag.contains_key(t) ==> n.by_tag[t] == m.by_tag[t]
        }
    &&& src is Some ==> p.endpoint == src
    &&& p.relay == (src is None)
    &&& m.obf_key is Some ==> p.session_obf_key == Some(done.obf_key)
    &&& m.obf_key is None ==> p.session_obf_key is None
    &&& p.pending_tun.len() == 0
    &&& p.path_kind is Some
    &&& (p.path_kind->0 is Relayed) == (src is None)
}

/// Whether all else about a peer is as before, once its session began: who it is, the label
/// that counts but for the one given, the stage of its path, its times, and its address where
/// the session came about through the relay.
pub open spec fn joins<S, H>(
    a: PeerView<S, H>,
    b: PeerView<S, H>,
    src: Option<SockAddr>,
    label: Option<Seq<u8>>,
) -> bool {
    &&& b.id == a.id
    &&& b.stage == a.stage
    &&& b.last_accepted_init_ts == label
    &&& b.last_lookup_ms == a.last_lookup_ms
    &&& b.last_activity_ms == a.last_activity_ms
    &&& b.last_cover_ms == a.last_cover_ms
    &&& src is None ==> b.endpoint == a.endpoint
}

/// Whether nothing comes of a step: nothing is sent, sealed or settled.
pub open spec fn no_reaction(r: ReactionView) -> bool {
    r.egress.len() == 0 && r.seal is None && r.settled is None
}

/// Whether `out` is `raw` for peer `i`, to be relayed, where there is a server.
pub open spec fn relayed_to<S, H>(
    m: ManagerView<S, H>,
    i: int,
    raw: Seq<u8>,
    out: Seq<EgressView>,
) -> bool {
    m.rendezvous is Some ==> out == seq![
        EgressView {
            fate: 0,
            dst: m.rendezvous->0.server,
            body: BodyView::Server(
                MessageView::RelaySend {
                    src: m.local.node,
                    dst: m.peers[i].id.node,
                    payload: raw,
                },
            ),
        },
    ]
}

/// Whether two tables differ in peer `i` at most, and in the tags of sessions.
pub open spec fn others_stay<S, H>(m: ManagerView<S, H>, n: ManagerView<S, H>, i: int) -> bool {
    &&& n == (ManagerView { peers: n.peers, by_tag: n.by_tag, ..m })
    &&& n.peers.len() == m.peers.len()
    &&& forall|j: int| 0 <= j < m.peers.len() && j != i ==> #[trigger] n.peers[j] == m.peers[j]
}

/// Whether two tables differ in peer `i` at most.
pub open spec fn rest_stays<S, H>(m: ManagerView<S, H>, n: ManagerView<S, H>, i: int) -> bool {
    n.by_tag == m.by_tag && others_stay(m, n, i)
}

/// The path that a session settles on which completed at a stage, without the relay.
pub open spec fn settled_at(stage: PathStage, kind: PathKind) -> bool {
    (kind is Direct) == (stage is Direct) && (kind is Punched) == !(stage is Direct)
}

/// Whether no root of the table has the key.
pub open spec fn no_root<S, H>(m: ManagerView<S, H>, key: [u8; 32]) -> bool {
    m.roots is Some ==> forall|k: int|
        0 <= k < m.roots->0.len() ==> (#[trigger] m.roots->0[k]).id.public_key != key
}

/// Whether the holder of a key is to have a session: outside a mesh everybody, in a mesh who
/// shows a valid certificate, and every root.
pub open spec fn member<S, H>(m: ManagerView<S, H>, key: [u8; 32], cert_valid: bool) -> bool {
    ||| m.roots is None
    ||| cert_valid
    ||| exists|k: int|
        0 <= k < m.roots->0.len() && (#[trigger] m.roots->0[k]).id.public_key == key
}

/// Whether `i` is the first place with a key.
pub open spec fn first_with_key<S, H>(m: ManagerView<S, H>, i: int, key: [u8; 32]) -> bool {
    &&& 0 <= i < m.peers.len()
    &&& m.peers[i].id.public_key == key
    &&& forall|j: int| 0 <= j < i ==> (#[trigger] m.peers[j]).id.public_key != key
}

/// Whether a label comes after the last one that was accepted, if there was one.
pub open spec fn newer(last: Option<Seq<u8>>, ts: Seq<u8>) -> bool {
    last is None || before(last->0, ts)
}

/// A handshake of this side that completes gives the session that was shaken out, which
/// sends to where the response came from; what waited for it is sealed under it; nobody
/// else is touched. With no response that completes it, or from somebody who is to prove
/// membership and did not, nothing happens.
pub proof fn law_completing_gives_the_session<S, H>(
    m: ManagerView<S, H>,
    i: int,
    src: Option<SockAddr>,
    done: Completed<S>,
    cert_valid: bool,
    now_ms: u64,
)
    requires
        0 <= i < m.peers.len() <= usize::MAX,
    ensures
        member(m, m.peers[i].id.public_key, cert_valid) ==> ({
            let (n, r) = m.completed(i, src, Some(done), cert_valid, now_ms);
            &&& begins(m, n, i, src, done, now_ms)
            &&& others_stay(m, n, i)
            &&& joins(m.peers[i], n.peers[i], src, m.peers[i].last_accepted_init_ts)
            &&& n.peers[i].cached_resp == m.peers[i].cached_resp
            &&& n.peers[i].cached_resp_init_eph == m.peers[i].cached_resp_init_eph
            &&& r.egress.len() == 0
            &&& r.seal == Some((i as usize, m.peers[i].pending_tun))
            &&& r.settled == Some((i as usize, n.peers[i].path_kind->0))
            &&& src is Some ==> settled_at(m.peers[i].stage, n.peers[i].path_kind->0)
        }),
        m.completed(i, src, None, cert_valid, now_ms).0 == m,
        no_reaction(m.completed(i, src, None, cert_valid, now_ms).1),
        m.roots is Some && !cert_valid && no_root(m, m.peers[i].id.public_key) ==> {
            &&& m.completed(i, src, Some(done), cert_valid, now_ms).0 == m
            &&& no_reaction(m.completed(i, src, Some(done), cert_valid, now_ms).1)
        },
{
}

/// A handshake that comes in from a peer without a session, newer than all before it, is
/// answered to where it came from, gives the session that was shaken out, which sends
/// there, and its label counts from then on; what waited is sealed under it; nobody else
/// is touched.
pub proof fn law_answering_gives_the_session<S, H>(
    m: ManagerView<S, H>,
    i: int,
    src: SockAddr,
    o: OpenedInit<S>,
    now_ms: u64,
)
    requires
        m.peers.len() <= usize::MAX,
        first_with_key(m, i, o.remote.public_key),
        m.peers[i].state !is Established,
        m.peers[i].state is Handshaking ==> !before(
            m.local.public_key@,
            o.remote.public_key@,
        ),
        o.payload@.len() >= 12,
        member(m, o.remote.public_key, o.cert_valid),
        newer(m.peers[i].last_accepted_init_ts, o.payload@.take(12)),
    ensures
        ({
            let (n, r) = m.on_init(src, o, now_ms);
            &&& begins(m, n, i, Some(src), o.done, now_ms)
            &&& others_stay(m, n, i)
            &&& joins(m.peers[i], n.peers[i], Some(src), Some(o.payload@.take(12)))
            &&& n.peers[i].cached_resp == Some(o.resp_pkt@)
            &&& n.peers[i].cached_resp_init_eph == Some(o.eph)
            &&& r.egress == seq![
                EgressView { fate: 0, dst: src, body: BodyView::Tunnel(o.resp_pkt@) },
            ]
            &&& r.seal == Some((i as usize, m.peers[i].pending_tun))
            &&& r.settled == Some((i as usize, n.peers[i].path_kind->0))
            &&& settled_at(m.peers[i].stage, n.peers[i].path_kind->0)
        }),
        ({
            let (n, r) = m.relayed_init(i, o, now_ms);
            &&& begins(m, n, i, None, o.done, now_ms)
            &&& others_stay(m, n, i)
            &&& joins(m.peers[i], n.peers[i], None, Some(o.payload@.take(12)))
            &&& n.peers[i].cached_resp == Some(o.resp_pkt@)
            &&& n.peers[i].cached_resp_init_eph == Some(o.eph)
            &&& relayed_to(m, i, o.resp_pkt@, r.egress)
            &&& r.seal == Some((i as usize, m.peers[i].pending_tun))
            &&& r.settled == Some((i as usize, PathKind::Relayed))
        }),
{
    lemma_first_where(m.peers, has_key::<S, H>(o.remote.public_key), 0, i);
}

/// A member that nobody knew, with a valid certificate, is in the table after its handshake,
/// at its end, with the session that was shaken out.
pub proof fn law_new_member_gets_a_session<S, H>(
    m: ManagerView<S, H>,
    src: SockAddr,
    o: OpenedInit<S>,
    now_ms: u64,
)
    requires
        m.peers.len() < usize::MAX,
        forall|k: int|
            0 <= k < m.peers.len() ==> (#[trigger] m.peers[k]).id.public_key
                != o.remote.public_key,
        o.remote.public_key != m.local.public_key,
        m.roots is Some && o.cert_valid,
        o.payload@.len() >= 12,
    ensures
        ({
            let (n, r) = m.on_init(src, o, now_ms);
            let i = m.peers.len() as int;
            &&& n.peers.len() == m.peers.len() + 1
            &&& begins(m, n, i, Some(src), o.done, now_ms)
            &&& n.peers[i].id == o.remote
            &&& n.by_addr.contains_key(o.remote.addr) && n.by_addr[o.remote.addr] == i
            &&& n.by_node.contains_key(o.remote.node) && n.by_node[o.remote.node] == i
            &&& forall|j: int| 0 <= j < i ==> #[trigger] n.peers[j] == m.peers[j]
            &&& n.peers[i].last_accepted_init_ts == Some(o.payload@.take(12))
            &&& n.peers[i].cached_resp == Some(o.resp_pkt@)
            &&& n.peers[i].cached_resp_init_eph == Some(o.eph)
            &&& r.egress == seq![
                EgressView { fate: 0, dst: src, body: BodyView::Tunnel(o.resp_pkt@) },
            ]
            &&& r.seal == Some((i as usize, Seq::<Seq<u8>>::empty()))
            &&& r.settled == Some((i as usize, n.peers[i].path_kind->0))
        }),
{
    let key = o.remote.public_key;
    let p = has_key::<S, H>(key);
    lemma_first_where_finds(m.peers, p, 0);
    let w = m.with_initiator(o);
    let i = m.peers.len() as int;
    assert forall|k: int| 0 <= k < i implies !p(#[trigger] w.peers[k]) by {
        assert(w.peers[k] == m.peers[k]);
    }
    lemma_first_where(w.peers, p, 0, i);
}

/// In a mesh nobody gets a session who is neither a root nor shows a valid certificate, and
/// nobody at all by a handshake that is too short for its label.
pub proof fn law_no_session_without_membership<S, H>(
    m: ManagerView<S, H>,
    i: int,
    src: SockAddr,
    o: OpenedInit<S>,
    now_ms: u64,
    j: int,
)
    requires
        m.peers.len() < usize::MAX,
        0 <= i < m.peers.len(),
        0 <= j < m.peers.len(),
        m.peers[j].state !is Established,
        (m.roots is Some && !o.cert_valid && no_root(m, o.remote.public_key))
            || o.payload@.len() < 12,
    ensures
        m.on_init(src, o, now_ms).0.peers.len() == m.peers.len(),
        m.on_init(src, o, now_ms).0.peers[j] == m.peers[j],
        no_reaction(m.on_init(src, o, now_ms).1),
        m.relayed_init(i, o, now_ms).0.peers[j] == m.peers[j],
        no_reaction(m.relayed_init(i, o, now_ms).1),
{
    lemma_first_where_finds(m.peers, has_key::<S, H>(o.remote.public_key), 0);
}

/// Beginning a handshake: the peer waits for the response to exactly what was drawn, since
/// now, toward the address it was drawn for, and what is sent last is what was drawn.
pub proof fn law_beginning_waits_for_the_response<S, H>(
    m: ManagerView<S, H>,
    i: int,
    target: SockAddr,
    via_relay: bool,
    now_ms: u64,
    st: Started<H>,
    draw: u64,
    decoys: Seq<Seq<u8>>,
)
    requires
        0 <= i < m.peers.len(),
    ensures
        via_relay && m.rendezvous is None ==> m.begin(
            i,
            target,
            via_relay,
            now_ms,
            Some(st),
            draw,
            decoys,
        ) == (m, None::<Seq<EgressView>>),
        !via_relay || m.rendezvous is Some ==> ({
            let (n, out) = m.begin(i, target, via_relay, now_ms, Some(st), draw, decoys);
            let p = n.peers[i];
            let h = p.state->Handshaking_0;
            &&& p.state is Handshaking
            &&& h.hs == st.hs
            &&& h.init_pkt == st.init_pkt@
            &&& h.target == target
            &&& h.via_relay == via_relay
            &&& h.started_ms == now_ms
            &&& h.last_sent_ms == now_ms
            &&& h.retries == 0
            &&& m.obf_key is None ==> h.retry_ms == 1_000
            &&& m.obf_key is Some ==> 750 <= h.retry_ms <= 1_250
            &&& p.pending_tun == m.peers[i].pending_tun
            &&& p.last_accepted_init_ts == m.peers[i].last_accepted_init_ts
            &&& !via_relay ==> p.endpoint == Some(target)
            &&& via_relay ==> p.relay
            &&& rest_stays(m, n, i)
            &&& n.by_tag == m.by_tag
            &&& out is Some && out->0.len() > 0
            &&& !via_relay ==> out->0.last() == (EgressView {
                fate: 0,
                dst: target,
                body: BodyView::Tunnel(st.init_pkt@),
            })
            &&& via_relay ==> relayed_to(m, i, st.init_pkt@, out->0)
            &&& p.relay == (m.peers[i].relay || via_relay)
            &&& via_relay ==> p.endpoint == m.peers[i].endpoint
            &&& p == (PeerView {
                state: p.state,
                relay: p.relay,
                endpoint: p.endpoint,
                ..m.peers[i]
            })
        }),
        m.begin(i, target, via_relay, now_ms, None, draw, decoys) == (
            m,
            None::<Seq<EgressView>>,
        ),
{
}

/// A response is for the handshake that waits at the address it came from, or for the rekey
/// of the session there; through the relay, for that of the peer it came from. What is
/// taken out is what waited, and the peer is then idle, or its session without a rekey.
pub proof fn law_response_finds_its_handshake<S, H>(
    m: ManagerView<S, H>,
    i: int,
    src: SockAddr,
)
    requires
        0 <= i < m.peers.len() <= usize::MAX,
        m.peers[i].endpoint == Some(src),
        forall|k: int|
            0 <= k < m.peers.len() && k != i ==> (#[trigger] m.peers[k]).endpoint != Some(src),
    ensures
        m.peers[i].state is Handshaking ==> ({
            let (n, a) = m.take_direct(src);
            let h = m.peers[i].state->Handshaking_0;
            &&& a is Some && a->0.peer == i && a->0.hs == h.hs && a->0.rekey_target is None
            &&& n.peers[i].state is Idle
            &&& n.peers[i] == (PeerView { state: n.peers[i].state, ..m.peers[i] })
            &&& rest_stays(m, n, i)
            &&& m.take_relayed(i) == (n, a)
        }),
        (m.peers[i].state is Established && m.peers[i].state->Established_0.rekey is Some) ==> ({
            let rk = m.peers[i].state->Established_0.rekey->0;
            let (n, a) = if m.peers[i].relay {
                m.take_relayed(i)
            } else {
                m.take_direct(src)
            };
            &&& a is Some && a->0.peer == i && a->0.hs == rk.hs
            &&& a->0.rekey_target == Some(rk.target)
            &&& n.peers[i].state is Established
            &&& n.peers[i].state->Established_0.rekey is None
            &&& same_epochs(
                m.peers[i].state->Established_0,
                n.peers[i].state->Established_0,
            )
            &&& n.peers[i] == (PeerView { state: n.peers[i].state, ..m.peers[i] })
            &&& rest_stays(m, n, i)
        }),
        m.peers[i].state is Idle ==> {
            &&& m.take_direct(src).1 is None && m.take_direct(src).0 == m
            &&& m.take_relayed(i).1 is None && m.take_relayed(i).0 == m
        },
        (m.peers[i].state is Established && m.peers[i].relay) ==> m.take_direct(src).1 is None,
        (m.peers[i].state is Established && !m.peers[i].relay) ==> m.take_relayed(i).1 is None
            && m.take_relayed(i).0 == m,
{
    lemma_only_one_there(m, i, src);
}

/// The searches at an address that only peer `i` is at.
proof fn lemma_only_one_there<S, H>(m: ManagerView<S, H>, i: int, src: SockAddr)
    requires
        0 <= i < m.peers.len(),
        m.peers[i].endpoint == Some(src),
        forall|k: int|
            0 <= k < m.peers.len() && k != i ==> (#[trigger] m.peers[k]).endpoint != Some(src),
    ensures
        m.find_at(Pick::Rekeying, src) == if m.peers[i].state is Established
            && m.peers[i].state->Established_0.rekey is Some && !m.peers[i].relay {
            Some(i)
        } else {
            None
        },
        m.find_at(Pick::Handshaking, src) == if m.peers[i].state is Handshaking {
            Some(i)
        } else {
            None
        },
{
    lemma_first_where_finds(m.peers, picked::<S, H>(Pick::Rekeying, src), 0);
    lemma_first_where_finds(m.peers, picked::<S, H>(Pick::Handshaking, src), 0);
    assert(m.peers[i].endpoint == Some(src));
}

/// Two nodes with obfuscation on that complete one handshake, one as its initiator and one
/// by answering it, get each other's session traffic through: what one wraps for the
/// other's address the other delivers, from wherever it comes.
pub proof fn law_one_handshake_opens_both_ways<S, H>(
    a: ManagerView<S, H>,
    b: ManagerView<S, H>,
    i: int,
    j: int,
    at_a: SockAddr,
    at_b: SockAddr,
    done: Completed<S>,
    o: OpenedInit<S>,
    cert_valid: bool,
    now_ms: u64,
    from: SockAddr,
    dg: Seq<u8>,
    body: Vec<u8>,
    answers_a: Seq<Unmasked>,
    answers_b: Seq<Unmasked>,
)
    requires
        a.wf() && b.wf(),
        a.peers.len() <= usize::MAX && b.peers.len() <= usize::MAX,
        a.obf_key is Some && b.obf_key is Some,
        a.codes == b.codes,
        0 <= i < a.peers.len(),
        member(a, a.peers[i].id.public_key, cert_valid),
        member(b, o.remote.public_key, o.cert_valid),
        first_with_key(b, j, o.remote.public_key),
        b.peers[j].state is Idle,
        o.payload@.len() >= 12,
        newer(b.peers[j].last_accepted_init_ts, o.payload@.take(12)),
        done.obf_key == o.done.obf_key,
        forall|k: int| 0 <= k < i ==> (#[trigger] a.peers[k]).endpoint != Some(at_b),
        forall|k: int| 0 <= k < j ==> (#[trigger] b.peers[k]).endpoint != Some(at_a),
        !a.is_server(at_b) && !b.is_server(at_a),
        dg.len() > 0,
        dg[0] == a.codes.data || dg[0] == a.codes.control || dg[0] == a.codes.gossip,
        body@ == dg.skip(1),
        ({
            let x = a.completed(i, Some(at_b), Some(done), cert_valid, now_ms).0;
            opens_under(x, from, done.obf_key, dg[0], body, answers_a)
        }),
        opens_under(b.on_init(at_a, o, now_ms).0, from, done.obf_key, dg[0], body, answers_b),
    ensures
        ({
            let x = a.completed(i, Some(at_b), Some(done), cert_valid, now_ms).0;
            let y = b.on_init(at_a, o, now_ms).0;
            &&& x.obf_plan(at_b, dg) is Wrap
            &&& x.obf_plan(at_b, dg)->key == done.obf_key
            &&& x.obf_plan(at_b, dg)->ptype == dg[0]
            &&& x.obf_plan(at_b, dg)->skip == 1
            &&& y.deobf(y.trials(from), answers_b, 0) == DeobfView::Deliver(dg)
            &&& y.obf_plan(at_a, dg) is Wrap
            &&& y.obf_plan(at_a, dg)->key == done.obf_key
            &&& y.obf_plan(at_a, dg)->ptype == dg[0]
            &&& y.obf_plan(at_a, dg)->skip == 1
            &&& x.deobf(x.trials(from), answers_a, 0) == DeobfView::Deliver(dg)
        }),
{
    let x = a.completed(i, Some(at_b), Some(done), cert_valid, now_ms).0;
    let y = b.on_init(at_a, o, now_ms).0;
    let p = has_key::<S, H>(o.remote.public_key);
    lemma_first_where(b.peers, p, 0, j);
    assert(x.wf()) by {
        lemma_complete_step(a, i, Some(at_b), Some(done), cert_valid, now_ms);
    }
    assert(y.wf()) by {
        lemma_init_step(b, at_a, o, now_ms);
    }
    lemma_codes_apart(a.codes);
    assert(x.peers[i].session_obf_key == Some(done.obf_key));
    assert(y.peers[j].session_obf_key == Some(done.obf_key));
    lemma_key_there(x, i, at_b);
    lemma_key_there(y, j, at_a);
    law_session_traffic_from_anywhere(x, i, from, dg[0], body, answers_a);
    law_session_traffic_from_anywhere(y, j, from, dg[0], body, answers_b);
    assert(seq![dg[0]] + body@ =~= dg);
}

/// Whether the answers of the trials on a datagram are those of one that was wrapped under
/// a key: that key opens it, and no other does.
pub open spec fn opens_under<S, H>(
    m: ManagerView<S, H>,
    src: SockAddr,
    key: [u8; 16],
    ptype: u8,
    body: Vec<u8>,
    answers: Seq<Unmasked>,
) -> bool {
    &&& answers.len() == m.trials(src).len()
    &&& forall|k: int|
        0 <= k < answers.len() ==> #[trigger] answers[k] == if m.trials(src)[k].key == key {
            Some((ptype, body))
        } else {
            None
        }
}

proof fn lemma_key_there<S, H>(m: ManagerView<S, H>, i: int, addr: SockAddr)
    requires
        0 <= i < m.peers.len(),
        m.peers[i].endpoint == Some(addr),
        m.peers[i].state is Established,
        m.peers[i].session_obf_key is Some,
        forall|k: int| 0 <= k < i ==> (#[trigger] m.peers[k]).endpoint != Some(addr),
    ensures
        m.key_at(addr) == m.peers[i].session_obf_key,
{
    lemma_first_where(m.peers, keyed_at::<S, H>(addr), 0, i);
}

/// Whether a session that is not relayed sends to where its peer is.
pub open spec fn sends_home<S, H>(p: PeerView<S, H>) -> bool {
    p.state is Established && !p.relay ==> p.endpoint
        == Some(p.state->Established_0.current.peer_addr)
}

/// Whether a step, where it makes another epoch send, makes one send that was prepared or
/// shaken out with the peer where it is now.
pub open spec fn aimed<S, H>(m: ManagerView<S, H>, op: Op<S, H>) -> bool {
    match op {
        Op::Rekeyed { i, target, via_relay, .. } => {
            &&& via_relay == m.peers[i].relay
            &&& !via_relay ==> m.peers[i].endpoint == Some(target)
        },
        Op::Opened { i, slot, src, .. } => {
            let e = m.peers[i].state->Established_0;
            ||| slot !is Next
            ||| e.next is None
            ||| src is Some && src != m.peers[i].endpoint
            ||| Some(e.next->0.dp.peer_addr) == m.peers[i].endpoint
        },
        _ => true,
    }
}

/// Every session that is not relayed sends to where its peer is: every step keeps that, as
/// long as a rekey completes with the peer where it was when the rekey was begun.
pub proof fn law_sessions_send_to_their_peers<S, H>(m: ManagerView<S, H>, op: Op<S, H>, j: int)
    requires
        m.wf(),
        m.peers.len() <= usize::MAX,
        m.allows(op),
        aimed(m, op),
        forall|k: int| 0 <= k < m.peers.len() ==> sends_home(#[trigger] m.peers[k]),
        0 <= j < m.after(op).peers.len(),
    ensures
        sends_home(m.after(op).peers[j]),
{
    let n = m.after(op);
    if j < m.peers.len() {
        assert(sends_home(m.peers[j]));
        if m.peers[j].state is Established && j != moves(op) {
            law_live_session_holds_still(m, op, j);
        } else {
            lemma_home_after(m, op, j);
        }
    } else {
        lemma_new_home(m, op, j);
    }
}

/// Over a whole run that begins without a session, every session that is not relayed sends to
/// where its peer is.
pub proof fn law_sessions_send_to_their_peers_over_runs<S, H>(
    m: ManagerView<S, H>,
    ops: Seq<Op<S, H>>,
    n: nat,
    j: int,
)
    requires
        m.wf(),
        m.peers.len() <= usize::MAX,
        n <= ops.len(),
        m.allows_run(ops, n),
        forall|k: int| 0 <= k < n ==> aimed(m.run(ops, k as nat), #[trigger] ops[k]),
        forall|k: int| 0 <= k < m.peers.len() ==> (#[trigger] m.peers[k]).state !is Established,
        0 <= j < m.run(ops, n).peers.len(),
    ensures
        sends_home(m.run(ops, n).peers[j]),
    decreases n,
{
    if n > 0 {
        let k = (n - 1) as nat;
        let w = m.run(ops, k);
        assert(m.allows_run(ops, k));
        law_labels_never_go_back_over_runs(m, ops, k);
        assert(w.allows(ops[k as int]) && aimed(w, ops[k as int]));
        assert forall|i: int| 0 <= i < w.peers.len() implies sends_home(#[trigger] w.peers[i]) by {
            law_sessions_send_to_their_peers_over_runs(m, ops, k, i);
        }
        law_sessions_send_to_their_peers(w, ops[k as int], j);
    } else {
        assert(m.peers[j].state !is Established);
    }
}

#[verifier::spinoff_prover]
#[verifier::rlimit(50)]
proof fn lemma_home_after<S, H>(m: ManagerView<S, H>, op: Op<S, H>, j: int)
    requires
        m.wf(),
        m.peers.len() <= usize::MAX,
        m.allows(op),
        aimed(m, op),
        0 <= j < m.peers.len(),
        m.peers[j].state !is Established || j == moves(op),
        sends_home(m.peers[j]),
    ensures
        sends_home(m.after(op).peers[j]),
{
    reveal(ManagerView::after);
    reveal(ManagerView::allows);
    match op {
        Op::Init { src, o, now_ms } => {
            let w = m.with_initiator(o);
            assert(w.peers[j] == m.peers[j]);
            lemma_first_where_finds(w.peers, has_key(o.remote.public_key), 0);
        },
        Op::TakeDirect { src } => {
            lemma_first_where_finds(m.peers, picked::<S, H>(Pick::Rekeying, src), 0);
            lemma_first_where_finds(m.peers, picked::<S, H>(Pick::Handshaking, src), 0);
        },
        Op::Tun { inner, resolved, now_ms } => {
            let w = m.with_resolved(inner, resolved);
            assert(w.peers[j] == m.peers[j]);
        },
        Op::Sweep { valid, now_ms } => {
            lemma_swept_grows(
                ManagerView { last_cert_sweep_ms: now_ms, ..m },
                valid,
                valid.len(),
            );
        },
        _ => {},
    }
}

proof fn lemma_new_home<S, H>(m: ManagerView<S, H>, op: Op<S, H>, j: int)
    requires
        m.wf(),
        m.peers.len() <= usize::MAX,
        m.allows(op),
        m.peers.len() <= j < m.after(op).peers.len(),
    ensures
        sends_home(m.after(op).peers[j]),
{
    reveal(ManagerView::after);
    reveal(ManagerView::allows);
    match op {
        Op::Init { src, o, now_ms } => {
            let w = m.with_initiator(o);
            lemma_first_where_finds(w.peers, has_key(o.remote.public_key), 0);
        },
        Op::TakeDirect { src } => {
            lemma_first_where_finds(m.peers, picked::<S, H>(Pick::Rekeying, src), 0);
            lemma_first_where_finds(m.peers, picked::<S, H>(Pick::Handshaking, src), 0);
        },
        Op::Sweep { valid, now_ms } => {
            lemma_swept_grows(
                ManagerView { last_cert_sweep_ms: now_ms, ..m },
                valid,
                valid.len(),
            );
        },
        _ => {},
    }
}

/// A direct response is for a rekey that waits at the address it came from before it is for a
/// handshake that waits there, and is for one of them if there is one.
pub proof fn law_rekey_takes_the_response_first<S, H>(
    m: ManagerView<S, H>,
    i: int,
    src: SockAddr,
)
    requires
        0 <= i < m.peers.len() <= usize::MAX,
        m.peers[i].endpoint == Some(src),
    ensures
        ({
            let (n, a) = m.take_direct(src);
            let k = a->0.peer as int;
            &&& m.peers[i].state is Handshaking ==> a is Some
            &&& m.peers[i].state is Established && !m.peers[i].relay
                && m.peers[i].state->Established_0.rekey is Some ==> a is Some
                && a->0.rekey_target is Some
            &&& a is Some ==> {
                &&& 0 <= k < m.peers.len()
                &&& m.peers[k].endpoint == Some(src)
                &&& a->0.rekey_target is Some ==> m.peers[k].state is Established
                    && m.peers[k].state->Established_0.rekey is Some && a->0.hs
                    == m.peers[k].state->Established_0.rekey->0.hs
                &&& a->0.rekey_target is None ==> m.peers[k].state is Handshaking && a->0.hs
                    == m.peers[k].state->Handshaking_0.hs
                &&& rest_stays(m, n, k)
            }
        }),
{
    assert(m.peers[i].state is Handshaking ==> picked::<S, H>(Pick::Handshaking, src)(m.peers[i]));
    assert(m.peers[i].state is Established && !m.peers[i].relay
        && m.peers[i].state->Established_0.rekey is Some ==> picked::<S, H>(Pick::Rekeying, src)(
        m.peers[i],
    ));
    lemma_first_where_finds(m.peers, picked::<S, H>(Pick::Rekeying, src), 0);
    lemma_first_where_finds(m.peers, picked::<S, H>(Pick::Handshaking, src), 0);
}

/// A handshake from a peer with a session. A direct one is not listened to while the session
/// is relayed; in a mesh, one without membership ends the session, and nothing answers it;
/// any other one is a rekey.
pub proof fn law_handshake_into_a_session<S, H>(
    m: ManagerView<S, H>,
    i: int,
    src: SockAddr,
    o: OpenedInit<S>,
    now_ms: u64,
)
    requires
        first_with_key(m, i, o.remote.public_key),
        m.peers[i].state is Established,
        o.payload@.len() >= 12,
    ensures
        ({
            let direct = m.on_init(src, o, now_ms);
            let relayed = m.relayed_init(i, o, now_ms);
            let p = m.peers[i];
            let ts = o.payload@.take(12);
            let admits = member(m, o.remote.public_key, o.cert_valid);
            let stranger = m.roots is Some && !o.cert_valid && no_root(m, o.remote.public_key);
            let follows = p.last_accepted_init_ts is Some && p.cached_resp_init_eph != Some(o.eph)
                && newer(p.last_accepted_init_ts, ts);
            &&& p.relay ==> direct.0 == m && no_reaction(direct.1)
            &&& !p.relay && stranger ==> left_of(p, direct.0.peers[i]) && others_stay(
                m,
                direct.0,
                i,
            ) && no_reaction(direct.1)
            &&& stranger ==> left_of(p, relayed.0.peers[i]) && others_stay(m, relayed.0, i)
                && no_reaction(relayed.1)
            &&& !p.relay && admits ==> direct == m.rekey_init(
                i,
                o.done,
                o.resp_pkt@,
                o.eph,
                ts,
                src,
                false,
            )
            &&& p.relay && admits && m.rendezvous is Some ==> relayed == m.rekey_init(
                i,
                o.done,
                o.resp_pkt@,
                o.eph,
                ts,
                m.rendezvous->0.server,
                true,
            )
            &&& !p.relay && admits && !follows ==> relayed.0 == m && no_reaction(relayed.1)
            &&& !p.relay && admits && follows ==> {
                let there = PeerView { relay: true, ..p };
                &&& m.rendezvous is Some ==> relayed == (ManagerView {
                    peers: m.peers.update(i, there),
                    ..m
                }).rekey_init(
                    i,
                    o.done,
                    o.resp_pkt@,
                    o.eph,
                    ts,
                    m.rendezvous->0.server,
                    true,
                )
                &&& relayed.0.peers[i].relay
                &&& relayed.0.peers[i].state is Established
                &&& others_stay(m, relayed.0, i)
            }
        }),
{
    lemma_first_where(m.peers, has_key::<S, H>(o.remote.public_key), 0, i);
}

/// A relayed handshake counts only for the peer that it came from: one that proves another
/// key than that peer's comes to nothing.
pub proof fn law_relayed_handshake_is_the_peers_own<S, H>(
    m: ManagerView<S, H>,
    i: int,
    o: OpenedInit<S>,
    now_ms: u64,
)
    requires
        o.remote.public_key != m.peers[i].id.public_key || o.payload@.len() < 12,
    ensures
        m.relayed_init(i, o, now_ms).0 == m,
        no_reaction(m.relayed_init(i, o, now_ms).1),
{
}

/// Handshakes that come to nothing: one that is too short for its label; one from nobody in
/// the table, outside a mesh or without a valid certificate; and, while there is no session,
/// one that is not newer than all before it, or that comes while this side's own is under way
/// and this side has the smaller key.
pub proof fn law_handshakes_that_come_to_nothing<S, H>(
    m: ManagerView<S, H>,
    i: int,
    src: SockAddr,
    o: OpenedInit<S>,
    now_ms: u64,
)
    ensures
        ({
            let (n, r) = m.on_init(src, o, now_ms);
            let unknown = forall|k: int|
                0 <= k < m.peers.len() ==> (#[trigger] m.peers[k]).id.public_key
                    != o.remote.public_key;
            let p = m.peers[i];
            let late = !newer(p.last_accepted_init_ts, o.payload@.take(12));
            let yields = p.state is Handshaking && before(
                m.local.public_key@,
                o.remote.public_key@,
            );
            ({
                ||| o.payload@.len() < 12
                ||| unknown && (m.roots is None || !o.cert_valid)
                ||| first_with_key(m, i, o.remote.public_key) && p.state !is Established && (late
                    || yields)
            }) ==> n == m && no_reaction(r)
        }),
        ({
            let (n, r) = m.relayed_init(i, o, now_ms);
            let p = m.peers[i];
            let late = !newer(p.last_accepted_init_ts, o.payload@.take(12));
            let yields = p.state is Handshaking && before(
                m.local.public_key@,
                o.remote.public_key@,
            );
            p.state !is Established && (late || yields) ==> n == m && no_reaction(r)
        }),
{
    lemma_first_where_finds(m.peers, has_key::<S, H>(o.remote.public_key), 0);
    if first_with_key(m, i, o.remote.public_key) {
        lemma_first_where(m.peers, has_key::<S, H>(o.remote.public_key), 0, i);
    }
}

} // verus!
