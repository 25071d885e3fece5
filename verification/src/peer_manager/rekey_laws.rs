//! When a session is rekeyed, and what becomes of its epochs meanwhile.

use vstd::prelude::*;

use crate::addr::SockAddr;
use crate::epoch::{open_tried, EpochSlot, EpochsView, OpenStep};
use crate::order::before;
use crate::peer::PeerView;
use crate::peer_manager::handshake::OpenedInit;
use crate::peer_manager::session_laws::{
    first_with_key, law_answering_gives_the_session, member, newer, no_reaction, no_root,
    others_stay, relayed_to, rest_stays,
};
use crate::peer_manager::{Completed, ManagerView, Started};
use crate::wire::{BodyView, EgressView};

verus! {

/// The datagram `bytes` to `dst`, and nothing else.
pub open spec fn just_sent(out: Seq<EgressView>, dst: SockAddr, bytes: Seq<u8>) -> bool {
    out == seq![EgressView { fate: 0, dst, body: BodyView::Tunnel(bytes) }]
}

/// Whether this node is the one of a pair that begins rekeys: the one with the smaller key.
pub open spec fn leads<S, H>(m: ManagerView<S, H>, i: int) -> bool {
    before(m.local.public_key@, m.peers[i].id.public_key@)
}

/// Whether the epoch that sends in peer `i`'s session began to do so at `t`: this side
/// begins no rekey before the epoch has reached the interval, or twice the interval on the
/// side that yields, and begins one as soon as it has.
pub open spec fn rekeyed_at<S, H>(n: ManagerView<S, H>, i: int, t: u64) -> bool {
    forall|u: u64, started: Option<Started<H>>, draw: u64|
        #![trigger n.rekey_step(i, started, u, draw)]
        u >= t ==> {
            let iv = n.rekey_interval_ms;
            let due = if leads(n, i) {
                u - t >= iv
            } else {
                u - t >= 2 * iv
            };
            &&& !due ==> {
                &&& n.rekey_target(i, u) is None
                &&& n.rekey_step(i, started, u, draw) == (n, Seq::<EgressView>::empty())
            }
            &&& due && (n.peers[i].relay || n.peers[i].endpoint is Some) ==> {
                &&& n.rekey_target(i, u) is Some
                &&& started is Some ==> n.rekey_step(
                    i,
                    started,
                    u,
                    draw,
                ).0.peers[i].epochs().rekey is Some
            }
        }
}

/// A session that begins, and a rekey that completes, on either side, starts the interval
/// anew: for all the time that is left of it no rekey of that session is due.
pub proof fn law_rekey_rests_for_the_interval<S, H>(
    m: ManagerView<S, H>,
    i: int,
    target: SockAddr,
    via_relay: bool,
    done: Completed<S>,
    cert_valid: bool,
    src: Option<SockAddr>,
    t: u64,
)
    requires
        0 <= i < m.peers.len(),
        member(m, m.peers[i].id.public_key, cert_valid),
    ensures
        m.peers[i].state is Established && m.peers[i].epochs().rekey is None ==> rekeyed_at(
            m.rekeyed(i, target, via_relay, Some(done), cert_valid, t).0,
            i,
            t,
        ),
        m.peers[i].state is Established && m.peers[i].epochs().rekey is None
            && m.peers[i].epochs().next is Some ==> rekeyed_at(
            m.after_open(i, EpochSlot::Next, src, t),
            i,
            t,
        ),
        rekeyed_at(m.completed(i, src, Some(done), cert_valid, t).0, i, t),
        m.peers[i].state is Established && m.peers[i].epochs().rekey is Some ==> rekeyed_at(
            m.take_rekey(i).0.rekeyed(i, target, via_relay, Some(done), cert_valid, t).0,
            i,
            t,
        ),
        m.peers[i].state is Established && m.peers[i].epochs().next is Some ==> forall|u: u64|
            t <= u && u - t < m.rekey_interval_ms ==> #[trigger] m.after_open(
                i,
                EpochSlot::Next,
                src,
                t,
            ).rekey_target(i, u) is None,
{
    let taken = m.take_rekey(i).0;
    let a = m.rekeyed(i, target, via_relay, Some(done), cert_valid, t).0;
    let b = m.after_open(i, EpochSlot::Next, src, t);
    let c = m.completed(i, src, Some(done), cert_valid, t).0;
    assert(c.peers[i].epochs().created_ms == t);
    if m.peers[i].state is Established && m.peers[i].epochs().rekey is None {
        assert(a.peers[i].epochs().created_ms == t);
        if m.peers[i].epochs().next is Some {
            assert(b.peers[i].epochs().created_ms == t);
            lemma_rests(b, i, t);
        }
        lemma_rests(a, i, t);
    }
    lemma_rests(c, i, t);
    if m.peers[i].state is Established && m.peers[i].epochs().rekey is Some {
        let d = taken.rekeyed(i, target, via_relay, Some(done), cert_valid, t).0;
        assert(d.peers[i].epochs().created_ms == t);
        lemma_rests(d, i, t);
    }
}

proof fn lemma_rests<S, H>(n: ManagerView<S, H>, i: int, t: u64)
    requires
        0 <= i < n.peers.len(),
        n.peers[i].state is Established,
        n.peers[i].epochs().rekey is None,
        n.peers[i].epochs().created_ms == t,
    ensures
        rekeyed_at(n, i, t),
{
}

/// The same for a session that begins by answering a handshake, directly or through the
/// relay.
pub proof fn law_answered_session_rests_for_the_interval<S, H>(
    m: ManagerView<S, H>,
    i: int,
    src: SockAddr,
    o: OpenedInit<S>,
    t: u64,
)
    requires
        m.peers.len() <= usize::MAX,
        first_with_key(m, i, o.remote.public_key),
        m.peers[i].state is Idle,
        o.payload@.len() >= 12,
        member(m, o.remote.public_key, o.cert_valid),
        newer(m.peers[i].last_accepted_init_ts, o.payload@.take(12)),
    ensures
        rekeyed_at(m.on_init(src, o, t).0, i, t),
        rekeyed_at(m.relayed_init(i, o, t).0, i, t),
{
    law_answering_gives_the_session(m, i, src, o, t);
    lemma_rests(m.on_init(src, o, t).0, i, t);
    lemma_rests(m.relayed_init(i, o, t).0, i, t);
}

/// A rekey that is due and was drawn goes to where the peer is, or through the relay to a
/// peer that is reached there, and waits from then on; the epochs are left alone.
pub proof fn law_due_rekey_is_begun<S, H>(
    m: ManagerView<S, H>,
    i: int,
    st: Started<H>,
    now_ms: u64,
    draw: u64,
)
    requires
        0 <= i < m.peers.len(),
        m.peers[i].state is Established,
        m.peers[i].epochs().rekey is None,
        m.peers[i].epochs().created_ms <= now_ms,
        leads(m, i) ==> now_ms - m.peers[i].epochs().created_ms >= m.rekey_interval_ms,
        !leads(m, i) ==> now_ms - m.peers[i].epochs().created_ms >= 2 * m.rekey_interval_ms,
        m.peers[i].relay || m.peers[i].endpoint is Some,
        m.peers[i].relay ==> m.rendezvous is Some,
    ensures
        ({
            let (n, out) = m.rekey_step(i, Some(st), now_ms, draw);
            let p = m.peers[i];
            let e = n.peers[i].epochs();
            let rk = e.rekey->0;
            &&& p.relay ==> relayed_to(m, i, st.init_pkt@, out) && rk.target
                == m.rendezvous->0.server
            &&& !p.relay ==> just_sent(out, p.endpoint->0, st.init_pkt@) && Some(rk.target)
                == p.endpoint
            &&& e.rekey is Some
            &&& rk.hs == st.hs
            &&& rk.init_pkt == st.init_pkt@
            &&& rk.started_ms == now_ms
            &&& rk.last_sent_ms == now_ms
            &&& m.obf_key is None ==> rk.retry_ms == 1_000
            &&& m.obf_key is Some ==> 750 <= rk.retry_ms <= 1_250
            &&& same_epochs(p.epochs(), e)
            &&& n.peers[i] == (PeerView { state: n.peers[i].state, ..p })
            &&& rest_stays(m, n, i)
            &&& n.by_tag == m.by_tag
            &&& m.rekey_step(i, None, now_ms, draw) == (m, Seq::<EgressView>::empty())
        }),
{
}

/// Whether the epochs of a session are the same, whatever its rekey.
pub open spec fn same_epochs<S, H>(a: EpochsView<S, H>, b: EpochsView<S, H>) -> bool {
    &&& b.current == a.current
    &&& b.created_ms == a.created_ms
    &&& b.next == a.next
    &&& b.previous == a.previous
}

/// A rekey that waits is sent again byte for byte, to where it was sent, when its interval
/// is over; it is given up, and nothing is sent, once it has taken the whole time; the
/// session goes on under the same epochs either way.
pub proof fn law_waiting_rekey_is_repeated<S, H>(
    m: ManagerView<S, H>,
    i: int,
    started: Option<Started<H>>,
    now_ms: u64,
    draw: u64,
)
    requires
        0 <= i < m.peers.len(),
        m.peers[i].state is Established,
        m.peers[i].epochs().rekey is Some,
        m.peers[i].epochs().rekey->0.started_ms <= now_ms,
        m.peers[i].epochs().rekey->0.last_sent_ms <= now_ms,
        m.peers[i].relay ==> m.rendezvous is Some,
    ensures
        ({
            let (n, out) = m.rekey_step(i, started, now_ms, draw);
            let rk = m.peers[i].epochs().rekey->0;
            let e = n.peers[i].epochs();
            &&& same_epochs(m.peers[i].epochs(), e)
            &&& rest_stays(m, n, i)
            &&& n.by_tag == m.by_tag
            &&& now_ms - rk.started_ms >= 90_000 ==> e.rekey is None && out.len() == 0
            &&& now_ms - rk.started_ms < 90_000 ==> {
                &&& e.rekey is Some
                &&& e.rekey->0.hs == rk.hs
                &&& e.rekey->0.init_pkt == rk.init_pkt
                &&& e.rekey->0.target == rk.target
                &&& e.rekey->0.started_ms == rk.started_ms
                &&& now_ms - rk.last_sent_ms < rk.retry_ms ==> n == m && out.len() == 0
                &&& now_ms - rk.last_sent_ms >= rk.retry_ms ==> {
                    &&& e.rekey->0.last_sent_ms == now_ms
                    &&& m.peers[i].relay ==> relayed_to(m, i, rk.init_pkt, out)
                    &&& !m.peers[i].relay ==> just_sent(out, rk.target, rk.init_pkt)
                }
            }
        }),
{
    let (n, out) = m.rekey_step(i, started, now_ms, draw);
    assert(n.peers =~= m.peers.update(i, n.peers[i]));
}

/// A rekey of this side that completes sends under what it shook out, to where the rekey
/// was sent or through the relay, and keeps the epoch that sent before to open what is
/// still under way; what waited, or an empty packet, is sealed under the new one.
pub proof fn law_completed_rekey_takes_over<S, H>(
    m: ManagerView<S, H>,
    i: int,
    target: SockAddr,
    via_relay: bool,
    done: Completed<S>,
    cert_valid: bool,
    now_ms: u64,
    tag: u64,
)
    requires
        0 <= i < m.peers.len() <= usize::MAX,
        m.peers[i].state is Established,
    ensures
        member(m, m.peers[i].id.public_key, cert_valid) ==> ({
            let (n, r) = m.rekeyed(i, target, via_relay, Some(done), cert_valid, now_ms);
            let was = m.peers[i].epochs();
            let p = n.peers[i];
            let e = p.epochs();
            &&& p.state is Established
            &&& e.current.session == done.session
            &&& e.current.conn_tag == done.conn_tag
            &&& e.current.mode == m.mode
            &&& e.current.obf == (m.obf_key is Some)
            &&& e.current.symbol_size == m.data_symbol_size
            &&& !via_relay ==> e.current.peer_addr == target
            &&& via_relay && m.rendezvous is Some ==> e.current.peer_addr
                == m.rendezvous->0.server
            &&& e.previous == Some(was.current)
            &&& e.next == was.next
            &&& e.rekey == was.rekey
            &&& e.created_ms == now_ms
            &&& p.pending_tun.len() == 0
            &&& p == (PeerView {
                state: p.state,
                pending_tun: p.pending_tun,
                ..m.peers[i]
            })
            &&& n.by_tag.contains_key(done.conn_tag) && n.by_tag[done.conn_tag] == i
            &&& tag != done.conn_tag ==> (n.by_tag.contains_key(tag) == (m.by_tag.contains_key(
                tag,
            ) && tag != was.current.conn_tag))
            &&& tag != done.conn_tag && n.by_tag.contains_key(tag) ==> n.by_tag[tag]
                == m.by_tag[tag]
            &&& others_stay(m, n, i)
            &&& r.egress.len() == 0
            &&& r.settled is None
            &&& r.seal is Some && (r.seal->0).0 == i
            &&& m.peers[i].pending_tun.len() > 0 ==> (r.seal->0).1 == m.peers[i].pending_tun
            &&& m.peers[i].pending_tun.len() == 0 ==> (r.seal->0).1 == seq![Seq::<u8>::empty()]
        }),
        m.rekeyed(i, target, via_relay, None, cert_valid, now_ms).0 == m,
        no_reaction(m.rekeyed(i, target, via_relay, None, cert_valid, now_ms).1),
        m.roots is Some && !cert_valid && no_root(m, m.peers[i].id.public_key) ==> ({
            let (n, r) = m.rekeyed(i, target, via_relay, Some(done), cert_valid, now_ms);
            n == m && no_reaction(r)
        }),
{
}

/// A handshake from a peer with a session, new and newer than all before it, is answered
/// and prepares the next epoch, which is what was shaken out; the epoch that sends goes on.
/// One that prepared the next epoch, or built the session, gets the answer it got. A stale
/// one gets none. Whatever it is, nobody else is touched and no tag changes.
pub proof fn law_answered_rekey_is_prepared<S, H>(
    m: ManagerView<S, H>,
    i: int,
    done: Completed<S>,
    resp: Seq<u8>,
    eph: [u8; 32],
    ts: Seq<u8>,
    src: SockAddr,
)
    requires
        0 <= i < m.peers.len(),
        m.peers[i].state is Established,
    ensures
        forall|via_relay: bool|
            {
                let p = m.peers[i];
                let was = p.epochs();
                let (n, r) = #[trigger] m.rekey_init(i, done, resp, eph, ts, src, via_relay);
                let e = n.peers[i].epochs();
                let again = p.cached_resp_init_eph == Some(eph);
                let prepared = was.next is Some && was.next->0.init_eph == eph;
                let answered = |bytes: Seq<u8>|
                    if via_relay {
                        relayed_to(m, i, bytes, r.egress)
                    } else {
                        just_sent(r.egress, src, bytes)
                    };
                &&& rest_stays(m, n, i)
                &&& n.by_tag == m.by_tag
                &&& r.seal is None && r.settled is None
                &&& again && p.cached_resp is Some ==> n == m && answered(p.cached_resp->0)
                &&& again && p.cached_resp is None ==> n == m && r.egress.len() == 0
                &&& !again && prepared ==> n == m && answered(was.next->0.resp)
                &&& !again && !prepared && !newer(p.last_accepted_init_ts, ts) ==> n == m
                    && r.egress.len() == 0
                &&& !again && !prepared && newer(p.last_accepted_init_ts, ts) ==> {
                    &&& answered(resp)
                    &&& n.peers[i].last_accepted_init_ts == Some(ts)
                    &&& n.peers[i] == (PeerView {
                        state: n.peers[i].state,
                        last_accepted_init_ts: Some(ts),
                        ..p
                    })
                    &&& n.peers[i].state is Established
                    &&& e.current == was.current
                    &&& e.created_ms == was.created_ms
                    &&& e.previous == was.previous
                    &&& e.rekey == was.rekey
                    &&& e.next is Some
                    &&& e.next->0.init_eph == eph
                    &&& e.next->0.resp == resp
                    &&& e.next->0.dp.session == done.session
                    &&& e.next->0.dp.conn_tag == done.conn_tag
                    &&& e.next->0.dp.mode == m.mode
                    &&& e.next->0.dp.obf == (m.obf_key is Some)
                    &&& e.next->0.dp.symbol_size == m.data_symbol_size
                    &&& !via_relay ==> e.next->0.dp.peer_addr == src
                    &&& via_relay && m.rendezvous is Some ==> e.next->0.dp.peer_addr
                        == m.rendezvous->0.server
                }
            },
{
}

/// The first datagram that opens under the prepared epoch makes it the one that sends, and
/// the one that sent is kept to open what is still under way; one that opens under another
/// epoch changes none of them. A peer that is not relayed is then where the datagram came
/// from, and every epoch sends there.
pub proof fn law_prepared_epoch_takes_over<S, H>(
    m: ManagerView<S, H>,
    i: int,
    slot: EpochSlot,
    src: Option<SockAddr>,
    now_ms: u64,
)
    requires
        0 <= i < m.peers.len(),
        m.peers[i].state is Established,
    ensures
        ({
            let n = m.after_open(i, slot, src, now_ms);
            let p = m.peers[i];
            let was = p.epochs();
            let q = n.peers[i];
            let e = q.epochs();
            &&& q.state is Established
            &&& slot is Next && was.next is Some ==> {
                &&& e.current.session == was.next->0.dp.session
                &&& e.current.conn_tag == was.next->0.dp.conn_tag
                &&& e.current.mode == was.next->0.dp.mode
                &&& e.previous is Some
                &&& e.previous->0.session == was.current.session
                &&& e.previous->0.conn_tag == was.current.conn_tag
                &&& e.next is None
                &&& e.created_ms == now_ms
                &&& e.rekey == was.rekey
            }
            &&& !(slot is Next && was.next is Some) ==> {
                &&& e.current.session == was.current.session
                &&& e.current.conn_tag == was.current.conn_tag
                &&& e.created_ms == was.created_ms
                &&& e.next is Some == was.next is Some
                &&& was.next is Some ==> e.next->0.dp.session == was.next->0.dp.session
                    && e.next->0.init_eph == was.next->0.init_eph && e.next->0.resp
                    == was.next->0.resp
                &&& e.previous is Some == was.previous is Some
                &&& was.previous is Some ==> e.previous->0.session == was.previous->0.session
            }
            &&& (src is None || p.relay) ==> q.endpoint == p.endpoint && (slot !is Next ==> q
                == p)
            &&& src is Some && !p.relay ==> {
                &&& q.endpoint == src
                &&& p.endpoint != src ==> {
                    &&& e.current.peer_addr == src->0
                    &&& e.next is Some ==> e.next->0.dp.peer_addr == src->0
                    &&& e.previous is Some ==> e.previous->0.peer_addr == src->0
                }
            }
            &&& e.rekey == was.rekey
            &&& q == (PeerView { state: q.state, endpoint: q.endpoint, ..p })
            &&& rest_stays(m, n, i)
            &&& n.by_tag == m.by_tag
        }),
{
}

/// What comes in is tried under every epoch that there is, beginning with the one that
/// sends, until one opens it.
pub proof fn law_every_epoch_is_tried<S, H>(e: EpochsView<S, H>, opened: Seq<bool>, slot: EpochSlot)
    requires
        slot is Next ==> e.next is Some,
        slot is Previous ==> e.previous is Some,
    ensures
        opened.len() == 0 ==> open_tried(e.slots(), opened, 0) == OpenStep::Try(
            EpochSlot::Current,
        ),
        exists|k: int| 0 <= k < e.slots().len() && #[trigger] e.slots()[k] == slot,
        forall|a: int, b: int|
            0 <= a < b < e.slots().len() ==> #[trigger] e.slots()[a] != #[trigger] e.slots()[b],
        forall|k: int|
            0 <= k < e.slots().len() ==> {
                &&& (#[trigger] e.slots()[k]) is Next ==> e.next is Some
                &&& e.slots()[k] is Previous ==> e.previous is Some
            },
{
    let s = e.slots();
    assert(s[0] == EpochSlot::Current);
    if e.next is Some {
        assert(s[1] == EpochSlot::Next);
    }
    if e.previous is Some {
        assert(s[s.len() - 1] == EpochSlot::Previous);
    }
}

/// The first epoch that opens a datagram has it; while none did, the next one is tried, and
/// after the last there is none.
pub proof fn law_first_epoch_has_it(slots: Seq<EpochSlot>, opened: Seq<bool>, i: int)
    requires
        0 <= i <= opened.len() <= slots.len(),
        forall|j: int| 0 <= j < i ==> !#[trigger] opened[j],
    ensures
        i < opened.len() && opened[i] ==> open_tried(slots, opened, 0) == OpenStep::Opened(
            slots[i],
        ),
        i == opened.len() && i < slots.len() ==> open_tried(slots, opened, 0) == OpenStep::Try(
            slots[i],
        ),
        i == opened.len() && i == slots.len() ==> open_tried(slots, opened, 0)
            == OpenStep::Closed,
{
    lemma_open_from(slots, opened, 0, i);
}

proof fn lemma_open_from(slots: Seq<EpochSlot>, opened: Seq<bool>, k: int, i: int)
    requires
        0 <= k <= i <= opened.len() <= slots.len(),
        forall|j: int| 0 <= j < i ==> !#[trigger] opened[j],
    ensures
        open_tried(slots, opened, k) == open_tried(slots, opened, i),
    decreases i - k,
{
    if k < i {
        assert(!opened[k]);
        lemma_open_from(slots, opened, k + 1, i);
    }
}

} // verus!
