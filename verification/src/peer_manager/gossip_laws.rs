//! Whom gossip goes to, and how it gets there.

use vstd::prelude::*;

use crate::addr::SockAddr;
use crate::peer_manager::gossip::GossipTarget;
use crate::peer_manager::route_laws::law_search_by_address;
use crate::peer_manager::{lemma_first_where_finds, picked, ManagerView, Pick, Root};
use crate::wire::{BodyView, EgressView, MessageView};

verus! {

/// Whether `t` is how peer `i`, which has a session, is reached: through the server where
/// it is relayed, else at its address.
pub open spec fn reaches<S, H>(m: ManagerView<S, H>, i: int, t: GossipTarget) -> bool {
    let p = m.peers[i];
    &&& 0 <= i < m.peers.len()
    &&& p.state is Established
    &&& p.relay ==> t.1 == Some(i as usize) && (m.rendezvous is Some ==> t.0
        == m.rendezvous->0.server)
    &&& !p.relay ==> t.1 is None && p.endpoint == Some(t.0)
}

/// Whether `t` is the address of root `k`.
pub open spec fn is_root_target<S, H>(m: ManagerView<S, H>, k: int, t: GossipTarget) -> bool {
    &&& m.roots is Some
    &&& 0 <= k < m.roots->0.len()
    &&& t == (m.roots->0[k].addr, None::<usize>)
}

/// Gossip goes to every partner, one datagram each and in their order: to its address, or
/// through the relay to the peer that is reached there.
pub proof fn law_gossip_goes_to_every_partner<S, H>(
    m: ManagerView<S, H>,
    targets: Seq<GossipTarget>,
    bytes: Seq<u8>,
    k: int,
)
    requires
        m.rendezvous is Some || forall|j: int|
            0 <= j < targets.len() ==> (#[trigger] targets[j]).1 is None,
        0 <= k < targets.len(),
    ensures
        ({
            let out = m.to_targets(targets, bytes, targets.len());
            &&& out.len() == targets.len()
            &&& out[k].fate == 0
            &&& targets[k].1 is None ==> out[k].dst == targets[k].0 && out[k].body
                == BodyView::Tunnel(bytes)
            &&& targets[k].1 is Some ==> out[k].dst == m.rendezvous->0.server && out[k].body
                == BodyView::Server(
                MessageView::RelaySend {
                    src: m.local.node,
                    dst: m.peers[targets[k].1->0 as int].id.node,
                    payload: bytes,
                },
            )
        }),
{
    lemma_to_targets(m, targets, bytes, targets.len(), k);
}

proof fn lemma_to_targets<S, H>(
    m: ManagerView<S, H>,
    targets: Seq<GossipTarget>,
    bytes: Seq<u8>,
    n: nat,
    k: int,
)
    requires
        m.rendezvous is Some || forall|j: int|
            0 <= j < targets.len() ==> (#[trigger] targets[j]).1 is None,
        n <= targets.len(),
    ensures
        ({
            let out = m.to_targets(targets, bytes, n);
            &&& out.len() == n
            &&& 0 <= k < n && targets[k].1 is None ==> out[k] == (EgressView {
                fate: 0,
                dst: targets[k].0,
                body: BodyView::Tunnel(bytes),
            })
            &&& 0 <= k < n && targets[k].1 is Some ==> out[k] == (EgressView {
                fate: 0,
                dst: m.rendezvous->0.server,
                body: BodyView::Server(
                    MessageView::RelaySend {
                        src: m.local.node,
                        dst: m.peers[targets[k].1->0 as int].id.node,
                        payload: bytes,
                    },
                ),
            })
        }),
    decreases n,
{
    if n > 0 {
        lemma_to_targets(m, targets, bytes, (n - 1) as nat, k);
        assert(m.rendezvous is None ==> targets[n - 1].1 is None);
    }
}

/// Every answer to a gossip datagram, and no more than eight of them, goes back the way the
/// peer is reached, as gossip, one datagram each and in their order.
pub proof fn law_gossip_is_answered<S, H>(
    m: ManagerView<S, H>,
    i: int,
    src: SockAddr,
    msgs: Seq<Seq<u8>>,
    k: int,
)
    requires
        m.peers[i].relay ==> m.rendezvous is Some,
    ensures
        ({
            let out = m.answered_gossip(i, src, msgs);
            &&& msgs.len() <= 8 ==> out.len() == msgs.len()
            &&& msgs.len() > 8 ==> out.len() == 8
            &&& 0 <= k < out.len() && !m.peers[i].relay ==> out[k] == (EgressView {
                fate: 0,
                dst: src,
                body: BodyView::Tunnel(seq![m.codes.gossip] + msgs[k]),
            })
            &&& 0 <= k < out.len() && m.peers[i].relay ==> out[k] == (EgressView {
                fate: 0,
                dst: m.rendezvous->0.server,
                body: BodyView::Server(
                    MessageView::RelaySend {
                        src: m.local.node,
                        dst: m.peers[i].id.node,
                        payload: seq![m.codes.gossip] + msgs[k],
                    },
                ),
            })
        }),
{
    let n: nat = if msgs.len() < 8 {
        msgs.len()
    } else {
        8
    };
    lemma_answers(m, i, src, msgs, n, k);
    let out = m.answered_gossip(i, src, msgs);
    if 0 <= k < out.len() {
        assert(seq![out[k]][0] == out[k]);
    }
}

proof fn lemma_answers<S, H>(
    m: ManagerView<S, H>,
    i: int,
    src: SockAddr,
    msgs: Seq<Seq<u8>>,
    n: nat,
    k: int,
)
    requires
        m.peers[i].relay ==> m.rendezvous is Some,
        n <= msgs.len(),
    ensures
        ({
            let out = m.gossip_answers(i, src, msgs, n);
            &&& out.len() == n
            &&& 0 <= k < n ==> seq![out[k]] == m.emitted(
                i,
                src,
                seq![m.codes.gossip] + msgs[k],
                m.peers[i].relay,
            )
        }),
    decreases n,
{
    if n > 0 {
        lemma_answers(m, i, src, msgs, (n - 1) as nat, k);
        let out = m.gossip_answers(i, src, msgs, n);
        if k == n - 1 {
            assert(seq![out[k]] =~= m.emitted(
                i,
                src,
                seq![m.codes.gossip] + msgs[k],
                m.peers[i].relay,
            ));
        }
    }
}

/// Gossip starts with a root: in a mesh without any session, with an idle peer that is at
/// the address of a root, and with one whenever there is such a peer; else with nobody.
pub proof fn law_gossip_starts_with_a_root<S, H>(m: ManagerView<S, H>, i: int, k: int)
    ensures
        ({
            let r = m.bootstrap();
            let live = exists|j: int|
                0 <= j < m.peers.len() && (#[trigger] m.peers[j]).state is Established;
            &&& m.roots is None || live ==> r is None
            &&& r is Some ==> {
                let p = (r->0).0;
                &&& 0 <= p < m.peers.len()
                &&& m.peers[p].state is Idle
                &&& m.peers[p].endpoint == Some((r->0).1)
                &&& exists|x: int|
                    0 <= x < m.roots->0.len() && (#[trigger] m.roots->0[x]).addr == (r->0).1
            }
            &&& m.roots is Some && !live && 0 <= i < m.peers.len() && m.peers[i].state is Idle && 0
                <= k < m.roots->0.len() && m.peers[i].endpoint == Some(m.roots->0[k].addr)
                ==> r is Some
        }),
{
    match m.roots {
        Some(roots) => {
            lemma_idle_root(m, roots, 0);
            if m.bootstrap() is None && 0 <= i < m.peers.len() && m.peers[i].state is Idle && 0
                <= k < roots.len() && m.peers[i].endpoint == Some(roots[k].addr) {
                law_search_by_address(m, Pick::Idle, roots[k].addr, i);
            }
        },
        None => {},
    }
}

proof fn lemma_idle_root<S, H>(m: ManagerView<S, H>, roots: Seq<Root>, from: int)
    requires
        0 <= from,
    ensures
        ({
            let r = m.idle_root(roots, from);
            &&& r is Some ==> {
                let p = (r->0).0;
                &&& 0 <= p < m.peers.len()
                &&& m.peers[p].state is Idle
                &&& m.peers[p].endpoint == Some((r->0).1)
                &&& exists|x: int| 0 <= x < roots.len() && (#[trigger] roots[x]).addr == (r->0).1
            }
            &&& r is None ==> forall|x: int|
                from <= x < roots.len() ==> m.find_at(
                    Pick::Idle,
                    (#[trigger] roots[x]).addr,
                ) is None
        }),
    decreases roots.len() - from,
{
    if from < roots.len() {
        lemma_first_where_finds(m.peers, picked::<S, H>(Pick::Idle, roots[from].addr), 0);
        lemma_idle_root(m, roots, from + 1);
    }
}

/// Gossip is listened to in a mesh alone, and only from where a peer with a session is: from
/// there always, and from anywhere else never.
pub proof fn law_gossip_is_heard_from_sessions<S, H>(m: ManagerView<S, H>, src: SockAddr, i: int)
    ensures
        ({
            let r = m.gossip_from(src);
            let k = r->0;
            &&& m.roots is None ==> r is None
            &&& r is Some ==> 0 <= k < m.peers.len() && m.peers[k].endpoint == Some(src)
                && m.peers[k].state is Established
            &&& m.roots is Some && 0 <= i < m.peers.len() && m.peers[i].endpoint == Some(src)
                && m.peers[i].state is Established ==> r is Some && k <= i
        }),
{
    lemma_first_where_finds(m.peers, picked::<S, H>(Pick::Live, src), 0);
    if 0 <= i < m.peers.len() && m.peers[i].endpoint == Some(src) && m.peers[i].state
        is Established {
        law_search_by_address(m, Pick::Live, src, i);
    }
}

/// Whether peer `i` has a session and can be reached.
pub open spec fn reachable<S, H>(m: ManagerView<S, H>, i: int) -> bool {
    m.peers[i].state is Established && (m.peers[i].relay || m.peers[i].endpoint is Some)
}

/// The places of the peers among the first `n` that have a session and can be reached.
pub open spec fn reachable_upto<S, H>(m: ManagerView<S, H>, n: nat) -> Seq<int> {
    Seq::new(n, |i: int| i).filter(|i: int| reachable(m, i))
}

/// The partners of a digest are the first four of the peers with a session that can be
/// reached, in the order of the table and each once, and after them the roots in their order,
/// as far as there is room.
pub proof fn law_gossip_partners_in_order<S, H>(m: ManagerView<S, H>, k: int)
    requires
        m.peers.len() <= usize::MAX,
    ensures
        ({
            let live = reachable_upto(m, m.peers.len());
            let ahead = if live.len() < 4 {
                live.len() as int
            } else {
                4
            };
            let all = m.gossip_targets();
            &&& 0 <= k < ahead ==> reaches(m, live[k], all[k])
            &&& m.roots is None ==> all.len() == ahead
            &&& m.roots is Some ==> all.len() == if ahead + m.roots->0.len() < 4 {
                ahead + m.roots->0.len()
            } else {
                4
            }
            &&& ahead <= k < all.len() ==> is_root_target(m, k - ahead, all[k])
        }),
{
    let base = m.peer_targets(m.peers.len());
    lemma_partners_in_order(m, m.peers.len(), k);
    if m.roots is Some {
        lemma_roots_in_order(m, base, m.roots->0, m.roots->0.len(), k);
    }
}

proof fn lemma_partners_in_order<S, H>(m: ManagerView<S, H>, n: nat, k: int)
    requires
        n <= m.peers.len() <= usize::MAX,
    ensures
        ({
            let live = reachable_upto(m, n);
            let out = m.peer_targets(n);
            &&& live.len() < 4 ==> out.len() == live.len()
            &&& live.len() >= 4 ==> out.len() == 4
            &&& 0 <= k < out.len() ==> reaches(m, live[k], out[k])
        }),
    decreases n,
{
    reveal(Seq::filter);
    let places = Seq::new(n, |i: int| i);
    if n > 0 {
        let p = (n - 1) as nat;
        lemma_partners_in_order(m, p, k);
        assert(places.drop_last() =~= Seq::new(p, |i: int| i));
        assert(places.last() == n - 1);
    }
}

proof fn lemma_roots_in_order<S, H>(
    m: ManagerView<S, H>,
    base: Seq<GossipTarget>,
    roots: Seq<Root>,
    n: nat,
    k: int,
)
    requires
        m.roots == Some(roots),
        n <= roots.len(),
        base.len() <= 4,
    ensures
        ({
            let all = ManagerView::<S, H>::root_targets(base, roots, n);
            &&& all.len() == if base.len() + n < 4 {
                (base.len() + n) as int
            } else {
                4
            }
            &&& 0 <= k < base.len() ==> all[k] == base[k]
            &&& base.len() <= k < all.len() ==> is_root_target(m, k - base.len(), all[k])
        }),
    decreases n,
{
    if n > 0 {
        lemma_roots_in_order(m, base, roots, (n - 1) as nat, k);
    }
}

/// A digest goes out as gossip, whole, once to each of its partners: to its address, or
/// through the relay.
pub proof fn law_digest_goes_to_every_partner<S, H>(m: ManagerView<S, H>, digest: Seq<u8>, k: int)
    requires
        m.rendezvous is Some || forall|j: int|
            0 <= j < m.gossip_targets().len() ==> (#[trigger] m.gossip_targets()[j]).1 is None,
        0 <= k < m.gossip_targets().len(),
    ensures
        ({
            let out = m.digest_out(digest);
            let t = m.gossip_targets()[k];
            let dg = seq![m.codes.gossip] + digest;
            &&& out.len() == m.gossip_targets().len()
            &&& t.1 is None ==> out[k] == (EgressView {
                fate: 0,
                dst: t.0,
                body: BodyView::Tunnel(dg),
            })
            &&& t.1 is Some ==> out[k].dst == m.rendezvous->0.server && out[k].body
                == BodyView::Server(
                MessageView::RelaySend {
                    src: m.local.node,
                    dst: m.peers[t.1->0 as int].id.node,
                    payload: dg,
                },
            )
        }),
{
    law_gossip_goes_to_every_partner(
        m,
        m.gossip_targets(),
        seq![m.codes.gossip] + digest,
        k,
    );
}

} // verus!
