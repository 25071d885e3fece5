//! What a tick does, peer by peer, and what it leaves alone.

use vstd::prelude::*;

use crate::epoch::EpochsView;
use crate::peer::{PathStep, PeerView};
use crate::peer_manager::egress::{sealed_views, SealedView};
use crate::peer_manager::rekey_laws::just_sent;
use crate::peer_manager::rounds::{
    lemma_idle_frame, lemma_ticked_frame, DrawFor, PeerTick, TickRound,
};
use crate::peer_manager::routing::PathMoveView;
use crate::peer_manager::session_laws::rest_stays;
use crate::peer_manager::ManagerView;
use crate::wire::{BodyView, EgressView, MessageView, RecordView};

verus! {

/// A node registers with its server when it never did or when the time set for the next
/// registration has gone by; it registers its own node id, and in a mesh what it signed.
/// The next one is due after twenty seconds, or within a quarter of that either way where
/// obfuscation is on. Nothing else changes.
pub proof fn law_registration_names_this_node<S, H>(
    m: ManagerView<S, H>,
    signed: Option<RecordView>,
    now_ms: u64,
    draw: u64,
)
    requires
        m.last_register_ms <= now_ms,
    ensures
        ({
            let due = m.rendezvous is Some && (!m.registered_once || now_ms - m.last_register_ms
                >= m.reg_refresh_ms);
            let (n, out) = m.registered(signed, now_ms, draw);
            let r = m.rendezvous->0;
            &&& m.registration_due(now_ms) == due
            &&& !due ==> n == m && out.len() == 0
            &&& due ==> {
                &&& n.registered_once
                &&& n.last_register_ms == now_ms
                &&& m.obf_key is None ==> n.reg_refresh_ms == 20_000
                &&& m.obf_key is Some ==> 15_000 <= n.reg_refresh_ms <= 25_000
                &&& m.reg_seq < u64::MAX ==> n.reg_seq == m.reg_seq + 1
                &&& m.reg_seq == u64::MAX ==> n.reg_seq == u64::MAX
                &&& n == (ManagerView {
                    registered_once: true,
                    last_register_ms: now_ms,
                    reg_refresh_ms: n.reg_refresh_ms,
                    reg_seq: n.reg_seq,
                    ..m
                })
                &&& !r.registers ==> out.len() == 0
                &&& r.registers ==> {
                    &&& out.len() == 1
                    &&& out[0].dst == r.server
                    &&& m.roots is Some && signed is Some ==> out[0].body == BodyView::Server(
                        MessageView::RegisterSigned { record: signed->0 },
                    )
                    &&& m.roots is None || signed is None ==> out[0].body == BodyView::Server(
                        MessageView::Register { node: m.local.node, counter: 0 },
                    )
                }
            }
        }),
{
}

/// The interval of a timer: as it is with obfuscation off, and within a quarter of it either
/// way with obfuscation on.
pub proof fn law_interval_is_near_its_base<S, H>(m: ManagerView<S, H>, base: u64, draw: u64)
    requires
        base + base / 4 <= u64::MAX,
    ensures
        m.obf_key is None ==> m.interval(base, draw) == base,
        base - base / 4 <= m.interval(base, draw) <= base + base / 4,
{
}

/// A handshake that waits is sent again byte for byte when its interval is over, to where
/// it was sent or through the relay; it is counted, and waits anew. After ninety seconds it
/// is given up, with all that waited for it, and nothing is sent. Nobody else is touched.
pub proof fn law_waiting_handshake_is_repeated<S, H>(
    m: ManagerView<S, H>,
    i: int,
    now_ms: u64,
    draw: u64,
)
    requires
        0 <= i < m.peers.len(),
        m.peers[i].state is Handshaking ==> m.peers[i].state->Handshaking_0.started_ms <= now_ms
            && m.peers[i].state->Handshaking_0.last_sent_ms <= now_ms,
    ensures
        ({
            let (n, out) = m.resent(i, now_ms, draw);
            let p = m.peers[i];
            let q = n.peers[i];
            let h = p.state->Handshaking_0;
            let g = q.state->Handshaking_0;
            let spent = now_ms - h.started_ms >= 90_000;
            let over = now_ms - h.last_sent_ms >= h.retry_ms;
            &&& p.state !is Handshaking ==> n == m && out.len() == 0
            &&& rest_stays(m, n, i)
            &&& p.state is Handshaking && spent ==> {
                &&& q.state is Idle
                &&& q.pending_tun.len() == 0
                &&& out.len() == 0
                &&& q == (PeerView { state: q.state, pending_tun: q.pending_tun, ..p })
            }
            &&& p.state is Handshaking && !spent && !over ==> n == m && out.len() == 0
            &&& p.state is Handshaking && !spent && over ==> {
                &&& q.state is Handshaking
                &&& g.hs == h.hs && g.init_pkt == h.init_pkt && g.target == h.target
                &&& g.started_ms == h.started_ms && g.via_relay == h.via_relay
                &&& g.last_sent_ms == now_ms
                &&& h.retries < u32::MAX ==> g.retries == h.retries + 1
                &&& m.obf_key is None ==> g.retry_ms == 1_000
                &&& m.obf_key is Some ==> 750 <= g.retry_ms <= 1_250
                &&& q == (PeerView { state: q.state, ..p })
                &&& !p.relay ==> just_sent(out, h.target, h.init_pkt)
                &&& p.relay && m.rendezvous is Some ==> out == seq![
                    EgressView {
                        fate: 0,
                        dst: m.rendezvous->0.server,
                        body: BodyView::Server(
                            MessageView::RelaySend {
                                src: m.local.node,
                                dst: p.id.node,
                                payload: h.init_pkt,
                            },
                        ),
                    },
                ]
            }
        }),
{
}

/// A path is asked again while a handshake is under way that was not drawn for the relay,
/// where there is a server. A step to the relay gives the handshake up for one through it;
/// a step to another address gives it up for one there; a step to the same address, and one
/// that waits, leave it alone. What waits for the session goes on waiting.
pub proof fn law_escalation_follows_the_path<S, H>(
    m: ManagerView<S, H>,
    i: int,
    step: PathStep,
    now_ms: u64,
)
    requires
        0 <= i < m.peers.len(),
    ensures
        m.may_escalate(i) <==> m.rendezvous is Some && m.peers[i].state is Handshaking
            && !m.peers[i].state->Handshaking_0.via_relay,
        m.may_escalate(i) ==> ({
            let (n, r) = m.escalated(i, step, now_ms);
            let p = m.peers[i];
            let q = n.peers[i];
            let h = p.state->Handshaking_0;
            &&& rest_stays(m, n, i)
            &&& q.stage == step.stage
            &&& q == (PeerView {
                stage: q.stage,
                state: q.state,
                endpoint: q.endpoint,
                relay: q.relay,
                last_lookup_ms: q.last_lookup_ms,
                ..p
            })
            &&& step.action is Relay ==> {
                &&& r == (PathMoveView::Begin {
                    target: m.rendezvous->0.server,
                    via_relay: true,
                })
                &&& q.state is Idle
                &&& q.endpoint is None
            }
            &&& step.action is Probe && step.action->Probe_0 != h.target ==> {
                &&& r == (PathMoveView::Begin { target: step.action->Probe_0, via_relay: false })
                &&& q.state is Idle
                &&& !q.relay
                &&& q.endpoint == p.endpoint
            }
            &&& step.action is NeedLookup ==> {
                &&& r is Ask && r->Ask_0 == m.looked_up(i, now_ms).1
                &&& q.state == p.state && q.endpoint == p.endpoint && q.relay == p.relay
                &&& q.last_lookup_ms == m.looked_up(i, now_ms).0.peers[i].last_lookup_ms
            }
            &&& step.action is Idle || step.action is Failed || (step.action is Probe
                && step.action->Probe_0 == h.target) ==> {
                &&& r is Nothing
                &&& q == (PeerView { stage: step.stage, ..p })
            }
        }),
{
}

/// What a tick makes, in this order: a registration that is due; the round over all peers,
/// always; the round over the idle peers, with a server; gossip, in a mesh; cover traffic,
/// where it and obfuscation are on; a sweep that is due.
pub proof fn law_rounds_of_a_tick<S, H>(m: ManagerView<S, H>, now_ms: u64)
    requires
        m.last_register_ms <= now_ms,
        m.last_cert_sweep_ms <= now_ms,
    ensures
        ({
            let register = m.rendezvous is Some && (!m.registered_once || now_ms
                - m.last_register_ms >= m.reg_refresh_ms);
            let cover = m.obf_key is Some && m.cover_traffic_ms is Some;
            let sweep = m.roots is Some && now_ms - m.last_cert_sweep_ms >= m.rekey_interval_ms;
            let last = if sweep {
                Some(TickRound::Sweep)
            } else {
                None
            };
            let after_gossip = if cover {
                Some(TickRound::Cover)
            } else {
                last
            };
            let after_idle = if m.roots is Some {
                Some(TickRound::Gossip)
            } else {
                after_gossip
            };
            &&& m.next_round(None, now_ms) == Some(
                if register {
                    TickRound::Register
                } else {
                    TickRound::Peers
                },
            )
            &&& m.next_round(Some(TickRound::Register), now_ms) == Some(TickRound::Peers)
            &&& m.next_round(Some(TickRound::Peers), now_ms) == if m.rendezvous is Some {
                Some(TickRound::Idle)
            } else {
                after_idle
            }
            &&& m.next_round(Some(TickRound::Idle), now_ms) == after_idle
            &&& m.next_round(Some(TickRound::Gossip), now_ms) == after_gossip
            &&& m.next_round(Some(TickRound::Cover), now_ms) == last
            &&& m.next_round(Some(TickRound::Sweep), now_ms) is None
        }),
{
    reveal_with_fuel(ManagerView::next_round, 7);
}

/// The turn of a peer with a session: its rekey is driven, what its transport sends by
/// itself goes out after that, and the epoch that it left is forgotten where that is due.
/// The epoch that sends is left alone.
pub proof fn law_turn_of_a_session<S, H>(m: ManagerView<S, H>, i: int, t: PeerTick<H>, now_ms: u64)
    requires
        0 <= i < m.peers.len(),
        m.peers[i].state is Established,
    ensures
        ({
            let (n, out) = m.ticked(i, t, now_ms);
            let (alone, rekey) = m.rekey_step(i, t.started, now_ms, t.draw);
            let was = m.peers[i].state->Established_0;
            let now = n.peers[i].state->Established_0;
            &&& rest_stays(m, n, i)
            &&& n.peers[i].state is Established
            &&& n.peers[i] == (PeerView { state: n.peers[i].state, ..m.peers[i] })
            &&& now.current == was.current
            &&& now.created_ms == was.created_ms
            &&& now.next == was.next
            &&& t.retire ==> now.previous is None
            &&& !t.retire ==> now.previous == was.previous
            &&& now.rekey == alone.peers[i].state->Established_0.rekey
            &&& out == rekey + m.carried(i, sealed_views(t.session@), m.peers[i].relay)
        }),
{
    let (n, out) = m.ticked(i, t, now_ms);
    let w = m.with_peer(
        i,
        m.peers[i].with_epochs(
            if t.retire {
                EpochsView { previous: None, ..m.peers[i].epochs() }
            } else {
                m.peers[i].epochs()
            },
        ),
    );
    lemma_carried_alike(m, n, i, sealed_views(t.session@), m.peers[i].relay);
    assert(w.rekey_target(i, now_ms) == m.rekey_target(i, now_ms));
}

proof fn lemma_carried_alike<S, H>(
    m: ManagerView<S, H>,
    n: ManagerView<S, H>,
    i: int,
    ds: Seq<SealedView>,
    via_relay: bool,
)
    requires
        n.rendezvous == m.rendezvous,
        n.local == m.local,
        n.peers[i].id == m.peers[i].id,
    ensures
        n.carried(i, ds, via_relay) == m.carried(i, ds, via_relay),
    decreases ds.len(),
{
    if ds.len() > 0 {
        lemma_carried_alike(m, n, i, ds.drop_last(), via_relay);
    }
}

/// The turn of a peer without a session whose path is not asked: time alone is at work.
pub proof fn law_turn_of_a_waiting_peer<S, H>(
    m: ManagerView<S, H>,
    i: int,
    t: PeerTick<H>,
    now_ms: u64,
)
    requires
        0 <= i < m.peers.len(),
        m.peers[i].state !is Established,
        m.rendezvous is None || m.peers[i].state is Idle
            || m.peers[i].state->Handshaking_0.via_relay,
    ensures
        m.ticked(i, t, now_ms) == m.resent(i, now_ms, t.draw),
        m.peers[i].state is Idle ==> m.ticked(i, t, now_ms) == (m, Seq::<EgressView>::empty()),
{
}

/// The turn of a peer whose path is asked while its handshake is under way: a lookup goes
/// out ahead of what time brings about; a step that waits leaves time at work.
pub proof fn law_turn_of_an_asked_path<S, H>(
    m: ManagerView<S, H>,
    i: int,
    t: PeerTick<H>,
    now_ms: u64,
)
    requires
        0 <= i < m.peers.len(),
        m.rendezvous is Some,
        m.peers[i].state is Handshaking,
        !m.peers[i].state->Handshaking_0.via_relay,
        t.path is Some,
    ensures
        ({
            let (n, out) = m.ticked(i, t, now_ms);
            let (alone, again) = m.resent(i, now_ms, t.draw);
            let step = t.path->0;
            let d = m.looked_up(i, now_ms).1;
            &&& n.peers[i].stage == step.stage
            &&& step.action is NeedLookup && d is Some ==> out == seq![d->0] + again
            &&& step.action is NeedLookup && d is None ==> out == again
            &&& step.action is Idle || step.action is Failed ==> out == again
            &&& step.action is Idle || step.action is Failed || step.action is NeedLookup
                ==> n.peers[i].state == alone.peers[i].state && n.peers[i].pending_tun
                == alone.peers[i].pending_tun
        }),
{
    let (n, out) = m.ticked(i, t, now_ms);
    let (alone, again) = m.resent(i, now_ms, t.draw);
    if t.path->0.action is NeedLookup && m.looked_up(i, now_ms).1 is None {
        assert(Seq::<EgressView>::empty() + again =~= again);
    }
}

/// Which handshake a round draws: for a peer whose path is asked, the one that the step
/// begins; for a session, a rekey that is due; else none. Decoys go ahead of one that begins
/// toward an address where obfuscation is on.
pub proof fn law_draws_of_a_round<S, H>(
    m: ManagerView<S, H>,
    i: int,
    path: Option<PathStep>,
    now_ms: u64,
)
    requires
        0 <= i < m.peers.len(),
    ensures
        ({
            let d = m.draw_for(i, path, now_ms);
            let asked = m.rendezvous is Some && m.peers[i].state is Handshaking
                && !m.peers[i].state->Handshaking_0.via_relay;
            let act = path->0.action;
            let under_way = m.peers[i].state->Handshaking_0.target;
            &&& m.peers[i].state is Established && m.rekey_target(i, now_ms) is Some ==> d == Some(
                DrawFor::Rekey { target: m.rekey_target(i, now_ms)->0 },
            )
            &&& m.peers[i].state is Established && m.rekey_target(i, now_ms) is None ==> d is None
            &&& m.peers[i].state !is Established && !asked ==> d is None
            &&& asked && path is Some && act is Relay ==> d == Some(
                DrawFor::Begin { target: m.rendezvous->0.server, via_relay: true },
            )
            &&& asked && path is Some && act is Probe && act->Probe_0 != under_way ==> d == Some(
                DrawFor::Begin { target: act->Probe_0, via_relay: false },
            )
            &&& asked && (path is None || act is Idle || act is Failed || act is NeedLookup || (act
                is Probe && act->Probe_0 == under_way)) ==> d is None
            &&& m.takes_decoys(d) <==> m.obf_key is Some && d is Some && d->0 is Begin
                && !d->0->Begin_via_relay
        }),
{
}

/// The round over the idle peers asks the path of every idle peer where there is a server,
/// and draws the handshake that the step begins.
pub proof fn law_draws_of_the_idle_round<S, H>(
    m: ManagerView<S, H>,
    i: int,
    path: Option<PathStep>,
    now_ms: u64,
)
    requires
        0 <= i < m.peers.len(),
    ensures
        ({
            let d = m.idle_draw_for(i, path, now_ms);
            let asked = m.rendezvous is Some && m.peers[i].state is Idle;
            let act = path->0.action;
            &&& m.asks_idle(i) == asked
            &&& asked && path is Some && act is Relay ==> d == Some(
                DrawFor::Begin { target: m.rendezvous->0.server, via_relay: true },
            )
            &&& asked && path is Some && act is Probe ==> d == Some(
                DrawFor::Begin { target: act->Probe_0, via_relay: false },
            )
            &&& !asked || path is None || act is Idle || act is Failed || act is NeedLookup
                ==> d is None
        }),
{
}

/// The turn of an idle peer: a probe begins a handshake toward the address and a step to
/// the relay one through it; a lookup goes out alone; nothing else is sent.
pub proof fn law_turn_of_an_idle_peer<S, H>(
    m: ManagerView<S, H>,
    i: int,
    step: PathStep,
    t: PeerTick<H>,
    now_ms: u64,
)
    requires
        0 <= i < m.peers.len(),
        m.rendezvous is Some,
    ensures
        ({
            let (n, out) = m.idle_stepped(i, step, t, now_ms);
            let p = m.peers[i];
            let q = n.peers[i];
            let h = q.state->Handshaking_0;
            let st = t.started->0;
            let d = m.looked_up(i, now_ms).1;
            let act = step.action;
            &&& rest_stays(m, n, i)
            &&& q.stage == step.stage
            &&& q == (PeerView {
                stage: q.stage,
                state: q.state,
                endpoint: q.endpoint,
                relay: q.relay,
                last_lookup_ms: q.last_lookup_ms,
                ..p
            })
            &&& act !is Probe ==> q.endpoint == p.endpoint
            &&& act !is Relay ==> q.relay == p.relay
            &&& act !is NeedLookup ==> q.last_lookup_ms == p.last_lookup_ms
            &&& (act is Probe || act is Relay) && t.started is None ==> q.state == p.state
                && out.len() == 0
            &&& (act is Probe || act is Relay) && t.started is Some ==> {
                &&& q.state is Handshaking
                &&& h.hs == st.hs && h.init_pkt == st.init_pkt@
                &&& h.started_ms == now_ms && h.last_sent_ms == now_ms
                &&& h.retries == 0
                &&& h.via_relay == (act is Relay)
                &&& out.len() > 0
            }
            &&& act is Probe && t.started is Some ==> {
                &&& h.target == act->Probe_0
                &&& q.endpoint == Some(act->Probe_0)
                &&& out.last() == (EgressView {
                    fate: 0,
                    dst: act->Probe_0,
                    body: BodyView::Tunnel(st.init_pkt@),
                })
                &&& m.obf_key is None ==> out.len() == 1
            }
            &&& act is Relay && t.started is Some ==> {
                &&& q.relay
                &&& out == seq![
                    EgressView {
                        fate: 0,
                        dst: m.rendezvous->0.server,
                        body: BodyView::Server(
                            MessageView::RelaySend {
                                src: m.local.node,
                                dst: p.id.node,
                                payload: st.init_pkt@,
                            },
                        ),
                    },
                ]
            }
            &&& act is NeedLookup && d is Some ==> out == seq![d->0] && q.state == p.state
            &&& act is NeedLookup && d is None ==> out.len() == 0 && q.state == p.state
            &&& act is Idle || act is Failed ==> out.len() == 0 && q.state == p.state
        }),
{
}

/// The round over all peers reaches every one of them, each by its own input: what becomes
/// of a peer is what its turn alone brings about.
pub proof fn law_round_reaches_every_peer<S, H>(
    m: ManagerView<S, H>,
    ts: Seq<PeerTick<H>>,
    i: int,
    now_ms: u64,
)
    requires
        ts.len() == m.peers.len(),
        0 <= i < m.peers.len(),
    ensures
        ({
            let n = m.ticked_upto(ts, ts.len(), now_ms).0;
            &&& n == (ManagerView { peers: n.peers, ..m })
            &&& n.peers.len() == m.peers.len()
            &&& n.peers[i] == m.ticked(i, ts[i], now_ms).0.peers[i]
        }),
{
    lemma_round(m, ts, ts.len(), i, now_ms);
}

proof fn lemma_round<S, H>(
    m: ManagerView<S, H>,
    ts: Seq<PeerTick<H>>,
    n: nat,
    i: int,
    now_ms: u64,
)
    requires
        n <= ts.len() == m.peers.len(),
        0 <= i < m.peers.len(),
    ensures
        ({
            let k = m.ticked_upto(ts, n, now_ms).0;
            &&& k == (ManagerView { peers: k.peers, ..m })
            &&& k.peers.len() == m.peers.len()
            &&& i >= n ==> k.peers[i] == m.peers[i]
            &&& i < n ==> k.peers[i] == m.ticked(i, ts[i], now_ms).0.peers[i]
        }),
    decreases n,
{
    if n > 0 {
        let p = (n - 1) as nat;
        lemma_round(m, ts, p, i, now_ms);
        lemma_round(m, ts, p, n - 1, now_ms);
        let w = m.ticked_upto(ts, p, now_ms).0;
        lemma_ticked_frame(w, n - 1, ts[n - 1], now_ms);
        lemma_ticked_alike(m, w, n - 1, ts[n - 1], now_ms);
    }
}

/// What the turn of a peer brings about rests on that peer and on the settings alone.
#[verifier::spinoff_prover]
proof fn lemma_ticked_alike<S, H>(
    m: ManagerView<S, H>,
    w: ManagerView<S, H>,
    i: int,
    t: PeerTick<H>,
    now_ms: u64,
)
    requires
        0 <= i < m.peers.len(),
        w == (ManagerView { peers: w.peers, ..m }),
        w.peers.len() == m.peers.len(),
        w.peers[i] == m.peers[i],
    ensures
        w.ticked(i, t, now_ms).0.peers[i] == m.ticked(i, t, now_ms).0.peers[i],
        w.ticked(i, t, now_ms).1 == m.ticked(i, t, now_ms).1,
{
    let a = m.ticked(i, t, now_ms).0;
    let b = w.ticked(i, t, now_ms).0;
    if m.peers[i].state is Established {
        lemma_carried_alike(a, b, i, sealed_views(t.session@), m.peers[i].relay);
    }
}

/// The round over the idle peers reaches every one of them, each by its own input.
pub proof fn law_idle_round_reaches_every_peer<S, H>(
    m: ManagerView<S, H>,
    ts: Seq<PeerTick<H>>,
    i: int,
    now_ms: u64,
)
    requires
        ts.len() == m.peers.len(),
        0 <= i < m.peers.len(),
    ensures
        ({
            let n = m.idle_upto(ts, ts.len(), now_ms).0;
            let alone = m.idle_stepped(i, ts[i].path->0, ts[i], now_ms).0;
            &&& n == (ManagerView { peers: n.peers, ..m })
            &&& n.peers.len() == m.peers.len()
            &&& m.rendezvous is Some && m.peers[i].state is Idle ==> n.peers[i] == alone.peers[i]
            &&& m.rendezvous is None || m.peers[i].state !is Idle ==> n.peers[i] == m.peers[i]
        }),
{
    lemma_idle_round(m, ts, ts.len(), i, now_ms);
}

proof fn lemma_idle_round<S, H>(
    m: ManagerView<S, H>,
    ts: Seq<PeerTick<H>>,
    n: nat,
    i: int,
    now_ms: u64,
)
    requires
        n <= ts.len() == m.peers.len(),
        0 <= i < m.peers.len(),
    ensures
        ({
            let k = m.idle_upto(ts, n, now_ms).0;
            &&& k == (ManagerView { peers: k.peers, ..m })
            &&& k.peers.len() == m.peers.len()
            &&& i >= n ==> k.peers[i] == m.peers[i]
            &&& i < n ==> k.peers[i] == m.idle_ticked(i, ts[i], now_ms).0.peers[i]
        }),
    decreases n,
{
    if n > 0 {
        let p = (n - 1) as nat;
        lemma_idle_round(m, ts, p, i, now_ms);
        lemma_idle_round(m, ts, p, n - 1, now_ms);
        let w = m.idle_upto(ts, p, now_ms).0;
        lemma_idle_frame(w, n - 1, ts[n - 1], now_ms);
        lemma_idle_alike(m, w, n - 1, ts[n - 1], now_ms);
    }
}

proof fn lemma_idle_alike<S, H>(
    m: ManagerView<S, H>,
    w: ManagerView<S, H>,
    i: int,
    t: PeerTick<H>,
    now_ms: u64,
)
    requires
        0 <= i < m.peers.len(),
        w == (ManagerView { peers: w.peers, ..m }),
        w.peers.len() == m.peers.len(),
        w.peers[i] == m.peers[i],
    ensures
        w.idle_ticked(i, t, now_ms).0.peers[i] == m.idle_ticked(i, t, now_ms).0.peers[i],
        w.idle_ticked(i, t, now_ms).1 == m.idle_ticked(i, t, now_ms).1,
{
}

/// Whether peer `i` has been silent, and had no cover traffic, for the whole interval that
/// is set, with a session that is not relayed and an address to send to.
pub open spec fn silent<S, H>(m: ManagerView<S, H>, i: int, now_ms: u64) -> bool {
    let p = m.peers[i];
    let iv = m.cover_traffic_ms->0;
    &&& m.obf_key is Some
    &&& m.cover_traffic_ms is Some
    &&& p.state is Established
    &&& !p.relay
    &&& p.endpoint is Some
    &&& now_ms - p.last_activity_ms >= iv
    &&& now_ms - p.last_cover_ms >= iv
}

/// Cover traffic goes to a silent peer and to nobody else: a decoy, to where the peer is;
/// its time is noted, and nothing else changes.
pub proof fn law_cover_goes_to_the_silent<S, H>(
    m: ManagerView<S, H>,
    i: int,
    body: Seq<u8>,
    now_ms: u64,
)
    requires
        0 <= i < m.peers.len(),
        m.peers[i].last_activity_ms <= now_ms,
        m.peers[i].last_cover_ms <= now_ms,
    ensures
        m.cover_due(i, now_ms) == silent(m, i, now_ms),
        ({
            let (n, d) = m.covered(i, body, now_ms);
            &&& !silent(m, i, now_ms) ==> n == m && d is None
            &&& silent(m, i, now_ms) ==> {
                &&& d == Some(
                    EgressView {
                        fate: 0,
                        dst: m.peers[i].endpoint->0,
                        body: BodyView::Tunnel(seq![m.codes.junk] + body),
                    },
                )
                &&& n.peers[i] == (PeerView { last_cover_ms: now_ms, ..m.peers[i] })
                &&& rest_stays(m, n, i)
            }
        }),
{
}

/// The round of cover traffic reaches every peer that is silent, and changes nothing but
/// the time of its cover traffic.
pub proof fn law_cover_round_reaches_the_silent<S, H>(
    m: ManagerView<S, H>,
    bodies: Seq<Option<Vec<u8>>>,
    i: int,
    now_ms: u64,
)
    requires
        bodies.len() == m.peers.len(),
        0 <= i < m.peers.len(),
        m.peers[i].last_activity_ms <= now_ms,
        m.peers[i].last_cover_ms <= now_ms,
    ensures
        ({
            let n = m.covered_upto(bodies, bodies.len(), now_ms).0;
            &&& n == (ManagerView { peers: n.peers, ..m })
            &&& n.peers.len() == m.peers.len()
            &&& !silent(m, i, now_ms) ==> n.peers[i] == m.peers[i]
            &&& silent(m, i, now_ms) ==> n.peers[i] == (PeerView {
                last_cover_ms: now_ms,
                ..m.peers[i]
            })
        }),
{
    lemma_cover_round(m, bodies, bodies.len(), i, now_ms);
}

proof fn lemma_cover_round<S, H>(
    m: ManagerView<S, H>,
    bodies: Seq<Option<Vec<u8>>>,
    n: nat,
    i: int,
    now_ms: u64,
)
    requires
        n <= bodies.len() == m.peers.len(),
        0 <= i < m.peers.len(),
        m.peers[i].last_activity_ms <= now_ms,
        m.peers[i].last_cover_ms <= now_ms,
    ensures
        ({
            let k = m.covered_upto(bodies, n, now_ms).0;
            &&& k == (ManagerView { peers: k.peers, ..m })
            &&& k.peers.len() == m.peers.len()
            &&& i >= n || !silent(m, i, now_ms) ==> k.peers[i] == m.peers[i]
            &&& i < n && silent(m, i, now_ms) ==> k.peers[i] == (PeerView {
                last_cover_ms: now_ms,
                ..m.peers[i]
            })
        }),
    decreases n,
{
    if n > 0 {
        lemma_cover_round(m, bodies, (n - 1) as nat, i, now_ms);
    }
}

/// Forgetting the epoch that a session left touches nothing else.
pub proof fn law_retiring_spares_the_rest<S, H>(m: ManagerView<S, H>, i: int)
    requires
        0 <= i < m.peers.len(),
    ensures
        ({
            let n = m.retired(i);
            let was = m.peers[i].state->Established_0;
            let now = n.peers[i].state->Established_0;
            &&& rest_stays(m, n, i)
            &&& m.peers[i].state !is Established ==> n == m
            &&& m.peers[i].state is Established ==> {
                &&& n.peers[i].state is Established
                &&& now.previous is None
                &&& now.current == was.current && now.next == was.next && now.rekey == was.rekey
                &&& now.created_ms == was.created_ms
                &&& n.peers[i] == (PeerView { state: n.peers[i].state, ..m.peers[i] })
            }
        }),
{
}

/// What a round over all peers sends is what the turn of each of them sends, one after the
/// other, and nothing else.
pub proof fn law_round_sends_turn_by_turn<S, H>(
    m: ManagerView<S, H>,
    ts: Seq<PeerTick<H>>,
    now_ms: u64,
)
    requires
        ts.len() == m.peers.len(),
    ensures
        m.ticked_upto(ts, ts.len(), now_ms).1 == Seq::new(
            ts.len(),
            |i: int| m.ticked(i, ts[i], now_ms).1,
        ).flatten(),
{
    let turns = Seq::new(ts.len(), |i: int| m.ticked(i, ts[i], now_ms).1);
    lemma_round_flat(m, ts, ts.len(), now_ms);
    turns.lemma_flatten_and_flatten_alt_are_equivalent();
}

proof fn lemma_round_flat<S, H>(
    m: ManagerView<S, H>,
    ts: Seq<PeerTick<H>>,
    n: nat,
    now_ms: u64,
)
    requires
        n <= ts.len() == m.peers.len(),
    ensures
        m.ticked_upto(ts, n, now_ms).1 == Seq::new(
            n,
            |i: int| m.ticked(i, ts[i], now_ms).1,
        ).flatten_alt(),
    decreases n,
{
    let turns = Seq::new(n, |i: int| m.ticked(i, ts[i], now_ms).1);
    if n > 0 {
        let p = (n - 1) as nat;
        lemma_round_flat(m, ts, p, now_ms);
        lemma_round(m, ts, p, n - 1, now_ms);
        let w = m.ticked_upto(ts, p, now_ms).0;
        lemma_ticked_alike(m, w, n - 1, ts[n - 1], now_ms);
        assert(turns.drop_last() =~= Seq::new(p, |i: int| m.ticked(i, ts[i], now_ms).1));
    }
}

/// What a round over the idle peers sends is what the turn of each of them sends, one after
/// the other, and nothing else.
pub proof fn law_idle_round_sends_turn_by_turn<S, H>(
    m: ManagerView<S, H>,
    ts: Seq<PeerTick<H>>,
    now_ms: u64,
)
    requires
        ts.len() == m.peers.len(),
    ensures
        m.idle_upto(ts, ts.len(), now_ms).1 == Seq::new(
            ts.len(),
            |i: int|
                if m.rendezvous is Some && m.peers[i].state is Idle {
                    m.idle_stepped(i, ts[i].path->0, ts[i], now_ms).1
                } else {
                    Seq::empty()
                },
        ).flatten(),
{
    let turns = Seq::new(
        ts.len(),
        |i: int|
            if m.rendezvous is Some && m.peers[i].state is Idle {
                m.idle_stepped(i, ts[i].path->0, ts[i], now_ms).1
            } else {
                Seq::empty()
            },
    );
    lemma_idle_round_flat(m, ts, ts.len(), now_ms);
    assert(turns =~= Seq::new(ts.len(), |i: int| m.idle_ticked(i, ts[i], now_ms).1));
    turns.lemma_flatten_and_flatten_alt_are_equivalent();
}

proof fn lemma_idle_round_flat<S, H>(
    m: ManagerView<S, H>,
    ts: Seq<PeerTick<H>>,
    n: nat,
    now_ms: u64,
)
    requires
        n <= ts.len() == m.peers.len(),
    ensures
        m.idle_upto(ts, n, now_ms).1 == Seq::new(
            n,
            |i: int| m.idle_ticked(i, ts[i], now_ms).1,
        ).flatten_alt(),
    decreases n,
{
    let turns = Seq::new(n, |i: int| m.idle_ticked(i, ts[i], now_ms).1);
    if n > 0 {
        let p = (n - 1) as nat;
        lemma_idle_round_flat(m, ts, p, now_ms);
        lemma_idle_round(m, ts, p, n - 1, now_ms);
        let w = m.idle_upto(ts, p, now_ms).0;
        lemma_idle_alike(m, w, n - 1, ts[n - 1], now_ms);
        assert(turns.drop_last() =~= Seq::new(p, |i: int| m.idle_ticked(i, ts[i], now_ms).1));
    }
}

/// What a round of cover traffic sends is one decoy for each silent peer, in their order, and
/// nothing else.
pub proof fn law_cover_round_sends_one_each<S, H>(
    m: ManagerView<S, H>,
    bodies: Seq<Option<Vec<u8>>>,
    now_ms: u64,
)
    requires
        bodies.len() == m.peers.len(),
        forall|i: int|
            0 <= i < m.peers.len() ==> (#[trigger] m.peers[i]).last_activity_ms <= now_ms
                && m.peers[i].last_cover_ms <= now_ms,
    ensures
        m.covered_upto(bodies, bodies.len(), now_ms).1 == Seq::new(
            bodies.len(),
            |i: int| cover_for(m, bodies, i, now_ms),
        ).flatten(),
{
    let turns = Seq::new(bodies.len(), |i: int| cover_for(m, bodies, i, now_ms));
    lemma_cover_flat(m, bodies, bodies.len(), now_ms);
    turns.lemma_flatten_and_flatten_alt_are_equivalent();
}

/// The decoy that peer `i` gets in a round of cover traffic, if it is silent.
pub open spec fn cover_for<S, H>(
    m: ManagerView<S, H>,
    bodies: Seq<Option<Vec<u8>>>,
    i: int,
    now_ms: u64,
) -> Seq<EgressView> {
    if silent(m, i, now_ms) {
        seq![
            EgressView {
                fate: 0,
                dst: m.peers[i].endpoint->0,
                body: BodyView::Tunnel(seq![m.codes.junk] + bodies[i]->0@),
            },
        ]
    } else {
        Seq::empty()
    }
}

proof fn lemma_cover_flat<S, H>(
    m: ManagerView<S, H>,
    bodies: Seq<Option<Vec<u8>>>,
    n: nat,
    now_ms: u64,
)
    requires
        n <= bodies.len() == m.peers.len(),
        forall|i: int|
            0 <= i < m.peers.len() ==> (#[trigger] m.peers[i]).last_activity_ms <= now_ms
                && m.peers[i].last_cover_ms <= now_ms,
    ensures
        m.covered_upto(bodies, n, now_ms).1 == Seq::new(
            n,
            |i: int| cover_for(m, bodies, i, now_ms),
        ).flatten_alt(),
    decreases n,
{
    let turns = Seq::new(n, |i: int| cover_for(m, bodies, i, now_ms));
    if n > 0 {
        let p = (n - 1) as nat;
        assert(m.peers[n - 1].last_activity_ms <= now_ms);
        lemma_cover_flat(m, bodies, p, now_ms);
        lemma_cover_round(m, bodies, p, n - 1, now_ms);
        let (w, sent) = m.covered_upto(bodies, p, now_ms);
        assert(w.peers[n - 1] == m.peers[n - 1]);
        assert(turns.drop_last() =~= Seq::new(p, |i: int| cover_for(m, bodies, i, now_ms)));
        assert(m.covered_upto(bodies, n, now_ms).1 =~= sent + cover_for(m, bodies, n - 1, now_ms));
    }
}

/// A registration has a number exactly when one is due, and each one that is made has the
/// number after the one before it, as long as there is one.
pub proof fn law_registration_numbers_follow<S, H>(
    m: ManagerView<S, H>,
    signed: Option<RecordView>,
    now_ms: u64,
    later_ms: u64,
    draw: u64,
)
    requires
        m.reg_seq < u64::MAX,
    ensures
        ({
            let a = m.registration_number(now_ms);
            let b = m.registered(signed, now_ms, draw).0.registration_number(later_ms);
            &&& a is Some <==> m.registration_due(now_ms)
            &&& a is Some && b is Some ==> b->0 == a->0 + 1
            &&& a is Some && m.reg_seq == 0 ==> a->0 == 0
        }),
{
}

} // verus!
