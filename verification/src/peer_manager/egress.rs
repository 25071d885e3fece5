//! From what a session sealed, or a step decided, to what is sent.

use vstd::prelude::*;

use crate::addr::SockAddr;
use crate::peer_manager::{ManagerView, PeerManager};
use crate::rendezvous::Rendezvous;
use crate::wire::{egress_views, Body, BodyView, EgressDatagram, EgressView};

verus! {

broadcast use vstd::std_specs::hash::group_hash_axioms;

/// A datagram that a session's transport has sealed.
#[derive(Debug)]
pub struct Sealed {
    pub fate: u16,
    pub dst: SockAddr,
    pub bytes: Vec<u8>,
}

/// What a [`Sealed`] says.
#[verifier::ext_equal]
pub struct SealedView {
    pub fate: u16,
    pub dst: SockAddr,
    pub bytes: Seq<u8>,
}

impl View for Sealed {
    type V = SealedView;

    open spec fn view(&self) -> SealedView {
        SealedView { fate: self.fate, dst: self.dst, bytes: self.bytes@ }
    }
}

/// What each sealed datagram of a list says.
pub open spec fn sealed_views(v: Seq<Sealed>) -> Seq<SealedView> {
    Seq::new(v.len(), |i: int| v[i]@)
}

/// A sealed datagram, sent as it is.
pub open spec fn as_sealed(d: SealedView) -> EgressView {
    EgressView { fate: d.fate, dst: d.dst, body: BodyView::Tunnel(d.bytes) }
}

impl<S, H> ManagerView<S, H> {
    /// A sealed datagram on its way to peer `i`: through the relay, or as it is.
    pub open spec fn carried_one(self, i: int, d: SealedView, via_relay: bool) -> Seq<EgressView> {
        if via_relay {
            self.wrapped(i, d.bytes)
        } else {
            seq![as_sealed(d)]
        }
    }

    /// Sealed datagrams on their way to peer `i`, in their order.
    pub open spec fn carried(self, i: int, ds: Seq<SealedView>, via_relay: bool) -> Seq<EgressView>
        decreases ds.len(),
    {
        if ds.len() == 0 {
            Seq::empty()
        } else {
            self.carried(i, ds.drop_last(), via_relay) + self.carried_one(
                i,
                ds.last(),
                via_relay,
            )
        }
    }

    /// What a session of peer `i` has sealed, on its way: through the relay where the peer
    /// is reached that way.
    pub open spec fn sealed_out(self, i: int, ds: Seq<SealedView>) -> Seq<EgressView> {
        self.carried(i, ds, self.peers[i].relay)
    }
}

/// The outcome of an inbound datagram, or of a whole step.
#[derive(Debug)]
pub enum DispatchOut {
    Nothing,
    /// A packet for the TUN device.
    Tun(Vec<u8>),
    /// Datagrams to send.
    Udp(Vec<EgressDatagram>),
    Both(Vec<u8>, Vec<EgressDatagram>),
}

impl DispatchOut {
    /// The packet for the TUN device.
    pub open spec fn tun(self) -> Option<Seq<u8>> {
        match self {
            DispatchOut::Tun(t) => Some(t@),
            DispatchOut::Both(t, _) => Some(t@),
            _ => None,
        }
    }

    /// The datagrams to send.
    pub open spec fn udp(self) -> Seq<EgressView> {
        match self {
            DispatchOut::Udp(e) => egress_views(e@),
            DispatchOut::Both(_, e) => egress_views(e@),
            _ => Seq::empty(),
        }
    }

    /// Every list of datagrams that is there has one in it.
    pub open spec fn tight(self) -> bool {
        match self {
            DispatchOut::Udp(e) => e@.len() > 0,
            DispatchOut::Both(_, e) => e@.len() > 0,
            _ => true,
        }
    }
}

/// Takes an outcome apart.
pub fn own_dispatch(out: DispatchOut) -> (r: (Option<Vec<u8>>, Vec<EgressDatagram>))
    ensures
        (match r.0 {
            Some(t) => Some(t@),
            None => None,
        }) == out.tun(),
        egress_views(r.1@) == out.udp(),
{
    let r = match out {
        DispatchOut::Nothing => (None, Vec::new()),
        DispatchOut::Tun(t) => (Some(t), Vec::new()),
        DispatchOut::Udp(e) => (None, e),
        DispatchOut::Both(t, e) => (Some(t), e),
    };
    assert(egress_views(r.1@) =~= out.udp());
    r
}

/// Puts an outcome together; an empty list of datagrams is left out.
pub fn finish_dispatch(tun: Option<Vec<u8>>, udp: Vec<EgressDatagram>) -> (out: DispatchOut)
    ensures
        out.tun() == (match tun {
            Some(t) => Some(t@),
            None => None,
        }),
        out.udp() == egress_views(udp@),
        out.tight(),
{
    let out = match tun {
        Some(t) => if udp.len() == 0 {
            DispatchOut::Tun(t)
        } else {
            DispatchOut::Both(t, udp)
        },
        None => if udp.len() == 0 {
            DispatchOut::Nothing
        } else {
            DispatchOut::Udp(udp)
        },
    };
    assert(out.udp() =~= egress_views(udp@));
    out
}

impl<R: Rendezvous, S, H> PeerManager<R, S, H> {
    /// `raw` for peer `idx`, to be relayed by the server; `None` without a server.
    pub fn relay_wrap(&mut self, idx: usize, raw: &[u8]) -> (r: Option<EgressDatagram>)
        requires
            old(self)@.wf(),
            idx < old(self)@.peers.len(),
        ensures
            final(self)@ == old(self)@,
            match r {
                Some(d) => old(self)@.wrapped(idx as int, raw@) == seq![d@],
                None => old(self)@.wrapped(idx as int, raw@) == Seq::<EgressView>::empty()
                    && old(self)@.rendezvous is None,
            },
    {
        let node: u128 = self.peers[idx].id.node;
        let local: u128 = self.local.node;
        match &mut self.rendezvous {
            Some(r) => Some(r.relay(local, node, raw)),
            None => None,
        }
    }

    /// Appends `raw` for peer `idx`, relayed, to `out`.
    pub(crate) fn relay_push(&mut self, idx: usize, raw: &[u8], out: &mut Vec<EgressDatagram>)
        requires
            old(self)@.wf(),
            idx < old(self)@.peers.len(),
        ensures
            final(self)@ == old(self)@,
            egress_views(final(out)@) == egress_views(old(out)@) + old(self)@.wrapped(
                idx as int,
                raw@,
            ),
    {
        let wrapped: Option<EgressDatagram> = self.relay_wrap(idx, raw);
        match wrapped {
            Some(d) => {
                out.push(d);
                assert(egress_views(out@) =~= egress_views(old(out)@) + seq![d@]);
            },
            None => {
                assert(egress_views(out@) =~= egress_views(old(out)@) + Seq::<
                    EgressView,
                >::empty());
            },
        }
    }

    /// What a session of peer `idx` has sealed, ready to send: through the relay where
    /// the peer is reached that way, else as it is.
    pub fn sealed_egress(&mut self, idx: usize, sealed: Vec<Sealed>) -> (out: Vec<EgressDatagram>)
        requires
            old(self)@.wf(),
            idx < old(self)@.peers.len(),
        ensures
            final(self)@ == old(self)@,
            egress_views(out@) == old(self)@.sealed_out(idx as int, sealed_views(sealed@)),
    {
        let relay: bool = self.peers[idx].relay;
        self.carry(idx, sealed, relay)
    }

    /// Sealed datagrams for peer `idx`, ready to send: through the relay, or as they are.
    pub(crate) fn carry(
        &mut self,
        idx: usize,
        sealed: Vec<Sealed>,
        via_relay: bool,
    ) -> (out: Vec<EgressDatagram>)
        requires
            old(self)@.wf(),
            idx < old(self)@.peers.len(),
        ensures
            final(self)@ == old(self)@,
            egress_views(out@) == old(self)@.carried(
                idx as int,
                sealed_views(sealed@),
                via_relay,
            ),
    {
        let ghost all = sealed_views(sealed@);
        let mut out: Vec<EgressDatagram> = Vec::new();
        let n: usize = sealed.len();
        let mut i: usize = 0;
        let mut rest: Vec<Sealed> = sealed;
        assert(all.take(0) =~= Seq::<SealedView>::empty());
        assert(egress_views(out@) =~= Seq::<EgressView>::empty());
        while i < n
            invariant
                self@ == old(self)@,
                self@.wf(),
                idx < self@.peers.len(),
                i <= n,
                n == all.len(),
                rest@.len() == n - i,
                forall|j: int| 0 <= j < n - i ==> (#[trigger] rest@[j])@ == all[i + j],
                egress_views(out@) == self@.carried(idx as int, all.take(i as int), via_relay),
            decreases n - i,
        {
            assert(rest@[0]@ == all[i as int]);
            let d: Sealed = rest.remove(0);
            assert(all.take(i + 1).drop_last() =~= all.take(i as int));
            assert(all.take(i + 1).last() == d@);
            if via_relay {
                self.relay_push(idx, &d.bytes, &mut out);
            } else {
                let ghost sent = out@;
                out.push(EgressDatagram { fate: d.fate, dst: d.dst, body: Body::Tunnel(d.bytes) });
                assert(egress_views(out@) =~= egress_views(sent) + seq![as_sealed(d@)]);
            }
            i = i + 1;
        }
        assert(all.take(i as int) =~= all);
        out
    }
}

} // verus!
