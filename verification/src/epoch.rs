//! The key epochs of one live session: the one that sends, the one that a rekey has
//! prepared, and the one that was just left.

use vstd::prelude::*;

use crate::addr::SockAddr;
use crate::order::{copied, same_key};

verus! {

/// What the tunnel carries.
#[derive(Clone, Copy, Debug, PartialEq, Eq, Structural)]
pub enum TunnelMode {
    /// IP packets.
    L3Tun,
    /// Ethernet frames.
    L2Tap,
}

/// One epoch's transport: the session that seals and opens, which only the program
/// around the library looks into, and the settings it runs with.
#[derive(Debug)]
pub struct DataPlane<S> {
    pub session: S,
    pub conn_tag: u64,
    pub mode: TunnelMode,
    /// Where the transport addresses its datagrams.
    pub peer_addr: SockAddr,
    pub obf: bool,
    pub symbol_size: u16,
}

/// An epoch that a peer's rekey has prepared and no inbound frame has confirmed.
#[derive(Debug)]
pub struct NextEpoch<S> {
    pub dp: DataPlane<S>,
    /// The ephemeral key of the handshake that built it.
    pub init_eph: [u8; 32],
    /// The response that answered that handshake.
    pub resp: Vec<u8>,
}

/// What a [`NextEpoch`] holds.
#[verifier::ext_equal]
pub struct NextView<S> {
    pub dp: DataPlane<S>,
    pub init_eph: [u8; 32],
    pub resp: Seq<u8>,
}

impl<S> View for NextEpoch<S> {
    type V = NextView<S>;

    open spec fn view(&self) -> NextView<S> {
        NextView { dp: self.dp, init_eph: self.init_eph, resp: self.resp@ }
    }
}

/// A rekey that this side has begun.
#[derive(Debug)]
pub struct RekeyInFlight<H> {
    pub hs: H,
    pub init_pkt: Vec<u8>,
    pub started_ms: u64,
    pub last_sent_ms: u64,
    pub retry_ms: u64,
    pub target: SockAddr,
}

/// What a [`RekeyInFlight`] holds.
#[verifier::ext_equal]
pub struct RekeyView<H> {
    pub hs: H,
    pub init_pkt: Seq<u8>,
    pub started_ms: u64,
    pub last_sent_ms: u64,
    pub retry_ms: u64,
    pub target: SockAddr,
}

impl<H> View for RekeyInFlight<H> {
    type V = RekeyView<H>;

    open spec fn view(&self) -> RekeyView<H> {
        RekeyView {
            hs: self.hs,
            init_pkt: self.init_pkt@,
            started_ms: self.started_ms,
            last_sent_ms: self.last_sent_ms,
            retry_ms: self.retry_ms,
            target: self.target,
        }
    }
}

/// Which epoch opened an inbound datagram.
#[derive(Clone, Copy, Debug, PartialEq, Eq, Structural)]
pub enum EpochSlot {
    Current,
    Next,
    Previous,
}

/// The epochs of one live session.
#[derive(Debug)]
pub struct EpochSet<S, H> {
    /// The epoch that sends.
    pub current: DataPlane<S>,
    /// When the current epoch began to send.
    pub created_ms: u64,
    pub next: Option<NextEpoch<S>>,
    /// The epoch that sent before, kept for a while to open what is still under way.
    pub previous: Option<DataPlane<S>>,
    pub rekey: Option<RekeyInFlight<H>>,
}

/// What an [`EpochSet`] holds.
#[verifier::ext_equal]
pub struct EpochsView<S, H> {
    pub current: DataPlane<S>,
    pub created_ms: u64,
    pub next: Option<NextView<S>>,
    pub previous: Option<DataPlane<S>>,
    pub rekey: Option<RekeyView<H>>,
}

impl<S, H> View for EpochSet<S, H> {
    type V = EpochsView<S, H>;

    open spec fn view(&self) -> EpochsView<S, H> {
        EpochsView {
            current: self.current,
            created_ms: self.created_ms,
            next: match self.next {
                Some(n) => Some(n@),
                None => None,
            },
            previous: self.previous,
            rekey: match self.rekey {
                Some(r) => Some(r@),
                None => None,
            },
        }
    }
}

/// `a` less `b`, and nothing below zero.
pub open spec fn elapsed(a: u64, b: u64) -> int {
    if a >= b {
        a - b
    } else {
        0
    }
}

/// The time from `b` to `a` is their difference, and none at all where `a` is before `b`: a
/// clock that goes back makes nothing due.
pub proof fn law_time_does_not_run_back(a: u64, b: u64)
    ensures
        a >= b ==> b + elapsed(a, b) == a,
        a < b ==> elapsed(a, b) == 0,
{
}

/// A data plane that addresses its datagrams to `addr`.
pub open spec fn moved_to<S>(dp: DataPlane<S>, addr: SockAddr) -> DataPlane<S> {
    DataPlane { peer_addr: addr, ..dp }
}

/// What to do with an inbound datagram that is tried in one epoch after the other.
#[derive(Clone, Copy, Debug, PartialEq, Eq, Structural)]
pub enum OpenStep {
    /// Try to open it under the epoch.
    Try(EpochSlot),
    /// It opened under the epoch.
    Opened(EpochSlot),
    /// It opened under none.
    Closed,
}

/// What to do with an inbound datagram after the epochs of `slots` up to the length of
/// `opened` were tried, from `k` on: the first one that opened it has it.
pub open spec fn open_tried(slots: Seq<EpochSlot>, opened: Seq<bool>, k: int) -> OpenStep
    decreases slots.len() - k,
{
    if k < 0 || k >= slots.len() {
        OpenStep::Closed
    } else if k >= opened.len() {
        OpenStep::Try(slots[k])
    } else if opened[k] {
        OpenStep::Opened(slots[k])
    } else {
        open_tried(slots, opened, k + 1)
    }
}

impl<S, H> EpochsView<S, H> {
    /// The epochs that there are, in the order in which they are tried on what comes in.
    pub open spec fn slots(self) -> Seq<EpochSlot> {
        seq![EpochSlot::Current] + (if self.next is Some {
            seq![EpochSlot::Next]
        } else {
            Seq::empty()
        }) + (if self.previous is Some {
            seq![EpochSlot::Previous]
        } else {
            Seq::empty()
        })
    }

    /// The epochs of a session that has just begun.
    pub open spec fn fresh(dp: DataPlane<S>, now_ms: u64) -> EpochsView<S, H> {
        EpochsView { current: dp, created_ms: now_ms, next: None, previous: None, rekey: None }
    }

    /// Whether this side is to begin a rekey: none is in flight, and the current epoch
    /// has reached the interval, or twice the interval on the side that yields.
    pub open spec fn needs_rekey(self, now_ms: u64, winner: bool, interval_ms: u64) -> bool {
        &&& self.rekey is None
        &&& elapsed(now_ms, self.created_ms) >= if winner {
            interval_ms as int
        } else {
            2 * interval_ms
        }
    }

    /// The epochs with `dp` prepared as the next one.
    pub open spec fn with_next(self, dp: DataPlane<S>, eph: [u8; 32], resp: Seq<u8>) -> EpochsView<
        S,
        H,
    > {
        EpochsView { next: Some(NextView { dp, init_eph: eph, resp }), ..self }
    }

    /// The epochs after this side's rekey completed with `dp`.
    pub open spec fn promoted(self, dp: DataPlane<S>, now_ms: u64) -> EpochsView<S, H> {
        EpochsView { current: dp, created_ms: now_ms, previous: Some(self.current), ..self }
    }

    /// The epochs after an inbound datagram opened under `slot`: the next epoch, once it
    /// has opened anything, is the one that sends.
    pub open spec fn after_open(self, slot: EpochSlot, now_ms: u64) -> EpochsView<S, H> {
        match (slot, self.next) {
            (EpochSlot::Next, Some(n)) => EpochsView {
                current: n.dp,
                created_ms: now_ms,
                next: None,
                previous: Some(self.current),
                ..self
            },
            _ => self,
        }
    }

    /// The epochs with every transport addressed to `addr`.
    pub open spec fn roamed(self, addr: SockAddr) -> EpochsView<S, H> {
        EpochsView {
            current: moved_to(self.current, addr),
            next: match self.next {
                Some(n) => Some(NextView { dp: moved_to(n.dp, addr), ..n }),
                None => None,
            },
            previous: match self.previous {
                Some(p) => Some(moved_to(p, addr)),
                None => None,
            },
            ..self
        }
    }

    /// The connection tags of the session.
    pub open spec fn holds_tag(self, tag: u64) -> bool {
        ||| self.current.conn_tag == tag
        ||| (self.next matches Some(n) && n.dp.conn_tag == tag)
        ||| (self.previous matches Some(p) && p.conn_tag == tag)
    }
}

impl<S, H> EpochSet<S, H> {
    /// What to do with an inbound datagram; `opened` says of the epochs that were tried
    /// whether they opened it.
    pub fn open_step(&self, opened: &[bool]) -> (r: OpenStep)
        ensures
            r == open_tried(self@.slots(), opened@, 0),
    {
        let mut slots: Vec<EpochSlot> = Vec::new();
        slots.push(EpochSlot::Current);
        if self.next.is_some() {
            slots.push(EpochSlot::Next);
        }
        if self.previous.is_some() {
            slots.push(EpochSlot::Previous);
        }
        assert(slots@ =~= self@.slots());
        let mut k: usize = 0;
        while k < slots.len() && k < opened.len()
            invariant
                k <= slots@.len(),
                k <= opened@.len(),
                slots@ == self@.slots(),
                open_tried(slots@, opened@, 0) == open_tried(slots@, opened@, k as int),
            decreases slots@.len() - k,
        {
            if opened[k] {
                return OpenStep::Opened(slots[k]);
            }
            k = k + 1;
        }
        if k < slots.len() {
            OpenStep::Try(slots[k])
        } else {
            OpenStep::Closed
        }
    }

    pub fn new(dp: DataPlane<S>, now_ms: u64) -> (e: Self)
        ensures
            e@ == EpochsView::<S, H>::fresh(dp, now_ms),
    {
        EpochSet { current: dp, created_ms: now_ms, next: None, previous: None, rekey: None }
    }

    /// Whether this side is to begin a rekey.
    pub fn needs_rekey(&self, now_ms: u64, winner: bool, interval_ms: u64) -> (r: bool)
        ensures
            r == self@.needs_rekey(now_ms, winner, interval_ms),
    {
        if self.rekey.is_some() {
            return false;
        }
        let age: u64 = now_ms.saturating_sub(self.created_ms);
        if winner {
            age >= interval_ms
        } else {
            age as u128 >= 2 * (interval_ms as u128)
        }
    }

    /// The response that answered the handshake behind the next epoch, if `eph` is the
    /// ephemeral key of that handshake.
    pub fn next_cached_resp_for(&self, eph: &[u8; 32]) -> (r: Option<Vec<u8>>)
        ensures
            match r {
                Some(resp) => self@.next matches Some(n) && n.init_eph == *eph && resp@ == n.resp,
                None => !(self@.next matches Some(n) && n.init_eph == *eph),
            },
    {
        match &self.next {
            Some(n) => if same_key(&n.init_eph, eph) {
                Some(copied(&n.resp))
            } else {
                None
            },
            None => None,
        }
    }

    /// Prepares `dp` as the next epoch; the current one goes on sending.
    pub fn install_next(&mut self, dp: DataPlane<S>, eph: [u8; 32], resp: Vec<u8>)
        ensures
            final(self)@ == old(self)@.with_next(dp, eph, resp@),
    {
        self.next = Some(NextEpoch { dp, init_eph: eph, resp });
    }

    /// Sends under `dp` from now on, and keeps the epoch that sent before.
    pub fn promote_from_rekey(&mut self, dp: DataPlane<S>, now_ms: u64)
        ensures
            final(self)@ == old(self)@.promoted(dp, now_ms),
    {
        let mut left: DataPlane<S> = dp;
        std::mem::swap(&mut self.current, &mut left);
        self.previous = Some(left);
        self.created_ms = now_ms;
    }

    /// Records that an inbound datagram opened under `slot`.
    pub fn opened_under(&mut self, slot: EpochSlot, now_ms: u64)
        ensures
            final(self)@ == old(self)@.after_open(slot, now_ms),
    {
        if let EpochSlot::Next = slot {
            match self.next.take() {
                Some(n) => {
                    self.promote_from_rekey(n.dp, now_ms);
                },
                None => {},
            }
        }
    }

    /// Forgets the epoch that sent before.
    pub fn retire_previous(&mut self)
        ensures
            final(self)@ == (EpochsView { previous: None, ..old(self)@ }),
    {
        self.previous = None;
    }

    /// Addresses every transport to `addr`.
    pub fn set_peer_addr(&mut self, addr: SockAddr)
        ensures
            final(self)@ == old(self)@.roamed(addr),
    {
        self.current.peer_addr = addr;
        match self.next.take() {
            Some(mut n) => {
                n.dp.peer_addr = addr;
                self.next = Some(n);
            },
            None => {},
        }
        match self.previous.take() {
            Some(mut p) => {
                p.peer_addr = addr;
                self.previous = Some(p);
            },
            None => {},
        }
    }
}

} // verus!
