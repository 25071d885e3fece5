//! The connection to a relay that is dialled over TLS: when to dial, what to say
//! first, and how bytes pass through it.

use vstd::prelude::*;

use crate::clock::now_secs;
use crate::order::contents;
use crate::tls::{
    drained, frame, frame_datagram_within, framed, head, leftover, FrameError, FrameReader,
    ReaderView,
};
use crate::wire::{Message, MessageView};

verus! {

/// How often this node registers again while nothing else happens.
pub const REG_KEEPALIVE_MS: u64 = 30_000;

/// The least time between two reports of dropped datagrams.
pub const DROP_LOG_INTERVAL_MS: u64 = 1_000;

/// Numbers the registrations of one run. The relay takes only a number greater than the
/// last one it saw, also across restarts.
pub struct Counter(u64);

impl View for Counter {
    type V = u64;

    /// The number that was given last.
    closed spec fn view(&self) -> u64 {
        self.0
    }
}

impl Counter {
    /// A counter that starts at the wall clock's seconds, so that it is ahead of every
    /// number of an earlier run while the clock goes forward. Where it starts rests on the
    /// clock alone ([`Counter::seeded`]).
    pub fn seeded_now() -> (c: Self) {
        Counter::seeded(now_secs())
    }

    /// A counter that starts at `seed`.
    pub fn seeded(seed: u64) -> (c: Self)
        ensures
            c@ == seed,
    {
        Counter(seed)
    }

    /// Whether the last number was given.
    pub fn spent(&self) -> (r: bool)
        ensures
            r == (self@ == u64::MAX),
    {
        self.0 == u64::MAX
    }

    /// The next number.
    pub fn next(&mut self) -> (n: u64)
        requires
            old(self)@ < u64::MAX,
        ensures
            n == old(self)@ + 1,
            final(self)@ == n,
    {
        self.0 = self.0 + 1;
        self.0
    }
}

/// The registration of `node` with a number.
pub open spec fn register_message(node: u128, counter: u64) -> MessageView {
    MessageView::Register { node, counter }
}

/// A registration is for the node that it names, and carries its number: no two of one node
/// with different numbers are the same, and none of two nodes.
pub proof fn law_registrations_differ(a: u128, b: u128, m: u64, n: u64)
    ensures
        register_message(a, m) is Register,
        register_message(a, m)->Register_node == a,
        register_message(a, m)->Register_counter == m,
        register_message(a, m) == register_message(b, n) ==> a == b && m == n,
{
}

/// The registration of `node` with a number.
pub fn build_register(node: u128, counter: u64) -> (m: Message)
    ensures
        m@ == register_message(node, counter),
{
    Message::Register { node, counter }
}

/// How far a connection to the relay has come.
#[derive(Clone, Copy, Debug, PartialEq, Eq, Structural)]
pub enum DialPhase {
    /// There is none.
    Down,
    /// It stands, and the registration is to be sent.
    Registering,
    /// The registration was sent, and bytes pass.
    Up,
}

/// What happened to the connection.
#[derive(Clone, Copy, Debug, PartialEq, Eq, Structural)]
pub enum DialEvent {
    /// The relay could not be resolved, reached or shaken hands with.
    Unreachable,
    /// The connection stands.
    HandshakeDone,
    RegisterSent,
    RegisterFailed,
    /// The connection ended after it stood.
    Ended,
}

/// What to do next.
#[derive(Clone, Copy, Debug, PartialEq, Eq, Structural)]
pub enum DialAction {
    /// Dial at once.
    Dial,
    /// Wait, then dial.
    WaitThenDial { ms: u64 },
    /// Send a registration with this number, before anything else.
    SendRegister { counter: u64 },
    /// Pass bytes until the connection ends.
    Pump,
}

/// The connection to the relay.
pub struct RelayDial {
    counter: Counter,
    phase: DialPhase,
    backoff_ms: u64,
    initial_ms: u64,
    max_ms: u64,
}

/// What a [`RelayDial`] holds.
pub struct DialView {
    pub counter: u64,
    pub phase: DialPhase,
    pub backoff_ms: u64,
    pub initial_ms: u64,
    pub max_ms: u64,
}

/// Twice the wait, up to the longest.
pub open spec fn doubled(backoff_ms: u64, max_ms: u64) -> u64 {
    if 2 * backoff_ms <= max_ms {
        (2 * backoff_ms) as u64
    } else {
        max_ms
    }
}

impl DialView {
    /// A connection that was never dialled.
    pub open spec fn start(counter: u64, initial_ms: u64, max_ms: u64) -> DialView {
        DialView {
            counter,
            phase: DialPhase::Down,
            backoff_ms: initial_ms,
            initial_ms,
            max_ms,
        }
    }

    /// The connection after a failure: down, and the next wait is twice as long.
    pub open spec fn failed(self) -> (DialView, DialAction) {
        (
            DialView {
                phase: DialPhase::Down,
                backoff_ms: doubled(self.backoff_ms, self.max_ms),
                ..self
            },
            DialAction::WaitThenDial { ms: self.backoff_ms },
        )
    }

    /// What an event leads to. A connection that stands is registered on before anything
    /// else; one that stood is dialled again at once when it ends.
    pub open spec fn step(self, ev: DialEvent) -> (DialView, DialAction) {
        match (self.phase, ev) {
            (DialPhase::Down, DialEvent::HandshakeDone) => (
                DialView {
                    counter: (self.counter + 1) as u64,
                    phase: DialPhase::Registering,
                    backoff_ms: self.initial_ms,
                    ..self
                },
                DialAction::SendRegister { counter: (self.counter + 1) as u64 },
            ),
            (DialPhase::Registering, DialEvent::RegisterSent) => (
                DialView { phase: DialPhase::Up, ..self },
                DialAction::Pump,
            ),
            (DialPhase::Registering, DialEvent::Ended) | (DialPhase::Up, DialEvent::Ended) => (
                DialView { phase: DialPhase::Down, ..self },
                DialAction::Dial,
            ),
            _ => self.failed(),
        }
    }
}

impl View for RelayDial {
    type V = DialView;

    closed spec fn view(&self) -> DialView {
        DialView {
            counter: self.counter@,
            phase: self.phase,
            backoff_ms: self.backoff_ms,
            initial_ms: self.initial_ms,
            max_ms: self.max_ms,
        }
    }
}

impl RelayDial {
    /// A connection that is down, with the shortest and the longest wait between two
    /// attempts.
    pub fn new(counter: Counter, initial_ms: u64, max_ms: u64) -> (d: Self)
        ensures
            d@ == DialView::start(counter@, initial_ms, max_ms),
    {
        RelayDial { counter, phase: DialPhase::Down, backoff_ms: initial_ms, initial_ms, max_ms }
    }

    /// Notes a failure.
    fn fail(&mut self) -> (a: DialAction)
        ensures
            (final(self)@, a) == old(self)@.failed(),
    {
        let ms: u64 = self.backoff_ms;
        self.phase = DialPhase::Down;
        self.backoff_ms = if ms <= self.max_ms / 2 {
            2 * ms
        } else {
            self.max_ms
        };
        DialAction::WaitThenDial { ms }
    }

    /// Takes an event and says what to do next. Only a connection that just stands takes a
    /// number.
    pub fn on(&mut self, ev: DialEvent) -> (a: DialAction)
        requires
            old(self)@.phase is Down && ev is HandshakeDone ==> old(self)@.counter < u64::MAX,
        ensures
            (final(self)@, a) == old(self)@.step(ev),
    {
        match (self.phase, ev) {
            (DialPhase::Down, DialEvent::HandshakeDone) => {
                self.phase = DialPhase::Registering;
                self.backoff_ms = self.initial_ms;
                let counter: u64 = self.counter.next();
                DialAction::SendRegister { counter }
            },
            (DialPhase::Registering, DialEvent::RegisterSent) => {
                self.phase = DialPhase::Up;
                DialAction::Pump
            },
            (DialPhase::Registering, DialEvent::Ended) | (DialPhase::Up, DialEvent::Ended) => {
                self.phase = DialPhase::Down;
                DialAction::Dial
            },
            _ => self.fail(),
        }
    }

    /// Whether the last number was given.
    pub fn spent(&self) -> (r: bool)
        ensures
            r == (self@.counter == u64::MAX),
    {
        self.counter.spent()
    }

    /// The number for a registration that is sent again while bytes pass.
    pub fn keepalive_counter(&mut self) -> (n: u64)
        requires
            old(self)@.counter < u64::MAX,
        ensures
            n == old(self)@.counter + 1,
            final(self)@ == (DialView { counter: n, ..old(self)@ }),
            (final(self)@, Some(n)) == old(self)@.after(DialOp::Keepalive),
    {
        self.counter.next()
    }
}

/// What happens in a run: something to the connection, or a registration is sent again.
pub enum DialOp {
    Event(DialEvent),
    Keepalive,
}

impl DialView {
    /// The connection after what happened, and the number of the registration that was
    /// built for it.
    pub open spec fn after(self, op: DialOp) -> (DialView, Option<u64>) {
        match op {
            DialOp::Event(ev) => (
                self.step(ev).0,
                match self.step(ev).1 {
                    DialAction::SendRegister { counter } => Some(counter),
                    _ => None,
                },
            ),
            DialOp::Keepalive => {
                let n = (self.counter + 1) as u64;
                (DialView { counter: n, ..self }, Some(n))
            },
        }
    }

    /// The connection after the first `n` of a sequence of happenings.
    pub open spec fn run(self, ops: Seq<DialOp>, n: nat) -> DialView
        decreases n,
    {
        if n == 0 {
            self
        } else {
            self.run(ops, (n - 1) as nat).after(ops[n - 1]).0
        }
    }

    /// The numbers of the registrations that the first `n` of them built, in their order.
    pub open spec fn numbers(self, ops: Seq<DialOp>, n: nat) -> Seq<u64>
        decreases n,
    {
        if n == 0 {
            Seq::empty()
        } else {
            let before = self.numbers(ops, (n - 1) as nat);
            match self.run(ops, (n - 1) as nat).after(ops[n - 1]).1 {
                Some(c) => before.push(c),
                None => before,
            }
        }
    }

    /// Whether registrations are only sent again while bytes pass.
    pub open spec fn keeps_alive_while_up(self, ops: Seq<DialOp>, n: nat) -> bool {
        forall|k: int|
            0 <= k < n && (#[trigger] ops[k]) is Keepalive ==> self.run(ops, k as nat).phase is Up
    }
}

/// Bytes pass only after a registration, also over reconnects: whatever happened before,
/// the step that starts the pump follows one that sent a registration on the same
/// connection, with nothing between them.
pub proof fn law_register_first(start: DialView, ops: Seq<DialOp>, n: nat, ev: DialEvent)
    requires
        start.phase is Down,
        n <= ops.len(),
        start.keeps_alive_while_up(ops, n),
        start.run(ops, n).step(ev).1 is Pump,
    ensures
        n >= 1,
        ops[n - 1] is Event,
        start.run(ops, (n - 1) as nat).step(ops[n - 1]->Event_0).1 is SendRegister,
{
    if n >= 1 {
        let before = start.run(ops, (n - 1) as nat);
        assert(start.run(ops, n) == before.after(ops[n - 1]).0);
        assert(ops[n - 1] is Keepalive ==> before.phase is Up);
    }
}

/// Over a whole run, with its reconnects and its registrations that are sent again, each
/// registration carries the number that follows the one before it, and the first one that
/// follows the counter's start.
pub proof fn law_register_numbers_follow(start: DialView, ops: Seq<DialOp>, n: nat)
    requires
        n <= ops.len(),
        start.counter + n <= u64::MAX,
    ensures
        start.run(ops, n).counter == start.counter + start.numbers(ops, n).len(),
        start.numbers(ops, n).len() <= n,
        forall|k: int|
            0 <= k < start.numbers(ops, n).len() ==> #[trigger] start.numbers(ops, n)[k]
                == start.counter + 1 + k,
    decreases n,
{
    if n > 0 {
        law_register_numbers_follow(start, ops, (n - 1) as nat);
    }
}

/// The waits between failed attempts grow up to the longest and no further, and a
/// connection that stood starts them afresh.
pub proof fn law_backoff(d: DialView, ev: DialEvent)
    requires
        d.initial_ms <= d.max_ms,
        d.initial_ms <= d.backoff_ms <= d.max_ms,
    ensures
        d.initial_ms <= d.step(ev).0.backoff_ms <= d.max_ms,
        d.step(ev).1 matches DialAction::WaitThenDial { ms } ==> ms == d.backoff_ms
            && d.step(ev).0.backoff_ms >= ms,
        d.step(ev).1 is SendRegister ==> d.step(ev).0.backoff_ms == d.initial_ms,
{
}

/// A connection begins down, with the counter as it was given: the first failure is followed
/// by the shortest wait, and the first connection that stands is registered on with the number
/// after the counter's.
pub proof fn law_dialling_begins(counter: u64, initial_ms: u64, max_ms: u64)
    requires
        counter < u64::MAX,
    ensures
        ({
            let d = DialView::start(counter, initial_ms, max_ms);
            &&& d.phase is Down
            &&& d.step(DialEvent::Unreachable).1 == (DialAction::WaitThenDial { ms: initial_ms })
            &&& d.step(DialEvent::HandshakeDone).1 is SendRegister
            &&& d.step(DialEvent::HandshakeDone).1->SendRegister_counter == counter + 1
        }),
{
}

/// What each event leads to. A connection that is down and comes to stand is registered on,
/// with the number after the last one; one that is registered passes bytes; one that stood
/// and ended is dialled at once. Anything else is a failure: the connection is down, dialled
/// again after the wait, and the next wait is twice as long, up to the longest.
pub proof fn law_what_events_lead_to(d: DialView, ev: DialEvent)
    requires
        d.counter < u64::MAX,
    ensures
        ({
            let (n, a) = d.step(ev);
            let stands = d.phase is Down && ev is HandshakeDone;
            let registered = d.phase is Registering && ev is RegisterSent;
            let ended = d.phase !is Down && ev is Ended;
            &&& n.initial_ms == d.initial_ms && n.max_ms == d.max_ms
            &&& stands ==> {
                &&& a == (DialAction::SendRegister { counter: n.counter })
                &&& n.counter == d.counter + 1
                &&& n.phase is Registering
                &&& n.backoff_ms == d.initial_ms
            }
            &&& !stands ==> n.counter == d.counter
            &&& registered ==> a is Pump && n.phase is Up && n.backoff_ms == d.backoff_ms
            &&& ended ==> a is Dial && n.phase is Down && n.backoff_ms == d.backoff_ms
            &&& !stands && !registered && !ended ==> {
                &&& a == (DialAction::WaitThenDial { ms: d.backoff_ms })
                &&& n.phase is Down
                &&& 2 * d.backoff_ms <= d.max_ms ==> n.backoff_ms == 2 * d.backoff_ms
                &&& 2 * d.backoff_ms > d.max_ms ==> n.backoff_ms == d.max_ms
            }
        }),
{
}

/// Whether a registration is to be sent again, so long after the last one.
pub open spec fn keepalive_owed(since_register_ms: u64) -> bool {
    since_register_ms >= REG_KEEPALIVE_MS
}

/// How long it is until the next registration, so long after the last one.
pub open spec fn keepalive_left(since_register_ms: u64) -> int {
    crate::epoch::elapsed(REG_KEEPALIVE_MS, since_register_ms)
}

/// A registration is sent again half a minute after the last one, and not before; who waits
/// as long as is left wakes just then.
pub proof fn law_keepalive_every_half_minute(since_register_ms: u64)
    ensures
        keepalive_owed(since_register_ms) <==> since_register_ms >= 30_000,
        since_register_ms <= 30_000 ==> since_register_ms + keepalive_left(since_register_ms)
            == 30_000,
        since_register_ms > 30_000 ==> keepalive_left(since_register_ms) == 0,
{
}

/// Whether a registration is to be sent again, so long after the last one.
pub fn keepalive_due(since_register_ms: u64) -> (r: bool)
    ensures
        r == keepalive_owed(since_register_ms),
{
    since_register_ms >= REG_KEEPALIVE_MS
}

/// How long to wait at most, so long after the last registration, for the next one to be
/// sent in time.
pub fn keepalive_wait(since_register_ms: u64) -> (ms: u64)
    ensures
        ms == keepalive_left(since_register_ms),
        since_register_ms + ms >= REG_KEEPALIVE_MS,
        ms == 0 <==> since_register_ms >= REG_KEEPALIVE_MS,
{
    REG_KEEPALIVE_MS.saturating_sub(since_register_ms)
}

/// Takes plaintext that came from the relay and gives the datagrams that are complete,
/// in their order; the flag says that the stream is broken and the connection has to end.
pub fn from_relay(reader: &mut FrameReader, plaintext: &[u8]) -> (r: (Vec<Vec<u8>>, bool))
    ensures
        contents(r.0@) == drained(old(reader)@.buf + plaintext@, old(reader)@.max),
        final(reader)@ == (ReaderView {
            buf: leftover(old(reader)@.buf + plaintext@, old(reader)@.max),
            ..old(reader)@
        }),
        r.1 == (head(final(reader)@.buf, old(reader)@.max) is Bad),
{
    reader.push(plaintext);
    reader.drain()
}

/// The bytes that carry a datagram to the relay; an error for one that does not fit.
pub fn to_relay(dg: &[u8], max: usize) -> (r: Result<Vec<u8>, FrameError>)
    ensures
        match r {
            Ok(b) => dg@.len() <= max && dg@.len() <= 65535 && b@ == frame(dg@),
            Err(e) => (dg@.len() > max || dg@.len() > 65535) && e == FrameError::TooLarge,
        },
        framed(dg@, max as nat) == (match r {
            Ok(b) => Some(b@),
            Err(_) => None,
        }),
{
    let mut out: Vec<u8> = Vec::new();
    match frame_datagram_within(dg, max, &mut out) {
        Ok(_) => {
            assert(out@ =~= frame(dg@));
            Ok(out)
        },
        Err(e) => Err(e),
    }
}

/// How receiving from the other thread went.
#[derive(Clone, Copy, Debug, PartialEq, Eq, Structural)]
pub enum RecvOutcome {
    /// A datagram of so many bytes.
    Datagram(usize),
    WouldBlock,
    Interrupted,
    Failed,
}

/// What to do after receiving.
#[derive(Clone, Copy, Debug, PartialEq, Eq, Structural)]
pub enum DrainStep {
    /// Hand the datagram on, and receive again.
    Emit,
    /// Receive again.
    Again,
    /// There is nothing more for now.
    Done,
    /// The other thread is gone.
    PeerGone,
    /// Report the error.
    Fail,
}

/// What to do after receiving from the other thread.
pub open spec fn after_recv(r: RecvOutcome) -> DrainStep {
    match r {
        RecvOutcome::Datagram(n) => if n == 0 {
            DrainStep::PeerGone
        } else {
            DrainStep::Emit
        },
        RecvOutcome::WouldBlock => DrainStep::Done,
        RecvOutcome::Interrupted => DrainStep::Again,
        RecvOutcome::Failed => DrainStep::Fail,
    }
}

/// Every datagram with something in it is handed on, and nothing else is; an empty one, and
/// nothing else, says that the other thread is gone; only a failure is reported, and an
/// interruption ends nothing.
pub proof fn law_receiving_loses_nothing(r: RecvOutcome)
    ensures
        after_recv(r) is Emit <==> r is Datagram && r->Datagram_0 > 0,
        after_recv(r) is PeerGone <==> r == RecvOutcome::Datagram(0),
        after_recv(r) is Fail <==> r is Failed,
        after_recv(r) is Done <==> r is WouldBlock,
        after_recv(r) is Again <==> r is Interrupted,
{
}

/// What to do after receiving from the other thread. It never sends an empty datagram,
/// so one means that it is gone.
pub fn drain_step(r: RecvOutcome) -> (s: DrainStep)
    ensures
        s == after_recv(r),
{
    match r {
        RecvOutcome::Datagram(n) => if n == 0 {
            DrainStep::PeerGone
        } else {
            DrainStep::Emit
        },
        RecvOutcome::WouldBlock => DrainStep::Done,
        RecvOutcome::Interrupted => DrainStep::Again,
        RecvOutcome::Failed => DrainStep::Fail,
    }
}

/// How sending to the other thread went.
#[derive(Clone, Copy, Debug, PartialEq, Eq, Structural)]
pub enum SendOutcome {
    Sent,
    WouldBlock,
    Failed,
}

/// What to do after sending.
#[derive(Clone, Copy, Debug, PartialEq, Eq, Structural)]
pub enum SendStep {
    /// Go on.
    Done,
    /// Go on; the datagram is dropped.
    Dropped,
    /// Report the error.
    Fail,
}

/// What to do after sending to the other thread.
pub open spec fn after_send(r: SendOutcome) -> SendStep {
    match r {
        SendOutcome::Sent => SendStep::Done,
        SendOutcome::WouldBlock => SendStep::Dropped,
        SendOutcome::Failed => SendStep::Fail,
    }
}

/// A full buffer drops the datagram and ends nothing; only a failure is reported.
pub proof fn law_full_buffer_is_no_failure(r: SendOutcome)
    ensures
        after_send(r) is Dropped <==> r is WouldBlock,
        after_send(r) is Done <==> r is Sent,
        after_send(r) is Fail <==> r is Failed,
{
}

/// What to do after sending to the other thread: a full buffer drops the datagram, like a
/// packet on the way.
pub fn send_step(r: SendOutcome) -> (s: SendStep)
    ensures
        s == after_send(r),
{
    match r {
        SendOutcome::Sent => SendStep::Done,
        SendOutcome::WouldBlock => SendStep::Dropped,
        SendOutcome::Failed => SendStep::Fail,
    }
}

/// Whether a dropped datagram is to be reported, given when one was last reported.
pub open spec fn drop_owed(last_ms: u64, now_ms: u64) -> bool {
    crate::epoch::elapsed(now_ms, last_ms) >= DROP_LOG_INTERVAL_MS
}

/// Dropped datagrams are reported once a second at most: after a report none is due until a
/// second has gone by, and one is due from then on.
pub proof fn law_drops_reported_once_a_second(last_ms: u64, now_ms: u64)
    ensures
        drop_owed(last_ms, now_ms) <==> now_ms - last_ms >= 1_000,
{
}

/// Whether a dropped datagram is to be reported, given when one was last reported.
pub fn log_drop_due(last_ms: u64, now_ms: u64) -> (r: bool)
    ensures
        r == drop_owed(last_ms, now_ms),
{
    now_ms.saturating_sub(last_ms) >= DROP_LOG_INTERVAL_MS
}

} // verus!
