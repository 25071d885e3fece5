//! Obfuscation: which key opens or wraps a datagram, how much padding it gets, and
//! the decoys.

use vstd::prelude::*;

use crate::addr::{is_addr, SockAddr};
use crate::order::{contents, copied};
use crate::peer::PeerView;
use crate::peer_manager::{first_where, lemma_first_where, ManagerView, PeerManager};
use crate::rendezvous::Rendezvous;
use crate::wire::{reassemble, WireCodes};

verus! {

broadcast use vstd::std_specs::hash::group_hash_axioms;

/// The size that padding fills a datagram up to.
pub const OBF_MTU_BUDGET: usize = 1200;

/// The most padding of a datagram that is not a handshake.
pub const OBF_DATA_PAD_MAX: usize = 64;

/// The shortest and the longest body of a decoy.
pub const JUNK_MIN_LEN: usize = 64;

pub const JUNK_MAX_LEN: usize = 1024;

/// The fewest and the most decoys ahead of one handshake.
pub const JUNK_BURST_MIN: u64 = 3;

pub const JUNK_BURST_MAX: u64 = 12;

/// The number of decoys that a draw selects.
pub open spec fn burst_of(draw: u64) -> int {
    JUNK_BURST_MIN + draw % 10
}

/// The length of a decoy's body that a draw selects.
pub open spec fn junk_len_of(draw: u64) -> int {
    JUNK_MIN_LEN + draw % 961
}

/// The number of decoys that a draw selects, out of the ten that are allowed.
pub fn junk_burst_len(draw: u64) -> (n: u64)
    ensures
        n == burst_of(draw),
        JUNK_BURST_MIN <= n <= JUNK_BURST_MAX,
{
    JUNK_BURST_MIN + draw % 10
}

/// The length of a decoy's body that a draw selects, out of the 961 that are allowed.
pub fn junk_body_len(draw: u64) -> (n: usize)
    ensures
        n == junk_len_of(draw),
        JUNK_MIN_LEN <= n <= JUNK_MAX_LEN,
{
    JUNK_MIN_LEN + (draw % 961) as usize
}

/// Whether a body has the length of a decoy's.
pub open spec fn junk_sized(body: Seq<u8>) -> bool {
    JUNK_MIN_LEN <= body.len() <= JUNK_MAX_LEN
}

/// The bodies of the decoys ahead of one handshake: as many, and as long, as the
/// limits allow.
#[derive(Debug)]
pub struct Decoys {
    bodies: Vec<Vec<u8>>,
}

impl View for Decoys {
    type V = Seq<Seq<u8>>;

    closed spec fn view(&self) -> Seq<Seq<u8>> {
        contents(self.bodies@)
    }
}

impl Decoys {
    /// Whether bodies are within the limits.
    pub open spec fn allowed(bodies: Seq<Seq<u8>>) -> bool {
        &&& JUNK_BURST_MIN <= bodies.len() <= JUNK_BURST_MAX
        &&& forall|i: int| 0 <= i < bodies.len() ==> junk_sized(#[trigger] bodies[i])
    }

    #[verifier::type_invariant]
    spec fn within_limits(self) -> bool {
        Decoys::allowed(self@)
    }

    /// Takes bodies that are within the limits.
    pub fn new(bodies: Vec<Vec<u8>>) -> (r: Option<Decoys>)
        ensures
            match r {
                Some(d) => Decoys::allowed(contents(bodies@)) && d@ == contents(bodies@),
                None => !Decoys::allowed(contents(bodies@)),
            },
    {
        let n: usize = bodies.len();
        if (n as u64) < JUNK_BURST_MIN || n as u64 > JUNK_BURST_MAX {
            return None;
        }
        let mut i: usize = 0;
        while i < n
            invariant
                n == bodies@.len(),
                i <= n,
                forall|j: int|
                    0 <= j < i ==> junk_sized(#[trigger] contents(bodies@)[j]),
            decreases n - i,
        {
            let len: usize = bodies[i].len();
            if len < JUNK_MIN_LEN || len > JUNK_MAX_LEN {
                assert(!junk_sized(contents(bodies@)[i as int]));
                return None;
            }
            i = i + 1;
        }
        Some(Decoys { bodies })
    }

    /// How many decoys there are; they are within the limits.
    pub fn len(&self) -> (n: usize)
        ensures
            n == self@.len(),
            Decoys::allowed(self@),
    {
        proof {
            use_type_invariant(self);
        }
        self.bodies.len()
    }

    /// The body of decoy `i`.
    pub fn body(&self, i: usize) -> (b: Vec<u8>)
        requires
            i < self@.len(),
        ensures
            b@ == self@[i as int],
    {
        copied(&self.bodies[i])
    }
}

/// How much padding fits beside a body: what the budget leaves after the body and the
/// envelope.
pub open spec fn room(codes: WireCodes, body_len: int) -> int {
    if body_len + codes.min_envelope <= OBF_MTU_BUDGET {
        OBF_MTU_BUDGET - body_len - codes.min_envelope
    } else {
        0
    }
}

/// The most padding of a datagram with packet type `ptype` and `dg_len` bytes, its type
/// byte counted: handshakes are filled up, everything else is padded modestly.
pub open spec fn pad_limit(codes: WireCodes, ptype: u8, dg_len: int) -> int {
    let space = room(
        codes,
        if dg_len > 0 {
            dg_len - 1
        } else {
            0
        },
    );
    if codes.is_handshake_spec(ptype) || space < OBF_DATA_PAD_MAX {
        space
    } else {
        OBF_DATA_PAD_MAX as int
    }
}

/// The most padding of a datagram with packet type `ptype` and `dg_len` bytes.
pub fn obf_pad_max(codes: &WireCodes, ptype: u8, dg_len: usize) -> (max: usize)
    ensures
        max == pad_limit(*codes, ptype, dg_len as int),
{
    let body_len: usize = dg_len.saturating_sub(1);
    let space: usize = OBF_MTU_BUDGET.saturating_sub(body_len.saturating_add(codes.min_envelope));
    if codes.is_handshake(ptype) || space < OBF_DATA_PAD_MAX {
        space
    } else {
        OBF_DATA_PAD_MAX
    }
}

/// Padding never takes an envelope over the budget: one whose body fits the budget fits
/// it with all the padding that is allowed, and one whose body does not is not padded.
pub proof fn law_padding_within_budget(codes: WireCodes, ptype: u8, dg_len: int, pad: int)
    requires
        1 <= dg_len,
        0 <= pad <= pad_limit(codes, ptype, dg_len),
    ensures
        dg_len - 1 + codes.min_envelope <= OBF_MTU_BUDGET ==> dg_len - 1 + codes.min_envelope + pad
            <= OBF_MTU_BUDGET,
        dg_len - 1 + codes.min_envelope > OBF_MTU_BUDGET ==> pad == 0,
        !codes.is_handshake_spec(ptype) ==> pad <= OBF_DATA_PAD_MAX,
{
}

/// A key to try on an obfuscated datagram, and whether it is a session's.
#[derive(Clone, Copy, Debug)]
pub struct Trial {
    pub key: [u8; 16],
    pub session: bool,
}

/// What is to be done with an obfuscated datagram.
#[derive(Debug)]
pub enum DeobfStep {
    /// Try the key.
    Try([u8; 16]),
    /// Drop the datagram.
    Drop,
    /// Go on with the datagram that was inside.
    Deliver(Vec<u8>),
}

/// What a [`DeobfStep`] says.
#[verifier::ext_equal]
pub enum DeobfView {
    Try([u8; 16]),
    Drop,
    Deliver(Seq<u8>),
}

impl View for DeobfStep {
    type V = DeobfView;

    open spec fn view(&self) -> DeobfView {
        match *self {
            DeobfStep::Try(k) => DeobfView::Try(k),
            DeobfStep::Drop => DeobfView::Drop,
            DeobfStep::Deliver(b) => DeobfView::Deliver(b@),
        }
    }
}

/// What a key made of a datagram: a packet type and a body, or nothing.
pub type Unmasked = Option<(u8, Vec<u8>)>;

/// The peer has a session with an obfuscation key and is at `addr`.
pub open spec fn keyed_at<S, H>(addr: SockAddr) -> spec_fn(PeerView<S, H>) -> bool {
    |p: PeerView<S, H>|
        p.endpoint == Some(addr) && p.state is Established && p.session_obf_key is Some
}

/// How to wrap a datagram.
#[derive(Clone, Copy, Debug)]
pub enum ObfPlan {
    /// Send it as it is.
    Keep,
    /// Wrap what follows the first `skip` bytes under `key`, as packet type `ptype`, with
    /// up to `pad_max` bytes of padding.
    Wrap { key: [u8; 16], ptype: u8, skip: usize, pad_max: usize },
}

/// What goes out for a datagram.
pub open spec fn goes_out(plan: ObfPlan, plain: Vec<u8>, envelope: Option<Vec<u8>>) -> Option<
    Vec<u8>,
> {
    match plan {
        ObfPlan::Keep => Some(plain),
        ObfPlan::Wrap { .. } => envelope,
    }
}

/// What goes out for a datagram: itself, or its envelope where it is to have one. Where
/// the envelope could not be made nothing goes out.
pub fn enveloped(plan: &ObfPlan, plain: Vec<u8>, envelope: Option<Vec<u8>>) -> (r: Option<Vec<u8>>)
    ensures
        r == goes_out(*plan, plain, envelope),
{
    match plan {
        ObfPlan::Keep => Some(plain),
        ObfPlan::Wrap { .. } => envelope,
    }
}

/// Where a datagram belongs.
#[derive(Clone, Copy, Debug, PartialEq, Eq, Structural)]
pub enum UdpKind {
    Drop,
    /// A message from the server.
    Server,
    Init,
    Resp,
    Gossip,
    Data,
}

/// How a datagram is unwrapped.
#[derive(Clone, Copy, Debug)]
pub enum Unwrap {
    /// Not at all: obfuscation is off.
    Plain,
    Drop,
    /// As a message from the server, under the key.
    Server([u8; 16]),
    /// By trying keys.
    Trials,
}

impl<S, H> ManagerView<S, H> {
    /// The obfuscation keys of the sessions among the first `n` peers.
    pub open spec fn live_keys(self, n: nat) -> Seq<Trial>
        decreases n,
    {
        if n == 0 {
            Seq::empty()
        } else {
            let t = self.live_keys((n - 1) as nat);
            let p = self.peers[n - 1];
            match p.session_obf_key {
                Some(key) if p.state is Established => t.push(Trial { key, session: true }),
                _ => t,
            }
        }
    }

    /// The session key of the first peer at `addr` that has one.
    pub open spec fn key_at(self, addr: SockAddr) -> Option<[u8; 16]> {
        match first_where(self.peers, keyed_at(addr), 0) {
            Some(i) => self.peers[i].session_obf_key,
            None => None,
        }
    }

    /// The keys to try on a datagram from `src`, in their order: the session at that
    /// address, then every session, as its peer may have moved, then the network's.
    pub open spec fn trials(self, src: SockAddr) -> Seq<Trial> {
        let first = match self.key_at(src) {
            Some(key) => seq![Trial { key, session: true }],
            None => Seq::empty(),
        };
        let last = match self.obf_key {
            Some(key) => seq![Trial { key, session: false }],
            None => Seq::empty(),
        };
        first + self.live_keys(self.peers.len()) + last
    }

    /// Whether a key of its kind may carry a packet type: a session's what travels inside
    /// sessions, the network's handshakes.
    pub open spec fn trial_accepts(self, t: Trial, ptype: u8) -> bool {
        if t.session {
            self.codes.is_session_spec(ptype)
        } else {
            self.codes.is_handshake_spec(ptype)
        }
    }

    /// What is to be done with a datagram after the first trials gave `answers`, from
    /// trial `k` on. A decoy is dropped at once; what a key may not carry is as good as
    /// nothing.
    pub open spec fn deobf(self, ts: Seq<Trial>, answers: Seq<Unmasked>, k: int) -> DeobfView
        decreases ts.len() - k,
    {
        if k < 0 || k >= ts.len() {
            DeobfView::Drop
        } else if k >= answers.len() {
            DeobfView::Try(ts[k].key)
        } else {
            match answers[k] {
                Some((ptype, body)) => if ptype == self.codes.junk {
                    DeobfView::Drop
                } else if self.trial_accepts(ts[k], ptype) {
                    DeobfView::Deliver(seq![ptype] + body@)
                } else {
                    self.deobf(ts, answers, k + 1)
                },
                None => self.deobf(ts, answers, k + 1),
            }
        }
    }

    /// The key that wraps a datagram to `dst`: the network's for handshakes, else that of
    /// the session there, or the network's where there is none.
    pub open spec fn egress_key(self, dst: SockAddr, ptype: u8) -> Option<[u8; 16]> {
        if self.codes.is_handshake_spec(ptype) {
            self.obf_key
        } else {
            match self.key_at(dst) {
                Some(key) => Some(key),
                None => self.obf_key,
            }
        }
    }

    /// Whether `addr` is the server's.
    pub open spec fn is_server(self, addr: SockAddr) -> bool {
        self.rendezvous matches Some(r) && r.server == addr
    }

    /// How a datagram to `dst` is wrapped. What goes to the server is wrapped whole.
    pub open spec fn obf_plan(self, dst: SockAddr, bytes: Seq<u8>) -> ObfPlan {
        if bytes.len() == 0 {
            ObfPlan::Keep
        } else if self.is_server(dst) {
            match self.obf_key {
                Some(key) => ObfPlan::Wrap {
                    key,
                    ptype: self.codes.rdv,
                    skip: 0,
                    pad_max: pad_limit(
                        self.codes,
                        self.codes.rdv,
                        (bytes.len() + 1) as int,
                    ) as usize,
                },
                None => ObfPlan::Keep,
            }
        } else {
            match self.egress_key(dst, bytes[0]) {
                Some(key) => ObfPlan::Wrap {
                    key,
                    ptype: bytes[0],
                    skip: 1,
                    pad_max: pad_limit(self.codes, bytes[0], bytes.len() as int) as usize,
                },
                None => ObfPlan::Keep,
            }
        }
    }

    /// Where a plain datagram from `src` belongs.
    pub open spec fn udp_kind(self, src: SockAddr, dg: Seq<u8>) -> UdpKind {
        if dg.len() == 0 {
            UdpKind::Drop
        } else if self.is_server(src) {
            UdpKind::Server
        } else if dg[0] == self.codes.init {
            UdpKind::Init
        } else if dg[0] == self.codes.resp {
            UdpKind::Resp
        } else if self.roots is Some && dg[0] == self.codes.gossip {
            UdpKind::Gossip
        } else {
            UdpKind::Data
        }
    }

    /// The message of an obfuscated datagram from the server, given what the network's key
    /// made of it.
    pub open spec fn message_in(self, answer: Unmasked) -> Option<Seq<u8>> {
        match answer {
            Some((ptype, body)) if ptype == self.codes.rdv => Some(body@),
            _ => None,
        }
    }

    /// How a datagram from `src` is unwrapped.
    pub open spec fn unwrap_plan(self, src: SockAddr, dg: Seq<u8>) -> Unwrap {
        match self.obf_key {
            None => Unwrap::Plain,
            Some(key) => if dg.len() == 0 {
                Unwrap::Drop
            } else if self.is_server(src) {
                Unwrap::Server(key)
            } else {
                Unwrap::Trials
            },
        }
    }
}

impl<R: Rendezvous, S, H> PeerManager<R, S, H> {
    /// Whether `addr` is the server's.
    fn is_server(&self, addr: SockAddr) -> (r: bool)
        ensures
            r == self@.is_server(addr),
    {
        match &self.rendezvous {
            Some(r) => r.server_addr() == addr,
            None => false,
        }
    }

    /// The session key of the first peer at `addr` that has one.
    pub fn key_at(&self, addr: SockAddr) -> (r: Option<[u8; 16]>)
        ensures
            r == self@.key_at(addr),
    {
        let ghost p = keyed_at::<S, H>(addr);
        let mut i: usize = 0;
        while i < self.peers.len()
            invariant
                i <= self.peers@.len(),
                p == keyed_at::<S, H>(addr),
                forall|j: int| 0 <= j < i ==> !p(#[trigger] self@.peers[j]),
            decreases self.peers@.len() - i,
        {
            let peer = &self.peers[i];
            assert(self@.peers[i as int] == peer@);
            if is_addr(peer.endpoint, addr) && peer.is_established()
                && peer.session_obf_key.is_some() {
                proof {
                    lemma_first_where(self@.peers, p, 0, i as int);
                }
                return peer.session_obf_key;
            }
            i = i + 1;
        }
        proof {
            lemma_first_where(self@.peers, p, 0, i as int);
        }
        None
    }

    /// The keys to try on a datagram from `src`, in their order.
    pub fn trials(&self, src: SockAddr) -> (ts: Vec<Trial>)
        ensures
            ts@ == self@.trials(src),
    {
        let mut ts: Vec<Trial> = Vec::new();
        if let Some(key) = self.key_at(src) {
            ts.push(Trial { key, session: true });
        }
        let ghost first = ts@;
        let mut i: usize = 0;
        assert(ts@ =~= first + self@.live_keys(0));
        while i < self.peers.len()
            invariant
                i <= self.peers@.len(),
                ts@ == first + self@.live_keys(i as nat),
            decreases self.peers@.len() - i,
        {
            let peer = &self.peers[i];
            assert(self@.peers[i as int] == peer@);
            if peer.is_established() {
                if let Some(key) = peer.session_obf_key {
                    ts.push(Trial { key, session: true });
                }
            }
            i = i + 1;
            assert(ts@ =~= first + self@.live_keys(i as nat));
        }
        if let Some(key) = self.obf_key {
            ts.push(Trial { key, session: false });
        }
        assert(ts@ =~= self@.trials(src));
        ts
    }

    /// Says what to do with an obfuscated datagram from `src`, given what the keys that
    /// were tried so far, in the order in which this function named them, made of it.
    pub fn deobf_ingress(&self, src: SockAddr, answers: &[Unmasked]) -> (r: DeobfStep)
        ensures
            r@ == self@.deobf(self@.trials(src), answers@, 0),
    {
        let ts: Vec<Trial> = self.trials(src);
        let mut k: usize = 0;
        while k < ts.len()
            invariant
                k <= ts@.len(),
                ts@ == self@.trials(src),
                self@.deobf(self@.trials(src), answers@, 0) == self@.deobf(
                    self@.trials(src),
                    answers@,
                    k as int,
                ),
            decreases ts@.len() - k,
        {
            if k >= answers.len() {
                return DeobfStep::Try(ts[k].key);
            }
            match &answers[k] {
                Some((ptype, body)) => {
                    if *ptype == self.codes.junk {
                        return DeobfStep::Drop;
                    }
                    let fits: bool = if ts[k].session {
                        self.codes.is_session(*ptype)
                    } else {
                        self.codes.is_handshake(*ptype)
                    };
                    if fits {
                        return DeobfStep::Deliver(reassemble(*ptype, body));
                    }
                },
                None => {},
            }
            k = k + 1;
        }
        DeobfStep::Drop
    }

    /// The key that wraps a datagram to `dst`.
    pub fn obf_key_for_egress(&self, dst: SockAddr, ptype: u8) -> (r: Option<[u8; 16]>)
        ensures
            r == self@.egress_key(dst, ptype),
    {
        if self.codes.is_handshake(ptype) {
            return self.obf_key;
        }
        match self.key_at(dst) {
            Some(key) => Some(key),
            None => self.obf_key,
        }
    }

    /// How a datagram to `dst` is wrapped.
    pub fn obf_egress(&self, dst: SockAddr, bytes: &[u8]) -> (plan: ObfPlan)
        ensures
            plan == self@.obf_plan(dst, bytes@),
    {
        if bytes.len() == 0 {
            return ObfPlan::Keep;
        }
        if self.is_server(dst) {
            return match self.obf_key {
                Some(key) => ObfPlan::Wrap {
                    key,
                    ptype: self.codes.rdv,
                    skip: 0,
                    pad_max: obf_pad_max(&self.codes, self.codes.rdv, bytes.len().saturating_add(1)),
                },
                None => ObfPlan::Keep,
            };
        }
        match self.obf_key_for_egress(dst, bytes[0]) {
            Some(key) => ObfPlan::Wrap {
                key,
                ptype: bytes[0],
                skip: 1,
                pad_max: obf_pad_max(&self.codes, bytes[0], bytes.len()),
            },
            None => ObfPlan::Keep,
        }
    }

    /// Where a plain datagram from `src` belongs.
    pub fn on_udp_dispatch(&self, src: SockAddr, dg: &[u8]) -> (k: UdpKind)
        ensures
            k == self@.udp_kind(src, dg@),
    {
        if dg.len() == 0 {
            UdpKind::Drop
        } else if self.is_server(src) {
            UdpKind::Server
        } else if dg[0] == self.codes.init {
            UdpKind::Init
        } else if dg[0] == self.codes.resp {
            UdpKind::Resp
        } else if self.roots.is_some() && dg[0] == self.codes.gossip {
            UdpKind::Gossip
        } else {
            UdpKind::Data
        }
    }

    /// How a datagram from `src` is unwrapped.
    pub fn on_udp(&self, src: SockAddr, dg: &[u8]) -> (u: Unwrap)
        ensures
            u == self@.unwrap_plan(src, dg@),
    {
        match self.obf_key {
            None => Unwrap::Plain,
            Some(key) => if dg.len() == 0 {
                Unwrap::Drop
            } else if self.is_server(src) {
                Unwrap::Server(key)
            } else {
                Unwrap::Trials
            },
        }
    }

    /// The message of an obfuscated datagram from the server, given what the network's
    /// key made of it; nothing where it is not marked as one.
    pub fn server_message(&self, answer: Unmasked) -> (r: Option<Vec<u8>>)
        ensures
            self@.message_in(answer) == (match r {
                Some(b) => Some(b@),
                None => None,
            }),
    {
        match answer {
            Some((ptype, body)) => if ptype == self.codes.rdv {
                Some(body)
            } else {
                None
            },
            None => None,
        }
    }

    /// A decoy datagram with a random body.
    pub fn build_junk(&self, body: &[u8]) -> (dg: Vec<u8>)
        requires
            junk_sized(body@),
        ensures
            dg@ == seq![self@.codes.junk] + body@,
    {
        reassemble(self.codes.junk, body)
    }
}

} // verus!
