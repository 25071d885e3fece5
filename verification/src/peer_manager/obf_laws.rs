//! Which key a datagram is wrapped under, how far it is padded, and where it belongs.

use vstd::prelude::*;

use crate::addr::SockAddr;
use crate::peer_manager::laws::lemma_codes_apart;
use crate::peer_manager::obf::{
    burst_of, goes_out, junk_len_of, junk_sized, keyed_at, pad_limit, Decoys, ObfPlan, Trial,
};
use crate::peer_manager::{lemma_first_where_finds, ManagerView};
use crate::wire::WireCodes;

verus! {

/// The key of a session at an address is that of the first peer there which has one, and it
/// is found if there is one.
pub proof fn law_key_of_an_address<S, H>(m: ManagerView<S, H>, addr: SockAddr, i: int)
    requires
        0 <= i < m.peers.len(),
        m.peers[i].endpoint == Some(addr),
        m.peers[i].state is Established,
        m.peers[i].session_obf_key is Some,
    ensures
        m.key_at(addr) is Some,
        exists|k: int|
            0 <= k <= i && (#[trigger] m.peers[k]).endpoint == Some(addr) && m.peers[k].state
                is Established && m.peers[k].session_obf_key == m.key_at(addr),
        (forall|j: int| 0 <= j < i ==> (#[trigger] m.peers[j]).endpoint != Some(addr))
            ==> m.key_at(addr) == m.peers[i].session_obf_key,
{
    let p = keyed_at::<S, H>(addr);
    assert(p(m.peers[i]));
    lemma_first_where_finds(m.peers, p, 0);
}

/// Where no peer at an address has a session with a key, there is none.
pub proof fn law_no_key_without_a_session<S, H>(m: ManagerView<S, H>, addr: SockAddr)
    requires
        forall|i: int|
            0 <= i < m.peers.len() ==> {
                ||| (#[trigger] m.peers[i]).endpoint != Some(addr)
                ||| m.peers[i].state !is Established
                ||| m.peers[i].session_obf_key is None
            },
    ensures
        m.key_at(addr) is None,
{
    lemma_first_where_finds(m.peers, keyed_at::<S, H>(addr), 0);
}

/// How a datagram is wrapped where obfuscation is on: what goes to the server whole and under
/// the network's key; a handshake under the network's key; anything else under the key of
/// the session at its destination, or the network's where there is none there. Where
/// obfuscation is off what goes to the server, and handshakes, stay as they are.
pub proof fn law_wrapping_key<S, H>(m: ManagerView<S, H>, dst: SockAddr, bytes: Seq<u8>)
    requires
        bytes.len() > 0,
    ensures
        ({
            let plan = m.obf_plan(dst, bytes);
            let to_server = m.rendezvous is Some && m.rendezvous->0.server == dst;
            let handshake = bytes[0] == m.codes.init || bytes[0] == m.codes.resp;
            &&& to_server && m.obf_key is Some ==> {
                &&& plan is Wrap
                &&& Some(plan->Wrap_key) == m.obf_key
                &&& plan->Wrap_ptype == m.codes.rdv
                &&& plan->Wrap_skip == 0
            }
            &&& !to_server && handshake && m.obf_key is Some ==> {
                &&& plan is Wrap
                &&& Some(plan->Wrap_key) == m.obf_key
                &&& plan->Wrap_ptype == bytes[0]
                &&& plan->Wrap_skip == 1
            }
            &&& !to_server && !handshake && m.key_at(dst) is Some ==> {
                &&& plan is Wrap
                &&& Some(plan->Wrap_key) == m.key_at(dst)
                &&& plan->Wrap_ptype == bytes[0]
                &&& plan->Wrap_skip == 1
            }
            &&& !to_server && !handshake && m.key_at(dst) is None && m.obf_key is Some ==> {
                &&& plan is Wrap
                &&& Some(plan->Wrap_key) == m.obf_key
                &&& plan->Wrap_ptype == bytes[0]
                &&& plan->Wrap_skip == 1
            }
            &&& m.obf_key is None && (to_server || handshake || m.key_at(dst) is None)
                ==> plan is Keep
        }),
{
}

/// How far a datagram is padded: a handshake up to the budget of 1200 bytes, anything else by
/// 64 bytes at most and never beyond the budget; one that is over the budget is not padded.
pub proof fn law_padding_room(codes: WireCodes, ptype: u8, dg_len: int)
    requires
        1 <= dg_len,
    ensures
        ({
            let used = dg_len - 1 + codes.min_envelope;
            let limit = pad_limit(codes, ptype, dg_len);
            let handshake = ptype == codes.init || ptype == codes.resp;
            &&& used > 1200 ==> limit == 0
            &&& used <= 1200 && handshake ==> used + limit == 1200
            &&& used <= 1136 && !handshake ==> limit == 64
            &&& 1136 < used <= 1200 && !handshake ==> used + limit == 1200
        }),
{
}

/// A datagram that is wrapped is padded as far as its kind allows: what goes to the server
/// as its whole length says, anything else as the length after its type byte says.
pub proof fn law_wrapping_is_padded<S, H>(m: ManagerView<S, H>, dst: SockAddr, bytes: Seq<u8>)
    requires
        0 < bytes.len() < usize::MAX,
        m.obf_plan(dst, bytes) is Wrap,
    ensures
        ({
            let plan = m.obf_plan(dst, bytes);
            let inside = bytes.len() - plan->Wrap_skip;
            let used = inside + m.codes.min_envelope;
            let handshake = plan->Wrap_ptype == m.codes.init || plan->Wrap_ptype == m.codes.resp;
            &&& used > 1200 ==> plan->Wrap_pad_max == 0
            &&& used <= 1200 && handshake ==> used + plan->Wrap_pad_max == 1200
            &&& used <= 1136 && !handshake ==> plan->Wrap_pad_max == 64
            &&& 1136 < used <= 1200 && !handshake ==> used + plan->Wrap_pad_max == 1200
        }),
{
}

/// Where a plain datagram belongs: with the server, if it came from there; else by its first
/// byte, where gossip counts in a mesh alone, and what is no handshake and no gossip is for a
/// session. An empty one belongs nowhere.
pub proof fn law_datagram_belongs<S, H>(m: ManagerView<S, H>, src: SockAddr, dg: Seq<u8>)
    requires
        m.codes.distinct_spec(),
    ensures
        ({
            let kind = m.udp_kind(src, dg);
            let from_server = m.rendezvous is Some && m.rendezvous->0.server == src;
            let from_peer = dg.len() > 0 && !from_server;
            let gossip = m.roots is Some && dg[0] == m.codes.gossip;
            &&& (kind is Drop) == (dg.len() == 0)
            &&& (kind is Server) == (dg.len() > 0 && from_server)
            &&& (kind is Init) == (from_peer && dg[0] == m.codes.init)
            &&& (kind is Resp) == (from_peer && dg[0] == m.codes.resp)
            &&& (kind is Gossip) == (from_peer && gossip)
            &&& (kind is Data) == (from_peer && dg[0] != m.codes.init && dg[0] != m.codes.resp
                && !gossip)
        }),
{
    lemma_codes_apart(m.codes);
}

/// How a datagram is unwrapped: not at all with obfuscation off; else from the server under
/// the network's key, and from anywhere else by trying keys; an empty one is dropped.
pub proof fn law_unwrapping<S, H>(m: ManagerView<S, H>, src: SockAddr, dg: Seq<u8>)
    ensures
        ({
            let plan = m.unwrap_plan(src, dg);
            let from_server = m.rendezvous is Some && m.rendezvous->0.server == src;
            &&& m.obf_key is None ==> plan is Plain
            &&& m.obf_key is Some && dg.len() == 0 ==> plan is Drop
            &&& m.obf_key is Some && dg.len() > 0 && from_server ==> plan is Server
                && Some(plan->Server_0) == m.obf_key
            &&& m.obf_key is Some && dg.len() > 0 && !from_server ==> plan is Trials
        }),
{
}

/// The keys that are tried on a datagram: that of the session at its source first, the
/// network's last, and between them the key of every session.
pub proof fn law_keys_that_are_tried<S, H>(m: ManagerView<S, H>, src: SockAddr, p: int)
    ensures
        m.key_at(src) is Some ==> m.trials(src).len() > 0 && m.trials(src)[0] == (Trial {
            key: m.key_at(src)->0,
            session: true,
        }),
        m.obf_key is Some ==> m.trials(src).len() > 0 && m.trials(src).last() == (Trial {
            key: m.obf_key->0,
            session: false,
        }),
        0 <= p < m.peers.len() && m.peers[p].state is Established && m.peers[p].session_obf_key
            is Some ==> m.trials(src).contains(
            Trial { key: m.peers[p].session_obf_key->0, session: true },
        ),
{
    let ts = m.trials(src);
    if 0 <= p < m.peers.len() && m.peers[p].state is Established && m.peers[p].session_obf_key
        is Some {
        let t = Trial { key: m.peers[p].session_obf_key->0, session: true };
        lemma_key_is_tried(m, m.peers.len(), p);
        let live = m.live_keys(m.peers.len());
        let k = choose|k: int| 0 <= k < live.len() && live[k] == t;
        let ahead: int = if m.key_at(src) is Some {
            1
        } else {
            0
        };
        assert(ts[ahead + k] == t);
    }
}

proof fn lemma_key_is_tried<S, H>(m: ManagerView<S, H>, n: nat, p: int)
    requires
        0 <= p < n <= m.peers.len(),
        m.peers[p].state is Established,
        m.peers[p].session_obf_key is Some,
    ensures
        m.live_keys(n).contains(Trial { key: m.peers[p].session_obf_key->0, session: true }),
    decreases n,
{
    let t = Trial { key: m.peers[p].session_obf_key->0, session: true };
    let was = m.live_keys((n - 1) as nat);
    let now = m.live_keys(n);
    if p == n - 1 {
        assert(now[now.len() - 1] == t);
    } else {
        lemma_key_is_tried(m, (n - 1) as nat, p);
        let k = choose|k: int| 0 <= k < was.len() && was[k] == t;
        assert(now[k] == t);
    }
}

/// What is to be wrapped never goes out bare: its envelope does, or nothing; and what is to
/// stay as it is goes out as it is.
pub proof fn law_nothing_goes_out_bare(plan: ObfPlan, plain: Vec<u8>, envelope: Option<Vec<u8>>)
    ensures
        plan is Wrap ==> goes_out(plan, plain, envelope) == envelope,
        plan is Keep ==> goes_out(plan, plain, envelope) == Some(plain),
{
}

/// What comes from the server counts only where it is marked as the server's, and then whole.
pub proof fn law_server_messages_are_marked<S, H>(m: ManagerView<S, H>, ptype: u8, body: Vec<u8>)
    ensures
        m.message_in(None) is None,
        ptype != m.codes.rdv ==> m.message_in(Some((ptype, body))) is None,
        ptype == m.codes.rdv ==> m.message_in(Some((ptype, body))) == Some(body@),
{
}

/// What a message to the server is wrapped as is what a message from the server is taken for:
/// two nodes of one network understand each other's messages.
pub proof fn law_server_messages_get_through<S, H>(
    a: ManagerView<S, H>,
    b: ManagerView<S, H>,
    dst: SockAddr,
    bytes: Seq<u8>,
    body: Vec<u8>,
)
    requires
        a.codes == b.codes,
        a.obf_key is Some,
        a.rendezvous is Some,
        a.rendezvous->0.server == dst,
        bytes.len() > 0,
        body@ == bytes,
    ensures
        a.obf_plan(dst, bytes) is Wrap,
        b.message_in(Some((a.obf_plan(dst, bytes)->Wrap_ptype, body))) == Some(
            bytes.skip(a.obf_plan(dst, bytes)->Wrap_skip as int),
        ),
        bytes.skip(a.obf_plan(dst, bytes)->Wrap_skip as int) == bytes,
{
    assert(bytes.skip(0) =~= bytes);
}

/// Three to twelve decoys go ahead of a handshake, each with a body of 64 to 1024 bytes; a
/// draw selects within these limits, and some draw selects each of what they allow.
pub proof fn law_decoys_within_limits(bodies: Seq<Seq<u8>>, draw: u64, n: int, len: int)
    ensures
        Decoys::allowed(bodies) <==> 3 <= bodies.len() <= 12 && forall|i: int|
            0 <= i < bodies.len() ==> 64 <= (#[trigger] bodies[i]).len() <= 1024,
        3 <= burst_of(draw) <= 12,
        64 <= junk_len_of(draw) <= 1024,
        3 <= n <= 12 ==> burst_of((n - 3) as u64) == n,
        64 <= len <= 1024 ==> junk_len_of((len - 64) as u64) == len,
{
    if Decoys::allowed(bodies) {
        assert forall|i: int| 0 <= i < bodies.len() implies 64 <= (#[trigger] bodies[i]).len()
            <= 1024 by {
            assert(junk_sized(bodies[i]));
        }
    }
}

} // verus!
