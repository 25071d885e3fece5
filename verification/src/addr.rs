//! Socket addresses as plain values.

use vstd::prelude::*;

verus! {

/// An address to send datagrams to, or that one came from.
#[allow(inconsistent_fields)]
#[derive(Clone, Copy, Debug, PartialEq, Eq, Structural)]
pub enum SockAddr {
    V4 { ip: u32, port: u16 },
    V6 { ip: u128, port: u16, flowinfo: u32, scope_id: u32 },
}

impl SockAddr {
    /// The address 0.0.0.0 with port 0.
    pub open spec fn unspecified_spec() -> SockAddr {
        SockAddr::V4 { ip: 0, port: 0 }
    }

    /// The address 0.0.0.0 with port 0.
    pub fn unspecified() -> (a: SockAddr)
        ensures
            a == SockAddr::unspecified_spec(),
    {
        SockAddr::V4 { ip: 0, port: 0 }
    }

    /// The same host with another port, as a socket address of its own: the flow label and
    /// the scope of an IPv6 address are not carried over.
    pub open spec fn with_port_spec(self, port: u16) -> SockAddr {
        match self {
            SockAddr::V4 { ip, .. } => SockAddr::V4 { ip, port },
            SockAddr::V6 { ip, .. } => SockAddr::V6 { ip, port, flowinfo: 0, scope_id: 0 },
        }
    }

    /// The same host with another port.
    pub fn with_port(self, port: u16) -> (a: SockAddr)
        ensures
            a == self.with_port_spec(port),
    {
        match self {
            SockAddr::V4 { ip, .. } => SockAddr::V4 { ip, port },
            SockAddr::V6 { ip, .. } => SockAddr::V6 { ip, port, flowinfo: 0, scope_id: 0 },
        }
    }
}

/// Whether `a` holds exactly the address `b`.
pub fn is_addr(a: Option<SockAddr>, b: SockAddr) -> (r: bool)
    ensures
        r == (a == Some(b)),
{
    match a {
        Some(x) => x == b,
        None => false,
    }
}

/// An address with another port is on the same host and has that port; what else an IPv6
/// address holds is unset.
pub proof fn law_other_port_same_host(a: SockAddr, port: u16)
    ensures
        ({
            let b = a.with_port_spec(port);
            &&& a is V4 ==> b is V4 && b->V4_ip == a->V4_ip && b->V4_port == port
            &&& a is V6 ==> b is V6 && b->V6_ip == a->V6_ip && b->V6_port == port
                && b->V6_flowinfo == 0 && b->V6_scope_id == 0
        }),
{
}

} // verus!
