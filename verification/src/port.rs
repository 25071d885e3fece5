//! Which port to listen on.

use vstd::prelude::*;

use crate::addr::SockAddr;

verus! {

/// The port to listen on when the preferred one may not be bound.
pub const FALLBACK_LISTEN_PORT: u16 = 8443;

/// How binding a socket went.
#[derive(Clone, Copy, Debug, PartialEq, Eq, Structural)]
pub enum BindOutcome {
    Bound,
    PermissionDenied,
    Failed,
}

/// What to do after binding a socket.
#[derive(Clone, Copy, Debug, PartialEq, Eq, Structural)]
pub enum BindStep {
    /// Use the socket.
    Use,
    /// Warn, and bind the address instead; that attempt is the last.
    Fallback(SockAddr),
    /// Report the error.
    Fail,
}

/// The address to fall back to.
pub fn fallback_addr(addr: SockAddr) -> (a: SockAddr)
    ensures
        a == addr.with_port_spec(FALLBACK_LISTEN_PORT),
{
    addr.with_port(FALLBACK_LISTEN_PORT)
}

/// What to do after an attempt to bind `addr`.
pub open spec fn after_bind(addr: SockAddr, port_auto: bool, outcome: BindOutcome) -> BindStep {
    match outcome {
        BindOutcome::Bound => BindStep::Use,
        BindOutcome::PermissionDenied if port_auto => BindStep::Fallback(
            addr.with_port_spec(FALLBACK_LISTEN_PORT),
        ),
        _ => BindStep::Fail,
    }
}

/// What to do after an attempt to bind `addr`: only a port that was chosen automatically
/// is given up for the fallback, and only where permission is missing.
pub fn bind_step(addr: SockAddr, port_auto: bool, outcome: BindOutcome) -> (s: BindStep)
    ensures
        s == after_bind(addr, port_auto, outcome),
{
    match outcome {
        BindOutcome::Bound => BindStep::Use,
        BindOutcome::PermissionDenied => if port_auto {
            BindStep::Fallback(fallback_addr(addr))
        } else {
            BindStep::Fail
        },
        BindOutcome::Failed => BindStep::Fail,
    }
}

/// A socket that was bound is used. Another port, 8443 on the same host, is tried exactly
/// where permission is missing for a port that nobody asked for; every other failure is
/// reported, and so is one of the other port.
pub proof fn law_fallback_is_for_missing_permission(
    addr: SockAddr,
    port_auto: bool,
    outcome: BindOutcome,
)
    ensures
        ({
            let s = after_bind(addr, port_auto, outcome);
            &&& s is Use <==> outcome is Bound
            &&& s is Fallback <==> outcome is PermissionDenied && port_auto
            &&& s is Fallback && addr is V4 ==> s->Fallback_0 == (SockAddr::V4 {
                ip: addr->V4_ip,
                port: 8443,
            })
            &&& s is Fallback && addr is V6 ==> s->Fallback_0 is V6 && s->Fallback_0->V6_ip
                == addr->V6_ip && s->Fallback_0->V6_port == 8443
            &&& after_bind(addr, false, outcome) !is Fallback
        }),
{
}

} // verus!
