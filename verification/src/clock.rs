//! Wall-clock readings.

use vstd::prelude::*;

verus! {

/// The time since the Unix epoch by the system clock, as whole seconds and the
/// nanoseconds beyond them.
///
/// Calls `std::time::SystemTime::elapsed` on `UNIX_EPOCH`, which fails when the
/// system clock reads a time before the epoch. The nanoseconds of a `Duration`
/// are below one second; nothing else is claimed of the reading.
#[verifier::external_body]
fn since_epoch() -> (r: Option<(u64, u32)>)
    ensures
        r matches Some(t) ==> t.1 < 1_000_000_000,
{
    std::time::UNIX_EPOCH.elapsed().ok().map(|d| (d.as_secs(), d.subsec_nanos()))
}

/// A reading in whole seconds.
pub open spec fn whole_secs(reading: Option<(u64, u32)>) -> int {
    match reading {
        Some(t) => t.0 as int,
        None => 0,
    }
}

/// A reading in whole milliseconds: as many as fit.
pub open spec fn whole_millis(reading: Option<(u64, u32)>) -> int {
    match reading {
        Some(t) => {
            let full = t.0 as int * 1000 + t.1 as int / 1_000_000;
            if full <= u64::MAX {
                full
            } else {
                u64::MAX as int
            }
        },
        None => 0,
    }
}

/// A reading in whole seconds; zero where the clock reads a time before the epoch.
pub fn secs_or_zero(reading: Option<(u64, u32)>) -> (s: u64)
    ensures
        s == whole_secs(reading),
{
    match reading {
        Some(t) => t.0,
        None => 0,
    }
}

/// A reading in whole milliseconds; zero where the clock reads a time before the
/// epoch, and the largest value where the milliseconds do not fit.
pub fn millis_or_zero(reading: Option<(u64, u32)>) -> (ms: u64)
    ensures
        ms == whole_millis(reading),
{
    match reading {
        Some(t) => {
            let full: u128 = t.0 as u128 * 1000 + (t.1 / 1_000_000) as u128;
            if full <= u64::MAX as u128 {
                full as u64
            } else {
                u64::MAX
            }
        },
        None => 0,
    }
}

/// Wall-clock seconds since the Unix epoch, for the validity of certificates. Never
/// to be compared with the monotonic milliseconds that drive the timers. Which time it is
/// rests on the clock ([`secs_or_zero`]).
pub fn now_secs() -> (s: u64) {
    secs_or_zero(since_epoch())
}

/// Wall-clock milliseconds since the Unix epoch. Which time it is rests on the clock
/// ([`millis_or_zero`]).
pub fn now_wall_clock_ms() -> (ms: u64) {
    millis_or_zero(since_epoch())
}

/// A reading in milliseconds, and one in seconds, is the last whole one before the time that
/// was read, to the nanosecond; a later time gives no earlier reading.
pub proof fn law_millis_of_a_reading(s: u64, ns: u32, later: (u64, u32))
    requires
        ns < 1_000_000_000,
        later.1 < 1_000_000_000,
    ensures
        ({
            let ms = whole_millis(Some((s, ns)));
            let time = s * 1_000_000_000 + ns;
            &&& ms < u64::MAX ==> ms * 1_000_000 <= time < (ms + 1) * 1_000_000
            &&& ms <= u64::MAX
            &&& ms * 1_000_000 <= time
            &&& whole_secs(Some((s, ns))) * 1_000_000_000 <= time
            &&& time < (whole_secs(Some((s, ns))) + 1) * 1_000_000_000
            &&& time <= later.0 * 1_000_000_000 + later.1 ==> ms <= whole_millis(Some(later))
        }),
{
}

} // verus!
