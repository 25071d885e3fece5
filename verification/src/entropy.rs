//! Random padding lengths and jittered intervals.

use vstd::prelude::*;

verus! {

/// The system's source of random bytes failed.
#[derive(Clone, Copy, Debug, PartialEq, Eq, Structural)]
pub struct NoEntropy;

/// Eight random bytes from the operating system, as a number.
///
/// Calls `getrandom::getrandom` on eight bytes. The bytes rest on chance, and
/// whether the source answers rests on the machine: nothing is claimed of either.
#[verifier::external_body]
fn os_random() -> Option<u64> {
    let mut b = [0u8; 8];
    getrandom::getrandom(&mut b).ok().map(|_| u64::from_le_bytes(b))
}

/// The draw that the system's source of random bytes gave, or its failure.
pub open spec fn drawn(answer: Option<u64>) -> Result<u64, NoEntropy> {
    match answer {
        Some(v) => Ok(v),
        None => Err(NoEntropy),
    }
}

/// What a draw comes to that `f` takes, or the draw's failure.
pub open spec fn from_draw(f: spec_fn(int) -> int, draw: Result<u64, NoEntropy>) -> Result<
    int,
    NoEntropy,
> {
    match draw {
        Ok(v) => Ok(f(v as int)),
        Err(e) => Err(e),
    }
}

/// A failure of the source is a failure of all that rests on it, and is never made up for;
/// and where the source answered, its answer is what is used.
pub proof fn law_failure_is_passed_on(answer: Option<u64>, f: spec_fn(int) -> int)
    ensures
        from_draw(f, drawn(answer)) is Err <==> answer is None,
        answer is Some ==> from_draw(f, drawn(answer)) == Ok::<int, NoEntropy>(
            f(answer->0 as int),
        ),
{
}

/// The draw that the system's source of random bytes gave, or its failure.
pub fn draw_from(answer: Option<u64>) -> (r: Result<u64, NoEntropy>)
    ensures
        r == drawn(answer),
{
    match answer {
        Some(v) => Ok(v),
        None => Err(NoEntropy),
    }
}

/// A random draw, for the functions that take one. Which number it is rests on chance, and
/// whether there is one on the machine.
pub fn random_draw() -> (r: Result<u64, NoEntropy>) {
    draw_from(os_random())
}

/// The padding length that a draw selects out of `0..=max`. A span of more values
/// than a draw can tell apart is cut to the largest draw.
pub open spec fn pad_of(max: int, draw: int) -> int {
    if max < u64::MAX {
        draw % (max + 1)
    } else {
        draw % (u64::MAX as int)
    }
}

/// The padding length that a draw selects out of `0..=max`.
pub fn pad_from_draw(max: usize, draw: u64) -> (pad: usize)
    ensures
        pad == pad_of(max as int, draw as int),
        pad <= max,
{
    let span: u64 = if max as u64 == u64::MAX {
        u64::MAX
    } else {
        max as u64 + 1
    };
    (draw % span) as usize
}

/// The padding length in `0..=max` that a draw selects, or the draw's failure.
pub fn pad_drawn(max: usize, draw: Result<u64, NoEntropy>) -> (r: Result<usize, NoEntropy>)
    ensures
        match draw {
            Ok(v) => r matches Ok(pad) && pad == pad_of(max as int, v as int),
            Err(e) => r == Err::<usize, NoEntropy>(e),
        },
        from_draw(|v: int| pad_of(max as int, v), draw) == (match r {
            Ok(pad) => Ok(pad as int),
            Err(e) => Err(e),
        }),
{
    match draw {
        Ok(v) => Ok(pad_from_draw(max, v)),
        Err(e) => Err(e),
    }
}

/// A random padding length in `0..=max`, less the one value beyond what a draw can tell
/// apart; zero draws nothing. Which of them it is rests on the draw ([`pad_drawn`]).
pub fn random_pad(max: usize) -> (r: Result<usize, NoEntropy>)
    ensures
        max == 0 ==> r == Ok::<usize, NoEntropy>(0),
        r matches Ok(pad) ==> pad <= max && pad < u64::MAX,
{
    if max == 0 {
        return Ok(0);
    }
    pad_drawn(max, random_draw())
}

/// How far an interval may move either way: a quarter of it.
pub open spec fn spread(base: int) -> int {
    base / 4
}

/// The interval that a draw selects within a quarter of `base` either way.
pub open spec fn jittered(base: int, draw: int) -> int {
    if spread(base) == 0 {
        base
    } else {
        base - spread(base) + draw % (2 * spread(base) + 1)
    }
}

/// The interval that a draw selects within a quarter of `base` either way.
pub fn jitter_from_draw(base: u64, draw: u64) -> (ms: u64)
    requires
        base + base / 4 <= u64::MAX,
    ensures
        ms == jittered(base as int, draw as int),
        base - base / 4 <= ms <= base + base / 4,
{
    let s: u64 = base / 4;
    if s == 0 {
        return base;
    }
    (base - s) + draw % (2 * s + 1)
}

/// The interval within a quarter of `base` either way that a draw selects, or the draw's
/// failure.
pub fn jitter_drawn(base: u64, draw: Result<u64, NoEntropy>) -> (r: Result<u64, NoEntropy>)
    requires
        base + base / 4 <= u64::MAX,
    ensures
        match draw {
            Ok(v) => r matches Ok(ms) && ms == jittered(base as int, v as int),
            Err(e) => r == Err::<u64, NoEntropy>(e),
        },
        from_draw(|v: int| jittered(base as int, v), draw) == (match r {
            Ok(ms) => Ok(ms as int),
            Err(e) => Err(e),
        }),
        r matches Ok(ms) ==> base - base / 4 <= ms <= base + base / 4,
{
    match draw {
        Ok(v) => Ok(jitter_from_draw(base, v)),
        Err(e) => Err(e),
    }
}

/// A random interval within a quarter of `base` either way. An interval below four
/// milliseconds stays as it is and draws nothing. Which one it is rests on the draw
/// ([`jitter_drawn`]).
pub fn jitter_ms(base: u64) -> (r: Result<u64, NoEntropy>)
    requires
        base + base / 4 <= u64::MAX,
    ensures
        base < 4 ==> r == Ok::<u64, NoEntropy>(base),
        r matches Ok(ms) ==> base - base / 4 <= ms <= base + base / 4,
{
    if base < 4 {
        return Ok(base);
    }
    jitter_drawn(base, random_draw())
}

/// A draw selects a padding length within the limit, and some draw selects each of them, but
/// for one that no draw reaches.
pub proof fn law_every_pad_can_be_drawn(max: int, draw: int, pad: int)
    requires
        0 <= max <= u64::MAX,
        0 <= draw,
        0 <= pad <= max,
        pad < u64::MAX,
    ensures
        0 <= pad_of(max, draw) <= max,
        pad_of(max, pad) == pad,
{
    let most = u64::MAX as int;
    assert(0 <= draw % most < most) by (nonlinear_arith)
        requires
            most > 0,
    ;
    assert(pad % most == pad) by (nonlinear_arith)
        requires
            0 <= pad < most,
    ;
    assert(0 <= draw % (max + 1) < max + 1) by (nonlinear_arith)
        requires
            max >= 0,
    ;
    assert(pad % (max + 1) == pad) by (nonlinear_arith)
        requires
            0 <= pad < max + 1,
    ;
}

/// A draw selects an interval within a quarter of its base either way, and some draw selects
/// each of them; an interval below four milliseconds stays as it is.
pub proof fn law_every_interval_can_be_drawn(base: int, draw: int, ms: int)
    requires
        0 <= base,
        0 <= draw,
        base - base / 4 <= ms <= base + base / 4,
    ensures
        base - base / 4 <= jittered(base, draw) <= base + base / 4,
        jittered(base, ms - (base - base / 4)) == ms,
        base < 4 ==> jittered(base, draw) == base,
{
    let s = base / 4;
    let d = ms - (base - s);
    assert(0 <= draw % (2 * s + 1) < 2 * s + 1) by (nonlinear_arith)
        requires
            s >= 0,
    ;
    assert(d % (2 * s + 1) == d) by (nonlinear_arith)
        requires
            0 <= d < 2 * s + 1,
    ;
}

} // verus!
