//! Render-loop timing arithmetic, in microseconds. The loop drives one
//! composite-and-emit cycle per frame interval, sleeping coarsely while
//! more than ~3 ms remain and spinning for the tail; a missed deadline
//! skips to the next tick on the aligned grid instead of bursting.

use vstd::arithmetic::div_mod::{
    lemma_fundamental_div_mod, lemma_mod_add_multiples_vanish, lemma_mod_multiples_basic,
};
use vstd::prelude::*;

verus! {

/// Threshold below which the loop stops sleeping and spins, in microseconds.
pub const SPIN_THRESHOLD_MICROS: u64 = 3000;

/// What the render loop should do right now with respect to its deadline.
#[derive(PartialEq, Eq, Structural, Debug)]
pub enum TickWait {
    /// The deadline has passed: run the next tick.
    Elapsed,
    /// Plenty of time: sleep a small step (~1 ms) and look again.
    CoarseSleep,
    /// The tail of the interval: busy-wait to hit the deadline exactly.
    Spin,
}

/// Length of one frame interval: `1_000_000 / frame_rate` microseconds.
pub fn frame_interval_micros(frame_rate: u32) -> (r: u64)
    requires
        frame_rate > 0,
    ensures
        r == 1_000_000u64 as int / frame_rate as int,
        frame_rate <= 1_000_000 ==> r >= 1,
{
    proof {
        if frame_rate <= 1_000_000 {
            vstd::arithmetic::div_mod::lemma_div_is_ordered(
                frame_rate as int,
                1_000_000,
                frame_rate as int,
            );
            vstd::arithmetic::div_mod::lemma_div_by_self(frame_rate as int);
        }
    }
    1_000_000u64 / (frame_rate as u64)
}

/// The waiting discipline: sleep coarsely while more than the spin
/// threshold remains, spin for the tail, go once the deadline has passed.
pub fn wait_action(now_micros: u64, deadline_micros: u64) -> (r: TickWait)
    ensures
        r is Elapsed <==> now_micros >= deadline_micros,
        r is CoarseSleep <==> now_micros < deadline_micros && deadline_micros - now_micros
            > SPIN_THRESHOLD_MICROS,
        r is Spin <==> now_micros < deadline_micros && deadline_micros - now_micros
            <= SPIN_THRESHOLD_MICROS,
{
    if now_micros >= deadline_micros {
        TickWait::Elapsed
    } else if deadline_micros - now_micros > SPIN_THRESHOLD_MICROS {
        TickWait::CoarseSleep
    } else {
        TickWait::Spin
    }
}

/// The next deadline after `now` on the grid `start + k * interval`: the
/// unique aligned instant in `(now, now + interval]`. After a missed
/// deadline this lands on the next aligned tick — never in the past, and
/// never more than one interval away, so the loop cannot burst.
pub fn next_deadline(start_micros: u64, interval_micros: u64, now_micros: u64) -> (r: u64)
    requires
        interval_micros > 0,
        start_micros <= now_micros,
        now_micros + interval_micros <= u64::MAX,
    ensures
        now_micros < r <= now_micros + interval_micros,
        (r - start_micros) % (interval_micros as int) == 0,
{
    let elapsed: u64 = now_micros - start_micros;
    let rem: u64 = elapsed % interval_micros;
    proof {
        let e = elapsed as int;
        let iv = interval_micros as int;
        lemma_fundamental_div_mod(e, iv);
        assert(iv * (e / iv) >= 0) by (nonlinear_arith)
            requires iv > 0, e >= 0, e == iv * (e / iv) + e % iv, 0 <= e % iv < iv;
        assert(rem <= elapsed);
    }
    let r: u64 = now_micros - rem + interval_micros;
    proof {
        let e = elapsed as int;
        let iv = interval_micros as int;
        assert(r - start_micros == iv * (e / iv) + iv);
        assert(iv * (e / iv) + iv == iv * (e / iv + 1)) by (nonlinear_arith);
        lemma_mod_multiples_basic(e / iv + 1, iv);
        assert((iv * (e / iv + 1)) % iv == 0);
    }
    r
}

/// On the aligned grid there is only one instant inside any half-open
/// window one interval wide.
pub proof fn lemma_aligned_instant_unique(start: int, interval: int, now: int, a: int, b: int)
    requires
        interval > 0,
        (a - start) % interval == 0,
        (b - start) % interval == 0,
        now < a <= now + interval,
        now < b <= now + interval,
    ensures
        a == b,
{
    let da = a - start;
    let db = b - start;
    lemma_fundamental_div_mod(da, interval);
    lemma_fundamental_div_mod(db, interval);
    let qa = da / interval;
    let qb = db / interval;
    assert(a - b == interval * qa - interval * qb);
    assert(interval * qa - interval * qb == interval * (qa - qb)) by (nonlinear_arith);
    assert(-interval < a - b < interval);
    if qa != qb {
        assert(interval * (qa - qb) >= interval || interval * (qa - qb) <= -interval)
            by (nonlinear_arith)
            requires interval > 0, qa != qb;
    }
}

/// Steady cadence: while every tick finishes before its deadline, the
/// deadlines advance by exactly one interval — the loop emits at the
/// configured frame rate with no drift.
pub proof fn lemma_steady_cadence(start: int, interval: int, d: int, now: int, r: int)
    requires
        interval > 0,
        (d - start) % interval == 0,
        d <= now < d + interval,
        now < r <= now + interval,
        (r - start) % interval == 0,
    ensures
        r == d + interval,
{
    lemma_mod_add_multiples_vanish(d - start, interval);
    assert((d + interval - start) % interval == 0);
    lemma_aligned_instant_unique(start, interval, now, r, d + interval);
}

} // verus!
