use vstd::prelude::*;
use vstd::arithmetic::div_mod::{lemma_fundamental_div_mod, lemma_fundamental_div_mod_converse};

verus! {

/// The two 8-bit countdown timers, decremented at a fixed real-time rate of
/// 60 units per second.
///
/// Wall-clock time is carried as integer milliseconds. `last_tick_ms` is the
/// clock sample of the previous tick; `remainder` is the fractional part of a
/// decrement, in thousandths, carried over so that decay accumulates no
/// drift however unevenly the ticks are spaced.
#[derive(Clone, Copy, Debug, PartialEq, Eq, Structural)]
pub struct Timers {
    pub delay: u8,
    pub sound: u8,
    pub last_tick_ms: u64,
    pub remainder: u64,
}

/// Elapsed milliseconds between two clock samples; a clock that moved
/// backwards counts as no elapsed time.
pub open spec fn spec_elapsed(last: u64, now: u64) -> int {
    if now >= last {
        now - last
    } else {
        0
    }
}

/// Thousandths of a decrement accumulated by `elapsed` milliseconds at 60
/// decrements per second, on top of the carried remainder.
pub open spec fn spec_accumulated(remainder: u64, elapsed: int) -> int {
    remainder + elapsed * 60
}

/// Whole decrements owed for this tick.
pub open spec fn spec_decrements(remainder: u64, elapsed: int) -> int {
    spec_accumulated(remainder, elapsed) / 1000
}

/// The fractional part, in thousandths, carried to the next tick.
pub open spec fn spec_new_remainder(remainder: u64, elapsed: int) -> int {
    spec_accumulated(remainder, elapsed) % 1000
}

/// An 8-bit counter after `d` decrements, floored at 0.
pub open spec fn spec_count_down(v: u8, d: int) -> u8 {
    if d >= v {
        0
    } else {
        (v - d) as u8
    }
}

/// The state of the timers after one tick at clock sample `now_ms`.
pub open spec fn spec_tick(t: Timers, now_ms: u64) -> Timers {
    let e = spec_elapsed(t.last_tick_ms, now_ms);
    let d = spec_decrements(t.remainder, e);
    Timers {
        delay: spec_count_down(t.delay, d),
        sound: spec_count_down(t.sound, d),
        last_tick_ms: now_ms,
        remainder: spec_new_remainder(t.remainder, e) as u64,
    }
}

impl Timers {
    pub open spec fn wf(&self) -> bool {
        self.remainder < 1000
    }

    /// Fresh timers: both counters zero, the clock anchored at `now_ms`.
    pub fn new(now_ms: u64) -> (r: Timers)
        ensures
            r == (Timers { delay: 0, sound: 0, last_tick_ms: now_ms, remainder: 0 }),
            r.wf(),
    {
        Timers { delay: 0, sound: 0, last_tick_ms: now_ms, remainder: 0 }
    }

    /// One tick at clock sample `now_ms`: subtract from both counters the
    /// whole number of 60 Hz decrements that the elapsed wall-clock time
    /// (plus the carried remainder) is worth, flooring each counter at 0,
    /// and carry the new fractional remainder.
    pub fn tick(&mut self, now_ms: u64)
        requires
            old(self).wf(),
        ensures
            *final(self) == spec_tick(*old(self), now_ms),
            final(self).wf(),
    {
        let elapsed: u64 = if now_ms >= self.last_tick_ms {
            now_ms - self.last_tick_ms
        } else {
            0
        };
        let total: u128 = self.remainder as u128 + (elapsed as u128) * 60;
        let dec: u128 = total / 1000;
        let rem: u64 = (total % 1000) as u64;
        self.delay = if dec >= self.delay as u128 {
            0
        } else {
            self.delay - (dec as u8)
        };
        self.sound = if dec >= self.sound as u128 {
            0
        } else {
            self.sound - (dec as u8)
        };
        self.last_tick_ms = now_ms;
        self.remainder = rem;
    }
}

/// Drift-freedom of timer decay: ticking at `t1` and then at `t2` leaves the
/// timers exactly as one tick at `t2` would, for any monotone clock samples.
/// However an elapsed span is split across ticks, the counters decay by the
/// same total.
pub proof fn lemma_tick_split(t: Timers, t1: u64, t2: u64)
    requires
        t.wf(),
        t.last_tick_ms <= t1 <= t2,
    ensures
        spec_tick(spec_tick(t, t1), t2) == spec_tick(t, t2),
{
    let e1 = spec_elapsed(t.last_tick_ms, t1);
    let u = spec_tick(t, t1);
    let e2 = spec_elapsed(t1, t2);
    let e = spec_elapsed(t.last_tick_ms, t2);
    assert(e == e1 + e2);

    let total1 = spec_accumulated(t.remainder, e1);
    let d1 = spec_decrements(t.remainder, e1);
    let r1 = spec_new_remainder(t.remainder, e1);
    lemma_fundamental_div_mod(total1, 1000);
    assert(total1 == 1000 * d1 + r1);
    assert(0 <= r1 < 1000);

    let total2 = spec_accumulated(u.remainder, e2);
    let d2 = spec_decrements(u.remainder, e2);
    let r2 = spec_new_remainder(u.remainder, e2);
    lemma_fundamental_div_mod(total2, 1000);
    assert(total2 == 1000 * d2 + r2);
    assert(0 <= r2 < 1000);

    let total = spec_accumulated(t.remainder, e);
    assert(total == 1000 * (d1 + d2) + r2) by {
        assert(total == total1 + e2 * 60);
        assert(total2 == r1 + e2 * 60);
    }
    lemma_fundamental_div_mod_converse(total, 1000, d1 + d2, r2);
    assert(spec_decrements(t.remainder, e) == d1 + d2);
    assert(spec_new_remainder(t.remainder, e) == r2);

    assert(d1 >= 0 && d2 >= 0);
    assert(spec_count_down(spec_count_down(t.delay, d1), d2) == spec_count_down(t.delay, d1 + d2));
    assert(spec_count_down(spec_count_down(t.sound, d1), d2) == spec_count_down(t.sound, d1 + d2));
}

} // verus!
