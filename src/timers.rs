//! The delay and sound counters, decremented at a fixed 60 Hz whatever the
//! rate at which they are ticked.

use vstd::prelude::*;
use vstd::arithmetic::div_mod::{lemma_fundamental_div_mod, lemma_fundamental_div_mod_converse};
use std::time::{Duration, Instant};
use crate::types::Word;

verus! {

/// Length of one timer period (a sixtieth of a second) in nanoseconds.
pub const TICK_NANOS: u128 = 16_666_666;

#[verifier::external_type_specification]
#[verifier::external_body]
pub struct ExInstant(Instant);

/// Relies on `Instant::now`: a reading of the monotonic clock.
#[verifier::external_body]
fn instant_now() -> (r: Instant) {
    Instant::now()
}

/// Relies on `Instant::saturating_duration_since`: the time from `earlier`
/// to `later`, zero if `earlier` is the later one.
#[verifier::external_body]
fn duration_between(later: &Instant, earlier: &Instant) -> (r: Duration) {
    later.saturating_duration_since(*earlier)
}

/// Relies on `Duration::as_nanos`: the whole nanoseconds of a duration.
#[verifier::external_body]
fn duration_nanos(d: &Duration) -> (r: u128) {
    d.as_nanos()
}

/// `v` decremented `n` times, stopping at zero.
pub open spec fn sat_sub(v: u8, n: int) -> u8 {
    if v >= n {
        (v - n) as u8
    } else {
        0
    }
}

/// The delay counter, the sound counter and the time not yet turned into
/// whole periods, after `elapsed` more nanoseconds.
pub open spec fn advance_spec(delay: u8, sound: u8, pending: int, elapsed: int) -> (u8, u8, int) {
    let periods = (pending + elapsed) / TICK_NANOS as int;
    (sat_sub(delay, periods), sat_sub(sound, periods), (pending + elapsed) % TICK_NANOS as int)
}

/// The delay counter after the elapsed times of `es`, one `advance` (or
/// one `tick` that measured that time) each.
pub open spec fn delay_after(delay: u8, pending: int, es: Seq<int>) -> u8
    decreases es.len(),
{
    if es.len() == 0 {
        delay
    } else {
        let s = advance_spec(delay, 0, pending, es[0]);
        delay_after(s.0, s.2, es.drop_first())
    }
}

/// The sum of a sequence.
pub open spec fn total(es: Seq<int>) -> int
    decreases es.len(),
{
    if es.len() == 0 {
        0
    } else {
        es[0] + total(es.drop_first())
    }
}

/// The two timer counters with the wall-clock bookkeeping that paces them.
#[derive(Debug)]
pub struct Timers {
    pub delay_timer: Word,
    pub sound_timer: Word,
    pub last_tick: Instant,
    /// Nanoseconds received and not yet turned into whole periods.
    pub delay_accumulator: u128,
}

impl Timers {
    pub open spec fn pending(&self) -> int {
        self.delay_accumulator as int
    }

    pub fn new() -> (r: Timers)
        ensures
            r.delay_timer.0 == 0,
            r.sound_timer.0 == 0,
            r.pending() == 0,
    {
        Timers {
            delay_timer: Word(0),
            sound_timer: Word(0),
            last_tick: instant_now(),
            delay_accumulator: 0,
        }
    }

    /// Measures the time since the previous tick and advances by it.
    pub fn tick(&mut self)
        ensures
            exists|e: int|
                0 <= e && (final(self).delay_timer.0, final(self).sound_timer.0, final(self).pending())
                    == #[trigger] advance_spec(
                    old(self).delay_timer.0,
                    old(self).sound_timer.0,
                    old(self).pending(),
                    e,
                ),
    {
        let now = instant_now();
        let elapsed = duration_between(&now, &self.last_tick);
        let nanos = duration_nanos(&elapsed);
        self.last_tick = now;
        self.advance(nanos);
        assert((self.delay_timer.0, self.sound_timer.0, self.pending()) == advance_spec(
            old(self).delay_timer.0,
            old(self).sound_timer.0,
            old(self).pending(),
            nanos as int,
        ));
    }

    /// Adds `elapsed_nanos` to the time received and, for every whole period
    /// that makes, decrements both counters, stopping at zero.
    pub fn advance(&mut self, elapsed_nanos: u128)
        ensures
            (final(self).delay_timer.0, final(self).sound_timer.0, final(self).pending())
                == advance_spec(
                old(self).delay_timer.0,
                old(self).sound_timer.0,
                old(self).pending(),
                elapsed_nanos as int,
            ),
    {
        let acc = self.delay_accumulator;
        let rest = acc % TICK_NANOS + elapsed_nanos % TICK_NANOS;
        let mut periods: u128 = acc / TICK_NANOS + elapsed_nanos / TICK_NANOS;
        let mut remainder = rest;
        if rest >= TICK_NANOS {
            periods = periods + 1;
            remainder = rest - TICK_NANOS;
        }
        proof {
            let p = TICK_NANOS as int;
            lemma_fundamental_div_mod(acc as int, p);
            lemma_fundamental_div_mod(elapsed_nanos as int, p);
            lemma_fundamental_div_mod_converse(
                acc + elapsed_nanos,
                p,
                periods as int,
                remainder as int,
            );
        }
        self.delay_timer = Word(decrement_by(self.delay_timer.0, periods));
        self.sound_timer = Word(decrement_by(self.sound_timer.0, periods));
        self.delay_accumulator = remainder;
    }
}

/// `v` decremented `n` times, stopping at zero.
fn decrement_by(v: u8, n: u128) -> (r: u8)
    ensures
        r == sat_sub(v, n as int),
{
    if v as u128 >= n {
        (v as u128 - n) as u8
    } else {
        0
    }
}

/// Decrementing `a` times then `b` times is decrementing `a + b` times.
proof fn lemma_sat_sub_add(v: u8, a: int, b: int)
    requires
        a >= 0,
        b >= 0,
    ensures
        sat_sub(sat_sub(v, a), b) == sat_sub(v, a + b),
{
}

/// However the elapsed time is split among ticks, the delay counter ends
/// where one tick of the whole time would leave it: decremented once per
/// whole period of the total, stopping at zero.
pub proof fn lemma_decay_depends_on_total(delay: u8, pending: int, es: Seq<int>)
    requires
        0 <= pending < TICK_NANOS,
        forall|i: int| 0 <= i < es.len() ==> es[i] >= 0,
    ensures
        delay_after(delay, pending, es) == sat_sub(delay, (pending + total(es)) / TICK_NANOS as int),
        total(es) >= 0,
    decreases es.len(),
{
    if es.len() > 0 {
        let p = TICK_NANOS as int;
        let t = pending + es[0];
        let s = advance_spec(delay, 0, pending, es[0]);
        assert forall|i: int| 0 <= i < es.drop_first().len() implies es.drop_first()[i] >= 0 by {
            assert(es.drop_first()[i] == es[i + 1]);
        }
        lemma_fundamental_div_mod(t, p);
        lemma_decay_depends_on_total(s.0, s.2, es.drop_first());
        let rest = total(es.drop_first());
        lemma_fundamental_div_mod(t % p + rest, p);
        lemma_fundamental_div_mod_converse(
            pending + total(es),
            p,
            t / p + (t % p + rest) / p,
            (t % p + rest) % p,
        );
        lemma_sat_sub_add(delay, t / p, (t % p + rest) / p);
        assert(s.0 == sat_sub(delay, t / p) && s.2 == t % p);
        assert(delay_after(delay, pending, es) == delay_after(s.0, s.2, es.drop_first()));
        assert(total(es) == es[0] + rest);
        assert((pending + total(es)) / p == t / p + (t % p + rest) / p);
    }
}

/// A delay counter of 10 that receives ten whole periods, in any number of
/// ticks, reaches zero.
pub proof fn lemma_ten_periods_reach_zero(es: Seq<int>)
    requires
        forall|i: int| 0 <= i < es.len() ==> es[i] >= 0,
        total(es) >= 10 * TICK_NANOS,
    ensures
        delay_after(10, 0, es) == 0,
{
    lemma_decay_depends_on_total(10, 0, es);
    assert(total(es) / TICK_NANOS as int >= 10);
}

/// Timer states `ts[0], ts[1], ...` where each comes from the one before by
/// one `advance` or `tick` that received `es[i]` nanoseconds (the
/// `(delay, sound, pending)` triples their contracts speak of) end with the
/// delay counter decremented once per whole period of the total time, stopping
/// at zero; so a delay of 10 that receives at least ten periods, however
/// split, ends at zero.
pub proof fn lemma_tick_sequence_decay(ts: Seq<(u8, u8, int)>, es: Seq<int>)
    requires
        ts.len() == es.len() + 1,
        0 <= ts[0].2 < TICK_NANOS,
        forall|i: int| 0 <= i < es.len() ==> es[i] >= 0,
        forall|i: int|
            0 <= i < es.len() ==> #[trigger] ts[i + 1] == advance_spec(ts[i].0, ts[i].1, ts[i].2, es[i]),
    ensures
        ts.last().0 == delay_after(ts[0].0, ts[0].2, es),
        ts.last().0 == sat_sub(ts[0].0, (ts[0].2 + total(es)) / TICK_NANOS as int),
        ts[0].0 == 10 && total(es) >= 10 * TICK_NANOS ==> ts.last().0 == 0,
    decreases es.len(),
{
    if es.len() > 0 {
        let ts2 = ts.drop_first();
        let es2 = es.drop_first();
        let z: int = 0;
        assert(ts[z + 1] == advance_spec(ts[z].0, ts[z].1, ts[z].2, es[z]));
        assert forall|i: int| 0 <= i < es2.len() implies es2[i] >= 0 by {
            assert(es2[i] == es[i + 1]);
        }
        assert forall|i: int| 0 <= i < es2.len() implies #[trigger] ts2[i + 1] == advance_spec(
            ts2[i].0,
            ts2[i].1,
            ts2[i].2,
            es2[i],
        ) by {
            assert(ts[(i + 1) + 1] == advance_spec(ts[i + 1].0, ts[i + 1].1, ts[i + 1].2, es[i + 1]));
        }
        lemma_tick_sequence_decay(ts2, es2);
        assert(ts2.last() == ts.last());
    }
    lemma_decay_depends_on_total(ts[0].0, ts[0].2, es);
    if ts[0].0 == 10 && total(es) >= 10 * TICK_NANOS {
        assert((ts[0].2 + total(es)) / TICK_NANOS as int >= 10);
    }
}

} // verus!
