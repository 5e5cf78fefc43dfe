use chip8::pacing::{Pacer, MIN_TICK_NANOS, SLEEP_THRESHOLD_NANOS};
use chip8::timers::{Timers, TICK_NANOS};
use chip8::types::Word;

#[test]
fn timers_start_at_zero() {
    let t = Timers::new();
    assert_eq!(t.delay_timer, Word(0));
    assert_eq!(t.sound_timer, Word(0));
    assert_eq!(t.delay_accumulator, 0);
}

#[test]
fn ten_periods_in_one_advance_reach_zero() {
    let mut t = Timers::new();
    t.delay_timer = Word(10);
    t.advance(10 * TICK_NANOS);
    assert_eq!(t.delay_timer, Word(0));
    t.advance(10 * TICK_NANOS);
    assert_eq!(t.delay_timer, Word(0));
}

#[test]
fn ten_periods_in_many_small_advances_reach_zero() {
    let mut t = Timers::new();
    t.delay_timer = Word(10);
    t.sound_timer = Word(12);
    let step = 1_000_000u128;
    let mut sent = 0u128;
    while sent + step <= 10 * TICK_NANOS {
        t.advance(step);
        sent += step;
    }
    t.advance(10 * TICK_NANOS - sent);
    assert_eq!(t.delay_timer, Word(0));
    assert_eq!(t.sound_timer, Word(2));
    assert_eq!(t.delay_accumulator, 0);
}

#[test]
fn partial_period_is_kept() {
    let mut t = Timers::new();
    t.delay_timer = Word(5);
    t.advance(TICK_NANOS - 1);
    assert_eq!(t.delay_timer, Word(5));
    assert_eq!(t.delay_accumulator, TICK_NANOS - 1);
    t.advance(1);
    assert_eq!(t.delay_timer, Word(4));
    assert_eq!(t.delay_accumulator, 0);
}

#[test]
fn huge_elapsed_time_saturates() {
    let mut t = Timers::new();
    t.delay_timer = Word(255);
    t.sound_timer = Word(1);
    t.advance(u128::MAX);
    assert_eq!(t.delay_timer, Word(0));
    assert_eq!(t.sound_timer, Word(0));
    assert_eq!(t.delay_accumulator, u128::MAX % TICK_NANOS);
}

#[test]
fn wall_clock_tick_never_raises_counters() {
    let mut t = Timers::new();
    t.delay_timer = Word(200);
    t.tick();
    t.tick();
    assert!(t.delay_timer.0 <= 200);
    assert!(t.delay_accumulator < TICK_NANOS);
}

#[test]
fn pacer_owes_sleep_for_fast_ticks() {
    let mut p = Pacer::new();
    // 50 ticks of zero time owe exactly the threshold: no sleep yet.
    for _ in 0..50 {
        assert_eq!(p.after_tick(0), None);
    }
    // One more tick of a quarter millisecond pushes it over.
    assert_eq!(p.after_tick(250_000), Some(SLEEP_THRESHOLD_NANOS + 750_000));
    // Slow ticks owe nothing.
    assert_eq!(p.after_tick(MIN_TICK_NANOS * 3), None);
    assert_eq!(p.after_tick(0), None);
}
