//! Countdown timers.
//!
//! The timers themselves are `bevy::time::Timer` values. This module gives
//! them a mathematical state, states what one tick does to that state, and
//! proves facts about repeated ticking.

use bevy::time::Timer;
use bevy::time::TimerMode;
use std::time::Duration;
use vstd::arithmetic::div_mod::{lemma_fundamental_div_mod, lemma_fundamental_div_mod_converse};
use vstd::prelude::*;

verus! {

/// What a timer holds, in nanoseconds where it is a time.
pub struct TimerState {
    /// The period of the timer.
    pub duration: nat,
    /// Time counted in the current period.
    pub elapsed: nat,
    /// Whether the timer starts over when its period has passed.
    pub repeating: bool,
    /// Whether the period had passed at the last tick.
    pub finished: bool,
    /// How many periods passed during the last tick.
    pub times_finished: nat,
    /// Whether the timer is paused.
    pub paused: bool,
}

/// Makes `bevy::time::Timer` known as a type whose inside is not looked at.
#[verifier::external_type_specification]
#[verifier::external_body]
pub struct ExTimer(Timer);

/// What a `Timer` holds: its period, the time that its stopwatch has counted,
/// its mode, and what it remembers of the last tick.
pub uninterp spec fn timer_state(timer: Timer) -> TimerState;

/// The state of a timer that counts: a tick moves it on.
pub open spec fn counting(s: TimerState) -> bool {
    !s.paused && (s.repeating || !s.finished)
}

/// The state that a tick of `delta` nanoseconds leaves behind.
///
/// A paused timer keeps its time. A one-shot timer that has finished stays
/// finished. Otherwise the time is added; a one-shot timer stops at its
/// period, a repeating timer keeps the remainder and counts the periods that
/// went by in a 32-bit counter.
pub open spec fn ticked(s: TimerState, delta: nat) -> TimerState {
    if s.paused {
        TimerState { times_finished: 0, finished: s.finished && !s.repeating, ..s }
    } else if !s.repeating && s.finished {
        TimerState { times_finished: 0, ..s }
    } else if s.elapsed + delta < s.duration {
        TimerState { elapsed: s.elapsed + delta, finished: false, times_finished: 0, ..s }
    } else if !s.repeating {
        TimerState { elapsed: s.duration, finished: true, times_finished: 1, ..s }
    } else {
        let times = (((s.elapsed + delta) / s.duration) % 0x1_0000_0000) as nat;
        TimerState {
            elapsed: (s.elapsed + delta - s.duration * times) as nat,
            finished: true,
            times_finished: times,
            ..s
        }
    }
}

/// A repeating timer that runs, with a period, inside its period.
pub open spec fn is_repeater(s: TimerState) -> bool {
    !s.paused && s.repeating && 0 < s.duration <= u64::MAX && s.elapsed < s.duration
}

/// A one-shot timer that runs or has run out.
pub open spec fn is_countdown(s: TimerState) -> bool {
    !s.paused && !s.repeating && s.elapsed <= s.duration <= u64::MAX
}

/// A timer as it is made: nothing counted, not finished, not paused.
pub open spec fn fresh(duration: nat, repeating: bool) -> TimerState {
    TimerState {
        duration,
        elapsed: 0,
        repeating,
        finished: false,
        times_finished: 0,
        paused: false,
    }
}

/// Whether a tick has just let the period pass.
pub open spec fn just_finished(s: TimerState) -> bool {
    s.times_finished > 0
}

/// A repeating timer that is stepped by less than 2^32 nanoseconds stays a
/// repeating timer inside its period: it has counted the periods that went
/// by, and keeps the remainder.
pub proof fn lemma_repeater_tick(s: TimerState, delta: nat)
    requires
        is_repeater(s),
        delta < 0x1_0000_0000,
    ensures
        is_repeater(ticked(s, delta)),
        ticked(s, delta).times_finished == (s.elapsed + delta) / s.duration,
        ticked(s, delta).elapsed == (s.elapsed + delta) % s.duration,
        ticked(s, delta).duration == s.duration,
{
    let total = s.elapsed + delta;
    let d = s.duration;
    assert(total / d < 0x1_0000_0000 && 0 <= total / d && total == d * (total / d) + total % d && 0
        <= total % d < d) by (nonlinear_arith)
        requires
            0 < d,
            0 <= total < d + 0x1_0000_0000 - 1,
            d >= 2 || total < 0x1_0000_0000,
    ;
    assert(total < d ==> total / d == 0 && total % d == total) by (nonlinear_arith)
        requires
            0 < d,
            0 <= total,
    ;
}

/// The state of a timer after a run of ticks, one for each step of `deltas`.
pub open spec fn run(s: TimerState, deltas: Seq<nat>) -> TimerState {
    deltas.fold_left(s, |acc: TimerState, delta: nat| ticked(acc, delta))
}

/// In how many ticks of a run the period had just passed.
pub open spec fn firings(s: TimerState, deltas: Seq<nat>) -> nat
    decreases deltas.len(),
{
    if deltas.len() == 0 {
        0
    } else {
        firings(s, deltas.drop_last()) + if just_finished(run(s, deltas)) {
            1nat
        } else {
            0nat
        }
    }
}

/// The time that a run of ticks takes.
pub open spec fn total(deltas: Seq<nat>) -> nat
    decreases deltas.len(),
{
    if deltas.len() == 0 {
        0
    } else {
        total(deltas.drop_last()) + deltas.last()
    }
}

/// A clock that ticks `n` times with the same step.
pub open spec fn steady(delta: nat, n: nat) -> Seq<nat> {
    Seq::new(n, |i: int| delta)
}

/// A repeating timer fires at most once in each of its periods: over any run
/// of ticks, each shorter than 2^32 nanoseconds, the periods that the
/// firings stand for and the time left on the timer fit into the time that was
/// on the timer plus the time that the run took.
pub proof fn lemma_fires_at_most_once_per_period(s: TimerState, deltas: Seq<nat>)
    requires
        is_repeater(s),
        forall|i: int| 0 <= i < deltas.len() ==> deltas[i] < 0x1_0000_0000,
    ensures
        is_repeater(run(s, deltas)),
        run(s, deltas).duration == s.duration,
        firings(s, deltas) * s.duration + run(s, deltas).elapsed <= s.elapsed + total(deltas),
    decreases deltas.len(),
{
    if deltas.len() > 0 {
        let earlier = deltas.drop_last();
        let delta = deltas.last();
        lemma_fires_at_most_once_per_period(s, earlier);
        let before = run(s, earlier);
        lemma_repeater_tick(before, delta);
        let sum = before.elapsed + delta;
        let d = s.duration;
        lemma_fundamental_div_mod(sum as int, d as int);
        let fired: nat = if just_finished(run(s, deltas)) {
            1
        } else {
            0
        };
        assert(fired * d + sum % d <= sum) by (nonlinear_arith)
            requires
                0 < d,
                sum == d * (sum / d) + sum % d,
                fired == 0 || (fired == 1 && sum / d > 0),
                0 <= sum % d,
                0 <= sum / d,
        ;
        assert(firings(s, deltas) * d == firings(s, earlier) * d + fired * d)
            by (nonlinear_arith)
            requires
                firings(s, deltas) == firings(s, earlier) + fired,
        ;
        assert(run(s, deltas).elapsed == sum % d);
        assert(total(deltas) == total(earlier) + delta);
    } else {
        assert(firings(s, deltas) * s.duration == 0) by (nonlinear_arith)
            requires
                firings(s, deltas) == 0,
        ;
    }
}

/// Under a steady clock whose step is no longer than the period, a repeating
/// timer fires exactly once for each period that has passed: after `n` ticks
/// it has fired as often as the period fits into the time gone by, and holds
/// the remainder.
pub proof fn lemma_steady_clock_fires_once_per_period(s: TimerState, delta: nat, n: nat)
    requires
        is_repeater(s),
        delta <= s.duration,
        delta < 0x1_0000_0000,
    ensures
        is_repeater(run(s, steady(delta, n))),
        run(s, steady(delta, n)).duration == s.duration,
        run(s, steady(delta, n)).elapsed == (s.elapsed + n * delta) % s.duration,
        firings(s, steady(delta, n)) == (s.elapsed + n * delta) / s.duration,
    decreases n,
{
    let d = s.duration;
    if n == 0 {
        assert(s.elapsed + 0 * delta == s.elapsed) by (nonlinear_arith);
        lemma_fundamental_div_mod_converse(s.elapsed as int, d as int, 0, s.elapsed as int);
    } else {
        let m = (n - 1) as nat;
        assert(steady(delta, n).drop_last() =~= steady(delta, m));
        assert(steady(delta, n).last() == delta);
        lemma_steady_clock_fires_once_per_period(s, delta, m);
        let before = run(s, steady(delta, m));
        lemma_repeater_tick(before, delta);
        let gone = s.elapsed + m * delta;
        let sum = before.elapsed + delta;
        lemma_fundamental_div_mod(gone as int, d as int);
        lemma_fundamental_div_mod(sum as int, d as int);
        assert(sum / d == 0 || sum / d == 1) by (nonlinear_arith)
            requires
                0 < d,
                0 <= sum < 2 * d,
                sum == d * (sum / d) + sum % d,
                0 <= sum % d < d,
        ;
        assert(n * delta == m * delta + delta) by (nonlinear_arith)
            requires
                n == m + 1,
        ;
        assert((gone / d + sum / d) * d == d * (gone / d) + d * (sum / d)) by (nonlinear_arith);
        lemma_fundamental_div_mod_converse(
            (s.elapsed + n * delta) as int,
            d as int,
            (gone / d + sum / d) as int,
            (sum % d) as int,
        );
    }
}

/// A countdown runs out once and for all: over any run of ticks it fires at
/// most once, and it has fired exactly when the time on it and the time of the
/// run reach its length.
pub proof fn lemma_countdown_fires_once(s: TimerState, deltas: Seq<nat>)
    requires
        is_countdown(s),
        !s.finished,
    ensures
        is_countdown(run(s, deltas)),
        run(s, deltas).duration == s.duration,
        firings(s, deltas) <= 1,
        firings(s, deltas) == 1 <==> deltas.len() > 0 && s.elapsed + total(deltas) >= s.duration,
        firings(s, deltas) == 1 <==> run(s, deltas).finished,
        !run(s, deltas).finished ==> run(s, deltas).elapsed == s.elapsed + total(deltas),
    decreases deltas.len(),
{
    if deltas.len() > 0 {
        lemma_countdown_fires_once(s, deltas.drop_last());
    }
}

/// `Timer::new`, with the period given in nanoseconds and the mode as a flag:
/// a timer with that period and mode that is neither paused nor finished and
/// has counted nothing.
#[verifier::external_body]
pub(crate) fn timer_new(duration: u64, repeating: bool) -> (timer: Timer)
    ensures
        timer_state(timer) == fresh(duration as nat, repeating),
{
    let mode = if repeating { TimerMode::Repeating } else { TimerMode::Once };
    Timer::new(Duration::from_nanos(duration), mode)
}

/// The longest time that a `Duration` holds, in nanoseconds.
pub open spec fn longest_time() -> nat {
    18_446_744_073_709_551_615_999_999_999
}

/// `Timer::tick`, with the step given in nanoseconds: the timer is left in the
/// state that `ticked` describes. A timer that counts must have room for the
/// step, and a repeating one a period, since the periods gone by are counted
/// by a division.
#[verifier::external_body]
pub(crate) fn timer_tick(timer: &mut Timer, delta: u64)
    requires
        counting(timer_state(*old(timer))) ==> timer_state(*old(timer)).elapsed + delta
            <= longest_time(),
        counting(timer_state(*old(timer))) && timer_state(*old(timer)).repeating
            ==> timer_state(*old(timer)).duration > 0,
    ensures
        timer_state(*final(timer)) == ticked(timer_state(*old(timer)), delta as nat),
{
    timer.tick(Duration::from_nanos(delta));
}

/// `Timer::just_finished`: whether the last tick counted a period that
/// passed.
#[verifier::external_body]
pub(crate) fn timer_just_finished(timer: &Timer) -> (fired: bool)
    ensures
        fired == just_finished(timer_state(*timer)),
{
    timer.just_finished()
}

} // verus!
