use bevy::time::{Timer, TimerMode};
use std::time::Duration;
use tower_defence::lifetime::Lifetime;
use tower_defence::target::TargetSpawner;

/// What a timer holds, as plain numbers.
#[derive(Clone, Copy, Debug, PartialEq, Eq)]
struct State {
    duration: u128,
    elapsed: u128,
    repeating: bool,
    finished: bool,
    times_finished: u128,
    paused: bool,
}

fn state_of(timer: &Timer) -> State {
    State {
        duration: timer.duration().as_nanos(),
        elapsed: timer.elapsed().as_nanos(),
        repeating: timer.mode() == TimerMode::Repeating,
        finished: timer.finished(),
        times_finished: timer.times_finished_this_tick() as u128,
        paused: timer.paused(),
    }
}

/// The state that the library expects after a tick.
fn expected(s: State, delta: u128) -> State {
    if s.paused {
        State { times_finished: 0, finished: s.finished && !s.repeating, ..s }
    } else if !s.repeating && s.finished {
        State { times_finished: 0, ..s }
    } else if s.elapsed + delta < s.duration {
        State { elapsed: s.elapsed + delta, finished: false, times_finished: 0, ..s }
    } else if !s.repeating {
        State { elapsed: s.duration, finished: true, times_finished: 1, ..s }
    } else {
        let times = ((s.elapsed + delta) / s.duration) % 0x1_0000_0000;
        State {
            elapsed: s.elapsed + delta - s.duration * times,
            finished: true,
            times_finished: times,
            ..s
        }
    }
}

/// A sequence of numbers that looks irregular and is the same in every run.
fn scrambled(seed: &mut u64) -> u64 {
    *seed = seed.wrapping_mul(6364136223846793005).wrapping_add(1442695040888963407);
    *seed >> 11
}

fn follow(mut timer: Timer, steps: usize, seed: &mut u64, longest: u64) {
    for _ in 0..steps {
        let before = state_of(&timer);
        let delta = scrambled(seed) % (longest + 1);
        timer.tick(Duration::from_nanos(delta));
        assert_eq!(state_of(&timer), expected(before, delta as u128));
    }
}

#[test]
fn a_new_timer_has_counted_nothing() {
    let once = Timer::new(Duration::from_nanos(3_000_000_000), TimerMode::Once);
    assert_eq!(
        state_of(&once),
        State {
            duration: 3_000_000_000,
            elapsed: 0,
            repeating: false,
            finished: false,
            times_finished: 0,
            paused: false
        }
    );
    let again = Timer::new(Duration::from_nanos(u64::MAX), TimerMode::Repeating);
    assert_eq!(
        state_of(&again),
        State {
            duration: u64::MAX as u128,
            elapsed: 0,
            repeating: true,
            finished: false,
            times_finished: 0,
            paused: false
        }
    );
}

#[test]
fn repeating_timers_tick_as_expected() {
    let mut seed = 1;
    for period in [1u64, 2, 7, 1_000, 16_666_667, 1_000_000_000, 3_000_000_000, u64::MAX] {
        let timer = Timer::new(Duration::from_nanos(period), TimerMode::Repeating);
        follow(timer.clone(), 200, &mut seed, 10);
        follow(timer.clone(), 200, &mut seed, 1_000_000_000);
        follow(timer.clone(), 200, &mut seed, u32::MAX as u64);
        follow(timer, 50, &mut seed, u64::MAX >> 12);
    }
}

#[test]
fn one_shot_timers_tick_as_expected() {
    let mut seed = 2;
    for length in [0u64, 1, 2, 1_000, 3_000_000_000, 10_000_000_000, u64::MAX] {
        let timer = Timer::new(Duration::from_nanos(length), TimerMode::Once);
        follow(timer.clone(), 50, &mut seed, 10);
        follow(timer.clone(), 50, &mut seed, 1_000_000_000);
        follow(timer, 50, &mut seed, u64::MAX >> 12);
    }
}

#[test]
fn paused_timers_tick_as_expected() {
    let mut seed = 3;
    for mode in [TimerMode::Once, TimerMode::Repeating] {
        let mut timer = Timer::new(Duration::from_nanos(1_000), mode);
        timer.tick(Duration::from_nanos(1_500));
        timer.pause();
        follow(timer.clone(), 20, &mut seed, 10_000);
        timer.unpause();
        follow(timer, 20, &mut seed, 10_000);
    }
}

#[test]
fn the_count_of_periods_has_thirty_two_bits() {
    let mut timer = Timer::new(Duration::from_nanos(1), TimerMode::Repeating);
    let before = state_of(&timer);
    let delta: u64 = 0x1_0000_0005;
    timer.tick(Duration::from_nanos(delta));
    let after = state_of(&timer);
    assert_eq!(after, expected(before, delta as u128));
    assert_eq!(after.times_finished, 5);
    assert_eq!(after.elapsed, 0x1_0000_0000);
    assert!(after.finished);
}

#[test]
fn just_finished_says_whether_a_period_was_counted() {
    let mut timer = Timer::new(Duration::from_nanos(10), TimerMode::Repeating);
    timer.tick(Duration::from_nanos(9));
    assert_eq!(timer.just_finished(), state_of(&timer).times_finished > 0);
    assert!(!timer.just_finished());
    timer.tick(Duration::from_nanos(1));
    assert_eq!(timer.just_finished(), state_of(&timer).times_finished > 0);
    assert!(timer.just_finished());
}

#[test]
fn the_timers_of_the_library_follow_the_same_steps() {
    let mut seed = 4;
    for period in [1u64, 3, 1_000_000_000, 3_000_000_000] {
        let mut spawner = TargetSpawner::new(period);
        let mut lifetime = Lifetime::new(period.saturating_mul(20));
        let mut again = Timer::new(Duration::from_nanos(period), TimerMode::Repeating);
        let mut once = Timer::new(Duration::from_nanos(period.saturating_mul(20)), TimerMode::Once);
        for _ in 0..300 {
            let delta = (scrambled(&mut seed) % (2 * period + 1)).min(u32::MAX as u64) as u32;
            again.tick(Duration::from_nanos(delta as u64));
            once.tick(Duration::from_nanos(delta as u64));
            assert_eq!(spawner.tick(delta), again.just_finished());
            assert_eq!(lifetime.tick(delta), once.just_finished());
        }
    }
}
