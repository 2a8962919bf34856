//! The countdown after which an entity leaves the world.

use crate::timer::{
    fresh, is_countdown, just_finished, ticked, timer_just_finished, timer_new, timer_state,
    timer_tick, TimerState,
};
use bevy::time::Timer;
use vstd::prelude::*;

verus! {

/// A one-shot countdown attached to an entity that is to remove itself.
pub struct Lifetime {
    despawn_timer: Timer,
}

impl View for Lifetime {
    type V = TimerState;

    closed spec fn view(&self) -> TimerState {
        timer_state(self.despawn_timer)
    }
}

impl Lifetime {
    /// Whether the countdown runs or has run out.
    pub open spec fn wf(&self) -> bool {
        is_countdown(self@)
    }

    /// A countdown of `duration` nanoseconds.
    pub fn new(duration: u64) -> (lifetime: Lifetime)
        ensures
            lifetime@ == fresh(duration as nat, false),
            lifetime.wf(),
    {
        Lifetime { despawn_timer: timer_new(duration, false) }
    }

    /// Counts `delta` nanoseconds down and says whether the countdown ran out
    /// in this very step.
    pub fn tick(&mut self, delta: u32) -> (expired: bool)
        requires
            old(self).wf(),
        ensures
            final(self)@ == ticked(old(self)@, delta as nat),
            final(self).wf(),
            expired == just_finished(final(self)@),
    {
        timer_tick(&mut self.despawn_timer, delta as u64);
        timer_just_finished(&self.despawn_timer)
    }
}

} // verus!
