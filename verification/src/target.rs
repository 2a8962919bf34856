//! Targets, their health, and the spawner that makes them.

use crate::command::{all_valid, Command};
use crate::sequence::lemma_filter_map_step;
use crate::lifetime::Lifetime;
use crate::timer::{
    fresh, is_repeater, just_finished, lemma_repeater_tick, ticked, timer_just_finished,
    timer_new, timer_state, timer_tick, TimerState,
};
use crate::vector::{clamp_coord, clamp_to_bounds, Vec3};
use bevy::time::Timer;
use vstd::prelude::*;

verus! {

/// Speed of a new target, in thousandths of a unit per second.
pub const TARGET_SPEED: u32 = 500;

/// Health of a new target.
pub const TARGET_HEALTH: i32 = 5;

/// Time after which a target leaves by itself, in nanoseconds.
pub const TARGET_LIFETIME: u64 = 10_000_000_000;

/// A hostile marker that moves along the x axis.
#[derive(Clone, Copy, Debug, PartialEq, Eq, Structural)]
pub struct Target {
    /// Thousandths of a unit per second.
    pub speed: u32,
}

/// Hit points of a target.
#[derive(Clone, Copy, Debug, PartialEq, Eq, Structural)]
pub struct Health {
    pub value: i32,
}

/// The source of new targets.
pub struct TargetSpawner {
    spawn_timer: Timer,
}

impl View for TargetSpawner {
    type V = TimerState;

    closed spec fn view(&self) -> TimerState {
        timer_state(self.spawn_timer)
    }
}

impl TargetSpawner {
    /// Whether the spawn timer repeats and runs.
    pub open spec fn wf(&self) -> bool {
        is_repeater(self@)
    }

    /// A spawner that emits every `period` nanoseconds.
    pub fn new(period: u64) -> (spawner: TargetSpawner)
        requires
            period > 0,
        ensures
            spawner@ == fresh(period as nat, true),
            spawner.wf(),
    {
        TargetSpawner { spawn_timer: timer_new(period, true) }
    }

    /// Counts `delta` nanoseconds and says whether a period ended in this
    /// step.
    pub fn tick(&mut self, delta: u32) -> (fired: bool)
        requires
            old(self).wf(),
        ensures
            final(self)@ == ticked(old(self)@, delta as nat),
            final(self).wf(),
            fired == just_finished(final(self)@),
    {
        proof {
            lemma_repeater_tick(self@, delta as nat);
        }
        timer_tick(&mut self.spawn_timer, delta as u64);
        timer_just_finished(&self.spawn_timer)
    }
}

/// A spawner with its place in the world.
pub struct SpawnerEntity {
    pub position: Vec3,
    pub spawner: TargetSpawner,
}

/// What a spawner entity holds.
pub struct SpawnerModel {
    pub position: Vec3,
    pub timer: TimerState,
}

impl View for SpawnerEntity {
    type V = SpawnerModel;

    open spec fn view(&self) -> SpawnerModel {
        SpawnerModel { position: self.position, timer: self.spawner@ }
    }
}

impl SpawnerEntity {
    /// Whether the spawner is inside the simulated cube and its timer runs.
    pub open spec fn wf(&self) -> bool {
        self.position.in_bounds() && self.spawner.wf()
    }
}

/// What each spawner of a list holds.
pub open spec fn spawner_models(spawners: Seq<SpawnerEntity>) -> Seq<SpawnerModel> {
    spawners.map_values(|s: SpawnerEntity| s@)
}

/// Whether every spawner of a list is well formed.
pub open spec fn spawners_wf(spawners: Seq<SpawnerEntity>) -> bool {
    forall|i: int| 0 <= i < spawners.len() ==> (#[trigger] spawners[i]).wf()
}

/// A spawner after `delta` nanoseconds.
pub open spec fn spawner_ticked(s: SpawnerModel, delta: u32) -> SpawnerModel {
    SpawnerModel { timer: ticked(s.timer, delta as nat), ..s }
}

/// What a spawner emits after a tick: one target at its own place when its
/// period has just ended, else nothing.
pub open spec fn emission(s: SpawnerModel) -> Option<Command> {
    if just_finished(s.timer) {
        Some(
            Command::SpawnTarget {
                position: s.position,
                speed: TARGET_SPEED,
                health: TARGET_HEALTH,
                lifetime: TARGET_LIFETIME,
            },
        )
    } else {
        None
    }
}

/// Ticks every spawner and queues one new target for each whose period has
/// just ended.
pub fn spawn_targets(commands: &mut Vec<Command>, spawners: &mut Vec<SpawnerEntity>, delta: u32)
    requires
        spawners_wf(old(spawners)@),
    ensures
        spawners_wf(final(spawners)@),
        spawner_models(final(spawners)@) == spawner_models(old(spawners)@).map_values(
            |s: SpawnerModel| spawner_ticked(s, delta),
        ),
        final(commands)@ == old(commands)@ + spawner_models(final(spawners)@).filter_map(
            |s: SpawnerModel| emission(s),
        ),
        all_valid(old(commands)@) ==> all_valid(final(commands)@),
{
    let ghost emit = |s: SpawnerModel| emission(s);
    let mut i: usize = 0;
    while i < spawners.len()
        invariant
            i <= spawners.len(),
            spawners.len() == old(spawners).len(),
            spawners_wf(spawners@),
            emit == |s: SpawnerModel| emission(s),
            forall|j: int|
                0 <= j < i ==> (#[trigger] spawners[j])@ == spawner_ticked(
                    old(spawners)[j]@,
                    delta,
                ),
            forall|j: int| i <= j < spawners.len() ==> #[trigger] spawners[j] == old(spawners)[j],
            commands@ == old(commands)@ + spawner_models(spawners@).take(i as int).filter_map(emit),
            all_valid(old(commands)@) ==> all_valid(commands@),
        decreases spawners.len() - i,
    {
        let ghost before = spawners@;
        let fired = spawners[i].spawner.tick(delta);
        let position = spawners[i].position;
        proof {
            assert(spawner_models(spawners@).take(i as int) =~= spawner_models(before).take(
                i as int,
            ));
            lemma_filter_map_step(spawner_models(spawners@), emit, i as int);
        }
        if fired {
            commands.push(
                Command::SpawnTarget {
                    position,
                    speed: TARGET_SPEED,
                    health: TARGET_HEALTH,
                    lifetime: TARGET_LIFETIME,
                },
            );
        }
        i += 1;
    }
    proof {
        assert(spawner_models(spawners@).take(i as int) =~= spawner_models(spawners@));
        assert(spawner_models(spawners@) =~= spawner_models(old(spawners)@).map_values(
            |s: SpawnerModel| spawner_ticked(s, delta),
        ));
    }
}

/// A target with its identifier and its place in the world.
pub struct TargetEntity {
    pub id: u64,
    pub position: Vec3,
    pub target: Target,
    pub health: Health,
    pub lifetime: Lifetime,
}

/// What a target entity holds.
pub struct TargetModel {
    pub id: u64,
    pub position: Vec3,
    pub speed: u32,
    pub health: i32,
    pub lifetime: TimerState,
}

impl View for TargetEntity {
    type V = TargetModel;

    open spec fn view(&self) -> TargetModel {
        TargetModel {
            id: self.id,
            position: self.position,
            speed: self.target.speed,
            health: self.health.value,
            lifetime: self.lifetime@,
        }
    }
}

impl TargetEntity {
    /// Whether the target is inside the simulated cube and its lifetime a
    /// countdown.
    pub open spec fn wf(&self) -> bool {
        self.position.in_bounds() && self.lifetime.wf()
    }
}

/// What each target of a list holds.
pub open spec fn target_models(targets: Seq<TargetEntity>) -> Seq<TargetModel> {
    targets.map_values(|t: TargetEntity| t@)
}

/// Whether every target of a list is well formed.
pub open spec fn targets_wf(targets: Seq<TargetEntity>) -> bool {
    forall|i: int| 0 <= i < targets.len() ==> (#[trigger] targets[i]).wf()
}

/// How far a target moves in `delta` nanoseconds, in millionths of a unit,
/// rounded down.
pub open spec fn target_travel(speed: u32, delta: u32) -> int {
    (speed * delta) / 1_000_000
}

/// A target after it has moved for `delta` nanoseconds: its x coordinate has
/// grown by its speed times the time, inside the simulated cube.
pub open spec fn target_moved(t: TargetModel, delta: u32) -> TargetModel {
    TargetModel {
        position: Vec3 {
            x: clamp_coord(t.position.x + target_travel(t.speed, delta)) as i64,
            ..t.position
        },
        ..t
    }
}

/// Moves every target along the x axis by its speed times `delta`
/// nanoseconds.
pub fn move_targets(targets: &mut Vec<TargetEntity>, delta: u32)
    requires
        targets_wf(old(targets)@),
    ensures
        targets_wf(final(targets)@),
        target_models(final(targets)@) == target_models(old(targets)@).map_values(
            |t: TargetModel| target_moved(t, delta),
        ),
{
    let mut i: usize = 0;
    while i < targets.len()
        invariant
            i <= targets.len(),
            targets.len() == old(targets).len(),
            targets_wf(targets@),
            forall|j: int|
                0 <= j < i ==> (#[trigger] targets[j])@ == target_moved(old(targets)[j]@, delta),
            forall|j: int| i <= j < targets.len() ==> #[trigger] targets[j] == old(targets)[j],
        decreases targets.len() - i,
    {
        let speed: u64 = targets[i].target.speed as u64;
        assert(speed * delta <= 0xffff_ffff * 0xffff_ffff) by (nonlinear_arith)
            requires
                0 <= speed <= 0xffff_ffff,
                0 <= delta <= 0xffff_ffff,
        ;
        let travelled: u64 = (speed * delta as u64) / 1_000_000;
        let x: i64 = clamp_to_bounds(targets[i].position.x as i128 + travelled as i128);
        targets[i].position.x = x;
        i += 1;
    }
    proof {
        assert(target_models(targets@) =~= target_models(old(targets)@).map_values(
            |t: TargetModel| target_moved(t, delta),
        ));
    }
}

/// The removal of a target that has no health left.
pub open spec fn death(t: TargetModel) -> Option<Command> {
    if t.health <= 0 {
        Some(Command::Despawn { id: t.id })
    } else {
        None
    }
}

/// Queues the removal of every target whose health is zero or less.
pub fn target_death(commands: &mut Vec<Command>, targets: &Vec<TargetEntity>)
    ensures
        final(commands)@ == old(commands)@ + target_models(targets@).filter_map(
            |t: TargetModel| death(t),
        ),
        all_valid(old(commands)@) ==> all_valid(final(commands)@),
{
    let ghost dying = |t: TargetModel| death(t);
    let mut i: usize = 0;
    while i < targets.len()
        invariant
            i <= targets.len(),
            dying == |t: TargetModel| death(t),
            commands@ == old(commands)@ + target_models(targets@).take(i as int).filter_map(dying),
            all_valid(old(commands)@) ==> all_valid(commands@),
        decreases targets.len() - i,
    {
        proof {
            lemma_filter_map_step(target_models(targets@), dying, i as int);
        }
        if targets[i].health.value <= 0 {
            commands.push(Command::Despawn { id: targets[i].id });
        }
        i += 1;
    }
    proof {
        assert(target_models(targets@).take(i as int) =~= target_models(targets@));
    }
}

} // verus!
