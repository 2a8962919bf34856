//! The tower: it aims at the nearest target and fires on a timer.

use crate::command::{all_valid, Command};
use crate::sequence::lemma_filter_map_step;
use crate::target::{target_models, targets_wf, TargetEntity, TargetModel};
use crate::timer::{
    fresh, is_repeater, just_finished, lemma_repeater_tick, ticked, timer_just_finished,
    timer_new, timer_state, timer_tick, TimerState,
};
use crate::vector::{magnitude, Vec3, COORD_LIMIT, UNIT};
use bevy::time::Timer;
use vstd::prelude::*;

verus! {

/// Speed of a new bullet, in thousandths of a unit per second.
pub const BULLET_SPEED: u32 = 5000;

/// Time after which a bullet leaves by itself, in nanoseconds.
pub const BULLET_LIFETIME: u64 = 3_000_000_000;

/// An emplacement that fires bullets from a point offset from its place.
pub struct Tower {
    shooting_timer: Timer,
    bullet_offset: Vec3,
}

impl Tower {
    /// The state of the shooting timer.
    pub closed spec fn timer(&self) -> TimerState {
        timer_state(self.shooting_timer)
    }

    /// Where the bullets start, seen from the tower's place.
    pub closed spec fn offset(&self) -> Vec3 {
        self.bullet_offset
    }

    /// Whether the shooting timer repeats and runs.
    pub open spec fn wf(&self) -> bool {
        is_repeater(self.timer())
    }

    /// Where the bullets start, seen from the tower's place.
    pub fn bullet_offset(&self) -> (offset: Vec3)
        ensures
            offset == self.offset(),
    {
        self.bullet_offset
    }

    /// A tower that fires every `period` nanoseconds from `bullet_offset`.
    pub fn new(period: u64, bullet_offset: Vec3) -> (tower: Tower)
        requires
            period > 0,
        ensures
            tower.timer() == fresh(period as nat, true),
            tower.offset() == bullet_offset,
            tower.wf(),
    {
        Tower { shooting_timer: timer_new(period, true), bullet_offset }
    }

    /// Counts `delta` nanoseconds and says whether a period ended in this
    /// step.
    pub fn tick(&mut self, delta: u32) -> (fired: bool)
        requires
            old(self).wf(),
        ensures
            final(self).timer() == ticked(old(self).timer(), delta as nat),
            final(self).offset() == old(self).offset(),
            final(self).wf(),
            fired == just_finished(final(self).timer()),
    {
        proof {
            lemma_repeater_tick(self.timer(), delta as nat);
        }
        timer_tick(&mut self.shooting_timer, delta as u64);
        timer_just_finished(&self.shooting_timer)
    }
}

/// A tower with its place in the world.
pub struct TowerEntity {
    pub position: Vec3,
    pub tower: Tower,
}

/// What a tower entity holds.
pub struct TowerModel {
    pub position: Vec3,
    pub bullet_offset: Vec3,
    pub timer: TimerState,
}

impl View for TowerEntity {
    type V = TowerModel;

    open spec fn view(&self) -> TowerModel {
        TowerModel {
            position: self.position,
            bullet_offset: self.tower.offset(),
            timer: self.tower.timer(),
        }
    }
}

impl TowerEntity {
    /// Whether the tower is inside the simulated cube and its timer runs.
    pub open spec fn wf(&self) -> bool {
        self.position.in_bounds() && self.tower.wf()
    }
}

/// What each tower of a list holds.
pub open spec fn tower_models(towers: Seq<TowerEntity>) -> Seq<TowerModel> {
    towers.map_values(|t: TowerEntity| t@)
}

/// Whether every tower of a list is well formed.
pub open spec fn towers_wf(towers: Seq<TowerEntity>) -> bool {
    forall|i: int| 0 <= i < towers.len() ==> (#[trigger] towers[i]).wf()
}

/// Whether the target at index `i` is the nearest to `origin`: no target is
/// nearer, and every target before it is farther.
pub open spec fn is_nearest(origin: Vec3, targets: Seq<TargetModel>, i: int) -> bool {
    &&& 0 <= i < targets.len()
    &&& forall|j: int|
        0 <= j < targets.len() ==> targets[i].position.distance_squared(origin) <= (
        #[trigger] targets[j]).position.distance_squared(origin)
    &&& forall|j: int|
        0 <= j < i ==> targets[i].position.distance_squared(origin) < (
        #[trigger] targets[j]).position.distance_squared(origin)
}

/// The index of the target nearest to `origin`, the first of them where
/// several are equally near; none where there is no target.
pub open spec fn nearest(origin: Vec3, targets: Seq<TargetModel>) -> Option<int> {
    if targets.len() == 0 {
        None
    } else {
        Some(choose|i: int| is_nearest(origin, targets, i))
    }
}

/// Finds the target nearest to `origin` by one pass over the list.
pub fn nearest_target(origin: &Vec3, targets: &Vec<TargetEntity>) -> (found: Option<usize>)
    requires
        origin.in_bounds(),
        targets_wf(targets@),
    ensures
        match found {
            Some(i) => is_nearest(*origin, target_models(targets@), i as int) && nearest(
                *origin,
                target_models(targets@),
            ) == Some(i as int),
            None => targets.len() == 0 && nearest(*origin, target_models(targets@)) is None,
        },
{
    if targets.len() == 0 {
        return None;
    }
    let ghost models = target_models(targets@);
    let mut best: usize = 0;
    let mut best_distance: u128 = targets[0].position.distance_squared_to(origin);
    let mut j: usize = 1;
    while j < targets.len()
        invariant
            1 <= j <= targets.len(),
            origin.in_bounds(),
            targets_wf(targets@),
            models == target_models(targets@),
            best < j,
            best_distance == models[best as int].position.distance_squared(*origin),
            is_nearest(*origin, models.take(j as int), best as int),
        decreases targets.len() - j,
    {
        let distance: u128 = targets[j].position.distance_squared_to(origin);
        proof {
            assert forall|m: int| 0 <= m < j implies models.take(j + 1)[m] == models.take(
                j as int,
            )[m] by {}
        }
        if distance < best_distance {
            best = j;
            best_distance = distance;
        }
        j += 1;
    }
    proof {
        assert(models.take(j as int) =~= models);
        let chosen = choose|i: int| is_nearest(*origin, models, i);
        assert(is_nearest(*origin, models, chosen));
        assert(chosen == best);
    }
    Some(best)
}

/// The way a bullet flies whose target stands at the muzzle itself: along
/// the x axis, the way the targets travel.
pub open spec fn ahead() -> Vec3 {
    Vec3 { x: UNIT, y: 0, z: 0 }
}

/// The direction in which to fire along a displacement: the direction of the
/// displacement, or `ahead()` where the displacement is zero and has none.
pub open spec fn aim(displacement: Vec3) -> Vec3 {
    if displacement.length_squared() == 0 {
        ahead()
    } else {
        displacement.direction()
    }
}

/// The way ahead has unit length.
pub proof fn lemma_ahead_is_unit()
    ensures
        ahead().is_unit(),
{
    let (x, y, z) = (ahead().x as int, ahead().y as int, ahead().z as int);
    let (gx, gy, gz) = (magnitude(x) + 1, magnitude(y) + 1, magnitude(z) + 1);
    assert(x * x + y * y + z * z == 1_000_000_000_000 && gx * gx + gy * gy + gz * gz
        == 1_000_002_000_003) by (nonlinear_arith)
        requires
            x == 1_000_000 && y == 0 && z == 0,
            gx == 1_000_001 && gy == 1 && gz == 1,
    ;
}

/// The direction in which to fire along a displacement, of unit length
/// whatever the displacement.
pub fn take_aim(displacement: &Vec3) -> (direction: Vec3)
    requires
        displacement.within(2 * COORD_LIMIT),
    ensures
        direction == aim(*displacement),
        direction.is_unit(),
{
    proof {
        let (x, y, z) = (displacement.x as int, displacement.y as int, displacement.z as int);
        assert(x * x + y * y + z * z == 0 <==> x == 0 && y == 0 && z == 0) by (nonlinear_arith);
        lemma_ahead_is_unit();
    }
    if displacement.x == 0 && displacement.y == 0 && displacement.z == 0 {
        Vec3::new(UNIT, 0, 0)
    } else {
        displacement.normalize()
    }
}

/// The point from which a tower fires.
pub open spec fn muzzle(tower: TowerModel) -> Vec3 {
    tower.position.offset_by(tower.bullet_offset)
}

/// A tower after `delta` nanoseconds.
pub open spec fn tower_ticked(t: TowerModel, delta: u32) -> TowerModel {
    TowerModel { timer: ticked(t.timer, delta as nat), ..t }
}

/// What a tower fires after a tick: nothing unless its period has just ended
/// and there is a target; else one bullet at its muzzle that flies toward
/// the nearest target, or `ahead()` where that target stands at the muzzle.
pub open spec fn shot(tower: TowerModel, targets: Seq<TargetModel>) -> Option<Command> {
    if just_finished(tower.timer) {
        match nearest(muzzle(tower), targets) {
            Some(i) => Some(
                Command::SpawnBullet {
                    position: muzzle(tower),
                    direction: aim(targets[i].position.displacement_from(muzzle(tower))),
                    speed: BULLET_SPEED,
                    lifetime: BULLET_LIFETIME,
                },
            ),
            None => None,
        }
    } else {
        None
    }
}

/// What each tower fires at these targets.
pub open spec fn shots(targets: Seq<TargetModel>) -> spec_fn(TowerModel) -> Option<Command> {
    |tower: TowerModel| shot(tower, targets)
}

/// Ticks every tower and queues one bullet for each whose period has just
/// ended while a target exists.
pub fn tower_shooting(
    commands: &mut Vec<Command>,
    towers: &mut Vec<TowerEntity>,
    targets: &Vec<TargetEntity>,
    delta: u32,
)
    requires
        towers_wf(old(towers)@),
        targets_wf(targets@),
    ensures
        towers_wf(final(towers)@),
        tower_models(final(towers)@) == tower_models(old(towers)@).map_values(
            |t: TowerModel| tower_ticked(t, delta),
        ),
        final(commands)@ == old(commands)@ + tower_models(final(towers)@).filter_map(
            shots(target_models(targets@)),
        ),
        all_valid(old(commands)@) ==> all_valid(final(commands)@),
{
    let ghost fire = shots(target_models(targets@));
    let mut i: usize = 0;
    while i < towers.len()
        invariant
            i <= towers.len(),
            towers.len() == old(towers).len(),
            towers_wf(towers@),
            targets_wf(targets@),
            fire == shots(target_models(targets@)),
            forall|j: int|
                0 <= j < i ==> (#[trigger] towers[j])@ == tower_ticked(old(towers)[j]@, delta),
            forall|j: int| i <= j < towers.len() ==> #[trigger] towers[j] == old(towers)[j],
            commands@ == old(commands)@ + tower_models(towers@).take(i as int).filter_map(fire),
            all_valid(old(commands)@) ==> all_valid(commands@),
        decreases towers.len() - i,
    {
        let ghost before = towers@;
        let fired = towers[i].tower.tick(delta);
        proof {
            assert(tower_models(towers@).take(i as int) =~= tower_models(before).take(i as int));
            lemma_filter_map_step(tower_models(towers@), fire, i as int);
        }
        if fired {
            let offset = towers[i].tower.bullet_offset();
            let origin = towers[i].position.offset(&offset);
            match nearest_target(&origin, targets) {
                Some(found) => {
                    let direction = take_aim(&targets[found].position.displacement(&origin));
                    commands.push(
                        Command::SpawnBullet {
                            position: origin,
                            direction,
                            speed: BULLET_SPEED,
                            lifetime: BULLET_LIFETIME,
                        },
                    );
                },
                None => {},
            }
        }
        i += 1;
    }
    proof {
        assert(tower_models(towers@).take(i as int) =~= tower_models(towers@));
        assert(tower_models(towers@) =~= tower_models(old(towers)@).map_values(
            |t: TowerModel| tower_ticked(t, delta),
        ));
    }
}

} // verus!
