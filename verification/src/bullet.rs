//! Bullets: their flight, their end of life, and what they hit.

use crate::command::{all_valid, Command};
use crate::lifetime::Lifetime;
use crate::sequence::{lemma_filter_empty, lemma_filter_map_step, lemma_filter_step};
use crate::target::{target_models, targets_wf, TargetEntity, TargetModel};
use crate::timer::{just_finished, ticked, TimerState};
use crate::vector::Vec3;
use vstd::prelude::*;

verus! {

/// How close a bullet must come to a target to hit it, in millionths of a
/// unit.
pub const HIT_RADIUS: i64 = 250_000;

/// A projectile that flies along a fixed direction.
#[derive(Clone, Copy, Debug, PartialEq, Eq, Structural)]
pub struct Bullet {
    /// A vector of unit length.
    pub direction: Vec3,
    /// Thousandths of a unit per second.
    pub speed: u32,
}

/// A bullet with its identifier and its place in the world.
pub struct BulletEntity {
    pub id: u64,
    pub position: Vec3,
    pub bullet: Bullet,
    pub lifetime: Lifetime,
}

/// What a bullet entity holds.
pub struct BulletModel {
    pub id: u64,
    pub position: Vec3,
    pub direction: Vec3,
    pub speed: u32,
    pub lifetime: TimerState,
}

impl View for BulletEntity {
    type V = BulletModel;

    open spec fn view(&self) -> BulletModel {
        BulletModel {
            id: self.id,
            position: self.position,
            direction: self.bullet.direction,
            speed: self.bullet.speed,
            lifetime: self.lifetime@,
        }
    }
}

impl BulletEntity {
    /// Whether the bullet is inside the simulated cube, its direction of
    /// unit length, and its lifetime a countdown.
    pub open spec fn wf(&self) -> bool {
        self.position.in_bounds() && self.bullet.direction.is_unit() && self.lifetime.wf()
    }
}

/// What each bullet of a list holds.
pub open spec fn bullet_models(bullets: Seq<BulletEntity>) -> Seq<BulletModel> {
    bullets.map_values(|b: BulletEntity| b@)
}

/// Whether every bullet of a list is well formed.
pub open spec fn bullets_wf(bullets: Seq<BulletEntity>) -> bool {
    forall|i: int| 0 <= i < bullets.len() ==> (#[trigger] bullets[i]).wf()
}

/// A bullet after it has flown for `delta` nanoseconds.
pub open spec fn bullet_moved(b: BulletModel, delta: u32) -> BulletModel {
    BulletModel { position: b.position.advanced(b.direction, b.speed, delta as u64), ..b }
}

/// Moves every bullet along its direction by its speed times `delta`
/// nanoseconds.
pub fn move_bullets(bullets: &mut Vec<BulletEntity>, delta: u32)
    requires
        bullets_wf(old(bullets)@),
    ensures
        bullets_wf(final(bullets)@),
        bullet_models(final(bullets)@) == bullet_models(old(bullets)@).map_values(
            |b: BulletModel| bullet_moved(b, delta),
        ),
{
    let mut i: usize = 0;
    while i < bullets.len()
        invariant
            i <= bullets.len(),
            bullets.len() == old(bullets).len(),
            bullets_wf(bullets@),
            forall|j: int|
                0 <= j < i ==> (#[trigger] bullets[j])@ == bullet_moved(old(bullets)[j]@, delta),
            forall|j: int| i <= j < bullets.len() ==> #[trigger] bullets[j] == old(bullets)[j],
        decreases bullets.len() - i,
    {
        let direction = bullets[i].bullet.direction;
        let speed = bullets[i].bullet.speed;
        proof {
            direction.lemma_unit_is_short();
        }
        let position = bullets[i].position.advance(&direction, speed, delta as u64);
        bullets[i].position = position;
        i += 1;
    }
    proof {
        assert(bullet_models(bullets@) =~= bullet_models(old(bullets)@).map_values(
            |b: BulletModel| bullet_moved(b, delta),
        ));
    }
}

/// A target whose lifetime has counted `delta` nanoseconds.
pub open spec fn target_aged(t: TargetModel, delta: u32) -> TargetModel {
    TargetModel { lifetime: ticked(t.lifetime, delta as nat), ..t }
}

/// A bullet whose lifetime has counted `delta` nanoseconds.
pub open spec fn bullet_aged(b: BulletModel, delta: u32) -> BulletModel {
    BulletModel { lifetime: ticked(b.lifetime, delta as nat), ..b }
}

/// The removal of a target whose lifetime has just run out.
pub open spec fn target_expiry(t: TargetModel) -> Option<Command> {
    if just_finished(t.lifetime) {
        Some(Command::Despawn { id: t.id })
    } else {
        None
    }
}

/// The removal of a bullet whose lifetime has just run out.
pub open spec fn bullet_expiry(b: BulletModel) -> Option<Command> {
    if just_finished(b.lifetime) {
        Some(Command::Despawn { id: b.id })
    } else {
        None
    }
}

/// Counts `delta` nanoseconds on the lifetime of every entity that has one,
/// targets first, and queues the removal of each whose lifetime has just run
/// out, whatever its kind or health.
pub fn bullet_despawn(
    commands: &mut Vec<Command>,
    targets: &mut Vec<TargetEntity>,
    bullets: &mut Vec<BulletEntity>,
    delta: u32,
)
    requires
        targets_wf(old(targets)@),
        bullets_wf(old(bullets)@),
    ensures
        targets_wf(final(targets)@),
        bullets_wf(final(bullets)@),
        target_models(final(targets)@) == target_models(old(targets)@).map_values(
            |t: TargetModel| target_aged(t, delta),
        ),
        bullet_models(final(bullets)@) == bullet_models(old(bullets)@).map_values(
            |b: BulletModel| bullet_aged(b, delta),
        ),
        final(commands)@ == old(commands)@ + target_models(final(targets)@).filter_map(
            |t: TargetModel| target_expiry(t),
        ) + bullet_models(final(bullets)@).filter_map(|b: BulletModel| bullet_expiry(b)),
        all_valid(old(commands)@) ==> all_valid(final(commands)@),
{
    let ghost target_end = |t: TargetModel| target_expiry(t);
    let ghost bullet_end = |b: BulletModel| bullet_expiry(b);
    let mut i: usize = 0;
    while i < targets.len()
        invariant
            i <= targets.len(),
            targets.len() == old(targets).len(),
            targets_wf(targets@),
            target_end == |t: TargetModel| target_expiry(t),
            forall|j: int|
                0 <= j < i ==> (#[trigger] targets[j])@ == target_aged(old(targets)[j]@, delta),
            forall|j: int| i <= j < targets.len() ==> #[trigger] targets[j] == old(targets)[j],
            commands@ == old(commands)@ + target_models(targets@).take(i as int).filter_map(
                target_end,
            ),
            all_valid(old(commands)@) ==> all_valid(commands@),
        decreases targets.len() - i,
    {
        let ghost before = targets@;
        let expired = targets[i].lifetime.tick(delta);
        let id = targets[i].id;
        proof {
            assert(target_models(targets@).take(i as int) =~= target_models(before).take(i as int));
            lemma_filter_map_step(target_models(targets@), target_end, i as int);
        }
        if expired {
            commands.push(Command::Despawn { id });
        }
        i += 1;
    }
    proof {
        assert(target_models(targets@).take(i as int) =~= target_models(targets@));
        assert(target_models(targets@) =~= target_models(old(targets)@).map_values(
            |t: TargetModel| target_aged(t, delta),
        ));
    }
    let ghost midway = commands@;
    let mut i: usize = 0;
    while i < bullets.len()
        invariant
            i <= bullets.len(),
            bullets.len() == old(bullets).len(),
            bullets_wf(bullets@),
            bullet_end == |b: BulletModel| bullet_expiry(b),
            forall|j: int|
                0 <= j < i ==> (#[trigger] bullets[j])@ == bullet_aged(old(bullets)[j]@, delta),
            forall|j: int| i <= j < bullets.len() ==> #[trigger] bullets[j] == old(bullets)[j],
            commands@ == midway + bullet_models(bullets@).take(i as int).filter_map(bullet_end),
            all_valid(old(commands)@) ==> all_valid(commands@),
        decreases bullets.len() - i,
    {
        let ghost before = bullets@;
        let expired = bullets[i].lifetime.tick(delta);
        let id = bullets[i].id;
        proof {
            assert(bullet_models(bullets@).take(i as int) =~= bullet_models(before).take(i as int));
            lemma_filter_map_step(bullet_models(bullets@), bullet_end, i as int);
        }
        if expired {
            commands.push(Command::Despawn { id });
        }
        i += 1;
    }
    proof {
        assert(bullet_models(bullets@).take(i as int) =~= bullet_models(bullets@));
        assert(bullet_models(bullets@) =~= bullet_models(old(bullets)@).map_values(
            |b: BulletModel| bullet_aged(b, delta),
        ));
    }
}

/// Whether a bullet at `bullet` is within the hit radius of a target at
/// `target`.
pub open spec fn hits(bullet: Vec3, target: Vec3) -> bool {
    bullet.distance_squared(target) <= HIT_RADIUS * HIT_RADIUS
}

/// Whether the bullet strikes the target at index `j`: that target is the
/// first of the list within the hit radius.
pub open spec fn strikes(bullet: BulletModel, targets: Seq<TargetModel>, j: int) -> bool {
    &&& 0 <= j < targets.len()
    &&& hits(bullet.position, targets[j].position)
    &&& forall|k: int| 0 <= k < j ==> !hits(bullet.position, (#[trigger] targets[k]).position)
}

/// Whether the bullet is within the hit radius of any target.
pub open spec fn strikes_any(bullet: BulletModel, targets: Seq<TargetModel>) -> bool {
    exists|j: int|
        0 <= j < targets.len() && hits(bullet.position, (#[trigger] targets[j]).position)
}

/// The bullets that strike the target at index `j`.
pub open spec fn striking(targets: Seq<TargetModel>, j: int) -> spec_fn(BulletModel) -> bool {
    |b: BulletModel| strikes(b, targets, j)
}

/// How many of the bullets strike the target at index `j`.
pub open spec fn blows(bullets: Seq<BulletModel>, targets: Seq<TargetModel>, j: int) -> nat {
    bullets.filter(striking(targets, j)).len()
}

/// Health after a number of blows: one point less for each, down to the
/// least value that health can have.
pub open spec fn wounded(health: i32, blows: nat) -> i32 {
    if health - blows < i32::MIN {
        i32::MIN
    } else {
        (health - blows) as i32
    }
}

/// A target after a number of blows.
pub open spec fn target_struck(t: TargetModel, blows: nat) -> TargetModel {
    TargetModel { health: wounded(t.health, blows), ..t }
}

/// The removal of a bullet that has hit a target.
pub open spec fn impact(b: BulletModel, targets: Seq<TargetModel>) -> Option<Command> {
    if strikes_any(b, targets) {
        Some(Command::Despawn { id: b.id })
    } else {
        None
    }
}

/// What becomes of each bullet that meets these targets.
pub open spec fn impacts(targets: Seq<TargetModel>) -> spec_fn(BulletModel) -> Option<Command> {
    |b: BulletModel| impact(b, targets)
}

/// Whether two positions are within the hit radius of each other.
pub fn within_hit_radius(bullet: &Vec3, target: &Vec3) -> (hit: bool)
    requires
        bullet.in_bounds(),
        target.in_bounds(),
    ensures
        hit == hits(*bullet, *target),
{
    bullet.distance_squared_to(target) <= 62_500_000_000
}

/// The index of the first target within the hit radius of `position`.
pub fn first_hit(position: &Vec3, targets: &Vec<TargetEntity>) -> (found: Option<usize>)
    requires
        position.in_bounds(),
        targets_wf(targets@),
    ensures
        match found {
            Some(j) => {
                &&& j < targets.len()
                &&& hits(*position, targets[j as int].position)
                &&& forall|m: int| 0 <= m < j ==> !hits(*position, (#[trigger] targets[m]).position)
            },
            None => forall|m: int|
                0 <= m < targets.len() ==> !hits(*position, (#[trigger] targets[m]).position),
        },
{
    let mut j: usize = 0;
    while j < targets.len()
        invariant
            j <= targets.len(),
            position.in_bounds(),
            targets_wf(targets@),
            forall|m: int| 0 <= m < j ==> !hits(*position, (#[trigger] targets[m]).position),
        decreases targets.len() - j,
    {
        if within_hit_radius(position, &targets[j].position) {
            return Some(j);
        }
        j += 1;
    }
    None
}

/// Tests every bullet against the targets in turn. A bullet takes one point
/// of health from the first target within its hit radius and is queued for
/// removal; it hits no second target. A target loses a point for every
/// bullet that strikes it.
pub fn bullet_collision(
    commands: &mut Vec<Command>,
    bullets: &Vec<BulletEntity>,
    targets: &mut Vec<TargetEntity>,
)
    requires
        bullets_wf(bullets@),
        targets_wf(old(targets)@),
    ensures
        targets_wf(final(targets)@),
        target_models(final(targets)@) == Seq::new(
            old(targets)@.len(),
            |j: int|
                target_struck(
                    target_models(old(targets)@)[j],
                    blows(bullet_models(bullets@), target_models(old(targets)@), j),
                ),
        ),
        final(commands)@ == old(commands)@ + bullet_models(bullets@).filter_map(
            impacts(target_models(old(targets)@)),
        ),
        all_valid(old(commands)@) ==> all_valid(final(commands)@),
{
    let ghost before = target_models(targets@);
    let ghost shots = bullet_models(bullets@);
    let ghost end = impacts(before);
    proof {
        assert(shots.take(0) =~= Seq::empty());
        assert forall|j: int| 0 <= j < targets.len() implies (#[trigger] targets[j])@
            == target_struck(before[j], blows(shots.take(0), before, j)) by {
            lemma_filter_empty(striking(before, j));
        }
    }
    let mut k: usize = 0;
    while k < bullets.len()
        invariant
            k <= bullets.len(),
            bullets_wf(bullets@),
            shots == bullet_models(bullets@),
            before == target_models(old(targets)@),
            end == impacts(before),
            targets.len() == old(targets).len(),
            targets_wf(targets@),
            forall|j: int|
                0 <= j < targets.len() ==> (#[trigger] targets[j])@ == target_struck(
                    before[j],
                    blows(shots.take(k as int), before, j),
                ),
            commands@ == old(commands)@ + shots.take(k as int).filter_map(end),
            all_valid(old(commands)@) ==> all_valid(commands@),
        decreases bullets.len() - k,
    {
        let ghost earlier = targets@;
        let position = bullets[k].position;
        let found = first_hit(&position, targets);
        proof {
            lemma_filter_map_step(shots, end, k as int);
            assert forall|j: int| 0 <= j < targets.len() implies #[trigger] before[j].position
                == earlier[j].position by {
                assert(earlier[j]@ == target_struck(
                    before[j],
                    blows(shots.take(k as int), before, j),
                ));
            }
        }
        match found {
            Some(j) => {
                let health = targets[j].health.value;
                if health > i32::MIN {
                    targets[j].health.value = health - 1;
                }
                commands.push(Command::Despawn { id: bullets[k].id });
                proof {
                    assert(hits(shots[k as int].position, before[j as int].position));
                    assert(strikes(shots[k as int], before, j as int));
                    assert(strikes_any(shots[k as int], before));
                }
            },
            None => {
                proof {
                    assert(!strikes_any(shots[k as int], before));
                }
            },
        }
        proof {
            assert forall|j: int| 0 <= j < targets.len() implies (#[trigger] targets[j])@
                == target_struck(before[j], blows(shots.take(k + 1), before, j)) by {
                lemma_filter_step(shots, striking(before, j), k as int);
                assert(earlier[j]@ == target_struck(
                    before[j],
                    blows(shots.take(k as int), before, j),
                ));
                if found == Some(j as usize) {
                    assert(strikes(shots[k as int], before, j));
                } else {
                    assert(!strikes(shots[k as int], before, j));
                }
            }
        }
        k += 1;
    }
    proof {
        assert(shots.take(k as int) =~= shots);
        assert(target_models(targets@) =~= Seq::new(
            old(targets)@.len(),
            |j: int|
                target_struck(
                    target_models(old(targets)@)[j],
                    blows(bullet_models(bullets@), target_models(old(targets)@), j),
                ),
        ));
    }
}

} // verus!
