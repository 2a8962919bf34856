//! What holds of every world, whatever the frame.

use crate::bullet::{
    blows, bullet_moved, impacts, strikes, strikes_any, target_expiry, wounded, BulletModel,
};
use crate::command::Command;
use crate::target::{
    death, emission, spawner_ticked, target_moved, SpawnerModel, TargetModel, TARGET_HEALTH,
    TARGET_LIFETIME, TARGET_SPEED,
};
use crate::timer::{just_finished, ticked};
use crate::tower::{lemma_ahead_is_unit, muzzle, nearest, shot, shots, TowerModel};
use crate::sequence::lemma_filtered_is_member;
use crate::vector::{travel, Vec3, COORD_LIMIT};
use crate::world::{
    before_commands, collisions_resolved, counted, deaths_queued, lemma_command_keeps_order,
    moved, performed, performed_all, registered, stepped, targets_spawned, towers_fired,
    WorldModel,
};
use vstd::arithmetic::div_mod::{lemma_div_is_ordered, lemma_div_multiples_vanish_quotient};
use vstd::prelude::*;

verus! {

/// What an element gives under a mapping filter is in the result.
proof fn lemma_filter_map_has<A, B>(s: Seq<A>, f: spec_fn(A) -> Option<B>, i: int)
    requires
        0 <= i < s.len(),
        f(s[i]) is Some,
    ensures
        s.filter_map(f).contains(f(s[i])->0),
    decreases s.len(),
{
    let rest = s.drop_last();
    let given = rest.filter_map(f);
    if i == s.len() - 1 {
        let all = s.filter_map(f);
        assert(all[all.len() - 1] == f(s[i])->0);
    } else {
        lemma_filter_map_has(rest, f, i);
        let at = choose|at: int| 0 <= at < given.len() && given[at] == f(s[i])->0;
        assert(s.filter_map(f)[at] == f(s[i])->0);
    }
}

/// A mapping filter that gives nothing for any element gives nothing.
proof fn lemma_filter_map_nothing<A, B>(s: Seq<A>, f: spec_fn(A) -> Option<B>)
    requires
        forall|i: int| 0 <= i < s.len() ==> f(#[trigger] s[i]) is None,
    ensures
        s.filter_map(f) == Seq::<B>::empty(),
    decreases s.len(),
{
    if s.len() > 0 {
        let rest = s.drop_last();
        assert forall|i: int| 0 <= i < rest.len() implies f(#[trigger] rest[i]) is None by {
            assert(rest[i] == s[i]);
        }
        lemma_filter_map_nothing(rest, f);
        assert(f(s[s.len() - 1]) is None);
    }
}

/// Carrying out commands never gives out an identifier twice: the next
/// identifier does not fall, and every entity afterwards was there before or
/// has an identifier that was not yet given.
pub proof fn lemma_commands_keep_or_make(w: WorldModel, queue: Seq<Command>)
    ensures
        performed_all(w, queue).next_id >= w.next_id,
        forall|j: int|
            0 <= j < performed_all(w, queue).targets.len() ==> w.targets.contains(
                #[trigger] performed_all(w, queue).targets[j],
            ) || performed_all(w, queue).targets[j].id >= w.next_id,
        forall|j: int|
            0 <= j < performed_all(w, queue).bullets.len() ==> w.bullets.contains(
                #[trigger] performed_all(w, queue).bullets[j],
            ) || performed_all(w, queue).bullets[j].id >= w.next_id,
    decreases queue.len(),
{
    let after = performed_all(w, queue);
    if queue.len() == 0 {
        assert forall|j: int| 0 <= j < after.targets.len() implies w.targets.contains(
            #[trigger] after.targets[j],
        ) by {}
        assert forall|j: int| 0 <= j < after.bullets.len() implies w.bullets.contains(
            #[trigger] after.bullets[j],
        ) by {}
    } else {
        lemma_commands_keep_or_make(w, queue.drop_last());
        let before = performed_all(w, queue.drop_last());
        assert(after == performed(before, queue.last()));
        assert forall|j: int| 0 <= j < after.targets.len() implies w.targets.contains(
            #[trigger] after.targets[j],
        ) || after.targets[j].id >= w.next_id by {
            match queue.last() {
                Command::Despawn { id } => {
                    lemma_filtered_is_member(before.targets, |t: TargetModel| t.id != id, j);
                    let k = choose|k: int|
                        0 <= k < before.targets.len() && before.targets[k] == after.targets[j];
                    assert(w.targets.contains(before.targets[k]) || before.targets[k].id
                        >= w.next_id);
                },
                _ => {
                    if j < before.targets.len() {
                        assert(after.targets[j] == before.targets[j]);
                    }
                },
            }
        }
        assert forall|j: int| 0 <= j < after.bullets.len() implies w.bullets.contains(
            #[trigger] after.bullets[j],
        ) || after.bullets[j].id >= w.next_id by {
            match queue.last() {
                Command::Despawn { id } => {
                    lemma_filtered_is_member(before.bullets, |b: BulletModel| b.id != id, j);
                    let k = choose|k: int|
                        0 <= k < before.bullets.len() && before.bullets[k] == after.bullets[j];
                    assert(w.bullets.contains(before.bullets[k]) || before.bullets[k].id
                        >= w.next_id);
                },
                _ => {
                    if j < before.bullets.len() {
                        assert(after.bullets[j] == before.bullets[j]);
                    }
                },
            }
        }
    }
}

/// An entity whose removal is queued is gone when the queue has been carried
/// out, whatever else the queue holds.
pub proof fn lemma_despawned_is_gone(w: WorldModel, queue: Seq<Command>, id: u64)
    requires
        queue.contains(Command::Despawn { id }),
        id < w.next_id,
    ensures
        forall|j: int|
            0 <= j < performed_all(w, queue).targets.len() ==> (#[trigger] performed_all(
                w,
                queue,
            ).targets[j]).id != id,
        forall|j: int|
            0 <= j < performed_all(w, queue).bullets.len() ==> (#[trigger] performed_all(
                w,
                queue,
            ).bullets[j]).id != id,
    decreases queue.len(),
{
    let after = performed_all(w, queue);
    let before = performed_all(w, queue.drop_last());
    assert(after == performed(before, queue.last()));
    lemma_commands_keep_or_make(w, queue.drop_last());
    if queue.last() != (Command::Despawn { id }) {
        let at = choose|at: int| 0 <= at < queue.len() && queue[at] == (Command::Despawn { id });
        assert(queue.drop_last()[at] == (Command::Despawn { id }));
        lemma_despawned_is_gone(w, queue.drop_last(), id);
    }
    assert forall|j: int| 0 <= j < after.targets.len() implies (#[trigger] after.targets[j]).id
        != id by {
        match queue.last() {
            Command::Despawn { id: other } => {
                lemma_filtered_is_member(before.targets, |t: TargetModel| t.id != other, j);
                let k = choose|k: int|
                    0 <= k < before.targets.len() && before.targets[k] == after.targets[j];
                assert(other != id ==> before.targets[k].id != id);
            },
            _ => {
                if j < before.targets.len() {
                    assert(after.targets[j] == before.targets[j]);
                }
            },
        }
    }
    assert forall|j: int| 0 <= j < after.bullets.len() implies (#[trigger] after.bullets[j]).id
        != id by {
        match queue.last() {
            Command::Despawn { id: other } => {
                lemma_filtered_is_member(before.bullets, |b: BulletModel| b.id != other, j);
                let k = choose|k: int|
                    0 <= k < before.bullets.len() && before.bullets[k] == after.bullets[j];
                assert(other != id ==> before.bullets[k].id != id);
            },
            _ => {
                if j < before.bullets.len() {
                    assert(after.bullets[j] == before.bullets[j]);
                }
            },
        }
    }
}

/// Until the commands are carried out, a frame keeps every target in its
/// place in the list with its identifier, and takes health but gives none.
proof fn lemma_systems_keep_targets(w: WorldModel, delta: u32)
    ensures
        before_commands(w, delta).targets.len() == w.targets.len(),
        before_commands(w, delta).next_id == w.next_id,
        forall|i: int|
            0 <= i < w.targets.len() ==> (#[trigger] before_commands(w, delta).targets[i]).id
                == w.targets[i].id && before_commands(w, delta).targets[i].health
                <= w.targets[i].health,
{
}

/// Health is never gained: a target that is still there after a frame has no
/// more health than before it.
pub proof fn law_health_never_grows(w: WorldModel, delta: u32, i: int, j: int)
    requires
        registered(w),
        0 <= i < w.targets.len(),
        0 <= j < stepped(w, delta).targets.len(),
        stepped(w, delta).targets[j].id == w.targets[i].id,
    ensures
        stepped(w, delta).targets[j].health <= w.targets[i].health,
{
    let before = before_commands(w, delta);
    lemma_systems_keep_targets(w, delta);
    lemma_commands_keep_or_make(before, before.commands);
    let after = performed_all(before, before.commands);
    assert(stepped(w, delta).targets == after.targets);
    assert(before.targets.contains(after.targets[j]));
    let k = choose|k: int| 0 <= k < before.targets.len() && before.targets[k] == after.targets[j];
    assert(before.targets[k].id == w.targets[k].id);
    assert(k == i);
}

/// A target without health is reaped: whatever its lifetime says, it is gone
/// after the frame.
pub proof fn law_dead_target_is_reaped(w: WorldModel, delta: u32, i: int)
    requires
        registered(w),
        0 <= i < w.targets.len(),
        w.targets[i].health <= 0,
    ensures
        forall|j: int|
            0 <= j < stepped(w, delta).targets.len() ==> (#[trigger] stepped(
                w,
                delta,
            ).targets[j]).id != w.targets[i].id,
{
    let id = w.targets[i].id;
    let after_moves = moved(w, delta);
    let queued = deaths_queued(after_moves);
    let before = before_commands(w, delta);
    assert(after_moves.targets[i].id == id && after_moves.targets[i].health <= 0);
    lemma_filter_map_has(after_moves.targets, |t: TargetModel| death(t), i);
    let deaths = after_moves.targets.filter_map(|t: TargetModel| death(t));
    let at = choose|at: int| 0 <= at < deaths.len() && deaths[at] == (Command::Despawn { id });
    assert(queued.commands[after_moves.commands.len() + at] == (Command::Despawn { id }));
    assert(before.commands[after_moves.commands.len() + at] == (Command::Despawn { id }));
    lemma_despawned_is_gone(before, before.commands, id);
    assert(stepped(w, delta).targets == performed_all(before, before.commands).targets);
}

/// A target whose lifetime runs out in a frame is reaped: whatever its
/// health, it is gone after the frame.
pub proof fn law_expired_target_is_reaped(w: WorldModel, delta: u32, i: int)
    requires
        registered(w),
        0 <= i < w.targets.len(),
        just_finished(ticked(w.targets[i].lifetime, delta as nat)),
    ensures
        forall|j: int|
            0 <= j < stepped(w, delta).targets.len() ==> (#[trigger] stepped(
                w,
                delta,
            ).targets[j]).id != w.targets[i].id,
{
    let id = w.targets[i].id;
    let fired = towers_fired(targets_spawned(w, delta), delta);
    let aged = counted(w, delta);
    let before = before_commands(w, delta);
    assert(aged.targets[i].id == id && just_finished(aged.targets[i].lifetime));
    lemma_filter_map_has(
        aged.targets,
        |t: TargetModel| target_expiry(t),
        i,
    );
    let ends = aged.targets.filter_map(|t: TargetModel| target_expiry(t));
    let at = choose|at: int| 0 <= at < ends.len() && ends[at] == (Command::Despawn { id });
    assert(aged.commands[fired.commands.len() + at] == (Command::Despawn { id }));
    assert(before.commands[fired.commands.len() + at] == (Command::Despawn { id }));
    lemma_despawned_is_gone(before, before.commands, id);
    assert(stepped(w, delta).targets == performed_all(before, before.commands).targets);
}

/// A spawner emits one target, at its own place, in every tick in which its
/// timer fires, and nothing in any other tick.
pub proof fn law_spawner_emits_when_its_timer_fires(s: SpawnerModel, delta: u32)
    ensures
        just_finished(ticked(s.timer, delta as nat)) ==> emission(spawner_ticked(s, delta))
            == Some(
            Command::SpawnTarget {
                position: s.position,
                speed: TARGET_SPEED,
                health: TARGET_HEALTH,
                lifetime: TARGET_LIFETIME,
            },
        ),
        !just_finished(ticked(s.timer, delta as nat)) ==> emission(spawner_ticked(s, delta))
            is None,
{
}

/// A tower has nothing to fire at where there is no target.
pub proof fn law_no_target_no_shot(tower: TowerModel)
    ensures
        shot(tower, Seq::empty()) is None,
{
}

/// While the world holds no target, the towers queue no bullet, whatever
/// their timers say.
pub proof fn law_towers_hold_fire_without_targets(w: WorldModel, delta: u32)
    requires
        w.targets.len() == 0,
    ensures
        towers_fired(w, delta).commands == w.commands,
{
    let towers = towers_fired(w, delta).towers;
    lemma_filter_map_nothing(towers, shots(w.targets));
    assert(w.commands + Seq::<Command>::empty() =~= w.commands);
}

/// In a frame a target moves along the x axis by its speed times the time,
/// in millionths of a unit and rounded down, as long as it stays inside the
/// simulated cube; nothing else about it changes.
pub proof fn law_target_moves_along_x(t: TargetModel, delta: u32)
    requires
        -COORD_LIMIT <= t.position.x,
        t.position.x + (t.speed * delta) / 1_000_000 <= COORD_LIMIT,
    ensures
        target_moved(t, delta).position.x == t.position.x + (t.speed * delta) / 1_000_000,
        target_moved(t, delta).position.y == t.position.y,
        target_moved(t, delta).position.z == t.position.z,
        target_moved(t, delta).health == t.health,
        target_moved(t, delta).id == t.id,
{
    assert((t.speed * delta) / 1_000_000 >= 0) by (nonlinear_arith)
        requires
            t.speed >= 0,
            delta >= 0,
    ;
}

/// Whether a bullet stays inside the simulated cube when it flies for
/// `delta` nanoseconds.
pub open spec fn stays_inside(b: BulletModel, delta: u32) -> bool {
    &&& -COORD_LIMIT <= b.position.x + travel(b.direction.x as int, b.speed as int, delta as int)
        <= COORD_LIMIT
    &&& -COORD_LIMIT <= b.position.y + travel(b.direction.y as int, b.speed as int, delta as int)
        <= COORD_LIMIT
    &&& -COORD_LIMIT <= b.position.z + travel(b.direction.z as int, b.speed as int, delta as int)
        <= COORD_LIMIT
}

/// Whether `after` is `before` moved along `direction` at `speed` for `delta`
/// nanoseconds: each coordinate has changed by exactly the share of the
/// direction times the speed times the time, rounded toward zero.
pub open spec fn has_flown(
    before: Vec3,
    after: Vec3,
    direction: Vec3,
    speed: u32,
    delta: u32,
) -> bool {
    &&& after.x == before.x + travel(direction.x as int, speed as int, delta as int)
    &&& after.y == before.y + travel(direction.y as int, speed as int, delta as int)
    &&& after.z == before.z + travel(direction.z as int, speed as int, delta as int)
}

/// A coordinate moves no farther than the speed times the time.
proof fn lemma_travel_is_bounded(dir: int, speed: int, delta: int)
    requires
        -1_000_000 <= dir <= 1_000_000,
        0 <= speed,
        0 <= delta,
    ensures
        -((speed * delta) / 1_000_000) <= travel(dir, speed, delta) <= (speed * delta) / 1_000_000,
{
    let m = if dir >= 0 {
        dir
    } else {
        -dir
    };
    let way = speed * delta;
    assert(0 <= way && 0 <= m * way <= 1_000_000 * way && m * way == m * speed * delta && (dir
        >= 0 ==> dir * speed * delta == m * way) && (dir < 0 ==> dir * speed * delta == -(m * way)))
        by (nonlinear_arith)
        requires
            0 <= m <= 1_000_000,
            m == dir || m == -dir,
            dir >= 0 ==> m == dir,
            dir < 0 ==> m == -dir,
            0 <= speed,
            0 <= delta,
            way == speed * delta,
    ;
    lemma_div_is_ordered(m * way, 1_000_000 * way, 1_000_000_000_000);
    lemma_div_multiples_vanish_quotient(1_000_000, way, 1_000_000);
    assert(0 <= (m * way) / 1_000_000_000_000) by (nonlinear_arith)
        requires
            0 <= m * way,
    ;
}

/// A bullet that is farther from every face of the simulated cube than its
/// speed times the time stays inside the cube.
pub proof fn law_bullet_far_from_the_edge_stays_inside(b: BulletModel, delta: u32)
    requires
        b.direction.is_unit(),
        b.position.within(COORD_LIMIT - (b.speed * delta) / 1_000_000),
    ensures
        stays_inside(b, delta),
{
    b.direction.lemma_unit_is_short();
    lemma_travel_is_bounded(b.direction.x as int, b.speed as int, delta as int);
    lemma_travel_is_bounded(b.direction.y as int, b.speed as int, delta as int);
    lemma_travel_is_bounded(b.direction.z as int, b.speed as int, delta as int);
}

/// A bullet moves by its direction times its speed times the time, as long
/// as it stays inside the simulated cube, and keeps its direction and speed.
pub proof fn law_bullet_flies_straight(b: BulletModel, delta: u32)
    requires
        stays_inside(b, delta),
    ensures
        has_flown(b.position, bullet_moved(b, delta).position, b.direction, b.speed, delta),
        bullet_moved(b, delta).direction == b.direction,
        bullet_moved(b, delta).speed == b.speed,
{
}

/// In every frame, every bullet that is still there afterwards has moved by
/// its direction times its speed times the time of the frame, as long as it
/// stays inside the simulated cube, and has kept its direction and speed.
pub proof fn law_bullet_flies_straight_in_a_frame(w: WorldModel, delta: u32, k: int, j: int)
    requires
        registered(w),
        0 <= k < w.bullets.len(),
        0 <= j < stepped(w, delta).bullets.len(),
        stepped(w, delta).bullets[j].id == w.bullets[k].id,
        stays_inside(w.bullets[k], delta),
    ensures
        has_flown(
            w.bullets[k].position,
            stepped(w, delta).bullets[j].position,
            w.bullets[k].direction,
            w.bullets[k].speed,
            delta,
        ),
        stepped(w, delta).bullets[j].direction == w.bullets[k].direction,
        stepped(w, delta).bullets[j].speed == w.bullets[k].speed,
{
    let before = before_commands(w, delta);
    lemma_systems_keep_bullets(w, delta);
    lemma_commands_keep_or_make(before, before.commands);
    let after = performed_all(before, before.commands);
    assert(stepped(w, delta).bullets == after.bullets);
    assert(before.bullets.contains(after.bullets[j]));
    let at = choose|at: int|
        0 <= at < before.bullets.len() && before.bullets[at] == after.bullets[j];
    assert(before.bullets[at].id == w.bullets[at].id);
    assert(at == k);
}

/// A bullet that strikes takes exactly one point of health from one target:
/// where one bullet strikes a target the target has one point less, where
/// two strike it, two less.
pub proof fn law_each_blow_costs_one_point(w: WorldModel, j: int)
    requires
        0 <= j < w.targets.len(),
    ensures
        collisions_resolved(w).targets[j].health == wounded(
            w.targets[j].health,
            blows(w.bullets, w.targets, j),
        ),
        w.targets[j].health - blows(w.bullets, w.targets, j) >= i32::MIN ==> collisions_resolved(
            w,
        ).targets[j].health == w.targets[j].health - blows(w.bullets, w.targets, j),
{
}

/// A bullet strikes one target at most.
pub proof fn law_bullet_strikes_one_target(
    b: BulletModel,
    targets: Seq<TargetModel>,
    j: int,
    k: int,
)
    requires
        strikes(b, targets, j),
        strikes(b, targets, k),
    ensures
        j == k,
{
}

/// A bullet that is within the hit radius of a target when the bullets are
/// tested is gone after the frame.
pub proof fn law_bullet_that_hits_is_removed(w: WorldModel, delta: u32, k: int)
    requires
        registered(w),
        0 <= k < w.bullets.len(),
        strikes_any(
            before_commands(w, delta).bullets[k],
            deaths_queued(moved(w, delta)).targets,
        ),
    ensures
        forall|j: int|
            0 <= j < stepped(w, delta).bullets.len() ==> (#[trigger] stepped(
                w,
                delta,
            ).bullets[j]).id != w.bullets[k].id,
{
    let id = w.bullets[k].id;
    let queued = deaths_queued(moved(w, delta));
    let before = before_commands(w, delta);
    assert(queued.bullets[k].id == id && before.bullets[k] == queued.bullets[k]);
    lemma_filter_map_has(queued.bullets, impacts(queued.targets), k);
    let hits = queued.bullets.filter_map(impacts(queued.targets));
    let at = choose|at: int| 0 <= at < hits.len() && hits[at] == (Command::Despawn { id });
    assert(before.commands[queued.commands.len() + at] == (Command::Despawn { id }));
    lemma_despawned_is_gone(before, before.commands, id);
    assert(stepped(w, delta).bullets == performed_all(before, before.commands).bullets);
}

/// A bullet is made with a direction of unit length, up to the rounding of
/// its coordinates, wherever the target stands.
pub proof fn law_bullet_is_made_with_unit_direction(tower: TowerModel, targets: Seq<TargetModel>)
    requires
        shot(tower, targets) is Some,
    ensures
        shot(tower, targets) matches Some(Command::SpawnBullet { direction, .. })
            && direction.is_unit(),
{
    let way = targets[nearest(muzzle(tower), targets)->0].position.displacement_from(muzzle(tower));
    if way.length_squared() != 0 {
        way.lemma_direction_exists();
        way.lemma_direction_has_unit_length(way.direction());
    } else {
        lemma_ahead_is_unit();
    }
}

/// A queue of commands leaves the identifiers in order.
proof fn lemma_commands_keep_order(w: WorldModel, queue: Seq<Command>)
    requires
        registered(w),
    ensures
        registered(performed_all(w, queue)),
    decreases queue.len(),
{
    if queue.len() > 0 {
        lemma_commands_keep_order(w, queue.drop_last());
        lemma_command_keeps_order(performed_all(w, queue.drop_last()), queue.last());
    }
}

/// Until the commands are carried out, a frame keeps every bullet in its
/// place in the list with its identifier.
proof fn lemma_systems_keep_bullets(w: WorldModel, delta: u32)
    ensures
        before_commands(w, delta).bullets.len() == w.bullets.len(),
        before_commands(w, delta).next_id == w.next_id,
        forall|i: int|
            0 <= i < w.bullets.len() ==> (#[trigger] before_commands(w, delta).bullets[i]).id
                == w.bullets[i].id && before_commands(w, delta).bullets[i].position
                == bullet_moved(w.bullets[i], delta).position && before_commands(
                w,
                delta,
            ).bullets[i].direction == w.bullets[i].direction && before_commands(
                w,
                delta,
            ).bullets[i].speed == w.bullets[i].speed,
{
}

/// A frame leaves the identifiers in order, and gives out none that was
/// given before.
pub proof fn law_frame_keeps_identifiers_in_order(w: WorldModel, delta: u32)
    requires
        registered(w),
    ensures
        registered(stepped(w, delta)),
        stepped(w, delta).next_id >= w.next_id,
{
    let before = before_commands(w, delta);
    lemma_systems_keep_targets(w, delta);
    lemma_systems_keep_bullets(w, delta);
    assert(registered(before));
    lemma_commands_keep_order(before, before.commands);
    lemma_commands_keep_or_make(before, before.commands);
}

/// The world after a run of frames, one for each step of `deltas`.
pub open spec fn frames(w: WorldModel, deltas: Seq<u32>) -> WorldModel {
    deltas.fold_left(w, |acc: WorldModel, delta: u32| stepped(acc, delta))
}

/// Over any run of frames the identifiers stay in order.
pub proof fn law_frames_keep_identifiers_in_order(w: WorldModel, deltas: Seq<u32>)
    requires
        registered(w),
    ensures
        registered(frames(w, deltas)),
        frames(w, deltas).next_id >= w.next_id,
    decreases deltas.len(),
{
    if deltas.len() > 0 {
        law_frames_keep_identifiers_in_order(w, deltas.drop_last());
        law_frame_keeps_identifiers_in_order(frames(w, deltas.drop_last()), deltas.last());
    }
}

/// Health never grows over time: a target that is there after any run of
/// frames has no more health than it had before the run.
pub proof fn law_health_never_grows_over_time(
    w: WorldModel,
    deltas: Seq<u32>,
    i: int,
    j: int,
)
    requires
        registered(w),
        0 <= i < w.targets.len(),
        0 <= j < frames(w, deltas).targets.len(),
        frames(w, deltas).targets[j].id == w.targets[i].id,
    ensures
        frames(w, deltas).targets[j].health <= w.targets[i].health,
    decreases deltas.len(),
{
    if deltas.len() > 0 {
        let earlier = frames(w, deltas.drop_last());
        let delta = deltas.last();
        let id = w.targets[i].id;
        law_frames_keep_identifiers_in_order(w, deltas.drop_last());
        assert(frames(w, deltas) == stepped(earlier, delta));
        if exists|k: int|
            0 <= k < earlier.targets.len() && (#[trigger] earlier.targets[k]).id == id {
            let k = choose|k: int|
                0 <= k < earlier.targets.len() && (#[trigger] earlier.targets[k]).id == id;
            law_health_never_grows_over_time(w, deltas.drop_last(), i, k);
            law_health_never_grows(earlier, delta, k, j);
        } else {
            law_removed_target_stays_removed(earlier, delta, id);
        }
    }
}

/// A target that is gone does not come back: an identifier that was given
/// and that no target has is still without a target after the frame.
pub proof fn law_removed_target_stays_removed(w: WorldModel, delta: u32, id: u64)
    requires
        id < w.next_id,
        forall|i: int| 0 <= i < w.targets.len() ==> (#[trigger] w.targets[i]).id != id,
    ensures
        forall|j: int|
            0 <= j < stepped(w, delta).targets.len() ==> (#[trigger] stepped(
                w,
                delta,
            ).targets[j]).id != id,
{
    let before = before_commands(w, delta);
    lemma_systems_keep_targets(w, delta);
    lemma_commands_keep_or_make(before, before.commands);
    let after = performed_all(before, before.commands);
    assert(stepped(w, delta).targets == after.targets);
    assert forall|j: int| 0 <= j < after.targets.len() implies (#[trigger] after.targets[j]).id
        != id by {
        if before.targets.contains(after.targets[j]) {
            let k = choose|k: int|
                0 <= k < before.targets.len() && before.targets[k] == after.targets[j];
            assert(before.targets[k].id == w.targets[k].id);
        }
    }
}

/// A bullet that is gone does not come back: an identifier that was given
/// and that no bullet has is still without a bullet after the frame.
pub proof fn law_removed_bullet_stays_removed(w: WorldModel, delta: u32, id: u64)
    requires
        id < w.next_id,
        forall|i: int| 0 <= i < w.bullets.len() ==> (#[trigger] w.bullets[i]).id != id,
    ensures
        forall|j: int|
            0 <= j < stepped(w, delta).bullets.len() ==> (#[trigger] stepped(
                w,
                delta,
            ).bullets[j]).id != id,
{
    let before = before_commands(w, delta);
    lemma_systems_keep_bullets(w, delta);
    lemma_commands_keep_or_make(before, before.commands);
    let after = performed_all(before, before.commands);
    assert(stepped(w, delta).bullets == after.bullets);
    assert forall|j: int| 0 <= j < after.bullets.len() implies (#[trigger] after.bullets[j]).id
        != id by {
        if before.bullets.contains(after.bullets[j]) {
            let k = choose|k: int|
                0 <= k < before.bullets.len() && before.bullets[k] == after.bullets[j];
            assert(before.bullets[k].id == w.bullets[k].id);
        }
    }
}

} // verus!
