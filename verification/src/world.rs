//! The world: every entity of the simulation, the queue of pending
//! commands, and the step that moves the world by one frame.

use crate::bullet::{
    bullet_aged, bullet_collision, bullet_despawn, bullet_expiry, bullet_models, bullet_moved,
    bullets_wf, blows, impacts, move_bullets, target_aged, target_expiry, target_struck, Bullet,
    BulletEntity, BulletModel,
};
use crate::command::{all_valid, Command};
use crate::lifetime::Lifetime;
use crate::sequence::{
    grows, lemma_filter_empty, lemma_filter_keeps_growth, lemma_filter_step,
    lemma_filter_through_map, lemma_filtered_is_member,
};
use crate::target::{
    death, emission, move_targets, spawn_targets, spawner_models, spawner_ticked, spawners_wf,
    target_death, target_models, target_moved, targets_wf, Health, SpawnerEntity, SpawnerModel,
    Target, TargetEntity, TargetModel, TargetSpawner,
};
use crate::timer::fresh;
use crate::tower::{
    shots, tower_models, tower_shooting, tower_ticked, towers_wf, Tower, TowerEntity, TowerModel,
};
use crate::vector::Vec3;
use vstd::prelude::*;

verus! {

/// The entities of the simulation and the commands that wait for the end of
/// the frame.
pub struct World {
    pub towers: Vec<TowerEntity>,
    pub spawners: Vec<SpawnerEntity>,
    pub targets: Vec<TargetEntity>,
    pub bullets: Vec<BulletEntity>,
    pub commands: Vec<Command>,
    /// The identifier that the next new entity gets.
    pub next_id: u64,
}

/// What a world holds.
pub struct WorldModel {
    pub towers: Seq<TowerModel>,
    pub spawners: Seq<SpawnerModel>,
    pub targets: Seq<TargetModel>,
    pub bullets: Seq<BulletModel>,
    pub commands: Seq<Command>,
    pub next_id: u64,
}

impl View for World {
    type V = WorldModel;

    open spec fn view(&self) -> WorldModel {
        WorldModel {
            towers: tower_models(self.towers@),
            spawners: spawner_models(self.spawners@),
            targets: target_models(self.targets@),
            bullets: bullet_models(self.bullets@),
            commands: self.commands@,
            next_id: self.next_id,
        }
    }
}

/// Whether the identifiers of the targets grow along the list.
pub open spec fn target_ids_grow(targets: Seq<TargetModel>) -> bool {
    grows(targets, |t: TargetModel| t.id)
}

/// Whether the identifiers of the bullets grow along the list.
pub open spec fn bullet_ids_grow(bullets: Seq<BulletModel>) -> bool {
    grows(bullets, |b: BulletModel| b.id)
}

/// Whether the identifiers are in order: within the targets and within the
/// bullets they grow, no target shares one with a bullet, and all are below
/// the next one to be given.
pub open spec fn registered(w: WorldModel) -> bool {
    &&& target_ids_grow(w.targets)
    &&& bullet_ids_grow(w.bullets)
    &&& forall|i: int, j: int|
        0 <= i < w.targets.len() && 0 <= j < w.bullets.len() ==> (#[trigger] w.targets[i]).id != (
        #[trigger] w.bullets[j]).id
    &&& forall|i: int| 0 <= i < w.targets.len() ==> (#[trigger] w.targets[i]).id < w.next_id
    &&& forall|i: int| 0 <= i < w.bullets.len() ==> (#[trigger] w.bullets[i]).id < w.next_id
}

/// The targets but the one with the identifier `id`.
pub open spec fn targets_without(targets: Seq<TargetModel>, id: u64) -> Seq<TargetModel> {
    targets.filter(|t: TargetModel| t.id != id)
}

/// The bullets but the one with the identifier `id`.
pub open spec fn bullets_without(bullets: Seq<BulletModel>, id: u64) -> Seq<BulletModel> {
    bullets.filter(|b: BulletModel| b.id != id)
}

/// The world after one command. A new entity gets the next identifier and a
/// fresh lifetime; when the identifiers have run out, nothing is made. A
/// removal takes the entity with that identifier away, whatever its kind.
pub open spec fn performed(w: WorldModel, command: Command) -> WorldModel {
    match command {
        Command::SpawnTarget { position, speed, health, lifetime } => if w.next_id < u64::MAX {
            WorldModel {
                targets: w.targets.push(
                    TargetModel {
                        id: w.next_id,
                        position,
                        speed,
                        health,
                        lifetime: fresh(lifetime as nat, false),
                    },
                ),
                next_id: (w.next_id + 1) as u64,
                ..w
            }
        } else {
            w
        },
        Command::SpawnBullet { position, direction, speed, lifetime } => if w.next_id < u64::MAX {
            WorldModel {
                bullets: w.bullets.push(
                    BulletModel {
                        id: w.next_id,
                        position,
                        direction,
                        speed,
                        lifetime: fresh(lifetime as nat, false),
                    },
                ),
                next_id: (w.next_id + 1) as u64,
                ..w
            }
        } else {
            w
        },
        Command::Despawn { id } => WorldModel {
            targets: targets_without(w.targets, id),
            bullets: bullets_without(w.bullets, id),
            ..w
        },
    }
}

/// The world after the commands of `queue`, one after the other.
pub open spec fn performed_all(w: WorldModel, queue: Seq<Command>) -> WorldModel {
    queue.fold_left(w, |acc: WorldModel, command: Command| performed(acc, command))
}

/// The world after its pending commands, with the queue empty.
pub open spec fn applied(w: WorldModel) -> WorldModel {
    WorldModel { commands: Seq::empty(), ..performed_all(w, w.commands) }
}

/// An entity that is told from the others by an identifier.
pub trait Identified {
    /// The identifier of the entity.
    spec fn ident(&self) -> u64;

    /// The identifier of the entity.
    fn id_of(&self) -> (id: u64)
        ensures
            id == self.ident(),
    ;
}

impl Identified for TargetEntity {
    open spec fn ident(&self) -> u64 {
        self.id
    }

    fn id_of(&self) -> (id: u64) {
        self.id
    }
}

impl Identified for BulletEntity {
    open spec fn ident(&self) -> u64 {
        self.id
    }

    fn id_of(&self) -> (id: u64) {
        self.id
    }
}

/// Takes the entities with the identifier `id` out of the list and leaves
/// the others in their order.
pub fn remove_by_id<E: Identified>(list: &mut Vec<E>, id: u64)
    ensures
        final(list)@ == old(list)@.filter(|e: E| e.ident() != id),
{
    let ghost keep = |e: E| e.ident() != id;
    let ghost before = list@;
    let ghost mut k: int = 0;
    let mut i: usize = 0;
    proof {
        lemma_filter_empty(keep);
        assert(before.take(0) =~= Seq::empty());
        assert(list@.take(0) =~= Seq::empty());
    }
    while i < list.len()
        invariant
            keep == |e: E| e.ident() != id,
            before == old(list)@,
            0 <= k <= before.len(),
            i <= list.len(),
            list.len() - i == before.len() - k,
            list@.take(i as int) == before.take(k).filter(keep),
            forall|m: int| i <= m < list.len() ==> #[trigger] list[m] == before[m - i + k],
        decreases list.len() - i,
    {
        let ghost earlier = list@;
        proof {
            lemma_filter_step(before, keep, k);
            assert(before[k] == earlier[i as int]);
        }
        if list[i].id_of() == id {
            list.remove(i);
            proof {
                assert(list@.take(i as int) =~= earlier.take(i as int));
            }
        } else {
            proof {
                assert(list@.take(i + 1) =~= list@.take(i as int).push(before[k]));
            }
            i += 1;
        }
        proof {
            k = k + 1;
        }
    }
    proof {
        assert(list@.take(i as int) =~= list@);
        assert(before.take(k) =~= before);
    }
}

/// One command leaves the identifiers in order, and takes none back.
pub proof fn lemma_command_keeps_order(w: WorldModel, command: Command)
    requires
        registered(w),
    ensures
        registered(performed(w, command)),
        performed(w, command).next_id >= w.next_id,
{
    let after = performed(w, command);
    match command {
        Command::Despawn { id } => {
            let keep_target = |t: TargetModel| t.id != id;
            let keep_bullet = |b: BulletModel| b.id != id;
            lemma_filter_keeps_growth(w.targets, |t: TargetModel| t.id, keep_target);
            lemma_filter_keeps_growth(w.bullets, |b: BulletModel| b.id, keep_bullet);
            assert forall|i: int| 0 <= i < after.targets.len() implies w.targets.contains(
                #[trigger] after.targets[i],
            ) by {
                lemma_filtered_is_member(w.targets, keep_target, i);
            }
            assert forall|i: int| 0 <= i < after.bullets.len() implies w.bullets.contains(
                #[trigger] after.bullets[i],
            ) by {
                lemma_filtered_is_member(w.bullets, keep_bullet, i);
            }
        },
        _ => {},
    }
}

/// The world after the spawners have ticked and queued their targets.
pub open spec fn targets_spawned(w: WorldModel, delta: u32) -> WorldModel {
    let spawners = w.spawners.map_values(|s: SpawnerModel| spawner_ticked(s, delta));
    WorldModel {
        spawners,
        commands: w.commands + spawners.filter_map(|s: SpawnerModel| emission(s)),
        ..w
    }
}

/// The world after the towers have ticked and queued their bullets.
pub open spec fn towers_fired(w: WorldModel, delta: u32) -> WorldModel {
    let towers = w.towers.map_values(|t: TowerModel| tower_ticked(t, delta));
    WorldModel { towers, commands: w.commands + towers.filter_map(shots(w.targets)), ..w }
}

/// The world after every lifetime has counted the step and the entities
/// whose lifetime ran out are queued for removal.
pub open spec fn lifetimes_counted(w: WorldModel, delta: u32) -> WorldModel {
    let targets = w.targets.map_values(|t: TargetModel| target_aged(t, delta));
    let bullets = w.bullets.map_values(|b: BulletModel| bullet_aged(b, delta));
    WorldModel {
        targets,
        bullets,
        commands: w.commands + targets.filter_map(|t: TargetModel| target_expiry(t))
            + bullets.filter_map(|b: BulletModel| bullet_expiry(b)),
        ..w
    }
}

/// The world after the targets have moved.
pub open spec fn targets_moved(w: WorldModel, delta: u32) -> WorldModel {
    WorldModel { targets: w.targets.map_values(|t: TargetModel| target_moved(t, delta)), ..w }
}

/// The world after the bullets have moved.
pub open spec fn bullets_moved(w: WorldModel, delta: u32) -> WorldModel {
    WorldModel { bullets: w.bullets.map_values(|b: BulletModel| bullet_moved(b, delta)), ..w }
}

/// The world after the targets without health are queued for removal.
pub open spec fn deaths_queued(w: WorldModel) -> WorldModel {
    WorldModel { commands: w.commands + w.targets.filter_map(|t: TargetModel| death(t)), ..w }
}

/// The world after the bullets have struck: each target has lost a point of
/// health for every bullet that strikes it, and those bullets are queued for
/// removal.
pub open spec fn collisions_resolved(w: WorldModel) -> WorldModel {
    WorldModel {
        targets: Seq::new(
            w.targets.len(),
            |j: int| target_struck(w.targets[j], blows(w.bullets, w.targets, j)),
        ),
        commands: w.commands + w.bullets.filter_map(impacts(w.targets)),
        ..w
    }
}

/// The world after the spawners, the towers and the lifetimes have had
/// their tick.
pub open spec fn counted(w: WorldModel, delta: u32) -> WorldModel {
    lifetimes_counted(towers_fired(targets_spawned(w, delta), delta), delta)
}

/// The world after the ticks and the moves of a frame.
pub open spec fn moved(w: WorldModel, delta: u32) -> WorldModel {
    bullets_moved(targets_moved(counted(w, delta), delta), delta)
}

/// The world after every system of a frame has run, just before the queued
/// commands are carried out.
pub open spec fn before_commands(w: WorldModel, delta: u32) -> WorldModel {
    collisions_resolved(deaths_queued(moved(w, delta)))
}

/// The world one frame of `delta` nanoseconds later: the systems run in a
/// fixed order, then the queued commands are carried out.
pub open spec fn stepped(w: WorldModel, delta: u32) -> WorldModel {
    applied(before_commands(w, delta))
}

impl World {
    /// Whether every entity is well formed, every pending command valid, and
    /// the identifiers in order.
    pub open spec fn wf(&self) -> bool {
        &&& towers_wf(self.towers@)
        &&& spawners_wf(self.spawners@)
        &&& targets_wf(self.targets@)
        &&& bullets_wf(self.bullets@)
        &&& all_valid(self.commands@)
        &&& registered(self@)
    }

    /// A world without entities.
    pub fn new() -> (world: World)
        ensures
            world.wf(),
            world@ == (WorldModel {
                towers: Seq::empty(),
                spawners: Seq::empty(),
                targets: Seq::empty(),
                bullets: Seq::empty(),
                commands: Seq::empty(),
                next_id: 0,
            }),
    {
        let world = World {
            towers: Vec::new(),
            spawners: Vec::new(),
            targets: Vec::new(),
            bullets: Vec::new(),
            commands: Vec::new(),
            next_id: 0,
        };
        proof {
            assert(world@.towers =~= Seq::empty());
            assert(world@.spawners =~= Seq::empty());
            assert(world@.targets =~= Seq::empty());
            assert(world@.bullets =~= Seq::empty());
        }
        world
    }

    /// Carries out the pending commands in the order in which they were
    /// queued, and empties the queue.
    pub fn apply_commands(&mut self)
        requires
            old(self).wf(),
        ensures
            final(self).wf(),
            final(self)@ == applied(old(self)@),
    {
        let ghost perform = |acc: WorldModel, command: Command| performed(acc, command);
        let ghost queue = self.commands@;
        let mut k: usize = 0;
        while k < self.commands.len()
            invariant
                perform == |acc: WorldModel, command: Command| performed(acc, command),
                queue == old(self).commands@,
                self.commands@ == queue,
                k <= queue.len(),
                self.wf(),
                self@ == queue.take(k as int).fold_left(old(self)@, perform),
            decreases self.commands.len() - k,
        {
            let command = self.commands[k];
            let ghost earlier = self@;
            proof {
                assert(queue.take(k + 1).drop_last() =~= queue.take(k as int));
                assert(queue.take(k + 1).last() == command);
                assert(command.valid());
            }
            match command {
                Command::SpawnTarget { position, speed, health, lifetime } => {
                    if self.next_id < u64::MAX {
                        let ghost targets = self.targets@;
                        let entity = TargetEntity {
                            id: self.next_id,
                            position,
                            target: Target { speed },
                            health: Health { value: health },
                            lifetime: Lifetime::new(lifetime),
                        };
                        self.targets.push(entity);
                        self.next_id = self.next_id + 1;
                        proof {
                            assert(target_models(self.targets@) =~= target_models(targets).push(
                                entity@,
                            ));
                        }
                    }
                },
                Command::SpawnBullet { position, direction, speed, lifetime } => {
                    if self.next_id < u64::MAX {
                        let ghost bullets = self.bullets@;
                        let entity = BulletEntity {
                            id: self.next_id,
                            position,
                            bullet: Bullet { direction, speed },
                            lifetime: Lifetime::new(lifetime),
                        };
                        self.bullets.push(entity);
                        self.next_id = self.next_id + 1;
                        proof {
                            assert(bullet_models(self.bullets@) =~= bullet_models(bullets).push(
                                entity@,
                            ));
                        }
                    }
                },
                Command::Despawn { id } => {
                    let ghost targets = self.targets@;
                    let ghost bullets = self.bullets@;
                    remove_by_id(&mut self.targets, id);
                    remove_by_id(&mut self.bullets, id);
                    proof {
                        let kept_target = |e: TargetEntity| e.ident() != id;
                        let kept_bullet = |e: BulletEntity| e.ident() != id;
                        lemma_filter_through_map(
                            targets,
                            |t: TargetEntity| t@,
                            kept_target,
                            |t: TargetModel| t.id != id,
                        );
                        lemma_filter_through_map(
                            bullets,
                            |b: BulletEntity| b@,
                            kept_bullet,
                            |b: BulletModel| b.id != id,
                        );
                        assert forall|i: int| 0 <= i < self.targets.len() implies (
                        #[trigger] self.targets[i]).wf() by {
                            lemma_filtered_is_member(targets, kept_target, i);
                        }
                        assert forall|i: int| 0 <= i < self.bullets.len() implies (
                        #[trigger] self.bullets[i]).wf() by {
                            lemma_filtered_is_member(bullets, kept_bullet, i);
                        }
                    }
                },
            }
            proof {
                assert(self@ == performed(earlier, command));
                lemma_command_keeps_order(earlier, command);
            }
            k += 1;
        }
        proof {
            assert(queue.take(k as int) =~= queue);
        }
        self.commands = Vec::new();
    }

    /// Moves the world by one frame of `delta` nanoseconds.
    pub fn step(&mut self, delta: u32)
        requires
            old(self).wf(),
        ensures
            final(self).wf(),
            final(self)@ == stepped(old(self)@, delta),
    {
        spawn_targets(&mut self.commands, &mut self.spawners, delta);
        tower_shooting(&mut self.commands, &mut self.towers, &self.targets, delta);
        bullet_despawn(&mut self.commands, &mut self.targets, &mut self.bullets, delta);
        move_targets(&mut self.targets, delta);
        move_bullets(&mut self.bullets, delta);
        target_death(&mut self.commands, &self.targets);
        bullet_collision(&mut self.commands, &self.bullets, &mut self.targets);
        self.apply_commands();
    }
}

/// Time between two shots of the tower of the basic scene, in nanoseconds.
pub const TOWER_PERIOD: u64 = 1_000_000_000;

/// Time between two targets of the spawner of the basic scene, in
/// nanoseconds.
pub const SPAWN_PERIOD: u64 = 3_000_000_000;

/// The tower of the basic scene: a little above the ground, firing once a
/// second from a point in front of it.
pub open spec fn basic_tower() -> TowerModel {
    TowerModel {
        position: Vec3 { x: 0, y: 500_000, z: 1_000_000 },
        bullet_offset: Vec3 { x: 0, y: 0, z: 600_000 },
        timer: fresh(TOWER_PERIOD as nat, true),
    }
}

/// The spawner of the basic scene: at a corner of the ground, emitting every
/// three seconds.
pub open spec fn basic_spawner() -> SpawnerModel {
    SpawnerModel {
        position: Vec3 { x: -2_500_000i64, y: 500_000, z: 2_500_000 },
        timer: fresh(SPAWN_PERIOD as nat, true),
    }
}

/// The world as the game starts: one tower, one spawner, no target, no
/// bullet, nothing pending.
pub fn spawn_basic_scene() -> (world: World)
    ensures
        world.wf(),
        world@ == (WorldModel {
            towers: seq![basic_tower()],
            spawners: seq![basic_spawner()],
            targets: Seq::empty(),
            bullets: Seq::empty(),
            commands: Seq::empty(),
            next_id: 0,
        }),
{
    let mut world = World::new();
    world.towers.push(
        TowerEntity {
            position: Vec3::new(0, 500_000, 1_000_000),
            tower: Tower::new(TOWER_PERIOD, Vec3::new(0, 0, 600_000)),
        },
    );
    world.spawners.push(
        SpawnerEntity {
            position: Vec3::new(-2_500_000, 500_000, 2_500_000),
            spawner: TargetSpawner::new(SPAWN_PERIOD),
        },
    );
    proof {
        assert(world@.towers =~= seq![basic_tower()]);
        assert(world@.spawners =~= seq![basic_spawner()]);
        assert(world@.targets =~= Seq::empty());
        assert(world@.bullets =~= Seq::empty());
    }
    world
}

} // verus!
