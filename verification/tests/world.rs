use tower_defence::bullet::{Bullet, BulletEntity};
use tower_defence::command::Command;
use tower_defence::lifetime::Lifetime;
use tower_defence::target::{Health, Target, TargetEntity};
use tower_defence::vector::Vec3;
use tower_defence::world::{remove_by_id, spawn_basic_scene, World, SPAWN_PERIOD, TOWER_PERIOD};

fn target(id: u64, x: i64, health: i32, lifetime: u64) -> TargetEntity {
    TargetEntity {
        id,
        position: Vec3::new(x, 0, 0),
        target: Target { speed: 500 },
        health: Health { value: health },
        lifetime: Lifetime::new(lifetime),
    }
}

fn bullet(id: u64, x: i64) -> BulletEntity {
    BulletEntity {
        id,
        position: Vec3::new(x, 0, 0),
        bullet: Bullet { direction: Vec3::new(1_000_000, 0, 0), speed: 5000 },
        lifetime: Lifetime::new(3_000_000_000),
    }
}

fn target_ids(world: &World) -> Vec<u64> {
    world.targets.iter().map(|t| t.id).collect()
}

fn bullet_ids(world: &World) -> Vec<u64> {
    world.bullets.iter().map(|b| b.id).collect()
}

#[test]
fn new_world_is_empty() {
    let world = World::new();
    assert!(world.towers.is_empty());
    assert!(world.spawners.is_empty());
    assert!(world.targets.is_empty());
    assert!(world.bullets.is_empty());
    assert!(world.commands.is_empty());
    assert_eq!(world.next_id, 0);
}

#[test]
fn basic_scene_has_one_tower_and_one_spawner() {
    let world = spawn_basic_scene();
    assert_eq!(world.towers.len(), 1);
    assert_eq!(world.towers[0].position, Vec3::new(0, 500_000, 1_000_000));
    assert_eq!(world.towers[0].tower.bullet_offset(), Vec3::new(0, 0, 600_000));
    assert_eq!(world.spawners.len(), 1);
    assert_eq!(world.spawners[0].position, Vec3::new(-2_500_000, 500_000, 2_500_000));
    assert!(world.targets.is_empty());
    assert!(world.bullets.is_empty());
    assert!(world.commands.is_empty());
    assert_eq!(world.next_id, 0);
    assert_eq!(TOWER_PERIOD, 1_000_000_000);
    assert_eq!(SPAWN_PERIOD, 3_000_000_000);
}

#[test]
fn commands_are_carried_out_in_order_and_the_queue_is_emptied() {
    let mut world = World::new();
    world.commands.push(Command::SpawnTarget {
        position: Vec3::new(1, 2, 3),
        speed: 500,
        health: 5,
        lifetime: 10_000_000_000,
    });
    world.commands.push(Command::SpawnBullet {
        position: Vec3::new(4, 5, 6),
        direction: Vec3::new(1_000_000, 0, 0),
        speed: 5000,
        lifetime: 3_000_000_000,
    });
    world.commands.push(Command::SpawnTarget {
        position: Vec3::new(7, 8, 9),
        speed: 250,
        health: 1,
        lifetime: 1,
    });
    world.apply_commands();
    assert!(world.commands.is_empty());
    assert_eq!(world.next_id, 3);
    assert_eq!(target_ids(&world), vec![0, 2]);
    assert_eq!(bullet_ids(&world), vec![1]);
    assert_eq!(world.targets[0].position, Vec3::new(1, 2, 3));
    assert_eq!(world.targets[0].target, Target { speed: 500 });
    assert_eq!(world.targets[0].health, Health { value: 5 });
    assert_eq!(world.targets[1].position, Vec3::new(7, 8, 9));
    assert_eq!(world.targets[1].target, Target { speed: 250 });
    assert_eq!(world.targets[1].health, Health { value: 1 });
    assert_eq!(world.bullets[0].position, Vec3::new(4, 5, 6));
    assert_eq!(
        world.bullets[0].bullet,
        Bullet { direction: Vec3::new(1_000_000, 0, 0), speed: 5000 }
    );
}

#[test]
fn new_entities_start_their_lifetime_afresh() {
    let mut world = World::new();
    world.commands.push(Command::SpawnTarget {
        position: Vec3::new(0, 0, 0),
        speed: 500,
        health: 5,
        lifetime: 100,
    });
    world.apply_commands();
    assert!(!world.targets[0].lifetime.tick(99));
    assert!(world.targets[0].lifetime.tick(1));
}

#[test]
fn despawn_removes_the_entity_of_either_kind_and_keeps_the_order() {
    let mut world = World::new();
    world.targets = vec![target(0, 0, 5, 100), target(2, 0, 5, 100), target(5, 0, 5, 100)];
    world.bullets = vec![bullet(1, 0), bullet(3, 0), bullet(4, 0)];
    world.next_id = 6;
    world.commands = vec![Command::Despawn { id: 2 }, Command::Despawn { id: 3 }];
    world.apply_commands();
    assert_eq!(target_ids(&world), vec![0, 5]);
    assert_eq!(bullet_ids(&world), vec![1, 4]);
    assert_eq!(world.next_id, 6);
    assert!(world.commands.is_empty());
}

#[test]
fn despawn_of_an_entity_that_is_gone_does_nothing() {
    let mut world = World::new();
    world.targets = vec![target(0, 0, 5, 100)];
    world.bullets = vec![bullet(1, 0)];
    world.next_id = 2;
    world.commands = vec![
        Command::Despawn { id: 1 },
        Command::Despawn { id: 1 },
        Command::Despawn { id: 7 },
        Command::Despawn { id: u64::MAX },
    ];
    world.apply_commands();
    assert_eq!(target_ids(&world), vec![0]);
    assert!(world.bullets.is_empty());
}

#[test]
fn nothing_is_made_when_the_identifiers_have_run_out() {
    let mut world = World::new();
    world.next_id = u64::MAX - 1;
    let spawn =
        Command::SpawnTarget { position: Vec3::new(0, 0, 0), speed: 1, health: 1, lifetime: 1 };
    world.commands = vec![spawn, spawn, spawn];
    world.apply_commands();
    assert_eq!(target_ids(&world), vec![u64::MAX - 1]);
    assert_eq!(world.next_id, u64::MAX);
}

#[test]
fn target_without_health_is_reaped_though_its_lifetime_runs() {
    let mut world = World::new();
    world.targets = vec![target(0, 0, 0, 10_000_000_000), target(1, 0, 1, 10_000_000_000)];
    world.next_id = 2;
    world.step(1_000);
    assert_eq!(target_ids(&world), vec![1]);
}

#[test]
fn target_whose_lifetime_ends_is_reaped_though_it_has_health() {
    let mut world = World::new();
    world.targets = vec![target(0, 0, 5, 1_000), target(1, 0, 5, 1_001)];
    world.next_id = 2;
    world.step(1_000);
    assert_eq!(target_ids(&world), vec![1]);
    assert_eq!(world.targets[0].health.value, 5);
    world.step(1);
    assert!(world.targets.is_empty());
}

#[test]
fn target_that_loses_its_last_point_is_reaped_in_the_next_frame() {
    let mut world = World::new();
    world.targets = vec![target(0, 0, 1, 10_000_000_000)];
    world.bullets = vec![bullet(1, 100_000)];
    world.next_id = 2;
    world.step(1_000_000);
    // the bullet is gone at once; the target is found dead in the next frame
    assert!(world.bullets.is_empty());
    assert_eq!(target_ids(&world), vec![0]);
    assert_eq!(world.targets[0].health.value, 0);
    world.step(1_000_000);
    assert!(world.targets.is_empty());
}

#[test]
fn two_bullets_in_one_frame_take_two_points() {
    let mut world = World::new();
    world.targets = vec![target(0, 0, 5, 10_000_000_000)];
    world.bullets = vec![bullet(1, 100_000), bullet(2, -100_000), bullet(3, 900_000)];
    world.next_id = 4;
    world.step(0);
    assert_eq!(world.targets[0].health.value, 3);
    assert_eq!(bullet_ids(&world), vec![3]);
}

#[test]
fn basic_scene_spawns_a_target_every_three_seconds() {
    let mut world = spawn_basic_scene();
    let half_second: u32 = 500_000_000;
    for _ in 0..5 {
        world.step(half_second);
        assert!(world.targets.is_empty());
    }
    world.step(half_second);
    assert_eq!(target_ids(&world), vec![0]);
    assert_eq!(world.targets[0].position, Vec3::new(-2_500_000, 500_000, 2_500_000));
    assert_eq!(world.targets[0].health.value, 5);
    assert_eq!(world.targets[0].target.speed, 500);
    assert!(world.bullets.is_empty());
    // half a second later the target has moved a quarter of a unit
    world.step(half_second);
    assert_eq!(world.targets[0].position, Vec3::new(-2_250_000, 500_000, 2_500_000));
    assert!(world.bullets.is_empty());
    // at four seconds the tower fires
    world.step(half_second);
    assert_eq!(world.targets[0].position, Vec3::new(-2_000_000, 500_000, 2_500_000));
    assert_eq!(bullet_ids(&world), vec![1]);
    assert_eq!(world.bullets[0].position, Vec3::new(0, 500_000, 1_600_000));
    assert_eq!(world.bullets[0].bullet.speed, 5000);
    // the tower aimed at the place the target had when the frame began:
    // from (0, 0.5, 1.6) to (-2.25, 0.5, 2.5)
    assert_eq!(world.bullets[0].bullet.direction, Vec3::new(-928_476, 0, 371_390));
}

#[test]
fn basic_scene_over_twenty_seconds_never_heals_and_reaps() {
    let mut world = spawn_basic_scene();
    let frame: u32 = 16_666_667;
    let mut seen: Vec<(u64, i32)> = Vec::new();
    let mut most_targets = 0;
    let mut hurt = false;
    for _ in 0..1200 {
        world.step(frame);
        assert!(world.commands.is_empty());
        let mut now: Vec<(u64, i32)> = Vec::new();
        for t in world.targets.iter() {
            now.push((t.id, t.health.value));
            for (id, health) in seen.iter() {
                if *id == t.id {
                    assert!(t.health.value <= *health);
                    if t.health.value < *health {
                        hurt = true;
                    }
                }
            }
        }
        // what was without health a frame ago is gone now
        for (id, health) in seen.iter() {
            if *health <= 0 {
                assert!(world.targets.iter().all(|t| t.id != *id));
            }
        }
        for pair in world.targets.windows(2) {
            assert!(pair[0].id < pair[1].id);
        }
        for pair in world.bullets.windows(2) {
            assert!(pair[0].id < pair[1].id);
        }
        for t in world.targets.iter() {
            assert!(world.bullets.iter().all(|b| b.id != t.id));
            assert!(t.id < world.next_id);
        }
        if world.targets.len() > most_targets {
            most_targets = world.targets.len();
        }
        seen = now;
    }
    // six targets came in twenty seconds (at 3, 6, .. 18 s)
    assert!(world.next_id >= 6);
    assert!(most_targets >= 1);
    assert!(hurt);
}

#[test]
fn remove_by_id_takes_out_what_has_the_identifier() {
    let mut targets =
        vec![target(4, 0, 5, 100), target(7, 0, 5, 100), target(4, 0, 5, 100), target(9, 0, 5, 100)];
    remove_by_id(&mut targets, 4);
    assert_eq!(targets.iter().map(|t| t.id).collect::<Vec<u64>>(), vec![7, 9]);
    remove_by_id(&mut targets, 5);
    assert_eq!(targets.len(), 2);
    let mut bullets = vec![bullet(1, 0)];
    remove_by_id(&mut bullets, 1);
    assert!(bullets.is_empty());
    remove_by_id(&mut bullets, 1);
    assert!(bullets.is_empty());
}

#[test]
fn bullets_of_the_basic_scene_keep_unit_direction() {
    let mut world = spawn_basic_scene();
    for _ in 0..600 {
        world.step(16_666_667);
        for b in world.bullets.iter() {
            assert!(b.bullet.direction.is_unit_length());
        }
    }
    assert!(world.next_id > 2);
}
