use tower_defence::lifetime::Lifetime;
use tower_defence::target::TargetSpawner;
use tower_defence::tower::Tower;
use tower_defence::vector::Vec3;

#[test]
fn lifetime_expires_once() {
    let mut lifetime = Lifetime::new(3_000_000_000);
    assert!(!lifetime.tick(1_000_000_000));
    assert!(!lifetime.tick(1_999_999_999));
    assert!(lifetime.tick(1));
    assert!(!lifetime.tick(1));
    assert!(!lifetime.tick(u32::MAX));
}

#[test]
fn lifetime_that_is_overshot_expires() {
    let mut lifetime = Lifetime::new(10);
    assert!(lifetime.tick(4_000_000_000));
    assert!(!lifetime.tick(4_000_000_000));
}

#[test]
fn lifetime_of_no_length_expires_at_the_first_tick() {
    let mut lifetime = Lifetime::new(0);
    assert!(lifetime.tick(0));
    assert!(!lifetime.tick(0));
}

#[test]
fn lifetime_longer_than_any_step_counts_on() {
    let mut lifetime = Lifetime::new(10_000_000_000);
    assert!(!lifetime.tick(u32::MAX));
    assert!(!lifetime.tick(u32::MAX));
    // 2 * 4_294_967_295 = 8_589_934_590; 1_410_065_410 are left
    assert!(!lifetime.tick(1_410_065_409));
    assert!(lifetime.tick(1));
}

#[test]
fn spawner_fires_when_its_period_ends() {
    let mut spawner = TargetSpawner::new(3_000_000_000);
    assert!(!spawner.tick(1_000_000_000));
    assert!(!spawner.tick(1_000_000_000));
    assert!(spawner.tick(1_000_000_000));
    assert!(!spawner.tick(1_000_000_000));
    assert!(!spawner.tick(1_000_000_000));
    assert!(spawner.tick(1_000_000_000));
}

#[test]
fn spawner_keeps_the_remainder_of_a_step() {
    let mut spawner = TargetSpawner::new(1_000_000_000);
    assert!(!spawner.tick(700_000_000));
    // 1.4 s gone: fires, 0.4 s are kept
    assert!(spawner.tick(700_000_000));
    // 0.4 + 0.5 = 0.9 s
    assert!(!spawner.tick(500_000_000));
    assert!(spawner.tick(100_000_000));
}

#[test]
fn spawner_under_a_steady_clock_fires_once_per_period() {
    // 60 frames a second for 12 seconds against a period of 3 seconds
    let frame: u32 = 16_666_667;
    let mut spawner = TargetSpawner::new(3_000_000_000);
    let mut fired = Vec::new();
    for n in 1..=720u64 {
        if spawner.tick(frame) {
            fired.push(n);
        }
    }
    assert_eq!(fired, vec![180, 360, 540, 720]);
    for n in 1..=720u64 {
        let periods = n * (frame as u64) / 3_000_000_000;
        let so_far = fired.iter().filter(|at| **at <= n).count() as u64;
        assert_eq!(so_far, periods);
    }
}

#[test]
fn spawner_whose_step_equals_its_period_fires_every_tick() {
    let mut spawner = TargetSpawner::new(250);
    for _ in 0..10 {
        assert!(spawner.tick(250));
    }
}

#[test]
fn spawner_with_a_step_of_many_periods_fires_once_a_tick() {
    let mut spawner = TargetSpawner::new(1);
    assert!(spawner.tick(u32::MAX));
    assert!(!spawner.tick(0));
    assert!(spawner.tick(1));
}

#[test]
fn spawner_with_no_time_gone_does_not_fire() {
    let mut spawner = TargetSpawner::new(5);
    assert!(!spawner.tick(0));
    assert!(!spawner.tick(4));
    assert!(!spawner.tick(0));
    assert!(spawner.tick(1));
    assert!(!spawner.tick(0));
}

#[test]
fn tower_fires_at_most_once_per_period() {
    let mut tower = Tower::new(1_000_000_000, Vec3::new(0, 0, 600_000));
    let mut fired: u64 = 0;
    let mut gone: u64 = 0;
    let steps: [u32; 8] = [
        300_000_000, 900_000_000, 100_000_000, 1_000_000_000, 250_000_000, 250_000_000,
        3_500_000_000, 200_000_000,
    ];
    for step in steps {
        gone += step as u64;
        if tower.tick(step) {
            fired += 1;
        }
        assert!(fired * 1_000_000_000 <= gone);
    }
    // at 1.2 s, at 2.3 s, and once for the long step that ends at 6.3 s
    assert_eq!(fired, 3);
}

#[test]
fn tower_keeps_its_offset() {
    let mut tower = Tower::new(1_000_000_000, Vec3::new(1, -2, 600_000));
    assert_eq!(tower.bullet_offset(), Vec3::new(1, -2, 600_000));
    tower.tick(1_000_000_000);
    assert_eq!(tower.bullet_offset(), Vec3::new(1, -2, 600_000));
}
