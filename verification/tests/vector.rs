use tower_defence::vector::{floor_sqrt, Vec3, COORD_LIMIT, UNIT};

#[test]
fn floor_sqrt_of_small_numbers() {
    assert_eq!(floor_sqrt(0), 0);
    assert_eq!(floor_sqrt(1), 1);
    assert_eq!(floor_sqrt(2), 1);
    assert_eq!(floor_sqrt(3), 1);
    assert_eq!(floor_sqrt(4), 2);
    assert_eq!(floor_sqrt(15), 3);
    assert_eq!(floor_sqrt(16), 4);
    assert_eq!(floor_sqrt(17), 4);
}

#[test]
fn floor_sqrt_of_large_numbers() {
    assert_eq!(floor_sqrt(1_000_000_000_000), 1_000_000);
    assert_eq!(floor_sqrt(999_999_999_999), 999_999);
    assert_eq!(floor_sqrt(u64::MAX), 4_294_967_295);
    assert_eq!(floor_sqrt(4_294_967_295 * 4_294_967_295), 4_294_967_295);
    assert_eq!(floor_sqrt(4_294_967_295 * 4_294_967_295 - 1), 4_294_967_294);
}

#[test]
fn floor_sqrt_brackets_every_number_checked() {
    let mut n: u64 = 0;
    while n < 5000 {
        let r = floor_sqrt(n);
        assert!(r * r <= n);
        assert!((r + 1) * (r + 1) > n);
        n += 1;
    }
}

#[test]
fn length_squared_is_the_sum_of_squares() {
    assert_eq!(Vec3::new(3, -4, 12).length_squared_of(), 169);
    assert_eq!(Vec3::new(0, 0, 0).length_squared_of(), 0);
    let far = Vec3::new(2 * COORD_LIMIT, -2 * COORD_LIMIT, 2 * COORD_LIMIT);
    assert_eq!(far.length_squared_of(), 12_000_000_000_000_000_000_000_000);
}

#[test]
fn displacement_leads_from_one_point_to_the_other() {
    let from = Vec3::new(1, 2, 3);
    let to = Vec3::new(10, -20, 30);
    assert_eq!(to.displacement(&from), Vec3::new(9, -22, 27));
    assert_eq!(from.displacement(&to), Vec3::new(-9, 22, -27));
}

#[test]
fn distance_squared_is_symmetric() {
    let a = Vec3::new(1_000_000, 0, -2_000_000);
    let b = Vec3::new(-1_000_000, 500_000, 0);
    assert_eq!(a.distance_squared_to(&b), 8_250_000_000_000);
    assert_eq!(b.distance_squared_to(&a), 8_250_000_000_000);
}

#[test]
fn distance_squared_across_the_whole_cube() {
    let a = Vec3::new(COORD_LIMIT, COORD_LIMIT, COORD_LIMIT);
    let b = Vec3::new(-COORD_LIMIT, -COORD_LIMIT, -COORD_LIMIT);
    assert_eq!(a.distance_squared_to(&b), 12_000_000_000_000_000_000_000_000);
}

#[test]
fn offset_adds_coordinates() {
    let p = Vec3::new(0, 500_000, 1_000_000);
    assert_eq!(p.offset(&Vec3::new(0, 0, 600_000)), Vec3::new(0, 500_000, 1_600_000));
}

#[test]
fn offset_stops_at_the_edge_of_the_cube() {
    let p = Vec3::new(COORD_LIMIT, -COORD_LIMIT, 0);
    let moved = p.offset(&Vec3::new(1, -1, i64::MAX));
    assert_eq!(moved, Vec3::new(COORD_LIMIT, -COORD_LIMIT, COORD_LIMIT));
    let back = p.offset(&Vec3::new(i64::MIN, i64::MAX, i64::MIN));
    assert_eq!(back, Vec3::new(-COORD_LIMIT, COORD_LIMIT, -COORD_LIMIT));
}

#[test]
fn is_in_bounds_tells_the_cube() {
    assert!(Vec3::new(COORD_LIMIT, -COORD_LIMIT, 0).is_in_bounds());
    assert!(!Vec3::new(COORD_LIMIT + 1, 0, 0).is_in_bounds());
    assert!(!Vec3::new(0, -COORD_LIMIT - 1, 0).is_in_bounds());
    assert!(!Vec3::new(0, 0, i64::MAX).is_in_bounds());
}

#[test]
fn normalize_along_an_axis() {
    assert_eq!(Vec3::new(3_000_000, 0, 0).normalize(), Vec3::new(UNIT, 0, 0));
    assert_eq!(Vec3::new(0, -7, 0).normalize(), Vec3::new(0, -UNIT, 0));
    assert_eq!(Vec3::new(0, 0, 2 * COORD_LIMIT).normalize(), Vec3::new(0, 0, UNIT));
}

#[test]
fn normalize_of_a_three_four_five_triangle() {
    assert_eq!(Vec3::new(3_000_000, 4_000_000, 0).normalize(), Vec3::new(600_000, 800_000, 0));
    assert_eq!(Vec3::new(-3, 0, 4).normalize(), Vec3::new(-600_000, 0, 800_000));
}

#[test]
fn normalize_rounds_toward_zero() {
    assert_eq!(Vec3::new(1, 1, 1).normalize(), Vec3::new(577_350, 577_350, 577_350));
    assert_eq!(Vec3::new(-5, -5, -5).normalize(), Vec3::new(-577_350, -577_350, -577_350));
    assert_eq!(Vec3::new(1, 2, 0).normalize(), Vec3::new(447_213, 894_427, 0));
}

#[test]
fn normalize_of_zero_is_zero() {
    assert_eq!(Vec3::new(0, 0, 0).normalize(), Vec3::new(0, 0, 0));
}

#[test]
fn normalized_vectors_have_unit_length_up_to_rounding() {
    let samples = vec![
        Vec3::new(1, 2, 3),
        Vec3::new(-2_500_000, 0, 900_000),
        Vec3::new(123_456_789, -987_654_321, 555),
        Vec3::new(2 * COORD_LIMIT, 2 * COORD_LIMIT, -2 * COORD_LIMIT),
        Vec3::new(-1, 0, 2 * COORD_LIMIT),
    ];
    for v in samples {
        let d = v.normalize();
        let len_sq = d.length_squared_of();
        let one = (UNIT as u128) * (UNIT as u128);
        assert!(len_sq <= one);
        let grown = Vec3::new(d.x.abs() + 1, d.y.abs() + 1, d.z.abs() + 1);
        assert!(grown.length_squared_of() > one);
    }
}

#[test]
fn advance_moves_by_direction_times_speed_times_time() {
    let start = Vec3::new(0, 0, 0);
    let dir = Vec3::new(UNIT, 0, 0);
    assert_eq!(start.advance(&dir, 5000, 1_000_000_000), Vec3::new(5_000_000, 0, 0));
    assert_eq!(start.advance(&dir, 500, 16_666_667), Vec3::new(8_333, 0, 0));
    let diagonal = Vec3::new(600_000, -800_000, 0);
    assert_eq!(
        Vec3::new(10, 20, 30).advance(&diagonal, 5000, 1_000_000_000),
        Vec3::new(3_000_010, -3_999_980, 30)
    );
}

#[test]
fn advance_rounds_toward_zero_both_ways() {
    let start = Vec3::new(0, 0, 0);
    let dir = Vec3::new(UNIT, -UNIT, 0);
    // 1_000_000 * 1 * 1_999_999 / 10^12 = 1.999999
    assert_eq!(start.advance(&dir, 1, 1_999_999), Vec3::new(1, -1, 0));
    assert_eq!(start.advance(&dir, 1, 999_999), Vec3::new(0, 0, 0));
}

#[test]
fn advance_with_no_time_or_no_speed_stays() {
    let start = Vec3::new(7, -8, 9);
    let dir = Vec3::new(-UNIT, UNIT, UNIT);
    assert_eq!(start.advance(&dir, 5000, 0), start);
    assert_eq!(start.advance(&dir, 0, u64::MAX), start);
}

#[test]
fn advance_stops_at_the_edge_of_the_cube() {
    let start = Vec3::new(COORD_LIMIT - 5, 0, 0);
    let dir = Vec3::new(UNIT, -UNIT, 0);
    let moved = start.advance(&dir, u32::MAX, u64::MAX);
    assert_eq!(moved, Vec3::new(COORD_LIMIT, -COORD_LIMIT, 0));
}

#[test]
fn unit_length_is_told_up_to_rounding() {
    assert!(Vec3::new(UNIT, 0, 0).is_unit_length());
    assert!(Vec3::new(0, -UNIT, 0).is_unit_length());
    assert!(Vec3::new(600_000, 800_000, 0).is_unit_length());
    assert!(Vec3::new(577_350, 577_350, 577_350).is_unit_length());
    assert!(Vec3::new(-928_476, 0, 371_390).is_unit_length());
    assert!(!Vec3::new(0, 0, 0).is_unit_length());
    assert!(!Vec3::new(UNIT, UNIT, UNIT).is_unit_length());
    assert!(!Vec3::new(UNIT, 1, 0).is_unit_length());
    assert!(!Vec3::new(UNIT + 1, 0, 0).is_unit_length());
    assert!(!Vec3::new(999_998, 0, 0).is_unit_length());
    assert!(!Vec3::new(577_349, 577_349, 577_349).is_unit_length());
    assert!(!Vec3::new(i64::MAX, i64::MIN, 0).is_unit_length());
}
