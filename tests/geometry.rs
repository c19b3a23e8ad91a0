use arena_core::player::{combined_radius, speed_of, Player, START_RADIUS};
use arena_core::vector::Vector2D;

#[test]
fn magnitude_of_three_four_five() {
    assert_eq!(Vector2D::new(3000, 4000).magnitude(), 5000);
    assert_eq!(Vector2D::new(-3000, -4000).magnitude(), 5000);
}

#[test]
fn magnitude_rounds_down() {
    assert_eq!(Vector2D::new(1, 1).magnitude(), 1);
    assert_eq!(Vector2D::new(i64::MIN, i64::MIN).magnitude(), 13043817825332782212);
}

#[test]
fn normalize_zero_vector_is_zero() {
    assert_eq!(Vector2D::new(0, 0).normalize(), Vector2D::new(0, 0));
}

#[test]
fn normalize_scales_to_unit_length() {
    assert_eq!(Vector2D::new(3000, 4000).normalize(), Vector2D::new(600_000, 800_000));
    assert_eq!(Vector2D::new(-3000, 4000).normalize(), Vector2D::new(-600_000, 800_000));
    assert_eq!(Vector2D::new(0, -7).normalize(), Vector2D::new(0, -1_000_000));
    // sub-unit length: (1, 1) has length sqrt(2) fixed units
    assert_eq!(Vector2D::new(1, 1).normalize(), Vector2D::new(707_107, 707_107));
}

#[test]
fn add_sub_scale_are_componentwise() {
    let a = Vector2D::new(5, -7);
    let b = Vector2D::new(2, 3);
    assert_eq!(a.add(b), Vector2D::new(7, -4));
    assert_eq!(a.sub(b), Vector2D::new(3, -10));
    assert_eq!(Vector2D::new(1_000_000, -3_000_000).scale(2_500_000), Vector2D::new(2_500_000, -7_500_000));
    assert_eq!(Vector2D::new(-1, 1).scale(500_000), Vector2D::new(0, 0));
}

#[test]
fn new_player_starts_at_origin() {
    let p = Player::new(7, String::from("ann"));
    assert_eq!(p.id, 7);
    assert_eq!(p.name, "ann");
    assert_eq!(p.position, Vector2D::new(0, 0));
    assert_eq!(p.radius, START_RADIUS);
    assert_eq!(p.radius, 10_000_000);
}

#[test]
fn mass_is_two_pi_radius_squared() {
    let p = Player::new(1, String::from("a"));
    // 2 * pi * 10^2 world units, in squared fixed units
    assert_eq!(p.mass(), 628_318_584_070_796);
    let world = p.mass() as f64 / 1e12;
    assert!((world - 628.3185).abs() < 1e-3);
}

#[test]
fn eating_conserves_mass() {
    let a = Player::new(1, String::from("a"));
    let b = Player::new(2, String::from("b"));
    // sqrt(2) * 10 world units
    assert_eq!(Player::radius_after_eat(&a, &b), 14_142_136);
    assert_eq!(combined_radius(3000, 4000), 5000);
    assert_eq!(combined_radius(0, 0), 0);
    assert_eq!(combined_radius(u32::MAX, u32::MAX), u32::MAX);
    assert_eq!(combined_radius(1, 1), 1);
    let r = combined_radius(12345, 6789) as u64;
    let sum = 12345u64 * 12345 + 6789 * 6789;
    assert!(r * r <= sum + r && sum <= r * r + r);
}

#[test]
fn speed_falls_with_size() {
    // 100 / sqrt(2 * pi * 10^2) world units is about 3.989
    assert_eq!(speed_of(10_000_000), 3_989_423);
    assert!(speed_of(20_000_000) < speed_of(10_000_000));
    assert!(speed_of(u32::MAX) >= 2);
    assert!(speed_of(1) > speed_of(2));
}

#[test]
fn move_towards_advances_by_speed() {
    let mut p = Player::new(1, String::from("a"));
    p.move_towards(Vector2D::new(1_000_000_000, 0));
    assert_eq!(p.position, Vector2D::new(3_989_423, 0));
    p.move_towards(Vector2D::new(3_989_423, 3_000_000_000));
    assert_eq!(p.position, Vector2D::new(3_989_423, 3_989_423));
}

#[test]
fn move_towards_near_target_stays() {
    let mut p = Player::new(1, String::from("a"));
    p.move_towards(Vector2D::new(3_000_000, 0));
    assert_eq!(p.position, Vector2D::new(0, 0));
}

#[test]
fn zero_radius_player_does_not_move() {
    let mut p = Player::new(1, String::from("a"));
    p.radius = 0;
    p.move_towards(Vector2D::new(1_000_000_000, 0));
    assert_eq!(p.position, Vector2D::new(0, 0));
}

#[test]
fn repeated_moves_never_overshoot() {
    let mut p = Player::new(1, String::from("a"));
    let target = Vector2D::new(1_000_000_000, 0);
    let mut last = p.position.x;
    for _ in 0..400 {
        p.move_towards(target);
        assert!(p.position.x >= last);
        assert!(p.position.x <= 1_000_000_000);
        assert_eq!(p.position.y, 0);
        last = p.position.x;
    }
    // within one step of the target, then at rest
    assert!(1_000_000_000 - p.position.x < 3_989_423);
}

#[test]
fn diagonal_moves_converge_without_overshoot() {
    let mut p = Player::new(1, String::from("a"));
    let target = Vector2D::new(-55_555_000, 77_777_000);
    for _ in 0..100 {
        p.move_towards(target);
        assert!(p.position.x <= 0 && p.position.x >= -55_555_000);
        assert!(p.position.y >= 0 && p.position.y <= 77_777_000);
    }
    assert!(target.sub(p.position).magnitude() < 3_989_423);
}

#[test]
fn merged_radius_has_the_summed_mass() {
    for (a, b) in [(10_000_000u32, 10_000_000u32), (2_000_000, 5_999_999), (1, 1), (65_535, 3)] {
        let r = combined_radius(a, b) as u64;
        let sum = (a as u64) * (a as u64) + (b as u64) * (b as u64);
        assert!(r * r <= sum + r);
        assert!(sum <= r * r + r);
    }
    let r = combined_radius(10_000_000, 10_000_000) as f64;
    let exact = 2.0 * 1e14f64;
    assert!((r * r - exact).abs() / exact < 1e-5);
}

#[test]
fn each_move_shortens_the_axis_distance() {
    let mut p = Player::new(1, String::from("a"));
    let target = Vector2D::new(30_000_000, -40_000_000);
    let axis = |v: Vector2D| (v.x - target.x).abs() + (v.y - target.y).abs();
    let mut last = axis(p.position);
    while target.sub(p.position).magnitude() >= speed_of(p.radius) {
        p.move_towards(target);
        let now = axis(p.position);
        assert!(now < last);
        last = now;
    }
}

#[test]
fn a_move_covers_the_speed_toward_the_target() {
    let mut p = Player::new(1, String::from("a"));
    let target = Vector2D::new(30_000_000, -40_000_000);
    let before = target.sub(p.position).magnitude() as i64;
    p.move_towards(target);
    let after = target.sub(p.position).magnitude() as i64;
    let v = speed_of(p.radius) as i64;
    assert!((before - v - after).abs() <= 2);
}
