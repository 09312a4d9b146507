//! Tests of the trail lifecycle: spawn, advance, shrink, expiry, eviction.

use attractor_trails::attractor::Vec3;
use attractor_trails::fixed::ONE;
use attractor_trails::trail::{make_point, tick_point, Rgb, Trail, TrailPoint};

fn sample_position() -> Vec3 {
    Vec3 { x: ONE, y: 0, z: -ONE }
}

#[test]
fn spawn_gives_a_fresh_point() {
    let pos = sample_position();
    let p = make_point(&pos);
    assert_eq!(p.position, pos);
    assert_eq!(p.lifetime, 0);
    assert_eq!(p.scale, ONE);
    // spawn color: per channel the brightness of the coordinate magnitude
    assert_eq!(p.color, Rgb { r: 750_000, g: 500_000, b: 750_000 });
}

#[test]
fn advance_recolors_from_the_immutable_position() {
    let p = make_point(&sample_position());
    let t = tick_point(&p, 5_000, ONE, true);
    assert_eq!(t.position, p.position);
    assert_eq!(t.lifetime, 5_000);
    // at lifetime 0 the shrink factor is exactly 1.0
    assert_eq!(t.scale, ONE);
    // advance color: red from z^5, green from y^5, blue from x^5
    assert_eq!(t.color, Rgb { r: 250_000, g: 500_000, b: 750_000 });
}

#[test]
fn intensity_scales_the_advance_color() {
    let p = make_point(&sample_position());
    let t = tick_point(&p, 5_000, 1_500_000, true);
    assert_eq!(t.color, Rgb { r: 375_000, g: 750_000, b: 1_125_000 });
}

#[test]
fn scale_shrinks_by_one_minus_lifetime() {
    let mut trail = Trail::new();
    trail.spawn(&sample_position(), 100);
    trail.advance_all(5_000, ONE, true);
    assert_eq!(trail.points[0].scale, ONE);
    trail.advance_all(5_000, ONE, true);
    // 1.0 * (1.0 - 0.005) = 0.995
    assert_eq!(trail.points[0].scale, 995_000);
    trail.advance_all(5_000, ONE, true);
    // 0.995 * (1.0 - 0.01) = 0.98505
    assert_eq!(trail.points[0].scale, 985_050);
}

#[test]
fn trail_point_expires_after_exactly_200_ticks() {
    let mut trail = Trail::new();
    trail.spawn(&sample_position(), 100);
    for _ in 0..199 {
        trail.advance_all(5_000, ONE, true);
    }
    assert_eq!(trail.len(), 1);
    assert_eq!(trail.points[0].lifetime, 995_000);
    // the 200th tick reaches lifetime 1.0 exactly
    trail.advance_all(5_000, ONE, true);
    assert_eq!(trail.len(), 1);
    assert_eq!(trail.points[0].lifetime, ONE);
    // having reached 1.0, the point is removed on the next pass
    trail.advance_all(5_000, ONE, true);
    assert_eq!(trail.len(), 0);
}

#[test]
fn zero_delta_preserves_lifetime_and_color() {
    let mut trail = Trail::new();
    trail.spawn(&sample_position(), 100);
    trail.advance_all(5_000, ONE, true);
    let before = trail.points[0];
    trail.advance_all(0, ONE, true);
    let after = trail.points[0];
    assert_eq!(trail.len(), 1);
    assert_eq!(after.lifetime, before.lifetime);
    assert_eq!(after.color, before.color);
    assert_eq!(after.position, before.position);
}

#[test]
fn cap_evicts_the_oldest_point() {
    let mut trail = Trail::new();
    let first = Vec3 { x: ONE, y: 0, z: 0 };
    let second = Vec3 { x: 2 * ONE, y: 0, z: 0 };
    let third = Vec3 { x: 3 * ONE, y: 0, z: 0 };
    trail.spawn(&first, 2);
    trail.spawn(&second, 2);
    trail.spawn(&third, 2);
    assert_eq!(trail.len(), 2);
    assert_eq!(trail.points[0].position, second);
    assert_eq!(trail.points[1].position, third);
}

#[test]
fn no_removal_variant_accumulates_and_never_shrinks() {
    let mut trail = Trail::new();
    trail.spawn(&sample_position(), 100);
    for _ in 0..250 {
        trail.advance_all(5_000, ONE, false);
    }
    // lifetime passed 1.0 long ago, yet the point stays, at full scale
    assert_eq!(trail.len(), 1);
    assert_eq!(trail.points[0].lifetime, 1_250_000);
    assert_eq!(trail.points[0].scale, ONE);
}

#[test]
fn can_advance_detects_a_lifetime_at_the_limit() {
    let stuck = TrailPoint {
        position: Vec3 { x: 0, y: 0, z: 0 },
        lifetime: i64::MAX,
        color: Rgb { r: 0, g: 0, b: 0 },
        scale: ONE,
    };
    let trail = Trail { points: vec![stuck] };
    assert!(!trail.can_advance(1));
    assert!(trail.can_advance(0));
}
