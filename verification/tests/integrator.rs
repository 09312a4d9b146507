//! Tests of the attractor derivatives and the Euler step.

use attractor_trails::attractor::{
    constants_len, derivative, step, Attractor, Vec3, DERIV_MAX,
};
use attractor_trails::fixed::{ONE, REGIME};

fn lorenz_constants() -> Vec<i64> {
    // sigma = 10, rho = 28, beta = 2.6667
    vec![10 * ONE, 28 * ONE, 2_666_700]
}

fn chua_constants() -> Vec<i64> {
    // c1 = 15.6, c2 = 1, c3 = 28, m0 = -8/7, m1 = -5/7
    vec![15_600_000, ONE, 28_000_000, -1_142_857, -714_286]
}

#[test]
fn constants_length_per_family() {
    assert_eq!(constants_len(Attractor::Lorenz), 3);
    assert_eq!(constants_len(Attractor::Chua), 5);
}

#[test]
fn lorenz_derivative_at_tenth() {
    // at (0.1, 0, 0): dx = 10*(0 - 0.1) = -1, dy = 0.1*28 = 2.8, dz = 0
    let p = Vec3 { x: 100_000, y: 0, z: 0 };
    let d = derivative(&p, Attractor::Lorenz, &lorenz_constants());
    assert_eq!(d, Vec3 { x: -1_000_000, y: 2_800_000, z: 0 });
}

#[test]
fn lorenz_origin_is_an_equilibrium() {
    let origin = Vec3 { x: 0, y: 0, z: 0 };
    let d = derivative(&origin, Attractor::Lorenz, &lorenz_constants());
    assert_eq!(d, Vec3 { x: 0, y: 0, z: 0 });
    let next = step(&origin, Attractor::Lorenz, &lorenz_constants(), 10_000);
    assert_eq!(next, origin);
}

#[test]
fn euler_step_from_tenth() {
    // one step with dt = 0.01 from (0.1, 0, 0):
    // x = 0.1 - 1*0.01 = 0.09, y = 0 + 2.8*0.01 = 0.028, z stays 0
    let p = Vec3 { x: 100_000, y: 0, z: 0 };
    let next = step(&p, Attractor::Lorenz, &lorenz_constants(), 10_000);
    assert_eq!(next, Vec3 { x: 90_000, y: 28_000, z: 0 });
}

#[test]
fn zero_time_increment_leaves_position_unchanged() {
    let p = Vec3 { x: 100_000, y: -5_000_000, z: 42 };
    let next = step(&p, Attractor::Lorenz, &lorenz_constants(), 0);
    assert_eq!(next, p);
}

#[test]
fn chua_derivative_at_tenth() {
    // at (0.1, 0, 0): f(0.1) = -0.078571 (rounded toward zero per product),
    // dx = 15.6*(-0.1 + 0.078571) = -0.334292, dy = 0.1, dz = 0
    let p = Vec3 { x: 100_000, y: 0, z: 0 };
    let d = derivative(&p, Attractor::Chua, &chua_constants());
    assert_eq!(d, Vec3 { x: -334_292, y: 100_000, z: 0 });
}

#[test]
fn chua_origin_is_an_equilibrium() {
    let origin = Vec3 { x: 0, y: 0, z: 0 };
    let d = derivative(&origin, Attractor::Chua, &chua_constants());
    assert_eq!(d, Vec3 { x: 0, y: 0, z: 0 });
}

#[test]
fn step_stays_bounded_inside_the_regime() {
    let bound = REGIME + DERIV_MAX;
    let samples = [
        Vec3 { x: 0, y: 0, z: 0 },
        Vec3 { x: 100_000, y: 0, z: 0 },
        Vec3 { x: REGIME, y: -REGIME, z: REGIME },
        Vec3 { x: -REGIME, y: REGIME, z: -REGIME },
        Vec3 { x: 20 * ONE, y: -27 * ONE, z: 48 * ONE },
    ];
    for p in samples {
        for (a, c) in [
            (Attractor::Lorenz, lorenz_constants()),
            (Attractor::Chua, chua_constants()),
        ] {
            let next = step(&p, a, &c, 10_000);
            assert!(next.x.abs() <= bound);
            assert!(next.y.abs() <= bound);
            assert!(next.z.abs() <= bound);
        }
    }
}
