//! The attractor integrator: the instantaneous derivative of the selected
//! chaotic ODE, and one explicit Euler step of it.
//!
//! Two families are selectable. Lorenz, with constants `[sigma, rho, beta]`:
//! `dx = sigma*(y - x)`, `dy = x*(rho - z) - y`, `dz = x*y - beta*z`.
//! Chua, with constants `[c1, c2, c3, m0, m1]` and the piecewise-linear
//! nonlinearity `f(x) = (m1*x + (m0 - m1)*(|x + 1| - |x - 1|)) / 2`:
//! `dx = c1*(y - x - f(x))`, `dy = c2*(x - y + z)`, `dz = -c3*y`.
//! The new position is the old one plus the derivative times a fixed small
//! time increment; there is no adaptive step size.

use crate::fixed::{
    fmul, fmul_i64, half, half_i64, iabs, in_regime, abs_i64, lemma_fmul_bound,
    lemma_half_bound, lemma_times_one_div_one, ONE, REGIME,
};
use vstd::arithmetic::div_mod::lemma_div_multiples_vanish;
use vstd::prelude::*;

verus! {

/// The largest magnitude any derivative component can reach inside the
/// bounded regime.
pub const DERIV_MAX: i64 = 20_000_000_000_000;

/// A point or vector of simulation space, each coordinate a fixed-point
/// value.
#[derive(Clone, Copy, PartialEq, Eq, Structural, Debug)]
pub struct Vec3 {
    pub x: i64,
    pub y: i64,
    pub z: i64,
}

/// The chaotic system a particle follows.
#[derive(Clone, Copy, PartialEq, Eq, Structural, Debug)]
pub enum Attractor {
    Lorenz,
    Chua,
}

/// Whether every coordinate lies inside the bounded regime.
pub open spec fn vec3_in_regime(v: Vec3) -> bool {
    in_regime(v.x as int) && in_regime(v.y as int) && in_regime(v.z as int)
}

/// How many ODE constants the attractor family takes.
pub open spec fn spec_constants_len(a: Attractor) -> int {
    match a {
        Attractor::Lorenz => 3,
        Attractor::Chua => 5,
    }
}

/// How many ODE constants the attractor family takes.
pub fn constants_len(a: Attractor) -> (r: usize)
    ensures
        r as int == spec_constants_len(a),
{
    match a {
        Attractor::Lorenz => 3,
        Attractor::Chua => 5,
    }
}

/// A well-formed constants vector for the family: the right length, every
/// entry inside the bounded regime.
pub open spec fn constants_wf(a: Attractor, c: Seq<i64>) -> bool {
    &&& c.len() == spec_constants_len(a)
    &&& forall|i: int| 0 <= i < c.len() ==> in_regime(#[trigger] (c[i] as int))
}

/// Lorenz: `dx = sigma*(y - x)`.
pub open spec fn lorenz_dx(x: int, y: int, sigma: int) -> int {
    fmul(sigma, y - x)
}

/// Lorenz: `dy = x*(rho - z) - y`.
pub open spec fn lorenz_dy(x: int, y: int, z: int, rho: int) -> int {
    fmul(x, rho - z) - y
}

/// Lorenz: `dz = x*y - beta*z`.
pub open spec fn lorenz_dz(x: int, y: int, z: int, beta: int) -> int {
    fmul(x, y) - fmul(beta, z)
}

/// Chua's piecewise-linear nonlinearity,
/// `f(x) = (m1*x + (m0 - m1)*(|x + 1| - |x - 1|)) / 2`, with 1 written as
/// [`ONE`] and the halving rounded toward zero.
pub open spec fn chua_f(x: int, m0: int, m1: int) -> int {
    half(fmul(m1, x) + fmul(m0 - m1, iabs(x + ONE) - iabs(x - ONE)))
}

/// Chua: `dx = c1*(y - x - f(x))`.
pub open spec fn chua_dx(x: int, y: int, c1: int, m0: int, m1: int) -> int {
    fmul(c1, y - x - chua_f(x, m0, m1))
}

/// Chua: `dy = c2*(x - y + z)`.
pub open spec fn chua_dy(x: int, y: int, z: int, c2: int) -> int {
    fmul(c2, x - y + z)
}

/// Chua: `dz = -c3*y`.
pub open spec fn chua_dz(y: int, c3: int) -> int {
    -fmul(c3, y)
}

/// The x component of the selected ODE's derivative at `p`.
pub open spec fn deriv_x(a: Attractor, p: Vec3, c: Seq<i64>) -> int {
    match a {
        Attractor::Lorenz => lorenz_dx(p.x as int, p.y as int, c[0] as int),
        Attractor::Chua => chua_dx(p.x as int, p.y as int, c[0] as int, c[3] as int, c[4] as int),
    }
}

/// The y component of the selected ODE's derivative at `p`.
pub open spec fn deriv_y(a: Attractor, p: Vec3, c: Seq<i64>) -> int {
    match a {
        Attractor::Lorenz => lorenz_dy(p.x as int, p.y as int, p.z as int, c[1] as int),
        Attractor::Chua => chua_dy(p.x as int, p.y as int, p.z as int, c[1] as int),
    }
}

/// The z component of the selected ODE's derivative at `p`.
pub open spec fn deriv_z(a: Attractor, p: Vec3, c: Seq<i64>) -> int {
    match a {
        Attractor::Lorenz => lorenz_dz(p.x as int, p.y as int, p.z as int, c[2] as int),
        Attractor::Chua => chua_dz(p.y as int, c[2] as int),
    }
}

/// One explicit Euler step of a single coordinate: the old value plus the
/// derivative times the time increment.
pub open spec fn euler_step(pos: int, d: int, dt: int) -> int {
    pos + fmul(d, dt)
}

/// The x coordinate after one Euler step.
pub open spec fn step_x(a: Attractor, p: Vec3, c: Seq<i64>, dt: int) -> int {
    euler_step(p.x as int, deriv_x(a, p, c), dt)
}

/// The y coordinate after one Euler step.
pub open spec fn step_y(a: Attractor, p: Vec3, c: Seq<i64>, dt: int) -> int {
    euler_step(p.y as int, deriv_y(a, p, c), dt)
}

/// The z coordinate after one Euler step.
pub open spec fn step_z(a: Attractor, p: Vec3, c: Seq<i64>, dt: int) -> int {
    euler_step(p.z as int, deriv_z(a, p, c), dt)
}

/// Whether one Euler step from `p` lands inside the bounded regime.
pub open spec fn step_in_regime(a: Attractor, p: Vec3, c: Seq<i64>, dt: int) -> bool {
    &&& in_regime(step_x(a, p, c, dt))
    &&& in_regime(step_y(a, p, c, dt))
    &&& in_regime(step_z(a, p, c, dt))
}

/// Boundedness law of the derivative: inside the bounded regime every
/// component of either family's derivative has magnitude at most
/// [`DERIV_MAX`].
pub proof fn lemma_deriv_bounded(a: Attractor, p: Vec3, c: Seq<i64>)
    requires
        vec3_in_regime(p),
        constants_wf(a, c),
    ensures
        iabs(deriv_x(a, p, c)) <= DERIV_MAX as int,
        iabs(deriv_y(a, p, c)) <= DERIV_MAX as int,
        iabs(deriv_z(a, p, c)) <= DERIV_MAX as int,
{
    let x = p.x as int;
    let y = p.y as int;
    let z = p.z as int;
    let r = REGIME as int;
    match a {
        Attractor::Lorenz => {
            lemma_fmul_bound(c[0] as int, y - x, r, 2 * r);
            lemma_fmul_bound(x, (c[1] as int) - z, r, 2 * r);
            lemma_fmul_bound(x, y, r, r);
            lemma_fmul_bound(c[2] as int, z, r, r);
            lemma_div_multiples_vanish(131_072_000_000int, ONE as int);
            lemma_div_multiples_vanish(65_536_000_000int, ONE as int);
        },
        Attractor::Chua => {
            let m0 = c[3] as int;
            let m1 = c[4] as int;
            lemma_fmul_bound(m1, x, r, r);
            lemma_fmul_bound(m0 - m1, iabs(x + ONE) - iabs(x - ONE), 2 * r, 2 * (ONE as int));
            lemma_div_multiples_vanish(65_536_000_000int, ONE as int);
            lemma_div_multiples_vanish(1_024_000_000int, ONE as int);
            lemma_half_bound(
                fmul(m1, x) + fmul(m0 - m1, iabs(x + ONE) - iabs(x - ONE)),
                66_560_000_000int,
            );
            lemma_fmul_bound(c[0] as int, y - x - chua_f(x, m0, m1), r, 67_072_000_000int);
            lemma_div_multiples_vanish(17_170_432_000_000int, ONE as int);
            lemma_fmul_bound(c[1] as int, x - y + z, r, 3 * r);
            lemma_div_multiples_vanish(196_608_000_000int, ONE as int);
            lemma_fmul_bound(c[2] as int, y, r, r);
        },
    }
}

/// The derivative of the selected ODE at `position`.
pub fn derivative(position: &Vec3, a: Attractor, constants: &Vec<i64>) -> (r: Vec3)
    requires
        vec3_in_regime(*position),
        constants_wf(a, constants@),
    ensures
        r.x as int == deriv_x(a, *position, constants@),
        r.y as int == deriv_y(a, *position, constants@),
        r.z as int == deriv_z(a, *position, constants@),
        -DERIV_MAX <= r.x <= DERIV_MAX,
        -DERIV_MAX <= r.y <= DERIV_MAX,
        -DERIV_MAX <= r.z <= DERIV_MAX,
{
    proof {
        lemma_deriv_bounded(a, *position, constants@);
    }
    let x = position.x;
    let y = position.y;
    let z = position.z;
    match a {
        Attractor::Lorenz => {
            let sigma = constants[0];
            let rho = constants[1];
            let beta = constants[2];
            proof {
                let r = REGIME as int;
                lemma_fmul_bound(sigma as int, (y - x) as int, r, 2 * r);
                lemma_fmul_bound(x as int, (rho - z) as int, r, 2 * r);
                lemma_fmul_bound(x as int, y as int, r, r);
                lemma_fmul_bound(beta as int, z as int, r, r);
                lemma_div_multiples_vanish(131_072_000_000int, ONE as int);
                lemma_div_multiples_vanish(65_536_000_000int, ONE as int);
            }
            let dx = fmul_i64(sigma, y - x);
            let dy = fmul_i64(x, rho - z) - y;
            let dz = fmul_i64(x, y) - fmul_i64(beta, z);
            Vec3 { x: dx, y: dy, z: dz }
        },
        Attractor::Chua => {
            let c1 = constants[0];
            let c2 = constants[1];
            let c3 = constants[2];
            let m0 = constants[3];
            let m1 = constants[4];
            let diff = abs_i64(x + ONE) - abs_i64(x - ONE);
            proof {
                let r = REGIME as int;
                lemma_fmul_bound(m1 as int, x as int, r, r);
                lemma_fmul_bound((m0 - m1) as int, diff as int, 2 * r, 2 * (ONE as int));
                lemma_div_multiples_vanish(65_536_000_000int, ONE as int);
                lemma_div_multiples_vanish(1_024_000_000int, ONE as int);
            }
            let fx = half_i64(fmul_i64(m1, x) + fmul_i64(m0 - m1, diff));
            proof {
                let r = REGIME as int;
                lemma_half_bound(
                    fmul(m1 as int, x as int) + fmul((m0 - m1) as int, diff as int),
                    66_560_000_000int,
                );
                lemma_fmul_bound(c1 as int, (y - x - fx) as int, r, 67_072_000_000int);
                lemma_div_multiples_vanish(17_170_432_000_000int, ONE as int);
                lemma_fmul_bound(c2 as int, (x - y + z) as int, r, 3 * r);
                lemma_div_multiples_vanish(196_608_000_000int, ONE as int);
                lemma_fmul_bound(c3 as int, y as int, r, r);
            }
            let dx = fmul_i64(c1, y - x - fx);
            let dy = fmul_i64(c2, x - y + z);
            let dz = -fmul_i64(c3, y);
            Vec3 { x: dx, y: dy, z: dz }
        },
    }
}

/// One explicit Euler step: the new position after the fixed time increment
/// `dt`, each coordinate exactly the old one plus `derivative * dt`.
pub fn step(position: &Vec3, a: Attractor, constants: &Vec<i64>, dt: i64) -> (r: Vec3)
    requires
        vec3_in_regime(*position),
        constants_wf(a, constants@),
        0 <= dt <= ONE,
    ensures
        r.x as int == step_x(a, *position, constants@, dt as int),
        r.y as int == step_y(a, *position, constants@, dt as int),
        r.z as int == step_z(a, *position, constants@, dt as int),
{
    let d = derivative(position, a, constants);
    proof {
        lemma_fmul_bound(d.x as int, dt as int, DERIV_MAX as int, ONE as int);
        lemma_fmul_bound(d.y as int, dt as int, DERIV_MAX as int, ONE as int);
        lemma_fmul_bound(d.z as int, dt as int, DERIV_MAX as int, ONE as int);
        lemma_times_one_div_one(DERIV_MAX as int);
    }
    Vec3 {
        x: position.x + fmul_i64(d.x, dt),
        y: position.y + fmul_i64(d.y, dt),
        z: position.z + fmul_i64(d.z, dt),
    }
}

/// Totality law of the integrator: from any position inside the bounded
/// regime, with well-formed constants and a time increment of at most 1.0,
/// one Euler step yields coordinates whose magnitude stays below
/// `REGIME + DERIV_MAX` — the step is defined and representable everywhere
/// in the regime.
pub proof fn lemma_step_bounded(a: Attractor, p: Vec3, c: Seq<i64>, dt: int)
    requires
        vec3_in_regime(p),
        constants_wf(a, c),
        0 <= dt <= ONE as int,
    ensures
        iabs(step_x(a, p, c, dt)) <= (REGIME + DERIV_MAX) as int,
        iabs(step_y(a, p, c, dt)) <= (REGIME + DERIV_MAX) as int,
        iabs(step_z(a, p, c, dt)) <= (REGIME + DERIV_MAX) as int,
{
    lemma_deriv_bounded(a, p, c);
    lemma_fmul_bound(deriv_x(a, p, c), dt, DERIV_MAX as int, ONE as int);
    lemma_fmul_bound(deriv_y(a, p, c), dt, DERIV_MAX as int, ONE as int);
    lemma_fmul_bound(deriv_z(a, p, c), dt, DERIV_MAX as int, ONE as int);
    lemma_times_one_div_one(DERIV_MAX as int);
}

/// Equilibrium law: for every Lorenz constant vector the derivative at the
/// origin is exactly zero, so an Euler step of any length leaves the origin
/// unchanged.
pub proof fn lemma_lorenz_origin_equilibrium(p: Vec3, c: Seq<i64>, dt: int)
    requires
        p.x == 0 && p.y == 0 && p.z == 0,
        c.len() == 3,
    ensures
        deriv_x(Attractor::Lorenz, p, c) == 0,
        deriv_y(Attractor::Lorenz, p, c) == 0,
        deriv_z(Attractor::Lorenz, p, c) == 0,
        step_x(Attractor::Lorenz, p, c, dt) == 0,
        step_y(Attractor::Lorenz, p, c, dt) == 0,
        step_z(Attractor::Lorenz, p, c, dt) == 0,
{
    assert((c[0] as int) * 0 == 0) by (nonlinear_arith);
    assert((c[2] as int) * 0 == 0) by (nonlinear_arith);
    assert(0int * ((c[1] as int) - 0) == 0) by (nonlinear_arith);
    assert(0int * 0 == 0) by (nonlinear_arith);
    assert(0int / (ONE as int) == 0);
    assert(0int * dt == 0) by (nonlinear_arith);
}

} // verus!
