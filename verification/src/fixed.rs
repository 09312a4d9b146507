//! Fixed-point arithmetic for the simulation core.
//!
//! Every quantity — positions, ODE constants, the time increment, lifetimes,
//! colors and scales — is a real number scaled by [`ONE`] and stored in an
//! `i64`. Products are rescaled by [`ONE`] and rounded toward zero, which
//! gives each arithmetic step of the core an exact integer meaning.

use vstd::arithmetic::div_mod::{
    lemma_div_is_ordered, lemma_div_multiples_vanish, lemma_div_nonincreasing,
    lemma_div_pos_is_pos, lemma_multiply_divide_lt,
};
use vstd::prelude::*;

verus! {

/// Number of integer units in 1.0: a stored value `v` stands for the real
/// number `v / ONE`.
pub const ONE: i64 = 1_000_000;

/// The bounded regime for positions and ODE constants: 256.0 in fixed-point
/// units. Both attractor families stay far inside it on their usual
/// constants, and every arithmetic chain of the core is proved free of
/// overflow for inputs within it.
pub const REGIME: i64 = 256_000_000;

/// The largest magnitude the fixed-point fifth power of an in-regime value
/// can reach: 256^5 scaled by [`ONE`].
pub const POW5_MAX: i64 = 1_099_511_627_776_000_000;

/// Absolute value over mathematical integers.
pub open spec fn iabs(v: int) -> int {
    if v < 0 {
        -v
    } else {
        v
    }
}

/// Whether a fixed-point value lies inside the bounded regime.
pub open spec fn in_regime(v: int) -> bool {
    -REGIME <= v <= REGIME
}

/// The fixed-point product: the mathematical product rescaled by [`ONE`],
/// rounded toward zero.
pub open spec fn fmul(a: int, b: int) -> int {
    if a * b >= 0 {
        (a * b) / (ONE as int)
    } else {
        -((-(a * b)) / (ONE as int))
    }
}

/// Halving with rounding toward zero.
pub open spec fn half(v: int) -> int {
    if v >= 0 {
        v / 2
    } else {
        -((-v) / 2)
    }
}

/// The fixed-point fifth power: four products, each rounded as [`fmul`]
/// rounds.
pub open spec fn pow5(v: int) -> int {
    fmul(fmul(fmul(fmul(v, v), v), v), v)
}

/// The absolute value of `v`, widened so that even `i64::MIN` has one.
pub fn abs_u64(v: i64) -> (r: u64)
    ensures
        r as int == iabs(v as int),
{
    if v >= 0 {
        v as u64
    } else {
        (-(v as i128)) as u64
    }
}

/// The absolute value of `v` as an `i64`.
pub fn abs_i64(v: i64) -> (r: i64)
    requires
        v != i64::MIN,
    ensures
        r as int == iabs(v as int),
{
    if v >= 0 {
        v
    } else {
        -v
    }
}

/// The fixed-point product of `a` and `b`, for any operands whose rescaled
/// product is still representable.
pub fn fmul_i64(a: i64, b: i64) -> (r: i64)
    requires
        -((i64::MAX as int) * (ONE as int)) <= (a as int) * (b as int),
        (a as int) * (b as int) <= (i64::MAX as int) * (ONE as int),
    ensures
        r as int == fmul(a as int, b as int),
{
    let negative: bool = (a < 0) != (b < 0);
    let aa: u128 = abs_u64(a) as u128;
    let bb: u128 = abs_u64(b) as u128;
    proof {
        assert(aa as int * bb as int == iabs((a as int) * (b as int))
            && (aa as int) * (bb as int) <= (u64::MAX as int) * (u64::MAX as int))
            by (nonlinear_arith)
            requires
                aa as int == iabs(a as int),
                bb as int == iabs(b as int),
                aa <= u64::MAX,
                bb <= u64::MAX,
        ;
    }
    let q: u128 = aa * bb / (ONE as u128);
    proof {
        let pab = (a as int) * (b as int);
        lemma_div_is_ordered(iabs(pab), (i64::MAX as int) * (ONE as int), ONE as int);
        lemma_div_multiples_vanish(i64::MAX as int, ONE as int);
        assert((ONE as int) * (i64::MAX as int) == (i64::MAX as int) * (ONE as int))
            by (nonlinear_arith);
        assert(q <= i64::MAX);
        lemma_div_pos_is_pos(iabs(pab), ONE as int);
        assert(negative ==> pab <= 0) by (nonlinear_arith)
            requires
                negative == ((a < 0) != (b < 0)),
                pab == (a as int) * (b as int),
        ;
        assert(!negative ==> pab >= 0) by (nonlinear_arith)
            requires
                negative == ((a < 0) != (b < 0)),
                pab == (a as int) * (b as int),
        ;
    }
    if negative {
        -(q as i64)
    } else {
        q as i64
    }
}

/// Halving toward zero of an `i64`.
pub fn half_i64(v: i64) -> (r: i64)
    ensures
        r as int == half(v as int),
{
    if v >= 0 {
        ((v as u64) / 2) as i64
    } else {
        -((((-(v as i128)) as u64) / 2) as i64)
    }
}

/// Bounds the fixed-point product from bounds on its operands.
pub proof fn lemma_fmul_bound(a: int, b: int, abound: int, bbound: int)
    requires
        0 <= abound,
        0 <= bbound,
        -abound <= a <= abound,
        -bbound <= b <= bbound,
    ensures
        -(abound * bbound) <= a * b <= abound * bbound,
        -((abound * bbound) / (ONE as int)) <= fmul(a, b) <= (abound * bbound) / (ONE as int),
{
    assert(-(abound * bbound) <= a * b <= abound * bbound) by (nonlinear_arith)
        requires
            0 <= abound,
            0 <= bbound,
            -abound <= a <= abound,
            -bbound <= b <= bbound,
    ;
    lemma_div_is_ordered(iabs(a * b), abound * bbound, ONE as int);
    lemma_div_pos_is_pos(iabs(a * b), ONE as int);
    lemma_div_pos_is_pos(abound * bbound, ONE as int);
}

/// The quotient of a product of `ONE` and a bound vanishes back to the
/// bound: `(b * ONE) / ONE == b`.
pub proof fn lemma_times_one_div_one(b: int)
    ensures
        (b * (ONE as int)) / (ONE as int) == b,
{
    lemma_div_multiples_vanish(b, ONE as int);
    assert((ONE as int) * b == b * (ONE as int)) by (nonlinear_arith);
}

/// Halving toward zero keeps any symmetric bound.
pub proof fn lemma_half_bound(v: int, b: int)
    requires
        0 <= b,
        -b <= v <= b,
    ensures
        -b <= half(v) <= b,
{
    if v >= 0 {
        lemma_div_nonincreasing(v, 2);
        lemma_div_pos_is_pos(v, 2);
    } else {
        lemma_div_nonincreasing(-v, 2);
        lemma_div_pos_is_pos(-v, 2);
    }
}

/// The fixed-point fifth power of an in-regime value.
pub fn pow5_i64(v: i64) -> (r: i64)
    requires
        in_regime(v as int),
    ensures
        r as int == pow5(v as int),
        -POW5_MAX <= r <= POW5_MAX,
{
    proof {
        lemma_fmul_bound(v as int, v as int, REGIME as int, REGIME as int);
        lemma_div_multiples_vanish(65_536_000_000int, ONE as int);
    }
    let p2 = fmul_i64(v, v);
    proof {
        lemma_fmul_bound(p2 as int, v as int, 65_536_000_000int, REGIME as int);
        lemma_div_multiples_vanish(16_777_216_000_000int, ONE as int);
    }
    let p3 = fmul_i64(p2, v);
    proof {
        lemma_fmul_bound(p3 as int, v as int, 16_777_216_000_000int, REGIME as int);
        lemma_div_multiples_vanish(4_294_967_296_000_000int, ONE as int);
    }
    let p4 = fmul_i64(p3, v);
    proof {
        lemma_fmul_bound(p4 as int, v as int, 4_294_967_296_000_000int, REGIME as int);
        lemma_div_multiples_vanish(POW5_MAX as int, ONE as int);
    }
    fmul_i64(p4, v)
}

/// Numerator of the exact sigmoid brightness value at fixed-point input `v`.
///
/// The brightness map squashes any real input into (0, 1) through the
/// algebraic sigmoid `1/2 + v / (2 * (1 + |v|))`: a smooth, strictly
/// increasing curve with value exactly one half at zero, which the
/// exponential form of a logistic curve cannot offer in exact fixed-point
/// arithmetic. As a fraction the value is `cm_num(v) / cm_den(v)`.
pub open spec fn cm_num(v: int) -> int {
    if v >= 0 {
        (ONE as int) + 2 * v
    } else {
        ONE as int
    }
}

/// Denominator of the exact sigmoid brightness value; see [`cm_num`].
pub open spec fn cm_den(v: int) -> int {
    if v >= 0 {
        2 * ((ONE as int) + v)
    } else {
        2 * ((ONE as int) - v)
    }
}

/// The stored fixed-point brightness: the exact sigmoid value scaled by
/// [`ONE`] and rounded down.
pub open spec fn color_map_fix(v: int) -> int {
    (ONE as int) * cm_num(v) / cm_den(v)
}

/// The sigmoid brightness map on stored values. The result is the exact
/// sigmoid value to fixed-point precision, and always lies in `[0, ONE)`.
pub fn color_map(v: i64) -> (r: i64)
    ensures
        r as int == color_map_fix(v as int),
        0 <= r < ONE,
{
    let one: u128 = ONE as u128;
    if v >= 0 {
        let vu = v as u128;
        let num: u128 = one + 2 * vu;
        let den: u128 = 2 * (one + vu);
        let q: u128 = one * num / den;
        proof {
            assert((one as int) * (num as int) <= u128::MAX) by (nonlinear_arith)
                requires
                    one == 1_000_000u128,
                    num <= 3 * (u64::MAX as u128),
            ;
            lemma_multiply_divide_lt((one as int) * (num as int), cm_den(v as int), ONE as int);
            assert((one as int) * (num as int) < cm_den(v as int) * (ONE as int)) by (nonlinear_arith)
                requires
                    one as int == ONE as int,
                    num as int == cm_num(v as int),
                    cm_den(v as int) == num as int + ONE as int,
                    0 < num,
            ;
            lemma_div_pos_is_pos((one as int) * (num as int), cm_den(v as int));
        }
        q as i64
    } else {
        let m: u128 = abs_u64(v) as u128;
        let den: u128 = 2 * (one + m);
        let q: u128 = one * one / den;
        proof {
            lemma_multiply_divide_lt((one as int) * (one as int), cm_den(v as int), ONE as int);
            assert((one as int) * (one as int) < cm_den(v as int) * (ONE as int)) by (nonlinear_arith)
                requires
                    one as int == ONE as int,
                    cm_den(v as int) >= 2 * (ONE as int),
            ;
            lemma_div_pos_is_pos((one as int) * (one as int), cm_den(v as int));
        }
        q as i64
    }
}

/// Bounds law of the brightness map: at every input the exact sigmoid value
/// lies strictly between 0 and 1 (as a fraction, `0 < cm_num < cm_den`),
/// and the stored fixed-point value lies in `[0, ONE)`.
pub proof fn lemma_color_map_bounded(v: int)
    ensures
        0 < cm_num(v) < cm_den(v),
        0 <= color_map_fix(v) < ONE as int,
{
    lemma_div_pos_is_pos((ONE as int) * cm_num(v), cm_den(v));
    lemma_multiply_divide_lt((ONE as int) * cm_num(v), cm_den(v), ONE as int);
    assert((ONE as int) * cm_num(v) < cm_den(v) * (ONE as int)) by (nonlinear_arith)
        requires
            0 < cm_num(v) < cm_den(v),
    ;
    assert(0 <= (ONE as int) * cm_num(v)) by (nonlinear_arith)
        requires
            0 < cm_num(v),
    ;
}

/// Midpoint law of the brightness map: at input 0 the exact sigmoid value is
/// exactly one half, and the stored value is exactly `ONE / 2`.
pub proof fn lemma_color_map_half()
    ensures
        2 * cm_num(0) == cm_den(0),
        color_map_fix(0) == 500_000int,
{
    lemma_div_multiples_vanish(500_000int, cm_den(0));
    assert(cm_den(0) * 500_000int == (ONE as int) * cm_num(0));
}

/// Strict monotonicity law of the brightness map: a larger input gives a
/// strictly larger exact sigmoid value, the two fractions compared by
/// cross-multiplication.
pub proof fn lemma_color_map_strictly_increasing(a: int, b: int)
    requires
        a < b,
    ensures
        cm_num(a) * cm_den(b) < cm_num(b) * cm_den(a),
{
    if 0 <= a {
        assert(cm_num(a) * cm_den(b) < cm_num(b) * cm_den(a)) by (nonlinear_arith)
            requires
                0 <= a < b,
                cm_num(a) == (ONE as int) + 2 * a,
                cm_num(b) == (ONE as int) + 2 * b,
                cm_den(a) == 2 * ((ONE as int) + a),
                cm_den(b) == 2 * ((ONE as int) + b),
        ;
    } else if b < 0 {
        assert(cm_num(a) * cm_den(b) < cm_num(b) * cm_den(a)) by (nonlinear_arith)
            requires
                a < b < 0,
                cm_num(a) == ONE as int,
                cm_num(b) == ONE as int,
                cm_den(a) == 2 * ((ONE as int) - a),
                cm_den(b) == 2 * ((ONE as int) - b),
        ;
    } else {
        assert(cm_num(a) * cm_den(b) < cm_num(b) * cm_den(a)) by (nonlinear_arith)
            requires
                a < 0 <= b,
                cm_num(a) == ONE as int,
                cm_num(b) == (ONE as int) + 2 * b,
                cm_den(a) == 2 * ((ONE as int) - a),
                cm_den(b) == 2 * ((ONE as int) + b),
        ;
    }
}

} // verus!
