//! The trail manager: decaying ghost copies of the particle's past
//! positions.
//!
//! Each tick spawns one trail point at the particle's position, with
//! lifetime 0, full scale and a color taken per channel from the sigmoid
//! brightness of the coordinate magnitudes. Each tick then advances every
//! point: its lifetime grows by a fixed increment, its color is recomputed
//! from the fifth power of its coordinates (the red channel from z, green
//! from y, blue from x) scaled by an intensity multiplier, and — in the
//! removal-enabled variant — its scale shrinks by the factor
//! `1 - lifetime` and points whose lifetime has reached 1.0 are removed.
//! The alternate variant keeps every point forever and never shrinks one;
//! it is selected by configuration, not silently unified.

use crate::attractor::{vec3_in_regime, Vec3};
use crate::fixed::{
    abs_i64, color_map, color_map_fix, fmul, fmul_i64, iabs, lemma_fmul_bound,
    lemma_times_one_div_one, pow5, pow5_i64, ONE,
};
use vstd::arithmetic::div_mod::lemma_div_pos_is_pos;
use vstd::prelude::*;

verus! {

/// The largest admitted intensity multiplier: 16.0 in fixed-point units.
pub const MAX_INTENSITY: i64 = 16_000_000;

/// An emissive color, each channel a fixed-point brightness.
#[derive(Clone, Copy, PartialEq, Eq, Structural, Debug)]
pub struct Rgb {
    pub r: i64,
    pub g: i64,
    pub b: i64,
}

/// A decaying snapshot of the particle: an immutable position, a growing
/// lifetime, and the color and scale last computed for rendering.
#[derive(Clone, Copy, PartialEq, Eq, Structural, Debug)]
pub struct TrailPoint {
    pub position: Vec3,
    pub lifetime: i64,
    pub color: Rgb,
    pub scale: i64,
}

/// A trail point's invariant: its position stays inside the bounded regime,
/// its lifetime is never negative, and its scale stays within `[0, ONE]`.
pub open spec fn point_wf(p: TrailPoint) -> bool {
    &&& vec3_in_regime(p.position)
    &&& 0 <= p.lifetime
    &&& 0 <= p.scale <= ONE
}

/// The color given to a point at spawn time: per channel, the sigmoid
/// brightness of the matching coordinate's magnitude.
pub open spec fn spawn_color(pos: Vec3) -> Rgb {
    Rgb {
        r: color_map_fix(iabs(pos.x as int)) as i64,
        g: color_map_fix(iabs(pos.y as int)) as i64,
        b: color_map_fix(iabs(pos.z as int)) as i64,
    }
}

/// The color recomputed on every advance: per channel, the sigmoid
/// brightness of a coordinate's fifth power, scaled by the intensity
/// multiplier — red from z, green from y, blue from x.
pub open spec fn advance_color(pos: Vec3, intensity: int) -> Rgb {
    Rgb {
        r: fmul(intensity, color_map_fix(pow5(pos.z as int))) as i64,
        g: fmul(intensity, color_map_fix(pow5(pos.y as int))) as i64,
        b: fmul(intensity, color_map_fix(pow5(pos.x as int))) as i64,
    }
}

/// A freshly spawned trail point: lifetime 0, full scale, spawn color.
pub open spec fn fresh_point(pos: Vec3) -> TrailPoint {
    TrailPoint { position: pos, lifetime: 0, color: spawn_color(pos), scale: ONE }
}

/// One advance of a surviving trail point: the lifetime grows by `delta`,
/// the color is recomputed from the position, and in the removal-enabled
/// variant the scale shrinks by the factor `1 - lifetime`.
pub open spec fn ticked_point(p: TrailPoint, delta: int, intensity: int, removal: bool) -> TrailPoint {
    TrailPoint {
        position: p.position,
        lifetime: (p.lifetime + delta) as i64,
        color: advance_color(p.position, intensity),
        scale: if removal {
            fmul(p.scale as int, (ONE as int) - p.lifetime as int) as i64
        } else {
            p.scale
        },
    }
}

/// The whole trail after one advance: expired points (lifetime at least 1.0)
/// are removed in the removal-enabled variant, every other point is ticked,
/// and the order of the survivors is kept.
pub open spec fn advanced(s: Seq<TrailPoint>, delta: int, intensity: int, removal: bool) -> Seq<
    TrailPoint,
>
    decreases s.len(),
{
    if s.len() == 0 {
        Seq::empty()
    } else {
        let rest = advanced(s.drop_last(), delta, intensity, removal);
        if removal && s.last().lifetime >= ONE {
            rest
        } else {
            rest.push(ticked_point(s.last(), delta, intensity, removal))
        }
    }
}

/// The trail after a spawn under the configured cap: the new point is
/// appended, and when the trail is already at the cap the oldest point is
/// evicted first.
pub open spec fn spawned(s: Seq<TrailPoint>, pos: Vec3, cap: int) -> Seq<TrailPoint> {
    if s.len() < cap {
        s.push(fresh_point(pos))
    } else {
        s.drop_first().push(fresh_point(pos))
    }
}

/// Whether every lifetime in the trail can still grow by `delta` without
/// leaving the representable range.
pub open spec fn trail_fits(s: Seq<TrailPoint>, delta: int) -> bool {
    forall|i: int| 0 <= i < s.len() ==> (#[trigger] s[i]).lifetime + delta <= i64::MAX
}

/// A freshly spawned trail point at `pos`.
pub fn make_point(pos: &Vec3) -> (r: TrailPoint)
    requires
        vec3_in_regime(*pos),
    ensures
        r == fresh_point(*pos),
        point_wf(r),
{
    let color = Rgb {
        r: color_map(abs_i64(pos.x)),
        g: color_map(abs_i64(pos.y)),
        b: color_map(abs_i64(pos.z)),
    };
    TrailPoint { position: *pos, lifetime: 0, color, scale: ONE }
}

/// One advance of a surviving trail point.
pub fn tick_point(p: &TrailPoint, delta: i64, intensity: i64, removal: bool) -> (r: TrailPoint)
    requires
        point_wf(*p),
        0 <= delta <= ONE,
        0 <= intensity <= MAX_INTENSITY,
        p.lifetime + delta <= i64::MAX,
        removal ==> p.lifetime < ONE,
    ensures
        r == ticked_point(*p, delta as int, intensity as int, removal),
        point_wf(r),
{
    let cr = color_map(pow5_i64(p.position.z));
    let cg = color_map(pow5_i64(p.position.y));
    let cb = color_map(pow5_i64(p.position.x));
    proof {
        lemma_fmul_bound(intensity as int, cr as int, MAX_INTENSITY as int, ONE as int);
        lemma_fmul_bound(intensity as int, cg as int, MAX_INTENSITY as int, ONE as int);
        lemma_fmul_bound(intensity as int, cb as int, MAX_INTENSITY as int, ONE as int);
        lemma_times_one_div_one(MAX_INTENSITY as int);
    }
    let color = Rgb {
        r: fmul_i64(intensity, cr),
        g: fmul_i64(intensity, cg),
        b: fmul_i64(intensity, cb),
    };
    let scale: i64 = if removal {
        proof {
            lemma_fmul_bound(p.scale as int, (ONE as int) - p.lifetime as int, ONE as int, ONE as int);
            lemma_times_one_div_one(ONE as int);
            assert(p.scale as int * ((ONE as int) - p.lifetime as int) >= 0) by (nonlinear_arith)
                requires
                    0 <= p.scale,
                    p.lifetime < ONE,
            ;
            lemma_div_pos_is_pos(p.scale as int * ((ONE as int) - p.lifetime as int), ONE as int);
        }
        fmul_i64(p.scale, ONE - p.lifetime)
    } else {
        p.scale
    };
    TrailPoint { position: p.position, lifetime: p.lifetime + delta, color, scale }
}

/// The trail manager: the owned, ordered collection of every living trail
/// point, oldest first.
pub struct Trail {
    pub points: Vec<TrailPoint>,
}

impl Trail {
    /// Every held point satisfies the point invariant.
    pub open spec fn wf(self) -> bool {
        forall|i: int| 0 <= i < self.points@.len() ==> point_wf(#[trigger] self.points@[i])
    }

    /// An empty trail.
    pub fn new() -> (r: Trail)
        ensures
            r.points@ =~= Seq::<TrailPoint>::empty(),
            r.wf(),
    {
        Trail { points: Vec::new() }
    }

    /// The number of living trail points.
    pub fn len(&self) -> (r: usize)
        ensures
            r == self.points@.len(),
    {
        self.points.len()
    }

    /// Spawns a trail point at `pos`. Always succeeds; when the trail is at
    /// the cap the oldest point is evicted first.
    pub fn spawn(&mut self, pos: &Vec3, cap: usize)
        requires
            old(self).wf(),
            vec3_in_regime(*pos),
            1 <= cap,
        ensures
            final(self).points@ == spawned(old(self).points@, *pos, cap as int),
            final(self).wf(),
    {
        let p = make_point(pos);
        if self.points.len() >= cap {
            self.points.remove(0);
            proof {
                assert(self.points@ =~= old(self).points@.drop_first());
            }
        }
        self.points.push(p);
        proof {
            assert forall|i: int| 0 <= i < self.points@.len() implies point_wf(
                #[trigger] self.points@[i],
            ) by {
                if i < self.points@.len() - 1 {
                    if old(self).points@.len() < cap {
                        assert(self.points@[i] == old(self).points@[i]);
                    } else {
                        assert(self.points@[i] == old(self).points@[i + 1]);
                    }
                }
            }
        }
    }

    /// Whether every lifetime can still grow by `delta`.
    pub fn can_advance(&self, delta: i64) -> (r: bool)
        requires
            0 <= delta,
        ensures
            r == trail_fits(self.points@, delta as int),
    {
        let n = self.points.len();
        let mut i: usize = 0;
        while i < n
            invariant
                i <= n,
                n == self.points@.len(),
                0 <= delta,
                forall|j: int|
                    0 <= j < i ==> (#[trigger] self.points@[j]).lifetime + delta <= i64::MAX,
            decreases n - i,
        {
            if self.points[i].lifetime > i64::MAX - delta {
                return false;
            }
            i += 1;
        }
        true
    }

    /// Advances every living trail point by `delta`: lifetimes grow, colors
    /// are recomputed from position, and in the removal-enabled variant
    /// scales shrink and expired points are removed.
    pub fn advance_all(&mut self, delta: i64, intensity: i64, removal: bool)
        requires
            old(self).wf(),
            0 <= delta <= ONE,
            0 <= intensity <= MAX_INTENSITY,
            trail_fits(old(self).points@, delta as int),
        ensures
            final(self).points@ == advanced(old(self).points@, delta as int, intensity as int, removal),
            final(self).wf(),
    {
        let ghost s = self.points@;
        let n = self.points.len();
        let mut out: Vec<TrailPoint> = Vec::new();
        let mut i: usize = 0;
        while i < n
            invariant
                i <= n,
                self.points@ == s,
                n == s.len(),
                old(self).wf(),
                s == old(self).points@,
                0 <= delta <= ONE,
                0 <= intensity <= MAX_INTENSITY,
                trail_fits(s, delta as int),
                out@ == advanced(s.take(i as int), delta as int, intensity as int, removal),
                forall|j: int| 0 <= j < out@.len() ==> point_wf(#[trigger] out@[j]),
            decreases n - i,
        {
            let p = self.points[i];
            if removal && p.lifetime >= ONE {
                // expired: dropped from the new trail
            } else {
                let np = tick_point(&p, delta, intensity, removal);
                out.push(np);
            }
            proof {
                assert(s.take(i as int + 1).drop_last() =~= s.take(i as int));
                assert(s.take(i as int + 1).last() == s[i as int]);
            }
            i += 1;
        }
        proof {
            assert(s.take(n as int) =~= s);
        }
        self.points = out;
    }
}

/// Monotonicity law of the lifetime: advancing a surviving trail point by a
/// non-negative increment never decreases its lifetime, so a lifetime only
/// grows until the point is removed.
pub proof fn lemma_lifetime_monotone(p: TrailPoint, delta: int, intensity: int, removal: bool)
    requires
        0 <= delta,
        p.lifetime + delta <= i64::MAX,
    ensures
        ticked_point(p, delta, intensity, removal).lifetime >= p.lifetime,
{
}

/// Zero-increment law: advancing with `delta == 0` leaves every surviving
/// trail point's lifetime and color unchanged. The color clause asks that a
/// point's color already equal the advance recoloring of its immutable
/// position, which holds of every point that has been advanced at least
/// once; a point's very first advance replaces its spawn color.
pub proof fn lemma_advance_zero_delta(s: Seq<TrailPoint>, intensity: int, removal: bool)
    requires
        forall|i: int| 0 <= i < s.len() ==> (#[trigger] s[i]).lifetime < ONE,
        forall|i: int|
            0 <= i < s.len() ==> (#[trigger] s[i]).color == advance_color(s[i].position, intensity),
    ensures
        advanced(s, 0, intensity, removal).len() == s.len(),
        forall|i: int|
            0 <= i < s.len() ==> {
                let t = #[trigger] advanced(s, 0, intensity, removal)[i];
                &&& t.lifetime == s[i].lifetime
                &&& t.color == s[i].color
                &&& t.position == s[i].position
            },
    decreases s.len(),
{
    if s.len() > 0 {
        let prefix = s.drop_last();
        lemma_advance_zero_delta(prefix, intensity, removal);
        let t = ticked_point(s.last(), 0, intensity, removal);
        assert(t.lifetime == s.last().lifetime);
        assert(t.color == s.last().color);
        assert(advanced(s, 0, intensity, removal) == advanced(prefix, 0, intensity, removal).push(
            t,
        ));
    }
}

} // verus!
