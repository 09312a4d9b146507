//! The simulation: one live particle, its configuration, and the trail it
//! leaves behind.
//!
//! Each discrete tick runs, in order: the integrator advances the particle
//! by one Euler step, the trail manager spawns a ghost point at the
//! particle's new position, and every ghost's lifetime is advanced. The
//! core is single-threaded and frame-synchronous; a host calls [`Simulation::tick`]
//! once per frame and renders the positions, scales and colors it finds.
//!
//! A malformed configuration is rejected at startup. A step that leaves the
//! bounded regime — the fixed-point analogue of a position going non-finite —
//! is surfaced as a recoverable error that leaves the state unchanged,
//! never a crash.

use crate::attractor::{
    constants_len, constants_wf, step, step_in_regime, step_x, step_y, step_z, vec3_in_regime,
    Attractor, Vec3,
};
use crate::fixed::{in_regime, ONE, REGIME};
use crate::trail::{advanced, spawned, trail_fits, Trail, TrailPoint, MAX_INTENSITY};
use vstd::prelude::*;

verus! {

/// The failures the core can surface.
#[derive(Clone, Copy, PartialEq, Eq, Structural, Debug)]
pub enum SimError {
    /// A malformed startup configuration: a constants vector of the wrong
    /// length for the chosen attractor, or a value outside the ranges the
    /// core admits. Fatal at startup.
    ConfigurationError,
    /// The integration left the bounded regime, or a lifetime can no longer
    /// grow: the fixed-point counterpart of a position component becoming
    /// non-finite. Recoverable; the state is left unchanged.
    NumericDivergence,
}

/// The startup configuration: the attractor family, its ODE constants, the
/// Euler time increment, the per-tick lifetime increment, the color
/// intensity multiplier, whether expired trail points are removed (and
/// points shrink), and a cap on how many trail points are kept.
pub struct Config {
    pub attractor: Attractor,
    pub constants: Vec<i64>,
    pub dt: i64,
    pub lifetime_step: i64,
    pub intensity: i64,
    pub trail_removal: bool,
    pub max_trail_points: usize,
}

/// A well-formed configuration: constants of the right length and inside
/// the bounded regime, increments of at most 1.0, a bounded intensity, and
/// room for at least one trail point.
pub open spec fn config_wf(c: Config) -> bool {
    &&& constants_wf(c.attractor, c.constants@)
    &&& 0 <= c.dt <= ONE
    &&& 0 <= c.lifetime_step <= ONE
    &&& 0 <= c.intensity <= MAX_INTENSITY
    &&& 1 <= c.max_trail_points
}

impl Config {
    /// Whether this configuration is well formed.
    pub fn is_valid(&self) -> (r: bool)
        ensures
            r == config_wf(*self),
    {
        let n = self.constants.len();
        if n != constants_len(self.attractor) {
            return false;
        }
        let mut i: usize = 0;
        while i < n
            invariant
                i <= n,
                n == self.constants@.len(),
                forall|j: int| 0 <= j < i ==> in_regime(#[trigger] (self.constants@[j] as int)),
            decreases n - i,
        {
            let c = self.constants[i];
            if c < -REGIME || c > REGIME {
                return false;
            }
            i += 1;
        }
        0 <= self.dt && self.dt <= ONE && 0 <= self.lifetime_step && self.lifetime_step <= ONE
            && 0 <= self.intensity && self.intensity <= MAX_INTENSITY && self.max_trail_points >= 1
    }
}

/// The single live simulated point: its position and the ODE constants
/// that govern its motion, fixed for the particle's whole life.
pub struct Particle {
    pub position: Vec3,
    pub constants: Vec<i64>,
}

/// The position reached by one Euler step, as a stored vector.
pub open spec fn stepped(a: Attractor, p: Vec3, c: Seq<i64>, dt: int) -> Vec3 {
    Vec3 {
        x: step_x(a, p, c, dt) as i64,
        y: step_y(a, p, c, dt) as i64,
        z: step_z(a, p, c, dt) as i64,
    }
}

/// A whole simulation: the configuration, the live particle, and the trail.
pub struct Simulation {
    pub config: Config,
    pub particle: Particle,
    pub trail: Trail,
}

impl Simulation {
    /// The simulation's invariant: a well-formed configuration, the
    /// particle driven by exactly the configured constants, its position
    /// inside the bounded regime, and a well-formed trail.
    pub open spec fn wf(self) -> bool {
        &&& config_wf(self.config)
        &&& self.particle.constants@ == self.config.constants@
        &&& vec3_in_regime(self.particle.position)
        &&& self.trail.wf()
    }

    /// Creates a simulation with an empty trail, or rejects a malformed
    /// configuration or an out-of-regime initial position at startup.
    pub fn new(config: Config, initial_position: Vec3) -> (r: Result<Simulation, SimError>)
        ensures
            r is Ok <==> config_wf(config) && vec3_in_regime(initial_position),
            r is Err ==> r == Err::<Simulation, SimError>(SimError::ConfigurationError),
            r is Ok ==> {
                let sim = r->Ok_0;
                &&& sim.wf()
                &&& sim.config == config
                &&& sim.particle.position == initial_position
                &&& sim.particle.constants@ == config.constants@
                &&& sim.trail.points@ == Seq::<TrailPoint>::empty()
            },
    {
        if !config.is_valid() {
            return Err(SimError::ConfigurationError);
        }
        if initial_position.x < -REGIME || initial_position.x > REGIME || initial_position.y
            < -REGIME || initial_position.y > REGIME || initial_position.z < -REGIME
            || initial_position.z > REGIME {
            return Err(SimError::ConfigurationError);
        }
        let mut constants: Vec<i64> = Vec::new();
        let n = config.constants.len();
        let mut i: usize = 0;
        while i < n
            invariant
                i <= n,
                n == config.constants@.len(),
                constants@ =~= config.constants@.take(i as int),
            decreases n - i,
        {
            constants.push(config.constants[i]);
            proof {
                assert(constants@ =~= config.constants@.take(i as int + 1));
            }
            i += 1;
        }
        proof {
            assert(constants@ =~= config.constants@);
        }
        Ok(
            Simulation {
                config,
                particle: Particle { position: initial_position, constants },
                trail: Trail::new(),
            },
        )
    }

    /// One discrete tick: the integrator advances the particle, the trail
    /// manager spawns a ghost point at the particle's new position, and
    /// every ghost is advanced by the configured lifetime increment.
    ///
    /// When the Euler step would leave the bounded regime, or a lifetime
    /// can no longer grow, the tick surfaces `NumericDivergence` and leaves
    /// the whole state unchanged.
    pub fn tick(&mut self) -> (r: Result<(), SimError>)
        requires
            old(self).wf(),
        ensures
            final(self).wf(),
            final(self).config == old(self).config,
            r is Ok <==> step_in_regime(
                old(self).config.attractor,
                old(self).particle.position,
                old(self).config.constants@,
                old(self).config.dt as int,
            ) && trail_fits(old(self).trail.points@, old(self).config.lifetime_step as int),
            r is Err ==> r == Err::<(), SimError>(SimError::NumericDivergence) && *final(self)
                == *old(self),
            r is Ok ==> {
                let np = stepped(
                    old(self).config.attractor,
                    old(self).particle.position,
                    old(self).config.constants@,
                    old(self).config.dt as int,
                );
                &&& final(self).particle.position == np
                &&& final(self).particle.constants@ == old(self).particle.constants@
                &&& final(self).trail.points@ == advanced(
                    spawned(
                        old(self).trail.points@,
                        np,
                        old(self).config.max_trail_points as int,
                    ),
                    old(self).config.lifetime_step as int,
                    old(self).config.intensity as int,
                    old(self).config.trail_removal,
                )
            },
    {
        let np = step(
            &self.particle.position,
            self.config.attractor,
            &self.particle.constants,
            self.config.dt,
        );
        if np.x < -REGIME || np.x > REGIME || np.y < -REGIME || np.y > REGIME || np.z < -REGIME
            || np.z > REGIME {
            return Err(SimError::NumericDivergence);
        }
        let delta = self.config.lifetime_step;
        if !self.trail.can_advance(delta) {
            return Err(SimError::NumericDivergence);
        }
        let cap = self.config.max_trail_points;
        let intensity = self.config.intensity;
        let removal = self.config.trail_removal;
        self.particle.position = np;
        let ghost before = self.trail.points@;
        self.trail.spawn(&np, cap);
        proof {
            let sp = spawned(before, np, cap as int);
            assert forall|i: int| 0 <= i < sp.len() implies (#[trigger] sp[i]).lifetime + delta
                <= i64::MAX by {
                if i < sp.len() - 1 {
                    if before.len() < cap {
                        assert(sp[i] == before[i]);
                    } else {
                        assert(sp[i] == before[i + 1]);
                    }
                }
            }
        }
        self.trail.advance_all(delta, intensity, removal);
        Ok(())
    }
}

} // verus!
