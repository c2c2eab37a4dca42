//! Physical and numeric constants of the simulation, in fixed-point units:
//! lengths in meters, speeds in meters per second, masses in units of
//! 10^15 kg, densities in units of 0.1 kg/m^3, time in seconds.

use vstd::prelude::*;

verus! {

/// Seconds of simulated time advanced by one `tick` (one day).
pub const UNIT_TIME: i64 = 86_400;

/// Default number of bodies the engine spawns up to each tick.
pub const DEFAULT_TARGET_COUNT: usize = 256;

/// Default scale factor widening the body-body collision test.
pub const DEFAULT_COLLISION_COEFFICIENT: u64 = 256;

/// Radius of the planetary system in meters (orbit of Mars).
pub const PLANETARY_SYSTEM_RADIUS: i64 = 227_920_000_000;

/// Radius of the central star in meters (the Sun).
pub const STAR_RADIUS: i64 = 695_510_000;

/// Largest radius of a newly spawned body in meters (Mercury).
pub const NEW_PLANET_LARGEST_RADIUS: i64 = 2_439_700;

/// Least spawn density, in 0.1 kg/m^3 (half the density of Saturn).
pub const MIN_PLANET_DENSITY: u64 = 3_435;

/// Greatest spawn density, in 0.1 kg/m^3 (twice the density of Earth).
pub const MAX_PLANET_DENSITY: u64 = 110_200;

/// Largest speed of a newly spawned body along one axis, in m/s
/// (orbital speed of Mercury).
pub const MAX_PLANET_AXIS_SPEED: i64 = 64_930;

/// Mass of the central star in mass units of 10^15 kg (the Sun).
pub const STAR_WEIGHT: u64 = 1_989_000_000_000_000;

/// Gravitational impulse factor: the gravitational constant
/// (6.6743015e-11 m^3 / (s^2 kg)) times `UNIT_TIME` times one mass unit
/// (10^15 kg). The speed gained toward an attractor of weight `w` at
/// distance `d` in one tick is `GRAV_FACTOR * w * d_axis / d^3` per axis.
pub const GRAV_FACTOR: u64 = 5_766_596_496;

/// Distances below this many meters are clamped before dividing, so the
/// gravity computation stays within machine range. The clamp lies inside
/// the star, so it can only affect a body that the same tick removes by
/// stellar collision.
pub const DIST_EPS: i64 = 100_000_000;

/// Beyond this distance in meters the integer gravitational impulse
/// truncates to zero for every admissible weight, so the computation
/// short-circuits there.
pub const FAR_DIST: i64 = 5_000_000_000_000;

/// Largest magnitude of a position coordinate the engine admits, in meters.
pub const MAX_COORD: i64 = 4_000_000_000_000_000_000;

/// Largest magnitude of a speed coordinate the engine admits, in m/s.
pub const MAX_SPEED: i64 = 50_000_000_000_000;

/// Largest body weight the engine admits, in mass units of 10^15 kg.
pub const MAX_WEIGHT: u64 = 10_000_000_000_000;

/// Largest body radius the engine admits, in meters.
pub const MAX_RADIUS: i64 = 1_000_000_000_000;

/// Largest admissible collision coefficient.
pub const MAX_COLLISION_COEFFICIENT: u64 = 1_000_000;

/// Numerator of the fixed-point approximation of pi.
pub const PI_NUMERATOR: u64 = 3_141_592_653;

/// Denominator of the fixed-point approximation of pi.
pub const PI_DENOMINATOR: u64 = 1_000_000_000;

/// Divisor of the spawn-mass formula: 3 (from 4/3 pi) times 10 (density
/// scale) times 10^15 (mass unit) times `PI_DENOMINATOR`.
pub const MASS_DENOMINATOR: u128 = 30_000_000_000_000_000_000_000_000;

} // verus!
