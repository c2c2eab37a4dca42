//! One orbiting body: its construction from injected random draws, and the
//! momentum-conserving merge of two colliding bodies.

use vstd::prelude::*;

use crate::consts::{
    MASS_DENOMINATOR, MAX_COORD, MAX_PLANET_AXIS_SPEED, MAX_PLANET_DENSITY, MAX_RADIUS, MAX_SPEED,
    MAX_WEIGHT, MIN_PLANET_DENSITY, NEW_PLANET_LARGEST_RADIUS, PI_NUMERATOR,
    PLANETARY_SYSTEM_RADIUS,
};
use crate::vector::{
    abs_val, cbrt_floor, cube, div_trunc, icbrt, is_cbrt_floor, lemma_cbrt_floor_is, lemma_div_lt,
    lemma_tdiv_bound, tdiv, Vec3,
};

verus! {

/// The random draws one spawned body consumes. The engine takes the draws
/// as plain values so that the random source stays outside the library and
/// deterministic callers can supply fixed sequences.
#[derive(Clone, Copy, PartialEq, Eq, Structural, Debug)]
pub struct PlanetDraw {
    /// Position inside the spawn cube, meters per axis.
    pub position: Vec3,
    /// Velocity, m/s per axis.
    pub speed: Vec3,
    /// Radius in meters.
    pub radius: i64,
    /// Density in 0.1 kg/m^3.
    pub density: u64,
}

/// One orbiting body. `radius_cubed` carries the exact cube of the radius
/// through merges, so that merged volumes add without rounding; `radius` is
/// its floor cube root and is what the collision thresholds use.
#[derive(Clone, Copy, PartialEq, Eq, Structural, Debug)]
pub struct Planet {
    /// Meters from the star at the origin, per axis.
    pub position: Vec3,
    /// Meters per second, per axis.
    pub speed: Vec3,
    /// Meters; the floor cube root of `radius_cubed`.
    pub radius: i64,
    /// Cubic meters times the cube of the unit; exact under merging.
    pub radius_cubed: u128,
    /// Mass in units of 10^15 kg.
    pub weight: u64,
}

/// A draw every field of which lies in its spawn range.
pub open spec fn valid_draw(d: PlanetDraw) -> bool {
    &&& abs_val(d.position.x as int) <= PLANETARY_SYSTEM_RADIUS
    &&& abs_val(d.position.y as int) <= PLANETARY_SYSTEM_RADIUS
    &&& abs_val(d.position.z as int) <= PLANETARY_SYSTEM_RADIUS
    &&& abs_val(d.speed.x as int) <= MAX_PLANET_AXIS_SPEED
    &&& abs_val(d.speed.y as int) <= MAX_PLANET_AXIS_SPEED
    &&& abs_val(d.speed.z as int) <= MAX_PLANET_AXIS_SPEED
    &&& 1 <= d.radius <= NEW_PLANET_LARGEST_RADIUS
    &&& MIN_PLANET_DENSITY <= d.density <= MAX_PLANET_DENSITY
}

/// A body every field of which lies within the engine's admissible ranges,
/// with the radius the floor cube root of the carried cube.
pub open spec fn valid_planet(p: Planet) -> bool {
    &&& abs_val(p.position.x as int) <= MAX_COORD
    &&& abs_val(p.position.y as int) <= MAX_COORD
    &&& abs_val(p.position.z as int) <= MAX_COORD
    &&& abs_val(p.speed.x as int) <= MAX_SPEED
    &&& abs_val(p.speed.y as int) <= MAX_SPEED
    &&& abs_val(p.speed.z as int) <= MAX_SPEED
    &&& 1 <= p.weight <= MAX_WEIGHT
    &&& 1 <= p.radius <= MAX_RADIUS
    &&& cube(p.radius as int) <= p.radius_cubed < cube(p.radius + 1)
}

/// The spawn weight in mass units: (4/3) pi r^3 rho, computed in fixed
/// point and clamped below at one unit so no body is massless.
pub open spec fn spec_weight(radius: int, density: int) -> int {
    let q = (4 * PI_NUMERATOR * cube(radius) * density) / (MASS_DENOMINATOR as int);
    if q < 1 {
        1
    } else {
        q
    }
}

/// The body a draw spawns.
pub open spec fn spec_new_planet(d: PlanetDraw) -> Planet {
    Planet {
        position: d.position,
        speed: d.speed,
        radius: d.radius,
        radius_cubed: cube(d.radius as int) as u128,
        weight: spec_weight(d.radius as int, d.density as int) as u64,
    }
}

/// Whether the merge of two bodies stays within the admissible ranges.
pub open spec fn spec_mergeable(a: Planet, b: Planet) -> bool {
    &&& a.weight + b.weight <= MAX_WEIGHT
    &&& cbrt_floor(a.radius_cubed + b.radius_cubed) <= MAX_RADIUS
}

/// The body two colliding bodies merge into: midpoint position, summed
/// mass, momentum-conserving velocity, and volume-conserving radius.
pub open spec fn spec_merged(a: Planet, b: Planet) -> Planet {
    Planet {
        position: Vec3 {
            x: tdiv(a.position.x + b.position.x, 2) as i64,
            y: tdiv(a.position.y + b.position.y, 2) as i64,
            z: tdiv(a.position.z + b.position.z, 2) as i64,
        },
        speed: Vec3 {
            x: tdiv(
                a.weight * a.speed.x + b.weight * b.speed.x,
                a.weight + b.weight,
            ) as i64,
            y: tdiv(
                a.weight * a.speed.y + b.weight * b.speed.y,
                a.weight + b.weight,
            ) as i64,
            z: tdiv(
                a.weight * a.speed.z + b.weight * b.speed.z,
                a.weight + b.weight,
            ) as i64,
        },
        radius: cbrt_floor(a.radius_cubed + b.radius_cubed) as i64,
        radius_cubed: (a.radius_cubed + b.radius_cubed) as u128,
        weight: (a.weight + b.weight) as u64,
    }
}

/// Merging is symmetric: both orders of the same collision produce the
/// same body, so the result of a merge does not depend on merge order.
pub proof fn lemma_merge_symmetric(a: Planet, b: Planet)
    ensures
        spec_merged(a, b) == spec_merged(b, a),
        spec_mergeable(a, b) == spec_mergeable(b, a),
{
    assert(a.weight * a.speed.x + b.weight * b.speed.x == b.weight * b.speed.x
        + a.weight * a.speed.x);
}

impl Planet {
    /// Spawn one body from its random draws. The weight follows from the
    /// radius and density by the fixed-point mass formula, and the exact
    /// cube of the radius is carried alongside it.
    pub fn new(d: &PlanetDraw) -> (p: Planet)
        requires
            valid_draw(*d),
        ensures
            p == spec_new_planet(*d),
            valid_planet(p),
    {
        let r: u128 = d.radius as u128;
        assert(r * r <= 2_439_700u128 * 2_439_700) by (nonlinear_arith)
            requires
                1 <= r <= 2_439_700u128,
        ;
        let r2: u128 = r * r;
        assert(r2 * r <= 2_439_700u128 * 2_439_700 * 2_439_700 && r2 * r == cube(r as int) && r2
            * r >= 1) by (nonlinear_arith)
            requires
                1 <= r <= 2_439_700u128,
                r2 == r * r,
        ;
        let rc: u128 = r2 * r;
        let four_pi: u128 = 4 * (PI_NUMERATOR as u128);
        assert(four_pi * rc <= 12_566_370_612u128 * 14_526_784_336_453_000_000) by (nonlinear_arith)
            requires
                rc <= 14_526_784_336_453_000_000u128,
                four_pi == 12_566_370_612u128,
        ;
        let a: u128 = four_pi * rc;
        assert(a * (d.density as u128) <= 182_564_111_081_417_014_178_116_000_000u128 * 110_200)
            by (nonlinear_arith)
            requires
                a <= 182_564_111_081_417_014_178_116_000_000u128,
                d.density as u128 <= 110_200,
        ;
        let num: u128 = a * (d.density as u128);
        let q: u128 = num / MASS_DENOMINATOR;
        proof {
            lemma_div_lt(num as int, MASS_DENOMINATOR as int, MAX_WEIGHT as int);
        }
        let w: u64 = if q < 1 {
            1u64
        } else {
            q as u64
        };
        assert(cube(d.radius as int) < cube(d.radius + 1int)) by (nonlinear_arith)
            requires
                1 <= d.radius,
        ;
        assert(w == spec_weight(d.radius as int, d.density as int));
        Planet {
            position: d.position,
            speed: d.speed,
            radius: d.radius,
            radius_cubed: rc,
            weight: w,
        }
    }

    /// Current position of the body.
    pub fn get_position(&self) -> (p: Vec3)
        ensures
            p == self.position,
    {
        self.position
    }

    /// Current weight of the body, in mass units of 10^15 kg.
    pub fn get_weight(&self) -> (w: u64)
        ensures
            w == self.weight,
    {
        self.weight
    }
}

/// Merge two colliding bodies into one. Returns `None` exactly when the
/// merged weight or radius would leave the admissible range; otherwise the
/// product conserves mass (weights add), momentum (the new velocity is the
/// mass-weighted average of the two, truncated toward zero), and volume
/// (the radius cubes add exactly).
pub fn merge_planets(a: &Planet, b: &Planet) -> (r: Option<Planet>)
    requires
        valid_planet(*a),
        valid_planet(*b),
    ensures
        r is Some <==> spec_mergeable(*a, *b),
        r is Some ==> r.unwrap() == spec_merged(*a, *b),
        r is Some ==> valid_planet(r.unwrap()),
        r is Some ==> r.unwrap().weight == a.weight + b.weight,
        r is Some ==> r.unwrap().radius_cubed == a.radius_cubed + b.radius_cubed,
        r is Some ==> r.unwrap().speed.x == tdiv(
            a.weight * a.speed.x + b.weight * b.speed.x,
            a.weight + b.weight,
        ) && r.unwrap().speed.y == tdiv(
            a.weight * a.speed.y + b.weight * b.speed.y,
            a.weight + b.weight,
        ) && r.unwrap().speed.z == tdiv(
            a.weight * a.speed.z + b.weight * b.speed.z,
            a.weight + b.weight,
        ),
{
    let w: u64 = a.weight + b.weight;
    assert(a.radius_cubed < cube(MAX_RADIUS + 1) && b.radius_cubed < cube(MAX_RADIUS + 1))
        by (nonlinear_arith)
        requires
            a.radius_cubed < cube(a.radius + 1),
            b.radius_cubed < cube(b.radius + 1),
            1 <= a.radius <= MAX_RADIUS,
            1 <= b.radius <= MAX_RADIUS,
    ;
    assert(cube(MAX_RADIUS + 1) < 1_500_000_000_000_000_000_000_000_000_000_000_000int)
        by (nonlinear_arith);
    let rc: u128 = a.radius_cubed + b.radius_cubed;
    let nr: u64 = icbrt(rc);
    proof {
        lemma_cbrt_floor_is(rc as int, nr as int);
        assert(cube(a.radius as int) >= 1 && cube(b.radius as int) >= 1) by (nonlinear_arith)
            requires
                1 <= a.radius,
                1 <= b.radius,
        ;
        assert(rc >= 2);
        if nr == 0 {
            assert(cube(1int) == 1);
        }
        assert(nr >= 1);
    }
    if w > MAX_WEIGHT {
        return None;
    }
    if nr > (MAX_RADIUS as u64) {
        return None;
    }
    let px: i128 = (a.position.x as i128) + (b.position.x as i128);
    let py: i128 = (a.position.y as i128) + (b.position.y as i128);
    let pz: i128 = (a.position.z as i128) + (b.position.z as i128);
    proof {
        lemma_tdiv_bound(px as int, 2, MAX_COORD as int);
        lemma_tdiv_bound(py as int, 2, MAX_COORD as int);
        lemma_tdiv_bound(pz as int, 2, MAX_COORD as int);
    }
    let nx: i64 = div_trunc(px, 2) as i64;
    let ny: i64 = div_trunc(py, 2) as i64;
    let nz: i64 = div_trunc(pz, 2) as i64;
    let sx: i64 = merged_speed_axis(a.weight, a.speed.x, b.weight, b.speed.x);
    let sy: i64 = merged_speed_axis(a.weight, a.speed.y, b.weight, b.speed.y);
    let sz: i64 = merged_speed_axis(a.weight, a.speed.z, b.weight, b.speed.z);
    Some(
        Planet {
            position: Vec3 { x: nx, y: ny, z: nz },
            speed: Vec3 { x: sx, y: sy, z: sz },
            radius: nr as i64,
            radius_cubed: rc,
            weight: w,
        },
    )
}

/// One axis of the momentum-conserving merged velocity: the total impulse
/// of the pair divided by the total weight, truncating toward zero.
fn merged_speed_axis(wa: u64, va: i64, wb: u64, vb: i64) -> (v: i64)
    requires
        1 <= wa <= MAX_WEIGHT,
        1 <= wb <= MAX_WEIGHT,
        abs_val(va as int) <= MAX_SPEED,
        abs_val(vb as int) <= MAX_SPEED,
    ensures
        v == tdiv(wa * va + wb * vb, wa + wb),
        abs_val(v as int) <= MAX_SPEED,
{
    assert(abs_val(wa * va) <= wa * MAX_SPEED && abs_val(wb * vb) <= wb * MAX_SPEED)
        by (nonlinear_arith)
        requires
            1 <= wa <= MAX_WEIGHT,
            1 <= wb <= MAX_WEIGHT,
            abs_val(va as int) <= MAX_SPEED,
            abs_val(vb as int) <= MAX_SPEED,
    ;
    assert(wa * MAX_SPEED <= MAX_WEIGHT * MAX_SPEED && wb * MAX_SPEED <= MAX_WEIGHT * MAX_SPEED)
        by (nonlinear_arith)
        requires
            1 <= wa <= MAX_WEIGHT,
            1 <= wb <= MAX_WEIGHT,
    ;
    let ia: i128 = (wa as i128) * (va as i128);
    let ib: i128 = (wb as i128) * (vb as i128);
    let num: i128 = ia + ib;
    let den: i128 = (wa as i128) + (wb as i128);
    assert(abs_val(num as int) <= MAX_SPEED * den) by (nonlinear_arith)
        requires
            abs_val(ia as int) <= wa * MAX_SPEED,
            abs_val(ib as int) <= wb * MAX_SPEED,
            num == ia + ib,
            den == wa + wb,
    ;
    proof {
        lemma_tdiv_bound(num as int, den as int, MAX_SPEED as int);
    }
    div_trunc(num, den) as i64
}

} // verus!
