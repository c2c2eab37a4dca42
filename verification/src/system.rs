//! The simulation engine: the per-tick step algorithm over the whole
//! population — spawn, position integration, gravitational acceleration,
//! velocity integration, event detection, merging and removal — specified
//! exactly over the mathematical integer step and verified against it.

use vstd::prelude::*;
use vstd::arithmetic::div_mod::{lemma_div_is_ordered, lemma_div_pos_is_pos, lemma_fundamental_div_mod};
use vstd::arithmetic::mul::lemma_mul_inequality;

use crate::consts::{
    DEFAULT_COLLISION_COEFFICIENT, DEFAULT_TARGET_COUNT, DIST_EPS, FAR_DIST, GRAV_FACTOR,
    MAX_COLLISION_COEFFICIENT, MAX_COORD, MAX_RADIUS, MAX_SPEED, MAX_WEIGHT,
    PLANETARY_SYSTEM_RADIUS, STAR_RADIUS, STAR_WEIGHT, UNIT_TIME,
};
use crate::planet::{
    merge_planets, spec_merged, spec_mergeable, spec_new_planet, valid_draw, valid_planet, Planet,
    PlanetDraw,
};
use crate::vector::{
    abs_val, dist_sq, is_sqrt_floor, isqrt, lemma_div_lt, lemma_sqrt_floor_is, sq, spec_dist_sq,
    sqrt_floor, tdiv, Vec3,
};

verus! {

/// The radius of the planetary system in meters, for callers that scale
/// positions for display.
pub fn get_planetary_system_radius() -> (r: i64)
    ensures
        r == PLANETARY_SYSTEM_RADIUS,
{
    PLANETARY_SYSTEM_RADIUS
}

/// The position of the star: the coordinate origin.
pub open spec fn spec_origin() -> Vec3 {
    Vec3 { x: 0, y: 0, z: 0 }
}

/// The distance the gravity computation divides by: the floor of the true
/// distance, clamped below at `DIST_EPS`. The clamp lies inside the star,
/// so it can only touch a body that this same tick removes by stellar
/// collision.
pub open spec fn eff_dist(d2: int) -> int {
    if sqrt_floor(d2) < DIST_EPS {
        DIST_EPS as int
    } else {
        sqrt_floor(d2)
    }
}

/// One axis of the speed, in m/s, that one tick of gravity toward an
/// attractor of weight `w` adds: `GRAV_FACTOR * w * dx / re^3`, truncated
/// toward zero, where `dx` is the axis component of the vector to the
/// attractor and `re` the clamped distance.
pub open spec fn spec_attract_axis(dx: int, d2: int, w: int) -> int {
    let re = eff_dist(d2);
    tdiv(GRAV_FACTOR * w * dx, re * re * re)
}

/// The speed change one tick of gravity toward `toward` adds to a body at
/// `from`, per axis.
pub open spec fn spec_attract(from: Vec3, toward: Vec3, w: int) -> (int, int, int) {
    let d2 = spec_dist_sq(from, toward);
    (
        spec_attract_axis(toward.x - from.x, d2, w),
        spec_attract_axis(toward.y - from.y, d2, w),
        spec_attract_axis(toward.z - from.z, d2, w),
    )
}

/// Largest magnitude of one axis of an attraction of weight `w`: reached
/// only at the distance clamp.
pub open spec fn pull_bound(w: int) -> int {
    (GRAV_FACTOR * w) / (DIST_EPS * DIST_EPS)
}

/// One axis component of a vector never exceeds the floor of the vector's
/// length, hence not the clamped effective distance either.
proof fn lemma_axis_le_eff(dx: int, rest: int, r: int)
    requires
        0 <= rest,
        is_sqrt_floor(sq(dx) + rest, r),
    ensures
        abs_val(dx) <= r,
{
    if abs_val(dx) > r {
        assert(sq(r + 1) <= sq(abs_val(dx))) by (nonlinear_arith)
            requires
                0 <= r,
                r + 1 <= abs_val(dx),
        ;
        assert(sq(abs_val(dx)) == sq(dx)) by (nonlinear_arith);
    }
}

/// The truncated attraction is zero beyond `FAR_DIST` for every admissible
/// weight: the numerator is then strictly below the cube of the distance.
proof fn lemma_attract_far(dx: int, d2: int, w: int)
    requires
        1 <= w <= STAR_WEIGHT,
        abs_val(dx) <= eff_dist(d2),
        eff_dist(d2) >= FAR_DIST,
    ensures
        spec_attract_axis(dx, d2, w) == 0,
{
    let re = eff_dist(d2);
    let gw = GRAV_FACTOR * w;
    assert(0 < gw <= GRAV_FACTOR * STAR_WEIGHT) by (nonlinear_arith)
        requires
            1 <= w <= STAR_WEIGHT,
            gw == GRAV_FACTOR * w,
    ;
    assert(gw * abs_val(dx) < re * re * re) by (nonlinear_arith)
        requires
            0 < gw <= GRAV_FACTOR * STAR_WEIGHT,
            abs_val(dx) <= re,
            re >= FAR_DIST,
            FAR_DIST * FAR_DIST > GRAV_FACTOR * STAR_WEIGHT,
    ;
    assert(gw * abs_val(dx) == abs_val(gw * dx)) by (nonlinear_arith)
        requires
            gw > 0,
    ;
    assert(re * re * re > 0) by (nonlinear_arith)
        requires
            re >= FAR_DIST,
    ;
    lemma_div_lt(abs_val(gw * dx), re * re * re, 1);
    lemma_div_pos_is_pos(abs_val(gw * dx), re * re * re);
}

/// The truncated attraction is bounded by `pull_bound(w)` per axis.
proof fn lemma_attract_bound(dx: int, d2: int, w: int)
    requires
        1 <= w <= STAR_WEIGHT,
        abs_val(dx) <= eff_dist(d2),
        eff_dist(d2) >= DIST_EPS,
    ensures
        abs_val(spec_attract_axis(dx, d2, w)) <= pull_bound(w),
{
    let re = eff_dist(d2);
    let gw = GRAV_FACTOR * w;
    let b = pull_bound(w);
    assert(gw > 0) by (nonlinear_arith)
        requires
            w >= 1,
            gw == GRAV_FACTOR * w,
    ;
    lemma_div_pos_is_pos(gw, DIST_EPS * DIST_EPS);
    lemma_fundamental_div_mod(gw, DIST_EPS * DIST_EPS);
    vstd::arithmetic::div_mod::lemma_mod_division_less_than_divisor(gw, DIST_EPS * DIST_EPS);
    assert(gw < (b + 1) * (DIST_EPS * DIST_EPS)) by (nonlinear_arith)
        requires
            gw == (DIST_EPS * DIST_EPS) * b + (gw % (DIST_EPS * DIST_EPS)),
            0 <= gw % (DIST_EPS * DIST_EPS) < DIST_EPS * DIST_EPS,
    ;
    assert(abs_val(gw * dx) < (b + 1) * (re * re * re)) by (nonlinear_arith)
        requires
            0 < gw,
            0 <= b,
            abs_val(dx) <= re,
            DIST_EPS <= re,
            gw < (b + 1) * (DIST_EPS * DIST_EPS),
    ;
    assert(re * re * re > 0) by (nonlinear_arith)
        requires
            re >= DIST_EPS,
    ;
    lemma_div_lt(abs_val(gw * dx), re * re * re, b + 1);
    lemma_div_pos_is_pos(abs_val(gw * dx), re * re * re);
}

/// A heavier attractor pulls no less than the bound of a lighter one.
proof fn lemma_pull_bound_mono(w1: int, w2: int)
    requires
        0 <= w1 <= w2,
    ensures
        pull_bound(w1) <= pull_bound(w2),
{
    lemma_mul_inequality(w1, w2, GRAV_FACTOR as int);
    assert(GRAV_FACTOR * w1 == w1 * GRAV_FACTOR && GRAV_FACTOR * w2 == w2 * GRAV_FACTOR)
        by (nonlinear_arith);
    lemma_div_is_ordered(GRAV_FACTOR * w1, GRAV_FACTOR * w2, DIST_EPS * DIST_EPS);
}

/// Numeric bounds of the two extreme pulls: one step of the star's pull
/// stays below 2e9 m/s per axis, one step of another body's below 6e6.
proof fn lemma_pull_bound_consts()
    ensures
        0 <= pull_bound(MAX_WEIGHT as int) < 6_000_000,
        0 <= pull_bound(STAR_WEIGHT as int) < 2_000_000_000,
{
    lemma_div_pos_is_pos(GRAV_FACTOR * (MAX_WEIGHT as int), DIST_EPS * DIST_EPS);
    lemma_div_pos_is_pos(GRAV_FACTOR * (STAR_WEIGHT as int), DIST_EPS * DIST_EPS);
    lemma_div_lt(GRAV_FACTOR * (MAX_WEIGHT as int), DIST_EPS * DIST_EPS, 6_000_000);
    lemma_div_lt(GRAV_FACTOR * (STAR_WEIGHT as int), DIST_EPS * DIST_EPS, 2_000_000_000);
}

/// One axis of the executable attraction: `gw * |dx| / den`, signed toward
/// the attractor.
fn attract_axis(c_from: i64, c_toward: i64, gw: u128, den: u128, d2: Ghost<int>, w: Ghost<int>)
    -> (dv: i64)
    requires
        1 <= w@ <= STAR_WEIGHT,
        gw == GRAV_FACTOR * w@,
        DIST_EPS <= eff_dist(d2@) < FAR_DIST,
        den == eff_dist(d2@) * eff_dist(d2@) * eff_dist(d2@),
        abs_val(c_toward - c_from) <= eff_dist(d2@),
        abs_val(c_from as int) <= MAX_COORD,
        abs_val(c_toward as int) <= MAX_COORD,
    ensures
        dv == spec_attract_axis(c_toward - c_from, d2@, w@),
        abs_val(dv as int) <= pull_bound(w@),
{
    proof {
        lemma_attract_bound(c_toward - c_from, d2@, w@);
        lemma_pull_bound_mono(w@, STAR_WEIGHT as int);
        lemma_pull_bound_consts();
    }
    let d: i128 = (c_toward as i128) - (c_from as i128);
    let adx: u128 = if d >= 0 {
        d as u128
    } else {
        (-d) as u128
    };
    assert(gw * adx <= 11_469_760_430_544_000_000_000_000u128 * 5_000_000_000_000)
        by (nonlinear_arith)
        requires
            gw <= 11_469_760_430_544_000_000_000_000u128,
            adx <= 5_000_000_000_000u128,
    ;
    let num: u128 = gw * adx;
    assert(den > 0) by (nonlinear_arith)
        requires
            den == eff_dist(d2@) * eff_dist(d2@) * eff_dist(d2@),
            eff_dist(d2@) >= DIST_EPS,
    ;
    let q: u128 = num / den;
    proof {
        let dx = c_toward - c_from;
        assert(GRAV_FACTOR * w@ > 0 && (dx < 0 ==> GRAV_FACTOR * w@ * dx < 0) && (dx >= 0
            ==> GRAV_FACTOR * w@ * dx >= 0)) by (nonlinear_arith)
            requires
                w@ >= 1,
        ;
        assert(num == GRAV_FACTOR * w@ * abs_val(dx)) by (nonlinear_arith)
            requires
                num == gw * adx,
                gw == GRAV_FACTOR * w@,
                adx == abs_val(dx),
        ;
        assert(GRAV_FACTOR * w@ * abs_val(dx) == abs_val(GRAV_FACTOR * w@ * dx))
            by (nonlinear_arith)
            requires
                GRAV_FACTOR * w@ > 0,
        ;
        if dx >= 0 {
            assert(spec_attract_axis(dx, d2@, w@) == num / den);
        } else {
            assert(spec_attract_axis(dx, d2@, w@) == -(num / den));
        }
        assert(abs_val(spec_attract_axis(dx, d2@, w@)) <= pull_bound(w@));
        assert(q <= pull_bound(STAR_WEIGHT as int));
    }
    if d >= 0 {
        q as i64
    } else {
        -(q as i64)
    }
}

/// The speed change one tick of gravity toward `toward` adds to a body at
/// `from`, computed exactly as specified by `spec_attract`.
fn attract(from: &Vec3, toward: &Vec3, w: u64) -> (dv: (i64, i64, i64))
    requires
        1 <= w <= STAR_WEIGHT,
        abs_val(from.x as int) <= MAX_COORD,
        abs_val(from.y as int) <= MAX_COORD,
        abs_val(from.z as int) <= MAX_COORD,
        abs_val(toward.x as int) <= MAX_COORD,
        abs_val(toward.y as int) <= MAX_COORD,
        abs_val(toward.z as int) <= MAX_COORD,
    ensures
        (dv.0 as int, dv.1 as int, dv.2 as int) == spec_attract(*from, *toward, w as int),
        abs_val(dv.0 as int) <= pull_bound(w as int),
        abs_val(dv.1 as int) <= pull_bound(w as int),
        abs_val(dv.2 as int) <= pull_bound(w as int),
{
    let d2: u128 = dist_sq(from, toward);
    let r: u64 = isqrt(d2);
    proof {
        lemma_sqrt_floor_is(d2 as int, r as int);
        assert(sq(toward.x - from.x) >= 0 && sq(toward.y - from.y) >= 0 && sq(
            toward.z - from.z,
        ) >= 0) by (nonlinear_arith);
        lemma_axis_le_eff(
            toward.x - from.x,
            sq(toward.y - from.y) + sq(toward.z - from.z),
            r as int,
        );
        lemma_axis_le_eff(
            toward.y - from.y,
            sq(toward.x - from.x) + sq(toward.z - from.z),
            r as int,
        );
        lemma_axis_le_eff(
            toward.z - from.z,
            sq(toward.x - from.x) + sq(toward.y - from.y),
            r as int,
        );
    }
    let re: u64 = if r < (DIST_EPS as u64) {
        DIST_EPS as u64
    } else {
        r
    };
    assert(re == eff_dist(d2 as int));
    if re >= (FAR_DIST as u64) {
        proof {
            lemma_attract_far(toward.x - from.x, d2 as int, w as int);
            lemma_attract_far(toward.y - from.y, d2 as int, w as int);
            lemma_attract_far(toward.z - from.z, d2 as int, w as int);
            lemma_div_pos_is_pos(GRAV_FACTOR * (w as int), DIST_EPS * DIST_EPS);
        }
        (0i64, 0i64, 0i64)
    } else {
        assert((re as u128) * (re as u128) <= 5_000_000_000_000u128 * 5_000_000_000_000)
            by (nonlinear_arith)
            requires
                re < 5_000_000_000_000u64,
        ;
        let re2: u128 = (re as u128) * (re as u128);
        assert(re2 * (re as u128) <= 5_000_000_000_000u128 * 5_000_000_000_000 * 5_000_000_000_000
            && re2 * (re as u128) > 0) by (nonlinear_arith)
            requires
                0 < re as u128 <= 5_000_000_000_000u128,
                re2 == (re as u128) * (re as u128),
        ;
        let den: u128 = re2 * (re as u128);
        assert((GRAV_FACTOR as u128) * (w as u128) <= 5_766_596_496u128 * 1_989_000_000_000_000)
            by (nonlinear_arith)
            requires
                w as u128 <= 1_989_000_000_000_000u128,
        ;
        let gw: u128 = (GRAV_FACTOR as u128) * (w as u128);
        let dv0: i64 = attract_axis(from.x, toward.x, gw, den, Ghost(d2 as int), Ghost(w as int));
        let dv1: i64 = attract_axis(from.y, toward.y, gw, den, Ghost(d2 as int), Ghost(w as int));
        let dv2: i64 = attract_axis(from.z, toward.z, gw, den, Ghost(d2 as int), Ghost(w as int));
        (dv0, dv1, dv2)
    }
}

/// The error a `tick` reports when the exact integer step leaves the
/// engine's admissible ranges, named for the phase that left them.
#[derive(Clone, Copy, PartialEq, Eq, Structural, Debug)]
pub enum TickError {
    /// An integrated position coordinate left the admissible range.
    PositionOverflow,
    /// An integrated speed coordinate left the admissible range.
    SpeedOverflow,
    /// A merged body's weight or radius left the admissible range.
    MergeOverflow,
}

/// How many bodies one tick spawns: up to the target count.
pub open spec fn spawn_count(len: int, target: int) -> int {
    if len < target {
        target - len
    } else {
        0
    }
}

/// The population after the spawn phase: the bodies the draws spawn are
/// appended in draw order.
pub open spec fn spec_spawn(s: Seq<Planet>, ds: Seq<PlanetDraw>) -> Seq<Planet> {
    s + ds.map_values(|d: PlanetDraw| spec_new_planet(d))
}

/// One body after position integration: one `UNIT_TIME` of its current
/// speed is added to its position, exactly.
pub open spec fn spec_moved_planet(p: Planet) -> Planet {
    Planet {
        position: Vec3 {
            x: (p.position.x + UNIT_TIME * p.speed.x) as i64,
            y: (p.position.y + UNIT_TIME * p.speed.y) as i64,
            z: (p.position.z + UNIT_TIME * p.speed.z) as i64,
        },
        ..p
    }
}

/// Whether position integration keeps a body within the admissible range.
pub open spec fn move_ok(p: Planet) -> bool {
    &&& abs_val(p.position.x + UNIT_TIME * p.speed.x) <= MAX_COORD
    &&& abs_val(p.position.y + UNIT_TIME * p.speed.y) <= MAX_COORD
    &&& abs_val(p.position.z + UNIT_TIME * p.speed.z) <= MAX_COORD
}

/// Whether position integration keeps every body in range.
pub open spec fn moves_ok(s: Seq<Planet>) -> bool {
    forall|i: int| 0 <= i < s.len() ==> move_ok(s[i])
}

/// The population after position integration.
pub open spec fn spec_move(s: Seq<Planet>) -> Seq<Planet> {
    s.map_values(|p: Planet| spec_moved_planet(p))
}

/// The gravitational speed change of body `i` accumulated so far: the pull
/// of the central star, plus the pull of every other body of index below
/// `j`.
pub open spec fn spec_dv_upto(s: Seq<Planet>, i: int, j: int) -> (int, int, int)
    decreases j,
{
    if j <= 0 {
        spec_attract(s[i].position, spec_origin(), STAR_WEIGHT as int)
    } else if j - 1 == i {
        spec_dv_upto(s, i, j - 1)
    } else {
        let p = spec_dv_upto(s, i, j - 1);
        let t = spec_attract(s[i].position, s[j - 1].position, s[j - 1].weight as int);
        (p.0 + t.0, p.1 + t.1, p.2 + t.2)
    }
}

/// The full gravitational speed change of body `i` in one tick: the star
/// plus every other body.
pub open spec fn spec_dv(s: Seq<Planet>, i: int) -> (int, int, int) {
    spec_dv_upto(s, i, s.len() as int)
}

/// The speed of body `i` after velocity integration, per axis.
pub open spec fn spec_stepped_speed(s: Seq<Planet>, i: int) -> (int, int, int) {
    let dv = spec_dv(s, i);
    (s[i].speed.x + dv.0, s[i].speed.y + dv.1, s[i].speed.z + dv.2)
}

/// Whether velocity integration keeps body `i` within the admissible range.
pub open spec fn speed_ok(s: Seq<Planet>, i: int) -> bool {
    let v = spec_stepped_speed(s, i);
    abs_val(v.0) <= MAX_SPEED && abs_val(v.1) <= MAX_SPEED && abs_val(v.2) <= MAX_SPEED
}

/// Whether velocity integration keeps every body in range.
pub open spec fn speeds_ok(s: Seq<Planet>) -> bool {
    forall|i: int| 0 <= i < s.len() ==> speed_ok(s, i)
}

/// Body `i` after velocity integration.
pub open spec fn spec_stepped_planet(s: Seq<Planet>, i: int) -> Planet {
    let v = spec_stepped_speed(s, i);
    Planet { speed: Vec3 { x: v.0 as i64, y: v.1 as i64, z: v.2 as i64 }, ..s[i] }
}

/// The population after velocity integration.
pub open spec fn spec_step_speeds(s: Seq<Planet>) -> Seq<Planet> {
    Seq::new(s.len(), |i: int| spec_stepped_planet(s, i))
}

/// A body has escaped when its distance from the star reaches the radius
/// of the sphere bounding the spawn cube: squared, `3 * R^2` exactly.
pub open spec fn escaped(p: Planet) -> bool {
    spec_dist_sq(spec_origin(), p.position) >= 3 * sq(PLANETARY_SYSTEM_RADIUS as int)
}

/// A body collides with the star when its distance from the origin is
/// below the star's radius plus its own.
pub open spec fn hits_star(p: Planet) -> bool {
    spec_dist_sq(spec_origin(), p.position) < sq(STAR_RADIUS + p.radius)
}

/// A body is doomed by a star event: escape or stellar collision. Both
/// route to the same removal, with no merge product.
pub open spec fn doomed(p: Planet) -> bool {
    escaped(p) || hits_star(p)
}

/// Two bodies collide when their distance is below the collision
/// coefficient times the sum of their radii.
pub open spec fn colliding(a: Planet, b: Planet, coeff: int) -> bool {
    spec_dist_sq(a.position, b.position) < sq(coeff * (a.radius + b.radius))
}

/// Whether body `k` collides with some other body of the population.
pub open spec fn hits_other(s: Seq<Planet>, coeff: int, k: int) -> bool {
    exists|j: int| 0 <= j < s.len() && j != k && colliding(s[k], s[j], coeff)
}

/// Whether body `k` is removed this tick: a star event or any collision.
pub open spec fn flagged(s: Seq<Planet>, coeff: int, k: int) -> bool {
    doomed(s[k]) || hits_other(s, coeff, k)
}

/// Merge products of the pairs `(a, b)` for `a + 1 <= b < j`, in order of
/// `b`.
pub open spec fn row_products(s: Seq<Planet>, coeff: int, a: int, j: int) -> Seq<Planet>
    decreases j - a,
{
    if j <= a + 1 {
        Seq::empty()
    } else if colliding(s[a], s[j - 1], coeff) {
        row_products(s, coeff, a, j - 1) + seq![spec_merged(s[a], s[j - 1])]
    } else {
        row_products(s, coeff, a, j - 1)
    }
}

/// Merge products of every pair whose first index is below `i`, in the
/// scan order of the detection pass.
pub open spec fn rows_products(s: Seq<Planet>, coeff: int, i: int) -> Seq<Planet>
    decreases i,
{
    if i <= 0 {
        Seq::empty()
    } else {
        rows_products(s, coeff, i - 1) + row_products(s, coeff, i - 1, s.len() as int)
    }
}

/// Every merge product one tick appends: one per colliding pair, in scan
/// order. A product is never itself scanned within the same tick.
pub open spec fn spec_products(s: Seq<Planet>, coeff: int) -> Seq<Planet> {
    rows_products(s, coeff, s.len() as int)
}

/// Whether every colliding pair merges within the admissible ranges.
pub open spec fn merge_ok(s: Seq<Planet>, coeff: int) -> bool {
    forall|i: int, j: int|
        0 <= i < j < s.len() && colliding(s[i], s[j], coeff) ==> spec_mergeable(s[i], s[j])
}

/// The bodies of the scanned population that survive the tick: those the
/// detection pass did not flag, in their original order.
pub open spec fn spec_kept(s: Seq<Planet>, coeff: int, n: int) -> Seq<Planet>
    decreases n,
{
    if n <= 0 {
        Seq::empty()
    } else if flagged(s, coeff, n - 1) {
        spec_kept(s, coeff, n - 1)
    } else {
        spec_kept(s, coeff, n - 1) + seq![s[n - 1]]
    }
}

/// One whole tick over the mathematical population: spawn to the target,
/// integrate positions with the previous speeds, add the star's and every
/// pairwise gravitational impulse to the speeds, then detect star events
/// and collisions on the integrated state, merge every colliding pair, and
/// remove every flagged body. Errs, leaving nothing changed, exactly when
/// one phase leaves the admissible ranges.
pub open spec fn spec_tick(s: Seq<Planet>, ds: Seq<PlanetDraw>, coeff: int) -> Result<
    Seq<Planet>,
    TickError,
> {
    let s1 = spec_spawn(s, ds);
    if !moves_ok(s1) {
        Result::Err(TickError::PositionOverflow)
    } else {
        let s2 = spec_move(s1);
        if !speeds_ok(s2) {
            Result::Err(TickError::SpeedOverflow)
        } else {
            let s3 = spec_step_speeds(s2);
            if !merge_ok(s3, coeff) {
                Result::Err(TickError::MergeOverflow)
            } else {
                Result::Ok(spec_kept(s3, coeff, s3.len() as int) + spec_products(s3, coeff))
            }
        }
    }
}

/// Every body of the population lies within the admissible ranges.
pub open spec fn all_valid(s: Seq<Planet>) -> bool {
    forall|i: int| 0 <= i < s.len() ==> valid_planet(s[i])
}

/// Spawn phase: append the body of each draw, in draw order.
fn spawn_planets(work: &mut Vec<Planet>, draws: &Vec<PlanetDraw>)
    requires
        forall|i: int| 0 <= i < draws@.len() ==> valid_draw(draws@[i]),
        all_valid(old(work)@),
    ensures
        final(work)@ == spec_spawn(old(work)@, draws@),
        all_valid(final(work)@),
{
    let ghost s0 = work@;
    let n: usize = draws.len();
    let mut k: usize = 0;
    while k < n
        invariant
            k <= n,
            n == draws@.len(),
            forall|i: int| 0 <= i < draws@.len() ==> valid_draw(draws@[i]),
            work@ == s0 + draws@.take(k as int).map_values(
                |d: PlanetDraw| spec_new_planet(d),
            ),
            all_valid(work@),
        decreases n - k,
    {
        let p = Planet::new(&draws[k]);
        work.push(p);
        proof {
            assert(draws@.take(k + 1).map_values(|d: PlanetDraw| spec_new_planet(d))
                =~= draws@.take(k as int).map_values(|d: PlanetDraw| spec_new_planet(d)).push(
                spec_new_planet(draws@[k as int]),
            ));
            assert(work@ =~= s0 + draws@.take(k + 1).map_values(
                |d: PlanetDraw| spec_new_planet(d),
            ));
        }
        k = k + 1;
    }
    proof {
        assert(draws@.take(n as int) =~= draws@);
    }
}

/// Position integration phase: add one `UNIT_TIME` of each body's speed to
/// its position. Reports the overflow instead of a population when some
/// coordinate would leave the admissible range.
fn move_planets(v: &Vec<Planet>) -> (r: Option<Vec<Planet>>)
    requires
        all_valid(v@),
    ensures
        match r {
            Some(out) => moves_ok(v@) && out@ == spec_move(v@) && all_valid(out@),
            None => !moves_ok(v@),
        },
{
    let n: usize = v.len();
    let mut out: Vec<Planet> = Vec::new();
    let mut k: usize = 0;
    while k < n
        invariant
            k <= n,
            n == v@.len(),
            all_valid(v@),
            out@.len() == k,
            forall|i: int| 0 <= i < k ==> out@[i] == spec_moved_planet(v@[i]),
            forall|i: int| 0 <= i < k ==> move_ok(v@[i]),
            all_valid(out@),
        decreases n - k,
    {
        let p = v[k];
        let nx: i128 = (p.position.x as i128) + (UNIT_TIME as i128) * (p.speed.x as i128);
        let ny: i128 = (p.position.y as i128) + (UNIT_TIME as i128) * (p.speed.y as i128);
        let nz: i128 = (p.position.z as i128) + (UNIT_TIME as i128) * (p.speed.z as i128);
        let lim: i128 = MAX_COORD as i128;
        if nx > lim || nx < -lim || ny > lim || ny < -lim || nz > lim || nz < -lim {
            proof {
                assert(!move_ok(v@[k as int]));
            }
            return None;
        }
        out.push(
            Planet {
                position: Vec3 { x: nx as i64, y: ny as i64, z: nz as i64 },
                ..p
            },
        );
        k = k + 1;
    }
    proof {
        assert(out@ =~= spec_move(v@));
    }
    Some(out)
}

/// Velocity integration phase: accumulate the star's pull and every other
/// body's pull on each body over the integrated positions, then add the
/// total to its speed. Reports the overflow instead of a population when
/// some speed would leave the admissible range.
fn step_speeds(v: &Vec<Planet>) -> (r: Option<Vec<Planet>>)
    requires
        all_valid(v@),
    ensures
        match r {
            Some(out) => speeds_ok(v@) && out@ == spec_step_speeds(v@) && all_valid(out@),
            None => !speeds_ok(v@),
        },
{
    let n: usize = v.len();
    let mut out: Vec<Planet> = Vec::new();
    let mut k: usize = 0;
    proof {
        lemma_pull_bound_consts();
    }
    while k < n
        invariant
            k <= n,
            n == v@.len(),
            all_valid(v@),
            out@.len() == k,
            forall|i: int| 0 <= i < k ==> out@[i] == spec_stepped_planet(v@, i),
            forall|i: int| 0 <= i < k ==> speed_ok(v@, i),
            all_valid(out@),
        decreases n - k,
    {
        let p = v[k];
        proof {
            assert(valid_planet(v@[k as int]));
        }
        let origin = Vec3 { x: 0, y: 0, z: 0 };
        let star: (i64, i64, i64) = attract(&p.position, &origin, STAR_WEIGHT);
        proof {
            lemma_pull_bound_consts();
        }
        let mut a0: i128 = star.0 as i128;
        let mut a1: i128 = star.1 as i128;
        let mut a2: i128 = star.2 as i128;
        let mut j: usize = 0;
        while j < n
            invariant
                j <= n,
                n == v@.len(),
                k < n,
                all_valid(v@),
                p == v@[k as int],
                (a0 as int, a1 as int, a2 as int) == spec_dv_upto(v@, k as int, j as int),
                abs_val(a0 as int) <= 2_000_000_000 + j * 6_000_000,
                abs_val(a1 as int) <= 2_000_000_000 + j * 6_000_000,
                abs_val(a2 as int) <= 2_000_000_000 + j * 6_000_000,
            decreases n - j,
        {
            if j != k {
                let q = v[j];
                proof {
                    assert(valid_planet(v@[j as int]));
                }
                let t: (i64, i64, i64) = attract(&p.position, &q.position, q.weight);
                proof {
                    lemma_pull_bound_mono(q.weight as int, MAX_WEIGHT as int);
                    lemma_pull_bound_consts();
                    assert(n <= 18_446_744_073_709_551_615int);
                }
                a0 = a0 + (t.0 as i128);
                a1 = a1 + (t.1 as i128);
                a2 = a2 + (t.2 as i128);
            }
            j = j + 1;
        }
        let s0: i128 = (p.speed.x as i128) + a0;
        let s1: i128 = (p.speed.y as i128) + a1;
        let s2: i128 = (p.speed.z as i128) + a2;
        let lim: i128 = MAX_SPEED as i128;
        if s0 > lim || s0 < -lim || s1 > lim || s1 < -lim || s2 > lim || s2 < -lim {
            proof {
                assert(!speed_ok(v@, k as int));
            }
            return None;
        }
        out.push(
            Planet {
                speed: Vec3 { x: s0 as i64, y: s1 as i64, z: s2 as i64 },
                ..p
            },
        );
        proof {
            assert(out@[k as int] == spec_stepped_planet(v@, k as int));
        }
        k = k + 1;
    }
    proof {
        assert(out@ =~= spec_step_speeds(v@));
    }
    Some(out)
}

/// Star-event detection: one flag per body, true when the body escaped
/// the system or collided with the star.
fn doomed_flags(v: &Vec<Planet>) -> (flags: Vec<bool>)
    requires
        all_valid(v@),
    ensures
        flags@.len() == v@.len(),
        forall|k: int| 0 <= k < v@.len() ==> flags@[k] == doomed(v@[k]),
{
    let n: usize = v.len();
    let mut flags: Vec<bool> = Vec::new();
    let mut k: usize = 0;
    while k < n
        invariant
            k <= n,
            n == v@.len(),
            all_valid(v@),
            flags@.len() == k,
            forall|i: int| 0 <= i < k ==> flags@[i] == doomed(v@[i]),
        decreases n - k,
    {
        let p = v[k];
        proof {
            assert(valid_planet(v@[k as int]));
        }
        let origin = Vec3 { x: 0, y: 0, z: 0 };
        let d2: u128 = dist_sq(&origin, &p.position);
        let sr: u128 = PLANETARY_SYSTEM_RADIUS as u128;
        let esc: bool = d2 >= 3 * (sr * sr);
        let reach: i64 = STAR_RADIUS + p.radius;
        assert((reach as u128) * (reach as u128) == sq(STAR_RADIUS + p.radius)
            && (reach as u128) * (reach as u128) <= sq(STAR_RADIUS + MAX_RADIUS))
            by (nonlinear_arith)
            requires
                0 < reach <= STAR_RADIUS + MAX_RADIUS,
                reach == STAR_RADIUS + p.radius,
        ;
        let hit: bool = d2 < (reach as u128) * (reach as u128);
        proof {
            assert(esc == escaped(v@[k as int]));
            assert(hit == hits_star(v@[k as int]));
        }
        flags.push(esc || hit);
        k = k + 1;
    }
    flags
}

/// Whether two bodies of the integrated population collide, by the exact
/// squared-distance test.
fn collision_test(a: &Planet, b: &Planet, coeff: u64) -> (r: bool)
    requires
        valid_planet(*a),
        valid_planet(*b),
        coeff <= MAX_COLLISION_COEFFICIENT,
    ensures
        r == colliding(*a, *b, coeff as int),
{
    let d2: u128 = dist_sq(&a.position, &b.position);
    let rsum: i64 = a.radius + b.radius;
    assert((coeff as int) * (rsum as int) == coeff * (a.radius + b.radius) && (coeff as int) * (
    rsum as int) <= MAX_COLLISION_COEFFICIENT * (2 * MAX_RADIUS)) by (nonlinear_arith)
        requires
            rsum == a.radius + b.radius,
            0 < rsum <= 2 * MAX_RADIUS,
            coeff <= MAX_COLLISION_COEFFICIENT,
    ;
    let c: u128 = (coeff as u128) * (rsum as u128);
    assert((c as int) * (c as int) == sq(coeff * (a.radius + b.radius)) && (c as int) * (
    c as int) <= sq(MAX_COLLISION_COEFFICIENT * (2 * MAX_RADIUS))) by (nonlinear_arith)
        requires
            0 <= c <= MAX_COLLISION_COEFFICIENT * (2 * MAX_RADIUS),
            c == coeff * (a.radius + b.radius),
    ;
    assert((c as int) * (c as int) < 0x1_0000_0000_0000_0000_0000_0000_0000_0000int)
        by (nonlinear_arith)
        requires
            0 <= c <= 2_000_000_000_000_000_000u128,
    ;
    d2 < c * c
}

/// Pairs before the scan position `(i, j)` in the lexicographic pair scan.
pub open spec fn lex_before(a: int, b: int, i: int, j: int) -> bool {
    a < i || (a == i && b < j)
}

/// Whether some already-scanned pair involves body `k` and collides.
pub open spec fn scanned_hit(s: Seq<Planet>, coeff: int, k: int, i: int, j: int) -> bool {
    exists|a: int, b: int|
        0 <= a < b < s.len() && lex_before(a, b, i, j) && (a == k || b == k)
            && #[trigger] colliding(s[a], s[b], coeff)
}

/// The collision test is symmetric in its two bodies.
proof fn lemma_colliding_sym(a: Planet, b: Planet, coeff: int)
    ensures
        colliding(a, b, coeff) == colliding(b, a, coeff),
{
    assert(spec_dist_sq(a.position, b.position) == spec_dist_sq(b.position, a.position))
        by (nonlinear_arith);
}

/// Body-body collision detection and merging: scan every unordered pair of
/// the integrated population once, in lexicographic order; flag both sides
/// of each colliding pair and append their merge product. Reports the
/// overflow instead of the products when some merge would leave the
/// admissible ranges.
#[verifier::rlimit(60)]
fn scan_collisions(v: &Vec<Planet>, coeff: u64, flags: &mut Vec<bool>) -> (r: Option<Vec<Planet>>)
    requires
        all_valid(v@),
        coeff <= MAX_COLLISION_COEFFICIENT,
        old(flags)@.len() == v@.len(),
        forall|k: int| 0 <= k < v@.len() ==> old(flags)@[k] == doomed(v@[k]),
    ensures
        match r {
            Some(products) => {
                &&& merge_ok(v@, coeff as int)
                &&& products@ == spec_products(v@, coeff as int)
                &&& all_valid(products@)
                &&& final(flags)@.len() == v@.len()
                &&& forall|k: int|
                    0 <= k < v@.len() ==> final(flags)@[k] == flagged(v@, coeff as int, k)
            },
            None => !merge_ok(v@, coeff as int),
        },
{
    let ghost s = v@;
    let ghost c = coeff as int;
    let n: usize = v.len();
    let mut products: Vec<Planet> = Vec::new();
    proof {
        assert forall|k: int| 0 <= k < n implies !scanned_hit(s, c, k, 0, 1) by {
            if scanned_hit(s, c, k, 0, 1) {
                let (a, b) = choose|a: int, b: int|
                    0 <= a < b < s.len() && lex_before(a, b, 0, 1) && (a == k || b == k)
                        && #[trigger] colliding(s[a], s[b], c);
                assert(false);
            }
        }
    }
    let mut i: usize = 0;
    while i < n
        invariant
            i <= n,
            n == s.len(),
            s == v@,
            c == coeff as int,
            all_valid(s),
            coeff <= MAX_COLLISION_COEFFICIENT,
            flags@.len() == n,
            forall|k: int|
                0 <= k < n ==> flags@[k] == (doomed(s[k]) || scanned_hit(
                    s,
                    c,
                    k,
                    i as int,
                    i + 1,
                )),
            products@ == rows_products(s, c, i as int),
            all_valid(products@),
            forall|a: int, b: int|
                0 <= a < b < n && lex_before(a, b, i as int, i + 1) && colliding(s[a], s[b], c)
                    ==> spec_mergeable(s[a], s[b]),
        decreases n - i,
    {
        let mut j: usize = i + 1;
        proof {
            assert(row_products(s, c, i as int, i + 1) =~= Seq::<Planet>::empty());
        }
        while j < n
            invariant
                i < n,
                i + 1 <= j <= n,
                n == s.len(),
                s == v@,
                c == coeff as int,
                all_valid(s),
                coeff <= MAX_COLLISION_COEFFICIENT,
                flags@.len() == n,
                forall|k: int|
                    0 <= k < n ==> flags@[k] == (doomed(s[k]) || scanned_hit(
                        s,
                        c,
                        k,
                        i as int,
                        j as int,
                    )),
                products@ == rows_products(s, c, i as int) + row_products(
                    s,
                    c,
                    i as int,
                    j as int,
                ),
                all_valid(products@),
                forall|a: int, b: int|
                    0 <= a < b < n && lex_before(a, b, i as int, j as int) && colliding(
                        s[a],
                        s[b],
                        c,
                    ) ==> spec_mergeable(s[a], s[b]),
            decreases n - j,
        {
            let pi = v[i];
            let pj = v[j];
            proof {
                assert(valid_planet(s[i as int]) && valid_planet(s[j as int]));
            }
            let is_col: bool = collision_test(&pi, &pj, coeff);
            if is_col {
                match merge_planets(&pi, &pj) {
                    Option::None => {
                        proof {
                            assert(colliding(s[i as int], s[j as int], c)
                                && !spec_mergeable(s[i as int], s[j as int]));
                            assert(!merge_ok(s, c));
                        }
                        return None;
                    },
                    Option::Some(m) => {
                        products.push(m);
                        flags.set(i, true);
                        flags.set(j, true);
                    },
                }
            }
            proof {
                let gi = i as int;
                let gj = j as int;
                if is_col {
                    assert(colliding(s[gi], s[gj], c));
                    assert(scanned_hit(s, c, gi, gi, gj + 1)) by {
                        assert(lex_before(gi, gj, gi, gj + 1) && colliding(s[gi], s[gj], c));
                    }
                    assert(scanned_hit(s, c, gj, gi, gj + 1)) by {
                        assert(lex_before(gi, gj, gi, gj + 1) && colliding(s[gi], s[gj], c));
                    }
                }
                assert forall|k: int| 0 <= k < n implies flags@[k] == (doomed(s[k])
                    || scanned_hit(s, c, k, gi, gj + 1)) by {
                    if k == gi || k == gj {
                        if is_col {
                            assert(flags@[k]);
                        } else {
                            if scanned_hit(s, c, k, gi, gj + 1) {
                                let (a, b) = choose|a: int, b: int|
                                    0 <= a < b < s.len() && lex_before(a, b, gi, gj + 1) && (a == k
                                        || b == k) && #[trigger] colliding(s[a], s[b], c);
                                if a == gi && b == gj {
                                    assert(false);
                                } else {
                                    assert(lex_before(a, b, gi, gj));
                                    assert(scanned_hit(s, c, k, gi, gj));
                                }
                            }
                            if scanned_hit(s, c, k, gi, gj) {
                                let (a, b) = choose|a: int, b: int|
                                    0 <= a < b < s.len() && lex_before(a, b, gi, gj) && (a == k
                                        || b == k) && #[trigger] colliding(s[a], s[b], c);
                                assert(lex_before(a, b, gi, gj + 1));
                                assert(scanned_hit(s, c, k, gi, gj + 1));
                            }
                        }
                    } else {
                        if scanned_hit(s, c, k, gi, gj + 1) {
                            let (a, b) = choose|a: int, b: int|
                                0 <= a < b < s.len() && lex_before(a, b, gi, gj + 1) && (a == k
                                    || b == k) && #[trigger] colliding(s[a], s[b], c);
                            if a == gi && b == gj {
                                assert(false);
                            } else {
                                assert(lex_before(a, b, gi, gj));
                                assert(scanned_hit(s, c, k, gi, gj));
                            }
                        }
                        if scanned_hit(s, c, k, gi, gj) {
                            let (a, b) = choose|a: int, b: int|
                                0 <= a < b < s.len() && lex_before(a, b, gi, gj) && (a == k || b
                                    == k) && #[trigger] colliding(s[a], s[b], c);
                            assert(lex_before(a, b, gi, gj + 1));
                            assert(scanned_hit(s, c, k, gi, gj + 1));
                        }
                    }
                }
                assert(products@ == rows_products(s, c, gi) + row_products(s, c, gi, gj + 1));
                assert forall|a: int, b: int|
                    0 <= a < b < n && lex_before(a, b, gi, gj + 1) && colliding(s[a], s[b], c)
                        implies spec_mergeable(s[a], s[b]) by {
                    if a == gi && b == gj {
                        assert(is_col);
                    } else {
                        assert(lex_before(a, b, gi, gj));
                    }
                }
            }
            j = j + 1;
        }
        proof {
            let gi = i as int;
            assert(rows_products(s, c, gi + 1) == rows_products(s, c, gi) + row_products(
                s,
                c,
                gi,
                s.len() as int,
            ));
            assert forall|k: int| 0 <= k < n implies (scanned_hit(s, c, k, gi, n as int)
                == scanned_hit(s, c, k, gi + 1, gi + 2)) by {
                if scanned_hit(s, c, k, gi, n as int) {
                    let (a, b) = choose|a: int, b: int|
                        0 <= a < b < s.len() && lex_before(a, b, gi, n as int) && (a == k || b
                            == k) && #[trigger] colliding(s[a], s[b], c);
                    assert(lex_before(a, b, gi + 1, gi + 2));
                    assert(scanned_hit(s, c, k, gi + 1, gi + 2));
                }
                if scanned_hit(s, c, k, gi + 1, gi + 2) {
                    let (a, b) = choose|a: int, b: int|
                        0 <= a < b < s.len() && lex_before(a, b, gi + 1, gi + 2) && (a == k || b
                            == k) && #[trigger] colliding(s[a], s[b], c);
                    assert(lex_before(a, b, gi, n as int));
                    assert(scanned_hit(s, c, k, gi, n as int));
                }
            }
            assert forall|a: int, b: int|
                0 <= a < b < n && lex_before(a, b, gi + 1, gi + 2) && colliding(s[a], s[b], c)
                    implies spec_mergeable(s[a], s[b]) by {
                assert(lex_before(a, b, gi, n as int));
            }
        }
        i = i + 1;
    }
    proof {
        assert forall|k: int| 0 <= k < n implies (scanned_hit(s, c, k, n as int, n + 1)
            == hits_other(s, c, k)) by {
            if scanned_hit(s, c, k, n as int, n + 1) {
                let (a, b) = choose|a: int, b: int|
                    0 <= a < b < s.len() && lex_before(a, b, n as int, n + 1) && (a == k || b == k)
                        && #[trigger] colliding(s[a], s[b], c);
                if a == k {
                    assert(colliding(s[k], s[b], c));
                    assert(hits_other(s, c, k));
                } else {
                    lemma_colliding_sym(s[a], s[b], c);
                    assert(colliding(s[k], s[a], c));
                    assert(hits_other(s, c, k));
                }
            }
            if hits_other(s, c, k) {
                let jw = choose|jw: int| 0 <= jw < s.len() && jw != k && colliding(s[k], s[jw], c);
                if k < jw {
                    assert(lex_before(k, jw, n as int, n + 1) && colliding(s[k], s[jw], c));
                    assert(scanned_hit(s, c, k, n as int, n + 1));
                } else {
                    lemma_colliding_sym(s[k], s[jw], c);
                    assert(lex_before(jw, k, n as int, n + 1) && colliding(s[jw], s[k], c));
                    assert(scanned_hit(s, c, k, n as int, n + 1));
                }
            }
        }
        assert forall|a: int, b: int|
            0 <= a < b < n && colliding(s[a], s[b], c) implies spec_mergeable(s[a], s[b]) by {
            assert(lex_before(a, b, n as int, n + 1));
        }
    }
    Some(products)
}

/// Removal phase: keep, in order, every body the detection pass did not
/// flag. Bodies appended by spawn or merge this tick are never removed
/// within the same tick.
fn build_survivors(v: &Vec<Planet>, flags: &Vec<bool>, coeff: Ghost<int>) -> (out: Vec<Planet>)
    requires
        all_valid(v@),
        flags@.len() == v@.len(),
        forall|k: int| 0 <= k < v@.len() ==> flags@[k] == flagged(v@, coeff@, k),
    ensures
        out@ == spec_kept(v@, coeff@, v@.len() as int),
        all_valid(out@),
{
    let n: usize = v.len();
    let mut out: Vec<Planet> = Vec::new();
    let mut k: usize = 0;
    while k < n
        invariant
            k <= n,
            n == v@.len(),
            all_valid(v@),
            flags@.len() == n,
            forall|i: int| 0 <= i < n ==> flags@[i] == flagged(v@, coeff@, i),
            out@ == spec_kept(v@, coeff@, k as int),
            all_valid(out@),
        decreases n - k,
    {
        if !flags[k] {
            out.push(v[k]);
        }
        k = k + 1;
    }
    out
}

/// While the population is below the target count, one tick raises it to
/// the target in that single spawn phase, before any integration, merging
/// or removal touches it.
pub proof fn lemma_spawn_fills_to_target(s: Seq<Planet>, ds: Seq<PlanetDraw>, target: int)
    requires
        s.len() < target,
        ds.len() == spawn_count(s.len() as int, target),
    ensures
        spec_spawn(s, ds).len() == target,
{
}

/// The simulation engine: it owns the mutable population of bodies; no
/// caller can reach inside, only `tick` changes it.
pub struct PlanetarySystem {
    planets: Vec<Planet>,
    target_count: usize,
    collision_coefficient: u64,
}

impl PlanetarySystem {
    /// The current population, in internal order. The order is not stable
    /// across ticks: removal and append change it.
    pub closed spec fn planets_seq(self) -> Seq<Planet> {
        self.planets@
    }

    /// The population count the spawn phase fills up to.
    pub closed spec fn target(self) -> int {
        self.target_count as int
    }

    /// The scale factor of the body-body collision test.
    pub closed spec fn coefficient(self) -> int {
        self.collision_coefficient as int
    }

    /// The engine's invariant: every body and the coefficient lie within
    /// the admissible ranges.
    pub closed spec fn wf(self) -> bool {
        all_valid(self.planets@) && self.collision_coefficient <= MAX_COLLISION_COEFFICIENT
    }

    /// An empty engine with the default target count and coefficient.
    pub fn new() -> (s: PlanetarySystem)
        ensures
            s.wf(),
            s.planets_seq() == Seq::<Planet>::empty(),
            s.target() == DEFAULT_TARGET_COUNT,
            s.coefficient() == DEFAULT_COLLISION_COEFFICIENT,
    {
        PlanetarySystem {
            planets: Vec::new(),
            target_count: DEFAULT_TARGET_COUNT,
            collision_coefficient: DEFAULT_COLLISION_COEFFICIENT,
        }
    }

    /// An empty engine with a chosen target count and coefficient.
    pub fn with_config(target_count: usize, collision_coefficient: u64) -> (s: PlanetarySystem)
        requires
            collision_coefficient <= MAX_COLLISION_COEFFICIENT,
        ensures
            s.wf(),
            s.planets_seq() == Seq::<Planet>::empty(),
            s.target() == target_count,
            s.coefficient() == collision_coefficient,
    {
        PlanetarySystem { planets: Vec::new(), target_count, collision_coefficient }
    }

    /// Number of live bodies.
    pub fn get_body_count(&self) -> (n: usize)
        ensures
            n == self.planets_seq().len(),
    {
        self.planets.len()
    }

    /// The target count, with which a caller sizes the draw slice of the
    /// next tick.
    pub fn get_target_count(&self) -> (t: usize)
        ensures
            t == self.target(),
    {
        self.target_count
    }

    /// The collision coefficient.
    pub fn get_collision_coefficient(&self) -> (c: u64)
        ensures
            c == self.coefficient(),
    {
        self.collision_coefficient
    }

    /// The live bodies, in current internal order.
    pub fn get_planets(&self) -> (ps: Vec<Planet>)
        ensures
            ps@ == self.planets_seq(),
    {
        let n: usize = self.planets.len();
        let mut out: Vec<Planet> = Vec::new();
        let mut k: usize = 0;
        while k < n
            invariant
                k <= n,
                n == self.planets@.len(),
                out@ == self.planets@.take(k as int),
            decreases n - k,
        {
            out.push(self.planets[k]);
            proof {
                assert(self.planets@.take(k + 1) =~= self.planets@.take(k as int).push(
                    self.planets@[k as int],
                ));
            }
            k = k + 1;
        }
        proof {
            assert(self.planets@.take(n as int) =~= self.planets@);
        }
        out
    }

    /// Flattened positions: three coordinates per body, in body order. The
    /// result is a pure function of the current population.
    pub fn get_positions(&self) -> (r: Vec<i64>)
        ensures
            r@.len() == 3 * self.planets_seq().len(),
            forall|i: int|
                0 <= i < self.planets_seq().len() ==> r@[3 * i] == self.planets_seq()[i].position.x
                    && r@[3 * i + 1] == self.planets_seq()[i].position.y && r@[3 * i + 2]
                    == self.planets_seq()[i].position.z,
    {
        let n: usize = self.planets.len();
        let mut out: Vec<i64> = Vec::new();
        let mut k: usize = 0;
        while k < n
            invariant
                k <= n,
                n == self.planets@.len(),
                out@.len() == 3 * k,
                forall|i: int|
                    0 <= i < k ==> out@[3 * i] == self.planets@[i].position.x && out@[3 * i + 1]
                        == self.planets@[i].position.y && out@[3 * i + 2]
                        == self.planets@[i].position.z,
            decreases n - k,
        {
            let p = self.planets[k];
            out.push(p.position.x);
            out.push(p.position.y);
            out.push(p.position.z);
            k = k + 1;
        }
        out
    }

    /// Per-body weights, in body order. The result is a pure function of
    /// the current population.
    pub fn get_masses(&self) -> (r: Vec<u64>)
        ensures
            r@.len() == self.planets_seq().len(),
            forall|i: int| 0 <= i < r@.len() ==> r@[i] == self.planets_seq()[i].weight,
    {
        let n: usize = self.planets.len();
        let mut out: Vec<u64> = Vec::new();
        let mut k: usize = 0;
        while k < n
            invariant
                k <= n,
                n == self.planets@.len(),
                out@.len() == k,
                forall|i: int| 0 <= i < k ==> out@[i] == self.planets@[i].weight,
            decreases n - k,
        {
            out.push(self.planets[k].weight);
            k = k + 1;
        }
        out
    }

    /// Advance the simulation by one `UNIT_TIME`: spawn from the given
    /// draws up to the target count, integrate positions with the previous
    /// speeds, add the star's and every pairwise gravitational impulse to
    /// the speeds, detect escapes, stellar collisions and body-body
    /// collisions on the integrated state, append one merge product per
    /// colliding pair, and remove every flagged body. The caller passes
    /// exactly the draws the spawn phase consumes. On an overflow error
    /// nothing is changed.
    pub fn tick(&mut self, draws: &Vec<PlanetDraw>) -> (r: Result<(), TickError>)
        requires
            old(self).wf(),
            draws@.len() == spawn_count(
                old(self).planets_seq().len() as int,
                old(self).target(),
            ),
            forall|i: int| 0 <= i < draws@.len() ==> valid_draw(draws@[i]),
        ensures
            final(self).wf(),
            final(self).target() == old(self).target(),
            final(self).coefficient() == old(self).coefficient(),
            r is Ok ==> spec_tick(old(self).planets_seq(), draws@, old(self).coefficient())
                == Result::<Seq<Planet>, TickError>::Ok(final(self).planets_seq()),
            r is Err ==> spec_tick(old(self).planets_seq(), draws@, old(self).coefficient())
                == Result::<Seq<Planet>, TickError>::Err(r->Err_0) && final(self).planets_seq()
                == old(self).planets_seq(),
    {
        let ghost s0 = self.planets@;
        let n0: usize = self.planets.len();
        let mut work: Vec<Planet> = Vec::new();
        let mut k: usize = 0;
        while k < n0
            invariant
                k <= n0,
                n0 == self.planets@.len(),
                s0 == self.planets@,
                work@ == s0.take(k as int),
            decreases n0 - k,
        {
            work.push(self.planets[k]);
            proof {
                assert(s0.take(k + 1) =~= s0.take(k as int).push(s0[k as int]));
            }
            k = k + 1;
        }
        proof {
            assert(s0.take(n0 as int) =~= s0);
        }
        spawn_planets(&mut work, draws);
        let ghost s1 = spec_spawn(s0, draws@);
        let moved: Vec<Planet>;
        match move_planets(&work) {
            Option::None => {
                return Err(TickError::PositionOverflow);
            },
            Option::Some(m) => {
                moved = m;
            },
        }
        let ghost s2 = spec_move(s1);
        let stepped: Vec<Planet>;
        match step_speeds(&moved) {
            Option::None => {
                return Err(TickError::SpeedOverflow);
            },
            Option::Some(m) => {
                stepped = m;
            },
        }
        let ghost s3 = spec_step_speeds(s2);
        let mut flags: Vec<bool> = doomed_flags(&stepped);
        let products: Vec<Planet>;
        match scan_collisions(&stepped, self.collision_coefficient, &mut flags) {
            Option::None => {
                return Err(TickError::MergeOverflow);
            },
            Option::Some(p) => {
                products = p;
            },
        }
        let mut result: Vec<Planet> = build_survivors(
            &stepped,
            &flags,
            Ghost(self.collision_coefficient as int),
        );
        let np: usize = products.len();
        let mut t: usize = 0;
        while t < np
            invariant
                t <= np,
                np == products@.len(),
                result@ == spec_kept(s3, self.collision_coefficient as int, s3.len() as int)
                    + products@.take(t as int),
                products@ == spec_products(s3, self.collision_coefficient as int),
                all_valid(result@),
                all_valid(products@),
                s3 == spec_step_speeds(s2),
            decreases np - t,
        {
            result.push(products[t]);
            proof {
                assert(products@.take(t + 1) =~= products@.take(t as int).push(
                    products@[t as int],
                ));
                assert(result@ =~= spec_kept(s3, self.collision_coefficient as int, s3.len() as int)
                    + products@.take(t + 1));
            }
            t = t + 1;
        }
        proof {
            assert(products@.take(np as int) =~= products@);
        }
        self.planets = result;
        Ok(())
    }
}

} // verus!
