use planetary_system::consts::{
    DEFAULT_COLLISION_COEFFICIENT, DEFAULT_TARGET_COUNT, PLANETARY_SYSTEM_RADIUS, STAR_RADIUS,
    UNIT_TIME,
};
use planetary_system::planet::{merge_planets, Planet, PlanetDraw};
use planetary_system::system::{get_planetary_system_radius, PlanetarySystem};
use planetary_system::vector::{measure_distance, Vec3};

fn v3(x: i64, y: i64, z: i64) -> Vec3 {
    Vec3 { x, y, z }
}

fn draw_at(position: Vec3, speed: Vec3) -> PlanetDraw {
    PlanetDraw {
        position,
        speed,
        radius: 1_000_000,
        density: 100_000,
    }
}

#[test]
fn measure_distance_exact() {
    assert_eq!(measure_distance(&v3(0, 0, 0), &v3(3, 4, 0)), 5);
    assert_eq!(measure_distance(&v3(1, 1, 1), &v3(2, 2, 2)), 1);
    assert_eq!(measure_distance(&v3(-3, 0, 0), &v3(3, 0, 0)), 6);
    assert_eq!(measure_distance(&v3(0, 0, 0), &v3(0, 0, 0)), 0);
}

#[test]
fn system_radius_reported() {
    assert_eq!(get_planetary_system_radius(), 227_920_000_000);
}

#[test]
fn spawn_weight_formula() {
    let p = Planet::new(&draw_at(v3(1, 2, 3), v3(4, 5, 6)));
    // 4 * 3_141_592_653 * (10^6)^3 * 100_000 / (3 * 10^25), rounded down.
    assert_eq!(p.get_weight(), 41_887_902);
    assert_eq!(p.radius_cubed, 1_000_000_000_000_000_000u128);
    assert_eq!(p.radius, 1_000_000);
    let pos = p.get_position();
    assert_eq!((pos.x, pos.y, pos.z), (1, 2, 3));
}

#[test]
fn tiny_body_keeps_one_mass_unit() {
    let d = PlanetDraw {
        position: v3(0, 0, 0),
        speed: v3(0, 0, 0),
        radius: 10,
        density: 3_435,
    };
    let p = Planet::new(&d);
    assert_eq!(p.weight, 1);
}

#[test]
fn merge_conserves_mass_and_volume() {
    let a = Planet::new(&draw_at(v3(2000, 3000, 4000), v3(100, 0, -50)));
    let b = Planet::new(&draw_at(v3(1000, 1000, 1000), v3(-100, 40, 50)));
    let m = merge_planets(&a, &b).unwrap();
    assert_eq!(m.weight, a.weight + b.weight);
    assert_eq!(m.weight, 83_775_804);
    assert_eq!(m.radius_cubed, a.radius_cubed + b.radius_cubed);
    assert_eq!(m.radius, 1_259_921);
}

#[test]
fn merge_conserves_momentum() {
    let a = Planet::new(&draw_at(v3(2000, 3000, 4000), v3(100, 0, -50)));
    let b = Planet::new(&draw_at(v3(1000, 1000, 1000), v3(-100, 40, 50)));
    let m = merge_planets(&a, &b).unwrap();
    // Equal weights: the mass-weighted average is the plain average.
    assert_eq!((m.speed.x, m.speed.y, m.speed.z), (0, 20, 0));
    assert_eq!((m.position.x, m.position.y, m.position.z), (1500, 2000, 2500));
}

#[test]
fn merge_is_order_independent() {
    let a = Planet::new(&draw_at(v3(2000, 3000, 4000), v3(100, 0, -50)));
    let b = Planet::new(&draw_at(v3(1000, 1000, 1000), v3(-33, 40, 50)));
    let ab = merge_planets(&a, &b).unwrap();
    let ba = merge_planets(&b, &a).unwrap();
    assert_eq!(ab, ba);
}

#[test]
fn default_engine_is_empty() {
    let s = PlanetarySystem::new();
    assert_eq!(s.get_body_count(), 0);
    assert_eq!(s.get_target_count(), DEFAULT_TARGET_COUNT);
    assert_eq!(s.get_collision_coefficient(), DEFAULT_COLLISION_COEFFICIENT);
    assert_eq!(s.get_positions().len(), 0);
    assert_eq!(s.get_masses().len(), 0);
}

#[test]
fn tick_spawns_to_target_and_integrates_positions() {
    // Collision coefficient zero: no pair ever collides.
    let mut s = PlanetarySystem::with_config(4, 0);
    let draws = vec![
        draw_at(v3(2_000_000_000, 0, 0), v3(10, -20, 30)),
        draw_at(v3(0, 3_000_000_000, 0), v3(0, 0, 0)),
        draw_at(v3(0, 0, -4_000_000_000), v3(-7, 7, 7)),
        draw_at(v3(5_000_000_000, 5_000_000_000, 5_000_000_000), v3(1, 2, 3)),
    ];
    assert!(s.tick(&draws).is_ok());
    assert_eq!(s.get_body_count(), 4);
    let pos = s.get_positions();
    assert_eq!(pos.len(), 12);
    for (k, d) in draws.iter().enumerate() {
        assert_eq!(pos[3 * k], d.position.x + UNIT_TIME * d.speed.x);
        assert_eq!(pos[3 * k + 1], d.position.y + UNIT_TIME * d.speed.y);
        assert_eq!(pos[3 * k + 2], d.position.z + UNIT_TIME * d.speed.z);
    }
    assert_eq!(s.get_masses(), vec![41_887_902; 4]);
}

#[test]
fn escape_threshold_is_sharp() {
    // Exactly at the bounding-sphere radius: removed, no product.
    let mut s = PlanetarySystem::with_config(1, 0);
    let r = PLANETARY_SYSTEM_RADIUS;
    let draws = vec![draw_at(v3(r, r, r), v3(0, 0, 0))];
    assert!(s.tick(&draws).is_ok());
    assert_eq!(s.get_body_count(), 0);

    // One meter short of it, at rest: retained.
    let mut s = PlanetarySystem::with_config(1, 0);
    let draws = vec![draw_at(v3(r, r, r - 1), v3(0, 0, 0))];
    assert!(s.tick(&draws).is_ok());
    assert_eq!(s.get_body_count(), 1);
}

#[test]
fn star_collision_threshold_is_sharp() {
    // One meter inside the star's reach: removed.
    let mut s = PlanetarySystem::with_config(1, 0);
    let draws = vec![draw_at(v3(STAR_RADIUS + 1_000_000 - 1, 0, 0), v3(0, 0, 0))];
    assert!(s.tick(&draws).is_ok());
    assert_eq!(s.get_body_count(), 0);

    // Exactly at the star's reach: retained.
    let mut s = PlanetarySystem::with_config(1, 0);
    let draws = vec![draw_at(v3(STAR_RADIUS + 1_000_000, 0, 0), v3(0, 0, 0))];
    assert!(s.tick(&draws).is_ok());
    assert_eq!(s.get_body_count(), 1);
}

#[test]
fn colliding_pair_merges_into_one() {
    let mut s = PlanetarySystem::with_config(2, 256);
    let draws = vec![
        draw_at(v3(2_000_000_000, 0, 0), v3(5, 0, 0)),
        draw_at(v3(2_000_000_000, 100, 0), v3(-5, 0, 0)),
    ];
    assert!(s.tick(&draws).is_ok());
    // Both originals removed, one merge product appended.
    assert_eq!(s.get_body_count(), 1);
    let masses = s.get_masses();
    assert_eq!(masses, vec![2 * 41_887_902]);
    let planets = s.get_planets();
    assert_eq!(planets[0].radius_cubed, 2_000_000_000_000_000_000u128);
}

#[test]
fn accessors_are_idempotent() {
    let mut s = PlanetarySystem::with_config(3, 0);
    let draws = vec![
        draw_at(v3(2_000_000_000, 0, 0), v3(10, -20, 30)),
        draw_at(v3(0, 3_000_000_000, 0), v3(0, 4, 0)),
        draw_at(v3(0, 0, -4_000_000_000), v3(-7, 7, 7)),
    ];
    assert!(s.tick(&draws).is_ok());
    assert_eq!(s.get_positions(), s.get_positions());
    assert_eq!(s.get_masses(), s.get_masses());
    assert_eq!(s.get_body_count(), s.get_body_count());
    assert_eq!(s.get_planets(), s.get_planets());
}

#[test]
fn empty_engine_ticks() {
    let mut s = PlanetarySystem::with_config(0, 256);
    assert!(s.tick(&vec![]).is_ok());
    assert_eq!(s.get_body_count(), 0);
}

#[test]
fn gravity_pulls_toward_star() {
    // A single body at rest on the x axis gains inward speed only.
    let mut s = PlanetarySystem::with_config(1, 0);
    let draws = vec![draw_at(v3(2_000_000_000, 0, 0), v3(0, 0, 0))];
    assert!(s.tick(&draws).is_ok());
    let planets = s.get_planets();
    assert_eq!(planets.len(), 1);
    // GRAV_FACTOR * STAR_WEIGHT / r^2 at r = 2e9 m, toward the origin:
    // 11_469_760_430_544 * 10^12 / (4e18) = 2_867_440, truncated.
    assert_eq!(planets[0].speed.x, -2_867_440);
    assert_eq!(planets[0].speed.y, 0);
    assert_eq!(planets[0].speed.z, 0);
}

#[test]
fn second_tick_drifts_with_gained_speed() {
    let mut s = PlanetarySystem::with_config(1, 0);
    let draws = vec![draw_at(v3(2_000_000_000, 0, 0), v3(0, 0, 0))];
    assert!(s.tick(&draws).is_ok());
    assert_eq!(s.get_positions(), vec![2_000_000_000, 0, 0]);
    // The population is at the target, so the next tick spawns nothing and
    // integrates the speed gained from the star's pull: one UNIT_TIME of
    // -2_867_440 m/s.
    assert!(s.tick(&vec![]).is_ok());
    assert_eq!(s.get_body_count(), 1);
    assert_eq!(
        s.get_positions(),
        vec![2_000_000_000 - UNIT_TIME * 2_867_440, 0, 0]
    );
}
