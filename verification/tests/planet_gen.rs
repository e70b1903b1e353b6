use planet_gen::bootstrap::{
    assign_plates, choose_seeds, plate_count_for_radius, subdivisions_for_radius, NormalDraws,
    MAX_RADIUS, RADIUS_OF_JUPITER,
};
use planet_gen::icosphere::{
    isqrt_u64, make_icosphere, normalize_fix, subdivide, Triangle, Vec3Fix, SCALE,
};
use planet_gen::initial_planet_data::{InitialPlanetParams, PlanetElement, PlanetType};
use planet_gen::output_data::{export_triangles, export_vertices, Planet, SolarSystem, Star};

fn norm_sq_i128(v: &Vec3Fix) -> i128 {
    let x = v.x as i128;
    let y = v.y as i128;
    let z = v.z as i128;
    x * x + y * y + z * z
}

fn assert_near_unit(v: &Vec3Fix) {
    let s = SCALE as i128;
    let n = norm_sq_i128(v);
    assert!((s - 4) * (s - 4) <= n, "norm_sq {} too small", n);
    assert!(n <= (s + 2) * (s + 2), "norm_sq {} too large", n);
}

#[test]
fn base_icosahedron_has_twelve_vertices_twenty_triangles() {
    let (vertices, triangles) = make_icosphere(0);
    assert_eq!(vertices.len(), 12);
    assert_eq!(triangles.len(), 20);
}

#[test]
fn one_subdivision_gives_42_vertices_80_triangles() {
    let (vertices, triangles) = make_icosphere(1);
    assert_eq!(vertices.len(), 42);
    assert_eq!(triangles.len(), 80);
    for v in &vertices {
        assert_near_unit(v);
    }
}

#[test]
fn two_subdivisions_give_162_vertices_320_triangles() {
    let (vertices, triangles) = make_icosphere(2);
    assert_eq!(vertices.len(), 162);
    assert_eq!(triangles.len(), 320);
    for v in &vertices {
        assert_near_unit(v);
    }
}

#[test]
fn triangle_and_vertex_counts_follow_closed_forms() {
    for k in 0..=4u32 {
        let (vertices, triangles) = make_icosphere(k);
        let p = 4usize.pow(k);
        assert_eq!(triangles.len(), 20 * p);
        assert_eq!(vertices.len(), 10 * p + 2);
    }
}

#[test]
fn every_triangle_index_is_in_range() {
    let (vertices, triangles) = make_icosphere(3);
    for t in &triangles {
        assert!(t.a < vertices.len());
        assert!(t.b < vertices.len());
        assert!(t.c < vertices.len());
    }
}

#[test]
fn all_vertices_stay_on_unit_sphere() {
    let (vertices, _) = make_icosphere(2);
    for v in &vertices {
        assert_near_unit(v);
    }
}

#[test]
fn shared_edge_midpoint_is_created_once() {
    // two triangles sharing the edge {0, 1}, in opposite orientations
    let s = SCALE;
    let mut vertices = vec![
        Vec3Fix { x: s, y: 0, z: 0 },
        Vec3Fix { x: 0, y: s, z: 0 },
        Vec3Fix { x: 0, y: 0, z: s },
        Vec3Fix { x: 0, y: 0, z: -s },
    ];
    let triangles = vec![Triangle { a: 0, b: 1, c: 2 }, Triangle { a: 1, b: 0, c: 3 }];
    let out = subdivide(&mut vertices, triangles);
    assert_eq!(out.len(), 8);
    // five distinct edges, so five new vertices
    assert_eq!(vertices.len(), 9);
    // the midpoint of edge slot 0 of both input triangles is the same vertex
    let mid_t0 = out[0].b;
    let mid_t1 = out[4].b;
    assert_eq!(mid_t0, mid_t1);
    // that vertex is the normalized midpoint of {0, 1}
    let m = &vertices[mid_t0];
    assert_near_unit(m);
    assert_eq!(m.x, m.y);
    assert_eq!(m.z, 0);
}

#[test]
fn subdividing_no_triangles_changes_nothing() {
    let s = SCALE;
    let mut vertices = vec![Vec3Fix { x: s, y: 0, z: 0 }];
    let out = subdivide(&mut vertices, Vec::new());
    assert!(out.is_empty());
    assert_eq!(vertices.len(), 1);
}

#[test]
fn pipeline_is_deterministic_across_runs() {
    let first = make_icosphere(3);
    let second = make_icosphere(3);
    assert_eq!(first.0, second.0);
    assert_eq!(first.1, second.1);
}

#[test]
fn isqrt_matches_exact_values() {
    assert_eq!(isqrt_u64(0), 0);
    assert_eq!(isqrt_u64(1), 1);
    assert_eq!(isqrt_u64(15), 3);
    assert_eq!(isqrt_u64(16), 4);
    assert_eq!(isqrt_u64(1_000_000_000_000_000_000), 1_000_000_000);
    assert_eq!(isqrt_u64(u64::MAX), 4_294_967_295);
}

#[test]
fn normalize_projects_onto_sphere() {
    let v = Vec3Fix { x: SCALE, y: SCALE, z: 0 };
    let n = normalize_fix(v);
    assert_near_unit(&n);
    assert_eq!(n.x, n.y);
    assert_eq!(n.z, 0);
    // the zero vector is left unchanged
    let z = normalize_fix(Vec3Fix { x: 0, y: 0, z: 0 });
    assert_eq!(z, Vec3Fix { x: 0, y: 0, z: 0 });
}

#[test]
fn chosen_seeds_are_distinct_and_in_range() {
    let mut rng = rand::thread_rng();
    for _ in 0..10 {
        let seeds = choose_seeds(&mut rng, 8, 42);
        assert_eq!(seeds.len(), 8);
        for (i, a) in seeds.iter().enumerate() {
            assert!(*a < 42);
            for b in &seeds[i + 1..] {
                assert_ne!(a, b);
            }
        }
    }
}

#[test]
fn seed_selection_works_when_every_vertex_is_a_seed() {
    let mut rng = rand::thread_rng();
    let seeds = choose_seeds(&mut rng, 12, 12);
    let mut sorted: Vec<usize> = seeds.clone();
    sorted.sort();
    let expect: Vec<usize> = (0..12).collect();
    assert_eq!(sorted, expect);
}

#[test]
fn every_vertex_gets_exactly_one_plate_in_range() {
    let mut rng = rand::thread_rng();
    let (vertices, _) = make_icosphere(1);
    let plate_count = 5;
    let seeds = choose_seeds(&mut rng, plate_count, vertices.len());
    let plates = assign_plates(&vertices, &seeds);
    assert_eq!(plates.len(), vertices.len());
    for p in &plates {
        assert!((*p as usize) < plate_count);
    }
    // a seed vertex belongs to its own plate
    for (slot, seed) in seeds.iter().enumerate() {
        assert_eq!(plates[*seed] as usize, slot);
    }
}

#[test]
fn plate_ties_go_to_the_earliest_seed() {
    let s = SCALE;
    let vertices = vec![
        Vec3Fix { x: s, y: 0, z: 0 },
        Vec3Fix { x: 0, y: s, z: 0 },
        Vec3Fix { x: 0, y: 0, z: s },
    ];
    let seeds = vec![0, 1];
    let plates = assign_plates(&vertices, &seeds);
    assert_eq!(plates[0], 0);
    assert_eq!(plates[1], 1);
    // equidistant from both seeds: the seed chosen first wins
    assert_eq!(plates[2], 0);
}

#[test]
fn sampler_age_is_always_in_range() {
    let mut rng = rand::thread_rng();
    let draws = NormalDraws {
        distance_draw: 1_264_789_393,
        orbital_draw: 236_596,
        rotational_draw: 40_529,
        radius_scale_draw: 359_662,
    };
    for _ in 0..100 {
        let p = InitialPlanetParams::gen_random(&mut rng, &draws);
        assert!(p.age >= 1_000_000);
        assert!(p.age < 13_500_000_000);
    }
}

#[test]
fn gassy_planets_are_never_smaller_than_the_reference_giant() {
    let mut rng = rand::thread_rng();
    let draws = NormalDraws {
        distance_draw: 1_264_789_393,
        orbital_draw: 236_596,
        rotational_draw: 40_529,
        radius_scale_draw: 500_000,
    };
    for _ in 0..100 {
        let p = InitialPlanetParams::gen_random(&mut rng, &draws);
        match p.planet_type {
            PlanetType::Gassy => {
                assert!(p.radius >= RADIUS_OF_JUPITER);
                assert_eq!(p.radius, RADIUS_OF_JUPITER);
            },
            _ => assert_eq!(p.radius, 34_955_500),
        }
    }
}

#[test]
fn sampler_copies_the_injected_draws() {
    let mut rng = rand::thread_rng();
    let draws = NormalDraws {
        distance_draw: 777,
        orbital_draw: -5,
        rotational_draw: 40_529,
        radius_scale_draw: 2_000_000,
    };
    let p = InitialPlanetParams::gen_random(&mut rng, &draws);
    assert_eq!(p.distance_from_sun, 777);
    assert_eq!(p.orbital_period, -5);
    assert_eq!(p.rotational_period, 40_529);
    match p.planet_type {
        PlanetType::Gassy => assert_eq!(p.radius, 139_822_000),
        _ => assert_eq!(p.radius, 139_822_000),
    }
    // a negative distance draw is clamped to zero
    let neg = NormalDraws { distance_draw: -123, ..draws };
    let q = InitialPlanetParams::gen_random(&mut rng, &neg);
    assert_eq!(q.distance_from_sun, 0);
    // a negative radius scale gives a zero raw radius
    let tiny = NormalDraws { radius_scale_draw: -400_000, ..draws };
    let r = InitialPlanetParams::gen_random(&mut rng, &tiny);
    match r.planet_type {
        PlanetType::Gassy => assert_eq!(r.radius, RADIUS_OF_JUPITER),
        _ => assert_eq!(r.radius, 0),
    }
}

#[test]
fn subdivision_depth_follows_radius() {
    assert_eq!(subdivisions_for_radius(0), 0);
    // 2 * pi * 8 / 50 = 1.005: one halving short of two
    assert_eq!(subdivisions_for_radius(8), 0);
    // 2 * pi * 16 / 50 = 2.01
    assert_eq!(subdivisions_for_radius(16), 1);
    // any real planet clamps to the maximum depth
    assert_eq!(subdivisions_for_radius(6_371_000), 5);
    assert_eq!(subdivisions_for_radius(RADIUS_OF_JUPITER), 5);
}

#[test]
fn plate_count_follows_surface_area() {
    assert_eq!(plate_count_for_radius(0), 0);
    assert_eq!(plate_count_for_radius(1), 1);
    // Earth: about eight plates
    assert_eq!(plate_count_for_radius(6_371_000), 8);
}

#[test]
fn initialize_builds_a_full_planet() {
    let mut rng = rand::thread_rng();
    let params = InitialPlanetParams {
        distance_from_sun: 149_597_870_700,
        orbital_period: 1_000,
        rotational_period: 1_000,
        age: 4_543_000_000,
        planet_type: PlanetType::Rocky,
        radius: 6_371_000,
    };
    let planet = Planet::initialize(&mut rng, &params).expect("a usable plate partition");
    assert_eq!(planet.radius, 6_371_000);
    assert_eq!(planet.distance_from_sun, 149_597_870_700);
    // depth 5: 10 * 4^5 + 2 vertices, 20 * 4^5 triangles, three indices each
    assert_eq!(planet.vertices.len(), 10_242);
    assert_eq!(planet.indices.len(), 3 * 20_480);
    let plate_count = plate_count_for_radius(params.radius);
    for v in &planet.vertices {
        assert!((v.plate_idx as u64) < plate_count);
        assert_near_unit(&v.position);
        assert_near_unit(&v.normal);
    }
    for ix in &planet.indices {
        assert!(*ix >= 0);
        assert!((*ix as usize) < planet.vertices.len());
    }
}

#[test]
fn initialize_rejects_unusable_plate_partitions() {
    let mut rng = rand::thread_rng();
    let mut params = InitialPlanetParams::default();
    // a zero radius derives zero plates
    params.radius = 0;
    assert!(Planet::initialize(&mut rng, &params).is_none());
    // beyond the supported bound
    params.radius = MAX_RADIUS + 1;
    assert!(Planet::initialize(&mut rng, &params).is_none());
    // huge but in bounds: more plates than mesh vertices
    params.radius = MAX_RADIUS;
    assert!(Planet::initialize(&mut rng, &params).is_none());
}

#[test]
fn initialize_mesh_is_deterministic_apart_from_plates() {
    let mut rng = rand::thread_rng();
    let params = InitialPlanetParams {
        distance_from_sun: 1,
        orbital_period: 1,
        rotational_period: 1,
        age: 1_000_000,
        planet_type: PlanetType::Icy,
        radius: 2_439_700,
    };
    let first = Planet::initialize(&mut rng, &params).expect("a usable plate partition");
    let second = Planet::initialize(&mut rng, &params).expect("a usable plate partition");
    // only the random plate seeds may differ between the two runs
    assert_eq!(first.indices, second.indices);
    assert_eq!(first.vertices.len(), second.vertices.len());
    for (a, b) in first.vertices.iter().zip(second.vertices.iter()) {
        assert_eq!(a.position, b.position);
        assert_eq!(a.normal, b.normal);
    }
}

#[test]
fn sampler_ages_vary_between_calls() {
    let mut rng = rand::thread_rng();
    let draws = NormalDraws {
        distance_draw: 0,
        orbital_draw: 0,
        rotational_draw: 0,
        radius_scale_draw: 0,
    };
    let mut ages = Vec::new();
    for _ in 0..50 {
        ages.push(InitialPlanetParams::gen_random(&mut rng, &draws).age);
    }
    ages.sort();
    ages.dedup();
    assert!(ages.len() > 1, "fifty uniform draws over nine decades came out equal");
}

#[test]
fn exporter_flattens_triangles_in_order() {
    let triangles = vec![Triangle { a: 0, b: 4, c: 1 }, Triangle { a: 2, b: 3, c: 0 }];
    let flat = export_triangles(&triangles);
    assert_eq!(flat, vec![0, 4, 1, 2, 3, 0]);
}

#[test]
fn exporter_builds_one_record_per_vertex() {
    let s = SCALE;
    let positions = vec![Vec3Fix { x: s, y: 0, z: 0 }, Vec3Fix { x: 0, y: 0, z: -s }];
    let plates = vec![3u32, 0u32];
    let records = export_vertices(&positions, &plates);
    assert_eq!(records.len(), 2);
    assert_eq!(records[0].position, positions[0]);
    assert_eq!(records[0].plate_idx, 3);
    assert_eq!(records[1].position, positions[1]);
    assert_eq!(records[1].plate_idx, 0);
    // positions already on the sphere keep their direction as normal
    assert_near_unit(&records[0].normal);
    assert!(records[0].normal.x > 0 && records[0].normal.y == 0 && records[0].normal.z == 0);
    assert!(records[1].normal.z < 0);
}

#[test]
fn default_params_are_inert_and_gaseous() {
    let d = InitialPlanetParams::default();
    assert_eq!(d.radius, 0);
    assert_eq!(d.distance_from_sun, 0);
    assert_eq!(d.age, 0);
    assert!(matches!(d.planet_type, PlanetType::Gassy));
}

#[test]
fn element_spawn_data_covers_every_element() {
    PlanetElement::spawn_data(PlanetElement::Hydrogen);
    PlanetElement::spawn_data(PlanetElement::Iron);
    PlanetElement::spawn_data(PlanetElement::Plutonium);
}

#[test]
fn solar_system_holds_stars_and_planets() {
    let system = SolarSystem { stars: vec![Star { mass: 1_989_000 }], planets: Vec::new() };
    assert_eq!(system.stars.len(), 1);
    assert_eq!(system.stars[0].mass, 1_989_000);
    assert!(system.planets.is_empty());
}
