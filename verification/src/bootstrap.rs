//! Generates the initial values for a planet — size, distance from its
//! star, age, kind — and turns them into a finished surface mesh with
//! tectonic plates assigned.

use crate::icosphere::{
    all_in_bounds, icosphere_spec, in_bounds, make_icosphere, normalize_spec, Vec3Fix,
    MAX_SUBDIVISIONS, SCALE,
};
use crate::initial_planet_data::{InitialPlanetParams, PlanetType};
use crate::output_data::{export_triangles, export_vertices, Planet};
use rand::Rng;
use vstd::prelude::*;

verus! {

/// The thread-local random generator of the rand crate, used here as the
/// injected source of randomness.
#[verifier::external_type_specification]
#[verifier::external_body]
pub struct ExThreadRng(rand::rngs::ThreadRng);

/// Relies on rand's `Rng::gen_range`, which returns a uniform draw from
/// `[lo, hi)` and panics when the range is empty.  Nothing more is assumed
/// of the draw: every caller is verified for every value in the range.
#[verifier::external_body]
fn draw_u64(rng: &mut rand::rngs::ThreadRng, lo: u64, hi: u64) -> (r: u64)
    requires
        lo < hi,
    ensures
        lo <= r < hi,
{
    rng.gen_range(lo, hi)
}

/// Whether `x` occurs in `v`.
fn contains_idx(v: &Vec<usize>, x: usize) -> (r: bool)
    ensures
        r == v@.contains(x),
{
    let mut i: usize = 0;
    while i < v.len()
        invariant
            i <= v@.len(),
            forall|k: int| 0 <= k < i ==> v@[k] != x,
        decreases v@.len() - i,
    {
        if v[i] == x {
            return true;
        }
        i = i + 1;
    }
    false
}

/// Fewer distinct values than slots leaves a slot free: a duplicate-free
/// sequence of indices below `n` that is shorter than `n` misses at least
/// one index below `n`.
proof fn lemma_unused_index_exists(s: Seq<usize>, n: usize)
    requires
        s.no_duplicates(),
        forall|i: int| 0 <= i < s.len() ==> (#[trigger] s[i]) < n,
        s.len() < n,
    ensures
        exists|t: usize| t < n && !s.contains(t),
{
    if forall|t: usize| t < n ==> s.contains(t) {
        let si = s.map_values(|u: usize| u as int);
        assert(si.no_duplicates()) by {
            assert forall|i: int, j: int|
                0 <= i < si.len() && 0 <= j < si.len() && i != j implies si[i] != si[j] by {
                assert(s[i] != s[j]);
            }
        }
        si.unique_seq_to_set();
        let range = vstd::set_lib::set_int_range(0, n as int);
        assert(range.subset_of(si.to_set())) by {
            assert forall|t: int| range.contains(t) implies si.to_set().contains(t) by {
                assert(s.contains(t as usize));
                let w = choose|w: int| 0 <= w < s.len() && s[w] == t as usize;
                assert(si[w] == t);
                assert(si.contains(t));
            }
        }
        vstd::set_lib::lemma_int_range(0, n as int);
        vstd::set_lib::lemma_len_subset(range, si.to_set());
        assert(false);
    }
}

/// Picks a vertex index that is not already a seed: a few uniform draws
/// with reject-and-resample on a collision, then, if chance kept colliding,
/// the first free index by direct scan.
fn pick_unused(rng: &mut rand::rngs::ThreadRng, used: &Vec<usize>, vertex_count: usize) -> (idx:
    usize)
    requires
        used@.no_duplicates(),
        forall|i: int| 0 <= i < used@.len() ==> (#[trigger] used@[i]) < vertex_count,
        used@.len() < vertex_count,
    ensures
        idx < vertex_count,
        !used@.contains(idx),
{
    let mut attempts: usize = 0;
    while attempts < 32
        invariant
            vertex_count >= 1,
        decreases 32 - attempts,
    {
        let draw = draw_u64(rng, 0, vertex_count as u64) as usize;
        if !contains_idx(used, draw) {
            return draw;
        }
        attempts = attempts + 1;
    }
    let mut j: usize = 0;
    while j < vertex_count
        invariant
            j <= vertex_count,
            forall|t: usize| t < j ==> used@.contains(t),
        decreases vertex_count - j,
    {
        if !contains_idx(used, j) {
            return j;
        }
        proof {
            assert forall|t: usize| t < j + 1 implies used@.contains(t) by {
                if t < j {
                } else {
                    assert(used@.contains(j));
                }
            }
        }
        j = j + 1;
    }
    proof {
        lemma_unused_index_exists(used@, vertex_count);
        let t = choose|t: usize| t < vertex_count && !used@.contains(t);
        assert(used@.contains(t));
        assert(false);
    }
    0
}

/// Selects `plate_count` distinct plate seeds: vertex indices drawn
/// uniformly at random, duplicates rejected and redrawn.
pub fn choose_seeds(rng: &mut rand::rngs::ThreadRng, plate_count: usize, vertex_count: usize) -> (seeds:
    Vec<usize>)
    requires
        1 <= plate_count <= vertex_count,
    ensures
        seeds@.len() == plate_count,
        seeds@.no_duplicates(),
        forall|i: int| 0 <= i < seeds@.len() ==> (#[trigger] seeds@[i]) < vertex_count,
{
    let mut seeds: Vec<usize> = Vec::new();
    let mut i: usize = 0;
    while i < plate_count
        invariant
            i <= plate_count <= vertex_count,
            seeds@.len() == i,
            seeds@.no_duplicates(),
            forall|k: int| 0 <= k < seeds@.len() ==> (#[trigger] seeds@[k]) < vertex_count,
        decreases plate_count - i,
    {
        let idx = pick_unused(rng, &seeds, vertex_count);
        seeds.push(idx);
        i = i + 1;
    }
    seeds
}

/// Squared chord distance between two points: the straight-line distance
/// through the sphere, squared.  Since all mesh points share one radius,
/// ordering by chord distance equals ordering by angular distance.
pub open spec fn dist_sq(a: Vec3Fix, b: Vec3Fix) -> int {
    (a.x - b.x) * (a.x - b.x) + (a.y - b.y) * (a.y - b.y) + (a.z - b.z) * (a.z - b.z)
}

fn dist_sq_exec(a: Vec3Fix, b: Vec3Fix) -> (d: u64)
    requires
        in_bounds(a),
        in_bounds(b),
    ensures
        d == dist_sq(a, b),
{
    proof {
        assert((a.x - b.x) * (a.x - b.x) <= 4 * SCALE * SCALE && (a.x - b.x) * (a.x - b.x) >= 0 && (
        a.y - b.y) * (a.y - b.y) <= 4 * SCALE * SCALE && (a.y - b.y) * (a.y - b.y) >= 0 && (a.z
            - b.z) * (a.z - b.z) <= 4 * SCALE * SCALE && (a.z - b.z) * (a.z - b.z) >= 0)
            by (nonlinear_arith)
            requires
                in_bounds(a),
                in_bounds(b),
                SCALE == 1_000_000_000,
        ;
    }
    let dx = (a.x - b.x) as i128;
    let dy = (a.y - b.y) as i128;
    let dz = (a.z - b.z) as i128;
    (dx * dx + dy * dy + dz * dz) as u64
}

/// The plate of a point: the position in `seeds[0..n]` of the seed vertex
/// nearest to `p` by chord distance, the earliest such position on a tie.
pub open spec fn nearest_in_prefix(vs: Seq<Vec3Fix>, seeds: Seq<usize>, p: Vec3Fix, n: int) -> int
    decreases n,
{
    if n <= 1 {
        0
    } else {
        let best = nearest_in_prefix(vs, seeds, p, n - 1);
        if dist_sq(p, vs[seeds[n - 1] as int]) < dist_sq(p, vs[seeds[best] as int]) {
            n - 1
        } else {
            best
        }
    }
}

pub proof fn lemma_nearest_in_range(vs: Seq<Vec3Fix>, seeds: Seq<usize>, p: Vec3Fix, n: int)
    requires
        1 <= n,
    ensures
        0 <= nearest_in_prefix(vs, seeds, p, n) < n,
    decreases n,
{
    if n > 1 {
        lemma_nearest_in_range(vs, seeds, p, n - 1);
    }
}

/// The chosen seed really is nearest: no seed in the prefix is strictly
/// closer, and every seed as close as the chosen one stands at the chosen
/// position or later.
pub proof fn lemma_nearest_is_nearest(vs: Seq<Vec3Fix>, seeds: Seq<usize>, p: Vec3Fix, n: int)
    requires
        1 <= n,
    ensures
        forall|k: int|
            0 <= k < n ==> dist_sq(p, vs[seeds[nearest_in_prefix(vs, seeds, p, n)] as int])
                <= dist_sq(p, vs[#[trigger] seeds[k] as int]),
        forall|k: int|
            0 <= k < nearest_in_prefix(vs, seeds, p, n) ==> dist_sq(
                p,
                vs[seeds[nearest_in_prefix(vs, seeds, p, n)] as int],
            ) < dist_sq(p, vs[#[trigger] seeds[k] as int]),
    decreases n,
{
    if n > 1 {
        lemma_nearest_is_nearest(vs, seeds, p, n - 1);
        lemma_nearest_in_range(vs, seeds, p, n - 1);
    }
}

/// Labels every vertex with its tectonic plate: the seed nearest by chord
/// distance, ties resolved toward the seed chosen first.  Every vertex
/// receives exactly one plate index, and it is below the seed count.
pub fn assign_plates(vertices: &Vec<Vec3Fix>, seeds: &Vec<usize>) -> (plates: Vec<u32>)
    requires
        1 <= seeds@.len() <= 0xFFFF_FFFF,
        forall|i: int| 0 <= i < seeds@.len() ==> (#[trigger] seeds@[i]) < vertices@.len(),
        all_in_bounds(vertices@),
    ensures
        plates@.len() == vertices@.len(),
        forall|i: int|
            0 <= i < vertices@.len() ==> (#[trigger] plates@[i]) == nearest_in_prefix(
                vertices@,
                seeds@,
                vertices@[i],
                seeds@.len() as int,
            ),
        forall|i: int| 0 <= i < vertices@.len() ==> (#[trigger] plates@[i]) < seeds@.len(),
{
    let mut plates: Vec<u32> = Vec::new();
    let mut i: usize = 0;
    while i < vertices.len()
        invariant
            i <= vertices@.len(),
            1 <= seeds@.len() <= 0xFFFF_FFFF,
            forall|k: int| 0 <= k < seeds@.len() ==> (#[trigger] seeds@[k]) < vertices@.len(),
            all_in_bounds(vertices@),
            plates@.len() == i,
            forall|k: int|
                0 <= k < i ==> (#[trigger] plates@[k]) == nearest_in_prefix(
                    vertices@,
                    seeds@,
                    vertices@[k],
                    seeds@.len() as int,
                ),
            forall|k: int| 0 <= k < i ==> (#[trigger] plates@[k]) < seeds@.len(),
        decreases vertices@.len() - i,
    {
        let pos = vertices[i];
        let mut best: usize = 0;
        let mut best_dist: u64 = dist_sq_exec(pos, vertices[seeds[0]]);
        let mut s: usize = 1;
        while s < seeds.len()
            invariant
                1 <= s <= seeds@.len(),
                forall|k: int| 0 <= k < seeds@.len() ==> (#[trigger] seeds@[k]) < vertices@.len(),
                all_in_bounds(vertices@),
                i < vertices@.len(),
                pos == vertices@[i as int],
                best == nearest_in_prefix(vertices@, seeds@, pos, s as int),
                best < s,
                best_dist == dist_sq(pos, vertices@[seeds@[best as int] as int]),
            decreases seeds@.len() - s,
        {
            let d = dist_sq_exec(pos, vertices[seeds[s]]);
            if d < best_dist {
                best = s;
                best_dist = d;
            }
            s = s + 1;
        }
        proof {
            lemma_nearest_in_range(vertices@, seeds@, pos, seeds@.len() as int);
        }
        plates.push(best as u32);
        i = i + 1;
    }
    plates
}

/// Radius of Jupiter, in meters: the reference giant-planet radius.
pub const RADIUS_OF_JUPITER: u64 = 69_911_000;

/// The largest planet radius the pipeline accepts, in meters; far beyond
/// any radius the sampler's distributions reach.
pub const MAX_RADIUS: u64 = 1_000_000_000_000;

/// The four normally distributed draws a planet is sampled from, already
/// scaled to integers by the random source's owner: the caller draws them
/// from the statistical model and injects them here, so a test can supply
/// a fixed, replayable set.
#[derive(Clone, Copy, Debug, PartialEq, Eq, Structural)]
pub struct NormalDraws {
    /// Draw for the distance from the star, in meters; negative draws are
    /// clamped to zero.
    pub distance_draw: i64,
    /// Draw for the orbital period, in thousandths of an Earth year.
    pub orbital_draw: i64,
    /// Draw for the rotational period, in thousandths of an Earth day.
    pub rotational_draw: i64,
    /// Draw for the radius as a fraction of the reference giant radius, in
    /// millionths.
    pub radius_scale_draw: i64,
}

/// The sampled radius before the gas-giant clamp: the reference giant
/// radius times the drawn scale, truncated; zero when the draw is not
/// positive.
pub open spec fn raw_radius(scale_draw: int) -> int {
    if scale_draw <= 0 {
        0
    } else {
        (RADIUS_OF_JUPITER * scale_draw) / 1_000_000
    }
}

impl InitialPlanetParams {
    /// Randomly generates a new planet, using distributions from real-world
    /// data: the caller hands in its normally distributed draws, while the
    /// planet's kind and age are drawn here, uniformly.  A Gassy planet's
    /// radius is clamped to at least the reference giant radius: gas giants
    /// are never generated smaller than that body.
    pub fn gen_random(rng: &mut rand::rngs::ThreadRng, draws: &NormalDraws) -> (p:
        InitialPlanetParams)
        requires
            -1_000_000_000_000 <= draws.radius_scale_draw <= 1_000_000_000_000,
        ensures
            p.distance_from_sun == (if draws.distance_draw < 0 {
                0
            } else {
                draws.distance_draw
            }),
            p.orbital_period == draws.orbital_draw,
            p.rotational_period == draws.rotational_draw,
            1_000_000 <= p.age < 13_500_000_000,
            p.planet_type == PlanetType::Gassy ==> p.radius == vstd::math::max(
                RADIUS_OF_JUPITER as int,
                raw_radius(draws.radius_scale_draw as int),
            ),
            p.planet_type != PlanetType::Gassy ==> p.radius == raw_radius(
                draws.radius_scale_draw as int,
            ),
            p.planet_type == PlanetType::Gassy ==> p.radius >= RADIUS_OF_JUPITER,
    {
        let scale = draws.radius_scale_draw;
        let radius_raw: u64 = if scale <= 0 {
            0
        } else {
            proof {
                assert((RADIUS_OF_JUPITER as int) * (scale as int) <= 69_911_000_000_000_000_000
                    && (RADIUS_OF_JUPITER as int) * (scale as int) >= 0) by (nonlinear_arith)
                    requires
                        0 < scale <= 1_000_000_000_000,
                        RADIUS_OF_JUPITER == 69_911_000u64,
                ;
                vstd::arithmetic::div_mod::lemma_div_nonincreasing(
                    (RADIUS_OF_JUPITER as int) * (scale as int),
                    1_000_000,
                );
                vstd::arithmetic::div_mod::lemma_div_pos_is_pos(
                    (RADIUS_OF_JUPITER as int) * (scale as int),
                    1_000_000,
                );
            }
            ((RADIUS_OF_JUPITER as u128) * (scale as u128) / 1_000_000u128) as u64
        };
        let planet_type = match draw_u64(rng, 0, 3) {
            0 => PlanetType::Rocky,
            1 => PlanetType::Gassy,
            _ => PlanetType::Icy,
        };
        InitialPlanetParams {
            distance_from_sun: if draws.distance_draw < 0 {
                0
            } else {
                draws.distance_draw as u64
            },
            orbital_period: draws.orbital_draw,
            rotational_period: draws.rotational_draw,
            age: draw_u64(rng, 1_000_000, 13_500_000_000),
            planet_type: planet_type,
            radius: match planet_type {
                PlanetType::Gassy => if radius_raw < RADIUS_OF_JUPITER {
                    RADIUS_OF_JUPITER
                } else {
                    radius_raw
                },
                _ => radius_raw,
            },
        }
    }
}

/// The powers of two.
pub open spec fn pow2(k: nat) -> nat
    decreases k,
{
    if k == 0 {
        1
    } else {
        2 * pow2((k - 1) as nat)
    }
}

/// The floor of the base-two logarithm: how often `n` can be halved before
/// falling below two.
pub open spec fn log2_floor(n: nat) -> nat
    decreases n,
{
    if n < 2 {
        0
    } else {
        1 + log2_floor(n / 2)
    }
}

fn log2_floor_exec(n: u64) -> (r: u32)
    requires
        1 <= n,
    ensures
        r == log2_floor(n as nat),
{
    proof {
        lemma_u64_below_pow2_64(n);
        lemma_log2_floor_lt(n as nat, 64);
    }
    let mut v: u64 = n;
    let mut r: u32 = 0;
    while v >= 2
        invariant
            1 <= v <= n,
            log2_floor(n as nat) == r + log2_floor(v as nat),
            r <= log2_floor(n as nat) < 64,
        decreases v,
    {
        v = v / 2;
        r = r + 1;
    }
    r
}

/// Anything below the `k`-th power of two has fewer than `k` halvings.
proof fn lemma_log2_floor_lt(n: nat, k: nat)
    requires
        1 <= k,
        n < pow2(k),
    ensures
        log2_floor(n) < k,
    decreases k,
{
    if n < 2 {
    } else {
        assert(pow2(k) == 2 * pow2((k - 1) as nat));
        assert(n / 2 < pow2((k - 1) as nat));
        assert(k >= 2) by {
            if k == 1 {
                assert(pow2(1nat) == 2);
            }
        }
        lemma_log2_floor_lt(n / 2, (k - 1) as nat);
    }
}

proof fn lemma_u64_below_pow2_64(n: u64)
    ensures
        (n as nat) < pow2(64),
{
    assert(pow2(64) > 0xFFFF_FFFF_FFFF_FFFFu64) by {
        reveal_with_fuel(pow2, 65);
    }
}

/// The subdivision depth for a planet of the given radius: the floor of
/// the base-two logarithm of the circumference measured in target edge
/// lengths, capped at `MAX_SUBDIVISIONS`.  Deeper meshes for bigger
/// planets keep the triangle edge length roughly constant.
pub open spec fn subdivisions_spec(radius: u64) -> nat {
    let x = (radius * 6_283_185_307) / 50_000_000_000;
    if x < 1 {
        0
    } else if log2_floor(x as nat) > MAX_SUBDIVISIONS {
        MAX_SUBDIVISIONS as nat
    } else {
        log2_floor(x as nat)
    }
}

/// Derives the subdivision depth from the radius: `floor(log2(2*pi*R /
/// 50))`, clamped to the implementation maximum.
pub fn subdivisions_for_radius(radius: u64) -> (k: u32)
    ensures
        k == subdivisions_spec(radius),
        k <= MAX_SUBDIVISIONS,
{
    let x128: u128 = (radius as u128) * 6_283_185_307u128 / 50_000_000_000u128;
    proof {
        assert((radius as int) * 6_283_185_307 <= 0xFFFF_FFFF_FFFF_FFFFu64
            * 6_283_185_307) by (nonlinear_arith)
            requires
                radius <= 0xFFFF_FFFF_FFFF_FFFFu64,
        ;
        vstd::arithmetic::div_mod::lemma_div_is_ordered(
            (radius as int) * 6_283_185_307,
            0xFFFF_FFFF_FFFF_FFFFu64 * 6_283_185_307,
            50_000_000_000,
        );
        vstd::arithmetic::div_mod::lemma_div_pos_is_pos((radius as int) * 6_283_185_307, 50_000_000_000);
    }
    if x128 < 1 {
        0
    } else {
        let l = log2_floor_exec(x128 as u64);
        if l > MAX_SUBDIVISIONS {
            MAX_SUBDIVISIONS
        } else {
            l
        }
    }
}

/// The tectonic plate count for a planet of the given radius: the
/// sphere's surface area divided by the mean area of one of Earth's
/// plates, rounded up.  Granularity follows physical area, not mesh
/// resolution.
pub open spec fn plate_count_spec(radius: u64) -> int {
    ((radius * radius) * 12_566_370_614 + (63_759_000_000_000_000_000_000 - 1))
        / 63_759_000_000_000_000_000_000
}

/// Derives the plate count from the radius: `ceil(4*pi*R^2 / A)` with `A`
/// the mean area of one of Earth's tectonic plates, about 63,759,000
/// square kilometers.
pub fn plate_count_for_radius(radius: u64) -> (pc: u64)
    requires
        radius <= MAX_RADIUS,
    ensures
        pc == plate_count_spec(radius),
{
    proof {
        assert((radius as int) * (radius as int) <= 1_000_000_000_000_000_000_000_000)
            by (nonlinear_arith)
            requires
                radius <= 1_000_000_000_000u64,
        ;
        assert((radius as int) * (radius as int) >= 0) by (nonlinear_arith);
    }
    let r2: u128 = (radius as u128) * (radius as u128);
    proof {
        assert((r2 as int) * 12_566_370_614 <= 1_000_000_000_000_000_000_000_000
            * 12_566_370_614) by (nonlinear_arith)
            requires
                0 <= r2 as int <= 1_000_000_000_000_000_000_000_000,
        ;
        vstd::arithmetic::div_mod::lemma_div_is_ordered(
            (r2 as int) * 12_566_370_614 + (63_759_000_000_000_000_000_000 - 1),
            1_000_000_000_000_000_000_000_000 * 12_566_370_614 + (63_759_000_000_000_000_000_000
                - 1),
            63_759_000_000_000_000_000_000,
        );
        vstd::arithmetic::div_mod::lemma_div_pos_is_pos(
            (r2 as int) * 12_566_370_614 + (63_759_000_000_000_000_000_000 - 1),
            63_759_000_000_000_000_000_000,
        );
    }
    let num: u128 = r2 * 12_566_370_614u128;
    let pc: u128 = (num + (63_759_000_000_000_000_000_000u128 - 1))
        / 63_759_000_000_000_000_000_000u128;
    pc as u64
}

impl Planet {
    /// Runs the whole mesh pipeline for sampled parameters: derives the
    /// subdivision depth from the radius, builds and refines the
    /// icosphere, partitions its vertices into randomly seeded tectonic
    /// plates, and flattens everything into the host's buffers.  Yields
    /// `None` when the radius is beyond the supported bound or when the
    /// derived plate count does not fit the mesh — fewer than one plate,
    /// or more plates than vertices; an unusable partition is rejected,
    /// never silently clamped.
    pub fn initialize(rng: &mut rand::rngs::ThreadRng, initial_data: &InitialPlanetParams) -> (r:
        Option<Planet>)
        ensures
            ({
                let k = subdivisions_spec(initial_data.radius);
                let (vs, ts) = icosphere_spec(k);
                let pc = plate_count_spec(initial_data.radius);
                match r {
                    Option::Some(p) => {
                        &&& initial_data.radius <= MAX_RADIUS
                        &&& 1 <= pc <= vs.len()
                        &&& p.radius == initial_data.radius
                        &&& p.distance_from_sun == initial_data.distance_from_sun
                        &&& p.vertices@.len() == vs.len()
                        &&& p.indices@.len() == 3 * ts.len()
                        &&& (forall|j: int|
                            0 <= j < ts.len() ==> p.indices@[3 * j] == (#[trigger] ts[j]).a as i32
                                && p.indices@[3 * j + 1] == ts[j].b as i32 && p.indices@[3 * j + 2]
                                == ts[j].c as i32)
                        &&& (forall|i: int|
                            0 <= i < vs.len() ==> (#[trigger] p.vertices@[i]).position == vs[i]
                                && p.vertices@[i].normal == normalize_spec(vs[i])
                                && p.vertices@[i].plate_idx < pc)
                        &&& (exists|seeds: Seq<usize>|
                            #![trigger seeds.no_duplicates()]
                            {
                                &&& seeds.len() == pc
                                &&& seeds.no_duplicates()
                                &&& (forall|q: int|
                                    0 <= q < seeds.len() ==> (#[trigger] seeds[q]) < vs.len())
                                &&& (forall|i: int|
                                    0 <= i < vs.len() ==> (#[trigger] p.vertices@[i]).plate_idx
                                        == nearest_in_prefix(vs, seeds, vs[i], pc))
                            })
                    },
                    Option::None => initial_data.radius > MAX_RADIUS || pc < 1 || pc > vs.len(),
                }
            }),
    {
        if initial_data.radius > MAX_RADIUS {
            return Option::None;
        }
        let subdivisions = subdivisions_for_radius(initial_data.radius);
        let mesh = make_icosphere(subdivisions);
        let (positions, triangles) = mesh;
        let num_plates = plate_count_for_radius(initial_data.radius);
        if num_plates < 1 || num_plates > positions.len() as u64 {
            return Option::None;
        }
        let plate_centers = choose_seeds(rng, num_plates as usize, positions.len());
        let plates = assign_plates(&positions, &plate_centers);
        let vertices = export_vertices(&positions, &plates);
        let indices = export_triangles(&triangles);
        proof {
            assert(plate_centers@.no_duplicates());
        }
        Option::Some(
            Planet {
                radius: initial_data.radius,
                distance_from_sun: initial_data.distance_from_sun,
                vertices: vertices,
                indices: indices,
            },
        )
    }
}

} // verus!
