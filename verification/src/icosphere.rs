//! Icosphere construction: fixed-point vectors, integer square root,
//! reprojection onto the sphere, and 1-to-4 triangle subdivision with
//! shared-edge-midpoint deduplication.

use std::collections::HashMap;
use vstd::prelude::*;

verus! {

broadcast use vstd::std_specs::hash::group_hash_axioms;

/// Number of fixed-point units that make up one sphere radius: every
/// coordinate of a point on the working unit sphere lies in
/// `[-SCALE, SCALE]`.
pub const SCALE: i64 = 1_000_000_000;

/// A position in fixed-point coordinates, `SCALE` units per sphere radius.
#[derive(Clone, Copy, Debug, PartialEq, Eq, Structural)]
pub struct Vec3Fix {
    pub x: i64,
    pub y: i64,
    pub z: i64,
}

/// Squared Euclidean length of `v`, as an unbounded integer.
pub open spec fn norm_sq(v: Vec3Fix) -> int {
    v.x * v.x + v.y * v.y + v.z * v.z
}

/// Every coordinate of `v` lies within one sphere radius of the origin.
pub open spec fn in_bounds(v: Vec3Fix) -> bool {
    &&& -SCALE <= v.x <= SCALE
    &&& -SCALE <= v.y <= SCALE
    &&& -SCALE <= v.z <= SCALE
}

/// The integer square root: the largest `r` with `r * r <= n`.
pub open spec fn isqrt_spec(n: nat) -> nat
    decreases n,
{
    if n == 0 {
        0
    } else {
        let p = isqrt_spec((n - 1) as nat);
        if (p + 1) * (p + 1) <= n {
            p + 1
        } else {
            p
        }
    }
}

pub proof fn lemma_isqrt_bounds(n: nat)
    ensures
        isqrt_spec(n) * isqrt_spec(n) <= n,
        n < (isqrt_spec(n) + 1) * (isqrt_spec(n) + 1),
    decreases n,
{
    if n == 0 {
        assert(isqrt_spec(0) == 0);
        assert(n < (isqrt_spec(n) + 1) * (isqrt_spec(n) + 1)) by (nonlinear_arith)
            requires
                n == 0,
                isqrt_spec(n) == 0,
        ;
    } else {
        let p = isqrt_spec((n - 1) as nat);
        lemma_isqrt_bounds((n - 1) as nat);
        if (p + 1) * (p + 1) <= n {
            assert((p + 2) * (p + 2) > n) by (nonlinear_arith)
                requires
                    n - 1 < (p + 1) * (p + 1),
                    p >= 0,
            ;
        } else {
            assert(isqrt_spec(n) == p);
        }
    }
}

pub proof fn lemma_isqrt_unique(n: nat, r: nat)
    requires
        r * r <= n,
        n < (r + 1) * (r + 1),
    ensures
        r == isqrt_spec(n),
{
    let s = isqrt_spec(n);
    lemma_isqrt_bounds(n);
    if r < s {
        assert((r + 1) * (r + 1) <= s * s) by (nonlinear_arith)
            requires
                r + 1 <= s,
                r >= 0,
        ;
    } else if s < r {
        assert((s + 1) * (s + 1) <= r * r) by (nonlinear_arith)
            requires
                s + 1 <= r,
                s >= 0,
        ;
    }
}

/// Integer square root of a machine word, by binary search.
pub fn isqrt_u64(n: u64) -> (r: u64)
    ensures
        r == isqrt_spec(n as nat),
        r * r <= n < (r + 1) * (r + 1),
{
    let mut lo: u64 = 0;
    let mut hi: u64 = 0xFFFF_FFFF;
    proof {
        assert((0xFFFF_FFFFu64 + 1) * (0xFFFF_FFFFu64 + 1) > u64::MAX);
    }
    while lo < hi
        invariant
            lo <= hi,
            hi <= 0xFFFF_FFFF,
            lo * lo <= n,
            n < (hi + 1) * (hi + 1),
        decreases hi - lo,
    {
        let mid: u64 = lo + (hi - lo + 1) / 2;
        proof {
            assert(mid * mid < 0x1_0000_0000_0000_0000_0000_0000_0000_0000) by (nonlinear_arith)
                requires
                    mid <= 0xFFFF_FFFFu64,
            ;
        }
        if (mid as u128) * (mid as u128) <= n as u128 {
            lo = mid;
        } else {
            hi = mid - 1;
        }
    }
    proof {
        lemma_isqrt_unique(n as nat, lo as nat);
    }
    lo
}

/// Every coordinate of `v` lies within two sphere radii: true of the sum of
/// any two `in_bounds` vectors.
pub open spec fn in_sum_bounds(v: Vec3Fix) -> bool {
    &&& -2 * SCALE <= v.x <= 2 * SCALE
    &&& -2 * SCALE <= v.y <= 2 * SCALE
    &&& -2 * SCALE <= v.z <= 2 * SCALE
}

/// Truncating (toward zero) division of `c * SCALE` by `l`, for `l >= 1`.
pub open spec fn scale_div(c: int, l: int) -> int {
    if c >= 0 {
        (c * SCALE) / l
    } else {
        -((-c * SCALE) / l)
    }
}

/// Reprojection of `v` onto the sphere of radius `SCALE`: every coordinate
/// is multiplied by `SCALE` and divided, rounding toward zero, by the
/// integer square root of the squared length.  The zero vector, the only
/// vector whose length is below one unit, is left unchanged.
pub open spec fn normalize_spec(v: Vec3Fix) -> Vec3Fix {
    let l = isqrt_spec(norm_sq(v) as nat) as int;
    if l == 0 {
        v
    } else {
        Vec3Fix {
            x: scale_div(v.x as int, l) as i64,
            y: scale_div(v.y as int, l) as i64,
            z: scale_div(v.z as int, l) as i64,
        }
    }
}

proof fn lemma_scale_div_in_range(c: int, l: int)
    requires
        1 <= l,
        -l <= c <= l,
    ensures
        -SCALE <= scale_div(c, l) <= SCALE,
        c >= 0 ==> 0 <= scale_div(c, l),
        c < 0 ==> scale_div(c, l) <= 0,
{
    if c >= 0 {
        assert(c * SCALE <= l * SCALE) by (nonlinear_arith)
            requires
                c <= l,
                SCALE > 0,
        ;
        vstd::arithmetic::div_mod::lemma_div_is_ordered(c * SCALE, l * SCALE, l);
        vstd::arithmetic::div_mod::lemma_div_multiples_vanish(SCALE as int, l);
        vstd::arithmetic::div_mod::lemma_div_pos_is_pos(c * SCALE, l);
    } else {
        assert(-c * SCALE <= l * SCALE) by (nonlinear_arith)
            requires
                -c <= l,
                SCALE > 0,
        ;
        vstd::arithmetic::div_mod::lemma_div_is_ordered(-c * SCALE, l * SCALE, l);
        vstd::arithmetic::div_mod::lemma_div_multiples_vanish(SCALE as int, l);
        vstd::arithmetic::div_mod::lemma_div_pos_is_pos(-c * SCALE, l);
    }
}

/// Reprojecting a vector of length at most two radii yields a vector that
/// stays within one radius in every coordinate.
pub proof fn lemma_normalize_in_bounds(v: Vec3Fix)
    requires
        in_sum_bounds(v),
    ensures
        in_bounds(normalize_spec(v)),
{
    let n = norm_sq(v) as nat;
    let l = isqrt_spec(n) as int;
    lemma_isqrt_bounds(n);
    assert(norm_sq(v) >= 0) by (nonlinear_arith);
    if l == 0 {
        assert(norm_sq(v) < 1) by (nonlinear_arith)
            requires
                norm_sq(v) as nat == n,
                n < (l + 1) * (l + 1),
                l == 0,
        ;
        assert(v.x == 0 && v.y == 0 && v.z == 0) by (nonlinear_arith)
            requires
                norm_sq(v) == v.x * v.x + v.y * v.y + v.z * v.z,
                norm_sq(v) >= 0,
                norm_sq(v) < 1,
        ;
    } else {
        assert(-l <= v.x <= l && -l <= v.y <= l && -l <= v.z <= l) by (nonlinear_arith)
            requires
                norm_sq(v) == v.x * v.x + v.y * v.y + v.z * v.z,
                norm_sq(v) < (l + 1) * (l + 1),
                l >= 1,
        ;
        lemma_scale_div_in_range(v.x as int, l);
        lemma_scale_div_in_range(v.y as int, l);
        lemma_scale_div_in_range(v.z as int, l);
    }
}

/// One coordinate of the reprojection: `c * SCALE / l`, rounded toward zero.
fn scale_coord(c: i64, l: u64) -> (r: i64)
    requires
        1 <= l,
        -2 * SCALE <= c <= 2 * SCALE,
    ensures
        r == scale_div(c as int, l as int),
{
    if c >= 0 {
        let q: u64 = (c as u64) * (SCALE as u64) / l;
        q as i64
    } else {
        let m: u64 = (-c) as u64;
        assert(m <= 2_000_000_000);
        assert(SCALE as u64 == 1_000_000_000u64);
        assert(m * (SCALE as u64) <= 2_000_000_000_000_000_000u64) by (nonlinear_arith)
            requires
                m <= 2_000_000_000,
                SCALE as u64 == 1_000_000_000u64,
        ;
        let q: u64 = m * (SCALE as u64) / l;
        assert(q <= m * (SCALE as u64)) by {
            vstd::arithmetic::div_mod::lemma_div_nonincreasing((m * (SCALE as u64)) as int, l as int);
        }
        -(q as i64)
    }
}

/// Reprojection of `v` onto the sphere of radius `SCALE`.
pub fn normalize_fix(v: Vec3Fix) -> (r: Vec3Fix)
    requires
        in_sum_bounds(v),
    ensures
        r == normalize_spec(v),
        in_bounds(r),
{
    proof {
        assert(v.x * v.x <= 4 * SCALE * SCALE && v.y * v.y <= 4 * SCALE * SCALE && v.z * v.z
            <= 4 * SCALE * SCALE && v.x * v.x >= 0 && v.y * v.y >= 0 && v.z * v.z >= 0)
            by (nonlinear_arith)
            requires
                in_sum_bounds(v),
        ;
    }
    let n_sq: u64 = ((v.x as i128) * (v.x as i128) + (v.y as i128) * (v.y as i128) + (v.z as i128)
        * (v.z as i128)) as u64;
    let l = isqrt_u64(n_sq);
    proof {
        lemma_normalize_in_bounds(v);
    }
    if l == 0 {
        v
    } else {
        Vec3Fix { x: scale_coord(v.x, l), y: scale_coord(v.y, l), z: scale_coord(v.z, l) }
    }
}

/// A triangle of the mesh: three indices into the vertex sequence.
#[derive(Clone, Copy, Debug, PartialEq, Eq, Structural)]
pub struct Triangle {
    pub a: usize,
    pub b: usize,
    pub c: usize,
}

/// All three indices of `t` point into a vertex sequence of length `n`.
pub open spec fn tri_in_range(t: Triangle, n: int) -> bool {
    t.a < n && t.b < n && t.c < n
}

/// Every triangle of `ts` points into a vertex sequence of length `n`.
pub open spec fn tris_in_range(ts: Seq<Triangle>, n: int) -> bool {
    forall|i: int| 0 <= i < ts.len() ==> tri_in_range(#[trigger] ts[i], n)
}

/// Every vertex of `vs` is within one radius in every coordinate.
pub open spec fn all_in_bounds(vs: Seq<Vec3Fix>) -> bool {
    forall|i: int| 0 <= i < vs.len() ==> in_bounds(#[trigger] vs[i])
}

/// Componentwise sum of two positions.
pub open spec fn vadd(a: Vec3Fix, b: Vec3Fix) -> Vec3Fix {
    Vec3Fix { x: (a.x + b.x) as i64, y: (a.y + b.y) as i64, z: (a.z + b.z) as i64 }
}

/// The midpoint of an edge, reprojected onto the sphere: the normalized sum
/// of the two endpoint positions.
pub open spec fn unit_mid(a: Vec3Fix, b: Vec3Fix) -> Vec3Fix {
    normalize_spec(vadd(a, b))
}

/// The dedup key of the edge `{a, b}`: the two endpoint indices packed into
/// one word, smaller index in the upper half, so that both orientations of
/// an edge share one key.
pub open spec fn edge_key(a: usize, b: usize) -> u64 {
    if a <= b {
        (a * 0x1_0000_0000 + b) as u64
    } else {
        (b * 0x1_0000_0000 + a) as u64
    }
}

/// The key never depends on the orientation of the edge.
pub proof fn lemma_edge_key_symmetric(a: usize, b: usize)
    ensures
        edge_key(a, b) == edge_key(b, a),
{
}

fn edge_key_exec(a: usize, b: usize) -> (k: u64)
    requires
        a < 0x1_0000_0000,
        b < 0x1_0000_0000,
    ensures
        k == edge_key(a, b),
{
    let (lo, hi) = if a <= b {
        (a, b)
    } else {
        (b, a)
    };
    proof {
        assert((lo as u64) * 0x1_0000_0000u64 <= 0xFFFF_FFFF_0000_0000u64) by (nonlinear_arith)
            requires
                lo < 0x1_0000_0000u64,
        ;
    }
    (lo as u64) * 0x1_0000_0000u64 + (hi as u64)
}

/// The running state of one subdivision pass: the vertex sequence grown so
/// far, and the mapping from edge key to the index of that edge's midpoint.
pub struct SubState {
    pub vs: Seq<Vec3Fix>,
    pub m: Map<u64, usize>,
}

/// Look up, or create, the midpoint of the edge `{a, b}`: if the edge's key
/// is new, the normalized midpoint is appended to the vertex sequence and
/// recorded in the mapping.  Yields the new state and the midpoint's index.
pub open spec fn mid_step(s: SubState, a: usize, b: usize) -> (SubState, usize) {
    let k = edge_key(a, b);
    if s.m.contains_key(k) {
        (s, s.m[k])
    } else {
        (
            SubState {
                vs: s.vs.push(unit_mid(s.vs[a as int], s.vs[b as int])),
                m: s.m.insert(k, s.vs.len() as usize),
            },
            s.vs.len() as usize,
        )
    }
}

/// Split one triangle into its four replacements: three corner triangles
/// and the center triangle of the three edge midpoints.
pub open spec fn tri_step(s: SubState, t: Triangle) -> (SubState, Seq<Triangle>) {
    let (s1, m01) = mid_step(s, t.a, t.b);
    let (s2, m12) = mid_step(s1, t.b, t.c);
    let (s3, m20) = mid_step(s2, t.c, t.a);
    (
        s3,
        seq![
            Triangle { a: t.a, b: m01, c: m20 },
            Triangle { a: t.b, b: m12, c: m01 },
            Triangle { a: t.c, b: m20, c: m12 },
            Triangle { a: m01, b: m12, c: m20 },
        ],
    )
}

/// Process the triangles of `ts` from position `i` on, starting from state
/// `s`: the final state and the concatenation of all replacement triangles.
pub open spec fn subdiv_from(s: SubState, ts: Seq<Triangle>, i: int) -> (SubState, Seq<Triangle>)
    decreases ts.len() - i,
{
    if i < 0 || i >= ts.len() {
        (s, Seq::empty())
    } else {
        let (s1, out4) = tri_step(s, ts[i]);
        let (s2, rest) = subdiv_from(s1, ts, i + 1);
        (s2, out4 + rest)
    }
}

/// One full subdivision pass over a mesh, beginning with a fresh dedup
/// mapping: the grown vertex sequence and the replacement triangles.
pub open spec fn subdivide_spec(vs: Seq<Vec3Fix>, ts: Seq<Triangle>) -> (Seq<Vec3Fix>, Seq<
    Triangle,
>) {
    let (s, out) = subdiv_from(SubState { vs: vs, m: Map::empty() }, ts, 0);
    (s.vs, out)
}

/// Every midpoint index recorded in `m` points into a vertex sequence of
/// length `n`.
pub open spec fn map_in_range(m: Map<u64, usize>, n: int) -> bool {
    forall|k: u64| m.contains_key(k) ==> (#[trigger] m[k]) < n
}

/// Returns the midpoint vertex of the edge `{first, second}`, creating it
/// if this pass has not met that edge yet: on a fresh edge the normalized
/// midpoint is appended to `vertices` and its index recorded in `lookup`
/// under the edge's key, so that every later occurrence of the edge, from
/// whichever adjacent triangle and in whichever orientation, receives the
/// same index.
pub fn vertex_for_edge(
    lookup: &mut HashMap<u64, usize>,
    vertices: &mut Vec<Vec3Fix>,
    first: usize,
    second: usize,
) -> (mid: usize)
    requires
        first < old(vertices)@.len(),
        second < old(vertices)@.len(),
        old(vertices)@.len() < 0x1_0000_0000,
        all_in_bounds(old(vertices)@),
        map_in_range(old(lookup)@, old(vertices)@.len() as int),
    ensures
        ({
            let (s1, m) = mid_step(
                SubState { vs: old(vertices)@, m: old(lookup)@ },
                first,
                second,
            );
            &&& final(vertices)@ == s1.vs
            &&& final(lookup)@ == s1.m
            &&& mid == m
        }),
        mid < final(vertices)@.len(),
        final(vertices)@.len() <= old(vertices)@.len() + 1,
        old(vertices)@.len() <= final(vertices)@.len(),
        final(vertices)@.subrange(0, old(vertices)@.len() as int) == old(vertices)@,
        all_in_bounds(final(vertices)@),
        map_in_range(final(lookup)@, final(vertices)@.len() as int),
{
    let key = edge_key_exec(first, second);
    let existing = lookup.get(&key);
    match existing {
        Some(x) => {
            let r = *x;
            proof {
                assert(final(vertices)@.subrange(0, old(vertices)@.len() as int) =~= old(
                    vertices,
                )@);
                assert(old(lookup)@[key] < old(vertices)@.len());
            }
            r
        },
        None => {
            let edge0 = vertices[first];
            let edge1 = vertices[second];
            let point = normalize_fix(add_fix(edge0, edge1));
            let idx = vertices.len();
            vertices.push(point);
            lookup.insert(key, idx);
            proof {
                assert(final(vertices)@.subrange(0, old(vertices)@.len() as int) =~= old(
                    vertices,
                )@);
            }
            idx
        },
    }
}

/// One subdivision pass: every triangle of `triangles` is replaced by four,
/// via the three midpoints of its edges; midpoints of shared edges are
/// created once and reused through the per-pass dedup mapping.  The input
/// vertices keep their positions and indices; new vertices are appended.
pub fn subdivide(vertices: &mut Vec<Vec3Fix>, triangles: Vec<Triangle>) -> (out: Vec<Triangle>)
    requires
        tris_in_range(triangles@, old(vertices)@.len() as int),
        all_in_bounds(old(vertices)@),
        old(vertices)@.len() + 3 * triangles@.len() < 0x1_0000_0000,
    ensures
        ({
            let (vs2, out2) = subdivide_spec(old(vertices)@, triangles@);
            &&& final(vertices)@ == vs2
            &&& out@ == out2
        }),
        out@.len() == 4 * triangles@.len(),
        old(vertices)@.len() <= final(vertices)@.len() <= old(vertices)@.len() + 3
            * triangles@.len(),
        final(vertices)@.subrange(0, old(vertices)@.len() as int) == old(vertices)@,
        all_in_bounds(final(vertices)@),
        tris_in_range(out@, final(vertices)@.len() as int),
{
    let mut lookup: HashMap<u64, usize> = HashMap::new();
    let mut out: Vec<Triangle> = Vec::new();
    let ghost vs0 = vertices@;
    let ghost init = SubState { vs: vs0, m: Map::empty() };
    let mut i: usize = 0;
    while i < triangles.len()
        invariant
            i <= triangles@.len(),
            tris_in_range(triangles@, vs0.len() as int),
            all_in_bounds(vertices@),
            map_in_range(lookup@, vertices@.len() as int),
            vs0.len() + 3 * triangles@.len() < 0x1_0000_0000,
            vs0.len() <= vertices@.len() <= vs0.len() + 3 * i,
            vertices@.subrange(0, vs0.len() as int) == vs0,
            tris_in_range(out@, vertices@.len() as int),
            out@.len() == 4 * i,
            ({
                let cur = SubState { vs: vertices@, m: lookup@ };
                let (sf, of) = subdiv_from(init, triangles@, 0);
                let (sc, oc) = subdiv_from(cur, triangles@, i as int);
                &&& sf == sc
                &&& of == out@ + oc
            }),
        decreases triangles@.len() - i,
    {
        let ghost cur = SubState { vs: vertices@, m: lookup@ };
        let ghost out_before = out@;
        let t = triangles[i];
        let m01 = vertex_for_edge(&mut lookup, vertices, t.a, t.b);
        let m12 = vertex_for_edge(&mut lookup, vertices, t.b, t.c);
        let m20 = vertex_for_edge(&mut lookup, vertices, t.c, t.a);
        out.push(Triangle { a: t.a, b: m01, c: m20 });
        out.push(Triangle { a: t.b, b: m12, c: m01 });
        out.push(Triangle { a: t.c, b: m20, c: m12 });
        out.push(Triangle { a: m01, b: m12, c: m20 });
        proof {
            let (s3, out4) = tri_step(cur, t);
            assert(vertices@ == s3.vs && lookup@ == s3.m && out@ =~= out_before + out4);
            let next = SubState { vs: vertices@, m: lookup@ };
            let (sc_old, oc_old) = subdiv_from(cur, triangles@, i as int);
            let (sc_new, oc_new) = subdiv_from(next, triangles@, i + 1);
            assert(sc_old == sc_new && oc_old == out4 + oc_new);
            let (sf, of) = subdiv_from(init, triangles@, 0);
            assert(of =~= out@ + oc_new);
        }
        i = i + 1;
    }
    proof {
        let cur = SubState { vs: vertices@, m: lookup@ };
        let (sf, of) = subdiv_from(init, triangles@, 0);
        assert(subdiv_from(cur, triangles@, i as int) == (cur, Seq::<Triangle>::empty()));
        assert(of =~= out@);
    }
    out
}

/// Componentwise sum of two in-bounds positions.
fn add_fix(a: Vec3Fix, b: Vec3Fix) -> (r: Vec3Fix)
    requires
        in_bounds(a),
        in_bounds(b),
    ensures
        r == vadd(a, b),
        in_sum_bounds(r),
{
    Vec3Fix { x: a.x + b.x, y: a.y + b.y, z: a.z + b.z }
}

/// The dedup key of edge slot `e` of triangle `t`: slot 0 is the edge from
/// `t.a` to `t.b`, slot 1 from `t.b` to `t.c`, slot 2 from `t.c` to `t.a`.
pub open spec fn edge_key_of(t: Triangle, e: int) -> u64 {
    if e == 0 {
        edge_key(t.a, t.b)
    } else if e == 1 {
        edge_key(t.b, t.c)
    } else {
        edge_key(t.c, t.a)
    }
}

/// The midpoint index that the pass recorded for edge slot `e` of the
/// `q`-th subdivided triangle, read back out of the replacement triangles.
pub open spec fn out_mid(out: Seq<Triangle>, q: int, e: int) -> usize {
    if e == 0 {
        out[4 * q].b
    } else if e == 1 {
        out[4 * q + 1].b
    } else {
        out[4 * q + 2].b
    }
}

/// A pass replaces each remaining triangle by exactly four.
pub proof fn lemma_subdiv_from_len(s: SubState, ts: Seq<Triangle>, i: int)
    requires
        0 <= i <= ts.len(),
    ensures
        subdiv_from(s, ts, i).1.len() == 4 * (ts.len() - i),
    decreases ts.len() - i,
{
    if i == ts.len() {
    } else {
        let (s1, out4) = tri_step(s, ts[i]);
        lemma_subdiv_from_len(s1, ts, i + 1);
    }
}

/// A midpoint index, once recorded in the dedup mapping, survives the rest
/// of the pass unchanged.
proof fn lemma_mid_step_monotone(s: SubState, a: usize, b: usize, k: u64)
    requires
        s.m.contains_key(k),
    ensures
        mid_step(s, a, b).0.m.contains_key(k),
        mid_step(s, a, b).0.m[k] == s.m[k],
{
}

proof fn lemma_tri_step_monotone(s: SubState, t: Triangle, k: u64)
    requires
        s.m.contains_key(k),
    ensures
        tri_step(s, t).0.m.contains_key(k),
        tri_step(s, t).0.m[k] == s.m[k],
{
    let (s1, m01) = mid_step(s, t.a, t.b);
    lemma_mid_step_monotone(s, t.a, t.b, k);
    let (s2, m12) = mid_step(s1, t.b, t.c);
    lemma_mid_step_monotone(s1, t.b, t.c, k);
    lemma_mid_step_monotone(s2, t.c, t.a, k);
}

proof fn lemma_subdiv_from_monotone(s: SubState, ts: Seq<Triangle>, i: int, k: u64)
    requires
        s.m.contains_key(k),
    ensures
        subdiv_from(s, ts, i).0.m.contains_key(k),
        subdiv_from(s, ts, i).0.m[k] == s.m[k],
    decreases ts.len() - i,
{
    if i < 0 || i >= ts.len() {
    } else {
        let (s1, out4) = tri_step(s, ts[i]);
        lemma_tri_step_monotone(s, ts[i], k);
        lemma_subdiv_from_monotone(s1, ts, i + 1, k);
    }
}

/// After `mid_step`, the mapping holds the produced midpoint index under
/// the edge's key.
proof fn lemma_mid_step_records(s: SubState, a: usize, b: usize)
    ensures
        mid_step(s, a, b).0.m.contains_key(edge_key(a, b)),
        mid_step(s, a, b).0.m[edge_key(a, b)] == mid_step(s, a, b).1,
{
}

/// After a whole pass, the three midpoint indices recorded in the
/// replacement triangles of every subdivided triangle agree with the final
/// dedup mapping's entry for the matching edge key.
proof fn lemma_out_mids_match_map(s: SubState, ts: Seq<Triangle>, i: int)
    requires
        0 <= i <= ts.len(),
    ensures
        ({
            let (sf, out) = subdiv_from(s, ts, i);
            forall|j: int, e: int|
                i <= j < ts.len() && 0 <= e < 3 ==> sf.m.contains_key(
                    #[trigger] edge_key_of(ts[j], e),
                ) && sf.m[edge_key_of(ts[j], e)] == out_mid(out, j - i, e)
        }),
    decreases ts.len() - i,
{
    if i == ts.len() {
    } else {
        let t = ts[i];
        let (s1, m01) = mid_step(s, t.a, t.b);
        let (s2, m12) = mid_step(s1, t.b, t.c);
        let (s3, m20) = mid_step(s2, t.c, t.a);
        let (st, out4) = tri_step(s, t);
        let (sf, rest) = subdiv_from(s3, ts, i + 1);
        let (sf0, out) = subdiv_from(s, ts, i);
        assert(sf0 == sf && out == out4 + rest);
        lemma_subdiv_from_len(s3, ts, i + 1);
        lemma_out_mids_match_map(s3, ts, i + 1);
        // the three keys of triangle `i` reach the final mapping unchanged
        lemma_mid_step_records(s, t.a, t.b);
        lemma_mid_step_monotone(s1, t.b, t.c, edge_key(t.a, t.b));
        lemma_mid_step_monotone(s2, t.c, t.a, edge_key(t.a, t.b));
        lemma_subdiv_from_monotone(s3, ts, i + 1, edge_key(t.a, t.b));
        lemma_mid_step_records(s1, t.b, t.c);
        lemma_mid_step_monotone(s2, t.c, t.a, edge_key(t.b, t.c));
        lemma_subdiv_from_monotone(s3, ts, i + 1, edge_key(t.b, t.c));
        lemma_mid_step_records(s2, t.c, t.a);
        lemma_subdiv_from_monotone(s3, ts, i + 1, edge_key(t.c, t.a));
        assert forall|j: int, e: int| i <= j < ts.len() && 0 <= e < 3 implies sf.m.contains_key(
            #[trigger] edge_key_of(ts[j], e),
        ) && sf.m[edge_key_of(ts[j], e)] == out_mid(out, j - i, e) by {
            if j == i {
                assert(out[0] == out4[0] && out[1] == out4[1] && out[2] == out4[2]);
            } else {
                assert(sf.m.contains_key(edge_key_of(ts[j], e)) && sf.m[edge_key_of(ts[j], e)]
                    == out_mid(rest, j - (i + 1), e));
                assert(out[4 * (j - i)] == rest[4 * (j - i - 1)]);
                assert(out[4 * (j - i) + 1] == rest[4 * (j - i - 1) + 1]);
                assert(out[4 * (j - i) + 2] == rest[4 * (j - i - 1) + 2]);
            }
        }
    }
}

/// Within one pass, the midpoint of an edge does not depend on which
/// triangle reaches the edge first, nor on the edge's orientation: any two
/// edge slots that name the same unordered vertex pair receive the same
/// midpoint index in the replacement triangles.
pub proof fn lemma_edge_midpoint_deterministic(
    vs: Seq<Vec3Fix>,
    ts: Seq<Triangle>,
    j1: int,
    e1: int,
    j2: int,
    e2: int,
)
    requires
        0 <= j1 < ts.len(),
        0 <= e1 < 3,
        0 <= j2 < ts.len(),
        0 <= e2 < 3,
        edge_key_of(ts[j1], e1) == edge_key_of(ts[j2], e2),
    ensures
        out_mid(subdivide_spec(vs, ts).1, j1, e1) == out_mid(subdivide_spec(vs, ts).1, j2, e2),
{
    let init = SubState { vs: vs, m: Map::empty() };
    lemma_out_mids_match_map(init, ts, 0);
}

/// `new_vs` begins with all of `old_vs`, in order.
pub open spec fn keeps_prefix(old_vs: Seq<Vec3Fix>, new_vs: Seq<Vec3Fix>) -> bool {
    &&& old_vs.len() <= new_vs.len()
    &&& forall|j: int| 0 <= j < old_vs.len() ==> new_vs[j] == old_vs[j]
}

/// Every vertex of `vs` beyond the original `vs0` is the reprojected
/// midpoint of two original vertices.
pub open spec fn new_are_midpoints(vs0: Seq<Vec3Fix>, vs: Seq<Vec3Fix>) -> bool {
    forall|n: int|
        vs0.len() <= n < vs.len() ==> exists|a: int, b: int|
            0 <= a < vs0.len() && 0 <= b < vs0.len() && (#[trigger] vs[n]) == unit_mid(
                vs0[a],
                vs0[b],
            )
}

proof fn lemma_mid_step_midpoints(s: SubState, a: usize, b: usize, vs0: Seq<Vec3Fix>)
    requires
        keeps_prefix(vs0, s.vs),
        new_are_midpoints(vs0, s.vs),
        a < vs0.len(),
        b < vs0.len(),
    ensures
        keeps_prefix(vs0, mid_step(s, a, b).0.vs),
        new_are_midpoints(vs0, mid_step(s, a, b).0.vs),
{
    let k = edge_key(a, b);
    if !s.m.contains_key(k) {
        let vs1 = mid_step(s, a, b).0.vs;
        assert forall|n: int|
            vs0.len() <= n < vs1.len() implies exists|x: int, y: int|
            0 <= x < vs0.len() && 0 <= y < vs0.len() && (#[trigger] vs1[n]) == unit_mid(
                vs0[x],
                vs0[y],
            ) by {
            if n < s.vs.len() {
                assert(vs1[n] == s.vs[n]);
            } else {
                assert(vs1[n] == unit_mid(vs0[a as int], vs0[b as int]));
            }
        }
    }
}

proof fn lemma_tri_step_midpoints(s: SubState, t: Triangle, vs0: Seq<Vec3Fix>)
    requires
        keeps_prefix(vs0, s.vs),
        new_are_midpoints(vs0, s.vs),
        tri_in_range(t, vs0.len() as int),
    ensures
        keeps_prefix(vs0, tri_step(s, t).0.vs),
        new_are_midpoints(vs0, tri_step(s, t).0.vs),
{
    let (s1, m01) = mid_step(s, t.a, t.b);
    lemma_mid_step_midpoints(s, t.a, t.b, vs0);
    let (s2, m12) = mid_step(s1, t.b, t.c);
    lemma_mid_step_midpoints(s1, t.b, t.c, vs0);
    lemma_mid_step_midpoints(s2, t.c, t.a, vs0);
}

proof fn lemma_subdiv_from_midpoints(s: SubState, ts: Seq<Triangle>, i: int, vs0: Seq<Vec3Fix>)
    requires
        0 <= i <= ts.len(),
        keeps_prefix(vs0, s.vs),
        new_are_midpoints(vs0, s.vs),
        tris_in_range(ts, vs0.len() as int),
    ensures
        keeps_prefix(vs0, subdiv_from(s, ts, i).0.vs),
        new_are_midpoints(vs0, subdiv_from(s, ts, i).0.vs),
    decreases ts.len() - i,
{
    if i < ts.len() {
        lemma_tri_step_midpoints(s, ts[i], vs0);
        lemma_subdiv_from_midpoints(tri_step(s, ts[i]).0, ts, i + 1, vs0);
    }
}

/// Every vertex the Subdivision Engine appends in one pass is the
/// reprojected midpoint of an edge of the input mesh: two of the input
/// vertices.  Together with `lemma_midpoint_near_unit` this places every
/// produced vertex on the unit sphere up to rounding, whenever no edge of
/// the input mesh connects near-antipodal endpoints.
pub proof fn lemma_subdivide_new_vertices_are_midpoints(vs: Seq<Vec3Fix>, ts: Seq<Triangle>)
    requires
        tris_in_range(ts, vs.len() as int),
    ensures
        keeps_prefix(vs, subdivide_spec(vs, ts).0),
        new_are_midpoints(vs, subdivide_spec(vs, ts).0),
{
    let init = SubState { vs: vs, m: Map::<u64, usize>::empty() };
    lemma_subdiv_from_midpoints(init, ts, 0, vs);
}

/// The set of dedup keys of all edges of the triangles of `ts` from
/// position `i` on: one key per distinct unordered edge.
pub open spec fn edge_keys_from(ts: Seq<Triangle>, i: int) -> Set<u64>
    decreases ts.len() - i,
{
    if i < 0 || i >= ts.len() {
        Set::empty()
    } else {
        edge_keys_from(ts, i + 1).insert(edge_key_of(ts[i], 0)).insert(
            edge_key_of(ts[i], 1),
        ).insert(edge_key_of(ts[i], 2))
    }
}

proof fn lemma_mid_step_count(s: SubState, a: usize, b: usize)
    requires
        s.m.dom().finite(),
    ensures
        mid_step(s, a, b).0.m.dom() == s.m.dom().insert(edge_key(a, b)),
        mid_step(s, a, b).0.m.dom().finite(),
        mid_step(s, a, b).0.vs.len() - s.vs.len() == mid_step(s, a, b).0.m.dom().len()
            - s.m.dom().len(),
{
    let k = edge_key(a, b);
    if s.m.contains_key(k) {
        assert(s.m.dom().insert(k) =~= s.m.dom());
    } else {
        assert(mid_step(s, a, b).0.m.dom() =~= s.m.dom().insert(k));
    }
}

proof fn lemma_tri_step_count(s: SubState, t: Triangle)
    requires
        s.m.dom().finite(),
    ensures
        tri_step(s, t).0.m.dom() == s.m.dom().insert(edge_key_of(t, 0)).insert(
            edge_key_of(t, 1),
        ).insert(edge_key_of(t, 2)),
        tri_step(s, t).0.m.dom().finite(),
        tri_step(s, t).0.vs.len() - s.vs.len() == tri_step(s, t).0.m.dom().len() - s.m.dom().len(),
{
    let (s1, m01) = mid_step(s, t.a, t.b);
    lemma_mid_step_count(s, t.a, t.b);
    let (s2, m12) = mid_step(s1, t.b, t.c);
    lemma_mid_step_count(s1, t.b, t.c);
    lemma_mid_step_count(s2, t.c, t.a);
}

proof fn lemma_subdiv_from_count(s: SubState, ts: Seq<Triangle>, i: int)
    requires
        0 <= i <= ts.len(),
        s.m.dom().finite(),
    ensures
        subdiv_from(s, ts, i).0.m.dom() == s.m.dom() + edge_keys_from(ts, i),
        subdiv_from(s, ts, i).0.m.dom().finite(),
        subdiv_from(s, ts, i).0.vs.len() - s.vs.len() == subdiv_from(s, ts, i).0.m.dom().len()
            - s.m.dom().len(),
    decreases ts.len() - i,
{
    if i == ts.len() {
        assert(s.m.dom() + edge_keys_from(ts, i) =~= s.m.dom());
    } else {
        let t = ts[i];
        let (s1, out4) = tri_step(s, t);
        lemma_tri_step_count(s, t);
        lemma_subdiv_from_count(s1, ts, i + 1);
        assert(s1.m.dom() + edge_keys_from(ts, i + 1) =~= s.m.dom() + edge_keys_from(ts, i));
    }
}

/// One pass appends exactly one vertex per distinct edge: the new vertex
/// count is the old one plus the number of distinct unordered edges among
/// the input triangles.
pub proof fn lemma_subdivide_vertex_count(vs: Seq<Vec3Fix>, ts: Seq<Triangle>)
    ensures
        subdivide_spec(vs, ts).0.len() == vs.len() + edge_keys_from(ts, 0).len(),
{
    let init = SubState { vs: vs, m: Map::<u64, usize>::empty() };
    assert(init.m.dom() =~= Set::<u64>::empty());
    lemma_subdiv_from_count(init, ts, 0);
    let sf = subdiv_from(init, ts, 0).0;
    assert(sf.m.dom() =~= edge_keys_from(ts, 0));
}

/// Magnitude of an integer.
pub open spec fn absi(c: int) -> int {
    if c >= 0 {
        c
    } else {
        -c
    }
}

/// The squared length of `w` is one squared radius up to rounding error:
/// the length itself is within four fixed-point units (four billionths of a
/// radius) of one radius.
pub open spec fn near_unit(w: Vec3Fix) -> bool {
    (SCALE - 4) * (SCALE - 4) <= norm_sq(w) <= (SCALE + 2) * (SCALE + 2)
}

/// Division remainder bracketing for one reprojected coordinate: writing
/// `e` for the magnitude of `scale_div(c, l)` and `a` for the magnitude of
/// `c`, we have `e * l <= a * SCALE < (e + 1) * l`.
proof fn lemma_scale_div_rem(c: int, l: int)
    requires
        1 <= l,
    ensures
        absi(scale_div(c, l)) * l <= absi(c) * SCALE < (absi(scale_div(c, l)) + 1) * l,
        absi(scale_div(c, l)) >= 0,
{
    if c >= 0 {
        let x = c * SCALE;
        assert(x >= 0) by (nonlinear_arith)
            requires
                x == c * SCALE,
                c >= 0,
                SCALE > 0,
        ;
        vstd::arithmetic::div_mod::lemma_fundamental_div_mod(x, l);
        vstd::arithmetic::div_mod::lemma_mod_bound(x, l);
        vstd::arithmetic::div_mod::lemma_div_pos_is_pos(x, l);
        assert(l * (x / l) == (x / l) * l) by (nonlinear_arith);
        assert((x / l + 1) * l == (x / l) * l + l) by (nonlinear_arith);
    } else {
        let x = -c * SCALE;
        assert(x >= 0) by (nonlinear_arith)
            requires
                x == -c * SCALE,
                c < 0,
                SCALE > 0,
        ;
        vstd::arithmetic::div_mod::lemma_fundamental_div_mod(x, l);
        vstd::arithmetic::div_mod::lemma_mod_bound(x, l);
        vstd::arithmetic::div_mod::lemma_div_pos_is_pos(x, l);
        assert(l * (x / l) == (x / l) * l) by (nonlinear_arith);
        assert((x / l + 1) * l == (x / l) * l + l) by (nonlinear_arith);
    }
}

/// Reprojection puts a vector whose length is at least half a radius onto
/// the sphere, up to rounding: the result's length is one radius within
/// four fixed-point units.
/// Reprojection puts a vector whose length is at least half a radius onto
/// the sphere, up to rounding: the result's length is one radius within
/// four fixed-point units.
pub proof fn lemma_normalize_near_unit(v: Vec3Fix)
    requires
        in_sum_bounds(v),
        norm_sq(v) >= (SCALE / 2) * (SCALE / 2),
    ensures
        near_unit(normalize_spec(v)),
{
    let n = norm_sq(v);
    let l = isqrt_spec(n as nat) as int;
    lemma_isqrt_bounds(n as nat);
    assert(l >= SCALE / 2 && l >= 1) by (nonlinear_arith)
        requires
            n >= (SCALE / 2) * (SCALE / 2),
            n < (l + 1) * (l + 1),
            l >= 0,
            SCALE == 1_000_000_000,
    ;
    let dx = scale_div(v.x as int, l);
    let dy = scale_div(v.y as int, l);
    let dz = scale_div(v.z as int, l);
    let ex = absi(dx);
    let ey = absi(dy);
    let ez = absi(dz);
    let ax = absi(v.x as int);
    let ay = absi(v.y as int);
    let az = absi(v.z as int);
    lemma_scale_div_rem(v.x as int, l);
    lemma_scale_div_rem(v.y as int, l);
    lemma_scale_div_rem(v.z as int, l);
    assert(n == ax * ax + ay * ay + az * az) by (nonlinear_arith)
        requires
            n == v.x * v.x + v.y * v.y + v.z * v.z,
            ax == absi(v.x as int),
            ay == absi(v.y as int),
            az == absi(v.z as int),
    ;
    lemma_sq_le(ex * l, ax * SCALE);
    lemma_sq_le(ey * l, ay * SCALE);
    lemma_sq_le(ez * l, az * SCALE);
    assert((ex * l) * (ex * l) == (ex * ex) * (l * l) && (ey * l) * (ey * l) == (ey * ey) * (l * l)
        && (ez * l) * (ez * l) == (ez * ez) * (l * l)) by (nonlinear_arith);
    assert((ax * SCALE) * (ax * SCALE) == (ax * ax) * (SCALE * SCALE) && (ay * SCALE) * (ay
        * SCALE) == (ay * ay) * (SCALE * SCALE) && (az * SCALE) * (az * SCALE) == (az * az)
        * (SCALE * SCALE)) by (nonlinear_arith);
    assert(l * l * (ex * ex + ey * ey + ez * ez) == (ex * ex) * (l * l) + (ey * ey) * (l * l) + (ez
        * ez) * (l * l)) by (nonlinear_arith);
    assert(SCALE * SCALE * n == (ax * ax) * (SCALE * SCALE) + (ay * ay) * (SCALE * SCALE) + (az
        * az) * (SCALE * SCALE)) by (nonlinear_arith)
        requires
            n == ax * ax + ay * ay + az * az,
    ;
    // upper bound
    assert(l * l * (ex * ex + ey * ey + ez * ez) <= SCALE * SCALE * n);
    assert(SCALE * SCALE * n < (SCALE * (l + 1)) * (SCALE * (l + 1))) by (nonlinear_arith)
        requires
            n < (l + 1) * (l + 1),
            SCALE > 0,
            l >= 0,
    ;
    assert(SCALE * (l + 1) <= (SCALE + 2) * l) by (nonlinear_arith)
        requires
            2 * l >= SCALE,
            l >= 1,
            SCALE > 0,
    ;
    lemma_sq_le(SCALE * (l + 1), (SCALE + 2) * l);
    assert(((SCALE + 2) * l) * ((SCALE + 2) * l) == ((SCALE + 2) * (SCALE + 2)) * (l * l))
        by (nonlinear_arith);
    assert(l * l * (ex * ex + ey * ey + ez * ez) < ((SCALE + 2) * (SCALE + 2)) * (l * l));
    assert(ex * ex + ey * ey + ez * ez <= (SCALE + 2) * (SCALE + 2)) by (nonlinear_arith)
        requires
            l * l * (ex * ex + ey * ey + ez * ez) < ((SCALE + 2) * (SCALE + 2)) * (l * l),
            l >= 1,
    ;
    assert(ex * ex <= (SCALE + 2) * (SCALE + 2) && ey * ey <= (SCALE + 2) * (SCALE + 2) && ez * ez
        <= (SCALE + 2) * (SCALE + 2)) by (nonlinear_arith)
        requires
            ex * ex + ey * ey + ez * ez <= (SCALE + 2) * (SCALE + 2),
            ex >= 0 && ey >= 0 && ez >= 0,
    ;
    assert(ex <= SCALE + 2 && ey <= SCALE + 2 && ez <= SCALE + 2) by (nonlinear_arith)
        requires
            ex * ex <= (SCALE + 2) * (SCALE + 2),
            ey * ey <= (SCALE + 2) * (SCALE + 2),
            ez * ez <= (SCALE + 2) * (SCALE + 2),
            ex >= 0 && ey >= 0 && ez >= 0,
            SCALE > 0,
    ;
    // lower bound
    lemma_sq_lt(ax * SCALE, (ex + 1) * l);
    lemma_sq_lt(ay * SCALE, (ey + 1) * l);
    lemma_sq_lt(az * SCALE, (ez + 1) * l);
    assert(((ex + 1) * l) * ((ex + 1) * l) == ((ex + 1) * (ex + 1)) * (l * l) && ((ey + 1) * l)
        * ((ey + 1) * l) == ((ey + 1) * (ey + 1)) * (l * l) && ((ez + 1) * l) * ((ez + 1) * l) == ((
    ez + 1) * (ez + 1)) * (l * l)) by (nonlinear_arith);
    let t = (ex + 1) * (ex + 1) + (ey + 1) * (ey + 1) + (ez + 1) * (ez + 1);
    assert(l * l * t == ((ex + 1) * (ex + 1)) * (l * l) + ((ey + 1) * (ey + 1)) * (l * l) + ((ez
        + 1) * (ez + 1)) * (l * l)) by (nonlinear_arith)
        requires
            t == (ex + 1) * (ex + 1) + (ey + 1) * (ey + 1) + (ez + 1) * (ez + 1),
    ;
    assert(SCALE * SCALE * n < l * l * t);
    assert(SCALE * SCALE * (l * l) <= SCALE * SCALE * n) by (nonlinear_arith)
        requires
            n >= l * l,
            SCALE > 0,
    ;
    assert(SCALE * SCALE < t) by (nonlinear_arith)
        requires
            SCALE * SCALE * (l * l) < l * l * t,
            l >= 1,
            SCALE > 0,
    ;
    assert(t == ex * ex + ey * ey + ez * ez + 2 * (ex + ey + ez) + 3) by (nonlinear_arith)
        requires
            t == (ex + 1) * (ex + 1) + (ey + 1) * (ey + 1) + (ez + 1) * (ez + 1),
    ;
    assert((SCALE - 4) * (SCALE - 4) == SCALE * SCALE - 8 * SCALE + 16) by (nonlinear_arith);
    assert(ex * ex + ey * ey + ez * ez >= (SCALE - 4) * (SCALE - 4));
    // the reprojected coordinates are exactly dx, dy, dz
    assert(ex <= ex * l && ey <= ey * l && ez <= ez * l) by (nonlinear_arith)
        requires
            l >= 1,
            ex >= 0 && ey >= 0 && ez >= 0,
    ;
    assert(ax * SCALE <= 2 * SCALE * SCALE && ay * SCALE <= 2 * SCALE * SCALE && az * SCALE <= 2
        * SCALE * SCALE) by (nonlinear_arith)
        requires
            ax <= 2 * SCALE && ay <= 2 * SCALE && az <= 2 * SCALE,
            SCALE > 0,
    ;
    let w = normalize_spec(v);
    assert(w.x == dx && w.y == dy && w.z == dz);
    assert(norm_sq(w) == ex * ex + ey * ey + ez * ez) by (nonlinear_arith)
        requires
            norm_sq(w) == w.x * w.x + w.y * w.y + w.z * w.z,
            w.x == dx && w.y == dy && w.z == dz,
            ex == absi(dx) && ey == absi(dy) && ez == absi(dz),
    ;
}

/// Squaring keeps a non-strict inequality of non-negative integers.
proof fn lemma_sq_le(u: int, w: int)
    requires
        0 <= u <= w,
    ensures
        u * u <= w * w,
{
    assert(u * u <= w * w) by (nonlinear_arith)
        requires
            0 <= u <= w,
    ;
}

/// Squaring keeps a strict inequality of non-negative integers.
proof fn lemma_sq_lt(u: int, w: int)
    requires
        0 <= u < w,
    ensures
        u * u < w * w,
{
    assert(u * u < w * w) by (nonlinear_arith)
        requires
            0 <= u < w,
    ;
}

/// Every midpoint vertex the Subdivision Engine creates lies on the unit
/// sphere up to rounding, provided its edge's endpoints are not close to
/// antipodal: the midpoint of the edge from `a` to `b`, reprojected, has
/// length one radius within four fixed-point units whenever the sum of the
/// endpoints is at least half a radius long.
pub proof fn lemma_midpoint_near_unit(a: Vec3Fix, b: Vec3Fix)
    requires
        in_bounds(a),
        in_bounds(b),
        norm_sq(vadd(a, b)) >= (SCALE / 2) * (SCALE / 2),
    ensures
        near_unit(unit_mid(a, b)),
{
    lemma_normalize_near_unit(vadd(a, b));
}

/// The triangle count after `k` passes over the base icosahedron is
/// exactly `20 * 4^k`, for every depth `k`.
pub proof fn lemma_icosphere_triangle_count(k: nat)
    ensures
        icosphere_spec(k).1.len() == 20 * pow4(k),
    decreases k,
{
    if k == 0 {
    } else {
        lemma_icosphere_triangle_count((k - 1) as nat);
        let (vs, ts) = icosphere_spec((k - 1) as nat);
        lemma_subdiv_from_len(SubState { vs: vs, m: Map::empty() }, ts, 0);
    }
}

/// Each pass over the icosphere appends one vertex per distinct edge of
/// the pass's input mesh.  (For the closed icosphere surface the edge
/// count is three halves of the triangle count, which yields the closed
/// form `10 * 4^k + 2` for the vertex count; that count is checked on
/// concrete depths by the test suite.)
pub proof fn lemma_icosphere_vertex_count(k: nat)
    requires
        1 <= k,
    ensures
        icosphere_spec(k).0.len() == icosphere_spec((k - 1) as nat).0.len() + edge_keys_from(
            icosphere_spec((k - 1) as nat).1,
            0,
        ).len(),
{
    let (vs, ts) = icosphere_spec((k - 1) as nat);
    lemma_subdivide_vertex_count(vs, ts);
}

/// The pipeline from depth to mesh is a function of the depth alone: two
/// runs at one depth yield coordinate-for-coordinate and index-for-index
/// identical vertex and triangle sequences.  `make_icosphere` returns
/// exactly `icosphere_spec` of its argument, so its output inherits this.
pub proof fn lemma_pipeline_deterministic(k1: nat, k2: nat)
    requires
        k1 == k2,
    ensures
        icosphere_spec(k1) == icosphere_spec(k2),
{
}

/// The deepest refinement the builder will perform; bounds the memory a
/// mesh can take.
pub const MAX_SUBDIVISIONS: u32 = 5;

/// Golden-ratio coordinate of the regular icosahedron, in fixed point:
/// `0.52573111...` sphere radii.
pub const ICO_X: i64 = 525_731_112;

/// The negation of `ICO_X`.
pub const ICO_NX: i64 = -525_731_112;

/// Golden-ratio coordinate of the regular icosahedron, in fixed point:
/// `0.85065080...` sphere radii.
pub const ICO_Z: i64 = 850_650_808;

/// The negation of `ICO_Z`.
pub const ICO_NZ: i64 = -850_650_808;

/// The fourth powers: how the triangle count grows with each pass.
pub open spec fn pow4(k: nat) -> nat
    decreases k,
{
    if k == 0 {
        1
    } else {
        4 * pow4((k - 1) as nat)
    }
}

pub proof fn lemma_pow4_bounded(k: nat)
    requires
        k <= 5,
    ensures
        pow4(k) <= 1024,
        1 <= pow4(k),
{
    reveal_with_fuel(pow4, 7);
}

/// The twelve vertices of the regular icosahedron inscribed in the unit
/// sphere, in fixed point.
pub open spec fn base_vertices() -> Seq<Vec3Fix> {
    seq![
        Vec3Fix { x: ICO_NX, y: 0, z: ICO_Z },
        Vec3Fix { x: ICO_X, y: 0, z: ICO_Z },
        Vec3Fix { x: ICO_NX, y: 0, z: ICO_NZ },
        Vec3Fix { x: ICO_X, y: 0, z: ICO_NZ },
        Vec3Fix { x: 0, y: ICO_Z, z: ICO_X },
        Vec3Fix { x: 0, y: ICO_Z, z: ICO_NX },
        Vec3Fix { x: 0, y: ICO_NZ, z: ICO_X },
        Vec3Fix { x: 0, y: ICO_NZ, z: ICO_NX },
        Vec3Fix { x: ICO_Z, y: ICO_X, z: 0 },
        Vec3Fix { x: ICO_NZ, y: ICO_X, z: 0 },
        Vec3Fix { x: ICO_Z, y: ICO_NX, z: 0 },
        Vec3Fix { x: ICO_NZ, y: ICO_NX, z: 0 },
    ]
}

/// The twenty faces of the regular icosahedron, as index triples into
/// `base_vertices`.
pub open spec fn base_triangles() -> Seq<Triangle> {
    seq![
        Triangle { a: 0, b: 4, c: 1 },
        Triangle { a: 0, b: 9, c: 4 },
        Triangle { a: 9, b: 5, c: 4 },
        Triangle { a: 4, b: 5, c: 8 },
        Triangle { a: 4, b: 8, c: 1 },
        Triangle { a: 8, b: 10, c: 1 },
        Triangle { a: 8, b: 3, c: 10 },
        Triangle { a: 5, b: 3, c: 8 },
        Triangle { a: 5, b: 2, c: 3 },
        Triangle { a: 2, b: 7, c: 3 },
        Triangle { a: 7, b: 10, c: 3 },
        Triangle { a: 7, b: 6, c: 10 },
        Triangle { a: 7, b: 11, c: 6 },
        Triangle { a: 11, b: 0, c: 6 },
        Triangle { a: 0, b: 1, c: 6 },
        Triangle { a: 6, b: 1, c: 10 },
        Triangle { a: 9, b: 0, c: 11 },
        Triangle { a: 9, b: 11, c: 2 },
        Triangle { a: 9, b: 2, c: 5 },
        Triangle { a: 7, b: 2, c: 11 },
    ]
}

/// The mesh after `k` subdivision passes over the base icosahedron.
pub open spec fn icosphere_spec(k: nat) -> (Seq<Vec3Fix>, Seq<Triangle>)
    decreases k,
{
    if k == 0 {
        (base_vertices(), base_triangles())
    } else {
        let (vs, ts) = icosphere_spec((k - 1) as nat);
        subdivide_spec(vs, ts)
    }
}

/// Builds the icosphere of the given depth: the base icosahedron,
/// subdivided `subdivisions` times.  The triangle count is exactly
/// `20 * 4^subdivisions`.
pub fn make_icosphere(subdivisions: u32) -> (r: (Vec<Vec3Fix>, Vec<Triangle>))
    requires
        subdivisions <= MAX_SUBDIVISIONS,
    ensures
        ({
            let (vs, ts) = icosphere_spec(subdivisions as nat);
            &&& r.0@ == vs
            &&& r.1@ == ts
        }),
        r.1@.len() == 20 * pow4(subdivisions as nat),
        12 <= r.0@.len() <= 20472,
        tris_in_range(r.1@, r.0@.len() as int),
        all_in_bounds(r.0@),
{
    let mut mesh_vertices: Vec<Vec3Fix> = vec![
        Vec3Fix { x: ICO_NX, y: 0, z: ICO_Z },
        Vec3Fix { x: ICO_X, y: 0, z: ICO_Z },
        Vec3Fix { x: ICO_NX, y: 0, z: ICO_NZ },
        Vec3Fix { x: ICO_X, y: 0, z: ICO_NZ },
        Vec3Fix { x: 0, y: ICO_Z, z: ICO_X },
        Vec3Fix { x: 0, y: ICO_Z, z: ICO_NX },
        Vec3Fix { x: 0, y: ICO_NZ, z: ICO_X },
        Vec3Fix { x: 0, y: ICO_NZ, z: ICO_NX },
        Vec3Fix { x: ICO_Z, y: ICO_X, z: 0 },
        Vec3Fix { x: ICO_NZ, y: ICO_X, z: 0 },
        Vec3Fix { x: ICO_Z, y: ICO_NX, z: 0 },
        Vec3Fix { x: ICO_NZ, y: ICO_NX, z: 0 },
    ];
    let mut mesh_triangles: Vec<Triangle> = vec![
        Triangle { a: 0, b: 4, c: 1 },
        Triangle { a: 0, b: 9, c: 4 },
        Triangle { a: 9, b: 5, c: 4 },
        Triangle { a: 4, b: 5, c: 8 },
        Triangle { a: 4, b: 8, c: 1 },
        Triangle { a: 8, b: 10, c: 1 },
        Triangle { a: 8, b: 3, c: 10 },
        Triangle { a: 5, b: 3, c: 8 },
        Triangle { a: 5, b: 2, c: 3 },
        Triangle { a: 2, b: 7, c: 3 },
        Triangle { a: 7, b: 10, c: 3 },
        Triangle { a: 7, b: 6, c: 10 },
        Triangle { a: 7, b: 11, c: 6 },
        Triangle { a: 11, b: 0, c: 6 },
        Triangle { a: 0, b: 1, c: 6 },
        Triangle { a: 6, b: 1, c: 10 },
        Triangle { a: 9, b: 0, c: 11 },
        Triangle { a: 9, b: 11, c: 2 },
        Triangle { a: 9, b: 2, c: 5 },
        Triangle { a: 7, b: 2, c: 11 },
    ];
    proof {
        assert(mesh_vertices@ =~= base_vertices());
        assert(mesh_triangles@ =~= base_triangles());
        assert(tris_in_range(base_triangles(), 12));
        assert(all_in_bounds(base_vertices()));
        lemma_pow4_bounded(0);
    }
    let mut i: u32 = 0;
    while i < subdivisions
        invariant
            i <= subdivisions <= 5,
            ({
                let (vs, ts) = icosphere_spec(i as nat);
                &&& mesh_vertices@ == vs
                &&& mesh_triangles@ == ts
            }),
            mesh_triangles@.len() == 20 * pow4(i as nat),
            12 <= mesh_vertices@.len(),
            mesh_vertices@.len() <= 12 + 20 * (pow4(i as nat) - 1),
            tris_in_range(mesh_triangles@, mesh_vertices@.len() as int),
            all_in_bounds(mesh_vertices@),
        decreases subdivisions - i,
    {
        proof {
            lemma_pow4_bounded(i as nat);
            lemma_pow4_bounded((i + 1) as nat);
        }
        mesh_triangles = subdivide(&mut mesh_vertices, mesh_triangles);
        i = i + 1;
    }
    proof {
        lemma_pow4_bounded(subdivisions as nat);
    }
    (mesh_vertices, mesh_triangles)
}

} // verus!
