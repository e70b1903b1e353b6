//! The data structures that represent a finalized planet, flattened into
//! the contiguous buffers a rendering host consumes.

use crate::icosphere::{
    all_in_bounds, normalize_fix, normalize_spec, tris_in_range, Triangle, Vec3Fix,
};
use vstd::prelude::*;

verus! {

/// One flattened vertex record: position, surface normal, and the index of
/// the tectonic plate the vertex belongs to.
#[derive(Clone, Copy, Debug, PartialEq, Eq, Structural)]
pub struct Vertex {
    pub position: Vec3Fix,
    pub normal: Vec3Fix,
    pub plate_idx: u32,
}

/// A finalized planet: its scalar parameters and its mesh, flattened into
/// one vertex buffer and one triangle-index buffer.  The buffers are owned
/// by this value and handed to the consumer whole; nothing here releases
/// them behind the consumer's back.
pub struct Planet {
    pub radius: u64,
    pub distance_from_sun: u64,
    pub vertices: Vec<Vertex>,
    pub indices: Vec<i32>,
}

/// Represents a star in a solar system.
#[derive(Clone, Copy, Debug, PartialEq, Eq, Structural)]
pub struct Star {
    /// The mass of the star, in kilograms.  Stars are assumed to be like
    /// the Sun: from the mass and the densities of its elements one can
    /// derive the size, the heat, and the color.
    pub mass: u64,
}

/// A solar system, in all its glory.
pub struct SolarSystem {
    /// All the stars in this solar system; usually one entry, but binary
    /// star systems are supported.
    pub stars: Vec<Star>,
    /// All the planets in this solar system.
    pub planets: Vec<Planet>,
}

/// Flattens triangles into the host's index buffer: three signed 32-bit
/// indices per triangle, in triangle order.
pub fn export_triangles(triangles: &Vec<Triangle>) -> (out: Vec<i32>)
    requires
        tris_in_range(triangles@, 0x8000_0000),
    ensures
        out@.len() == 3 * triangles@.len(),
        forall|j: int|
            0 <= j < triangles@.len() ==> out@[3 * j] == (#[trigger] triangles@[j]).a as i32
                && out@[3 * j + 1] == triangles@[j].b as i32 && out@[3 * j + 2] == triangles@[j].c
                as i32,
{
    let mut out: Vec<i32> = Vec::new();
    let mut i: usize = 0;
    while i < triangles.len()
        invariant
            i <= triangles@.len(),
            tris_in_range(triangles@, 0x8000_0000),
            out@.len() == 3 * i,
            forall|j: int|
                0 <= j < i ==> out@[3 * j] == (#[trigger] triangles@[j]).a as i32 && out@[3 * j + 1]
                    == triangles@[j].b as i32 && out@[3 * j + 2] == triangles@[j].c as i32,
        decreases triangles@.len() - i,
    {
        let t = triangles[i];
        out.push(t.a as i32);
        out.push(t.b as i32);
        out.push(t.c as i32);
        i = i + 1;
    }
    out
}

/// Builds the host's vertex buffer: one record per position, carrying the
/// position, its outward normal (the position reprojected onto the unit
/// sphere), and its plate index.
pub fn export_vertices(positions: &Vec<Vec3Fix>, plates: &Vec<u32>) -> (out: Vec<Vertex>)
    requires
        plates@.len() == positions@.len(),
        all_in_bounds(positions@),
    ensures
        out@.len() == positions@.len(),
        forall|i: int|
            0 <= i < positions@.len() ==> (#[trigger] out@[i]).position == positions@[i]
                && out@[i].normal == normalize_spec(positions@[i]) && out@[i].plate_idx
                == plates@[i],
{
    let mut out: Vec<Vertex> = Vec::new();
    let mut i: usize = 0;
    while i < positions.len()
        invariant
            i <= positions@.len(),
            plates@.len() == positions@.len(),
            all_in_bounds(positions@),
            out@.len() == i,
            forall|j: int|
                0 <= j < i ==> (#[trigger] out@[j]).position == positions@[j] && out@[j].normal
                    == normalize_spec(positions@[j]) && out@[j].plate_idx == plates@[j],
        decreases positions@.len() - i,
    {
        let pos = positions[i];
        let normal = normalize_fix(pos);
        out.push(Vertex { position: pos, normal: normal, plate_idx: plates[i] });
        i = i + 1;
    }
    out
}

} // verus!
