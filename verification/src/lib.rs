//! Procedural generation of a planet's surface mesh and physical parameters.
//!
//! The mesh pipeline refines an icosahedron inscribed in the unit sphere by
//! repeated 1-to-4 triangle splitting with shared-edge-midpoint
//! deduplication, partitions the resulting vertices into tectonic plates by
//! nearest-seed classification, and flattens the result into buffers for a
//! rendering host.  All geometry is carried in fixed-point coordinates
//! (units of one billionth of the sphere radius) so that every step of the
//! pipeline is plain integer arithmetic.

pub mod bootstrap;
pub mod icosphere;
pub mod initial_planet_data;
pub mod output_data;
