//! Topological core of a boundary-representation solid-modeling kernel.
//!
//! The library maintains an immutable, content-identified graph of
//! topological objects (vertices, half-edges, cycles, regions, faces,
//! shells, solids, sketches) and provides structural replacement of a
//! sub-object through all enclosing objects, tolerance-keyed approximation
//! with a cache, and sweeping of 2D topology into solids.

pub mod approx;
pub mod geometry;
pub mod object_set;
pub mod objects;
pub mod replace;
pub mod services;
pub mod storage;
pub mod sweep;
