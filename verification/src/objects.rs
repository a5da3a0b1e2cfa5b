//! The topology types of the object graph.
//!
//! Each object is an immutable value composed of scalar fields and of
//! handles (or ordered sets of handles) referencing child objects. The
//! graph is a strict DAG: each kind references only strictly lower kinds,
//! and no object stores a back-reference to a parent. Replacing a child
//! produces a new parent object with a new identity; unchanged children are
//! shared by handle, never copied.

use vstd::prelude::*;
use crate::geometry::{Color, Point3, Vector3};
use crate::object_set::ObjectSet;
use crate::storage::Handle;

verus! {

/// A vertex: a position in space.
#[derive(Clone, Copy, Debug)]
pub struct Vertex {
    pub position: Point3,
}

impl Vertex {
    /// Construct a vertex at a position.
    pub fn new(position: Point3) -> (r: Self)
        ensures
            r.position == position,
    {
        Vertex { position }
    }
}

/// A directed edge, bounded by its start vertex; the edge's end is the
/// start of the circular successor within the owning cycle.
#[derive(Clone, Copy, Debug)]
pub struct HalfEdge {
    pub start_vertex: Handle<Vertex>,
}

impl HalfEdge {
    /// Construct a half-edge from its start vertex.
    pub fn new(start_vertex: Handle<Vertex>) -> (r: Self)
        ensures
            r.start_vertex == start_vertex,
    {
        HalfEdge { start_vertex }
    }
}

/// A closed loop of half-edges, in winding order.
#[derive(Debug)]
pub struct Cycle {
    pub half_edges: ObjectSet<HalfEdge>,
}

impl Cycle {
    /// Construct a cycle from its half-edges.
    pub fn new(half_edges: ObjectSet<HalfEdge>) -> (r: Self)
        ensures
            r.half_edges == half_edges,
    {
        Cycle { half_edges }
    }
}

impl Clone for Cycle {
    fn clone(&self) -> (r: Self)
        ensures
            cycle_equiv(r, *self),
    {
        Cycle { half_edges: self.half_edges.clone() }
    }
}

/// A two-dimensional area bounded by an exterior cycle, with zero or more
/// interior cycles bounding holes, and an optional color.
#[derive(Debug)]
pub struct Region {
    pub exterior: Handle<Cycle>,
    pub interiors: ObjectSet<Cycle>,
    pub color: Option<Color>,
}

impl Region {
    /// Construct a region from its boundaries and color.
    pub fn new(exterior: Handle<Cycle>, interiors: ObjectSet<Cycle>, color: Option<Color>) -> (r:
        Self)
        ensures
            r.exterior == exterior,
            r.interiors == interiors,
            r.color == color,
    {
        Region { exterior, interiors, color }
    }
}

impl Clone for Region {
    fn clone(&self) -> (r: Self)
        ensures
            region_equiv(r, *self),
    {
        Region {
            exterior: self.exterior,
            interiors: self.interiors.clone(),
            color: self.color,
        }
    }
}

/// A plane, spanned by two axes from an origin.
#[derive(Clone, Copy, Debug)]
pub struct Surface {
    pub origin: Point3,
    pub u_axis: Vector3,
    pub v_axis: Vector3,
}

impl Surface {
    /// Construct a plane surface.
    pub fn new(origin: Point3, u_axis: Vector3, v_axis: Vector3) -> (r: Self)
        ensures
            r.origin == origin,
            r.u_axis == u_axis,
            r.v_axis == v_axis,
    {
        Surface { origin, u_axis, v_axis }
    }
}

/// A region placed on a surface.
#[derive(Clone, Copy, Debug)]
pub struct Face {
    pub surface: Handle<Surface>,
    pub region: Handle<Region>,
}

impl Face {
    /// Construct a face from a surface and a region.
    pub fn new(surface: Handle<Surface>, region: Handle<Region>) -> (r: Self)
        ensures
            r.surface == surface,
            r.region == region,
    {
        Face { surface, region }
    }
}

/// A watertight boundary of a solid, made of faces.
#[derive(Debug)]
pub struct Shell {
    pub faces: ObjectSet<Face>,
}

impl Shell {
    /// Construct a shell from its faces.
    pub fn new(faces: ObjectSet<Face>) -> (r: Self)
        ensures
            r.faces == faces,
    {
        Shell { faces }
    }
}

impl Clone for Shell {
    fn clone(&self) -> (r: Self)
        ensures
            shell_equiv(r, *self),
    {
        Shell { faces: self.faces.clone() }
    }
}

/// A volume bounded by shells.
#[derive(Debug)]
pub struct Solid {
    pub shells: ObjectSet<Shell>,
}

impl Solid {
    /// Construct a solid from its shells.
    pub fn new(shells: ObjectSet<Shell>) -> (r: Self)
        ensures
            r.shells == shells,
    {
        Solid { shells }
    }
}

impl Clone for Solid {
    fn clone(&self) -> (r: Self)
        ensures
            solid_equiv(r, *self),
    {
        Solid { shells: self.shells.clone() }
    }
}

/// Two-dimensional topology: a group of regions.
#[derive(Debug)]
pub struct Sketch {
    pub regions: ObjectSet<Region>,
}

impl Sketch {
    /// Construct a sketch from its regions.
    pub fn new(regions: ObjectSet<Region>) -> (r: Self)
        ensures
            r.regions == regions,
    {
        Sketch { regions }
    }
}

impl Clone for Sketch {
    fn clone(&self) -> (r: Self)
        ensures
            sketch_equiv(r, *self),
    {
        Sketch { regions: self.regions.clone() }
    }
}

/// Whether two cycles have the same content.
pub open spec fn cycle_equiv(a: Cycle, b: Cycle) -> bool {
    a.half_edges@ == b.half_edges@
}

/// Whether two regions have the same content.
pub open spec fn region_equiv(a: Region, b: Region) -> bool {
    &&& a.exterior == b.exterior
    &&& a.interiors@ == b.interiors@
    &&& a.color == b.color
}

/// Whether two shells have the same content.
pub open spec fn shell_equiv(a: Shell, b: Shell) -> bool {
    a.faces@ == b.faces@
}

/// Whether two solids have the same content.
pub open spec fn solid_equiv(a: Solid, b: Solid) -> bool {
    a.shells@ == b.shells@
}

/// Whether two sketches have the same content.
pub open spec fn sketch_equiv(a: Sketch, b: Sketch) -> bool {
    a.regions@ == b.regions@
}

} // verus!
