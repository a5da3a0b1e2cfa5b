//! Plain geometric carrier types.
//!
//! The core treats geometry as opaque value data: positions and translation
//! paths are integer coordinate triples, and surfaces are planes spanned by
//! two axes. All numeric discretization beyond straight lines lives outside
//! this core.

use vstd::prelude::*;

verus! {

/// A position in space, as integer coordinates.
#[derive(Clone, Copy, Debug, PartialEq, Eq, Structural)]
pub struct Point3 {
    pub x: i64,
    pub y: i64,
    pub z: i64,
}

/// A displacement in space, as integer coordinates.
#[derive(Clone, Copy, Debug, PartialEq, Eq, Structural)]
pub struct Vector3 {
    pub x: i64,
    pub y: i64,
    pub z: i64,
}

/// An RGBA color.
#[derive(Clone, Copy, Debug, PartialEq, Eq, Structural)]
pub struct Color {
    pub r: u8,
    pub g: u8,
    pub b: u8,
    pub a: u8,
}

/// Whether translating `p` by `v` stays within the coordinate range.
pub open spec fn translation_fits(p: Point3, v: Vector3) -> bool {
    &&& i64::MIN <= p.x + v.x <= i64::MAX
    &&& i64::MIN <= p.y + v.y <= i64::MAX
    &&& i64::MIN <= p.z + v.z <= i64::MAX
}

/// The point `p` translated by `v`.
pub open spec fn spec_translated(p: Point3, v: Vector3) -> Point3 {
    Point3 { x: (p.x + v.x) as i64, y: (p.y + v.y) as i64, z: (p.z + v.z) as i64 }
}

/// Translate a point by a displacement.
pub fn translate_point(p: Point3, v: Vector3) -> (r: Point3)
    requires
        translation_fits(p, v),
    ensures
        r == spec_translated(p, v),
{
    Point3 { x: p.x + v.x, y: p.y + v.y, z: p.z + v.z }
}

} // verus!
