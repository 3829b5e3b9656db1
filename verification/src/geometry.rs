use vstd::prelude::*;

verus! {

/// A 2D vector whose coordinates are carried as IEEE-754 single-precision
/// bit patterns (`f32::to_bits`). The library only moves positions around
/// and puts them on the wire, so it never needs their numeric value.
#[derive(Debug, Clone, Copy, PartialEq, Eq, Structural)]
pub struct Vec2 {
    pub x: u32,
    pub y: u32,
}

impl Vec2 {
    /// Builds a vector from the bit patterns of its two coordinates.
    pub fn new(x: u32, y: u32) -> (v: Vec2)
        ensures
            v.x == x,
            v.y == y,
    {
        Vec2 { x, y }
    }

    /// The zero vector; `0.0f32` has the all-zero bit pattern.
    pub fn zero() -> (v: Vec2)
        ensures
            v.x == 0,
            v.y == 0,
    {
        Vec2 { x: 0, y: 0 }
    }
}

/// A 3D translation carried as IEEE-754 single-precision bit patterns.
#[derive(Debug, Clone, Copy, PartialEq, Eq, Structural)]
pub struct Vec3 {
    pub x: u32,
    pub y: u32,
    pub z: u32,
}

impl Vec3 {
    /// Drops the `z` coordinate.
    pub fn truncate(&self) -> (v: Vec2)
        ensures
            v.x == self.x,
            v.y == self.y,
    {
        Vec2 { x: self.x, y: self.y }
    }

    /// Extends a 2D vector with the given `z` coordinate.
    pub fn extend(v: Vec2, z: u32) -> (r: Vec3)
        ensures
            r.x == v.x,
            r.y == v.y,
            r.z == z,
    {
        Vec3 { x: v.x, y: v.y, z }
    }
}

} // verus!
