//! Integer points, rectangles and affine transforms in texel or tile space.

use vstd::prelude::*;

verus! {

/// A point or a size with integer coordinates.
#[derive(Clone, Copy, PartialEq, Eq, Hash, Debug, Default)]
pub struct Vector2I {
    pub x: i32,
    pub y: i32,
}

impl Vector2I {
    pub fn new(x: i32, y: i32) -> (v: Vector2I)
        ensures
            v.x == x && v.y == y,
    {
        Vector2I { x, y }
    }
}

/// An axis-aligned rectangle: its top-left corner and its size.
#[derive(Clone, Copy, PartialEq, Eq, Hash, Debug, Default)]
pub struct RectI {
    pub origin: Vector2I,
    pub size: Vector2I,
}

impl RectI {
    pub fn new(origin: Vector2I, size: Vector2I) -> (r: RectI)
        ensures
            r.origin == origin && r.size == size,
    {
        RectI { origin, size }
    }
}

/// An affine transform: the 2x2 matrix `[m11 m12; m21 m22]` and a
/// translation.
#[derive(Clone, Copy, PartialEq, Eq, Hash, Debug, Default)]
pub struct Transform2I {
    pub m11: i32,
    pub m12: i32,
    pub m21: i32,
    pub m22: i32,
    pub vector: Vector2I,
}

} // verus!
