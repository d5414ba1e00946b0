//! Fixed-point vectors. Every coordinate counts thousandths of a world unit, so that
//! positions and directions can be compared and added exactly.

use vstd::prelude::*;

verus! {

/// Thousandths in one world unit.
pub const UNIT: i32 = 1000;

/// The coordinate nearest to `v` that fits the coordinate type.
pub open spec fn clamp_coord(v: int) -> i32 {
    if v < i32::MIN as int {
        i32::MIN
    } else if v > i32::MAX as int {
        i32::MAX
    } else {
        v as i32
    }
}

/// Brings a wide intermediate result back into the coordinate range.
pub fn saturate(v: i64) -> (r: i32)
    ensures
        r == clamp_coord(v as int),
{
    if v < i32::MIN as i64 {
        i32::MIN
    } else if v > i32::MAX as i64 {
        i32::MAX
    } else {
        v as i32
    }
}

/// A direction or offset in the ground plane.
#[derive(Clone, Copy, Debug, PartialEq, Eq, Structural)]
pub struct Vec2 {
    pub x: i32,
    pub y: i32,
}

/// A position or direction in space.
#[derive(Clone, Copy, Debug, PartialEq, Eq, Structural)]
pub struct Vec3 {
    pub x: i32,
    pub y: i32,
    pub z: i32,
}

impl Vec2 {
    pub fn new(x: i32, y: i32) -> (v: Vec2)
        ensures
            v == (Vec2 { x, y }),
    {
        Vec2 { x, y }
    }
}

impl Vec3 {
    /// Whether two vectors agree in every coordinate.
    pub fn same(&self, other: &Vec3) -> (b: bool)
        ensures
            b == (*self == *other),
    {
        self.x == other.x && self.y == other.y && self.z == other.z
    }

    pub fn new(x: i32, y: i32, z: i32) -> (v: Vec3)
        ensures
            v == (Vec3 { x, y, z }),
    {
        Vec3 { x, y, z }
    }

    /// The origin.
    pub open spec fn spec_zero() -> Vec3 {
        Vec3 { x: 0, y: 0, z: 0 }
    }

    /// One unit along the negative z axis: straight ahead.
    pub open spec fn spec_neg_z() -> Vec3 {
        Vec3 { x: 0, y: 0, z: -1000i32 }
    }

    /// This point moved by whole world units along each axis, each coordinate
    /// stopping at the end of its range.
    pub open spec fn spec_offset_units(self, dx: int, dy: int, dz: int) -> Vec3 {
        Vec3 {
            x: clamp_coord(self.x + dx * 1000),
            y: clamp_coord(self.y + dy * 1000),
            z: clamp_coord(self.z + dz * 1000),
        }
    }

    #[verifier::when_used_as_spec(spec_zero)]
    pub fn zero() -> (v: Vec3)
        ensures
            v == Vec3::spec_zero(),
    {
        Vec3 { x: 0, y: 0, z: 0 }
    }

    #[verifier::when_used_as_spec(spec_neg_z)]
    pub fn neg_z() -> (v: Vec3)
        ensures
            v == Vec3::spec_neg_z(),
    {
        Vec3 { x: 0, y: 0, z: -UNIT }
    }

    /// Moves the point by whole world units.
    pub fn offset_units(self, dx: u8, dy: u8, dz: u8) -> (v: Vec3)
        ensures
            v == self.spec_offset_units(dx as int, dy as int, dz as int),
    {
        let x: i64 = self.x as i64 + (dx as i64) * 1000;
        let y: i64 = self.y as i64 + (dy as i64) * 1000;
        let z: i64 = self.z as i64 + (dz as i64) * 1000;
        Vec3 { x: saturate(x), y: saturate(y), z: saturate(z) }
    }
}

} // verus!
