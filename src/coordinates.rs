use vstd::prelude::*;
use crate::blocks::{Direction, dir_code};

verus! {

/// Moves the point `(x, y, z)` by `distance` along the axis of `d`, towards its sign.
pub open spec fn step(p: (int, int, int), d: Direction, distance: int) -> (int, int, int) {
    let axis = dir_code(d) / 2;
    let delta = if dir_code(d) % 2 == 1 { distance } else { -distance };
    if axis == 0 {
        (p.0 + delta, p.1, p.2)
    } else if axis == 1 {
        (p.0, p.1 + delta, p.2)
    } else {
        (p.0, p.1, p.2 + delta)
    }
}

/// A voxel position local to a chunk.
#[derive(Debug, Clone, Copy, PartialEq, Eq, Structural)]
pub struct Coordinates {
    x: i32,
    y: i32,
    z: i32,
}

impl View for Coordinates {
    type V = (int, int, int);

    closed spec fn view(&self) -> (int, int, int) {
        (self.x as int, self.y as int, self.z as int)
    }
}

impl Coordinates {
    pub fn new(x: i32, y: i32, z: i32) -> (r: Coordinates)
        ensures
            r@ == (x as int, y as int, z as int),
    {
        Coordinates { x, y, z }
    }

    /// The position `distance` voxels away along `direction`.
    pub fn go(&self, direction: Direction, distance: i32) -> (r: Coordinates)
        requires
            i32::MIN <= step(self@, direction, distance as int).0 <= i32::MAX,
            i32::MIN <= step(self@, direction, distance as int).1 <= i32::MAX,
            i32::MIN <= step(self@, direction, distance as int).2 <= i32::MAX,
            distance > i32::MIN,
        ensures
            r@ == step(self@, direction, distance as int),
    {
        let code = direction.code();
        let dimension = code / 2;
        let delta: i32 = if code & 1 == 1 { distance } else { -distance };
        assert(code & 1 == code % 2) by (bit_vector);
        if dimension == 0 {
            Coordinates { x: self.x + delta, y: self.y, z: self.z }
        } else if dimension == 1 {
            Coordinates { x: self.x, y: self.y + delta, z: self.z }
        } else {
            Coordinates { x: self.x, y: self.y, z: self.z + delta }
        }
    }

    pub fn x(&self) -> (r: i32)
        ensures
            r as int == self@.0,
    {
        self.x
    }

    pub fn y(&self) -> (r: i32)
        ensures
            r as int == self@.1,
    {
        self.y
    }

    pub fn z(&self) -> (r: i32)
        ensures
            r as int == self@.2,
    {
        self.z
    }
}

} // verus!
