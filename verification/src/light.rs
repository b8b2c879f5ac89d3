//! A directional light: one normalized direction, fixed at construction.

use vstd::prelude::*;
use crate::fixed::inb;
use crate::vector::{Vector3, bounded, view3, norm3};

verus! {

pub struct Light {
    pub dir: Vector3,
}

impl Light {
    /// A light shining along the given direction, normalized at
    /// construction.
    pub fn new(x: i64, y: i64, z: i64) -> (r: Light)
        requires
            inb(x as int),
            inb(y as int),
            inb(z as int),
            !(x == 0 && y == 0 && z == 0),
        ensures
            view3(r.dir) == norm3(x as int, y as int, z as int),
            bounded(r.dir),
    {
        let v = Vector3::new(x, y, z);
        Light { dir: v.normalize() }
    }
}

} // verus!
