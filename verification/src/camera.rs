//! The camera: a world position, three accumulated Euler angles, the near
//! and far planes, and the field-of-view scale used by the projection.
//!
//! The view matrix is recomputed from the current state at every query;
//! nothing derived is cached.

use vstd::prelude::*;
use crate::fixed::{SCALE, inb, sat};
use crate::vector::{Vector3, bounded, view3, norm3};
use crate::matrix::{
    Matrix4, Angle, angle_wf, spec_angle_add, spec_rot_and_translate, spec_transform,
};

verus! {

pub struct Camera {
    pub translation: Vector3,
    pub near: i64,
    pub far: i64,
    pub fov_scale: i64,
    pub rot_x: Angle,
    pub rot_y: Angle,
    pub rot_z: Angle,
}

/// Every scalar of the camera lies in its band.
pub open spec fn cam_wf(c: Camera) -> bool {
    &&& bounded(c.translation)
    &&& inb(c.near as int)
    &&& inb(c.far as int)
    &&& inb(c.fov_scale as int)
    &&& angle_wf(c.rot_x)
    &&& angle_wf(c.rot_y)
    &&& angle_wf(c.rot_z)
}

/// The world-to-camera matrix of a camera state.
pub open spec fn spec_cam_mat(c: Camera) -> Matrix4 {
    spec_rot_and_translate(c.rot_x, c.rot_y, c.rot_z, c.translation)
}

/// The local forward axis (unit third coordinate) pushed through the view
/// matrix, before normalization.
pub open spec fn spec_cam_forward(c: Camera) -> (int, int, int) {
    let (px, py, pz, _w) = spec_transform(spec_cam_mat(c), Vector3 { x: 0, y: 0, z: SCALE });
    (px, py, pz)
}

/// The forward query is defined when the pushed axis is not the zero
/// vector (a translation exactly cancelling the rotated axis leaves no
/// direction to normalize).
pub open spec fn direction_defined(c: Camera) -> bool {
    spec_cam_forward(c) != (0int, 0int, 0int)
}

impl Camera {
    /// A camera at the origin, unrotated, with a tenth of a unit to the
    /// near plane, twenty units to the far plane, and a right-angle field
    /// of view (whose half-angle tangent is one).
    pub fn new() -> (r: Camera)
        ensures
            r.translation.x == 0 && r.translation.y == 0 && r.translation.z == 0,
            r.rot_x == (Angle { sin: 0i64, cos: SCALE }),
            r.rot_y == (Angle { sin: 0i64, cos: SCALE }),
            r.rot_z == (Angle { sin: 0i64, cos: SCALE }),
            r.near == 6554i64,
            r.far as int == 20 * SCALE,
            r.fov_scale == SCALE,
            cam_wf(r),
    {
        Camera {
            translation: Vector3::zero(),
            rot_x: Angle::zero(),
            rot_y: Angle::zero(),
            rot_z: Angle::zero(),
            near: 6554,
            far: 20 * SCALE,
            fov_scale: SCALE,
        }
    }

    /// Accumulates a rotation around the first axis.
    pub fn rot_x(&mut self, t: Angle)
        requires
            cam_wf(*old(self)),
            angle_wf(t),
        ensures
            final(self).rot_x == spec_angle_add(old(self).rot_x, t),
            final(self).rot_y == old(self).rot_y && final(self).rot_z == old(self).rot_z,
            final(self).translation == old(self).translation,
            final(self).near == old(self).near && final(self).far == old(self).far,
            final(self).fov_scale == old(self).fov_scale,
            cam_wf(*final(self)),
    {
        self.rot_x = self.rot_x.add(&t);
    }

    /// Accumulates a rotation around the second axis.
    pub fn rot_y(&mut self, t: Angle)
        requires
            cam_wf(*old(self)),
            angle_wf(t),
        ensures
            final(self).rot_y == spec_angle_add(old(self).rot_y, t),
            final(self).rot_x == old(self).rot_x && final(self).rot_z == old(self).rot_z,
            final(self).translation == old(self).translation,
            final(self).near == old(self).near && final(self).far == old(self).far,
            final(self).fov_scale == old(self).fov_scale,
            cam_wf(*final(self)),
    {
        self.rot_y = self.rot_y.add(&t);
    }

    /// Accumulates a rotation around the third axis.
    pub fn rot_z(&mut self, t: Angle)
        requires
            cam_wf(*old(self)),
            angle_wf(t),
        ensures
            final(self).rot_z == spec_angle_add(old(self).rot_z, t),
            final(self).rot_x == old(self).rot_x && final(self).rot_y == old(self).rot_y,
            final(self).translation == old(self).translation,
            final(self).near == old(self).near && final(self).far == old(self).far,
            final(self).fov_scale == old(self).fov_scale,
            cam_wf(*final(self)),
    {
        self.rot_z = self.rot_z.add(&t);
    }

    /// Moves the camera by a vector, each component saturated.
    pub fn translate(&mut self, vec: Vector3)
        requires
            cam_wf(*old(self)),
            bounded(vec),
        ensures
            final(self).translation.x as int == sat(old(self).translation.x + vec.x),
            final(self).translation.y as int == sat(old(self).translation.y + vec.y),
            final(self).translation.z as int == sat(old(self).translation.z + vec.z),
            final(self).rot_x == old(self).rot_x && final(self).rot_y == old(self).rot_y,
            final(self).rot_z == old(self).rot_z,
            final(self).near == old(self).near && final(self).far == old(self).far,
            final(self).fov_scale == old(self).fov_scale,
            cam_wf(*final(self)),
    {
        self.translation = self.translation.add(&vec);
    }

    /// The normalized forward direction: the local forward axis pushed
    /// through the view matrix.
    pub fn get_direction(&self) -> (r: Vector3)
        requires
            cam_wf(*self),
            direction_defined(*self),
        ensures
            ({
                let (px, py, pz) = spec_cam_forward(*self);
                view3(r) == norm3(px, py, pz)
            }),
            bounded(r),
    {
        let m = self.get_mat();
        let (v, _w) = m.transform_point(&Vector3 { x: 0, y: 0, z: SCALE });
        v.normalize()
    }

    /// The world-to-camera matrix, rebuilt from the current state.
    pub fn get_mat(&self) -> (r: Matrix4)
        requires
            cam_wf(*self),
        ensures
            r == spec_cam_mat(*self),
            crate::matrix::m_bounded(r),
    {
        Matrix4::rot_and_translate(self.rot_x, self.rot_y, self.rot_z, self.translation)
    }
}

} // verus!
