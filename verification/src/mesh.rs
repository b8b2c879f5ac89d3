//! Triangle meshes: vertex positions, indexed faces, and the per-mesh
//! rotation and translation state from which the model matrix is built.

use vstd::prelude::*;
use crate::fixed::sat;
use crate::vector::{Vector3, bounded};
use crate::matrix::{Matrix4, Angle, angle_wf, spec_angle_add, spec_rot, spec_rot_and_translate};

verus! {

/// A byte-triple color.
#[derive(Clone, Copy, PartialEq, Eq, Structural, Debug)]
pub struct Color3 {
    pub r: u8,
    pub g: u8,
    pub b: u8,
}

pub struct Vertex {
    pub pt: Vector3,
    pub color: Option<Color3>,
}

/// Three indices into the owning mesh's vertex buffer.
pub struct Face {
    pub a: usize,
    pub b: usize,
    pub c: usize,
    pub color: Option<Color3>,
}

pub struct Mesh {
    pub vertices: Vec<Vertex>,
    pub faces: Vec<Face>,
    pub rot_o: Vector3,
    pub rot_x: Angle,
    pub rot_y: Angle,
    pub rot_z: Angle,
    pub translation: Vector3,
}

/// Every face indexes existing vertices, every vertex lies in the working
/// band, and the pose state is well-formed.  Established at load time and
/// preserved by every mutation.
pub open spec fn mesh_wf(m: Mesh) -> bool {
    &&& forall|i: int|
        0 <= i < m.faces@.len() ==> {
            &&& (#[trigger] m.faces@[i]).a < m.vertices@.len()
            &&& m.faces@[i].b < m.vertices@.len()
            &&& m.faces@[i].c < m.vertices@.len()
        }
    &&& forall|i: int| 0 <= i < m.vertices@.len() ==> bounded((#[trigger] m.vertices@[i]).pt)
    &&& bounded(m.rot_o)
    &&& bounded(m.translation)
    &&& angle_wf(m.rot_x)
    &&& angle_wf(m.rot_y)
    &&& angle_wf(m.rot_z)
}

impl Mesh {
    /// An empty mesh with no rotation and no translation.
    pub fn new() -> (r: Mesh)
        ensures
            r.vertices@.len() == 0,
            r.faces@.len() == 0,
            r.rot_o.x == 0 && r.rot_o.y == 0 && r.rot_o.z == 0,
            r.translation.x == 0 && r.translation.y == 0 && r.translation.z == 0,
            r.rot_x == (Angle { sin: 0i64, cos: crate::fixed::SCALE }),
            r.rot_y == (Angle { sin: 0i64, cos: crate::fixed::SCALE }),
            r.rot_z == (Angle { sin: 0i64, cos: crate::fixed::SCALE }),
            mesh_wf(r),
    {
        Mesh {
            vertices: Vec::new(),
            faces: Vec::new(),
            rot_o: Vector3::zero(),
            rot_x: Angle::zero(),
            rot_y: Angle::zero(),
            rot_z: Angle::zero(),
            translation: Vector3::zero(),
        }
    }

    /// Accumulates a rotation around the first axis.
    pub fn rot_x(&mut self, theta: Angle)
        requires
            mesh_wf(*old(self)),
            angle_wf(theta),
        ensures
            final(self).rot_x == spec_angle_add(old(self).rot_x, theta),
            final(self).rot_y == old(self).rot_y && final(self).rot_z == old(self).rot_z,
            final(self).vertices == old(self).vertices,
            final(self).faces == old(self).faces,
            final(self).rot_o == old(self).rot_o,
            final(self).translation == old(self).translation,
            mesh_wf(*final(self)),
    {
        self.rot_x = self.rot_x.add(&theta);
    }

    /// Accumulates a rotation around the second axis.
    pub fn rot_y(&mut self, theta: Angle)
        requires
            mesh_wf(*old(self)),
            angle_wf(theta),
        ensures
            final(self).rot_y == spec_angle_add(old(self).rot_y, theta),
            final(self).rot_x == old(self).rot_x && final(self).rot_z == old(self).rot_z,
            final(self).vertices == old(self).vertices,
            final(self).faces == old(self).faces,
            final(self).rot_o == old(self).rot_o,
            final(self).translation == old(self).translation,
            mesh_wf(*final(self)),
    {
        self.rot_y = self.rot_y.add(&theta);
    }

    /// Accumulates a rotation around the third axis.
    pub fn rot_z(&mut self, theta: Angle)
        requires
            mesh_wf(*old(self)),
            angle_wf(theta),
        ensures
            final(self).rot_z == spec_angle_add(old(self).rot_z, theta),
            final(self).rot_x == old(self).rot_x && final(self).rot_y == old(self).rot_y,
            final(self).vertices == old(self).vertices,
            final(self).faces == old(self).faces,
            final(self).rot_o == old(self).rot_o,
            final(self).translation == old(self).translation,
            mesh_wf(*final(self)),
    {
        self.rot_z = self.rot_z.add(&theta);
    }

    /// Sets the rotation origin.
    pub fn set_rot_origin(&mut self, o: Vector3)
        requires
            mesh_wf(*old(self)),
            bounded(o),
        ensures
            final(self).rot_o == o,
            final(self).rot_x == old(self).rot_x && final(self).rot_y == old(self).rot_y,
            final(self).rot_z == old(self).rot_z,
            final(self).vertices == old(self).vertices,
            final(self).faces == old(self).faces,
            final(self).translation == old(self).translation,
            mesh_wf(*final(self)),
    {
        self.rot_o = o;
    }

    /// Sets the translation.
    pub fn set_translation(&mut self, t: Vector3)
        requires
            mesh_wf(*old(self)),
            bounded(t),
        ensures
            final(self).translation == t,
            final(self).rot_x == old(self).rot_x && final(self).rot_y == old(self).rot_y,
            final(self).rot_z == old(self).rot_z,
            final(self).vertices == old(self).vertices,
            final(self).faces == old(self).faces,
            final(self).rot_o == old(self).rot_o,
            mesh_wf(*final(self)),
    {
        self.translation = t;
    }

    /// Moves the mesh by a vector, each component saturated.
    pub fn translate(&mut self, t: Vector3)
        requires
            mesh_wf(*old(self)),
            bounded(t),
        ensures
            final(self).translation.x as int == sat(old(self).translation.x + t.x),
            final(self).translation.y as int == sat(old(self).translation.y + t.y),
            final(self).translation.z as int == sat(old(self).translation.z + t.z),
            final(self).rot_x == old(self).rot_x && final(self).rot_y == old(self).rot_y,
            final(self).rot_z == old(self).rot_z,
            final(self).vertices == old(self).vertices,
            final(self).faces == old(self).faces,
            final(self).rot_o == old(self).rot_o,
            mesh_wf(*final(self)),
    {
        self.translation = self.translation.add(&t);
    }

    /// The rotation part of the model matrix.
    pub fn get_rotation_mat(&self) -> (r: Matrix4)
        requires
            mesh_wf(*self),
        ensures
            r == spec_rot(self.rot_x, self.rot_y, self.rot_z),
            crate::matrix::m_bounded(r),
    {
        Matrix4::rot(self.rot_x, self.rot_y, self.rot_z)
    }

    /// The model matrix: the composed rotation with the translation in its
    /// last column.
    pub fn get_mat(&self) -> (r: Matrix4)
        requires
            mesh_wf(*self),
        ensures
            r == spec_rot_and_translate(self.rot_x, self.rot_y, self.rot_z, self.translation),
            crate::matrix::m_bounded(r),
    {
        Matrix4::rot_and_translate(self.rot_x, self.rot_y, self.rot_z, self.translation)
    }
}

} // verus!
