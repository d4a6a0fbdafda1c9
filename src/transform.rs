//! A per-object transform with a cached local matrix, a world matrix set by
//! the scene graph, and the dirty flags that say which cache is stale.
use vstd::prelude::*;
use crate::matrix::{
    add_vectors, compose_trs, identity_bits, invert, matrix_inverse, multiply_quaternions,
    quaternion_product, transpose, transposed, trs_matrix, vector_sum, Matrix, ONE_BITS,
};

verus! {

/// Translation, rotation and uniform scale of an object, with its cached
/// local and world matrices.
///
/// Vectors, the quaternion and the scale are held as the bit patterns of
/// their single-precision components.
#[derive(Clone, Copy, Debug)]
pub struct Transform {
    translation: [u32; 3],
    rotation: [u32; 4],
    scale: u32,
    local_matrix: Matrix,
    world_matrix: Matrix,
    inverse_transpose_world_matrix: Matrix,
    local_dirty: bool,
    world_dirty: bool,
    changed: bool,
}

/// What a transform holds, as mathematical values.
pub struct TransformView {
    pub translation: Seq<u32>,
    pub rotation: Seq<u32>,
    pub scale: u32,
    pub local_matrix: Seq<u32>,
    pub world_matrix: Seq<u32>,
    /// The transpose of the world matrix's inverse, for transforming normals.
    pub inverse_transpose_world_matrix: Seq<u32>,
    pub local_dirty: bool,
    pub world_dirty: bool,
    pub changed: bool,
}

impl TransformView {
    /// The local matrix that the translation, rotation and scale define.
    pub open spec fn local_spec(self) -> Seq<u32> {
        trs_matrix(self.scale, self.rotation, self.translation)
    }

    /// `self` and `other` have the same translation, rotation and scale.
    pub open spec fn same_source(self, other: TransformView) -> bool {
        &&& self.translation == other.translation
        &&& self.rotation == other.rotation
        &&& self.scale == other.scale
    }

    /// A clean local cache matches the fields, and a stale local matrix
    /// makes the world matrix stale too.
    pub open spec fn wf(self) -> bool {
        &&& !self.local_dirty ==> self.local_matrix == self.local_spec()
        &&& self.local_dirty ==> self.world_dirty
    }
}

impl View for Transform {
    type V = TransformView;

    closed spec fn view(&self) -> TransformView {
        TransformView {
            translation: self.translation@,
            rotation: self.rotation@,
            scale: self.scale,
            local_matrix: self.local_matrix@,
            world_matrix: self.world_matrix@,
            inverse_transpose_world_matrix: self.inverse_transpose_world_matrix@,
            local_dirty: self.local_dirty,
            world_dirty: self.world_dirty,
            changed: self.changed,
        }
    }
}

impl Transform {
    /// A transform at `translation` with no rotation and unit scale; both
    /// matrices start stale.
    pub fn from_translation(translation: [u32; 3]) -> (r: Transform)
        ensures
            r@.wf(),
            r@.translation == translation@,
            r@.rotation == seq![0u32, 0u32, 0u32, ONE_BITS],
            r@.scale == ONE_BITS,
            r@.local_dirty,
            r@.world_dirty,
            r@.changed,
            r@.world_matrix == identity_bits(),
            r@.inverse_transpose_world_matrix == identity_bits(),
    {
        let r = Transform {
            translation,
            rotation: [0, 0, 0, ONE_BITS],
            scale: ONE_BITS,
            local_matrix: Matrix::identity(),
            world_matrix: Matrix::identity(),
            inverse_transpose_world_matrix: Matrix::identity(),
            local_dirty: true,
            world_dirty: true,
            changed: true,
        };
        assert(r.rotation@ =~= seq![0u32, 0u32, 0u32, ONE_BITS]);
        r
    }

    /// The local matrix, recomputed from translation, rotation and scale when
    /// the cache is stale; a recomputation marks the world matrix stale.
    pub fn get_local_matrix(&mut self) -> (r: Matrix)
        requires
            old(self)@.wf(),
        ensures
            r@ == old(self)@.local_spec(),
            final(self)@ == (TransformView {
                local_matrix: r@,
                local_dirty: false,
                world_dirty: old(self)@.world_dirty || old(self)@.local_dirty,
                ..old(self)@
            }),
            final(self)@.wf(),
    {
        if self.local_dirty {
            self.local_matrix = compose_trs(self.scale, &self.rotation, &self.translation);
            self.local_dirty = false;
            self.invalidate_world();
        }
        self.local_matrix
    }

    /// The world matrix last set by the scene graph; reading it while stale
    /// is not allowed.
    pub fn get_world_matrix(&self) -> (r: Matrix)
        requires
            !self@.world_dirty,
        ensures
            r@ == self@.world_matrix,
    {
        self.world_matrix
    }

    /// Stores the world matrix computed by propagation, with the transpose of
    /// its inverse, and marks it fresh and changed this frame.
    pub fn set_world_matrix(&mut self, world_matrix: Matrix)
        ensures
            final(self)@ == (TransformView {
                world_matrix: world_matrix@,
                inverse_transpose_world_matrix: transposed(matrix_inverse(world_matrix@)),
                world_dirty: false,
                changed: true,
                ..old(self)@
            }),
            old(self)@.wf() && !old(self)@.local_dirty ==> final(self)@.wf(),
    {
        self.world_matrix = world_matrix;
        self.inverse_transpose_world_matrix = transpose(&invert(&world_matrix));
        self.world_dirty = false;
        self.changed = true;
    }

    /// The transpose of the world matrix's inverse; reading it while stale is
    /// not allowed.
    pub fn get_inverse_transpose_world_matrix(&self) -> (r: Matrix)
        requires
            !self@.world_dirty,
        ensures
            r@ == self@.inverse_transpose_world_matrix,
    {
        self.inverse_transpose_world_matrix
    }

    /// Marks the local matrix stale, and with it the world matrix.
    pub fn invalidate_local(&mut self)
        ensures
            final(self)@ == (TransformView {
                local_dirty: true,
                world_dirty: true,
                changed: true,
                ..old(self)@
            }),
            final(self)@.wf(),
    {
        self.local_dirty = true;
        self.world_dirty = true;
        self.changed = true;
    }

    /// Marks the world matrix stale.
    pub fn invalidate_world(&mut self)
        ensures
            final(self)@ == (TransformView { world_dirty: true, ..old(self)@ }),
            old(self)@.wf() ==> final(self)@.wf(),
    {
        self.world_dirty = true;
    }

    pub fn is_world_dirty(&self) -> (r: bool)
        ensures
            r == self@.world_dirty,
    {
        self.world_dirty
    }

    pub fn set_rotation(&mut self, rotation: [u32; 4])
        ensures
            final(self)@ == (TransformView {
                rotation: rotation@,
                local_dirty: true,
                world_dirty: true,
                changed: true,
                ..old(self)@
            }),
            final(self)@.wf(),
    {
        self.rotation = rotation;
        self.invalidate_local();
    }

    pub fn set_translation(&mut self, translation: [u32; 3])
        ensures
            final(self)@ == (TransformView {
                translation: translation@,
                local_dirty: true,
                world_dirty: true,
                changed: true,
                ..old(self)@
            }),
            final(self)@.wf(),
    {
        self.translation = translation;
        self.invalidate_local();
    }

    pub fn set_scale(&mut self, scale: u32)
        ensures
            final(self)@ == (TransformView {
                scale,
                local_dirty: true,
                world_dirty: true,
                changed: true,
                ..old(self)@
            }),
            final(self)@.wf(),
    {
        self.scale = scale;
        self.invalidate_local();
    }

    /// Moves the translation by `delta`.
    pub fn translate(&mut self, delta: [u32; 3])
        ensures
            final(self)@ == (TransformView {
                translation: vector_sum(old(self)@.translation, delta@),
                local_dirty: true,
                world_dirty: true,
                changed: true,
                ..old(self)@
            }),
            final(self)@.wf(),
    {
        self.translation = add_vectors(&self.translation, &delta);
        self.invalidate_local();
    }

    /// Applies `rotation` before the current rotation.
    pub fn rotate(&mut self, rotation: [u32; 4])
        ensures
            final(self)@ == (TransformView {
                rotation: quaternion_product(old(self)@.rotation, rotation@),
                local_dirty: true,
                world_dirty: true,
                changed: true,
                ..old(self)@
            }),
            final(self)@.wf(),
    {
        self.rotation = multiply_quaternions(&self.rotation, &rotation);
        self.invalidate_local();
    }

    pub fn set_transform(&mut self, translation: [u32; 3], rotation: [u32; 4], scale: u32)
        ensures
            final(self)@ == (TransformView {
                translation: translation@,
                rotation: rotation@,
                scale,
                local_dirty: true,
                world_dirty: true,
                changed: true,
                ..old(self)@
            }),
            final(self)@.wf(),
    {
        self.translation = translation;
        self.rotation = rotation;
        self.scale = scale;
        self.invalidate_local();
    }

    pub fn translation(&self) -> (r: [u32; 3])
        ensures
            r@ == self@.translation,
    {
        self.translation
    }

    pub fn rotation(&self) -> (r: [u32; 4])
        ensures
            r@ == self@.rotation,
    {
        self.rotation
    }

    pub fn scale(&self) -> (r: u32)
        ensures
            r == self@.scale,
    {
        self.scale
    }

    /// Clears the "changed since last frame" flag.
    pub fn reset_flags(&mut self)
        ensures
            final(self)@ == (TransformView { changed: false, ..old(self)@ }),
            old(self)@.wf() ==> final(self)@.wf(),
    {
        self.changed = false;
    }

    pub fn has_changed(&self) -> (r: bool)
        ensures
            r == self@.changed,
    {
        self.changed
    }
}

} // verus!
