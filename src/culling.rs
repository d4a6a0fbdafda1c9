//! The frustum culling stage: a conservative test of each drawable's
//! bounding box, transformed by its world matrix, against six planes, and the
//! per-mesh count of visible drawables.
use vstd::prelude::*;
use crate::drawable::{Drawable, MAX_DRAWABLES};
use crate::matrix::{
    dot, dot_product, float_is_negative, is_nan, is_negative, matrix_vector_product, negate, negated,
    transform_vector, Matrix, ONE_BITS,
};

verus! {

/// A plane `normal . p + distance = 0`; points with a negative left-hand side
/// lie outside. Components are float bit patterns.
#[derive(Clone, Copy, Debug, PartialEq, Eq)]
pub struct Plane {
    pub normal: [u32; 3],
    pub distance: u32,
}

impl Plane {
    /// The plane's coefficients as one 4-vector.
    pub open spec fn coefficients(self) -> Seq<u32> {
        seq![self.normal[0], self.normal[1], self.normal[2], self.distance]
    }

    pub fn new(normal: [u32; 3], distance: u32) -> (r: Plane)
        ensures
            r.normal == normal,
            r.distance == distance,
    {
        Plane { normal, distance }
    }

    /// The same plane facing the other way.
    pub fn flip(&self) -> (r: Plane)
        ensures
            r.normal@ == seq![negated(self.normal[0]), negated(self.normal[1]), negated(self.normal[2])],
            r.distance == negated(self.distance),
    {
        let r = Plane {
            normal: [negate(self.normal[0]), negate(self.normal[1]), negate(self.normal[2])],
            distance: negate(self.distance),
        };
        assert(r.normal@ =~= seq![negated(self.normal[0]), negated(self.normal[1]), negated(self.normal[2])]);
        r
    }

    fn coefficients_exec(&self) -> (r: [u32; 4])
        ensures
            r@ == self.coefficients(),
    {
        let r = [self.normal[0], self.normal[1], self.normal[2], self.distance];
        assert(r@ =~= self.coefficients());
        r
    }
}

/// Six inward-facing planes: left, right, bottom, top, near, far.
#[derive(Clone, Copy, Debug, PartialEq, Eq)]
pub struct Frustum {
    pub planes: [Plane; 6],
}

/// One row of the mesh table: where the mesh lies in the shared index and
/// vertex buffers, and its bounding box in local space.
#[derive(Clone, Copy, Debug, PartialEq, Eq)]
pub struct MeshInfo {
    pub index_count: u32,
    pub first_index: u32,
    pub vertex_offset: i32,
    pub aabb_min: [u32; 3],
    pub aabb_max: [u32; 3],
}

/// Corner `k` (0 to 7) of the mesh's box in homogeneous coordinates: bit 0
/// of `k` picks the x bound, bit 1 the y bound, bit 2 the z bound.
pub open spec fn corner(mesh: MeshInfo, k: int) -> Seq<u32> {
    seq![
        if k % 2 == 0 { mesh.aabb_min[0] } else { mesh.aabb_max[0] },
        if (k / 2) % 2 == 0 { mesh.aabb_min[1] } else { mesh.aabb_max[1] },
        if (k / 4) % 2 == 0 { mesh.aabb_min[2] } else { mesh.aabb_max[2] },
        ONE_BITS,
    ]
}

/// Corner `k` of the box, moved by `world`, lies outside `plane`.
pub open spec fn corner_outside(plane: Plane, world: Seq<u32>, mesh: MeshInfo, k: int) -> bool {
    is_negative(dot_product(plane.coefficients(), matrix_vector_product(world, corner(mesh, k))))
}

/// Every corner of the moved box lies outside `plane`.
pub open spec fn plane_rejects(plane: Plane, world: Seq<u32>, mesh: MeshInfo) -> bool {
    forall|k: int| 0 <= k < 8 ==> corner_outside(plane, world, mesh, k)
}

/// Two float bit patterns hold the same number: equal and not NaN, or both
/// zeros of either sign.
pub open spec fn same_value(a: u32, b: u32) -> bool {
    (a == b && !is_nan(a)) || (a % 0x8000_0000u32 == 0 && b % 0x8000_0000u32 == 0)
}

fn same_value_exec(a: u32, b: u32) -> (r: bool)
    ensures
        r == same_value(a, b),
{
    (a == b && a % 0x8000_0000u32 <= 0x7f80_0000u32) || (a % 0x8000_0000u32 == 0 && b % 0x8000_0000u32 == 0)
}

/// The box has zero extent along at least one axis: a point, a segment or a
/// flat quad. Such a box is never culled.
pub open spec fn is_degenerate(mesh: MeshInfo) -> bool {
    same_value(mesh.aabb_min[0], mesh.aabb_max[0]) || same_value(mesh.aabb_min[1], mesh.aabb_max[1])
        || same_value(mesh.aabb_min[2], mesh.aabb_max[2])
}

/// A drawable is visible unless one plane rejects every corner of its box;
/// a degenerate box is always visible.
pub open spec fn is_visible(frustum: Frustum, world: Seq<u32>, mesh: MeshInfo) -> bool {
    is_degenerate(mesh) || !exists|p: int| 0 <= p < 6 && plane_rejects(frustum.planes[p], world, mesh)
}

/// No corner of the moved box lies outside any plane.
pub open spec fn fully_inside(frustum: Frustum, world: Seq<u32>, mesh: MeshInfo) -> bool {
    forall|p: int, k: int| 0 <= p < 6 && 0 <= k < 8 ==> !corner_outside(frustum.planes[p], world, mesh, k)
}

fn corner_exec(mesh: &MeshInfo, k: usize) -> (r: [u32; 4])
    requires
        k < 8,
    ensures
        r@ == corner(*mesh, k as int),
{
    let x = if k % 2 == 0 { mesh.aabb_min[0] } else { mesh.aabb_max[0] };
    let y = if (k / 2) % 2 == 0 { mesh.aabb_min[1] } else { mesh.aabb_max[1] };
    let z = if (k / 4) % 2 == 0 { mesh.aabb_min[2] } else { mesh.aabb_max[2] };
    let r = [x, y, z, ONE_BITS];
    assert(r@ =~= corner(*mesh, k as int));
    r
}

fn degenerate_exec(mesh: &MeshInfo) -> (r: bool)
    ensures
        r == is_degenerate(*mesh),
{
    same_value_exec(mesh.aabb_min[0], mesh.aabb_max[0]) || same_value_exec(mesh.aabb_min[1], mesh.aabb_max[1])
        || same_value_exec(mesh.aabb_min[2], mesh.aabb_max[2])
}

/// Whether every corner of the box, moved by `world`, lies outside `plane`.
fn rejects(plane: &Plane, world: &Matrix, mesh: &MeshInfo) -> (r: bool)
    ensures
        r == plane_rejects(*plane, world@, *mesh),
{
    let coefficients = plane.coefficients_exec();
    let mut k: usize = 0;
    while k < 8
        invariant
            k <= 8,
            coefficients@ == plane.coefficients(),
            forall|c: int| 0 <= c < k ==> corner_outside(*plane, world@, *mesh, c),
        decreases 8 - k,
    {
        let point = transform_vector(world, &corner_exec(mesh, k));
        if !float_is_negative(dot(&coefficients, &point)) {
            assert(!corner_outside(*plane, world@, *mesh, k as int));
            return false;
        }
        k += 1;
    }
    true
}

/// The culling test of one drawable: visible unless one plane rejects every
/// corner of its mesh's box moved by `world`; a degenerate box is visible.
pub fn cull_drawable(frustum: &Frustum, world: &Matrix, mesh: &MeshInfo) -> (r: bool)
    ensures
        r == is_visible(*frustum, world@, *mesh),
{
    if degenerate_exec(mesh) {
        return true;
    }
    let mut p: usize = 0;
    while p < 6
        invariant
            p <= 6,
            !is_degenerate(*mesh),
            forall|q: int| 0 <= q < p ==> !plane_rejects(frustum.planes[q], world@, *mesh),
        decreases 6 - p,
    {
        if rejects(&frustum.planes[p], world, mesh) {
            assert(plane_rejects(frustum.planes[p as int], world@, *mesh));
            assert(exists|q: int| 0 <= q < 6 && plane_rejects(frustum.planes[q], world@, *mesh));
            return false;
        }
        p += 1;
    }
    true
}

/// The culling test never drops a drawable whose box lies wholly inside the
/// frustum, never drops one whose box has zero extent along some axis, and
/// always drops any other whose box lies wholly outside one plane.
pub proof fn lemma_culling_is_conservative(frustum: Frustum, world: Seq<u32>, mesh: MeshInfo)
    ensures
        fully_inside(frustum, world, mesh) ==> is_visible(frustum, world, mesh),
        is_degenerate(mesh) ==> is_visible(frustum, world, mesh),
        (!is_degenerate(mesh) && exists|p: int| 0 <= p < 6 && plane_rejects(frustum.planes[p], world, mesh))
            ==> !is_visible(frustum, world, mesh),
{
    if fully_inside(frustum, world, mesh) {
        assert forall|p: int| 0 <= p < 6 implies !plane_rejects(frustum.planes[p], world, mesh) by {
            assert(!corner_outside(frustum.planes[p], world, mesh, 0));
        }
    }
}

/// The frustum as the culling stage's uniform buffer holds it: one
/// `(normal, distance)` 4-vector per plane.
#[derive(Clone, Copy, Debug, PartialEq, Eq)]
pub struct GpuFrustum {
    pub planes: [[u32; 4]; 6],
}

impl GpuFrustum {
    pub fn from_frustum(frustum: &Frustum) -> (r: GpuFrustum)
        ensures
            forall|p: int| 0 <= p < 6 ==> (#[trigger] r.planes[p])@ == frustum.planes[p].coefficients(),
    {
        let r = GpuFrustum {
            planes: [
                frustum.planes[0].coefficients_exec(),
                frustum.planes[1].coefficients_exec(),
                frustum.planes[2].coefficients_exec(),
                frustum.planes[3].coefficients_exec(),
                frustum.planes[4].coefficients_exec(),
                frustum.planes[5].coefficients_exec(),
            ],
        };
        assert forall|p: int| 0 <= p < 6 implies (#[trigger] r.planes[p])@ == frustum.planes[p].coefficients() by {
            if p == 0 {} else if p == 1 {} else if p == 2 {} else if p == 3 {} else if p == 4 {} else {}
        }
        r
    }
}

} // verus!
