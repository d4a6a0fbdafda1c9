//! Packs the geometry of every mesh primitive into shared vertex and index
//! buffers, and builds the mesh table that locates each primitive in them.
use vstd::prelude::*;
use crate::culling::MeshInfo;
use crate::drawable::{RenderError, MAX_MESHES};

verus! {

/// The geometry of one mesh primitive, with its bounding box in local space
/// (float bit patterns).
pub struct PrimitiveGeometry<V> {
    pub vertices: Vec<V>,
    pub indices: Vec<u32>,
    pub aabb_min: [u32; 3],
    pub aabb_max: [u32; 3],
}

/// Shared buffers of all primitives, and one mesh-table row per primitive.
pub struct BakedMeshes<V> {
    pub vertices: Vec<V>,
    pub indices: Vec<u32>,
    pub meshes: Vec<MeshInfo>,
}

/// The vertices of the first `k` primitives, one after the other.
pub open spec fn vertices_upto<V>(ps: Seq<PrimitiveGeometry<V>>, k: int) -> Seq<V>
    decreases k,
{
    if k <= 0 {
        Seq::empty()
    } else {
        vertices_upto(ps, k - 1) + ps[k - 1].vertices@
    }
}

/// The indices of the first `k` primitives, one after the other.
pub open spec fn indices_upto<V>(ps: Seq<PrimitiveGeometry<V>>, k: int) -> Seq<u32>
    decreases k,
{
    if k <= 0 {
        Seq::empty()
    } else {
        indices_upto(ps, k - 1) + ps[k - 1].indices@
    }
}

/// The mesh-table row of primitive `k`.
pub open spec fn mesh_row<V>(ps: Seq<PrimitiveGeometry<V>>, k: int) -> MeshInfo {
    MeshInfo {
        index_count: ps[k].indices@.len() as u32,
        first_index: indices_upto(ps, k).len() as u32,
        vertex_offset: vertices_upto(ps, k).len() as i32,
        aabb_min: ps[k].aabb_min,
        aabb_max: ps[k].aabb_max,
    }
}

proof fn lemma_upto_grow<V>(ps: Seq<PrimitiveGeometry<V>>, k: int, n: int)
    requires
        0 <= k <= n,
    ensures
        vertices_upto(ps, k).len() <= vertices_upto(ps, n).len(),
        indices_upto(ps, k).len() <= indices_upto(ps, n).len(),
    decreases n - k,
{
    if k < n {
        lemma_upto_grow(ps, k, n - 1);
    }
}

/// Concatenates the vertices and the indices of all primitives in order; row
/// `k` of the mesh table gives primitive `k`'s index count, where its indices
/// and vertices start, and its bounding box. Index values are kept as they
/// are: each stays relative to its primitive's first vertex. More primitives
/// than [`MAX_MESHES`] reject the whole set.
pub fn bake_meshes<V: Copy>(primitives: &Vec<PrimitiveGeometry<V>>) -> (r: Result<BakedMeshes<V>, RenderError>)
    requires
        vertices_upto(primitives@, primitives@.len() as int).len() <= i32::MAX,
        indices_upto(primitives@, primitives@.len() as int).len() <= u32::MAX,
    ensures
        r.is_err() == (primitives@.len() > MAX_MESHES),
        r matches Err(e) ==> e == RenderError::TooManyMeshes,
        r matches Ok(b) ==> {
            &&& b.vertices@ == vertices_upto(primitives@, primitives@.len() as int)
            &&& b.indices@ == indices_upto(primitives@, primitives@.len() as int)
            &&& b.meshes@.len() == primitives@.len()
            &&& forall|k: int| 0 <= k < primitives@.len() ==> #[trigger] b.meshes@[k] == mesh_row(primitives@, k)
        },
{
    if primitives.len() > MAX_MESHES {
        return Err(RenderError::TooManyMeshes);
    }
    let n = primitives.len();
    let ghost ps = primitives@;
    let mut vertices: Vec<V> = Vec::new();
    let mut indices: Vec<u32> = Vec::new();
    let mut meshes: Vec<MeshInfo> = Vec::new();
    let mut k: usize = 0;
    while k < n
        invariant
            n == ps.len(),
            ps == primitives@,
            vertices_upto(ps, n as int).len() <= i32::MAX,
            indices_upto(ps, n as int).len() <= u32::MAX,
            k <= n,
            vertices@ == vertices_upto(ps, k as int),
            indices@ == indices_upto(ps, k as int),
            meshes@.len() == k,
            forall|j: int| 0 <= j < k ==> #[trigger] meshes@[j] == mesh_row(ps, j),
        decreases n - k,
    {
        let primitive = &primitives[k];
        proof {
            lemma_upto_grow(ps, k + 1, n as int);
        }
        let vertex_offset = vertices.len() as i32;
        let first_index = indices.len() as u32;
        let mut j: usize = 0;
        while j < primitive.vertices.len()
            invariant
                j <= primitive.vertices@.len(),
                vertices@ == vertices_upto(ps, k as int) + primitive.vertices@.take(j as int),
            decreases primitive.vertices@.len() - j,
        {
            vertices.push(primitive.vertices[j]);
            proof {
                assert(primitive.vertices@.take(j + 1) =~= primitive.vertices@.take(j as int).push(
                    primitive.vertices@[j as int],
                ));
            }
            j += 1;
        }
        j = 0;
        while j < primitive.indices.len()
            invariant
                j <= primitive.indices@.len(),
                indices@ == indices_upto(ps, k as int) + primitive.indices@.take(j as int),
            decreases primitive.indices@.len() - j,
        {
            indices.push(primitive.indices[j]);
            proof {
                assert(primitive.indices@.take(j + 1) =~= primitive.indices@.take(j as int).push(
                    primitive.indices@[j as int],
                ));
            }
            j += 1;
        }
        proof {
            assert(primitive.vertices@.take(primitive.vertices@.len() as int) =~= primitive.vertices@);
            assert(primitive.indices@.take(primitive.indices@.len() as int) =~= primitive.indices@);
        }
        meshes.push(
            MeshInfo {
                index_count: primitive.indices.len() as u32,
                first_index,
                vertex_offset,
                aabb_min: primitive.aabb_min,
                aabb_max: primitive.aabb_max,
            },
        );
        k += 1;
    }
    Ok(BakedMeshes { vertices, indices, meshes })
}

} // verus!
