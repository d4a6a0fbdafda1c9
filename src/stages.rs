//! The compute stages after extraction, as one sequential reference: culling
//! with per-mesh visible counts, draw-command generation with per-mesh base
//! offsets, and the gather of visible drawables into per-mesh ranges.
use vstd::prelude::*;
use crate::culling::{cull_drawable, is_visible, Frustum, MeshInfo};
use crate::drawable::{Drawable, RenderError, MAX_DRAWABLES, MAX_MESHES};
use crate::matrix::Matrix;

verus! {

/// One indexed indirect draw: `instance_count` instances of a mesh whose
/// per-instance data starts at `first_instance` in the visible-drawable buffer.
#[derive(Clone, Copy, Debug, PartialEq, Eq, Structural)]
pub struct DrawCommand {
    pub index_count: u32,
    pub instance_count: u32,
    pub first_index: u32,
    pub base_vertex: i32,
    pub first_instance: u32,
}

/// The visible drawables among the first `k` that use mesh `m`, in order.
pub open spec fn visible_of_mesh(ds: Seq<Drawable>, vis: Seq<bool>, m: int, k: int) -> Seq<Drawable>
    decreases k,
{
    if k <= 0 {
        Seq::empty()
    } else {
        let rest = visible_of_mesh(ds, vis, m, k - 1);
        if vis[k - 1] && ds[k - 1].primitive_index == m {
            rest.push(ds[k - 1])
        } else {
            rest
        }
    }
}

/// How many of the first `k` flags are set.
pub open spec fn visible_total(vis: Seq<bool>, k: int) -> int
    decreases k,
{
    if k <= 0 {
        0
    } else {
        visible_total(vis, k - 1) + if vis[k - 1] { 1int } else { 0int }
    }
}

/// The sum of the first `m` counts: the base offset of mesh `m`.
pub open spec fn sum_of(counts: Seq<u32>, m: int) -> int
    decreases m,
{
    if m <= 0 {
        0
    } else {
        sum_of(counts, m - 1) + counts[m - 1]
    }
}

/// How many of the first `m` counts are non-zero.
pub open spec fn nonzero_count(counts: Seq<u32>, m: int) -> int
    decreases m,
{
    if m <= 0 {
        0
    } else {
        nonzero_count(counts, m - 1) + if counts[m - 1] > 0 { 1int } else { 0int }
    }
}

/// The draw commands of the first `m` meshes: one for each mesh with a
/// non-zero visible count, in mesh order.
pub open spec fn commands_upto(meshes: Seq<MeshInfo>, counts: Seq<u32>, m: int) -> Seq<DrawCommand>
    decreases m,
{
    if m <= 0 {
        Seq::empty()
    } else {
        let rest = commands_upto(meshes, counts, m - 1);
        if counts[m - 1] > 0 {
            rest.push(
                DrawCommand {
                    index_count: meshes[m - 1].index_count,
                    instance_count: counts[m - 1],
                    first_index: meshes[m - 1].first_index,
                    base_vertex: meshes[m - 1].vertex_offset,
                    first_instance: sum_of(counts, m - 1) as u32,
                },
            )
        } else {
            rest
        }
    }
}

/// Every drawable names a row of a mesh table of `mesh_count` rows.
pub open spec fn meshes_in_range(ds: Seq<Drawable>, mesh_count: int) -> bool {
    forall|i: int| 0 <= i < ds.len() ==> (#[trigger] ds[i]).primitive_index < mesh_count
}

/// The sum over the first `nm` meshes of their visible counts among the
/// first `k` drawables.
pub open spec fn mesh_visible_sum(ds: Seq<Drawable>, vis: Seq<bool>, k: int, nm: int) -> int
    decreases nm,
{
    if nm <= 0 {
        0
    } else {
        mesh_visible_sum(ds, vis, k, nm - 1) + visible_of_mesh(ds, vis, nm - 1, k).len()
    }
}

proof fn lemma_mesh_visible_sum_step(ds: Seq<Drawable>, vis: Seq<bool>, k: int, nm: int)
    requires
        0 <= k,
        0 <= nm,
    ensures
        mesh_visible_sum(ds, vis, k + 1, nm) == mesh_visible_sum(ds, vis, k, nm) + if vis[k]
            && ds[k].primitive_index < nm { 1int } else { 0int },
    decreases nm,
{
    if nm > 0 {
        lemma_mesh_visible_sum_step(ds, vis, k, nm - 1);
    }
}

proof fn lemma_mesh_visible_sum_empty(ds: Seq<Drawable>, vis: Seq<bool>, nm: int)
    requires
        0 <= nm,
    ensures
        mesh_visible_sum(ds, vis, 0, nm) == 0,
    decreases nm,
{
    if nm > 0 {
        lemma_mesh_visible_sum_empty(ds, vis, nm - 1);
    }
}

proof fn lemma_mesh_visible_sum_total(ds: Seq<Drawable>, vis: Seq<bool>, k: int, nm: int)
    requires
        0 <= k <= ds.len(),
        0 <= nm,
        meshes_in_range(ds, nm),
    ensures
        mesh_visible_sum(ds, vis, k, nm) == visible_total(vis, k),
    decreases k,
{
    if k > 0 {
        lemma_mesh_visible_sum_total(ds, vis, k - 1, nm);
        lemma_mesh_visible_sum_step(ds, vis, k - 1, nm);
        assert(ds[k - 1].primitive_index < nm);
    } else {
        lemma_mesh_visible_sum_empty(ds, vis, nm);
    }
}

proof fn lemma_sum_matches(ds: Seq<Drawable>, vis: Seq<bool>, counts: Seq<u32>, n: int, m: int)
    requires
        0 <= m <= counts.len(),
        forall|j: int| 0 <= j < counts.len() ==> #[trigger] counts[j] == visible_of_mesh(ds, vis, j, n).len(),
    ensures
        sum_of(counts, m) == mesh_visible_sum(ds, vis, n, m),
    decreases m,
{
    if m > 0 {
        lemma_sum_matches(ds, vis, counts, n, m - 1);
        assert(counts[m - 1] == visible_of_mesh(ds, vis, m - 1, n).len());
    }
}

proof fn lemma_visible_total_bound(vis: Seq<bool>, k: int)
    requires
        0 <= k,
    ensures
        0 <= visible_total(vis, k) <= k,
    decreases k,
{
    if k > 0 {
        lemma_visible_total_bound(vis, k - 1);
    }
}

/// The visible counts of all meshes add up to the number of drawables
/// marked visible.
pub proof fn lemma_visible_counts_sum(ds: Seq<Drawable>, vis: Seq<bool>, counts: Seq<u32>)
    requires
        vis.len() == ds.len(),
        meshes_in_range(ds, counts.len() as int),
        forall|m: int|
            0 <= m < counts.len() ==> #[trigger] counts[m] == visible_of_mesh(ds, vis, m, ds.len() as int).len(),
    ensures
        sum_of(counts, counts.len() as int) == visible_total(vis, ds.len() as int),
        visible_total(vis, ds.len() as int) <= ds.len(),
{
    lemma_sum_matches(ds, vis, counts, ds.len() as int, counts.len() as int);
    lemma_mesh_visible_sum_total(ds, vis, ds.len() as int, counts.len() as int);
    lemma_visible_total_bound(vis, ds.len() as int);
}

proof fn lemma_sum_monotone(counts: Seq<u32>, a: int, b: int)
    requires
        0 <= a <= b <= counts.len(),
    ensures
        sum_of(counts, a) <= sum_of(counts, b),
        a < b ==> sum_of(counts, a) + counts[a] <= sum_of(counts, b),
    decreases b - a,
{
    if a < b {
        lemma_sum_monotone(counts, a + 1, b);
    }
}

/// One draw command is emitted for each mesh with at least one visible
/// drawable, and no other.
pub proof fn lemma_one_command_per_visible_mesh(meshes: Seq<MeshInfo>, counts: Seq<u32>, m: int)
    requires
        0 <= m <= counts.len(),
    ensures
        commands_upto(meshes, counts, m).len() == nonzero_count(counts, m),
    decreases m,
{
    if m > 0 {
        lemma_one_command_per_visible_mesh(meshes, counts, m - 1);
    }
}

proof fn lemma_visible_prefix(ds: Seq<Drawable>, vis: Seq<bool>, m: int, k: int, n: int)
    requires
        0 <= k <= n,
    ensures
        visible_of_mesh(ds, vis, m, k).len() <= visible_of_mesh(ds, vis, m, n).len(),
        forall|j: int|
            0 <= j < visible_of_mesh(ds, vis, m, k).len() ==> #[trigger] visible_of_mesh(ds, vis, m, k)[j]
                == visible_of_mesh(ds, vis, m, n)[j],
    decreases n - k,
{
    if k < n {
        lemma_visible_prefix(ds, vis, m, k, n - 1);
    }
}

/// Tests every drawable against the frustum, and counts the visible
/// drawables of each mesh.
pub fn cull_drawables(drawables: &Vec<Drawable>, meshes: &Vec<MeshInfo>, frustum: &Frustum) -> (r: (
    Vec<bool>,
    Vec<u32>,
))
    requires
        drawables@.len() <= MAX_DRAWABLES,
        meshes_in_range(drawables@, meshes@.len() as int),
    ensures
        r.0@.len() == drawables@.len(),
        forall|i: int|
            0 <= i < drawables@.len() ==> #[trigger] r.0@[i] == is_visible(
                *frustum,
                drawables@[i].model_matrix@,
                meshes@[drawables@[i].primitive_index as int],
            ),
        r.1@.len() == meshes@.len(),
        forall|m: int|
            0 <= m < meshes@.len() ==> #[trigger] r.1@[m] == visible_of_mesh(
                drawables@,
                r.0@,
                m,
                drawables@.len() as int,
            ).len(),
{
    let n = drawables.len();
    let nm = meshes.len();
    let mut visibility: Vec<bool> = Vec::new();
    let mut i: usize = 0;
    while i < n
        invariant
            n == drawables@.len(),
            meshes_in_range(drawables@, meshes@.len() as int),
            i <= n,
            visibility@.len() == i,
            forall|j: int|
                0 <= j < i ==> #[trigger] visibility@[j] == is_visible(
                    *frustum,
                    drawables@[j].model_matrix@,
                    meshes@[drawables@[j].primitive_index as int],
                ),
        decreases n - i,
    {
        let d = &drawables[i];
        proof {
            assert(drawables@[i as int].primitive_index < meshes@.len());
        }
        let visible = cull_drawable(frustum, &d.model_matrix, &meshes[d.primitive_index as usize]);
        visibility.push(visible);
        i += 1;
    }
    let mut counts: Vec<u32> = Vec::new();
    let mut m: usize = 0;
    while m < nm
        invariant
            m <= nm,
            counts@.len() == m,
            forall|j: int| 0 <= j < m ==> #[trigger] counts@[j] == 0,
        decreases nm - m,
    {
        counts.push(0);
        m += 1;
    }
    i = 0;
    while i < n
        invariant
            n == drawables@.len(),
            n <= MAX_DRAWABLES,
            nm == meshes@.len(),
            meshes_in_range(drawables@, meshes@.len() as int),
            visibility@.len() == n,
            i <= n,
            counts@.len() == nm,
            forall|j: int|
                0 <= j < nm ==> #[trigger] counts@[j] == visible_of_mesh(drawables@, visibility@, j, i as int).len(),
            forall|j: int| 0 <= j < nm ==> #[trigger] counts@[j] <= i,
        decreases n - i,
    {
        if visibility[i] {
            let mesh = drawables[i].primitive_index as usize;
            proof {
                assert(drawables@[i as int].primitive_index < meshes@.len());
            }
            let c = counts[mesh];
            counts.set(mesh, c + 1);
        }
        i += 1;
    }
    (visibility, counts)
}

/// Assigns each mesh the sum of the visible counts before it as its base
/// offset, and emits one draw command for each mesh with a visible drawable.
pub fn generate_draw_commands(meshes: &Vec<MeshInfo>, visible_counts: &Vec<u32>) -> (r: (
    Vec<u32>,
    Vec<DrawCommand>,
))
    requires
        visible_counts@.len() == meshes@.len(),
        sum_of(visible_counts@, visible_counts@.len() as int) <= u32::MAX,
    ensures
        r.0@.len() == meshes@.len(),
        forall|m: int| 0 <= m < meshes@.len() ==> #[trigger] r.0@[m] == sum_of(visible_counts@, m),
        r.1@ == commands_upto(meshes@, visible_counts@, meshes@.len() as int),
{
    let nm = meshes.len();
    let mut base_offsets: Vec<u32> = Vec::new();
    let mut commands: Vec<DrawCommand> = Vec::new();
    let mut offset: u32 = 0;
    let mut m: usize = 0;
    while m < nm
        invariant
            nm == meshes@.len(),
            visible_counts@.len() == nm,
            sum_of(visible_counts@, nm as int) <= u32::MAX,
            m <= nm,
            offset == sum_of(visible_counts@, m as int),
            base_offsets@.len() == m,
            forall|j: int| 0 <= j < m ==> #[trigger] base_offsets@[j] == sum_of(visible_counts@, j),
            commands@ == commands_upto(meshes@, visible_counts@, m as int),
        decreases nm - m,
    {
        proof {
            lemma_sum_monotone(visible_counts@, m as int, nm as int);
        }
        base_offsets.push(offset);
        let count = visible_counts[m];
        if count > 0 {
            let mesh = &meshes[m];
            commands.push(
                DrawCommand {
                    index_count: mesh.index_count,
                    instance_count: count,
                    first_index: mesh.first_index,
                    base_vertex: mesh.vertex_offset,
                    first_instance: offset,
                },
            );
        }
        offset = offset + count;
        m += 1;
    }
    (base_offsets, commands)
}

/// Writes each visible drawable to the next free slot of its mesh's range
/// `[base_offsets[m], base_offsets[m] + visible_counts[m])` of the output.
pub fn gather_instances(
    drawables: &Vec<Drawable>,
    visibility: &Vec<bool>,
    visible_counts: &Vec<u32>,
    base_offsets: &Vec<u32>,
) -> (r: Vec<Drawable>)
    requires
        visibility@.len() == drawables@.len(),
        base_offsets@.len() == visible_counts@.len(),
        meshes_in_range(drawables@, visible_counts@.len() as int),
        forall|m: int|
            0 <= m < visible_counts@.len() ==> #[trigger] visible_counts@[m] == visible_of_mesh(
                drawables@,
                visibility@,
                m,
                drawables@.len() as int,
            ).len(),
        forall|m: int|
            0 <= m < visible_counts@.len() ==> #[trigger] base_offsets@[m] == sum_of(visible_counts@, m),
        sum_of(visible_counts@, visible_counts@.len() as int) <= u32::MAX,
    ensures
        r@.len() == sum_of(visible_counts@, visible_counts@.len() as int),
        forall|m: int, k: int|
            0 <= m < visible_counts@.len() && 0 <= k < visible_counts@[m] ==> r@[base_offsets@[m] + k]
                == #[trigger] visible_of_mesh(drawables@, visibility@, m, drawables@.len() as int)[k],
{
    let n = drawables.len();
    let nm = visible_counts.len();
    let ghost counts = visible_counts@;
    let ghost total = sum_of(counts, nm as int);
    let total_len: u32 = if nm == 0 {
        0
    } else {
        base_offsets[nm - 1] + visible_counts[nm - 1]
    };
    let blank = Drawable::new(Matrix::from_bits([0u32; 16]), 0, 0);
    let mut out: Vec<Drawable> = Vec::new();
    let mut t: u32 = 0;
    while t < total_len
        invariant
            t <= total_len,
            out@.len() == t,
        decreases total_len - t,
    {
        out.push(blank);
        t += 1;
    }
    let mut cursors: Vec<u32> = Vec::new();
    let mut m: usize = 0;
    while m < nm
        invariant
            m <= nm,
            cursors@.len() == m,
            forall|j: int| 0 <= j < m ==> #[trigger] cursors@[j] == 0,
        decreases nm - m,
    {
        cursors.push(0);
        m += 1;
    }
    let mut i: usize = 0;
    while i < n
        invariant
            n == drawables@.len(),
            nm == counts.len(),
            counts == visible_counts@,
            visibility@.len() == n,
            base_offsets@.len() == nm,
            meshes_in_range(drawables@, nm as int),
            forall|j: int|
                0 <= j < nm ==> #[trigger] counts[j] == visible_of_mesh(drawables@, visibility@, j, n as int).len(),
            forall|j: int| 0 <= j < nm ==> #[trigger] base_offsets@[j] == sum_of(counts, j),
            total == sum_of(counts, nm as int),
            total <= u32::MAX,
            out@.len() == total,
            i <= n,
            cursors@.len() == nm,
            forall|j: int|
                0 <= j < nm ==> #[trigger] cursors@[j] == visible_of_mesh(drawables@, visibility@, j, i as int).len(),
            forall|j: int, k: int|
                0 <= j < nm && 0 <= k < cursors@[j] ==> out@[base_offsets@[j] + k]
                    == #[trigger] visible_of_mesh(drawables@, visibility@, j, i as int)[k],
        decreases n - i,
    {
        let ghost before = out@;
        if visibility[i] {
            let mesh = drawables[i].primitive_index as usize;
            proof {
                assert(drawables@[i as int].primitive_index < nm);
                lemma_visible_prefix(drawables@, visibility@, mesh as int, i + 1, n as int);
                lemma_sum_monotone(counts, mesh as int, nm as int);
                assert(counts[mesh as int] == visible_of_mesh(drawables@, visibility@, mesh as int, n as int).len());
            }
            let ghost old_cursors = cursors@;
            let slot = base_offsets[mesh] + cursors[mesh];
            out.set(slot as usize, drawables[i]);
            let c = cursors[mesh];
            cursors.set(mesh, c + 1);
            proof {
                let d = drawables@[i as int];
                assert(out@ == before.update(slot as int, d));
                assert(visible_of_mesh(drawables@, visibility@, mesh as int, i + 1) == visible_of_mesh(
                    drawables@,
                    visibility@,
                    mesh as int,
                    i as int,
                ).push(d));
                assert forall|j: int, k: int|
                    0 <= j < nm && 0 <= k < cursors@[j] implies out@[base_offsets@[j] + k]
                        == #[trigger] visible_of_mesh(drawables@, visibility@, j, i + 1)[k] by {
                    lemma_visible_prefix(drawables@, visibility@, j, i as int, n as int);
                    lemma_sum_monotone(counts, j, nm as int);
                    assert(counts[j] == visible_of_mesh(drawables@, visibility@, j, n as int).len());
                    if j != mesh {
                        assert(visible_of_mesh(drawables@, visibility@, j, i + 1) == visible_of_mesh(
                            drawables@,
                            visibility@,
                            j,
                            i as int,
                        ));
                        assert(cursors@[j] == old_cursors[j]);
                        if j < mesh {
                            lemma_sum_monotone(counts, j, mesh as int);
                        } else {
                            lemma_sum_monotone(counts, mesh as int, j);
                        }
                        assert(base_offsets@[j] + k != slot);
                        assert(out@[base_offsets@[j] + k] == before[base_offsets@[j] + k]);
                    } else if k < c {
                        assert(base_offsets@[j] + k != slot as int);
                        assert(out@[base_offsets@[j] + k] == before[base_offsets@[j] + k]);
                    }
                }
            }
        }
        i += 1;
    }
    proof {
        if nm > 0 {
            assert(total == sum_of(counts, nm - 1) + counts[nm - 1]);
        }
    }
    out
}

/// What one frame's compute sequence produces.
pub struct FrameOutput {
    /// One flag per drawable.
    pub visibility: Vec<bool>,
    /// Visible drawables per mesh.
    pub visible_counts: Vec<u32>,
    /// Start of each mesh's range in `visible_drawables`.
    pub base_offsets: Vec<u32>,
    /// One command per mesh with a visible drawable, in mesh order.
    pub draw_commands: Vec<DrawCommand>,
    /// The number of draw commands.
    pub draw_count: u32,
    /// The visible drawables, grouped by mesh.
    pub visible_drawables: Vec<Drawable>,
}

/// Every mesh row a drawable names exists, and both tables are within capacity.
pub open spec fn frame_inputs_ok(drawables: Seq<Drawable>, meshes: Seq<MeshInfo>) -> bool {
    &&& drawables.len() <= MAX_DRAWABLES
    &&& meshes.len() <= MAX_MESHES
    &&& meshes_in_range(drawables, meshes.len() as int)
}

/// Runs culling, draw-command generation and instance gather over one
/// frame's drawables. Fails on more drawables than [`MAX_DRAWABLES`], on more
/// meshes than [`MAX_MESHES`], and on a drawable naming a missing mesh, in
/// that order of precedence.
pub fn cull_and_generate_commands(
    drawables: &Vec<Drawable>,
    meshes: &Vec<MeshInfo>,
    frustum: &Frustum,
) -> (r: Result<FrameOutput, RenderError>)
    ensures
        r.is_ok() == frame_inputs_ok(drawables@, meshes@),
        r matches Err(e) ==> {
            &&& drawables@.len() > MAX_DRAWABLES ==> e == RenderError::TooManyDrawables
            &&& drawables@.len() <= MAX_DRAWABLES && meshes@.len() > MAX_MESHES ==> e
                == RenderError::TooManyMeshes
            &&& drawables@.len() <= MAX_DRAWABLES && meshes@.len() <= MAX_MESHES ==> e
                == RenderError::UnknownMesh
        },
        r matches Ok(out) ==> {
            let n = drawables@.len() as int;
            let nm = meshes@.len() as int;
            &&& out.visibility@.len() == n
            &&& forall|i: int|
                0 <= i < n ==> #[trigger] out.visibility@[i] == is_visible(
                    *frustum,
                    drawables@[i].model_matrix@,
                    meshes@[drawables@[i].primitive_index as int],
                )
            &&& out.visible_counts@.len() == nm
            &&& forall|m: int|
                0 <= m < nm ==> #[trigger] out.visible_counts@[m] == visible_of_mesh(
                    drawables@,
                    out.visibility@,
                    m,
                    n,
                ).len()
            &&& out.base_offsets@.len() == nm
            &&& forall|m: int|
                0 <= m < nm ==> #[trigger] out.base_offsets@[m] == sum_of(out.visible_counts@, m)
            &&& out.draw_commands@ == commands_upto(meshes@, out.visible_counts@, nm)
            &&& out.draw_count == out.draw_commands@.len()
            &&& out.draw_count == nonzero_count(out.visible_counts@, nm)
            &&& out.draw_commands@.len() <= MAX_MESHES
            &&& out.visible_drawables@.len() == visible_total(out.visibility@, n)
            &&& forall|m: int|
                0 <= m < nm ==> (#[trigger] out.visible_drawables@.subrange(
                    out.base_offsets@[m] as int,
                    out.base_offsets@[m] + out.visible_counts@[m],
                )) == visible_of_mesh(drawables@, out.visibility@, m, n)
        },
{
    if drawables.len() > MAX_DRAWABLES {
        return Err(RenderError::TooManyDrawables);
    }
    if meshes.len() > MAX_MESHES {
        return Err(RenderError::TooManyMeshes);
    }
    let mut i: usize = 0;
    while i < drawables.len()
        invariant
            i <= drawables@.len(),
            drawables@.len() <= MAX_DRAWABLES,
            meshes@.len() <= MAX_MESHES,
            forall|j: int| 0 <= j < i ==> (#[trigger] drawables@[j]).primitive_index < meshes@.len(),
        decreases drawables@.len() - i,
    {
        if drawables[i].primitive_index as usize >= meshes.len() {
            assert(!meshes_in_range(drawables@, meshes@.len() as int)) by {
                assert(drawables@[i as int].primitive_index >= meshes@.len());
            }
            return Err(RenderError::UnknownMesh);
        }
        i += 1;
    }
    let (visibility, visible_counts) = cull_drawables(drawables, meshes, frustum);
    proof {
        lemma_visible_counts_sum(drawables@, visibility@, visible_counts@);
    }
    let (base_offsets, draw_commands) = generate_draw_commands(meshes, &visible_counts);
    let visible_drawables = gather_instances(drawables, &visibility, &visible_counts, &base_offsets);
    proof {
        lemma_one_command_per_visible_mesh(meshes@, visible_counts@, meshes@.len() as int);
        lemma_nonzero_count_bound(visible_counts@, meshes@.len() as int);
        let n = drawables@.len() as int;
        assert forall|m: int| 0 <= m < meshes@.len() implies (#[trigger] visible_drawables@.subrange(
            base_offsets@[m] as int,
            base_offsets@[m] + visible_counts@[m],
        )) == visible_of_mesh(drawables@, visibility@, m, n) by {
            lemma_gathered_range(drawables@, visibility@, visible_counts@, base_offsets@, visible_drawables@, m);
        }
    }
    let draw_count = draw_commands.len() as u32;
    Ok(FrameOutput { visibility, visible_counts, base_offsets, draw_commands, draw_count, visible_drawables })
}

proof fn lemma_nonzero_count_bound(counts: Seq<u32>, m: int)
    requires
        0 <= m,
    ensures
        nonzero_count(counts, m) <= m,
    decreases m,
{
    if m > 0 {
        lemma_nonzero_count_bound(counts, m - 1);
    }
}

/// After the gather, the range of mesh `m` in the output holds exactly the
/// visible drawables that use mesh `m`, each once, in drawable order.
pub proof fn lemma_gathered_range(
    drawables: Seq<Drawable>,
    visibility: Seq<bool>,
    visible_counts: Seq<u32>,
    base_offsets: Seq<u32>,
    gathered: Seq<Drawable>,
    m: int,
)
    requires
        0 <= m < visible_counts.len(),
        base_offsets.len() == visible_counts.len(),
        forall|j: int|
            0 <= j < visible_counts.len() ==> #[trigger] visible_counts[j] == visible_of_mesh(
                drawables,
                visibility,
                j,
                drawables.len() as int,
            ).len(),
        forall|j: int| 0 <= j < visible_counts.len() ==> #[trigger] base_offsets[j] == sum_of(visible_counts, j),
        gathered.len() == sum_of(visible_counts, visible_counts.len() as int),
        forall|j: int, k: int|
            0 <= j < visible_counts.len() && 0 <= k < visible_counts[j] ==> gathered[base_offsets[j] + k]
                == #[trigger] visible_of_mesh(drawables, visibility, j, drawables.len() as int)[k],
    ensures
        gathered.subrange(base_offsets[m] as int, base_offsets[m] + visible_counts[m])
            == visible_of_mesh(drawables, visibility, m, drawables.len() as int),
{
    let vm = visible_of_mesh(drawables, visibility, m, drawables.len() as int);
    lemma_sum_monotone(visible_counts, m, visible_counts.len() as int);
    assert(visible_counts[m] == vm.len());
    assert forall|k: int| 0 <= k < vm.len() implies gathered.subrange(
        base_offsets[m] as int,
        base_offsets[m] + visible_counts[m],
    )[k] == vm[k] by {
        assert(gathered[base_offsets[m] + k] == vm[k]);
    }
    assert(gathered.subrange(base_offsets[m] as int, base_offsets[m] + visible_counts[m]) =~= vm);
}

/// Threads per workgroup of the per-drawable compute stages.
pub const WORKGROUP_SIZE: u32 = 64;

/// The number of workgroups that covers `instance_count` drawables, one
/// thread each.
pub fn dispatch_workgroup_count(instance_count: u32) -> (r: u32)
    ensures
        r as int * WORKGROUP_SIZE >= instance_count,
        r == 0 || (r as int - 1) * WORKGROUP_SIZE < instance_count,
        r as int == (instance_count as int + WORKGROUP_SIZE - 1) / WORKGROUP_SIZE as int,
{
    let r = instance_count / WORKGROUP_SIZE + if instance_count % WORKGROUP_SIZE == 0 { 0 } else { 1 };
    r
}

} // verus!
