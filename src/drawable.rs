//! Drawable records and their per-frame extraction from the scene.
use vstd::prelude::*;
use crate::matrix::Matrix;
use crate::scene::{Object3D, ObjectId, PrimitiveRef, Scene, SceneModel, SceneView};

verus! {

/// Most distinct meshes the mesh table and the per-mesh buffers can hold.
pub const MAX_MESHES: usize = 128;

/// Most drawables one frame can hold.
pub const MAX_DRAWABLES: usize = 32_000;

/// Why a frame cannot be built.
#[derive(Clone, Copy, Debug, PartialEq, Eq, Structural)]
pub enum RenderError {
    /// More drawables than [`MAX_DRAWABLES`].
    TooManyDrawables,
    /// More meshes than [`MAX_MESHES`].
    TooManyMeshes,
    /// A drawable names a mesh that the mesh table does not hold.
    UnknownMesh,
}

/// One frame's instance of a mesh primitive at a world transform.
#[derive(Clone, Copy, Debug, PartialEq, Eq)]
pub struct Drawable {
    pub model_matrix: Matrix,
    pub primitive_index: u32,
    pub material_id: u32,
}

/// A drawable as mathematical values.
pub struct DrawableView {
    pub model_matrix: Seq<u32>,
    pub primitive_index: u32,
    pub material_id: u32,
}

impl View for Drawable {
    type V = DrawableView;

    open spec fn view(&self) -> DrawableView {
        DrawableView {
            model_matrix: self.model_matrix@,
            primitive_index: self.primitive_index,
            material_id: self.material_id,
        }
    }
}

impl Drawable {
    pub fn new(model_matrix: Matrix, primitive_index: u32, material_id: u32) -> (r: Drawable)
        ensures
            r.model_matrix == model_matrix,
            r.primitive_index == primitive_index,
            r.material_id == material_id,
    {
        Drawable { model_matrix, primitive_index, material_id }
    }
}

/// The views of a sequence of drawables.
pub open spec fn drawable_views(ds: Seq<Drawable>) -> Seq<DrawableView> {
    ds.map_values(|d: Drawable| d@)
}

/// The drawable of one primitive of an object whose world matrix is `world`.
pub open spec fn primitive_drawable(world: Seq<u32>, p: PrimitiveRef) -> DrawableView {
    DrawableView {
        model_matrix: world,
        primitive_index: p.global_index,
        material_id: p.material_index,
    }
}

/// The drawables of one object: one per primitive of its model, if it is
/// enabled and its model exists; none otherwise.
pub open spec fn object_drawables(o: Object3D, models: Seq<SceneModel>) -> Seq<DrawableView> {
    match o.model_id {
        Some(m) => if o.enabled && m.index < models.len() {
            models[m.index as int].primitives@.map_values(
                |p: PrimitiveRef| primitive_drawable(o.transform@.world_matrix, p),
            )
        } else {
            Seq::empty()
        },
        None => Seq::empty(),
    }
}

/// The drawables of the first `k` objects, in object order.
pub open spec fn drawables_upto(objects: Seq<Object3D>, models: Seq<SceneModel>, k: int) -> Seq<
    DrawableView,
>
    decreases k,
{
    if k <= 0 {
        Seq::empty()
    } else {
        drawables_upto(objects, models, k - 1) + object_drawables(objects[k - 1], models)
    }
}

/// The drawables of a whole scene.
pub open spec fn scene_drawables(s: SceneView) -> Seq<DrawableView> {
    drawables_upto(s.objects, s.models, s.objects.len() as int)
}

proof fn lemma_drawables_grow(objects: Seq<Object3D>, models: Seq<SceneModel>, k: int, n: int)
    requires
        0 <= k <= n,
    ensures
        drawables_upto(objects, models, k).len() <= drawables_upto(objects, models, n).len(),
    decreases n - k,
{
    if k < n {
        lemma_drawables_grow(objects, models, k, n - 1);
    }
}

/// Flattens the scene into one drawable per primitive of every enabled
/// object with a model, in object order, each carrying the object's world
/// matrix. Fails when there would be more than [`MAX_DRAWABLES`]. Every
/// enabled object with a model must have been propagated.
pub fn gather_drawables_from_scene(scene: &Scene) -> (r: Result<Vec<Drawable>, RenderError>)
    requires
        scene@.wf(),
        forall|i: int|
            0 <= i < scene@.len() && (#[trigger] scene@.objects[i]).enabled && scene@.objects[i].model_id.is_some()
                ==> !scene@.dirty(i),
    ensures
        r.is_ok() == (scene_drawables(scene@).len() <= MAX_DRAWABLES),
        r matches Ok(v) ==> drawable_views(v@) == scene_drawables(scene@),
        r matches Err(e) ==> e == RenderError::TooManyDrawables,
{
    let n = scene.object_count();
    let ghost s = scene@;
    let mut out: Vec<Drawable> = Vec::new();
    let mut i: usize = 0;
    while i < n
        invariant
            n == s.len(),
            s == scene@,
            forall|j: int|
                0 <= j < s.len() && (#[trigger] s.objects[j]).enabled && s.objects[j].model_id.is_some()
                    ==> !s.dirty(j),
            i <= n,
            drawable_views(out@) == drawables_upto(s.objects, s.models, i as int),
            out@.len() <= MAX_DRAWABLES,
        decreases n - i,
    {
        let object = scene.get_object(ObjectId { index: i }).unwrap();
        let ghost own = object_drawables(s.objects[i as int], s.models);
        if object.enabled {
            if let Some(model_id) = object.model_id {
                if let Some(model) = scene.get_model(model_id) {
                    proof {
                        assert(!s.dirty(i as int));
                    }
                    let world = object.transform.get_world_matrix();
                    let ghost base = drawable_views(out@);
                    let mut j: usize = 0;
                    while j < model.primitives.len()
                        invariant
                            s == scene@,
                            i < n,
                            n == s.len(),
                            j <= model.primitives@.len(),
                            own.len() == model.primitives@.len(),
                            base == drawables_upto(s.objects, s.models, i as int),
                            drawables_upto(s.objects, s.models, i as int + 1) == base + own,
                            own == model.primitives@.map_values(
                                |p: PrimitiveRef| primitive_drawable(world@, p),
                            ),
                            drawable_views(out@) == base + own.take(j as int),
                            out@.len() <= MAX_DRAWABLES,
                        decreases model.primitives@.len() - j,
                    {
                        let p = model.primitives[j];
                        let ghost prev = out@;
                        let d = Drawable::new(world, p.global_index, p.material_index);
                        out.push(d);
                        proof {
                            assert(d@ == own[j as int]);
                            assert(drawable_views(out@) =~= drawable_views(prev).push(d@));
                            assert(own.take(j + 1) =~= own.take(j as int).push(own[j as int]));
                            assert(drawable_views(out@) =~= base + own.take(j + 1));
                        }
                        if out.len() > MAX_DRAWABLES {
                            proof {
                                assert(drawables_upto(s.objects, s.models, i as int + 1).len()
                                    >= base.len() + j + 1);
                                lemma_drawables_grow(s.objects, s.models, i as int + 1, n as int);
                            }
                            return Err(RenderError::TooManyDrawables);
                        }
                        j += 1;
                    }
                    proof {
                        assert(own.take(j as int) =~= own);
                    }
                }
            }
        }
        proof {
            assert(drawables_upto(s.objects, s.models, i as int + 1) =~= drawables_upto(
                s.objects,
                s.models,
                i as int,
            ) + object_drawables(s.objects[i as int], s.models));
        }
        i += 1;
    }
    Ok(out)
}

} // verus!
