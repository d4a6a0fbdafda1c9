//! The scene graph: an arena of objects addressed by stable ids, with
//! parent links, eager invalidation of world matrices down a hierarchy, and
//! lazy top-down propagation once per frame.
use std::collections::HashMap;
use vstd::prelude::*;
use crate::matrix::{matrix_product, multiply, Matrix, ONE_BITS};
use crate::transform::{Transform, TransformView};

verus! {

broadcast use vstd::std_specs::hash::group_hash_axioms;

/// Stable handle of an object: its slot in the scene's arena.
#[derive(Clone, Copy, Debug, PartialEq, Eq, Hash, Structural)]
pub struct ObjectId {
    pub index: usize,
}

/// Stable handle of a model: its slot in the scene's model table.
#[derive(Clone, Copy, Debug, PartialEq, Eq, Hash, Structural)]
pub struct SceneModelId {
    pub index: usize,
}

/// One mesh primitive of a model: its row in the mesh table and its material.
#[derive(Clone, Copy, Debug, PartialEq, Eq, Structural)]
pub struct PrimitiveRef {
    pub global_index: u32,
    pub material_index: u32,
}

/// A model placed in the scene: the primitives that each object using it draws.
#[derive(Clone, Debug)]
pub struct SceneModel {
    pub primitives: Vec<PrimitiveRef>,
}

impl SceneModel {
    pub fn new(primitives: Vec<PrimitiveRef>) -> (r: SceneModel)
        ensures
            r.primitives == primitives,
    {
        SceneModel { primitives }
    }
}

/// An object of the scene. Its parent and children are ids, never owners;
/// the scene sets them.
#[derive(Debug)]
pub struct Object3D {
    pub name: String,
    pub transform: Transform,
    pub model_id: Option<SceneModelId>,
    pub parent_id: Option<ObjectId>,
    pub child_ids: Vec<ObjectId>,
    pub enabled: bool,
}

impl Object3D {
    /// An enabled object without model, parent or children, at the origin.
    pub fn new(name: String) -> (r: Object3D)
        ensures
            r.name == name,
            r.transform@.wf(),
            r.transform@.translation == seq![0u32, 0u32, 0u32],
            r.transform@.rotation == seq![0u32, 0u32, 0u32, ONE_BITS],
            r.transform@.scale == ONE_BITS,
            r.transform@.world_dirty,
            r.model_id.is_none(),
            r.parent_id.is_none(),
            r.child_ids@.len() == 0,
            r.enabled,
    {
        let r = Object3D {
            name,
            transform: Transform::from_translation([0, 0, 0]),
            model_id: None,
            parent_id: None,
            child_ids: Vec::new(),
            enabled: true,
        };
        assert(r.transform@.translation =~= seq![0u32, 0u32, 0u32]);
        r
    }
}

/// A mesh of an imported file: its index there, and its primitives.
#[derive(Debug)]
pub struct MeshDesc {
    pub mesh_index: usize,
    pub primitives: Vec<PrimitiveRef>,
}

/// One node of an imported hierarchy. In a list of nodes, parents come
/// before their children and `parent` is the parent's position in the list.
#[derive(Debug)]
pub struct NodeDesc {
    pub name: String,
    pub translation: [u32; 3],
    pub rotation: [u32; 4],
    pub scale: u32,
    pub mesh: Option<MeshDesc>,
    pub parent: Option<usize>,
}

/// Every node's parent comes before it.
pub open spec fn nodes_ordered(nodes: Seq<NodeDesc>) -> bool {
    forall|k: int| 0 <= k < nodes.len() ==> ((#[trigger] nodes[k]).parent matches Some(p) ==> p < k)
}

/// Some node among the first `k` uses mesh `mesh_index`.
pub open spec fn node_uses_mesh(nodes: Seq<NodeDesc>, k: int, mesh_index: usize) -> bool {
    exists|j: int| 0 <= j < k && ((#[trigger] nodes[j]).mesh matches Some(m) && m.mesh_index == mesh_index)
}

/// The objects spawned, from object `base` on, for the nodes among the first
/// `upto` whose parent is node `k`, in node order.
pub open spec fn spawned_children(nodes: Seq<NodeDesc>, k: int, base: int, upto: int) -> Seq<ObjectId>
    decreases upto,
{
    if upto <= 0 {
        Seq::empty()
    } else {
        let rest = spawned_children(nodes, k, base, upto - 1);
        if nodes[upto - 1].parent == Some(k as usize) {
            rest.push(ObjectId { index: (base + upto - 1) as usize })
        } else {
            rest
        }
    }
}

/// Position of the last node among the first `k` without a parent.
pub open spec fn last_root(nodes: Seq<NodeDesc>, k: int) -> Option<int>
    decreases k,
{
    if k <= 0 {
        None
    } else if nodes[k - 1].parent.is_none() {
        Some(k - 1)
    } else {
        last_root(nodes, k - 1)
    }
}

impl Default for Object3D {
    /// An enabled, unnamed object without model, parent or children, at the origin.
    fn default() -> (r: Object3D)
        ensures
            r.name@.len() == 0,
            r.transform@.wf(),
            r.transform@.translation == seq![0u32, 0u32, 0u32],
            r.transform@.rotation == seq![0u32, 0u32, 0u32, ONE_BITS],
            r.transform@.scale == ONE_BITS,
            r.transform@.world_dirty,
            r.model_id.is_none(),
            r.parent_id.is_none(),
            r.child_ids@.len() == 0,
            r.enabled,
    {
        Object3D::new(String::new())
    }
}

impl Object3D {
    /// This object's parent in `scene`, if it has one that the scene holds.
    pub fn parent<'a>(&self, scene: &'a Scene) -> (r: Option<&'a Object3D>)
        ensures
            match self.parent_id {
                Some(p) => if p.index < scene@.len() {
                    r == Some(&scene@.objects[p.index as int])
                } else {
                    r.is_none()
                },
                None => r.is_none(),
            },
    {
        match self.parent_id {
            Some(p) => scene.get_object(p),
            None => None,
        }
    }
}

/// What a scene holds: its objects, its models, and the depth of each object
/// (the number of its ancestors).
pub struct SceneView {
    pub objects: Seq<Object3D>,
    pub models: Seq<SceneModel>,
    pub depth: Seq<nat>,
    /// The model made for each mesh of an imported file, by mesh index.
    pub mesh_models: Map<usize, SceneModelId>,
}

impl SceneView {
    pub open spec fn len(self) -> int {
        self.objects.len() as int
    }

    pub open spec fn transform(self, i: int) -> TransformView {
        self.objects[i].transform@
    }

    pub open spec fn parent(self, i: int) -> Option<ObjectId> {
        self.objects[i].parent_id
    }

    pub open spec fn dirty(self, i: int) -> bool {
        self.transform(i).world_dirty
    }

    /// The world matrix that object `i` must hold once propagated: its
    /// parent's world matrix times its own local matrix, or its local matrix
    /// for a root.
    pub open spec fn expected_world(self, i: int) -> Seq<u32> {
        match self.parent(i) {
            Some(p) => matrix_product(
                self.transform(p.index as int).world_matrix,
                self.transform(i).local_spec(),
            ),
            None => self.transform(i).local_spec(),
        }
    }

    /// Object `i` has a well-formed transform and a parent link into the
    /// arena one level above it.
    pub open spec fn link_ok(self, i: int) -> bool {
        &&& self.transform(i).wf()
        &&& match self.parent(i) {
            Some(p) => p.index < self.len() && self.depth[i] == self.depth[p.index as int] + 1,
            None => self.depth[i] == 0,
        }
    }

    /// A clean object has a clean parent and holds its expected world matrix.
    pub open spec fn clean_ok(self, i: int) -> bool {
        !self.dirty(i) ==> {
            &&& (self.parent(i) matches Some(p) ==> !self.dirty(p.index as int))
            &&& self.transform(i).world_matrix == self.expected_world(i)
        }
    }

    pub open spec fn structure_ok(self) -> bool {
        &&& self.depth.len() == self.objects.len()
        &&& forall|i: int| 0 <= i < self.len() ==> #[trigger] self.link_ok(i)
    }

    pub open spec fn wf(self) -> bool {
        &&& self.structure_ok()
        &&& forall|i: int| 0 <= i < self.len() ==> #[trigger] self.clean_ok(i)
    }

    /// Walking at most `fuel` parent links up from `i` meets `x`.
    pub open spec fn reaches(self, i: int, x: int, fuel: nat) -> bool
        decreases fuel,
    {
        i == x || (fuel > 0 && match self.parent(i) {
            Some(p) => self.reaches(p.index as int, x, (fuel - 1) as nat),
            None => false,
        })
    }

    /// Object `i` is `x` or lies below it in the hierarchy.
    pub open spec fn is_descendant(self, i: int, x: int) -> bool {
        self.reaches(i, x, self.depth[i])
    }

    pub open spec fn all_clean(self) -> bool {
        forall|i: int| 0 <= i < self.len() ==> !#[trigger] self.dirty(i)
    }

    /// Object `i` has the fields that node `node` asks for, the node list
    /// starting at object `base`.
    pub open spec fn spawned_as(self, i: int, node: NodeDesc, base: int) -> bool {
        &&& self.objects[i].name@ == node.name@
        &&& self.transform(i).translation == node.translation@
        &&& self.transform(i).rotation == node.rotation@
        &&& self.transform(i).scale == node.scale
        &&& self.objects[i].enabled
        &&& self.objects[i].parent_id == match node.parent {
            Some(p) => Some(ObjectId { index: (base + p) as usize }),
            None => None,
        }
        &&& self.objects[i].model_id == match node.mesh {
            Some(m) => Some(self.mesh_models[m.mesh_index]),
            None => None,
        }
    }

    /// The model made for mesh `key` holds the primitives of a node that uses it.
    pub open spec fn new_model_for(self, nodes: Seq<NodeDesc>, key: usize) -> bool {
        &&& self.mesh_models[key].index < self.models.len()
        &&& exists|j: int|
            0 <= j < nodes.len() && ((#[trigger] nodes[j]).mesh matches Some(m) && m.mesh_index == key
                && self.models[self.mesh_models[key].index as int].primitives@ == m.primitives@)
    }

    /// Object `i` is the same in `other` but for its child list and its
    /// world-dirty flag.
    pub open spec fn same_object_but_links(self, other: SceneView, i: int) -> bool {
        &&& other.objects[i].name == self.objects[i].name
        &&& other.objects[i].model_id == self.objects[i].model_id
        &&& other.objects[i].parent_id == self.objects[i].parent_id
        &&& other.objects[i].enabled == self.objects[i].enabled
        &&& self.same_transform_but_dirty(other, i)
    }

    /// `self` and `other` agree on everything but transforms.
    pub open spec fn same_links(self, other: SceneView) -> bool {
        &&& other.objects.len() == self.objects.len()
        &&& other.models == self.models
        &&& other.mesh_models == self.mesh_models
        &&& other.depth == self.depth
        &&& forall|i: int| 0 <= i < self.len() ==> {
            &&& (#[trigger] other.objects[i]).name == self.objects[i].name
            &&& other.objects[i].model_id == self.objects[i].model_id
            &&& other.objects[i].parent_id == self.objects[i].parent_id
            &&& other.objects[i].child_ids == self.objects[i].child_ids
            &&& other.objects[i].enabled == self.objects[i].enabled
        }
    }

    /// Object `i`'s transform in `other` is its transform here but for the
    /// world-dirty flag.
    pub open spec fn same_transform_but_dirty(self, other: SceneView, i: int) -> bool {
        other.transform(i) == (TransformView {
            world_dirty: other.transform(i).world_dirty,
            ..self.transform(i)
        })
    }

    /// The child list that object `j` holds after `child` moves under `new_parent`.
    pub open spec fn relinked_children(
        self,
        j: int,
        child: ObjectId,
        new_parent: Option<ObjectId>,
    ) -> Seq<ObjectId> {
        let base = if self.parent(child.index as int) == Some(ObjectId { index: j as usize }) {
            self.objects[j].child_ids@.filter(|c: ObjectId| c != child)
        } else {
            self.objects[j].child_ids@
        };
        if new_parent == Some(ObjectId { index: j as usize }) {
            base.push(child)
        } else {
            base
        }
    }

    /// `self` and `other` hold the same objects but for world-dirty flags.
    pub open spec fn same_but_dirty(self, other: SceneView) -> bool {
        &&& self.same_links(other)
        &&& forall|i: int| 0 <= i < self.len() ==> #[trigger] self.same_transform_but_dirty(other, i)
    }
}

/// `ids` with every occurrence of `c` removed.
pub open spec fn without(ids: Seq<ObjectId>, c: ObjectId) -> Seq<ObjectId> {
    ids.filter(|x: ObjectId| x != c)
}

/// Unfolds one step of the descendant relation.
pub proof fn lemma_descendant_step(s: SceneView, i: int, x: int)
    requires
        s.structure_ok(),
        0 <= i < s.len(),
    ensures
        s.is_descendant(i, x) == (i == x || match s.parent(i) {
            Some(p) => s.is_descendant(p.index as int, x),
            None => false,
        }),
{
    assert(s.link_ok(i));
}

/// A descendant lies at least as deep as its ancestor.
pub proof fn lemma_descendant_depth(s: SceneView, i: int, x: int)
    requires
        s.structure_ok(),
        0 <= i < s.len(),
        s.is_descendant(i, x),
    ensures
        0 <= x < s.len(),
        s.depth[i] >= s.depth[x],
    decreases s.depth[i],
{
    lemma_descendant_step(s, i, x);
    assert(s.link_ok(i));
    if i != x {
        let p = s.parent(i).unwrap().index as int;
        lemma_descendant_depth(s, p, x);
    }
}

/// The descendant relation depends on parent links and depths alone.
pub proof fn lemma_same_links_reaches(s: SceneView, t: SceneView, i: int, x: int, fuel: nat)
    requires
        s.structure_ok(),
        s.same_links(t),
        0 <= i < s.len(),
    ensures
        s.reaches(i, x, fuel) == t.reaches(i, x, fuel),
    decreases fuel,
{
    assert(s.link_ok(i));
    assert(t.objects[i].parent_id == s.objects[i].parent_id);
    if fuel > 0 {
        if let Some(p) = s.parent(i) {
            lemma_same_links_reaches(s, t, p.index as int, x, (fuel - 1) as nat);
        }
    }
}

/// Changing the transform of `x` alone, leaving it world-dirty, keeps the
/// scene's structure and the invariant of every object outside `x`'s subtree.
proof fn lemma_local_change(s0: SceneView, s1: SceneView, x: int)
    requires
        s0.wf(),
        s0.same_links(s1),
        0 <= x < s0.len(),
        s1.transform(x).wf(),
        s1.dirty(x),
        forall|j: int| 0 <= j < s0.len() && j != x ==> s1.transform(j) == s0.transform(j),
    ensures
        s1.structure_ok(),
        forall|j: int|
            0 <= j < s1.len() && !s1.is_descendant(j, x) ==> #[trigger] s1.clean_ok(j),
        forall|j: int|
            0 <= j < s1.len() ==> #[trigger] s1.is_descendant(j, x) == s0.is_descendant(j, x),
{
    assert forall|j: int| 0 <= j < s1.len() implies #[trigger] s1.link_ok(j) by {
        assert(s0.link_ok(j));
        assert(s1.objects[j].parent_id == s0.objects[j].parent_id);
    }
    assert forall|j: int| 0 <= j < s1.len() implies #[trigger] s1.is_descendant(j, x)
        == s0.is_descendant(j, x) by {
        lemma_same_links_reaches(s0, s1, j, x, s0.depth[j]);
    }
    assert forall|j: int| 0 <= j < s1.len() && !s1.is_descendant(j, x) implies #[trigger] s1.clean_ok(j) by {
        assert(s0.clean_ok(j));
        assert(s0.link_ok(j));
        assert(s1.objects[j].parent_id == s0.objects[j].parent_id);
        lemma_descendant_step(s0, j, x);
    }
}

/// Nothing lies below an object that is no object's parent.
proof fn lemma_no_children_no_descendants(s: SceneView, x: int, i: int)
    requires
        s.structure_ok(),
        0 <= i < s.len(),
        i != x,
        forall|j: int| 0 <= j < s.len() ==> (#[trigger] s.parent(j)) != Some(ObjectId { index: x as usize }),
        0 <= x < s.len(),
    ensures
        !s.is_descendant(i, x),
    decreases s.depth[i],
{
    lemma_descendant_step(s, i, x);
    assert(s.link_ok(i));
    if let Some(p) = s.parent(i) {
        assert(s.parent(i) != Some(ObjectId { index: x as usize }));
        if p.index as int != x {
            lemma_no_children_no_descendants(s, x, p.index as int);
        }
    }
}

proof fn lemma_wf_same_objects(s: SceneView, t: SceneView)
    requires
        s.wf(),
        t.objects == s.objects,
        t.depth == s.depth,
    ensures
        t.wf(),
{
    assert forall|i: int| 0 <= i < t.len() implies #[trigger] t.link_ok(i) by {
        assert(s.link_ok(i));
    }
    assert forall|i: int| 0 <= i < t.len() implies #[trigger] t.clean_ok(i) by {
        assert(s.clean_ok(i));
    }
}

/// A node has no children among the nodes up to and including itself.
proof fn lemma_no_earlier_children(nodes: Seq<NodeDesc>, k: int, base: int, upto: int)
    requires
        nodes_ordered(nodes),
        0 <= k <= usize::MAX,
        upto <= k + 1,
        upto <= nodes.len(),
    ensures
        spawned_children(nodes, k, base, upto).len() == 0,
    decreases upto,
{
    if upto > 0 {
        lemma_no_earlier_children(nodes, k, base, upto - 1);
        assert(nodes[upto - 1].parent matches Some(p) ==> p < upto - 1);
        assert(nodes[upto - 1].parent != Some(k as usize));
    }
}

fn copy_primitives(v: &Vec<PrimitiveRef>) -> (r: Vec<PrimitiveRef>)
    ensures
        r@ == v@,
{
    let mut r: Vec<PrimitiveRef> = Vec::new();
    let mut i: usize = 0;
    while i < v.len()
        invariant
            i <= v@.len(),
            r@ == v@.take(i as int),
        decreases v@.len() - i,
    {
        r.push(v[i]);
        assert(v@.take(i + 1) =~= v@.take(i as int).push(v@[i as int]));
        i += 1;
    }
    assert(v@.take(v@.len() as int) =~= v@);
    r
}

/// The objects of a scene, addressed by [`ObjectId`], and the models they use.
pub struct Scene {
    objects: Vec<Object3D>,
    models: Vec<SceneModel>,
    depth: Ghost<Seq<nat>>,
    mesh_models: HashMap<usize, SceneModelId>,
}

impl View for Scene {
    type V = SceneView;

    closed spec fn view(&self) -> SceneView {
        SceneView {
            objects: self.objects@,
            models: self.models@,
            depth: self.depth@,
            mesh_models: self.mesh_models@,
        }
    }
}

impl Scene {
    /// An empty scene.
    pub fn new() -> (r: Scene)
        ensures
            r@.wf(),
            r@.objects.len() == 0,
            r@.models.len() == 0,
            r@.mesh_models == Map::<usize, SceneModelId>::empty(),
    {
        Scene {
            objects: Vec::new(),
            models: Vec::new(),
            depth: Ghost(Seq::empty()),
            mesh_models: HashMap::new(),
        }
    }

    /// Adds `object` as a root with a stale world matrix and no children,
    /// whatever links it carried, and returns its id.
    pub fn add_object(&mut self, object: Object3D) -> (id: ObjectId)
        requires
            old(self)@.wf(),
            object.transform@.wf(),
        ensures
            final(self)@.wf(),
            id.index == old(self)@.len(),
            final(self)@.len() == old(self)@.len() + 1,
            final(self)@.objects.take(old(self)@.len()) == old(self)@.objects,
            final(self)@.models == old(self)@.models,
            final(self)@.mesh_models == old(self)@.mesh_models,
            final(self)@.depth == old(self)@.depth.push(0),
            final(self)@.objects[id.index as int].name == object.name,
            final(self)@.objects[id.index as int].model_id == object.model_id,
            final(self)@.objects[id.index as int].enabled == object.enabled,
            final(self)@.objects[id.index as int].parent_id.is_none(),
            final(self)@.objects[id.index as int].child_ids@.len() == 0,
            final(self)@.transform(id.index as int) == (TransformView {
                world_dirty: true,
                ..object.transform@
            }),
    {
        let mut object = object;
        object.parent_id = None;
        object.child_ids = Vec::new();
        object.transform.invalidate_world();
        let id = ObjectId { index: self.objects.len() };
        self.objects.push(object);
        self.depth = Ghost(self.depth@.push(0));
        proof {
            let s = self@;
            assert forall|i: int| 0 <= i < s.len() implies #[trigger] s.link_ok(i) by {
                if i < s.len() - 1 {
                    assert(s.objects[i] == old(self)@.objects[i]);
                    assert(old(self)@.link_ok(i));
                }
            }
            assert forall|i: int| 0 <= i < s.len() implies #[trigger] s.clean_ok(i) by {
                if i < s.len() - 1 {
                    assert(s.objects[i] == old(self)@.objects[i]);
                    assert(old(self)@.link_ok(i));
                    assert(old(self)@.clean_ok(i));
                    if let Some(p) = s.parent(i) {
                        assert(s.objects[p.index as int] == old(self)@.objects[p.index as int]);
                    }
                }
            }
            assert(s.objects.take(old(self)@.len()) =~= old(self)@.objects);
        }
        id
    }

    /// The object with id `id`, if the scene holds one.
    pub fn get_object(&self, id: ObjectId) -> (r: Option<&Object3D>)
        ensures
            id.index < self@.len() ==> r == Some(&self@.objects[id.index as int]),
            id.index >= self@.len() ==> r.is_none(),
    {
        if id.index < self.objects.len() {
            Some(&self.objects[id.index])
        } else {
            None
        }
    }

    /// The transform of the object with id `id`, if the scene holds one.
    pub fn get_object_transform(&self, id: ObjectId) -> (r: Option<&Transform>)
        ensures
            id.index < self@.len() ==> r == Some(&self@.objects[id.index as int].transform),
            id.index >= self@.len() ==> r.is_none(),
    {
        if id.index < self.objects.len() {
            Some(&self.objects[id.index].transform)
        } else {
            None
        }
    }

    /// Number of objects in the scene.
    pub fn object_count(&self) -> (r: usize)
        ensures
            r == self@.len(),
    {
        self.objects.len()
    }

    /// Adds a model and returns its id.
    pub fn add_model(&mut self, model: SceneModel) -> (id: SceneModelId)
        requires
            old(self)@.wf(),
        ensures
            final(self)@.wf(),
            id.index == old(self)@.models.len(),
            final(self)@.models == old(self)@.models.push(model),
            final(self)@.mesh_models == old(self)@.mesh_models,
            final(self)@.objects == old(self)@.objects,
            final(self)@.depth == old(self)@.depth,
    {
        let id = SceneModelId { index: self.models.len() };
        self.models.push(model);
        proof {
            let s = self@;
            assert forall|i: int| 0 <= i < s.len() implies #[trigger] s.link_ok(i) by {
                assert(old(self)@.link_ok(i));
            }
            assert forall|i: int| 0 <= i < s.len() implies #[trigger] s.clean_ok(i) by {
                assert(old(self)@.clean_ok(i));
            }
        }
        id
    }

    fn descends(&self, i: usize, x: usize) -> (r: bool)
        requires
            self@.structure_ok(),
            i < self@.len(),
        ensures
            r == self@.is_descendant(i as int, x as int),
    {
        let mut cur: usize = i;
        loop
            invariant
                self@.structure_ok(),
                cur < self@.len(),
                self@.is_descendant(i as int, x as int) == self@.is_descendant(cur as int, x as int),
            decreases self@.depth[cur as int],
        {
            proof {
                lemma_descendant_step(self@, cur as int, x as int);
                assert(self@.link_ok(cur as int));
            }
            if cur == x {
                return true;
            }
            match self.objects[cur].parent_id {
                None => {
                    return false;
                },
                Some(p) => {
                    cur = p.index;
                },
            }
        }
    }

    /// Whether `object` is `ancestor` or lies below it in the hierarchy.
    pub fn is_descendant(&self, object: ObjectId, ancestor: ObjectId) -> (r: bool)
        requires
            self@.structure_ok(),
        ensures
            object.index < self@.len() ==> r == self@.is_descendant(object.index as int, ancestor.index as int),
            object.index >= self@.len() ==> !r,
    {
        if object.index < self.objects.len() {
            self.descends(object.index, ancestor.index)
        } else {
            false
        }
    }

    /// Marks `x` and everything below it world-dirty. Before the call, only
    /// those objects may break the clean-object invariant.
    fn mark_hierarchy_dirty(&mut self, x: usize)
        requires
            old(self)@.structure_ok(),
            forall|i: int|
                0 <= i < old(self)@.len() && !old(self)@.is_descendant(i, x as int)
                    ==> #[trigger] old(self)@.clean_ok(i),
        ensures
            final(self)@.wf(),
            old(self)@.same_but_dirty(final(self)@),
            forall|i: int|
                0 <= i < old(self)@.len() ==> #[trigger] final(self)@.dirty(i) == (old(self)@.dirty(i)
                    || old(self)@.is_descendant(i, x as int)),
            forall|i: int|
                0 <= i < old(self)@.len() ==> old(self)@.is_descendant(i, x as int)
                    == #[trigger] final(self)@.is_descendant(i, x as int),
    {
        let n = self.objects.len();
        let mut marks: Vec<bool> = Vec::new();
        let mut i: usize = 0;
        while i < n
            invariant
                n == self@.len(),
                self@.structure_ok(),
                i <= n,
                marks@.len() == i,
                forall|j: int| 0 <= j < i ==> marks@[j] == self@.is_descendant(j, x as int),
            decreases n - i,
        {
            let m = self.descends(i, x);
            marks.push(m);
            i += 1;
        }
        let ghost start = self@;
        i = 0;
        while i < n
            invariant
                n == start.len(),
                start == old(self)@,
                start.structure_ok(),
                i <= n,
                marks@.len() == n,
                forall|j: int| 0 <= j < n ==> marks@[j] == start.is_descendant(j, x as int),
                start.same_but_dirty(self@),
                forall|j: int|
                    0 <= j < n ==> #[trigger] self@.dirty(j) == (start.dirty(j) || (j < i
                        && start.is_descendant(j, x as int))),
            decreases n - i,
        {
            let ghost before = self@;
            if marks[i] {
                self.objects[i].transform.invalidate_world();
            }
            proof {
                assert forall|j: int| 0 <= j < n implies #[trigger] start.same_transform_but_dirty(self@, j) by {
                    assert(start.same_transform_but_dirty(before, j));
                    if j != i {
                        assert(self@.objects[j] == before.objects[j]);
                    }
                }
                assert forall|j: int| 0 <= j < n implies #[trigger] self@.dirty(j) == (start.dirty(j) || (j < i + 1
                        && start.is_descendant(j, x as int))) by {
                    assert(before.dirty(j) == (start.dirty(j) || (j < i && start.is_descendant(j, x as int))));
                    if j != i {
                        assert(self@.objects[j] == before.objects[j]);
                    }
                }
                assert(start.same_links(self@)) by {
                    assert forall|j: int| 0 <= j < n implies #[trigger] self@.objects[j].name == start.objects[j].name
                        && self@.objects[j].model_id == start.objects[j].model_id
                        && self@.objects[j].parent_id == start.objects[j].parent_id
                        && self@.objects[j].child_ids == start.objects[j].child_ids
                        && self@.objects[j].enabled == start.objects[j].enabled by {
                        if j != i {
                            assert(self@.objects[j] == before.objects[j]);
                        }
                    }
                }
            }
            i += 1;
        }
        proof {
            let s = self@;
            assert forall|j: int| 0 <= j < n implies #[trigger] s.link_ok(j) by {
                assert(start.link_ok(j));
                assert(s.dirty(j) == (start.dirty(j) || start.is_descendant(j, x as int)));
                assert(s.objects[j].parent_id == start.objects[j].parent_id);
                assert(start.same_transform_but_dirty(s, j));
            }
            assert forall|j: int| 0 <= j < n implies #[trigger] s.clean_ok(j) by {
                assert(start.link_ok(j));
                assert(start.same_transform_but_dirty(s, j));
                if !s.dirty(j) {
                    lemma_descendant_step(start, j, x as int);
                    assert(start.clean_ok(j));
                    if let Some(p) = s.parent(j) {
                        assert(start.same_transform_but_dirty(s, p.index as int));
                    }
                }
            }
            assert forall|j: int| 0 <= j < n implies start.is_descendant(j, x as int)
                == #[trigger] s.is_descendant(j, x as int) by {
                lemma_same_links_reaches(start, s, j, x as int, start.depth[j]);
            }
        }
    }

    /// Marks the object and every object below it world-dirty, and nothing else.
    pub fn invalidate_object_hierarchy(&mut self, object_id: ObjectId)
        requires
            old(self)@.wf(),
        ensures
            final(self)@.wf(),
            old(self)@.same_but_dirty(final(self)@),
            forall|i: int|
                0 <= i < old(self)@.len() ==> #[trigger] final(self)@.dirty(i) == (old(self)@.dirty(i)
                    || old(self)@.is_descendant(i, object_id.index as int)),
    {
        self.mark_hierarchy_dirty(object_id.index);
    }

    /// Moves `child_id` under `new_parent_id`, or makes it a root: removes it
    /// from its old parent's child list, appends it to the new parent's, and
    /// invalidates the moved subtree. An id that the scene does not hold
    /// changes nothing. The new parent must not lie in the moved subtree.
    pub fn set_object_parent(&mut self, child_id: ObjectId, new_parent_id: Option<ObjectId>)
        requires
            old(self)@.wf(),
            new_parent_id matches Some(p) ==> p.index < old(self)@.len()
                && !old(self)@.is_descendant(p.index as int, child_id.index as int),
        ensures
            final(self)@.wf(),
            child_id.index >= old(self)@.len() ==> final(self)@ == old(self)@,
            child_id.index < old(self)@.len() ==> {
                &&& final(self)@.len() == old(self)@.len()
                &&& final(self)@.models == old(self)@.models
                &&& final(self)@.mesh_models == old(self)@.mesh_models
                &&& final(self)@.parent(child_id.index as int) == new_parent_id
                &&& forall|j: int| 0 <= j < old(self)@.len() ==> {
                    &&& (#[trigger] final(self)@.objects[j]).name == old(self)@.objects[j].name
                    &&& final(self)@.objects[j].model_id == old(self)@.objects[j].model_id
                    &&& final(self)@.objects[j].enabled == old(self)@.objects[j].enabled
                    &&& (j != child_id.index ==> final(self)@.parent(j) == old(self)@.parent(j))
                    &&& final(self)@.objects[j].child_ids@ == old(self)@.relinked_children(
                        j,
                        child_id,
                        new_parent_id,
                    )
                    &&& old(self)@.same_transform_but_dirty(final(self)@, j)
                    &&& final(self)@.dirty(j) == (old(self)@.dirty(j) || final(self)@.is_descendant(
                        j,
                        child_id.index as int,
                    ))
                }
            },
    {
        if child_id.index >= self.objects.len() {
            return;
        }
        let n = self.objects.len();
        let c = child_id.index;
        let ghost s0 = self@;
        proof {
            assert(s0.link_ok(c as int));
        }
        if let Some(op) = self.objects[c].parent_id {
            let opi = op.index;
            let len = self.objects[opi].child_ids.len();
            let mut kept: Vec<ObjectId> = Vec::new();
            let mut k: usize = 0;
            while k < len
                invariant
                    self@ == s0,
                    opi < n,
                    n == s0.len(),
                    k <= len,
                    len == s0.objects[opi as int].child_ids@.len(),
                    kept@ == without(s0.objects[opi as int].child_ids@.take(k as int), child_id),
                decreases len - k,
            {
                let id = self.objects[opi].child_ids[k];
                if id != child_id {
                    kept.push(id);
                }
                proof {
                    let ids = s0.objects[opi as int].child_ids@;
                    assert(ids.take(k + 1).drop_last() =~= ids.take(k as int));
                    assert(ids.take(k + 1).last() == id);
                    reveal_with_fuel(Seq::filter, 2);
                }
                k += 1;
            }
            proof {
                let ids = s0.objects[opi as int].child_ids@;
                assert(ids.take(len as int) =~= ids);
            }
            self.objects[opi].child_ids = kept;
        }
        let ghost s1 = self@;
        proof {
            assert forall|j: int| 0 <= j < n implies {
                &&& s1.objects[j].name == s0.objects[j].name
                &&& s1.objects[j].model_id == s0.objects[j].model_id
                &&& s1.objects[j].enabled == s0.objects[j].enabled
                &&& s1.parent(j) == s0.parent(j)
                &&& s1.transform(j) == s0.transform(j)
                &&& s1.objects[j].child_ids@ == if s0.parent(c as int) == Some(ObjectId { index: j as usize }) {
                    without(s0.objects[j].child_ids@, child_id)
                } else {
                    s0.objects[j].child_ids@
                }
            } by {
                if let Some(op) = s0.parent(c as int) {
                    if j != op.index {
                        assert(s1.objects[j] == s0.objects[j]);
                        assert(ObjectId { index: j as usize } != op);
                    }
                } else {
                    assert(s1.objects[j] == s0.objects[j]);
                }
            }
        }
        self.objects[c].parent_id = new_parent_id;
        let ghost s15 = self@;
        if let Some(np) = new_parent_id {
            self.objects[np.index].child_ids.push(child_id);
        }
        let ghost nd: nat = match new_parent_id {
            Some(p) => s0.depth[p.index as int] + 1,
            None => 0,
        };
        self.depth = Ghost(
            Seq::new(
                n as nat,
                |i: int|
                    if s0.is_descendant(i, c as int) {
                        (s0.depth[i] - s0.depth[c as int] + nd) as nat
                    } else {
                        s0.depth[i]
                    },
            ),
        );
        let ghost s2 = self@;
        proof {
            assert forall|j: int| 0 <= j < n implies {
                &&& s2.objects[j].name == s0.objects[j].name
                &&& s2.objects[j].model_id == s0.objects[j].model_id
                &&& s2.objects[j].enabled == s0.objects[j].enabled
                &&& (j != c ==> s2.parent(j) == s0.parent(j))
                &&& s2.objects[j].child_ids@ == s0.relinked_children(j, child_id, new_parent_id)
                &&& s2.transform(j) == s0.transform(j)
            } by {
                if j != c {
                    assert(s15.objects[j] == s1.objects[j]);
                }
                if let Some(np) = new_parent_id {
                    if j != np.index {
                        assert(s2.objects[j] == s15.objects[j]);
                        assert(ObjectId { index: j as usize } != np);
                    } else {
                        assert(ObjectId { index: j as usize } == np);
                    }
                } else {
                    assert(s2.objects[j] == s15.objects[j]);
                }
            }
            assert forall|j: int| 0 <= j < n implies #[trigger] s2.link_ok(j) by {
                assert(s0.link_ok(j));
                lemma_descendant_step(s0, j, c as int);
                if s0.is_descendant(j, c as int) {
                    lemma_descendant_depth(s0, j, c as int);
                }
                if j != c {
                    if let Some(p) = s0.parent(j) {
                        if s0.is_descendant(p.index as int, c as int) {
                            lemma_descendant_depth(s0, p.index as int, c as int);
                        }
                    }
                }
            }
            assert forall|j: int|
                0 <= j < n && !s2.is_descendant(j, c as int) implies #[trigger] s2.clean_ok(j) by {
                assert(s0.clean_ok(j));
                assert(s0.link_ok(j));
            }
        }
        self.mark_hierarchy_dirty(c);
        proof {
            let f = self@;
            assert forall|j: int| 0 <= j < n implies {
                &&& (#[trigger] f.objects[j]).name == s0.objects[j].name
                &&& f.objects[j].model_id == s0.objects[j].model_id
                &&& f.objects[j].enabled == s0.objects[j].enabled
                &&& (j != c ==> f.parent(j) == s0.parent(j))
                &&& f.objects[j].child_ids@ == s0.relinked_children(j, child_id, new_parent_id)
                &&& s0.same_transform_but_dirty(f, j)
                &&& f.dirty(j) == (s0.dirty(j) || f.is_descendant(j, c as int))
            } by {
                assert(s2.same_transform_but_dirty(f, j));
                assert(f.dirty(j) == (s2.dirty(j) || s2.is_descendant(j, c as int)));
                assert(s2.is_descendant(j, c as int) == f.is_descendant(j, c as int));
            }
            assert(f.objects[c as int].parent_id == s2.objects[c as int].parent_id);
        }
    }

    /// Stores `t` as the transform of object `x` and invalidates its subtree.
    fn replace_transform(&mut self, x: usize, t: Transform)
        requires
            old(self)@.wf(),
            x < old(self)@.len(),
            t@.wf(),
            t@.world_dirty,
        ensures
            final(self)@.wf(),
            old(self)@.same_links(final(self)@),
            final(self)@.transform(x as int) == t@,
            forall|j: int|
                0 <= j < old(self)@.len() && j != x ==> #[trigger] old(self)@.same_transform_but_dirty(
                    final(self)@,
                    j,
                ),
            forall|j: int|
                0 <= j < old(self)@.len() ==> #[trigger] final(self)@.dirty(j) == (old(self)@.dirty(j)
                    || old(self)@.is_descendant(j, x as int)),
    {
        let ghost s0 = self@;
        self.objects[x].transform = t;
        proof {
            let s1 = self@;
            assert forall|j: int| 0 <= j < s0.len() && j != x implies s1.objects[j] == s0.objects[j] by {}
            assert(s0.same_links(s1));
            lemma_local_change(s0, s1, x as int);
        }
        let ghost s1 = self@;
        self.mark_hierarchy_dirty(x);
        proof {
            let f = self@;
            assert forall|j: int| 0 <= j < s0.len() && j != x implies #[trigger] s0.same_transform_but_dirty(f, j) by {
                assert(s1.same_transform_but_dirty(f, j));
                assert(s1.objects[j] == s0.objects[j]);
            }
            assert forall|j: int| 0 <= j < s0.len() implies #[trigger] f.dirty(j) == (s0.dirty(j)
                || s0.is_descendant(j, x as int)) by {
                assert(f.dirty(j) == (s1.dirty(j) || s1.is_descendant(j, x as int)));
                if j != x {
                    assert(s1.objects[j] == s0.objects[j]);
                }
                lemma_same_links_reaches(s0, s1, j, x as int, s0.depth[j]);
            }
            assert(s1.same_transform_but_dirty(f, x as int));
            assert(f.dirty(x as int) == (s1.dirty(x as int) || s1.is_descendant(x as int, x as int)));
            assert(f.transform(x as int) == t@);
        }
    }

    /// Sets the translation of the object, if the scene holds it, and
    /// invalidates its subtree.
    pub fn set_object_translation(&mut self, object_id: ObjectId, translation: [u32; 3])
        requires
            old(self)@.wf(),
        ensures
            final(self)@.wf(),
            object_id.index >= old(self)@.len() ==> final(self)@ == old(self)@,
            object_id.index < old(self)@.len() ==> {
                &&& old(self)@.same_links(final(self)@)
                &&& final(self)@.transform(object_id.index as int) == (TransformView {
                    translation: translation@,
                    local_dirty: true,
                    world_dirty: true,
                    changed: true,
                    ..old(self)@.transform(object_id.index as int)
                })
                &&& forall|j: int|
                    0 <= j < old(self)@.len() && j != object_id.index
                        ==> #[trigger] old(self)@.same_transform_but_dirty(final(self)@, j)
                &&& forall|j: int|
                    0 <= j < old(self)@.len() ==> #[trigger] final(self)@.dirty(j) == (old(self)@.dirty(j)
                        || old(self)@.is_descendant(j, object_id.index as int))
            },
    {
        if object_id.index < self.objects.len() {
            let mut t = self.objects[object_id.index].transform;
            t.set_translation(translation);
            self.replace_transform(object_id.index, t);
        }
    }

    /// Sets the rotation of the object, if the scene holds it, and
    /// invalidates its subtree.
    pub fn set_object_rotation(&mut self, object_id: ObjectId, rotation: [u32; 4])
        requires
            old(self)@.wf(),
        ensures
            final(self)@.wf(),
            object_id.index >= old(self)@.len() ==> final(self)@ == old(self)@,
            object_id.index < old(self)@.len() ==> {
                &&& old(self)@.same_links(final(self)@)
                &&& final(self)@.transform(object_id.index as int) == (TransformView {
                    rotation: rotation@,
                    local_dirty: true,
                    world_dirty: true,
                    changed: true,
                    ..old(self)@.transform(object_id.index as int)
                })
                &&& forall|j: int|
                    0 <= j < old(self)@.len() && j != object_id.index
                        ==> #[trigger] old(self)@.same_transform_but_dirty(final(self)@, j)
                &&& forall|j: int|
                    0 <= j < old(self)@.len() ==> #[trigger] final(self)@.dirty(j) == (old(self)@.dirty(j)
                        || old(self)@.is_descendant(j, object_id.index as int))
            },
    {
        if object_id.index < self.objects.len() {
            let mut t = self.objects[object_id.index].transform;
            t.set_rotation(rotation);
            self.replace_transform(object_id.index, t);
        }
    }

    /// Sets the uniform scale of the object, if the scene holds it, and
    /// invalidates its subtree.
    pub fn set_object_scale(&mut self, object_id: ObjectId, scale: u32)
        requires
            old(self)@.wf(),
        ensures
            final(self)@.wf(),
            object_id.index >= old(self)@.len() ==> final(self)@ == old(self)@,
            object_id.index < old(self)@.len() ==> {
                &&& old(self)@.same_links(final(self)@)
                &&& final(self)@.transform(object_id.index as int) == (TransformView {
                    scale,
                    local_dirty: true,
                    world_dirty: true,
                    changed: true,
                    ..old(self)@.transform(object_id.index as int)
                })
                &&& forall|j: int|
                    0 <= j < old(self)@.len() && j != object_id.index
                        ==> #[trigger] old(self)@.same_transform_but_dirty(final(self)@, j)
                &&& forall|j: int|
                    0 <= j < old(self)@.len() ==> #[trigger] final(self)@.dirty(j) == (old(self)@.dirty(j)
                        || old(self)@.is_descendant(j, object_id.index as int))
            },
    {
        if object_id.index < self.objects.len() {
            let mut t = self.objects[object_id.index].transform;
            t.set_scale(scale);
            self.replace_transform(object_id.index, t);
        }
    }

    /// Sets translation, rotation and scale of the object, if the scene holds
    /// it, and invalidates its subtree.
    pub fn set_object_transform(
        &mut self,
        object_id: ObjectId,
        translation: [u32; 3],
        rotation: [u32; 4],
        scale: u32,
    )
        requires
            old(self)@.wf(),
        ensures
            final(self)@.wf(),
            object_id.index >= old(self)@.len() ==> final(self)@ == old(self)@,
            object_id.index < old(self)@.len() ==> {
                &&& old(self)@.same_links(final(self)@)
                &&& final(self)@.transform(object_id.index as int) == (TransformView {
                    translation: translation@,
                    rotation: rotation@,
                    scale,
                    local_dirty: true,
                    world_dirty: true,
                    changed: true,
                    ..old(self)@.transform(object_id.index as int)
                })
                &&& forall|j: int|
                    0 <= j < old(self)@.len() && j != object_id.index
                        ==> #[trigger] old(self)@.same_transform_but_dirty(final(self)@, j)
                &&& forall|j: int|
                    0 <= j < old(self)@.len() ==> #[trigger] final(self)@.dirty(j) == (old(self)@.dirty(j)
                        || old(self)@.is_descendant(j, object_id.index as int))
            },
    {
        if object_id.index < self.objects.len() {
            let mut t = self.objects[object_id.index].transform;
            t.set_transform(translation, rotation, scale);
            self.replace_transform(object_id.index, t);
        }
    }

    /// Brings the world matrix of object `i`, and of its stale ancestors,
    /// up to date.
    fn update_world(&mut self, i: usize)
        requires
            old(self)@.wf(),
            i < old(self)@.len(),
        ensures
            final(self)@.wf(),
            old(self)@.same_links(final(self)@),
            !final(self)@.dirty(i as int),
            forall|j: int|
                0 <= j < old(self)@.len() ==> (#[trigger] final(self)@.transform(j)).same_source(
                    old(self)@.transform(j),
                ),
            forall|j: int|
                0 <= j < old(self)@.len() && !old(self)@.dirty(j) ==> #[trigger] final(self)@.transform(j)
                    == old(self)@.transform(j),
            forall|j: int|
                0 <= j < old(self)@.len() && #[trigger] final(self)@.dirty(j) ==> old(self)@.dirty(j),
            forall|j: int|
                0 <= j < old(self)@.len() && old(self)@.dirty(j) && !#[trigger] final(self)@.dirty(j)
                    ==> final(self)@.transform(j).changed,
        decreases old(self)@.depth[i as int],
    {
        let ghost s0 = self@;
        if !self.objects[i].transform.is_world_dirty() {
            return;
        }
        proof {
            assert(s0.link_ok(i as int));
        }
        let parent = self.objects[i].parent_id;
        if let Some(p) = parent {
            self.update_world(p.index);
        }
        let ghost s1 = self@;
        proof {
            assert(s1.wf());
            assert(s0.same_links(s1));
            assert forall|j: int| 0 <= j < s0.len() implies (#[trigger] s1.transform(j)).same_source(
                s0.transform(j),
            ) && (!s0.dirty(j) ==> s1.transform(j) == s0.transform(j)) && (s1.dirty(j) ==> s0.dirty(j)) by {
                if parent.is_none() {
                    assert(s1.transform(j) == s0.transform(j));
                }
            }
            assert(s1.link_ok(i as int));
            assert(s1.objects[i as int].parent_id == parent);
            if let Some(p) = parent {
                assert(!s1.dirty(p.index as int));
            }
        }
        let local = self.objects[i].transform.get_local_matrix();
        let ghost s2 = self@;
        proof {
            assert forall|j: int| 0 <= j < s0.len() && j != i implies s2.objects[j] == s1.objects[j] by {}
            assert forall|j: int| 0 <= j < s0.len() implies #[trigger] s2.link_ok(j) by {
                assert(s1.link_ok(j));
            }
            assert forall|j: int| 0 <= j < s0.len() implies #[trigger] s2.clean_ok(j) by {
                assert(s1.link_ok(j));
                assert(s1.clean_ok(j));
            }
        }
        let world = match parent {
            Some(p) => {
                let parent_world = self.objects[p.index].transform.get_world_matrix();
                multiply(&parent_world, &local)
            },
            None => local,
        };
        proof {
            assert(world@ == s2.expected_world(i as int));
        }
        self.objects[i].transform.set_world_matrix(world);
        proof {
            let f = self@;
            assert forall|j: int| 0 <= j < s0.len() && j != i implies f.objects[j] == s2.objects[j] by {}
            assert(s0.same_links(f)) by {
                assert forall|j: int| 0 <= j < s0.len() implies #[trigger] f.objects[j].name == s0.objects[j].name
                    && f.objects[j].model_id == s0.objects[j].model_id
                    && f.objects[j].parent_id == s0.objects[j].parent_id
                    && f.objects[j].child_ids == s0.objects[j].child_ids
                    && f.objects[j].enabled == s0.objects[j].enabled by {
                    assert(s1.objects[j].name == s0.objects[j].name);
                }
            }
            assert forall|j: int| 0 <= j < s0.len() implies #[trigger] f.link_ok(j) by {
                assert(s2.link_ok(j));
            }
            assert forall|j: int| 0 <= j < s0.len() implies #[trigger] f.clean_ok(j) by {
                assert(s2.link_ok(j));
                assert(s2.clean_ok(j));
                assert(s2.link_ok(i as int));
                assert(s2.clean_ok(i as int));
                if !s2.dirty(i as int) {
                    assert(f.transform(i as int).world_matrix == s2.transform(i as int).world_matrix);
                }
            }
            assert forall|j: int| 0 <= j < s0.len() implies (#[trigger] f.transform(j)).same_source(
                s0.transform(j),
            ) && (!s0.dirty(j) ==> f.transform(j) == s0.transform(j)) && (f.dirty(j) ==> s0.dirty(j)) by {
                assert(s1.transform(j).same_source(s0.transform(j)));
            }
            assert forall|j: int| 0 <= j < s0.len() && s0.dirty(j) && !#[trigger] f.dirty(j)
                implies f.transform(j).changed by {
                if j != i {
                    assert(f.objects[j] == s2.objects[j]);
                    assert(s2.objects[j] == s1.objects[j]);
                    assert(f.dirty(j) == s1.dirty(j));
                    if parent.is_none() {
                        assert(s1.transform(j) == s0.transform(j));
                    }
                }
            }
        }
    }

    /// Propagates world matrices: afterwards every object is clean and holds
    /// its parent's world matrix times its own local matrix, or its local
    /// matrix for a root. Objects that were clean are left as they were.
    pub fn late_update(&mut self)
        requires
            old(self)@.wf(),
        ensures
            final(self)@.wf(),
            final(self)@.all_clean(),
            old(self)@.same_links(final(self)@),
            forall|j: int|
                0 <= j < final(self)@.len() ==> #[trigger] final(self)@.transform(j).world_matrix
                    == final(self)@.expected_world(j),
            forall|j: int|
                0 <= j < old(self)@.len() ==> (#[trigger] final(self)@.transform(j)).same_source(
                    old(self)@.transform(j),
                ),
            forall|j: int|
                0 <= j < old(self)@.len() && !old(self)@.dirty(j) ==> #[trigger] final(self)@.transform(j)
                    == old(self)@.transform(j),
            forall|j: int|
                0 <= j < old(self)@.len() && old(self)@.dirty(j) ==> #[trigger] final(self)@.transform(j).changed,
    {
        let n = self.objects.len();
        let mut i: usize = 0;
        while i < n
            invariant
                self@.wf(),
                n == self@.len(),
                i <= n,
                old(self)@.same_links(self@),
                forall|j: int| 0 <= j < i ==> !#[trigger] self@.dirty(j),
                forall|j: int|
                    0 <= j < n ==> (#[trigger] self@.transform(j)).same_source(old(self)@.transform(j)),
                forall|j: int|
                    0 <= j < n && !old(self)@.dirty(j) ==> #[trigger] self@.transform(j)
                        == old(self)@.transform(j),
                forall|j: int|
                    0 <= j < n && old(self)@.dirty(j) && !self@.dirty(j) ==> #[trigger] self@.transform(j).changed,
            decreases n - i,
        {
            let ghost before = self@;
            self.update_world(i);
            proof {
                let f = self@;
                assert forall|j: int| 0 <= j < i + 1 implies !#[trigger] f.dirty(j) by {
                    if j < i {
                        assert(!before.dirty(j));
                    }
                }
                assert forall|j: int| 0 <= j < n implies (#[trigger] f.transform(j)).same_source(
                    old(self)@.transform(j),
                ) by {
                    assert(f.transform(j).same_source(before.transform(j)));
                    assert(before.transform(j).same_source(old(self)@.transform(j)));
                }
                assert forall|j: int| 0 <= j < n && !old(self)@.dirty(j) implies #[trigger] f.transform(j)
                    == old(self)@.transform(j) by {
                    assert(before.transform(j) == old(self)@.transform(j));
                }
                assert forall|j: int| 0 <= j < n && old(self)@.dirty(j) && !f.dirty(j) implies #[trigger] f.transform(j).changed by {
                    if before.dirty(j) {
                        assert(!f.dirty(j));
                    } else {
                        assert(before.transform(j).changed);
                        assert(f.transform(j) == before.transform(j));
                    }
                }
                assert forall|j: int| 0 <= j < n implies #[trigger] f.objects[j].name == old(self)@.objects[j].name
                    && f.objects[j].model_id == old(self)@.objects[j].model_id
                    && f.objects[j].parent_id == old(self)@.objects[j].parent_id
                    && f.objects[j].child_ids == old(self)@.objects[j].child_ids
                    && f.objects[j].enabled == old(self)@.objects[j].enabled by {
                    assert(f.objects[j].name == before.objects[j].name);
                }
            }
            i += 1;
        }
        proof {
            let f = self@;
            assert forall|j: int| 0 <= j < f.len() implies #[trigger] f.transform(j).world_matrix
                == f.expected_world(j) by {
                assert(f.clean_ok(j));
                assert(!f.dirty(j));
            }
            assert forall|j: int| 0 <= j < n && old(self)@.dirty(j) implies #[trigger] f.transform(j).changed by {
                assert(!f.dirty(j));
            }
        }
    }

    /// Clears the "changed since last frame" flag of every transform.
    pub fn early_update(&mut self)
        requires
            old(self)@.wf(),
        ensures
            final(self)@.wf(),
            old(self)@.same_links(final(self)@),
            forall|j: int|
                0 <= j < old(self)@.len() ==> #[trigger] final(self)@.transform(j) == (TransformView {
                    changed: false,
                    ..old(self)@.transform(j)
                }),
    {
        let n = self.objects.len();
        let mut i: usize = 0;
        while i < n
            invariant
                n == old(self)@.len(),
                i <= n,
                old(self)@.wf(),
                old(self)@.same_links(self@),
                forall|j: int|
                    0 <= j < n ==> #[trigger] self@.transform(j) == (TransformView {
                        changed: if j < i { false } else { old(self)@.transform(j).changed },
                        ..old(self)@.transform(j)
                    }),
            decreases n - i,
        {
            let ghost before = self@;
            self.objects[i].transform.reset_flags();
            proof {
                let f = self@;
                assert forall|j: int| 0 <= j < n && j != i implies f.objects[j] == before.objects[j] by {}
                assert forall|j: int| 0 <= j < n implies #[trigger] f.objects[j].name == old(self)@.objects[j].name
                    && f.objects[j].model_id == old(self)@.objects[j].model_id
                    && f.objects[j].parent_id == old(self)@.objects[j].parent_id
                    && f.objects[j].child_ids == old(self)@.objects[j].child_ids
                    && f.objects[j].enabled == old(self)@.objects[j].enabled by {
                    assert(before.objects[j].name == old(self)@.objects[j].name);
                }
                assert forall|j: int| 0 <= j < n implies #[trigger] f.transform(j) == (TransformView {
                    changed: if j < i + 1 { false } else { old(self)@.transform(j).changed },
                    ..old(self)@.transform(j)
                }) by {
                    assert(before.transform(j) == (TransformView {
                        changed: if j < i { false } else { old(self)@.transform(j).changed },
                        ..old(self)@.transform(j)
                    }));
                }
            }
            i += 1;
        }
        proof {
            let f = self@;
            assert forall|j: int| 0 <= j < n implies #[trigger] f.link_ok(j) by {
                assert(old(self)@.link_ok(j));
            }
            assert forall|j: int| 0 <= j < n implies #[trigger] f.clean_ok(j) by {
                assert(old(self)@.link_ok(j));
                assert(old(self)@.clean_ok(j));
                if let Some(p) = f.parent(j) {
                    assert(f.transform(p.index as int) == (TransformView {
                        changed: false,
                        ..old(self)@.transform(p.index as int)
                    }));
                }
            }
        }
    }

    /// Enables or disables the object, if the scene holds it.
    pub fn set_object_enabled(&mut self, object_id: ObjectId, enabled: bool)
        requires
            old(self)@.wf(),
        ensures
            final(self)@.wf(),
            final(self)@.models == old(self)@.models,
            final(self)@.mesh_models == old(self)@.mesh_models,
            final(self)@.depth == old(self)@.depth,
            object_id.index >= old(self)@.len() ==> final(self)@.objects == old(self)@.objects,
            object_id.index < old(self)@.len() ==> final(self)@.objects == old(self)@.objects.update(
                object_id.index as int,
                Object3D { enabled, ..old(self)@.objects[object_id.index as int] },
            ),
    {
        if object_id.index < self.objects.len() {
            self.objects[object_id.index].enabled = enabled;
            proof {
                let f = self@;
                assert(f.objects =~= old(self)@.objects.update(
                    object_id.index as int,
                    Object3D { enabled, ..old(self)@.objects[object_id.index as int] },
                ));
                assert forall|j: int| 0 <= j < f.len() implies #[trigger] f.link_ok(j) by {
                    assert(old(self)@.link_ok(j));
                }
                assert forall|j: int| 0 <= j < f.len() implies #[trigger] f.clean_ok(j) by {
                    assert(old(self)@.link_ok(j));
                    assert(old(self)@.clean_ok(j));
                }
            }
        }
    }

    /// The id of the first object named `name`, if any.
    pub fn get_object_by_name(&self, name: &str) -> (r: Option<ObjectId>)
        ensures
            r matches Some(id) ==> {
                &&& id.index < self@.len()
                &&& self@.objects[id.index as int].name@ == name@
                &&& forall|j: int| 0 <= j < id.index ==> self@.objects[j].name@ != name@
            },
            r.is_none() ==> forall|j: int| 0 <= j < self@.len() ==> self@.objects[j].name@ != name@,
    {
        let key = name.to_owned();
        let mut i: usize = 0;
        while i < self.objects.len()
            invariant
                i <= self@.len(),
                key@ == name@,
                forall|j: int| 0 <= j < i ==> self@.objects[j].name@ != name@,
            decreases self@.len() - i,
        {
            if self.objects[i].name == key {
                return Some(ObjectId { index: i });
            }
            i += 1;
        }
        None
    }

    /// The model with id `id`, if the scene holds one.
    pub fn get_model(&self, id: SceneModelId) -> (r: Option<&SceneModel>)
        ensures
            id.index < self@.models.len() ==> r == Some(&self@.models[id.index as int]),
            id.index >= self@.models.len() ==> r.is_none(),
    {
        if id.index < self.models.len() {
            Some(&self.models[id.index])
        } else {
            None
        }
    }

    /// Spawns the nodes of an imported scene, in order, as new objects, each
    /// with the node's name, translation, rotation and scale, under the
    /// object spawned for its parent node. A node with a mesh uses the model
    /// already made for that mesh index, or a new model of the mesh's
    /// primitives. Returns the object of the last node without a parent.
    pub fn spawn_gltf_scene(&mut self, nodes: &Vec<NodeDesc>) -> (r: Option<ObjectId>)
        requires
            old(self)@.wf(),
            nodes_ordered(nodes@),
        ensures
            final(self)@.wf(),
            final(self)@.len() == old(self)@.len() + nodes@.len(),
            forall|j: int|
                0 <= j < old(self)@.len() ==> {
                    &&& #[trigger] old(self)@.same_object_but_links(final(self)@, j)
                    &&& final(self)@.objects[j].child_ids@ == old(self)@.objects[j].child_ids@
                    &&& final(self)@.dirty(j) == old(self)@.dirty(j)
                },
            forall|k: int|
                0 <= k < nodes@.len() ==> #[trigger] final(self)@.spawned_as(
                    old(self)@.len() + k,
                    nodes@[k],
                    old(self)@.len(),
                ),
            forall|k: int|
                0 <= k < nodes@.len() ==> #[trigger] final(self)@.objects[old(self)@.len() + k].child_ids@
                    == spawned_children(nodes@, k, old(self)@.len() as int, nodes@.len() as int),
            old(self)@.models.len() <= final(self)@.models.len(),
            forall|i: int|
                0 <= i < old(self)@.models.len() ==> #[trigger] final(self)@.models[i] == old(self)@.models[i],
            forall|key: usize|
                old(self)@.mesh_models.contains_key(key) ==> #[trigger] final(self)@.mesh_models[key]
                    == old(self)@.mesh_models[key],
            forall|key: usize|
                #[trigger] final(self)@.mesh_models.contains_key(key) == (old(self)@.mesh_models.contains_key(key)
                    || node_uses_mesh(nodes@, nodes@.len() as int, key)),
            forall|key: usize|
                #![trigger final(self)@.mesh_models[key]]
                final(self)@.mesh_models.contains_key(key) && !old(self)@.mesh_models.contains_key(key)
                    ==> final(self)@.new_model_for(nodes@, key),
            r == match last_root(nodes@, nodes@.len() as int) {
                Some(k) => Some(ObjectId { index: (old(self)@.len() + k) as usize }),
                None => None,
            },
    {
        let n0 = self.objects.len();
        let ghost s0 = self@;
        let mut last: Option<ObjectId> = None;
        let mut k: usize = 0;
        while k < nodes.len()
            invariant
                s0 == old(self)@,
                n0 == s0.len(),
                nodes_ordered(nodes@),
                self@.wf(),
                k <= nodes@.len(),
                self@.len() == n0 + k,
                forall|j: int|
                    0 <= j < n0 ==> {
                        &&& #[trigger] s0.same_object_but_links(self@, j)
                        &&& self@.objects[j].child_ids@ == s0.objects[j].child_ids@
                        &&& self@.dirty(j) == s0.dirty(j)
                    },
                forall|j: int| 0 <= j < k ==> #[trigger] self@.spawned_as(n0 + j, nodes@[j], n0 as int),
                forall|j: int|
                    0 <= j < k ==> #[trigger] self@.objects[n0 + j].child_ids@ == spawned_children(
                        nodes@,
                        j,
                        n0 as int,
                        k as int,
                    ),
                s0.models.len() <= self@.models.len(),
                forall|i: int| 0 <= i < s0.models.len() ==> #[trigger] self@.models[i] == s0.models[i],
                forall|key: usize|
                    s0.mesh_models.contains_key(key) ==> #[trigger] self@.mesh_models[key]
                        == s0.mesh_models[key],
                forall|key: usize|
                    #[trigger] self@.mesh_models.contains_key(key) == (s0.mesh_models.contains_key(key)
                        || node_uses_mesh(nodes@, k as int, key)),
                forall|key: usize|
                    #![trigger self@.mesh_models[key]]
                    self@.mesh_models.contains_key(key) && !s0.mesh_models.contains_key(key)
                        ==> self@.new_model_for(nodes@, key),
                last == match last_root(nodes@, k as int) {
                    Some(j) => Some(ObjectId { index: (n0 + j) as usize }),
                    None => None,
                },
            decreases nodes@.len() - k,
        {
            let node = &nodes[k];
            let ghost before = self@;
            let mut object = Object3D::new(node.name.clone());
            object.transform.set_transform(node.translation, node.rotation, node.scale);
            if let Some(mesh) = &node.mesh {
                let found = self.mesh_models.get(&mesh.mesh_index);
                let model_id = match found {
                    Some(id) => *id,
                    None => {
                        let id = self.add_model(SceneModel::new(copy_primitives(&mesh.primitives)));
                        let ghost mid = self@;
                        self.mesh_models.insert(mesh.mesh_index, id);
                        proof {
                            lemma_wf_same_objects(mid, self@);
                        }
                        id
                    },
                };
                object.model_id = Some(model_id);
            }
            let ghost before_add = self@;
            let id = self.add_object(object);
            let ghost added = self@;
            if let Some(p) = node.parent {
                proof {
                    assert(p < k);
                    assert forall|j: int| 0 <= j < added.len() implies (#[trigger] added.parent(j)) != Some(
                        ObjectId { index: id.index },
                    ) by {
                        if j < added.len() - 1 {
                            assert(before_add.link_ok(j));
                            assert(added.objects[j] == before_add.objects[j]);
                        }
                    }
                    lemma_no_children_no_descendants(added, id.index as int, n0 + p);
                }
                self.set_object_parent(id, Some(ObjectId { index: n0 + p }));
                proof {
                    let f = self@;
                    assert forall|j: int| 0 <= j < f.len() implies (#[trigger] f.parent(j)) != Some(
                        ObjectId { index: id.index },
                    ) by {
                        if j < added.len() - 1 {
                            assert(before_add.link_ok(j));
                            assert(added.objects[j] == before_add.objects[j]);
                        }
                    }
                    assert forall|j: int| 0 <= j < f.len() && j != id.index implies !#[trigger] f.is_descendant(j, id.index as int) by {
                        lemma_no_children_no_descendants(f, id.index as int, j);
                    }
                }
            } else {
                last = Some(id);
            }
            proof {
                let f = self@;
                assert forall|j: int| 0 <= j < n0 implies {
                    &&& #[trigger] s0.same_object_but_links(f, j)
                    &&& f.objects[j].child_ids@ == s0.objects[j].child_ids@
                    &&& f.dirty(j) == s0.dirty(j)
                } by {
                    assert(s0.same_object_but_links(before, j));
                    assert(before_add.objects == before.objects);
                    assert(added.objects[j] == before_add.objects[j]);
                    if let Some(p) = node.parent {
                        assert(added.parent(id.index as int).is_none());
                        assert(ObjectId { index: j as usize } != ObjectId { index: (n0 + p) as usize });
                        assert(f.objects[j].child_ids@ == added.relinked_children(j, id, Some(ObjectId { index: (n0 + p) as usize })));
                        assert(added.same_transform_but_dirty(f, j));
                        assert(!f.is_descendant(j, id.index as int));
                    } else {
                        assert(f == added);
                    }
                }
                assert forall|j: int| 0 <= j < k + 1 implies #[trigger] f.spawned_as(n0 + j, nodes@[j], n0 as int) by {
                    if j < k {
                        assert(before.spawned_as(n0 + j, nodes@[j], n0 as int));
                        assert(added.objects[n0 + j] == before_add.objects[n0 + j]);
                        if let Some(m) = nodes@[j].mesh {
                            assert(node_uses_mesh(nodes@, k as int, m.mesh_index));
                        }
                    }
                }
                assert forall|j: int| 0 <= j < k + 1 implies #[trigger] f.objects[n0 + j].child_ids@
                    == spawned_children(nodes@, j, n0 as int, k + 1) by {
                    assert(added.objects[n0 + j] == before_add.objects[n0 + j] || j == k);
                    if j == k {
                        lemma_no_earlier_children(nodes@, k as int, n0 as int, k + 1);
                    }
                    if let Some(p) = node.parent {
                        assert(added.parent(id.index as int).is_none());
                        assert(f.objects[n0 + j].child_ids@ == added.relinked_children(
                            n0 + j,
                            id,
                            Some(ObjectId { index: (n0 + p) as usize }),
                        ));
                        if j == p {
                            assert(ObjectId { index: (n0 + j) as usize } == ObjectId { index: (n0 + p) as usize });
                        } else {
                            assert(ObjectId { index: (n0 + j) as usize } != ObjectId { index: (n0 + p) as usize });
                        }
                    } else {
                        assert(f == added);
                    }
                }
                assert forall|key: usize| #[trigger] f.mesh_models.contains_key(key) == (s0.mesh_models.contains_key(key)
                    || node_uses_mesh(nodes@, k + 1, key)) by {
                    if node_uses_mesh(nodes@, k + 1, key) && !node_uses_mesh(nodes@, k as int, key) {
                        let j = choose|j: int| 0 <= j < k + 1 && ((#[trigger] nodes@[j]).mesh matches Some(m) && m.mesh_index == key);
                        assert(j == k);
                    }
                    if node_uses_mesh(nodes@, k as int, key) {
                        let j = choose|j: int| 0 <= j < k && ((#[trigger] nodes@[j]).mesh matches Some(m) && m.mesh_index == key);
                        assert(node_uses_mesh(nodes@, k + 1, key)) by {
                            assert(0 <= j < k + 1);
                        }
                    }
                }
            }
            k += 1;
        }
        last
    }
}

} // verus!
