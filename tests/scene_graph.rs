use glam::{Mat4, Quat, Vec3};
use gpu_driven::matrix::Matrix;
use gpu_driven::scene::{MeshDesc, NodeDesc, Object3D, ObjectId, PrimitiveRef, Scene, SceneModelId};
use gpu_driven::transform::Transform;

fn v3(x: f32, y: f32, z: f32) -> [u32; 3] {
    [x.to_bits(), y.to_bits(), z.to_bits()]
}

fn quat(q: Quat) -> [u32; 4] {
    q.to_array().map(f32::to_bits)
}

fn mat(m: &Matrix) -> Mat4 {
    Mat4::from_cols_array(&m.cols.map(f32::from_bits))
}

fn world_of(scene: &Scene, id: ObjectId) -> Mat4 {
    mat(&scene.get_object_transform(id).unwrap().get_world_matrix())
}

fn dirty(scene: &Scene, id: ObjectId) -> bool {
    scene.get_object_transform(id).unwrap().is_world_dirty()
}

fn spawn(scene: &mut Scene, name: &str, translation: [u32; 3], parent: Option<ObjectId>) -> ObjectId {
    let mut object = Object3D::new(name.to_string());
    object.transform = Transform::from_translation(translation);
    let id = scene.add_object(object);
    if parent.is_some() {
        scene.set_object_parent(id, parent);
    }
    id
}

/// root -> child -> grandchild, plus a separate root `other`.
fn chain() -> (Scene, ObjectId, ObjectId, ObjectId, ObjectId) {
    let mut scene = Scene::new();
    let root = spawn(&mut scene, "root", v3(1.0, 0.0, 0.0), None);
    let child = spawn(&mut scene, "child", v3(0.0, 2.0, 0.0), Some(root));
    let grandchild = spawn(&mut scene, "grandchild", v3(0.0, 0.0, 3.0), Some(child));
    let other = spawn(&mut scene, "other", v3(5.0, 5.0, 5.0), None);
    (scene, root, child, grandchild, other)
}

#[test]
fn propagation_composes_parent_world_with_local() {
    let (mut scene, root, child, grandchild, other) = chain();
    scene.set_object_scale(child, 2.0f32.to_bits());
    scene.late_update();
    let root_local = Mat4::from_translation(Vec3::new(1.0, 0.0, 0.0));
    let child_local =
        Mat4::from_scale_rotation_translation(Vec3::splat(2.0), Quat::IDENTITY, Vec3::new(0.0, 2.0, 0.0));
    let grandchild_local = Mat4::from_translation(Vec3::new(0.0, 0.0, 3.0));
    assert_eq!(world_of(&scene, root), root_local);
    assert_eq!(world_of(&scene, child), root_local * child_local);
    assert_eq!(world_of(&scene, grandchild), root_local * child_local * grandchild_local);
    assert_eq!(world_of(&scene, other), Mat4::from_translation(Vec3::new(5.0, 5.0, 5.0)));
    // the grandchild sits at (1, 2, 0) + 2 * (0, 0, 3)
    let p = world_of(&scene, grandchild).transform_point3(Vec3::ZERO);
    assert_eq!(p, Vec3::new(1.0, 2.0, 6.0));
    for id in [root, child, grandchild, other] {
        assert!(!dirty(&scene, id));
    }
}

#[test]
fn roots_world_equals_local() {
    let mut scene = Scene::new();
    let root = spawn(&mut scene, "root", v3(0.0, 0.0, 0.0), None);
    let q = Quat::from_rotation_y(0.5);
    scene.set_object_transform(root, v3(3.0, -1.0, 2.0), quat(q), 0.5f32.to_bits());
    scene.late_update();
    let expected = Mat4::from_scale_rotation_translation(Vec3::splat(0.5), q, Vec3::new(3.0, -1.0, 2.0));
    assert_eq!(world_of(&scene, root), expected);
}

#[test]
fn invalidation_marks_subtree_only() {
    let (mut scene, root, child, grandchild, other) = chain();
    scene.late_update();
    scene.set_object_translation(child, v3(0.0, 4.0, 0.0));
    assert!(!dirty(&scene, root));
    assert!(dirty(&scene, child));
    assert!(dirty(&scene, grandchild));
    assert!(!dirty(&scene, other));
    scene.late_update();
    let expected = Mat4::from_translation(Vec3::new(1.0, 4.0, 3.0));
    assert_eq!(world_of(&scene, grandchild), expected);
}

#[test]
fn invalidate_object_hierarchy_from_leaf() {
    let (mut scene, root, child, grandchild, other) = chain();
    scene.late_update();
    scene.invalidate_object_hierarchy(grandchild);
    assert!(!dirty(&scene, root));
    assert!(!dirty(&scene, child));
    assert!(dirty(&scene, grandchild));
    assert!(!dirty(&scene, other));
    scene.invalidate_object_hierarchy(ObjectId { index: 99 });
    assert!(!dirty(&scene, root));
}

#[test]
fn reparenting_moves_child_lists_and_invalidates() {
    let (mut scene, root, child, grandchild, other) = chain();
    scene.late_update();
    scene.set_object_parent(child, Some(other));
    assert_eq!(scene.get_object(root).unwrap().child_ids.len(), 0);
    assert_eq!(scene.get_object(other).unwrap().child_ids, vec![child]);
    assert_eq!(scene.get_object(child).unwrap().parent_id, Some(other));
    assert!(dirty(&scene, child));
    assert!(dirty(&scene, grandchild));
    assert!(!dirty(&scene, root));
    assert!(!dirty(&scene, other));
    scene.late_update();
    let expected = Mat4::from_translation(Vec3::new(5.0, 7.0, 8.0));
    assert_eq!(world_of(&scene, grandchild), expected);
    scene.set_object_parent(child, None);
    assert_eq!(scene.get_object(other).unwrap().child_ids.len(), 0);
    assert_eq!(scene.get_object(child).unwrap().parent_id, None);
}

#[test]
fn descendant_queries() {
    let (scene, root, child, grandchild, other) = chain();
    assert!(scene.is_descendant(grandchild, root));
    assert!(scene.is_descendant(child, child));
    assert!(!scene.is_descendant(root, child));
    assert!(!scene.is_descendant(other, root));
    assert!(!scene.is_descendant(ObjectId { index: 42 }, root));
}

#[test]
fn lookup_by_name() {
    let (scene, _root, child, _grandchild, _other) = chain();
    assert_eq!(scene.get_object_by_name("child"), Some(child));
    assert_eq!(scene.get_object_by_name("missing"), None);
    assert_eq!(scene.object_count(), 4);
}

#[test]
fn early_update_clears_changed_flags() {
    let (mut scene, root, ..) = chain();
    scene.late_update();
    assert!(scene.get_object_transform(root).unwrap().has_changed());
    scene.early_update();
    assert!(!scene.get_object_transform(root).unwrap().has_changed());
    scene.set_object_translation(root, v3(2.0, 0.0, 0.0));
    assert!(scene.get_object_transform(root).unwrap().has_changed());
}

#[test]
fn transform_local_matrix_cache() {
    let mut t = Transform::from_translation(v3(1.0, 2.0, 3.0));
    assert!(t.is_world_dirty());
    let local = t.get_local_matrix();
    assert_eq!(mat(&local), Mat4::from_translation(Vec3::new(1.0, 2.0, 3.0)));
    t.set_world_matrix(local);
    assert!(!t.is_world_dirty());
    t.translate(v3(1.0, 1.0, 1.0));
    assert_eq!(t.translation(), v3(2.0, 3.0, 4.0));
    assert!(t.is_world_dirty());
    let q0 = Quat::from_rotation_x(0.25);
    t.set_rotation(quat(q0));
    let q1 = Quat::from_rotation_z(1.0);
    t.rotate(quat(q1));
    let q = q0 * q1;
    assert_eq!(t.rotation(), quat(q));
    t.set_scale(3.0f32.to_bits());
    assert_eq!(t.scale(), 3.0f32.to_bits());
    let local = t.get_local_matrix();
    let expected = Mat4::from_scale_rotation_translation(Vec3::splat(3.0), q, Vec3::new(2.0, 3.0, 4.0));
    assert_eq!(mat(&local), expected);
    t.reset_flags();
    assert!(!t.has_changed());
}

#[test]
fn out_of_range_ids_change_nothing() {
    let (mut scene, root, ..) = chain();
    scene.late_update();
    scene.set_object_translation(ObjectId { index: 10 }, v3(9.0, 9.0, 9.0));
    scene.set_object_parent(ObjectId { index: 10 }, Some(root));
    assert!(!dirty(&scene, root));
    assert!(scene.get_object(ObjectId { index: 10 }).is_none());
}

fn node(name: &str, x: f32, mesh: Option<usize>, parent: Option<usize>) -> NodeDesc {
    NodeDesc {
        name: name.to_string(),
        translation: v3(x, 0.0, 0.0),
        rotation: quat(Quat::IDENTITY),
        scale: 1.0f32.to_bits(),
        mesh: mesh.map(|m| MeshDesc {
            mesh_index: m,
            primitives: vec![PrimitiveRef { global_index: m as u32 * 10, material_index: 0 }],
        }),
        parent,
    }
}

#[test]
fn spawning_shares_models_by_mesh_index() {
    let mut scene = Scene::new();
    let nodes = vec![
        node("root", 1.0, Some(0), None),
        node("child", 2.0, Some(0), Some(0)),
        node("empty", 3.0, None, Some(1)),
        node("second root", 4.0, Some(1), None),
    ];
    let last = scene.spawn_gltf_scene(&nodes);
    assert_eq!(last, Some(ObjectId { index: 3 }));
    assert_eq!(scene.object_count(), 4);
    let root = scene.get_object(ObjectId { index: 0 }).unwrap();
    let child = scene.get_object(ObjectId { index: 1 }).unwrap();
    let empty = scene.get_object(ObjectId { index: 2 }).unwrap();
    let second = scene.get_object(ObjectId { index: 3 }).unwrap();
    assert_eq!(root.model_id, Some(SceneModelId { index: 0 }));
    assert_eq!(child.model_id, Some(SceneModelId { index: 0 }));
    assert_eq!(empty.model_id, None);
    assert_eq!(second.model_id, Some(SceneModelId { index: 1 }));
    assert_eq!(child.parent_id, Some(ObjectId { index: 0 }));
    assert_eq!(child.parent(&scene).unwrap().name, "root");
    assert!(root.parent(&scene).is_none());
    assert_eq!(empty.parent_id, Some(ObjectId { index: 1 }));
    assert_eq!(root.child_ids, vec![ObjectId { index: 1 }]);
    assert_eq!(second.name, "second root");
    assert_eq!(scene.get_model(SceneModelId { index: 1 }).unwrap().primitives[0].global_index, 10);
    assert!(scene.get_model(SceneModelId { index: 2 }).is_none());
    scene.late_update();
    let p = world_of(&scene, ObjectId { index: 2 }).transform_point3(Vec3::ZERO);
    assert_eq!(p, Vec3::new(6.0, 0.0, 0.0));
    // a second import reuses the model of mesh 1
    let more = vec![node("again", 0.0, Some(1), None)];
    let id = scene.spawn_gltf_scene(&more).unwrap();
    assert_eq!(scene.get_object(id).unwrap().model_id, Some(SceneModelId { index: 1 }));
    assert_eq!(scene.spawn_gltf_scene(&Vec::new()), None);
}

#[test]
fn default_object_is_an_enabled_root() {
    let object = Object3D::default();
    assert!(object.name.is_empty());
    assert!(object.enabled);
    assert!(object.parent_id.is_none() && object.model_id.is_none() && object.child_ids.is_empty());
    assert_eq!(object.transform.translation(), [0, 0, 0]);
    assert!(object.transform.is_world_dirty());
}

#[test]
fn default_objects_propagate_their_translations() {
    let mut s = Scene::new();
    let p = s.add_object(Object3D::default());
    let c = s.add_object(Object3D::default());
    s.set_object_parent(c, Some(p));
    s.set_object_translation(p, v3(1.0, 0.0, 0.0));
    s.set_object_translation(c, v3(0.0, 2.0, 0.0));
    s.late_update();
    assert_eq!(world_of(&s, p), Mat4::from_translation(Vec3::new(1.0, 0.0, 0.0)));
    assert_eq!(world_of(&s, c), Mat4::from_translation(Vec3::new(1.0, 2.0, 0.0)));
}

#[test]
fn propagation_marks_moved_objects_changed() {
    let (mut scene, root, child, grandchild, other) = chain();
    scene.late_update();
    scene.early_update();
    scene.set_object_translation(child, v3(0.0, 1.0, 0.0));
    scene.late_update();
    let changed = |id| scene.get_object_transform(id).unwrap().has_changed();
    assert!(changed(child));
    assert!(changed(grandchild));
    assert!(!changed(root));
    assert!(!changed(other));
}

#[test]
fn spawned_objects_list_their_children_in_node_order() {
    let mut scene = Scene::new();
    let nodes = vec![
        node("root", 0.0, None, None),
        node("a", 1.0, None, Some(0)),
        node("b", 2.0, None, Some(0)),
        node("a child", 3.0, None, Some(1)),
    ];
    scene.spawn_gltf_scene(&nodes);
    let ids = |i: usize| scene.get_object(ObjectId { index: i }).unwrap().child_ids.clone();
    assert_eq!(ids(0), vec![ObjectId { index: 1 }, ObjectId { index: 2 }]);
    assert_eq!(ids(1), vec![ObjectId { index: 3 }]);
    assert!(ids(2).is_empty() && ids(3).is_empty());
}

#[test]
fn world_matrix_keeps_its_inverse_transpose() {
    let mut t = Transform::from_translation(v3(1.0, 2.0, 3.0));
    let world = Mat4::from_scale_rotation_translation(Vec3::splat(2.0), Quat::from_rotation_y(0.3), Vec3::new(4.0, 5.0, 6.0));
    let bits = Matrix::from_bits(world.to_cols_array().map(f32::to_bits));
    // allowed from any state, even with a stale local matrix
    t.set_world_matrix(bits);
    assert!(!t.is_world_dirty());
    assert!(t.has_changed());
    assert_eq!(mat(&t.get_world_matrix()), world);
    assert_eq!(mat(&t.get_inverse_transpose_world_matrix()), world.inverse().transpose());
    assert_eq!(t.translation(), v3(1.0, 2.0, 3.0));
}
