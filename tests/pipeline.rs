use glam::{Mat4, Vec3};
use gpu_driven::culling::{cull_drawable, Frustum, MeshInfo, Plane};
use gpu_driven::drawable::{gather_drawables_from_scene, Drawable, RenderError, MAX_DRAWABLES, MAX_MESHES};
use gpu_driven::matrix::{float_is_negative, negate, Matrix};
use gpu_driven::mesh_baker::{bake_meshes, PrimitiveGeometry};
use gpu_driven::scene::{Object3D, PrimitiveRef, Scene, SceneModel, SceneModelId};
use gpu_driven::stages::{cull_and_generate_commands, cull_drawables, generate_draw_commands, DrawCommand};
use gpu_driven::transform::Transform;

fn v3(x: f32, y: f32, z: f32) -> [u32; 3] {
    [x.to_bits(), y.to_bits(), z.to_bits()]
}

fn bits(m: Mat4) -> Matrix {
    Matrix::from_bits(m.to_cols_array().map(f32::to_bits))
}

fn at(x: f32, y: f32, z: f32) -> Matrix {
    bits(Mat4::from_translation(Vec3::new(x, y, z)))
}

fn plane(nx: f32, ny: f32, nz: f32, d: f32) -> Plane {
    Plane::new(v3(nx, ny, nz), d.to_bits())
}

/// The box [-10, 10]^3, planes facing inward.
fn box_frustum() -> Frustum {
    Frustum {
        planes: [
            plane(1.0, 0.0, 0.0, 10.0),
            plane(-1.0, 0.0, 0.0, 10.0),
            plane(0.0, 1.0, 0.0, 10.0),
            plane(0.0, -1.0, 0.0, 10.0),
            plane(0.0, 0.0, 1.0, 10.0),
            plane(0.0, 0.0, -1.0, 10.0),
        ],
    }
}

fn unit_cube(index_count: u32, first_index: u32, vertex_offset: i32) -> MeshInfo {
    MeshInfo {
        index_count,
        first_index,
        vertex_offset,
        aabb_min: v3(-0.5, -0.5, -0.5),
        aabb_max: v3(0.5, 0.5, 0.5),
    }
}

#[test]
fn inside_box_is_visible_outside_is_culled() {
    let f = box_frustum();
    let cube = unit_cube(36, 0, 0);
    assert!(cull_drawable(&f, &at(0.0, 0.0, 0.0), &cube));
    assert!(cull_drawable(&f, &at(9.0, -9.0, 9.0), &cube));
    assert!(!cull_drawable(&f, &at(50.0, 0.0, 0.0), &cube));
    assert!(!cull_drawable(&f, &at(0.0, 0.0, -11.0), &cube));
    // straddling the right plane: some corners inside
    assert!(cull_drawable(&f, &at(10.0, 0.0, 0.0), &cube));
    // scaled up by the world matrix until it reaches back inside
    let big = bits(Mat4::from_scale_rotation_translation(Vec3::splat(30.0), glam::Quat::IDENTITY, Vec3::new(20.0, 0.0, 0.0)));
    assert!(cull_drawable(&f, &big, &cube));
}

#[test]
fn degenerate_boxes_are_never_culled() {
    let f = box_frustum();
    let point = MeshInfo { index_count: 3, first_index: 0, vertex_offset: 0, aabb_min: v3(0.0, 0.0, 0.0), aabb_max: v3(0.0, 0.0, 0.0) };
    assert!(cull_drawable(&f, &at(100.0, 100.0, 100.0), &point));
    let segment = MeshInfo { aabb_max: v3(1.0, 0.0, 0.0), ..point };
    assert!(cull_drawable(&f, &at(100.0, 0.0, 0.0), &segment));
    let signed_zeros = MeshInfo { aabb_min: v3(-0.0, -0.0, 0.0), aabb_max: v3(0.0, 0.0, 1.0), ..point };
    assert!(cull_drawable(&f, &at(100.0, 0.0, 0.0), &signed_zeros));
    let flat = MeshInfo { aabb_max: v3(1.0, 1.0, 0.0), ..point };
    assert!(cull_drawable(&f, &at(100.0, 0.0, 0.0), &flat));
    let thin = MeshInfo { aabb_min: v3(0.0, -1.0, 0.0), aabb_max: v3(1.0, 1.0, 0.5), ..point };
    assert!(!cull_drawable(&f, &at(100.0, 0.0, 0.0), &thin));
}

#[test]
fn plane_flip_negates_every_coefficient() {
    let p = plane(1.0, -2.0, 0.0, 3.5).flip();
    assert_eq!(p.normal, v3(-1.0, 2.0, -0.0));
    assert_eq!(p.distance, (-3.5f32).to_bits());
    assert_eq!(negate(negate(7.0f32.to_bits())), 7.0f32.to_bits());
}

#[test]
fn float_sign_test() {
    assert!(float_is_negative((-1.0f32).to_bits()));
    assert!(float_is_negative(f32::NEG_INFINITY.to_bits()));
    assert!(!float_is_negative((-0.0f32).to_bits()));
    assert!(!float_is_negative(0.0f32.to_bits()));
    assert!(!float_is_negative(2.0f32.to_bits()));
    assert!(!float_is_negative(f32::NAN.to_bits()));
    assert!(!float_is_negative((-f32::NAN).to_bits()));
}

fn scenario() -> (Vec<Drawable>, Vec<MeshInfo>) {
    let meshes = vec![unit_cube(10, 0, 0), unit_cube(6, 10, 8)];
    let drawables = vec![
        Drawable::new(at(0.0, 0.0, 0.0), 0, 7),
        Drawable::new(at(1.0, 1.0, 1.0), 1, 8),
        Drawable::new(at(-3.0, 2.0, 0.0), 0, 7),
        Drawable::new(at(40.0, 0.0, 0.0), 1, 8),
        Drawable::new(at(5.0, 5.0, -5.0), 0, 9),
    ];
    (drawables, meshes)
}

#[test]
fn two_meshes_five_drawables() {
    let (drawables, meshes) = scenario();
    let out = cull_and_generate_commands(&drawables, &meshes, &box_frustum()).unwrap();
    assert_eq!(out.visibility, vec![true, true, true, false, true]);
    assert_eq!(out.visible_counts, vec![3, 1]);
    assert_eq!(out.base_offsets, vec![0, 3]);
    assert_eq!(out.draw_count, 2);
    assert_eq!(
        out.draw_commands,
        vec![
            DrawCommand { index_count: 10, instance_count: 3, first_index: 0, base_vertex: 0, first_instance: 0 },
            DrawCommand { index_count: 6, instance_count: 1, first_index: 10, base_vertex: 8, first_instance: 3 },
        ]
    );
    assert_eq!(out.visible_drawables.len(), 4);
    assert_eq!(
        out.visible_drawables,
        vec![drawables[0], drawables[2], drawables[4], drawables[1]]
    );
}

#[test]
fn visible_counts_add_up_to_visible_drawables() {
    let (drawables, meshes) = scenario();
    let (visibility, counts) = cull_drawables(&drawables, &meshes, &box_frustum());
    let total: u32 = counts.iter().sum();
    assert_eq!(total as usize, visibility.iter().filter(|v| **v).count());
}

#[test]
fn gathered_ranges_hold_each_visible_drawable_once() {
    let (drawables, meshes) = scenario();
    let out = cull_and_generate_commands(&drawables, &meshes, &box_frustum()).unwrap();
    for m in 0..meshes.len() {
        let start = out.base_offsets[m] as usize;
        let end = start + out.visible_counts[m] as usize;
        let mut got: Vec<Drawable> = out.visible_drawables[start..end].to_vec();
        let mut want: Vec<Drawable> = drawables
            .iter()
            .zip(out.visibility.iter())
            .filter(|(d, v)| **v && d.primitive_index as usize == m)
            .map(|(d, _)| *d)
            .collect();
        got.sort_by_key(|d| d.material_id);
        want.sort_by_key(|d| d.material_id);
        assert_eq!(got, want);
    }
}

#[test]
fn one_command_per_mesh_with_visible_instances() {
    let meshes = vec![unit_cube(3, 0, 0), unit_cube(6, 3, 4), unit_cube(9, 9, 10), unit_cube(12, 18, 20)];
    let (offsets, commands) = generate_draw_commands(&meshes, &vec![0, 2, 0, 5]);
    assert_eq!(offsets, vec![0, 0, 2, 2]);
    assert_eq!(commands.len(), 2);
    assert_eq!(commands[0], DrawCommand { index_count: 6, instance_count: 2, first_index: 3, base_vertex: 4, first_instance: 0 });
    assert_eq!(commands[1], DrawCommand { index_count: 12, instance_count: 5, first_index: 18, base_vertex: 20, first_instance: 2 });
}

#[test]
fn empty_frame_has_no_commands() {
    let meshes = vec![unit_cube(10, 0, 0)];
    let out = cull_and_generate_commands(&Vec::new(), &meshes, &box_frustum()).unwrap();
    assert_eq!(out.draw_count, 0);
    assert!(out.draw_commands.is_empty());
    assert!(out.visible_drawables.is_empty());
    assert_eq!(out.visible_counts, vec![0]);
    let none = cull_and_generate_commands(&Vec::new(), &Vec::new(), &box_frustum()).unwrap();
    assert_eq!(none.draw_count, 0);
}

#[test]
fn drawable_capacity_is_exact() {
    let meshes = vec![unit_cube(10, 0, 0)];
    let full = vec![Drawable::new(at(0.0, 0.0, 0.0), 0, 0); MAX_DRAWABLES];
    let out = cull_and_generate_commands(&full, &meshes, &box_frustum()).unwrap();
    assert_eq!(out.visible_counts, vec![MAX_DRAWABLES as u32]);
    assert_eq!(out.visible_drawables.len(), MAX_DRAWABLES);
    let over = vec![Drawable::new(at(0.0, 0.0, 0.0), 0, 0); MAX_DRAWABLES + 1];
    assert_eq!(cull_and_generate_commands(&over, &meshes, &box_frustum()).err(), Some(RenderError::TooManyDrawables));
}

#[test]
fn mesh_capacity_and_unknown_mesh() {
    let meshes = vec![unit_cube(3, 0, 0); MAX_MESHES + 1];
    let one = vec![Drawable::new(at(0.0, 0.0, 0.0), 0, 0)];
    assert_eq!(cull_and_generate_commands(&one, &meshes, &box_frustum()).err(), Some(RenderError::TooManyMeshes));
    let meshes = vec![unit_cube(3, 0, 0); MAX_MESHES];
    assert!(cull_and_generate_commands(&one, &meshes, &box_frustum()).is_ok());
    let stray = vec![Drawable::new(at(0.0, 0.0, 0.0), 1, 0)];
    let meshes = vec![unit_cube(3, 0, 0)];
    assert_eq!(cull_and_generate_commands(&stray, &meshes, &box_frustum()).err(), Some(RenderError::UnknownMesh));
}

fn scene_with_primitives(count: usize) -> Scene {
    let mut scene = Scene::new();
    let primitives: Vec<PrimitiveRef> =
        (0..count).map(|i| PrimitiveRef { global_index: (i % 3) as u32, material_index: 1 }).collect();
    let model = scene.add_model(SceneModel::new(primitives));
    let mut object = Object3D::new("holder".to_string());
    object.model_id = Some(model);
    scene.add_object(object);
    scene.late_update();
    scene
}

#[test]
fn extraction_capacity_is_exact() {
    let scene = scene_with_primitives(MAX_DRAWABLES);
    assert_eq!(gather_drawables_from_scene(&scene).unwrap().len(), MAX_DRAWABLES);
    let scene = scene_with_primitives(MAX_DRAWABLES + 1);
    assert_eq!(gather_drawables_from_scene(&scene).err(), Some(RenderError::TooManyDrawables));
}

#[test]
fn extraction_emits_one_record_per_primitive_of_enabled_objects() {
    let mut scene = Scene::new();
    let two = scene.add_model(SceneModel::new(vec![
        PrimitiveRef { global_index: 0, material_index: 5 },
        PrimitiveRef { global_index: 1, material_index: 6 },
    ]));
    let one = scene.add_model(SceneModel::new(vec![PrimitiveRef { global_index: 2, material_index: 7 }]));
    let mut a = Object3D::new("a".to_string());
    a.transform = Transform::from_translation(v3(1.0, 0.0, 0.0));
    a.model_id = Some(two);
    let mut b = Object3D::new("b".to_string());
    b.model_id = Some(one);
    let c = Object3D::new("no model".to_string());
    let mut d = Object3D::new("missing model".to_string());
    d.model_id = Some(SceneModelId { index: 9 });
    let a = scene.add_object(a);
    let b = scene.add_object(b);
    scene.add_object(c);
    scene.add_object(d);
    scene.late_update();
    let drawables = gather_drawables_from_scene(&scene).unwrap();
    assert_eq!(drawables.len(), 3);
    assert_eq!(drawables[0], Drawable::new(at(1.0, 0.0, 0.0), 0, 5));
    assert_eq!(drawables[1], Drawable::new(at(1.0, 0.0, 0.0), 1, 6));
    assert_eq!(drawables[2], Drawable::new(at(0.0, 0.0, 0.0), 2, 7));
    scene.set_object_enabled(a, false);
    let drawables = gather_drawables_from_scene(&scene).unwrap();
    assert_eq!(drawables, vec![Drawable::new(at(0.0, 0.0, 0.0), 2, 7)]);
    assert!(scene.get_object(b).unwrap().enabled);
}

#[test]
fn baking_concatenates_buffers() {
    let prims = vec![
        PrimitiveGeometry { vertices: vec![10u8, 11, 12], indices: vec![0, 1, 2], aabb_min: v3(0.0, 0.0, 0.0), aabb_max: v3(1.0, 1.0, 1.0) },
        PrimitiveGeometry { vertices: vec![20u8, 21], indices: vec![0, 1, 1, 0], aabb_min: v3(-1.0, 0.0, 0.0), aabb_max: v3(0.0, 2.0, 0.0) },
    ];
    let baked = bake_meshes(&prims).unwrap();
    assert_eq!(baked.vertices, vec![10, 11, 12, 20, 21]);
    assert_eq!(baked.indices, vec![0, 1, 2, 0, 1, 1, 0]);
    assert_eq!(baked.meshes[0], MeshInfo { index_count: 3, first_index: 0, vertex_offset: 0, aabb_min: v3(0.0, 0.0, 0.0), aabb_max: v3(1.0, 1.0, 1.0) });
    assert_eq!(baked.meshes[1], MeshInfo { index_count: 4, first_index: 3, vertex_offset: 3, aabb_min: v3(-1.0, 0.0, 0.0), aabb_max: v3(0.0, 2.0, 0.0) });
}

#[test]
fn baking_more_than_the_mesh_capacity_is_rejected() {
    let prim = || PrimitiveGeometry { vertices: vec![1u8], indices: vec![0], aabb_min: v3(0.0, 0.0, 0.0), aabb_max: v3(1.0, 1.0, 1.0) };
    let full: Vec<PrimitiveGeometry<u8>> = (0..MAX_MESHES).map(|_| prim()).collect();
    assert_eq!(bake_meshes(&full).unwrap().meshes.len(), MAX_MESHES);
    let over: Vec<PrimitiveGeometry<u8>> = (0..MAX_MESHES + 1).map(|_| prim()).collect();
    assert_eq!(bake_meshes(&over).err(), Some(RenderError::TooManyMeshes));
}

#[test]
fn extraction_ignores_stale_objects_it_does_not_draw() {
    let mut scene = Scene::new();
    let model = scene.add_model(SceneModel::new(vec![PrimitiveRef { global_index: 0, material_index: 0 }]));
    let mut drawn = Object3D::new("drawn".to_string());
    drawn.model_id = Some(model);
    let drawn = scene.add_object(drawn);
    scene.late_update();
    let hidden = scene.add_object(Object3D::new("no model, never propagated".to_string()));
    assert!(scene.get_object_transform(hidden).unwrap().is_world_dirty());
    let drawables = gather_drawables_from_scene(&scene).unwrap();
    assert_eq!(drawables, vec![Drawable::new(scene.get_object_transform(drawn).unwrap().get_world_matrix(), 0, 0)]);
}
