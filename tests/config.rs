use gpu_driven::config::{plan_indirect_draw, CapabilityError, IndirectDraw, RenderConfig};
use gpu_driven::culling::{Frustum, GpuFrustum, Plane};
use gpu_driven::drawable::MAX_MESHES;
use gpu_driven::stages::{dispatch_workgroup_count, WORKGROUP_SIZE};

#[test]
fn adapter_features_choose_the_draw_call() {
    assert_eq!(RenderConfig::for_adapter(false, true).err(), Some(CapabilityError::MissingMultiDrawIndirect));
    let with_count = RenderConfig::for_adapter(true, true).unwrap();
    assert!(with_count.use_multi_draw_indirect_count);
    assert_eq!(plan_indirect_draw(&with_count), IndirectDraw::WithCount { max_count: MAX_MESHES as u32 });
    let fixed = RenderConfig::for_adapter(true, false).unwrap();
    assert!(!fixed.use_multi_draw_indirect_count);
    assert_eq!(plan_indirect_draw(&fixed), IndirectDraw::Fixed { count: 128 });
}

#[test]
fn workgroups_cover_every_drawable() {
    assert_eq!(WORKGROUP_SIZE, 64);
    assert_eq!(dispatch_workgroup_count(0), 0);
    assert_eq!(dispatch_workgroup_count(1), 1);
    assert_eq!(dispatch_workgroup_count(64), 1);
    assert_eq!(dispatch_workgroup_count(65), 2);
    assert_eq!(dispatch_workgroup_count(32_000), 500);
    assert_eq!(dispatch_workgroup_count(u32::MAX), 67_108_864);
}

#[test]
fn gpu_frustum_packs_normal_and_distance() {
    let p = |x: f32, d: f32| Plane::new([x.to_bits(), 0, 0], d.to_bits());
    let frustum = Frustum { planes: [p(1.0, 1.0), p(2.0, 2.0), p(3.0, 3.0), p(4.0, 4.0), p(5.0, 5.0), p(6.0, 6.0)] };
    let gpu = GpuFrustum::from_frustum(&frustum);
    assert_eq!(gpu.planes[0], [1.0f32.to_bits(), 0, 0, 1.0f32.to_bits()]);
    assert_eq!(gpu.planes[5], [6.0f32.to_bits(), 0, 0, 6.0f32.to_bits()]);
}
