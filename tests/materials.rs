use gpu_driven::config::{InstanceType, RenderConfig};
use gpu_driven::materials::{
    convert_image_data_to_rgba, take_texture, ImageData, ImageFormat, MaterialId, MaterialManager, PbrMaterialData,
    pad_texture_slots, texture_slot, GltfMaterialKey, PbrMaterialInfo, TextureType,
    DEFAULT_TEXTURE_AO_ROUGHNESS_METALLIC, DEFAULT_TEXTURE_BASE_COLOR, DEFAULT_TEXTURE_NORMAL, MAX_TEXTURE_COUNT,
};

#[test]
fn missing_textures_fall_back_to_defaults() {
    let info = PbrMaterialInfo::from_texture_slots(Some(5), None, None);
    assert_eq!(info.base_color, 5);
    assert_eq!(info.normal, DEFAULT_TEXTURE_NORMAL);
    assert_eq!(info.ao_roughness_metallic, DEFAULT_TEXTURE_AO_ROUGHNESS_METALLIC);
    assert_eq!(texture_slot(TextureType::BaseColor, None), DEFAULT_TEXTURE_BASE_COLOR);
    assert_eq!(texture_slot(TextureType::Normal, Some(9)), 9);
}

#[test]
fn texture_slots_are_padded_to_capacity() {
    let mut slots = vec![3, 4, 5];
    pad_texture_slots(&mut slots);
    assert_eq!(slots.len(), MAX_TEXTURE_COUNT as usize);
    assert_eq!(&slots[..3], &[3, 4, 5]);
    assert!(slots[3..].iter().all(|s| *s == DEFAULT_TEXTURE_BASE_COLOR));
}

#[test]
fn defaults_and_keys() {
    assert_eq!(InstanceType::default(), InstanceType::Dynamic);
    assert!(!RenderConfig::default().use_multi_draw_indirect_count);
    let key = GltfMaterialKey::new("a.glb".to_string(), "metal".to_string());
    assert_eq!(key.clone(), GltfMaterialKey { file_name: "a.glb".to_string(), material_name: "metal".to_string() });
}

fn material(name: &str) -> PbrMaterialData {
    PbrMaterialData { name: name.to_string(), base_color: None, normal: None, ao_roughness_metallic: None }
}

#[test]
fn materials_are_registered_once_per_key() {
    let mut manager = MaterialManager::new();
    let a = manager.register_gltf_material(GltfMaterialKey::new("a.glb".to_string(), "metal".to_string()), material("metal"));
    let b = manager.register_gltf_material(GltfMaterialKey::new("b.glb".to_string(), "metal".to_string()), material("metal b"));
    let again = manager.register_gltf_material(GltfMaterialKey::new("a.glb".to_string(), "metal".to_string()), material("ignored"));
    assert_eq!(a, MaterialId { index: 0 });
    assert_eq!(b, MaterialId { index: 1 });
    assert_eq!(again, a);
    assert_eq!(manager.materials().len(), 2);
    assert_eq!(manager.materials()[1].name, "metal b");
    assert_eq!(manager.get_gltf_material("b.glb", "metal"), Some(b));
    assert_eq!(manager.get_gltf_material("c.glb", "metal"), None);
    let plain = manager.add_material(material("plain"));
    assert_eq!(plain, MaterialId { index: 2 });
    assert_eq!(manager.get_gltf_material("a.glb", "plain"), None);
}

#[test]
fn rgb_images_gain_an_alpha_byte_per_pixel() {
    let rgb = ImageData { pixels: vec![1, 2, 3, 4, 5, 6], format: ImageFormat::R8G8B8, width: 2, height: 1 };
    let rgba = convert_image_data_to_rgba(rgb);
    assert_eq!(rgba.pixels, vec![1, 2, 3, 255, 4, 5, 6, 255]);
    assert_eq!(rgba.format, ImageFormat::R8G8B8A8);
    assert_eq!((rgba.width, rgba.height), (2, 1));
    let ragged = ImageData { pixels: vec![1, 2, 3, 4], format: ImageFormat::R8G8B8, width: 1, height: 1 };
    assert_eq!(convert_image_data_to_rgba(ragged).pixels, vec![1, 2, 3, 255, 4, 255]);
    let already = ImageData { pixels: vec![9, 9, 9, 9], format: ImageFormat::R8G8B8A8, width: 1, height: 1 };
    assert_eq!(convert_image_data_to_rgba(already).pixels, vec![9, 9, 9, 9]);
}

#[test]
fn taking_a_texture_leaves_an_empty_image() {
    let mut images = vec![
        ImageData { pixels: vec![7, 8, 9], format: ImageFormat::R8G8B8, width: 1, height: 1 },
        ImageData { pixels: vec![1, 1, 1, 1], format: ImageFormat::R8G8B8A8, width: 1, height: 1 },
    ];
    let t = take_texture(&mut images, 0);
    assert_eq!(t.pixels, vec![7, 8, 9, 255]);
    assert!(images[0].pixels.is_empty());
    assert_eq!(images[0].format, ImageFormat::R8G8B8);
    assert_eq!(images[1].pixels, vec![1, 1, 1, 1]);
}
