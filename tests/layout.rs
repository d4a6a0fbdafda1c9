use gpu_driven::drawable::{Drawable, MAX_MESHES};
use gpu_driven::layout::{
    encode_draw_command_buffer, encode_draw_commands, encode_draw_count, encode_drawables, DRAWABLE_STRIDE,
    DRAW_COMMAND_STRIDE,
};
use gpu_driven::matrix::Matrix;
use gpu_driven::stages::DrawCommand;

#[test]
fn draw_commands_are_packed_little_endian() {
    let commands = vec![
        DrawCommand { index_count: 10, instance_count: 3, first_index: 0x0102_0304, base_vertex: -1, first_instance: 7 },
        DrawCommand { index_count: 6, instance_count: 1, first_index: 10, base_vertex: 8, first_instance: 3 },
    ];
    let bytes = encode_draw_commands(&commands);
    assert_eq!(bytes.len(), 2 * DRAW_COMMAND_STRIDE);
    assert_eq!(&bytes[0..4], &10u32.to_le_bytes());
    assert_eq!(&bytes[8..12], &[4, 3, 2, 1]);
    assert_eq!(&bytes[12..16], &(-1i32).to_le_bytes());
    assert_eq!(&bytes[16..20], &7u32.to_le_bytes());
    assert_eq!(&bytes[20..24], &6u32.to_le_bytes());
    assert!(encode_draw_commands(&Vec::new()).is_empty());
}

#[test]
fn drawables_are_packed_with_padding() {
    let mut cols = [0u32; 16];
    for (i, c) in cols.iter_mut().enumerate() {
        *c = (i as f32).to_bits();
    }
    let d = Drawable::new(Matrix::from_bits(cols), 5, 0xdead_beef);
    let bytes = encode_drawables(&vec![d, d]);
    assert_eq!(bytes.len(), 2 * DRAWABLE_STRIDE);
    assert_eq!(DRAWABLE_STRIDE, 80);
    assert_eq!(&bytes[4..8], &1.0f32.to_le_bytes());
    assert_eq!(&bytes[60..64], &15.0f32.to_le_bytes());
    assert_eq!(&bytes[64..68], &5u32.to_le_bytes());
    assert_eq!(&bytes[68..72], &0xdead_beefu32.to_le_bytes());
    assert_eq!(&bytes[72..80], &[0u8; 8]);
    assert_eq!(&bytes[80..84], &0.0f32.to_le_bytes());
}

#[test]
fn command_buffer_is_padded_to_every_mesh_slot() {
    let commands = vec![DrawCommand { index_count: 3, instance_count: 2, first_index: 1, base_vertex: 0, first_instance: 0 }];
    let bytes = encode_draw_command_buffer(&commands);
    assert_eq!(bytes.len(), MAX_MESHES * DRAW_COMMAND_STRIDE);
    assert_eq!(&bytes[..DRAW_COMMAND_STRIDE], &encode_draw_commands(&commands)[..]);
    assert!(bytes[DRAW_COMMAND_STRIDE..].iter().all(|b| *b == 0));
    assert_eq!(encode_draw_count(258), vec![2, 1, 0, 0]);
}
