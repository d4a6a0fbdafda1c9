//! The binary layouts that the shading passes read: draw commands and
//! per-instance drawable records, little-endian and tightly packed.
use vstd::prelude::*;
use crate::drawable::{Drawable, MAX_MESHES};
use crate::stages::DrawCommand;

verus! {

/// Bytes per draw command: five 32-bit words.
pub const DRAW_COMMAND_STRIDE: usize = 20;

/// Bytes per drawable record: a 4x4 matrix (64 bytes), two 32-bit indices
/// and 8 bytes of padding, which keeps records 16-byte aligned.
pub const DRAWABLE_STRIDE: usize = 80;

/// The four little-endian bytes of `x`.
pub open spec fn le_bytes(x: u32) -> Seq<u8> {
    seq![(x % 256) as u8, ((x / 256) % 256) as u8, ((x / 65536) % 256) as u8, (x / 16777216) as u8]
}

/// The 20 bytes of one draw command.
pub open spec fn command_bytes(c: DrawCommand) -> Seq<u8> {
    le_bytes(c.index_count) + le_bytes(c.instance_count) + le_bytes(c.first_index) + le_bytes(
        c.base_vertex as u32,
    ) + le_bytes(c.first_instance)
}

/// The bytes of the first `k` commands, one after the other.
pub open spec fn commands_bytes(cs: Seq<DrawCommand>, k: int) -> Seq<u8>
    decreases k,
{
    if k <= 0 {
        Seq::empty()
    } else {
        commands_bytes(cs, k - 1) + command_bytes(cs[k - 1])
    }
}

/// The bytes of the first `k` words of a sequence, one after the other.
pub open spec fn words_bytes(ws: Seq<u32>, k: int) -> Seq<u8>
    decreases k,
{
    if k <= 0 {
        Seq::empty()
    } else {
        words_bytes(ws, k - 1) + le_bytes(ws[k - 1])
    }
}

/// The 80 bytes of one drawable record: its matrix column by column, its
/// mesh index, its material index, and eight zero bytes.
pub open spec fn drawable_bytes(d: Drawable) -> Seq<u8> {
    words_bytes(d.model_matrix@, 16) + le_bytes(d.primitive_index) + le_bytes(d.material_id)
        + Seq::new(8, |i: int| 0u8)
}

/// The bytes of the first `k` drawables, one after the other.
pub open spec fn drawables_bytes(ds: Seq<Drawable>, k: int) -> Seq<u8>
    decreases k,
{
    if k <= 0 {
        Seq::empty()
    } else {
        drawables_bytes(ds, k - 1) + drawable_bytes(ds[k - 1])
    }
}

fn push_word(out: &mut Vec<u8>, x: u32)
    ensures
        final(out)@ == old(out)@ + le_bytes(x),
{
    out.push((x % 256) as u8);
    out.push(((x / 256) % 256) as u8);
    out.push(((x / 65536) % 256) as u8);
    out.push((x / 16777216) as u8);
    assert(final(out)@ =~= old(out)@ + le_bytes(x));
}

/// Encodes draw commands in the layout of an indexed indirect draw buffer.
pub fn encode_draw_commands(commands: &Vec<DrawCommand>) -> (r: Vec<u8>)
    ensures
        r@ == commands_bytes(commands@, commands@.len() as int),
{
    let mut out: Vec<u8> = Vec::new();
    let mut i: usize = 0;
    while i < commands.len()
        invariant
            i <= commands@.len(),
            out@ == commands_bytes(commands@, i as int),
        decreases commands@.len() - i,
    {
        let c = commands[i];
        let ghost start = out@;
        push_word(&mut out, c.index_count);
        push_word(&mut out, c.instance_count);
        push_word(&mut out, c.first_index);
        push_word(&mut out, c.base_vertex as u32);
        push_word(&mut out, c.first_instance);
        assert(out@ =~= start + command_bytes(c));
        i += 1;
    }
    out
}

/// Encodes drawables in the layout of the per-instance storage buffer.
pub fn encode_drawables(drawables: &Vec<Drawable>) -> (r: Vec<u8>)
    ensures
        r@ == drawables_bytes(drawables@, drawables@.len() as int),
{
    let mut out: Vec<u8> = Vec::new();
    let mut i: usize = 0;
    while i < drawables.len()
        invariant
            i <= drawables@.len(),
            out@ == drawables_bytes(drawables@, i as int),
        decreases drawables@.len() - i,
    {
        let d = drawables[i];
        let ghost start = out@;
        let mut w: usize = 0;
        while w < 16
            invariant
                w <= 16,
                out@ == start + words_bytes(d.model_matrix@, w as int),
            decreases 16 - w,
        {
            push_word(&mut out, d.model_matrix.cols[w]);
            w += 1;
        }
        push_word(&mut out, d.primitive_index);
        push_word(&mut out, d.material_id);
        let ghost before_pad = out@;
        let mut p: usize = 0;
        while p < 8
            invariant
                p <= 8,
                out@ == before_pad + Seq::new(p as nat, |k: int| 0u8),
            decreases 8 - p,
        {
            out.push(0);
            assert(out@ =~= before_pad + Seq::new((p + 1) as nat, |k: int| 0u8));
            p += 1;
        }
        assert(out@ =~= start + drawable_bytes(d));
        i += 1;
    }
    out
}

/// Each command takes exactly [`DRAW_COMMAND_STRIDE`] bytes.
pub proof fn lemma_commands_bytes_len(cs: Seq<DrawCommand>, k: int)
    requires
        0 <= k <= cs.len(),
    ensures
        commands_bytes(cs, k).len() == DRAW_COMMAND_STRIDE * k,
    decreases k,
{
    if k > 0 {
        lemma_commands_bytes_len(cs, k - 1);
    }
}

proof fn lemma_words_bytes_len(ws: Seq<u32>, k: int)
    requires
        0 <= k,
    ensures
        words_bytes(ws, k).len() == 4 * k,
    decreases k,
{
    if k > 0 {
        lemma_words_bytes_len(ws, k - 1);
    }
}

/// Each drawable record takes exactly [`DRAWABLE_STRIDE`] bytes.
pub proof fn lemma_drawables_bytes_len(ds: Seq<Drawable>, k: int)
    requires
        0 <= k <= ds.len(),
    ensures
        drawables_bytes(ds, k).len() == DRAWABLE_STRIDE * k,
    decreases k,
{
    if k > 0 {
        lemma_drawables_bytes_len(ds, k - 1);
        let d = ds[k - 1];
        lemma_words_bytes_len(d.model_matrix@, 16);
        assert(drawable_bytes(d).len() == 80);
    }
}

/// Encodes the whole draw-command buffer: the commands, then zero bytes up to
/// [`MAX_MESHES`] commands, so that a draw over every slot draws nothing
/// past the last command.
pub fn encode_draw_command_buffer(commands: &Vec<DrawCommand>) -> (r: Vec<u8>)
    requires
        commands@.len() <= MAX_MESHES,
    ensures
        r@ == commands_bytes(commands@, commands@.len() as int) + Seq::new(
            (DRAW_COMMAND_STRIDE * (MAX_MESHES - commands@.len())) as nat,
            |i: int| 0u8,
        ),
        r@.len() == DRAW_COMMAND_STRIDE * MAX_MESHES,
{
    let mut out = encode_draw_commands(commands);
    proof {
        lemma_commands_bytes_len(commands@, commands@.len() as int);
    }
    let ghost head = out@;
    let total = DRAW_COMMAND_STRIDE * MAX_MESHES;
    while out.len() < total
        invariant
            head.len() <= out@.len() <= total,
            total == DRAW_COMMAND_STRIDE * MAX_MESHES,
            out@ == head + Seq::new((out@.len() - head.len()) as nat, |i: int| 0u8),
        decreases total - out@.len(),
    {
        out.push(0);
        assert(out@ =~= head + Seq::new((out@.len() - head.len()) as nat, |i: int| 0u8));
    }
    out
}

/// Encodes the draw-count buffer read by the indirect-count draw call.
pub fn encode_draw_count(count: u32) -> (r: Vec<u8>)
    ensures
        r@ == le_bytes(count),
{
    let mut out: Vec<u8> = Vec::new();
    push_word(&mut out, count);
    assert(out@ =~= le_bytes(count));
    out
}

} // verus!
