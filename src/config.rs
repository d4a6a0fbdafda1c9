//! Renderer options, and how the adapter's capabilities choose the indirect
//! draw call.
use vstd::prelude::*;
use crate::drawable::MAX_MESHES;

verus! {

/// Whether a drawable instance rarely or often changes.
#[derive(Debug, Clone, Copy, PartialEq, Eq, Hash, Structural)]
pub enum InstanceType {
    /// Instances that change frequently.
    Dynamic,
    /// Instances that rarely change.
    Static,
}

impl Default for InstanceType {
    fn default() -> (r: InstanceType)
        ensures
            r == InstanceType::Dynamic,
    {
        InstanceType::Dynamic
    }
}

/// Renderer options.
#[derive(Debug, Clone)]
pub struct RenderConfig {
    /// Issue the indirect draw with a GPU-side draw count.
    pub use_multi_draw_indirect_count: bool,
}

impl Default for RenderConfig {
    fn default() -> (r: RenderConfig)
        ensures
            !r.use_multi_draw_indirect_count,
    {
        RenderConfig { use_multi_draw_indirect_count: false }
    }
}

/// A GPU capability that the renderer cannot run without.
#[derive(Debug, Clone, Copy, PartialEq, Eq, Structural)]
pub enum CapabilityError {
    /// The adapter cannot issue multi-draw indirect calls.
    MissingMultiDrawIndirect,
}

impl RenderConfig {
    /// The options for an adapter with the given features: indirect draw
    /// counts are used where the adapter has them; an adapter without
    /// multi-draw indirect cannot run the renderer.
    pub fn for_adapter(multi_draw_indirect: bool, multi_draw_indirect_count: bool) -> (r: Result<
        RenderConfig,
        CapabilityError,
    >)
        ensures
            !multi_draw_indirect ==> r == Err::<RenderConfig, CapabilityError>(
                CapabilityError::MissingMultiDrawIndirect,
            ),
            multi_draw_indirect ==> (r matches Ok(c) && c.use_multi_draw_indirect_count
                == multi_draw_indirect_count),
    {
        if !multi_draw_indirect {
            return Err(CapabilityError::MissingMultiDrawIndirect);
        }
        Ok(RenderConfig { use_multi_draw_indirect_count: multi_draw_indirect_count })
    }
}

/// The indirect draw call that consumes the draw-command buffer.
#[derive(Debug, Clone, Copy, PartialEq, Eq, Structural)]
pub enum IndirectDraw {
    /// `multi_draw_indexed_indirect_count`: the GPU reads the number of
    /// commands from the count buffer, up to `max_count`.
    WithCount { max_count: u32 },
    /// `multi_draw_indexed_indirect` over `count` commands; the unused tail of
    /// the cleared buffer draws no instances.
    Fixed { count: u32 },
}

/// The draw call to issue under `config`: both forms cover every mesh slot.
pub fn plan_indirect_draw(config: &RenderConfig) -> (r: IndirectDraw)
    ensures
        config.use_multi_draw_indirect_count ==> r == (IndirectDraw::WithCount { max_count: MAX_MESHES as u32 }),
        !config.use_multi_draw_indirect_count ==> r == (IndirectDraw::Fixed { count: MAX_MESHES as u32 }),
{
    if config.use_multi_draw_indirect_count {
        IndirectDraw::WithCount { max_count: MAX_MESHES as u32 }
    } else {
        IndirectDraw::Fixed { count: MAX_MESHES as u32 }
    }
}

} // verus!
