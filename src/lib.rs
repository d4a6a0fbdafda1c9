//! Verified core of a GPU-driven renderer: the scene graph's transform cache,
//! per-frame drawable extraction, a sequential reference of the culling,
//! draw-command generation and instance gather stages, the binary layouts the
//! draw passes read, and the mesh and material tables they index.

pub mod config;
pub mod culling;
pub mod drawable;
pub mod layout;
pub mod materials;
pub mod matrix;
pub mod mesh_baker;
pub mod scene;
pub mod stages;
pub mod transform;
