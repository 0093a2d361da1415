//! Terrain generation: levels of detail, chunk contents and chunk loading.

pub mod chunk_generation;
pub mod chunk_loading;
pub mod foliage_generation;
pub mod generation_options;
pub mod voxel_world;
