//! Procedural level-of-detail voxel terrain.
//!
//! The library holds the parts of a voxel world generator that work on whole
//! numbers, each with its contract:
//!
//! - packed block storage with a palette ([`world_generation::chunk_generation::voxel_types`]),
//! - the filling of a chunk from sampled terrain, roads and structures
//!   ([`world_generation::chunk_generation::voxel_generation`]),
//! - greedy meshing ([`world_generation::chunk_generation::mesh_generation`]),
//! - the quadtree of a root chunk and its refinement as observers move
//!   ([`world_generation::chunk_loading`]),
//! - the search for roads between cities and the placing of cities
//!   ([`world_generation::chunk_loading::country_cache`]),
//! - the bookkeeping of what is generated once and the scheduling of
//!   generation work ([`world_generation::generation_options`],
//!   [`world_generation::chunk_generation`]).
//!
//! Noise fields, splines and everything else in floating point is left to
//! the caller, who hands the library rounded samples.

pub mod random;
pub mod utils;
pub mod white_noise;
pub mod world_generation;
