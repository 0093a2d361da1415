//! Deciding which chunks exist and at which level of detail.

pub mod chunk_loader;
pub mod country_cache;
pub mod quad_tree_data;
pub mod quad_tree_manager;
