//! Adapters that wrap a noise source.

pub mod lod_height_adjuster;
pub mod shift_n_scale;
