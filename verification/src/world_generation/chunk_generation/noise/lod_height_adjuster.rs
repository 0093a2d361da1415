//! Rescaling of terrain heights for a level of detail.

use vstd::prelude::*;
use crate::world_generation::voxel_world::ChunkLod;

verus! {

/// A height source seen at a level of detail: heights shrink with the
/// level's voxel size, so that coarser levels see flatter terrain.
pub struct LodHeightAdjuster<T> {
    pub noise: T,
    pub lod: ChunkLod,
}

impl<T> LodHeightAdjuster<T> {
    pub fn new(source: T, lod: ChunkLod) -> (adjuster: Self)
        ensures
            adjuster.noise == source,
            adjuster.lod == lod,
    {
        Self { noise: source, lod }
    }

    /// The same source at another level.
    pub fn set_lod(self, lod: ChunkLod) -> (adjuster: Self)
        ensures
            adjuster.noise == self.noise,
            adjuster.lod == lod,
    {
        Self { noise: self.noise, lod }
    }

    /// The divisor that heights of the source are divided by.
    pub fn divisor(&self) -> (d: i32)
        ensures
            d == self.lod.multiplier(),
    {
        self.lod.multiplier_i32()
    }
}

/// The level a freshly made adjuster works at.
pub const DEFAULT_LOD: ChunkLod = ChunkLod::Full;

} // verus!
