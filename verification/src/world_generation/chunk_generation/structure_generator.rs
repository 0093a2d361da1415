//! Where structures are placed and how their models are laid out.

use vstd::prelude::*;
use crate::utils::{IVec2, IVec3};
use crate::world_generation::chunk_generation::BlockType;
use crate::world_generation::generation_options::has_extent;
use crate::world_generation::voxel_world::ChunkLod;

verus! {

/// Largest magnitude of a measure given in world units.
pub const UNIT_LIMIT: i32 = 524288;

/// How many voxels make one world unit along each axis.
pub const VOXELS_PER_UNIT: i32 = 2;

/// The measures of a kind of structure: the extent of its model, the
/// extent of a placement cell, and the shift of the placement grid.
#[derive(Clone, Copy, Debug, PartialEq, Eq, Structural)]
pub struct VoxelStructureMetadata {
    pub model_size: IVec3,
    pub generation_size: IVec2,
    pub grid_offset: IVec2,
    pub generate_debug_blocks: bool,
}

impl VoxelStructureMetadata {
    /// Whether all measures are small enough to be turned into voxels.
    pub open spec fn in_units(&self) -> bool {
        &&& -UNIT_LIMIT <= self.model_size.x <= UNIT_LIMIT
        &&& -UNIT_LIMIT <= self.model_size.y <= UNIT_LIMIT
        &&& -UNIT_LIMIT <= self.model_size.z <= UNIT_LIMIT
        &&& -UNIT_LIMIT <= self.generation_size.x <= UNIT_LIMIT
        &&& -UNIT_LIMIT <= self.generation_size.y <= UNIT_LIMIT
        &&& -UNIT_LIMIT <= self.grid_offset.x <= UNIT_LIMIT
        &&& -UNIT_LIMIT <= self.grid_offset.y <= UNIT_LIMIT
    }

    /// The measures in voxels, given the measures in world units.
    pub open spec fn in_voxels(self) -> VoxelStructureMetadata {
        VoxelStructureMetadata {
            model_size: IVec3 {
                x: (self.model_size.x * VOXELS_PER_UNIT) as i32,
                y: (self.model_size.y * VOXELS_PER_UNIT) as i32,
                z: (self.model_size.z * VOXELS_PER_UNIT) as i32,
            },
            generation_size: IVec2 {
                x: (self.generation_size.x * VOXELS_PER_UNIT) as i32,
                y: (self.generation_size.y * VOXELS_PER_UNIT) as i32,
            },
            grid_offset: IVec2 {
                x: (self.grid_offset.x * VOXELS_PER_UNIT) as i32,
                y: (self.grid_offset.y * VOXELS_PER_UNIT) as i32,
            },
            generate_debug_blocks: self.generate_debug_blocks,
        }
    }
}

/// Turns the measures of a grown structure from world units into voxels.
pub fn adjust_metadata(metadata: &mut VoxelStructureMetadata)
    requires
        old(metadata).in_units(),
    ensures
        *final(metadata) == old(metadata).in_voxels(),
{
    metadata.model_size = IVec3 {
        x: metadata.model_size.x * VOXELS_PER_UNIT,
        y: metadata.model_size.y * VOXELS_PER_UNIT,
        z: metadata.model_size.z * VOXELS_PER_UNIT,
    };
    metadata.generation_size = IVec2 {
        x: metadata.generation_size.x * VOXELS_PER_UNIT,
        y: metadata.generation_size.y * VOXELS_PER_UNIT,
    };
    metadata.grid_offset = IVec2 {
        x: metadata.grid_offset.x * VOXELS_PER_UNIT,
        y: metadata.grid_offset.y * VOXELS_PER_UNIT,
    };
}

/// Edge length in voxels of the grid an oak is grown in.
pub const OAK_VOXEL_SIZE: usize = 54;

/// Edge length in voxels of the base of the grid a pine is grown in.
pub const PINE_VOXEL_SIZE: usize = 64;

/// Height in voxels of the grid a pine is grown in.
pub const PINE_VOXEL_HEIGHT: usize = 140;

/// The placement under which the model of a structure is kept for reuse:
/// at the coarser levels, where single structures cannot be told apart,
/// all placements share one model.
pub open spec fn model_key(structure_position: IVec2, lod: ChunkLod) -> IVec2 {
    if lod.level() >= ChunkLod::Eighth.level() {
        IVec2 { x: 0, y: 0 }
    } else {
        structure_position
    }
}

/// Finds the placement under which the model of a structure is kept.
pub fn get_model_key(structure_position: IVec2, lod: ChunkLod) -> (key: IVec2)
    ensures
        key == model_key(structure_position, lod),
{
    if lod.usize() >= ChunkLod::Eighth.usize() {
        IVec2 { x: 0, y: 0 }
    } else {
        structure_position
    }
}

/// An all-air grid for a structure to be grown in, indexed by x, height and z.
pub fn empty_voxel_grid(x_size: usize, y_size: usize, z_size: usize) -> (grid: Vec<Vec<Vec<BlockType>>>)
    ensures
        has_extent(grid@, x_size as int, y_size as int, z_size as int),
        forall|x: int, y: int, z: int|
            0 <= x < x_size && 0 <= y < y_size && 0 <= z < z_size ==> #[trigger] grid@[x]@[y]@[z]
                == BlockType::Air,
{
    let mut grid: Vec<Vec<Vec<BlockType>>> = Vec::new();
    let mut x: usize = 0;
    while x < x_size
        invariant
            x <= x_size,
            has_extent(grid@, x as int, y_size as int, z_size as int),
            forall|a: int, y: int, z: int|
                0 <= a < x && 0 <= y < y_size && 0 <= z < z_size ==> #[trigger] grid@[a]@[y]@[z]
                    == BlockType::Air,
        decreases x_size - x,
    {
        let mut plane: Vec<Vec<BlockType>> = Vec::new();
        let mut y: usize = 0;
        while y < y_size
            invariant
                y <= y_size,
                plane@.len() == y,
                forall|k: int| 0 <= k < y ==> (#[trigger] plane@[k])@.len() == z_size,
                forall|k: int, z: int|
                    0 <= k < y && 0 <= z < z_size ==> #[trigger] plane@[k]@[z] == BlockType::Air,
            decreases y_size - y,
        {
            let mut row: Vec<BlockType> = Vec::new();
            let mut z: usize = 0;
            while z < z_size
                invariant
                    z <= z_size,
                    row@.len() == z,
                    forall|k: int| 0 <= k < z ==> #[trigger] row@[k] == BlockType::Air,
                decreases z_size - z,
            {
                row.push(BlockType::Air);
                z += 1;
            }
            plane.push(row);
            y += 1;
        }
        grid.push(plane);
        x += 1;
    }
    grid
}

/// Whether `position` lies in a grid of the given extent.
pub open spec fn in_extent(position: IVec3, x_size: int, y_size: int, z_size: int) -> bool {
    &&& 0 <= position.x < x_size
    &&& 0 <= position.y < y_size
    &&& 0 <= position.z < z_size
}

/// Writes a block into a grid if the position lies in the grid; a block
/// that would land outside is dropped. Returns whether the block was written.
pub fn put_block(grid: &mut Vec<Vec<Vec<BlockType>>>, position: IVec3, block: BlockType) -> (written: bool)
    requires
        has_extent(
            old(grid)@,
            old(grid)@.len() as int,
            height_of(old(grid)@),
            depth_of(old(grid)@),
        ),
    ensures
        written == in_extent(
            position,
            old(grid)@.len() as int,
            height_of(old(grid)@),
            depth_of(old(grid)@),
        ),
        has_extent(
            final(grid)@,
            old(grid)@.len() as int,
            height_of(old(grid)@),
            depth_of(old(grid)@),
        ),
        forall|x: int, y: int, z: int|
            0 <= x < old(grid)@.len() && 0 <= y < height_of(old(grid)@) && 0 <= z < depth_of(old(grid)@)
                ==> #[trigger] final(grid)@[x]@[y]@[z] == (if written && x == position.x && y
                == position.y && z == position.z {
                block
            } else {
                old(grid)@[x]@[y]@[z]
            }),
{
    if grid.len() == 0 {
        return false;
    }
    let x_size = grid.len();
    let y_size = grid[0].len();
    if y_size == 0 {
        return false;
    }
    let z_size = grid[0][0].len();
    if position.x < 0 || position.y < 0 || position.z < 0 || position.x as usize >= x_size
        || position.y as usize >= y_size || position.z as usize >= z_size {
        return false;
    }
    let ghost before = grid@;
    let vx = position.x as usize;
    let vy = position.y as usize;
    let vz = position.z as usize;
    let mut plane = grid.remove(vx);
    let mut row = plane.remove(vy);
    row.set(vz, block);
    plane.insert(vy, row);
    grid.insert(vx, plane);
    proof {
        assert forall|x: int| 0 <= x < x_size implies (#[trigger] grid@[x])@.len() == y_size by {
            if x != vx {
                assert(grid@[x] == before[x]);
            }
        }
        assert forall|x: int, y: int| 0 <= x < x_size && 0 <= y < y_size implies (#[trigger] grid@[x]@[y])@.len()
            == z_size by {
            if x != vx {
                assert(grid@[x] == before[x]);
            } else if y != vy {
                assert(grid@[x]@[y] == before[x]@[y]);
            }
        }
        assert forall|x: int, y: int, z: int|
            0 <= x < x_size && 0 <= y < y_size && 0 <= z < z_size implies #[trigger] grid@[x]@[y]@[z] == (if x
            == position.x && y == position.y && z == position.z {
            block
        } else {
            before[x]@[y]@[z]
        }) by {
            if x != vx {
                assert(grid@[x] == before[x]);
            } else if y != vy {
                assert(grid@[x]@[y] == before[x]@[y]);
            } else if z != vz {
                assert(grid@[x]@[y]@[z] == before[x]@[y]@[z]);
            }
        }
    }
    true
}

/// The height of a grid: the length of its first plane.
pub open spec fn height_of(grid: Seq<Vec<Vec<BlockType>>>) -> int {
    if grid.len() == 0 {
        0
    } else {
        grid[0]@.len() as int
    }
}

/// The depth of a grid: the length of the first row of its first plane.
pub open spec fn depth_of(grid: Seq<Vec<Vec<BlockType>>>) -> int {
    if grid.len() == 0 || grid[0]@.len() == 0 {
        0
    } else {
        grid[0]@[0]@.len() as int
    }
}

} // verus!
