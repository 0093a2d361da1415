//! Filling the block grid of one chunk from sampled terrain, roads and structures.

use vstd::prelude::*;
use crate::random::{draw_pair, seeded_pair};
use crate::utils::{div_floor, div_floor_spec, IVec2, IVec3};
use crate::world_generation::chunk_generation::BlockType;
use crate::world_generation::chunk_generation::voxel_types::{
    all_storable, in_grid, lemma_palette_after_concat, lemma_palette_after_push,
    lemma_voxel_index_injective, palette_after, voxel_index, VoxelData, ARRAY_WORDS, VOXEL_COUNT,
};
use crate::world_generation::voxel_world::ChunkLod;

verus! {

/// Largest magnitude of a chunk coordinate that the generator accepts.
pub const POSITION_LIMIT: i32 = 4194304;

/// Largest magnitude of a sampled height.
pub const HEIGHT_LIMIT: i32 = 268435456;

/// What the terrain looks like above one point of the horizontal grid.
#[derive(Copy, Clone, Debug, PartialEq, Eq, Structural)]
pub struct ColumnSample {
    /// Height of the ground, blended toward a nearby road, rounded toward zero.
    pub height: i32,
    /// The same height rounded down: one above the topmost ground voxel.
    pub surface: i32,
    /// Whether a road runs through the column.
    pub is_path: bool,
    /// Whether the ground is flat enough to carry grass or snow.
    pub grass_steep: bool,
    /// Whether the ground lies above the snow line.
    pub is_snow: bool,
    /// Shade of the grass.
    pub grass_color: u8,
}

/// What the terrain looks like where a structure would stand.
#[derive(Copy, Clone, Debug, PartialEq, Eq, Structural)]
pub struct SiteSample {
    /// Whether the ground is too steep to build on.
    pub too_steep: bool,
    /// Distance to the nearest road, rounded toward zero; the largest value where no road is near.
    pub path_distance: i32,
    /// Height of the ground in voxels of the chunk's level, rounded toward zero.
    pub height: i32,
    /// Height of the ground in world voxels, rounded toward zero.
    pub scaled_height: i32,
}

/// What the generator is told about a copy of a structure that may reach a column.
#[derive(Copy, Clone, Debug, PartialEq, Eq, Structural)]
pub struct StructureSample {
    /// The seed of the copy that stands in the column's placement cell.
    pub seed: u64,
    /// The ground under the centre of that copy.
    pub site: SiteSample,
}

/// Everything sampled for one chunk: the fields of terrain, roads and
/// structure placement, read off at the points the generator needs.
pub struct ChunkSamples {
    /// Unblended ground height, rounded toward zero, at the 64 x 64 columns
    /// of the chunk proper, x-major.
    pub heights: Vec<i32>,
    /// The 66 x 66 columns of the grid, x-major.
    pub columns: Vec<ColumnSample>,
    /// For each structure generator, and each of the 66 x 66 columns of the
    /// grid, the copy in the column's placement cell, if the cell holds one.
    pub structures: Vec<Vec<Option<StructureSample>>>,
}

/// Index of the column at (`x`, `z`) of the grid in an x-major table.
pub open spec fn column_index(x: int, z: int) -> int {
    x * 66 + z
}

impl ChunkSamples {
    /// The tables have the right sizes for `count` structure generators, and
    /// all heights stay within the limit.
    pub open spec fn wf(&self, count: int) -> bool {
        &&& self.heights@.len() == 4096
        &&& self.columns@.len() == 4356
        &&& self.structures@.len() == count
        &&& forall|i: int|
            0 <= i < 4096 ==> -HEIGHT_LIMIT <= #[trigger] self.heights@[i] <= HEIGHT_LIMIT
        &&& forall|i: int|
            0 <= i < 4356 ==> -HEIGHT_LIMIT <= (#[trigger] self.columns@[i]).height <= HEIGHT_LIMIT
        &&& forall|s: int| 0 <= s < count ==> (#[trigger] self.structures@[s])@.len() == 4356
        &&& forall|s: int, i: int|
            0 <= s < count && 0 <= i < 4356 ==> site_bounded(#[trigger] self.structures@[s]@[i])
    }

    /// The sample of structure generator `s` at the column with index `i`.
    pub open spec fn structure_at(&self, s: int, i: int) -> Option<StructureSample> {
        self.structures@[s]@[i]
    }

    /// Tests whether the tables can be handed to the generator.
    pub fn is_valid(&self, count: usize) -> (ok: bool)
        ensures
            ok == self.wf(count as int),
    {
        if self.heights.len() != 4096 || self.columns.len() != 4356 || self.structures.len() != count {
            return false;
        }
        let mut i: usize = 0;
        while i < 4096
            invariant
                self.heights@.len() == 4096,
                i <= 4096,
                forall|k: int| 0 <= k < i ==> -HEIGHT_LIMIT <= #[trigger] self.heights@[k] <= HEIGHT_LIMIT,
            decreases 4096 - i,
        {
            if self.heights[i] < -HEIGHT_LIMIT || self.heights[i] > HEIGHT_LIMIT {
                return false;
            }
            i += 1;
        }
        let mut i: usize = 0;
        while i < 4356
            invariant
                self.columns@.len() == 4356,
                i <= 4356,
                forall|k: int|
                    0 <= k < i ==> -HEIGHT_LIMIT <= (#[trigger] self.columns@[k]).height <= HEIGHT_LIMIT,
            decreases 4356 - i,
        {
            if self.columns[i].height < -HEIGHT_LIMIT || self.columns[i].height > HEIGHT_LIMIT {
                return false;
            }
            i += 1;
        }
        let mut s: usize = 0;
        while s < count
            invariant
                self.structures@.len() == count,
                s <= count,
                forall|t: int| 0 <= t < s ==> (#[trigger] self.structures@[t])@.len() == 4356,
                forall|t: int, k: int|
                    0 <= t < s && 0 <= k < 4356 ==> site_bounded(#[trigger] self.structures@[t]@[k]),
            decreases count - s,
        {
            if self.structures[s].len() != 4356 {
                return false;
            }
            let mut i: usize = 0;
            while i < 4356
                invariant
                    s < count,
                    self.structures@.len() == count,
                    self.structures@[s as int]@.len() == 4356,
                    i <= 4356,
                    forall|k: int|
                        0 <= k < i ==> site_bounded(#[trigger] self.structures@[s as int]@[k]),
                decreases 4356 - i,
            {
                let ok = match self.structures[s][i] {
                    None => true,
                    Some(sample) => -HEIGHT_LIMIT <= sample.site.height && sample.site.height
                        <= HEIGHT_LIMIT && -HEIGHT_LIMIT <= sample.site.scaled_height
                        && sample.site.scaled_height <= HEIGHT_LIMIT,
                };
                if !ok {
                    assert(!site_bounded(self.structures@[s as int]@[i as int]));
                    return false;
                }
                i += 1;
            }
            s += 1;
        }
        true
    }
}

/// Whether the heights of a structure sample stay within the limit.
pub open spec fn site_bounded(sample: Option<StructureSample>) -> bool {
    match sample {
        None => true,
        Some(s) => -HEIGHT_LIMIT <= s.site.height <= HEIGHT_LIMIT && -HEIGHT_LIMIT
            <= s.site.scaled_height <= HEIGHT_LIMIT,
    }
}

/// The block of the ground at world height `world_y` of a column.
pub open spec fn terrain_block(c: ColumnSample, world_y: int) -> BlockType {
    if c.is_path {
        BlockType::Path
    } else if c.grass_steep && world_y + 1 == c.surface {
        if c.is_snow {
            BlockType::Snow
        } else {
            BlockType::Grass(c.grass_color)
        }
    } else {
        BlockType::Stone
    }
}

/// Row `y` of a column after the ground has been filled in over `before`.
pub open spec fn filled_over(before: BlockType, c: ColumnSample, min_height: int, y: int) -> BlockType {
    if 0 <= y < 66 && y + min_height < c.height {
        terrain_block(c, y + min_height)
    } else {
        before
    }
}

/// The ground of a column at row `y` of a grid whose lowest row lies at
/// world height `min_height`: solid below the column's height, air from there on.
pub open spec fn terrain_at(c: ColumnSample, min_height: int, y: int) -> BlockType {
    if 0 <= y < 66 && y + min_height < c.height {
        terrain_block(c, y + min_height)
    } else {
        BlockType::Air
    }
}

/// Picks the block of the ground at world height `world_y` of a column.
pub fn choose_terrain_block(c: &ColumnSample, world_y: i32) -> (block: BlockType)
    requires
        world_y < i32::MAX,
    ensures
        block == terrain_block(*c, world_y as int),
{
    if c.is_path {
        BlockType::Path
    } else if c.grass_steep && world_y + 1 == c.surface {
        if c.is_snow {
            BlockType::Snow
        } else {
            BlockType::Grass(c.grass_color)
        }
    } else {
        BlockType::Stone
    }
}

/// The blocks that filling in the ground of a column writes, lowest row first.
pub open spec fn terrain_writes(c: ColumnSample, min_height: int) -> Seq<BlockType> {
    let top = if c.height < 66 + min_height {
        c.height as int
    } else {
        66 + min_height
    };
    if top <= min_height {
        Seq::empty()
    } else {
        Seq::new((top - min_height) as nat, |row: int| terrain_block(c, row + min_height))
    }
}

/// Whether `after` is `before` with the blocks `writes` written into it in
/// turn, as far as the palette goes: the palette has grown by the new
/// block types in the order they came, `stored` tells whether the palette
/// could take them all, and the unused lanes behind the grid are untouched.
pub open spec fn wrote(before: VoxelData, after: VoxelData, writes: Seq<BlockType>, stored: bool) -> bool {
    &&& after.known_blocks() == palette_after(before.known_blocks(), writes)
    &&& stored == all_storable(before.known_blocks(), writes)
    &&& forall|index: int|
        VOXEL_COUNT <= index < 4 * ARRAY_WORDS ==> #[trigger] after.index_at(index) == before.index_at(
            index,
        )
}

/// One more block has been written.
proof fn lemma_wrote_more(
    start: VoxelData,
    before: VoxelData,
    after: VoxelData,
    writes: Seq<BlockType>,
    stored_before: bool,
    position: IVec3,
    block: BlockType,
    stored: bool,
)
    requires
        wrote(start, before, writes, stored_before),
        in_grid(position),
        after.known_blocks() == before.known_blocks_after(block),
        stored == before.can_store(block),
        forall|index: int|
            0 <= index < 4 * ARRAY_WORDS && index != voxel_index(position) ==> after.index_at(index)
                == before.index_at(index),
    ensures
        wrote(start, after, writes.push(block), stored_before && stored),
{
    lemma_palette_after_push(start.known_blocks(), writes, block);
    lemma_voxel_index_injective(position, position);
    assert forall|index: int| VOXEL_COUNT <= index < 4 * ARRAY_WORDS implies #[trigger] after.index_at(
        index,
    ) == start.index_at(index) by {
        assert(after.index_at(index) == before.index_at(index));
    }
}

/// Two runs of writes, one after the other, are one run.
proof fn lemma_wrote_both(
    start: VoxelData,
    middle: VoxelData,
    after: VoxelData,
    first: Seq<BlockType>,
    first_stored: bool,
    second: Seq<BlockType>,
    second_stored: bool,
)
    requires
        wrote(start, middle, first, first_stored),
        wrote(middle, after, second, second_stored),
    ensures
        wrote(start, after, first + second, first_stored && second_stored),
{
    lemma_palette_after_concat(start.known_blocks(), first, second);
    assert forall|index: int| VOXEL_COUNT <= index < 4 * ARRAY_WORDS implies #[trigger] after.index_at(
        index,
    ) == start.index_at(index) by {
        assert(after.index_at(index) == middle.index_at(index));
    }
}

/// Nothing has been written.
proof fn lemma_wrote_nothing(start: VoxelData)
    ensures
        wrote(start, start, Seq::empty(), true),
{
}

/// Fills the ground of the column at (`x`, `z`) of the grid, which must be
/// all air. Returns whether the ground reaches the top row of the grid, and
/// whether every block found room in the palette.
pub fn fill_column(blocks: &mut VoxelData, x: i32, z: i32, min_height: i32, c: &ColumnSample) -> (r: (
    bool,
    bool,
))
    requires
        old(blocks).wf(),
        0 <= x < 66,
        0 <= z < 66,
        -4 * HEIGHT_LIMIT <= min_height <= 4 * HEIGHT_LIMIT,
        -HEIGHT_LIMIT <= c.height <= HEIGHT_LIMIT,
    ensures
        final(blocks).wf(),
        r.0 == (c.height >= 66 + min_height),
        r.1 ==> forall|y: int|
            0 <= y < 66 ==> final(blocks).block_at(#[trigger] column_cell(x, y, z)) == filled_over(
                old(blocks).block_at(column_cell(x, y, z)),
                *c,
                min_height as int,
                y,
            ),
        wrote(*old(blocks), *final(blocks), terrain_writes(*c, min_height as int), r.1),
        forall|p: IVec3|
            in_grid(p) && !(p.x == x && p.z == z) ==> #[trigger] final(blocks).block_at(p) == old(blocks).block_at(p),
{
    let top: i32 = if c.height < 66 + min_height {
        c.height
    } else {
        66 + min_height
    };
    let mut reached_top = false;
    let mut all_stored = true;
    let mut y: i32 = min_height;
    while y < top
        invariant
            blocks.wf(),
            0 <= x < 66,
            0 <= z < 66,
            -4 * HEIGHT_LIMIT <= min_height <= 4 * HEIGHT_LIMIT,
            min_height <= y,
            y <= top || (top < min_height && y == min_height),
            top <= 66 + min_height,
            top <= c.height,
            top == c.height || top == 66 + min_height,
            reached_top == (y > 65 + min_height),
            wrote(
                *old(blocks),
                *blocks,
                terrain_writes(*c, min_height as int).take(y - min_height),
                all_stored,
            ),
            all_stored ==> forall|row: int|
                0 <= row < 66 ==> blocks.block_at(#[trigger] column_cell(x, row, z)) == (if row < y
                    - min_height {
                    terrain_block(*c, row + min_height)
                } else {
                    old(blocks).block_at(column_cell(x, row, z))
                }),
            forall|p: IVec3|
                in_grid(p) && !(p.x == x && p.z == z) ==> #[trigger] blocks.block_at(p) == old(blocks).block_at(p),
        decreases top - y,
    {
        if y == 65 + min_height {
            reached_top = true;
        }
        let block = choose_terrain_block(c, y);
        let ghost before = *blocks;
        let ghost stored_before = all_stored;
        let stored = blocks.set_block(IVec3 { x, y: y - min_height, z }, block);
        if !stored {
            all_stored = false;
        }
        proof {
            let writes = terrain_writes(*c, min_height as int);
            lemma_wrote_more(
                *old(blocks),
                before,
                *blocks,
                writes.take(y - min_height),
                stored_before,
                IVec3 { x, y: (y - min_height) as i32, z },
                block,
                stored,
            );
            assert(writes.take(y + 1 - min_height) =~= writes.take(y - min_height).push(block));
            let here = column_cell(x, (y - min_height) as int, z);
            if all_stored {
                assert forall|row: int| 0 <= row < 66 implies blocks.block_at(
                    #[trigger] column_cell(x, row, z),
                ) == (if row < y + 1 - min_height {
                    terrain_block(*c, row + min_height)
                } else {
                    old(blocks).block_at(column_cell(x, row, z))
                }) by {
                    let p = column_cell(x, row, z);
                    if row == y - min_height {
                    } else {
                        assert(p != here);
                        assert(blocks.block_at(p) == before.block_at(p));
                    }
                }
            }
            assert forall|p: IVec3| in_grid(p) && !(p.x == x && p.z == z) implies #[trigger] blocks.block_at(
                p,
            ) == old(blocks).block_at(p) by {
                assert(p != here);
                assert(blocks.block_at(p) == before.block_at(p));
            }
        }
        y += 1;
    }
    proof {
        let writes = terrain_writes(*c, min_height as int);
        assert(writes.take(y - min_height) =~= writes);
    }
    (reached_top, all_stored)
}

/// The grid cell in row `y` of the column at (`x`, `z`).
pub open spec fn column_cell(x: i32, y: int, z: i32) -> IVec3 {
    IVec3 { x, y: y as i32, z }
}

/// Largest edge length of a structure model and of a placement cell, and
/// largest magnitude of a grid offset.
pub const SIZE_LIMIT: i32 = 1048576;

/// Largest magnitude of a horizontal world coordinate that the generator works with.
pub const WORLD_LIMIT: i32 = 536870912;

/// A kind of structure that is scattered over the terrain: a voxel model and
/// the grid of cells of which each may hold one copy of it.
pub struct StructureGenerator {
    /// The model, indexed by x, then height, then z.
    pub model: Vec<Vec<Vec<BlockType>>>,
    /// Extent of the model along x, height and z.
    pub model_size: IVec3,
    /// Extent of a placement cell along x and z.
    pub generation_size: IVec2,
    /// Shift of the placement grid against the world grid.
    pub grid_offset: IVec2,
}

impl StructureGenerator {
    /// The model has the stated extent, fits into a placement cell, and all
    /// sizes stay within the limits the arithmetic needs.
    pub open spec fn wf(&self) -> bool {
        &&& 1 <= self.model_size.x <= self.generation_size.x <= SIZE_LIMIT
        &&& 1 <= self.model_size.z <= self.generation_size.y <= SIZE_LIMIT
        &&& 1 <= self.model_size.y <= SIZE_LIMIT
        &&& -SIZE_LIMIT <= self.grid_offset.x <= SIZE_LIMIT
        &&& -SIZE_LIMIT <= self.grid_offset.y <= SIZE_LIMIT
        &&& self.model@.len() == self.model_size.x
        &&& forall|x: int|
            0 <= x < self.model@.len() ==> (#[trigger] self.model@[x])@.len() == self.model_size.y
        &&& forall|x: int, y: int|
            0 <= x < self.model@.len() && 0 <= y < self.model_size.y ==> (#[trigger] self.model@[x]@[y])@.len()
                == self.model_size.z
    }

    /// The block of the model at the given place.
    pub open spec fn block(&self, x: int, index: int, z: int) -> BlockType {
        self.model@[x]@[index]@[z]
    }

    /// The placement cell that a world column falls into.
    pub open spec fn cell_of(&self, total: IVec2) -> IVec2 {
        IVec2 {
            x: div_floor_spec(total.x + self.grid_offset.x, self.generation_size.x as int) as i32,
            y: div_floor_spec(total.y + self.grid_offset.y, self.generation_size.y as int) as i32,
        }
    }

    /// The least distance a copy of the model keeps from a road.
    pub open spec fn clearance(&self) -> int {
        self.model_size.x / 2 + self.model_size.y / 2
    }

    /// Tests whether the structure can be handed to the generator.
    pub fn is_valid(&self) -> (ok: bool)
        ensures
            ok == self.wf(),
    {
        let sizes_ok = 1 <= self.model_size.x && self.model_size.x <= self.generation_size.x
            && self.generation_size.x <= SIZE_LIMIT && 1 <= self.model_size.z && self.model_size.z
            <= self.generation_size.y && self.generation_size.y <= SIZE_LIMIT && 1
            <= self.model_size.y && self.model_size.y <= SIZE_LIMIT && -SIZE_LIMIT
            <= self.grid_offset.x && self.grid_offset.x <= SIZE_LIMIT && -SIZE_LIMIT
            <= self.grid_offset.y && self.grid_offset.y <= SIZE_LIMIT;
        if !sizes_ok || self.model.len() != self.model_size.x as usize {
            return false;
        }
        let mut x: usize = 0;
        while x < self.model.len()
            invariant
                x <= self.model@.len(),
                1 <= self.model_size.y <= SIZE_LIMIT,
                1 <= self.model_size.z <= SIZE_LIMIT,
                forall|a: int| 0 <= a < x ==> (#[trigger] self.model@[a])@.len() == self.model_size.y,
                forall|a: int, y: int|
                    0 <= a < x && 0 <= y < self.model_size.y ==> (#[trigger] self.model@[a]@[y])@.len()
                        == self.model_size.z,
            decreases self.model@.len() - x,
        {
            if self.model[x].len() != self.model_size.y as usize {
                return false;
            }
            let mut y: usize = 0;
            while y < self.model[x].len()
                invariant
                    x < self.model@.len(),
                    y <= self.model@[x as int]@.len(),
                    self.model@[x as int]@.len() == self.model_size.y,
                    1 <= self.model_size.z <= SIZE_LIMIT,
                    forall|b: int|
                        0 <= b < y ==> (#[trigger] self.model@[x as int]@[b])@.len() == self.model_size.z,
                decreases self.model@[x as int]@.len() - y,
            {
                if self.model[x][y].len() != self.model_size.z as usize {
                    return false;
                }
                y += 1;
            }
            x += 1;
        }
        true
    }

    /// Finds the placement cell of a world column.
    pub fn get_cell(&self, total: IVec2) -> (cell: IVec2)
        requires
            self.wf(),
            -WORLD_LIMIT <= total.x <= WORLD_LIMIT,
            -WORLD_LIMIT <= total.y <= WORLD_LIMIT,
        ensures
            cell == self.cell_of(total),
            -2 * WORLD_LIMIT <= cell.x <= 2 * WORLD_LIMIT,
            -2 * WORLD_LIMIT <= cell.y <= 2 * WORLD_LIMIT,
    {
        proof {
            lemma_div_floor_bounds(total.x + self.grid_offset.x, self.generation_size.x as int);
            lemma_div_floor_bounds(total.y + self.grid_offset.y, self.generation_size.y as int);
        }
        IVec2 {
            x: div_floor(total.x + self.grid_offset.x, self.generation_size.x),
            y: div_floor(total.y + self.grid_offset.y, self.generation_size.y),
        }
    }
}

/// For a positive divisor, the quotient that `div_floor_spec` gives lies
/// within one of the dividend in magnitude, and multiplied back it lands at
/// most one divisor below the dividend and never above it.
pub proof fn lemma_div_floor_bounds(v: int, size: int)
    requires
        size > 0,
    ensures
        v - size <= div_floor_spec(v, size) * size <= v,
        v >= 0 ==> 0 <= div_floor_spec(v, size) <= v,
        v < 0 ==> v - 1 <= div_floor_spec(v, size) <= -1,
{
    if v >= 0 {
        let q = v / size;
        vstd::arithmetic::div_mod::lemma_fundamental_div_mod(v, size);
        vstd::arithmetic::div_mod::lemma_mod_bound(v, size);
        vstd::arithmetic::div_mod::lemma_div_pos_is_pos(v, size);
        assert(q * size == size * q) by (nonlinear_arith);
        assert(q <= q * size) by (nonlinear_arith)
            requires
                q >= 0,
                size >= 1,
        ;
    } else {
        let q = (-v) / size;
        vstd::arithmetic::div_mod::lemma_fundamental_div_mod(-v, size);
        vstd::arithmetic::div_mod::lemma_mod_bound(-v, size);
        vstd::arithmetic::div_mod::lemma_div_pos_is_pos(-v, size);
        assert(q * size == size * q) by (nonlinear_arith);
        assert((-q - 1) * size == -(q * size) - size) by (nonlinear_arith);
        assert(q <= q * size) by (nonlinear_arith)
            requires
                q >= 0,
                size >= 1,
        ;
    }
}

/// Where a world column lies inside a copy of a structure.
#[derive(Copy, Clone, Debug, PartialEq, Eq, Structural)]
pub struct Placement {
    /// Column of the model, along x and z.
    pub local: IVec2,
    /// World column of the model's centre.
    pub center: IVec2,
}

/// The column of the model that the world column `total` meets when the
/// copy in `cell` is shifted by `jitter` inside its cell, and the centre of
/// that copy; nothing if the world column misses the copy.
pub open spec fn placement_of(s: StructureGenerator, total: IVec2, cell: IVec2, jitter: (int, int)) -> Option<
    Placement,
> {
    let dx = total.x + s.grid_offset.x - cell.x * s.generation_size.x;
    let dz = total.y + s.grid_offset.y - cell.y * s.generation_size.y;
    let local_x = (if dx < 0 {
        -dx
    } else {
        dx
    }) - jitter.0;
    let local_z = (if dz < 0 {
        -dz
    } else {
        dz
    }) - jitter.1;
    if local_x < 0 || local_z < 0 || local_x >= s.model_size.x || local_z >= s.model_size.z {
        None
    } else {
        Some(
            Placement {
                local: IVec2 { x: local_x as i32, y: local_z as i32 },
                center: IVec2 {
                    x: (cell.x * s.generation_size.x + s.model_size.x / 2 - s.grid_offset.x + jitter.0) as i32,
                    y: (cell.y * s.generation_size.y + s.model_size.z / 2 - s.grid_offset.y + jitter.1) as i32,
                },
            },
        )
    }
}

/// Locates a world column inside the copy of a structure that stands in
/// the column's placement cell, shifted by `jitter`.
pub fn locate_in_structure(s: &StructureGenerator, total: IVec2, cell: IVec2, jitter: (i32, i32)) -> (p:
    Option<Placement>)
    requires
        s.wf(),
        -WORLD_LIMIT <= total.x <= WORLD_LIMIT,
        -WORLD_LIMIT <= total.y <= WORLD_LIMIT,
        cell == s.cell_of(total),
        0 <= jitter.0 <= s.generation_size.x - s.model_size.x,
        0 <= jitter.1 <= s.generation_size.y - s.model_size.z,
    ensures
        p == placement_of(*s, total, cell, (jitter.0 as int, jitter.1 as int)),
        p matches Some(at) ==> 0 <= at.local.x < s.model_size.x && 0 <= at.local.y < s.model_size.z,
{
    proof {
        lemma_div_floor_bounds(total.x + s.grid_offset.x, s.generation_size.x as int);
        lemma_div_floor_bounds(total.y + s.grid_offset.y, s.generation_size.y as int);
    }
    let base_x: i32 = cell.x * s.generation_size.x;
    let base_z: i32 = cell.y * s.generation_size.y;
    let dx: i32 = total.x + s.grid_offset.x - base_x;
    let dz: i32 = total.y + s.grid_offset.y - base_z;
    let local_x: i32 = (if dx < 0 {
        -dx
    } else {
        dx
    }) - jitter.0;
    let local_z: i32 = (if dz < 0 {
        -dz
    } else {
        dz
    }) - jitter.1;
    if local_x < 0 || local_z < 0 || local_x >= s.model_size.x || local_z >= s.model_size.z {
        return None;
    }
    Some(
        Placement {
            local: IVec2 { x: local_x, y: local_z },
            center: IVec2 {
                x: base_x + s.model_size.x / 2 - s.grid_offset.x + jitter.0,
                y: base_z + s.model_size.z / 2 - s.grid_offset.y + jitter.1,
            },
        },
    )
}

/// The height index of the model that lands in row `y` of the grid when the
/// model stands on ground of the sampled height. At a coarser level only
/// every `mult`-th index of the model lands on a row.
pub open spec fn stamp_index(site: SiteSample, min_height: int, mult: int, y: int) -> int {
    (y - (site.height - min_height)) * mult + ((-(site.scaled_height as int)) % mult)
}

/// The block that a copy of the model puts into row `y` of the column that
/// meets the model at `local`, if it puts one there: the row must not lie
/// below the model's foot, the model must reach that high, and its block
/// there must not be air.
pub open spec fn stamp_at(
    s: StructureGenerator,
    local: IVec2,
    site: SiteSample,
    min_height: int,
    mult: int,
    y: int,
) -> Option<BlockType> {
    let index = stamp_index(site, min_height, mult, y);
    if y - (site.height - min_height) >= 0 && index < s.model_size.y && s.block(
        local.x as int,
        index,
        local.y as int,
    ) != BlockType::Air {
        Some(s.block(local.x as int, index, local.y as int))
    } else {
        None
    }
}

/// Whether the model has a block at height index `index` that would land
/// on a row above the grid.
pub open spec fn stamp_above(
    s: StructureGenerator,
    local: IVec2,
    site: SiteSample,
    min_height: int,
    mult: int,
    index: int,
) -> bool {
    &&& 0 <= index < s.model_size.y
    &&& (index + site.scaled_height) % mult == 0
    &&& s.block(local.x as int, index, local.y as int) != BlockType::Air
    &&& site.height - min_height + index / mult >= 66
}

/// Whether some block of the model would land on a row above the grid.
pub open spec fn stamp_overflows(
    s: StructureGenerator,
    local: IVec2,
    site: SiteSample,
    min_height: int,
    mult: int,
) -> bool {
    exists|index: int| #[trigger] stamp_above(s, local, site, min_height, mult, index)
}

/// The content of row `y` after the model has been stamped over `before`.
pub open spec fn stamped_over(
    before: BlockType,
    s: StructureGenerator,
    local: IVec2,
    site: SiteSample,
    min_height: int,
    mult: int,
    y: int,
) -> BlockType {
    match stamp_at(s, local, site, min_height, mult, y) {
        Some(block) => block,
        None => before,
    }
}

/// The row of the grid that the height index `index` of a model lands on.
pub open spec fn stamp_row(site: SiteSample, min_height: int, mult: int, index: int) -> int {
    site.height - min_height + index / mult
}

/// Whether stamping writes the block at height index `index` of the
/// model's column: the index lands on a row of the grid, and the block
/// there is not air.
pub open spec fn stamp_writes_at(
    s: StructureGenerator,
    local: IVec2,
    site: SiteSample,
    min_height: int,
    mult: int,
    index: int,
) -> bool {
    &&& (index + site.scaled_height) % mult == 0
    &&& 0 <= stamp_row(site, min_height, mult, index) < 66
    &&& s.block(local.x as int, index, local.y as int) != BlockType::Air
}

/// The blocks that stamping the first `n` height indices of a model's
/// column writes, lowest first.
pub open spec fn stamp_writes(
    s: StructureGenerator,
    local: IVec2,
    site: SiteSample,
    min_height: int,
    mult: int,
    n: int,
) -> Seq<BlockType>
    decreases n,
{
    if n <= 0 {
        Seq::empty()
    } else {
        let before = stamp_writes(s, local, site, min_height, mult, n - 1);
        if stamp_writes_at(s, local, site, min_height, mult, n - 1) {
            before.push(s.block(local.x as int, n - 1, local.y as int))
        } else {
            before
        }
    }
}

/// Once a height index lands above the grid, so do all higher ones:
/// stamping writes nothing more.
proof fn lemma_stamp_writes_stop(
    s: StructureGenerator,
    local: IVec2,
    site: SiteSample,
    min_height: int,
    mult: int,
    from: int,
    n: int,
)
    requires
        mult > 0,
        0 <= from <= n,
        stamp_row(site, min_height, mult, from) >= 66,
    ensures
        stamp_writes(s, local, site, min_height, mult, n) == stamp_writes(
            s,
            local,
            site,
            min_height,
            mult,
            from,
        ),
    decreases n,
{
    if n > from {
        lemma_stamp_writes_stop(s, local, site, min_height, mult, from, n - 1);
        vstd::arithmetic::div_mod::lemma_div_is_ordered(from, n - 1, mult);
    }
}

/// A number is a multiple of `m` exactly when its negation is.
proof fn lemma_mod_zero_neg(x: int, m: int)
    requires
        m > 0,
    ensures
        (x % m == 0) <==> ((-x) % m == 0),
{
    vstd::arithmetic::div_mod::lemma_fundamental_div_mod(x, m);
    vstd::arithmetic::div_mod::lemma_fundamental_div_mod(-x, m);
    if x % m == 0 {
        let q = x / m;
        assert(-x == (-q) * m + 0) by (nonlinear_arith)
            requires
                x == m * q,
        ;
        vstd::arithmetic::div_mod::lemma_fundamental_div_mod_converse(-x, m, -q, 0);
    }
    if (-x) % m == 0 {
        let q = (-x) / m;
        assert(x == (-q) * m + 0) by (nonlinear_arith)
            requires
                -x == m * q,
        ;
        vstd::arithmetic::div_mod::lemma_fundamental_div_mod_converse(x, m, -q, 0);
    }
}

/// The height index `index` lands on row `y` exactly when `index` plus the
/// scaled ground height is a multiple of `mult` and `y` is the row that
/// `index / mult` steps above the model's foot.
proof fn lemma_stamp_index(site: SiteSample, min_height: int, mult: int, index: int, y: int)
    requires
        mult > 0,
        index >= 0,
    ensures
        stamp_index(site, min_height, mult, y) == index <==> ((index + site.scaled_height) % mult
            == 0 && y == site.height - min_height + index / mult),
{
    let shift = (-(site.scaled_height as int)) % mult;
    let ci = y - (site.height - min_height);
    vstd::arithmetic::div_mod::lemma_mod_bound(-(site.scaled_height as int), mult);
    vstd::arithmetic::div_mod::lemma_fundamental_div_mod(index, mult);
    vstd::arithmetic::div_mod::lemma_mod_bound(index, mult);
    vstd::arithmetic::div_mod::lemma_mod_equivalence(index, -(site.scaled_height as int), mult);
    assert(index - (-(site.scaled_height as int)) == index + site.scaled_height);
    if stamp_index(site, min_height, mult, y) == index {
        vstd::arithmetic::div_mod::lemma_fundamental_div_mod_converse(index, mult, ci, shift);
    }
    if (index + site.scaled_height) % mult == 0 && y == site.height - min_height + index / mult {
        assert(index % mult == shift);
        assert(mult * (index / mult) == (index / mult) * mult) by (nonlinear_arith);
    }
}

/// Stamps the column of a structure model that the grid column at (`x`, `z`)
/// meets. Returns whether a block of the model would land above the grid,
/// and whether every block found room in the palette.
pub fn stamp_structure_column(
    blocks: &mut VoxelData,
    x: i32,
    z: i32,
    s: &StructureGenerator,
    local: IVec2,
    site: &SiteSample,
    min_height: i32,
    chunk_lod: ChunkLod,
) -> (r: (bool, bool))
    requires
        old(blocks).wf(),
        s.wf(),
        0 <= x < 66,
        0 <= z < 66,
        0 <= local.x < s.model_size.x,
        0 <= local.y < s.model_size.z,
        -4 * HEIGHT_LIMIT <= min_height <= 4 * HEIGHT_LIMIT,
        -HEIGHT_LIMIT <= site.height <= HEIGHT_LIMIT,
        -HEIGHT_LIMIT <= site.scaled_height <= HEIGHT_LIMIT,
    ensures
        final(blocks).wf(),
        r.0 == stamp_overflows(*s, local, *site, min_height as int, chunk_lod.multiplier()),
        r.1 ==> forall|y: int|
            0 <= y < 66 ==> final(blocks).block_at(#[trigger] column_cell(x, y, z)) == stamped_over(
                old(blocks).block_at(column_cell(x, y, z)),
                *s,
                local,
                *site,
                min_height as int,
                chunk_lod.multiplier(),
                y,
            ),
        wrote(
            *old(blocks),
            *final(blocks),
            stamp_writes(
                *s,
                local,
                *site,
                min_height as int,
                chunk_lod.multiplier(),
                s.model_size.y as int,
            ),
            r.1,
        ),
        forall|p: IVec3|
            in_grid(p) && !(p.x == x && p.z == z) ==> #[trigger] final(blocks).block_at(p) == old(blocks).block_at(p),
{
    let mult: i32 = chunk_lod.multiplier_i32();
    let ghost m = mult as int;
    let ghost mh = min_height as int;
    let mut overflow = false;
    let mut all_stored = true;
    let mut index: i32 = 0;
    let count: i32 = s.model_size.y;
    while index < count
        invariant
            blocks.wf(),
            s.wf(),
            0 <= x < 66,
            0 <= z < 66,
            0 <= local.x < s.model_size.x,
            0 <= local.y < s.model_size.z,
            -4 * HEIGHT_LIMIT <= min_height <= 4 * HEIGHT_LIMIT,
            -HEIGHT_LIMIT <= site.height <= HEIGHT_LIMIT,
            -HEIGHT_LIMIT <= site.scaled_height <= HEIGHT_LIMIT,
            count == s.model_size.y,
            0 <= index <= count,
            1 <= mult <= 256,
            m == mult,
            m == chunk_lod.multiplier(),
            mh == min_height,
            !overflow,
            wrote(*old(blocks), *blocks, stamp_writes(*s, local, *site, mh, m, index as int), all_stored),
            forall|i: int| 0 <= i < index ==> !#[trigger] stamp_above(*s, local, *site, mh, m, i),
            all_stored ==> forall|y: int|
                0 <= y < 66 ==> blocks.block_at(#[trigger] column_cell(x, y, z)) == (if stamp_index(
                    *site,
                    mh,
                    m,
                    y,
                ) < index {
                    stamped_over(old(blocks).block_at(column_cell(x, y, z)), *s, local, *site, mh, m, y)
                } else {
                    old(blocks).block_at(column_cell(x, y, z))
                }),
            forall|p: IVec3|
                in_grid(p) && !(p.x == x && p.z == z) ==> #[trigger] blocks.block_at(p) == old(blocks).block_at(p),
        decreases count - index,
    {
        let sum: i32 = index + site.scaled_height;
        let remainder: i32 = sum % mult;
        let chunk_index: i32 = index / mult;
        let row: i32 = site.height - min_height + chunk_index;
        let structure_block = s.model[local.x as usize][index as usize][local.y as usize];
        proof {
            vstd::arithmetic::div_mod::lemma_div_pos_is_pos(index as int, m);
            vstd::arithmetic::div_mod::lemma_fundamental_div_mod(index as int, m);
            vstd::arithmetic::div_mod::lemma_mod_bound(index as int, m);
            assert((index as int / m) <= index) by (nonlinear_arith)
                requires
                    index as int == m * (index as int / m) + (index as int % m),
                    0 <= index as int % m,
                    index as int / m >= 0,
                    m >= 1,
            ;
            lemma_mod_zero_neg(sum as int, m);
            assert((remainder == 0) == ((sum as int) % m == 0));
            assert forall|y: int| 0 <= y < 66 implies (stamp_index(*site, mh, m, y) == index) == (remainder
                == 0 && y == row) by {
                lemma_stamp_index(*site, mh, m, index as int, y);
            }
            assert(structure_block == s.block(local.x as int, index as int, local.y as int));
            assert(row == stamp_row(*site, mh, m, index as int));
            assert(stamp_writes_at(*s, local, *site, mh, m, index as int) == (remainder == 0 && 0 <= row
                < 66 && structure_block != BlockType::Air));
        }
        if remainder == 0 && row >= 0 && structure_block != BlockType::Air {
            if row >= 66 {
                overflow = true;
                proof {
                    lemma_stamp_writes_stop(*s, local, *site, mh, m, index as int, count as int);
                    assert(stamp_above(*s, local, *site, mh, m, index as int));
                    if all_stored {
                        assert forall|y: int| 0 <= y < 66 implies blocks.block_at(
                            #[trigger] column_cell(x, y, z),
                        ) == stamped_over(
                            old(blocks).block_at(column_cell(x, y, z)),
                            *s,
                            local,
                            *site,
                            mh,
                            m,
                            y,
                        ) by {
                            let i = stamp_index(*site, mh, m, y);
                            lemma_stamp_index(*site, mh, m, index as int, row as int);
                            if i >= index {
                                assert((y - (site.height - mh)) * m >= (row - (site.height - mh)) * m);
                                assert(y >= row) by (nonlinear_arith)
                                    requires
                                        (y - (site.height - mh)) * m >= (row - (site.height - mh)) * m,
                                        m >= 1,
                                ;
                            }
                        }
                    }
                }
                return (true, all_stored);
            }
            let ghost before = *blocks;
            let ghost stored_before = all_stored;
            let stored = blocks.set_block(IVec3 { x, y: row, z }, structure_block);
            if !stored {
                all_stored = false;
            }
            proof {
                lemma_wrote_more(
                    *old(blocks),
                    before,
                    *blocks,
                    stamp_writes(*s, local, *site, mh, m, index as int),
                    stored_before,
                    IVec3 { x, y: row, z },
                    structure_block,
                    stored,
                );
                let here = column_cell(x, row as int, z);
                if all_stored {
                    assert forall|y: int| 0 <= y < 66 implies blocks.block_at(
                        #[trigger] column_cell(x, y, z),
                    ) == (if stamp_index(*site, mh, m, y) < index + 1 {
                        stamped_over(old(blocks).block_at(column_cell(x, y, z)), *s, local, *site, mh, m, y)
                    } else {
                        old(blocks).block_at(column_cell(x, y, z))
                    }) by {
                        let p = column_cell(x, y, z);
                        if y == row {
                        } else {
                            assert(p != here);
                            assert(blocks.block_at(p) == before.block_at(p));
                        }
                    }
                }
                assert forall|p: IVec3| in_grid(p) && !(p.x == x && p.z == z) implies #[trigger] blocks.block_at(
                    p,
                ) == old(blocks).block_at(p) by {
                    assert(p != here);
                    assert(blocks.block_at(p) == before.block_at(p));
                }
            }
        } else {
            proof {
                if all_stored {
                    assert forall|y: int| 0 <= y < 66 implies blocks.block_at(
                        #[trigger] column_cell(x, y, z),
                    ) == (if stamp_index(*site, mh, m, y) < index + 1 {
                        stamped_over(old(blocks).block_at(column_cell(x, y, z)), *s, local, *site, mh, m, y)
                    } else {
                        old(blocks).block_at(column_cell(x, y, z))
                    }) by {
                        if stamp_index(*site, mh, m, y) == index {
                            assert(stamp_at(*s, local, *site, mh, m, y).is_none());
                        }
                    }
                }
            }
        }
        index += 1;
    }
    proof {
        if stamp_overflows(*s, local, *site, mh, m) {
            let i = choose|i: int| #[trigger] stamp_above(*s, local, *site, mh, m, i);
            assert(!stamp_above(*s, local, *site, mh, m, i));
        }
        if all_stored {
            assert forall|y: int| 0 <= y < 66 implies blocks.block_at(#[trigger] column_cell(x, y, z))
                == stamped_over(
                old(blocks).block_at(column_cell(x, y, z)),
                *s,
                local,
                *site,
                mh,
                m,
                y,
            ) by {
                if stamp_index(*site, mh, m, y) >= count {
                    assert(stamp_at(*s, local, *site, mh, m, y).is_none());
                }
            }
        }
    }
    (false, all_stored)
}

/// The world column of column `x`, `z` of the grid of the chunk at `position`.
pub open spec fn world_column(position: IVec3, mult: int, x: int, z: int) -> IVec2 {
    IVec2 { x: (position.x * 64 + x * mult) as i32, y: (position.z * 64 + z * mult) as i32 }
}

/// The lowest of the first `n` sampled terrain heights; the first one always counts.
pub open spec fn grid_min(heights: Seq<i32>, n: int) -> int
    decreases n,
{
    if n <= 0 {
        heights[0] as int
    } else {
        let rest = grid_min(heights, n - 1);
        if heights[n - 1] < rest {
            heights[n - 1] as int
        } else {
            rest
        }
    }
}

/// World height of the lowest row of the chunk's grid: a little below the
/// lowest ground of the chunk, raised by 64 rows for each slab above the first.
pub open spec fn terrain_floor(samples: &ChunkSamples, lod: ChunkLod, position: IVec3) -> int {
    grid_min(samples.heights@, 4096) - 2 + position.y * 64 - 10int / lod.multiplier()
}

/// The lowest sampled height is no higher than any of the samples, and is
/// one of them.
pub proof fn lemma_grid_min_is_least(heights: Seq<i32>, n: int, i: int)
    requires
        0 <= i < n <= heights.len(),
    ensures
        grid_min(heights, n) <= heights[i],
        exists|k: int| 0 <= k < n && grid_min(heights, n) == #[trigger] heights[k],
    decreases n,
{
    if n == 1 {
        assert(grid_min(heights, 0) == heights[0]);
        assert(grid_min(heights, 1) == heights[0]);
    } else {
        if i < n - 1 {
            lemma_grid_min_is_least(heights, n - 1, i);
        } else {
            lemma_grid_min_is_least(heights, n - 1, 0);
        }
        let k = choose|k: int| 0 <= k < n - 1 && grid_min(heights, n - 1) == #[trigger] heights[k];
        if heights[n - 1] < grid_min(heights, n - 1) {
            assert(grid_min(heights, n) == heights[n - 1]);
        } else {
            assert(grid_min(heights, n) == heights[k]);
        }
    }
}

/// Finds the world height of the lowest row of the chunk's grid.
pub fn get_terrain_floor(samples: &ChunkSamples, lod: ChunkLod, position: IVec3) -> (floor: i32)
    requires
        -POSITION_LIMIT <= position.y <= POSITION_LIMIT,
        samples.heights@.len() == 4096,
        forall|i: int|
            0 <= i < 4096 ==> -HEIGHT_LIMIT <= #[trigger] samples.heights@[i] <= HEIGHT_LIMIT,
    ensures
        floor == terrain_floor(samples, lod, position),
        -3 * HEIGHT_LIMIT <= floor <= 3 * HEIGHT_LIMIT,
{
    let mult: i32 = lod.multiplier_i32();
    let mut min: i32 = samples.heights[0];
    let mut n: usize = 0;
    while n < 4096
        invariant
            samples.heights@.len() == 4096,
            forall|i: int|
                0 <= i < 4096 ==> -HEIGHT_LIMIT <= #[trigger] samples.heights@[i] <= HEIGHT_LIMIT,
            n <= 4096,
            -HEIGHT_LIMIT <= min <= HEIGHT_LIMIT,
            min == grid_min(samples.heights@, n as int),
        decreases 4096 - n,
    {
        let current = samples.heights[n];
        if current < min {
            min = current;
        }
        n += 1;
    }
    min - 2 + position.y * 64 - 10 / mult
}

/// The column of the model of a structure that a world column meets, and
/// the ground under that copy of the model; nothing if the column's
/// placement cell is empty, the copy does not reach the column, the ground
/// is too steep, or a road runs too near.
pub open spec fn structure_hit(s: StructureGenerator, sample: Option<StructureSample>, total: IVec2) -> Option<
    (IVec2, SiteSample),
> {
    match sample {
        None => None,
        Some(found) => {
            let jitter = seeded_pair(
                found.seed,
                0,
                s.generation_size.x - s.model_size.x,
                0,
                s.generation_size.y - s.model_size.z,
            );
            match placement_of(s, total, s.cell_of(total), jitter) {
                None => None,
                Some(at) => {
                    if found.site.too_steep || found.site.path_distance < s.clearance() {
                        None
                    } else {
                        Some((at.local, found.site))
                    }
                },
            }
        },
    }
}

/// The block in row `y` of the column with index `column` after the first
/// `n` structures have been stamped over the ground `ground`, one after the other.
pub open spec fn after_structures(
    samples: &ChunkSamples,
    structures: Seq<StructureGenerator>,
    n: int,
    lod: ChunkLod,
    total: IVec2,
    column: int,
    min_height: int,
    y: int,
    ground: BlockType,
) -> BlockType
    decreases n,
{
    if n <= 0 {
        ground
    } else {
        let before = after_structures(
            samples,
            structures,
            n - 1,
            lod,
            total,
            column,
            min_height,
            y,
            ground,
        );
        match structure_hit(structures[n - 1], samples.structure_at(n - 1, column), total) {
            None => before,
            Some((local, site)) => stamped_over(
                before,
                structures[n - 1],
                local,
                site,
                min_height,
                lod.multiplier(),
                y,
            ),
        }
    }
}

/// Whether one of the first `n` structures has a block above the grid in the column.
pub open spec fn structures_above(
    samples: &ChunkSamples,
    structures: Seq<StructureGenerator>,
    n: int,
    lod: ChunkLod,
    total: IVec2,
    column: int,
    min_height: int,
) -> bool
    decreases n,
{
    if n <= 0 {
        false
    } else {
        structures_above(samples, structures, n - 1, lod, total, column, min_height) || match structure_hit(
            structures[n - 1],
            samples.structure_at(n - 1, column),
            total,
        ) {
            None => false,
            Some((local, site)) => stamp_overflows(
                structures[n - 1],
                local,
                site,
                min_height,
                lod.multiplier(),
            ),
        }
    }
}

/// The block that generation puts at a place of the chunk's grid.
pub open spec fn generated_block(
    samples: &ChunkSamples,
    structures: Seq<StructureGenerator>,
    lod: ChunkLod,
    position: IVec3,
    p: IVec3,
) -> BlockType {
    let total = world_column(position, lod.multiplier(), p.x as int, p.z as int);
    let column = column_index(p.x as int, p.z as int);
    let min_height = terrain_floor(samples, lod, position);
    after_structures(
        samples,
        structures,
        structures.len() as int,
        lod,
        total,
        column,
        min_height,
        p.y as int,
        terrain_at(samples.columns@[column], min_height, p.y as int),
    )
}

/// Whether the column at (`x`, `z`) of the grid holds something that goes
/// on above the grid: ground that reaches the top row, or a structure.
pub open spec fn column_continues(
    samples: &ChunkSamples,
    structures: Seq<StructureGenerator>,
    lod: ChunkLod,
    position: IVec3,
    x: int,
    z: int,
) -> bool {
    let total = world_column(position, lod.multiplier(), x, z);
    let min_height = terrain_floor(samples, lod, position);
    samples.columns@[column_index(x, z)].height >= 66 + min_height || structures_above(
        samples,
        structures,
        structures.len() as int,
        lod,
        total,
        column_index(x, z),
        min_height,
    )
}

/// The blocks that stamping a structure into a column writes: those of the
/// model's column that the world column meets, if a copy stands there.
pub open spec fn structure_writes(
    s: StructureGenerator,
    sample: Option<StructureSample>,
    total: IVec2,
    min_height: int,
    lod: ChunkLod,
) -> Seq<BlockType> {
    match structure_hit(s, sample, total) {
        None => Seq::empty(),
        Some((local, site)) => stamp_writes(
            s,
            local,
            site,
            min_height,
            lod.multiplier(),
            s.model_size.y as int,
        ),
    }
}

/// The blocks that stamping the first `n` structures into a column writes.
pub open spec fn structures_writes(
    samples: &ChunkSamples,
    structures: Seq<StructureGenerator>,
    n: int,
    lod: ChunkLod,
    total: IVec2,
    column: int,
    min_height: int,
) -> Seq<BlockType>
    decreases n,
{
    if n <= 0 {
        Seq::empty()
    } else {
        structures_writes(samples, structures, n - 1, lod, total, column, min_height) + structure_writes(
            structures[n - 1],
            samples.structure_at(n - 1, column),
            total,
            min_height,
            lod,
        )
    }
}

/// The blocks that generating the column at (`x`, `z`) of the grid writes:
/// the ground, lowest row first, and then the structures in turn.
pub open spec fn column_writes(
    samples: &ChunkSamples,
    structures: Seq<StructureGenerator>,
    lod: ChunkLod,
    position: IVec3,
    x: int,
    z: int,
) -> Seq<BlockType> {
    let min_height = terrain_floor(samples, lod, position);
    terrain_writes(samples.columns@[column_index(x, z)], min_height) + structures_writes(
        samples,
        structures,
        structures.len() as int,
        lod,
        world_column(position, lod.multiplier(), x, z),
        column_index(x, z),
        min_height,
    )
}

/// The blocks that generating the first `n` columns of the grid writes,
/// column by column with z running fastest.
pub open spec fn chunk_writes(
    samples: &ChunkSamples,
    structures: Seq<StructureGenerator>,
    lod: ChunkLod,
    position: IVec3,
    n: int,
) -> Seq<BlockType>
    decreases n,
{
    if n <= 0 {
        Seq::empty()
    } else {
        chunk_writes(samples, structures, lod, position, n - 1) + column_writes(
            samples,
            structures,
            lod,
            position,
            (n - 1) / 66,
            (n - 1) % 66,
        )
    }
}

/// The world column on which the copy of a structure seeded with `seed`
/// is centred, if the copy reaches the world column `total`. It is there
/// that the ground under the copy has to be sampled.
pub fn structure_center(s: &StructureGenerator, total: IVec2, seed: u64) -> (center: Option<IVec2>)
    requires
        s.wf(),
        -WORLD_LIMIT <= total.x <= WORLD_LIMIT,
        -WORLD_LIMIT <= total.y <= WORLD_LIMIT,
    ensures
        center == match placement_of(
            *s,
            total,
            s.cell_of(total),
            seeded_pair(
                seed,
                0,
                s.generation_size.x - s.model_size.x,
                0,
                s.generation_size.y - s.model_size.z,
            ),
        ) {
            None => None,
            Some(at) => Some(at.center),
        },
{
    let cell = s.get_cell(total);
    let jitter = draw_pair(
        seed,
        0,
        s.generation_size.x - s.model_size.x,
        0,
        s.generation_size.y - s.model_size.z,
    );
    match locate_in_structure(s, total, cell, jitter) {
        None => None,
        Some(at) => Some(at.center),
    }
}

/// Stamps a structure into the column at (`x`, `z`) if a copy of it stands
/// there. Returns whether a block of the copy would land above the grid,
/// and whether every block found room in the palette.
pub fn apply_structure(
    blocks: &mut VoxelData,
    x: i32,
    z: i32,
    s: &StructureGenerator,
    sample: Option<StructureSample>,
    chunk_lod: ChunkLod,
    total: IVec2,
    min_height: i32,
) -> (r: (bool, bool))
    requires
        old(blocks).wf(),
        s.wf(),
        site_bounded(sample),
        0 <= x < 66,
        0 <= z < 66,
        -WORLD_LIMIT <= total.x <= WORLD_LIMIT,
        -WORLD_LIMIT <= total.y <= WORLD_LIMIT,
        -4 * HEIGHT_LIMIT <= min_height <= 4 * HEIGHT_LIMIT,
    ensures
        final(blocks).wf(),
        r.0 == match structure_hit(*s, sample, total) {
            None => false,
            Some((local, site)) => stamp_overflows(
                *s,
                local,
                site,
                min_height as int,
                chunk_lod.multiplier(),
            ),
        },
        r.1 ==> forall|y: int|
            0 <= y < 66 ==> final(blocks).block_at(#[trigger] column_cell(x, y, z)) == match structure_hit(
                *s,
                sample,
                total,
            ) {
                None => old(blocks).block_at(column_cell(x, y, z)),
                Some((local, site)) => stamped_over(
                    old(blocks).block_at(column_cell(x, y, z)),
                    *s,
                    local,
                    site,
                    min_height as int,
                    chunk_lod.multiplier(),
                    y,
                ),
            },
        wrote(
            *old(blocks),
            *final(blocks),
            structure_writes(*s, sample, total, min_height as int, chunk_lod),
            r.1,
        ),
        forall|p: IVec3|
            in_grid(p) && !(p.x == x && p.z == z) ==> #[trigger] final(blocks).block_at(p) == old(blocks).block_at(p),
{
    proof {
        lemma_wrote_nothing(*blocks);
    }
    let found = match sample {
        None => {
            return (false, true);
        },
        Some(found) => found,
    };
    let cell = s.get_cell(total);
    let jitter = draw_pair(
        found.seed,
        0,
        s.generation_size.x - s.model_size.x,
        0,
        s.generation_size.y - s.model_size.z,
    );
    let at = match locate_in_structure(s, total, cell, jitter) {
        None => {
            return (false, true);
        },
        Some(at) => at,
    };
    if found.site.too_steep {
        return (false, true);
    }
    if found.site.path_distance < s.model_size.x / 2 + s.model_size.y / 2 {
        return (false, true);
    }
    stamp_structure_column(blocks, x, z, s, at.local, &found.site, min_height, chunk_lod)
}

/// Generates the column at (`x`, `z`) of the grid: fills in the ground and
/// then stamps each structure in turn where a copy of it stands in the
/// column. Returns whether the column goes on above the grid, and whether
/// every block found room in the palette.
pub fn generate_column(
    blocks: &mut VoxelData,
    x: i32,
    z: i32,
    samples: &ChunkSamples,
    structures: &Vec<StructureGenerator>,
    chunk_lod: ChunkLod,
    total: IVec2,
    min_height: i32,
) -> (r: (bool, bool))
    requires
        old(blocks).wf(),
        samples.wf(structures@.len() as int),
        forall|i: int| 0 <= i < structures@.len() ==> (#[trigger] structures@[i]).wf(),
        0 <= x < 66,
        0 <= z < 66,
        -WORLD_LIMIT <= total.x <= WORLD_LIMIT,
        -WORLD_LIMIT <= total.y <= WORLD_LIMIT,
        -3 * HEIGHT_LIMIT <= min_height <= 3 * HEIGHT_LIMIT,
    ensures
        final(blocks).wf(),
        r.0 == (samples.columns@[column_index(x as int, z as int)].height >= 66 + min_height
            || structures_above(
            samples,
            structures@,
            structures@.len() as int,
            chunk_lod,
            total,
            column_index(x as int, z as int),
            min_height as int,
        )),
        r.1 ==> forall|y: int|
            0 <= y < 66 ==> final(blocks).block_at(#[trigger] column_cell(x, y, z)) == after_structures(
                samples,
                structures@,
                structures@.len() as int,
                chunk_lod,
                total,
                column_index(x as int, z as int),
                min_height as int,
                y,
                filled_over(
                    old(blocks).block_at(column_cell(x, y, z)),
                    samples.columns@[column_index(x as int, z as int)],
                    min_height as int,
                    y,
                ),
            ),
        wrote(
            *old(blocks),
            *final(blocks),
            terrain_writes(samples.columns@[column_index(x as int, z as int)], min_height as int)
                + structures_writes(
                samples,
                structures@,
                structures@.len() as int,
                chunk_lod,
                total,
                column_index(x as int, z as int),
                min_height as int,
            ),
            r.1,
        ),
        forall|p: IVec3|
            in_grid(p) && !(p.x == x && p.z == z) ==> #[trigger] final(blocks).block_at(p) == old(
                blocks,
            ).block_at(p),
{
    let ghost mh = min_height as int;
    let index: usize = (x * 66 + z) as usize;
    let column = samples.columns[index];
    let filled = fill_column(blocks, x, z, min_height, &column);
    let mut more = filled.0;
    let mut stored = filled.1;
    proof {
        assert(terrain_writes(column, mh) + structures_writes(
            samples,
            structures@,
            0,
            chunk_lod,
            total,
            index as int,
            mh,
        ) =~= terrain_writes(column, mh));
    }
    let mut i: usize = 0;
    while i < structures.len()
        invariant
            blocks.wf(),
            samples.wf(structures@.len() as int),
            forall|k: int| 0 <= k < structures@.len() ==> (#[trigger] structures@[k]).wf(),
            0 <= x < 66,
            0 <= z < 66,
            index == column_index(x as int, z as int),
            column == samples.columns@[index as int],
            0 <= i <= structures@.len(),
            -WORLD_LIMIT <= total.x <= WORLD_LIMIT,
            -WORLD_LIMIT <= total.y <= WORLD_LIMIT,
            mh == min_height,
            -3 * HEIGHT_LIMIT <= min_height <= 3 * HEIGHT_LIMIT,
            more == (column.height >= 66 + min_height || structures_above(
                samples,
                structures@,
                i as int,
                chunk_lod,
                total,
                index as int,
                mh,
            )),
            stored ==> forall|y: int|
                0 <= y < 66 ==> blocks.block_at(#[trigger] column_cell(x, y, z)) == after_structures(
                    samples,
                    structures@,
                    i as int,
                    chunk_lod,
                    total,
                    index as int,
                    mh,
                    y,
                    filled_over(old(blocks).block_at(column_cell(x, y, z)), column, mh, y),
                ),
            forall|p: IVec3|
                in_grid(p) && !(p.x == x && p.z == z) ==> #[trigger] blocks.block_at(p) == old(
                    blocks,
                ).block_at(p),
            wrote(
                *old(blocks),
                *blocks,
                terrain_writes(column, mh) + structures_writes(
                    samples,
                    structures@,
                    i as int,
                    chunk_lod,
                    total,
                    index as int,
                    mh,
                ),
                stored,
            ),
        decreases structures@.len() - i,
    {
        let sample = samples.structures[i][index];
        assert(site_bounded(samples.structures@[i as int]@[index as int]));
        let ghost before = *blocks;
        let ghost stored_before = stored;
        let r = apply_structure(blocks, x, z, &structures[i], sample, chunk_lod, total, min_height);
        if r.0 {
            more = true;
        }
        if !r.1 {
            stored = false;
        }
        proof {
            let earlier = terrain_writes(column, mh) + structures_writes(
                samples,
                structures@,
                i as int,
                chunk_lod,
                total,
                index as int,
                mh,
            );
            let here = structure_writes(structures@[i as int], sample, total, mh, chunk_lod);
            lemma_wrote_both(*old(blocks), before, *blocks, earlier, stored_before, here, r.1);
            assert(earlier + here =~= terrain_writes(column, mh) + structures_writes(
                samples,
                structures@,
                i + 1,
                chunk_lod,
                total,
                index as int,
                mh,
            ));
        }
        i += 1;
    }
    (more, stored)
}

/// What generating one chunk yields.
pub struct GeneratedVoxels {
    /// The block grid, halo included.
    pub blocks: VoxelData,
    /// World height of the grid's lowest row.
    pub min_height: i32,
    /// Whether the column of chunks goes on above this chunk.
    pub generate_more: bool,
    /// Whether the chunk asked for more block types than the palette holds.
    /// The grid is then not to be relied on.
    pub palette_overflow: bool,
}

/// Whether column (`cx`, `cz`) of the grid comes before column (`x`, `z`)
/// in the order the generator works in.
pub open spec fn column_before(cx: int, cz: int, x: int, z: int) -> bool {
    0 <= cx < 66 && 0 <= cz < 66 && (cx < x || (cx == x && cz < z))
}

/// What holds when the columns before the column at (`x`, `z`) have been
/// generated: they hold what generation puts there, the rest is air, the
/// palette has grown by what was written, and the flags say whether a
/// column goes on above the grid and whether the palette overflowed.
#[verifier::opaque]
spec fn columns_done(
    fresh: VoxelData,
    blocks: VoxelData,
    samples: &ChunkSamples,
    structures: Seq<StructureGenerator>,
    lod: ChunkLod,
    position: IVec3,
    x: int,
    z: int,
    generate_more: bool,
    palette_overflow: bool,
) -> bool {
    &&& generate_more == (exists|cx: int, cz: int|
        column_before(cx, cz, x, z) && #[trigger] column_continues(
            samples,
            structures,
            lod,
            position,
            cx,
            cz,
        ))
    &&& !palette_overflow ==> forall|p: IVec3|
        in_grid(p) ==> #[trigger] blocks.block_at(p) == (if column_before(p.x as int, p.z as int, x, z) {
            generated_block(samples, structures, lod, position, p)
        } else {
            BlockType::Air
        })
    &&& wrote(fresh, blocks, chunk_writes(samples, structures, lod, position, x * 66 + z), !palette_overflow)
}

/// Before the first column nothing is done.
proof fn lemma_columns_begin(
    fresh: VoxelData,
    samples: &ChunkSamples,
    structures: Seq<StructureGenerator>,
    lod: ChunkLod,
    position: IVec3,
)
    requires
        forall|p: IVec3| in_grid(p) ==> #[trigger] fresh.block_at(p) == BlockType::Air,
    ensures
        columns_done(fresh, fresh, samples, structures, lod, position, 0, 0, false, false),
{
    reveal(columns_done);
}

/// After the last column of a row comes the first of the next row.
proof fn lemma_columns_next_row(
    fresh: VoxelData,
    blocks: VoxelData,
    samples: &ChunkSamples,
    structures: Seq<StructureGenerator>,
    lod: ChunkLod,
    position: IVec3,
    x: int,
    generate_more: bool,
    palette_overflow: bool,
)
    requires
        columns_done(fresh, blocks, samples, structures, lod, position, x, 66, generate_more, palette_overflow),
    ensures
        columns_done(
            fresh,
            blocks,
            samples,
            structures,
            lod,
            position,
            x + 1,
            0,
            generate_more,
            palette_overflow,
        ),
{
    reveal(columns_done);
    assert forall|cx: int, cz: int| column_before(cx, cz, x, 66) == column_before(cx, cz, x + 1, 0) by {}
    if generate_more {
        let (cx, cz) = choose|cx: int, cz: int|
            column_before(cx, cz, x, 66) && #[trigger] column_continues(
                samples,
                structures,
                lod,
                position,
                cx,
                cz,
            );
        assert(column_before(cx, cz, x + 1, 0));
    }
    if !palette_overflow {
        assert forall|p: IVec3| in_grid(p) implies #[trigger] blocks.block_at(p) == (if column_before(
            p.x as int,
            p.z as int,
            x + 1,
            0,
        ) {
            generated_block(samples, structures, lod, position, p)
        } else {
            BlockType::Air
        }) by {
            assert(column_before(p.x as int, p.z as int, x, 66) == column_before(
                p.x as int,
                p.z as int,
                x + 1,
                0,
            ));
        }
    }
}

/// One more column has been generated.
proof fn lemma_columns_step(
    fresh: VoxelData,
    start: VoxelData,
    blocks: VoxelData,
    samples: &ChunkSamples,
    structures: Seq<StructureGenerator>,
    lod: ChunkLod,
    position: IVec3,
    x: i32,
    z: i32,
    generate_more: bool,
    palette_overflow: bool,
    more: bool,
    stored: bool,
)
    requires
        0 <= x < 66,
        0 <= z < 66,
        columns_done(
            fresh,
            start,
            samples,
            structures,
            lod,
            position,
            x as int,
            z as int,
            generate_more,
            palette_overflow,
        ),
        more == column_continues(samples, structures, lod, position, x as int, z as int),
        stored ==> forall|y: int|
            0 <= y < 66 ==> blocks.block_at(#[trigger] column_cell(x, y, z)) == after_structures(
                samples,
                structures,
                structures.len() as int,
                lod,
                world_column(position, lod.multiplier(), x as int, z as int),
                column_index(x as int, z as int),
                terrain_floor(samples, lod, position),
                y,
                filled_over(
                    start.block_at(column_cell(x, y, z)),
                    samples.columns@[column_index(x as int, z as int)],
                    terrain_floor(samples, lod, position),
                    y,
                ),
            ),
        wrote(
            start,
            blocks,
            column_writes(samples, structures, lod, position, x as int, z as int),
            stored,
        ),
        forall|p: IVec3|
            in_grid(p) && !(p.x == x && p.z == z) ==> #[trigger] blocks.block_at(p) == start.block_at(p),
    ensures
        columns_done(
            fresh,
            blocks,
            samples,
            structures,
            lod,
            position,
            x as int,
            z + 1,
            generate_more || more,
            palette_overflow || !stored,
        ),
{
    reveal(columns_done);
    let n = x * 66 + z + 1;
    assert((n - 1) / 66 == x && (n - 1) % 66 == z);
    lemma_wrote_both(
        fresh,
        start,
        blocks,
        chunk_writes(samples, structures, lod, position, n - 1),
        !palette_overflow,
        column_writes(samples, structures, lod, position, x as int, z as int),
        stored,
    );
    if more {
        assert(column_before(x as int, z as int, x as int, z + 1));
    }
    if generate_more {
        let (cx, cz) = choose|cx: int, cz: int|
            column_before(cx, cz, x as int, z as int) && #[trigger] column_continues(
                samples,
                structures,
                lod,
                position,
                cx,
                cz,
            );
        assert(column_before(cx, cz, x as int, z + 1));
    }
    if !(palette_overflow || !stored) {
        let mh = terrain_floor(samples, lod, position);
        let column = samples.columns@[column_index(x as int, z as int)];
        assert forall|p: IVec3| in_grid(p) implies #[trigger] blocks.block_at(p) == (if column_before(
            p.x as int,
            p.z as int,
            x as int,
            z + 1,
        ) {
            generated_block(samples, structures, lod, position, p)
        } else {
            BlockType::Air
        }) by {
            if p.x == x && p.z == z {
                assert(p == column_cell(x, p.y as int, z));
                assert(!column_before(p.x as int, p.z as int, x as int, z as int));
                assert(start.block_at(p) == BlockType::Air);
                assert(filled_over(start.block_at(p), column, mh, p.y as int) == terrain_at(
                    column,
                    mh,
                    p.y as int,
                ));
            } else {
                assert(blocks.block_at(p) == start.block_at(p));
            }
        }
    }
}

/// When all columns are done, the chunk is generated.
proof fn lemma_columns_end(
    fresh: VoxelData,
    blocks: VoxelData,
    samples: &ChunkSamples,
    structures: Seq<StructureGenerator>,
    lod: ChunkLod,
    position: IVec3,
    min_height: i32,
    generate_more: bool,
    palette_overflow: bool,
)
    requires
        blocks.wf(),
        min_height == terrain_floor(samples, lod, position),
        fresh.known_blocks() == Seq::<BlockType>::empty(),
        forall|index: int| VOXEL_COUNT <= index < 4 * ARRAY_WORDS ==> #[trigger] fresh.index_at(index) == 0,
        columns_done(fresh, blocks, samples, structures, lod, position, 66, 0, generate_more, palette_overflow),
    ensures
        is_generated(
            GeneratedVoxels { blocks, min_height, generate_more, palette_overflow },
            position,
            samples,
            structures,
            lod,
        ),
{
    reveal(columns_done);
    if generate_more {
        let (cx, cz) = choose|cx: int, cz: int|
            column_before(cx, cz, 66, 0) && #[trigger] column_continues(
                samples,
                structures,
                lod,
                position,
                cx,
                cz,
            );
        assert(0 <= cx < 66 && 0 <= cz < 66);
    }
    assert forall|cx: int, cz: int|
        0 <= cx < 66 && 0 <= cz < 66 && #[trigger] column_continues(
            samples,
            structures,
            lod,
            position,
            cx,
            cz,
        ) implies generate_more by {
        assert(column_before(cx, cz, 66, 0));
    }
    assert forall|index: int| VOXEL_COUNT <= index < 4 * ARRAY_WORDS implies #[trigger] blocks.index_at(
        index,
    ) == 0 by {
        assert(blocks.index_at(index) == fresh.index_at(index));
    }
}

/// Generates the blocks of the chunk at `position` (x and z count chunks,
/// y counts slabs from the ground up) at the given level of detail.
///
/// Each column of the grid is filled with ground up to the sampled height;
/// then each structure in turn is stamped into the column where a copy of
/// it stands there. The palette takes the block types in the order they
/// are first written.
pub fn generate_voxels(
    position: IVec3,
    samples: &ChunkSamples,
    structures: &Vec<StructureGenerator>,
    chunk_lod: ChunkLod,
) -> (out: GeneratedVoxels)
    requires
        -POSITION_LIMIT <= position.x <= POSITION_LIMIT,
        -POSITION_LIMIT <= position.y <= POSITION_LIMIT,
        -POSITION_LIMIT <= position.z <= POSITION_LIMIT,
        samples.wf(structures@.len() as int),
        forall|i: int| 0 <= i < structures@.len() ==> (#[trigger] structures@[i]).wf(),
    ensures
        is_generated(out, position, samples, structures@, chunk_lod),
{
    let mut blocks = VoxelData::new();
    let min_height = get_terrain_floor(samples, chunk_lod, position);
    let mult: i32 = chunk_lod.multiplier_i32();
    let mut generate_more = false;
    let mut palette_overflow = false;
    let ghost fresh = blocks;
    proof {
        lemma_columns_begin(fresh, samples, structures@, chunk_lod, position);
    }
    let mut x: i32 = 0;
    while x < 66
        invariant
            blocks.wf(),
            -POSITION_LIMIT <= position.x <= POSITION_LIMIT,
            -POSITION_LIMIT <= position.z <= POSITION_LIMIT,
            samples.wf(structures@.len() as int),
            forall|i: int| 0 <= i < structures@.len() ==> (#[trigger] structures@[i]).wf(),
            0 <= x <= 66,
            1 <= mult <= 256,
            mult == chunk_lod.multiplier(),
            min_height == terrain_floor(samples, chunk_lod, position),
            -3 * HEIGHT_LIMIT <= min_height <= 3 * HEIGHT_LIMIT,
            columns_done(
                fresh,
                blocks,
                samples,
                structures@,
                chunk_lod,
                position,
                x as int,
                0,
                generate_more,
                palette_overflow,
            ),
        decreases 66 - x,
    {
        let mut z: i32 = 0;
        while z < 66
            invariant
                blocks.wf(),
                -POSITION_LIMIT <= position.x <= POSITION_LIMIT,
                -POSITION_LIMIT <= position.z <= POSITION_LIMIT,
                samples.wf(structures@.len() as int),
                forall|i: int| 0 <= i < structures@.len() ==> (#[trigger] structures@[i]).wf(),
                0 <= x < 66,
                0 <= z <= 66,
                1 <= mult <= 256,
                mult == chunk_lod.multiplier(),
                min_height == terrain_floor(samples, chunk_lod, position),
                -3 * HEIGHT_LIMIT <= min_height <= 3 * HEIGHT_LIMIT,
                columns_done(
                    fresh,
                    blocks,
                    samples,
                    structures@,
                    chunk_lod,
                    position,
                    x as int,
                    z as int,
                    generate_more,
                    palette_overflow,
                ),
            decreases 66 - z,
        {
            let total = IVec2 { x: position.x * 64 + x * mult, y: position.z * 64 + z * mult };
            assert(total == world_column(position, mult as int, x as int, z as int));
            let ghost start = blocks;
            let r = generate_column(&mut blocks, x, z, samples, structures, chunk_lod, total, min_height);
            proof {
                lemma_columns_step(
                    fresh,
                    start,
                    blocks,
                    samples,
                    structures@,
                    chunk_lod,
                    position,
                    x,
                    z,
                    generate_more,
                    palette_overflow,
                    r.0,
                    r.1,
                );
            }
            if r.0 {
                generate_more = true;
            }
            if !r.1 {
                palette_overflow = true;
            }
            z += 1;
        }
        proof {
            lemma_columns_next_row(
                fresh,
                blocks,
                samples,
                structures@,
                chunk_lod,
                position,
                x as int,
                generate_more,
                palette_overflow,
            );
        }
        x += 1;
    }
    proof {
        lemma_columns_end(
            fresh,
            blocks,
            samples,
            structures@,
            chunk_lod,
            position,
            min_height,
            generate_more,
            palette_overflow,
        );
    }
    GeneratedVoxels { blocks, min_height, generate_more, palette_overflow }
}

/// Whether `out` is what generating the chunk at `position` from the
/// given samples and structures yields.
pub open spec fn is_generated(
    out: GeneratedVoxels,
    position: IVec3,
    samples: &ChunkSamples,
    structures: Seq<StructureGenerator>,
    chunk_lod: ChunkLod,
) -> bool {
    &&& out.blocks.wf()
    &&& out.min_height == terrain_floor(samples, chunk_lod, position)
    &&& out.generate_more == (exists|x: int, z: int|
        0 <= x < 66 && 0 <= z < 66 && #[trigger] column_continues(
            samples,
            structures,
            chunk_lod,
            position,
            x,
            z,
        ))
    &&& !out.palette_overflow ==> forall|p: IVec3|
        in_grid(p) ==> #[trigger] out.blocks.block_at(p) == generated_block(
            samples,
            structures,
            chunk_lod,
            position,
            p,
        )
    &&& out.blocks.known_blocks() == palette_after(
        Seq::empty(),
        chunk_writes(samples, structures, chunk_lod, position, 4356),
    )
    &&& out.palette_overflow == !all_storable(
        Seq::empty(),
        chunk_writes(samples, structures, chunk_lod, position, 4356),
    )
    &&& forall|index: int|
        VOXEL_COUNT <= index < 4 * ARRAY_WORDS ==> #[trigger] out.blocks.index_at(index) == 0
}

/// Generation is repeatable: two chunks generated for the same position
/// from the same samples and structures have the same floor, agree on
/// whether the column goes on and on whether the palette overflowed, and,
/// unless it did, hold the same block at every place and are the same
/// byte for byte, in the grid and in the palette table.
pub proof fn lemma_generation_is_deterministic(
    first: GeneratedVoxels,
    second: GeneratedVoxels,
    position: IVec3,
    samples: &ChunkSamples,
    structures: Seq<StructureGenerator>,
    chunk_lod: ChunkLod,
)
    requires
        is_generated(first, position, samples, structures, chunk_lod),
        is_generated(second, position, samples, structures, chunk_lod),
    ensures
        first.min_height == second.min_height,
        first.generate_more == second.generate_more,
        first.palette_overflow == second.palette_overflow,
        first.blocks.known_blocks() == second.blocks.known_blocks(),
        !first.palette_overflow ==> {
            &&& forall|p: IVec3|
                in_grid(p) ==> #[trigger] first.blocks.block_at(p) == second.blocks.block_at(p)
            &&& first.blocks.words() == second.blocks.words()
            &&& first.blocks.palette_words() == second.blocks.palette_words()
        },
{
    if !first.palette_overflow {
        lemma_same_content(first, second, position, samples, structures, chunk_lod);
    }
}

/// Two chunks generated alike whose palettes held are the same byte for byte.
proof fn lemma_same_content(
    first: GeneratedVoxels,
    second: GeneratedVoxels,
    position: IVec3,
    samples: &ChunkSamples,
    structures: Seq<StructureGenerator>,
    chunk_lod: ChunkLod,
)
    requires
        is_generated(first, position, samples, structures, chunk_lod),
        is_generated(second, position, samples, structures, chunk_lod),
        !first.palette_overflow,
    ensures
        forall|p: IVec3| in_grid(p) ==> #[trigger] first.blocks.block_at(p) == second.blocks.block_at(p),
        first.blocks.words() == second.blocks.words(),
        first.blocks.palette_words() == second.blocks.palette_words(),
{
    assert forall|p: IVec3| in_grid(p) implies #[trigger] first.blocks.block_at(p) == second.blocks.block_at(
        p,
    ) by {
        assert(first.blocks.block_at(p) == generated_block(samples, structures, chunk_lod, position, p));
        assert(second.blocks.block_at(p) == generated_block(samples, structures, chunk_lod, position, p));
    }
    assert forall|index: int| 0 <= index < 4 * ARRAY_WORDS implies first.blocks.block_of_index(
        #[trigger] first.blocks.index_at(index),
    ) == second.blocks.block_of_index(second.blocks.index_at(index)) by {
        if index < VOXEL_COUNT {
            let p = IVec3 { x: (index % 66) as i32, y: ((index / 66) % 66) as i32, z: (index / 4356) as i32 };
            assert(in_grid(p));
            assert(voxel_index(p) == index);
            assert(first.blocks.block_at(p) == second.blocks.block_at(p));
        } else {
            assert(first.blocks.index_at(index) == 0);
            assert(second.blocks.index_at(index) == 0);
        }
    }
    crate::world_generation::chunk_generation::voxel_types::lemma_same_bytes(first.blocks, second.blocks);
}

} // verus!
