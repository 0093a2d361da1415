//! Levels of detail and the placement of chunks in the world.

use vstd::prelude::*;
use std::collections::HashMap;
use crate::utils::{key_of, pack, IVec2, IVec3};
use crate::world_generation::chunk_generation::mesh_generation::{
    generate_mesh, is_face, is_mesh_of, mesh_closed, ChunkMesh, Direction,
};
use crate::world_generation::chunk_generation::voxel_generation::{
    column_continues, generate_voxels, generated_block, is_generated, terrain_floor, ChunkSamples,
    GeneratedVoxels, StructureGenerator,
};
use crate::world_generation::chunk_generation::voxel_types::{in_grid, VoxelData};
use crate::world_generation::chunk_loading::quad_tree_manager::ChunkTree;

verus! {

broadcast use vstd::std_specs::hash::group_hash_axioms;

/// A level of detail. Each step up doubles the edge length of a voxel.
#[derive(Copy, Clone, Debug, PartialEq, Eq, Structural)]
pub enum ChunkLod {
    Full,
    Half,
    Quarter,
    Eighth,
    Sixteenth,
    Thirtytwoth,
    Sixtyfourth,
    OneTwentyEight,
    TwoFiftySix,
}

/// The coarsest level a quadtree root is generated at.
pub const MAX_LOD: ChunkLod = ChunkLod::OneTwentyEight;

impl ChunkLod {
    /// The ordinal of the level, counting from 1 for `Full`.
    pub open spec fn level(self) -> int {
        match self {
            ChunkLod::Full => 1,
            ChunkLod::Half => 2,
            ChunkLod::Quarter => 3,
            ChunkLod::Eighth => 4,
            ChunkLod::Sixteenth => 5,
            ChunkLod::Thirtytwoth => 6,
            ChunkLod::Sixtyfourth => 7,
            ChunkLod::OneTwentyEight => 8,
            ChunkLod::TwoFiftySix => 9,
        }
    }

    /// World voxels spanned by one voxel edge at this level: one at full
    /// detail, and twice as many with each step up.
    pub open spec fn multiplier(self) -> int {
        match self {
            ChunkLod::Full => 1,
            ChunkLod::Half => 2,
            ChunkLod::Quarter => 4,
            ChunkLod::Eighth => 8,
            ChunkLod::Sixteenth => 16,
            ChunkLod::Thirtytwoth => 32,
            ChunkLod::Sixtyfourth => 64,
            ChunkLod::OneTwentyEight => 128,
            ChunkLod::TwoFiftySix => 256,
        }
    }

    /// How many chunks of this level fit along the edge of a root chunk.
    /// A level coarser than the root level fits once.
    pub open spec fn inverse_multiplier(self) -> int
        recommends
            self.level() <= MAX_LOD.level(),
    {
        match self {
            ChunkLod::Full => 128,
            ChunkLod::Half => 64,
            ChunkLod::Quarter => 32,
            ChunkLod::Eighth => 16,
            ChunkLod::Sixteenth => 8,
            ChunkLod::Thirtytwoth => 4,
            ChunkLod::Sixtyfourth => 2,
            ChunkLod::OneTwentyEight => 1,
            ChunkLod::TwoFiftySix => 1,
        }
    }

    pub fn usize(self) -> (n: usize)
        ensures
            n == self.level(),
    {
        match self {
            ChunkLod::Full => 1,
            ChunkLod::Half => 2,
            ChunkLod::Quarter => 3,
            ChunkLod::Eighth => 4,
            ChunkLod::Sixteenth => 5,
            ChunkLod::Thirtytwoth => 6,
            ChunkLod::Sixtyfourth => 7,
            ChunkLod::OneTwentyEight => 8,
            ChunkLod::TwoFiftySix => 9,
        }
    }

    pub fn u32(self) -> (n: u32)
        ensures
            n == self.level(),
    {
        self.usize() as u32
    }

    pub fn i32(self) -> (n: i32)
        ensures
            n == self.level(),
    {
        self.usize() as i32
    }

    pub fn multiplier_i32(self) -> (m: i32)
        ensures
            m == self.multiplier(),
            1 <= m <= 256,
    {
        match self {
            ChunkLod::Full => 1,
            ChunkLod::Half => 2,
            ChunkLod::Quarter => 4,
            ChunkLod::Eighth => 8,
            ChunkLod::Sixteenth => 16,
            ChunkLod::Thirtytwoth => 32,
            ChunkLod::Sixtyfourth => 64,
            ChunkLod::OneTwentyEight => 128,
            ChunkLod::TwoFiftySix => 256,
        }
    }

    /// Chunks of this level along one edge of a root chunk. Levels coarser
    /// than the root level have no such count.
    pub fn inverse_multiplier_i32(self) -> (m: i32)
        requires
            self.level() <= MAX_LOD.level(),
        ensures
            m == self.inverse_multiplier(),
            m * self.multiplier() == MAX_LOD.multiplier(),
            1 <= m <= 128,
    {
        match self {
            ChunkLod::Full => 128,
            ChunkLod::Half => 64,
            ChunkLod::Quarter => 32,
            ChunkLod::Eighth => 16,
            ChunkLod::Sixteenth => 8,
            ChunkLod::Thirtytwoth => 4,
            ChunkLod::Sixtyfourth => 2,
            _ => 1,
        }
    }

    /// The next finer level. `Full` has none.
    pub fn previous(self) -> (finer: ChunkLod)
        requires
            self != ChunkLod::Full,
        ensures
            finer.level() == self.level() - 1,
            2 * finer.multiplier() == self.multiplier(),
    {
        match self {
            ChunkLod::Half => ChunkLod::Full,
            ChunkLod::Quarter => ChunkLod::Half,
            ChunkLod::Eighth => ChunkLod::Quarter,
            ChunkLod::Sixteenth => ChunkLod::Eighth,
            ChunkLod::Thirtytwoth => ChunkLod::Sixteenth,
            ChunkLod::Sixtyfourth => ChunkLod::Thirtytwoth,
            ChunkLod::OneTwentyEight => ChunkLod::Sixtyfourth,
            _ => ChunkLod::OneTwentyEight,
        }
    }

    /// The level with ordinal `number`, if there is one.
    pub fn from_u8(number: u8) -> (lod: Option<ChunkLod>)
        ensures
            1 <= number <= 9 <==> lod.is_some(),
            lod matches Some(l) ==> l.level() == number,
    {
        match number {
            1 => Some(ChunkLod::Full),
            2 => Some(ChunkLod::Half),
            3 => Some(ChunkLod::Quarter),
            4 => Some(ChunkLod::Eighth),
            5 => Some(ChunkLod::Sixteenth),
            6 => Some(ChunkLod::Thirtytwoth),
            7 => Some(ChunkLod::Sixtyfourth),
            8 => Some(ChunkLod::OneTwentyEight),
            9 => Some(ChunkLod::TwoFiftySix),
            _ => None,
        }
    }
}

/// The voxel size of a level is two to the power of the level's ordinal
/// less one; the number of its chunks along a root chunk is two to the
/// power of its distance from the root level.
pub proof fn lemma_multiplier_is_power_of_two(lod: ChunkLod)
    ensures
        lod.multiplier() == vstd::arithmetic::power2::pow2((lod.level() - 1) as nat),
        lod.level() <= MAX_LOD.level() ==> lod.inverse_multiplier() == vstd::arithmetic::power2::pow2(
            (MAX_LOD.level() - lod.level()) as nat,
        ),
        lod.level() <= MAX_LOD.level() ==> lod.multiplier() * lod.inverse_multiplier()
            == MAX_LOD.multiplier(),
{
    vstd::arithmetic::power2::lemma2_to64();
}

/// Two levels with the same ordinal are the same level, and of two different
/// levels one is strictly finer: the ordinals order the levels totally.
pub proof fn lemma_lod_order_total(a: ChunkLod, b: ChunkLod)
    ensures
        a.level() == b.level() <==> a == b,
        a.level() < b.level() || a == b || b.level() < a.level(),
        a.level() < b.level() ==> a.multiplier() < b.multiplier(),
{
}

/// Largest magnitude of a root chunk coordinate for which chunks can be generated.
pub const ROOT_LIMIT: i32 = 32767;

/// The quadtrees of the root chunks that are loaded. A root chunk that is
/// loaded but has not been looked at yet has no tree.
pub struct QuadTreeVoxelWorld {
    pub chunk_trees: HashMap<u64, Option<ChunkTree>>,
}

impl QuadTreeVoxelWorld {
    /// Whether the root chunk at `chunk_position` is loaded.
    pub open spec fn has(&self, chunk_position: IVec2) -> bool {
        self.chunk_trees@.contains_key(key_of(chunk_position))
    }

    /// A world without chunks.
    pub fn new() -> (world: QuadTreeVoxelWorld)
        ensures
            world.chunk_trees@ == Map::<u64, Option<ChunkTree>>::empty(),
    {
        QuadTreeVoxelWorld { chunk_trees: HashMap::new() }
    }

    pub fn has_chunk(&self, chunk_position: IVec2) -> (loaded: bool)
        ensures
            loaded == self.has(chunk_position),
    {
        self.chunk_trees.contains_key(&pack(chunk_position))
    }

    /// Loads a root chunk. Returns `false`, and changes nothing, if it is loaded already.
    pub fn add_chunk(&mut self, chunk_position: IVec2, chunk: Option<ChunkTree>) -> (added: bool)
        ensures
            added == !old(self).has(chunk_position),
            added ==> final(self).chunk_trees@ == old(self).chunk_trees@.insert(
                key_of(chunk_position),
                chunk,
            ),
            !added ==> final(self).chunk_trees@ == old(self).chunk_trees@,
    {
        if self.has_chunk(chunk_position) {
            return false;
        }
        self.chunk_trees.insert(pack(chunk_position), chunk);
        true
    }

    /// Drops a root chunk. Returns whether it was loaded.
    pub fn remove_chunk(&mut self, chunk_position: IVec2) -> (removed: bool)
        ensures
            removed == old(self).has(chunk_position),
            final(self).chunk_trees@ == old(self).chunk_trees@.remove(key_of(chunk_position)),
    {
        self.chunk_trees.remove(&pack(chunk_position)).is_some()
    }

    /// The tree of a root chunk, if the chunk is loaded.
    pub fn get_chunk(&self, chunk_position: IVec2) -> (chunk: Option<&Option<ChunkTree>>)
        ensures
            chunk.is_some() == self.has(chunk_position),
            chunk matches Some(tree) ==> *tree == self.chunk_trees@[key_of(chunk_position)],
    {
        self.chunk_trees.get(&pack(chunk_position))
    }

    /// Takes a root chunk out of the world, to change its tree and put it
    /// back with `set_chunk`.
    pub fn take_chunk(&mut self, chunk_position: IVec2) -> (chunk: Option<Option<ChunkTree>>)
        ensures
            chunk.is_some() == old(self).has(chunk_position),
            chunk matches Some(tree) ==> tree == old(self).chunk_trees@[key_of(chunk_position)],
            final(self).chunk_trees@ == old(self).chunk_trees@.remove(key_of(chunk_position)),
    {
        self.chunk_trees.remove(&pack(chunk_position))
    }

    /// Puts a root chunk into the world, in place of the one at the same
    /// position if there is one.
    pub fn set_chunk(&mut self, chunk_position: IVec2, chunk: Option<ChunkTree>)
        ensures
            final(self).chunk_trees@ == old(self).chunk_trees@.insert(key_of(chunk_position), chunk),
    {
        self.chunk_trees.insert(pack(chunk_position), chunk);
    }
}

/// What generating one chunk yields.
pub struct ChunkGenerationResult {
    /// The mesh of the chunk; a chunk without visible faces has none.
    pub task_data: Option<ChunkMesh>,
    /// Whether the column of chunks goes on above this chunk.
    pub generate_above: bool,
    pub parent_pos: IVec2,
    pub lod: ChunkLod,
    pub lod_position: IVec2,
    pub chunk_height: i32,
    /// The blocks of the chunk, for shading.
    pub voxel_data: VoxelData,
    /// World height of the lowest row of the block grid.
    pub min_height: i32,
    /// Where the chunk lies, in chunks of the finest level; y counts slabs.
    pub chunk_pos: IVec3,
    /// Whether the chunk asked for more block types than the palette holds.
    pub palette_overflow: bool,
}

/// Where the chunk of level `lod` at `lod_position` of the root chunk
/// `parent_pos` lies, in chunks of the finest level; y is the slab's number.
pub open spec fn chunk_pos_of(parent_pos: IVec2, lod: ChunkLod, lod_position: IVec2, chunk_height: i32) -> IVec3 {
    IVec3 {
        x: (parent_pos.x * MAX_LOD.multiplier() + lod_position.x * lod.multiplier()) as i32,
        y: chunk_height,
        z: (parent_pos.y * MAX_LOD.multiplier() + lod_position.y * lod.multiplier()) as i32,
    }
}

/// Finds where a chunk lies, in chunks of the finest level. It is for
/// this position that the chunk's samples have to be taken.
pub fn get_chunk_pos(parent_pos: IVec2, lod: ChunkLod, lod_position: IVec2, chunk_height: i32) -> (pos: IVec3)
    requires
        lod.level() <= MAX_LOD.level(),
        -ROOT_LIMIT <= parent_pos.x <= ROOT_LIMIT,
        -ROOT_LIMIT <= parent_pos.y <= ROOT_LIMIT,
        0 <= lod_position.x < lod.inverse_multiplier(),
        0 <= lod_position.y < lod.inverse_multiplier(),
    ensures
        pos == chunk_pos_of(parent_pos, lod, lod_position, chunk_height),
        -4194304 <= pos.x <= 4194304,
        -4194304 <= pos.z <= 4194304,
{
    let mult = lod.multiplier_i32();
    let inverse = lod.inverse_multiplier_i32();
    proof {
        assert(0 <= lod_position.x * mult < 128) by (nonlinear_arith)
            requires
                0 <= lod_position.x < inverse,
                inverse * mult == 128,
                mult >= 1,
        ;
        assert(0 <= lod_position.y * mult < 128) by (nonlinear_arith)
            requires
                0 <= lod_position.y < inverse,
                inverse * mult == 128,
                mult >= 1,
        ;
    }
    IVec3 {
        x: parent_pos.x * MAX_LOD.multiplier_i32() + lod_position.x * mult,
        y: chunk_height,
        z: parent_pos.y * MAX_LOD.multiplier_i32() + lod_position.y * mult,
    }
}

/// Generates the chunk of level `chunk_lod` at `lod_position` of the root
/// chunk `parent_pos`, slab number `chunk_height`: its blocks, from the
/// samples taken for it, and from the blocks its mesh.
pub fn generate_chunk(
    parent_pos: IVec2,
    chunk_lod: ChunkLod,
    lod_position: IVec2,
    chunk_height: i32,
    samples: &ChunkSamples,
    structures: &Vec<StructureGenerator>,
) -> (result: ChunkGenerationResult)
    requires
        chunk_lod.level() <= MAX_LOD.level(),
        -ROOT_LIMIT <= parent_pos.x <= ROOT_LIMIT,
        -ROOT_LIMIT <= parent_pos.y <= ROOT_LIMIT,
        0 <= lod_position.x < chunk_lod.inverse_multiplier(),
        0 <= lod_position.y < chunk_lod.inverse_multiplier(),
        -4194304 <= chunk_height <= 4194304,
        samples.wf(structures@.len() as int),
        forall|i: int| 0 <= i < structures@.len() ==> (#[trigger] structures@[i]).wf(),
    ensures
        result.parent_pos == parent_pos,
        result.lod == chunk_lod,
        result.lod_position == lod_position,
        result.chunk_height == chunk_height,
        result.chunk_pos == chunk_pos_of(parent_pos, chunk_lod, lod_position, chunk_height),
        result.voxel_data.wf(),
        result.min_height == terrain_floor(samples, chunk_lod, result.chunk_pos),
        result.generate_above == (exists|x: int, z: int|
            0 <= x < 66 && 0 <= z < 66 && #[trigger] column_continues(
                samples,
                structures@,
                chunk_lod,
                result.chunk_pos,
                x,
                z,
            )),
        !result.palette_overflow ==> forall|p: IVec3|
            in_grid(p) ==> #[trigger] result.voxel_data.block_at(p) == generated_block(
                samples,
                structures@,
                chunk_lod,
                result.chunk_pos,
                p,
            ),
        is_generated(
            (GeneratedVoxels {
                blocks: result.voxel_data,
                min_height: result.min_height,
                generate_more: result.generate_above,
                palette_overflow: result.palette_overflow,
            }),
            result.chunk_pos,
            samples,
            structures@,
            chunk_lod,
        ),
        is_mesh_of(result.task_data, result.voxel_data, chunk_lod),
        result.task_data.is_none() <==> (forall|direction: Direction, layer: int, h: int, w: int|
            !#[trigger] is_face(result.voxel_data, direction, layer, h, w)),
        result.task_data matches Some(mesh) ==> {
            &&& mesh_closed(result.voxel_data, mesh.quads@)
            &&& mesh.geometry_matches()
            &&& mesh.has_collider == (chunk_lod == ChunkLod::Full)
        },
{
    let new_chunk_pos = get_chunk_pos(parent_pos, chunk_lod, lod_position, chunk_height);
    let voxels = generate_voxels(new_chunk_pos, samples, structures, chunk_lod);
    let mesh = generate_mesh(&voxels.blocks, chunk_lod);
    ChunkGenerationResult {
        task_data: mesh,
        generate_above: voxels.generate_more,
        parent_pos,
        lod: chunk_lod,
        lod_position,
        chunk_height,
        voxel_data: voxels.blocks,
        min_height: voxels.min_height,
        chunk_pos: new_chunk_pos,
        palette_overflow: voxels.palette_overflow,
    }
}

} // verus!
