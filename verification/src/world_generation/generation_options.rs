//! Shared generation state: what is known of each country so far, and the
//! models of the structures that are scattered over the world.

use vstd::prelude::*;
use std::collections::HashMap;
use crate::utils::{key_of, pack, IVec2, IVec3};
use crate::world_generation::chunk_generation::BlockType;

verus! {

broadcast use vstd::std_specs::hash::group_hash_axioms;

/// Where the data of one key stands: being generated, or there.
pub enum GenerationState<T> {
    Generating,
    Ready(T),
}

impl<T> GenerationState<T> {
    /// Whether the data is there.
    pub fn is_ready(&self) -> (ready: bool)
        ensures
            ready == (*self is Ready),
    {
        match self {
            GenerationState::Generating => false,
            GenerationState::Ready(_) => true,
        }
    }
}

/// What a caller who asks for the data of a key is told to do.
#[derive(Clone, Copy, Debug, PartialEq, Eq, Structural)]
pub enum CacheClaim {
    /// Nobody has asked before: the caller generates the data and publishes it.
    Generate,
    /// Somebody else is generating the data: the caller waits.
    Wait,
    /// The data is there.
    Ready,
}

/// What asking for the data of `key` answers in the state `entries`.
pub open spec fn claim_of<T>(entries: Map<u64, GenerationState<T>>, key: IVec2) -> CacheClaim {
    if !entries.contains_key(key_of(key)) {
        CacheClaim::Generate
    } else if entries[key_of(key)] is Ready {
        CacheClaim::Ready
    } else {
        CacheClaim::Wait
    }
}

/// The state after the data of `key` has been asked for: a key that was
/// not known is now being generated; nothing else changes.
pub open spec fn claimed<T>(entries: Map<u64, GenerationState<T>>, key: IVec2) -> Map<
    u64,
    GenerationState<T>,
> {
    if entries.contains_key(key_of(key)) {
        entries
    } else {
        entries.insert(key_of(key), GenerationState::Generating)
    }
}

/// The state after `value` has been handed in for `key`: it is taken if
/// the key is being generated, and dropped otherwise.
pub open spec fn published<T>(entries: Map<u64, GenerationState<T>>, key: IVec2, value: T) -> Map<
    u64,
    GenerationState<T>,
> {
    if entries.contains_key(key_of(key)) && entries[key_of(key)] is Generating {
        entries.insert(key_of(key), GenerationState::Ready(value))
    } else {
        entries
    }
}

/// A cache that is filled on demand and generates the data of each key
/// once. It does the bookkeeping only: the caller who is told to generate
/// does the work, outside any lock, and publishes the result.
pub struct GenerationCache<T> {
    pub entries: HashMap<u64, GenerationState<T>>,
}

impl<T> GenerationCache<T> {
    /// An empty cache.
    pub fn new() -> (cache: Self)
        ensures
            cache.entries@ == Map::<u64, GenerationState<T>>::empty(),
    {
        GenerationCache { entries: HashMap::new() }
    }

    /// Asks for the data of `key`. The first to ask is told to generate it.
    pub fn begin(&mut self, key: IVec2) -> (claim: CacheClaim)
        ensures
            claim == claim_of(old(self).entries@, key),
            final(self).entries@ == claimed(old(self).entries@, key),
    {
        let k = pack(key);
        let claim = match self.entries.get(&k) {
            None => CacheClaim::Generate,
            Some(state) => match state {
                GenerationState::Generating => CacheClaim::Wait,
                GenerationState::Ready(_) => CacheClaim::Ready,
            },
        };
        if claim == CacheClaim::Generate {
            self.entries.insert(k, GenerationState::Generating);
        }
        claim
    }

    /// Hands in the data of `key`. Returns whether it was taken: it is
    /// dropped unless the key is being generated.
    pub fn publish(&mut self, key: IVec2, value: T) -> (taken: bool)
        ensures
            taken == (old(self).entries@.contains_key(key_of(key)) && old(self).entries@[key_of(key)] is Generating),
            final(self).entries@ == published(old(self).entries@, key, value),
    {
        let k = pack(key);
        let waiting = match self.entries.get(&k) {
            None => false,
            Some(state) => match state {
                GenerationState::Generating => true,
                GenerationState::Ready(_) => false,
            },
        };
        if waiting {
            self.entries.insert(k, GenerationState::Ready(value));
        }
        waiting
    }

    /// The data of `key`, if it is there. Never waits.
    pub fn try_get_entry_no_lock(&self, key: IVec2) -> (entry: Option<&T>)
        ensures
            entry.is_some() == (claim_of(self.entries@, key) == CacheClaim::Ready),
            entry matches Some(value) ==> self.entries@[key_of(key)] == GenerationState::Ready(*value),
    {
        match self.entries.get(&pack(key)) {
            None => None,
            Some(state) => match state {
                GenerationState::Generating => None,
                GenerationState::Ready(value) => Some(value),
            },
        }
    }
}

/// Something done to a cache.
pub ghost enum CacheOp<T> {
    Begin(IVec2),
    Publish(IVec2, T),
}

/// The state of a cache after `ops` have been done to it in turn.
pub open spec fn run_ops<T>(entries: Map<u64, GenerationState<T>>, ops: Seq<CacheOp<T>>) -> Map<
    u64,
    GenerationState<T>,
>
    decreases ops.len(),
{
    if ops.len() == 0 {
        entries
    } else {
        let before = run_ops(entries, ops.drop_last());
        match ops.last() {
            CacheOp::Begin(key) => claimed(before, key),
            CacheOp::Publish(key, value) => published(before, key, value),
        }
    }
}

/// How often, while `ops` are done in turn, a caller is told to generate the data of `key`.
pub open spec fn generations<T>(entries: Map<u64, GenerationState<T>>, ops: Seq<CacheOp<T>>, key: IVec2) -> nat
    decreases ops.len(),
{
    if ops.len() == 0 {
        0
    } else {
        let before = run_ops(entries, ops.drop_last());
        let earlier = generations(entries, ops.drop_last(), key);
        match ops.last() {
            CacheOp::Begin(k) => if k == key && claim_of(before, key) == CacheClaim::Generate {
                earlier + 1
            } else {
                earlier
            },
            CacheOp::Publish(_, _) => earlier,
        }
    }
}

/// Whatever is done to a cache, and in whatever order, the data of a key is
/// generated at most once; and if the cache knew the key before, never.
pub proof fn lemma_single_generation<T>(entries: Map<u64, GenerationState<T>>, ops: Seq<CacheOp<T>>, key: IVec2)
    ensures
        generations(entries, ops, key) <= 1,
        entries.contains_key(key_of(key)) ==> generations(entries, ops, key) == 0,
        generations(entries, ops, key) == 1 ==> run_ops(entries, ops).contains_key(key_of(key)),
        entries.contains_key(key_of(key)) ==> run_ops(entries, ops).contains_key(key_of(key)),
    decreases ops.len(),
{
    if ops.len() > 0 {
        lemma_single_generation(entries, ops.drop_last(), key);
    }
}

/// Data that is there stays there, unchanged, whatever is done to the cache.
pub proof fn lemma_ready_is_stable<T>(entries: Map<u64, GenerationState<T>>, ops: Seq<CacheOp<T>>, key: IVec2)
    requires
        entries.contains_key(key_of(key)),
        entries[key_of(key)] is Ready,
    ensures
        run_ops(entries, ops).contains_key(key_of(key)),
        run_ops(entries, ops)[key_of(key)] == entries[key_of(key)],
    decreases ops.len(),
{
    if ops.len() > 0 {
        lemma_ready_is_stable(entries, ops.drop_last(), key);
    }
}

/// One voxel of a model as a model file gives it: its place and its colour.
#[derive(Clone, Copy, Debug, PartialEq, Eq, Structural)]
pub struct ModelVoxel {
    pub x: u8,
    pub y: u8,
    pub z: u8,
    pub r: u8,
    pub g: u8,
    pub b: u8,
}

/// The block of a model at a place: the colour of the last voxel of
/// `voxels` that lies there, or air if none does. The model file counts
/// height along its third axis; the model counts it along its second.
pub open spec fn model_block(voxels: Seq<ModelVoxel>, x: int, height: int, z: int) -> BlockType
    decreases voxels.len(),
{
    if voxels.len() == 0 {
        BlockType::Air
    } else {
        let v = voxels.last();
        if v.x == x && v.z == height && v.y == z {
            BlockType::Custom(v.r, v.g, v.b)
        } else {
            model_block(voxels.drop_last(), x, height, z)
        }
    }
}

/// The extent of a model along x, height and z, given the extent of the
/// model file, which counts height along its third axis.
pub fn vox_data_model_size(size: (u32, u32, u32)) -> (model_size: IVec3)
    requires
        size.0 <= i32::MAX,
        size.1 <= i32::MAX,
        size.2 <= i32::MAX,
    ensures
        model_size == (IVec3 { x: size.0 as i32, y: size.2 as i32, z: size.1 as i32 }),
{
    IVec3 { x: size.0 as i32, y: size.2 as i32, z: size.1 as i32 }
}

/// Whether a grid of blocks has the extent `size_x` by `size_h` by `size_z`.
pub open spec fn has_extent(
    blocks: Seq<Vec<Vec<BlockType>>>,
    size_x: int,
    size_h: int,
    size_z: int,
) -> bool {
    &&& blocks.len() == size_x
    &&& forall|x: int| 0 <= x < size_x ==> (#[trigger] blocks[x])@.len() == size_h
    &&& forall|x: int, h: int|
        0 <= x < size_x && 0 <= h < size_h ==> (#[trigger] blocks[x]@[h])@.len() == size_z
}

/// Builds the block grid of a model, indexed by x, height and z, from the
/// voxels of a model file of extent `size`.
pub fn vox_data_to_blocks(size: (u32, u32, u32), voxels: &Vec<ModelVoxel>) -> (result: Vec<
    Vec<Vec<BlockType>>,
>)
    requires
        forall|i: int|
            0 <= i < voxels@.len() ==> (#[trigger] voxels@[i]).x < size.0 && voxels@[i].y < size.1
                && voxels@[i].z < size.2,
    ensures
        has_extent(result@, size.0 as int, size.2 as int, size.1 as int),
        forall|x: int, h: int, z: int|
            0 <= x < size.0 && 0 <= h < size.2 && 0 <= z < size.1 ==> #[trigger] result@[x]@[h]@[z]
                == model_block(voxels@, x, h, z),
{
    let mut result: Vec<Vec<Vec<BlockType>>> = Vec::new();
    let mut x: u32 = 0;
    while x < size.0
        invariant
            x <= size.0,
            has_extent(result@, x as int, size.2 as int, size.1 as int),
            forall|a: int, h: int, z: int|
                0 <= a < x && 0 <= h < size.2 && 0 <= z < size.1 ==> #[trigger] result@[a]@[h]@[z]
                    == BlockType::Air,
        decreases size.0 - x,
    {
        let mut plane: Vec<Vec<BlockType>> = Vec::new();
        let mut h: u32 = 0;
        while h < size.2
            invariant
                h <= size.2,
                plane@.len() == h,
                forall|k: int| 0 <= k < h ==> (#[trigger] plane@[k])@.len() == size.1,
                forall|k: int, z: int|
                    0 <= k < h && 0 <= z < size.1 ==> #[trigger] plane@[k]@[z] == BlockType::Air,
            decreases size.2 - h,
        {
            let mut row: Vec<BlockType> = Vec::new();
            let mut z: u32 = 0;
            while z < size.1
                invariant
                    z <= size.1,
                    row@.len() == z,
                    forall|k: int| 0 <= k < z ==> #[trigger] row@[k] == BlockType::Air,
                decreases size.1 - z,
            {
                row.push(BlockType::Air);
                z += 1;
            }
            plane.push(row);
            h += 1;
        }
        result.push(plane);
        x += 1;
    }
    let mut i: usize = 0;
    while i < voxels.len()
        invariant
            i <= voxels@.len(),
            forall|k: int|
                0 <= k < voxels@.len() ==> (#[trigger] voxels@[k]).x < size.0 && voxels@[k].y < size.1
                    && voxels@[k].z < size.2,
            has_extent(result@, size.0 as int, size.2 as int, size.1 as int),
            forall|x: int, h: int, z: int|
                0 <= x < size.0 && 0 <= h < size.2 && 0 <= z < size.1 ==> #[trigger] result@[x]@[h]@[z]
                    == model_block(voxels@.take(i as int), x, h, z),
        decreases voxels@.len() - i,
    {
        let voxel = voxels[i];
        let ghost before = result@;
        let vx = voxel.x as usize;
        let vh = voxel.z as usize;
        let vz = voxel.y as usize;
        let mut plane = result.remove(vx);
        let mut row = plane.remove(vh);
        row.set(vz, BlockType::Custom(voxel.r, voxel.g, voxel.b));
        plane.insert(vh, row);
        result.insert(vx, plane);
        proof {
            assert(voxels@.take(i + 1).drop_last() =~= voxels@.take(i as int));
            assert(voxels@.take(i + 1).last() == voxel);
            assert forall|x: int| 0 <= x < size.0 implies (#[trigger] result@[x])@.len() == size.2 by {
                if x != vx {
                    assert(result@[x] == before[x]);
                }
            }
            assert forall|x: int, h: int| 0 <= x < size.0 && 0 <= h < size.2 implies (
            #[trigger] result@[x]@[h])@.len() == size.1 by {
                if x != vx {
                    assert(result@[x] == before[x]);
                } else if h != vh {
                    assert(result@[x]@[h] == before[x]@[h]);
                }
            }
            assert forall|x: int, h: int, z: int|
                0 <= x < size.0 && 0 <= h < size.2 && 0 <= z < size.1 implies #[trigger] result@[x]@[h]@[z]
                == model_block(voxels@.take(i + 1), x, h, z) by {
                if x != vx {
                    assert(result@[x] == before[x]);
                } else if h != vh {
                    assert(result@[x]@[h] == before[x]@[h]);
                } else if z != vz {
                    assert(result@[x]@[h]@[z] == before[x]@[h]@[z]);
                }
            }
        }
        i += 1;
    }
    proof {
        assert(voxels@.take(voxels@.len() as int) =~= voxels@);
    }
    result
}

} // verus!
