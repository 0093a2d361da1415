//! Loaders: the observers around which chunks are loaded and refined.

use vstd::prelude::*;
use crate::utils::{floor_div, key_of, lemma_key_round_trip, IVec2};
use crate::world_generation::chunk_loading::quad_tree_manager::ChunkTree;
use crate::world_generation::voxel_world::{ChunkLod, QuadTreeVoxelWorld, MAX_LOD};

verus! {

/// How far around an observer chunks are loaded, kept and refined.
#[derive(Clone, Copy, Debug)]
pub struct ChunkLoader {
    /// Root chunks are loaded up to this many chunks away.
    pub load_range: i32,
    /// Root chunks are dropped once they are this many chunks away.
    pub unload_range: i32,
    /// For each level of detail below the coarsest, coarsest first: a chunk
    /// of that level is split while the observer is within this many chunks of it.
    pub lod_range: [i32; 7],
}

impl Default for ChunkLoader {
    fn default() -> (loader: ChunkLoader)
        ensures
            loader.load_range == 8,
            loader.unload_range == 10,
            forall|i: int| 0 <= i < 7 ==> loader.lod_range@[i] == 3,
    {
        ChunkLoader { load_range: 8, unload_range: 10, lod_range: [3, 3, 3, 3, 3, 3, 3] }
    }
}

/// An observer: its settings and the chunk of the finest level it stands in.
#[derive(Clone, Copy, Debug)]
pub struct LoaderPosition {
    pub loader: ChunkLoader,
    pub chunk: IVec2,
}

/// The chunk of level `lod` that contains the chunk `full_chunk` of the finest level.
pub open spec fn chunk_position(full_chunk: IVec2, lod: ChunkLod) -> IVec2 {
    IVec2 {
        x: (full_chunk.x as int / lod.multiplier()) as i32,
        y: (full_chunk.y as int / lod.multiplier()) as i32,
    }
}

/// Finds the chunk of level `lod` that contains a chunk of the finest level.
pub fn get_chunk_position(full_chunk: IVec2, lod: ChunkLod) -> (chunk: IVec2)
    ensures
        chunk == chunk_position(full_chunk, lod),
{
    let mult = lod.multiplier_i32();
    proof {
        lemma_floor_div_range(full_chunk.x as int, mult as int);
        lemma_floor_div_range(full_chunk.y as int, mult as int);
    }
    IVec2 { x: floor_div(full_chunk.x, mult), y: floor_div(full_chunk.y, mult) }
}

/// Dividing by a positive number rounding down brings a number no further from zero
/// than it was, but for one step below zero.
pub proof fn lemma_floor_div_range(x: int, m: int)
    requires
        m > 0,
    ensures
        x >= 0 ==> 0 <= x / m <= x,
        x < 0 ==> x <= x / m <= -1,
{
    vstd::arithmetic::div_mod::lemma_fundamental_div_mod(x, m);
    vstd::arithmetic::div_mod::lemma_mod_bound(x, m);
    let q = x / m;
    let r = x % m;
    if x >= 0 {
        assert(q >= 0) by (nonlinear_arith)
            requires
                x == m * q + r,
                0 <= r < m,
                x >= 0,
                m >= 1,
        ;
        assert(q <= x) by (nonlinear_arith)
            requires
                x == m * q + r,
                0 <= r,
                q >= 0,
                m >= 1,
        ;
    } else {
        assert(q <= -1) by (nonlinear_arith)
            requires
                x == m * q + r,
                0 <= r < m,
                x < 0,
                m >= 1,
        ;
        assert(q >= x) by (nonlinear_arith)
            requires
                x == m * q + r,
                0 <= r < m,
                q <= -1,
                m >= 1,
        ;
    }
}

/// The chunk of level `lod` at `lod_position` inside the root chunk `owner`,
/// counted in chunks of that level from the world's origin.
pub open spec fn absolute_position(owner: IVec2, lod: ChunkLod, lod_position: IVec2) -> (int, int) {
    (
        owner.x * lod.inverse_multiplier() + lod_position.x,
        owner.y * lod.inverse_multiplier() + lod_position.y,
    )
}

/// Whether the observer is near enough to a chunk of level `lod` for the
/// chunk to be split: in both directions it is no more chunks of that level
/// away than the observer's range for the level allows.
pub open spec fn in_split_range(at: LoaderPosition, owner: IVec2, lod: ChunkLod, lod_position: IVec2) -> bool {
    let here = chunk_position(at.chunk, lod);
    let there = absolute_position(owner, lod, lod_position);
    let range = at.loader.lod_range@[MAX_LOD.level() - lod.level()] as int;
    let dx = here.x - there.0;
    let dz = here.y - there.1;
    -range <= dx <= range && -range <= dz <= range
}

/// Whether a chunk is to be split into four of the next finer level: it is
/// not of the finest level, and some observer is within split range.
pub open spec fn split_wanted(
    loaders: Seq<LoaderPosition>,
    owner: IVec2,
    lod: ChunkLod,
    lod_position: IVec2,
) -> bool {
    lod != ChunkLod::Full && exists|i: int|
        0 <= i < loaders.len() && in_split_range(#[trigger] loaders[i], owner, lod, lod_position)
}

/// Largest magnitude of a root chunk coordinate that the chunk loading accepts.
pub const OWNER_LIMIT: i32 = 4194304;

/// Decides whether a chunk is to be split into four of the next finer level.
pub fn should_divide(loaders: &Vec<LoaderPosition>, owner: IVec2, lod: ChunkLod, lod_position: IVec2) -> (divide:
    bool)
    requires
        lod.level() <= MAX_LOD.level(),
        -OWNER_LIMIT <= owner.x <= OWNER_LIMIT,
        -OWNER_LIMIT <= owner.y <= OWNER_LIMIT,
        0 <= lod_position.x < lod.inverse_multiplier(),
        0 <= lod_position.y < lod.inverse_multiplier(),
    ensures
        divide == split_wanted(loaders@, owner, lod, lod_position),
{
    if lod == ChunkLod::Full {
        return false;
    }
    let inverse: i64 = lod.inverse_multiplier_i32() as i64;
    proof {
        let bound = OWNER_LIMIT as int * 128;
        assert(-bound <= owner.x as int * inverse as int <= bound) by (nonlinear_arith)
            requires
                -OWNER_LIMIT <= owner.x <= OWNER_LIMIT,
                1 <= inverse <= 128,
                bound == OWNER_LIMIT as int * 128,
        ;
        assert(-bound <= owner.y as int * inverse as int <= bound) by (nonlinear_arith)
            requires
                -OWNER_LIMIT <= owner.y <= OWNER_LIMIT,
                1 <= inverse <= 128,
                bound == OWNER_LIMIT as int * 128,
        ;
    }
    let there_x: i64 = owner.x as i64 * inverse + lod_position.x as i64;
    let there_z: i64 = owner.y as i64 * inverse + lod_position.y as i64;
    let index: usize = MAX_LOD.usize() - lod.usize();
    let mut divide = false;
    let mut i: usize = 0;
    while i < loaders.len()
        invariant
            i <= loaders@.len(),
            lod != ChunkLod::Full,
            index == MAX_LOD.level() - lod.level(),
            index < 7,
            there_x == absolute_position(owner, lod, lod_position).0,
            there_z == absolute_position(owner, lod, lod_position).1,
            divide == (exists|k: int|
                0 <= k < i && in_split_range(#[trigger] loaders@[k], owner, lod, lod_position)),
        decreases loaders@.len() - i,
    {
        let at = loaders[i];
        let here = get_chunk_position(at.chunk, lod);
        let range: i64 = at.loader.lod_range[index] as i64;
        let dx: i64 = here.x as i64 - there_x;
        let dz: i64 = here.y as i64 - there_z;
        if -range <= dx && dx <= range && -range <= dz && dz <= range {
            divide = true;
        }
        i += 1;
    }
    divide
}

/// Largest load range that chunk loading accepts.
pub const LOAD_LIMIT: i32 = 1073741824;

/// Whether the root chunk at `pos` is within load range of the observer:
/// in both directions no more root chunks away than the range.
pub open spec fn in_load_range(at: LoaderPosition, pos: IVec2) -> bool {
    let here = chunk_position(at.chunk, MAX_LOD);
    let range = at.loader.load_range as int;
    -range <= pos.x - here.x <= range && -range <= pos.y - here.y <= range
}

/// Whether some observer wants the root chunk at `pos` loaded.
pub open spec fn load_wanted(loaders: Seq<LoaderPosition>, pos: IVec2) -> bool {
    exists|i: int| 0 <= i < loaders.len() && in_load_range(#[trigger] loaders[i], pos)
}

/// Whether the root chunk at `pos` is to stay loaded for the observer: in
/// both directions it is fewer root chunks away than the unload range.
pub open spec fn in_keep_range(at: LoaderPosition, pos: IVec2) -> bool {
    let here = chunk_position(at.chunk, MAX_LOD);
    let range = at.loader.unload_range as int;
    -range < pos.x - here.x < range && -range < pos.y - here.y < range
}

/// Whether some observer keeps the root chunk at `pos` loaded.
pub open spec fn keep_wanted(loaders: Seq<LoaderPosition>, pos: IVec2) -> bool {
    exists|i: int| 0 <= i < loaders.len() && in_keep_range(#[trigger] loaders[i], pos)
}

/// Whether the root chunk at `pos` has been dealt with when loading has
/// come to the observer with number `i` and, around it, to the column at
/// offset `dx` and in it to the offset `dz`.
spec fn load_done(loaders: Seq<LoaderPosition>, i: int, dx: int, dz: int, pos: IVec2) -> bool {
    ||| exists|j: int| 0 <= j < i && j < loaders.len() && in_load_range(#[trigger] loaders[j], pos)
    ||| (0 <= i < loaders.len() && in_load_range(loaders[i], pos) && {
        let here = chunk_position(loaders[i].chunk, MAX_LOD);
        pos.x - here.x < dx || (pos.x - here.x == dx && pos.y - here.y < dz)
    })
}

/// The root chunk with number `t` of the square around `here`: the
/// square is gone through column by column, x first.
pub open spec fn load_cell(here: IVec2, range: int, t: int) -> IVec2 {
    IVec2 {
        x: (here.x + t / (2 * range + 1) - range) as i32,
        y: (here.y + t % (2 * range + 1) - range) as i32,
    }
}

/// The world and the list of new root chunks after the first `t` root
/// chunks of the square around `here` have been looked at: a chunk that is
/// not loaded is loaded, without a tree, and put on the list.
pub open spec fn loaded_around(
    entries: Map<u64, Option<ChunkTree>>,
    spawned: Seq<IVec2>,
    here: IVec2,
    range: int,
    t: int,
) -> (Map<u64, Option<ChunkTree>>, Seq<IVec2>)
    decreases t,
{
    if t <= 0 {
        (entries, spawned)
    } else {
        let before = loaded_around(entries, spawned, here, range, t - 1);
        let pos = load_cell(here, range, t - 1);
        if before.0.contains_key(key_of(pos)) {
            before
        } else {
            (before.0.insert(key_of(pos), None), before.1.push(pos))
        }
    }
}

/// The world and the list of new root chunks after the squares around the
/// first `n` observers have been loaded, one observer after the other.
pub open spec fn loaded(entries: Map<u64, Option<ChunkTree>>, loaders: Seq<LoaderPosition>, n: int) -> (
    Map<u64, Option<ChunkTree>>,
    Seq<IVec2>,
)
    decreases n,
{
    if n <= 0 {
        (entries, Seq::empty())
    } else {
        let before = loaded(entries, loaders, n - 1);
        let range = loaders[n - 1].loader.load_range as int;
        if range < 0 {
            before
        } else {
            loaded_around(
                before.0,
                before.1,
                chunk_position(loaders[n - 1].chunk, MAX_LOD),
                range,
                (2 * range + 1) * (2 * range + 1),
            )
        }
    }
}

/// The number of the root chunk at offset (`dx`, `dz`) in the square of the given range.
proof fn lemma_load_cell(here: IVec2, range: int, dx: int, dz: int)
    requires
        0 <= range,
        -range <= dx <= range,
        -range <= dz <= range,
    ensures
        ({
            let side = 2 * range + 1;
            let t = (dx + range) * side + (dz + range);
            &&& 0 <= t < side * side
            &&& t / side == dx + range
            &&& t % side == dz + range
        }),
{
    let side = 2 * range + 1;
    let t = (dx + range) * side + (dz + range);
    vstd::arithmetic::div_mod::lemma_fundamental_div_mod_converse(t, side, dx + range, dz + range);
    assert(0 <= (dx + range) * side) by (nonlinear_arith)
        requires
            0 <= dx + range,
            0 < side,
    ;
    assert((dx + range) * side + side <= side * side) by (nonlinear_arith)
        requires
            dx + range + 1 <= side,
            0 < side,
    ;
}

/// Loads every root chunk that an observer wants loaded and that is not
/// loaded yet. The new chunks have no tree yet; they are returned in the
/// order they are found in.
pub fn load_chunks(voxel_world: &mut QuadTreeVoxelWorld, loaders: &Vec<LoaderPosition>) -> (spawned: Vec<
    IVec2,
>)
    requires
        forall|i: int| 0 <= i < loaders@.len() ==> (#[trigger] loaders@[i]).loader.load_range <= LOAD_LIMIT,
    ensures
        forall|pos: IVec2| #[trigger]
            final(voxel_world).has(pos) == (old(voxel_world).has(pos) || load_wanted(loaders@, pos)),
        forall|k: u64| #[trigger]
            old(voxel_world).chunk_trees@.contains_key(k) ==> final(voxel_world).chunk_trees@.contains_key(k)
                && final(voxel_world).chunk_trees@[k] == old(voxel_world).chunk_trees@[k],
        forall|pos: IVec2|
            !old(voxel_world).has(pos) && #[trigger] load_wanted(loaders@, pos) ==> final(voxel_world).chunk_trees@[key_of(pos)] is None,
        spawned@.no_duplicates(),
        forall|pos: IVec2| #[trigger]
            spawned@.contains(pos) == (!old(voxel_world).has(pos) && load_wanted(loaders@, pos)),
        final(voxel_world).chunk_trees@ == loaded(
            old(voxel_world).chunk_trees@,
            loaders@,
            loaders@.len() as int,
        ).0,
        spawned@ == loaded(old(voxel_world).chunk_trees@, loaders@, loaders@.len() as int).1,
{
    let mut spawned: Vec<IVec2> = Vec::new();
    let mut i: usize = 0;
    while i < loaders.len()
        invariant
            i <= loaders@.len(),
            forall|k: int|
                0 <= k < loaders@.len() ==> (#[trigger] loaders@[k]).loader.load_range <= LOAD_LIMIT,
            forall|pos: IVec2| #[trigger]
                voxel_world.has(pos) == (old(voxel_world).has(pos) || load_done(loaders@, i as int, i32::MIN as int * 4, 0, pos)),
            forall|k: u64| #[trigger]
                old(voxel_world).chunk_trees@.contains_key(k) ==> voxel_world.chunk_trees@.contains_key(k)
                    && voxel_world.chunk_trees@[k] == old(voxel_world).chunk_trees@[k],
            forall|pos: IVec2|
                !old(voxel_world).has(pos) && #[trigger] voxel_world.has(pos)
                    ==> voxel_world.chunk_trees@[key_of(pos)] is None,
            spawned@.no_duplicates(),
            forall|pos: IVec2| #[trigger]
                spawned@.contains(pos) == (!old(voxel_world).has(pos) && voxel_world.has(pos)),
            voxel_world.chunk_trees@ == loaded(old(voxel_world).chunk_trees@, loaders@, i as int).0,
            spawned@ == loaded(old(voxel_world).chunk_trees@, loaders@, i as int).1,
        decreases loaders@.len() - i,
    {
        let at = loaders[i];
        let ghost entries_before = voxel_world.chunk_trees@;
        let ghost spawned_start = spawned@;
        let here = get_chunk_position(at.chunk, MAX_LOD);
        let range = at.loader.load_range;
        proof {
            lemma_floor_div_range(at.chunk.x as int, 128);
            lemma_floor_div_range(at.chunk.y as int, 128);
        }
        if range >= 0 {
            proof {
                assert((-range + range) * (2 * range + 1) == 0) by (nonlinear_arith);
            }
            let mut x: i32 = -range;
            while x <= range
                invariant
                    i < loaders@.len(),
                    at == loaders@[i as int],
                    here == chunk_position(at.chunk, MAX_LOD),
                    -16777217 <= here.x <= 16777216,
                    -16777217 <= here.y <= 16777216,
                    range == at.loader.load_range,
                    0 <= range <= LOAD_LIMIT,
                    -range <= x <= range + 1,
                    forall|pos: IVec2| #[trigger]
                        voxel_world.has(pos) == (old(voxel_world).has(pos) || load_done(
                            loaders@,
                            i as int,
                            x as int,
                            -range as int,
                            pos,
                        )),
                    forall|k: u64| #[trigger]
                        old(voxel_world).chunk_trees@.contains_key(k) ==> voxel_world.chunk_trees@.contains_key(
                            k,
                        ) && voxel_world.chunk_trees@[k] == old(voxel_world).chunk_trees@[k],
                    forall|pos: IVec2|
                        !old(voxel_world).has(pos) && #[trigger] voxel_world.has(pos)
                            ==> voxel_world.chunk_trees@[key_of(pos)] is None,
                    spawned@.no_duplicates(),
                    forall|pos: IVec2| #[trigger]
                        spawned@.contains(pos) == (!old(voxel_world).has(pos) && voxel_world.has(pos)),
                    entries_before == loaded(old(voxel_world).chunk_trees@, loaders@, i as int).0,
                    spawned_start == loaded(old(voxel_world).chunk_trees@, loaders@, i as int).1,
                    (voxel_world.chunk_trees@, spawned@) == loaded_around(
                        entries_before,
                        spawned_start,
                        here,
                        range as int,
                        (x + range) * (2 * range + 1),
                    ),
                decreases range + 1 - x,
            {
                let mut z: i32 = -range;
                while z <= range
                    invariant
                        i < loaders@.len(),
                        at == loaders@[i as int],
                        here == chunk_position(at.chunk, MAX_LOD),
                        -16777217 <= here.x <= 16777216,
                        -16777217 <= here.y <= 16777216,
                        range == at.loader.load_range,
                        0 <= range <= LOAD_LIMIT,
                        -range <= x <= range,
                        -range <= z <= range + 1,
                        forall|pos: IVec2| #[trigger]
                            voxel_world.has(pos) == (old(voxel_world).has(pos) || load_done(
                                loaders@,
                                i as int,
                                x as int,
                                z as int,
                                pos,
                            )),
                        forall|k: u64| #[trigger]
                            old(voxel_world).chunk_trees@.contains_key(k)
                                ==> voxel_world.chunk_trees@.contains_key(k) && voxel_world.chunk_trees@[k]
                                == old(voxel_world).chunk_trees@[k],
                        forall|pos: IVec2|
                            !old(voxel_world).has(pos) && #[trigger] voxel_world.has(pos)
                                ==> voxel_world.chunk_trees@[key_of(pos)] is None,
                        spawned@.no_duplicates(),
                        forall|pos: IVec2| #[trigger]
                            spawned@.contains(pos) == (!old(voxel_world).has(pos) && voxel_world.has(pos)),
                        entries_before == loaded(old(voxel_world).chunk_trees@, loaders@, i as int).0,
                        spawned_start == loaded(old(voxel_world).chunk_trees@, loaders@, i as int).1,
                        (voxel_world.chunk_trees@, spawned@) == loaded_around(
                            entries_before,
                            spawned_start,
                            here,
                            range as int,
                            (x + range) * (2 * range + 1) + (z + range),
                        ),
                    decreases range + 1 - z,
                {
                    let chunk_pos = IVec2 { x: here.x + x, y: here.y + z };
                    let ghost before = *voxel_world;
                    let ghost spawned_before = spawned@;
                    proof {
                        lemma_load_cell(here, range as int, x as int, z as int);
                        let t = (x + range) * (2 * range + 1) + (z + range);
                        assert(load_cell(here, range as int, t) == chunk_pos);
                    }
                    if !voxel_world.has_chunk(chunk_pos) {
                        spawned.push(chunk_pos);
                        let none: Option<ChunkTree> = None;
                        voxel_world.add_chunk(chunk_pos, none);
                    }
                    proof {
                        assert forall|pos: IVec2| #[trigger]
                            voxel_world.has(pos) == (old(voxel_world).has(pos) || load_done(
                                loaders@,
                                i as int,
                                x as int,
                                z + 1,
                                pos,
                            )) by {
                            lemma_key_round_trip(pos);
                            lemma_key_round_trip(chunk_pos);
                            assert(before.has(pos) == (old(voxel_world).has(pos) || load_done(
                                loaders@,
                                i as int,
                                x as int,
                                z as int,
                                pos,
                            )));
                            if pos == chunk_pos {
                                assert(in_load_range(loaders@[i as int], pos));
                            }
                        }
                        assert forall|pos: IVec2|
                            !old(voxel_world).has(pos) && #[trigger] voxel_world.has(pos) implies voxel_world.chunk_trees@[key_of(
                            pos,
                        )] is None by {
                            lemma_key_round_trip(pos);
                            lemma_key_round_trip(chunk_pos);
                            if pos != chunk_pos {
                                assert(before.has(pos));
                            }
                        }
                        assert forall|pos: IVec2| #[trigger]
                            spawned@.contains(pos) == (!old(voxel_world).has(pos) && voxel_world.has(pos)) by {
                            lemma_key_round_trip(pos);
                            lemma_key_round_trip(chunk_pos);
                            assert(spawned_before.contains(pos) == (!old(voxel_world).has(pos) && before.has(
                                pos,
                            )));
                            if before.has(chunk_pos) {
                            } else {
                                assert(spawned@ == spawned_before.push(chunk_pos));
                                if pos == chunk_pos {
                                    assert(spawned@[spawned_before.len() as int] == pos);
                                    assert(!old(voxel_world).has(pos)) by {
                                        if old(voxel_world).has(pos) {
                                            assert(old(voxel_world).chunk_trees@.contains_key(key_of(pos)));
                                        }
                                    }
                                } else {
                                    if spawned_before.contains(pos) {
                                        let k = choose|k: int|
                                            0 <= k < spawned_before.len() && spawned_before[k] == pos;
                                        assert(spawned@[k] == pos);
                                    }
                                    if spawned@.contains(pos) {
                                        let k = choose|k: int| 0 <= k < spawned@.len() && spawned@[k] == pos;
                                        assert(spawned_before[k] == pos);
                                    }
                                }
                            }
                        }
                        if !before.has(chunk_pos) {
                            assert(!spawned_before.contains(chunk_pos));
                            assert forall|a: int, b: int|
                                0 <= a < spawned@.len() && 0 <= b < spawned@.len() && a != b implies spawned@[a]
                                != spawned@[b] by {
                                if a < spawned_before.len() && b < spawned_before.len() {
                                } else if a < spawned_before.len() {
                                    assert(spawned_before.contains(spawned_before[a]));
                                } else {
                                    assert(spawned_before.contains(spawned_before[b]));
                                }
                            }
                        }
                    }
                    z += 1;
                }
                proof {
                    assert((x + range) * (2 * range + 1) + (range + 1 + range) == (x + 1 + range) * (2
                        * range + 1)) by (nonlinear_arith);
                    assert forall|pos: IVec2| #[trigger]
                        voxel_world.has(pos) == (old(voxel_world).has(pos) || load_done(
                            loaders@,
                            i as int,
                            x + 1,
                            -range as int,
                            pos,
                        )) by {
                        assert(voxel_world.has(pos) == (old(voxel_world).has(pos) || load_done(
                            loaders@,
                            i as int,
                            x as int,
                            range + 1,
                            pos,
                        )));
                    }
                }
                x += 1;
            }
            proof {
                assert((range + 1 + range) * (2 * range + 1) == (2 * range + 1) * (2 * range + 1))
                    by (nonlinear_arith);
            }
        }
        proof {
            assert forall|pos: IVec2| #[trigger]
                voxel_world.has(pos) == (old(voxel_world).has(pos) || load_done(
                    loaders@,
                    i + 1,
                    i32::MIN as int * 4,
                    0,
                    pos,
                )) by {
                if range >= 0 {
                    assert(voxel_world.has(pos) == (old(voxel_world).has(pos) || load_done(
                        loaders@,
                        i as int,
                        range + 1,
                        -range as int,
                        pos,
                    )));
                } else {
                    assert(voxel_world.has(pos) == (old(voxel_world).has(pos) || load_done(
                        loaders@,
                        i as int,
                        i32::MIN as int * 4,
                        0,
                        pos,
                    )));
                }
            }
        }
        i += 1;
    }
    proof {
        assert forall|pos: IVec2| #[trigger]
            voxel_world.has(pos) == (old(voxel_world).has(pos) || load_wanted(loaders@, pos)) by {
            assert(voxel_world.has(pos) == (old(voxel_world).has(pos) || load_done(
                loaders@,
                loaders@.len() as int,
                i32::MIN as int * 4,
                0,
                pos,
            )));
        }
        assert forall|pos: IVec2|
            !old(voxel_world).has(pos) && #[trigger] load_wanted(loaders@, pos) implies voxel_world.chunk_trees@[key_of(
            pos,
        )] is None by {
            assert(voxel_world.has(pos));
        }
    }
    spawned
}

/// The world and the list of dropped root chunks after the first `n` of
/// `chunks` have been looked at: a chunk is dropped if no observer keeps
/// it loaded and it is loaded.
pub open spec fn unloaded(
    entries: Map<u64, Option<ChunkTree>>,
    loaders: Seq<LoaderPosition>,
    chunks: Seq<IVec2>,
    n: int,
) -> (Map<u64, Option<ChunkTree>>, Seq<IVec2>)
    decreases n,
{
    if n <= 0 {
        (entries, Seq::empty())
    } else {
        let before = unloaded(entries, loaders, chunks, n - 1);
        let pos = chunks[n - 1];
        if keep_wanted(loaders, pos) || !before.0.contains_key(key_of(pos)) {
            before
        } else {
            (before.0.remove(key_of(pos)), before.1.push(pos))
        }
    }
}

/// Tests whether some observer keeps a root chunk loaded.
pub fn should_keep(loaders: &Vec<LoaderPosition>, pos: IVec2) -> (keep: bool)
    ensures
        keep == keep_wanted(loaders@, pos),
{
    let mut i: usize = 0;
    while i < loaders.len()
        invariant
            i <= loaders@.len(),
            forall|k: int| 0 <= k < i ==> !in_keep_range(#[trigger] loaders@[k], pos),
        decreases loaders@.len() - i,
    {
        let at = loaders[i];
        let here = get_chunk_position(at.chunk, MAX_LOD);
        let range = at.loader.unload_range as i64;
        let dx = pos.x as i64 - here.x as i64;
        let dz = pos.y as i64 - here.y as i64;
        if -range < dx && dx < range && -range < dz && dz < range {
            return true;
        }
        i += 1;
    }
    false
}

/// Drops those of the root chunks `chunks` that no observer keeps loaded.
/// The chunks dropped are returned.
pub fn unload_chunks(
    voxel_world: &mut QuadTreeVoxelWorld,
    loaders: &Vec<LoaderPosition>,
    chunks: &Vec<IVec2>,
) -> (removed: Vec<IVec2>)
    ensures
        final(voxel_world).chunk_trees@ == unloaded(
            old(voxel_world).chunk_trees@,
            loaders@,
            chunks@,
            chunks@.len() as int,
        ).0,
        removed@ == unloaded(old(voxel_world).chunk_trees@, loaders@, chunks@, chunks@.len() as int).1,
{
    let mut removed: Vec<IVec2> = Vec::new();
    let mut n: usize = 0;
    while n < chunks.len()
        invariant
            n <= chunks@.len(),
            voxel_world.chunk_trees@ == unloaded(old(voxel_world).chunk_trees@, loaders@, chunks@, n as int).0,
            removed@ == unloaded(old(voxel_world).chunk_trees@, loaders@, chunks@, n as int).1,
        decreases chunks@.len() - n,
    {
        let pos = chunks[n];
        if !should_keep(loaders, pos) {
            if voxel_world.remove_chunk(pos) {
                removed.push(pos);
            } else {
                assert(voxel_world.chunk_trees@ =~= unloaded(
                    old(voxel_world).chunk_trees@,
                    loaders@,
                    chunks@,
                    n as int,
                ).0);
            }
        }
        n += 1;
    }
    removed
}

/// Whether the chunk `(u, v)` of the finest level lies in the chunk of
/// level `lod` at `lod_position` of a root chunk, both counted from the
/// root chunk's corner.
pub open spec fn covers_cell(lod: ChunkLod, lod_position: IVec2, u: int, v: int) -> bool {
    &&& lod_position.x * lod.multiplier() <= u < (lod_position.x + 1) * lod.multiplier()
    &&& lod_position.y * lod.multiplier() <= v < (lod_position.y + 1) * lod.multiplier()
}

/// The four children of a chunk tile it: every chunk of the finest level
/// that lies in the chunk lies in exactly one of its children, which are
/// chunks of the next finer level, and the children reach nowhere else.
pub proof fn lemma_children_tile(lod: ChunkLod, finer: ChunkLod, lod_position: IVec2, u: int, v: int)
    requires
        lod != ChunkLod::Full,
        finer.level() == lod.level() - 1,
        -1000000 <= lod_position.x <= 1000000,
        -1000000 <= lod_position.y <= 1000000,
    ensures
        ({
            let a = covers_cell(finer, IVec2 { x: (2 * lod_position.x) as i32, y: (2 * lod_position.y) as i32 }, u, v);
            let b = covers_cell(
                finer,
                IVec2 { x: (2 * lod_position.x + 1) as i32, y: (2 * lod_position.y) as i32 },
                u,
                v,
            );
            let c = covers_cell(
                finer,
                IVec2 { x: (2 * lod_position.x) as i32, y: (2 * lod_position.y + 1) as i32 },
                u,
                v,
            );
            let d = covers_cell(
                finer,
                IVec2 { x: (2 * lod_position.x + 1) as i32, y: (2 * lod_position.y + 1) as i32 },
                u,
                v,
            );
            &&& covers_cell(lod, lod_position, u, v) == (a || b || c || d)
            &&& !(a && b) && !(a && c) && !(a && d) && !(b && c) && !(b && d) && !(c && d)
        }),
{
    let m = finer.multiplier();
    let x = lod_position.x as int;
    let y = lod_position.y as int;
    assert(lod.multiplier() == 2 * m);
    assert(1 <= m <= 128);
    assert(x * (2 * m) == (2 * x) * m) by (nonlinear_arith);
    assert((x + 1) * (2 * m) == (2 * x + 1) * m + m) by (nonlinear_arith);
    assert((2 * x + 1 + 1) * m == (2 * x + 1) * m + m) by (nonlinear_arith);
    assert((2 * x + 1) * m == (2 * x) * m + m) by (nonlinear_arith);
    assert(y * (2 * m) == (2 * y) * m) by (nonlinear_arith);
    assert((y + 1) * (2 * m) == (2 * y + 1) * m + m) by (nonlinear_arith);
    assert((2 * y + 1 + 1) * m == (2 * y + 1) * m + m) by (nonlinear_arith);
    assert((2 * y + 1) * m == (2 * y) * m + m) by (nonlinear_arith);
}

} // verus!
