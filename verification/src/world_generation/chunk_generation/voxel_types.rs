//! The block grid of one chunk, stored as one byte per voxel with a palette.

use vstd::prelude::*;
use crate::utils::IVec3;
use crate::world_generation::chunk_generation::{BlockType, GRID_SIZE};

verus! {

/// Number of voxels in the stored grid, halo included.
pub const VOXEL_COUNT: usize = 287496;

/// Number of packed words that hold the grid, four voxels to a word and the
/// words grouped in fours.
pub const ARRAY_WORDS: usize = 71876;

/// Number of words in the palette table.
pub const PALETTE_WORDS: usize = 512;

/// Most distinct non-air block types one chunk can hold.
pub const PALETTE_CAPACITY: usize = 127;

/// The byte in lane `lane` (0 to 3) of `word`.
pub open spec fn lane_of(word: u32, lane: int) -> u32 {
    (word >> ((lane * 8) as u32)) & 0xffu32
}

/// Position of a voxel in the linear grid order: x fastest, then y, then z.
pub open spec fn voxel_index(position: IVec3) -> int {
    position.x + position.y * 66 + position.z * 66 * 66
}

/// Whether `position` lies inside the stored grid.
pub open spec fn in_grid(position: IVec3) -> bool {
    &&& 0 <= position.x < 66
    &&& 0 <= position.y < 66
    &&& 0 <= position.z < 66
}

/// One chunk's blocks. Palette index 0 always means air; every other index
/// is handed out once, in the order block types first appear.
pub struct VoxelData {
    array: Vec<u32>,
    palette: Vec<u32>,
    block_map: Vec<BlockType>,
}

impl VoxelData {
    /// The block types that have a palette index, in index order starting at index 1.
    pub closed spec fn known_blocks(self) -> Seq<BlockType> {
        self.block_map@
    }

    /// The packed words of the grid.
    pub closed spec fn words(self) -> Seq<u32> {
        self.array@
    }

    /// The words of the palette table: entry `i` is the packed colour of palette index `i`.
    pub closed spec fn palette_words(self) -> Seq<u32> {
        self.palette@
    }

    /// The palette index stored for the voxel with linear index `index`.
    pub open spec fn index_at(self, index: int) -> int {
        lane_of(self.words()[index / 4], index % 4) as int
    }

    /// The block type that a palette index stands for.
    pub open spec fn block_of_index(self, palette_index: int) -> BlockType {
        if 1 <= palette_index <= self.known_blocks().len() {
            self.known_blocks()[palette_index - 1]
        } else {
            BlockType::Air
        }
    }

    /// The block at `position`.
    pub open spec fn block_at(self, position: IVec3) -> BlockType {
        self.block_of_index(self.index_at(voxel_index(position)))
    }

    /// The palette index of `block`: 0 for air and for a block type that has none yet.
    pub open spec fn index_of_block(self, block: BlockType) -> int {
        if self.known_blocks().contains(block) {
            self.known_blocks().index_of(block) + 1
        } else {
            0
        }
    }

    /// Whether a write of `block` can be stored under the block's own index:
    /// it is air, it already has an index, or a free index is left.
    pub open spec fn can_store(self, block: BlockType) -> bool {
        ||| block == BlockType::Air
        ||| self.known_blocks().contains(block)
        ||| self.known_blocks().len() < PALETTE_CAPACITY
    }

    /// Whether a write of `block` hands out a new palette index.
    pub open spec fn allocates(self, block: BlockType) -> bool {
        &&& block != BlockType::Air
        &&& !self.known_blocks().contains(block)
        &&& self.known_blocks().len() < PALETTE_CAPACITY
    }

    /// The palette's block types after a write of `block`.
    pub open spec fn known_blocks_after(self, block: BlockType) -> Seq<BlockType> {
        if self.allocates(block) {
            self.known_blocks().push(block)
        } else {
            self.known_blocks()
        }
    }

    /// The palette table after a write of `block`.
    pub open spec fn palette_words_after(self, block: BlockType) -> Seq<u32> {
        if self.allocates(block) {
            self.palette_words().update(self.known_blocks().len() as int + 1, block.packed_color())
        } else {
            self.palette_words()
        }
    }

    /// The invariant of the storage: sizes, a palette without air or
    /// repetition whose colours match its block types, and no voxel that
    /// names an index not handed out yet.
    pub open spec fn wf(self) -> bool {
        &&& self.words().len() == ARRAY_WORDS
        &&& self.palette_words().len() == PALETTE_WORDS
        &&& self.known_blocks().len() <= PALETTE_CAPACITY
        &&& self.known_blocks().no_duplicates()
        &&& !self.known_blocks().contains(BlockType::Air)
        &&& forall|i: int|
            0 <= i < self.known_blocks().len() ==> #[trigger] self.palette_words()[i + 1]
                == self.known_blocks()[i].packed_color()
        &&& self.palette_words()[0] == 0
        &&& forall|j: int|
            self.known_blocks().len() < j < PALETTE_WORDS ==> #[trigger] self.palette_words()[j] == 0
        &&& forall|index: int|
            0 <= index < 4 * ARRAY_WORDS ==> #[trigger] self.index_at(index)
                <= self.known_blocks().len()
    }
}

/// Writing `value` into lane `lane` of `word` changes that lane to `value`
/// and leaves the other three lanes as they were.
pub proof fn lemma_lane_write(word: u32, lane: u32, value: u32)
    requires
        lane < 4,
        value <= 0xff,
    ensures
        ({
            let written = (word & !(0xffu32 << (lane * 8))) | (value << (lane * 8));
            &&& lane_of(written, lane as int) == value
            &&& forall|other: int|
                0 <= other < 4 && other != lane ==> lane_of(written, other) == lane_of(word, other)
        }),
{
    let written = (word & !(0xffu32 << (lane * 8))) | (value << (lane * 8));
    assert((written >> (lane * 8)) & 0xffu32 == value) by (bit_vector)
        requires
            lane < 4,
            value <= 0xff,
            written == (word & !(0xffu32 << (lane * 8))) | (value << (lane * 8)),
    ;
    assert forall|other: int| 0 <= other < 4 && other != lane implies lane_of(written, other)
        == lane_of(word, other) by {
        let o = other as u32;
        assert((written >> (o * 8)) & 0xffu32 == (word >> (o * 8)) & 0xffu32) by (bit_vector)
            requires
                lane < 4,
                o < 4,
                o != lane,
                value <= 0xff,
                written == (word & !(0xffu32 << (lane * 8))) | (value << (lane * 8)),
        ;
    }
}

/// A lane is zero exactly when masking the word with that lane's byte gives zero.
pub proof fn lemma_lane_mask(word: u32, lane: u32)
    requires
        lane < 4,
    ensures
        (word & (0xffu32 << (lane * 8)) == 0) <==> lane_of(word, lane as int) == 0,
        lane_of(word, lane as int) <= 0xff,
        lane_of(0, lane as int) == 0,
{
    assert((word & (0xffu32 << (lane * 8)) == 0) <==> ((word >> (lane * 8)) & 0xffu32) == 0)
        by (bit_vector)
        requires
            lane < 4,
    ;
    assert((word >> (lane * 8)) & 0xffu32 <= 0xff) by (bit_vector);
    assert((0u32 >> (lane * 8)) & 0xffu32 == 0) by (bit_vector);
}

/// Two grid positions with the same linear index are the same position.
pub proof fn lemma_voxel_index_injective(a: IVec3, b: IVec3)
    requires
        in_grid(a),
        in_grid(b),
        voxel_index(a) == voxel_index(b),
    ensures
        a == b,
        0 <= voxel_index(a) < VOXEL_COUNT,
{
}

impl VoxelData {
    /// An all-air grid with an empty palette.
    pub fn new() -> (data: VoxelData)
        ensures
            data.wf(),
            data.known_blocks() == Seq::<BlockType>::empty(),
            forall|index: int| 0 <= index < 4 * ARRAY_WORDS ==> #[trigger] data.index_at(index) == 0,
            forall|position: IVec3| in_grid(position) ==> #[trigger] data.block_at(position) == BlockType::Air,
    {
        let data = VoxelData {
            array: vec![0u32; ARRAY_WORDS],
            palette: vec![0u32; PALETTE_WORDS],
            block_map: Vec::new(),
        };
        proof {
            assert forall|index: int| 0 <= index < 4 * ARRAY_WORDS implies #[trigger] data.index_at(
                index,
            ) == 0 by {
                lemma_lane_mask(0, (index % 4) as u32);
            }
        }
        data
    }

    /// The packed words of the grid, as the renderer reads them.
    pub fn array(&self) -> (words: &Vec<u32>)
        ensures
            words@ == self.words(),
    {
        &self.array
    }

    /// The palette table, as the renderer reads it.
    pub fn palette(&self) -> (words: &Vec<u32>)
        ensures
            words@ == self.palette_words(),
    {
        &self.palette
    }

    /// Number of block types that have a palette index.
    pub fn palette_len(&self) -> (n: usize)
        ensures
            n == self.known_blocks().len(),
    {
        self.block_map.len()
    }

    fn position_to_indexes(position: IVec3) -> (r: (usize, usize))
        requires
            in_grid(position),
        ensures
            r.0 == voxel_index(position) / 4,
            r.1 == voxel_index(position) % 4,
            r.0 < ARRAY_WORDS,
            r.1 < 4,
    {
        let index: usize = position.x as usize + (position.y as usize * GRID_SIZE) + (
        position.z as usize * GRID_SIZE * GRID_SIZE);
        (index / 4, index % 4)
    }

    /// Whether the voxel at `position` is air.
    pub fn is_air(&self, position: IVec3) -> (air: bool)
        requires
            self.wf(),
            in_grid(position),
        ensures
            air == (self.index_at(voxel_index(position)) == 0),
            air == (self.block_at(position) == BlockType::Air),
    {
        let (word_index, lane) = Self::position_to_indexes(position);
        let mask: u32 = 0xffu32 << ((lane as u32) * 8);
        proof {
            lemma_lane_mask(self.array@[word_index as int], lane as u32);
            let stored = self.index_at(voxel_index(position));
            if stored != 0 {
                assert(self.known_blocks().contains(self.known_blocks()[stored - 1]));
            }
        }
        (self.array[word_index] & mask) == 0
    }

    /// The block at `position`.
    pub fn get_block(&self, position: IVec3) -> (block: BlockType)
        requires
            self.wf(),
            in_grid(position),
        ensures
            block == self.block_at(position),
    {
        let (word_index, lane) = Self::position_to_indexes(position);
        let map_index: u32 = (self.array[word_index] >> ((lane as u32) * 8)) & 0xffu32;
        proof {
            lemma_lane_mask(self.array@[word_index as int], lane as u32);
        }
        if map_index == 0 || map_index as usize > self.block_map.len() {
            BlockType::Air
        } else {
            self.block_map[map_index as usize - 1]
        }
    }

    /// Where `block` sits in the palette, if it has an index already.
    fn find_block(&self, block: BlockType) -> (found: Option<usize>)
        requires
            self.wf(),
        ensures
            found.is_some() == self.known_blocks().contains(block),
            found matches Some(i) ==> i < self.known_blocks().len() && self.known_blocks()[i as int]
                == block && i + 1 == self.index_of_block(block),
    {
        let mut i: usize = 0;
        while i < self.block_map.len()
            invariant
                self.wf(),
                i <= self.block_map@.len(),
                forall|j: int| 0 <= j < i ==> self.block_map@[j] != block,
            decreases self.block_map@.len() - i,
        {
            if self.block_map[i] == block {
                proof {
                    assert(self.known_blocks()[i as int] == block);
                    assert(self.known_blocks().contains(block));
                    let k = self.known_blocks().index_of(block);
                    assert(self.known_blocks()[k] == block);
                    assert(k == i);
                }
                return Some(i);
            }
            i += 1;
        }
        proof {
            if self.known_blocks().contains(block) {
                let k = self.known_blocks().index_of(block);
                assert(self.known_blocks()[k] == block);
            }
        }
        None
    }

    /// The palette index of `block`, handing out the next free index and
    /// recording the block's colour when the block is new. `None` when the
    /// block is new and every index is taken; then nothing changes.
    pub fn get_palette_index(&mut self, block: BlockType) -> (index: Option<u16>)
        requires
            old(self).wf(),
        ensures
            final(self).wf(),
            final(self).words() == old(self).words(),
            index.is_some() == old(self).can_store(block),
            index matches Some(i) ==> i == final(self).index_of_block(block) && i <= final(self).known_blocks().len(),
            index.is_some() && block != BlockType::Air ==> final(self).known_blocks().contains(block),
            final(self).known_blocks() == old(self).known_blocks_after(block),
            final(self).palette_words() == old(self).palette_words_after(block),
    {
        if block == BlockType::Air {
            return Some(0);
        }
        if let Some(i) = self.find_block(block) {
            return Some((i + 1) as u16);
        }
        let current_index: usize = self.block_map.len() + 1;
        if current_index > PALETTE_CAPACITY {
            return None;
        }
        let compressed_color = block.get_packed_color();
        self.palette.set(current_index, compressed_color);
        self.block_map.push(block);
        proof {
            let before = old(self).known_blocks();
            let after = self.known_blocks();
            assert(after == before.push(block));
            assert(after[before.len() as int] == block);
            assert(after.contains(block));
            assert forall|i: int, j: int|
                0 <= i < after.len() && 0 <= j < after.len() && i != j implies after[i]
                != after[j] by {
                if i < before.len() && j < before.len() {
                } else if i < before.len() {
                    assert(before.contains(before[i]));
                } else {
                    assert(before.contains(before[j]));
                }
            }
            if after.contains(BlockType::Air) {
                let k = after.index_of(BlockType::Air);
                assert(after[k] == BlockType::Air);
                assert(before.contains(before[k]));
            }
            let k = after.index_of(block);
            assert(after[k] == block);
            assert(k == before.len()) by {
                if k < before.len() {
                    assert(before.contains(before[k]));
                }
            }
            assert forall|index: int| 0 <= index < 4 * ARRAY_WORDS implies #[trigger] self.index_at(
                index,
            ) <= self.known_blocks().len() by {
                assert(self.index_at(index) == old(self).index_at(index));
            }
        }
        Some(current_index as u16)
    }

    /// Writes `block` at `position`. The block is stored under its own
    /// palette index, which is handed out on the block's first appearance.
    /// When the block is new and the palette is full, the write falls back
    /// to the last palette index and the call reports `false`.
    pub fn set_block(&mut self, position: IVec3, block: BlockType) -> (stored: bool)
        requires
            old(self).wf(),
            in_grid(position),
        ensures
            final(self).wf(),
            stored == old(self).can_store(block),
            stored ==> is_write(*old(self), *final(self), position, block),
            stored ==> final(self).block_at(position) == block,
            stored ==> final(self).index_at(voxel_index(position)) == final(self).index_of_block(
                block,
            ),
            !stored ==> final(self).index_at(voxel_index(position)) == PALETTE_CAPACITY,
            !stored ==> final(self).block_at(position) == old(self).known_blocks()[PALETTE_CAPACITY
                - 1],
            forall|index: int|
                0 <= index < 4 * ARRAY_WORDS && index != voxel_index(position) ==> final(self).index_at(index) == old(self).index_at(index),
            forall|other: IVec3|
                in_grid(other) && other != position ==> #[trigger] final(self).block_at(other)
                    == old(self).block_at(other),
            final(self).known_blocks() == old(self).known_blocks_after(block),
            final(self).palette_words() == old(self).palette_words_after(block),
    {
        let (word_index, lane) = Self::position_to_indexes(position);
        let shift: u32 = (lane as u32) * 8;
        let previous_mask: u32 = !(0xffu32 << shift);
        let previous: u32 = self.array[word_index] & previous_mask;
        let found = self.get_palette_index(block);
        let (palette_index, stored): (u32, bool) = match found {
            Some(i) => (i as u32, true),
            None => (PALETTE_CAPACITY as u32, false),
        };
        let ghost middle = *self;
        let ghost old_word = self.array@[word_index as int];
        let written: u32 = previous | (palette_index << shift);
        self.array.set(word_index, written);
        proof {
            lemma_lane_write(old_word, lane as u32, palette_index);
            let target = voxel_index(position);
            assert(self.index_at(target) == palette_index);
            assert forall|index: int| 0 <= index < 4 * ARRAY_WORDS && index != target implies self.index_at(
                index,
            ) == old(self).index_at(index) by {
                if index / 4 == target / 4 {
                    assert(index % 4 != target % 4);
                    assert(self.words()[index / 4] == written);
                } else {
                    assert(self.words()[index / 4] == old(self).words()[index / 4]);
                }
            }
            assert forall|index: int| 0 <= index < 4 * ARRAY_WORDS implies #[trigger] self.index_at(
                index,
            ) <= self.known_blocks().len() by {
                if index != target {
                    assert(old(self).index_at(index) <= old(self).known_blocks().len());
                }
            }
            assert forall|other: IVec3| in_grid(other) && other != position implies #[trigger] self.block_at(
                other,
            ) == old(self).block_at(other) by {
                if voxel_index(other) == target {
                    lemma_voxel_index_injective(other, position);
                }
                let stored_index = old(self).index_at(voxel_index(other));
                assert(self.index_at(voxel_index(other)) == stored_index);
                assert(stored_index <= old(self).known_blocks().len());
            }
            if stored && block != BlockType::Air {
                let k = self.known_blocks().index_of(block);
                assert(self.known_blocks()[k] == block);
            }
        }
        stored
    }
}

/// Whether `after` is `before` with `block` written at `position`, for a
/// write that the palette can take: the block stands at the position, and
/// every other position holds what it held.
pub open spec fn is_write(before: VoxelData, after: VoxelData, position: IVec3, block: BlockType) -> bool {
    &&& before.wf()
    &&& after.wf()
    &&& in_grid(position)
    &&& before.can_store(block)
    &&& after.block_at(position) == block
    &&& forall|other: IVec3|
        in_grid(other) && other != position ==> #[trigger] after.block_at(other) == before.block_at(other)
}

/// The block that the last of `writes` at `position` wrote, or `initial` if none wrote there.
pub open spec fn last_write(writes: Seq<(IVec3, BlockType)>, position: IVec3, initial: BlockType) -> BlockType
    decreases writes.len(),
{
    if writes.len() == 0 {
        initial
    } else if writes.last().0 == position {
        writes.last().1
    } else {
        last_write(writes.drop_last(), position, initial)
    }
}

/// After any sequence of writes that the palette can take, every position
/// holds the block of the last write to it, the air test says so too, and
/// the palette index 0 still stands for air and nothing else.
pub proof fn lemma_last_write_wins(states: Seq<VoxelData>, writes: Seq<(IVec3, BlockType)>, position: IVec3)
    requires
        states.len() == writes.len() + 1,
        states[0].wf(),
        in_grid(position),
        forall|i: int|
            0 <= i < writes.len() ==> is_write(#[trigger] states[i], states[i + 1], writes[i].0, writes[i].1),
    ensures
        states.last().wf(),
        states.last().block_at(position) == last_write(writes, position, states[0].block_at(position)),
        (states.last().index_at(voxel_index(position)) == 0) == (states.last().block_at(position)
            == BlockType::Air),
        states.last().block_of_index(0) == BlockType::Air,
        !states.last().known_blocks().contains(BlockType::Air),
    decreases writes.len(),
{
    if writes.len() > 0 {
        let n = writes.len() as int;
        assert(is_write(states[n - 1], states[n], writes[n - 1].0, writes[n - 1].1));
        let earlier = states.drop_last();
        assert forall|i: int| 0 <= i < writes.drop_last().len() implies is_write(
            #[trigger] earlier[i],
            earlier[i + 1],
            writes.drop_last()[i].0,
            writes.drop_last()[i].1,
        ) by {
            assert(is_write(states[i], states[i + 1], writes[i].0, writes[i].1));
        }
        lemma_last_write_wins(earlier, writes.drop_last(), position);
        assert(earlier.last() == states[n - 1]);
    }
    let last = states.last();
    let stored = last.index_at(voxel_index(position));
    lemma_voxel_index_injective(position, position);
    assert(stored <= last.known_blocks().len());
    if stored != 0 {
        assert(last.known_blocks().contains(last.known_blocks()[stored - 1]));
    }
}

/// The palette's block types after the blocks `writes` have been written
/// in turn, starting from the palette `known`.
pub open spec fn palette_after(known: Seq<BlockType>, writes: Seq<BlockType>) -> Seq<BlockType>
    decreases writes.len(),
{
    if writes.len() == 0 {
        known
    } else {
        let before = palette_after(known, writes.drop_last());
        let block = writes.last();
        if block != BlockType::Air && !before.contains(block) && before.len() < PALETTE_CAPACITY {
            before.push(block)
        } else {
            before
        }
    }
}

/// Whether the palette can take every one of the blocks `writes` when they
/// are written in turn, starting from the palette `known`.
pub open spec fn all_storable(known: Seq<BlockType>, writes: Seq<BlockType>) -> bool
    decreases writes.len(),
{
    if writes.len() == 0 {
        true
    } else {
        let before = palette_after(known, writes.drop_last());
        let block = writes.last();
        all_storable(known, writes.drop_last()) && (block == BlockType::Air || before.contains(block)
            || before.len() < PALETTE_CAPACITY)
    }
}

/// Writing two runs of blocks one after the other is writing them as one run.
pub proof fn lemma_palette_after_concat(known: Seq<BlockType>, first: Seq<BlockType>, second: Seq<BlockType>)
    ensures
        palette_after(known, first + second) == palette_after(palette_after(known, first), second),
        all_storable(known, first + second) == (all_storable(known, first) && all_storable(
            palette_after(known, first),
            second,
        )),
    decreases second.len(),
{
    if second.len() == 0 {
        assert(first + second =~= first);
    } else {
        lemma_palette_after_concat(known, first, second.drop_last());
        assert((first + second).drop_last() =~= first + second.drop_last());
        assert((first + second).last() == second.last());
    }
}

/// Writing one more block.
pub proof fn lemma_palette_after_push(known: Seq<BlockType>, writes: Seq<BlockType>, block: BlockType)
    ensures
        palette_after(known, writes.push(block)) == (if block != BlockType::Air && !palette_after(
            known,
            writes,
        ).contains(block) && palette_after(known, writes).len() < PALETTE_CAPACITY {
            palette_after(known, writes).push(block)
        } else {
            palette_after(known, writes)
        }),
        all_storable(known, writes.push(block)) == (all_storable(known, writes) && (block
            == BlockType::Air || palette_after(known, writes).contains(block) || palette_after(
            known,
            writes,
        ).len() < PALETTE_CAPACITY)),
{
    assert(writes.push(block).drop_last() =~= writes);
}

/// A word is told by its four lanes.
proof fn lemma_lanes_tell_word(a: u32, b: u32)
    requires
        forall|lane: int| 0 <= lane < 4 ==> lane_of(a, lane) == lane_of(b, lane),
    ensures
        a == b,
{
    assert(lane_of(a, 0) == lane_of(b, 0));
    assert(lane_of(a, 1) == lane_of(b, 1));
    assert(lane_of(a, 2) == lane_of(b, 2));
    assert(lane_of(a, 3) == lane_of(b, 3));
    assert(a == b) by (bit_vector)
        requires
            (a >> 0u32) & 0xffu32 == (b >> 0u32) & 0xffu32,
            (a >> 8u32) & 0xffu32 == (b >> 8u32) & 0xffu32,
            (a >> 16u32) & 0xffu32 == (b >> 16u32) & 0xffu32,
            (a >> 24u32) & 0xffu32 == (b >> 24u32) & 0xffu32,
    ;
}

/// The bytes of a grid are told by what it holds: two grids with the same
/// palette order that hold the same block in every lane are the same
/// word for word, in the grid and in the palette table.
pub proof fn lemma_same_bytes(a: VoxelData, b: VoxelData)
    requires
        a.wf(),
        b.wf(),
        a.known_blocks() == b.known_blocks(),
        forall|index: int|
            0 <= index < 4 * ARRAY_WORDS ==> a.block_of_index(#[trigger] a.index_at(index))
                == b.block_of_index(b.index_at(index)),
    ensures
        a.words() == b.words(),
        a.palette_words() == b.palette_words(),
{
    let known = a.known_blocks();
    assert forall|index: int| 0 <= index < 4 * ARRAY_WORDS implies a.index_at(index) == b.index_at(
        index,
    ) by {
        let i = a.index_at(index);
        let j = b.index_at(index);
        assert(a.block_of_index(i) == b.block_of_index(j));
        assert(i <= known.len());
        assert(j <= known.len());
        lemma_lane_mask(a.words()[index / 4], (index % 4) as u32);
        lemma_lane_mask(b.words()[index / 4], (index % 4) as u32);
        if i >= 1 {
            assert(known.contains(known[i - 1]));
        }
        if j >= 1 {
            assert(known.contains(known[j - 1]));
        }
    }
    assert forall|w: int| 0 <= w < ARRAY_WORDS implies a.words()[w] == b.words()[w] by {
        assert forall|lane: int| 0 <= lane < 4 implies lane_of(a.words()[w], lane) == lane_of(
            b.words()[w],
            lane,
        ) by {
            let index = 4 * w + lane;
            assert(index / 4 == w && index % 4 == lane);
            assert(a.index_at(index) == b.index_at(index));
        }
        lemma_lanes_tell_word(a.words()[w], b.words()[w]);
    }
    assert(a.words() =~= b.words());
    assert forall|j: int| 0 <= j < PALETTE_WORDS implies a.palette_words()[j] == b.palette_words()[j] by {
        if 1 <= j <= known.len() {
            assert(a.palette_words()[(j - 1) + 1] == known[j - 1].packed_color());
            assert(b.palette_words()[(j - 1) + 1] == known[j - 1].packed_color());
        }
    }
    assert(a.palette_words() =~= b.palette_words());
}

} // verus!
