//! The pine: its pieces and the blocks they turn into.

use vstd::prelude::*;
use crate::world_generation::chunk_generation::BlockType;

verus! {

/// The pine species.
pub struct PineLSystem;

/// What a piece of a growing pine is.
#[derive(Clone, Copy, Debug, PartialEq, Eq, Structural)]
pub enum PineEntryKind {
    /// Wood that no longer grows.
    Log,
    /// A point of the trunk from which branches fan out.
    Stem,
    /// The tip of a branch, which may still grow on.
    Branch,
    /// Needles.
    Leaf,
}

impl PineLSystem {
    /// How often the pieces are rewritten.
    pub const GROWTH_ITERATIONS: u32 = 8;

    /// How many segments the trunk gets above its base.
    pub const TRUNK_SEGMENTS: u32 = 8;

    /// How many branches fan out from a stem.
    pub const BRANCHES_PER_STEM: u32 = 6;

    /// The block that stands for a kind of piece: needles are green, all wood is brown.
    pub open spec fn block_of(kind: PineEntryKind) -> BlockType {
        if kind == PineEntryKind::Leaf {
            BlockType::Grass(100)
        } else {
            BlockType::Path
        }
    }

    pub fn get_block_from_entry(kind: PineEntryKind) -> (block: BlockType)
        ensures
            block == Self::block_of(kind),
    {
        match kind {
            PineEntryKind::Leaf => BlockType::Grass(100),
            _ => BlockType::Path,
        }
    }

    /// How many growth steps a branch tip has left after it has grown once;
    /// nothing if it is spent.
    pub fn next_extensions(extensions: i32) -> (next: Option<i32>)
        ensures
            next == (if extensions <= 0 {
                None
            } else {
                Some((extensions - 1) as i32)
            }),
    {
        if extensions <= 0 {
            None
        } else {
            Some(extensions - 1)
        }
    }
}

/// Whether putting needles on looks at the piece at place `i`: it looks
/// at the first piece, at the piece after one that is no branch tip, and at
/// the piece after the next after a branch tip.
pub open spec fn is_looked_at(kinds: Seq<PineEntryKind>, i: int) -> bool
    decreases i,
{
    if i <= 0 {
        i == 0
    } else {
        (is_looked_at(kinds, i - 1) && kinds[i - 1] != PineEntryKind::Branch) || (i >= 2 && is_looked_at(
            kinds,
            i - 2,
        ) && kinds[i - 2] == PineEntryKind::Branch)
    }
}

/// The pieces of a grown pine with needles put on: every branch tip that
/// is looked at becomes needles.
pub open spec fn with_leafs(kinds: Seq<PineEntryKind>) -> Seq<PineEntryKind> {
    Seq::new(
        kinds.len(),
        |i: int|
            if is_looked_at(kinds, i) && kinds[i] == PineEntryKind::Branch {
                PineEntryKind::Leaf
            } else {
                kinds[i]
            },
    )
}

/// The piece after a branch tip that is looked at is passed over.
pub proof fn lemma_piece_after_tip_is_passed_over(kinds: Seq<PineEntryKind>, i: int)
    requires
        0 <= i,
        is_looked_at(kinds, i),
        kinds[i] == PineEntryKind::Branch,
    ensures
        !is_looked_at(kinds, i + 1),
    decreases i,
{
    if i >= 1 && is_looked_at(kinds, i - 1) && kinds[i - 1] == PineEntryKind::Branch {
        lemma_piece_after_tip_is_passed_over(kinds, i - 1);
    }
}

impl PineLSystem {
    /// Puts needles on the tips of a grown pine.
    pub fn add_leafs(data: &mut Vec<PineEntryKind>)
        ensures
            final(data)@ == with_leafs(old(data)@),
    {
        let mut i: usize = 0;
        while i < data.len()
            invariant
                data@.len() == old(data)@.len(),
                is_looked_at(old(data)@, i as int),
                forall|j: int| 0 <= j < i ==> data@[j] == with_leafs(old(data)@)[j],
                forall|j: int| i <= j < data@.len() ==> data@[j] == old(data)@[j],
            decreases data@.len() - i,
        {
            if data[i] == PineEntryKind::Branch {
                data.set(i, PineEntryKind::Leaf);
                proof {
                    lemma_piece_after_tip_is_passed_over(old(data)@, i as int);
                }
                if i + 1 < data.len() {
                    i += 1;
                } else {
                    assert(data@ =~= with_leafs(old(data)@));
                    return ;
                }
            }
            i += 1;
        }
        assert(data@ =~= with_leafs(old(data)@));
    }
}

} // verus!
