//! Growing, refining and merging the quadtree of a root chunk as observers move.

use vstd::prelude::*;
use std::collections::HashSet;
use crate::utils::IVec2;
use crate::world_generation::chunk_loading::chunk_loader::{
    should_divide, split_wanted, LoaderPosition, OWNER_LIMIT,
};
use crate::world_generation::chunk_loading::quad_tree_data::{in_tree, QuadTreeNode, TreeModel};
use vstd::arithmetic::power2::{lemma2_to64, pow2};
use crate::world_generation::voxel_world::{ChunkLod, MAX_LOD};

verus! {

broadcast use vstd::std_specs::hash::group_hash_axioms;

/// One slab of a column of chunks: its number, counted from the ground up,
/// and the handle of what generates or shows it.
#[derive(Clone, Copy, Debug, PartialEq, Eq, Structural)]
pub struct Slab {
    pub height: i32,
    pub handle: u64,
}

/// The quadtree of one root chunk: each leaf is a column of slabs.
pub type ChunkTree = QuadTreeNode<Vec<Slab>>;

/// A request to generate one chunk.
#[derive(Clone, Copy, Debug, PartialEq, Eq, Structural)]
pub struct ChunkTaskGenerator {
    /// The root chunk the chunk belongs to.
    pub parent_pos: IVec2,
    pub lod: ChunkLod,
    /// Where the chunk lies in its root chunk, in chunks of its level.
    pub lod_position: IVec2,
    /// The number of the slab.
    pub height: i32,
    /// The handle under which the quadtree knows the chunk.
    pub handle: u64,
}

/// The requests made so far, and the handle the next one gets.
pub struct TaskList {
    pub next_handle: u64,
    pub requests: Vec<ChunkTaskGenerator>,
}

/// The content of the quadtree of a root chunk.
pub type ChunkModel = TreeModel<Seq<Slab>>;

/// The handles of a column's slabs, in the column's order.
pub open spec fn slab_handles(slabs: Seq<Slab>) -> Seq<u64> {
    Seq::new(slabs.len(), |i: int| slabs[i].handle)
}

/// Every handle a tree holds: for a leaf its slabs and then what is pending
/// in its place; for a branch those of its four children in order and then
/// what is pending in its place.
pub open spec fn entities_of(tree: ChunkModel) -> Seq<u64>
    decreases tree,
{
    match tree {
        TreeModel::Leaf(slabs, pending) => slab_handles(slabs) + pending,
        TreeModel::Branch(a, b, c, d, _, pending) => entities_of(*a) + entities_of(*b) + entities_of(
            *c,
        ) + entities_of(*d) + pending,
    }
}

/// How many leaves a tree rooted at a chunk of level `lod` can have at most.
pub open spec fn leaf_capacity(lod: ChunkLod) -> int {
    match lod {
        ChunkLod::Full => 1,
        ChunkLod::Half => 4,
        ChunkLod::Quarter => 16,
        ChunkLod::Eighth => 64,
        ChunkLod::Sixteenth => 256,
        ChunkLod::Thirtytwoth => 1024,
        ChunkLod::Sixtyfourth => 4096,
        ChunkLod::OneTwentyEight => 16384,
        ChunkLod::TwoFiftySix => 65536,
    }
}

/// The position of a child of the chunk at `lod_position`, one level finer.
pub open spec fn child_position(lod_position: IVec2, dx: int, dz: int) -> IVec2 {
    IVec2 { x: (lod_position.x * 2 + dx) as i32, y: (lod_position.y * 2 + dz) as i32 }
}

/// The level one step finer than `lod`.
pub open spec fn finer(lod: ChunkLod) -> ChunkLod {
    match lod {
        ChunkLod::Full => ChunkLod::Full,
        ChunkLod::Half => ChunkLod::Full,
        ChunkLod::Quarter => ChunkLod::Half,
        ChunkLod::Eighth => ChunkLod::Quarter,
        ChunkLod::Sixteenth => ChunkLod::Eighth,
        ChunkLod::Thirtytwoth => ChunkLod::Sixteenth,
        ChunkLod::Sixtyfourth => ChunkLod::Thirtytwoth,
        ChunkLod::OneTwentyEight => ChunkLod::Sixtyfourth,
        ChunkLod::TwoFiftySix => ChunkLod::OneTwentyEight,
    }
}

/// The requests that growing a tree at the chunk of level `lod` at
/// `lod_position` makes, in the order of its leaves, with handles counted
/// up from `first_handle`: one request for the lowest slab of each leaf.
pub open spec fn grown_tasks(
    loaders: Seq<LoaderPosition>,
    owner: IVec2,
    lod: ChunkLod,
    lod_position: IVec2,
    first_handle: int,
) -> Seq<ChunkTaskGenerator>
    decreases lod.level(),
{
    if split_wanted(loaders, owner, lod, lod_position) {
        let a = grown_tasks(loaders, owner, finer(lod), child_position(lod_position, 0, 0), first_handle);
        let b = grown_tasks(
            loaders,
            owner,
            finer(lod),
            child_position(lod_position, 1, 0),
            first_handle + a.len(),
        );
        let c = grown_tasks(
            loaders,
            owner,
            finer(lod),
            child_position(lod_position, 0, 1),
            first_handle + a.len() + b.len(),
        );
        let d = grown_tasks(
            loaders,
            owner,
            finer(lod),
            child_position(lod_position, 1, 1),
            first_handle + a.len() + b.len() + c.len(),
        );
        a + b + c + d
    } else {
        seq![
            ChunkTaskGenerator {
                parent_pos: owner,
                lod,
                lod_position,
                height: 0,
                handle: first_handle as u64,
            },
        ]
    }
}

/// The tree that grows at the chunk of level `lod` at `lod_position`: a
/// branch of four grown trees where the chunk is to be split, else a leaf
/// with its lowest slab requested. `pending` is what is shown in its place.
pub open spec fn grown(
    loaders: Seq<LoaderPosition>,
    owner: IVec2,
    lod: ChunkLod,
    lod_position: IVec2,
    pending: Seq<u64>,
    first_handle: int,
) -> ChunkModel
    decreases lod.level(),
{
    if split_wanted(loaders, owner, lod, lod_position) {
        let ta = grown_tasks(loaders, owner, finer(lod), child_position(lod_position, 0, 0), first_handle);
        let tb = grown_tasks(
            loaders,
            owner,
            finer(lod),
            child_position(lod_position, 1, 0),
            first_handle + ta.len(),
        );
        let tc = grown_tasks(
            loaders,
            owner,
            finer(lod),
            child_position(lod_position, 0, 1),
            first_handle + ta.len() + tb.len(),
        );
        TreeModel::Branch(
            Box::new(
                grown(
                    loaders,
                    owner,
                    finer(lod),
                    child_position(lod_position, 0, 0),
                    Seq::empty(),
                    first_handle,
                ),
            ),
            Box::new(
                grown(
                    loaders,
                    owner,
                    finer(lod),
                    child_position(lod_position, 1, 0),
                    Seq::empty(),
                    first_handle + ta.len(),
                ),
            ),
            Box::new(
                grown(
                    loaders,
                    owner,
                    finer(lod),
                    child_position(lod_position, 0, 1),
                    Seq::empty(),
                    first_handle + ta.len() + tb.len(),
                ),
            ),
            Box::new(
                grown(
                    loaders,
                    owner,
                    finer(lod),
                    child_position(lod_position, 1, 1),
                    Seq::empty(),
                    first_handle + ta.len() + tb.len() + tc.len(),
                ),
            ),
            0,
            pending,
        )
    } else {
        TreeModel::Leaf(seq![Slab { height: 0, handle: first_handle as u64 }], pending)
    }
}

/// Growing a tree makes at least one request and no more than the tree can have leaves.
pub proof fn lemma_grown_tasks_len(
    loaders: Seq<LoaderPosition>,
    owner: IVec2,
    lod: ChunkLod,
    lod_position: IVec2,
    first_handle: int,
)
    ensures
        1 <= grown_tasks(loaders, owner, lod, lod_position, first_handle).len() <= leaf_capacity(lod),
    decreases lod.level(),
{
    if split_wanted(loaders, owner, lod, lod_position) {
        let f = finer(lod);
        let a = grown_tasks(loaders, owner, f, child_position(lod_position, 0, 0), first_handle);
        lemma_grown_tasks_len(loaders, owner, f, child_position(lod_position, 0, 0), first_handle);
        let b = grown_tasks(loaders, owner, f, child_position(lod_position, 1, 0), first_handle + a.len());
        lemma_grown_tasks_len(loaders, owner, f, child_position(lod_position, 1, 0), first_handle + a.len());
        let c = grown_tasks(
            loaders,
            owner,
            f,
            child_position(lod_position, 0, 1),
            first_handle + a.len() + b.len(),
        );
        lemma_grown_tasks_len(
            loaders,
            owner,
            f,
            child_position(lod_position, 0, 1),
            first_handle + a.len() + b.len(),
        );
        lemma_grown_tasks_len(
            loaders,
            owner,
            f,
            child_position(lod_position, 1, 1),
            first_handle + a.len() + b.len() + c.len(),
        );
        assert(leaf_capacity(lod) == 4 * leaf_capacity(f));
    }
}

/// Grows the tree of the chunk of level `current_lod` at `current_lod_pos`
/// of the root chunk `owner_chunk_pos`: four finer trees where an observer
/// is near enough, else a leaf whose lowest slab is requested.
pub fn generate_quad_tree_chunk(
    current_lod: ChunkLod,
    current_lod_pos: IVec2,
    owner_chunk_pos: IVec2,
    loaders: &Vec<LoaderPosition>,
    tasks: &mut TaskList,
    despawn_entities: Vec<u64>,
) -> (tree: ChunkTree)
    requires
        current_lod.level() <= MAX_LOD.level(),
        -OWNER_LIMIT <= owner_chunk_pos.x <= OWNER_LIMIT,
        -OWNER_LIMIT <= owner_chunk_pos.y <= OWNER_LIMIT,
        0 <= current_lod_pos.x < current_lod.inverse_multiplier(),
        0 <= current_lod_pos.y < current_lod.inverse_multiplier(),
        old(tasks).next_handle + leaf_capacity(current_lod) <= u64::MAX,
    ensures
        tree@ == grown(
            loaders@,
            owner_chunk_pos,
            current_lod,
            current_lod_pos,
            despawn_entities@,
            old(tasks).next_handle as int,
        ),
        final(tasks).requests@ == old(tasks).requests@ + grown_tasks(
            loaders@,
            owner_chunk_pos,
            current_lod,
            current_lod_pos,
            old(tasks).next_handle as int,
        ),
        final(tasks).next_handle == old(tasks).next_handle + grown_tasks(
            loaders@,
            owner_chunk_pos,
            current_lod,
            current_lod_pos,
            old(tasks).next_handle as int,
        ).len(),
    decreases current_lod.level(),
{
    let ghost first = tasks.next_handle as int;
    let ghost before = tasks.requests@;
    if should_divide(loaders, owner_chunk_pos, current_lod, current_lod_pos) {
        let previous = current_lod.previous();
        assert(previous == finer(current_lod));
        proof {
            assert(leaf_capacity(current_lod) == 4 * leaf_capacity(previous));
            lemma_grown_tasks_len(loaders@, owner_chunk_pos, previous, child_position(current_lod_pos, 0, 0), first);
        }
        let x2 = current_lod_pos.x * 2;
        let z2 = current_lod_pos.y * 2;
        let a = generate_quad_tree_chunk(
            previous,
            IVec2 { x: x2, y: z2 },
            owner_chunk_pos,
            loaders,
            tasks,
            Vec::new(),
        );
        let ghost ta = grown_tasks(loaders@, owner_chunk_pos, previous, child_position(current_lod_pos, 0, 0), first);
        proof {
            lemma_grown_tasks_len(
                loaders@,
                owner_chunk_pos,
                previous,
                child_position(current_lod_pos, 1, 0),
                first + ta.len(),
            );
        }
        let b = generate_quad_tree_chunk(
            previous,
            IVec2 { x: x2 + 1, y: z2 },
            owner_chunk_pos,
            loaders,
            tasks,
            Vec::new(),
        );
        let ghost tb = grown_tasks(
            loaders@,
            owner_chunk_pos,
            previous,
            child_position(current_lod_pos, 1, 0),
            first + ta.len(),
        );
        proof {
            lemma_grown_tasks_len(
                loaders@,
                owner_chunk_pos,
                previous,
                child_position(current_lod_pos, 0, 1),
                first + ta.len() + tb.len(),
            );
        }
        let c = generate_quad_tree_chunk(
            previous,
            IVec2 { x: x2, y: z2 + 1 },
            owner_chunk_pos,
            loaders,
            tasks,
            Vec::new(),
        );
        let ghost tc = grown_tasks(
            loaders@,
            owner_chunk_pos,
            previous,
            child_position(current_lod_pos, 0, 1),
            first + ta.len() + tb.len(),
        );
        proof {
            lemma_grown_tasks_len(
                loaders@,
                owner_chunk_pos,
                previous,
                child_position(current_lod_pos, 1, 1),
                first + ta.len() + tb.len() + tc.len(),
            );
        }
        let d = generate_quad_tree_chunk(
            previous,
            IVec2 { x: x2 + 1, y: z2 + 1 },
            owner_chunk_pos,
            loaders,
            tasks,
            Vec::new(),
        );
        proof {
            let td = grown_tasks(
                loaders@,
                owner_chunk_pos,
                previous,
                child_position(current_lod_pos, 1, 1),
                first + ta.len() + tb.len() + tc.len(),
            );
            assert(tasks.requests@ =~= before + (ta + tb + tc + td));
        }
        return QuadTreeNode::Node(Box::new(a), Box::new(b), Box::new(c), Box::new(d), 0, despawn_entities);
    }
    let handle = tasks.next_handle;
    tasks.requests.push(
        ChunkTaskGenerator {
            parent_pos: owner_chunk_pos,
            lod: current_lod,
            lod_position: current_lod_pos,
            height: 0,
            handle,
        },
    );
    tasks.next_handle = handle + 1;
    let mut slabs: Vec<Slab> = Vec::new();
    slabs.push(Slab { height: 0, handle });
    proof {
        assert(slabs@ =~= seq![Slab { height: 0, handle }]);
        assert(tasks.requests@ =~= before + grown_tasks(
            loaders@,
            owner_chunk_pos,
            current_lod,
            current_lod_pos,
            first,
        ));
    }
    QuadTreeNode::Data(slabs, despawn_entities)
}

/// Appends every handle that `node` holds to `out`.
fn append_entities(node: &ChunkTree, out: &mut Vec<u64>)
    ensures
        final(out)@ == old(out)@ + entities_of(node@),
    decreases node,
{
    match node {
        QuadTreeNode::Data(slabs, pending) => {
            let mut i: usize = 0;
            while i < slabs.len()
                invariant
                    i <= slabs@.len(),
                    out@ == old(out)@ + slab_handles(slabs@).take(i as int),
                decreases slabs@.len() - i,
            {
                out.push(slabs[i].handle);
                proof {
                    assert(slab_handles(slabs@).take(i + 1) =~= slab_handles(slabs@).take(i as int).push(
                        slabs@[i as int].handle,
                    ));
                    assert(out@ =~= old(out)@ + slab_handles(slabs@).take(i + 1));
                }
                i += 1;
            }
            let ghost middle = out@;
            let mut j: usize = 0;
            while j < pending.len()
                invariant
                    j <= pending@.len(),
                    out@ == middle + pending@.take(j as int),
                decreases pending@.len() - j,
            {
                out.push(pending[j]);
                proof {
                    assert(pending@.take(j + 1) =~= pending@.take(j as int).push(pending@[j as int]));
                    assert(out@ =~= middle + pending@.take(j + 1));
                }
                j += 1;
            }
            proof {
                assert(slab_handles(slabs@).take(slabs@.len() as int) =~= slab_handles(slabs@));
                assert(pending@.take(pending@.len() as int) =~= pending@);
                assert(out@ =~= old(out)@ + (slab_handles(slabs@) + pending@));
            }
        },
        QuadTreeNode::Node(a, b, c, d, _, pending) => {
            append_entities(&**a, out);
            append_entities(&**b, out);
            append_entities(&**c, out);
            append_entities(&**d, out);
            let ghost middle = out@;
            let mut j: usize = 0;
            while j < pending.len()
                invariant
                    j <= pending@.len(),
                    out@ == middle + pending@.take(j as int),
                decreases pending@.len() - j,
            {
                out.push(pending[j]);
                proof {
                    assert(pending@.take(j + 1) =~= pending@.take(j as int).push(pending@[j as int]));
                    assert(out@ =~= middle + pending@.take(j + 1));
                }
                j += 1;
            }
            proof {
                assert(pending@.take(pending@.len() as int) =~= pending@);
                assert(out@ =~= old(out)@ + (entities_of(a@) + entities_of(b@)
                    + entities_of(c@) + entities_of(d@) + pending@));
            }
        },
    }
}

/// Collects every handle that a tree holds.
pub fn get_entities_recursive(current_node: &ChunkTree) -> (entities: Vec<u64>)
    ensures
        entities@ == entities_of(current_node@),
{
    let mut out: Vec<u64> = Vec::new();
    append_entities(current_node, &mut out);
    assert(out@ =~= entities_of(current_node@));
    out
}

/// Whether a handle stays on the list of what is pending when a node is
/// replaced: what it names is a finished chunk, which stays visible until
/// the replacement is finished, or it is gone already. Anything else is an
/// unfinished request, which is withdrawn at once.
pub open spec fn is_kept(handle: u64, generated: Set<u64>, alive: Set<u64>) -> bool {
    generated.contains(handle) || !alive.contains(handle)
}

/// The handles of `entities` that stay pending, in their order.
pub open spec fn kept_entities(entities: Seq<u64>, generated: Set<u64>, alive: Set<u64>) -> Seq<u64>
    decreases entities.len(),
{
    if entities.len() == 0 {
        Seq::empty()
    } else {
        let rest = kept_entities(entities.drop_last(), generated, alive);
        if is_kept(entities.last(), generated, alive) {
            rest.push(entities.last())
        } else {
            rest
        }
    }
}

/// The handles of `entities` that are withdrawn at once, in their order.
pub open spec fn removed_entities(entities: Seq<u64>, generated: Set<u64>, alive: Set<u64>) -> Seq<u64>
    decreases entities.len(),
{
    if entities.len() == 0 {
        Seq::empty()
    } else {
        let rest = removed_entities(entities.drop_last(), generated, alive);
        if is_kept(entities.last(), generated, alive) {
            rest
        } else {
            rest.push(entities.last())
        }
    }
}

/// Parts the handles of a node that is being replaced into those that stay
/// pending, which are returned, and those to withdraw at once, which are
/// appended to `despawn`.
pub fn check_entities_for_deletion(
    entities: Vec<u64>,
    generated: &HashSet<u64>,
    alive: &HashSet<u64>,
    despawn: &mut Vec<u64>,
) -> (kept: Vec<u64>)
    ensures
        kept@ == kept_entities(entities@, generated@, alive@),
        final(despawn)@ == old(despawn)@ + removed_entities(entities@, generated@, alive@),
{
    let mut new_entities: Vec<u64> = Vec::new();
    let mut i: usize = 0;
    while i < entities.len()
        invariant
            i <= entities@.len(),
            new_entities@ == kept_entities(entities@.take(i as int), generated@, alive@),
            despawn@ == old(despawn)@ + removed_entities(entities@.take(i as int), generated@, alive@),
        decreases entities@.len() - i,
    {
        let entity = entities[i];
        proof {
            assert(entities@.take(i + 1).drop_last() =~= entities@.take(i as int));
            assert(entities@.take(i + 1).last() == entity);
        }
        if generated.contains(&entity) {
            new_entities.push(entity);
        } else {
            if alive.contains(&entity) {
                despawn.push(entity);
                proof {
                    assert(despawn@ =~= old(despawn)@ + removed_entities(
                        entities@.take(i + 1),
                        generated@,
                        alive@,
                    ));
                }
            } else {
                new_entities.push(entity);
            }
        }
        i += 1;
    }
    proof {
        assert(entities@.take(entities@.len() as int) =~= entities@);
    }
    new_entities
}

/// What refining a tree comes to: the new tree, the requests made, and the
/// handles to withdraw at once.
pub ghost struct Upgrade {
    pub tree: ChunkModel,
    pub tasks: Seq<ChunkTaskGenerator>,
    pub despawn: Seq<u64>,
}

/// Refining the tree `node` of the chunk of level `lod` at `lod_position`.
///
/// A leaf that needs no split and a branch that needs to stay split keep
/// their shape; the branch's children are refined in turn. A leaf that is to
/// be split and a branch that is to merge are grown anew, and what they held
/// stays pending in place of the new node as far as it is kept.
#[verifier::opaque]
pub open spec fn upgraded(
    node: ChunkModel,
    loaders: Seq<LoaderPosition>,
    owner: IVec2,
    lod: ChunkLod,
    lod_position: IVec2,
    generated: Set<u64>,
    alive: Set<u64>,
    first_handle: int,
) -> Upgrade
    decreases node,
{
    let split = split_wanted(loaders, owner, lod, lod_position);
    match node {
        TreeModel::Leaf(_, _) if !split => Upgrade { tree: node, tasks: Seq::empty(), despawn: Seq::empty() },
        TreeModel::Branch(a, b, c, d, finished, pending) if split => {
            let ua = upgraded(
                *a,
                loaders,
                owner,
                finer(lod),
                child_position(lod_position, 0, 0),
                generated,
                alive,
                first_handle,
            );
            let ub = upgraded(
                *b,
                loaders,
                owner,
                finer(lod),
                child_position(lod_position, 1, 0),
                generated,
                alive,
                first_handle + ua.tasks.len(),
            );
            let uc = upgraded(
                *c,
                loaders,
                owner,
                finer(lod),
                child_position(lod_position, 0, 1),
                generated,
                alive,
                first_handle + ua.tasks.len() + ub.tasks.len(),
            );
            let ud = upgraded(
                *d,
                loaders,
                owner,
                finer(lod),
                child_position(lod_position, 1, 1),
                generated,
                alive,
                first_handle + ua.tasks.len() + ub.tasks.len() + uc.tasks.len(),
            );
            Upgrade {
                tree: TreeModel::Branch(
                    Box::new(ua.tree),
                    Box::new(ub.tree),
                    Box::new(uc.tree),
                    Box::new(ud.tree),
                    finished,
                    pending,
                ),
                tasks: ua.tasks + ub.tasks + uc.tasks + ud.tasks,
                despawn: ua.despawn + ub.despawn + uc.despawn + ud.despawn,
            }
        },
        _ => Upgrade {
            tree: grown(
                loaders,
                owner,
                lod,
                lod_position,
                kept_entities(entities_of(node), generated, alive),
                first_handle,
            ),
            tasks: grown_tasks(loaders, owner, lod, lod_position, first_handle),
            despawn: removed_entities(entities_of(node), generated, alive),
        },
    }
}

/// Refining a tree makes no more requests than the tree can have leaves.
pub proof fn lemma_upgraded_tasks_len(
    node: ChunkModel,
    loaders: Seq<LoaderPosition>,
    owner: IVec2,
    lod: ChunkLod,
    lod_position: IVec2,
    generated: Set<u64>,
    alive: Set<u64>,
    first_handle: int,
)
    ensures
        upgraded(node, loaders, owner, lod, lod_position, generated, alive, first_handle).tasks.len()
            <= leaf_capacity(lod),
    decreases node,
{
    reveal(upgraded);
    let split = split_wanted(loaders, owner, lod, lod_position);
    match node {
        TreeModel::Leaf(_, _) if !split => {},
        TreeModel::Branch(a, b, c, d, finished, pending) if split => {
            let f = finer(lod);
            let ua = upgraded(*a, loaders, owner, f, child_position(lod_position, 0, 0), generated, alive, first_handle);
            lemma_upgraded_tasks_len(*a, loaders, owner, f, child_position(lod_position, 0, 0), generated, alive, first_handle);
            let ub = upgraded(*b, loaders, owner, f, child_position(lod_position, 1, 0), generated, alive, first_handle + ua.tasks.len());
            lemma_upgraded_tasks_len(*b, loaders, owner, f, child_position(lod_position, 1, 0), generated, alive, first_handle + ua.tasks.len());
            let uc = upgraded(*c, loaders, owner, f, child_position(lod_position, 0, 1), generated, alive, first_handle + ua.tasks.len() + ub.tasks.len());
            lemma_upgraded_tasks_len(*c, loaders, owner, f, child_position(lod_position, 0, 1), generated, alive, first_handle + ua.tasks.len() + ub.tasks.len());
            lemma_upgraded_tasks_len(*d, loaders, owner, f, child_position(lod_position, 1, 1), generated, alive, first_handle + ua.tasks.len() + ub.tasks.len() + uc.tasks.len());
            assert(leaf_capacity(lod) == 4 * leaf_capacity(f));
        },
        _ => {
            lemma_grown_tasks_len(loaders, owner, lod, lod_position, first_handle);
        },
    }
}

/// Refining leaves a leaf that needs no split as it is.
proof fn lemma_upgraded_kept(
    node: ChunkModel,
    loaders: Seq<LoaderPosition>,
    owner: IVec2,
    lod: ChunkLod,
    lod_position: IVec2,
    generated: Set<u64>,
    alive: Set<u64>,
    first_handle: int,
)
    requires
        node is Leaf,
        !split_wanted(loaders, owner, lod, lod_position),
    ensures
        upgraded(node, loaders, owner, lod, lod_position, generated, alive, first_handle) == (Upgrade {
            tree: node,
            tasks: Seq::empty(),
            despawn: Seq::empty(),
        }),
{
    reveal(upgraded);
}

/// Refining a branch that stays split refines its four children in turn.
proof fn lemma_upgraded_split(
    node: ChunkModel,
    loaders: Seq<LoaderPosition>,
    owner: IVec2,
    lod: ChunkLod,
    lod_position: IVec2,
    generated: Set<u64>,
    alive: Set<u64>,
    first_handle: int,
)
    requires
        node is Branch,
        split_wanted(loaders, owner, lod, lod_position),
    ensures
        ({
            let ua = upgraded(
                *node->Branch_0,
                loaders,
                owner,
                finer(lod),
                child_position(lod_position, 0, 0),
                generated,
                alive,
                first_handle,
            );
            let ub = upgraded(
                *node->Branch_1,
                loaders,
                owner,
                finer(lod),
                child_position(lod_position, 1, 0),
                generated,
                alive,
                first_handle + ua.tasks.len(),
            );
            let uc = upgraded(
                *node->Branch_2,
                loaders,
                owner,
                finer(lod),
                child_position(lod_position, 0, 1),
                generated,
                alive,
                first_handle + ua.tasks.len() + ub.tasks.len(),
            );
            let ud = upgraded(
                *node->Branch_3,
                loaders,
                owner,
                finer(lod),
                child_position(lod_position, 1, 1),
                generated,
                alive,
                first_handle + ua.tasks.len() + ub.tasks.len() + uc.tasks.len(),
            );
            upgraded(node, loaders, owner, lod, lod_position, generated, alive, first_handle) == (Upgrade {
                tree: TreeModel::Branch(
                    Box::new(ua.tree),
                    Box::new(ub.tree),
                    Box::new(uc.tree),
                    Box::new(ud.tree),
                    node->Branch_4,
                    node->Branch_5,
                ),
                tasks: ua.tasks + ub.tasks + uc.tasks + ud.tasks,
                despawn: ua.despawn + ub.despawn + uc.despawn + ud.despawn,
            })
        }),
{
    reveal(upgraded);
}

/// Refining a leaf that is to be split, or a branch that is to merge,
/// grows the node anew.
proof fn lemma_upgraded_regrown(
    node: ChunkModel,
    loaders: Seq<LoaderPosition>,
    owner: IVec2,
    lod: ChunkLod,
    lod_position: IVec2,
    generated: Set<u64>,
    alive: Set<u64>,
    first_handle: int,
)
    requires
        (node is Leaf) == split_wanted(loaders, owner, lod, lod_position),
    ensures
        upgraded(node, loaders, owner, lod, lod_position, generated, alive, first_handle) == (Upgrade {
            tree: grown(
                loaders,
                owner,
                lod,
                lod_position,
                kept_entities(entities_of(node), generated, alive),
                first_handle,
            ),
            tasks: grown_tasks(loaders, owner, lod, lod_position, first_handle),
            despawn: removed_entities(entities_of(node), generated, alive),
        }),
{
    reveal(upgraded);
}

/// Copies a list of handles.
fn copy_handles(handles: &Vec<u64>) -> (copy: Vec<u64>)
    ensures
        copy@ == handles@,
{
    let mut copy: Vec<u64> = Vec::new();
    let mut i: usize = 0;
    while i < handles.len()
        invariant
            i <= handles@.len(),
            copy@ == handles@.take(i as int),
        decreases handles@.len() - i,
    {
        copy.push(handles[i]);
        proof {
            assert(handles@.take(i + 1) =~= handles@.take(i as int).push(handles@[i as int]));
        }
        i += 1;
    }
    proof {
        assert(handles@.take(handles@.len() as int) =~= handles@);
    }
    copy
}

/// Copies a column of slabs.
fn copy_slabs(slabs: &Vec<Slab>) -> (copy: Vec<Slab>)
    ensures
        copy@ == slabs@,
{
    let mut copy: Vec<Slab> = Vec::new();
    let mut i: usize = 0;
    while i < slabs.len()
        invariant
            i <= slabs@.len(),
            copy@ == slabs@.take(i as int),
        decreases slabs@.len() - i,
    {
        copy.push(slabs[i]);
        proof {
            assert(slabs@.take(i + 1) =~= slabs@.take(i as int).push(slabs@[i as int]));
        }
        i += 1;
    }
    proof {
        assert(slabs@.take(slabs@.len() as int) =~= slabs@);
    }
    copy
}

/// Refines the tree of a chunk after observers have moved: splits leaves
/// that an observer has come near, merges branches that all observers have
/// left, and leaves the rest as it is. New requests go to `tasks`; handles
/// of requests that are withdrawn go to `despawn`.
#[verifier::rlimit(50)]
pub fn upgrade_tree_recursion(
    current_node: &ChunkTree,
    current_lod: ChunkLod,
    current_lod_pos: IVec2,
    owner_chunk_pos: IVec2,
    loaders: &Vec<LoaderPosition>,
    generated: &HashSet<u64>,
    alive: &HashSet<u64>,
    tasks: &mut TaskList,
    despawn: &mut Vec<u64>,
) -> (tree: ChunkTree)
    requires
        current_lod.level() <= MAX_LOD.level(),
        -OWNER_LIMIT <= owner_chunk_pos.x <= OWNER_LIMIT,
        -OWNER_LIMIT <= owner_chunk_pos.y <= OWNER_LIMIT,
        0 <= current_lod_pos.x < current_lod.inverse_multiplier(),
        0 <= current_lod_pos.y < current_lod.inverse_multiplier(),
        old(tasks).next_handle + leaf_capacity(current_lod) <= u64::MAX,
    ensures
        ({
            let up = upgraded(
                current_node@,
                loaders@,
                owner_chunk_pos,
                current_lod,
                current_lod_pos,
                generated@,
                alive@,
                old(tasks).next_handle as int,
            );
            &&& tree@ == up.tree
            &&& final(tasks).requests@ == old(tasks).requests@ + up.tasks
            &&& final(tasks).next_handle == old(tasks).next_handle + up.tasks.len()
            &&& final(despawn)@ == old(despawn)@ + up.despawn
        }),
    decreases current_node,
{
    let ghost first = tasks.next_handle as int;
    let ghost requests_before = tasks.requests@;
    let ghost despawn_before = despawn@;
    let divide = should_divide(loaders, owner_chunk_pos, current_lod, current_lod_pos);
    match current_node {
        QuadTreeNode::Data(children, entities) => {
            if !divide {
                let tree = QuadTreeNode::Data(copy_slabs(children), copy_handles(entities));
                proof {
                    lemma_upgraded_kept(
                        current_node@,
                        loaders@,
                        owner_chunk_pos,
                        current_lod,
                        current_lod_pos,
                        generated@,
                        alive@,
                        first,
                    );
                    assert(tasks.requests@ =~= requests_before + Seq::<ChunkTaskGenerator>::empty());
                    assert(despawn@ =~= despawn_before + Seq::<u64>::empty());
                }
                return tree;
            }
        },
        QuadTreeNode::Node(a, b, c, d, finished, entities) => {
            if divide {
                let previous = current_lod.previous();
                assert(previous == finer(current_lod));
                let x2 = current_lod_pos.x * 2;
                let z2 = current_lod_pos.y * 2;
                let ghost f = finer(current_lod);
                let ghost ua = upgraded(a@, loaders@, owner_chunk_pos, f, child_position(current_lod_pos, 0, 0), generated@, alive@, first);
                let ghost ub = upgraded(b@, loaders@, owner_chunk_pos, f, child_position(current_lod_pos, 1, 0), generated@, alive@, first + ua.tasks.len());
                let ghost uc = upgraded(c@, loaders@, owner_chunk_pos, f, child_position(current_lod_pos, 0, 1), generated@, alive@, first + ua.tasks.len() + ub.tasks.len());
                let ghost ud = upgraded(d@, loaders@, owner_chunk_pos, f, child_position(current_lod_pos, 1, 1), generated@, alive@, first + ua.tasks.len() + ub.tasks.len() + uc.tasks.len());
                proof {
                    lemma_upgraded_split(
                        current_node@,
                        loaders@,
                        owner_chunk_pos,
                        current_lod,
                        current_lod_pos,
                        generated@,
                        alive@,
                        first,
                    );
                    assert(leaf_capacity(current_lod) == 4 * leaf_capacity(previous));
                    lemma_upgraded_tasks_len(a@, loaders@, owner_chunk_pos, f, child_position(current_lod_pos, 0, 0), generated@, alive@, first);
                    lemma_upgraded_tasks_len(b@, loaders@, owner_chunk_pos, f, child_position(current_lod_pos, 1, 0), generated@, alive@, first + ua.tasks.len());
                    lemma_upgraded_tasks_len(c@, loaders@, owner_chunk_pos, f, child_position(current_lod_pos, 0, 1), generated@, alive@, first + ua.tasks.len() + ub.tasks.len());
                    lemma_upgraded_tasks_len(d@, loaders@, owner_chunk_pos, f, child_position(current_lod_pos, 1, 1), generated@, alive@, first + ua.tasks.len() + ub.tasks.len() + uc.tasks.len());
                }
                let na = upgrade_tree_recursion(&**a, previous, IVec2 { x: x2, y: z2 }, owner_chunk_pos, loaders, generated, alive, tasks, despawn);
                let nb = upgrade_tree_recursion(&**b, previous, IVec2 { x: x2 + 1, y: z2 }, owner_chunk_pos, loaders, generated, alive, tasks, despawn);
                let nc = upgrade_tree_recursion(&**c, previous, IVec2 { x: x2, y: z2 + 1 }, owner_chunk_pos, loaders, generated, alive, tasks, despawn);
                let nd = upgrade_tree_recursion(&**d, previous, IVec2 { x: x2 + 1, y: z2 + 1 }, owner_chunk_pos, loaders, generated, alive, tasks, despawn);
                proof {
                    assert(tasks.requests@ =~= requests_before + (ua.tasks + ub.tasks + uc.tasks + ud.tasks));
                    assert(despawn@ =~= despawn_before + (ua.despawn + ub.despawn + uc.despawn + ud.despawn));
                }
                return QuadTreeNode::Node(
                    Box::new(na),
                    Box::new(nb),
                    Box::new(nc),
                    Box::new(nd),
                    *finished,
                    copy_handles(entities),
                );
            }
        },
    }
    proof {
        lemma_upgraded_regrown(
            current_node@,
            loaders@,
            owner_chunk_pos,
            current_lod,
            current_lod_pos,
            generated@,
            alive@,
            first,
        );
    }
    let entities = get_entities_recursive(current_node);
    let kept = check_entities_for_deletion(entities, generated, alive, despawn);
    generate_quad_tree_chunk(current_lod, current_lod_pos, owner_chunk_pos, loaders, tasks, kept)
}

/// The place of the first slab with number `height` at or after place
/// `from` of a column; the column's length if there is none.
pub open spec fn slab_position(slabs: Seq<Slab>, height: i32, from: int) -> int
    decreases slabs.len() - from,
{
    if from >= slabs.len() {
        slabs.len() as int
    } else if slabs[from].height == height {
        from
    } else {
        slab_position(slabs, height, from + 1)
    }
}

/// The column with `slab` put in: in place of the first slab with the same
/// number, or at the end if the column has no slab with that number yet.
pub open spec fn slabs_with(slabs: Seq<Slab>, slab: Slab) -> Seq<Slab> {
    let at = slab_position(slabs, slab.height, 0);
    if at < slabs.len() {
        slabs.update(at, slab)
    } else {
        slabs.push(slab)
    }
}

/// Puts a slab into a column, in place of one with the same number if there is one.
pub fn insert_slab(slabs: &mut Vec<Slab>, slab: Slab)
    ensures
        final(slabs)@ == slabs_with(old(slabs)@, slab),
{
    let mut i: usize = 0;
    while i < slabs.len()
        invariant
            i <= slabs@.len(),
            slabs@ == old(slabs)@,
            slab_position(slabs@, slab.height, 0) == slab_position(slabs@, slab.height, i as int),
        decreases slabs@.len() - i,
    {
        if slabs[i].height == slab.height {
            slabs.set(i, slab);
            return ;
        }
        i += 1;
    }
    slabs.push(slab);
}

/// What the arrival of a generated chunk comes to: the new tree, the
/// requests made, the handles to withdraw, and whether the tree still had a
/// node for the chunk.
pub ghost struct Applied {
    pub tree: ChunkModel,
    pub tasks: Seq<ChunkTaskGenerator>,
    pub despawn: Seq<u64>,
    pub found: bool,
}

/// How deep in its tree a chunk of level `lod` lies.
pub open spec fn depth_of(lod: ChunkLod) -> int {
    MAX_LOD.level() - lod.level()
}

/// The arrival of the chunk of level `lod` at `lod_position`, slab number
/// `chunk_height`, in the tree of its root chunk.
///
/// If the tree has no node there any more, nothing happens. If the chunks
/// go on above this one, the leaf gets the next slab and a request for it.
/// Otherwise the column is finished: what was pending in place of the leaf
/// is to go, and the leaf reports to the branch above it.
pub open spec fn applied(
    tree: ChunkModel,
    parent_pos: IVec2,
    lod: ChunkLod,
    lod_position: IVec2,
    chunk_height: i32,
    generate_above: bool,
    first_handle: u64,
) -> Applied {
    let depth = depth_of(lod);
    let unchanged = Applied { tree, tasks: Seq::empty(), despawn: Seq::empty(), found: false };
    if !in_tree(depth, lod_position) {
        unchanged
    } else {
        match tree.node_at(depth, lod_position) {
            None => unchanged,
            Some(node) => if generate_above {
                match node {
                    TreeModel::Leaf(slabs, pending) => Applied {
                        tree: tree.with_node(
                            depth,
                            lod_position,
                            TreeModel::Leaf(
                                slabs_with(
                                    slabs,
                                    Slab { height: (chunk_height + 1) as i32, handle: first_handle },
                                ),
                                pending,
                            ),
                        ),
                        tasks: seq![
                            ChunkTaskGenerator {
                                parent_pos,
                                lod,
                                lod_position,
                                height: (chunk_height + 1) as i32,
                                handle: first_handle,
                            },
                        ],
                        despawn: Seq::empty(),
                        found: true,
                    },
                    _ => Applied { found: true, ..unchanged },
                }
            } else {
                let cleared = match node {
                    TreeModel::Leaf(slabs, _) => tree.with_node(
                        depth,
                        lod_position,
                        TreeModel::Leaf(slabs, Seq::empty()),
                    ),
                    _ => tree,
                };
                let gone = match node {
                    TreeModel::Leaf(_, pending) => pending,
                    _ => Seq::empty(),
                };
                let after = cleared.reported(depth, lod_position);
                Applied { tree: after.0, tasks: Seq::empty(), despawn: gone + after.1, found: true }
            },
        }
    }
}

/// Takes a generated chunk into the tree of its root chunk. New requests
/// go to `tasks`; handles of what is to go are appended to `despawn`.
/// Returns whether the tree still had a node for the chunk.
pub fn set_generated_chunk(
    tree: &mut ChunkTree,
    parent_pos: IVec2,
    lod: ChunkLod,
    lod_position: IVec2,
    chunk_height: i32,
    generate_above: bool,
    tasks: &mut TaskList,
    despawn: &mut Vec<u64>,
) -> (found: bool)
    requires
        lod.level() <= MAX_LOD.level(),
        chunk_height < i32::MAX,
        old(tasks).next_handle < u64::MAX,
    ensures
        ({
            let result = applied(
                old(tree)@,
                parent_pos,
                lod,
                lod_position,
                chunk_height,
                generate_above,
                old(tasks).next_handle,
            );
            &&& found == result.found
            &&& final(tree)@ == result.tree
            &&& final(tasks).requests@ == old(tasks).requests@ + result.tasks
            &&& final(tasks).next_handle == old(tasks).next_handle + result.tasks.len()
            &&& final(despawn)@ == old(despawn)@ + result.despawn
        }),
{
    let tree_depth: i32 = MAX_LOD.i32() - lod.i32();
    let width = lod.inverse_multiplier_i32();
    proof {
        lemma2_to64();
        assert(width == pow2(tree_depth as nat));
    }
    if lod_position.x < 0 || lod_position.y < 0 || lod_position.x >= width || lod_position.y >= width {
        proof {
            assert(tasks.requests@ =~= old(tasks).requests@ + Seq::<ChunkTaskGenerator>::empty());
            assert(despawn@ =~= old(despawn)@ + Seq::<u64>::empty());
        }
        return false;
    }
    let ghost start = tree@;
    let ghost mut gone: Seq<u64> = Seq::empty();
    let ghost mut node_before: ChunkModel = tree@;
    let ghost mut node_after: ChunkModel = tree@;
    let mut found = false;
    match tree.get_node_mut(tree_depth, lod_position) {
        None => {},
        Some(node) => {
            found = true;
            proof {
                node_before = node@;
            }
            match node {
                QuadTreeNode::Data(slabs, pending) => {
                    if generate_above {
                        let new_height = chunk_height + 1;
                        let handle = tasks.next_handle;
                        tasks.requests.push(
                            ChunkTaskGenerator { parent_pos, lod, lod_position, height: new_height, handle },
                        );
                        tasks.next_handle = handle + 1;
                        insert_slab(slabs, Slab { height: new_height, handle });
                    } else {
                        let mut i: usize = 0;
                        while i < pending.len()
                            invariant
                                i <= pending@.len(),
                                despawn@ == old(despawn)@ + pending@.take(i as int),
                            decreases pending@.len() - i,
                        {
                            despawn.push(pending[i]);
                            proof {
                                assert(pending@.take(i + 1) =~= pending@.take(i as int).push(
                                    pending@[i as int],
                                ));
                                assert(despawn@ =~= old(despawn)@ + pending@.take(i + 1));
                            }
                            i += 1;
                        }
                        proof {
                            assert(pending@.take(pending@.len() as int) =~= pending@);
                            gone = pending@;
                        }
                        pending.clear();
                    }
                    proof {
                        node_after = TreeModel::Leaf(slabs@, pending@);
                    }
                },
                QuadTreeNode::Node(_, _, _, _, _, _) => {
                    proof {
                        node_after = node_before;
                    }
                },
            }
        },
    }
    if !found {
        proof {
            assert(tasks.requests@ =~= old(tasks).requests@ + Seq::<ChunkTaskGenerator>::empty());
            assert(despawn@ =~= old(despawn)@ + Seq::<u64>::empty());
        }
        return false;
    }
    assert(start.node_at(tree_depth as int, lod_position) == Some(node_before));
    assert(tree@ == start.with_node(tree_depth as int, lod_position, node_after));
    if generate_above {
        proof {
            if node_before is Leaf {
                assert(tasks.requests@ =~= old(tasks).requests@ + seq![
                    ChunkTaskGenerator {
                        parent_pos,
                        lod,
                        lod_position,
                        height: (chunk_height + 1) as i32,
                        handle: old(tasks).next_handle,
                    },
                ]);
            } else {
                lemma_with_same_node(start, tree_depth as int, lod_position);
                assert(tasks.requests@ =~= old(tasks).requests@ + Seq::<ChunkTaskGenerator>::empty());
            }
            assert(despawn@ =~= old(despawn)@ + Seq::<u64>::empty());
        }
        return true;
    }
    proof {
        if !(node_before is Leaf) {
            lemma_with_same_node(start, tree_depth as int, lod_position);
            assert(despawn@ =~= old(despawn)@ + Seq::<u64>::empty());
        }
    }
    let ghost cleared = tree@;
    let ghost middle = despawn@;
    tree.add_to_parent(tree_depth, lod_position, despawn);
    proof {
        assert(tasks.requests@ =~= old(tasks).requests@ + Seq::<ChunkTaskGenerator>::empty());
        assert(middle =~= old(despawn)@ + gone);
        assert(despawn@ =~= old(despawn)@ + (gone + cleared.reported(
            tree_depth as int,
            lod_position,
        ).1));
    }
    true
}

/// Putting a node back where it was found leaves the tree as it is.
pub proof fn lemma_with_same_node(tree: ChunkModel, depth: int, position: IVec2)
    requires
        tree.node_at(depth, position).is_some(),
    ensures
        tree.with_node(depth, position, tree.node_at(depth, position).unwrap()) == tree,
    decreases depth,
{
    if depth > 0 {
        let which = crate::world_generation::chunk_loading::quad_tree_data::quadrant(depth, position);
        let inner = crate::world_generation::chunk_loading::quad_tree_data::descend(depth, position);
        lemma_with_same_node(tree.child(which), depth - 1, inner);
    }
}

} // verus!
