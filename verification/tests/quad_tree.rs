use std::collections::HashSet;

use spellhaven::utils::IVec2;
use spellhaven::world_generation::chunk_loading::chunk_loader::{
    get_chunk_position, load_chunks, should_divide, unload_chunks, ChunkLoader, LoaderPosition,
};
use spellhaven::world_generation::chunk_loading::quad_tree_data::{
    half_width, QuadTreeDistinction, QuadTreeNode,
};
use spellhaven::world_generation::chunk_loading::quad_tree_manager::{
    check_entities_for_deletion, generate_quad_tree_chunk, get_entities_recursive, insert_slab,
    set_generated_chunk, upgrade_tree_recursion, ChunkTree, Slab, TaskList,
};
use spellhaven::world_generation::voxel_world::{ChunkLod, QuadTreeVoxelWorld, MAX_LOD};

fn v(x: i32, y: i32) -> IVec2 {
    IVec2 { x, y }
}

fn leaf(tag: i32) -> QuadTreeNode<i32> {
    QuadTreeNode::Data(tag, vec![tag as u64])
}

fn branch(a: QuadTreeNode<i32>, b: QuadTreeNode<i32>, c: QuadTreeNode<i32>, d: QuadTreeNode<i32>) -> QuadTreeNode<i32> {
    QuadTreeNode::Node(Box::new(a), Box::new(b), Box::new(c), Box::new(d), 0, vec![99])
}

fn tag(node: Option<&QuadTreeNode<i32>>) -> Option<i32> {
    match node {
        Some(QuadTreeNode::Data(t, _)) => Some(*t),
        _ => None,
    }
}

fn loader_at(x: i32, y: i32) -> LoaderPosition {
    LoaderPosition { loader: ChunkLoader::default(), chunk: v(x, y) }
}

#[test]
fn children_are_found_by_their_quadrant() {
    // Children come in the order top left, top right (x high), bottom left (y high), bottom right.
    let tree = branch(leaf(0), leaf(1), leaf(2), leaf(3));
    assert_eq!(tag(tree.get_node(1, v(0, 0))), Some(0));
    assert_eq!(tag(tree.get_node(1, v(1, 0))), Some(1));
    assert_eq!(tag(tree.get_node(1, v(0, 1))), Some(2));
    assert_eq!(tag(tree.get_node(1, v(1, 1))), Some(3));
    assert_eq!(QuadTreeDistinction::TopLeft.into(), 0);
    assert_eq!(QuadTreeDistinction::TopRight.into(), 1);
    assert_eq!(QuadTreeDistinction::BottomLeft.into(), 2);
    assert_eq!(QuadTreeDistinction::BottomRight.into(), 3);
}

#[test]
fn deeper_nodes_are_found_bit_by_bit() {
    let inner = branch(leaf(10), leaf(11), leaf(12), leaf(13));
    let tree = branch(leaf(0), inner, leaf(2), leaf(3));
    // Position (3, 1) two levels down: x high at the root, then x high and y high.
    assert_eq!(tag(tree.get_node(2, v(3, 1))), Some(13));
    assert_eq!(tag(tree.get_node(2, v(2, 0))), Some(10));
    assert_eq!(tag(tree.get_node(2, v(2, 1))), Some(12));
    // A leaf has nothing below it.
    assert!(tree.get_node(2, v(0, 0)).is_none());
    assert!(tree.get_node(0, v(0, 0)).is_some());
    // The parent of a node two levels down is the child of the root on the way.
    assert!(matches!(tree.get_parent_node(2, v(3, 1)), Some(QuadTreeNode::Node(..))));
    assert_eq!(tag(tree.get_parent_node(2, v(0, 0))), Some(0));
    assert_eq!(half_width(1), 1);
    assert_eq!(half_width(8), 128);
}

#[test]
fn node_can_be_changed_in_place() {
    let mut tree = branch(leaf(0), leaf(1), leaf(2), leaf(3));
    if let Some(QuadTreeNode::Data(t, _)) = tree.get_node_mut(1, v(1, 1)) {
        *t = 77;
    }
    assert_eq!(tag(tree.get_node(1, v(1, 1))), Some(77));
    assert_eq!(tag(tree.get_node(1, v(0, 1))), Some(2));
}

#[test]
fn fourth_report_completes_a_branch() {
    let mut tree = branch(leaf(0), leaf(1), leaf(2), leaf(3));
    let mut despawn = Vec::new();
    for (i, p) in [v(0, 0), v(1, 0), v(0, 1)].iter().enumerate() {
        tree.add_to_parent(1, *p, &mut despawn);
        assert!(despawn.is_empty());
        assert!(matches!(&tree, QuadTreeNode::Node(_, _, _, _, n, _) if *n == i as i32 + 1));
    }
    tree.add_to_parent(1, v(1, 1), &mut despawn);
    // What was pending in place of the branch goes with the fourth report.
    assert_eq!(despawn, vec![99]);
    assert!(matches!(&tree, QuadTreeNode::Node(_, _, _, _, 4, _)));
    tree.add_to_parent(1, v(1, 1), &mut despawn);
    assert_eq!(despawn, vec![99]);
}

#[test]
fn completed_branch_reports_to_the_branch_above() {
    let inner = QuadTreeNode::Node(
        Box::new(leaf(10)),
        Box::new(leaf(11)),
        Box::new(leaf(12)),
        Box::new(leaf(13)),
        3,
        vec![5, 6],
    );
    let mut tree = branch(leaf(0), inner, leaf(2), leaf(3));
    let mut despawn = Vec::new();
    tree.add_to_parent(2, v(2, 0), &mut despawn);
    assert_eq!(despawn, vec![5, 6]);
    // The inner branch is complete, and the root has counted it.
    assert!(matches!(&tree, QuadTreeNode::Node(_, b, _, _, 1, _)
        if matches!(&**b, QuadTreeNode::Node(_, _, _, _, 4, _))));
}

#[test]
fn far_observer_leaves_the_root_whole() {
    let mut tasks = TaskList { next_handle: 7, requests: Vec::new() };
    let loaders = vec![loader_at(128 * 100, 0)];
    let tree = generate_quad_tree_chunk(MAX_LOD, v(0, 0), v(0, 0), &loaders, &mut tasks, vec![1, 2]);
    match &tree {
        QuadTreeNode::Data(slabs, pending) => {
            assert_eq!(slabs, &vec![Slab { height: 0, handle: 7 }]);
            assert_eq!(pending, &vec![1, 2]);
        }
        _ => panic!("the root was split"),
    }
    assert_eq!(tasks.next_handle, 8);
    assert_eq!(tasks.requests.len(), 1);
    assert_eq!(tasks.requests[0].lod, MAX_LOD);
    assert_eq!(tasks.requests[0].height, 0);
    assert_eq!(tasks.requests[0].parent_pos, v(0, 0));
}

fn leaves(tree: &ChunkTree, lod: ChunkLod, out: &mut Vec<(ChunkLod, u64)>) {
    match tree {
        QuadTreeNode::Data(slabs, _) => out.push((lod, slabs[0].handle)),
        QuadTreeNode::Node(a, b, c, d, _, _) => {
            for child in [a, b, c, d] {
                leaves(child, lod.previous(), out);
            }
        }
    }
}

#[test]
fn near_observer_splits_down_to_the_finest_level() {
    let mut tasks = TaskList { next_handle: 0, requests: Vec::new() };
    let loaders = vec![loader_at(0, 0)];
    let tree = generate_quad_tree_chunk(MAX_LOD, v(0, 0), v(0, 0), &loaders, &mut tasks, Vec::new());
    let mut found = Vec::new();
    leaves(&tree, MAX_LOD, &mut found);
    // Each leaf has one request, in the order of the leaves, with handles counted up.
    assert_eq!(found.len(), tasks.requests.len());
    assert_eq!(tasks.next_handle as usize, found.len());
    for (i, (lod, handle)) in found.iter().enumerate() {
        assert_eq!(*handle, i as u64);
        assert_eq!(tasks.requests[i].lod, *lod);
        assert_eq!(tasks.requests[i].handle, *handle);
    }
    // The observer's own chunk is there at full detail.
    assert!(tasks.requests.iter().any(|r| r.lod == ChunkLod::Full && r.lod_position == v(0, 0)));
    // The leaves tile the root: their areas, in chunks of the finest level, add up.
    let area: i32 = found.iter().map(|(lod, _)| lod.multiplier_i32() * lod.multiplier_i32()).sum();
    assert_eq!(area, 128 * 128);
}

#[test]
fn split_is_decided_by_distance_in_chunks_of_the_level() {
    let loaders = vec![loader_at(128 * 3 + 5, 0)];
    // At the coarsest level the observer is in chunk 3: within range 3 of chunk 0.
    assert!(should_divide(&loaders, v(0, 0), MAX_LOD, v(0, 0)));
    assert!(!should_divide(&loaders, v(-1, 0), MAX_LOD, v(0, 0)));
    assert!(!should_divide(&loaders, v(0, 4), MAX_LOD, v(0, 0)));
    // A chunk of the finest level is never split.
    assert!(!should_divide(&loaders, v(3, 0), ChunkLod::Full, v(5, 0)));
    assert!(!should_divide(&Vec::new(), v(0, 0), MAX_LOD, v(0, 0)));
    assert_eq!(get_chunk_position(v(-1, 255), ChunkLod::OneTwentyEight), v(-1, 1));
    assert_eq!(get_chunk_position(v(-128, 128), ChunkLod::OneTwentyEight), v(-1, 1));
    assert_eq!(get_chunk_position(v(-129, 7), ChunkLod::Quarter), v(-33, 1));
}

#[test]
fn entities_are_collected_children_first() {
    let tree: ChunkTree = QuadTreeNode::Node(
        Box::new(QuadTreeNode::Data(vec![Slab { height: 0, handle: 1 }, Slab { height: 1, handle: 2 }], vec![3])),
        Box::new(QuadTreeNode::Data(vec![Slab { height: 0, handle: 4 }], vec![])),
        Box::new(QuadTreeNode::Data(vec![], vec![5])),
        Box::new(QuadTreeNode::Data(vec![Slab { height: 0, handle: 6 }], vec![])),
        0,
        vec![7, 8],
    );
    assert_eq!(get_entities_recursive(&tree), vec![1, 2, 3, 4, 5, 6, 7, 8]);
}

#[test]
fn unfinished_requests_are_withdrawn_and_finished_chunks_kept() {
    let generated: HashSet<u64> = [1, 4].into_iter().collect();
    let alive: HashSet<u64> = [1, 2, 4].into_iter().collect();
    let mut despawn = vec![50];
    let kept = check_entities_for_deletion(vec![1, 2, 3, 4, 2], &generated, &alive, &mut despawn);
    // 1 and 4 are finished chunks; 3 is gone already; 2 is an unfinished request.
    assert_eq!(kept, vec![1, 3, 4]);
    assert_eq!(despawn, vec![50, 2, 2]);
}

#[test]
fn leaf_is_split_when_an_observer_comes_near() {
    let mut tasks = TaskList { next_handle: 100, requests: Vec::new() };
    let far = vec![loader_at(128 * 100, 0)];
    let tree = generate_quad_tree_chunk(MAX_LOD, v(0, 0), v(0, 0), &far, &mut tasks, Vec::new());
    assert_eq!(tasks.next_handle, 101);
    let generated: HashSet<u64> = [100].into_iter().collect();
    let alive: HashSet<u64> = [100].into_iter().collect();
    let mut despawn = Vec::new();

    // Nothing changes while the observer stays away.
    let same = upgrade_tree_recursion(&tree, MAX_LOD, v(0, 0), v(0, 0), &far, &generated, &alive, &mut tasks, &mut despawn);
    assert!(matches!(&same, QuadTreeNode::Data(slabs, _) if slabs[0].handle == 100));
    assert_eq!(tasks.next_handle, 101);

    // An observer three root chunks away splits the root once and no further.
    let near = vec![loader_at(128 * 3, 128 * 3)];
    let split = upgrade_tree_recursion(&tree, MAX_LOD, v(0, 0), v(0, 0), &near, &generated, &alive, &mut tasks, &mut despawn);
    match &split {
        QuadTreeNode::Node(a, _, _, _, finished, pending) => {
            assert_eq!(*finished, 0);
            // The finished coarse chunk stays visible until the four are finished.
            assert_eq!(pending, &vec![100]);
            assert!(matches!(&**a, QuadTreeNode::Data(..)));
        }
        _ => panic!("the root was not split"),
    }
    assert!(despawn.is_empty());
    assert_eq!(tasks.next_handle, 105);

    // When the observer leaves, the branch merges; unfinished requests are withdrawn.
    let alive: HashSet<u64> = [100, 101, 102, 103, 104].into_iter().collect();
    let merged = upgrade_tree_recursion(&split, MAX_LOD, v(0, 0), v(0, 0), &far, &generated, &alive, &mut tasks, &mut despawn);
    match &merged {
        QuadTreeNode::Data(slabs, pending) => {
            assert_eq!(slabs, &vec![Slab { height: 0, handle: 105 }]);
            assert_eq!(pending, &vec![100]);
        }
        _ => panic!("the branch was not merged"),
    }
    assert_eq!(despawn, vec![101, 102, 103, 104]);
}

#[test]
fn generated_chunk_asks_for_the_slab_above_or_finishes_the_column() {
    let mut tasks = TaskList { next_handle: 0, requests: Vec::new() };
    let near = vec![loader_at(128 * 3, 128 * 3)];
    let mut tree = generate_quad_tree_chunk(MAX_LOD, v(0, 0), v(0, 0), &near, &mut tasks, vec![40]);
    let mut despawn = Vec::new();
    let lod = ChunkLod::Sixtyfourth;

    // The chunk goes on above: the leaf gets slab 1 and a request for it.
    assert!(set_generated_chunk(&mut tree, v(0, 0), lod, v(1, 0), 0, true, &mut tasks, &mut despawn));
    assert_eq!(tasks.requests.last().unwrap().height, 1);
    assert_eq!(tasks.requests.last().unwrap().lod_position, v(1, 0));
    let handle = tasks.requests.last().unwrap().handle;
    match tree.get_node(1, v(1, 0)) {
        Some(QuadTreeNode::Data(slabs, _)) => {
            assert_eq!(slabs.len(), 2);
            assert_eq!(slabs[1], Slab { height: 1, handle });
        }
        _ => panic!("leaf not found"),
    }
    assert!(despawn.is_empty());

    // The columns finish one by one; with the fourth the coarse chunk goes.
    for p in [v(0, 0), v(1, 0), v(0, 1)] {
        assert!(set_generated_chunk(&mut tree, v(0, 0), lod, p, 1, false, &mut tasks, &mut despawn));
        assert!(despawn.is_empty());
    }
    assert!(set_generated_chunk(&mut tree, v(0, 0), lod, v(1, 1), 0, false, &mut tasks, &mut despawn));
    assert_eq!(despawn, vec![40]);

    // A result for a place the tree does not have is dropped.
    assert!(!set_generated_chunk(&mut tree, v(0, 0), ChunkLod::Full, v(5, 5), 0, false, &mut tasks, &mut despawn));
    assert!(!set_generated_chunk(&mut tree, v(0, 0), lod, v(2, 0), 0, false, &mut tasks, &mut despawn));
    assert!(!set_generated_chunk(&mut tree, v(0, 0), lod, v(-1, 0), 0, true, &mut tasks, &mut despawn));
}

#[test]
fn slab_with_a_known_number_is_replaced() {
    let mut slabs = vec![Slab { height: 0, handle: 1 }, Slab { height: 1, handle: 2 }];
    insert_slab(&mut slabs, Slab { height: 1, handle: 9 });
    assert_eq!(slabs, vec![Slab { height: 0, handle: 1 }, Slab { height: 1, handle: 9 }]);
    insert_slab(&mut slabs, Slab { height: 2, handle: 3 });
    assert_eq!(slabs.len(), 3);
}

#[test]
fn world_keeps_one_tree_per_root_chunk() {
    let mut world = QuadTreeVoxelWorld::new();
    assert!(!world.has_chunk(v(1, -1)));
    assert!(world.add_chunk(v(1, -1), None));
    assert!(!world.add_chunk(v(1, -1), None));
    assert!(world.has_chunk(v(1, -1)));
    assert!(!world.has_chunk(v(-1, 1)));
    assert!(matches!(world.get_chunk(v(1, -1)), Some(None)));
    assert!(world.get_chunk(v(0, 0)).is_none());
    world.set_chunk(v(1, -1), Some(QuadTreeNode::Data(Vec::new(), Vec::new())));
    assert!(matches!(world.take_chunk(v(1, -1)), Some(Some(_))));
    assert!(!world.has_chunk(v(1, -1)));
    assert!(!world.remove_chunk(v(1, -1)));
    assert!(world.add_chunk(v(2, 2), None));
    assert!(world.remove_chunk(v(2, 2)));
}

#[test]
fn chunks_are_loaded_in_a_square_around_each_observer() {
    let mut world = QuadTreeVoxelWorld::new();
    assert!(world.add_chunk(v(0, 0), None));
    let small = ChunkLoader { load_range: 1, unload_range: 2, lod_range: [3; 7] };
    let loaders = vec![
        LoaderPosition { loader: small, chunk: v(5, 5) },
        LoaderPosition { loader: small, chunk: v(128, 5) },
    ];
    let spawned = load_chunks(&mut world, &loaders);
    // Two squares of 3 x 3 around (0, 0) and (1, 0) overlap in six chunks; (0, 0) was loaded.
    assert_eq!(spawned.len(), 11);
    assert!(!spawned.contains(&v(0, 0)));
    assert!(spawned.contains(&v(-1, -1)) && spawned.contains(&v(2, 1)));
    assert!(world.has_chunk(v(2, -1)) && !world.has_chunk(v(3, 0)));
    assert!(load_chunks(&mut world, &loaders).is_empty());

    // An observer keeps the chunks less than its unload range away.
    let chunks = vec![v(-1, 0), v(2, 1), v(0, 0), v(2, 1), v(9, 9)];
    let removed = unload_chunks(&mut world, &loaders[..1].to_vec(), &chunks);
    assert_eq!(removed, vec![v(2, 1)]);
    assert!(!world.has_chunk(v(2, 1)) && world.has_chunk(v(-1, 0)));
    assert_eq!(ChunkLoader::default().load_range, 8);
    assert_eq!(ChunkLoader::default().unload_range, 10);
    assert_eq!(ChunkLoader::default().lod_range, [3; 7]);
}

#[test]
fn every_leaf_is_visited_in_the_order_of_the_children() {
    let inner = branch(leaf(10), leaf(11), leaf(12), leaf(13));
    let tree = branch(leaf(0), inner, leaf(2), leaf(3));
    let seen = std::cell::RefCell::new(Vec::new());
    tree.run_on_data(&|tag: &i32| seen.borrow_mut().push(*tag));
    assert_eq!(seen.into_inner(), vec![0, 10, 11, 12, 13, 2, 3]);
}
