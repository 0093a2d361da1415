use spellhaven::utils::{IVec2, IVec3};
use spellhaven::world_generation::chunk_generation::mesh_generation::generate_mesh;
use spellhaven::world_generation::chunk_generation::structure_generator::{
    adjust_metadata, empty_voxel_grid, get_model_key, put_block, VoxelStructureMetadata,
    OAK_VOXEL_SIZE, PINE_VOXEL_HEIGHT, PINE_VOXEL_SIZE,
};
use spellhaven::world_generation::chunk_generation::voxel_generation::{
    generate_voxels, ChunkSamples, ColumnSample, SiteSample, StructureGenerator, StructureSample,
};
use spellhaven::world_generation::chunk_generation::voxel_types::VoxelData;
use spellhaven::world_generation::chunk_generation::BlockType;
use spellhaven::world_generation::voxel_world::ChunkLod;

fn hut() -> StructureGenerator {
    StructureGenerator {
        model: vec![vec![vec![BlockType::Stone; 3]; 2]; 4],
        model_size: IVec3 { x: 4, y: 2, z: 3 },
        generation_size: IVec2 { x: 10, y: 12 },
        grid_offset: IVec2 { x: -3, y: 5 },
    }
}

#[test]
fn structure_must_match_its_stated_extent_and_fit_its_cell() {
    assert!(hut().is_valid());
    let mut short = hut();
    short.model[2].pop();
    assert!(!short.is_valid());
    let mut ragged = hut();
    ragged.model[3][1].push(BlockType::Air);
    assert!(!ragged.is_valid());
    let mut wide = hut();
    wide.generation_size.x = 3;
    assert!(!wide.is_valid());
    let mut flat = hut();
    flat.model_size.y = 0;
    assert!(!flat.is_valid());
    let mut far = hut();
    far.grid_offset.y = 2_000_000;
    assert!(!far.is_valid());
}

#[test]
fn cells_of_the_placement_grid_step_down_below_zero() {
    let hut = hut();
    // Columns 3..12 along x fall into cell 0, since the grid is shifted by -3.
    assert_eq!(hut.get_cell(IVec2 { x: 3, y: 0 }), IVec2 { x: 0, y: 0 });
    assert_eq!(hut.get_cell(IVec2 { x: 12, y: 6 }), IVec2 { x: 0, y: 0 });
    assert_eq!(hut.get_cell(IVec2 { x: 13, y: 7 }), IVec2 { x: 1, y: 1 });
    assert_eq!(hut.get_cell(IVec2 { x: 2, y: -6 }), IVec2 { x: -1, y: -1 });
    // An exact negative multiple lands one cell lower than its floor.
    assert_eq!(hut.get_cell(IVec2 { x: -7, y: -17 }), IVec2 { x: -2, y: -2 });
}

#[test]
fn measures_in_world_units_double_to_voxels() {
    let mut metadata = VoxelStructureMetadata {
        model_size: IVec3 { x: 32, y: 70, z: 32 },
        generation_size: IVec2 { x: 100, y: 120 },
        grid_offset: IVec2 { x: -7, y: 11 },
        generate_debug_blocks: true,
    };
    adjust_metadata(&mut metadata);
    assert_eq!(metadata.model_size, IVec3 { x: 64, y: 140, z: 64 });
    assert_eq!(metadata.generation_size, IVec2 { x: 200, y: 240 });
    assert_eq!(metadata.grid_offset, IVec2 { x: -14, y: 22 });
    assert!(metadata.generate_debug_blocks);
    assert_eq!((OAK_VOXEL_SIZE, PINE_VOXEL_SIZE, PINE_VOXEL_HEIGHT), (54, 64, 140));
}

#[test]
fn coarse_levels_share_one_model() {
    let at = IVec2 { x: 4, y: -9 };
    assert_eq!(get_model_key(at, ChunkLod::Full), at);
    assert_eq!(get_model_key(at, ChunkLod::Quarter), at);
    assert_eq!(get_model_key(at, ChunkLod::Eighth), IVec2 { x: 0, y: 0 });
    assert_eq!(get_model_key(at, ChunkLod::OneTwentyEight), IVec2 { x: 0, y: 0 });
}

#[test]
fn blocks_outside_a_grid_are_dropped() {
    let mut grid = empty_voxel_grid(3, 4, 5);
    assert_eq!((grid.len(), grid[0].len(), grid[0][0].len()), (3, 4, 5));
    assert!(grid.iter().flatten().flatten().all(|b| *b == BlockType::Air));
    assert!(put_block(&mut grid, IVec3 { x: 2, y: 3, z: 4 }, BlockType::Path));
    assert_eq!(grid[2][3][4], BlockType::Path);
    assert!(!put_block(&mut grid, IVec3 { x: 3, y: 0, z: 0 }, BlockType::Path));
    assert!(!put_block(&mut grid, IVec3 { x: 0, y: -1, z: 0 }, BlockType::Path));
    assert!(!put_block(&mut grid, IVec3 { x: 0, y: 0, z: 5 }, BlockType::Path));
    assert_eq!(grid.iter().flatten().flatten().filter(|b| **b != BlockType::Air).count(), 1);
    let mut none = empty_voxel_grid(0, 4, 5);
    assert!(!put_block(&mut none, IVec3 { x: 0, y: 0, z: 0 }, BlockType::Path));
    let mut thin = empty_voxel_grid(2, 0, 5);
    assert!(!put_block(&mut thin, IVec3 { x: 0, y: 0, z: 0 }, BlockType::Path));
}

fn hilly(structures: usize) -> ChunkSamples {
    let mut heights = Vec::new();
    for x in 0..64i32 {
        for z in 0..64i32 {
            heights.push(30 + (x * 7 + z * 3) % 11);
        }
    }
    let mut columns = Vec::new();
    for x in 0..66i32 {
        for z in 0..66i32 {
            let height = 30 + (x * 7 + z * 3) % 11;
            columns.push(ColumnSample {
                height,
                surface: height,
                is_path: (x + z) % 17 == 0,
                grass_steep: x % 3 != 0,
                is_snow: height > 38,
                grass_color: (z % 4) as u8,
            });
        }
    }
    let site = SiteSample { too_steep: false, path_distance: 500, height: 35, scaled_height: 35 };
    let placed: Vec<Option<StructureSample>> =
        (0..4356).map(|i| if i % 5 == 0 { Some(StructureSample { seed: i as u64 / 50, site }) } else { None }).collect();
    ChunkSamples { heights, columns, structures: vec![placed; structures] }
}

#[test]
fn generation_and_meshing_are_repeatable_to_the_byte() {
    let samples = hilly(1);
    let position = IVec3 { x: -2, y: 0, z: 5 };
    let first = generate_voxels(position, &samples, &vec![hut()], ChunkLod::Full);
    let second = generate_voxels(position, &samples, &vec![hut()], ChunkLod::Full);
    assert!(!first.palette_overflow);
    assert_eq!(first.min_height, second.min_height);
    assert_eq!(first.generate_more, second.generate_more);
    assert_eq!(first.blocks.array(), second.blocks.array());
    assert_eq!(first.blocks.palette(), second.blocks.palette());
    let a = generate_mesh(&first.blocks, ChunkLod::Full).unwrap();
    let b = generate_mesh(&second.blocks, ChunkLod::Full).unwrap();
    assert_eq!(a.quads, b.quads);
    assert_eq!(a.positions, b.positions);
    assert_eq!(a.normals, b.normals);
    assert_eq!(a.triangles, b.triangles);
    assert!(a.quads.len() > 100);
}

#[test]
fn mesh_depends_on_the_shape_alone() {
    let mut stone = VoxelData::new();
    let mut mixed = VoxelData::new();
    for x in 1..=6 {
        for z in 1..=6 {
            for y in 1..=((x * z) % 5 + 1) {
                let p = IVec3 { x, y, z };
                assert!(stone.set_block(p, BlockType::Stone));
                assert!(mixed.set_block(p, BlockType::Gray((x * 10 + z) as u8)));
            }
        }
    }
    let a = generate_mesh(&stone, ChunkLod::Half).unwrap();
    let b = generate_mesh(&mixed, ChunkLod::Half).unwrap();
    assert_eq!(a.quads, b.quads);
    assert_eq!(a.triangles, b.triangles);
}

#[test]
fn greedy_rectangles_grow_in_height_first_and_then_in_width() {
    // An L of faces looking up: rows 1..=3 in column 1, and row 1 in columns 2..=3.
    let mut blocks = VoxelData::new();
    for (x, z) in [(1, 1), (2, 1), (3, 1), (1, 2), (1, 3)] {
        assert!(blocks.set_block(IVec3 { x, y: 1, z }, BlockType::Stone));
    }
    let mesh = generate_mesh(&blocks, ChunkLod::Full).unwrap();
    let up: Vec<_> = mesh
        .quads
        .iter()
        .filter(|q| q.direction == spellhaven::world_generation::chunk_generation::mesh_generation::Direction::Y)
        .map(|q| (q.height_pos, q.width_pos, q.height, q.width))
        .collect();
    // For faces looking up, rows run along x and columns along z.
    assert_eq!(up, vec![(1, 1, 3, 1), (1, 2, 1, 2)]);
}

#[test]
fn later_write_wins_at_every_place() {
    let mut blocks = VoxelData::new();
    let p = IVec3 { x: 9, y: 8, z: 7 };
    let q = IVec3 { x: 10, y: 8, z: 7 };
    let writes = [
        (p, BlockType::Stone),
        (q, BlockType::Sand),
        (p, BlockType::Snow),
        (q, BlockType::Air),
        (p, BlockType::Grass(3)),
    ];
    for (at, block) in writes {
        assert!(blocks.set_block(at, block));
    }
    assert_eq!(blocks.get_block(p), BlockType::Grass(3));
    assert_eq!(blocks.get_block(q), BlockType::Air);
    assert!(blocks.is_air(q) && !blocks.is_air(p));
    // Index 0 stays air: the first block type written got index 1.
    assert_eq!(blocks.get_palette_index(BlockType::Stone), Some(1));
    assert_eq!(blocks.palette()[0], 0);
}
