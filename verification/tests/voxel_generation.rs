use spellhaven::utils::{IVec2, IVec3};
use spellhaven::world_generation::chunk_generation::voxel_generation::{
    generate_voxels, structure_center, ChunkSamples, ColumnSample, SiteSample, StructureGenerator,
    StructureSample,
};
use spellhaven::world_generation::chunk_generation::BlockType;
use spellhaven::world_generation::voxel_world::ChunkLod;

fn flat(height: i32, structures: usize) -> ChunkSamples {
    let column = ColumnSample {
        height,
        surface: height,
        is_path: false,
        grass_steep: true,
        is_snow: false,
        grass_color: 0,
    };
    ChunkSamples {
        heights: vec![height; 4096],
        columns: vec![column; 4356],
        structures: vec![vec![None; 4356]; structures],
    }
}

fn ramp(structures: usize) -> ChunkSamples {
    let mut samples = flat(0, structures);
    for x in 0..64 {
        for z in 0..64 {
            samples.heights[x * 64 + z] = 10 + x as i32;
        }
    }
    for x in 0..66 {
        for z in 0..66 {
            samples.columns[x * 66 + z] = ColumnSample {
                height: 10 + x as i32,
                surface: 10 + x as i32,
                is_path: z == 3,
                grass_steep: x % 2 == 0,
                is_snow: x >= 40,
                grass_color: 9,
            };
        }
    }
    samples
}

#[test]
fn flat_terrain_fills_rows_below_the_surface() {
    let samples = flat(20, 0);
    assert!(samples.is_valid(0));
    let out = generate_voxels(IVec3 { x: 0, y: 0, z: 0 }, &samples, &Vec::new(), ChunkLod::Full);
    // The lowest sample is 20; the grid starts 2 + 10 rows below it.
    assert_eq!(out.min_height, 20 - 2 - 10);
    assert!(!out.generate_more);
    assert!(!out.palette_overflow);
    // World rows 8..20 are ground: grid rows 0..12. The top one carries grass.
    assert_eq!(out.blocks.get_block(IVec3 { x: 5, y: 0, z: 5 }), BlockType::Stone);
    assert_eq!(out.blocks.get_block(IVec3 { x: 5, y: 10, z: 5 }), BlockType::Stone);
    assert_eq!(out.blocks.get_block(IVec3 { x: 5, y: 11, z: 5 }), BlockType::Grass(0));
    assert_eq!(out.blocks.get_block(IVec3 { x: 5, y: 12, z: 5 }), BlockType::Air);
    assert_eq!(out.blocks.get_block(IVec3 { x: 65, y: 11, z: 0 }), BlockType::Grass(0));
}

#[test]
fn floor_drops_less_at_coarser_levels() {
    let samples = flat(20, 0);
    let out = generate_voxels(IVec3 { x: 1, y: 2, z: -3 }, &samples, &Vec::new(), ChunkLod::Quarter);
    // 10 / 4 = 2, and two slabs up add 128.
    assert_eq!(out.min_height, 20 - 2 + 128 - 2);
    let out = generate_voxels(IVec3 { x: 1, y: 0, z: -3 }, &samples, &Vec::new(), ChunkLod::Sixteenth);
    assert_eq!(out.min_height, 20 - 2);
}

#[test]
fn ground_that_reaches_the_top_row_asks_for_the_slab_above() {
    let samples = ramp(0);
    let out = generate_voxels(IVec3 { x: 0, y: 0, z: 0 }, &samples, &Vec::new(), ChunkLod::Full);
    // Samples of the chunk proper run from 10 to 73; the grid starts at 10 - 12 = -2
    // and ends below world row 64, which columns from x = 54 on reach.
    assert_eq!(out.min_height, -2);
    assert!(out.generate_more);
    assert_eq!(out.blocks.get_block(IVec3 { x: 60, y: 65, z: 0 }), BlockType::Stone);
    assert_eq!(out.blocks.get_block(IVec3 { x: 53, y: 65, z: 0 }), BlockType::Air);
    // Column x = 4: height 14, so the top ground voxel is world row 13, grid row 15.
    assert_eq!(out.blocks.get_block(IVec3 { x: 4, y: 15, z: 0 }), BlockType::Grass(9));
    assert_eq!(out.blocks.get_block(IVec3 { x: 4, y: 14, z: 0 }), BlockType::Stone);
    assert_eq!(out.blocks.get_block(IVec3 { x: 4, y: 16, z: 0 }), BlockType::Air);
    // Odd columns are too steep for grass; the road column is all road; high columns carry snow.
    assert_eq!(out.blocks.get_block(IVec3 { x: 5, y: 16, z: 0 }), BlockType::Stone);
    assert_eq!(out.blocks.get_block(IVec3 { x: 4, y: 15, z: 3 }), BlockType::Path);
    assert_eq!(out.blocks.get_block(IVec3 { x: 4, y: 0, z: 3 }), BlockType::Path);
    assert_eq!(out.blocks.get_block(IVec3 { x: 40, y: 51, z: 0 }), BlockType::Snow);
}

fn post() -> StructureGenerator {
    let red = BlockType::Custom(200, 0, 0);
    StructureGenerator {
        model: vec![vec![vec![red], vec![BlockType::Air], vec![red]]],
        model_size: IVec3 { x: 1, y: 3, z: 1 },
        generation_size: IVec2 { x: 1, y: 1 },
        grid_offset: IVec2 { x: 0, y: 0 },
    }
}

fn site(height: i32) -> SiteSample {
    SiteSample { too_steep: false, path_distance: i32::MAX, height, scaled_height: height }
}

#[test]
fn structure_is_stamped_where_its_cell_is_seeded() {
    let red = BlockType::Custom(200, 0, 0);
    let mut samples = ramp(1);
    for i in 0..4356 {
        samples.structures[0][i] = Some(StructureSample { seed: 7, site: site(12) });
    }
    assert!(samples.is_valid(1));
    let out = generate_voxels(IVec3 { x: 0, y: 0, z: 0 }, &samples, &vec![post()], ChunkLod::Full);
    assert!(!out.palette_overflow);
    // Every column holds a copy whose foot stands on world row 12, grid row 14.
    assert_eq!(out.blocks.get_block(IVec3 { x: 0, y: 14, z: 0 }), red);
    assert_eq!(out.blocks.get_block(IVec3 { x: 0, y: 16, z: 0 }), red);
    // The air of the model leaves what was there: ground in one column, air in another.
    assert_eq!(out.blocks.get_block(IVec3 { x: 0, y: 15, z: 0 }), BlockType::Air);
    assert_eq!(out.blocks.get_block(IVec3 { x: 20, y: 15, z: 0 }), BlockType::Stone);
    assert_eq!(out.blocks.get_block(IVec3 { x: 20, y: 14, z: 0 }), red);
}

#[test]
fn structure_is_skipped_on_steep_ground_and_near_roads() {
    let red = BlockType::Custom(200, 0, 0);
    let mut samples = flat(5, 1);
    let steep = SiteSample { too_steep: true, ..site(30) };
    let near = SiteSample { path_distance: 0, ..site(30) };
    samples.structures[0][0] = Some(StructureSample { seed: 1, site: steep });
    samples.structures[0][1] = Some(StructureSample { seed: 1, site: near });
    samples.structures[0][2] = Some(StructureSample { seed: 1, site: site(30) });
    let out = generate_voxels(IVec3 { x: 0, y: 0, z: 0 }, &samples, &vec![post()], ChunkLod::Full);
    // The floor is 5 - 12 = -7, so world row 30 is grid row 37.
    assert_eq!(out.blocks.get_block(IVec3 { x: 0, y: 37, z: 0 }), BlockType::Air);
    assert_eq!(out.blocks.get_block(IVec3 { x: 0, y: 37, z: 1 }), BlockType::Air);
    assert_eq!(out.blocks.get_block(IVec3 { x: 0, y: 37, z: 2 }), red);
    assert!(!out.generate_more);
}

#[test]
fn structure_above_the_grid_asks_for_the_slab_above() {
    let mut samples = flat(5, 1);
    samples.structures[0][10] = Some(StructureSample { seed: 3, site: site(58) });
    let out = generate_voxels(IVec3 { x: 0, y: 0, z: 0 }, &samples, &vec![post()], ChunkLod::Full);
    // Foot at world row 58 is grid row 65; the model's third block would land on row 67.
    assert_eq!(out.blocks.get_block(IVec3 { x: 0, y: 65, z: 10 }), BlockType::Custom(200, 0, 0));
    assert!(out.generate_more);
}

#[test]
fn coarse_level_takes_every_other_block_of_a_model() {
    let a = BlockType::Custom(1, 0, 0);
    let b = BlockType::Custom(2, 0, 0);
    let tower = StructureGenerator {
        model: vec![vec![vec![a], vec![b], vec![a], vec![b]]],
        model_size: IVec3 { x: 1, y: 4, z: 1 },
        generation_size: IVec2 { x: 1, y: 1 },
        grid_offset: IVec2 { x: 0, y: 0 },
    };
    let mut samples = flat(5, 1);
    // Ground at 20 voxels of this level, 41 world voxels: odd, so the odd indices land.
    let ground = SiteSample { too_steep: false, path_distance: 1000, height: 20, scaled_height: 41 };
    samples.structures[0][0] = Some(StructureSample { seed: 3, site: ground });
    let out = generate_voxels(IVec3 { x: 0, y: 0, z: 0 }, &samples, &vec![tower], ChunkLod::Half);
    // The floor is 5 - 2 - 5 = -2; row 22 is world row 20.
    assert_eq!(out.min_height, -2);
    assert_eq!(out.blocks.get_block(IVec3 { x: 0, y: 22, z: 0 }), b);
    assert_eq!(out.blocks.get_block(IVec3 { x: 0, y: 23, z: 0 }), b);
    assert_eq!(out.blocks.get_block(IVec3 { x: 0, y: 24, z: 0 }), BlockType::Air);
}

#[test]
fn structure_center_is_the_same_for_every_column_of_a_copy() {
    let house = StructureGenerator {
        model: vec![vec![vec![BlockType::Stone; 4]; 2]; 4],
        model_size: IVec3 { x: 4, y: 2, z: 4 },
        generation_size: IVec2 { x: 30, y: 30 },
        grid_offset: IVec2 { x: 15, y: 15 },
    };
    let mut centers = Vec::new();
    for x in -15..15 {
        for z in -15..15 {
            if let Some(center) = structure_center(&house, IVec2 { x, y: z }, 99) {
                centers.push(center);
            }
        }
    }
    // The copy is 4 x 4 columns wide, and all of them name one centre inside the cell.
    assert_eq!(centers.len(), 16);
    assert!(centers.iter().all(|c| *c == centers[0]));
    assert!(-15 < centers[0].x && centers[0].x < 15);
    assert!(-15 < centers[0].y && centers[0].y < 15);
}

#[test]
fn invalid_tables_are_recognised() {
    let mut samples = flat(3, 1);
    assert!(samples.is_valid(1));
    assert!(!samples.is_valid(2));
    samples.heights[17] = i32::MAX;
    assert!(!samples.is_valid(1));
    samples.heights[17] = 0;
    samples.structures[0].pop();
    assert!(!samples.is_valid(1));
}

#[test]
fn copies_of_known_seeds_stand_where_the_generator_draws_them() {
    let house = StructureGenerator {
        model: vec![vec![vec![BlockType::Stone; 4]; 2]; 4],
        model_size: IVec3 { x: 4, y: 2, z: 4 },
        generation_size: IVec2 { x: 30, y: 30 },
        grid_offset: IVec2 { x: 0, y: 0 },
    };
    let center_of = |seed: u64| {
        let mut found = None;
        for x in 0..30 {
            for z in 0..30 {
                if let Some(c) = structure_center(&house, IVec2 { x, y: z }, seed) {
                    found = Some(c);
                }
            }
        }
        found.unwrap()
    };
    // The centre is the shift of the copy in its cell plus half the model.
    assert_eq!(center_of(0), IVec2 { x: 23, y: 21 });
    assert_eq!(center_of(1), IVec2 { x: 24, y: 28 });
    assert_eq!(center_of(2), IVec2 { x: 4, y: 10 });
    assert_eq!(center_of(99), IVec2 { x: 28, y: 19 });
    assert_eq!(center_of(5000), IVec2 { x: 26, y: 3 });
}

#[test]
fn palette_takes_block_types_in_the_order_they_are_first_written() {
    let samples = ramp(0);
    let out = generate_voxels(IVec3 { x: 0, y: 0, z: 0 }, &samples, &Vec::new(), ChunkLod::Full);
    // Column (0, 0) is written first, from the bottom: stone, then its grass top.
    // The road follows in column (0, 3), the snow far later.
    let order = [BlockType::Stone, BlockType::Grass(9), BlockType::Path, BlockType::Snow];
    assert_eq!(out.blocks.palette_len(), order.len());
    for (i, block) in order.iter().enumerate() {
        assert_eq!(out.blocks.palette()[i + 1], block.get_packed_color());
    }
    assert!(out.blocks.palette()[order.len() + 1..].iter().all(|w| *w == 0));
    // The lowest voxel of the first column holds index 1; the lanes behind the grid stay empty.
    assert_eq!(out.blocks.array()[0] & 0xff, 1);
    assert_eq!(out.blocks.array()[71875], 0);
    assert_eq!(out.blocks.array()[71874], 0);
}

#[test]
fn palette_overflow_is_reported_when_a_chunk_holds_too_many_block_types() {
    let mut samples = flat(5, 1);
    let mut model = vec![vec![Vec::new(); 130]];
    for (h, row) in model[0].iter_mut().enumerate() {
        row.push(BlockType::Gray(h as u8));
    }
    let tower = StructureGenerator {
        model,
        model_size: IVec3 { x: 1, y: 130, z: 1 },
        generation_size: IVec2 { x: 1, y: 1 },
        grid_offset: IVec2 { x: 0, y: 0 },
    };
    // Three copies side by side show the same 60 kinds each, so the palette holds.
    for i in 0..3 {
        samples.structures[0][i] = Some(StructureSample { seed: 1, site: site(-1) });
    }
    let out = generate_voxels(IVec3 { x: 0, y: 0, z: 0 }, &samples, &vec![tower], ChunkLod::Full);
    assert!(!out.palette_overflow);
    assert!(out.generate_more);
    assert_eq!(out.blocks.palette_len(), 2 + 60);

    // Two towers of different kinds on top of each other's rows overflow the palette.
    let mut samples = flat(5, 2);
    let kinds = |offset: u8| -> StructureGenerator {
        let mut model = vec![vec![Vec::new(); 66]];
        for (h, row) in model[0].iter_mut().enumerate() {
            row.push(BlockType::Custom(offset, h as u8, 0));
        }
        StructureGenerator {
            model,
            model_size: IVec3 { x: 1, y: 66, z: 1 },
            generation_size: IVec2 { x: 1, y: 1 },
            grid_offset: IVec2 { x: 0, y: 0 },
        }
    };
    samples.structures[0][0] = Some(StructureSample { seed: 1, site: site(-7) });
    samples.structures[1][1] = Some(StructureSample { seed: 1, site: site(-7) });
    let out = generate_voxels(IVec3 { x: 0, y: 0, z: 0 }, &samples, &vec![kinds(1), kinds(2)], ChunkLod::Full);
    // 2 kinds of ground and 2 x 66 kinds of structure make 134 kinds.
    assert!(out.palette_overflow);
    assert_eq!(out.blocks.palette_len(), 127);
}
