use spellhaven::utils::{div_floor, floor_div, trunc_div_i32, IVec2, IVec3, RotationDirection};
use spellhaven::white_noise::{hash, WhiteNoise};
use spellhaven::world_generation::chunk_generation::noise::lod_height_adjuster::LodHeightAdjuster;
use spellhaven::world_generation::chunk_generation::noise::shift_n_scale::ShiftNScale;
use spellhaven::world_generation::chunk_generation::voxel_generation::{ChunkSamples, ColumnSample};
use spellhaven::world_generation::chunk_generation::{
    get_country_of, sort_by_lod, start_chunk_tasks, BlockType, TaskAction,
};
use spellhaven::world_generation::chunk_loading::quad_tree_manager::ChunkTaskGenerator;
use spellhaven::world_generation::foliage_generation::pine_l_system::{PineEntryKind, PineLSystem};
use spellhaven::world_generation::generation_options::{
    vox_data_model_size, vox_data_to_blocks, CacheClaim, GenerationCache, GenerationState, ModelVoxel,
};
use spellhaven::world_generation::voxel_world::{generate_chunk, get_chunk_pos, ChunkLod, MAX_LOD};

fn v(x: i32, y: i32) -> IVec2 {
    IVec2 { x, y }
}

fn request(lod: ChunkLod, parent: IVec2, handle: u64) -> ChunkTaskGenerator {
    ChunkTaskGenerator { parent_pos: parent, lod, lod_position: v(0, 0), height: 0, handle }
}

#[test]
fn levels_count_from_one_and_double_their_voxels() {
    let all = [
        ChunkLod::Full,
        ChunkLod::Half,
        ChunkLod::Quarter,
        ChunkLod::Eighth,
        ChunkLod::Sixteenth,
        ChunkLod::Thirtytwoth,
        ChunkLod::Sixtyfourth,
        ChunkLod::OneTwentyEight,
        ChunkLod::TwoFiftySix,
    ];
    for (i, lod) in all.iter().enumerate() {
        assert_eq!(lod.usize(), i + 1);
        assert_eq!(lod.u32(), i as u32 + 1);
        assert_eq!(lod.i32(), i as i32 + 1);
        assert_eq!(lod.multiplier_i32(), 1 << i);
        assert_eq!(ChunkLod::from_u8(i as u8 + 1), Some(*lod));
        if i > 0 {
            assert_eq!(lod.previous(), all[i - 1]);
            assert_eq!(lod.previous().multiplier_i32() * 2, lod.multiplier_i32());
        }
        if i < 8 {
            assert_eq!(lod.inverse_multiplier_i32(), 1 << (7 - i));
        }
    }
    assert_eq!(ChunkLod::from_u8(0), None);
    assert_eq!(ChunkLod::from_u8(10), None);
    assert_eq!(MAX_LOD, ChunkLod::OneTwentyEight);
}

#[test]
fn cache_tells_only_the_first_caller_to_generate() {
    let mut cache: GenerationCache<String> = GenerationCache::new();
    assert_eq!(cache.begin(v(3, -4)), CacheClaim::Generate);
    assert_eq!(cache.begin(v(3, -4)), CacheClaim::Wait);
    assert_eq!(cache.begin(v(-4, 3)), CacheClaim::Generate);
    assert!(cache.try_get_entry_no_lock(v(3, -4)).is_none());
    assert!(cache.publish(v(3, -4), "first".to_string()));
    assert_eq!(cache.begin(v(3, -4)), CacheClaim::Ready);
    assert_eq!(cache.try_get_entry_no_lock(v(3, -4)), Some(&"first".to_string()));
    // A second result for the same key is dropped; one for an unknown key too.
    assert!(!cache.publish(v(3, -4), "second".to_string()));
    assert!(!cache.publish(v(9, 9), "stray".to_string()));
    assert_eq!(cache.try_get_entry_no_lock(v(3, -4)), Some(&"first".to_string()));
    assert!(cache.try_get_entry_no_lock(v(9, 9)).is_none());
    assert!(GenerationState::Ready(1).is_ready());
    assert!(!GenerationState::<i32>::Generating.is_ready());
}

#[test]
fn requests_are_ordered_from_coarse_to_fine() {
    let requests = vec![
        request(ChunkLod::Full, v(0, 0), 1),
        request(ChunkLod::Quarter, v(0, 0), 2),
        request(ChunkLod::Full, v(0, 0), 3),
        request(ChunkLod::OneTwentyEight, v(0, 0), 4),
        request(ChunkLod::Quarter, v(0, 0), 5),
    ];
    let handles: Vec<u64> = sort_by_lod(&requests).iter().map(|r| r.handle).collect();
    assert_eq!(handles, vec![4, 2, 5, 1, 3]);
}

#[test]
fn scheduler_generates_countries_first_and_caps_running_chunks() {
    let mut countries: GenerationCache<()> = GenerationCache::new();
    // Root chunks 0..3 lie in country 0, root chunk 4 in country 1.
    let requests: Vec<ChunkTaskGenerator> =
        (0..8).map(|i| request(ChunkLod::Half, v(i % 5, 0), i as u64)).collect();
    let actions = start_chunk_tasks(0, &requests, &mut countries);
    assert_eq!(
        actions,
        vec![TaskAction::GenerateCountry(v(0, 0)), TaskAction::GenerateCountry(v(1, 0))]
    );
    // While the countries are being generated, everything waits.
    assert!(start_chunk_tasks(0, &requests, &mut countries).is_empty());
    assert!(countries.publish(v(0, 0), ()));
    // Two chunks run already: three more are started, all of country 0.
    let actions = start_chunk_tasks(2, &requests, &mut countries);
    let started: Vec<u64> = actions
        .iter()
        .map(|a| match a {
            TaskAction::StartChunk(r) => r.handle,
            TaskAction::GenerateCountry(_) => panic!("country generated twice"),
        })
        .collect();
    assert_eq!(started, vec![0, 1, 2]);
    assert!(start_chunk_tasks(5, &requests, &mut countries).is_empty());
    assert!(start_chunk_tasks(7, &requests, &mut countries).is_empty());
}

#[test]
fn country_of_a_root_chunk_steps_down_for_negative_positions() {
    assert_eq!(get_country_of(v(0, 3)), v(0, 0));
    assert_eq!(get_country_of(v(4, 7)), v(1, 1));
    assert_eq!(get_country_of(v(-1, -3)), v(-1, -1));
    assert_eq!(get_country_of(v(-5, -8)), v(-2, -3));
}

#[test]
fn division_helpers_round_as_documented() {
    assert_eq!(trunc_div_i32(7, 2), 3);
    assert_eq!(trunc_div_i32(-7, 2), -3);
    assert_eq!(trunc_div_i32(7, -2), -3);
    assert_eq!(trunc_div_i32(-7, -2), 3);
    assert_eq!(trunc_div_i32(i32::MIN, i32::MIN), 1);
    assert_eq!(trunc_div_i32(5, i32::MIN), 0);
    assert_eq!(div_floor(7, 2), 3);
    assert_eq!(div_floor(-7, 2), -4);
    assert_eq!(div_floor(7, -2), -4);
    assert_eq!(div_floor(-7, -2), 3);
    // An exact negative quotient comes out one lower than its floor.
    assert_eq!(div_floor(-4, 2), -3);
    assert_eq!(div_floor(0, 5), 0);
    assert_eq!(floor_div(-4, 2), -2);
    assert_eq!(floor_div(-5, 2), -3);
    assert_eq!(floor_div(5, 2), 2);
    assert_eq!(floor_div(i32::MIN, 1), i32::MIN);
    assert!(RotationDirection::X != RotationDirection::Z);
}

#[test]
fn hash_mixes_its_input() {
    assert_eq!(hash(0), 0);
    // One round: (1 ^ 0) * 0x45d9f3b; second round folds and multiplies again.
    let a = 0x45d9f3bu32;
    let b = ((a >> 16) ^ a).wrapping_mul(0x45d9f3b);
    assert_eq!(hash(1), (b >> 16) ^ b);
    assert_ne!(hash(1), hash(2));
    let noise = WhiteNoise::new(5);
    assert_eq!(noise.seed(), 5);
    assert_eq!(noise.set_seed(9).seed(), 9);
    assert_eq!(WhiteNoise::default().seed(), WhiteNoise::DEFAULT_SEED);
    let key = |v: i64| (v + i32::MAX as i64) as u32;
    assert_eq!(noise.get_bits(3, -7), hash(key(3)).wrapping_mul(5).wrapping_mul(hash(key(-7))));
    assert_eq!(noise.get_bits(i64::MAX, 0), hash(key(-1)).wrapping_mul(5).wrapping_mul(hash(key(0))));
}

#[test]
fn adapters_keep_their_source_and_settings() {
    let adjuster = LodHeightAdjuster::new(7u8, ChunkLod::Quarter);
    assert_eq!(adjuster.noise, 7);
    assert_eq!(adjuster.divisor(), 4);
    let adjuster = adjuster.set_lod(ChunkLod::Sixteenth);
    assert_eq!(adjuster.lod, ChunkLod::Sixteenth);
    assert_eq!(adjuster.noise, 7);
    let shifted: ShiftNScale<u8, 2, 1> = ShiftNScale::new(3);
    assert_eq!((shifted.noise, shifted.scale(), shifted.shift()), (3, 2, 1));
}

#[test]
fn pine_needles_are_green_and_wood_is_brown() {
    assert_eq!(PineLSystem::get_block_from_entry(PineEntryKind::Leaf), BlockType::Grass(100));
    assert_eq!(PineLSystem::get_block_from_entry(PineEntryKind::Log), BlockType::Path);
    assert_eq!(PineLSystem::get_block_from_entry(PineEntryKind::Stem), BlockType::Path);
    assert_eq!(PineLSystem::get_block_from_entry(PineEntryKind::Branch), BlockType::Path);
    assert_eq!(PineLSystem::next_extensions(2), Some(1));
    assert_eq!(PineLSystem::next_extensions(0), None);
    assert_eq!(PineLSystem::GROWTH_ITERATIONS, 8);
}

#[test]
fn needles_go_on_branch_tips_and_the_piece_after_a_tip_is_passed_over() {
    let (branch, leaf, log, stem) =
        (PineEntryKind::Branch, PineEntryKind::Leaf, PineEntryKind::Log, PineEntryKind::Stem);
    let mut kinds = vec![log, branch, branch, log, stem, branch, log, branch];
    PineLSystem::add_leafs(&mut kinds);
    assert_eq!(kinds, vec![log, leaf, branch, log, stem, leaf, log, leaf]);
    let mut none: Vec<PineEntryKind> = Vec::new();
    PineLSystem::add_leafs(&mut none);
    assert!(none.is_empty());
    let mut tips = vec![branch, branch, branch];
    PineLSystem::add_leafs(&mut tips);
    assert_eq!(tips, vec![leaf, branch, leaf]);
}

#[test]
fn model_file_voxels_become_blocks_with_height_second() {
    let voxels = vec![
        ModelVoxel { x: 0, y: 1, z: 2, r: 9, g: 8, b: 7 },
        ModelVoxel { x: 1, y: 0, z: 0, r: 1, g: 1, b: 1 },
        ModelVoxel { x: 1, y: 0, z: 0, r: 2, g: 2, b: 2 },
    ];
    let blocks = vox_data_to_blocks((2, 2, 3), &voxels);
    assert_eq!(blocks.len(), 2);
    assert_eq!(blocks[0].len(), 3);
    assert_eq!(blocks[0][0].len(), 2);
    assert_eq!(blocks[0][2][1], BlockType::Custom(9, 8, 7));
    assert_eq!(blocks[1][0][0], BlockType::Custom(2, 2, 2));
    assert_eq!(blocks[0][0][0], BlockType::Air);
    assert_eq!(vox_data_model_size((2, 2, 3)), IVec3 { x: 2, y: 3, z: 2 });
}

#[test]
fn chunk_is_generated_and_meshed_where_it_lies() {
    assert_eq!(get_chunk_pos(v(2, -1), ChunkLod::Quarter, v(3, 5), 4), IVec3 { x: 268, y: 4, z: -108 });
    let column = ColumnSample {
        height: 20,
        surface: 20,
        is_path: false,
        grass_steep: true,
        is_snow: false,
        grass_color: 0,
    };
    let samples = ChunkSamples {
        heights: vec![20; 4096],
        columns: vec![column; 4356],
        structures: Vec::new(),
    };
    let result = generate_chunk(v(0, 0), ChunkLod::Full, v(1, 2), 0, &samples, &Vec::new());
    assert_eq!(result.chunk_pos, IVec3 { x: 1, y: 0, z: 2 });
    assert_eq!(result.min_height, 8);
    assert!(!result.generate_above);
    // Level ground shows one face, upward: a single rectangle of 64 x 64 faces.
    let mesh = result.task_data.unwrap();
    assert_eq!(mesh.quads.len(), 1);
    assert_eq!((mesh.quads[0].width, mesh.quads[0].height, mesh.quads[0].layer), (64, 64, 11));
    assert!(mesh.has_collider);
    // A slab far above the ground is empty and has no mesh.
    let deep = ColumnSample { height: -500, surface: -500, ..column };
    let low = ChunkSamples { heights: vec![-500; 4096], columns: vec![deep; 4356], ..samples };
    let above = generate_chunk(v(0, 0), ChunkLod::Half, v(0, 0), 3, &low, &Vec::new());
    assert!(above.task_data.is_none());
    assert!(!above.generate_above);
}
