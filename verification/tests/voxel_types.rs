use spellhaven::utils::IVec3;
use spellhaven::world_generation::chunk_generation::voxel_types::VoxelData;
use spellhaven::world_generation::chunk_generation::BlockType;

#[test]
fn new_grid_is_all_air() {
    let blocks = VoxelData::new();
    assert!(blocks.is_air(IVec3 { x: 0, y: 0, z: 0 }));
    assert!(blocks.is_air(IVec3 { x: 65, y: 65, z: 65 }));
    assert_eq!(blocks.get_block(IVec3 { x: 3, y: 4, z: 5 }), BlockType::Air);
    assert_eq!(blocks.palette_len(), 0);
    assert_eq!(blocks.array().len(), 71876);
    assert_eq!(blocks.palette().len(), 512);
}

#[test]
fn set_block_is_read_back() {
    let mut blocks = VoxelData::new();
    let p = IVec3 { x: 1, y: 2, z: 3 };
    assert!(blocks.set_block(p, BlockType::Stone));
    assert_eq!(blocks.get_block(p), BlockType::Stone);
    assert!(!blocks.is_air(p));
    assert!(blocks.set_block(p, BlockType::Grass(7)));
    assert_eq!(blocks.get_block(p), BlockType::Grass(7));
    assert!(blocks.set_block(p, BlockType::Air));
    assert_eq!(blocks.get_block(p), BlockType::Air);
    assert!(blocks.is_air(p));
}

#[test]
fn neighbouring_lanes_are_preserved() {
    let mut blocks = VoxelData::new();
    let kinds = [BlockType::Stone, BlockType::Sand, BlockType::Path, BlockType::Snow];
    for (i, kind) in kinds.iter().enumerate() {
        assert!(blocks.set_block(IVec3 { x: i as i32, y: 0, z: 0 }, *kind));
    }
    for (i, kind) in kinds.iter().enumerate() {
        assert_eq!(blocks.get_block(IVec3 { x: i as i32, y: 0, z: 0 }), *kind);
    }
    // One word holds the four palette indices 1, 2, 3, 4, lowest lane first.
    assert_eq!(blocks.array()[0], 0x04030201);
    assert!(blocks.set_block(IVec3 { x: 2, y: 0, z: 0 }, BlockType::Air));
    assert_eq!(blocks.array()[0], 0x04000201);
    assert_eq!(blocks.get_block(IVec3 { x: 3, y: 0, z: 0 }), BlockType::Snow);
}

#[test]
fn palette_records_packed_colours_in_order_of_appearance() {
    let mut blocks = VoxelData::new();
    assert!(blocks.set_block(IVec3 { x: 0, y: 0, z: 0 }, BlockType::Stone));
    assert!(blocks.set_block(IVec3 { x: 1, y: 0, z: 0 }, BlockType::Custom(1, 2, 3)));
    assert!(blocks.set_block(IVec3 { x: 2, y: 0, z: 0 }, BlockType::Stone));
    assert_eq!(blocks.palette_len(), 2);
    assert_eq!(blocks.palette()[0], 0);
    assert_eq!(blocks.palette()[1], (150 << 16) | (160 << 8) | 155);
    assert_eq!(blocks.palette()[2], 0x010203);
    assert_eq!(BlockType::Snow.get_packed_color(), (1275 << 16) | (1275 << 8) | 1275);
    assert_eq!(BlockType::Grass(9).get_color(), (55, 195, 95));
    assert_eq!(BlockType::Path.get_color(), (100, 65, 50));
    assert_eq!(BlockType::Sand.get_color(), (225, 195, 90));
    assert_eq!(BlockType::Gray(8).get_color(), (8, 8, 8));
    assert_eq!(BlockType::Air.get_color(), (0, 0, 0));
}

#[test]
fn full_palette_falls_back_to_last_index_and_reports_it() {
    let mut blocks = VoxelData::new();
    for i in 0..127u8 {
        assert!(blocks.set_block(IVec3 { x: 0, y: 0, z: 0 }, BlockType::Gray(i)));
    }
    assert_eq!(blocks.palette_len(), 127);
    let p = IVec3 { x: 5, y: 5, z: 5 };
    // A 128th kind does not fit: the write lands on the last index.
    assert!(!blocks.set_block(p, BlockType::Gray(200)));
    assert_eq!(blocks.palette_len(), 127);
    assert_eq!(blocks.get_block(p), BlockType::Gray(126));
    // Known kinds and air are still stored as they are.
    assert!(blocks.set_block(p, BlockType::Gray(3)));
    assert_eq!(blocks.get_block(p), BlockType::Gray(3));
    assert!(blocks.set_block(p, BlockType::Air));
    assert!(blocks.is_air(p));
    assert_eq!(blocks.get_palette_index(BlockType::Gray(201)), None);
    assert_eq!(blocks.get_palette_index(BlockType::Gray(0)), Some(1));
    assert_eq!(blocks.get_palette_index(BlockType::Air), Some(0));
}

#[test]
fn last_voxel_of_grid_is_addressable() {
    let mut blocks = VoxelData::new();
    let p = IVec3 { x: 65, y: 65, z: 65 };
    assert!(blocks.set_block(p, BlockType::Path));
    assert_eq!(blocks.get_block(p), BlockType::Path);
    assert_eq!(blocks.get_block(IVec3 { x: 64, y: 65, z: 65 }), BlockType::Air);
}
