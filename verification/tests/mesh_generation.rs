use spellhaven::utils::IVec3;
use spellhaven::world_generation::chunk_generation::mesh_generation::{
    generate_mesh, Direction, Quad, Triangle,
};
use spellhaven::world_generation::chunk_generation::voxel_types::VoxelData;
use spellhaven::world_generation::chunk_generation::BlockType;
use spellhaven::world_generation::voxel_world::ChunkLod;

fn solid_box(from: i32, to: i32, block: BlockType) -> VoxelData {
    let mut blocks = VoxelData::new();
    for x in from..=to {
        for y in from..=to {
            for z in from..=to {
                assert!(blocks.set_block(IVec3 { x, y, z }, block));
            }
        }
    }
    blocks
}

#[test]
fn all_air_chunk_has_no_mesh() {
    let blocks = VoxelData::new();
    assert!(generate_mesh(&blocks, ChunkLod::Full).is_none());
    assert!(generate_mesh(&blocks, ChunkLod::Half).is_none());
}

#[test]
fn three_cube_block_meshes_to_six_quads() {
    let blocks = solid_box(10, 12, BlockType::Stone);
    let mesh = generate_mesh(&blocks, ChunkLod::Full).unwrap();
    assert_eq!(mesh.quads.len(), 6);
    assert_eq!(mesh.triangles.len(), 12);
    assert_eq!(mesh.positions.len(), 24);
    assert_eq!(mesh.normals.len(), 24);
    assert!(mesh.has_collider);
    for quad in &mesh.quads {
        assert_eq!(quad.width, 3);
        assert_eq!(quad.height, 3);
        assert_eq!(quad.width_pos, 10);
        assert_eq!(quad.height_pos, 10);
    }
    let directions: Vec<Direction> = mesh.quads.iter().map(|q| q.direction).collect();
    assert_eq!(
        directions,
        vec![
            Direction::X,
            Direction::NegX,
            Direction::Z,
            Direction::NegZ,
            Direction::Y,
            Direction::NegY
        ]
    );
    assert_eq!(mesh.quads[0].layer, 12);
    assert_eq!(mesh.quads[1].layer, 10);
}

#[test]
fn single_voxel_yields_six_unit_quads() {
    let blocks = solid_box(5, 5, BlockType::Sand);
    let mesh = generate_mesh(&blocks, ChunkLod::Quarter).unwrap();
    assert_eq!(mesh.quads.len(), 6);
    assert!(!mesh.has_collider);
    assert_eq!(
        mesh.quads[0],
        Quad { direction: Direction::X, layer: 5, height_pos: 5, width_pos: 5, height: 1, width: 1 }
    );
    // The face that looks along +x lies on the plane x = 5.5, i.e. 11 half voxels.
    assert_eq!(
        &mesh.positions[0..4],
        &[
            IVec3 { x: 11, y: 9, z: 9 },
            IVec3 { x: 11, y: 11, z: 9 },
            IVec3 { x: 11, y: 11, z: 11 },
            IVec3 { x: 11, y: 9, z: 11 },
        ]
    );
    // The face that looks along -x lies on the plane x = 4.5.
    assert_eq!(mesh.positions[4], IVec3 { x: 9, y: 9, z: 9 });
    assert_eq!(mesh.normals[0], IVec3 { x: 1, y: 0, z: 0 });
    assert_eq!(mesh.normals[4], IVec3 { x: -1, y: 0, z: 0 });
    assert_eq!(mesh.triangles[0], Triangle { a: 0, b: 1, c: 3 });
    assert_eq!(mesh.triangles[1], Triangle { a: 1, b: 2, c: 3 });
    assert_eq!(mesh.triangles[2], Triangle { a: 4, b: 7, c: 5 });
    assert_eq!(mesh.triangles[3], Triangle { a: 5, b: 7, c: 6 });
}

#[test]
fn enclosed_voxels_produce_no_faces_between_them() {
    // Two touching voxels share a face that must not be meshed: 6 quads, not 12.
    let mut blocks = VoxelData::new();
    assert!(blocks.set_block(IVec3 { x: 3, y: 3, z: 3 }, BlockType::Stone));
    assert!(blocks.set_block(IVec3 { x: 4, y: 3, z: 3 }, BlockType::Stone));
    let mesh = generate_mesh(&blocks, ChunkLod::Full).unwrap();
    assert_eq!(mesh.quads.len(), 6);
    let covered: i32 = mesh.quads.iter().map(|q| q.width * q.height).sum();
    assert_eq!(covered, 10);
}

#[test]
fn halo_voxels_are_not_meshed_but_hide_faces() {
    let mut blocks = VoxelData::new();
    assert!(blocks.set_block(IVec3 { x: 0, y: 7, z: 7 }, BlockType::Stone));
    assert!(blocks.set_block(IVec3 { x: 1, y: 7, z: 7 }, BlockType::Stone));
    let mesh = generate_mesh(&blocks, ChunkLod::Full).unwrap();
    // The voxel at x = 1 shows five faces; the one toward the halo is hidden.
    assert_eq!(mesh.quads.len(), 5);
    assert!(mesh.quads.iter().all(|q| q.direction != Direction::NegX));
}

#[test]
fn greedy_quads_match_a_naive_face_count() {
    let mut blocks = VoxelData::new();
    let solid = |x: i32, y: i32, z: i32| (x * 7 + y * 13 + z * 29) % 5 < 2 && x < 9 && y < 9 && z < 9;
    for x in 1..=8 {
        for y in 1..=8 {
            for z in 1..=8 {
                if solid(x, y, z) {
                    assert!(blocks.set_block(IVec3 { x, y, z }, BlockType::Stone));
                }
            }
        }
    }
    let mut faces = 0;
    let steps = [(1, 0, 0), (-1, 0, 0), (0, 1, 0), (0, -1, 0), (0, 0, 1), (0, 0, -1)];
    for x in 1..=64 {
        for y in 1..=64 {
            for z in 1..=64 {
                if blocks.is_air(IVec3 { x, y, z }) {
                    continue;
                }
                for (dx, dy, dz) in steps {
                    if blocks.is_air(IVec3 { x: x + dx, y: y + dy, z: z + dz }) {
                        faces += 1;
                    }
                }
            }
        }
    }
    let mesh = generate_mesh(&blocks, ChunkLod::Full).unwrap();
    let covered: i32 = mesh.quads.iter().map(|q| q.width * q.height).sum();
    assert_eq!(covered, faces);
    assert!(mesh.quads.len() as i32 <= faces);
}
