use voxel_world::blocks::{Block, BlockType, Direction};
use voxel_world::chunk::Chunk;
use voxel_world::coordinates::Coordinates;
use voxel_world::mesh::QuadInstance;

fn put(chunk: &mut Chunk, x: i32, y: i32, z: i32, block: Block) {
    *chunk.at_mut(x, y, z) = block;
}

fn coords_of(attributes: u32) -> (u32, u32, u32) {
    (attributes & 31, (attributes >> 5) & 31, (attributes >> 10) & 31)
}

fn direction_of(attributes: u32) -> u32 {
    (attributes >> 23) & 7
}

fn texture_of(attributes: u32) -> u32 {
    (attributes >> 15) & 255
}

fn corner(q: &QuadInstance, i: u32) -> u32 {
    (q.ao_attributes >> (2 * i)) & 3
}

#[test]
fn isolated_solid_voxel_has_six_unoccluded_faces() {
    let mut chunk = Chunk::new();
    put(&mut chunk, 10, 11, 12, Block::STONE);
    let (opaque, transparent) = chunk.generate_mesh();
    assert_eq!(opaque.len(), 6);
    assert!(transparent.is_empty());
    for (k, q) in opaque.iter().enumerate() {
        assert_eq!(coords_of(q.attributes), (10, 11, 12));
        assert_eq!(direction_of(q.attributes), k as u32);
        assert_eq!(texture_of(q.attributes), 0);
        assert_eq!(q.ao_attributes, 0);
        for i in 0..4 {
            assert_eq!(corner(q, i), 0);
        }
    }
}

#[test]
fn isolated_voxel_attributes_are_packed_exactly() {
    let mut chunk = Chunk::new();
    put(&mut chunk, 3, 4, 5, Block::SAND);
    let (opaque, _) = chunk.generate_mesh();
    assert_eq!(opaque.len(), 6);
    // x | y << 5 | z << 10 | texture << 15 | direction << 23, for the +Y face
    let expected = 3 | (4 << 5) | (5 << 10) | (3 << 15) | (3 << 23);
    assert_eq!(opaque[3].attributes, expected);
}

#[test]
fn fully_surrounded_solid_voxel_emits_no_faces() {
    let mut chunk = Chunk::new();
    for x in 4..=6 {
        for y in 4..=6 {
            for z in 4..=6 {
                put(&mut chunk, x, y, z, Block::STONE);
            }
        }
    }
    let (opaque, transparent) = chunk.generate_mesh();
    assert!(transparent.is_empty());
    assert!(opaque.iter().all(|q| coords_of(q.attributes) != (5, 5, 5)));
    // each of the 6 sides of the 3x3x3 cube shows 9 faces
    assert_eq!(opaque.len(), 54);
}

#[test]
fn solid_chunk_emits_no_faces() {
    let mut chunk = Chunk::new();
    for x in -1..=32 {
        for y in -1..=32 {
            for z in -1..=32 {
                put(&mut chunk, x, y, z, Block::STONE);
            }
        }
    }
    let (opaque, transparent) = chunk.generate_mesh();
    assert!(opaque.is_empty());
    assert!(transparent.is_empty());
}

#[test]
fn air_chunk_emits_no_faces() {
    let chunk = Chunk::new();
    let (opaque, transparent) = chunk.generate_mesh();
    assert!(opaque.is_empty());
    assert!(transparent.is_empty());
}

#[test]
fn meshing_twice_gives_the_same_records() {
    let mut chunk = Chunk::new();
    put(&mut chunk, 0, 0, 0, Block::STONE);
    put(&mut chunk, 1, 0, 0, Block::WATER);
    put(&mut chunk, 31, 31, 31, Block::GRASS);
    put(&mut chunk, 31, 32, 31, Block::STONE);
    let first = chunk.generate_mesh();
    let second = chunk.generate_mesh();
    assert_eq!(first.0, second.0);
    assert_eq!(first.1, second.1);
}

#[test]
fn isolated_water_voxel_has_six_transparent_faces() {
    let mut chunk = Chunk::new();
    put(&mut chunk, 7, 8, 9, Block::WATER);
    let (opaque, transparent) = chunk.generate_mesh();
    assert!(opaque.is_empty());
    assert_eq!(transparent.len(), 6);
    for (k, t) in transparent.iter().enumerate() {
        assert_eq!(coords_of(t.attributes), (7, 8, 9));
        assert_eq!(direction_of(t.attributes), k as u32);
        assert_eq!(texture_of(t.attributes), 6);
    }
}

#[test]
fn water_against_stone_and_water() {
    let mut chunk = Chunk::new();
    put(&mut chunk, 5, 5, 5, Block::WATER);
    put(&mut chunk, 6, 5, 5, Block::WATER);
    put(&mut chunk, 5, 6, 5, Block::STONE);
    let (opaque, transparent) = chunk.generate_mesh();
    // the water at (5,5,5) hides its +X face (water) and +Y face (stone)
    let first: Vec<u32> = transparent
        .iter()
        .filter(|t| coords_of(t.attributes) == (5, 5, 5))
        .map(|t| direction_of(t.attributes))
        .collect();
    assert_eq!(first, vec![0, 2, 4, 5]);
    // the stone shows all six faces, its -Y face against water
    let stone: Vec<u32> = opaque
        .iter()
        .filter(|q| coords_of(q.attributes) == (5, 6, 5))
        .map(|q| direction_of(q.attributes))
        .collect();
    assert_eq!(stone, vec![0, 1, 2, 3, 4, 5]);
}

#[test]
fn halo_voxels_hide_boundary_faces() {
    let mut chunk = Chunk::new();
    put(&mut chunk, 0, 0, 0, Block::STONE);
    put(&mut chunk, -1, 0, 0, Block::STONE);
    put(&mut chunk, 0, -1, 0, Block::STONE);
    let (opaque, _) = chunk.generate_mesh();
    let dirs: Vec<u32> = opaque.iter().map(|q| direction_of(q.attributes)).collect();
    assert_eq!(dirs, vec![1, 3, 4, 5]);
}

#[test]
fn corner_with_both_sides_solid_is_fully_occluded() {
    let mut chunk = Chunk::new();
    put(&mut chunk, 5, 5, 5, Block::STONE);
    // +Y face: cross axes X then Z; corner 0 steps -X and -Z from (5, 6, 5)
    put(&mut chunk, 4, 6, 5, Block::STONE);
    put(&mut chunk, 5, 6, 4, Block::STONE);
    let ao = chunk.get_ao_attributes(Coordinates::new(5, 5, 5), Direction::Y);
    assert_eq!(ao & 3, 3);
    // the diagonal does not change a corner whose sides are both solid
    put(&mut chunk, 4, 6, 4, Block::STONE);
    let ao2 = chunk.get_ao_attributes(Coordinates::new(5, 5, 5), Direction::Y);
    assert_eq!(ao2 & 3, 3);
    // corner 1 (-X, +Z) sees one side; corner 2 (+X, -Z) sees one side
    assert_eq!((ao2 >> 2) & 3, 1);
    assert_eq!((ao2 >> 4) & 3, 1);
    assert_eq!((ao2 >> 6) & 3, 0);
    for i in 0..4 {
        assert!((ao2 >> (2 * i)) & 3 <= 3);
    }
    assert!(ao2 < 256);
}

#[test]
fn diagonal_alone_occludes_by_one() {
    let mut chunk = Chunk::new();
    put(&mut chunk, 5, 5, 5, Block::STONE);
    put(&mut chunk, 4, 6, 4, Block::STONE);
    let ao = chunk.get_ao_attributes(Coordinates::new(5, 5, 5), Direction::Y);
    assert_eq!(ao, 1);
    let (opaque, _) = chunk.generate_mesh();
    let up = opaque
        .iter()
        .find(|q| coords_of(q.attributes) == (5, 5, 5) && direction_of(q.attributes) == 3)
        .unwrap();
    assert_eq!(up.ao_attributes, 1);
}

#[test]
fn water_does_not_occlude() {
    let mut chunk = Chunk::new();
    put(&mut chunk, 5, 5, 5, Block::STONE);
    put(&mut chunk, 4, 6, 5, Block::WATER);
    put(&mut chunk, 5, 6, 4, Block::WATER);
    let ao = chunk.get_ao_attributes(Coordinates::new(5, 5, 5), Direction::Y);
    assert_eq!(ao, 0);
}

#[test]
fn face_visibility_rules() {
    assert!(!Chunk::is_face_visible(BlockType::SOLID, BlockType::SOLID));
    assert!(Chunk::is_face_visible(BlockType::SOLID, BlockType::TRANSPARENT));
    assert!(Chunk::is_face_visible(BlockType::SOLID, BlockType::INVISIBLE));
    assert!(!Chunk::is_face_visible(BlockType::TRANSPARENT, BlockType::SOLID));
    assert!(!Chunk::is_face_visible(BlockType::TRANSPARENT, BlockType::TRANSPARENT));
    assert!(Chunk::is_face_visible(BlockType::TRANSPARENT, BlockType::INVISIBLE));
    assert!(!Chunk::is_face_visible(BlockType::INVISIBLE, BlockType::SOLID));
    assert!(!Chunk::is_face_visible(BlockType::INVISIBLE, BlockType::TRANSPARENT));
    assert!(!Chunk::is_face_visible(BlockType::INVISIBLE, BlockType::INVISIBLE));
}
