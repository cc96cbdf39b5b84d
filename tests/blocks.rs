use voxel_world::blocks::{Block, BlockType, Direction};
use voxel_world::chunk::Chunk;
use voxel_world::coordinates::Coordinates;

#[test]
fn block_classification() {
    assert_eq!(Block::AIR.get_block_type(), BlockType::INVISIBLE);
    assert_eq!(Block::WATER.get_block_type(), BlockType::TRANSPARENT);
    for b in [
        Block::STONE,
        Block::GRASS,
        Block::DIRT,
        Block::SAND,
        Block::GRAVEL,
        Block::ANDESITE,
        Block::SNOW,
    ] {
        assert_eq!(b.get_block_type(), BlockType::SOLID);
        assert!(b.is_solid());
    }
    assert!(!Block::AIR.is_solid());
    assert!(!Block::WATER.is_solid());
}

#[test]
fn texture_indices() {
    assert_eq!(Block::STONE.texture_index(), 0);
    assert_eq!(Block::GRASS.texture_index(), 1);
    assert_eq!(Block::DIRT.texture_index(), 2);
    assert_eq!(Block::SAND.texture_index(), 3);
    assert_eq!(Block::GRAVEL.texture_index(), 4);
    assert_eq!(Block::ANDESITE.texture_index(), 5);
    assert_eq!(Block::SNOW.texture_index(), 6);
    assert_eq!(Block::WATER.texture_index(), 6);
}

#[test]
fn direction_order_and_codes() {
    let dirs = Direction::into_iter();
    assert_eq!(
        dirs,
        vec![
            Direction::NegX,
            Direction::X,
            Direction::NegY,
            Direction::Y,
            Direction::NegZ,
            Direction::Z
        ]
    );
    for (k, d) in dirs.iter().enumerate() {
        assert_eq!(d.code() as usize, k);
    }
}

#[test]
fn coordinates_step_along_axes() {
    let c = Coordinates::new(1, 2, 3);
    let a = c.go(Direction::X, 2);
    assert_eq!((a.x(), a.y(), a.z()), (3, 2, 3));
    let b = c.go(Direction::NegY, 5);
    assert_eq!((b.x(), b.y(), b.z()), (1, -3, 3));
    let d = c.go(Direction::Z, -1);
    assert_eq!((d.x(), d.y(), d.z()), (1, 2, 2));
    let e = c.go(Direction::NegX, 1).go(Direction::NegZ, 1);
    assert_eq!((e.x(), e.y(), e.z()), (0, 2, 2));
}

#[test]
fn chunk_addressing_covers_the_halo() {
    assert!(Chunk::validate_chunk_coordinates(-1, -1, -1));
    assert!(Chunk::validate_chunk_coordinates(32, 32, 32));
    assert!(!Chunk::validate_chunk_coordinates(33, 0, 0));
    assert!(!Chunk::validate_chunk_coordinates(0, -2, 0));
    let mut chunk = Chunk::new();
    *chunk.at_mut(-1, 32, 0) = Block::SNOW;
    assert_eq!(*chunk.at(-1, 32, 0), Block::SNOW);
    assert_eq!(*chunk.at(-1, 31, 0), Block::AIR);
    assert_eq!(*chunk.at_coords(Coordinates::new(-1, 32, 0)), Block::SNOW);
}
