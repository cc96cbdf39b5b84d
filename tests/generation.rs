use noise::{NoiseFn, Simplex};
use voxel_world::blocks::Block;
use voxel_world::chunk::{
    column_height, Chunk, ChunkStack, CHUNK_WIDTH_I32, MIN_HEIGHT, SEA_LEVEL, VERTICAL_CHUNK_COUNT,
    WORLD_HEIGHT,
};

/// The scaled terrain noise of every column of `uw`, halo included, row by row in x.
fn sample_column(noise: &Simplex, uw: (i32, i32)) -> Vec<u32> {
    let mut samples = Vec::with_capacity(34 * 34);
    for x in -1..=32 {
        for z in -1..=32 {
            let nx = uw.0 as f64 + (x as f64 / 32.0) - 0.5;
            let nz = uw.1 as f64 + (z as f64 / 32.0) - 0.5;
            let mut height = noise.get([0.3 * nx, 0.3 * nz])
                + 0.5 * noise.get([nx, nz])
                + 0.25 * noise.get([3.0 * nx, 3.0 * nz]);
            height /= 3.5;
            height += 0.5;
            height = height.powf(2.5 * (2.0 + noise.get([nx / 10.0, nz / 10.0])));
            height *= (WORLD_HEIGHT - MIN_HEIGHT - 1) as f64;
            samples.push(height.round() as u32);
        }
    }
    samples
}

fn block_at(stack: &ChunkStack, x: i32, g: u32, z: i32) -> Block {
    *stack.chunks[(g / 32) as usize].at(x, (g % 32) as i32, z)
}

fn uniform(sample: u32) -> Vec<u32> {
    vec![sample; 34 * 34]
}

#[test]
fn column_height_is_offset_and_capped() {
    assert_eq!(column_height(0), 8);
    assert_eq!(column_height(100), 108);
    assert_eq!(column_height(247), 255);
    assert_eq!(column_height(1000), 255);
}

#[test]
fn low_column_gets_sand_and_water() {
    let stack = Chunk::generate_stack((3, -4), &uniform(2));
    assert_eq!((stack.u, stack.w), (3, -4));
    let h = 10;
    for x in -1..=32 {
        for z in -1..=32 {
            for g in 0..h {
                assert_eq!(block_at(&stack, x, g, z), Block::STONE);
            }
            assert_eq!(block_at(&stack, x, h, z), Block::SAND);
            for g in h + 1..SEA_LEVEL {
                assert_eq!(block_at(&stack, x, g, z), Block::WATER);
            }
            assert_eq!(block_at(&stack, x, SEA_LEVEL, z), Block::AIR);
        }
    }
    assert!(stack.height_map.iter().all(|&hm| hm == h));
}

#[test]
fn high_column_gets_grass() {
    let stack = Chunk::generate_stack((0, 0), &uniform(247));
    for g in 0..255 {
        assert_eq!(block_at(&stack, 5, g, 6), Block::STONE);
    }
    assert_eq!(block_at(&stack, 5, 255, 6), Block::GRASS);
    // top halo of the top chunk and bottom halo of the bottom chunk stay air
    assert_eq!(*stack.chunks[7].at(5, 32, 6), Block::AIR);
    assert_eq!(*stack.chunks[0].at(5, -1, 6), Block::AIR);
}

#[test]
fn halo_planes_mirror_neighbour_chunks() {
    let mut samples = Vec::new();
    for i in 0..34 * 34 {
        samples.push((i * 7 % 120) as u32);
    }
    let stack = Chunk::generate_stack((1, 2), &samples);
    for v in 0..VERTICAL_CHUNK_COUNT - 1 {
        for x in -1..=CHUNK_WIDTH_I32 {
            for z in -1..=CHUNK_WIDTH_I32 {
                assert_eq!(*stack.chunks[v].at(x, 32, z), *stack.chunks[v + 1].at(x, 0, z));
                assert_eq!(*stack.chunks[v + 1].at(x, -1, z), *stack.chunks[v].at(x, 31, z));
            }
        }
    }
}

#[test]
fn height_map_records_interior_columns() {
    let mut samples = vec![0u32; 34 * 34];
    // column x = 2, z = 5
    samples[3 * 34 + 6] = 50;
    // a halo column leaves no trace in the height map
    samples[0] = 90;
    let stack = Chunk::generate_stack((0, 0), &samples);
    assert_eq!(stack.height_map[5 * 32 + 2], 58);
    assert_eq!(stack.height_map.iter().filter(|&&h| h != 8).count(), 1);
    assert_eq!(block_at(&stack, 2, 58, 5), Block::GRASS);
    assert_eq!(block_at(&stack, -1, 98, -1), Block::GRASS);
}

#[test]
fn seed_zero_origin_column() {
    let noise = Simplex::new(0);
    let stack = Chunk::generate_stack((0, 0), &sample_column(&noise, (0, 0)));
    assert_eq!(stack.height_map.len(), 32 * 32);
    for &h in stack.height_map.iter() {
        assert!(h >= MIN_HEIGHT);
        assert!(h < WORLD_HEIGHT);
    }
    assert_eq!(*stack.chunks[0].at(0, 0, 0), Block::STONE);
    for x in 0..32 {
        for z in 0..32 {
            let h = stack.height_map[(z * 32 + x) as usize];
            if h < SEA_LEVEL {
                assert_eq!(block_at(&stack, x, h, z), Block::SAND);
                for g in h + 1..SEA_LEVEL {
                    assert_eq!(block_at(&stack, x, g, z), Block::WATER);
                }
            } else {
                assert_eq!(block_at(&stack, x, h, z), Block::GRASS);
            }
        }
    }
}

#[test]
fn generation_is_deterministic() {
    let noise = Simplex::new(7);
    let a = Chunk::generate_stack((-2, 5), &sample_column(&noise, (-2, 5)));
    let b = Chunk::generate_stack((-2, 5), &sample_column(&Simplex::new(7), (-2, 5)));
    assert_eq!(a.height_map, b.height_map);
    for v in 0..VERTICAL_CHUNK_COUNT {
        for x in -1..=32 {
            for y in -1..=32 {
                for z in -1..=32 {
                    assert_eq!(*a.chunks[v].at(x, y, z), *b.chunks[v].at(x, y, z));
                }
            }
        }
    }
}

#[test]
fn ground_is_stone_everywhere() {
    for uw in [(0, 0), (5, -3), (-10, 12)] {
        let stack = Chunk::generate_stack(uw, &sample_column(&Simplex::new(0), uw));
        assert_eq!(*stack.chunks[0].at(0, 0, 0), Block::STONE);
    }
}
