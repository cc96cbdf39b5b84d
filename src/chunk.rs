use vstd::prelude::*;
use crate::blocks::Block;
use crate::coordinates::Coordinates;

verus! {

/// log2 of the chunk width.
pub const CHUNK_WIDTH_BITS: u32 = 5;
/// Side length of a chunk, in voxels.
pub const CHUNK_WIDTH: u32 = 32;
pub const CHUNK_WIDTH_I32: i32 = 32;
/// Side length of a chunk with its one-voxel halo on both sides.
pub const CHUNK_WIDTH_P: u32 = 34;
pub const CHUNK_WIDTH_P_I32: i32 = 34;
/// Number of voxels stored per chunk, halo included.
pub const CHUNK_VOLUME_P: usize = 39304;

/// Number of chunks stacked in one terrain column.
pub const VERTICAL_CHUNK_COUNT: usize = 8;
pub const WORLD_HEIGHT: u32 = 256;
pub const MIN_HEIGHT: u32 = 8;
pub const SEA_LEVEL: u32 = 24;

/// Horizontal coordinates of a terrain column.
pub type ChunkUW = (i32, i32);
/// Coordinates of a single chunk: column and vertical level.
pub type ChunkUVW = (i32, i32, i32);

/// A local coordinate lies inside the chunk or its halo.
pub open spec fn in_halo_range(c: int) -> bool {
    -1 <= c <= 32
}

/// A local coordinate lies inside the chunk proper.
pub open spec fn in_interior(c: int) -> bool {
    0 <= c < 32
}

pub open spec fn in_chunk(x: int, y: int, z: int) -> bool {
    in_halo_range(x) && in_halo_range(y) && in_halo_range(z)
}

/// Position of voxel `(x, y, z)` in a chunk's flat storage.
pub open spec fn index_of(x: int, y: int, z: int) -> int {
    (x + 1) * 1156 + (y + 1) * 34 + (z + 1)
}

/// The voxel at `(x, y, z)` in a chunk whose storage is `c`.
pub open spec fn voxel(c: Seq<Block>, x: int, y: int, z: int) -> Block {
    c[index_of(x, y, z)]
}

/// A cube of voxels with a one-voxel halo on every face.
pub struct Chunk {
    data: Vec<Block>,
}

impl View for Chunk {
    type V = Seq<Block>;

    closed spec fn view(&self) -> Seq<Block> {
        self.data@
    }
}

impl Chunk {
    pub open spec fn wf(&self) -> bool {
        self@.len() == CHUNK_VOLUME_P
    }

    pub fn is_wf(&self) -> (r: bool)
        ensures
            r == self.wf(),
    {
        self.data.len() == CHUNK_VOLUME_P
    }

    /// A chunk of air, halo included.
    pub fn new() -> (r: Chunk)
        ensures
            r.wf(),
            forall|i: int| 0 <= i < CHUNK_VOLUME_P ==> #[trigger] r@[i] == Block::AIR,
    {
        let mut data: Vec<Block> = Vec::with_capacity(CHUNK_VOLUME_P);
        let mut i: usize = 0;
        while i < CHUNK_VOLUME_P
            invariant
                i <= CHUNK_VOLUME_P,
                data@.len() == i,
                forall|j: int| 0 <= j < i ==> #[trigger] data@[j] == Block::AIR,
            decreases CHUNK_VOLUME_P - i,
        {
            data.push(Block::AIR);
            i += 1;
        }
        Chunk { data }
    }

    /// Whether `(x, y, z)` addresses a voxel of the chunk or its halo.
    pub fn validate_chunk_coordinates(x: i32, y: i32, z: i32) -> (r: bool)
        ensures
            r == in_chunk(x as int, y as int, z as int),
    {
        -1 <= x && x <= CHUNK_WIDTH_I32 && -1 <= y && y <= CHUNK_WIDTH_I32 && -1 <= z && z
            <= CHUNK_WIDTH_I32
    }

    pub fn at(&self, x: i32, y: i32, z: i32) -> (r: &Block)
        requires
            self.wf(),
            in_chunk(x as int, y as int, z as int),
        ensures
            *r == voxel(self@, x as int, y as int, z as int),
    {
        let index = (((x + 1) * CHUNK_WIDTH_P_I32 + y + 1) * CHUNK_WIDTH_P_I32 + z + 1) as usize;
        &self.data[index]
    }

    pub fn at_coords(&self, coords: Coordinates) -> (r: &Block)
        requires
            self.wf(),
            in_chunk(coords@.0, coords@.1, coords@.2),
        ensures
            *r == voxel(self@, coords@.0, coords@.1, coords@.2),
    {
        self.at(coords.x(), coords.y(), coords.z())
    }

    pub fn at_mut(&mut self, x: i32, y: i32, z: i32) -> (r: &mut Block)
        requires
            old(self).wf(),
            in_chunk(x as int, y as int, z as int),
        ensures
            *r == voxel(old(self)@, x as int, y as int, z as int),
            final(self)@ == old(self)@.update(index_of(x as int, y as int, z as int), *final(r)),
    {
        let index = (((x + 1) * CHUNK_WIDTH_P_I32 + y + 1) * CHUNK_WIDTH_P_I32 + z + 1) as usize;
        &mut self.data[index]
    }
}


/// Position of column `(x, z)` (halo included) in a row-major grid of noise samples.
pub open spec fn sample_index(x: int, z: int) -> int {
    (x + 1) * 34 + (z + 1)
}

/// Terrain height of a column whose scaled noise value is `sample`.
pub open spec fn height_of(sample: u32) -> int {
    MIN_HEIGHT + if sample < WORLD_HEIGHT - MIN_HEIGHT - 1 {
        sample as int
    } else {
        WORLD_HEIGHT - MIN_HEIGHT - 1
    }
}

/// The block at global height `g` of a column whose terrain height is `h`.
pub open spec fn column_block(h: int, g: int) -> Block {
    if g < 0 {
        Block::AIR
    } else if g < h {
        Block::STONE
    } else if g == h {
        if h < SEA_LEVEL {
            Block::SAND
        } else {
            Block::GRASS
        }
    } else if g < SEA_LEVEL {
        Block::WATER
    } else {
        Block::AIR
    }
}

/// The block that generation puts at local `(x, y, z)` of chunk `v` of a column.
pub open spec fn stack_block(samples: Seq<u32>, v: int, x: int, y: int, z: int) -> Block {
    column_block(height_of(samples[sample_index(x, z)]), v * 32 + y)
}

/// Column `(x1, z1)` is filled before column `(x2, z2)`.
pub open spec fn column_before(x1: int, z1: int, x2: int, z2: int) -> bool {
    x1 < x2 || (x1 == x2 && z1 < z2)
}

/// The block at local `(x, y, z)` of chunk `v` once the columns before `(cx, cz)` are filled
/// and column `(cx, cz)` itself is filled below global height `g`.
pub open spec fn partial_block(
    samples: Seq<u32>,
    cx: int,
    cz: int,
    g: int,
    v: int,
    x: int,
    y: int,
    z: int,
) -> Block {
    if column_before(x, z, cx, cz) {
        stack_block(samples, v, x, y, z)
    } else if x == cx && z == cz && v * 32 + y < g {
        stack_block(samples, v, x, y, z)
    } else {
        Block::AIR
    }
}

/// A vertical column of chunks sharing the column coordinates `(u, w)`, with the
/// terrain height of each of its interior columns.
pub struct ChunkStack {
    pub u: i32,
    pub w: i32,
    pub chunks: Vec<Chunk>,
    pub height_map: Vec<u32>,
}

impl ChunkStack {
    /// Every chunk of the stack is well formed.
    pub open spec fn wf(&self) -> bool {
        &&& self.chunks@.len() == VERTICAL_CHUNK_COUNT
        &&& self.height_map@.len() == 1024
        &&& forall|v: int| 0 <= v < VERTICAL_CHUNK_COUNT ==> (#[trigger] self.chunks@[v]).wf()
    }

    pub fn is_wf(&self) -> (r: bool)
        ensures
            r == self.wf(),
    {
        if self.chunks.len() != VERTICAL_CHUNK_COUNT || self.height_map.len() != 1024 {
            return false;
        }
        let mut v: usize = 0;
        while v < VERTICAL_CHUNK_COUNT
            invariant
                self.chunks@.len() == VERTICAL_CHUNK_COUNT,
                v <= VERTICAL_CHUNK_COUNT,
                forall|w: int| 0 <= w < v ==> (#[trigger] self.chunks@[w]).wf(),
            decreases VERTICAL_CHUNK_COUNT - v,
        {
            if !self.chunks[v].is_wf() {
                return false;
            }
            v += 1;
        }
        true
    }

    /// The voxel at local `(x, y, z)` of chunk `v`.
    pub open spec fn voxel_at(&self, v: int, x: int, y: int, z: int) -> Block {
        voxel(self.chunks@[v]@, x, y, z)
    }

    /// The stack is the column `uw` generated from the noise samples `samples`.
    pub open spec fn generated_from(&self, uw: ChunkUW, samples: Seq<u32>) -> bool {
        &&& self.wf()
        &&& self.u == uw.0 && self.w == uw.1
        &&& forall|v: int, x: int, y: int, z: int|
            0 <= v < VERTICAL_CHUNK_COUNT && in_chunk(x, y, z) ==> #[trigger] self.voxel_at(
                v,
                x,
                y,
                z,
            ) == stack_block(samples, v, x, y, z)
        &&& forall|x: int, z: int|
            in_interior(x) && in_interior(z) ==> #[trigger] self.height_map@[z * 32 + x]
                == height_of(samples[sample_index(x, z)])
    }

    /// The stack holds exactly the columns before `(cx, cz)` and column `(cx, cz)` below `g`.
    pub open spec fn filled_until(&self, samples: Seq<u32>, cx: int, cz: int, g: int) -> bool {
        forall|v: int, x: int, y: int, z: int|
            0 <= v < VERTICAL_CHUNK_COUNT && in_chunk(x, y, z) ==> #[trigger] self.voxel_at(
                v,
                x,
                y,
                z,
            ) == partial_block(samples, cx, cz, g, v, x, y, z)
    }
}

/// Generation is deterministic: two stacks generated for the same column from the same
/// noise samples hold the same voxels and the same height map.
pub proof fn lemma_generation_deterministic(
    uw: ChunkUW,
    samples: Seq<u32>,
    a: ChunkStack,
    b: ChunkStack,
)
    requires
        a.generated_from(uw, samples),
        b.generated_from(uw, samples),
    ensures
        a.u == b.u && a.w == b.w,
        a.height_map@ == b.height_map@,
        forall|v: int| 0 <= v < VERTICAL_CHUNK_COUNT ==> #[trigger] a.chunks@[v]@ == b.chunks@[v]@,
{
    assert forall|v: int| 0 <= v < VERTICAL_CHUNK_COUNT implies #[trigger] a.chunks@[v]@
        == b.chunks@[v]@ by {
        assert forall|i: int| 0 <= i < CHUNK_VOLUME_P implies a.chunks@[v]@[i]
            == b.chunks@[v]@[i] by {
            let x = i / 1156 - 1;
            let y = (i % 1156) / 34 - 1;
            let z = i % 34 - 1;
            assert(index_of(x, y, z) == i);
            assert(a.voxel_at(v, x, y, z) == b.voxel_at(v, x, y, z));
        }
        assert(a.chunks@[v]@ =~= b.chunks@[v]@);
    }
    assert forall|i: int| 0 <= i < 1024 implies a.height_map@[i] == b.height_map@[i] by {
        let x = i % 32;
        let z = i / 32;
        assert(z * 32 + x == i);
        assert(a.height_map@[z * 32 + x] == b.height_map@[z * 32 + x]);
    }
    assert(a.height_map@ =~= b.height_map@);
}

/// The halo planes of vertically adjacent chunks mirror each other's boundary planes.
pub proof fn lemma_halo_consistent(uw: ChunkUW, samples: Seq<u32>, stack: ChunkStack)
    requires
        stack.generated_from(uw, samples),
    ensures
        forall|v: int, x: int, z: int|
            0 <= v < VERTICAL_CHUNK_COUNT - 1 && in_halo_range(x) && in_halo_range(z) ==> {
                &&& #[trigger] stack.voxel_at(v, x, 32, z) == stack.voxel_at(v + 1, x, 0, z)
                &&& stack.voxel_at(v + 1, x, -1, z) == stack.voxel_at(v, x, 31, z)
            },
{
    assert forall|v: int, x: int, z: int|
        0 <= v < VERTICAL_CHUNK_COUNT - 1 && in_halo_range(x) && in_halo_range(z) implies {
        &&& #[trigger] stack.voxel_at(v, x, 32, z) == stack.voxel_at(v + 1, x, 0, z)
        &&& stack.voxel_at(v + 1, x, -1, z) == stack.voxel_at(v, x, 31, z)
    } by {
        assert(stack.voxel_at(v, x, 32, z) == stack_block(samples, v, x, 32, z));
        assert(stack.voxel_at(v + 1, x, 0, z) == stack_block(samples, v + 1, x, 0, z));
        assert(stack.voxel_at(v + 1, x, -1, z) == stack_block(samples, v + 1, x, -1, z));
        assert(stack.voxel_at(v, x, 31, z) == stack_block(samples, v, x, 31, z));
    }
}

/// The block at global height `g` of column `(x, z)` of a stack.
pub open spec fn stack_block_at(stack: ChunkStack, x: int, g: int, z: int) -> Block {
    stack.voxel_at(g / 32, x, g % 32, z)
}

/// Every recorded height lies in `[MIN_HEIGHT, WORLD_HEIGHT - 1]`; below sea level the
/// surface block is sand with water above it up to sea level, elsewhere it is grass;
/// the bottom block of every column is stone.
pub proof fn lemma_height_map_bounds(uw: ChunkUW, samples: Seq<u32>, stack: ChunkStack)
    requires
        stack.generated_from(uw, samples),
    ensures
        forall|x: int, z: int|
            #![trigger stack.height_map@[z * 32 + x]]
            in_interior(x) && in_interior(z) ==> {
                let h = stack.height_map@[z * 32 + x] as int;
                &&& MIN_HEIGHT <= h < WORLD_HEIGHT
                &&& h < SEA_LEVEL ==> stack_block_at(stack, x, h, z) == Block::SAND
                &&& h < SEA_LEVEL ==> forall|g: int|
                    h < g < SEA_LEVEL ==> #[trigger] stack_block_at(stack, x, g, z) == Block::WATER
                &&& h >= SEA_LEVEL ==> stack_block_at(stack, x, h, z) == Block::GRASS
            },
        forall|x: int, z: int|
            in_halo_range(x) && in_halo_range(z) ==> #[trigger] stack.voxel_at(0, x, 0, z)
                == Block::STONE,
{
    assert forall|x: int, z: int|
        #![trigger stack.height_map@[z * 32 + x]]
        in_interior(x) && in_interior(z) implies {
        let h = stack.height_map@[z * 32 + x] as int;
        &&& MIN_HEIGHT <= h < WORLD_HEIGHT
        &&& h < SEA_LEVEL ==> stack_block_at(stack, x, h, z) == Block::SAND
        &&& h < SEA_LEVEL ==> forall|g: int|
            h < g < SEA_LEVEL ==> #[trigger] stack_block_at(stack, x, g, z) == Block::WATER
        &&& h >= SEA_LEVEL ==> stack_block_at(stack, x, h, z) == Block::GRASS
    } by {
        let h = stack.height_map@[z * 32 + x] as int;
        assert(h == height_of(samples[sample_index(x, z)]));
        assert(stack.voxel_at(h / 32, x, h % 32, z) == stack_block(samples, h / 32, x, h % 32, z));
        assert forall|g: int| h < g < SEA_LEVEL implies #[trigger] stack_block_at(stack, x, g, z)
            == Block::WATER by {
            assert(stack.voxel_at(g / 32, x, g % 32, z) == stack_block(samples, g / 32, x, g % 32, z));
        }
    }
    assert forall|x: int, z: int| in_halo_range(x) && in_halo_range(z) implies #[trigger] stack.voxel_at(0, x, 0, z)
        == Block::STONE by {
        assert(stack.voxel_at(0, x, 0, z) == stack_block(samples, 0, x, 0, z));
    }
}

/// Terrain height of a column whose noise value, scaled to the span of possible
/// heights and rounded, is `sample`.
pub fn column_height(sample: u32) -> (r: u32)
    ensures
        r as int == height_of(sample),
        MIN_HEIGHT <= r < WORLD_HEIGHT,
{
    if sample < WORLD_HEIGHT - MIN_HEIGHT - 1 {
        MIN_HEIGHT + sample
    } else {
        WORLD_HEIGHT - 1
    }
}

impl Chunk {
    /// Generates the column `uw` from its noise samples: one scaled noise value for each
    /// column `(x, z)` of the chunk and its halo, at `sample_index(x, z)`.
    pub fn generate_stack(uw: ChunkUW, samples: &Vec<u32>) -> (r: ChunkStack)
        requires
            samples@.len() == 1156,
        ensures
            r.generated_from(uw, samples@),
    {
        let mut chunks: Vec<Chunk> = Vec::new();
        let mut i: usize = 0;
        while i < VERTICAL_CHUNK_COUNT
            invariant
                i <= VERTICAL_CHUNK_COUNT,
                chunks@.len() == i,
                forall|v: int| 0 <= v < i ==> (#[trigger] chunks@[v]).wf(),
                forall|v: int, j: int|
                    0 <= v < i && 0 <= j < CHUNK_VOLUME_P ==> #[trigger] chunks@[v]@[j]
                        == Block::AIR,
            decreases VERTICAL_CHUNK_COUNT - i,
        {
            chunks.push(Chunk::new());
            i += 1;
        }
        let mut height_map: Vec<u32> = Vec::new();
        let mut i: usize = 0;
        while i < 1024
            invariant
                i <= 1024,
                height_map@.len() == i,
            decreases 1024 - i,
        {
            height_map.push(0);
            i += 1;
        }
        let mut chunk_stack = ChunkStack { u: uw.0, w: uw.1, chunks, height_map };
        assert(chunk_stack.filled_until(samples@, -1, -1, 0)) by {
            assert forall|v: int, x: int, y: int, z: int|
                0 <= v < VERTICAL_CHUNK_COUNT && in_chunk(x, y, z) implies #[trigger] chunk_stack.voxel_at(v, x, y, z)
                == partial_block(samples@, -1, -1, 0, v, x, y, z) by {
                assert(chunk_stack.chunks@[v]@[index_of(x, y, z)] == Block::AIR);
            }
        }

        let mut x: i32 = -1;
        while x <= CHUNK_WIDTH_I32
            invariant
                -1 <= x <= 33,
                samples@.len() == 1156,
                chunk_stack.wf(),
                chunk_stack.u == uw.0 && chunk_stack.w == uw.1,
                chunk_stack.filled_until(samples@, x as int, -1, 0),
                forall|x2: int, z2: int|
                    in_interior(x2) && in_interior(z2) && x2 < x ==> #[trigger] chunk_stack.height_map@[z2 * 32 + x2]
                        == height_of(samples@[sample_index(x2, z2)]),
            decreases 33 - x,
        {
            let mut z: i32 = -1;
            while z <= CHUNK_WIDTH_I32
                invariant
                    -1 <= x <= 32,
                    -1 <= z <= 33,
                    samples@.len() == 1156,
                    chunk_stack.wf(),
                    chunk_stack.u == uw.0 && chunk_stack.w == uw.1,
                    chunk_stack.filled_until(samples@, x as int, z as int, 0),
                    forall|x2: int, z2: int|
                        in_interior(x2) && in_interior(z2) && column_before(x2, z2, x as int, z as int)
                            ==> #[trigger] chunk_stack.height_map@[z2 * 32 + x2]
                            == height_of(samples@[sample_index(x2, z2)]),
                decreases 33 - z,
            {
                let sample = samples[((x + 1) * CHUNK_WIDTH_P_I32 + z + 1) as usize];
                let height = column_height(sample);
                let ghost h = height as int;

                let mut y: u32 = 0;
                while y < height
                    invariant
                        -1 <= x <= 32,
                        -1 <= z <= 32,
                        y <= height,
                        h == height,
                        h == height_of(samples@[sample_index(x as int, z as int)]),
                        height < WORLD_HEIGHT,
                        chunk_stack.wf(),
                        chunk_stack.u == uw.0 && chunk_stack.w == uw.1,
                        chunk_stack.filled_until(samples@, x as int, z as int, y as int),
                        forall|x2: int, z2: int|
                            in_interior(x2) && in_interior(z2) && column_before(x2, z2, x as int, z as int)
                                ==> #[trigger] chunk_stack.height_map@[z2 * 32 + x2]
                                == height_of(samples@[sample_index(x2, z2)]),
                    decreases height - y,
                {
                    Chunk::insert_into_chunk_stack(&mut chunk_stack, x, y, z, Block::STONE);
                    y += 1;
                }
                let top: u32;
                if height < SEA_LEVEL {
                    Chunk::insert_into_chunk_stack(&mut chunk_stack, x, height, z, Block::SAND);
                    let mut y: u32 = height + 1;
                    while y < SEA_LEVEL
                        invariant
                            -1 <= x <= 32,
                            -1 <= z <= 32,
                            height < y <= SEA_LEVEL,
                            h == height,
                            h == height_of(samples@[sample_index(x as int, z as int)]),
                            chunk_stack.wf(),
                            chunk_stack.u == uw.0 && chunk_stack.w == uw.1,
                            chunk_stack.filled_until(samples@, x as int, z as int, y as int),
                            forall|x2: int, z2: int|
                                in_interior(x2) && in_interior(z2) && column_before(x2, z2, x as int, z as int)
                                    ==> #[trigger] chunk_stack.height_map@[z2 * 32 + x2]
                                    == height_of(samples@[sample_index(x2, z2)]),
                        decreases SEA_LEVEL - y,
                    {
                        Chunk::insert_into_chunk_stack(&mut chunk_stack, x, y, z, Block::WATER);
                        y += 1;
                    }
                    top = SEA_LEVEL;
                } else {
                    Chunk::insert_into_chunk_stack(&mut chunk_stack, x, height, z, Block::GRASS);
                    top = height + 1;
                }
                assert(chunk_stack.filled_until(samples@, x as int, z as int + 1, 0)) by {
                    assert forall|v: int, x2: int, y2: int, z2: int|
                        0 <= v < VERTICAL_CHUNK_COUNT && in_chunk(x2, y2, z2) implies #[trigger] chunk_stack.voxel_at(v, x2, y2, z2)
                        == partial_block(samples@, x as int, z as int + 1, 0, v, x2, y2, z2) by {
                        assert(chunk_stack.voxel_at(v, x2, y2, z2)
                            == partial_block(samples@, x as int, z as int, top as int, v, x2, y2, z2));
                    }
                }

                let ghost filled = chunk_stack;
                if 0 <= z && z < CHUNK_WIDTH_I32 && 0 <= x && x < CHUNK_WIDTH_I32 {
                    chunk_stack.height_map.set((z * CHUNK_WIDTH_I32 + x) as usize, height);
                }
                assert(chunk_stack.filled_until(samples@, x as int, z as int + 1, 0)) by {
                    assert forall|v: int, x2: int, y2: int, z2: int|
                        0 <= v < VERTICAL_CHUNK_COUNT && in_chunk(x2, y2, z2) implies #[trigger] chunk_stack.voxel_at(v, x2, y2, z2)
                        == partial_block(samples@, x as int, z as int + 1, 0, v, x2, y2, z2) by {
                        assert(chunk_stack.voxel_at(v, x2, y2, z2) == filled.voxel_at(v, x2, y2, z2));
                    }
                }
                z += 1;
            }
            assert(chunk_stack.filled_until(samples@, x as int + 1, -1, 0)) by {
                assert forall|v: int, x2: int, y2: int, z2: int|
                    0 <= v < VERTICAL_CHUNK_COUNT && in_chunk(x2, y2, z2) implies #[trigger] chunk_stack.voxel_at(v, x2, y2, z2)
                    == partial_block(samples@, x as int + 1, -1, 0, v, x2, y2, z2) by {
                    assert(chunk_stack.voxel_at(v, x2, y2, z2)
                        == partial_block(samples@, x as int, 33, 0, v, x2, y2, z2));
                }
            }
            x += 1;
        }
        assert forall|v: int, x: int, y: int, z: int|
            0 <= v < VERTICAL_CHUNK_COUNT && in_chunk(x, y, z) implies #[trigger] chunk_stack.voxel_at(v, x, y, z)
            == stack_block(samples@, v, x, y, z) by {
            assert(chunk_stack.voxel_at(v, x, y, z) == partial_block(samples@, 33, -1, 0, v, x, y, z));
        }
        chunk_stack
    }

    /// Writes `block` at global height `global_y` of column `(x, z)`, into the chunk that
    /// holds that height and into the halo of the chunk above or below that borders it.
    pub fn insert_into_chunk_stack(
        chunk_stack: &mut ChunkStack,
        x: i32,
        global_y: u32,
        z: i32,
        block: Block,
    )
        requires
            old(chunk_stack).wf(),
            in_halo_range(x as int),
            in_halo_range(z as int),
            global_y < WORLD_HEIGHT,
        ensures
            final(chunk_stack).wf(),
            final(chunk_stack).u == old(chunk_stack).u,
            final(chunk_stack).w == old(chunk_stack).w,
            final(chunk_stack).height_map == old(chunk_stack).height_map,
            forall|v: int, x2: int, y2: int, z2: int|
                0 <= v < VERTICAL_CHUNK_COUNT && in_chunk(x2, y2, z2) ==> #[trigger] final(chunk_stack).voxel_at(v, x2, y2, z2)
                    == if x2 == x && z2 == z && v * 32 + y2 == global_y {
                    block
                } else {
                    old(chunk_stack).voxel_at(v, x2, y2, z2)
                },
    {
        let y = global_y % CHUNK_WIDTH;
        let v = (global_y / CHUNK_WIDTH) as usize;
        assert(global_y == v * 32 + y);

        *chunk_stack.chunks[v].at_mut(x, y as i32, z) = block;

        if y == 0 && v > 0 {
            *chunk_stack.chunks[v - 1].at_mut(x, CHUNK_WIDTH_I32, z) = block;
        } else if y == CHUNK_WIDTH - 1 && v < VERTICAL_CHUNK_COUNT - 1 {
            *chunk_stack.chunks[v + 1].at_mut(x, -1, z) = block;
        }
    }
}

} // verus!
