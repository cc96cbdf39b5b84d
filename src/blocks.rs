use vstd::prelude::*;

verus! {

/// How a voxel kind takes part in face culling.
#[derive(Debug, Clone, Copy, PartialEq, Eq, Structural)]
pub enum BlockType {
    SOLID,
    INVISIBLE,
    TRANSPARENT,
}

/// The kinds of voxel the terrain is made of.
#[derive(Debug, Clone, Copy, PartialEq, Eq, Structural)]
pub enum Block {
    AIR,
    STONE,
    GRASS,
    DIRT,
    SAND,
    GRAVEL,
    ANDESITE,
    SNOW,
    WATER,
}

/// Texture slot of each visible block kind.
pub open spec fn texture_of(b: Block) -> u8 {
    match b {
        Block::AIR => 0,
        Block::STONE => 0,
        Block::GRASS => 1,
        Block::DIRT => 2,
        Block::SAND => 3,
        Block::GRAVEL => 4,
        Block::ANDESITE => 5,
        Block::SNOW => 6,
        Block::WATER => 6,
    }
}

/// Air is invisible, water transparent, everything else solid.
pub open spec fn type_of(b: Block) -> BlockType {
    match b {
        Block::AIR => BlockType::INVISIBLE,
        Block::WATER => BlockType::TRANSPARENT,
        _ => BlockType::SOLID,
    }
}

pub open spec fn solid(b: Block) -> bool {
    type_of(b) == BlockType::SOLID
}

impl Block {
    /// Index of the block's texture in the texture atlas; air has none.
    pub fn texture_index(&self) -> (r: u8)
        requires
            *self != Block::AIR,
        ensures
            r == texture_of(*self),
    {
        match self {
            Block::AIR => 0,
            Block::STONE => 0,
            Block::GRASS => 1,
            Block::DIRT => 2,
            Block::SAND => 3,
            Block::GRAVEL => 4,
            Block::ANDESITE => 5,
            Block::SNOW => 6,
            Block::WATER => 6,
        }
    }

    pub fn get_block_type(&self) -> (r: BlockType)
        ensures
            r == type_of(*self),
    {
        match self {
            Block::AIR => BlockType::INVISIBLE,
            Block::WATER => BlockType::TRANSPARENT,
            _ => BlockType::SOLID,
        }
    }

    pub fn is_solid(&self) -> (r: bool)
        ensures
            r == solid(*self),
    {
        match self.get_block_type() {
            BlockType::SOLID => true,
            _ => false,
        }
    }
}

/// The six face directions, in their fixed iteration order.
#[derive(Debug, Clone, Copy, PartialEq, Eq, Hash, Structural)]
pub enum Direction {
    NegX,
    X,
    NegY,
    Y,
    NegZ,
    Z,
}

/// Numeric encoding of a direction: axis is `code / 2`, the positive side has `code & 1 == 1`.
pub open spec fn dir_code(d: Direction) -> u8 {
    match d {
        Direction::NegX => 0,
        Direction::X => 1,
        Direction::NegY => 2,
        Direction::Y => 3,
        Direction::NegZ => 4,
        Direction::Z => 5,
    }
}

/// The direction with a given code, for codes 0 through 5.
pub open spec fn dir_of(k: int) -> Direction {
    if k == 0 {
        Direction::NegX
    } else if k == 1 {
        Direction::X
    } else if k == 2 {
        Direction::NegY
    } else if k == 3 {
        Direction::Y
    } else if k == 4 {
        Direction::NegZ
    } else {
        Direction::Z
    }
}

pub open spec fn all_directions() -> Seq<Direction> {
    seq![
        Direction::NegX,
        Direction::X,
        Direction::NegY,
        Direction::Y,
        Direction::NegZ,
        Direction::Z,
    ]
}

impl Direction {
    /// All six directions in iteration order.
    pub fn into_iter() -> (r: Vec<Direction>)
        ensures
            r@ == all_directions(),
            forall|k: int| 0 <= k < 6 ==> #[trigger] r@[k] == dir_of(k) && dir_code(r@[k]) == k,
    {
        let r = vec![
            Direction::NegX,
            Direction::X,
            Direction::NegY,
            Direction::Y,
            Direction::NegZ,
            Direction::Z,
        ];
        assert(r@ =~= all_directions());
        r
    }

    /// The numeric encoding of the direction.
    pub fn code(self) -> (r: u8)
        ensures
            r == dir_code(self),
    {
        match self {
            Direction::NegX => 0,
            Direction::X => 1,
            Direction::NegY => 2,
            Direction::Y => 3,
            Direction::NegZ => 4,
            Direction::Z => 5,
        }
    }
}

} // verus!
