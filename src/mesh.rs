use vstd::prelude::*;
use crate::blocks::{
    Block, BlockType, Direction, dir_code, dir_of, solid, texture_of, type_of,
};
use crate::chunk::{Chunk, in_interior, voxel};
use crate::coordinates::{Coordinates, step};

verus! {

/// One visible face of an opaque voxel, packed for the renderer.
///
/// `attributes` holds, from the least significant bit: x (5 bits), y (5 bits),
/// z (5 bits), texture index (8 bits) and direction code (3 bits).
/// `ao_attributes` holds the occlusion of the face's four corners, 2 bits each,
/// corner `i` at bit `2 * i`.
#[derive(Debug, Clone, Copy, PartialEq, Eq, Structural)]
pub struct QuadInstance {
    pub attributes: u32,
    pub ao_attributes: u32,
}

/// One visible face of a transparent voxel, packed as `QuadInstance::attributes`.
#[derive(Debug, Clone, Copy, PartialEq, Eq, Structural)]
pub struct TransparentQuadInstance {
    pub attributes: u32,
}

/// A face of a voxel of type `b` shows against a neighbour of type `adjacent`.
pub open spec fn face_visible(b: BlockType, adjacent: BlockType) -> bool {
    match b {
        BlockType::INVISIBLE => false,
        BlockType::SOLID => adjacent != BlockType::SOLID,
        BlockType::TRANSPARENT => adjacent == BlockType::INVISIBLE,
    }
}

/// The attribute bits of the face of voxel `(x, y, z)` facing `d`.
pub open spec fn pack_attributes(x: u32, y: u32, z: u32, tex: u8, d: Direction) -> u32 {
    x | (y << 5u32) | (z << 10u32) | ((tex as u32) << 15u32) | ((dir_code(d) as u32) << 23u32)
}

/// The attribute bits hold each field in its own bit range, so every field can be read back.
pub proof fn lemma_attributes_unpack(x: u32, y: u32, z: u32, tex: u8, d: Direction)
    requires
        x < 32,
        y < 32,
        z < 32,
    ensures
        pack_attributes(x, y, z, tex, d) & 31 == x,
        (pack_attributes(x, y, z, tex, d) >> 5u32) & 31 == y,
        (pack_attributes(x, y, z, tex, d) >> 10u32) & 31 == z,
        (pack_attributes(x, y, z, tex, d) >> 15u32) & 255 == tex as u32,
        (pack_attributes(x, y, z, tex, d) >> 23u32) & 7 == dir_code(d) as u32,
{
    let t = tex as u32;
    let c = dir_code(d) as u32;
    assert(c < 6);
    assert(({
        let a = x | (y << 5u32) | (z << 10u32) | (t << 15u32) | (c << 23u32);
        a & 31 == x && (a >> 5u32) & 31 == y && (a >> 10u32) & 31 == z && (a >> 15u32) & 255 == t
            && (a >> 23u32) & 7 == c
    })) by (bit_vector)
        requires
            x < 32,
            y < 32,
            z < 32,
            t < 256,
            c < 6,
    ;
}

/// The two axes spanning a face, in the order the renderer lays out its corners.
pub open spec fn cross_directions(d: Direction) -> (Direction, Direction) {
    match d {
        Direction::NegX => (Direction::Y, Direction::Z),
        Direction::X => (Direction::Z, Direction::Y),
        Direction::NegY => (Direction::Z, Direction::X),
        Direction::Y => (Direction::X, Direction::Z),
        Direction::NegZ => (Direction::X, Direction::Y),
        Direction::Z => (Direction::Y, Direction::X),
    }
}

/// Step signs along the two cross axes for corner `i`.
pub open spec fn corner_steps(i: int) -> (int, int) {
    (if i < 2 { -1 } else { 1 }, if i % 2 == 1 { 1 } else { -1 })
}

pub open spec fn solid_at(c: Seq<Block>, p: (int, int, int)) -> bool {
    solid(voxel(c, p.0, p.1, p.2))
}

/// Occlusion of a corner from the solidity of its two sides and its diagonal.
pub open spec fn occlusion(side1: bool, side2: bool, corner: bool) -> u32 {
    if side1 && side2 {
        3
    } else {
        ((if side1 { 1u32 } else { 0u32 }) + (if side2 { 1u32 } else { 0u32 }) + (if corner {
            1u32
        } else {
            0u32
        })) as u32
    }
}

/// Occlusion of corner `i` of the face of voxel `p` facing `d`.
pub open spec fn corner_occlusion(c: Seq<Block>, p: (int, int, int), d: Direction, i: int) -> u32 {
    let air = step(p, d, 1);
    let cross = cross_directions(d);
    let s = corner_steps(i);
    let side1 = step(air, cross.0, s.0);
    let side2 = step(air, cross.1, s.1);
    let corner = step(side1, cross.1, s.1);
    occlusion(solid_at(c, side1), solid_at(c, side2), solid_at(c, corner))
}

/// The occlusion bits of the first `n` corners.
pub open spec fn ao_upto(c: Seq<Block>, p: (int, int, int), d: Direction, n: int) -> u32
    decreases n,
{
    if n <= 0 {
        0
    } else {
        ao_upto(c, p, d, n - 1) | (corner_occlusion(c, p, d, n - 1) << ((2 * (n - 1)) as u32))
    }
}

/// The occlusion bits of the face of voxel `p` facing `d`.
pub open spec fn ao_of(c: Seq<Block>, p: (int, int, int), d: Direction) -> u32 {
    ao_upto(c, p, d, 4)
}

pub open spec fn neighbor_type(c: Seq<Block>, x: int, y: int, z: int, d: Direction) -> BlockType {
    let n = step((x, y, z), d, 1);
    type_of(voxel(c, n.0, n.1, n.2))
}

/// The opaque record of the face of voxel `(x, y, z)` facing `d`, if that face shows.
pub open spec fn opaque_face(c: Seq<Block>, x: int, y: int, z: int, d: Direction) -> Seq<
    QuadInstance,
> {
    let b = voxel(c, x, y, z);
    if type_of(b) == BlockType::SOLID && face_visible(type_of(b), neighbor_type(c, x, y, z, d)) {
        seq![
            QuadInstance {
                attributes: pack_attributes(x as u32, y as u32, z as u32, texture_of(b), d),
                ao_attributes: ao_of(c, (x, y, z), d),
            },
        ]
    } else {
        seq![]
    }
}

/// The transparent record of the face of voxel `(x, y, z)` facing `d`, if that face shows.
pub open spec fn transparent_face(c: Seq<Block>, x: int, y: int, z: int, d: Direction) -> Seq<
    TransparentQuadInstance,
> {
    let b = voxel(c, x, y, z);
    if type_of(b) == BlockType::TRANSPARENT && face_visible(
        type_of(b),
        neighbor_type(c, x, y, z, d),
    ) {
        seq![
            TransparentQuadInstance {
                attributes: pack_attributes(x as u32, y as u32, z as u32, texture_of(b), d),
            },
        ]
    } else {
        seq![]
    }
}

/// Opaque records of voxel `(x, y, z)` for the first `k` directions.
pub open spec fn voxel_opaque(c: Seq<Block>, x: int, y: int, z: int, k: int) -> Seq<QuadInstance>
    decreases k,
{
    if k <= 0 {
        seq![]
    } else {
        voxel_opaque(c, x, y, z, k - 1) + opaque_face(c, x, y, z, dir_of(k - 1))
    }
}

/// Opaque records of the voxels `(x, y, 0..n)`.
pub open spec fn row_opaque(c: Seq<Block>, x: int, y: int, n: int) -> Seq<QuadInstance>
    decreases n,
{
    if n <= 0 {
        seq![]
    } else {
        row_opaque(c, x, y, n - 1) + voxel_opaque(c, x, y, n - 1, 6)
    }
}

/// Opaque records of the voxels `(x, 0..n, _)`.
pub open spec fn slab_opaque(c: Seq<Block>, x: int, n: int) -> Seq<QuadInstance>
    decreases n,
{
    if n <= 0 {
        seq![]
    } else {
        slab_opaque(c, x, n - 1) + row_opaque(c, x, n - 1, 32)
    }
}

/// Opaque records of the voxels `(0..n, _, _)`.
pub open spec fn opaque_upto(c: Seq<Block>, n: int) -> Seq<QuadInstance>
    decreases n,
{
    if n <= 0 {
        seq![]
    } else {
        opaque_upto(c, n - 1) + slab_opaque(c, n - 1, 32)
    }
}

/// Every opaque face record of a chunk, in x, y, z, direction order.
pub open spec fn mesh_opaque(c: Seq<Block>) -> Seq<QuadInstance> {
    opaque_upto(c, 32)
}

/// Transparent records of voxel `(x, y, z)` for the first `k` directions.
pub open spec fn voxel_transparent(c: Seq<Block>, x: int, y: int, z: int, k: int) -> Seq<
    TransparentQuadInstance,
>
    decreases k,
{
    if k <= 0 {
        seq![]
    } else {
        voxel_transparent(c, x, y, z, k - 1) + transparent_face(c, x, y, z, dir_of(k - 1))
    }
}

pub open spec fn row_transparent(c: Seq<Block>, x: int, y: int, n: int) -> Seq<
    TransparentQuadInstance,
>
    decreases n,
{
    if n <= 0 {
        seq![]
    } else {
        row_transparent(c, x, y, n - 1) + voxel_transparent(c, x, y, n - 1, 6)
    }
}

pub open spec fn slab_transparent(c: Seq<Block>, x: int, n: int) -> Seq<TransparentQuadInstance>
    decreases n,
{
    if n <= 0 {
        seq![]
    } else {
        slab_transparent(c, x, n - 1) + row_transparent(c, x, n - 1, 32)
    }
}

pub open spec fn transparent_upto(c: Seq<Block>, n: int) -> Seq<TransparentQuadInstance>
    decreases n,
{
    if n <= 0 {
        seq![]
    } else {
        transparent_upto(c, n - 1) + slab_transparent(c, n - 1, 32)
    }
}

/// Every transparent face record of a chunk, in x, y, z, direction order.
pub open spec fn mesh_transparent(c: Seq<Block>) -> Seq<TransparentQuadInstance> {
    transparent_upto(c, 32)
}

pub open spec fn interior_point(p: (int, int, int)) -> bool {
    in_interior(p.0) && in_interior(p.1) && in_interior(p.2)
}

/// An invisible voxel has no face in any direction.
proof fn lemma_invisible_voxel_has_no_faces(c: Seq<Block>, x: int, y: int, z: int, k: int)
    requires
        type_of(voxel(c, x, y, z)) == BlockType::INVISIBLE,
    ensures
        voxel_opaque(c, x, y, z, k) == Seq::<QuadInstance>::empty(),
        voxel_transparent(c, x, y, z, k) == Seq::<TransparentQuadInstance>::empty(),
    decreases k,
{
    if k > 0 {
        lemma_invisible_voxel_has_no_faces(c, x, y, z, k - 1);
        assert(voxel_opaque(c, x, y, z, k) =~= Seq::<QuadInstance>::empty());
        assert(voxel_transparent(c, x, y, z, k) =~= Seq::<TransparentQuadInstance>::empty());
    }
}

/// Meshing depends on the voxels alone: meshing the same chunk contents twice gives
/// the same face records, as sequences and so as multisets.
pub proof fn lemma_mesh_repeatable(a: Seq<Block>, b: Seq<Block>)
    requires
        a == b,
    ensures
        mesh_opaque(a) == mesh_opaque(b),
        mesh_transparent(a) == mesh_transparent(b),
        mesh_opaque(a).to_multiset() == mesh_opaque(b).to_multiset(),
        mesh_transparent(a).to_multiset() == mesh_transparent(b).to_multiset(),
{
}

proof fn lemma_four_corners(a: u32, b: u32, c: u32, d: u32)
    requires
        a <= 3,
        b <= 3,
        c <= 3,
        d <= 3,
    ensures
        ({
            let f = (((0u32 | (a << 0u32)) | (b << 2u32)) | (c << 4u32)) | (d << 6u32);
            &&& (f >> 0u32) & 3 == a
            &&& (f >> 2u32) & 3 == b
            &&& (f >> 4u32) & 3 == c
            &&& (f >> 6u32) & 3 == d
            &&& f < 256
        }),
{
    assert({
        let f = (((0u32 | (a << 0u32)) | (b << 2u32)) | (c << 4u32)) | (d << 6u32);
        &&& (f >> 0u32) & 3 == a
        &&& (f >> 2u32) & 3 == b
        &&& (f >> 4u32) & 3 == c
        &&& (f >> 6u32) & 3 == d
        &&& f < 256
    }) by (bit_vector)
        requires
            a <= 3,
            b <= 3,
            c <= 3,
            d <= 3,
    ;
}

/// Every corner occlusion value is at most 3 and is stored in its own two bits;
/// a corner whose two side neighbours are solid has occlusion 3 whatever its diagonal.
pub proof fn lemma_ao_bounds(c: Seq<Block>, p: (int, int, int), d: Direction)
    ensures
        ao_of(c, p, d) < 256,
        forall|i: int|
            0 <= i < 4 ==> #[trigger] corner_occlusion(c, p, d, i) <= 3 && (ao_of(c, p, d) >> ((2
                * i) as u32)) & 3 == corner_occlusion(c, p, d, i),
        forall|side1: bool, side2: bool, corner: bool|
            #[trigger] occlusion(side1, side2, corner) <= 3 && (side1 && side2 ==> occlusion(
                side1,
                side2,
                corner,
            ) == 3),
{
    let v0 = corner_occlusion(c, p, d, 0);
    let v1 = corner_occlusion(c, p, d, 1);
    let v2 = corner_occlusion(c, p, d, 2);
    let v3 = corner_occlusion(c, p, d, 3);
    reveal_with_fuel(ao_upto, 5);
    assert(ao_of(c, p, d) == (((0u32 | (v0 << 0u32)) | (v1 << 2u32)) | (v2 << 4u32)) | (v3
        << 6u32));
    lemma_four_corners(v0, v1, v2, v3);
    assert forall|i: int| 0 <= i < 4 implies #[trigger] corner_occlusion(c, p, d, i) <= 3 && (ao_of(
        c,
        p,
        d,
    ) >> ((2 * i) as u32)) & 3 == corner_occlusion(c, p, d, i) by {
        let f = ao_of(c, p, d);
        if i == 0 {
            assert(((2 * i) as u32) == 0u32);
            assert((f >> 0u32) & 3 == v0);
        } else if i == 1 {
            assert(((2 * i) as u32) == 2u32);
            assert((f >> 2u32) & 3 == v1);
        } else if i == 2 {
            assert(((2 * i) as u32) == 4u32);
            assert((f >> 4u32) & 3 == v2);
        } else {
            assert(((2 * i) as u32) == 6u32);
            assert((f >> 6u32) & 3 == v3);
        }
    }
}

impl Chunk {
    /// The face records of every visible face of the chunk's interior voxels: opaque
    /// faces with their corner occlusion, and transparent faces.
    pub fn generate_mesh(&self) -> (r: (Vec<QuadInstance>, Vec<TransparentQuadInstance>))
        requires
            self.wf(),
        ensures
            r.0@ == mesh_opaque(self@),
            r.1@ == mesh_transparent(self@),
    {
        let mut solid_instances: Vec<QuadInstance> = Vec::new();
        let mut transparent_instances: Vec<TransparentQuadInstance> = Vec::new();
        let directions = Direction::into_iter();
        let ghost c = self@;

        let mut x: i32 = 0;
        while x < 32
            invariant
                self.wf(),
                c == self@,
                directions@ == crate::blocks::all_directions(),
                0 <= x <= 32,
                solid_instances@ == opaque_upto(c, x as int),
                transparent_instances@ == transparent_upto(c, x as int),
            decreases 32 - x,
        {
            let mut y: i32 = 0;
            while y < 32
                invariant
                    self.wf(),
                    c == self@,
                    directions@ == crate::blocks::all_directions(),
                    0 <= x < 32,
                    0 <= y <= 32,
                    solid_instances@ == opaque_upto(c, x as int) + slab_opaque(c, x as int, y as int),
                    transparent_instances@ == transparent_upto(c, x as int) + slab_transparent(
                        c,
                        x as int,
                        y as int,
                    ),
                decreases 32 - y,
            {
                let mut z: i32 = 0;
                while z < 32
                    invariant
                        self.wf(),
                        c == self@,
                        directions@ == crate::blocks::all_directions(),
                        0 <= x < 32,
                        0 <= y < 32,
                        0 <= z <= 32,
                        solid_instances@ == opaque_upto(c, x as int) + (slab_opaque(
                            c,
                            x as int,
                            y as int,
                        ) + row_opaque(c, x as int, y as int, z as int)),
                        transparent_instances@ == transparent_upto(c, x as int) + (
                        slab_transparent(c, x as int, y as int) + row_transparent(
                            c,
                            x as int,
                            y as int,
                            z as int,
                        )),
                    decreases 32 - z,
                {
                    let ghost solid_before = solid_instances@;
                    let ghost transparent_before = transparent_instances@;
                    let block = *self.at(x, y, z);
                    let block_type = block.get_block_type();
                    match block_type {
                        BlockType::INVISIBLE => {
                            proof {
                                lemma_invisible_voxel_has_no_faces(c, x as int, y as int, z as int, 6);
                            }
                        },
                        _ => {
                            let tex_index = block.texture_index();
                            let common_packed_bits: u32 = (x as u32) | ((y as u32) << 5u32) | ((
                            z as u32) << 10u32) | ((tex_index as u32) << 15u32);

                            let mut k: usize = 0;
                            while k < 6
                                invariant
                                    self.wf(),
                                    c == self@,
                                    directions@ == crate::blocks::all_directions(),
                                    0 <= x < 32,
                                    0 <= y < 32,
                                    0 <= z < 32,
                                    k <= 6,
                                    block == voxel(c, x as int, y as int, z as int),
                                    block_type == type_of(block),
                                    block_type != BlockType::INVISIBLE,
                                    tex_index == texture_of(block),
                                    common_packed_bits == (x as u32) | ((y as u32) << 5u32) | ((
                                    z as u32) << 10u32) | ((tex_index as u32) << 15u32),
                                    solid_instances@ == solid_before + voxel_opaque(
                                        c,
                                        x as int,
                                        y as int,
                                        z as int,
                                        k as int,
                                    ),
                                    transparent_instances@ == transparent_before
                                        + voxel_transparent(
                                        c,
                                        x as int,
                                        y as int,
                                        z as int,
                                        k as int,
                                    ),
                                decreases 6 - k,
                            {
                                let direction = directions[k];
                                assert(direction == dir_of(k as int));
                                let here = Coordinates::new(x, y, z);
                                let adjacent = self.at_coords(here.go(direction, 1)).get_block_type();
                                let ghost so = solid_instances@;
                                let ghost tr = transparent_instances@;
                                if Chunk::is_face_visible(block_type, adjacent) {
                                    let attributes = common_packed_bits | ((direction.code() as u32)
                                        << 23u32);
                                    match block_type {
                                        BlockType::SOLID => {
                                            let ao_attributes = self.get_ao_attributes(here, direction);
                                            solid_instances.push(
                                                QuadInstance { attributes, ao_attributes },
                                            );
                                        },
                                        _ => {
                                            transparent_instances.push(
                                                TransparentQuadInstance { attributes },
                                            );
                                        },
                                    }
                                }
                                assert(solid_instances@ =~= so + opaque_face(
                                    c,
                                    x as int,
                                    y as int,
                                    z as int,
                                    direction,
                                ));
                                assert(transparent_instances@ =~= tr + transparent_face(
                                    c,
                                    x as int,
                                    y as int,
                                    z as int,
                                    direction,
                                ));
                                k += 1;
                            }
                        },
                    }
                    assert(solid_instances@ =~= opaque_upto(c, x as int) + (slab_opaque(
                        c,
                        x as int,
                        y as int,
                    ) + row_opaque(c, x as int, y as int, z + 1)));
                    assert(transparent_instances@ =~= transparent_upto(c, x as int) + (
                    slab_transparent(c, x as int, y as int) + row_transparent(
                        c,
                        x as int,
                        y as int,
                        z + 1,
                    )));
                    z += 1;
                }
                assert(solid_instances@ =~= opaque_upto(c, x as int) + slab_opaque(
                    c,
                    x as int,
                    y + 1,
                ));
                assert(transparent_instances@ =~= transparent_upto(c, x as int) + slab_transparent(
                    c,
                    x as int,
                    y + 1,
                ));
                y += 1;
            }
            assert(solid_instances@ =~= opaque_upto(c, x + 1));
            assert(transparent_instances@ =~= transparent_upto(c, x + 1));
            x += 1;
        }

        (solid_instances, transparent_instances)
    }

    pub fn is_face_visible(block: BlockType, adjacent_block: BlockType) -> (r: bool)
        ensures
            r == face_visible(block, adjacent_block),
    {
        match block {
            BlockType::INVISIBLE => false,
            BlockType::SOLID => match adjacent_block {
                BlockType::SOLID => false,
                BlockType::TRANSPARENT | BlockType::INVISIBLE => true,
            },
            BlockType::TRANSPARENT => match adjacent_block {
                BlockType::SOLID | BlockType::TRANSPARENT => false,
                BlockType::INVISIBLE => true,
            },
        }
    }

    /// The occlusion bits of the face of the interior voxel `block` facing `direction`.
    #[verifier::rlimit(60)]
    pub fn get_ao_attributes(&self, block: Coordinates, direction: Direction) -> (r: u32)
        requires
            self.wf(),
            interior_point(block@),
        ensures
            r == ao_of(self@, block@, direction),
    {
        let cross_directions = match direction {
            Direction::NegX => (Direction::Y, Direction::Z),
            Direction::X => (Direction::Z, Direction::Y),
            Direction::NegY => (Direction::Z, Direction::X),
            Direction::Y => (Direction::X, Direction::Z),
            Direction::NegZ => (Direction::X, Direction::Y),
            Direction::Z => (Direction::Y, Direction::X),
        };
        let air_block = block.go(direction, 1);

        let mut factor: u32 = 0;
        let mut i: u32 = 0;
        while i < 4
            invariant
                self.wf(),
                interior_point(block@),
                air_block@ == step(block@, direction, 1),
                cross_directions == crate::mesh::cross_directions(direction),
                i <= 4,
                factor == ao_upto(self@, block@, direction, i as int),
            decreases 4 - i,
        {
            let step_0: i32 = if i < 2 { -1 } else { 1 };
            let step_1: i32 = if i & 1 == 1 { 1 } else { -1 };
            assert(i & 1 == i % 2) by (bit_vector);

            let side_1 = self.at_coords(air_block.go(cross_directions.0, step_0)).is_solid();
            let side_2 = self.at_coords(air_block.go(cross_directions.1, step_1)).is_solid();
            let corner = self.at_coords(
                air_block.go(cross_directions.0, step_0).go(cross_directions.1, step_1),
            ).is_solid();

            let value: u32 = if side_1 && side_2 {
                3
            } else {
                (side_1 as u32) + (side_2 as u32) + (corner as u32)
            };
            assert(value == corner_occlusion(self@, block@, direction, i as int));

            factor = factor | (value << (2 * i));
            i += 1;
        }

        factor
    }
}

} // verus!
