use vstd::prelude::*;
use std::collections::{HashMap, HashSet};
use crate::blocks::Block;
use crate::chunk::{Chunk, ChunkStack, ChunkUVW, ChunkUW, VERTICAL_CHUNK_COUNT};
use crate::mesh::{QuadInstance, TransparentQuadInstance, mesh_opaque, mesh_transparent};
use crate::world::{World, column_key, column_key_of};

verus! {

broadcast use vstd::std_specs::hash::group_hash_axioms;

/// Most background tasks in flight at once.
pub const MAX_CHUNKS_THREAD_LIMIT: usize = 8;
/// Largest supported view distance, in columns.
pub const MAX_VIEW_DISTANCE: u32 = 1024;
/// Largest supported distance of the camera's column from the origin, per axis.
pub const MAX_CAMERA_COLUMN: i32 = 0x4000_0000;

/// The columns at Chebyshev distance `r` from `(cu, cw)`: the rows `w = cw + r` and
/// `w = cw - r` from `u = cu - r` to `cu + r`, interleaved, then the columns `u = cu + r`
/// and `u = cu - r` from `w = cw - r + 1` to `cw + r - 1`, interleaved.
pub open spec fn ring_shell(cu: int, cw: int, r: int) -> Seq<ChunkUW> {
    Seq::new(
        (8 * r) as nat,
        |j: int|
            if j < 4 * r + 2 {
                let x = j / 2 - r;
                if j % 2 == 0 {
                    ((x + cu) as i32, (r + cw) as i32)
                } else {
                    ((x + cu) as i32, (cw - r) as i32)
                }
            } else {
                let z = (j - (4 * r + 2)) / 2 - (r - 1);
                if (j - (4 * r + 2)) % 2 == 0 {
                    ((cu + r) as i32, (z + cw) as i32)
                } else {
                    ((cu - r) as i32, (z + cw) as i32)
                }
            },
    )
}

/// The columns within distance `n` of `(cu, cw)`, as expanding square rings.
pub open spec fn ring_order(cu: int, cw: int, n: int) -> Seq<ChunkUW>
    decreases n,
{
    if n <= 0 {
        seq![(cu as i32, cw as i32)]
    } else {
        ring_order(cu, cw, n - 1) + ring_shell(cu, cw, n)
    }
}

/// The chunks of levels `lo..=hi` of column `uw`.
pub open spec fn column_levels(uw: ChunkUW, lo: int, hi: int) -> Seq<ChunkUVW> {
    if lo <= hi {
        Seq::new((hi - lo + 1) as nat, |k: int| (uw.0, (lo + k) as i32, uw.1))
    } else {
        seq![]
    }
}

/// The chunks of levels `lo..=hi` of the first `n` columns of `columns`.
pub open spec fn levels_upto(columns: Seq<ChunkUW>, n: int, lo: int, hi: int) -> Seq<ChunkUVW>
    decreases n,
{
    if n <= 0 {
        seq![]
    } else {
        levels_upto(columns, n - 1, lo, hi) + column_levels(columns[n - 1], lo, hi)
    }
}

/// `p` cut into consecutive batches of `size` items (the last one possibly shorter),
/// at most `cap` of them.
pub open spec fn batches_of(p: Seq<ChunkUW>, size: int, cap: int) -> Seq<Seq<ChunkUW>>
    decreases p.len(),
{
    if cap <= 0 || p.len() == 0 || size <= 0 {
        seq![]
    } else if p.len() <= size {
        seq![p]
    } else {
        seq![p.take(size)] + batches_of(p.skip(size), size, cap - 1)
    }
}

/// `x` is one of the first `n` items of `p`.
pub open spec fn in_prefix(p: Seq<ChunkUW>, n: int, x: ChunkUW) -> bool {
    exists|k: int| 0 <= k < n && p[k] == x
}

/// No column occurs twice in the batches.
pub open spec fn items_distinct(bs: Seq<Seq<ChunkUW>>) -> bool {
    forall|b1: int, i1: int, b2: int, i2: int|
        0 <= b1 < bs.len() && 0 <= i1 < bs[b1].len() && 0 <= b2 < bs.len() && 0 <= i2
            < bs[b2].len() && (b1 != b2 || i1 != i2) ==> #[trigger] bs[b1][i1] != #[trigger] bs[b2][i2]
}

/// Every item of a batch is an item of the sequence that was cut.
pub proof fn lemma_batches_from(p: Seq<ChunkUW>, size: int, cap: int)
    ensures
        forall|b: int, i: int|
            0 <= b < batches_of(p, size, cap).len() && 0 <= i < batches_of(p, size, cap)[b].len()
                ==> p.contains(#[trigger] batches_of(p, size, cap)[b][i]),
    decreases p.len(),
{
    if cap <= 0 || p.len() == 0 || size <= 0 {
    } else if p.len() <= size {
        assert forall|b: int, i: int|
            0 <= b < batches_of(p, size, cap).len() && 0 <= i < batches_of(p, size, cap)[b].len()
                implies p.contains(#[trigger] batches_of(p, size, cap)[b][i]) by {
            assert(p[i] == batches_of(p, size, cap)[b][i]);
        }
    } else {
        lemma_batches_from(p.skip(size), size, cap - 1);
        let rest = batches_of(p.skip(size), size, cap - 1);
        assert forall|b: int, i: int|
            0 <= b < batches_of(p, size, cap).len() && 0 <= i < batches_of(p, size, cap)[b].len()
                implies p.contains(#[trigger] batches_of(p, size, cap)[b][i]) by {
            if b == 0 {
                assert(p[i] == batches_of(p, size, cap)[b][i]);
            } else {
                assert(batches_of(p, size, cap)[b] == rest[b - 1]);
                let x = rest[b - 1][i];
                let j = choose|j: int| 0 <= j < p.skip(size).len() && p.skip(size)[j] == x;
                assert(p[j + size] == x);
            }
        }
    }
}

/// The columns within `view_distance` of the camera's column, nearest rings first.
pub fn ring_columns(camera: ChunkUVW, view_distance: u32) -> (r: Vec<ChunkUW>)
    requires
        view_distance <= MAX_VIEW_DISTANCE,
        -MAX_CAMERA_COLUMN <= camera.0 <= MAX_CAMERA_COLUMN,
        -MAX_CAMERA_COLUMN <= camera.2 <= MAX_CAMERA_COLUMN,
    ensures
        r@ == ring_order(camera.0 as int, camera.2 as int, view_distance as int),
{
    let (camera_u, _, camera_w) = camera;
    let ghost cu = camera_u as int;
    let ghost cw = camera_w as int;
    let mut chunks_in_order: Vec<ChunkUW> = Vec::new();
    chunks_in_order.push((camera_u, camera_w));
    let d = view_distance as i32;
    let mut radius: i32 = 1;
    while radius <= d
        invariant
            d == view_distance,
            d <= MAX_VIEW_DISTANCE,
            cu == camera_u && cw == camera_w,
            -MAX_CAMERA_COLUMN <= camera_u <= MAX_CAMERA_COLUMN,
            -MAX_CAMERA_COLUMN <= camera_w <= MAX_CAMERA_COLUMN,
            1 <= radius <= d + 1,
            chunks_in_order@ == ring_order(cu, cw, radius - 1),
        decreases d + 1 - radius,
    {
        let ghost before = chunks_in_order@;
        let ghost shell = ring_shell(cu, cw, radius as int);
        let mut x: i32 = -radius;
        while x <= radius
            invariant
                1 <= radius <= d,
                d <= MAX_VIEW_DISTANCE,
                cu == camera_u && cw == camera_w,
                -MAX_CAMERA_COLUMN <= camera_u <= MAX_CAMERA_COLUMN,
                -MAX_CAMERA_COLUMN <= camera_w <= MAX_CAMERA_COLUMN,
                -radius <= x <= radius + 1,
                shell == ring_shell(cu, cw, radius as int),
                chunks_in_order@ == before + shell.take(2 * (x + radius)),
            decreases radius + 1 - x,
        {
            chunks_in_order.push((x + camera_u, radius + camera_w));
            chunks_in_order.push((x + camera_u, -radius + camera_w));
            assert(chunks_in_order@ =~= before + shell.take(2 * (x + 1 + radius)));
            x += 1;
        }
        let mut z: i32 = -(radius - 1);
        while z < radius
            invariant
                1 <= radius <= d,
                d <= MAX_VIEW_DISTANCE,
                cu == camera_u && cw == camera_w,
                -MAX_CAMERA_COLUMN <= camera_u <= MAX_CAMERA_COLUMN,
                -MAX_CAMERA_COLUMN <= camera_w <= MAX_CAMERA_COLUMN,
                -(radius - 1) <= z <= radius,
                shell == ring_shell(cu, cw, radius as int),
                chunks_in_order@ == before + shell.take(4 * radius + 2 + 2 * (z + radius - 1)),
            decreases radius - z,
        {
            chunks_in_order.push((radius + camera_u, z + camera_w));
            chunks_in_order.push((-radius + camera_u, z + camera_w));
            assert(chunks_in_order@ =~= before + shell.take(
                4 * radius + 2 + 2 * (z + 1 + radius - 1),
            ));
            z += 1;
        }
        assert(shell.take(8 * radius) =~= shell);
        radius += 1;
    }
    chunks_in_order
}

/// The chunks of levels `max(0, v - d)..=min(VERTICAL_CHUNK_COUNT - 1, v + d)` of every
/// column of `columns`, column by column.
pub fn column_chunks(columns: &Vec<ChunkUW>, v: i32, view_distance: u32) -> (r: Vec<ChunkUVW>)
    requires
        view_distance <= MAX_VIEW_DISTANCE,
        -MAX_CAMERA_COLUMN <= v <= MAX_CAMERA_COLUMN,
    ensures
        r@ == levels_upto(
            columns@,
            columns@.len() as int,
            if v - view_distance > 0 { v - view_distance } else { 0 },
            if v + view_distance < VERTICAL_CHUNK_COUNT - 1 { v + view_distance } else { VERTICAL_CHUNK_COUNT - 1 },
        ),
{
    let d = view_distance as i32;
    let v_min: i32 = if v - d > 0 { v - d } else { 0 };
    let v_max: i32 = if v + d < VERTICAL_CHUNK_COUNT as i32 - 1 { v + d } else { VERTICAL_CHUNK_COUNT as i32 - 1 };
    let mut out: Vec<ChunkUVW> = Vec::new();
    let mut i: usize = 0;
    while i < columns.len()
        invariant
            0 <= v_min,
            v_max <= 7,
            i <= columns@.len(),
            out@ == levels_upto(columns@, i as int, v_min as int, v_max as int),
        decreases columns@.len() - i,
    {
        let uw = columns[i];
        let ghost before = out@;
        let mut level: i32 = v_min;
        while level <= v_max
            invariant
                0 <= v_min,
                v_max <= 7,
                v_min <= level,
                level <= v_max + 1 || v_min > v_max,
                uw == columns@[i as int],
                i < columns@.len(),
                out@ == before + column_levels(uw, v_min as int, v_max as int).take(
                    if v_min <= v_max { level - v_min } else { 0 },
                ),
            decreases v_max + 1 - level,
        {
            out.push((uw.0, level, uw.1));
            assert(out@ =~= before + column_levels(uw, v_min as int, v_max as int).take(
                level + 1 - v_min,
            ));
            level += 1;
        }
        assert(out@ =~= levels_upto(columns@, i + 1, v_min as int, v_max as int));
        i += 1;
    }
    out
}

/// `pending` cut into batches of `size` columns, at most `cap` batches.
pub fn plan_batches(pending: &Vec<ChunkUW>, size: usize, cap: usize) -> (r: Vec<Vec<ChunkUW>>)
    requires
        size > 0,
    ensures
        r@.map_values(|b: Vec<ChunkUW>| b@) == batches_of(pending@, size as int, cap as int),
        pending@.no_duplicates() ==> items_distinct(r@.map_values(|b: Vec<ChunkUW>| b@)),
{
    let ghost p = pending@;
    let mut batches: Vec<Vec<ChunkUW>> = Vec::new();
    let mut i: usize = 0;
    assert(p.skip(0) =~= p);
    assert(batches@.map_values(|b: Vec<ChunkUW>| b@) =~= Seq::<Seq<ChunkUW>>::empty());
    while batches.len() < cap && i < pending.len()
        invariant
            size > 0,
            p == pending@,
            i <= p.len(),
            batches@.len() <= cap,
            batches@.map_values(|b: Vec<ChunkUW>| b@) + batches_of(
                p.skip(i as int),
                size as int,
                cap - batches@.len(),
            ) == batches_of(p, size as int, cap as int),
            forall|b: int, j: int|
                0 <= b < batches@.len() && 0 <= j < batches@[b]@.len() ==> in_prefix(
                    p,
                    i as int,
                    #[trigger] batches@[b]@[j],
                ),
            p.no_duplicates() ==> items_distinct(batches@.map_values(|b: Vec<ChunkUW>| b@)),
        decreases p.len() - i,
    {
        let end: usize = if pending.len() - i > size { i + size } else { pending.len() };
        let mut batch: Vec<ChunkUW> = Vec::new();
        let mut j: usize = i;
        while j < end
            invariant
                i <= j <= end,
                end <= p.len(),
                p == pending@,
                batch@ == p.subrange(i as int, j as int),
            decreases end - j,
        {
            batch.push(pending[j]);
            assert(batch@ =~= p.subrange(i as int, j + 1));
            j += 1;
        }
        let ghost rest = p.skip(i as int);
        let ghost done = batches@.map_values(|b: Vec<ChunkUW>| b@);
        assert(p.skip(end as int) =~= rest.skip(size as int) || end == p.len());
        if end == pending.len() {
            assert(batch@ =~= rest);
        } else {
            assert(batch@ =~= rest.take(size as int));
        }
        let ghost old_batches = batches@;
        batches.push(batch);
        assert(batches@.map_values(|b: Vec<ChunkUW>| b@) =~= done + seq![batch@]);
        assert forall|b: int, j: int|
            0 <= b < batches@.len() && 0 <= j < batches@[b]@.len() implies in_prefix(
                p,
                end as int,
                #[trigger] batches@[b]@[j],
            ) by {
            if b < old_batches.len() {
                assert(batches@[b] == old_batches[b]);
                assert(in_prefix(p, i as int, old_batches[b]@[j]));
            } else {
                assert(p[i + j] == batches@[b]@[j]);
            }
        }
        proof {
            if p.no_duplicates() {
                let bs = batches@.map_values(|b: Vec<ChunkUW>| b@);
                assert forall|b1: int, i1: int, b2: int, i2: int|
                    0 <= b1 < bs.len() && 0 <= i1 < bs[b1].len() && 0 <= b2 < bs.len() && 0 <= i2
                        < bs[b2].len() && (b1 != b2 || i1 != i2) implies #[trigger] bs[b1][i1]
                    != #[trigger] bs[b2][i2] by {
                    if b1 < old_batches.len() && b2 < old_batches.len() {
                        assert(bs[b1] == done[b1]);
                        assert(bs[b2] == done[b2]);
                    } else if b1 < old_batches.len() {
                        assert(in_prefix(p, i as int, old_batches[b1]@[i1]));
                        assert(bs[b2][i2] == p[i + i2]);
                    } else if b2 < old_batches.len() {
                        assert(in_prefix(p, i as int, old_batches[b2]@[i2]));
                        assert(bs[b1][i1] == p[i + i1]);
                    } else {
                        assert(bs[b1][i1] == p[i + i1]);
                        assert(bs[b2][i2] == p[i + i2]);
                    }
                }
            }
        }
        if end == pending.len() {
            assert(batches_of(p.skip(end as int), size as int, cap - batches@.len()) =~= seq![]);
        }
        assert(batches@.map_values(|b: Vec<ChunkUW>| b@) + batches_of(
            p.skip(end as int),
            size as int,
            cap - batches@.len(),
        ) =~= done + batches_of(rest, size as int, cap - done.len()));
        i = end;
    }
    if i == pending.len() {
        assert(batches_of(p.skip(i as int), size as int, cap - batches@.len()) =~= seq![]);
    }
    assert(batches@.map_values(|b: Vec<ChunkUW>| b@) =~= batches_of(p, size as int, cap as int));
    batches
}


/// The face records of one chunk.
pub struct ChunkMeshes {
    pub quads: Vec<QuadInstance>,
    pub transparent_quads: Vec<TransparentQuadInstance>,
}

impl ChunkMeshes {
    /// The records are the mesh of a chunk with voxels `c`.
    pub open spec fn meshes_chunk(&self, c: Seq<Block>) -> bool {
        &&& self.quads@ == mesh_opaque(c)
        &&& self.transparent_quads@ == mesh_transparent(c)
    }
}

/// One column handed to a background task, with its stack where it was already generated.
pub struct ChunkMeshingTaskInput {
    pub uw: ChunkUW,
    pub chunk_stack: Option<ChunkStack>,
}

/// One column as a background task returns it: its stack and the mesh of each chunk.
pub struct ChunkMeshingTaskOutput {
    pub uw: ChunkUW,
    pub chunk_stack: ChunkStack,
    pub chunk_meshes: Vec<ChunkMeshes>,
}

impl ChunkMeshingTaskOutput {
    /// `chunk_meshes[v]` is the mesh of chunk `v` of the stack.
    pub open spec fn meshes_stack(&self) -> bool {
        &&& self.chunk_meshes@.len() == VERTICAL_CHUNK_COUNT
        &&& forall|v: int|
            0 <= v < VERTICAL_CHUNK_COUNT ==> (#[trigger] self.chunk_meshes@[v]).meshes_chunk(
                self.chunk_stack.chunks@[v]@,
            )
    }
}

impl ChunkMeshingTaskInput {
    /// The work of a background task for one column: the stack handed over, or else the
    /// one generated from `samples`, and the mesh of each of its chunks.
    pub fn process(self, samples: &Vec<u32>) -> (r: ChunkMeshingTaskOutput)
        requires
            self.chunk_stack matches Some(s) ==> s.wf(),
            self.chunk_stack is None ==> samples@.len() == 1156,
        ensures
            r.uw == self.uw,
            match self.chunk_stack {
                Some(s) => r.chunk_stack == s,
                None => r.chunk_stack.generated_from(self.uw, samples@),
            },
            r.chunk_stack.wf(),
            r.meshes_stack(),
    {
        let chunk_stack = match self.chunk_stack {
            Some(s) => s,
            None => Chunk::generate_stack(self.uw, samples),
        };
        let mut chunk_meshes: Vec<ChunkMeshes> = Vec::new();
        let mut v: usize = 0;
        while v < VERTICAL_CHUNK_COUNT
            invariant
                chunk_stack.wf(),
                v <= VERTICAL_CHUNK_COUNT,
                chunk_meshes@.len() == v,
                forall|w: int|
                    0 <= w < v ==> (#[trigger] chunk_meshes@[w]).meshes_chunk(
                        chunk_stack.chunks@[w]@,
                    ),
            decreases VERTICAL_CHUNK_COUNT - v,
        {
            let (quads, transparent_quads) = chunk_stack.chunks[v].generate_mesh();
            chunk_meshes.push(ChunkMeshes { quads, transparent_quads });
            v += 1;
        }
        ChunkMeshingTaskOutput { uw: self.uw, chunk_stack, chunk_meshes }
    }
}

/// Column `uw` belongs to one of the tasks in flight.
pub open spec fn in_flight(tasks: Seq<Seq<ChunkUW>>, uw: ChunkUW) -> bool {
    exists|t: int| 0 <= t < tasks.len() && #[trigger] tasks[t].contains(uw)
}

/// The first `n` visible columns that are neither in flight nor meshed, each once.
pub open spec fn pending_upto(
    tasks: Seq<Seq<ChunkUW>>,
    meshes: Map<u64, Vec<ChunkMeshes>>,
    visible: Seq<ChunkUW>,
    n: int,
) -> Seq<ChunkUW>
    decreases n,
{
    if n <= 0 {
        seq![]
    } else {
        let prev = pending_upto(tasks, meshes, visible, n - 1);
        let uw = visible[n - 1];
        if !in_flight(tasks, uw) && !meshes.contains_key(column_key(uw)) && !prev.contains(uw) {
            prev.push(uw)
        } else {
            prev
        }
    }
}

/// Pending columns are distinct, and none is in flight or meshed.
pub proof fn lemma_pending(
    tasks: Seq<Seq<ChunkUW>>,
    meshes: Map<u64, Vec<ChunkMeshes>>,
    visible: Seq<ChunkUW>,
    n: int,
)
    ensures
        pending_upto(tasks, meshes, visible, n).no_duplicates(),
        forall|j: int|
            0 <= j < pending_upto(tasks, meshes, visible, n).len() ==> {
                let uw = #[trigger] pending_upto(tasks, meshes, visible, n)[j];
                &&& !in_flight(tasks, uw)
                &&& !meshes.contains_key(column_key(uw))
            },
    decreases n,
{
    if n > 0 {
        lemma_pending(tasks, meshes, visible, n - 1);
        let prev = pending_upto(tasks, meshes, visible, n - 1);
        let cur = pending_upto(tasks, meshes, visible, n);
        assert forall|j: int| 0 <= j < cur.len() implies {
            let uw = #[trigger] cur[j];
            &&& !in_flight(tasks, uw)
            &&& !meshes.contains_key(column_key(uw))
        } by {
            if j < prev.len() {
                assert(cur[j] == prev[j]);
            }
        }
    }
}

/// The keys of all columns of `batches`.
pub open spec fn batch_keys(batches: Seq<Seq<ChunkUW>>) -> Set<u64> {
    Set::new(
        |k: u64|
            exists|b: int, i: int|
                0 <= b < batches.len() && 0 <= i < batches[b].len() && column_key(
                    #[trigger] batches[b][i],
                ) == k,
    )
}

/// The keys of the columns of `bs` before item `i` of batch `b`.
pub open spec fn keys_before(bs: Seq<Seq<ChunkUW>>, b: int, i: int) -> Set<u64> {
    Set::new(
        |k: u64|
            exists|b2: int, i2: int|
                0 <= b2 < bs.len() && 0 <= i2 < bs[b2].len() && (b2 < b || (b2 == b && i2 < i))
                    && column_key(#[trigger] bs[b2][i2]) == k,
    )
}

/// The columns of each batch of task inputs.
pub open spec fn input_columns(r: Seq<Vec<ChunkMeshingTaskInput>>) -> Seq<Seq<ChunkUW>> {
    r.map_values(|b: Vec<ChunkMeshingTaskInput>| b@.map_values(|x: ChunkMeshingTaskInput| x.uw))
}

/// Whether `uw` is one of `columns`.
fn contains_column(columns: &Vec<ChunkUW>, uw: ChunkUW) -> (r: bool)
    ensures
        r == columns@.contains(uw),
{
    let mut i: usize = 0;
    while i < columns.len()
        invariant
            i <= columns@.len(),
            forall|j: int| 0 <= j < i ==> columns@[j] != uw,
        decreases columns@.len() - i,
    {
        if columns[i].0 == uw.0 && columns[i].1 == uw.1 {
            assert(columns@[i as int] == uw);
            return true;
        }
        i += 1;
    }
    false
}

/// Some output is for the column with key `k`.
pub open spec fn output_key(outputs: Seq<ChunkMeshingTaskOutput>, k: u64) -> bool {
    exists|j: int| 0 <= j < outputs.len() && column_key(#[trigger] outputs[j].uw) == k
}

/// The first `n` visible columns that are meshed, neither in flight nor buffered, each once.
pub open spec fn to_buffer_upto(
    tasks: Seq<Seq<ChunkUW>>,
    meshes: Map<u64, Vec<ChunkMeshes>>,
    buffered: Set<u64>,
    visible: Seq<ChunkUW>,
    n: int,
) -> Seq<ChunkUW>
    decreases n,
{
    if n <= 0 {
        seq![]
    } else {
        let prev = to_buffer_upto(tasks, meshes, buffered, visible, n - 1);
        let uw = visible[n - 1];
        if !in_flight(tasks, uw) && meshes.contains_key(column_key(uw)) && !buffered.contains(
            column_key(uw),
        ) && !prev.contains(uw) {
            prev.push(uw)
        } else {
            prev
        }
    }
}

/// Replaces item `i` by the last one and drops the last one.
pub open spec fn swap_removed(s: Seq<Seq<ChunkUW>>, i: int) -> Seq<Seq<ChunkUW>> {
    s.update(i, s.last()).drop_last()
}

/// No redundant work: of two consecutive `update`s with the camera in the same chunk, the
/// second requests no column that the first requested, that is in flight, or that is
/// already meshed.
pub proof fn lemma_no_redundant_work(
    s0: WorldLoader,
    s1: WorldLoader,
    s2: WorldLoader,
    camera: ChunkUVW,
    first: Seq<Seq<ChunkUW>>,
    second: Seq<Seq<ChunkUW>>,
)
    requires
        WorldLoader::update_post(s0, camera, s1, first),
        WorldLoader::update_post(s1, camera, s2, second),
    ensures
        forall|b: int, i: int|
            0 <= b < second.len() && 0 <= i < second[b].len() ==> {
                let uw = #[trigger] second[b][i];
                &&& !s1.spec_meshes().contains_key(column_key(uw))
                &&& !in_flight(s1.spec_tasks(), uw)
                &&& forall|b2: int, i2: int|
                    0 <= b2 < first.len() && 0 <= i2 < first[b2].len() ==> #[trigger] first[b2][i2]
                        != uw
            },
{
    let visible = ring_order(camera.0 as int, camera.2 as int, s1.spec_view_distance());
    let pending = pending_upto(s1.spec_tasks(), s1.spec_meshes(), visible, visible.len() as int);
    lemma_pending(s1.spec_tasks(), s1.spec_meshes(), visible, visible.len() as int);
    lemma_batches_from(
        pending,
        s1.spec_chunks_per_task(),
        MAX_CHUNKS_THREAD_LIMIT - s1.spec_tasks().len(),
    );
    assert forall|b: int, i: int| 0 <= b < second.len() && 0 <= i < second[b].len() implies {
        let uw = #[trigger] second[b][i];
        &&& !s1.spec_meshes().contains_key(column_key(uw))
        &&& !in_flight(s1.spec_tasks(), uw)
        &&& forall|b2: int, i2: int|
            0 <= b2 < first.len() && 0 <= i2 < first[b2].len() ==> #[trigger] first[b2][i2] != uw
    } by {
        let uw = second[b][i];
        assert(pending.contains(uw));
        let j = choose|j: int| 0 <= j < pending.len() && pending[j] == uw;
        assert(!in_flight(s1.spec_tasks(), pending[j]));
        assert forall|b2: int, i2: int|
            0 <= b2 < first.len() && 0 <= i2 < first[b2].len() implies #[trigger] first[b2][i2]
                != uw by {
            let t = s0.spec_tasks().len() + b2;
            assert(s1.spec_tasks()[t] == first[b2]);
            assert(s1.spec_tasks()[t][i2] == first[b2][i2]);
            assert(s1.spec_tasks()[t].contains(first[b2][i2]));
        }
    }
}

/// Streams terrain around the camera: decides which columns to generate and mesh in the
/// background, merges what the background tasks return, and tracks which meshed
/// columns the renderer has turned into buffers.
pub struct WorldLoader {
    world: World,
    chunk_meshes: HashMap<u64, Vec<ChunkMeshes>>,
    buffered_chunks: HashSet<u64>,
    tasks: Vec<Vec<ChunkUW>>,
    chunk_view_distance: u32,
    chunks_per_task: usize,
}

impl WorldLoader {
    /// Generated columns that are not in flight, by column key.
    pub closed spec fn spec_stacks(&self) -> Map<u64, ChunkStack> {
        self.world@
    }

    /// Meshes of each meshed column, one per vertical level, by column key.
    pub closed spec fn spec_meshes(&self) -> Map<u64, Vec<ChunkMeshes>> {
        self.chunk_meshes@
    }

    /// Keys of the columns the renderer holds buffers for.
    pub closed spec fn spec_buffered(&self) -> Set<u64> {
        self.buffered_chunks@
    }

    /// The columns of each task in flight.
    pub closed spec fn spec_tasks(&self) -> Seq<Seq<ChunkUW>> {
        self.tasks@.map_values(|t: Vec<ChunkUW>| t@)
    }

    pub closed spec fn spec_view_distance(&self) -> int {
        self.chunk_view_distance as int
    }

    pub closed spec fn spec_chunks_per_task(&self) -> int {
        self.chunks_per_task as int
    }

    /// The world's stacks are well formed, the batch size is `2 * view_distance + 1`, the
    /// view distance is within `MAX_VIEW_DISTANCE`, and every meshed column has one mesh
    /// per level.
    pub closed spec fn wf(&self) -> bool {
        &&& self.world.wf()
        &&& self.chunk_view_distance <= MAX_VIEW_DISTANCE
        &&& self.chunks_per_task == 2 * self.chunk_view_distance + 1
        &&& forall|k: u64| #[trigger]
            self.chunk_meshes@.contains_key(k) ==> self.chunk_meshes@[k]@.len()
                == VERTICAL_CHUNK_COUNT
    }

    /// The columns `update` asks to generate and mesh, from the loader `pre` and a
    /// camera in the chunk `camera`, and the state it leaves.
    pub open spec fn update_post(
        pre: WorldLoader,
        camera: ChunkUVW,
        post: WorldLoader,
        batches: Seq<Seq<ChunkUW>>,
    ) -> bool {
        let visible = ring_order(camera.0 as int, camera.2 as int, pre.spec_view_distance());
        let pending = pending_upto(pre.spec_tasks(), pre.spec_meshes(), visible, visible.len() as int);
        &&& batches == batches_of(
            pending,
            pre.spec_chunks_per_task(),
            MAX_CHUNKS_THREAD_LIMIT - pre.spec_tasks().len(),
        )
        &&& post.spec_tasks() == pre.spec_tasks() + batches
        &&& post.spec_meshes() == pre.spec_meshes()
        &&& post.spec_buffered() == pre.spec_buffered()
        &&& post.spec_view_distance() == pre.spec_view_distance()
        &&& post.spec_chunks_per_task() == pre.spec_chunks_per_task()
        &&& post.spec_stacks() == pre.spec_stacks().remove_keys(batch_keys(batches))
    }

    /// The outputs of task `index` can be merged: they are its columns, in order, each a
    /// well-formed stack with one mesh per level, none of them in the world, no column twice.
    pub open spec fn completion_ok(&self, index: int, outputs: Seq<ChunkMeshingTaskOutput>) -> bool {
        &&& 0 <= index < self.spec_tasks().len()
        &&& outputs.len() == self.spec_tasks()[index].len()
        &&& forall|j: int|
            0 <= j < outputs.len() ==> {
                &&& (#[trigger] outputs[j]).uw == self.spec_tasks()[index][j]
                &&& outputs[j].chunk_stack.wf()
                &&& outputs[j].chunk_meshes@.len() == VERTICAL_CHUNK_COUNT
                &&& !self.spec_stacks().contains_key(column_key(outputs[j].uw))
            }
        &&& forall|j1: int, j2: int|
            0 <= j1 < outputs.len() && 0 <= j2 < outputs.len() && j1 != j2 ==> (#[trigger] outputs[j1]).uw
                != (#[trigger] outputs[j2]).uw
    }

    /// A loader over `world` that keeps the columns within `chunk_view_distance` of the
    /// camera's column ready.
    pub fn new(world: World, chunk_view_distance: u32) -> (r: WorldLoader)
        requires
            world.wf(),
            chunk_view_distance <= MAX_VIEW_DISTANCE,
        ensures
            r.wf(),
            r.spec_stacks() == world@,
            r.spec_meshes() == Map::<u64, Vec<ChunkMeshes>>::empty(),
            r.spec_buffered() == Set::<u64>::empty(),
            r.spec_tasks() == Seq::<Seq<ChunkUW>>::empty(),
            r.spec_view_distance() == chunk_view_distance,
            r.spec_chunks_per_task() == 2 * chunk_view_distance + 1,
    {
        let r = WorldLoader {
            world,
            chunk_meshes: HashMap::new(),
            buffered_chunks: HashSet::new(),
            tasks: Vec::new(),
            chunk_view_distance,
            chunks_per_task: 2 * chunk_view_distance as usize + 1,
        };
        assert(r.spec_tasks() =~= Seq::<Seq<ChunkUW>>::empty());
        r
    }

    pub fn world(&self) -> (r: &World)
        ensures
            r@ == self.spec_stacks(),
    {
        &self.world
    }

    pub fn task_count(&self) -> (r: usize)
        ensures
            r == self.spec_tasks().len(),
    {
        self.tasks.len()
    }

    /// The columns that task `index` produces.
    pub fn task_columns(&self, index: usize) -> (r: &Vec<ChunkUW>)
        requires
            index < self.spec_tasks().len(),
        ensures
            r@ == self.spec_tasks()[index as int],
    {
        &self.tasks[index]
    }

    /// The meshes of a meshed column, one per vertical level.
    pub fn chunk_meshes(&self, uw: ChunkUW) -> (r: Option<&Vec<ChunkMeshes>>)
        requires
            self.wf(),
        ensures
            match r {
                Some(m) => self.spec_meshes().contains_key(column_key(uw)) && *m
                    == self.spec_meshes()[column_key(uw)] && m@.len() == VERTICAL_CHUNK_COUNT,
                None => !self.spec_meshes().contains_key(column_key(uw)),
            },
    {
        let key = column_key_of(uw);
        self.chunk_meshes.get(&key)
    }

    pub fn is_in_flight(&self, uw: ChunkUW) -> (r: bool)
        ensures
            r == in_flight(self.spec_tasks(), uw),
    {
        let mut t: usize = 0;
        while t < self.tasks.len()
            invariant
                t <= self.tasks@.len(),
                forall|t2: int| 0 <= t2 < t ==> !(#[trigger] self.spec_tasks()[t2]).contains(uw),
            decreases self.tasks@.len() - t,
        {
            let columns = &self.tasks[t];
            let mut i: usize = 0;
            while i < columns.len()
                invariant
                    i <= columns@.len(),
                    t < self.tasks@.len(),
                    columns@ == self.spec_tasks()[t as int],
                    forall|j: int| 0 <= j < i ==> columns@[j] != uw,
                decreases columns@.len() - i,
            {
                if columns[i].0 == uw.0 && columns[i].1 == uw.1 {
                    assert(self.spec_tasks()[t as int][i as int] == uw);
                    assert(self.spec_tasks()[t as int].contains(uw));
                    return true;
                }
                i += 1;
            }
            t += 1;
        }
        false
    }

    /// Decides the work of a frame with the camera in chunk `camera`: the visible columns
    /// that are neither in flight nor meshed, in ring order, cut into batches of
    /// `chunks_per_task` columns, as many batches as keep the tasks in flight within
    /// `MAX_CHUNKS_THREAD_LIMIT`. Each batch becomes a task in flight; a column already
    /// generated leaves the world and travels with its batch.
    pub fn update(&mut self, camera: ChunkUVW) -> (r: Vec<Vec<ChunkMeshingTaskInput>>)
        requires
            old(self).wf(),
            -MAX_CAMERA_COLUMN <= camera.0 <= MAX_CAMERA_COLUMN,
            -MAX_CAMERA_COLUMN <= camera.2 <= MAX_CAMERA_COLUMN,
        ensures
            final(self).wf(),
            WorldLoader::update_post(*old(self), camera, *final(self), input_columns(r@)),
            forall|b: int, i: int|
                0 <= b < r@.len() && 0 <= i < r@[b]@.len() ==> (#[trigger] r@[b]@[i]).chunk_stack
                    == if old(self).spec_stacks().contains_key(column_key(r@[b]@[i].uw)) {
                    Some(old(self).spec_stacks()[column_key(r@[b]@[i].uw)])
                } else {
                    None::<ChunkStack>
                },
            forall|b: int, i: int|
                0 <= b < r@.len() && 0 <= i < r@[b]@.len() ==> ((#[trigger] r@[b]@[i]).chunk_stack matches Some(s) ==> s.wf()),
    {
        let ghost pre = *self;
        let ghost tasks0 = self.spec_tasks();
        let ghost meshes0 = self.spec_meshes();
        let ghost stacks0 = self.spec_stacks();
        let visible = self.visible_chunk_range_uw(camera);

        let mut pending: Vec<ChunkUW> = Vec::new();
        let mut i: usize = 0;
        while i < visible.len()
            invariant
                *self == pre,
                tasks0 == self.spec_tasks(),
                meshes0 == self.spec_meshes(),
                i <= visible@.len(),
                pending@ == pending_upto(tasks0, meshes0, visible@, i as int),
            decreases visible@.len() - i,
        {
            let uw = visible[i];
            let key = column_key_of(uw);
            if !self.is_in_flight(uw) && !self.chunk_meshes.contains_key(&key) && !contains_column(
                &pending,
                uw,
            ) {
                pending.push(uw);
            }
            i += 1;
        }
        proof {
            lemma_pending(tasks0, meshes0, visible@, visible@.len() as int);
        }

        let cap: usize = if self.tasks.len() < MAX_CHUNKS_THREAD_LIMIT {
            MAX_CHUNKS_THREAD_LIMIT - self.tasks.len()
        } else {
            0
        };
        let batches = plan_batches(&pending, self.chunks_per_task, cap);
        let ghost bs = batches@.map_values(|b: Vec<ChunkUW>| b@);
        assert(bs == batches_of(
            pending@,
            pre.spec_chunks_per_task(),
            MAX_CHUNKS_THREAD_LIMIT - tasks0.len(),
        ));

        let mut out: Vec<Vec<ChunkMeshingTaskInput>> = Vec::new();
        let mut b: usize = 0;
        assert(keys_before(bs, 0, 0) =~= Set::<u64>::empty());
        assert(stacks0.remove_keys(Set::<u64>::empty()) =~= stacks0);
        assert(self.spec_tasks() =~= tasks0 + bs.take(0));
        assert(input_columns(out@) =~= bs.take(0));
        while b < batches.len()
            invariant
                self.wf(),
                pre.wf(),
                items_distinct(bs),
                bs == batches@.map_values(|b: Vec<ChunkUW>| b@),
                b <= bs.len(),
                self.chunk_meshes == pre.chunk_meshes,
                self.buffered_chunks == pre.buffered_chunks,
                self.chunk_view_distance == pre.chunk_view_distance,
                self.chunks_per_task == pre.chunks_per_task,
                self.spec_tasks() == tasks0 + bs.take(b as int),
                self.world@ == stacks0.remove_keys(keys_before(bs, b as int, 0)),
                input_columns(out@) == bs.take(b as int),
                forall|b2: int, i2: int|
                    0 <= b2 < out@.len() && 0 <= i2 < out@[b2]@.len() ==> (#[trigger] out@[b2]@[i2]).chunk_stack
                        == if stacks0.contains_key(column_key(out@[b2]@[i2].uw)) {
                        Some(stacks0[column_key(out@[b2]@[i2].uw)])
                    } else {
                        None::<ChunkStack>
                    },
                forall|b2: int, i2: int|
                    0 <= b2 < out@.len() && 0 <= i2 < out@[b2]@.len() ==> ((#[trigger] out@[b2]@[i2]).chunk_stack matches Some(s) ==> s.wf()),
            decreases bs.len() - b,
        {
            let batch = &batches[b];
            let mut inputs: Vec<ChunkMeshingTaskInput> = Vec::new();
            let mut columns: Vec<ChunkUW> = Vec::new();
            let mut i: usize = 0;
            while i < batch.len()
                invariant
                    self.world.wf(),
                    pre.wf(),
                    self.chunk_meshes == pre.chunk_meshes,
                    self.buffered_chunks == pre.buffered_chunks,
                    self.chunk_view_distance == pre.chunk_view_distance,
                    self.chunks_per_task == pre.chunks_per_task,
                    self.spec_tasks() == tasks0 + bs.take(b as int),
                    items_distinct(bs),
                    b < bs.len(),
                    batch@ == bs[b as int],
                    i <= batch@.len(),
                    self.world@ == stacks0.remove_keys(keys_before(bs, b as int, i as int)),
                    columns@ == batch@.take(i as int),
                    inputs@.map_values(|x: ChunkMeshingTaskInput| x.uw) == batch@.take(i as int),
                    forall|i2: int|
                        0 <= i2 < inputs@.len() ==> (#[trigger] inputs@[i2]).chunk_stack
                            == if stacks0.contains_key(column_key(inputs@[i2].uw)) {
                            Some(stacks0[column_key(inputs@[i2].uw)])
                        } else {
                            None::<ChunkStack>
                        },
                    forall|i2: int|
                        0 <= i2 < inputs@.len() ==> ((#[trigger] inputs@[i2]).chunk_stack matches Some(s) ==> s.wf()),
                decreases batch@.len() - i,
            {
                let uw = batch[i];
                let ghost k = column_key(uw);
                assert(!keys_before(bs, b as int, i as int).contains(k)) by {
                    if keys_before(bs, b as int, i as int).contains(k) {
                        let (b2, i2) = choose|b2: int, i2: int|
                            0 <= b2 < bs.len() && 0 <= i2 < bs[b2].len() && (b2 < b || (b2 == b
                                && i2 < i)) && column_key(#[trigger] bs[b2][i2]) == k;
                        crate::world::lemma_column_key_injective(bs[b2][i2], uw);
                        assert(bs[b2][i2] != bs[b as int][i as int]);
                    }
                }
                let chunk_stack = self.world.take_column(uw);
                proof {
                    assert(keys_before(bs, b as int, i + 1) =~= keys_before(
                        bs,
                        b as int,
                        i as int,
                    ).insert(k));
                    assert(self.world@ =~= stacks0.remove_keys(keys_before(bs, b as int, i + 1)));
                }
                inputs.push(ChunkMeshingTaskInput { uw, chunk_stack });
                columns.push(uw);
                assert(columns@ =~= batch@.take(i + 1));
                assert(inputs@.map_values(|x: ChunkMeshingTaskInput| x.uw) =~= batch@.take(i + 1));
                assert(inputs@[i as int].uw == uw);
                i += 1;
            }
            assert(keys_before(bs, b as int, i as int) =~= keys_before(bs, b + 1, 0));
            assert(columns@ =~= bs[b as int]);
            let ghost before_tasks = self.spec_tasks();
            self.tasks.push(columns);
            let ghost before_out = out@;
            out.push(inputs);
            proof {
                assert(bs.take(b + 1) =~= bs.take(b as int).push(bs[b as int]));
                assert(self.spec_tasks() =~= before_tasks.push(bs[b as int]));
                assert(before_tasks == tasks0 + bs.take(b as int));
                assert((tasks0 + bs.take(b as int)).push(bs[b as int]) =~= tasks0 + bs.take(
                    b as int,
                ).push(bs[b as int]));
                assert(self.spec_tasks() =~= tasks0 + bs.take(b + 1));
                assert(input_columns(out@) =~= input_columns(before_out).push(bs[b as int]));
                assert(input_columns(out@) =~= bs.take(b + 1));
                assert forall|b2: int, i2: int|
                    0 <= b2 < out@.len() && 0 <= i2 < out@[b2]@.len() implies (#[trigger] out@[b2]@[i2]).chunk_stack
                        == if stacks0.contains_key(column_key(out@[b2]@[i2].uw)) {
                        Some(stacks0[column_key(out@[b2]@[i2].uw)])
                    } else {
                        None::<ChunkStack>
                    } by {
                    if b2 < before_out.len() {
                        assert(out@[b2] == before_out[b2]);
                    }
                }
                assert forall|b2: int, i2: int|
                    0 <= b2 < out@.len() && 0 <= i2 < out@[b2]@.len() implies ((#[trigger] out@[b2]@[i2]).chunk_stack matches Some(s) ==> s.wf()) by {
                    if b2 < before_out.len() {
                        assert(out@[b2] == before_out[b2]);
                    }
                }
            }
            b += 1;
        }
        proof {
            assert(bs.take(bs.len() as int) =~= bs);
            assert(keys_before(bs, bs.len() as int, 0) =~= batch_keys(bs));
        }
        out
    }

    /// Whether the outputs of task `index` can be merged.
    pub fn can_complete(&self, index: usize, outputs: &Vec<ChunkMeshingTaskOutput>) -> (r: bool)
        requires
            self.wf(),
        ensures
            r == self.completion_ok(index as int, outputs@),
    {
        if index >= self.tasks.len() {
            return false;
        }
        let columns = &self.tasks[index];
        if outputs.len() != columns.len() {
            return false;
        }
        let mut j: usize = 0;
        while j < outputs.len()
            invariant
                index < self.spec_tasks().len(),
                columns@ == self.spec_tasks()[index as int],
                outputs@.len() == columns@.len(),
                j <= outputs@.len(),
                forall|j2: int|
                    0 <= j2 < j ==> {
                        &&& (#[trigger] outputs@[j2]).uw == columns@[j2]
                        &&& outputs@[j2].chunk_stack.wf()
                        &&& outputs@[j2].chunk_meshes@.len() == VERTICAL_CHUNK_COUNT
                        &&& !self.spec_stacks().contains_key(column_key(outputs@[j2].uw))
                    },
                forall|j1: int, j2: int|
                    0 <= j1 < j && 0 <= j2 < j && j1 != j2 ==> (#[trigger] outputs@[j1]).uw
                        != (#[trigger] outputs@[j2]).uw,
            decreases outputs@.len() - j,
        {
            let output = &outputs[j];
            if output.uw.0 != columns[j].0 || output.uw.1 != columns[j].1 {
                return false;
            }
            if !output.chunk_stack.is_wf() || output.chunk_meshes.len() != VERTICAL_CHUNK_COUNT {
                return false;
            }
            if self.world.has_column(output.uw) {
                return false;
            }
            let mut j2: usize = 0;
            while j2 < j
                invariant
                    j < outputs@.len(),
                    j2 <= j,
                    output == outputs@[j as int],
                    forall|j3: int| 0 <= j3 < j2 ==> outputs@[j3].uw != output.uw,
                decreases j - j2,
            {
                if outputs[j2].uw.0 == output.uw.0 && outputs[j2].uw.1 == output.uw.1 {
                    assert(outputs@[j2 as int].uw == outputs@[j as int].uw);
                    return false;
                }
                j2 += 1;
            }
            j += 1;
        }
        true
    }

    /// Merges what task `index` produced: its stacks join the world and its meshes the
    /// mesh cache, and the task leaves the list of tasks in flight, its place taken by the
    /// last task.
    pub fn complete_task(&mut self, index: usize, outputs: Vec<ChunkMeshingTaskOutput>)
        requires
            old(self).wf(),
            old(self).completion_ok(index as int, outputs@),
        ensures
            final(self).wf(),
            final(self).spec_tasks() == swap_removed(old(self).spec_tasks(), index as int),
            forall|j: int|
                0 <= j < outputs@.len() ==> {
                    let k = column_key((#[trigger] outputs@[j]).uw);
                    &&& final(self).spec_stacks().contains_key(k)
                    &&& final(self).spec_stacks()[k] == outputs@[j].chunk_stack
                    &&& final(self).spec_meshes().contains_key(k)
                    &&& final(self).spec_meshes()[k] == outputs@[j].chunk_meshes
                },
            forall|k: u64|
                #[trigger] final(self).spec_stacks().contains_key(k) <==> (old(
                    self,
                ).spec_stacks().contains_key(k) || output_key(outputs@, k)),
            forall|k: u64|
                #[trigger] final(self).spec_meshes().contains_key(k) <==> (old(
                    self,
                ).spec_meshes().contains_key(k) || output_key(outputs@, k)),
            forall|k: u64|
                !output_key(outputs@, k) && old(self).spec_stacks().contains_key(k) ==> #[trigger] final(self).spec_stacks()[k]
                    == old(self).spec_stacks()[k],
            forall|k: u64|
                !output_key(outputs@, k) && old(self).spec_meshes().contains_key(k) ==> #[trigger] final(self).spec_meshes()[k]
                    == old(self).spec_meshes()[k],
            final(self).spec_buffered() == old(self).spec_buffered(),
            final(self).spec_view_distance() == old(self).spec_view_distance(),
            final(self).spec_chunks_per_task() == old(self).spec_chunks_per_task(),
    {
        let ghost pre = *self;
        let ghost all = outputs@;
        let ghost tasks0 = self.spec_tasks();
        self.tasks.swap_remove(index);
        assert(self.spec_tasks() =~= swap_removed(tasks0, index as int));
        let mut outputs = outputs;
        while outputs.len() > 0
            invariant
                pre.wf(),
                pre.completion_ok(index as int, all),
                self.world.wf(),
                self.chunk_view_distance == pre.chunk_view_distance,
                self.chunks_per_task == pre.chunks_per_task,
                self.buffered_chunks == pre.buffered_chunks,
                self.spec_tasks() == swap_removed(tasks0, index as int),
                outputs@.len() <= all.len(),
                outputs@ == all.take(outputs@.len() as int),
                forall|k: u64| #[trigger]
                    self.chunk_meshes@.contains_key(k) ==> self.chunk_meshes@[k]@.len()
                        == VERTICAL_CHUNK_COUNT,
                forall|j: int|
                    outputs@.len() <= j < all.len() ==> {
                        let k = column_key((#[trigger] all[j]).uw);
                        &&& self.spec_stacks().contains_key(k)
                        &&& self.spec_stacks()[k] == all[j].chunk_stack
                        &&& self.spec_meshes().contains_key(k)
                        &&& self.spec_meshes()[k] == all[j].chunk_meshes
                    },
                forall|j: int|
                    0 <= j < outputs@.len() ==> !self.spec_stacks().contains_key(
                        column_key(#[trigger] all[j].uw),
                    ),
                forall|k: u64|
                    #[trigger] self.spec_stacks().contains_key(k) <==> (pre.spec_stacks().contains_key(k)
                        || output_key(all.skip(outputs@.len() as int), k)),
                forall|k: u64|
                    #[trigger] self.spec_meshes().contains_key(k) <==> (pre.spec_meshes().contains_key(k)
                        || output_key(all.skip(outputs@.len() as int), k)),
                forall|k: u64|
                    !output_key(all.skip(outputs@.len() as int), k) && pre.spec_stacks().contains_key(k) ==> #[trigger] self.spec_stacks()[k]
                        == pre.spec_stacks()[k],
                forall|k: u64|
                    !output_key(all.skip(outputs@.len() as int), k) && pre.spec_meshes().contains_key(k) ==> #[trigger] self.spec_meshes()[k]
                        == pre.spec_meshes()[k],
            decreases outputs@.len(),
        {
            let ghost n = outputs@.len() as int;
            let ghost start = *self;
            assert(outputs@[n - 1] == all.take(n)[n - 1]);
            let output = outputs.pop().unwrap();
            assert(output == all[n - 1]);
            let ghost k = column_key(output.uw);
            assert forall|j: int| 0 <= j < n - 1 implies column_key(#[trigger] all[j].uw) != k by {
                crate::world::lemma_column_key_injective(all[j].uw, output.uw);
            }
            assert forall|j: int| n <= j < all.len() implies column_key(#[trigger] all[j].uw) != k by {
                crate::world::lemma_column_key_injective(all[j].uw, output.uw);
            }
            self.world.insert_chunks(output.uw, output.chunk_stack);
            let key = column_key_of(output.uw);
            let ghost meshes_before = self.chunk_meshes@;
            self.chunk_meshes.insert(key, output.chunk_meshes);
            proof {
                assert(self.chunk_meshes@ == meshes_before.insert(k, all[n - 1].chunk_meshes));
                assert(outputs@ =~= all.take(n - 1));
                assert forall|k2: u64| output_key(all.skip(n - 1), k2) <==> (output_key(all.skip(n), k2) || k2 == k) by {
                    if output_key(all.skip(n), k2) {
                        let j = choose|j: int| 0 <= j < all.skip(n).len() && column_key(#[trigger] all.skip(n)[j].uw) == k2;
                        assert(all.skip(n - 1)[j + 1] == all.skip(n)[j]);
                    }
                    if k2 == k {
                        assert(all.skip(n - 1)[0] == all[n - 1]);
                    }
                    if output_key(all.skip(n - 1), k2) {
                        let j = choose|j: int| 0 <= j < all.skip(n - 1).len() && column_key(#[trigger] all.skip(n - 1)[j].uw) == k2;
                        if j > 0 {
                            assert(all.skip(n)[j - 1] == all.skip(n - 1)[j]);
                        }
                    }
                }
                assert forall|k2: u64|
                    #[trigger] self.spec_meshes().contains_key(k2) <==> (pre.spec_meshes().contains_key(k2)
                        || output_key(all.skip(n - 1), k2)) by {
                    if k2 != k {
                        assert(self.spec_meshes().contains_key(k2) == meshes_before.contains_key(k2));
                        assert(meshes_before == start.spec_meshes());
                        assert(start.spec_meshes().contains_key(k2) <==> (pre.spec_meshes().contains_key(k2)
                            || output_key(all.skip(n), k2)));
                    }
                }
                assert forall|k2: u64|
                    !output_key(all.skip(n - 1), k2) && pre.spec_meshes().contains_key(k2) implies #[trigger] self.spec_meshes()[k2]
                        == pre.spec_meshes()[k2] by {
                    assert(k2 != k);
                    assert(self.spec_meshes()[k2] == meshes_before[k2]);
                    assert(meshes_before == start.spec_meshes());
                    assert(!output_key(all.skip(n), k2));
                    assert(start.spec_meshes()[k2] == pre.spec_meshes()[k2]);
                }
            }
        }
        proof {
            assert(all.skip(0) =~= all);
        }
    }

    /// Picks the visible columns whose meshes should now become buffers: meshed, not in
    /// flight and not yet buffered, in ring order. They count as buffered from now on.
    pub fn create_buffers(&mut self, camera: ChunkUVW) -> (r: Vec<ChunkUW>)
        requires
            old(self).wf(),
            -MAX_CAMERA_COLUMN <= camera.0 <= MAX_CAMERA_COLUMN,
            -MAX_CAMERA_COLUMN <= camera.2 <= MAX_CAMERA_COLUMN,
        ensures
            final(self).wf(),
            ({
                let visible = ring_order(camera.0 as int, camera.2 as int, old(self).spec_view_distance());
                r@ == to_buffer_upto(
                    old(self).spec_tasks(),
                    old(self).spec_meshes(),
                    old(self).spec_buffered(),
                    visible,
                    visible.len() as int,
                )
            }),
            forall|k: u64|
                #[trigger] final(self).spec_buffered().contains(k) <==> (old(self).spec_buffered().contains(k)
                    || exists|j: int| 0 <= j < r@.len() && column_key(#[trigger] r@[j]) == k),
            final(self).spec_stacks() == old(self).spec_stacks(),
            final(self).spec_meshes() == old(self).spec_meshes(),
            final(self).spec_tasks() == old(self).spec_tasks(),
            final(self).spec_view_distance() == old(self).spec_view_distance(),
            final(self).spec_chunks_per_task() == old(self).spec_chunks_per_task(),
    {
        let ghost pre = *self;
        let visible = self.visible_chunk_range_uw(camera);
        let mut r: Vec<ChunkUW> = Vec::new();
        let mut i: usize = 0;
        while i < visible.len()
            invariant
                pre.wf(),
                self.world == pre.world,
                self.chunk_meshes == pre.chunk_meshes,
                self.tasks == pre.tasks,
                self.chunk_view_distance == pre.chunk_view_distance,
                self.chunks_per_task == pre.chunks_per_task,
                i <= visible@.len(),
                r@ == to_buffer_upto(
                    pre.spec_tasks(),
                    pre.spec_meshes(),
                    pre.spec_buffered(),
                    visible@,
                    i as int,
                ),
                forall|k: u64|
                    #[trigger] self.buffered_chunks@.contains(k) <==> (pre.spec_buffered().contains(k)
                        || exists|j: int| 0 <= j < r@.len() && column_key(#[trigger] r@[j]) == k),
            decreases visible@.len() - i,
        {
            let uw = visible[i];
            let key = column_key_of(uw);
            proof {
                if exists|j: int| 0 <= j < r@.len() && column_key(#[trigger] r@[j]) == key {
                    let j = choose|j: int| 0 <= j < r@.len() && column_key(#[trigger] r@[j]) == key;
                    crate::world::lemma_column_key_injective(r@[j], uw);
                }
            }
            if !self.is_in_flight(uw) && self.chunk_meshes.contains_key(&key)
                && !self.buffered_chunks.contains(&key) {
                let ghost before = r@;
                r.push(uw);
                self.buffered_chunks.insert(key);
                proof {
                    assert forall|k: u64|
                        #[trigger] self.buffered_chunks@.contains(k) <==> (pre.spec_buffered().contains(k)
                            || exists|j: int| 0 <= j < r@.len() && column_key(#[trigger] r@[j]) == k) by {
                        if k == key {
                            assert(r@[before.len() as int] == uw);
                        }
                        if exists|j: int| 0 <= j < r@.len() && column_key(#[trigger] r@[j]) == k {
                            let j = choose|j: int| 0 <= j < r@.len() && column_key(#[trigger] r@[j]) == k;
                            if j < before.len() {
                                assert(before[j] == r@[j]);
                            }
                        }
                        if exists|j: int| 0 <= j < before.len() && column_key(#[trigger] before[j]) == k {
                            let j = choose|j: int| 0 <= j < before.len() && column_key(#[trigger] before[j]) == k;
                            assert(before[j] == r@[j]);
                        }
                    }
                }
            } else {
                proof {
                    if r@.contains(uw) {
                        let j = choose|j: int| 0 <= j < r@.len() && r@[j] == uw;
                        assert(column_key(r@[j]) == key);
                    }
                }
            }
            i += 1;
        }
        r
    }

    /// The columns within view distance of the camera's chunk, nearest rings first.
    pub fn visible_chunk_range_uw(&self, camera: ChunkUVW) -> (r: Vec<ChunkUW>)
        requires
            self.wf(),
            -MAX_CAMERA_COLUMN <= camera.0 <= MAX_CAMERA_COLUMN,
            -MAX_CAMERA_COLUMN <= camera.2 <= MAX_CAMERA_COLUMN,
        ensures
            r@ == ring_order(camera.0 as int, camera.2 as int, self.spec_view_distance()),
    {
        ring_columns(camera, self.chunk_view_distance)
    }

    /// The chunks within view distance of the camera's chunk: for each visible column
    /// in ring order, the levels within view distance of the camera's level.
    pub fn visible_chunk_range_uvw(&self, camera: ChunkUVW) -> (r: Vec<ChunkUVW>)
        requires
            self.wf(),
            -MAX_CAMERA_COLUMN <= camera.0 <= MAX_CAMERA_COLUMN,
            -MAX_CAMERA_COLUMN <= camera.1 <= MAX_CAMERA_COLUMN,
            -MAX_CAMERA_COLUMN <= camera.2 <= MAX_CAMERA_COLUMN,
        ensures
            ({
                let ring = ring_order(camera.0 as int, camera.2 as int, self.spec_view_distance());
                let d = self.spec_view_distance();
                r@ == levels_upto(
                    ring,
                    ring.len() as int,
                    if camera.1 - d > 0 { camera.1 - d } else { 0 },
                    if camera.1 + d < VERTICAL_CHUNK_COUNT - 1 { camera.1 + d } else { VERTICAL_CHUNK_COUNT - 1 },
                )
            }),
    {
        let columns = self.visible_chunk_range_uw(camera);
        column_chunks(&columns, camera.1, self.chunk_view_distance)
    }
}

} // verus!
