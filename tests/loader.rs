use voxel_world::chunk::{Chunk, ChunkUW};
use voxel_world::world::{column_key_of, World};
use voxel_world::world_loader::{
    plan_batches, ring_columns, ChunkMeshingTaskInput, ChunkMeshingTaskOutput, WorldLoader,
};

fn flat_samples() -> Vec<u32> {
    vec![20u32; 34 * 34]
}

fn run(batch: Vec<ChunkMeshingTaskInput>) -> Vec<ChunkMeshingTaskOutput> {
    batch.into_iter().map(|input| input.process(&flat_samples())).collect()
}

#[test]
fn ring_order_of_radius_one() {
    let ring = ring_columns((10, 3, -4), 1);
    assert_eq!(
        ring,
        vec![
            (10, -4),
            (9, -3),
            (9, -5),
            (10, -3),
            (10, -5),
            (11, -3),
            (11, -5),
            (11, -4),
            (9, -4)
        ]
    );
}

#[test]
fn ring_sizes_are_squares() {
    for d in 0..6u32 {
        let ring = ring_columns((0, 0, 0), d);
        assert_eq!(ring.len() as u32, (2 * d + 1) * (2 * d + 1));
        let mut sorted = ring.clone();
        sorted.sort();
        sorted.dedup();
        assert_eq!(sorted.len(), ring.len());
        let di = d as i32;
        assert!(ring.iter().all(|&(u, w)| u.abs() <= di && w.abs() <= di));
    }
}

#[test]
fn chunk_range_is_clamped_vertically() {
    let loader = WorldLoader::new(World::new(0), 1);
    let uvw = loader.visible_chunk_range_uvw((0, 0, 0));
    assert_eq!(uvw.len(), 9 * 2);
    assert_eq!(&uvw[0..2], &[(0, 0, 0), (0, 1, 0)]);
    let top = loader.visible_chunk_range_uvw((0, 7, 0));
    assert_eq!(&top[0..2], &[(0, 6, 0), (0, 7, 0)]);
    let mid = loader.visible_chunk_range_uvw((2, 4, 2));
    assert_eq!(&mid[0..3], &[(2, 3, 2), (2, 4, 2), (2, 5, 2)]);
    let far = loader.visible_chunk_range_uvw((0, 20, 0));
    assert!(far.is_empty());
}

#[test]
fn batches_cut_in_order() {
    let pending: Vec<ChunkUW> = (0..7).map(|i| (i, 0)).collect();
    let b = plan_batches(&pending, 3, 8);
    assert_eq!(b, vec![vec![(0, 0), (1, 0), (2, 0)], vec![(3, 0), (4, 0), (5, 0)], vec![(6, 0)]]);
    let capped = plan_batches(&pending, 3, 2);
    assert_eq!(capped, vec![vec![(0, 0), (1, 0), (2, 0)], vec![(3, 0), (4, 0), (5, 0)]]);
    assert!(plan_batches(&pending, 3, 0).is_empty());
    assert!(plan_batches(&Vec::new(), 3, 4).is_empty());
}

#[test]
fn first_update_requests_every_visible_column() {
    let mut loader = WorldLoader::new(World::new(0), 1);
    let batches = loader.update((0, 0, 0));
    // three columns per task, nine visible columns
    assert_eq!(batches.len(), 3);
    assert!(batches.iter().all(|b| b.len() == 3));
    let columns: Vec<ChunkUW> = batches.iter().flatten().map(|i| i.uw).collect();
    assert_eq!(columns, ring_columns((0, 0, 0), 1));
    assert!(batches.iter().flatten().all(|i| i.chunk_stack.is_none()));
    assert_eq!(loader.task_count(), 3);
    assert_eq!(loader.task_columns(1), &columns[3..6].to_vec());
}

#[test]
fn second_update_with_unmoved_camera_requests_nothing() {
    let mut loader = WorldLoader::new(World::new(0), 1);
    let first = loader.update((0, 0, 0));
    assert!(!first.is_empty());
    let second = loader.update((0, 0, 0));
    assert!(second.is_empty());
    assert_eq!(loader.task_count(), 3);
}

#[test]
fn no_request_for_meshed_columns_after_completion() {
    let mut loader = WorldLoader::new(World::new(0), 1);
    let batches = loader.update((0, 0, 0));
    let mut outputs: Vec<Vec<ChunkMeshingTaskOutput>> = batches.into_iter().map(run).collect();
    while let Some(out) = outputs.pop() {
        let index = outputs.len();
        assert!(loader.can_complete(index, &out));
        loader.complete_task(index, out);
    }
    assert_eq!(loader.task_count(), 0);
    assert!(loader.update((0, 0, 0)).is_empty());
    for uw in ring_columns((0, 0, 0), 1) {
        assert!(loader.world().has_column(uw));
        let meshes = loader.chunk_meshes(uw).unwrap();
        assert_eq!(meshes.len(), 8);
    }
    // moving one column along u asks for the three new columns only
    let next = loader.update((1, 0, 0));
    let columns: Vec<ChunkUW> = next.iter().flatten().map(|i| i.uw).collect();
    assert_eq!(columns, vec![(2, 1), (2, -1), (2, 0)]);
}

#[test]
fn task_limit_holds_back_extra_batches() {
    let mut loader = WorldLoader::new(World::new(0), 2);
    // 25 columns in batches of 5: all five batches fit under the limit of 8
    let first = loader.update((0, 0, 0));
    assert_eq!(first.len(), 5);
    // five more batches would be needed around a far camera, only three slots are free
    let second = loader.update((100, 0, 100));
    assert_eq!(second.len(), 3);
    assert_eq!(loader.task_count(), 8);
    assert!(loader.update((200, 0, 200)).is_empty());
}

#[test]
fn generated_columns_travel_with_their_batch() {
    let mut world = World::new(0);
    let stack = Chunk::generate_stack((0, 0), &flat_samples());
    world.insert_chunks((0, 0), stack);
    let mut loader = WorldLoader::new(world, 0);
    let batches = loader.update((0, 0, 0));
    assert_eq!(batches.len(), 1);
    assert_eq!(batches[0].len(), 1);
    assert!(batches[0][0].chunk_stack.is_some());
    assert!(!loader.world().has_column((0, 0)));
}

#[test]
fn completion_checks_reject_mismatched_outputs() {
    let mut loader = WorldLoader::new(World::new(0), 0);
    let batches = loader.update((0, 0, 0));
    let out = run(batches.into_iter().next().unwrap());
    assert!(!loader.can_complete(1, &out));
    assert!(!loader.can_complete(0, &Vec::new()));
    assert!(loader.can_complete(0, &out));
}

#[test]
fn task_output_meshes_each_level() {
    let input = ChunkMeshingTaskInput { uw: (4, 4), chunk_stack: None };
    let out = input.process(&flat_samples());
    assert_eq!(out.uw, (4, 4));
    assert_eq!(out.chunk_meshes.len(), 8);
    // height 28: the surface lies in level 0, levels 1 and up are empty
    assert!(!out.chunk_meshes[0].quads.is_empty());
    for v in 1..8 {
        assert!(out.chunk_meshes[v].quads.is_empty());
        assert!(out.chunk_meshes[v].transparent_quads.is_empty());
    }
    let (q, t) = out.chunk_stack.chunks[0].generate_mesh();
    assert_eq!(q, out.chunk_meshes[0].quads);
    assert_eq!(t, out.chunk_meshes[0].transparent_quads);
}

#[test]
fn buffers_follow_meshes() {
    let mut loader = WorldLoader::new(World::new(0), 1);
    let batches = loader.update((0, 0, 0));
    // nothing meshed yet
    assert!(loader.create_buffers((0, 0, 0)).is_empty());
    let mut outputs: Vec<Vec<ChunkMeshingTaskOutput>> = batches.into_iter().map(run).collect();
    // complete only the last task
    let last = outputs.pop().unwrap();
    loader.complete_task(2, last);
    let ready = loader.create_buffers((0, 0, 0));
    assert_eq!(ready, ring_columns((0, 0, 0), 1)[6..9].to_vec());
    // already buffered columns are not handed out again
    assert!(loader.create_buffers((0, 0, 0)).is_empty());
}

#[test]
fn world_generates_each_column_once() {
    let mut world = World::new(3);
    assert!(!world.has_column((1, 1)));
    world.create_chunks((1, 1), &flat_samples());
    assert!(world.has_column((1, 1)));
    let stack = world.get_column((1, 1)).unwrap();
    assert_eq!((stack.u, stack.w), (1, 1));
    assert_eq!(stack.height_map[0], 28);
    assert!(world.get_column((1, 2)).is_none());
    let taken = world.take_column((1, 1)).unwrap();
    assert_eq!(taken.height_map.len(), 1024);
    assert!(!world.has_column((1, 1)));
    assert!(world.take_column((1, 1)).is_none());
}

#[test]
fn column_keys_are_distinct() {
    let mut keys = Vec::new();
    for u in [-2147483648, -1, 0, 1, 2147483647] {
        for w in [-2147483648, -1, 0, 1, 2147483647] {
            keys.push(column_key_of((u, w)));
        }
    }
    let mut sorted = keys.clone();
    sorted.sort();
    sorted.dedup();
    assert_eq!(sorted.len(), keys.len());
    assert_eq!(column_key_of((0, 0)), (1u64 << 63) | (1u64 << 31));
}
