use rustcraft::block::BlockId;
use rustcraft::chunk::{Chunk, ChunkStorage};
use rustcraft::coordinates::{ChunkPos, WorldBlockPos};
use rustcraft::generation::streaming::ChunkSet;
use rustcraft::generation::{ChunkGenerationQueue, ChunkLifecycle};
use rustcraft::meshing::scheduler::{
    accept_meshing_results, cancel_obsolete_meshing, meshing_candidates, start_meshing_jobs,
    MeshJob, MeshingSettings, ResultAction,
};

const SEED: u64 = 42;

fn world(positions: &[ChunkPos]) -> (ChunkGenerationQueue, ChunkStorage) {
    let mut queue = ChunkGenerationQueue::new();
    let mut storage = ChunkStorage::new();
    for position in positions {
        storage.insert_chunk(*position, Chunk::new(BlockId::stone()));
        queue.register_generated(*position);
    }
    (queue, storage)
}

fn start_all(queue: &mut ChunkGenerationQueue, storage: &ChunkStorage, positions: &[ChunkPos]) -> Vec<MeshJob> {
    let settings = MeshingSettings {
        max_meshing_tasks: 64,
        start_budget_per_frame: 64,
        max_mesh_uploads_per_frame: 64,
    };
    start_meshing_jobs(queue, storage, SEED, settings, 0, &positions.to_vec()).1
}

#[test]
fn default_budgets_are_four_tasks_two_starts_and_two_uploads() {
    let settings = MeshingSettings::default();
    assert_eq!(settings.max_meshing_tasks, 4);
    assert_eq!(settings.start_budget_per_frame, 2);
    assert_eq!(settings.max_mesh_uploads_per_frame, 2);
}

#[test]
fn a_current_mesh_is_uploaded_and_its_chunk_becomes_clean_and_ready() {
    let position = ChunkPos::new(0, 0, 0);
    let (mut queue, mut storage) = world(&[position]);
    let jobs = start_all(&mut queue, &storage, &[position]);
    assert_eq!(jobs, vec![MeshJob { position, revision: 0, seed: SEED }]);
    assert_eq!(queue.state(position), Some(ChunkLifecycle::Meshing));

    let actions = accept_meshing_results(&mut queue, &mut storage, SEED, &jobs, 2);
    assert_eq!(actions, vec![ResultAction::Upload]);
    assert_eq!(queue.state(position), Some(ChunkLifecycle::Ready));
    assert!(!storage.get_chunk(position).unwrap().is_dirty());
}

#[test]
fn an_edit_during_meshing_makes_the_result_stale_and_queues_the_chunk_again() {
    let position = ChunkPos::new(0, 0, 0);
    let (mut queue, mut storage) = world(&[position]);
    let jobs = start_all(&mut queue, &storage, &[position]);
    storage.set_block(WorldBlockPos::new(1, 1, 1), BlockId::air()).unwrap();
    assert_eq!(storage.get_chunk(position).unwrap().mesh_revision(), 1);

    let obsolete = cancel_obsolete_meshing(&mut queue, &storage, SEED, &jobs);
    assert_eq!(obsolete, vec![true]);
    assert_eq!(queue.state(position), Some(ChunkLifecycle::Generated));

    let again = start_all(&mut queue, &storage, &[position]);
    assert_eq!(again, vec![MeshJob { position, revision: 1, seed: SEED }]);
}

#[test]
fn a_boundary_edit_advances_the_neighbours_revision_too() {
    let (_, mut storage) = world(&[ChunkPos::new(0, 0, 0), ChunkPos::new(1, 0, 0)]);
    let before = storage.get_chunk(ChunkPos::new(1, 0, 0)).unwrap().mesh_revision();
    storage.set_block(WorldBlockPos::new(15, 3, 3), BlockId::air()).unwrap();
    assert_eq!(storage.get_chunk(ChunkPos::new(1, 0, 0)).unwrap().mesh_revision(), before + 1);
}

#[test]
fn jobs_of_unloaded_chunks_and_other_seeds_are_cancelled() {
    let near = ChunkPos::new(0, 0, 0);
    let far = ChunkPos::new(9, 0, 0);
    let (mut queue, mut storage) = world(&[near, far]);
    let mut jobs = start_all(&mut queue, &storage, &[near, far]);
    storage.remove_chunk(far);
    jobs[0].seed = SEED + 1;

    let obsolete = cancel_obsolete_meshing(&mut queue, &storage, SEED, &jobs);
    assert_eq!(obsolete, vec![true, true]);
    assert_eq!(queue.state(near), Some(ChunkLifecycle::Generated));
    assert_eq!(queue.state(far), None);
}

#[test]
fn uploads_stop_at_the_frame_budget_and_the_rest_wait() {
    let positions = [ChunkPos::new(0, 0, 0), ChunkPos::new(2, 0, 0), ChunkPos::new(4, 0, 0)];
    let (mut queue, mut storage) = world(&positions);
    let jobs = start_all(&mut queue, &storage, &positions);

    let actions = accept_meshing_results(&mut queue, &mut storage, SEED, &jobs, 2);
    assert_eq!(actions, vec![ResultAction::Upload, ResultAction::Upload, ResultAction::Wait]);
    assert_eq!(queue.state(positions[2]), Some(ChunkLifecycle::Meshing));
    assert!(storage.get_chunk(positions[2]).unwrap().is_dirty());
}

#[test]
fn finished_meshes_count_toward_the_task_limit() {
    let positions = [ChunkPos::new(0, 0, 0), ChunkPos::new(2, 0, 0), ChunkPos::new(4, 0, 0)];
    let (mut queue, storage) = world(&positions);
    let settings = MeshingSettings::default();

    let (tried, jobs) = start_meshing_jobs(&mut queue, &storage, SEED, settings, 3, &positions.to_vec());
    assert_eq!(tried, 1);
    assert_eq!(jobs.len(), 1);
    let (tried, jobs) = start_meshing_jobs(&mut queue, &storage, SEED, settings, 4, &positions.to_vec());
    assert_eq!((tried, jobs.len()), (0, 0));
}

#[test]
fn only_generated_chunks_without_a_current_mesh_are_candidates() {
    let fresh = ChunkPos::new(0, 0, 0);
    let meshed = ChunkPos::new(2, 0, 0);
    let edited = ChunkPos::new(4, 0, 0);
    let requested = ChunkPos::new(6, 0, 0);
    let (mut queue, mut storage) = world(&[fresh, meshed, edited]);
    storage.insert_chunk(requested, Chunk::new(BlockId::stone()));
    queue.request(requested);
    let mut rendered = ChunkSet::new();
    rendered.insert(meshed);
    rendered.insert(edited);
    storage.get_chunk_mut(meshed).unwrap().mark_clean();

    let mut candidates = meshing_candidates(&storage, &queue, &rendered);
    candidates.sort();
    assert_eq!(candidates, vec![fresh, edited]);
}
