use rustcraft::block::BlockId;
use rustcraft::chunk::{Chunk, ChunkStorage};
use rustcraft::coordinates::{ChunkPos, WorldBlockPos};
use rustcraft::generation::features::{paint_trees, tree_height, ChunkWorldBounds, TreeFeature};
use rustcraft::generation::random::{hash_2d, hash_3d};
use rustcraft::generation::streaming::{
    apply_generation_result, required_chunk_positions, update_requests, vertical_chunk_bounds,
    ChunkSet, GenerationSettings, StreamingUpdate,
};
use rustcraft::generation::terrain::{is_chunk_below_terrain, layer_terrain, terrain_block};
use rustcraft::coordinates::LocalBlockPos;
use rustcraft::generation::{is_chunk_potentially_empty, ChunkGenerationQueue, ChunkLifecycle};

fn settings(
    radius: i32,
    world_min_y: i32,
    world_max_y: i32,
    concurrent: usize,
) -> GenerationSettings {
    GenerationSettings {
        seed: 42,
        render_distance_chunks: radius,
        world_min_y,
        world_max_y,
        max_concurrent_generation_jobs: concurrent,
    }
}

fn begin_generation(queue: &mut ChunkGenerationQueue, position: ChunkPos) {
    assert!(queue.request(position));
    queue.reprioritize(position);
    assert_eq!(queue.take_next_generation(), Some(position));
}

fn only(position: ChunkPos) -> ChunkSet {
    let mut set = ChunkSet::new();
    set.insert(position);
    set
}

#[test]
fn coordinate_hashing_is_repeatable_and_axis_sensitive() {
    let reference_hash = hash_3d(42, -7, 11, 23);

    assert_eq!(reference_hash, hash_3d(42, -7, 11, 23));
    assert_ne!(reference_hash, hash_3d(42, -6, 11, 23));
    assert_ne!(reference_hash, hash_3d(42, -7, 12, 23));
    assert_ne!(reference_hash, hash_3d(42, -7, 11, 24));
    assert_ne!(reference_hash, hash_3d(43, -7, 11, 23));
}

#[test]
fn horizontal_hash_depends_on_both_axes() {
    assert_eq!(hash_2d(1, 2, 3), hash_2d(1, 2, 3));
    assert_ne!(hash_2d(1, 2, 3), hash_2d(1, 3, 2));
}

#[test]
fn duplicate_requests_create_only_one_pending_job() {
    let position = ChunkPos::new(2, -1, 7);
    let mut queue = ChunkGenerationQueue::default();

    assert!(queue.request(position));
    assert!(!queue.request(position));
    assert_eq!(queue.tracked_count(), 1);
    assert_eq!(queue.pending_count(), 1);

    queue.reprioritize(ChunkPos::default());
    assert_eq!(queue.take_next_generation(), Some(position));
    assert_eq!(queue.take_next_generation(), None);
}

#[test]
fn lifecycle_rejects_invalid_transitions() {
    let position = ChunkPos::default();
    let mut queue = ChunkGenerationQueue::default();
    queue.request(position);

    assert!(!queue.finish_generation(position));
    queue.reprioritize(position);
    assert_eq!(queue.take_next_generation(), Some(position));
    assert_eq!(queue.state(position), Some(ChunkLifecycle::Generating));
    assert!(queue.finish_generation(position));
    assert_eq!(queue.state(position), Some(ChunkLifecycle::Generated));
    assert!(queue.begin_meshing(position));
    assert_eq!(queue.state(position), Some(ChunkLifecycle::Meshing));
    assert!(queue.finish_meshing(position));
    assert_eq!(queue.state(position), Some(ChunkLifecycle::Ready));
    assert!(!queue.finish_generation(position));
}

#[test]
fn nearest_job_is_taken_first() {
    let center = ChunkPos::new(10, 3, -4);
    let near = ChunkPos::new(11, 3, -4);
    let far = ChunkPos::new(15, 3, -4);
    let mut queue = ChunkGenerationQueue::default();
    queue.request(far);
    queue.request(near);
    queue.reprioritize(center);

    assert_eq!(queue.take_next_generation(), Some(near));
    assert!(queue.finish_generation(near));
    assert_eq!(queue.take_next_generation(), Some(far));
}

#[test]
fn cancelling_forgets_a_chunk_and_its_pending_job() {
    let position = ChunkPos::new(1, 1, 1);
    let mut queue = ChunkGenerationQueue::default();
    queue.request(position);
    assert_eq!(queue.cancel(position), Some(ChunkLifecycle::Requested));
    assert_eq!(queue.state(position), None);
    assert_eq!(queue.pending_count(), 0);
    queue.register_generated(position);
    assert_eq!(queue.state(position), Some(ChunkLifecycle::Generated));
    assert_eq!(queue.generating_count(), 0);
}

#[test]
fn default_streaming_window_has_requested_radius_and_bounded_concurrency() {
    let settings = GenerationSettings::default();
    let center = ChunkPos::new(4, 2, -3);
    let required = required_chunk_positions(center, &settings);

    assert_eq!(settings.render_distance_chunks, 8);
    assert_eq!(settings.max_concurrent_generation_jobs, 4);
    assert_eq!(settings.world_min_y, -64);
    assert_eq!(settings.world_max_y, 192);
    assert_eq!(required.len(), 197 * 16);
    assert!(required.contains(ChunkPos::new(12, -4, -3)));
    assert!(required.contains(ChunkPos::new(12, 0, -3)));
    assert!(required.contains(ChunkPos::new(12, 11, -3)));
    assert!(!required.contains(ChunkPos::new(12, 2, 5)));
    assert!(!required.contains(ChunkPos::new(4, 12, -3)));
}

#[test]
fn world_bounds_convert_to_inclusive_vertical_chunk_range() {
    let default_settings = GenerationSettings::default();
    assert_eq!(vertical_chunk_bounds(&default_settings), Some((-4, 11)));

    let unaligned = settings(0, -63, 193, 1);
    assert_eq!(vertical_chunk_bounds(&unaligned), Some((-4, 12)));
}

#[test]
fn invalid_vertical_world_bounds_request_no_chunks() {
    let required = required_chunk_positions(ChunkPos::default(), &settings(8, 192, -64, 4));

    assert!(required.is_empty());
}

#[test]
fn required_positions_use_horizontal_distance_not_a_square() {
    let center = ChunkPos::new(-5, 0, 7);
    let required = required_chunk_positions(center, &settings(2, 0, 16, 1));

    assert_eq!(required.len(), 13);
    assert!(required.contains(ChunkPos::new(-3, 0, 7)));
    assert!(required.contains(ChunkPos::new(-4, 0, 8)));
    assert!(!required.contains(ChunkPos::new(-3, 0, 9)));
}

#[test]
fn completed_result_is_applied_only_in_main_world_step() {
    let position = ChunkPos::default();
    let settings = settings(0, 0, 16, 1);
    let required = only(position);
    let mut storage = ChunkStorage::default();
    let mut queue = ChunkGenerationQueue::default();
    begin_generation(&mut queue, position);

    assert!(apply_generation_result(
        position,
        Chunk::new(BlockId::stone()),
        settings.seed,
        true,
        &required,
        &settings,
        &mut storage,
        &mut queue
    ));
    assert!(storage.contains_chunk(position));
    assert_eq!(queue.state(position), Some(ChunkLifecycle::Generated));
}

#[test]
fn result_is_discarded_when_chunk_is_no_longer_required() {
    let position = ChunkPos::new(8, 0, 8);
    let settings = settings(0, 0, 16, 1);
    let mut storage = ChunkStorage::default();
    let mut queue = ChunkGenerationQueue::default();
    begin_generation(&mut queue, position);

    assert!(!apply_generation_result(
        position,
        Chunk::new(BlockId::stone()),
        settings.seed,
        true,
        &ChunkSet::new(),
        &settings,
        &mut storage,
        &mut queue
    ));
    assert!(!storage.contains_chunk(position));
    assert_eq!(queue.state(position), None);
}

#[test]
fn stale_seed_result_is_requeued_without_overwriting_data() {
    let position = ChunkPos::default();
    let settings = settings(0, 0, 16, 1);
    let required = only(position);
    let mut storage = ChunkStorage::default();
    let mut queue = ChunkGenerationQueue::default();
    begin_generation(&mut queue, position);

    assert!(!apply_generation_result(
        position,
        Chunk::new(BlockId::stone()),
        settings.seed + 1,
        true,
        &required,
        &settings,
        &mut storage,
        &mut queue
    ));
    assert!(!storage.contains_chunk(position));
    assert_eq!(queue.state(position), Some(ChunkLifecycle::Requested));
}

#[test]
fn existing_chunk_is_never_overwritten_by_worker_result() {
    let position = ChunkPos::default();
    let settings = settings(0, 0, 16, 1);
    let required = only(position);
    let mut storage = ChunkStorage::default();
    let mut queue = ChunkGenerationQueue::default();
    begin_generation(&mut queue, position);
    storage.insert_chunk(position, Chunk::new(BlockId::iron_ore()));

    assert!(!apply_generation_result(
        position,
        Chunk::new(BlockId::stone()),
        settings.seed,
        true,
        &required,
        &settings,
        &mut storage,
        &mut queue
    ));
    assert_eq!(
        storage.get_block(WorldBlockPos::new(0, 0, 0)),
        Some(BlockId::iron_ore())
    );
    assert_eq!(queue.state(position), Some(ChunkLifecycle::Generated));
}

#[test]
fn stale_cave_settings_result_is_requeued() {
    let position = ChunkPos::default();
    let settings = settings(0, 0, 16, 1);
    let required = only(position);
    let mut storage = ChunkStorage::default();
    let mut queue = ChunkGenerationQueue::default();
    begin_generation(&mut queue, position);

    assert!(!apply_generation_result(
        position,
        Chunk::new(BlockId::stone()),
        settings.seed,
        false,
        &required,
        &settings,
        &mut storage,
        &mut queue
    ));
    assert!(!storage.contains_chunk(position));
    assert_eq!(queue.state(position), Some(ChunkLifecycle::Requested));
}

#[test]
fn leaving_window_preserves_generating_state_for_inflight_result() {
    let position = ChunkPos::new(5, 0, 5);
    let required = ChunkSet::new();
    let mut storage = ChunkStorage::default();
    let mut queue = ChunkGenerationQueue::default();
    let running = ChunkSet::new();
    begin_generation(&mut queue, position);

    update_requests(&mut storage, &mut queue, &running, &required);

    assert_eq!(queue.state(position), Some(ChunkLifecycle::Generating));
    assert_eq!(queue.generating_count(), 1);
}

#[test]
fn update_requests_unloads_outside_and_requests_inside() {
    let inside = ChunkPos::new(0, 0, 0);
    let outside = ChunkPos::new(9, 0, 0);
    let mut storage = ChunkStorage::default();
    storage.insert_chunk(outside, Chunk::default());
    let mut queue = ChunkGenerationQueue::default();
    let update = update_requests(&mut storage, &mut queue, &ChunkSet::new(), &only(inside));
    assert_eq!(update.unloaded, 1);
    assert_eq!(update.requested, 1);
    assert!(update.has_activity());
    assert!(!StreamingUpdate::default().has_activity());
    assert!(!storage.contains_chunk(outside));
    assert_eq!(queue.state(inside), Some(ChunkLifecycle::Requested));
}

#[test]
fn empty_prediction_includes_the_highest_possible_tree() {
    assert!(!is_chunk_potentially_empty(ChunkPos::new(0, 2, 0)));
    assert!(is_chunk_potentially_empty(ChunkPos::new(0, 3, 0)));
}

#[test]
fn terrain_columns_stack_surface_subsurface_and_stone() {
    let grass = BlockId::grass();
    let dirt = BlockId::dirt();
    assert_eq!(terrain_block(11, 10, grass, dirt), BlockId::air());
    assert_eq!(terrain_block(10, 10, grass, dirt), grass);
    assert_eq!(terrain_block(7, 10, grass, dirt), dirt);
    assert_eq!(terrain_block(6, 10, grass, dirt), BlockId::stone());
    assert!(is_chunk_below_terrain(ChunkPos::new(0, -2, 0)));
    assert!(!is_chunk_below_terrain(ChunkPos::new(0, -1, 0)));
}

#[test]
fn tree_trunk_and_canopy_cross_chunk_edges_without_replacing_terrain() {
    let tree = TreeFeature {
        root_x: 15,
        surface_y: 3,
        root_z: 8,
        trunk_height: 4,
    };
    assert_eq!(tree.trunk_top(), 7);
    assert_eq!(tree.block_at(15, 4, 8), Some(BlockId::wood()));
    assert_eq!(tree.block_at(16, 7, 8), Some(BlockId::leaves()));
    assert_eq!(tree.block_at(15, 3, 8), None);
    assert!(tree.intersects(ChunkWorldBounds::new(ChunkPos::new(1, 0, 0))));
    assert!(!tree.intersects(ChunkWorldBounds::new(ChunkPos::new(2, 0, 0))));

    let mut east = Chunk::default();
    paint_trees(&mut east, ChunkPos::new(1, 0, 0), &[tree]);
    assert_eq!(east.get_block(0, 7, 8), Some(BlockId::leaves()));
    assert_eq!(east.get_block(0, 4, 8), Some(BlockId::air()));

    let mut home = Chunk::new(BlockId::stone());
    home.set_block(15, 5, 8, BlockId::air()).unwrap();
    paint_trees(&mut home, ChunkPos::new(0, 0, 0), &[tree]);
    assert_eq!(home.get_block(15, 5, 8), Some(BlockId::wood()));
    assert_eq!(home.get_block(15, 4, 8), Some(BlockId::stone()));
    assert_eq!(home.get_block(14, 7, 8), Some(BlockId::stone()));
}

#[test]
fn tree_heights_are_deterministic_and_bounded() {
    for x in -20..20 {
        let height = tree_height(42, x, 3);
        assert_eq!(height, tree_height(42, x, 3));
        assert!((4..=6).contains(&height));
    }
}

use rustcraft::generation::features::ground_supports_tree;
use rustcraft::generation::random::splitmix64;

#[test]
fn trees_need_level_ground_and_no_cliff_over_the_canopy() {
    let flat = [[10; 5]; 5];
    assert!(ground_supports_tree(&flat, 10));
    let mut step = flat;
    step[2][3] = 11;
    assert!(ground_supports_tree(&step, 10));
    step[2][3] = 12;
    assert!(!ground_supports_tree(&step, 10));
    let mut dip = flat;
    dip[1][1] = 8;
    assert!(!ground_supports_tree(&dip, 10));
    dip[1][1] = 10;
    dip[0][0] = 2;
    assert!(ground_supports_tree(&dip, 10));
    let mut cliff = flat;
    cliff[4][0] = 12;
    assert!(!ground_supports_tree(&cliff, 10));
}

#[test]
fn splitmix_matches_its_reference_value() {
    assert_eq!(splitmix64(0), 0xE220_A839_7B1D_CDAF);
}

use rustcraft::generation::Biome;

#[test]
fn biomes_define_their_surface_layers_and_tree_growth() {
    assert_eq!(Biome::all().len(), 4);
    assert_eq!(Biome::Plains.surface_block(), BlockId::grass());
    assert_eq!(Biome::Forest.subsurface_block(), BlockId::dirt());
    assert_eq!(Biome::Desert.surface_block(), BlockId::sand());
    assert_eq!(Biome::Rocky.subsurface_block(), BlockId::stone());
    assert!(Biome::Forest.grows_trees() && Biome::Plains.grows_trees());
    assert!(!Biome::Desert.grows_trees() && !Biome::Rocky.grows_trees());
}

#[test]
fn low_columns_fill_with_water_up_to_just_below_sea_level() {
    let mut heights = vec![4; 256];
    heights[1] = 12;
    let chunk = layer_terrain(
        ChunkPos::new(0, 0, 0),
        &heights,
        &vec![BlockId::sand(); 256],
        &vec![BlockId::dirt(); 256],
    );
    let at = |x: usize, y: usize| chunk.get_local(LocalBlockPos::new(x, y, 0).unwrap());
    assert_eq!(at(0, 0), BlockId::stone());
    assert_eq!(at(0, 1), BlockId::dirt());
    assert_eq!(at(0, 4), BlockId::sand());
    assert_eq!(at(0, 5), BlockId::water());
    assert_eq!(at(0, 7), BlockId::water());
    assert_eq!(at(0, 8), BlockId::air());
    assert_eq!(at(1, 8), BlockId::stone());
    assert_eq!(at(1, 9), BlockId::dirt());
    assert_eq!(at(1, 12), BlockId::sand());
    assert_eq!(at(1, 13), BlockId::air());
}
