use std::collections::VecDeque;

use rustcraft::coordinates::{ChunkPos, WorldBlockPos};
use rustcraft::meshing::lighting::{
    occlusion_level, propagate_channel, LightBounds, MAX_LIGHT_LEVEL,
};

#[test]
fn light_loses_one_level_per_block() {
    let bounds = LightBounds::from_min_max(
        WorldBlockPos::new(-20, -20, -20),
        WorldBlockPos::new(20, 20, 20),
    );
    let transparent = vec![1; bounds.volume()];
    let mut levels = vec![0; bounds.volume()];
    let origin = bounds.index(WorldBlockPos::new(0, 0, 0)).unwrap();
    levels[origin] = MAX_LIGHT_LEVEL;

    propagate_channel(&mut levels, &transparent, bounds, VecDeque::from([origin]));

    assert_eq!(
        levels[bounds.index(WorldBlockPos::new(1, 0, 0)).unwrap()],
        14
    );
    assert_eq!(
        levels[bounds.index(WorldBlockPos::new(14, 0, 0)).unwrap()],
        1
    );
    assert_eq!(
        levels[bounds.index(WorldBlockPos::new(15, 0, 0)).unwrap()],
        0
    );
}

#[test]
fn opaque_cells_stop_propagation() {
    let bounds =
        LightBounds::from_min_max(WorldBlockPos::new(0, 0, 0), WorldBlockPos::new(4, 0, 0));
    let wall = WorldBlockPos::new(2, 0, 0);
    let source = bounds.index(WorldBlockPos::new(0, 0, 0)).unwrap();
    let wall_index = bounds.index(wall).unwrap();
    let mut transparent = vec![1; bounds.volume()];
    transparent[wall_index] = 0;
    let mut levels = vec![0; bounds.volume()];
    levels[source] = 5;

    propagate_channel(&mut levels, &transparent, bounds, VecDeque::from([source]));

    assert_eq!(
        levels[bounds.index(WorldBlockPos::new(1, 0, 0)).unwrap()],
        4
    );
    assert_eq!(levels[wall_index], 0);
    assert_eq!(
        levels[bounds.index(WorldBlockPos::new(3, 0, 0)).unwrap()],
        0
    );
}

#[test]
fn an_empty_queue_changes_nothing() {
    let bounds =
        LightBounds::from_min_max(WorldBlockPos::new(0, 0, 0), WorldBlockPos::new(2, 2, 2));
    let transparent = vec![1; bounds.volume()];
    let mut levels = vec![3; bounds.volume()];
    propagate_channel(&mut levels, &transparent, bounds, VecDeque::new());
    assert!(levels.iter().all(|level| *level == 3));
}

#[test]
fn chunk_light_box_reaches_fifteen_blocks_past_every_face() {
    let bounds = LightBounds::around_chunk(ChunkPos::new(1, -1, 0));
    assert_eq!(bounds.min, WorldBlockPos::new(1, -31, -15));
    assert_eq!(bounds.max(), WorldBlockPos::new(46, 14, 30));
    assert_eq!(bounds.volume(), 46 * 46 * 46);
    assert_eq!(bounds.index(WorldBlockPos::new(1, -31, -15)), Some(0));
    assert_eq!(bounds.index(WorldBlockPos::new(0, -31, -15)), None);
}

#[test]
fn ambient_occlusion_counts_blocked_neighbors() {
    assert_eq!(occlusion_level(false, false, false), 0);
    assert_eq!(occlusion_level(true, false, false), 1);
    assert_eq!(occlusion_level(false, false, true), 1);
    assert_eq!(occlusion_level(true, false, true), 2);
    assert_eq!(occlusion_level(true, true, false), 3);
}

use rustcraft::block::{BlockFace, BlockId, BlockRegistry};
use rustcraft::chunk::{Chunk, ChunkStorage};
use rustcraft::coordinates::LocalBlockPos;
use rustcraft::meshing::lighting::{vertex_light_samples, ChunkLightMap};

const LIGHT_BOX_COLUMNS: usize = 46 * 46;

#[test]
fn open_sky_lights_every_cell_fully() {
    let storage = ChunkStorage::new();
    let registry = BlockRegistry::default();
    let lights = ChunkLightMap::build(
        ChunkPos::new(0, 0, 0),
        &storage,
        &registry,
        &vec![-1000; LIGHT_BOX_COLUMNS],
    );

    let centre = lights.sample(WorldBlockPos::new(8, 8, 8));
    assert_eq!(centre.sky, MAX_LIGHT_LEVEL);
    assert_eq!(centre.block, 0);
    assert!(!lights.is_opaque(WorldBlockPos::new(8, 8, 8)));
    let outside = lights.sample(WorldBlockPos::new(100, 8, 8));
    assert_eq!((outside.sky, outside.block), (0, 0));
}

#[test]
fn predicted_ground_is_dark_and_opaque() {
    let storage = ChunkStorage::new();
    let registry = BlockRegistry::default();
    let lights =
        ChunkLightMap::build(ChunkPos::new(0, 0, 0), &storage, &registry, &vec![1000; LIGHT_BOX_COLUMNS]);

    assert_eq!(lights.sample(WorldBlockPos::new(3, 3, 3)).sky, 0);
    assert!(lights.is_opaque(WorldBlockPos::new(3, 3, 3)));
}

#[test]
fn a_stone_block_shades_the_cell_below_by_one_level() {
    let mut chunk = Chunk::new(BlockId::air());
    chunk.set_local(LocalBlockPos::new(5, 10, 5).unwrap(), BlockId::stone());
    let mut storage = ChunkStorage::new();
    storage.insert_chunk(ChunkPos::new(0, 0, 0), chunk);
    let registry = BlockRegistry::default();
    let lights = ChunkLightMap::build(
        ChunkPos::new(0, 0, 0),
        &storage,
        &registry,
        &vec![-1000; LIGHT_BOX_COLUMNS],
    );

    assert!(lights.is_opaque(WorldBlockPos::new(5, 10, 5)));
    assert_eq!(lights.sample(WorldBlockPos::new(5, 11, 5)).sky, 15);
    assert_eq!(lights.sample(WorldBlockPos::new(5, 9, 5)).sky, 14);
    assert_eq!(lights.sample(WorldBlockPos::new(5, 0, 5)).sky, 14);

    let (samples, occlusion) =
        vertex_light_samples(WorldBlockPos::new(5, 10, 5), BlockFace::Top, [true, true, true], &lights);
    assert_eq!(samples.map(|s| s.sky), [15; 4]);
    assert_eq!(occlusion, 0);
    let (below, _) =
        vertex_light_samples(WorldBlockPos::new(5, 10, 5), BlockFace::Bottom, [false, false, false], &lights);
    assert_eq!(below[0].sky, 14);
}
