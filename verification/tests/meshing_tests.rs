use rustcraft::block::{BlockFace, BlockId, BlockRegistry};
use rustcraft::chunk::{Chunk, ChunkStorage};
use rustcraft::coordinates::{ChunkPos, WorldBlockPos};
use rustcraft::meshing::voxel::{is_face_visible, merge_mask};

fn storage_with_chunk(position: ChunkPos) -> ChunkStorage {
    let mut storage = ChunkStorage::default();
    storage.insert_chunk(position, Chunk::default());
    storage
}

#[test]
fn face_next_to_air_is_visible() {
    let chunk_position = ChunkPos::new(0, 0, 0);
    let mut storage = storage_with_chunk(chunk_position);
    let block_position = WorldBlockPos::new(1, 1, 1);
    storage.set_block(block_position, BlockId::stone()).unwrap();

    assert!(is_face_visible(
        block_position,
        BlockFace::East,
        &storage,
        &BlockRegistry::default()
    ));
}

#[test]
fn face_next_to_transparent_block_is_visible() {
    let chunk_position = ChunkPos::new(0, 0, 0);
    let mut storage = storage_with_chunk(chunk_position);
    let block_position = WorldBlockPos::new(1, 1, 1);
    storage.set_block(block_position, BlockId::stone()).unwrap();
    storage
        .set_block(WorldBlockPos::new(2, 1, 1), BlockId::leaves())
        .unwrap();

    assert!(is_face_visible(
        block_position,
        BlockFace::East,
        &storage,
        &BlockRegistry::default()
    ));
}

#[test]
fn face_between_opaque_solid_blocks_is_hidden() {
    let chunk_position = ChunkPos::new(0, 0, 0);
    let mut storage = storage_with_chunk(chunk_position);
    let block_position = WorldBlockPos::new(1, 1, 1);
    storage.set_block(block_position, BlockId::stone()).unwrap();
    storage
        .set_block(WorldBlockPos::new(2, 1, 1), BlockId::grass())
        .unwrap();

    assert!(!is_face_visible(
        block_position,
        BlockFace::East,
        &storage,
        &BlockRegistry::default()
    ));
}

#[test]
fn face_between_positive_neighbor_chunks_is_hidden() {
    let left_position = ChunkPos::new(0, 0, 0);
    let right_position = ChunkPos::new(1, 0, 0);
    let mut storage = storage_with_chunk(left_position);
    storage.insert_chunk(right_position, Chunk::default());
    let block_position = WorldBlockPos::new(15, 1, 1);
    storage.set_block(block_position, BlockId::stone()).unwrap();
    storage
        .set_block(WorldBlockPos::new(16, 1, 1), BlockId::stone())
        .unwrap();

    assert!(!is_face_visible(
        block_position,
        BlockFace::East,
        &storage,
        &BlockRegistry::default()
    ));
}

#[test]
fn face_between_negative_neighbor_chunks_is_hidden() {
    let center_position = ChunkPos::new(0, 0, 0);
    let negative_position = ChunkPos::new(-1, 0, 0);
    let mut storage = storage_with_chunk(center_position);
    storage.insert_chunk(negative_position, Chunk::default());
    let block_position = WorldBlockPos::new(0, 1, 1);
    storage.set_block(block_position, BlockId::stone()).unwrap();
    storage
        .set_block(WorldBlockPos::new(-1, 1, 1), BlockId::stone())
        .unwrap();

    assert!(!is_face_visible(
        block_position,
        BlockFace::West,
        &storage,
        &BlockRegistry::default()
    ));
}

#[test]
fn face_between_vertical_neighbor_chunks_is_hidden() {
    let lower_position = ChunkPos::new(0, -2, 0);
    let upper_position = ChunkPos::new(0, -1, 0);
    let mut storage = storage_with_chunk(lower_position);
    storage.insert_chunk(upper_position, Chunk::default());
    let lower_block = WorldBlockPos::new(1, -17, 1);
    storage.set_block(lower_block, BlockId::stone()).unwrap();
    storage
        .set_block(WorldBlockPos::new(1, -16, 1), BlockId::stone())
        .unwrap();

    assert!(!is_face_visible(
        lower_block,
        BlockFace::Top,
        &storage,
        &BlockRegistry::default()
    ));
}

#[test]
fn face_at_unloaded_chunk_boundary_is_visible() {
    let chunk_position = ChunkPos::new(0, 0, 0);
    let mut storage = storage_with_chunk(chunk_position);
    let block_position = WorldBlockPos::new(15, 1, 1);
    storage.set_block(block_position, BlockId::stone()).unwrap();

    assert!(is_face_visible(
        block_position,
        BlockFace::East,
        &storage,
        &BlockRegistry::default()
    ));
}

#[test]
fn water_hides_internal_faces_but_shows_solid_shore_faces() {
    let position = ChunkPos::new(0, 0, 0);
    let mut storage = storage_with_chunk(position);
    storage.set_block(WorldBlockPos::new(2, 2, 2), BlockId::water()).unwrap();
    storage.set_block(WorldBlockPos::new(3, 2, 2), BlockId::water()).unwrap();
    storage.set_block(WorldBlockPos::new(1, 2, 2), BlockId::stone()).unwrap();
    let registry = BlockRegistry::default();

    assert!(!is_face_visible(WorldBlockPos::new(2, 2, 2), BlockFace::East, &storage, &registry));
    assert!(is_face_visible(WorldBlockPos::new(1, 2, 2), BlockFace::East, &storage, &registry));
    assert!(!is_face_visible(WorldBlockPos::new(2, 2, 2), BlockFace::West, &storage, &registry));
}

#[test]
fn greedy_merge_covers_equal_keys_with_rectangles() {
    let (width, height) = (3, 2);
    let mut mask = vec![Some(7), Some(7), Some(1), Some(7), Some(7), None];
    let rects = merge_mask(&mut mask, width, height);

    assert!(mask.iter().all(Option::is_none));
    assert_eq!(rects.len(), 2);
    let big = rects.iter().find(|rect| rect.key == 7).unwrap();
    assert_eq!((big.u, big.v, big.width, big.height), (0, 0, 2, 2));
    let small = rects.iter().find(|rect| rect.key == 1).unwrap();
    assert_eq!((small.u, small.v, small.width, small.height), (2, 0, 1, 1));
}

#[test]
fn solid_slab_merges_into_one_rectangle() {
    let mut mask = vec![Some(3); 16 * 16];
    let rects = merge_mask(&mut mask, 16, 16);
    assert_eq!(rects.len(), 1);
    assert_eq!((rects[0].width, rects[0].height), (16, 16));
}

#[test]
fn rectangles_grow_wide_first_then_down_in_scan_order() {
    // 3 by 3 mask:
    //   5 5 5
    //   5 5 .
    //   5 5 .
    let mut mask = vec![Some(5), Some(5), Some(5), Some(5), Some(5), None, Some(5), Some(5), None];
    let rects = merge_mask(&mut mask, 3, 3);
    let shapes: Vec<(usize, usize, usize, usize)> =
        rects.iter().map(|r| (r.u, r.v, r.width, r.height)).collect();
    assert_eq!(shapes, vec![(0, 0, 3, 1), (0, 1, 2, 2)]);
}
