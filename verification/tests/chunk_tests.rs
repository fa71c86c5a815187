use rustcraft::block::BlockId;
use rustcraft::chunk::{face_neighbors, Chunk, ChunkBoundsError, ChunkNotLoadedError, ChunkStorage};
use rustcraft::coordinates::{
    ChunkPos, LocalBlockPos, WorldBlockPos, CHUNK_DEPTH, CHUNK_HEIGHT, CHUNK_VOLUME, CHUNK_WIDTH,
};

fn mark_all_clean(storage: &mut ChunkStorage) {
    for position in storage.positions() {
        storage.get_chunk_mut(position).unwrap().mark_clean();
    }
}

#[test]
fn dimensions_produce_the_expected_storage_size() {
    let chunk = Chunk::default();

    assert_eq!(CHUNK_VOLUME, 16 * 16 * 16);
    assert_eq!(chunk.blocks().len(), CHUNK_VOLUME);
    assert!(chunk.blocks().iter().all(|block| *block == BlockId::air()));
    assert!(chunk.is_all_air());
}

#[test]
fn xyz_indices_cover_the_dense_storage_exactly_once() {
    let mut visited = vec![false; CHUNK_VOLUME];

    for y in 0..CHUNK_HEIGHT {
        for z in 0..CHUNK_DEPTH {
            for x in 0..CHUNK_WIDTH {
                let index = Chunk::xyz_to_index(x, y, z).expect("coordinate must be valid");
                assert!(!visited[index], "duplicate index {index}");
                visited[index] = true;
            }
        }
    }

    assert!(visited.into_iter().all(|was_visited| was_visited));
    assert_eq!(Chunk::xyz_to_index(0, 0, 0), Some(0));
    assert_eq!(
        Chunk::xyz_to_index(CHUNK_WIDTH - 1, CHUNK_HEIGHT - 1, CHUNK_DEPTH - 1),
        Some(CHUNK_VOLUME - 1)
    );
}

#[test]
fn get_and_set_block_use_local_coordinates() {
    let mut chunk = Chunk::default();
    chunk.mark_clean();

    assert_eq!(chunk.get_block(3, 7, 11), Some(BlockId::air()));
    assert_eq!(chunk.set_block(3, 7, 11, BlockId::stone()), Ok(BlockId::air()));
    assert_eq!(chunk.get_block(3, 7, 11), Some(BlockId::stone()));
    assert!(chunk.is_dirty());
    assert!(!chunk.is_all_air());
}

#[test]
fn unchanged_blocks_do_not_dirty_a_clean_chunk() {
    let mut chunk = Chunk::new(BlockId::dirt());
    chunk.mark_clean();

    assert_eq!(chunk.set_block(1, 2, 3, BlockId::dirt()), Ok(BlockId::dirt()));
    assert!(!chunk.is_dirty());
}

#[test]
fn out_of_bounds_coordinates_are_rejected_without_mutation() {
    let mut chunk = Chunk::default();
    chunk.mark_clean();

    assert_eq!(chunk.get_block(CHUNK_WIDTH, 0, 0), None);
    assert_eq!(chunk.get_block(0, CHUNK_HEIGHT, 0), None);
    assert_eq!(chunk.get_block(0, 0, CHUNK_DEPTH), None);
    assert_eq!(
        chunk.set_block(CHUNK_WIDTH, 0, 0, BlockId::stone()),
        Err(ChunkBoundsError {
            x: CHUNK_WIDTH,
            y: 0,
            z: 0,
        })
    );
    assert!(!chunk.is_dirty());
    assert!(chunk.blocks().iter().all(|block| *block == BlockId::air()));
}

#[test]
fn storage_inserts_reads_mutates_and_removes_chunks() {
    let position = ChunkPos::new(3, -2, 7);
    let mut storage = ChunkStorage::default();

    assert!(!storage.contains_chunk(position));
    assert!(storage
        .insert_chunk(position, Chunk::new(BlockId::dirt()))
        .is_none());
    assert!(storage.contains_chunk(position));
    assert_eq!(
        storage
            .get_chunk(position)
            .unwrap()
            .get_local(LocalBlockPos::default()),
        BlockId::dirt()
    );

    storage.get_chunk_mut(position).unwrap().mark_clean();
    assert!(!storage.get_chunk(position).unwrap().is_dirty());

    let removed = storage
        .remove_chunk(position)
        .expect("chunk must be removed");
    assert!(!storage.contains_chunk(position));
    assert_eq!(removed.get_local(LocalBlockPos::default()), BlockId::dirt());
    assert!(storage.remove_chunk(position).is_none());
}

#[test]
fn world_block_access_handles_negative_coordinates() {
    let negative_chunk = ChunkPos::new(-1, -1, -1);
    let mut storage = ChunkStorage::default();
    storage.insert_chunk(negative_chunk, Chunk::default());
    storage.get_chunk_mut(negative_chunk).unwrap().mark_clean();

    let world_position = WorldBlockPos::new(-1, -1, -1);
    assert_eq!(storage.get_block(world_position), Some(BlockId::air()));
    assert_eq!(
        storage.set_block(world_position, BlockId::stone()),
        Ok(BlockId::air())
    );
    assert_eq!(storage.get_block(world_position), Some(BlockId::stone()));
    assert_eq!(
        storage
            .get_chunk(negative_chunk)
            .unwrap()
            .get_local(LocalBlockPos::new(15, 15, 15).unwrap()),
        BlockId::stone()
    );
    assert!(storage.get_chunk(negative_chunk).unwrap().is_dirty());
}

#[test]
fn missing_chunks_are_reported_without_being_created() {
    let mut storage = ChunkStorage::default();
    let world_position = WorldBlockPos::new(-1, 20, 40);
    let expected_chunk = ChunkPos::new(-1, 1, 2);

    assert_eq!(storage.get_block(world_position), None);
    assert_eq!(
        storage.set_block(world_position, BlockId::stone()),
        Err(ChunkNotLoadedError {
            chunk_position: expected_chunk,
        })
    );
    assert!(!storage.contains_chunk(expected_chunk));
}

#[test]
fn changing_each_chunk_face_dirties_its_loaded_neighbor() {
    let center = ChunkPos::new(0, 0, 0);
    let neighbors = [
        ChunkPos::new(-1, 0, 0),
        ChunkPos::new(1, 0, 0),
        ChunkPos::new(0, -1, 0),
        ChunkPos::new(0, 1, 0),
        ChunkPos::new(0, 0, -1),
        ChunkPos::new(0, 0, 1),
    ];
    let cases = [
        (WorldBlockPos::new(0, 8, 8), neighbors[0]),
        (WorldBlockPos::new(15, 8, 8), neighbors[1]),
        (WorldBlockPos::new(8, 0, 8), neighbors[2]),
        (WorldBlockPos::new(8, 15, 8), neighbors[3]),
        (WorldBlockPos::new(8, 8, 0), neighbors[4]),
        (WorldBlockPos::new(8, 8, 15), neighbors[5]),
    ];

    for (world_position, expected_dirty_neighbor) in cases {
        let mut storage = ChunkStorage::default();
        storage.insert_chunk(center, Chunk::default());
        for neighbor in neighbors {
            storage.insert_chunk(neighbor, Chunk::default());
        }
        mark_all_clean(&mut storage);

        storage.set_block(world_position, BlockId::stone()).unwrap();

        assert!(storage.get_chunk(center).unwrap().is_dirty());
        for neighbor in neighbors {
            assert_eq!(
                storage.get_chunk(neighbor).unwrap().is_dirty(),
                neighbor == expected_dirty_neighbor,
                "unexpected dirty state for {neighbor:?} after changing {world_position:?}"
            );
        }
    }
}

#[test]
fn chunk_corner_dirties_three_face_neighbors_but_not_diagonals() {
    let center = ChunkPos::new(0, 0, 0);
    let face_neighbors = [
        ChunkPos::new(-1, 0, 0),
        ChunkPos::new(0, -1, 0),
        ChunkPos::new(0, 0, -1),
    ];
    let diagonal = ChunkPos::new(-1, -1, -1);
    let mut storage = ChunkStorage::default();
    storage.insert_chunk(center, Chunk::default());
    for neighbor in face_neighbors {
        storage.insert_chunk(neighbor, Chunk::default());
    }
    storage.insert_chunk(diagonal, Chunk::default());
    mark_all_clean(&mut storage);

    storage
        .set_block(WorldBlockPos::new(0, 0, 0), BlockId::stone())
        .unwrap();

    assert!(storage.get_chunk(center).unwrap().is_dirty());
    for neighbor in face_neighbors {
        assert!(storage.get_chunk(neighbor).unwrap().is_dirty());
    }
    assert!(!storage.get_chunk(diagonal).unwrap().is_dirty());
}

#[test]
fn interior_or_unchanged_blocks_do_not_dirty_neighbors() {
    let center = ChunkPos::new(0, 0, 0);
    let neighbor = ChunkPos::new(-1, 0, 0);
    let mut storage = ChunkStorage::default();
    storage.insert_chunk(center, Chunk::default());
    storage.insert_chunk(neighbor, Chunk::default());
    mark_all_clean(&mut storage);

    storage
        .set_block(WorldBlockPos::new(8, 8, 8), BlockId::stone())
        .unwrap();
    assert!(!storage.get_chunk(neighbor).unwrap().is_dirty());

    storage.get_chunk_mut(center).unwrap().mark_clean();
    storage
        .set_block(WorldBlockPos::new(0, 8, 8), BlockId::air())
        .unwrap();
    assert!(!storage.get_chunk(center).unwrap().is_dirty());
    assert!(!storage.get_chunk(neighbor).unwrap().is_dirty());
}

#[test]
fn loading_a_chunk_dirties_only_loaded_face_neighbors() {
    let center = ChunkPos::new(0, 0, 0);
    let neighbors = face_neighbors(center);
    let diagonal = ChunkPos::new(1, 1, 0);
    let mut storage = ChunkStorage::default();

    for position in neighbors.iter().copied() {
        storage.insert_chunk(position, Chunk::default());
    }
    storage.insert_chunk(diagonal, Chunk::default());
    mark_all_clean(&mut storage);

    storage.insert_chunk(center, Chunk::default());

    for position in neighbors.iter().copied() {
        assert!(storage.get_chunk(position).unwrap().is_dirty());
    }
    assert!(!storage.get_chunk(diagonal).unwrap().is_dirty());
}

#[test]
fn unloading_a_chunk_dirties_only_loaded_face_neighbors() {
    let center = ChunkPos::new(-3, 2, 7);
    let neighbors = face_neighbors(center);
    let diagonal = ChunkPos::new(center.x + 1, center.y + 1, center.z);
    let mut storage = ChunkStorage::default();

    storage.insert_chunk(center, Chunk::default());
    for position in neighbors.iter().copied() {
        storage.insert_chunk(position, Chunk::default());
    }
    storage.insert_chunk(diagonal, Chunk::default());
    mark_all_clean(&mut storage);

    storage
        .remove_chunk(center)
        .expect("center chunk must exist");

    for position in neighbors.iter().copied() {
        assert!(storage.get_chunk(position).unwrap().is_dirty());
    }
    assert!(!storage.get_chunk(diagonal).unwrap().is_dirty());
}

#[test]
fn saved_blocks_must_fill_exactly_one_chunk() {
    assert_eq!(Chunk::from_saved_blocks(vec![BlockId::stone(); 3]).unwrap_err(), 3);
    let chunk = Chunk::from_saved_blocks(vec![BlockId::stone(); CHUNK_VOLUME]).unwrap();
    assert!(chunk.is_dirty());
    assert_eq!(chunk.get_block(15, 15, 15), Some(BlockId::stone()));
}

#[test]
fn a_written_block_reads_back_and_its_neighbours_keep_theirs() {
    let mut storage = ChunkStorage::default();
    storage.insert_chunk(ChunkPos::new(0, 0, 0), Chunk::new(BlockId::dirt()));
    storage.insert_chunk(ChunkPos::new(1, 0, 0), Chunk::new(BlockId::sand()));

    let written = WorldBlockPos::new(15, 4, 4);
    assert_eq!(storage.set_block(written, BlockId::stone()), Ok(BlockId::dirt()));
    assert_eq!(storage.get_block(written), Some(BlockId::stone()));
    assert_eq!(storage.get_block(WorldBlockPos::new(14, 4, 4)), Some(BlockId::dirt()));
    assert_eq!(storage.get_block(WorldBlockPos::new(16, 4, 4)), Some(BlockId::sand()));
    assert_eq!(storage.get_block(WorldBlockPos::new(-1, 4, 4)), None);
}
