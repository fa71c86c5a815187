use rustcraft::block::{BlockId, BlockRegistry};
use rustcraft::chunk::{Chunk, ChunkStorage};
use rustcraft::coordinates::{ChunkPos, WorldBlockPos};
use rustcraft::generation::streaming::GenerationSettings;
use rustcraft::interaction::{
    adjacent_position, leaves_drop_apple, survival_drop, take_breakable_block, try_break_block,
    try_place_block, try_place_selected_block,
};
use rustcraft::inventory::PlayerInventory;
use rustcraft::item::{ItemId, ItemRegistry};

fn settings() -> GenerationSettings {
    GenerationSettings {
        world_min_y: -64,
        world_max_y: 192,
        ..GenerationSettings::default()
    }
}

#[test]
fn breakable_boundary_block_becomes_air_and_dirties_both_chunks() {
    let center = ChunkPos::new(0, 0, 0);
    let east = ChunkPos::new(1, 0, 0);
    let position = WorldBlockPos::new(15, 5, 5);
    let mut storage = ChunkStorage::default();
    storage.insert_chunk(center, Chunk::default());
    storage.insert_chunk(east, Chunk::default());
    storage.set_block(position, BlockId::stone()).unwrap();
    storage.get_chunk_mut(center).unwrap().mark_clean();
    storage.get_chunk_mut(east).unwrap().mark_clean();

    assert!(try_break_block(
        &mut storage,
        &BlockRegistry::default(),
        position
    ));

    assert_eq!(storage.get_block(position), Some(BlockId::air()));
    assert!(storage.get_chunk(center).unwrap().is_dirty());
    assert!(storage.get_chunk(east).unwrap().is_dirty());
}

#[test]
fn air_and_unbreakable_blocks_are_not_changed() {
    let chunk = ChunkPos::new(0, 0, 0);
    let air = WorldBlockPos::new(1, 1, 1);
    let water = WorldBlockPos::new(2, 1, 1);
    let mut storage = ChunkStorage::default();
    storage.insert_chunk(chunk, Chunk::default());
    storage.set_block(water, BlockId::water()).unwrap();
    storage.get_chunk_mut(chunk).unwrap().mark_clean();
    let registry = BlockRegistry::default();

    assert!(!try_break_block(&mut storage, &registry, air));
    assert!(!try_break_block(&mut storage, &registry, water));
    assert_eq!(storage.get_block(water), Some(BlockId::water()));
    assert!(!storage.get_chunk(chunk).unwrap().is_dirty());
}

#[test]
fn breaking_returns_the_broken_block() {
    let mut storage = ChunkStorage::default();
    storage.insert_chunk(ChunkPos::default(), Chunk::new(BlockId::sand()));
    let registry = BlockRegistry::default();
    let position = WorldBlockPos::new(4, 4, 4);
    assert_eq!(take_breakable_block(&mut storage, &registry, position), Some(BlockId::sand()));
    assert_eq!(take_breakable_block(&mut storage, &registry, position), None);
    assert_eq!(
        take_breakable_block(&mut storage, &registry, WorldBlockPos::new(40, 4, 4)),
        None
    );
}

#[test]
fn grass_drops_dirt_and_regular_blocks_drop_their_item() {
    let registry = ItemRegistry::default();
    let position = WorldBlockPos::new(3, 4, 5);

    assert_eq!(
        survival_drop(BlockId::grass(), position, &registry),
        Some(ItemId::dirt_block())
    );
    assert_eq!(
        survival_drop(BlockId::wood(), position, &registry),
        Some(ItemId::wood_block())
    );
}

#[test]
fn leaf_apple_drop_is_deterministic_and_uncommon() {
    let drops = (0..64)
        .filter(|&x| leaves_drop_apple(WorldBlockPos::new(x, 10, 3)))
        .count();

    assert!(drops > 0);
    assert!(drops < 20);
    let registry = ItemRegistry::default();
    for x in 0..64 {
        let position = WorldBlockPos::new(x, 10, 3);
        let expected = leaves_drop_apple(position).then_some(ItemId::apple());
        assert_eq!(survival_drop(BlockId::leaves(), position, &registry), expected);
    }
}

#[test]
fn placement_position_uses_hit_normal() {
    assert_eq!(
        adjacent_position(WorldBlockPos::new(-2, 4, 7), (1, 0, 0)),
        Some(WorldBlockPos::new(-1, 4, 7))
    );
    assert_eq!(adjacent_position(WorldBlockPos::new(-2, 4, 7), (1, 1, 0)), None);
    assert_eq!(
        adjacent_position(WorldBlockPos::new(i32::MAX, 4, 7), (1, 0, 0)),
        None
    );
}

#[test]
fn dirt_placement_at_chunk_boundary_dirties_both_chunks() {
    let west = ChunkPos::new(0, 0, 0);
    let east = ChunkPos::new(1, 0, 0);
    let position = WorldBlockPos::new(16, 5, 5);
    let mut storage = ChunkStorage::default();
    storage.insert_chunk(west, Chunk::default());
    storage.insert_chunk(east, Chunk::default());
    storage.get_chunk_mut(west).unwrap().mark_clean();
    storage.get_chunk_mut(east).unwrap().mark_clean();

    assert!(try_place_block(
        &mut storage,
        &BlockRegistry::default(),
        &settings(),
        position,
        BlockId::dirt(),
        false,
    ));

    assert_eq!(storage.get_block(position), Some(BlockId::dirt()));
    assert!(storage.get_chunk(west).unwrap().is_dirty());
    assert!(storage.get_chunk(east).unwrap().is_dirty());
}

#[test]
fn placement_uses_selected_hotbar_item_and_consumes_one() {
    let mut storage = ChunkStorage::default();
    storage.insert_chunk(ChunkPos::default(), Chunk::default());
    let position = WorldBlockPos::new(3, 3, 3);
    let mut inventory = PlayerInventory::default();
    let item_registry = ItemRegistry::default();
    inventory.add_item(ItemId::stone_block(), 2, &item_registry);
    let previous_count = inventory.selected_stack().unwrap().count();

    assert!(try_place_selected_block(
        &mut storage,
        &BlockRegistry::default(),
        &item_registry,
        &settings(),
        position,
        false,
        &mut inventory,
    ));

    assert_eq!(storage.get_block(position), Some(BlockId::stone()));
    assert_eq!(
        inventory.selected_stack().unwrap().count(),
        previous_count - 1
    );
}

#[test]
fn placement_cannot_overlap_player_collider() {
    let chunk = ChunkPos::new(0, 0, 0);
    let position = WorldBlockPos::new(0, 1, 0);
    let mut storage = ChunkStorage::default();
    storage.insert_chunk(chunk, Chunk::default());

    assert!(!try_place_block(
        &mut storage,
        &BlockRegistry::default(),
        &settings(),
        position,
        BlockId::dirt(),
        true,
    ));
    assert_eq!(storage.get_block(position), Some(BlockId::air()));
}

#[test]
fn placement_rejects_solid_and_out_of_bounds_cells() {
    let mut storage = ChunkStorage::default();
    storage.insert_chunk(ChunkPos::default(), Chunk::default());
    storage.insert_chunk(ChunkPos::new(0, -5, 0), Chunk::default());
    storage.insert_chunk(ChunkPos::new(0, 12, 0), Chunk::default());
    storage
        .set_block(WorldBlockPos::new(2, 2, 2), BlockId::stone())
        .unwrap();
    let registry = BlockRegistry::default();
    let generation = settings();

    for position in [
        WorldBlockPos::new(2, 2, 2),
        WorldBlockPos::new(0, -65, 0),
        WorldBlockPos::new(0, 192, 0),
    ] {
        assert!(!try_place_block(
            &mut storage,
            &registry,
            &generation,
            position,
            BlockId::dirt(),
            false,
        ));
    }
}

#[test]
fn items_without_a_block_are_not_placed() {
    let mut storage = ChunkStorage::default();
    storage.insert_chunk(ChunkPos::default(), Chunk::default());
    let mut inventory = PlayerInventory::default();
    let item_registry = ItemRegistry::default();
    inventory.add_item(ItemId::stick(), 1, &item_registry);

    assert!(!try_place_selected_block(
        &mut storage,
        &BlockRegistry::default(),
        &item_registry,
        &settings(),
        WorldBlockPos::new(3, 3, 3),
        false,
        &mut inventory,
    ));
    assert_eq!(inventory.item_count(ItemId::stick()), 1);
    assert_eq!(storage.get_block(WorldBlockPos::new(3, 3, 3)), Some(BlockId::air()));
}
