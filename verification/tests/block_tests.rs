use std::collections::HashSet;
use std::mem::size_of;

use rustcraft::block::id::{AIR_RAW, BUILTIN_BLOCK_COUNT};
use rustcraft::block::{BlockFace, BlockId, BlockRegistry, InvalidBlockId};

#[test]
fn block_id_is_compact() {
    assert_eq!(size_of::<BlockId>(), size_of::<u16>());
}

#[test]
fn every_builtin_id_has_a_unique_definition() {
    let registry = BlockRegistry::default();
    let names = BlockId::all()
        .into_iter()
        .map(|id| registry.definition(id).name)
        .collect::<HashSet<_>>();

    assert_eq!(names.len(), BUILTIN_BLOCK_COUNT);
}

#[test]
fn air_is_not_solid_or_breakable() {
    let registry = BlockRegistry::default();

    assert!(!registry.is_solid(BlockId::air()));
    assert!(!registry.is_breakable(BlockId::air()));
    assert!(registry.is_transparent(BlockId::air()));
}

#[test]
fn invalid_raw_ids_are_rejected() {
    assert_eq!(
        BlockId::try_from(BUILTIN_BLOCK_COUNT as u16),
        Err(InvalidBlockId(BUILTIN_BLOCK_COUNT as u16))
    );
}

#[test]
fn per_face_textures_are_read_through_the_registry() {
    let registry = BlockRegistry::default();

    assert_eq!(registry.texture_for(BlockId::grass(), BlockFace::Top), 1);
    assert_eq!(registry.texture_for(BlockId::grass(), BlockFace::Bottom), 2);
    assert_eq!(registry.texture_for(BlockId::grass(), BlockFace::North), 3);
    assert_eq!(registry.texture_for(BlockId::wood(), BlockFace::Top), 6);
    assert_eq!(registry.texture_for(BlockId::wood(), BlockFace::East), 7);
}

#[test]
fn raw_ids_round_trip_and_default_is_air() {
    for raw in 0..BUILTIN_BLOCK_COUNT as u16 {
        let id = BlockId::from_raw(raw).unwrap();
        assert_eq!(id.as_u16(), raw);
        assert_eq!(u16::from(id), raw);
        assert_eq!(id.as_index(), raw as usize);
    }
    assert_eq!(BlockId::from_raw(u16::MAX), None);
    assert_eq!(BlockId::default().as_u16(), AIR_RAW);
}

#[test]
fn only_water_is_unbreakable_besides_air_and_leaves_are_transparent() {
    let registry = BlockRegistry::default();
    assert!(!registry.is_breakable(BlockId::water()));
    assert!(registry.is_breakable(BlockId::stone()));
    assert!(registry.is_solid(BlockId::stone()));
    assert!(!registry.is_solid(BlockId::water()));
    assert!(registry.is_transparent(BlockId::leaves()));
    assert_eq!(registry.emitted_light(BlockId::stone()), 0);
    assert_eq!(registry.name(BlockId::grass()), "grass");
}
