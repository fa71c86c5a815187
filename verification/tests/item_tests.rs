use std::collections::HashSet;
use std::mem::size_of;

use rustcraft::block::BlockId;
use rustcraft::item::{
    HarvestTier, ItemId, ItemRegistry, ItemStack, ItemStackError, ToolDefinition, ToolType,
    BLOCK_ITEM_MAX_STACK_SIZE, BUILTIN_ITEM_COUNT,
};

fn wooden_pickaxe() -> ToolDefinition {
    ToolDefinition {
        tool_type: ToolType::Pickaxe,
        durability: 59,
        harvest_tier: HarvestTier::Wood,
    }
}

fn stone_pickaxe() -> ToolDefinition {
    ToolDefinition {
        harvest_tier: HarvestTier::Stone,
        ..wooden_pickaxe()
    }
}

#[test]
fn tool_categories_define_effective_blocks_in_one_api() {
    assert!(ToolType::Pickaxe.is_effective_against(BlockId::stone()));
    assert!(ToolType::Axe.is_effective_against(BlockId::wood()));
    assert!(ToolType::Shovel.is_effective_against(BlockId::dirt()));
    assert!(ToolType::Sword.is_effective_against(BlockId::leaves()));
    assert!(!ToolType::Axe.is_effective_against(BlockId::stone()));
}

#[test]
fn harvest_tier_controls_ore_drops() {
    assert!(wooden_pickaxe().can_harvest(BlockId::coal_ore()));
    assert!(!wooden_pickaxe().can_harvest(BlockId::iron_ore()));
    assert!(stone_pickaxe().can_harvest(BlockId::iron_ore()));
}

#[test]
fn item_id_is_compact_and_distinct_from_block_id() {
    assert_eq!(size_of::<ItemId>(), size_of::<u16>());
    assert_ne!(
        std::any::TypeId::of::<ItemId>(),
        std::any::TypeId::of::<BlockId>()
    );
}

#[test]
fn every_builtin_item_has_a_unique_definition() {
    let registry = ItemRegistry::default();
    let names = ItemId::all()
        .into_iter()
        .map(|id| registry.definition(id).name)
        .collect::<HashSet<_>>();

    assert_eq!(names.len(), BUILTIN_ITEM_COUNT);
}

#[test]
fn block_items_map_to_blocks_but_regular_items_do_not() {
    let registry = ItemRegistry::default();

    assert_eq!(registry.block_for(ItemId::dirt_block()), Some(BlockId::dirt()));
    assert_eq!(registry.block_for(ItemId::stick()), None);
    assert_eq!(
        registry.item_for_block(BlockId::dirt()),
        Some(ItemId::dirt_block())
    );
}

#[test]
fn apple_restores_four_hunger_points() {
    let food = ItemRegistry::default().food(ItemId::apple()).unwrap();

    assert_eq!(food.nutrition, 4);
}

#[test]
fn registry_creates_stack_with_definition_limit() {
    let registry = ItemRegistry::default();
    let stack = registry.create_stack(ItemId::stone_block(), 12).unwrap();

    assert_eq!(stack.item(), ItemId::stone_block());
    assert_eq!(stack.count(), 12);
    assert_eq!(stack.max_stack_size(), BLOCK_ITEM_MAX_STACK_SIZE);
}

#[test]
fn stone_pickaxe_has_complete_tool_metadata() {
    let registry = ItemRegistry::default();
    let definition = registry.definition(ItemId::stone_pickaxe());

    assert_eq!(definition.max_stack_size, 1);
    assert_eq!(definition.block, None);
    assert_eq!(
        definition.tool,
        Some(ToolDefinition {
            tool_type: ToolType::Pickaxe,
            durability: 131,
            harvest_tier: HarvestTier::Stone,
        })
    );
}

#[test]
fn all_tool_and_weapon_ids_are_registered_by_category() {
    let registry = ItemRegistry::default();
    let expected = [
        (ItemId::wooden_pickaxe(), ToolType::Pickaxe),
        (ItemId::stone_pickaxe(), ToolType::Pickaxe),
        (ItemId::iron_pickaxe(), ToolType::Pickaxe),
        (ItemId::wooden_axe(), ToolType::Axe),
        (ItemId::stone_axe(), ToolType::Axe),
        (ItemId::iron_axe(), ToolType::Axe),
        (ItemId::wooden_shovel(), ToolType::Shovel),
        (ItemId::stone_shovel(), ToolType::Shovel),
        (ItemId::iron_shovel(), ToolType::Shovel),
        (ItemId::wooden_sword(), ToolType::Sword),
        (ItemId::stone_sword(), ToolType::Sword),
        (ItemId::iron_sword(), ToolType::Sword),
    ];

    for (item, tool_type) in expected {
        let definition = registry.definition(item);
        let tool = definition.tool.expect("expected a tool definition");
        assert_eq!(tool.tool_type, tool_type);
        assert_eq!(definition.max_stack_size, 1);
        assert!(tool.durability > 0);
    }
}

#[test]
fn material_tiers_increase_core_tool_properties() {
    let registry = ItemRegistry::default();
    let wood = registry.tool(ItemId::wooden_pickaxe()).unwrap();
    let stone = registry.tool(ItemId::stone_pickaxe()).unwrap();
    let iron = registry.tool(ItemId::iron_pickaxe()).unwrap();

    assert!(wood.durability < stone.durability && stone.durability < iron.durability);
    assert!(wood.harvest_tier < stone.harvest_tier && stone.harvest_tier < iron.harvest_tier);
}

fn stack(item: ItemId, count: u32, max: u32) -> ItemStack {
    ItemStack::new(item, count, max).unwrap()
}

#[test]
fn construction_enforces_stack_limit() {
    assert_eq!(
        ItemStack::new(ItemId::dirt_block(), 65, 64),
        Err(ItemStackError::CountExceedsMaximum {
            count: 65,
            max_stack_size: 64,
        })
    );
    assert_eq!(
        ItemStack::new(ItemId::dirt_block(), 0, 0),
        Err(ItemStackError::ZeroMaxStackSize)
    );
}

#[test]
fn add_stops_at_maximum() {
    let mut stack = stack(ItemId::dirt_block(), 60, 64);

    assert_eq!(stack.add(10), 4);
    assert_eq!(stack.count(), 64);
    assert_eq!(stack.add(1), 0);
}

#[test]
fn remove_stops_at_zero() {
    let mut stack = stack(ItemId::stone_block(), 3, 64);

    assert_eq!(stack.remove(10), 3);
    assert!(stack.is_empty());
    assert_eq!(stack.remove(1), 0);
}

#[test]
fn merge_moves_only_available_capacity() {
    let mut target = stack(ItemId::sand_block(), 60, 64);
    let mut source = stack(ItemId::sand_block(), 10, 64);

    assert_eq!(target.merge(&mut source), 4);
    assert_eq!(target.count(), 64);
    assert_eq!(source.count(), 6);
}

#[test]
fn merge_rejects_different_items_or_limits() {
    let mut target = stack(ItemId::wood_block(), 1, 64);
    let mut other_item = stack(ItemId::stick(), 2, 64);
    let mut other_limit = stack(ItemId::wood_block(), 2, 16);

    assert_eq!(target.merge(&mut other_item), 0);
    assert_eq!(target.merge(&mut other_limit), 0);
    assert_eq!(other_item.count(), 2);
    assert_eq!(other_limit.count(), 2);
}

#[test]
fn split_preserves_item_and_limit() {
    let mut source = stack(ItemId::iron_ore_block(), 12, 64);
    let split = source.split(5).unwrap();

    assert_eq!(source.count(), 7);
    assert_eq!(split.item(), ItemId::iron_ore_block());
    assert_eq!(split.count(), 5);
    assert_eq!(split.max_stack_size(), 64);
}

#[test]
fn split_can_take_all_and_zero_is_a_noop() {
    let mut source = stack(ItemId::coal_ore_block(), 3, 64);

    assert_eq!(source.split(0), None);
    assert_eq!(source.split(10).unwrap().count(), 3);
    assert!(source.is_empty());
    assert_eq!(source.split(1), None);
}
