use std::collections::HashMap;

use rustcraft::inventory::{
    InventoryClick, PlayerInventory, HOTBAR_SLOT_COUNT, INVENTORY_SLOT_COUNT, TOTAL_SLOT_COUNT,
};
use rustcraft::item::{ItemId, ItemRegistry, ItemStack};

const STACK_LIMIT: u32 = 64;

fn block_stack(item: ItemId, count: u32) -> ItemStack {
    ItemStack::new(item, count, STACK_LIMIT).unwrap()
}

fn empty_inventory() -> PlayerInventory {
    PlayerInventory::default()
}

fn put(inventory: &mut PlayerInventory, index: usize, stack: ItemStack) {
    assert!(inventory.set_slot(index, Some(stack)));
}

fn counts(inventory: &PlayerInventory) -> HashMap<ItemId, u32> {
    let mut result = HashMap::new();
    for stack in inventory
        .slots()
        .iter()
        .flatten()
        .chain(inventory.cursor_held_stack().iter())
    {
        *result.entry(stack.item()).or_default() += stack.count();
    }
    result
}

#[test]
fn default_inventory_has_nine_hotbar_and_twenty_seven_storage_slots() {
    let inventory = PlayerInventory::default();

    assert_eq!(inventory.hotbar_slots().len(), HOTBAR_SLOT_COUNT);
    assert_eq!(inventory.inventory_slots().len(), INVENTORY_SLOT_COUNT);
    assert_eq!(inventory.slots().len(), TOTAL_SLOT_COUNT);
    assert_eq!(inventory.selected_stack(), None);
}

#[test]
fn hotbar_selection_wraps_and_rejects_storage_indices() {
    let mut inventory = PlayerInventory::default();

    assert!(inventory.select_hotbar(8));
    inventory.cycle_hotbar(1);
    assert_eq!(inventory.selected_hotbar_index(), 0);
    inventory.cycle_hotbar(-1);
    assert_eq!(inventory.selected_hotbar_index(), 8);
    assert!(!inventory.select_hotbar(HOTBAR_SLOT_COUNT));
}

#[test]
fn left_click_takes_and_places_a_whole_stack() {
    let mut inventory = empty_inventory();
    put(&mut inventory, 0, block_stack(ItemId::dirt_block(), 12));

    assert!(inventory.click_slot(0, InventoryClick::Left));
    assert_eq!(inventory.slot(0), None);
    assert_eq!(inventory.cursor_held_stack().unwrap().count(), 12);
    assert!(inventory.click_slot(5, InventoryClick::Left));
    assert_eq!(inventory.slot(5).unwrap().count(), 12);
    assert_eq!(inventory.cursor_held_stack(), None);
}

#[test]
fn left_click_merges_matching_stacks_without_exceeding_limit() {
    let mut inventory = empty_inventory();
    put(&mut inventory, 0, block_stack(ItemId::stone_block(), 60));
    put(&mut inventory, 1, block_stack(ItemId::stone_block(), 10));
    inventory.click_slot(1, InventoryClick::Left);

    assert!(inventory.click_slot(0, InventoryClick::Left));
    assert_eq!(inventory.slot(0).unwrap().count(), 64);
    assert_eq!(inventory.cursor_held_stack().unwrap().count(), 6);
}

#[test]
fn left_click_swaps_different_items() {
    let mut inventory = empty_inventory();
    put(&mut inventory, 0, block_stack(ItemId::dirt_block(), 3));
    put(&mut inventory, 1, block_stack(ItemId::wood_block(), 7));
    inventory.click_slot(0, InventoryClick::Left);

    assert!(inventory.click_slot(1, InventoryClick::Left));
    assert_eq!(inventory.slot(1).unwrap().item(), ItemId::dirt_block());
    assert_eq!(
        inventory.cursor_held_stack().unwrap().item(),
        ItemId::wood_block()
    );
}

#[test]
fn right_click_takes_rounded_up_half() {
    let mut inventory = empty_inventory();
    put(&mut inventory, 2, block_stack(ItemId::sand_block(), 5));

    assert!(inventory.click_slot(2, InventoryClick::Right));
    assert_eq!(inventory.slot(2).unwrap().count(), 2);
    assert_eq!(inventory.cursor_held_stack().unwrap().count(), 3);
}

#[test]
fn right_click_places_exactly_one_item() {
    let mut inventory = empty_inventory();
    put(&mut inventory, 0, block_stack(ItemId::leaves_block(), 3));
    inventory.click_slot(0, InventoryClick::Left);

    assert!(inventory.click_slot(4, InventoryClick::Right));
    assert_eq!(inventory.slot(4).unwrap().count(), 1);
    assert_eq!(inventory.cursor_held_stack().unwrap().count(), 2);
    assert!(inventory.click_slot(4, InventoryClick::Right));
    assert_eq!(inventory.slot(4).unwrap().count(), 2);
    assert_eq!(inventory.cursor_held_stack().unwrap().count(), 1);
}

#[test]
fn incompatible_right_click_is_a_noop() {
    let mut inventory = empty_inventory();
    put(&mut inventory, 0, block_stack(ItemId::dirt_block(), 2));
    put(&mut inventory, 1, block_stack(ItemId::stone_block(), 2));
    inventory.click_slot(0, InventoryClick::Left);
    let before = counts(&inventory);

    assert!(!inventory.click_slot(1, InventoryClick::Right));
    assert_eq!(counts(&inventory), before);
    assert_eq!(inventory.slot(1).unwrap().item(), ItemId::stone_block());
}

#[test]
fn every_mouse_operation_conserves_all_items() {
    let mut inventory = empty_inventory();
    put(&mut inventory, 0, block_stack(ItemId::dirt_block(), 20));
    put(&mut inventory, 1, block_stack(ItemId::stone_block(), 12));
    let expected = counts(&inventory);
    let actions = [
        (0, InventoryClick::Left),
        (8, InventoryClick::Right),
        (9, InventoryClick::Left),
        (1, InventoryClick::Left),
        (18, InventoryClick::Right),
        (2, InventoryClick::Right),
        (30, InventoryClick::Left),
        (30, InventoryClick::Right),
    ];

    for (slot, click) in actions {
        inventory.click_slot(slot, click);
        assert_eq!(counts(&inventory), expected);
    }
    inventory.stow_held_stack();
    assert_eq!(counts(&inventory), expected);
}

#[test]
fn invalid_slot_never_changes_inventory() {
    let mut inventory = empty_inventory();
    put(&mut inventory, 0, block_stack(ItemId::dirt_block(), 3));
    let expected = counts(&inventory);

    assert!(!inventory.click_slot(TOTAL_SLOT_COUNT, InventoryClick::Left));
    assert_eq!(counts(&inventory), expected);
}

#[test]
fn picked_up_items_merge_and_spill_into_empty_slots() {
    let registry = ItemRegistry::default();
    let mut inventory = empty_inventory();
    put(&mut inventory, 0, block_stack(ItemId::apple(), 63));

    assert_eq!(inventory.add_item(ItemId::apple(), 3, &registry), 0);
    assert_eq!(inventory.slot(0).unwrap().count(), 64);
    assert_eq!(inventory.slot(1).unwrap().count(), 2);
}

#[test]
fn full_inventory_returns_items_that_do_not_fit() {
    let registry = ItemRegistry::default();
    let mut inventory = empty_inventory();
    for index in 0..TOTAL_SLOT_COUNT {
        put(&mut inventory, index, block_stack(ItemId::dirt_block(), 64));
    }

    assert_eq!(inventory.add_item(ItemId::apple(), 2, &registry), 2);
}

#[test]
fn counting_and_removing_items_spans_stacks_without_touching_cursor() {
    let mut inventory = empty_inventory();
    put(&mut inventory, 0, block_stack(ItemId::wood_block(), 40));
    put(&mut inventory, 3, block_stack(ItemId::wood_block(), 30));
    assert!(inventory.set_cursor_held(Some(block_stack(ItemId::wood_block(), 7))));

    assert_eq!(inventory.item_count(ItemId::wood_block()), 70);
    assert_eq!(inventory.remove_item(ItemId::wood_block(), 50), 50);
    assert_eq!(inventory.item_count(ItemId::wood_block()), 20);
    assert_eq!(inventory.cursor_held_stack().unwrap().count(), 7);
}

#[test]
fn consuming_the_selected_stack_empties_its_slot() {
    let mut inventory = empty_inventory();
    put(&mut inventory, 0, block_stack(ItemId::dirt_block(), 1));
    assert!(inventory.consume_selected_one());
    assert_eq!(inventory.slot(0), None);
    assert!(!inventory.consume_selected_one());
    inventory.clear();
    assert_eq!(counts(&inventory).len(), 0);
}

use rustcraft::inventory::{apply_hotbar_selection, collect_stack, InventoryState};

#[test]
fn number_keys_select_matching_slots() {
    let mut inventory = PlayerInventory::default();

    apply_hotbar_selection(&mut inventory, Some(5), 0);

    assert_eq!(inventory.selected_hotbar_index(), 5);
}

#[test]
fn mouse_wheel_cycles_in_both_directions() {
    let mut inventory = PlayerInventory::default();

    apply_hotbar_selection(&mut inventory, None, -1);
    assert_eq!(inventory.selected_hotbar_index(), 1);
    apply_hotbar_selection(&mut inventory, None, 1);
    assert_eq!(inventory.selected_hotbar_index(), 0);
    apply_hotbar_selection(&mut inventory, None, 1);
    assert_eq!(inventory.selected_hotbar_index(), 8);
}

#[test]
fn pickup_despawns_only_after_the_whole_stack_fits() {
    let registry = ItemRegistry::default();
    let mut inventory = PlayerInventory::default();
    let mut drop = registry.create_stack(ItemId::apple(), 5).unwrap();

    assert!(collect_stack(&mut drop, &mut inventory, &registry));
    assert_eq!(inventory.item_count(ItemId::apple()), 5);
    assert!(drop.is_empty());
}

#[test]
fn partial_pickup_keeps_the_remainder_in_the_entity_stack() {
    let registry = ItemRegistry::default();
    let mut inventory = PlayerInventory::default();
    inventory.add_item(ItemId::apple(), 63, &registry);
    inventory.add_item(ItemId::dirt_block(), 64 * 35, &registry);
    let mut drop = registry.create_stack(ItemId::apple(), 5).unwrap();

    assert!(!collect_stack(&mut drop, &mut inventory, &registry));
    assert_eq!(inventory.item_count(ItemId::apple()), 64);
    assert_eq!(drop.count(), 4);
}

#[test]
fn closing_the_inventory_puts_the_held_stack_back() {
    let mut state = InventoryState::new();
    let mut inventory = PlayerInventory::default();
    put(&mut inventory, 0, block_stack(ItemId::dirt_block(), 4));
    state.toggle(true, false, &mut inventory);
    assert!(state.is_open());
    assert!(inventory.click_slot(0, InventoryClick::Left));
    assert!(inventory.cursor_held_stack().is_some());
    state.toggle(false, true, &mut inventory);
    assert!(!state.is_open());
    assert_eq!(inventory.cursor_held_stack(), None);
    assert_eq!(inventory.item_count(ItemId::dirt_block()), 4);
    state.toggle(false, true, &mut inventory);
    assert!(!state.is_open());
}

#[test]
fn second_left_click_on_the_same_slot_puts_the_stack_back() {
    let mut inventory = empty_inventory();
    put(&mut inventory, 4, block_stack(ItemId::dirt_block(), 7));
    let before: Vec<Option<ItemStack>> = inventory.slots().to_vec();

    assert!(inventory.click_slot(4, InventoryClick::Left));
    assert!(inventory.click_slot(4, InventoryClick::Left));
    assert_eq!(inventory.slots().to_vec(), before);
    assert_eq!(inventory.cursor_held_stack(), None);
}
