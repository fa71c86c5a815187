use rustcraft::crafting::{can_craft, craft, Ingredient, Recipe, RecipeId, RecipeRegistry};
use rustcraft::inventory::PlayerInventory;
use rustcraft::item::{ItemId, ItemRegistry};

fn recipe(index: usize) -> Recipe {
    RecipeRegistry::default().recipes()[index].clone()
}

#[test]
fn wood_recipe_consumes_one_log_and_produces_four_planks() {
    let items = ItemRegistry::default();
    let mut inventory = PlayerInventory::default();
    inventory.add_item(ItemId::wood_block(), 2, &items);

    assert!(craft(&mut inventory, &recipe(0), &items));
    assert_eq!(inventory.item_count(ItemId::wood_block()), 1);
    assert_eq!(inventory.item_count(ItemId::oak_planks()), 4);
}

#[test]
fn pickaxe_recipe_consumes_every_required_resource_exactly() {
    let items = ItemRegistry::default();
    let mut inventory = PlayerInventory::default();
    inventory.add_item(ItemId::stone_block(), 4, &items);
    inventory.add_item(ItemId::stick(), 3, &items);

    assert!(craft(&mut inventory, &recipe(2), &items));
    assert_eq!(inventory.item_count(ItemId::stone_block()), 1);
    assert_eq!(inventory.item_count(ItemId::stick()), 1);
    assert_eq!(inventory.item_count(ItemId::stone_pickaxe()), 1);
}

#[test]
fn planks_recipe_consumes_two_planks_and_produces_four_sticks() {
    let items = ItemRegistry::default();
    let mut inventory = PlayerInventory::default();
    inventory.add_item(ItemId::oak_planks(), 3, &items);

    assert!(craft(&mut inventory, &recipe(1), &items));
    assert_eq!(inventory.item_count(ItemId::oak_planks()), 1);
    assert_eq!(inventory.item_count(ItemId::stick()), 4);
}

#[test]
fn missing_inputs_leave_inventory_unchanged() {
    let items = ItemRegistry::default();
    let mut inventory = PlayerInventory::default();
    inventory.add_item(ItemId::stone_block(), 2, &items);
    inventory.add_item(ItemId::stick(), 2, &items);
    let before = inventory;

    assert!(!craft(&mut inventory, &recipe(2), &items));
    assert_eq!(inventory.slots(), before.slots());
}

#[test]
fn outputs_that_do_not_fit_roll_back_consumed_inputs() {
    let items = ItemRegistry::default();
    let mut inventory = PlayerInventory::default();
    inventory.add_item(ItemId::wood_block(), 64, &items);
    inventory.add_item(ItemId::dirt_block(), 64 * 35, &items);
    let before = inventory;

    assert!(!craft(&mut inventory, &recipe(0), &items));
    assert_eq!(inventory.slots(), before.slots());
}

#[test]
fn repeated_input_entries_are_counted_together() {
    let recipe = Recipe {
        name: "Duplicate input test",
        inputs: vec![
            Ingredient::new(ItemId::wood_block(), 1),
            Ingredient::new(ItemId::wood_block(), 1),
        ],
        outputs: vec![Ingredient::new(ItemId::oak_planks(), 1)],
    };
    let items = ItemRegistry::default();
    let mut inventory = PlayerInventory::default();
    inventory.add_item(ItemId::wood_block(), 1, &items);

    assert!(!can_craft(&inventory, &recipe));
    assert!(!craft(&mut inventory, &recipe, &items));
    assert_eq!(inventory.item_count(ItemId::wood_block()), 1);
}

#[test]
fn recipes_are_looked_up_by_id() {
    let registry = RecipeRegistry::default();
    assert_eq!(registry.recipes().len(), 3);
    assert_eq!(registry.get(RecipeId(2)).unwrap().outputs[0].item, ItemId::stone_pickaxe());
    assert!(registry.get(RecipeId(3)).is_none());
}

#[test]
fn the_slot_freed_by_the_last_input_takes_the_output_of_a_full_inventory() {
    let items = ItemRegistry::default();
    let mut inventory = PlayerInventory::default();
    inventory.add_item(ItemId::wood_block(), 1, &items);
    inventory.add_item(ItemId::dirt_block(), 64 * 35, &items);
    assert_eq!(inventory.slots().iter().filter(|slot| slot.is_none()).count(), 0);

    assert!(craft(&mut inventory, &recipe(0), &items));
    assert_eq!(inventory.item_count(ItemId::wood_block()), 0);
    assert_eq!(inventory.slot(0).unwrap().item(), ItemId::oak_planks());
    assert_eq!(inventory.slot(0).unwrap().count(), 4);
}

#[test]
fn outputs_merge_into_a_partial_stack_of_a_full_inventory() {
    let items = ItemRegistry::default();
    let mut inventory = PlayerInventory::default();
    inventory.add_item(ItemId::oak_planks(), 10, &items);
    inventory.add_item(ItemId::wood_block(), 64, &items);
    inventory.add_item(ItemId::dirt_block(), 64 * 34, &items);

    assert!(craft(&mut inventory, &recipe(0), &items));
    assert_eq!(inventory.slot(0).unwrap().count(), 14);
    assert_eq!(inventory.item_count(ItemId::wood_block()), 63);
}
