//! Data-driven shapeless crafting recipes and atomic inventory transactions.

use vstd::prelude::*;

use crate::inventory::{
    drained, filled,
    empty_slots, filled_greedily, inventory_wf, lemma_empty_slots_kept, lemma_fill_with_room,
    lemma_filling_keeps_other_items, slots_total, InventoryView, PlayerInventory,
};
use crate::item::registry::item_max_stack_size;
use crate::item::stack::ItemStackView;
use crate::item::id::{OAK_PLANKS_RAW, STICK_RAW, STONE_BLOCK_RAW, STONE_PICKAXE_RAW, WOOD_BLOCK_RAW};
use crate::item::{ItemId, ItemRegistry};

verus! {

/// Index of a recipe in the registry.
#[derive(Clone, Copy, Debug, PartialEq, Eq, Structural, Hash)]
pub struct RecipeId(pub usize);

/// A quantity of one item that a recipe consumes or produces.
#[derive(Clone, Copy, Debug, PartialEq, Eq, Structural)]
pub struct Ingredient {
    pub item: ItemId,
    pub count: u32,
}

impl Ingredient {
    pub fn new(item: ItemId, count: u32) -> (r: Self)
        ensures
            r == (Ingredient { item, count }),
    {
        Self { item, count }
    }
}

/// A shapeless recipe: every input is consumed and every output produced.
#[derive(Clone, Debug)]
pub struct Recipe {
    pub name: &'static str,
    pub inputs: Vec<Ingredient>,
    pub outputs: Vec<Ingredient>,
}

/// How many of `item` a list of ingredients names, repeated entries added together.
pub open spec fn required_total(ingredients: Seq<Ingredient>, item: ItemId) -> nat
    decreases ingredients.len(),
{
    if ingredients.len() == 0 {
        0
    } else {
        required_total(ingredients.drop_last(), item) + if ingredients.last().item == item {
            ingredients.last().count as nat
        } else {
            0
        }
    }
}

/// The slots hold every input of the recipe, repeated entries counted together.
pub open spec fn recipe_satisfiable(inventory: InventoryView, inputs: Seq<Ingredient>) -> bool {
    forall|i: int|
        0 <= i < inputs.len() ==> required_total(inputs, #[trigger] inputs[i].item) <= slots_total(
            inventory.slots,
            inputs[i].item,
        )
}

/// There are at least as many empty slots as outputs, and each output is a
/// non-empty amount that fits in a single stack.
pub open spec fn outputs_fit_in_free_slots(inventory: InventoryView, outputs: Seq<Ingredient>) -> bool {
    &&& outputs.len() <= empty_slots(inventory.slots)
    &&& forall|j: int|
        0 <= j < outputs.len() ==> 0 < #[trigger] outputs[j].count <= item_max_stack_size(
            outputs[j].item@,
        )
}

/// The slots after taking out every input in order, first slots first.
pub open spec fn drained_inputs(slots: Seq<Option<ItemStackView>>, inputs: Seq<Ingredient>) -> Seq<
    Option<ItemStackView>,
>
    decreases inputs.len(),
{
    if inputs.len() == 0 {
        slots
    } else {
        let input = inputs.last();
        drained(drained_inputs(slots, inputs.drop_last()), input.item, input.count as nat)
    }
}

/// The slots after putting away every output in order, and whether each one
/// fit completely; filling stops at the first that does not.
pub open spec fn filled_outputs(slots: Seq<Option<ItemStackView>>, outputs: Seq<Ingredient>) -> (
    Seq<Option<ItemStackView>>,
    bool,
)
    decreases outputs.len(),
{
    if outputs.len() == 0 {
        (slots, true)
    } else {
        let (before, fit) = filled_outputs(slots, outputs.drop_last());
        if !fit {
            (before, false)
        } else {
            let output = outputs.last();
            let (after, left) = filled(
                before,
                output.item,
                item_max_stack_size(output.item@),
                output.count as nat,
            );
            (after, left == 0)
        }
    }
}

/// The slots after crafting: the inputs are there, they are taken out, and
/// then every output fits. `None` when the recipe cannot be crafted.
pub open spec fn crafted(inventory: InventoryView, inputs: Seq<Ingredient>, outputs: Seq<Ingredient>) -> Option<
    Seq<Option<ItemStackView>>,
> {
    if !recipe_satisfiable(inventory, inputs) {
        None
    } else {
        let (slots, fit) = filled_outputs(drained_inputs(inventory.slots, inputs), outputs);
        if fit {
            Some(slots)
        } else {
            None
        }
    }
}

/// Once an output does not fit, the whole list does not.
proof fn lemma_misfit_persists(slots: Seq<Option<ItemStackView>>, outputs: Seq<Ingredient>, k: int)
    requires
        0 <= k <= outputs.len(),
        !filled_outputs(slots, outputs.take(k)).1,
    ensures
        !filled_outputs(slots, outputs).1,
    decreases outputs.len() - k,
{
    if k < outputs.len() {
        assert(outputs.take(k + 1).drop_last() =~= outputs.take(k));
        lemma_misfit_persists(slots, outputs, k + 1);
    } else {
        assert(outputs.take(k) =~= outputs);
    }
}

/// Every count that crafting with these inputs has to compute fits in a `u32`.
pub open spec fn counts_fit(inventory: InventoryView, inputs: Seq<Ingredient>) -> bool {
    forall|i: int|
        0 <= i < inputs.len() ==> required_total(inputs, #[trigger] inputs[i].item) <= u32::MAX
            && slots_total(inventory.slots, inputs[i].item) <= u32::MAX
}

proof fn lemma_required_total_take(ingredients: Seq<Ingredient>, i: int, item: ItemId)
    requires
        0 <= i < ingredients.len(),
    ensures
        required_total(ingredients.take(i + 1), item) == required_total(ingredients.take(i), item)
            + if ingredients[i].item == item {
            ingredients[i].count as nat
        } else {
            0
        },
{
    assert(ingredients.take(i + 1).drop_last() =~= ingredients.take(i));
}

proof fn lemma_required_total_prefix(ingredients: Seq<Ingredient>, i: int, item: ItemId)
    requires
        0 <= i <= ingredients.len(),
    ensures
        required_total(ingredients.take(i), item) <= required_total(ingredients, item),
    decreases ingredients.len(),
{
    if i == ingredients.len() {
        assert(ingredients.take(i) =~= ingredients);
    } else {
        assert(ingredients.drop_last().take(i) =~= ingredients.take(i));
        lemma_required_total_prefix(ingredients.drop_last(), i, item);
    }
}

/// The ordered list of known recipes.
#[derive(Debug)]
pub struct RecipeRegistry {
    recipes: Vec<Recipe>,
}

impl View for RecipeRegistry {
    type V = Seq<Recipe>;

    closed spec fn view(&self) -> Seq<Recipe> {
        self.recipes@
    }
}

/// The ingredient list holds exactly one entry: `count` of the item with raw ID `raw`.
pub open spec fn single_ingredient(ingredients: Seq<Ingredient>, raw: u16, count: u32) -> bool {
    ingredients.len() == 1 && ingredients[0].item@ == raw && ingredients[0].count == count
}

impl RecipeRegistry {
    pub fn recipes(&self) -> (r: &[Recipe])
        ensures
            r@ == self@,
    {
        self.recipes.as_slice()
    }

    pub fn get(&self, id: RecipeId) -> (r: Option<&Recipe>)
        ensures
            match r {
                Some(recipe) => id.0 < self@.len() && *recipe == self@[id.0 as int],
                None => id.0 >= self@.len(),
            },
    {
        if id.0 < self.recipes.len() {
            Some(&self.recipes[id.0])
        } else {
            None
        }
    }
}

impl Default for RecipeRegistry {
    fn default() -> (r: Self)
        ensures
            r@.len() == 3,
            single_ingredient(r@[0].inputs@, WOOD_BLOCK_RAW, 1),
            single_ingredient(r@[0].outputs@, OAK_PLANKS_RAW, 4),
            single_ingredient(r@[1].inputs@, OAK_PLANKS_RAW, 2),
            single_ingredient(r@[1].outputs@, STICK_RAW, 4),
            r@[2].inputs@.len() == 2,
            r@[2].inputs@[0].item@ == STONE_BLOCK_RAW && r@[2].inputs@[0].count == 3,
            r@[2].inputs@[1].item@ == STICK_RAW && r@[2].inputs@[1].count == 2,
            single_ingredient(r@[2].outputs@, STONE_PICKAXE_RAW, 1),
    {
        let recipes = vec![
            Recipe {
                name: "1 Oak Log -> 4 Planks",
                inputs: vec![Ingredient::new(ItemId::wood_block(), 1)],
                outputs: vec![Ingredient::new(ItemId::oak_planks(), 4)],
            },
            Recipe {
                name: "2 Planks -> 4 Sticks",
                inputs: vec![Ingredient::new(ItemId::oak_planks(), 2)],
                outputs: vec![Ingredient::new(ItemId::stick(), 4)],
            },
            Recipe {
                name: "3 Stone + 2 Sticks -> Pickaxe",
                inputs: vec![
                    Ingredient::new(ItemId::stone_block(), 3),
                    Ingredient::new(ItemId::stick(), 2),
                ],
                outputs: vec![Ingredient::new(ItemId::stone_pickaxe(), 1)],
            },
        ];
        Self { recipes }
    }
}

/// Whether the inventory's slots hold every input of the recipe.
pub fn can_craft(inventory: &PlayerInventory, recipe: &Recipe) -> (r: bool)
    requires
        counts_fit(inventory@, recipe.inputs@),
    ensures
        r == recipe_satisfiable(inventory@, recipe.inputs@),
{
    let inputs = &recipe.inputs;
    assert(inputs@ == recipe.inputs@);
    let mut i: usize = 0;
    while i < inputs.len()
        invariant
            i <= inputs@.len(),
            inputs@ == recipe.inputs@,
            counts_fit(inventory@, inputs@),
            forall|k: int|
                0 <= k < i ==> required_total(inputs@, #[trigger] inputs@[k].item) <= slots_total(
                    inventory@.slots,
                    inputs@[k].item,
                ),
        decreases inputs@.len() - i,
    {
        let input = inputs[i];
        assert(inputs@[i as int] == input);
        let mut needed: u32 = 0;
        let mut j: usize = 0;
        while j < inputs.len()
            invariant
                j <= inputs@.len(),
                i < inputs@.len(),
                input == inputs@[i as int],
                counts_fit(inventory@, inputs@),
                needed == required_total(inputs@.take(j as int), input.item),
            decreases inputs@.len() - j,
        {
            proof {
                lemma_required_total_take(inputs@, j as int, input.item);
                lemma_required_total_prefix(inputs@, j + 1, input.item);
            }
            let candidate = inputs[j];
            if candidate.item == input.item {
                needed = needed + candidate.count;
            }
            j += 1;
        }
        assert(inputs@.take(inputs@.len() as int) =~= inputs@);
        if inventory.item_count(input.item) < needed {
            assert(required_total(inputs@, inputs@[i as int].item) > slots_total(
                inventory@.slots,
                inputs@[i as int].item,
            ));
            let ghost witness = inputs@[i as int];
            assert(!recipe_satisfiable(inventory@, inputs@)) by {
                if recipe_satisfiable(inventory@, inputs@) {
                    assert(required_total(inputs@, witness.item) <= slots_total(
                        inventory@.slots,
                        witness.item,
                    ));
                }
            }
            return false;
        }
        i += 1;
    }
    true
}

/// Performs the recipe on a copy and commits only when every input can be
/// consumed and every output fits. Failure therefore cannot lose or duplicate items.
pub fn craft(inventory: &mut PlayerInventory, recipe: &Recipe, items: &ItemRegistry) -> (r: bool)
    requires
        counts_fit(old(inventory)@, recipe.inputs@),
    ensures
        r ==> recipe_satisfiable(old(inventory)@, recipe.inputs@),
        recipe_satisfiable(old(inventory)@, recipe.inputs@) && outputs_fit_in_free_slots(
            old(inventory)@,
            recipe.outputs@,
        ) ==> r,
        r ==> forall|item: ItemId|
            slots_total(final(inventory)@.slots, item) + required_total(recipe.inputs@, item)
                == slots_total(old(inventory)@.slots, item) + required_total(
                recipe.outputs@,
                item,
            ),
        r ==> final(inventory)@.cursor == old(inventory)@.cursor && final(inventory)@.selected
            == old(inventory)@.selected,
        !r ==> final(inventory)@ == old(inventory)@,
        r == crafted(old(inventory)@, recipe.inputs@, recipe.outputs@) is Some,
        r ==> final(inventory)@.slots == crafted(old(inventory)@, recipe.inputs@, recipe.outputs@)->0,
        r && inventory_wf(old(inventory)@) && (forall|j: int|
            0 <= j < recipe.outputs@.len() ==> #[trigger] recipe.outputs@[j].count > 0)
            ==> inventory_wf(final(inventory)@),
{
    if !can_craft(inventory, recipe) {
        return false;
    }
    let ghost start = inventory@;
    let inputs = &recipe.inputs;
    let outputs = &recipe.outputs;
    let mut transaction = *inventory;
    let mut i: usize = 0;
    while i < inputs.len()
        invariant
            i <= inputs@.len(),
            start == old(inventory)@,
            inputs@ == recipe.inputs@,
            outputs@ == recipe.outputs@,
            recipe_satisfiable(start, inputs@),
            transaction@.cursor == start.cursor,
            transaction@.selected == start.selected,
            inventory_wf(start) ==> inventory_wf(transaction@),
            forall|item: ItemId|
                slots_total(transaction@.slots, item) + required_total(inputs@.take(i as int), item)
                    == #[trigger] slots_total(start.slots, item),
            empty_slots(transaction@.slots) >= empty_slots(start.slots),
            transaction@.slots == drained_inputs(start.slots, inputs@.take(i as int)),
        decreases inputs@.len() - i,
    {
        let input = inputs[i];
        proof {
            assert(inputs@[i as int] == input);
            lemma_required_total_take(inputs@, i as int, input.item);
            lemma_required_total_prefix(inputs@, i + 1, input.item);
            assert(slots_total(start.slots, input.item) == slots_total(
                transaction@.slots,
                input.item,
            ) + required_total(inputs@.take(i as int), input.item));
        }
        let ghost before = transaction@;
        if transaction.remove_item(input.item, input.count) != input.count {
            return false;
        }
        proof {
            assert(inputs@.take(i + 1).drop_last() =~= inputs@.take(i as int));
            assert(inputs@.take(i + 1).last() == input);
            lemma_empty_slots_kept(before.slots, transaction@.slots, -1);
            assert forall|item: ItemId|
                slots_total(transaction@.slots, item) + required_total(
                    inputs@.take(i + 1),
                    item,
                ) == #[trigger] slots_total(start.slots, item) by {
                lemma_required_total_take(inputs@, i as int, item);
                if item != input.item {
                    crate::inventory::lemma_draining_keeps_other_items(
                        before.slots,
                        transaction@.slots,
                        input.item,
                        item,
                    );
                }
            }
        }
        i += 1;
    }
    assert(inputs@.take(inputs@.len() as int) =~= inputs@);
    let mut j: usize = 0;
    while j < outputs.len()
        invariant
            j <= outputs@.len(),
            start == old(inventory)@,
            inputs@ == recipe.inputs@,
            outputs@ == recipe.outputs@,
            recipe_satisfiable(start, inputs@),
            transaction@.cursor == start.cursor,
            transaction@.selected == start.selected,
            inventory_wf(start) && (forall|k: int|
                0 <= k < outputs@.len() ==> #[trigger] outputs@[k].count > 0) ==> inventory_wf(
                transaction@,
            ),
            forall|item: ItemId|
                slots_total(transaction@.slots, item) + required_total(inputs@, item) == #[trigger] slots_total(
                    start.slots,
                    item,
                ) + required_total(outputs@.take(j as int), item),
            outputs_fit_in_free_slots(start, outputs@) ==> empty_slots(transaction@.slots) + j
                >= outputs@.len(),
            filled_outputs(drained_inputs(start.slots, inputs@), outputs@.take(j as int)) == (
                transaction@.slots,
                true,
            ),
        decreases outputs@.len() - j,
    {
        let output = outputs[j];
        assert(outputs@[j as int] == output);
        let ghost before = transaction@;
        let leftover = transaction.add_item(output.item, output.count, items);
        proof {
            if outputs_fit_in_free_slots(start, outputs@) {
                assert(outputs@[j as int].count == output.count);
                assert(empty_slots(before.slots) > 0);
                lemma_fill_with_room(
                    before.slots,
                    transaction@.slots,
                    output.item,
                    item_max_stack_size(output.item@),
                    output.count as nat,
                    leftover as nat,
                );
            }
        }
        proof {
            assert(outputs@.take(j + 1).drop_last() =~= outputs@.take(j as int));
            assert(outputs@.take(j + 1).last() == output);
        }
        if leftover != 0 {
            proof {
                lemma_misfit_persists(drained_inputs(start.slots, inputs@), outputs@, j + 1);
            }
            return false;
        }
        proof {
            assert forall|item: ItemId|
                slots_total(transaction@.slots, item) + required_total(inputs@, item)
                    == #[trigger] slots_total(start.slots, item) + required_total(
                    outputs@.take(j + 1),
                    item,
                ) by {
                lemma_required_total_take(outputs@, j as int, item);
            }
        }
        j += 1;
    }
    assert(outputs@.take(outputs@.len() as int) =~= outputs@);
    *inventory = transaction;
    true
}

} // verus!
