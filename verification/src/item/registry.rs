use vstd::prelude::*;

use crate::block::id::BlockId;

use super::definition::{FoodProperties, HarvestTier, ItemDefinition, ToolDefinition, ToolType};
use super::id::{ItemId, BUILTIN_ITEM_COUNT};
use super::stack::{ItemStack, ItemStackError, ItemStackView};
use super::BLOCK_ITEM_MAX_STACK_SIZE;

verus! {

/// Stack limit of the built-in item with this raw ID: tools do not stack.
pub open spec fn item_max_stack_size(raw: nat) -> nat {
    if raw < 12 {
        64
    } else {
        1
    }
}

/// Raw block ID placed by the built-in item with this raw ID.
///
/// The nine block items come first and follow the block order after air.
pub open spec fn item_block(raw: nat) -> Option<nat> {
    if raw < 9 {
        Some(raw + 1)
    } else {
        None
    }
}

/// Hunger restored by the built-in item with this raw ID: only the apple is food.
pub open spec fn item_nutrition(raw: nat) -> Option<u8> {
    if raw == 10 {
        Some(4u8)
    } else {
        None
    }
}

/// Tool metadata of the built-in item with this raw ID.
pub open spec fn item_tool(raw: nat) -> Option<ToolDefinition> {
    if raw < 12 || raw >= BUILTIN_ITEM_COUNT {
        None
    } else {
        let tool_type = if raw <= 14 {
            ToolType::Pickaxe
        } else if raw <= 17 {
            ToolType::Axe
        } else if raw <= 20 {
            ToolType::Shovel
        } else {
            ToolType::Sword
        };
        let harvest_tier = if raw == 12 {
            HarvestTier::Stone
        } else if raw == 13 {
            HarvestTier::Wood
        } else if raw == 14 {
            HarvestTier::Iron
        } else if (raw - 15) % 3 == 0 {
            HarvestTier::Wood
        } else if (raw - 15) % 3 == 1 {
            HarvestTier::Stone
        } else {
            HarvestTier::Iron
        };
        let durability: u32 = match harvest_tier {
            HarvestTier::Wood => 59,
            HarvestTier::Stone => 131,
            HarvestTier::Iron => 250,
        };
        Some(ToolDefinition { tool_type, durability, harvest_tier })
    }
}

/// Display name of each built-in item.
pub open spec fn item_name(raw: nat) -> Seq<char> {
    if raw == 0 {
        "Grass Block"@
    } else if raw == 1 {
        "Dirt"@
    } else if raw == 2 {
        "Stone"@
    } else if raw == 3 {
        "Sand"@
    } else if raw == 4 {
        "Oak Log"@
    } else if raw == 5 {
        "Oak Leaves"@
    } else if raw == 6 {
        "Water"@
    } else if raw == 7 {
        "Coal Ore"@
    } else if raw == 8 {
        "Iron Ore"@
    } else if raw == 9 {
        "Stick"@
    } else if raw == 10 {
        "Apple"@
    } else if raw == 11 {
        "Oak Planks"@
    } else if raw == 12 {
        "Stone Pickaxe"@
    } else if raw == 13 {
        "Wooden Pickaxe"@
    } else if raw == 14 {
        "Iron Pickaxe"@
    } else if raw == 15 {
        "Wooden Axe"@
    } else if raw == 16 {
        "Stone Axe"@
    } else if raw == 17 {
        "Iron Axe"@
    } else if raw == 18 {
        "Wooden Shovel"@
    } else if raw == 19 {
        "Stone Shovel"@
    } else if raw == 20 {
        "Iron Shovel"@
    } else if raw == 21 {
        "Wooden Sword"@
    } else if raw == 22 {
        "Stone Sword"@
    } else {
        "Iron Sword"@
    }
}

/// The stored definition for `raw` agrees with the built-in item table.
pub open spec fn matches_item_builtin(raw: nat, definition: ItemDefinition) -> bool {
    &&& definition.name@ == item_name(raw)
    &&& definition.max_stack_size == item_max_stack_size(raw)
    &&& match (definition.block, item_block(raw)) {
        (Some(block), Some(expected)) => block@ == expected,
        (None, None) => true,
        _ => false,
    }
    &&& match (definition.food, item_nutrition(raw)) {
        (Some(food), Some(nutrition)) => food.nutrition == nutrition,
        (None, None) => true,
        _ => false,
    }
    &&& definition.tool == item_tool(raw)
}

/// Central source of item metadata and block-item mappings.
#[derive(Debug)]
pub struct ItemRegistry {
    definitions: [ItemDefinition; BUILTIN_ITEM_COUNT],
}

impl ItemRegistry {
    #[verifier::type_invariant]
    spec fn inv(self) -> bool {
        forall|i: int|
            0 <= i < BUILTIN_ITEM_COUNT ==> matches_item_builtin(
                i as nat,
                #[trigger] self.definitions@[i],
            )
    }

    /// The stored definition for the raw ID `raw`.
    pub closed spec fn spec_definition(self, raw: nat) -> ItemDefinition {
        self.definitions@[raw as int]
    }

    pub fn definition(&self, id: ItemId) -> (r: &ItemDefinition)
        ensures
            *r == self.spec_definition(id@),
            matches_item_builtin(id@, *r),
    {
        proof {
            use_type_invariant(self);
        }
        &self.definitions[id.as_index()]
    }

    pub fn definition_from_raw(&self, raw: u16) -> (r: Option<&ItemDefinition>)
        ensures
            match r {
                Some(definition) => raw < BUILTIN_ITEM_COUNT && matches_item_builtin(
                    raw as nat,
                    *definition,
                ),
                None => raw >= BUILTIN_ITEM_COUNT,
            },
    {
        match ItemId::from_raw(raw) {
            Some(id) => Some(self.definition(id)),
            None => None,
        }
    }

    pub fn block_for(&self, id: ItemId) -> (r: Option<BlockId>)
        ensures
            match r {
                Some(block) => item_block(id@) == Some(block@),
                None => item_block(id@).is_none(),
            },
    {
        self.definition(id).block
    }

    /// The item that places `block`, if any.
    pub fn item_for_block(&self, block: BlockId) -> (r: Option<ItemId>)
        ensures
            match r {
                Some(item) => item_block(item@) == Some(block@),
                None => forall|raw: nat| raw < BUILTIN_ITEM_COUNT ==> item_block(raw) != Some(
                    block@,
                ),
            },
    {
        let all = ItemId::all();
        let mut i: usize = 0;
        while i < BUILTIN_ITEM_COUNT
            invariant
                i <= BUILTIN_ITEM_COUNT,
                forall|j: int| 0 <= j < BUILTIN_ITEM_COUNT ==> (#[trigger] all@[j])@ == j,
                forall|raw: nat| raw < i ==> item_block(raw) != Some(block@),
            decreases BUILTIN_ITEM_COUNT - i,
        {
            let item = all[i];
            let found = match self.definition(item).block {
                Some(candidate) => {
                    proof {
                        BlockId::lemma_view_injective(candidate, block);
                    }
                    candidate == block
                },
                None => false,
            };
            if found {
                return Some(item);
            }
            i += 1;
        }
        None
    }

    pub fn food(&self, id: ItemId) -> (r: Option<FoodProperties>)
        ensures
            match r {
                Some(food) => item_nutrition(id@) == Some(food.nutrition),
                None => item_nutrition(id@).is_none(),
            },
    {
        self.definition(id).food
    }

    pub fn tool(&self, id: ItemId) -> (r: Option<ToolDefinition>)
        ensures
            r == item_tool(id@),
    {
        self.definition(id).tool
    }

    pub fn max_stack_size(&self, id: ItemId) -> (r: u32)
        ensures
            r == item_max_stack_size(id@),
    {
        self.definition(id).max_stack_size
    }

    /// The display name of an item, such as `"Oak Planks"`.
    pub fn name(&self, id: ItemId) -> (r: &'static str)
        ensures
            r@ == item_name(id@),
    {
        self.definition(id).name
    }

    pub fn create_stack(&self, item: ItemId, count: u32) -> (r: Result<ItemStack, ItemStackError>)
        ensures
            match r {
                Ok(stack) => count <= item_max_stack_size(item@) && stack@ == (ItemStackView {
                    item,
                    count: count as nat,
                    max_stack_size: item_max_stack_size(item@),
                }),
                Err(error) => count > item_max_stack_size(item@) && error
                    == (ItemStackError::CountExceedsMaximum {
                    count,
                    max_stack_size: item_max_stack_size(item@) as u32,
                }),
            },
    {
        ItemStack::new(item, count, self.max_stack_size(item))
    }
}

fn block_item(name: &'static str, block: BlockId) -> (r: ItemDefinition)
    ensures
        r.name == name,
        r.max_stack_size == BLOCK_ITEM_MAX_STACK_SIZE,
        r.block == Some(block),
        r.food.is_none(),
        r.tool.is_none(),
{
    ItemDefinition {
        name,
        max_stack_size: BLOCK_ITEM_MAX_STACK_SIZE,
        block: Some(block),
        food: None,
        tool: None,
    }
}

fn plain_item(name: &'static str) -> (r: ItemDefinition)
    ensures
        r.name == name,
        r.max_stack_size == 64,
        r.block.is_none(),
        r.food.is_none(),
        r.tool.is_none(),
{
    ItemDefinition { name, max_stack_size: 64, block: None, food: None, tool: None }
}

fn tool_item(name: &'static str, tool_type: ToolType, harvest_tier: HarvestTier, durability: u32) -> (r:
    ItemDefinition)
    ensures
        r.name == name,
        r.max_stack_size == 1,
        r.block.is_none(),
        r.food.is_none(),
        r.tool == Some(ToolDefinition { tool_type, durability, harvest_tier }),
{
    ItemDefinition {
        name,
        max_stack_size: 1,
        block: None,
        food: None,
        tool: Some(ToolDefinition { tool_type, durability, harvest_tier }),
    }
}

impl Default for ItemRegistry {
    fn default() -> (r: Self)
        ensures
            forall|raw: nat| raw < BUILTIN_ITEM_COUNT ==> #[trigger] matches_item_builtin(raw, r.spec_definition(raw)),
    {
        let definitions = [
            block_item("Grass Block", BlockId::grass()),
            block_item("Dirt", BlockId::dirt()),
            block_item("Stone", BlockId::stone()),
            block_item("Sand", BlockId::sand()),
            block_item("Oak Log", BlockId::wood()),
            block_item("Oak Leaves", BlockId::leaves()),
            block_item("Water", BlockId::water()),
            block_item("Coal Ore", BlockId::coal_ore()),
            block_item("Iron Ore", BlockId::iron_ore()),
            plain_item("Stick"),
            ItemDefinition {
                name: "Apple",
                max_stack_size: 64,
                block: None,
                food: Some(FoodProperties { nutrition: 4 }),
                tool: None,
            },
            plain_item("Oak Planks"),
            tool_item("Stone Pickaxe", ToolType::Pickaxe, HarvestTier::Stone, 131),
            tool_item("Wooden Pickaxe", ToolType::Pickaxe, HarvestTier::Wood, 59),
            tool_item("Iron Pickaxe", ToolType::Pickaxe, HarvestTier::Iron, 250),
            tool_item("Wooden Axe", ToolType::Axe, HarvestTier::Wood, 59),
            tool_item("Stone Axe", ToolType::Axe, HarvestTier::Stone, 131),
            tool_item("Iron Axe", ToolType::Axe, HarvestTier::Iron, 250),
            tool_item("Wooden Shovel", ToolType::Shovel, HarvestTier::Wood, 59),
            tool_item("Stone Shovel", ToolType::Shovel, HarvestTier::Stone, 131),
            tool_item("Iron Shovel", ToolType::Shovel, HarvestTier::Iron, 250),
            tool_item("Wooden Sword", ToolType::Sword, HarvestTier::Wood, 59),
            tool_item("Stone Sword", ToolType::Sword, HarvestTier::Stone, 131),
            tool_item("Iron Sword", ToolType::Sword, HarvestTier::Iron, 250),
        ];
        assert forall|i: int| 0 <= i < BUILTIN_ITEM_COUNT implies matches_item_builtin(
            i as nat,
            #[trigger] definitions@[i],
        ) by {
            if i < 12 {
                if i == 0 {
                } else if i == 1 {
                } else if i == 2 {
                } else if i == 3 {
                } else if i == 4 {
                } else if i == 5 {
                } else if i == 6 {
                } else if i == 7 {
                } else if i == 8 {
                } else if i == 9 {
                } else if i == 10 {
                } else {
                }
            } else if i == 12 {
            } else if i == 13 {
            } else if i == 14 {
            } else if i == 15 {
            } else if i == 16 {
            } else if i == 17 {
            } else if i == 18 {
            } else if i == 19 {
            } else if i == 20 {
            } else if i == 21 {
            } else if i == 22 {
            } else {
            }
        }
        let r = ItemRegistry { definitions };
        assert forall|raw: nat| raw < BUILTIN_ITEM_COUNT implies #[trigger] matches_item_builtin(raw, r.spec_definition(raw)) by {
            assert(r.spec_definition(raw) == definitions@[raw as int]);
        }
        r
    }
}

} // verus!
