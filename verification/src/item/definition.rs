use vstd::prelude::*;

use crate::block::id::{
    BlockId, COAL_ORE_RAW, DIRT_RAW, GRASS_RAW, IRON_ORE_RAW, LEAVES_RAW, SAND_RAW, STONE_RAW,
    WOOD_RAW,
};

verus! {

/// Hunger restored by consuming an edible item.
///
/// The floating-point saturation bonus is not kept.
#[derive(Clone, Copy, Debug, PartialEq, Eq, Structural)]
pub struct FoodProperties {
    pub nutrition: u8,
}

#[derive(Clone, Copy, Debug, PartialEq, Eq, Structural, Hash)]
pub enum ToolType {
    Pickaxe,
    Axe,
    Shovel,
    Sword,
}

/// Blocks that a tool category mines at its configured speed.
pub open spec fn tool_effective_against(tool: ToolType, block: nat) -> bool {
    match tool {
        ToolType::Pickaxe => block == STONE_RAW || block == COAL_ORE_RAW || block == IRON_ORE_RAW,
        ToolType::Axe => block == WOOD_RAW,
        ToolType::Shovel => block == GRASS_RAW || block == DIRT_RAW || block == SAND_RAW,
        ToolType::Sword => block == LEAVES_RAW,
    }
}

impl ToolType {
    /// Whether this category receives its configured mining speed for a block.
    pub fn is_effective_against(self, block: BlockId) -> (r: bool)
        ensures
            r == tool_effective_against(self, block@),
    {
        let raw = block.as_u16();
        match self {
            Self::Pickaxe => raw == STONE_RAW || raw == COAL_ORE_RAW || raw == IRON_ORE_RAW,
            Self::Axe => raw == WOOD_RAW,
            Self::Shovel => raw == GRASS_RAW || raw == DIRT_RAW || raw == SAND_RAW,
            Self::Sword => raw == LEAVES_RAW,
        }
    }
}

/// Material tier used when deciding whether a tool may harvest a block drop.
#[derive(Clone, Copy, Debug, PartialEq, Eq, Structural, Hash, PartialOrd, Ord)]
pub enum HarvestTier {
    Wood,
    Stone,
    Iron,
}

/// Position of a tier in the order wood < stone < iron.
pub open spec fn tier_rank(tier: HarvestTier) -> nat {
    match tier {
        HarvestTier::Wood => 0,
        HarvestTier::Stone => 1,
        HarvestTier::Iron => 2,
    }
}

impl HarvestTier {
    pub fn rank(self) -> (r: u8)
        ensures
            r == tier_rank(self),
    {
        match self {
            Self::Wood => 0,
            Self::Stone => 1,
            Self::Iron => 2,
        }
    }
}

/// The lowest tier that yields a drop from `block`, if it needs a tool at all.
pub open spec fn spec_required_harvest_tier(block: nat) -> Option<HarvestTier> {
    if block == STONE_RAW || block == COAL_ORE_RAW {
        Some(HarvestTier::Wood)
    } else if block == IRON_ORE_RAW {
        Some(HarvestTier::Stone)
    } else {
        None
    }
}

pub fn required_harvest_tier(block: BlockId) -> (r: Option<HarvestTier>)
    ensures
        r == spec_required_harvest_tier(block@),
{
    let raw = block.as_u16();
    if raw == STONE_RAW || raw == COAL_ORE_RAW {
        Some(HarvestTier::Wood)
    } else if raw == IRON_ORE_RAW {
        Some(HarvestTier::Stone)
    } else {
        None
    }
}

/// Complete immutable definition of an inventory tool or weapon.
///
/// The floating-point mining speed, attack damage and attack speed are not
/// kept; only the integer rules are.
#[derive(Clone, Copy, Debug, PartialEq, Eq, Structural)]
pub struct ToolDefinition {
    pub tool_type: ToolType,
    pub durability: u32,
    pub harvest_tier: HarvestTier,
}

/// Whether a tool of this category and tier yields the drop of `block`.
pub open spec fn spec_can_harvest(tool: ToolDefinition, block: nat) -> bool {
    match spec_required_harvest_tier(block) {
        None => true,
        Some(required) => tool_effective_against(tool.tool_type, block) && tier_rank(
            tool.harvest_tier,
        ) >= tier_rank(required),
    }
}

impl ToolDefinition {
    pub fn is_effective_against(self, block: BlockId) -> (r: bool)
        ensures
            r == tool_effective_against(self.tool_type, block@),
    {
        self.tool_type.is_effective_against(block)
    }

    pub fn can_harvest(self, block: BlockId) -> (r: bool)
        ensures
            r == spec_can_harvest(self, block@),
    {
        match required_harvest_tier(block) {
            None => true,
            Some(required) => self.is_effective_against(block) && self.harvest_tier.rank()
                >= required.rank(),
        }
    }

    pub fn block_requires_tool(block: BlockId) -> (r: bool)
        ensures
            r == spec_required_harvest_tier(block@).is_some(),
    {
        required_harvest_tier(block).is_some()
    }
}

/// Central metadata for an inventory item.
///
/// The floating-point world-drop tint is not kept.
#[derive(Clone, Copy, Debug, PartialEq, Eq)]
pub struct ItemDefinition {
    pub name: &'static str,
    pub max_stack_size: u32,
    /// Voxel placed by this item, or None for non-block items.
    pub block: Option<BlockId>,
    pub food: Option<FoodProperties>,
    pub tool: Option<ToolDefinition>,
}

/// Harvest rules for every tool and block: any pickaxe, whatever its tier and
/// wear, yields stone and coal ore; iron ore needs a stone or iron pickaxe; no
/// other tool yields any of the three; every other block drops for any tool.
pub proof fn lemma_harvest_rules(tool: ToolDefinition, block: nat)
    ensures
        block == STONE_RAW || block == COAL_ORE_RAW ==> (spec_can_harvest(tool, block)
            <==> tool.tool_type == ToolType::Pickaxe),
        block == IRON_ORE_RAW ==> (spec_can_harvest(tool, block) <==> (tool.tool_type
            == ToolType::Pickaxe && tool.harvest_tier != HarvestTier::Wood)),
        block != STONE_RAW && block != COAL_ORE_RAW && block != IRON_ORE_RAW ==> spec_can_harvest(
            tool,
            block,
        ),
{
}

} // verus!
