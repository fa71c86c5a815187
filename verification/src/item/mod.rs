//! Item identities, metadata, registry, and stack operations.

pub mod definition;
pub mod id;
pub mod registry;
pub mod stack;

pub use definition::{FoodProperties, HarvestTier, ItemDefinition, ToolDefinition, ToolType};
pub use id::{InvalidItemId, ItemId, BUILTIN_ITEM_COUNT};
pub use registry::ItemRegistry;
pub use stack::{ItemStack, ItemStackError};

use vstd::prelude::*;

verus! {

/// Standard capacity used by the built-in placeable block items.
pub const BLOCK_ITEM_MAX_STACK_SIZE: u32 = 64;

} // verus!
