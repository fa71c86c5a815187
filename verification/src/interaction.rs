//! Breaking and placing blocks: which blocks may change, what the world
//! looks like afterwards, and what lands in the inventory.

use vstd::prelude::*;

use vstd::wrapping::u32_specs::wrapping_mul;

use crate::block::id::{AIR_RAW, GRASS_RAW, LEAVES_RAW};
use crate::block::registry::{block_is_breakable, block_is_solid, BlockRegistry};
use crate::block::BlockId;
use crate::chunk::{marked_dirty, on_shared_face, with_block, ChunkStorage, ChunkView};
use crate::coordinates::{local_index, WorldBlockPos, CHUNK_VOLUME};
use crate::generation::streaming::GenerationSettings;
use crate::inventory::{count_of, non_empty, slot_view, with_count, InventoryView, PlayerInventory};
use crate::item::id::{APPLE_RAW, DIRT_BLOCK_RAW};
use crate::item::id::BUILTIN_ITEM_COUNT;
use crate::item::registry::{item_block, ItemRegistry};
use crate::item::ItemId;

verus! {

broadcast use BlockId::lemma_view_injective, BlockId::lemma_spec_from_raw, ItemId::lemma_view_injective;

/// The store after `block` was written at `position` of a loaded chunk,
/// with the chunks that share a touched face marked dirty when the block
/// changed.
pub open spec fn stored_after_write(
    before: Map<crate::coordinates::ChunkPos, ChunkView>,
    after: Map<crate::coordinates::ChunkPos, ChunkView>,
    position: WorldBlockPos,
    block: BlockId,
) -> bool {
    let chunk = position.spec_chunk_pos();
    let local = position.spec_local();
    let index = local_index(local.0, local.1, local.2);
    let previous = before[chunk].blocks[index];
    &&& before.contains_key(chunk)
    &&& marked_dirty(
        before.insert(
            chunk,
            ChunkView {
                blocks: with_block(before[chunk].blocks, index, block),
                dirty: before[chunk].dirty || previous != block,
                revision: crate::chunk::revised_if(before[chunk].revision, previous != block),
            },
        ),
        after,
        |q: crate::coordinates::ChunkPos| previous != block && on_shared_face(chunk, local, q),
    )
}

/// The block stored at `position`, if its chunk is loaded.
pub open spec fn stored_block(
    stored: Map<crate::coordinates::ChunkPos, ChunkView>,
    position: WorldBlockPos,
) -> Option<BlockId> {
    let chunk = position.spec_chunk_pos();
    let local = position.spec_local();
    if stored.contains_key(chunk) {
        Some(stored[chunk].blocks[local_index(local.0, local.1, local.2)])
    } else {
        None
    }
}

/// A write is read back: after `block` is stored at `position`, that position
/// reads as `block`, every other position reads as before, and the same chunks
/// stay loaded.
pub proof fn lemma_read_after_write(
    before: Map<crate::coordinates::ChunkPos, ChunkView>,
    after: Map<crate::coordinates::ChunkPos, ChunkView>,
    position: WorldBlockPos,
    block: BlockId,
    other: WorldBlockPos,
)
    requires
        forall|q: crate::coordinates::ChunkPos| #[trigger] before.contains_key(q) ==> before[q].blocks.len()
            == CHUNK_VOLUME,
        stored_after_write(before, after, position, block),
    ensures
        stored_block(after, position) == Some(block),
        other != position ==> stored_block(after, other) == stored_block(before, other),
        after.dom() == before.dom(),
{
    let chunk = position.spec_chunk_pos();
    let local = position.spec_local();
    let other_chunk = other.spec_chunk_pos();
    let other_local = other.spec_local();
    crate::coordinates::lemma_local_index_bijective(local, other_local);
    assert(after.contains_key(chunk));
    if other != position && other_chunk == chunk {
        crate::coordinates::lemma_split_then_recombine(position);
        crate::coordinates::lemma_split_then_recombine(other);
        assert(other_local != local);
    }
    assert(after.dom() =~= before.dom());
}

/// A block that can be broken: loaded, not air, and breakable.
pub open spec fn can_break(
    stored: Map<crate::coordinates::ChunkPos, ChunkView>,
    position: WorldBlockPos,
) -> bool {
    match stored_block(stored, position) {
        Some(block) => block@ != AIR_RAW && block_is_breakable(block@),
        None => false,
    }
}

/// Breaks the block at `position`, leaving air, and returns what it was.
/// Air, unbreakable blocks and unloaded chunks are left alone.
pub fn take_breakable_block(
    storage: &mut ChunkStorage,
    registry: &BlockRegistry,
    position: WorldBlockPos,
) -> (r: Option<BlockId>)
    ensures
        can_break(old(storage)@, position) ==> r == stored_block(old(storage)@, position)
            && stored_after_write(old(storage)@, final(storage)@, position, BlockId::spec_from_raw(AIR_RAW as nat)),
        !can_break(old(storage)@, position) ==> r is None && final(storage)@ == old(storage)@,
{
    let block = match storage.get_block(position) {
        Some(block) => block,
        None => {
            return None;
        },
    };
    if block == BlockId::air() || !registry.is_breakable(block) {
        return None;
    }
    match storage.set_block(position, BlockId::air()) {
        Ok(_) => Some(block),
        Err(_) => None,
    }
}

/// Whether a block was broken at `position` (see `take_breakable_block`).
pub fn try_break_block(storage: &mut ChunkStorage, registry: &BlockRegistry, position: WorldBlockPos) -> (r:
    bool)
    ensures
        r == can_break(old(storage)@, position),
        r ==> stored_after_write(old(storage)@, final(storage)@, position, BlockId::spec_from_raw(AIR_RAW as nat)),
        !r ==> final(storage)@ == old(storage)@,
{
    take_breakable_block(storage, registry, position).is_some()
}

/// Position hash deciding which leaf blocks drop an apple.
pub open spec fn spec_leaf_hash(position: WorldBlockPos) -> u32 {
    let mixed = wrapping_mul(position.x as u32, 0x9e37_79b9) ^ wrapping_mul(
        position.y as u32,
        0x85eb_ca6b,
    ) ^ wrapping_mul(position.z as u32, 0xc2b2_ae35);
    let folded = mixed ^ (mixed >> 16u32);
    let spread = wrapping_mul(folded, 0x7feb_352d);
    spread ^ (spread >> 15u32)
}

/// About one leaf block in eight drops an apple, always the same ones.
pub open spec fn spec_leaves_drop_apple(position: WorldBlockPos) -> bool {
    spec_leaf_hash(position) % 8 == 0
}

pub fn leaves_drop_apple(position: WorldBlockPos) -> (r: bool)
    ensures
        r == spec_leaves_drop_apple(position),
{
    let mixed = (position.x as u32).wrapping_mul(0x9e37_79b9) ^ (position.y as u32).wrapping_mul(
        0x85eb_ca6b,
    ) ^ (position.z as u32).wrapping_mul(0xc2b2_ae35);
    let folded = mixed ^ (mixed >> 16u32);
    let spread = folded.wrapping_mul(0x7feb_352d);
    let hash = spread ^ (spread >> 15u32);
    hash % 8 == 0
}

/// What a broken block gives in survival: grass gives dirt, leaves give an
/// apple at some positions and nothing elsewhere, and every other block gives
/// the item that places it, if there is one.
pub fn survival_drop(block: BlockId, position: WorldBlockPos, registry: &ItemRegistry) -> (r:
    Option<ItemId>)
    ensures
        block@ == GRASS_RAW ==> (r matches Some(item) && item@ == DIRT_BLOCK_RAW),
        block@ == LEAVES_RAW ==> if spec_leaves_drop_apple(position) {
            r matches Some(item) && item@ == APPLE_RAW
        } else {
            r is None
        },
        block@ != GRASS_RAW && block@ != LEAVES_RAW ==> match r {
            Some(item) => item_block(item@) == Some(block@),
            None => forall|raw: nat| raw < BUILTIN_ITEM_COUNT ==> item_block(raw) != Some(block@),
        },
{
    if block == BlockId::grass() {
        Some(ItemId::dirt_block())
    } else if block == BlockId::leaves() {
        if leaves_drop_apple(position) {
            Some(ItemId::apple())
        } else {
            None
        }
    } else {
        registry.item_for_block(block)
    }
}

/// The cell next to a hit block across the face with outward `normal`, which
/// must point along one axis.
pub fn adjacent_position(position: WorldBlockPos, normal: (i32, i32, i32)) -> (r: Option<
    WorldBlockPos,
>)
    ensures
        ({
            let unit = normal == (1i32, 0i32, 0i32) || normal == (-1i32, 0i32, 0i32) || normal == (
            0i32, 1i32, 0i32) || normal == (0i32, -1i32, 0i32) || normal == (0i32, 0i32, 1i32)
                || normal == (0i32, 0i32, -1i32);
            let x = position.x + normal.0;
            let y = position.y + normal.1;
            let z = position.z + normal.2;
            let fits = i32::MIN <= x <= i32::MAX && i32::MIN <= y <= i32::MAX && i32::MIN <= z
                <= i32::MAX;
            r == if unit && fits {
                Some(WorldBlockPos { x: x as i32, y: y as i32, z: z as i32 })
            } else {
                None
            }
        }),
{
    let (nx, ny, nz) = normal;
    let unit = (nx == 1 && ny == 0 && nz == 0) || (nx == -1 && ny == 0 && nz == 0) || (nx == 0 && ny
        == 1 && nz == 0) || (nx == 0 && ny == -1 && nz == 0) || (nx == 0 && ny == 0 && nz == 1) || (
    nx == 0 && ny == 0 && nz == -1);
    if !unit {
        return None;
    }
    let x = match position.x.checked_add(nx) {
        Some(v) => v,
        None => {
            return None;
        },
    };
    let y = match position.y.checked_add(ny) {
        Some(v) => v,
        None => {
            return None;
        },
    };
    let z = match position.z.checked_add(nz) {
        Some(v) => v,
        None => {
            return None;
        },
    };
    Some(WorldBlockPos::new(x, y, z))
}

/// A block may be placed at `position`: it is not air, the cell lies within
/// the world's vertical limits and outside the player, its chunk is loaded,
/// and what is there now is not solid.
pub open spec fn can_place(
    stored: Map<crate::coordinates::ChunkPos, ChunkView>,
    settings: GenerationSettings,
    position: WorldBlockPos,
    block: BlockId,
    overlaps_player: bool,
) -> bool {
    &&& block@ != AIR_RAW
    &&& settings.world_min_y <= position.y < settings.world_max_y
    &&& !overlaps_player
    &&& match stored_block(stored, position) {
        Some(existing) => !block_is_solid(existing@),
        None => false,
    }
}

/// Places `block` at `position` when allowed (see `can_place`).
/// `overlaps_player` says whether the cell intersects the player's collider.
pub fn try_place_block(
    storage: &mut ChunkStorage,
    registry: &BlockRegistry,
    generation: &GenerationSettings,
    position: WorldBlockPos,
    block: BlockId,
    overlaps_player: bool,
) -> (r: bool)
    ensures
        r == can_place(old(storage)@, *generation, position, block, overlaps_player),
        r ==> stored_after_write(old(storage)@, final(storage)@, position, block),
        !r ==> final(storage)@ == old(storage)@,
{
    if block == BlockId::air() || position.y < generation.world_min_y || position.y
        >= generation.world_max_y || overlaps_player {
        return false;
    }
    let existing = match storage.get_block(position) {
        Some(existing) => existing,
        None => {
            return false;
        },
    };
    if registry.is_solid(existing) {
        return false;
    }
    storage.set_block(position, block).is_ok()
}

/// The inventory after one item of the selected stack was used up.
pub open spec fn consumed_selected(inventory: InventoryView) -> InventoryView {
    let selected = inventory.selected as int;
    let slot = inventory.slots[selected];
    InventoryView {
        slots: inventory.slots.update(
            selected,
            non_empty(with_count(slot->0, (count_of(slot) - 1) as nat)),
        ),
        ..inventory
    }
}

/// Places one block of the selected hotbar stack at `position` and uses up
/// that item. Nothing changes when the selected item places no block or the
/// block may not be placed there.
pub fn try_place_selected_block(
    storage: &mut ChunkStorage,
    registry: &BlockRegistry,
    item_registry: &ItemRegistry,
    generation: &GenerationSettings,
    position: WorldBlockPos,
    overlaps_player: bool,
    inventory: &mut PlayerInventory,
) -> (r: bool)
    ensures
        ({
            let slot = old(inventory)@.slots[old(inventory)@.selected as int];
            let placed = if count_of(slot) > 0 {
                item_block(slot->0.item@)
            } else {
                None
            };
            &&& r == (placed is Some && can_place(
                old(storage)@,
                *generation,
                position,
                BlockId::spec_from_raw(placed->0),
                overlaps_player,
            ))
            &&& r ==> stored_after_write(
                old(storage)@,
                final(storage)@,
                position,
                BlockId::spec_from_raw(placed->0),
            ) && final(inventory)@ == consumed_selected(old(inventory)@)
            &&& !r ==> final(storage)@ == old(storage)@ && final(inventory)@ == old(inventory)@
        }),
{
    let stack = match inventory.selected_stack() {
        Some(stack) => stack,
        None => {
            return false;
        },
    };
    let block = match item_registry.block_for(stack.item()) {
        Some(block) => block,
        None => {
            return false;
        },
    };
    if !try_place_block(storage, registry, generation, position, block, overlaps_player) {
        return false;
    }
    inventory.consume_selected_one();
    true
}

} // verus!
