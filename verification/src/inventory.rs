//! Player inventory slots, hotbar selection and mouse-driven stack moves.

use vstd::prelude::*;

use crate::item::registry::item_max_stack_size;
use crate::item::stack::{lemma_count_within_limit, min_nat, stackable, ItemStackView};
use crate::item::{ItemId, ItemRegistry, ItemStack};

verus! {

broadcast use lemma_count_within_limit;

pub const HOTBAR_SLOT_COUNT: usize = 9;
pub const INVENTORY_SLOT_COUNT: usize = 27;
pub const TOTAL_SLOT_COUNT: usize = HOTBAR_SLOT_COUNT + INVENTORY_SLOT_COUNT;

#[derive(Clone, Copy, Debug, PartialEq, Eq, Structural)]
pub enum InventoryClick {
    Left,
    Right,
}

/// Abstract view of a slot's content.
pub open spec fn slot_view(slot: Option<ItemStack>) -> Option<ItemStackView> {
    match slot {
        Some(stack) => Some(stack@),
        None => None,
    }
}

/// How many of `item` a slot holds.
pub open spec fn stack_total(slot: Option<ItemStackView>, item: ItemId) -> nat {
    match slot {
        Some(stack) => if stack.item == item {
            stack.count
        } else {
            0
        },
        None => 0,
    }
}

/// How many of `item` a sequence of slots holds.
pub open spec fn slots_total(slots: Seq<Option<ItemStackView>>, item: ItemId) -> nat
    decreases slots.len(),
{
    if slots.len() == 0 {
        0
    } else {
        slots_total(slots.drop_last(), item) + stack_total(slots.last(), item)
    }
}

/// Abstract inventory: slot contents, selected hotbar slot, and the stack on the cursor.
pub struct InventoryView {
    pub slots: Seq<Option<ItemStackView>>,
    pub selected: nat,
    pub cursor: Option<ItemStackView>,
}

/// Every item of `item` the player owns, including the carried stack.
pub open spec fn inventory_total(inventory: InventoryView, item: ItemId) -> nat {
    slots_total(inventory.slots, item) + stack_total(inventory.cursor, item)
}

/// An occupied slot, or the cursor, never holds an empty stack.
pub open spec fn occupied_non_empty(slot: Option<ItemStackView>) -> bool {
    match slot {
        Some(stack) => stack.count > 0,
        None => true,
    }
}

/// The inventory has its full set of slots, a hotbar selection, and no empty stacks.
pub open spec fn inventory_wf(inventory: InventoryView) -> bool {
    &&& inventory.slots.len() == TOTAL_SLOT_COUNT
    &&& inventory.selected < HOTBAR_SLOT_COUNT
    &&& forall|i: int| 0 <= i < TOTAL_SLOT_COUNT ==> occupied_non_empty(#[trigger] inventory.slots[i])
    &&& occupied_non_empty(inventory.cursor)
}

/// A stack after changing its count.
pub open spec fn with_count(stack: ItemStackView, count: nat) -> ItemStackView {
    ItemStackView { count, ..stack }
}

/// Keeps a stack only if it is non-empty.
pub open spec fn non_empty(stack: ItemStackView) -> Option<ItemStackView> {
    if stack.count > 0 {
        Some(stack)
    } else {
        None
    }
}

/// Outcome of a left click on slot `index`: take, place, merge or swap whole stacks.
pub open spec fn left_click_result(inventory: InventoryView, index: int) -> (InventoryView, bool) {
    let slot = inventory.slots[index];
    match inventory.cursor {
        None => (
            InventoryView { slots: inventory.slots.update(index, None), cursor: slot, ..inventory },
            slot.is_some(),
        ),
        Some(held) => match slot {
            None => (
                InventoryView {
                    slots: inventory.slots.update(index, Some(held)),
                    cursor: None,
                    ..inventory
                },
                true,
            ),
            Some(target) => if stackable(target, held) {
                let moved = min_nat(held.count, (target.max_stack_size - target.count) as nat);
                (
                    InventoryView {
                        slots: inventory.slots.update(
                            index,
                            Some(with_count(target, target.count + moved)),
                        ),
                        cursor: non_empty(with_count(held, (held.count - moved) as nat)),
                        ..inventory
                    },
                    moved > 0,
                )
            } else {
                (
                    InventoryView {
                        slots: inventory.slots.update(index, Some(held)),
                        cursor: Some(target),
                        ..inventory
                    },
                    true,
                )
            },
        },
    }
}

/// A click that can be carried out: every click but a right click that would
/// place one item from an empty carried stack into an empty slot.
pub open spec fn click_accepted(inventory: InventoryView, index: int, click: InventoryClick) -> bool {
    !(click == InventoryClick::Right && 0 <= index < inventory.slots.len()
        && inventory.slots[index] is None && count_of(inventory.cursor) == 0
        && inventory.cursor is Some)
}

/// Outcome of a right click on slot `index`: take half (rounded up) or place one.
pub open spec fn right_click_result(inventory: InventoryView, index: int) -> (InventoryView, bool) {
    let slot = inventory.slots[index];
    match inventory.cursor {
        None => match slot {
            None => (inventory, false),
            Some(target) => {
                let taken = (target.count + 1) / 2;
                (
                    InventoryView {
                        slots: inventory.slots.update(
                            index,
                            non_empty(with_count(target, (target.count - taken) as nat)),
                        ),
                        cursor: non_empty(with_count(target, taken as nat)),
                        ..inventory
                    },
                    true,
                )
            },
        },
        Some(held) => match slot {
            None => (
                InventoryView {
                    slots: inventory.slots.update(index, Some(with_count(held, 1))),
                    cursor: non_empty(with_count(held, (held.count - 1) as nat)),
                    ..inventory
                },
                true,
            ),
            Some(target) => if stackable(target, held) {
                let added = min_nat(1, (target.max_stack_size - target.count) as nat);
                (
                    InventoryView {
                        slots: inventory.slots.update(
                            index,
                            Some(with_count(target, target.count + added)),
                        ),
                        cursor: non_empty(
                            with_count(held, (held.count - min_nat(added, held.count)) as nat),
                        ),
                        ..inventory
                    },
                    added == 1,
                )
            } else {
                (inventory, false)
            },
        },
    }
}

/// Changing one slot changes the total by the difference between the old and new contents.
pub proof fn lemma_slots_total_update(
    slots: Seq<Option<ItemStackView>>,
    index: int,
    value: Option<ItemStackView>,
    item: ItemId,
)
    requires
        0 <= index < slots.len(),
    ensures
        slots_total(slots.update(index, value), item) + stack_total(slots[index], item)
            == slots_total(slots, item) + stack_total(value, item),
    decreases slots.len(),
{
    let updated = slots.update(index, value);
    if index == slots.len() - 1 {
        assert(updated.drop_last() =~= slots.drop_last());
    } else {
        assert(updated.drop_last() =~= slots.drop_last().update(index, value));
        lemma_slots_total_update(slots.drop_last(), index, value, item);
    }
}

/// A total over slots of which none holds `item` is zero.
pub proof fn lemma_slots_total_absent(slots: Seq<Option<ItemStackView>>, item: ItemId)
    requires
        forall|i: int| 0 <= i < slots.len() ==> stack_total(#[trigger] slots[i], item) == 0,
    ensures
        slots_total(slots, item) == 0,
    decreases slots.len(),
{
    if slots.len() > 0 {
        lemma_slots_total_absent(slots.drop_last(), item);
    }
}

/// Mouse clicks on inventory slots never create or destroy items: for every
/// item, slots plus cursor hold as many before as after.
pub proof fn lemma_click_conserves_items(
    inventory: InventoryView,
    index: int,
    click: InventoryClick,
    item: ItemId,
)
    requires
        inventory_wf(inventory),
        0 <= index < TOTAL_SLOT_COUNT,
    ensures
        ({
            let after = match click {
                InventoryClick::Left => left_click_result(inventory, index).0,
                InventoryClick::Right => right_click_result(inventory, index).0,
            };
            &&& inventory_total(after, item) == inventory_total(inventory, item)
            &&& inventory_wf(after)
        }),
{
    let after = match click {
        InventoryClick::Left => left_click_result(inventory, index).0,
        InventoryClick::Right => right_click_result(inventory, index).0,
    };
    let new_slot = after.slots[index];
    assert(after.slots =~= inventory.slots.update(index, new_slot));
    lemma_slots_total_update(inventory.slots, index, new_slot, item);
    let slot = inventory.slots[index];
    assert(occupied_non_empty(slot));
    assert(stack_total(new_slot, item) + stack_total(after.cursor, item) == stack_total(slot, item)
        + stack_total(inventory.cursor, item)) by {
        match click {
            InventoryClick::Left => {
                match inventory.cursor {
                    None => {},
                    Some(held) => match slot {
                        None => {},
                        Some(target) => {
                            if stackable(target, held) {
                                let moved = min_nat(
                                    held.count,
                                    (target.max_stack_size - target.count) as nat,
                                );
                                assert(moved <= held.count);
                            }
                        },
                    },
                }
            },
            InventoryClick::Right => {
                match inventory.cursor {
                    None => match slot {
                        None => {},
                        Some(target) => {
                            let taken = (target.count + 1) / 2;
                            assert(taken <= target.count);
                        },
                    },
                    Some(held) => match slot {
                        None => {},
                        Some(target) => {
                            if stackable(target, held) {
                                let added = min_nat(
                                    1,
                                    (target.max_stack_size - target.count) as nat,
                                );
                                assert(added <= held.count);
                            }
                        },
                    },
                }
            },
        }
    }
}

/// With nothing on the cursor, a second left click on the same slot puts back
/// the stack the first one picked up: the inventory is as it was.
pub proof fn lemma_left_click_twice_restores(inventory: InventoryView, index: int)
    requires
        inventory_wf(inventory),
        0 <= index < TOTAL_SLOT_COUNT,
        inventory.cursor is None,
    ensures
        left_click_result(left_click_result(inventory, index).0, index).0 == inventory,
{
    let first = left_click_result(inventory, index).0;
    let second = left_click_result(first, index).0;
    assert(second.slots =~= inventory.slots);
}

/// Abstract contents of a sequence of concrete slots.
pub open spec fn view_slots(slots: Seq<Option<ItemStack>>) -> Seq<Option<ItemStackView>> {
    slots.map_values(|slot: Option<ItemStack>| slot_view(slot))
}

proof fn lemma_view_slots_update(slots: Seq<Option<ItemStack>>, index: int, value: Option<ItemStack>)
    requires
        0 <= index < slots.len(),
    ensures
        view_slots(slots.update(index, value)) == view_slots(slots).update(index, slot_view(value)),
{
    assert(view_slots(slots.update(index, value)) =~= view_slots(slots).update(
        index,
        slot_view(value),
    ));
}

/// How many items a slot holds, whatever the item.
pub open spec fn count_of(slot: Option<ItemStackView>) -> nat {
    match slot {
        Some(stack) => stack.count,
        None => 0,
    }
}

/// The slot holds a stack of `item` with stack limit `limit`.
pub open spec fn holds(slot: Option<ItemStackView>, item: ItemId, limit: nat) -> bool {
    match slot {
        Some(stack) => stack.item == item && stack.max_stack_size == limit,
        None => false,
    }
}

/// The slot holds some stack of `item`.
pub open spec fn holds_item(slot: Option<ItemStackView>, item: ItemId) -> bool {
    match slot {
        Some(stack) => stack.item == item,
        None => false,
    }
}

/// The slot holds a stack at its limit.
pub open spec fn is_full(slot: Option<ItemStackView>) -> bool {
    match slot {
        Some(stack) => stack.count == stack.max_stack_size,
        None => false,
    }
}

/// `after` is `before` with `count` items of `item` (stack limit `limit`) put away,
/// `leftover` of them not fitting: matching stacks are topped up in slot order,
/// then empty slots receive new stacks in slot order.
pub open spec fn filled_greedily(
    before: Seq<Option<ItemStackView>>,
    after: Seq<Option<ItemStackView>>,
    item: ItemId,
    limit: nat,
    count: nat,
    leftover: nat,
) -> bool {
    &&& after.len() == before.len()
    &&& leftover <= count
    &&& slots_total(after, item) + leftover == slots_total(before, item) + count
    &&& forall|k: int|
        0 <= k < before.len() && before[k] is Some && !holds(before[k], item, limit) ==> after[k]
            == before[k]
    &&& forall|k: int|
        0 <= k < before.len() && holds(before[k], item, limit) ==> holds(after[k], item, limit)
            && count_of(before[k]) <= count_of(after[k])
    &&& forall|k: int|
        0 <= k < before.len() && before[k] is None ==> after[k] is None || (holds(
            after[k],
            item,
            limit,
        ) && (count_of(after[k]) > 0 || count == 0))
    &&& forall|i: int, j: int|
        0 <= i < j < before.len() && holds(before[i], item, limit) && holds(before[j], item, limit)
            && count_of(before[j]) < count_of(after[j]) ==> is_full(after[i])
    &&& forall|i: int, j: int|
        0 <= i < before.len() && 0 <= j < before.len() && holds(before[i], item, limit)
            && before[j] is None && after[j] is Some ==> is_full(after[i])
    &&& forall|i: int, j: int|
        0 <= i < j < before.len() && before[i] is None && before[j] is None && after[j] is Some
            ==> is_full(after[i])
    &&& leftover > 0 ==> forall|k: int|
        0 <= k < before.len() ==> after[k] is Some && (holds(after[k], item, limit) ==> is_full(
            after[k],
        ))
}

/// Two slot sequences that hold as many of `item` slot by slot hold as many in total.
pub proof fn lemma_slots_total_pointwise(
    a: Seq<Option<ItemStackView>>,
    b: Seq<Option<ItemStackView>>,
    item: ItemId,
)
    requires
        a.len() == b.len(),
        forall|k: int| 0 <= k < a.len() ==> stack_total(#[trigger] a[k], item) == stack_total(b[k], item),
    ensures
        slots_total(a, item) == slots_total(b, item),
    decreases a.len(),
{
    if a.len() > 0 {
        lemma_slots_total_pointwise(a.drop_last(), b.drop_last(), item);
    }
}

/// Putting away one item leaves the totals of every other item unchanged.
pub proof fn lemma_filling_keeps_other_items(
    before: Seq<Option<ItemStackView>>,
    after: Seq<Option<ItemStackView>>,
    item: ItemId,
    limit: nat,
    count: nat,
    leftover: nat,
    other: ItemId,
)
    requires
        filled_greedily(before, after, item, limit, count, leftover),
        other != item,
    ensures
        slots_total(after, other) == slots_total(before, other),
{
    assert forall|k: int| 0 <= k < after.len() implies stack_total(#[trigger] after[k], other)
        == stack_total(before[k], other) by {
        if holds(before[k], item, limit) {
        } else if before[k] is None {
        } else {
        }
    }
    lemma_slots_total_pointwise(after, before, other);
}

/// How many slots are empty.
pub open spec fn empty_slots(slots: Seq<Option<ItemStackView>>) -> nat
    decreases slots.len(),
{
    if slots.len() == 0 {
        0
    } else {
        empty_slots(slots.drop_last()) + if slots.last() is None {
            1nat
        } else {
            0nat
        }
    }
}

/// Slots that stay empty, all but possibly the one at `spared`, keep the count of
/// empty slots, less one if `spared` is a slot.
pub proof fn lemma_empty_slots_kept(
    before: Seq<Option<ItemStackView>>,
    after: Seq<Option<ItemStackView>>,
    spared: int,
)
    requires
        before.len() == after.len(),
        forall|k: int|
            0 <= k < before.len() && k != spared && #[trigger] before[k] is None ==> after[k] is None,
    ensures
        empty_slots(after) + (if 0 <= spared < before.len() {
            1int
        } else {
            0int
        }) >= empty_slots(before),
    decreases before.len(),
{
    if before.len() > 0 {
        assert forall|k: int|
            0 <= k < before.drop_last().len() && k != spared && #[trigger] before.drop_last()[k] is None
            implies after.drop_last()[k] is None by {
            assert(before.drop_last()[k] == before[k]);
        }
        lemma_empty_slots_kept(before.drop_last(), after.drop_last(), spared);
    }
}

/// A sequence with an empty slot has an index that is empty.
pub proof fn lemma_empty_slot_exists(slots: Seq<Option<ItemStackView>>)
    requires
        empty_slots(slots) > 0,
    ensures
        exists|k: int| 0 <= k < slots.len() && #[trigger] slots[k] is None,
    decreases slots.len(),
{
    if slots.last() is None {
        assert(slots[slots.len() - 1] is None);
    } else {
        lemma_empty_slot_exists(slots.drop_last());
        let k = choose|k: int| 0 <= k < slots.drop_last().len() && #[trigger] slots.drop_last()[k] is None;
        assert(slots[k] is None);
    }
}

/// Slots that each hold at least as many of `item` hold at least as many in total.
pub proof fn lemma_slots_total_monotone(
    a: Seq<Option<ItemStackView>>,
    b: Seq<Option<ItemStackView>>,
    item: ItemId,
)
    requires
        a.len() == b.len(),
        forall|k: int| 0 <= k < a.len() ==> stack_total(#[trigger] a[k], item) <= stack_total(b[k], item),
    ensures
        slots_total(a, item) <= slots_total(b, item),
    decreases a.len(),
{
    if a.len() > 0 {
        assert forall|k: int| 0 <= k < a.drop_last().len() implies stack_total(
            #[trigger] a.drop_last()[k],
            item,
        ) <= stack_total(b.drop_last()[k], item) by {
            assert(a.drop_last()[k] == a[k]);
            assert(b.drop_last()[k] == b[k]);
        }
        lemma_slots_total_monotone(a.drop_last(), b.drop_last(), item);
    }
}

/// Putting away at most one full stack, while an empty slot is free, always fits
/// and uses up at most one empty slot.
pub proof fn lemma_fill_with_room(
    before: Seq<Option<ItemStackView>>,
    after: Seq<Option<ItemStackView>>,
    item: ItemId,
    limit: nat,
    count: nat,
    leftover: nat,
)
    requires
        filled_greedily(before, after, item, limit, count, leftover),
        0 < count <= limit,
        empty_slots(before) > 0,
    ensures
        leftover == 0,
        empty_slots(after) + 1 >= empty_slots(before),
{
    assert forall|k: int| 0 <= k < before.len() implies stack_total(#[trigger] before[k], item)
        <= stack_total(after[k], item) by {
        if holds(before[k], item, limit) {
        } else if before[k] is None {
        } else {
        }
    }
    lemma_empty_slot_exists(before);
    let k0 = choose|k: int| 0 <= k < before.len() && #[trigger] before[k] is None;
    if leftover > 0 {
        assert(stack_total(after[k0], item) == limit);
        let a = before.update(k0, None);
        let b = after.update(k0, None);
        assert forall|k: int| 0 <= k < a.len() implies stack_total(#[trigger] a[k], item)
            <= stack_total(b[k], item) by {
            if k != k0 {
                assert(stack_total(before[k], item) <= stack_total(after[k], item));
            }
        }
        lemma_slots_total_monotone(a, b, item);
        lemma_slots_total_update(before, k0, None, item);
        lemma_slots_total_update(after, k0, None, item);
    }
    if exists|k: int| 0 <= k < before.len() && before[k] is None && #[trigger] after[k] is Some {
        let m = choose|k: int| 0 <= k < before.len() && before[k] is None && #[trigger] after[k] is Some;
        assert forall|k: int| 0 <= k < before.len() && k != m && #[trigger] before[k] is None
            implies after[k] is None by {
            if after[k] is Some {
                let i = if k < m { k } else { m };
                let j = if k < m { m } else { k };
                assert(is_full(after[i]));
                assert(stack_total(after[i], item) == limit);
                assert(stack_total(after[j], item) > 0);
                let a = before.update(i, None).update(j, None);
                let b = after.update(i, None).update(j, None);
                assert forall|q: int| 0 <= q < a.len() implies stack_total(#[trigger] a[q], item)
                    <= stack_total(b[q], item) by {
                    if q != i && q != j {
                        assert(stack_total(before[q], item) <= stack_total(after[q], item));
                    }
                }
                lemma_slots_total_monotone(a, b, item);
                lemma_slots_total_update(before, i, None, item);
                lemma_slots_total_update(before.update(i, None), j, None, item);
                lemma_slots_total_update(after, i, None, item);
                lemma_slots_total_update(after.update(i, None), j, None, item);
            }
        }
        lemma_empty_slots_kept(before, after, m);
    } else {
        lemma_empty_slots_kept(before, after, -1);
    }
}

/// A new stack only lands in the first empty slot: every slot before an empty
/// slot that received a stack was occupied.
pub open spec fn fills_first_empty_slot(
    before: Seq<Option<ItemStackView>>,
    after: Seq<Option<ItemStackView>>,
) -> bool {
    forall|i: int, j: int|
        0 <= i < j < before.len() && before[j] is None && #[trigger] after[j] is Some
            ==> #[trigger] before[i] is Some
}

/// Putting away at most one full stack opens at most one empty slot, and it
/// is the first one.
pub proof fn lemma_fill_uses_first_empty_slot(
    before: Seq<Option<ItemStackView>>,
    after: Seq<Option<ItemStackView>>,
    item: ItemId,
    limit: nat,
    count: nat,
    leftover: nat,
)
    requires
        filled_greedily(before, after, item, limit, count, leftover),
        0 < count <= limit,
    ensures
        fills_first_empty_slot(before, after),
{
    assert forall|k: int| 0 <= k < before.len() implies stack_total(#[trigger] before[k], item)
        <= stack_total(after[k], item) by {
        if holds(before[k], item, limit) {
        } else if before[k] is None {
        } else {
        }
    }
    assert forall|i: int, j: int|
        0 <= i < j < before.len() && before[j] is None && #[trigger] after[j] is Some
            implies #[trigger] before[i] is Some by {
        if before[i] is None {
            assert(is_full(after[i]));
            assert(stack_total(after[i], item) == limit);
            assert(stack_total(after[j], item) > 0);
            let a = before.update(i, None).update(j, None);
            let b = after.update(i, None).update(j, None);
            assert forall|q: int| 0 <= q < a.len() implies stack_total(#[trigger] a[q], item)
                <= stack_total(b[q], item) by {
                if q != i && q != j {
                    assert(stack_total(before[q], item) <= stack_total(after[q], item));
                }
            }
            lemma_slots_total_monotone(a, b, item);
            lemma_slots_total_update(before, i, None, item);
            lemma_slots_total_update(before.update(i, None), j, None, item);
            lemma_slots_total_update(after, i, None, item);
            lemma_slots_total_update(after.update(i, None), j, None, item);
        }
    }
}

/// First pass of putting away `left` items of `item` (stack limit `limit`),
/// from slot `i` on: each stack of the item with that limit is topped up in
/// slot order. Gives the slots, what is still left, and whether everything was
/// put away, which ends the filling.
pub open spec fn top_up_from(
    slots: Seq<Option<ItemStackView>>,
    item: ItemId,
    limit: nat,
    left: nat,
    i: int,
) -> (Seq<Option<ItemStackView>>, nat, bool)
    decreases slots.len() - i,
{
    if i < 0 || i >= slots.len() {
        (slots, left, false)
    } else if holds(slots[i], item, limit) {
        let stack = slots[i]->0;
        let added = min_nat(left, (limit - stack.count) as nat);
        let next = slots.update(i, Some(with_count(stack, stack.count + added)));
        if left - added == 0 {
            (next, 0, true)
        } else {
            top_up_from(next, item, limit, (left - added) as nat, i + 1)
        }
    } else {
        top_up_from(slots, item, limit, left, i + 1)
    }
}

/// Second pass, from slot `j` on: each empty slot receives a new stack of up
/// to `limit` items, in slot order, until nothing is left. Gives the slots and
/// what did not fit.
pub open spec fn new_stacks_from(
    slots: Seq<Option<ItemStackView>>,
    item: ItemId,
    limit: nat,
    left: nat,
    j: int,
) -> (Seq<Option<ItemStackView>>, nat)
    decreases slots.len() - j,
{
    if j < 0 || j >= slots.len() {
        (slots, left)
    } else if slots[j] is None {
        let amount = min_nat(left, limit);
        let next = slots.update(
            j,
            Some(ItemStackView { item, count: amount, max_stack_size: limit }),
        );
        if left - amount == 0 {
            (next, 0)
        } else {
            new_stacks_from(next, item, limit, (left - amount) as nat, j + 1)
        }
    } else {
        new_stacks_from(slots, item, limit, left, j + 1)
    }
}

/// The slots after putting away `count` items of `item` (stack limit `limit`):
/// matching stacks are topped up first, then empty slots receive new stacks.
/// Gives the slots and the number of items that did not fit.
pub open spec fn filled(slots: Seq<Option<ItemStackView>>, item: ItemId, limit: nat, count: nat) -> (
    Seq<Option<ItemStackView>>,
    nat,
) {
    let (topped, left, done) = top_up_from(slots, item, limit, count, 0);
    if done {
        (topped, 0)
    } else {
        new_stacks_from(topped, item, limit, left, 0)
    }
}

/// Progress of the first pass of `fill_slots`: slots below `i` were topped up.
spec fn topped_up_below(
    before: Seq<Option<ItemStackView>>,
    current: Seq<Option<ItemStackView>>,
    item: ItemId,
    limit: nat,
    i: int,
) -> bool {
    &&& current.len() == before.len()
    &&& forall|k: int| i <= k < before.len() ==> current[k] == before[k]
    &&& forall|k: int| 0 <= k < i && !holds(before[k], item, limit) ==> current[k] == before[k]
    &&& forall|k: int|
        0 <= k < i && holds(before[k], item, limit) ==> holds(current[k], item, limit) && is_full(
            current[k],
        ) && count_of(before[k]) <= count_of(current[k])
}

/// Progress of the second pass of `fill_slots`: every matching stack is full and
/// empty slots below `j` received full stacks.
spec fn empties_filled_below(
    before: Seq<Option<ItemStackView>>,
    current: Seq<Option<ItemStackView>>,
    item: ItemId,
    limit: nat,
    j: int,
) -> bool {
    &&& current.len() == before.len()
    &&& forall|k: int|
        0 <= k < before.len() && before[k] is Some && !holds(before[k], item, limit) ==> current[k]
            == before[k]
    &&& forall|k: int|
        0 <= k < before.len() && holds(before[k], item, limit) ==> holds(current[k], item, limit)
            && is_full(current[k]) && count_of(before[k]) <= count_of(current[k])
    &&& forall|k: int| j <= k < before.len() && before[k] is None ==> current[k] is None
    &&& forall|k: int|
        0 <= k < j && before[k] is None ==> holds(current[k], item, limit) && is_full(current[k])
}

/// Puts `count` items of `item` with stack limit `limit` into the slots: first on top of
/// matching stacks, then into empty slots. Returns how many did not fit.
fn fill_slots(
    slots: &mut [Option<ItemStack>; TOTAL_SLOT_COUNT],
    item: ItemId,
    count: u32,
    limit: u32,
) -> (leftover: u32)
    requires
        limit > 0,
    ensures
        filled_greedily(
            view_slots(old(slots)@),
            view_slots(final(slots)@),
            item,
            limit as nat,
            count as nat,
            leftover as nat,
        ),
        (view_slots(final(slots)@), leftover as nat) == filled(
            view_slots(old(slots)@),
            item,
            limit as nat,
            count as nat,
        ),
{
    let ghost before = view_slots(slots@);
    let mut remaining = count;
    let mut i: usize = 0;
    while i < TOTAL_SLOT_COUNT
        invariant
            i <= TOTAL_SLOT_COUNT,
            limit > 0,
            before.len() == TOTAL_SLOT_COUNT,
            before == view_slots(old(slots)@),
            topped_up_below(before, view_slots(slots@), item, limit as nat, i as int),
            remaining <= count,
            remaining == 0 ==> count == 0,
            slots_total(view_slots(slots@), item) + remaining == slots_total(before, item) + count,
            top_up_from(view_slots(slots@), item, limit as nat, remaining as nat, i as int)
                == top_up_from(before, item, limit as nat, count as nat, 0),
        decreases TOTAL_SLOT_COUNT - i,
    {
        let ghost previous = view_slots(slots@);
        assert(previous[i as int] == slot_view(slots@[i as int]));
        if let Some(stack) = slots[i] {
            if stack.item() == item && stack.max_stack_size() == limit {
                let mut grown = stack;
                let ghost wanted = remaining;
                let added = grown.add(remaining);
                remaining = remaining - added;
                proof {
                    lemma_view_slots_update(slots@, i as int, Some(grown));
                    lemma_slots_total_update(previous, i as int, Some(grown@), item);
                }
                slots[i] = Some(grown);
                if remaining == 0 {
                    return 0;
                }
                assert(is_full(view_slots(slots@)[i as int]));
            }
        }
        assert(topped_up_below(before, view_slots(slots@), item, limit as nat, i + 1));
        i += 1;
    }
    let mut j: usize = 0;
    while j < TOTAL_SLOT_COUNT
        invariant
            j <= TOTAL_SLOT_COUNT,
            limit > 0,
            before.len() == TOTAL_SLOT_COUNT,
            before == view_slots(old(slots)@),
            empties_filled_below(before, view_slots(slots@), item, limit as nat, j as int),
            remaining <= count,
            remaining == 0 ==> count == 0,
            slots_total(view_slots(slots@), item) + remaining == slots_total(before, item) + count,
            new_stacks_from(view_slots(slots@), item, limit as nat, remaining as nat, j as int)
                == filled(before, item, limit as nat, count as nat),
        decreases TOTAL_SLOT_COUNT - j,
    {
        if slots[j].is_none() {
            let amount = if remaining < limit {
                remaining
            } else {
                limit
            };
            if let Ok(stack) = ItemStack::new(item, amount, limit) {
                remaining = remaining - amount;
                let ghost previous = view_slots(slots@);
                proof {
                    lemma_view_slots_update(slots@, j as int, Some(stack));
                    lemma_slots_total_update(previous, j as int, Some(stack@), item);
                }
                slots[j] = Some(stack);
                if remaining == 0 {
                    return 0;
                }
            }
        }
        j += 1;
    }
    remaining
}

/// A hotbar slot index, always below the hotbar size.
#[derive(Clone, Copy, Debug)]
struct HotbarIndex(usize);

impl View for HotbarIndex {
    type V = nat;

    closed spec fn view(&self) -> nat {
        (self.0 % HOTBAR_SLOT_COUNT) as nat
    }
}

impl HotbarIndex {
    #[verifier::type_invariant]
    spec fn inv(self) -> bool {
        self.0 < HOTBAR_SLOT_COUNT
    }

    fn new(index: usize) -> (r: Self)
        requires
            index < HOTBAR_SLOT_COUNT,
        ensures
            r@ == index,
    {
        HotbarIndex(index)
    }

    fn get(self) -> (r: usize)
        ensures
            r == self@,
            r < HOTBAR_SLOT_COUNT,
    {
        proof {
            use_type_invariant(&self);
        }
        self.0
    }
}

/// All player-owned inventory slots plus the stack currently carried by the cursor.
#[derive(Clone, Copy, Debug)]
pub struct PlayerInventory {
    slots: [Option<ItemStack>; TOTAL_SLOT_COUNT],
    selected_hotbar: HotbarIndex,
    cursor_held: Option<ItemStack>,
}

impl View for PlayerInventory {
    type V = InventoryView;

    closed spec fn view(&self) -> InventoryView {
        InventoryView {
            slots: view_slots(self.slots@),
            selected: self.selected_hotbar@,
            cursor: slot_view(self.cursor_held),
        }
    }
}


/// The slots after taking up to `left` items of `item` from slot `i` on, in
/// slot order: each stack of the item gives what it can, an emptied slot
/// becomes free, and the scan stops once nothing is left to take.
pub open spec fn drain_from(slots: Seq<Option<ItemStackView>>, item: ItemId, left: nat, i: int) -> Seq<
    Option<ItemStackView>,
>
    decreases slots.len() - i,
{
    if i < 0 || i >= slots.len() {
        slots
    } else if holds_item(slots[i], item) {
        let stack = slots[i]->0;
        let taken = min_nat(left, stack.count);
        let rest = (stack.count - taken) as nat;
        let next = slots.update(
            i,
            if rest == 0 {
                None
            } else {
                Some(with_count(stack, rest))
            },
        );
        if left - taken == 0 {
            next
        } else {
            drain_from(next, item, (left - taken) as nat, i + 1)
        }
    } else {
        drain_from(slots, item, left, i + 1)
    }
}

/// The slots after removing up to `count` items of `item`, first stacks first.
pub open spec fn drained(slots: Seq<Option<ItemStackView>>, item: ItemId, count: nat) -> Seq<
    Option<ItemStackView>,
> {
    drain_from(slots, item, count, 0)
}

/// The inventory after removing up to `count` items of `item` from the slots:
/// matching stacks are drained in slot order and emptied slots become free.
pub open spec fn drained_in_order(
    before: Seq<Option<ItemStackView>>,
    after: Seq<Option<ItemStackView>>,
    item: ItemId,
) -> bool {
    &&& after.len() == before.len()
    &&& forall|k: int| 0 <= k < before.len() && !holds_item(before[k], item) ==> after[k] == before[k]
    &&& forall|k: int|
        0 <= k < before.len() && holds_item(before[k], item) ==> after[k] is None || (after[k]
            == Some(with_count(before[k]->0, after[k]->0.count)) && after[k]->0.count
            <= before[k]->0.count)
    &&& forall|k: int|
        0 <= k < before.len() && holds_item(before[k], item) && after[k] != before[k]
            ==> after[k] is None || after[k]->0.count > 0
    &&& forall|i: int, j: int|
        0 <= i < j < before.len() && holds_item(before[i], item) && holds_item(before[j], item)
            && after[j] != before[j] ==> after[i] is None
}

/// Draining one item leaves the totals of every other item unchanged.
pub proof fn lemma_draining_keeps_other_items(
    before: Seq<Option<ItemStackView>>,
    after: Seq<Option<ItemStackView>>,
    item: ItemId,
    other: ItemId,
)
    requires
        drained_in_order(before, after, item),
        other != item,
    ensures
        slots_total(after, other) == slots_total(before, other),
{
    assert forall|k: int| 0 <= k < after.len() implies stack_total(#[trigger] after[k], other)
        == stack_total(before[k], other) by {
        if holds_item(before[k], item) {
        } else {
        }
    }
    lemma_slots_total_pointwise(after, before, other);
}

proof fn lemma_slots_total_take(slots: Seq<Option<ItemStackView>>, i: int, item: ItemId)
    requires
        0 <= i < slots.len(),
    ensures
        slots_total(slots.take(i + 1), item) == slots_total(slots.take(i), item) + stack_total(
            slots[i],
            item,
        ),
{
    assert(slots.take(i + 1).drop_last() =~= slots.take(i));
}

proof fn lemma_slots_total_prefix(slots: Seq<Option<ItemStackView>>, i: int, item: ItemId)
    requires
        0 <= i <= slots.len(),
    ensures
        slots_total(slots.take(i), item) <= slots_total(slots, item),
    decreases slots.len(),
{
    if i == slots.len() {
        assert(slots.take(i) =~= slots);
    } else {
        assert(slots.drop_last().take(i) =~= slots.take(i));
        lemma_slots_total_prefix(slots.drop_last(), i, item);
    }
}

impl PlayerInventory {
    /// Every slot, hotbar first.
    pub fn slots(&self) -> (r: &[Option<ItemStack>; TOTAL_SLOT_COUNT])
        ensures
            view_slots(r@) == self@.slots,
    {
        &self.slots
    }

    /// The hotbar slots.
    pub fn hotbar_slots(&self) -> (r: &[Option<ItemStack>])
        ensures
            view_slots(r@) == self@.slots.subrange(0, HOTBAR_SLOT_COUNT as int),
    {
        let r = vstd::slice::slice_subrange(self.slots.as_slice(), 0, HOTBAR_SLOT_COUNT);
        assert(view_slots(r@) =~= self@.slots.subrange(0, HOTBAR_SLOT_COUNT as int));
        r
    }

    /// The storage slots after the hotbar.
    pub fn inventory_slots(&self) -> (r: &[Option<ItemStack>])
        ensures
            view_slots(r@) == self@.slots.subrange(
                HOTBAR_SLOT_COUNT as int,
                TOTAL_SLOT_COUNT as int,
            ),
    {
        let r = vstd::slice::slice_subrange(
            self.slots.as_slice(),
            HOTBAR_SLOT_COUNT,
            TOTAL_SLOT_COUNT,
        );
        assert(view_slots(r@) =~= self@.slots.subrange(
            HOTBAR_SLOT_COUNT as int,
            TOTAL_SLOT_COUNT as int,
        ));
        r
    }

    /// The stack in slot `index`, or `None` for an empty or unknown slot.
    pub fn slot(&self, index: usize) -> (r: Option<ItemStack>)
        ensures
            slot_view(r) == if index < TOTAL_SLOT_COUNT {
                self@.slots[index as int]
            } else {
                None
            },
    {
        if index < TOTAL_SLOT_COUNT {
            self.slots[index]
        } else {
            None
        }
    }

    pub fn selected_hotbar_index(&self) -> (r: usize)
        ensures
            r == self@.selected,
            r < HOTBAR_SLOT_COUNT,
    {
        self.selected_hotbar.get()
    }

    /// The non-empty stack in the selected hotbar slot.
    pub fn selected_stack(&self) -> (r: Option<ItemStack>)
        ensures
            slot_view(r) == match self@.slots[self@.selected as int] {
                Some(stack) => non_empty(stack),
                None => None,
            },
    {
        match self.slot(self.selected_hotbar.get()) {
            Some(stack) => if stack.is_empty() {
                None
            } else {
                Some(stack)
            },
            None => None,
        }
    }

    pub fn cursor_held_stack(&self) -> (r: Option<ItemStack>)
        ensures
            slot_view(r) == self@.cursor,
    {
        self.cursor_held
    }

    /// Selects hotbar slot `index`; false when it is out of range or already selected.
    pub fn select_hotbar(&mut self, index: usize) -> (r: bool)
        ensures
            r == (index < HOTBAR_SLOT_COUNT && index != old(self)@.selected),
            final(self)@ == if r {
                InventoryView { selected: index as nat, ..old(self)@ }
            } else {
                old(self)@
            },
    {
        if index >= HOTBAR_SLOT_COUNT || index == self.selected_hotbar.get() {
            return false;
        }
        self.selected_hotbar = HotbarIndex::new(index);
        true
    }

    /// Moves the hotbar selection by `offset` slots, wrapping around at both ends.
    pub fn cycle_hotbar(&mut self, offset: isize)
        ensures
            final(self)@ == (InventoryView {
                selected: ((old(self)@.selected + offset) % (HOTBAR_SLOT_COUNT as int)) as nat,
                ..old(self)@
            }),
    {
        let current = self.selected_hotbar.get();
        let step = match offset.checked_rem_euclid(9) {
            Some(step) => step,
            None => 0,
        };
        assert(0 <= step < 9);
        let next = (current + step as usize) % HOTBAR_SLOT_COUNT;
        proof {
            vstd::arithmetic::div_mod::lemma_add_mod_noop(current as int, offset as int, 9);
            vstd::arithmetic::div_mod::lemma_mod_twice(current as int, 9);
        }
        self.selected_hotbar = HotbarIndex::new(next);
    }

    /// Removes one item from the selected hotbar stack; false when there is none.
    pub fn consume_selected_one(&mut self) -> (r: bool)
        ensures
            ({
                let selected = old(self)@.selected as int;
                let slot = old(self)@.slots[selected];
                &&& r == (count_of(slot) > 0)
                &&& final(self)@ == if r {
                    InventoryView {
                        slots: old(self)@.slots.update(
                            selected,
                            non_empty(with_count(slot->0, (count_of(slot) - 1) as nat)),
                        ),
                        ..old(self)@
                    }
                } else {
                    old(self)@
                }
            }),
    {
        let index = self.selected_hotbar.get();
        assert(self@.slots[index as int] == slot_view(self.slots@[index as int]));
        match self.slots[index] {
            None => false,
            Some(stack) => {
                let mut stack = stack;
                if stack.remove(1) == 0 {
                    return false;
                }
                let value = if stack.is_empty() {
                    None
                } else {
                    Some(stack)
                };
                proof {
                    lemma_view_slots_update(self.slots@, index as int, value);
                }
                self.slots[index] = value;
                true
            },
        }
    }

    /// Adds items to matching stacks first and then empty slots.
    ///
    /// Returns the amount that did not fit.
    pub fn add_item(&mut self, item: ItemId, count: u32, registry: &ItemRegistry) -> (leftover: u32)
        ensures
            filled_greedily(
                old(self)@.slots,
                final(self)@.slots,
                item,
                item_max_stack_size(item@),
                count as nat,
                leftover as nat,
            ),
            (final(self)@.slots, leftover as nat) == filled(
                old(self)@.slots,
                item,
                item_max_stack_size(item@),
                count as nat,
            ),
            forall|other: ItemId|
                other != item ==> slots_total(final(self)@.slots, other) == slots_total(
                    old(self)@.slots,
                    other,
                ),
            final(self)@.selected == old(self)@.selected,
            final(self)@.cursor == old(self)@.cursor,
            inventory_wf(old(self)@) && count > 0 ==> inventory_wf(final(self)@),
    {
        let limit = registry.max_stack_size(item);
        let mut slots = self.slots;
        let leftover = fill_slots(&mut slots, item, count, limit);
        self.slots = slots;
        proof {
            let before = old(self)@.slots;
            let after = self@.slots;
            assert forall|other: ItemId| other != item implies slots_total(after, other)
                == slots_total(before, other) by {
                lemma_filling_keeps_other_items(
                    before,
                    after,
                    item,
                    limit as nat,
                    count as nat,
                    leftover as nat,
                    other,
                );
            }
            if inventory_wf(old(self)@) && count > 0 {
                assert forall|k: int| 0 <= k < TOTAL_SLOT_COUNT implies occupied_non_empty(
                    #[trigger] after[k],
                ) by {
                    assert(occupied_non_empty(before[k]));
                }
            }
        }
        leftover
    }

    /// How many of `item` the slots hold; the cursor is not counted.
    pub fn item_count(&self, item: ItemId) -> (r: u32)
        requires
            slots_total(self@.slots, item) <= u32::MAX,
        ensures
            r == slots_total(self@.slots, item),
    {
        let ghost slots = self@.slots;
        let mut total: u32 = 0;
        let mut i: usize = 0;
        while i < TOTAL_SLOT_COUNT
            invariant
                i <= TOTAL_SLOT_COUNT,
                slots == self@.slots,
                slots.len() == TOTAL_SLOT_COUNT,
                slots_total(slots, item) <= u32::MAX,
                total == slots_total(slots.take(i as int), item),
            decreases TOTAL_SLOT_COUNT - i,
        {
            proof {
                lemma_slots_total_take(slots, i as int, item);
                lemma_slots_total_prefix(slots, i + 1, item);
                assert(slots[i as int] == slot_view(self.slots@[i as int]));
            }
            if let Some(stack) = self.slots[i] {
                if stack.item() == item {
                    total = total + stack.count();
                }
            }
            i += 1;
        }
        assert(slots.take(TOTAL_SLOT_COUNT as int) =~= slots);
        total
    }

    /// Removes up to `count` items from inventory slots and returns the amount removed.
    /// Cursor-held items are intentionally excluded from crafting and consumption.
    pub fn remove_item(&mut self, item: ItemId, count: u32) -> (removed: u32)
        ensures
            removed == min_nat(count as nat, slots_total(old(self)@.slots, item)),
            slots_total(final(self)@.slots, item) == slots_total(old(self)@.slots, item)
                - removed,
            drained_in_order(old(self)@.slots, final(self)@.slots, item),
            final(self)@.slots == drained(old(self)@.slots, item, count as nat),
            final(self)@.selected == old(self)@.selected,
            final(self)@.cursor == old(self)@.cursor,
            inventory_wf(old(self)@) ==> inventory_wf(final(self)@),
    {
        let ghost before = self@.slots;
        let mut left = count;
        let mut i: usize = 0;
        while i < TOTAL_SLOT_COUNT
            invariant
                i <= TOTAL_SLOT_COUNT,
                before == old(self)@.slots,
                before.len() == TOTAL_SLOT_COUNT,
                self@.selected == old(self)@.selected,
                self@.cursor == old(self)@.cursor,
                self@.slots.len() == TOTAL_SLOT_COUNT,
                forall|k: int| i <= k < TOTAL_SLOT_COUNT ==> self@.slots[k] == before[k],
                forall|k: int|
                    0 <= k < i && !holds_item(before[k], item) ==> self@.slots[k] == before[k],
                forall|k: int| 0 <= k < i && holds_item(before[k], item) ==> self@.slots[k] is None,
                left <= count,
                slots_total(self@.slots, item) + (count - left) == slots_total(before, item),
                drain_from(self@.slots, item, left as nat, i as int) == drained(before, item, count as nat),
            decreases TOTAL_SLOT_COUNT - i,
        {
            let ghost previous = self@.slots;
            assert(previous[i as int] == slot_view(self.slots@[i as int]));
            if let Some(stack) = self.slots[i] {
                if stack.item() == item {
                    let mut stack = stack;
                    let ghost held_before = stack@;
                    let taken = stack.remove(left);
                    left = left - taken;
                    let value = if stack.is_empty() {
                        None
                    } else {
                        Some(stack)
                    };
                    proof {
                        lemma_view_slots_update(self.slots@, i as int, value);
                        lemma_slots_total_update(previous, i as int, slot_view(value), item);
                    }
                    self.slots[i] = value;
                    assert(self@.slots == previous.update(i as int, slot_view(value)));
                    if left == 0 {
                        proof {
                            let after = self@.slots;
                            assert forall|k: int|
                                0 <= k < TOTAL_SLOT_COUNT && holds_item(
                                    before[k],
                                    item,
                                ) implies #[trigger] after[k] is None || (after[k] == Some(
                                with_count(before[k]->0, after[k]->0.count),
                            ) && after[k]->0.count <= before[k]->0.count) by {
                                if k == i {
                                    assert(before[k] == Some(held_before));
                                }
                            }
                        }
                        return count;
                    }
                }
            }
            i += 1;
        }
        proof {
            let after = self@.slots;
            assert forall|k: int| 0 <= k < after.len() implies stack_total(#[trigger] after[k], item)
                == 0 by {
                if !holds_item(before[k], item) {
                    assert(after[k] == before[k]);
                }
            }
            lemma_slots_total_absent(after, item);
            if inventory_wf(old(self)@) {
                assert forall|k: int| 0 <= k < TOTAL_SLOT_COUNT implies occupied_non_empty(
                    #[trigger] after[k],
                ) by {
                    assert(occupied_non_empty(before[k]));
                }
            }
        }
        count - left
    }

    /// Empties every slot and the cursor.
    pub fn clear(&mut self)
        ensures
            final(self)@ == (InventoryView {
                slots: Seq::new(TOTAL_SLOT_COUNT as nat, |i: int| None),
                cursor: None,
                ..old(self)@
            }),
    {
        let mut i: usize = 0;
        while i < TOTAL_SLOT_COUNT
            invariant
                i <= TOTAL_SLOT_COUNT,
                self@.selected == old(self)@.selected,
                self@.slots.len() == TOTAL_SLOT_COUNT,
                forall|k: int| 0 <= k < i ==> self@.slots[k] is None,
            decreases TOTAL_SLOT_COUNT - i,
        {
            proof {
                lemma_view_slots_update(self.slots@, i as int, None);
            }
            self.slots[i] = None;
            i += 1;
        }
        self.cursor_held = None;
        assert(self@.slots =~= Seq::new(TOTAL_SLOT_COUNT as nat, |i: int| None));
    }

    /// Applies a mouse action without involving UI entities or Bevy pointer state.
    pub fn click_slot(&mut self, index: usize, click: InventoryClick) -> (r: bool)
        requires
            click_accepted(old(self)@, index as int, click),
        ensures
            index >= TOTAL_SLOT_COUNT ==> !r && final(self)@ == old(self)@,
            index < TOTAL_SLOT_COUNT ==> (final(self)@, r) == match click {
                InventoryClick::Left => left_click_result(old(self)@, index as int),
                InventoryClick::Right => right_click_result(old(self)@, index as int),
            },
            inventory_wf(old(self)@) ==> inventory_wf(final(self)@),
            inventory_wf(old(self)@) ==> forall|item: ItemId|
                inventory_total(final(self)@, item) == inventory_total(old(self)@, item),
    {
        if index >= TOTAL_SLOT_COUNT {
            return false;
        }
        let r = match click {
            InventoryClick::Left => self.left_click_slot(index),
            InventoryClick::Right => self.right_click_slot(index),
        };
        proof {
            if inventory_wf(old(self)@) {
                assert forall|item: ItemId| inventory_total(self@, item) == inventory_total(
                    old(self)@,
                    item,
                ) by {
                    lemma_click_conserves_items(old(self)@, index as int, click, item);
                }
                lemma_click_conserves_items(old(self)@, index as int, click, vstd::pervasive::arbitrary());
            }
        }
        r
    }

    fn left_click_slot(&mut self, index: usize) -> (r: bool)
        requires
            index < TOTAL_SLOT_COUNT,
        ensures
            (final(self)@, r) == left_click_result(old(self)@, index as int),
    {
        assert(self@.slots[index as int] == slot_view(self.slots@[index as int]));
        proof {
            lemma_view_slots_update(self.slots@, index as int, None);
        }
        match self.cursor_held {
            None => {
                self.cursor_held = self.slots[index];
                self.slots[index] = None;
                self.cursor_held.is_some()
            },
            Some(held) => match self.slots[index] {
                None => {
                    proof {
                        lemma_view_slots_update(self.slots@, index as int, Some(held));
                    }
                    self.slots[index] = Some(held);
                    self.cursor_held = None;
                    true
                },
                Some(target) => {
                    if target.item() == held.item() && target.max_stack_size()
                        == held.max_stack_size() {
                        let mut target = target;
                        let mut held = held;
                        let moved = target.merge(&mut held);
                        proof {
                            lemma_view_slots_update(self.slots@, index as int, Some(target));
                        }
                        self.slots[index] = Some(target);
                        self.cursor_held = if held.is_empty() {
                            None
                        } else {
                            Some(held)
                        };
                        moved > 0
                    } else {
                        proof {
                            lemma_view_slots_update(self.slots@, index as int, Some(held));
                        }
                        self.slots[index] = Some(held);
                        self.cursor_held = Some(target);
                        true
                    }
                },
            },
        }
    }

    fn right_click_slot(&mut self, index: usize) -> (r: bool)
        requires
            index < TOTAL_SLOT_COUNT,
            click_accepted(old(self)@, index as int, InventoryClick::Right),
        ensures
            (final(self)@, r) == right_click_result(old(self)@, index as int),
    {
        assert(self@.slots[index as int] == slot_view(self.slots@[index as int]));
        match self.cursor_held {
            None => match self.slots[index] {
                None => false,
                Some(target) => {
                    let mut target = target;
                    let half = target.count() / 2 + target.count() % 2;
                    self.cursor_held = target.split(half);
                    let value = if target.is_empty() {
                        None
                    } else {
                        Some(target)
                    };
                    proof {
                        lemma_view_slots_update(self.slots@, index as int, value);
                    }
                    self.slots[index] = value;
                    true
                },
            },
            Some(held) => match self.slots[index] {
                None => {
                    let mut held = held;
                    if let Some(one) = held.split(1) {
                        proof {
                            lemma_view_slots_update(self.slots@, index as int, Some(one));
                        }
                        self.slots[index] = Some(one);
                    }
                    self.cursor_held = if held.is_empty() {
                        None
                    } else {
                        Some(held)
                    };
                    true
                },
                Some(target) => {
                    if target.item() == held.item() && target.max_stack_size()
                        == held.max_stack_size() {
                        let mut target = target;
                        let mut held = held;
                        let added = target.add(1);
                        held.remove(added);
                        proof {
                            lemma_view_slots_update(self.slots@, index as int, Some(target));
                        }
                        self.slots[index] = Some(target);
                        self.cursor_held = if held.is_empty() {
                            None
                        } else {
                            Some(held)
                        };
                        added == 1
                    } else {
                        false
                    }
                },
            },
        }
    }

    /// Returns a carried stack to matching slots first, then to an empty slot.
    ///
    /// If every compatible slot is full, the stack remains carried so items are
    /// never discarded when the inventory closes.
    pub fn stow_held_stack(&mut self)
        ensures
            inventory_wf(old(self)@) ==> inventory_wf(final(self)@),
            forall|item: ItemId| inventory_total(final(self)@, item) == inventory_total(old(self)@, item),
            final(self)@.selected == old(self)@.selected,
            match old(self)@.cursor {
                None => final(self)@ == old(self)@,
                Some(held) => {
                    &&& filled_greedily(
                        old(self)@.slots,
                        final(self)@.slots,
                        held.item,
                        held.max_stack_size,
                        held.count,
                        count_of(final(self)@.cursor),
                    )
                    &&& final(self)@.cursor == non_empty(
                        with_count(held, count_of(final(self)@.cursor)),
                    )
                    &&& held.count > 0 ==> fills_first_empty_slot(old(self)@.slots, final(self)@.slots)
                },
            },
    {
        if let Some(held) = self.cursor_held {
            let mut slots = self.slots;
            let leftover = fill_slots(
                &mut slots,
                held.item(),
                held.count(),
                held.max_stack_size(),
            );
            self.slots = slots;
            let mut rest = held;
            rest.remove(held.count() - leftover);
            self.cursor_held = if rest.is_empty() {
                None
            } else {
                Some(rest)
            };
            proof {
                let before = old(self)@.slots;
                let after = self@.slots;
                let h = held@;
                assert forall|item: ItemId| inventory_total(self@, item) == inventory_total(
                    old(self)@,
                    item,
                ) by {
                    if item != h.item {
                        lemma_filling_keeps_other_items(
                            before,
                            after,
                            h.item,
                            h.max_stack_size,
                            h.count,
                            leftover as nat,
                            item,
                        );
                    }
                }
                if inventory_wf(old(self)@) {
                    assert forall|k: int| 0 <= k < TOTAL_SLOT_COUNT implies occupied_non_empty(
                        #[trigger] after[k],
                    ) by {
                        assert(occupied_non_empty(before[k]));
                    }
                }
                if h.count > 0 {
                    lemma_fill_uses_first_empty_slot(
                        before,
                        after,
                        h.item,
                        h.max_stack_size,
                        h.count,
                        leftover as nat,
                    );
                }
            }
        }
    }

    /// Puts `stack` into slot `index`; refused for an unknown slot or an empty stack.
    pub fn set_slot(&mut self, index: usize, stack: Option<ItemStack>) -> (r: bool)
        ensures
            r == (index < TOTAL_SLOT_COUNT && occupied_non_empty(slot_view(stack))),
            final(self)@ == if r {
                InventoryView {
                    slots: old(self)@.slots.update(index as int, slot_view(stack)),
                    ..old(self)@
                }
            } else {
                old(self)@
            },
    {
        if index >= TOTAL_SLOT_COUNT {
            return false;
        }
        if let Some(given) = stack {
            if given.is_empty() {
                return false;
            }
        }
        proof {
            lemma_view_slots_update(self.slots@, index as int, stack);
        }
        self.slots[index] = stack;
        true
    }

    /// Puts `stack` on the cursor; refused for an empty stack.
    pub fn set_cursor_held(&mut self, stack: Option<ItemStack>) -> (r: bool)
        ensures
            r == occupied_non_empty(slot_view(stack)),
            final(self)@ == if r {
                InventoryView { cursor: slot_view(stack), ..old(self)@ }
            } else {
                old(self)@
            },
    {
        if let Some(given) = stack {
            if given.is_empty() {
                return false;
            }
        }
        self.cursor_held = stack;
        true
    }
}

impl Default for PlayerInventory {
    fn default() -> (r: Self)
        ensures
            r@ == (InventoryView {
                slots: Seq::new(TOTAL_SLOT_COUNT as nat, |i: int| None),
                selected: 0,
                cursor: None,
            }),
            inventory_wf(r@),
    {
        let vacant: Option<ItemStack> = None;
        let mut r = PlayerInventory {
            slots: [vacant; TOTAL_SLOT_COUNT],
            selected_hotbar: HotbarIndex::new(0),
            cursor_held: None,
        };
        r.clear();
        r
    }
}

/// Picks a dropped stack up into the inventory. The stack keeps what does
/// not fit; the result is whether the whole stack was taken, in which case the
/// dropped item disappears.
pub fn collect_stack(stack: &mut ItemStack, inventory: &mut PlayerInventory, registry: &ItemRegistry) -> (r: bool)
    ensures
        filled_greedily(
            old(inventory)@.slots,
            final(inventory)@.slots,
            old(stack)@.item,
            item_max_stack_size(old(stack)@.item@),
            old(stack)@.count,
            final(stack)@.count,
        ),
        final(stack)@ == (ItemStackView { count: final(stack)@.count, ..old(stack)@ }),
        forall|other: ItemId|
            other != old(stack)@.item ==> slots_total(final(inventory)@.slots, other)
                == slots_total(old(inventory)@.slots, other),
        final(inventory)@.selected == old(inventory)@.selected,
        final(inventory)@.cursor == old(inventory)@.cursor,
        r == (final(stack)@.count == 0),
{
    let count = stack.count();
    let remainder = inventory.add_item(stack.item(), count, registry);
    stack.remove(count - remainder);
    stack.is_empty()
}

/// Hotbar input of one frame: a number key picks its slot; otherwise
/// scrolling up selects the previous slot and scrolling down the next.
/// `scroll` is the sign of the vertical scroll.
pub fn apply_hotbar_selection(inventory: &mut PlayerInventory, digit: Option<usize>, scroll: i32)
    ensures
        match digit {
            Some(index) => final(inventory)@ == if index < HOTBAR_SLOT_COUNT {
                InventoryView { selected: index as nat, ..old(inventory)@ }
            } else {
                old(inventory)@
            },
            None => final(inventory)@ == if scroll > 0 {
                InventoryView {
                    selected: ((old(inventory)@.selected + 8int) % (HOTBAR_SLOT_COUNT as int)) as nat,
                    ..old(inventory)@
                }
            } else if scroll < 0 {
                InventoryView {
                    selected: ((old(inventory)@.selected + 1int) % (HOTBAR_SLOT_COUNT as int)) as nat,
                    ..old(inventory)@
                }
            } else {
                old(inventory)@
            },
        },
{
    match digit {
        Some(index) => {
            let ghost before = inventory@;
            let changed = inventory.select_hotbar(index);
            proof {
                if index < HOTBAR_SLOT_COUNT && !changed {
                    assert(index == before.selected);
                    assert(inventory@ =~= InventoryView { selected: index as nat, ..before });
                }
            }
        },
        None => {
            if scroll > 0 {
                let ghost before = inventory@;
                inventory.cycle_hotbar(-1);
                proof {
                    vstd::arithmetic::div_mod::lemma_add_mod_noop(before.selected as int, -1, 9);
                    vstd::arithmetic::div_mod::lemma_add_mod_noop(before.selected as int, 8, 9);
                    assert((-1int) % 9 == 8);
                }
            } else if scroll < 0 {
                inventory.cycle_hotbar(1);
            }
        },
    }
}

/// Whether the modal player inventory is shown.
#[derive(Clone, Copy, Debug, Default, PartialEq, Eq, Structural)]
pub struct InventoryState {
    open: bool,
}

impl View for InventoryState {
    type V = bool;

    /// Whether the inventory is open.
    closed spec fn view(&self) -> bool {
        self.open
    }
}

impl InventoryState {
    /// The inventory starts closed.
    pub fn new() -> (r: Self)
        ensures
            !r@,
    {
        InventoryState { open: false }
    }

    pub fn is_open(&self) -> (r: bool)
        ensures
            r == self@,
    {
        self.open
    }

    /// Handles the inventory keys of one frame: E opens or closes it, and
    /// Escape closes it when open. A held stack goes back into the slots
    /// whenever the inventory ends up closed.
    pub fn toggle(&mut self, toggle_pressed: bool, escape_pressed: bool, inventory: &mut PlayerInventory)
        ensures
            inventory_wf(old(inventory)@) ==> inventory_wf(final(inventory)@),
            ({
                let close = old(self)@ && escape_pressed;
                if !toggle_pressed && !close {
                    *final(self) == *old(self) && final(inventory)@ == old(inventory)@
                } else {
                    &&& final(self)@ == (!close && !old(self)@)
                    &&& final(self)@ ==> final(inventory)@ == old(inventory)@
                    &&& !final(self)@ ==> {
                        &&& forall|item: ItemId|
                            inventory_total(final(inventory)@, item) == inventory_total(
                                old(inventory)@,
                                item,
                            )
                        &&& final(inventory)@.selected == old(inventory)@.selected
                        &&& match old(inventory)@.cursor {
                            None => final(inventory)@ == old(inventory)@,
                            Some(held) => final(inventory)@.cursor == non_empty(
                                with_count(held, count_of(final(inventory)@.cursor)),
                            ),
                        }
                    }
                }
            }),
    {
        let close = self.open && escape_pressed;
        if !toggle_pressed && !close {
            return;
        }
        let open = if close {
            false
        } else {
            !self.open
        };
        self.open = open;
        if !open {
            inventory.stow_held_stack();
        }
    }
}

} // verus!
