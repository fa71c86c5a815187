use vstd::prelude::*;

use super::id::ItemId;

verus! {

/// Abstract contents of a stack.
pub struct ItemStackView {
    pub item: ItemId,
    pub count: nat,
    pub max_stack_size: nat,
}

/// A bounded quantity of one item type.
#[derive(Clone, Copy, Debug, PartialEq, Eq, Structural)]
pub struct ItemStack {
    item: ItemId,
    count: u32,
    max_stack_size: u32,
}

impl View for ItemStack {
    type V = ItemStackView;

    /// The count never exceeds the stack limit.
    closed spec fn view(&self) -> ItemStackView {
        ItemStackView {
            item: self.item,
            count: if self.count <= self.max_stack_size {
                self.count as nat
            } else {
                self.max_stack_size as nat
            },
            max_stack_size: self.max_stack_size as nat,
        }
    }
}

/// A stack never holds more than its limit.
pub broadcast proof fn lemma_count_within_limit(stack: ItemStack)
    ensures
        #[trigger] stack@.count <= stack@.max_stack_size,
{
}

/// Whether two stacks hold the same item with the same limit, and may merge.
pub open spec fn stackable(a: ItemStackView, b: ItemStackView) -> bool {
    a.item == b.item && a.max_stack_size == b.max_stack_size
}

pub open spec fn min_nat(a: nat, b: nat) -> nat {
    if a <= b {
        a
    } else {
        b
    }
}

impl ItemStack {
    #[verifier::type_invariant]
    spec fn inv(self) -> bool {
        0 < self.max_stack_size && self.count <= self.max_stack_size
    }

    /// Two stacks are equal exactly when their views are.
    pub fn same_as(&self, other: &Self) -> (r: bool)
        ensures
            r == (self@ == other@),
            r == (*self == *other),
    {
        proof {
            use_type_invariant(self);
            use_type_invariant(other);
        }
        self.item == other.item && self.count == other.count && self.max_stack_size
            == other.max_stack_size
    }

    pub fn new(item: ItemId, count: u32, max_stack_size: u32) -> (r: Result<Self, ItemStackError>)
        ensures
            match r {
                Ok(stack) => 0 < max_stack_size && count <= max_stack_size && stack@
                    == (ItemStackView {
                    item,
                    count: count as nat,
                    max_stack_size: max_stack_size as nat,
                }),
                Err(ItemStackError::ZeroMaxStackSize) => max_stack_size == 0,
                Err(ItemStackError::CountExceedsMaximum { count: c, max_stack_size: m }) => 0
                    < max_stack_size && count > max_stack_size && c == count && m
                    == max_stack_size,
            },
    {
        if max_stack_size == 0 {
            return Err(ItemStackError::ZeroMaxStackSize);
        }
        if count > max_stack_size {
            return Err(ItemStackError::CountExceedsMaximum { count, max_stack_size });
        }
        Ok(Self { item, count, max_stack_size })
    }

    pub fn item(&self) -> (r: ItemId)
        ensures
            r == self@.item,
    {
        self.item
    }

    pub fn count(&self) -> (r: u32)
        ensures
            r == self@.count,
            r <= self@.max_stack_size,
    {
        proof {
            use_type_invariant(self);
        }
        self.count
    }

    pub fn max_stack_size(&self) -> (r: u32)
        ensures
            r == self@.max_stack_size,
            r > 0,
    {
        proof {
            use_type_invariant(self);
        }
        self.max_stack_size
    }

    pub fn is_empty(&self) -> (r: bool)
        ensures
            r == (self@.count == 0),
    {
        proof {
            use_type_invariant(self);
        }
        self.count == 0
    }

    pub fn remaining_capacity(&self) -> (r: u32)
        ensures
            r == self@.max_stack_size - self@.count,
    {
        proof {
            use_type_invariant(self);
        }
        self.max_stack_size - self.count
    }

    /// Adds as many items as fit and returns the amount actually added.
    pub fn add(&mut self, amount: u32) -> (added: u32)
        ensures
            added == min_nat(amount as nat, (old(self)@.max_stack_size - old(self)@.count) as nat),
            final(self)@ == (ItemStackView { count: old(self)@.count + added as nat, ..old(self)@ }),
    {
        proof {
            use_type_invariant(&*self);
        }
        let capacity = self.max_stack_size - self.count;
        let added = if amount < capacity {
            amount
        } else {
            capacity
        };
        self.count = self.count + added;
        added
    }

    /// Removes as many items as available and returns the amount removed.
    pub fn remove(&mut self, amount: u32) -> (removed: u32)
        ensures
            removed == min_nat(amount as nat, old(self)@.count),
            final(self)@ == (ItemStackView { count: (old(self)@.count - removed) as nat, ..old(self)@ }),
    {
        proof {
            use_type_invariant(&*self);
        }
        let removed = if amount < self.count {
            amount
        } else {
            self.count
        };
        self.count = self.count - removed;
        removed
    }

    /// Moves matching items from source into this stack.
    pub fn merge(&mut self, source: &mut Self) -> (moved: u32)
        ensures
            stackable(old(self)@, old(source)@) ==> moved == min_nat(
                old(source)@.count,
                (old(self)@.max_stack_size - old(self)@.count) as nat,
            ),
            !stackable(old(self)@, old(source)@) ==> moved == 0,
            final(self)@ == (ItemStackView { count: old(self)@.count + moved as nat, ..old(self)@ }),
            final(source)@ == (ItemStackView {
                count: (old(source)@.count - moved) as nat,
                ..old(source)@
            }),
    {
        proof {
            use_type_invariant(&*self);
            use_type_invariant(&*source);
        }
        if self.item != source.item || self.max_stack_size != source.max_stack_size {
            return 0;
        }
        let capacity = self.max_stack_size - self.count;
        let moved = if source.count < capacity {
            source.count
        } else {
            capacity
        };
        self.count = self.count + moved;
        source.count = source.count - moved;
        moved
    }

    /// Removes up to amount items into a new stack.
    pub fn split(&mut self, amount: u32) -> (r: Option<Self>)
        ensures
            ({
                let taken = min_nat(amount as nat, old(self)@.count);
                &&& taken == 0 ==> r.is_none() && final(self)@ == old(self)@
                &&& taken > 0 ==> r.is_some() && r.unwrap()@ == (ItemStackView {
                    count: taken,
                    ..old(self)@
                }) && final(self)@ == (ItemStackView {
                    count: (old(self)@.count - taken) as nat,
                    ..old(self)@
                })
            }),
    {
        proof {
            use_type_invariant(&*self);
        }
        let split_count = if amount < self.count {
            amount
        } else {
            self.count
        };
        if split_count == 0 {
            return None;
        }
        self.count = self.count - split_count;
        Some(Self { item: self.item, count: split_count, max_stack_size: self.max_stack_size })
    }
}

#[derive(Clone, Copy, Debug, PartialEq, Eq, Structural)]
pub enum ItemStackError {
    ZeroMaxStackSize,
    CountExceedsMaximum { count: u32, max_stack_size: u32 },
}

} // verus!
