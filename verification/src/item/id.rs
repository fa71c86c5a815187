use vstd::prelude::*;

verus! {

/// Number of item types built into the base game.
pub const BUILTIN_ITEM_COUNT: usize = 24;

/// Raw values of the built-in items.
pub const GRASS_BLOCK_RAW: u16 = 0;
pub const DIRT_BLOCK_RAW: u16 = 1;
pub const STONE_BLOCK_RAW: u16 = 2;
pub const SAND_BLOCK_RAW: u16 = 3;
pub const WOOD_BLOCK_RAW: u16 = 4;
pub const LEAVES_BLOCK_RAW: u16 = 5;
pub const WATER_BLOCK_RAW: u16 = 6;
pub const COAL_ORE_BLOCK_RAW: u16 = 7;
pub const IRON_ORE_BLOCK_RAW: u16 = 8;
pub const STICK_RAW: u16 = 9;
pub const APPLE_RAW: u16 = 10;
pub const OAK_PLANKS_RAW: u16 = 11;
pub const STONE_PICKAXE_RAW: u16 = 12;
pub const WOODEN_PICKAXE_RAW: u16 = 13;
pub const IRON_PICKAXE_RAW: u16 = 14;
pub const WOODEN_AXE_RAW: u16 = 15;
pub const STONE_AXE_RAW: u16 = 16;
pub const IRON_AXE_RAW: u16 = 17;
pub const WOODEN_SHOVEL_RAW: u16 = 18;
pub const STONE_SHOVEL_RAW: u16 = 19;
pub const IRON_SHOVEL_RAW: u16 = 20;
pub const WOODEN_SWORD_RAW: u16 = 21;
pub const STONE_SWORD_RAW: u16 = 22;
pub const IRON_SWORD_RAW: u16 = 23;

/// Compact item identity used by inventories and dropped-item data.
///
/// This is deliberately a distinct type from `BlockId`: items may represent
/// tools or resources that have no voxel counterpart.
#[derive(Clone, Copy, Debug, PartialEq, Eq, Structural, Hash, PartialOrd, Ord)]
pub struct ItemId(u16);

impl View for ItemId {
    type V = nat;

    closed spec fn view(&self) -> nat {
        self.0 as nat
    }
}

impl ItemId {
    #[verifier::type_invariant]
    spec fn inv(self) -> bool {
        self.0 < 24
    }

    /// Two item IDs are equal exactly when their raw values are.
    pub broadcast proof fn lemma_view_injective(a: ItemId, b: ItemId)
        ensures
            #![trigger a@, b@]
            (a@ == b@) <==> a == b,
    {
    }

    pub fn grass_block() -> (r: Self)
        ensures
            r@ == GRASS_BLOCK_RAW,
    {
        Self(GRASS_BLOCK_RAW)
    }

    pub fn dirt_block() -> (r: Self)
        ensures
            r@ == DIRT_BLOCK_RAW,
    {
        Self(DIRT_BLOCK_RAW)
    }

    pub fn stone_block() -> (r: Self)
        ensures
            r@ == STONE_BLOCK_RAW,
    {
        Self(STONE_BLOCK_RAW)
    }

    pub fn sand_block() -> (r: Self)
        ensures
            r@ == SAND_BLOCK_RAW,
    {
        Self(SAND_BLOCK_RAW)
    }

    pub fn wood_block() -> (r: Self)
        ensures
            r@ == WOOD_BLOCK_RAW,
    {
        Self(WOOD_BLOCK_RAW)
    }

    pub fn leaves_block() -> (r: Self)
        ensures
            r@ == LEAVES_BLOCK_RAW,
    {
        Self(LEAVES_BLOCK_RAW)
    }

    pub fn water_block() -> (r: Self)
        ensures
            r@ == WATER_BLOCK_RAW,
    {
        Self(WATER_BLOCK_RAW)
    }

    pub fn coal_ore_block() -> (r: Self)
        ensures
            r@ == COAL_ORE_BLOCK_RAW,
    {
        Self(COAL_ORE_BLOCK_RAW)
    }

    pub fn iron_ore_block() -> (r: Self)
        ensures
            r@ == IRON_ORE_BLOCK_RAW,
    {
        Self(IRON_ORE_BLOCK_RAW)
    }

    pub fn stick() -> (r: Self)
        ensures
            r@ == STICK_RAW,
    {
        Self(STICK_RAW)
    }

    pub fn apple() -> (r: Self)
        ensures
            r@ == APPLE_RAW,
    {
        Self(APPLE_RAW)
    }

    pub fn oak_planks() -> (r: Self)
        ensures
            r@ == OAK_PLANKS_RAW,
    {
        Self(OAK_PLANKS_RAW)
    }

    pub fn stone_pickaxe() -> (r: Self)
        ensures
            r@ == STONE_PICKAXE_RAW,
    {
        Self(STONE_PICKAXE_RAW)
    }

    pub fn wooden_pickaxe() -> (r: Self)
        ensures
            r@ == WOODEN_PICKAXE_RAW,
    {
        Self(WOODEN_PICKAXE_RAW)
    }

    pub fn iron_pickaxe() -> (r: Self)
        ensures
            r@ == IRON_PICKAXE_RAW,
    {
        Self(IRON_PICKAXE_RAW)
    }

    pub fn wooden_axe() -> (r: Self)
        ensures
            r@ == WOODEN_AXE_RAW,
    {
        Self(WOODEN_AXE_RAW)
    }

    pub fn stone_axe() -> (r: Self)
        ensures
            r@ == STONE_AXE_RAW,
    {
        Self(STONE_AXE_RAW)
    }

    pub fn iron_axe() -> (r: Self)
        ensures
            r@ == IRON_AXE_RAW,
    {
        Self(IRON_AXE_RAW)
    }

    pub fn wooden_shovel() -> (r: Self)
        ensures
            r@ == WOODEN_SHOVEL_RAW,
    {
        Self(WOODEN_SHOVEL_RAW)
    }

    pub fn stone_shovel() -> (r: Self)
        ensures
            r@ == STONE_SHOVEL_RAW,
    {
        Self(STONE_SHOVEL_RAW)
    }

    pub fn iron_shovel() -> (r: Self)
        ensures
            r@ == IRON_SHOVEL_RAW,
    {
        Self(IRON_SHOVEL_RAW)
    }

    pub fn wooden_sword() -> (r: Self)
        ensures
            r@ == WOODEN_SWORD_RAW,
    {
        Self(WOODEN_SWORD_RAW)
    }

    pub fn stone_sword() -> (r: Self)
        ensures
            r@ == STONE_SWORD_RAW,
    {
        Self(STONE_SWORD_RAW)
    }

    pub fn iron_sword() -> (r: Self)
        ensures
            r@ == IRON_SWORD_RAW,
    {
        Self(IRON_SWORD_RAW)
    }

    /// Every built-in item, ordered by raw value.
    pub fn all() -> (r: [Self; BUILTIN_ITEM_COUNT])
        ensures
            forall|i: int| 0 <= i < BUILTIN_ITEM_COUNT ==> (#[trigger] r@[i])@ == i,
    {
        [
            Self(0),
            Self(1),
            Self(2),
            Self(3),
            Self(4),
            Self(5),
            Self(6),
            Self(7),
            Self(8),
            Self(9),
            Self(10),
            Self(11),
            Self(12),
            Self(13),
            Self(14),
            Self(15),
            Self(16),
            Self(17),
            Self(18),
            Self(19),
            Self(20),
            Self(21),
            Self(22),
            Self(23),
        ]
    }

    pub fn from_raw(raw: u16) -> (r: Option<Self>)
        ensures
            match r {
                Some(id) => raw < BUILTIN_ITEM_COUNT && id@ == raw,
                None => raw >= BUILTIN_ITEM_COUNT,
            },
    {
        if raw < BUILTIN_ITEM_COUNT as u16 {
            Some(Self(raw))
        } else {
            None
        }
    }

    pub fn as_u16(self) -> (r: u16)
        ensures
            r == self@,
            r < BUILTIN_ITEM_COUNT,
    {
        proof {
            use_type_invariant(&self);
        }
        self.0
    }

    pub fn as_index(self) -> (r: usize)
        ensures
            r == self@,
            r < BUILTIN_ITEM_COUNT,
    {
        proof {
            use_type_invariant(&self);
        }
        self.0 as usize
    }
}

/// Error returned when persisted data contains an unknown item ID.
#[derive(Clone, Copy, Debug, PartialEq, Eq, Structural)]
pub struct InvalidItemId(pub u16);

impl TryFrom<u16> for ItemId {
    type Error = InvalidItemId;

    fn try_from(raw: u16) -> (r: Result<Self, Self::Error>)
        ensures
            match r {
                Ok(id) => raw < BUILTIN_ITEM_COUNT && id@ == raw,
                Err(error) => raw >= BUILTIN_ITEM_COUNT && error == InvalidItemId(raw),
            },
    {
        match Self::from_raw(raw) {
            Some(id) => Ok(id),
            None => Err(InvalidItemId(raw)),
        }
    }
}

impl vstd::std_specs::convert::TryFromSpecImpl<u16> for ItemId {
    open spec fn obeys_try_from_spec() -> bool {
        true
    }

    closed spec fn try_from_spec(raw: u16) -> Result<Self, Self::Error> {
        if raw < BUILTIN_ITEM_COUNT {
            Ok(ItemId(raw))
        } else {
            Err(InvalidItemId(raw))
        }
    }
}

impl From<ItemId> for u16 {
    fn from(id: ItemId) -> (r: u16) {
        id.as_u16()
    }
}

impl vstd::std_specs::convert::FromSpecImpl<ItemId> for u16 {
    open spec fn obeys_from_spec() -> bool {
        true
    }

    open spec fn from_spec(id: ItemId) -> u16 {
        id@ as u16
    }
}

} // verus!
