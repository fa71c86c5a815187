use vstd::prelude::*;

verus! {

/// Number of block types built into the base game.
pub const BUILTIN_BLOCK_COUNT: usize = 10;

/// Raw values of the built-in blocks, as stored in saves and chunk arrays.
pub const AIR_RAW: u16 = 0;
pub const GRASS_RAW: u16 = 1;
pub const DIRT_RAW: u16 = 2;
pub const STONE_RAW: u16 = 3;
pub const SAND_RAW: u16 = 4;
pub const WOOD_RAW: u16 = 5;
pub const LEAVES_RAW: u16 = 6;
pub const WATER_RAW: u16 = 7;
pub const COAL_ORE_RAW: u16 = 8;
pub const IRON_ORE_RAW: u16 = 9;

/// Compact block identity stored for every voxel.
///
/// The private field guarantees that every `BlockId` indexes a definition in
/// the built-in registry. A `u16` leaves room for future registered block types
/// while using only two bytes per voxel.
#[derive(Clone, Copy, Debug, PartialEq, Eq, Structural, Hash, PartialOrd, Ord)]
pub struct BlockId(u16);

impl View for BlockId {
    type V = nat;

    closed spec fn view(&self) -> nat {
        self.0 as nat
    }
}

impl BlockId {
    #[verifier::type_invariant]
    spec fn inv(self) -> bool {
        self.0 < 10
    }

    /// Two block IDs are equal exactly when their raw values are.
    pub broadcast proof fn lemma_view_injective(a: BlockId, b: BlockId)
        ensures
            #![trigger a@, b@]
            (a@ == b@) <==> a == b,
    {
    }

    /// The block type whose raw value is `raw`, for `raw` below
    /// `BUILTIN_BLOCK_COUNT`.
    pub closed spec fn spec_from_raw(raw: nat) -> BlockId {
        BlockId(raw as u16)
    }

    pub broadcast proof fn lemma_spec_from_raw(raw: nat)
        requires
            raw < BUILTIN_BLOCK_COUNT,
        ensures
            (#[trigger] BlockId::spec_from_raw(raw))@ == raw,
    {
    }

    pub fn air() -> (r: Self)
        ensures
            r@ == AIR_RAW,
    {
        Self(AIR_RAW)
    }

    pub fn grass() -> (r: Self)
        ensures
            r@ == GRASS_RAW,
    {
        Self(GRASS_RAW)
    }

    pub fn dirt() -> (r: Self)
        ensures
            r@ == DIRT_RAW,
    {
        Self(DIRT_RAW)
    }

    pub fn stone() -> (r: Self)
        ensures
            r@ == STONE_RAW,
    {
        Self(STONE_RAW)
    }

    pub fn sand() -> (r: Self)
        ensures
            r@ == SAND_RAW,
    {
        Self(SAND_RAW)
    }

    pub fn wood() -> (r: Self)
        ensures
            r@ == WOOD_RAW,
    {
        Self(WOOD_RAW)
    }

    pub fn leaves() -> (r: Self)
        ensures
            r@ == LEAVES_RAW,
    {
        Self(LEAVES_RAW)
    }

    pub fn water() -> (r: Self)
        ensures
            r@ == WATER_RAW,
    {
        Self(WATER_RAW)
    }

    pub fn coal_ore() -> (r: Self)
        ensures
            r@ == COAL_ORE_RAW,
    {
        Self(COAL_ORE_RAW)
    }

    pub fn iron_ore() -> (r: Self)
        ensures
            r@ == IRON_ORE_RAW,
    {
        Self(IRON_ORE_RAW)
    }

    /// Every built-in block, ordered by raw value.
    pub fn all() -> (r: [Self; BUILTIN_BLOCK_COUNT])
        ensures
            forall|i: int| 0 <= i < BUILTIN_BLOCK_COUNT ==> (#[trigger] r@[i])@ == i,
    {
        [
            Self(0),
            Self(1),
            Self(2),
            Self(3),
            Self(4),
            Self(5),
            Self(6),
            Self(7),
            Self(8),
            Self(9),
        ]
    }

    pub fn from_raw(raw: u16) -> (r: Option<Self>)
        ensures
            match r {
                Some(id) => raw < BUILTIN_BLOCK_COUNT && id@ == raw,
                None => raw >= BUILTIN_BLOCK_COUNT,
            },
    {
        if raw < BUILTIN_BLOCK_COUNT as u16 {
            Some(Self(raw))
        } else {
            None
        }
    }

    pub fn as_u16(self) -> (r: u16)
        ensures
            r == self@,
            r < BUILTIN_BLOCK_COUNT,
    {
        proof {
            use_type_invariant(&self);
        }
        self.0
    }

    pub fn as_index(self) -> (r: usize)
        ensures
            r == self@,
            r < BUILTIN_BLOCK_COUNT,
    {
        proof {
            use_type_invariant(&self);
        }
        self.0 as usize
    }
}

impl Default for BlockId {
    fn default() -> (r: Self)
        ensures
            r@ == AIR_RAW,
    {
        Self::air()
    }
}

/// Error returned when persisted or networked data contains an unknown ID.
#[derive(Clone, Copy, Debug, PartialEq, Eq, Structural)]
pub struct InvalidBlockId(pub u16);

impl TryFrom<u16> for BlockId {
    type Error = InvalidBlockId;

    fn try_from(raw: u16) -> (r: Result<Self, Self::Error>)
        ensures
            match r {
                Ok(id) => raw < BUILTIN_BLOCK_COUNT && id@ == raw,
                Err(error) => raw >= BUILTIN_BLOCK_COUNT && error == InvalidBlockId(raw),
            },
    {
        match Self::from_raw(raw) {
            Some(id) => Ok(id),
            None => Err(InvalidBlockId(raw)),
        }
    }
}

impl vstd::std_specs::convert::TryFromSpecImpl<u16> for BlockId {
    open spec fn obeys_try_from_spec() -> bool {
        true
    }

    closed spec fn try_from_spec(raw: u16) -> Result<Self, Self::Error> {
        if raw < BUILTIN_BLOCK_COUNT {
            Ok(BlockId(raw))
        } else {
            Err(InvalidBlockId(raw))
        }
    }
}

impl From<BlockId> for u16 {
    fn from(id: BlockId) -> (r: u16) {
        id.as_u16()
    }
}

impl vstd::std_specs::convert::FromSpecImpl<BlockId> for u16 {
    open spec fn obeys_from_spec() -> bool {
        true
    }

    open spec fn from_spec(id: BlockId) -> u16 {
        id@ as u16
    }
}

} // verus!
