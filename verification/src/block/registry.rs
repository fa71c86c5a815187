use vstd::prelude::*;

use super::definition::{BlockDefinition, BlockFace, FaceTextureIndices, TextureIndex};
use super::id::{
    BlockId, AIR_RAW, BUILTIN_BLOCK_COUNT, COAL_ORE_RAW, IRON_ORE_RAW, LEAVES_RAW, WATER_RAW,
    WOOD_RAW,
};

verus! {

/// Whether the built-in block with this raw ID stops movement.
pub open spec fn block_is_solid(raw: nat) -> bool {
    raw != AIR_RAW && raw != WATER_RAW && raw < BUILTIN_BLOCK_COUNT
}

/// Whether light and sight pass through the built-in block with this raw ID.
pub open spec fn block_is_transparent(raw: nat) -> bool {
    raw == AIR_RAW || raw == LEAVES_RAW || raw == WATER_RAW
}

/// Whether the player may break the built-in block with this raw ID.
pub open spec fn block_is_breakable(raw: nat) -> bool {
    raw != AIR_RAW && raw != WATER_RAW && raw < BUILTIN_BLOCK_COUNT
}

/// Atlas indices of the built-in block with this raw ID.
pub open spec fn block_textures(raw: nat) -> FaceTextureIndices {
    let (top, bottom, sides) = if raw == 1 {
        (1u16, 2u16, 3u16)
    } else if raw == WOOD_RAW {
        (6u16, 6u16, 7u16)
    } else {
        let t: u16 = if raw == 0 {
            0
        } else if raw == 2 {
            2
        } else if raw == 3 {
            4
        } else if raw == 4 {
            5
        } else if raw == LEAVES_RAW {
            8
        } else if raw == WATER_RAW {
            9
        } else if raw == COAL_ORE_RAW {
            10
        } else {
            11
        };
        (t, t, t)
    };
    FaceTextureIndices { top, bottom, north: sides, south: sides, east: sides, west: sides }
}

/// The definition stored for `raw` agrees with the built-in block table.
/// Name of each built-in block type.
pub open spec fn block_name(raw: nat) -> Seq<char> {
    if raw == 0 {
        "air"@
    } else if raw == 1 {
        "grass"@
    } else if raw == 2 {
        "dirt"@
    } else if raw == 3 {
        "stone"@
    } else if raw == 4 {
        "sand"@
    } else if raw == 5 {
        "wood"@
    } else if raw == 6 {
        "leaves"@
    } else if raw == 7 {
        "water"@
    } else if raw == 8 {
        "coal_ore"@
    } else {
        "iron_ore"@
    }
}

pub open spec fn matches_builtin(raw: nat, definition: BlockDefinition) -> bool {
    &&& definition.name@ == block_name(raw)
    &&& definition.solid == block_is_solid(raw)
    &&& definition.transparent == block_is_transparent(raw)
    &&& definition.breakable == block_is_breakable(raw)
    &&& definition.textures == block_textures(raw)
    &&& definition.light_emission == 0
}

/// Central source of block behaviour and rendering metadata.
#[derive(Debug)]
pub struct BlockRegistry {
    definitions: [BlockDefinition; BUILTIN_BLOCK_COUNT],
}

impl BlockRegistry {
    #[verifier::type_invariant]
    spec fn inv(self) -> bool {
        forall|i: int|
            0 <= i < BUILTIN_BLOCK_COUNT ==> matches_builtin(
                i as nat,
                #[trigger] self.definitions@[i],
            )
    }

    /// The stored definition for the raw ID `raw`.
    pub closed spec fn spec_definition(self, raw: nat) -> BlockDefinition {
        self.definitions@[raw as int]
    }

    pub fn definition(&self, id: BlockId) -> (r: &BlockDefinition)
        ensures
            *r == self.spec_definition(id@),
            matches_builtin(id@, *r),
    {
        proof {
            use_type_invariant(self);
        }
        let index = id.as_index();
        &self.definitions[index]
    }

    pub fn definition_from_raw(&self, raw: u16) -> (r: Option<&BlockDefinition>)
        ensures
            match r {
                Some(definition) => raw < BUILTIN_BLOCK_COUNT && matches_builtin(
                    raw as nat,
                    *definition,
                ),
                None => raw >= BUILTIN_BLOCK_COUNT,
            },
    {
        match BlockId::from_raw(raw) {
            Some(id) => Some(self.definition(id)),
            None => None,
        }
    }

    pub fn is_solid(&self, id: BlockId) -> (r: bool)
        ensures
            r == block_is_solid(id@),
    {
        self.definition(id).solid
    }

    pub fn is_transparent(&self, id: BlockId) -> (r: bool)
        ensures
            r == block_is_transparent(id@),
    {
        self.definition(id).transparent
    }

    pub fn is_breakable(&self, id: BlockId) -> (r: bool)
        ensures
            r == block_is_breakable(id@),
    {
        self.definition(id).breakable
    }

    pub fn texture_for(&self, id: BlockId, face: BlockFace) -> (r: TextureIndex)
        ensures
            r == block_textures(id@).spec_texture_for(face),
    {
        self.definition(id).textures.texture_for(face)
    }

    /// Block light emitted by a voxel of this type.
    pub fn emitted_light(&self, id: BlockId) -> (r: u8)
        ensures
            r == 0,
    {
        self.definition(id).light_emission
    }

    /// The name of a block type, such as `"grass"`.
    pub fn name(&self, id: BlockId) -> (r: &'static str)
        ensures
            r@ == block_name(id@),
    {
        self.definition(id).name
    }
}

fn definition(
    name: &'static str,
    solid: bool,
    transparent: bool,
    breakable: bool,
    textures: FaceTextureIndices,
) -> (r: BlockDefinition)
    ensures
        r.name == name,
        r.solid == solid,
        r.transparent == transparent,
        r.breakable == breakable,
        r.textures == textures,
        r.light_emission == 0,
{
    BlockDefinition { name, solid, transparent, breakable, textures, light_emission: 0 }
}

fn uniform(texture: TextureIndex) -> (r: FaceTextureIndices)
    ensures
        r == (FaceTextureIndices {
            top: texture,
            bottom: texture,
            north: texture,
            south: texture,
            east: texture,
            west: texture,
        }),
{
    FaceTextureIndices::top_bottom_sides(texture, texture, texture)
}

fn faces(top: TextureIndex, bottom: TextureIndex, sides: TextureIndex) -> (r: FaceTextureIndices)
    ensures
        r == (FaceTextureIndices {
            top,
            bottom,
            north: sides,
            south: sides,
            east: sides,
            west: sides,
        }),
{
    FaceTextureIndices::top_bottom_sides(top, bottom, sides)
}

impl Default for BlockRegistry {
    fn default() -> (r: Self)
        ensures
            forall|raw: nat| raw < BUILTIN_BLOCK_COUNT ==> #[trigger] matches_builtin(raw, r.spec_definition(raw)),
    {
        let definitions = [
            definition("air", false, true, false, uniform(0)),
            definition("grass", true, false, true, faces(1, 2, 3)),
            definition("dirt", true, false, true, uniform(2)),
            definition("stone", true, false, true, uniform(4)),
            definition("sand", true, false, true, uniform(5)),
            definition("wood", true, false, true, faces(6, 6, 7)),
            definition("leaves", true, true, true, uniform(8)),
            definition("water", false, true, false, uniform(9)),
            definition("coal_ore", true, false, true, uniform(10)),
            definition("iron_ore", true, false, true, uniform(11)),
        ];
        assert forall|i: int| 0 <= i < BUILTIN_BLOCK_COUNT implies matches_builtin(
            i as nat,
            #[trigger] definitions@[i],
        ) by {
            if i == 0 {
            } else if i == 1 {
            } else if i == 2 {
            } else if i == 3 {
            } else if i == 4 {
            } else if i == 5 {
            } else if i == 6 {
            } else if i == 7 {
            } else if i == 8 {
            } else {
            }
        }
        let r = BlockRegistry { definitions };
        assert forall|raw: nat| raw < BUILTIN_BLOCK_COUNT implies #[trigger] matches_builtin(raw, r.spec_definition(raw)) by {
            assert(r.spec_definition(raw) == definitions@[raw as int]);
        }
        r
    }
}

} // verus!
