use vstd::prelude::*;

verus! {

/// Index into the block-texture atlas.
pub type TextureIndex = u16;

/// One face of an axis-aligned voxel block.
#[derive(Clone, Copy, Debug, PartialEq, Eq, Structural, Hash)]
pub enum BlockFace {
    Top,
    Bottom,
    North,
    South,
    East,
    West,
}

/// Texture-atlas indices for all six block faces.
#[derive(Clone, Copy, Debug, Default, PartialEq, Eq, Structural)]
pub struct FaceTextureIndices {
    pub top: TextureIndex,
    pub bottom: TextureIndex,
    pub north: TextureIndex,
    pub south: TextureIndex,
    pub east: TextureIndex,
    pub west: TextureIndex,
}

impl FaceTextureIndices {
    /// The texture that `face` shows.
    pub open spec fn spec_texture_for(self, face: BlockFace) -> TextureIndex {
        match face {
            BlockFace::Top => self.top,
            BlockFace::Bottom => self.bottom,
            BlockFace::North => self.north,
            BlockFace::South => self.south,
            BlockFace::East => self.east,
            BlockFace::West => self.west,
        }
    }

    pub fn uniform(texture: TextureIndex) -> (r: Self)
        ensures
            forall|face: BlockFace| #[trigger] r.spec_texture_for(face) == texture,
    {
        Self {
            top: texture,
            bottom: texture,
            north: texture,
            south: texture,
            east: texture,
            west: texture,
        }
    }

    pub fn top_bottom_sides(top: TextureIndex, bottom: TextureIndex, sides: TextureIndex) -> (r:
        Self)
        ensures
            r.top == top,
            r.bottom == bottom,
            r.north == sides,
            r.south == sides,
            r.east == sides,
            r.west == sides,
    {
        Self { top, bottom, north: sides, south: sides, east: sides, west: sides }
    }

    pub fn texture_for(self, face: BlockFace) -> (r: TextureIndex)
        ensures
            r == self.spec_texture_for(face),
    {
        match face {
            BlockFace::Top => self.top,
            BlockFace::Bottom => self.bottom,
            BlockFace::North => self.north,
            BlockFace::South => self.south,
            BlockFace::East => self.east,
            BlockFace::West => self.west,
        }
    }
}

/// Central metadata describing the behaviour and rendering of a block type.
///
/// The floating-point mining hardness and debug tint are not kept; this record
/// holds the voxel rules.
#[derive(Clone, Copy, Debug, PartialEq, Eq)]
pub struct BlockDefinition {
    pub name: &'static str,
    pub solid: bool,
    pub transparent: bool,
    pub breakable: bool,
    pub textures: FaceTextureIndices,
    /// Block light emitted by this voxel, 0 (none) to 15.
    pub light_emission: u8,
}

} // verus!
