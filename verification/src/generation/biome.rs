//! The surface biomes and the blocks each one is made of.

use vstd::prelude::*;

use crate::block::id::{DIRT_RAW, GRASS_RAW, SAND_RAW, STONE_RAW};
use crate::block::BlockId;

verus! {

/// A surface biome. Its climate and height parameters are tuning values
/// held by the terrain generator.
#[derive(Clone, Copy, Debug, PartialEq, Eq, Structural, Hash)]
pub enum Biome {
    Plains,
    Forest,
    Desert,
    Rocky,
}

/// Raw ID of the block covering a biome's surface.
pub open spec fn spec_surface_block(biome: Biome) -> nat {
    match biome {
        Biome::Plains | Biome::Forest => GRASS_RAW as nat,
        Biome::Desert => SAND_RAW as nat,
        Biome::Rocky => STONE_RAW as nat,
    }
}

/// Raw ID of the block in the layers just below a biome's surface.
pub open spec fn spec_subsurface_block(biome: Biome) -> nat {
    match biome {
        Biome::Plains | Biome::Forest => DIRT_RAW as nat,
        Biome::Desert => SAND_RAW as nat,
        Biome::Rocky => STONE_RAW as nat,
    }
}

impl Biome {
    /// Every biome, in classification order.
    pub fn all() -> (r: [Biome; 4])
        ensures
            r@ == seq![Biome::Plains, Biome::Forest, Biome::Desert, Biome::Rocky],
    {
        let r = [Biome::Plains, Biome::Forest, Biome::Desert, Biome::Rocky];
        assert(r@ =~= seq![Biome::Plains, Biome::Forest, Biome::Desert, Biome::Rocky]);
        r
    }

    pub fn surface_block(self) -> (r: BlockId)
        ensures
            r@ == spec_surface_block(self),
    {
        match self {
            Biome::Plains | Biome::Forest => BlockId::grass(),
            Biome::Desert => BlockId::sand(),
            Biome::Rocky => BlockId::stone(),
        }
    }

    pub fn subsurface_block(self) -> (r: BlockId)
        ensures
            r@ == spec_subsurface_block(self),
    {
        match self {
            Biome::Plains | Biome::Forest => BlockId::dirt(),
            Biome::Desert => BlockId::sand(),
            Biome::Rocky => BlockId::stone(),
        }
    }

    /// Trees grow only in forests and on plains, where the surface is grass.
    pub fn grows_trees(self) -> (r: bool)
        ensures
            r == (self == Biome::Forest || self == Biome::Plains),
            r ==> spec_surface_block(self) == GRASS_RAW,
    {
        match self {
            Biome::Forest | Biome::Plains => true,
            _ => false,
        }
    }
}

} // verus!
