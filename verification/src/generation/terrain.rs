//! Integer rules of terrain layering and empty-chunk prediction.

use vstd::prelude::*;

use crate::block::id::{BlockId, AIR_RAW, STONE_RAW, WATER_RAW};
use crate::chunk::Chunk;
use crate::coordinates::{
    lemma_local_index_bijective, local_in_bounds, local_index, ChunkPos, LocalBlockPos, CHUNK_VOLUME,
};

verus! {

/// Blocks under the surface block that use the biome's subsurface block.
pub const SUBSURFACE_DEPTH: i32 = 3;
/// Lowest terrain height any biome produces.
pub const MIN_TERRAIN_HEIGHT: i32 = -2;
/// Highest terrain height any biome produces.
pub const MAX_TERRAIN_HEIGHT: i32 = 26;
/// Water fills terrain columns up to just below this height.
pub const SEA_LEVEL: i32 = 8;
/// Highest block a tree can place above the surface: trunk plus canopy top.
pub const MAX_TREE_BLOCKS_ABOVE_SURFACE: i32 = 7;
/// Highest world Y that generated terrain or trees can occupy.
pub const MAX_GENERATED_BLOCK_Y: i32 = 33;

/// Raw block at height `world_y` of a column whose surface lies at `surface_y`.
pub open spec fn spec_terrain_block(world_y: int, surface_y: int, surface: nat, subsurface: nat) -> nat {
    if world_y > surface_y {
        AIR_RAW as nat
    } else if world_y == surface_y {
        surface
    } else if world_y >= surface_y - SUBSURFACE_DEPTH {
        subsurface
    } else {
        STONE_RAW as nat
    }
}

/// Air above the surface, the surface block on it, the subsurface block in the
/// few layers below, and stone beneath.
pub fn terrain_block(
    world_y: i64,
    surface_y: i32,
    surface_block: BlockId,
    subsurface_block: BlockId,
) -> (r: BlockId)
    ensures
        r@ == spec_terrain_block(world_y as int, surface_y as int, surface_block@, subsurface_block@),
{
    let surface_y = surface_y as i64;
    if world_y > surface_y {
        BlockId::air()
    } else if world_y == surface_y {
        surface_block
    } else if world_y >= surface_y - 3 {
        subsurface_block
    } else {
        BlockId::stone()
    }
}

/// Conservatively predicts chunks that cannot contain terrain or tree voxels.
/// Actual voxel contents remain authoritative for rendering.
pub fn is_chunk_potentially_empty(position: ChunkPos) -> (r: bool)
    ensures
        r == (position.y * 16 > MAX_GENERATED_BLOCK_Y),
{
    let chunk_min_y = position.y as i64 * 16;
    chunk_min_y > MAX_GENERATED_BLOCK_Y as i64
}

/// Chunks entirely below this predicate's height hold no surface: stone fills them.
pub fn is_chunk_below_terrain(position: ChunkPos) -> (r: bool)
    ensures
        r == (position.y * 16 + 15 < MIN_TERRAIN_HEIGHT - SUBSURFACE_DEPTH),
{
    let chunk_max_y = position.y as i64 * 16 + 15;
    chunk_max_y < (MIN_TERRAIN_HEIGHT - SUBSURFACE_DEPTH) as i64
}

/// Raw block at height `world_y` of a generated column: the terrain layers,
/// and still water above the surface and below sea level.
pub open spec fn spec_column_block(world_y: int, surface_y: int, surface: nat, subsurface: nat) -> nat {
    if world_y > surface_y && world_y < SEA_LEVEL {
        WATER_RAW as nat
    } else {
        spec_terrain_block(world_y, surface_y, surface, subsurface)
    }
}

/// The block of a generated column at `world_y`: terrain, or water above the
/// surface and below sea level.
pub fn column_block(
    world_y: i64,
    surface_y: i32,
    surface_block: BlockId,
    subsurface_block: BlockId,
) -> (r: BlockId)
    ensures
        r@ == spec_column_block(world_y as int, surface_y as int, surface_block@, subsurface_block@),
{
    if world_y > surface_y as i64 && world_y < SEA_LEVEL as i64 {
        BlockId::water()
    } else {
        terrain_block(world_y, surface_y, surface_block, subsurface_block)
    }
}

/// Column `x + 16 * z` of a chunk's 16 by 16 columns.
pub open spec fn column_index(x: int, z: int) -> int {
    x + z * 16
}

/// Lays the terrain of the chunk at `position` from the surface height and
/// the surface and subsurface blocks of each of its columns (`column_index`
/// order): every voxel is the column's block at its height.
pub fn layer_terrain(
    position: ChunkPos,
    heights: &Vec<i32>,
    surfaces: &Vec<BlockId>,
    subsurfaces: &Vec<BlockId>,
) -> (r: Chunk)
    requires
        heights@.len() == 256,
        surfaces@.len() == 256,
        subsurfaces@.len() == 256,
    ensures
        r@.blocks.len() == CHUNK_VOLUME,
        r@.dirty,
        forall|x: int, y: int, z: int|
            #![trigger local_index(x, y, z)]
            local_in_bounds(x, y, z) ==> r@.blocks[local_index(x, y, z)]@ == spec_column_block(
                position.y * 16 + y,
                heights@[column_index(x, z)] as int,
                surfaces@[column_index(x, z)]@,
                subsurfaces@[column_index(x, z)]@,
            ),
{
    let mut chunk = Chunk::new(BlockId::air());
    let base_y = position.y as i64 * 16;
    let mut i: usize = 0;
    while i < CHUNK_VOLUME
        invariant
            i <= CHUNK_VOLUME,
            base_y == position.y * 16,
            heights@.len() == 256,
            surfaces@.len() == 256,
            subsurfaces@.len() == 256,
            chunk@.blocks.len() == CHUNK_VOLUME,
            chunk@.dirty,
            forall|x: int, y: int, z: int|
                #![trigger local_index(x, y, z)]
                local_in_bounds(x, y, z) && local_index(x, y, z) < i ==> chunk@.blocks[local_index(
                    x,
                    y,
                    z,
                )]@ == spec_column_block(
                    position.y * 16 + y,
                    heights@[column_index(x, z)] as int,
                    surfaces@[column_index(x, z)]@,
                    subsurfaces@[column_index(x, z)]@,
                ),
        decreases CHUNK_VOLUME - i,
    {
        let x = i % 16;
        let z = (i / 16) % 16;
        let y = i / 256;
        assert(local_index(x as int, y as int, z as int) == i) by (nonlinear_arith)
            requires
                x == i % 16,
                z == (i / 16) % 16,
                y == i / 256,
                i < 4096,
        ;
        let column = x + z * 16;
        let block = column_block(base_y + y as i64, heights[column], surfaces[column], subsurfaces[column]);
        let position_in_chunk = match LocalBlockPos::new(x, y, z) {
            Ok(local) => local,
            Err(_) => {
                return chunk;
            },
        };
        let ghost before = chunk@;
        chunk.set_local(position_in_chunk, block);
        proof {
            assert forall|a: int, b: int, c: int|
                #![trigger local_index(a, b, c)]
                local_in_bounds(a, b, c) && local_index(a, b, c) < i + 1 implies chunk@.blocks[local_index(
                    a,
                    b,
                    c,
                )]@ == spec_column_block(
                    position.y * 16 + b,
                    heights@[column_index(a, c)] as int,
                    surfaces@[column_index(a, c)]@,
                    subsurfaces@[column_index(a, c)]@,
                ) by {
                lemma_local_index_bijective((a, b, c), (x as int, y as int, z as int));
            }
        }
        i += 1;
    }
    chunk
}

} // verus!
