//! Trees: deterministic world features that can span several chunks.
//!
//! A tree is fixed by its root column alone, so every chunk it reaches paints
//! exactly the same blocks whichever chunk is generated first.

use vstd::prelude::*;

use crate::block::id::{BlockId, AIR_RAW, LEAVES_RAW, WOOD_RAW};
use crate::chunk::Chunk;
use crate::coordinates::{local_index, ChunkPos, LocalBlockPos, CHUNK_VOLUME};

use super::random::{hash_2d, spec_hash_2d};

verus! {

pub const TREE_MIN_HEIGHT: i32 = 4;
pub const TREE_MAX_HEIGHT: i32 = 6;
pub const TREE_CANOPY_RADIUS: i64 = 2;
pub const TREE_SALT: u64 = 0xA7D3_5C91_EB40_268F;
/// `TREE_SALT` rotated left by 17 bits: the salt of trunk heights.
pub const TREE_HEIGHT_SALT: u64 = 0xB923_D680_4D1F_4FA6;

/// Inclusive world-block extent of one chunk.
#[derive(Clone, Copy, Debug, PartialEq, Eq, Structural)]
pub struct ChunkWorldBounds {
    pub min_x: i64,
    pub max_x: i64,
    pub min_y: i64,
    pub max_y: i64,
    pub min_z: i64,
    pub max_z: i64,
}

impl ChunkWorldBounds {
    /// Each extent spans one chunk, well inside the `i64` range.
    pub open spec fn wf(self) -> bool {
        &&& -0x1000_0000_0000_0000 <= self.min_x <= 0x1000_0000_0000_0000
        &&& -0x1000_0000_0000_0000 <= self.min_y <= 0x1000_0000_0000_0000
        &&& -0x1000_0000_0000_0000 <= self.min_z <= 0x1000_0000_0000_0000
        &&& self.max_x == self.min_x + 15
        &&& self.max_y == self.min_y + 15
        &&& self.max_z == self.min_z + 15
    }

    pub open spec fn spec_new(position: ChunkPos) -> ChunkWorldBounds {
        ChunkWorldBounds {
            min_x: (position.x * 16) as i64,
            max_x: (position.x * 16 + 15) as i64,
            min_y: (position.y * 16) as i64,
            max_y: (position.y * 16 + 15) as i64,
            min_z: (position.z * 16) as i64,
            max_z: (position.z * 16 + 15) as i64,
        }
    }

    pub fn new(position: ChunkPos) -> (r: Self)
        ensures
            r == Self::spec_new(position),
            r.wf(),
    {
        let min_x = position.x as i64 * 16;
        let min_y = position.y as i64 * 16;
        let min_z = position.z as i64 * 16;
        Self {
            min_x,
            max_x: min_x + 15,
            min_y,
            max_y: min_y + 15,
            min_z,
            max_z: min_z + 15,
        }
    }

    /// The chunk-local position of a world block, if this chunk holds it.
    pub fn local_position(self, world_x: i64, world_y: i64, world_z: i64) -> (r: Option<
        LocalBlockPos,
    >)
        requires
            self.wf(),
            -0x4000_0000_0000_0000 <= world_x <= 0x4000_0000_0000_0000,
            -0x4000_0000_0000_0000 <= world_y <= 0x4000_0000_0000_0000,
            -0x4000_0000_0000_0000 <= world_z <= 0x4000_0000_0000_0000,
        ensures
            match r {
                Some(local) => local@ == (
                    world_x - self.min_x,
                    world_y - self.min_y,
                    world_z - self.min_z,
                ),
                None => !(self.min_x <= world_x <= self.max_x && self.min_y <= world_y
                    <= self.max_y && self.min_z <= world_z <= self.max_z),
            },
    {
        let local_x = world_x - self.min_x;
        let local_y = world_y - self.min_y;
        let local_z = world_z - self.min_z;
        if local_x < 0 || local_y < 0 || local_z < 0 || local_x >= 16 || local_y >= 16 || local_z
            >= 16 {
            return None;
        }
        LocalBlockPos::checked(local_x as usize, local_y as usize, local_z as usize)
    }
}

/// A tree rooted on the surface block of one column.
#[derive(Clone, Copy, Debug, PartialEq, Eq, Structural)]
pub struct TreeFeature {
    pub root_x: i64,
    pub surface_y: i32,
    pub root_z: i64,
    pub trunk_height: i32,
}

/// The placed block wins over the current one: leaves only over air or
/// leaves, trunks also over other trunks.
pub open spec fn replaces(placed: nat, current: nat) -> bool {
    ||| placed == LEAVES_RAW && (current == AIR_RAW || current == LEAVES_RAW)
    ||| placed == WOOD_RAW && (current == AIR_RAW || current == LEAVES_RAW || current == WOOD_RAW)
}

/// The block left after painting `placed` (if any) over `current`.
pub open spec fn painted(current: nat, placed: Option<nat>) -> nat {
    match placed {
        Some(block) => if replaces(block, current) {
            block
        } else {
            current
        },
        None => current,
    }
}

/// Absolute value.
pub open spec fn magnitude(value: int) -> int {
    if value < 0 {
        -value
    } else {
        value
    }
}

impl TreeFeature {
    /// The root lies well inside the `i64` range.
    pub open spec fn wf(self) -> bool {
        &&& -0x1000_0000_0000_0000 <= self.root_x <= 0x1000_0000_0000_0000
        &&& -0x1000_0000_0000_0000 <= self.root_z <= 0x1000_0000_0000_0000
        &&& TREE_MIN_HEIGHT <= self.trunk_height <= TREE_MAX_HEIGHT
    }

    /// The tree's bounding box overlaps the chunk.
    pub open spec fn intersects_spec(self, bounds: ChunkWorldBounds) -> bool {
        self.root_x + 2 >= bounds.min_x && self.root_x - 2 <= bounds.max_x && self.root_z + 2
            >= bounds.min_z && self.root_z - 2 <= bounds.max_z && self.spec_trunk_top() + 1
            >= bounds.min_y && self.surface_y + 1 <= bounds.max_y
    }

    pub open spec fn spec_trunk_top(self) -> int {
        self.surface_y + self.trunk_height
    }

    /// Raw ID of the block this tree places at a world position, if any: the
    /// trunk above the surface, and a diamond-shaped canopy around its top.
    pub open spec fn spec_block(self, x: int, y: int, z: int) -> Option<nat> {
        let top = self.spec_trunk_top();
        if x == self.root_x && z == self.root_z && self.surface_y + 1 <= y <= top {
            Some(WOOD_RAW as nat)
        } else {
            let dx = x - self.root_x;
            let dy = y - top;
            let dz = z - self.root_z;
            if -2 <= dx <= 2 && -2 <= dy <= 1 && -2 <= dz <= 2 && magnitude(dx) + magnitude(dz)
                + magnitude(dy) / 2 <= 3 {
                Some(LEAVES_RAW as nat)
            } else {
                None
            }
        }
    }

    pub fn trunk_top(self) -> (r: i64)
        ensures
            r == self.spec_trunk_top(),
    {
        self.surface_y as i64 + self.trunk_height as i64
    }

    /// Lowest block of the tree: the first trunk block.
    pub fn min_y(self) -> (r: i64)
        ensures
            r == self.surface_y + 1,
    {
        self.surface_y as i64 + 1
    }

    /// Highest block of the tree: the canopy layer over the trunk.
    pub fn max_y(self) -> (r: i64)
        ensures
            r == self.spec_trunk_top() + 1,
    {
        self.trunk_top() + 1
    }

    /// Whether the tree's bounding box overlaps the chunk.
    pub fn intersects(self, bounds: ChunkWorldBounds) -> (r: bool)
        requires
            self.wf(),
        ensures
            r == (self.root_x + 2 >= bounds.min_x && self.root_x - 2 <= bounds.max_x
                && self.root_z + 2 >= bounds.min_z && self.root_z - 2 <= bounds.max_z
                && self.spec_trunk_top() + 1 >= bounds.min_y && self.surface_y + 1
                <= bounds.max_y),
    {
        self.root_x + TREE_CANOPY_RADIUS >= bounds.min_x && self.root_x - TREE_CANOPY_RADIUS
            <= bounds.max_x && self.root_z + TREE_CANOPY_RADIUS >= bounds.min_z && self.root_z
            - TREE_CANOPY_RADIUS <= bounds.max_z && self.max_y() >= bounds.min_y && self.min_y()
            <= bounds.max_y
    }

    /// The block this tree places at a world position, if any.
    pub fn block_at(self, world_x: i64, world_y: i64, world_z: i64) -> (r: Option<BlockId>)
        requires
            self.wf(),
            -0x1000_0000_0000_0000 <= world_x <= 0x1000_0000_0000_0000,
            -0x1000_0000_0000_0000 <= world_y <= 0x1000_0000_0000_0000,
            -0x1000_0000_0000_0000 <= world_z <= 0x1000_0000_0000_0000,
        ensures
            match r {
                Some(block) => self.spec_block(
                    world_x as int,
                    world_y as int,
                    world_z as int,
                ) == Some(block@),
                None => self.spec_block(world_x as int, world_y as int, world_z as int) is None,
            },
    {
        let top = self.trunk_top();
        if world_x == self.root_x && world_z == self.root_z && self.min_y() <= world_y && world_y
            <= top {
            return Some(BlockId::wood());
        }
        let offset_x = world_x - self.root_x;
        let offset_y = world_y - top;
        let offset_z = world_z - self.root_z;
        if -TREE_CANOPY_RADIUS <= offset_x && offset_x <= TREE_CANOPY_RADIUS && -2 <= offset_y
            && offset_y <= 1 && -TREE_CANOPY_RADIUS <= offset_z && offset_z <= TREE_CANOPY_RADIUS {
            let ax = if offset_x < 0 {
                -offset_x
            } else {
                offset_x
            };
            let ay = if offset_y < 0 {
                -offset_y
            } else {
                offset_y
            };
            let az = if offset_z < 0 {
                -offset_z
            } else {
                offset_z
            };
            if ax + az + ay / 2 <= 3 {
                return Some(BlockId::leaves());
            }
        }
        None
    }

    /// Paints the tree into `chunk`, which spans `bounds`; leaves never replace
    /// terrain and trunks only replace air, leaves and other trunks.
    pub fn paint(self, chunk: &mut Chunk, bounds: ChunkWorldBounds)
        requires
            self.wf(),
            -0x0100_0000_0000_0000 <= bounds.min_x <= 0x0100_0000_0000_0000,
            -0x0100_0000_0000_0000 <= bounds.min_y <= 0x0100_0000_0000_0000,
            -0x0100_0000_0000_0000 <= bounds.min_z <= 0x0100_0000_0000_0000,
        ensures
            final(chunk)@.blocks.len() == CHUNK_VOLUME,
            forall|i: int|
                0 <= i < CHUNK_VOLUME ==> (#[trigger] final(chunk)@.blocks[i])@ == painted(
                    old(chunk)@.blocks[i]@,
                    self.spec_block(
                        bounds.min_x + i % 16,
                        bounds.min_y + i / 256,
                        bounds.min_z + (i / 16) % 16,
                    ),
                ),
            final(chunk)@.dirty == (old(chunk)@.dirty || final(chunk)@.blocks != old(chunk)@.blocks),
    {
        proof {
            chunk.lemma_volume();
        }
        let mut i: usize = 0;
        while i < CHUNK_VOLUME
            invariant
                self.wf(),
                i <= CHUNK_VOLUME,
                -0x0100_0000_0000_0000 <= bounds.min_x <= 0x0100_0000_0000_0000,
                -0x0100_0000_0000_0000 <= bounds.min_y <= 0x0100_0000_0000_0000,
                -0x0100_0000_0000_0000 <= bounds.min_z <= 0x0100_0000_0000_0000,
                chunk@.blocks.len() == CHUNK_VOLUME,
                old(chunk)@.blocks.len() == CHUNK_VOLUME,
                forall|k: int|
                    0 <= k < i ==> (#[trigger] chunk@.blocks[k])@ == painted(
                        old(chunk)@.blocks[k]@,
                        self.spec_block(
                            bounds.min_x + k % 16,
                            bounds.min_y + k / 256,
                            bounds.min_z + (k / 16) % 16,
                        ),
                    ),
                forall|k: int| i <= k < CHUNK_VOLUME ==> #[trigger] chunk@.blocks[k] == old(chunk)@.blocks[k],
                chunk@.dirty == (old(chunk)@.dirty || exists|k: int|
                    0 <= k < i && #[trigger] chunk@.blocks[k] != old(chunk)@.blocks[k]),
            decreases CHUNK_VOLUME - i,
        {
            let x = i % 16;
            let z = (i / 16) % 16;
            let y = i / 256;
            let ghost before = chunk@;
            if let Some(local) = LocalBlockPos::checked(x, y, z) {
                assert(local_index(x as int, y as int, z as int) == i);
                if let Some(block) = self.block_at(
                    bounds.min_x + x as i64,
                    bounds.min_y + y as i64,
                    bounds.min_z + z as i64,
                ) {
                    let current = chunk.get_local(local);
                    let air = BlockId::air();
                    let leaves = BlockId::leaves();
                    let wood = BlockId::wood();
                    let replace = if block == leaves {
                        current == air || current == leaves
                    } else if block == wood {
                        current == air || current == leaves || current == wood
                    } else {
                        false
                    };
                    proof {
                        BlockId::lemma_view_injective(block, leaves);
                        BlockId::lemma_view_injective(block, wood);
                        BlockId::lemma_view_injective(current, air);
                        BlockId::lemma_view_injective(current, leaves);
                        BlockId::lemma_view_injective(current, wood);
                    }
                    if replace {
                        chunk.set_local(local, block);
                    }
                }
            }
            proof {
                assert forall|k: int| 0 <= k < i + 1 implies (#[trigger] chunk@.blocks[k])@ == painted(
                    old(chunk)@.blocks[k]@,
                    self.spec_block(
                        bounds.min_x + k % 16,
                        bounds.min_y + k / 256,
                        bounds.min_z + (k / 16) % 16,
                    ),
                ) by {
                    if k < i {
                        assert(chunk@.blocks[k] == before.blocks[k]);
                    }
                }
                assert(before.blocks[i as int] == old(chunk)@.blocks[i as int]);
                assert(chunk@.dirty == (before.dirty || chunk@.blocks[i as int] != before.blocks[
                    i as int]));
                assert forall|k: int| 0 <= k < CHUNK_VOLUME && k != i implies #[trigger] chunk@.blocks[k]
                    == before.blocks[k] by {}
                if exists|k: int| 0 <= k < i + 1 && #[trigger] chunk@.blocks[k] != old(chunk)@.blocks[k] {
                    let k = choose|k: int|
                        0 <= k < i + 1 && #[trigger] chunk@.blocks[k] != old(chunk)@.blocks[k];
                    if k < i {
                        assert(before.blocks[k] != old(chunk)@.blocks[k]);
                    }
                }
                if exists|k: int| 0 <= k < i && #[trigger] before.blocks[k] != old(chunk)@.blocks[k] {
                    let k = choose|k: int|
                        0 <= k < i && #[trigger] before.blocks[k] != old(chunk)@.blocks[k];
                    assert(chunk@.blocks[k] != old(chunk)@.blocks[k]);
                }
                if chunk@.blocks[i as int] != before.blocks[i as int] {
                    assert(chunk@.blocks[i as int] != old(chunk)@.blocks[i as int]);
                }
            }
            i += 1;
        }
        proof {
            if chunk@.blocks != old(chunk)@.blocks {
                assert(!(chunk@.blocks =~= old(chunk)@.blocks));
            }
        }
    }
}

/// Trunk height of the tree rooted at `(x, z)`: four to six blocks.
pub fn tree_height(seed: u64, x: i64, z: i64) -> (r: i32)
    ensures
        r == TREE_MIN_HEIGHT + spec_hash_2d(seed ^ TREE_HEIGHT_SALT, x, z) % 3,
        TREE_MIN_HEIGHT <= r <= TREE_MAX_HEIGHT,
{
    let roll = hash_2d(seed ^ TREE_HEIGHT_SALT, x, z) % 3;
    TREE_MIN_HEIGHT + roll as i32
}

/// The block left at a world position after painting `trees` in order over `current`.
pub open spec fn painted_by_trees(current: nat, trees: Seq<TreeFeature>, x: int, y: int, z: int) -> nat
    decreases trees.len(),
{
    if trees.len() == 0 {
        current
    } else {
        painted(
            painted_by_trees(current, trees.drop_last(), x, y, z),
            trees.last().spec_block(x, y, z),
        )
    }
}

/// A tree whose bounding box misses the chunk places nothing in it.
proof fn lemma_missed_chunk_unpainted(tree: TreeFeature, bounds: ChunkWorldBounds, i: int)
    requires
        0 <= i < CHUNK_VOLUME,
        !(tree.root_x + 2 >= bounds.min_x && tree.root_x - 2 <= bounds.max_x && tree.root_z + 2
            >= bounds.min_z && tree.root_z - 2 <= bounds.max_z && tree.spec_trunk_top() + 1
            >= bounds.min_y && tree.surface_y + 1 <= bounds.max_y),
        bounds.wf(),
        tree.wf(),
    ensures
        tree.spec_block(bounds.min_x + i % 16, bounds.min_y + i / 256, bounds.min_z + (i / 16) % 16)
            is None,
{
    assert(0 <= i % 16 < 16 && 0 <= i / 256 < 16 && 0 <= (i / 16) % 16 < 16);
}

/// Paints every tree reaching the chunk at `position`, in the order given.
/// The trees are found by sampling the biome of each candidate root column.
pub fn paint_trees(chunk: &mut Chunk, position: ChunkPos, trees: &[TreeFeature])
    requires
        forall|t: int| 0 <= t < trees@.len() ==> (#[trigger] trees@[t]).wf(),
    ensures
        final(chunk)@.blocks.len() == CHUNK_VOLUME,
        forall|i: int|
            0 <= i < CHUNK_VOLUME ==> (#[trigger] final(chunk)@.blocks[i])@ == painted_by_trees(
                old(chunk)@.blocks[i]@,
                trees@,
                position.x * 16 + i % 16,
                position.y * 16 + i / 256,
                position.z * 16 + (i / 16) % 16,
            ),
{
    proof {
        chunk.lemma_volume();
    }
    let bounds = ChunkWorldBounds::new(position);
    let mut t: usize = 0;
    while t < trees.len()
        invariant
            t <= trees@.len(),
            bounds == ChunkWorldBounds::spec_new(position),
            bounds.wf(),
            forall|u: int| 0 <= u < trees@.len() ==> (#[trigger] trees@[u]).wf(),
            chunk@.blocks.len() == CHUNK_VOLUME,
            old(chunk)@.blocks.len() == CHUNK_VOLUME,
            forall|i: int|
                0 <= i < CHUNK_VOLUME ==> (#[trigger] chunk@.blocks[i])@ == painted_by_trees(
                    old(chunk)@.blocks[i]@,
                    trees@.take(t as int),
                    position.x * 16 + i % 16,
                    position.y * 16 + i / 256,
                    position.z * 16 + (i / 16) % 16,
                ),
        decreases trees@.len() - t,
    {
        let tree = trees[t];
        let ghost before = chunk@;
        if tree.intersects(bounds) {
            tree.paint(chunk, bounds);
        }
        proof {
            assert(trees@.take(t + 1).drop_last() =~= trees@.take(t as int));
            assert(trees@.take(t + 1).last() == tree);
            assert forall|i: int| 0 <= i < CHUNK_VOLUME implies (#[trigger] chunk@.blocks[i])@
                == painted_by_trees(
                old(chunk)@.blocks[i]@,
                trees@.take(t + 1),
                position.x * 16 + i % 16,
                position.y * 16 + i / 256,
                position.z * 16 + (i / 16) % 16,
            ) by {
                if !tree.intersects_spec(bounds) {
                    lemma_missed_chunk_unpainted(tree, bounds, i);
                }
                assert(trees@[t as int] == tree);
                assert(before.blocks[i]@ == painted_by_trees(
                    old(chunk)@.blocks[i]@,
                    trees@.take(t as int),
                    position.x * 16 + i % 16,
                    position.y * 16 + i / 256,
                    position.z * 16 + (i / 16) % 16,
                ));
            }
        }
        t += 1;
    }
    assert(trees@.take(trees@.len() as int) =~= trees@);
}

/// Heights of the terrain in the five-by-five block of columns around a tree
/// root let the tree stand: the three-by-three block under the trunk lies
/// within one block of the root's surface, and no column of the wider block
/// rises more than one block above it, so the canopy stays out of cliffs.
/// `heights[dz + 2][dx + 2]` is the surface of column `(dx, dz)`.
pub open spec fn spec_ground_supports_tree(heights: Seq<Seq<i32>>, surface_y: i32) -> bool {
    forall|dz: int, dx: int|
        -2 <= dz <= 2 && -2 <= dx <= 2 ==> {
            let h = #[trigger] heights[dz + 2][dx + 2];
            &&& !(-1 <= dx <= 1 && -1 <= dz <= 1 && (h - surface_y > 1 || surface_y - h > 1))
            &&& h <= surface_y + 1
        }
}

pub fn ground_supports_tree(heights: &[[i32; 5]; 5], surface_y: i32) -> (r: bool)
    ensures
        r == spec_ground_supports_tree(heights@.map_values(|row: [i32; 5]| row@), surface_y),
{
    let ghost grid = heights@.map_values(|row: [i32; 5]| row@);
    let mut z: usize = 0;
    while z < 5
        invariant
            z <= 5,
            grid == heights@.map_values(|row: [i32; 5]| row@),
            forall|dz: int, dx: int|
                -2 <= dz < z - 2 && -2 <= dx <= 2 ==> {
                    let h = #[trigger] grid[dz + 2][dx + 2];
                    &&& !(-1 <= dx <= 1 && -1 <= dz <= 1 && (h - surface_y > 1 || surface_y - h > 1))
                    &&& h <= surface_y + 1
                },
        decreases 5 - z,
    {
        let mut x: usize = 0;
        while x < 5
            invariant
                z < 5,
                x <= 5,
                grid == heights@.map_values(|row: [i32; 5]| row@),
                forall|dz: int, dx: int|
                    -2 <= dz < z - 2 && -2 <= dx <= 2 ==> {
                        let h = #[trigger] grid[dz + 2][dx + 2];
                        &&& !(-1 <= dx <= 1 && -1 <= dz <= 1 && (h - surface_y > 1 || surface_y - h
                            > 1))
                        &&& h <= surface_y + 1
                    },
                forall|dx: int|
                    -2 <= dx < x - 2 ==> {
                        let h = #[trigger] grid[z as int][dx + 2];
                        &&& !(-1 <= dx <= 1 && -1 <= z - 2 <= 1 && (h - surface_y > 1 || surface_y
                            - h > 1))
                        &&& h <= surface_y + 1
                    },
            decreases 5 - x,
        {
            let h = heights[z][x];
            assert(grid[z as int][x as int] == h);
            let inner = 1 <= x && x <= 3 && 1 <= z && z <= 3;
            let far = (h as i64) - (surface_y as i64);
            if (inner && (far > 1 || far < -1)) || (h as i64) > (surface_y as i64) + 1 {
                assert(!spec_ground_supports_tree(grid, surface_y)) by {
                    let dz = z - 2;
                    let dx = x - 2;
                    assert(grid[dz + 2][dx + 2] == h);
                }
                return false;
            }
            x = x + 1;
        }
        z = z + 1;
    }
    true
}

/// A tree's shape, at every position: wood on the trunk column from just above
/// the surface up to the trunk top; elsewhere leaves wherever the position is
/// at most two blocks from the trunk along x and along z, from two below the
/// trunk top to one above it, and |dx| + |dz| + |dy| / 2 is at most three
/// (dy measured from the trunk top); nothing anywhere else.
pub proof fn lemma_tree_shape(tree: TreeFeature, x: int, y: int, z: int)
    ensures
        ({
            let top = tree.surface_y + tree.trunk_height;
            let dx = x - tree.root_x;
            let dy = y - top;
            let dz = z - tree.root_z;
            let ax = if dx < 0 {
                -dx
            } else {
                dx
            };
            let ay = if dy < 0 {
                -dy
            } else {
                dy
            };
            let az = if dz < 0 {
                -dz
            } else {
                dz
            };
            let on_trunk = dx == 0 && dz == 0 && tree.surface_y < y <= top;
            &&& on_trunk ==> tree.spec_block(x, y, z) == Some(WOOD_RAW as nat)
            &&& !on_trunk && ax <= 2 && az <= 2 && -2 <= dy <= 1 && ax + az + ay / 2 <= 3
                ==> tree.spec_block(x, y, z) == Some(LEAVES_RAW as nat)
            &&& !on_trunk && !(ax <= 2 && az <= 2 && -2 <= dy <= 1 && ax + az + ay / 2 <= 3)
                ==> tree.spec_block(x, y, z) is None
        }),
{
}

} // verus!
