//! Coordinate types and lossless conversions for the voxel world.

use vstd::prelude::*;

verus! {

pub const CHUNK_WIDTH: usize = 16;
pub const CHUNK_HEIGHT: usize = 16;
pub const CHUNK_DEPTH: usize = 16;
pub const CHUNK_VOLUME: usize = CHUNK_WIDTH * CHUNK_HEIGHT * CHUNK_DEPTH;
pub const CHUNK_EDGE_LENGTH: usize = CHUNK_WIDTH;

pub const CHUNK_WIDTH_I32: i32 = 16;
pub const CHUNK_HEIGHT_I32: i32 = 16;
pub const CHUNK_DEPTH_I32: i32 = 16;

/// Dense chunk index of a local coordinate: X fastest, then Z, then Y.
pub open spec fn local_index(x: int, y: int, z: int) -> int {
    x + z * CHUNK_WIDTH + y * (CHUNK_WIDTH * CHUNK_DEPTH)
}

/// Whether a local coordinate lies inside one chunk.
pub open spec fn local_in_bounds(x: int, y: int, z: int) -> bool {
    0 <= x < CHUNK_WIDTH && 0 <= y < CHUNK_HEIGHT && 0 <= z < CHUNK_DEPTH
}

/// Integer position of a block in the unbounded logical world grid.
#[derive(Clone, Copy, Debug, Default, PartialEq, Eq, Structural, Hash, PartialOrd, Ord)]
pub struct WorldBlockPos {
    pub x: i32,
    pub y: i32,
    pub z: i32,
}

/// Integer position of a chunk in the world chunk grid.
#[derive(Clone, Copy, Debug, Default, PartialEq, Eq, Structural, Hash, PartialOrd, Ord)]
pub struct ChunkPos {
    pub x: i32,
    pub y: i32,
    pub z: i32,
}

/// Valid block coordinate inside one chunk.
#[derive(Clone, Copy, Debug, PartialEq, Eq, Structural, Hash, PartialOrd, Ord)]
pub struct LocalBlockPos {
    x: u8,
    y: u8,
    z: u8,
}

impl WorldBlockPos {
    pub fn new(x: i32, y: i32, z: i32) -> (r: Self)
        ensures
            r == (WorldBlockPos { x, y, z }),
    {
        Self { x, y, z }
    }

    /// The chunk containing this block: each axis divided by the chunk size,
    /// rounding toward negative infinity.
    pub open spec fn spec_chunk_pos(self) -> ChunkPos {
        ChunkPos {
            x: (self.x / CHUNK_WIDTH_I32) as i32,
            y: (self.y / CHUNK_HEIGHT_I32) as i32,
            z: (self.z / CHUNK_DEPTH_I32) as i32,
        }
    }

    /// The non-negative offset of this block inside its chunk.
    pub open spec fn spec_local(self) -> (int, int, int) {
        (
            self.x as int % CHUNK_WIDTH as int,
            self.y as int % CHUNK_HEIGHT as int,
            self.z as int % CHUNK_DEPTH as int,
        )
    }

    /// Returns the chunk containing this world block.
    pub fn chunk_pos(self) -> (r: ChunkPos)
        ensures
            r == self.spec_chunk_pos(),
    {
        ChunkPos::new(
            self.x.checked_div_euclid(CHUNK_WIDTH_I32).unwrap(),
            self.y.checked_div_euclid(CHUNK_HEIGHT_I32).unwrap(),
            self.z.checked_div_euclid(CHUNK_DEPTH_I32).unwrap(),
        )
    }

    /// Returns this block's non-negative coordinate inside its chunk.
    pub fn local_pos(self) -> (r: LocalBlockPos)
        ensures
            r@ == self.spec_local(),
    {
        let x = self.x.checked_rem_euclid(CHUNK_WIDTH_I32).unwrap();
        let y = self.y.checked_rem_euclid(CHUNK_HEIGHT_I32).unwrap();
        let z = self.z.checked_rem_euclid(CHUNK_DEPTH_I32).unwrap();
        LocalBlockPos { x: x as u8, y: y as u8, z: z as u8 }
    }

    pub fn split(self) -> (r: (ChunkPos, LocalBlockPos))
        ensures
            r.0 == self.spec_chunk_pos(),
            r.1@ == self.spec_local(),
    {
        (self.chunk_pos(), self.local_pos())
    }
}

impl ChunkPos {
    pub fn new(x: i32, y: i32, z: i32) -> (r: Self)
        ensures
            r == (ChunkPos { x, y, z }),
    {
        Self { x, y, z }
    }

    /// World coordinates of the block at `local` inside this chunk.
    pub open spec fn spec_world_coordinates(self, local: (int, int, int)) -> (int, int, int) {
        (
            self.x * CHUNK_WIDTH + local.0,
            self.y * CHUNK_HEIGHT + local.1,
            self.z * CHUNK_DEPTH + local.2,
        )
    }

    /// Whether every world coordinate of this chunk's blocks fits in an `i32`.
    pub open spec fn blocks_fit_i32(self) -> bool {
        &&& i32::MIN <= self.x * CHUNK_WIDTH
        &&& self.x * CHUNK_WIDTH + (CHUNK_WIDTH - 1) <= i32::MAX
        &&& i32::MIN <= self.y * CHUNK_HEIGHT
        &&& self.y * CHUNK_HEIGHT + (CHUNK_HEIGHT - 1) <= i32::MAX
        &&& i32::MIN <= self.z * CHUNK_DEPTH
        &&& self.z * CHUNK_DEPTH + (CHUNK_DEPTH - 1) <= i32::MAX
    }

    /// Recombines a chunk coordinate and a valid local coordinate.
    pub fn world_block(self, local: LocalBlockPos) -> (r: WorldBlockPos)
        requires
            self.blocks_fit_i32(),
        ensures
            (r.x as int, r.y as int, r.z as int) == self.spec_world_coordinates(local@),
    {
        let lx = local.x() as i32;
        let ly = local.y() as i32;
        let lz = local.z() as i32;
        WorldBlockPos::new(
            self.x * CHUNK_WIDTH_I32 + lx,
            self.y * CHUNK_HEIGHT_I32 + ly,
            self.z * CHUNK_DEPTH_I32 + lz,
        )
    }
}

impl View for LocalBlockPos {
    type V = (int, int, int);

    /// Each component lies in `0..16`.
    closed spec fn view(&self) -> (int, int, int) {
        (
            self.x as int % CHUNK_WIDTH as int,
            self.y as int % CHUNK_HEIGHT as int,
            self.z as int % CHUNK_DEPTH as int,
        )
    }
}

impl LocalBlockPos {
    #[verifier::type_invariant]
    spec fn inv(self) -> bool {
        self.x < CHUNK_WIDTH && self.y < CHUNK_HEIGHT && self.z < CHUNK_DEPTH
    }

    pub fn new(x: usize, y: usize, z: usize) -> (r: Result<Self, LocalBlockPosError>)
        ensures
            match r {
                Ok(position) => local_in_bounds(x as int, y as int, z as int) && position@ == (
                    x as int,
                    y as int,
                    z as int,
                ),
                Err(error) => !local_in_bounds(x as int, y as int, z as int) && error == (
                LocalBlockPosError { x, y, z }),
            },
    {
        match Self::checked(x, y, z) {
            Some(position) => Ok(position),
            None => Err(LocalBlockPosError { x, y, z }),
        }
    }

    pub fn checked(x: usize, y: usize, z: usize) -> (r: Option<Self>)
        ensures
            match r {
                Some(position) => local_in_bounds(x as int, y as int, z as int) && position@ == (
                    x as int,
                    y as int,
                    z as int,
                ),
                None => !local_in_bounds(x as int, y as int, z as int),
            },
    {
        if x < CHUNK_WIDTH && y < CHUNK_HEIGHT && z < CHUNK_DEPTH {
            Some(Self { x: x as u8, y: y as u8, z: z as u8 })
        } else {
            None
        }
    }

    pub fn x(self) -> (r: usize)
        ensures
            r == self@.0,
            r < CHUNK_WIDTH,
    {
        proof {
            use_type_invariant(&self);
        }
        self.x as usize
    }

    pub fn y(self) -> (r: usize)
        ensures
            r == self@.1,
            r < CHUNK_HEIGHT,
    {
        proof {
            use_type_invariant(&self);
        }
        self.y as usize
    }

    pub fn z(self) -> (r: usize)
        ensures
            r == self@.2,
            r < CHUNK_DEPTH,
    {
        proof {
            use_type_invariant(&self);
        }
        self.z as usize
    }

    /// Dense chunk index with X fastest, then Z, then Y.
    pub fn index(self) -> (r: usize)
        ensures
            r == local_index(self@.0, self@.1, self@.2),
            r < CHUNK_VOLUME,
    {
        self.x() + self.z() * CHUNK_WIDTH + self.y() * CHUNK_WIDTH * CHUNK_DEPTH
    }

    /// Two local positions are equal exactly when their coordinates are.
    pub fn same_position(self, other: Self) -> (r: bool)
        ensures
            r == (self@ == other@),
            r == (self == other),
    {
        proof {
            use_type_invariant(&self);
            use_type_invariant(&other);
        }
        self.x == other.x && self.y == other.y && self.z == other.z
    }
}

impl Default for LocalBlockPos {
    fn default() -> (r: Self)
        ensures
            r@ == (0int, 0int, 0int),
    {
        Self { x: 0, y: 0, z: 0 }
    }
}

impl From<WorldBlockPos> for ChunkPos {
    fn from(world: WorldBlockPos) -> (r: Self)
        ensures
            r == world.spec_chunk_pos(),
    {
        world.chunk_pos()
    }
}

impl vstd::std_specs::convert::FromSpecImpl<WorldBlockPos> for ChunkPos {
    open spec fn obeys_from_spec() -> bool {
        true
    }

    open spec fn from_spec(world: WorldBlockPos) -> ChunkPos {
        world.spec_chunk_pos()
    }
}

impl From<WorldBlockPos> for LocalBlockPos {
    fn from(world: WorldBlockPos) -> (r: Self)
        ensures
            r@ == world.spec_local(),
    {
        world.local_pos()
    }
}

impl vstd::std_specs::convert::FromSpecImpl<WorldBlockPos> for LocalBlockPos {
    open spec fn obeys_from_spec() -> bool {
        false
    }

    closed spec fn from_spec(world: WorldBlockPos) -> LocalBlockPos {
        arbitrary()
    }
}

impl From<(ChunkPos, LocalBlockPos)> for WorldBlockPos {
    /// Recombines a chunk and a local coordinate.
    ///
    /// Positions whose world coordinates leave the `i32` range wrap around,
    /// as the arithmetic of an optimized build does.
    fn from(parts: (ChunkPos, LocalBlockPos)) -> (r: Self)
        ensures
            parts.0.blocks_fit_i32() ==> (r.x as int, r.y as int, r.z as int)
                == parts.0.spec_world_coordinates(parts.1@),
    {
        let (chunk, local) = parts;
        let lx = local.x() as i32;
        let ly = local.y() as i32;
        let lz = local.z() as i32;
        if chunk.x >= -134217728 && chunk.x <= 134217727 && chunk.y >= -134217728 && chunk.y
            <= 134217727 && chunk.z >= -134217728 && chunk.z <= 134217727 {
            chunk.world_block(local)
        } else {
            WorldBlockPos::new(
                chunk.x.wrapping_mul(CHUNK_WIDTH_I32).wrapping_add(lx),
                chunk.y.wrapping_mul(CHUNK_HEIGHT_I32).wrapping_add(ly),
                chunk.z.wrapping_mul(CHUNK_DEPTH_I32).wrapping_add(lz),
            )
        }
    }
}

impl vstd::std_specs::convert::FromSpecImpl<(ChunkPos, LocalBlockPos)> for WorldBlockPos {
    open spec fn obeys_from_spec() -> bool {
        false
    }

    closed spec fn from_spec(parts: (ChunkPos, LocalBlockPos)) -> WorldBlockPos {
        arbitrary()
    }
}

/// Coordinates supplied for a local block were outside the chunk.
#[derive(Clone, Copy, Debug, PartialEq, Eq, Structural)]
pub struct LocalBlockPosError {
    pub x: usize,
    pub y: usize,
    pub z: usize,
}

/// Splitting a world position and recombining the parts gives back the
/// same position.
pub proof fn lemma_split_then_recombine(world: WorldBlockPos)
    ensures
        world.spec_chunk_pos().spec_world_coordinates(world.spec_local()) == (
            world.x as int,
            world.y as int,
            world.z as int,
        ),
        world.spec_chunk_pos().blocks_fit_i32(),
{
}

/// Recombining a chunk and an in-bounds local coordinate and splitting the
/// result gives back the chunk and the local coordinate.
pub proof fn lemma_recombine_then_split(chunk: ChunkPos, local: (int, int, int))
    requires
        local_in_bounds(local.0, local.1, local.2),
        chunk.blocks_fit_i32(),
    ensures
        ({
            let (x, y, z) = chunk.spec_world_coordinates(local);
            let world = WorldBlockPos { x: x as i32, y: y as i32, z: z as i32 };
            world.spec_chunk_pos() == chunk && world.spec_local() == local
        }),
{
    let (x, y, z) = chunk.spec_world_coordinates(local);
    vstd::arithmetic::div_mod::lemma_fundamental_div_mod_converse(x, 16, chunk.x as int, local.0);
    vstd::arithmetic::div_mod::lemma_fundamental_div_mod_converse(y, 16, chunk.y as int, local.1);
    vstd::arithmetic::div_mod::lemma_fundamental_div_mod_converse(z, 16, chunk.z as int, local.2);
}

/// Every in-bounds local coordinate has a distinct dense index below the
/// chunk volume.
pub proof fn lemma_local_index_bijective(a: (int, int, int), b: (int, int, int))
    requires
        local_in_bounds(a.0, a.1, a.2),
        local_in_bounds(b.0, b.1, b.2),
    ensures
        0 <= local_index(a.0, a.1, a.2) < CHUNK_VOLUME,
        local_index(a.0, a.1, a.2) == local_index(b.0, b.1, b.2) <==> a == b,
{
}

} // verus!
