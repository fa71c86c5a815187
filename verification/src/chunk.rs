//! Chunk voxel data and the in-memory store of loaded chunks.

use std::collections::HashMap;
use std::collections::hash_map::Entry;

use vstd::prelude::*;

use crate::block::BlockId;
use crate::block::id::AIR_RAW;
use crate::coordinates::{
    local_in_bounds, local_index, ChunkPos, LocalBlockPos, WorldBlockPos, CHUNK_DEPTH,
    CHUNK_HEIGHT, CHUNK_VOLUME, CHUNK_WIDTH,
};

verus! {

broadcast use vstd::std_specs::hash::group_hash_axioms;

/// Abstract contents of a chunk: its dense voxels, whether its mesh is stale,
/// and its mesh revision, which every change to the voxels or to a visible
/// boundary advances.
pub struct ChunkView {
    pub blocks: Seq<BlockId>,
    pub dirty: bool,
    pub revision: u64,
}

/// The mesh revision after one more change; it wraps after `u64::MAX`.
pub open spec fn next_revision(revision: u64) -> u64 {
    if revision == u64::MAX {
        0
    } else {
        (revision + 1) as u64
    }
}

/// The revision after a change that may leave the voxels as they were.
pub open spec fn revised_if(revision: u64, changed: bool) -> u64 {
    if changed {
        next_revision(revision)
    } else {
        revision
    }
}

/// Dense block data belonging to one loaded chunk.
///
/// Rendering entities and meshes deliberately live outside this type.
#[derive(Clone, Debug)]
pub struct Chunk {
    blocks: Box<[BlockId; CHUNK_VOLUME]>,
    dirty: bool,
    revision: u64,
}

impl View for Chunk {
    type V = ChunkView;

    closed spec fn view(&self) -> ChunkView {
        ChunkView { blocks: (*self.blocks)@, dirty: self.dirty, revision: self.revision }
    }
}

/// The voxels after writing `block` at `index`.
pub open spec fn with_block(blocks: Seq<BlockId>, index: int, block: BlockId) -> Seq<BlockId> {
    blocks.update(index, block)
}

impl Chunk {
    /// Every chunk holds exactly one chunk's worth of voxels.
    pub proof fn lemma_volume(&self)
        ensures
            self@.blocks.len() == CHUNK_VOLUME,
    {
    }

    /// Creates a chunk filled with one block type and awaiting its first mesh.
    pub fn new(fill: BlockId) -> (r: Self)
        ensures
            r@.blocks.len() == CHUNK_VOLUME,
            forall|i: int| 0 <= i < CHUNK_VOLUME ==> #[trigger] r@.blocks[i] == fill,
            r@.dirty,
            r@.revision == 0,
    {
        let blocks: [BlockId; CHUNK_VOLUME] = [fill; CHUNK_VOLUME];
        Self { blocks: Box::new(blocks), dirty: true, revision: 0 }
    }

    /// Rebuilds a chunk from stored voxels, which must hold exactly one chunk.
    /// On a length mismatch the offending length is returned.
    pub fn from_saved_blocks(blocks: Vec<BlockId>) -> (r: Result<Self, usize>)
        ensures
            match r {
                Ok(chunk) => blocks@.len() == CHUNK_VOLUME && chunk@.blocks == blocks@
                    && chunk@.dirty && chunk@.revision == 0,
                Err(length) => blocks@.len() != CHUNK_VOLUME && length == blocks@.len(),
            },
    {
        if blocks.len() != CHUNK_VOLUME {
            return Err(blocks.len());
        }
        let mut chunk = Self::new(BlockId::air());
        let mut i: usize = 0;
        while i < CHUNK_VOLUME
            invariant
                blocks@.len() == CHUNK_VOLUME,
                i <= CHUNK_VOLUME,
                chunk@.blocks.len() == CHUNK_VOLUME,
                forall|j: int| 0 <= j < i ==> #[trigger] chunk@.blocks[j] == blocks@[j],
                chunk@.dirty,
                chunk@.revision == 0,
            decreases CHUNK_VOLUME - i,
        {
            chunk.blocks[i] = blocks[i];
            i += 1;
        }
        assert(chunk@.blocks =~= blocks@);
        Ok(chunk)
    }

    /// Converts local coordinates to a dense-array index.
    ///
    /// X changes fastest, followed by Z, while Y selects horizontal layers.
    pub fn xyz_to_index(x: usize, y: usize, z: usize) -> (r: Option<usize>)
        ensures
            match r {
                Some(index) => local_in_bounds(x as int, y as int, z as int) && index
                    == local_index(x as int, y as int, z as int),
                None => !local_in_bounds(x as int, y as int, z as int),
            },
    {
        match LocalBlockPos::checked(x, y, z) {
            Some(position) => Some(position.index()),
            None => None,
        }
    }

    pub fn get_block(&self, x: usize, y: usize, z: usize) -> (r: Option<BlockId>)
        ensures
            match r {
                Some(block) => local_in_bounds(x as int, y as int, z as int) && block
                    == self@.blocks[local_index(x as int, y as int, z as int)],
                None => !local_in_bounds(x as int, y as int, z as int),
            },
    {
        match Self::xyz_to_index(x, y, z) {
            Some(index) => Some(self.blocks[index]),
            None => None,
        }
    }

    pub fn get_local(&self, position: LocalBlockPos) -> (r: BlockId)
        ensures
            r == self@.blocks[local_index(position@.0, position@.1, position@.2)],
    {
        self.blocks[position.index()]
    }

    fn replace_at(&mut self, index: usize, block: BlockId) -> (previous: BlockId)
        requires
            index < CHUNK_VOLUME,
        ensures
            previous == old(self)@.blocks[index as int],
            final(self)@.blocks == with_block(old(self)@.blocks, index as int, block),
            final(self)@.dirty == (old(self)@.dirty || previous != block),
            final(self)@.revision == revised_if(old(self)@.revision, previous != block),
    {
        let previous = self.blocks[index];
        if previous != block {
            self.blocks[index] = block;
            self.dirty = true;
            self.revision = if self.revision == u64::MAX {
                0
            } else {
                self.revision + 1
            };
        } else {
            assert(self@.blocks =~= with_block(old(self)@.blocks, index as int, block));
        }
        previous
    }

    /// Replaces a block and returns its previous ID.
    ///
    /// The chunk becomes dirty only when the stored value actually changes.
    pub fn set_block(&mut self, x: usize, y: usize, z: usize, block: BlockId) -> (r: Result<
        BlockId,
        ChunkBoundsError,
    >)
        ensures
            match r {
                Ok(previous) => {
                    let index = local_index(x as int, y as int, z as int);
                    &&& local_in_bounds(x as int, y as int, z as int)
                    &&& previous == old(self)@.blocks[index]
                    &&& final(self)@.blocks == with_block(old(self)@.blocks, index, block)
                    &&& final(self)@.dirty == (old(self)@.dirty || previous != block)
                    &&& final(self)@.revision == revised_if(old(self)@.revision, previous != block)
                },
                Err(error) => !local_in_bounds(x as int, y as int, z as int) && error == (
                ChunkBoundsError { x, y, z }) && final(self)@ == old(self)@,
            },
    {
        match Self::xyz_to_index(x, y, z) {
            Some(index) => Ok(self.replace_at(index, block)),
            None => Err(ChunkBoundsError { x, y, z }),
        }
    }

    pub fn set_local(&mut self, position: LocalBlockPos, block: BlockId) -> (previous: BlockId)
        ensures
            ({
                let index = local_index(position@.0, position@.1, position@.2);
                &&& previous == old(self)@.blocks[index]
                &&& final(self)@.blocks == with_block(old(self)@.blocks, index, block)
                &&& final(self)@.dirty == (old(self)@.dirty || previous != block)
                &&& final(self)@.revision == revised_if(old(self)@.revision, previous != block)
            }),
    {
        self.replace_at(position.index(), block)
    }

    pub fn blocks(&self) -> (r: &[BlockId])
        ensures
            r@ == self@.blocks,
            r@.len() == CHUNK_VOLUME,
    {
        self.blocks.as_slice()
    }

    /// Returns true when this chunk contains no voxel other than air.
    pub fn is_all_air(&self) -> (r: bool)
        ensures
            r == (forall|i: int| 0 <= i < CHUNK_VOLUME ==> (#[trigger] self@.blocks[i])@
                == AIR_RAW),
    {
        let mut i: usize = 0;
        while i < CHUNK_VOLUME
            invariant
                i <= CHUNK_VOLUME,
                forall|j: int| 0 <= j < i ==> (#[trigger] self@.blocks[j])@ == AIR_RAW,
            decreases CHUNK_VOLUME - i,
        {
            if self.blocks[i].as_u16() != AIR_RAW {
                assert(self@.blocks[i as int]@ != AIR_RAW);
                return false;
            }
            i += 1;
        }
        true
    }

    pub fn is_dirty(&self) -> (r: bool)
        ensures
            r == self@.dirty,
    {
        self.dirty
    }

    pub fn mark_clean(&mut self)
        ensures
            final(self)@.blocks == old(self)@.blocks,
            !final(self)@.dirty,
            final(self)@.revision == old(self)@.revision,
    {
        self.dirty = false;
    }

    /// Marks the mesh stale after a change at a visible boundary, advancing the
    /// revision.
    pub fn mark_dirty(&mut self)
        ensures
            final(self)@.blocks == old(self)@.blocks,
            final(self)@.dirty,
            final(self)@.revision == next_revision(old(self)@.revision),
    {
        self.dirty = true;
        self.revision = if self.revision == u64::MAX {
            0
        } else {
            self.revision + 1
        };
    }

    /// The mesh revision: meshes built from an older revision are stale.
    pub fn mesh_revision(&self) -> (r: u64)
        ensures
            r == self@.revision,
    {
        self.revision
    }
}

impl Default for Chunk {
    fn default() -> (r: Self)
        ensures
            r@.blocks.len() == CHUNK_VOLUME,
            forall|i: int| 0 <= i < CHUNK_VOLUME ==> (#[trigger] r@.blocks[i])@ == AIR_RAW,
            r@.dirty,
            r@.revision == 0,
    {
        Self::new(BlockId::air())
    }
}

/// Coordinates supplied to a chunk operation were outside its local bounds.
#[derive(Clone, Copy, Debug, PartialEq, Eq, Structural)]
pub struct ChunkBoundsError {
    pub x: usize,
    pub y: usize,
    pub z: usize,
}

/// A world block operation addressed a chunk that is not currently loaded.
#[derive(Clone, Copy, Debug, PartialEq, Eq, Structural)]
pub struct ChunkNotLoadedError {
    pub chunk_position: ChunkPos,
}

const KEY_OFFSET: i64 = 2147483648;
const KEY_STRIDE_Y: u128 = 4294967296;
const KEY_STRIDE_X: u128 = 18446744073709551616;

/// Distinct hash-table key of each chunk position.
pub open spec fn chunk_key(position: ChunkPos) -> u128 {
    ((position.x + 2147483648) * 18446744073709551616 + (position.y + 2147483648)
        * 4294967296 + (position.z + 2147483648)) as u128
}

/// Position encoded by a hash-table key produced by [`chunk_key`].
pub open spec fn key_position(key: u128) -> ChunkPos {
    ChunkPos {
        x: (key / 18446744073709551616 - 2147483648) as i32,
        y: ((key / 4294967296) % 4294967296 - 2147483648) as i32,
        z: (key % 4294967296 - 2147483648) as i32,
    }
}

pub proof fn lemma_key_round_trip(position: ChunkPos)
    ensures
        key_position(chunk_key(position)) == position,
        0 <= (position.x + 2147483648) * 18446744073709551616 + (position.y + 2147483648)
            * 4294967296 + (position.z + 2147483648) <= u128::MAX,
{
    let a = position.x + 2147483648;
    let b = position.y + 2147483648;
    let c = position.z + 2147483648;
    let k = a * 18446744073709551616 + b * 4294967296 + c;
    let low = b * 4294967296 + c;
    assert(0 <= low < 18446744073709551616);
    vstd::arithmetic::div_mod::lemma_fundamental_div_mod_converse(k, 18446744073709551616, a, low);
    let mid = a * 4294967296 + b;
    assert(k == mid * 4294967296 + c) by (nonlinear_arith)
        requires
            k == a * 18446744073709551616 + b * 4294967296 + c,
            mid == a * 4294967296 + b,
    ;
    vstd::arithmetic::div_mod::lemma_fundamental_div_mod_converse(k, 4294967296, mid, c);
    vstd::arithmetic::div_mod::lemma_fundamental_div_mod_converse(mid, 4294967296, a, b);
}

/// Decoding a position's key gives the position back.
pub broadcast proof fn lemma_key_decodes_position(position: ChunkPos)
    ensures
        key_position(#[trigger] chunk_key(position)) == position,
{
    lemma_key_round_trip(position);
}

pub proof fn lemma_key_injective(p: ChunkPos, q: ChunkPos)
    ensures
        chunk_key(p) == chunk_key(q) <==> p == q,
{
    lemma_key_round_trip(p);
    lemma_key_round_trip(q);
}

pub(crate) fn position_key(position: ChunkPos) -> (r: u128)
    ensures
        r == chunk_key(position),
{
    proof {
        lemma_key_round_trip(position);
    }
    let x = (position.x as i64 + KEY_OFFSET) as u128;
    let y = (position.y as i64 + KEY_OFFSET) as u128;
    let z = (position.z as i64 + KEY_OFFSET) as u128;
    x * KEY_STRIDE_X + y * KEY_STRIDE_Y + z
}

fn key_to_position(key: u128) -> (r: ChunkPos)
    requires
        exists|p: ChunkPos| chunk_key(p) == key,
    ensures
        r == key_position(key),
        chunk_key(r) == key,
{
    proof {
        let p = choose|p: ChunkPos| chunk_key(p) == key;
        lemma_key_round_trip(p);
    }
    let x = (key / KEY_STRIDE_X) as i64 - KEY_OFFSET;
    let y = ((key / KEY_STRIDE_Y) % KEY_STRIDE_Y) as i64 - KEY_OFFSET;
    let z = (key % KEY_STRIDE_Y) as i64 - KEY_OFFSET;
    ChunkPos::new(x as i32, y as i32, z as i32)
}

/// Whether `a` and `b` share a face: they differ by one along exactly one axis.
pub open spec fn face_adjacent(a: ChunkPos, b: ChunkPos) -> bool {
    let dx = b.x - a.x;
    let dy = b.y - a.y;
    let dz = b.z - a.z;
    ||| (dx == 1 || dx == -1) && dy == 0 && dz == 0
    ||| dx == 0 && (dy == 1 || dy == -1) && dz == 0
    ||| dx == 0 && dy == 0 && (dz == 1 || dz == -1)
}

/// Whether a block at `local` inside chunk `center` lies on the face that
/// `center` shares with chunk `other`.
pub open spec fn on_shared_face(center: ChunkPos, local: (int, int, int), other: ChunkPos) -> bool {
    let dx = other.x - center.x;
    let dy = other.y - center.y;
    let dz = other.z - center.z;
    ||| dx == -1 && dy == 0 && dz == 0 && local.0 == 0
    ||| dx == 1 && dy == 0 && dz == 0 && local.0 == CHUNK_WIDTH - 1
    ||| dx == 0 && dy == -1 && dz == 0 && local.1 == 0
    ||| dx == 0 && dy == 1 && dz == 0 && local.1 == CHUNK_HEIGHT - 1
    ||| dx == 0 && dy == 0 && dz == -1 && local.2 == 0
    ||| dx == 0 && dy == 0 && dz == 1 && local.2 == CHUNK_DEPTH - 1
}

/// `chunks` after marking every loaded chunk that satisfies `selected` dirty.
pub open spec fn dirty_where(
    chunks: Map<ChunkPos, ChunkView>,
    selected: spec_fn(ChunkPos) -> bool,
) -> Map<ChunkPos, ChunkView> {
    Map::new(
        |p: ChunkPos| chunks.contains_key(p),
        |p: ChunkPos|
            if selected(p) {
                ChunkView {
                    blocks: chunks[p].blocks,
                    dirty: true,
                    revision: next_revision(chunks[p].revision),
                }
            } else {
                chunks[p]
            },
    )
}

/// The authoritative runtime store for loaded chunks.
#[derive(Debug)]
pub struct ChunkStorage {
    chunks: HashMap<u128, Chunk>,
}

impl View for ChunkStorage {
    type V = Map<ChunkPos, ChunkView>;

    closed spec fn view(&self) -> Map<ChunkPos, ChunkView> {
        Map::new(
            |p: ChunkPos| self.chunks@.contains_key(chunk_key(p)),
            |p: ChunkPos| self.chunks@[chunk_key(p)]@,
        )
    }
}


/// `after` is `before` with the chunks selected by `selected` marked dirty;
/// nothing is loaded, unloaded or otherwise changed.
pub open spec fn marked_dirty(
    before: Map<ChunkPos, ChunkView>,
    after: Map<ChunkPos, ChunkView>,
    selected: spec_fn(ChunkPos) -> bool,
) -> bool {
    &&& forall|q: ChunkPos| #[trigger] after.contains_key(q) == before.contains_key(q)
    &&& forall|q: ChunkPos|
        #[trigger] after.contains_key(q) ==> after[q].blocks == before[q].blocks && after[q].dirty
            == (before[q].dirty || selected(q)) && after[q].revision == revised_if(
            before[q].revision,
            selected(q),
        )
}

/// The chunk next to `position` along one axis, if its coordinate exists.
pub open spec fn spec_neighbor(position: ChunkPos, axis: int, delta: int) -> Option<ChunkPos> {
    let x = if axis == 0 {
        position.x + delta
    } else {
        position.x as int
    };
    let y = if axis == 1 {
        position.y + delta
    } else {
        position.y as int
    };
    let z = if axis == 2 {
        position.z + delta
    } else {
        position.z as int
    };
    if i32::MIN <= x <= i32::MAX && i32::MIN <= y <= i32::MAX && i32::MIN <= z <= i32::MAX {
        Some(ChunkPos { x: x as i32, y: y as i32, z: z as i32 })
    } else {
        None
    }
}

fn neighbor(position: ChunkPos, axis: usize, delta: i32) -> (r: Option<ChunkPos>)
    requires
        axis < 3,
        delta == 1 || delta == -1,
    ensures
        r == spec_neighbor(position, axis as int, delta as int),
{
    let x = position.x as i64 + if axis == 0 {
        delta as i64
    } else {
        0
    };
    let y = position.y as i64 + if axis == 1 {
        delta as i64
    } else {
        0
    };
    let z = position.z as i64 + if axis == 2 {
        delta as i64
    } else {
        0
    };
    if i32::MIN as i64 <= x && x <= i32::MAX as i64 && i32::MIN as i64 <= y && y <= i32::MAX as i64
        && i32::MIN as i64 <= z && z <= i32::MAX as i64 {
        Some(ChunkPos::new(x as i32, y as i32, z as i32))
    } else {
        None
    }
}

/// Every face neighbor of `position`.
pub fn face_neighbors(position: ChunkPos) -> (r: Vec<ChunkPos>)
    ensures
        forall|q: ChunkPos| r@.contains(q) <==> face_adjacent(position, q),
{
    let mut r: Vec<ChunkPos> = Vec::new();
    let mut axis: usize = 0;
    while axis < 3
        invariant
            axis <= 3,
            forall|q: ChunkPos|
                r@.contains(q) <==> (exists|a: int, d: int|
                    0 <= a < axis && (d == 1 || d == -1) && spec_neighbor(position, a, d) == Some(
                        q,
                    )),
        decreases 3 - axis,
    {
        let ghost before = r@;
        if let Some(q) = neighbor(position, axis, -1) {
            r.push(q);
        }
        if let Some(q) = neighbor(position, axis, 1) {
            r.push(q);
        }
        assert forall|q: ChunkPos|
            r@.contains(q) <==> (exists|a: int, d: int|
                0 <= a < axis + 1 && (d == 1 || d == -1) && spec_neighbor(position, a, d) == Some(
                    q,
                )) by {
            if r@.contains(q) {
                if !before.contains(q) {
                    let i = choose|i: int| 0 <= i < r@.len() && r@[i] == q;
                    if spec_neighbor(position, axis as int, -1) == Some(q) {
                        assert(spec_neighbor(position, axis as int, -1) == Some(q));
                    } else {
                        assert(spec_neighbor(position, axis as int, 1) == Some(q));
                    }
                }
            }
            if exists|a: int, d: int|
                0 <= a < axis + 1 && (d == 1 || d == -1) && spec_neighbor(position, a, d) == Some(
                    q,
                ) {
                let (a, d) = choose|a: int, d: int|
                    0 <= a < axis + 1 && (d == 1 || d == -1) && spec_neighbor(position, a, d)
                        == Some(q);
                if a < axis {
                    assert(before.contains(q));
                    let i = choose|i: int| 0 <= i < before.len() && before[i] == q;
                    assert(r@[i] == q);
                } else {
                    assert(r@.contains(q)) by {
                        if d == -1 {
                            if spec_neighbor(position, axis as int, 1) == None::<ChunkPos> {
                                assert(r@[r@.len() - 1] == q);
                            } else {
                                assert(r@[r@.len() - 2] == q);
                            }
                        } else {
                            assert(r@[r@.len() - 1] == q);
                        }
                    }
                }
            }
        }
        axis += 1;
    }
    assert forall|q: ChunkPos| face_adjacent(position, q) implies r@.contains(q) by {
        if q.x - position.x == 1 {
            assert(spec_neighbor(position, 0, 1) == Some(q));
        } else if q.x - position.x == -1 {
            assert(spec_neighbor(position, 0, -1) == Some(q));
        } else if q.y - position.y == 1 {
            assert(spec_neighbor(position, 1, 1) == Some(q));
        } else if q.y - position.y == -1 {
            assert(spec_neighbor(position, 1, -1) == Some(q));
        } else if q.z - position.z == 1 {
            assert(spec_neighbor(position, 2, 1) == Some(q));
        } else {
            assert(spec_neighbor(position, 2, -1) == Some(q));
        }
    }
    r
}

impl ChunkStorage {
    /// Every loaded chunk holds exactly one chunk's worth of voxels.
    pub proof fn lemma_chunks_have_volume(&self)
        ensures
            forall|q: ChunkPos| #[trigger] self@.contains_key(q) ==> self@[q].blocks.len() == CHUNK_VOLUME,
    {
        assert forall|q: ChunkPos| #[trigger] self@.contains_key(q) implies self@[q].blocks.len()
            == CHUNK_VOLUME by {
            self.chunks@[chunk_key(q)].lemma_volume();
        }
    }

    pub fn new() -> (r: Self)
        ensures
            r@ == Map::<ChunkPos, ChunkView>::empty(),
    {
        let r = ChunkStorage { chunks: HashMap::new() };
        assert(r@ =~= Map::<ChunkPos, ChunkView>::empty());
        r
    }

    /// Marks the chunk at `position` dirty if it is loaded.
    fn mark_chunk_dirty(&mut self, position: ChunkPos)
        ensures
            marked_dirty(old(self)@, final(self)@, |q: ChunkPos| q == position),
    {
        let key = position_key(position);
        match self.chunks.remove(&key) {
            Some(mut chunk) => {
                chunk.mark_dirty();
                self.chunks.insert(key, chunk);
            },
            None => {},
        }
        proof {
            assert forall|q: ChunkPos| #[trigger] self@.contains_key(q) == old(self)@.contains_key(
                q,
            ) by {
                lemma_key_injective(q, position);
            }
            assert forall|q: ChunkPos| #[trigger] self@.contains_key(q) implies self@[q].blocks
                == old(self)@[q].blocks && self@[q].dirty == (old(self)@[q].dirty || q
                == position) by {
                lemma_key_injective(q, position);
            }
        }
    }

    fn mark_if_present(&mut self, position: Option<ChunkPos>)
        ensures
            marked_dirty(old(self)@, final(self)@, |q: ChunkPos| position == Some(q)),
    {
        if let Some(p) = position {
            self.mark_chunk_dirty(p);
        }
    }

    fn mark_face_neighbors_dirty(&mut self, position: ChunkPos)
        ensures
            marked_dirty(old(self)@, final(self)@, |q: ChunkPos| face_adjacent(position, q)),
    {
        let ghost start = self@;
        self.mark_if_present(neighbor(position, 0, -1));
        self.mark_if_present(neighbor(position, 0, 1));
        self.mark_if_present(neighbor(position, 1, -1));
        self.mark_if_present(neighbor(position, 1, 1));
        self.mark_if_present(neighbor(position, 2, -1));
        self.mark_if_present(neighbor(position, 2, 1));
        assert forall|q: ChunkPos| #[trigger] self@.contains_key(q) implies self@[q].dirty == (
        start[q].dirty || face_adjacent(position, q)) by {
            if face_adjacent(position, q) {
                if q.x - position.x == 1 {
                    assert(spec_neighbor(position, 0, 1) == Some(q));
                } else if q.x - position.x == -1 {
                    assert(spec_neighbor(position, 0, -1) == Some(q));
                } else if q.y - position.y == 1 {
                    assert(spec_neighbor(position, 1, 1) == Some(q));
                } else if q.y - position.y == -1 {
                    assert(spec_neighbor(position, 1, -1) == Some(q));
                } else if q.z - position.z == 1 {
                    assert(spec_neighbor(position, 2, 1) == Some(q));
                } else {
                    assert(spec_neighbor(position, 2, -1) == Some(q));
                }
            }
        }
    }

    /// Inserts a loaded chunk, returning the chunk previously stored at this position.
    /// Every loaded chunk sharing a face with the position is marked dirty.
    pub fn insert_chunk(&mut self, position: ChunkPos, chunk: Chunk) -> (r: Option<Chunk>)
        ensures
            match r {
                Some(previous) => old(self)@.contains_key(position) && previous@ == old(
                    self,
                )@[position],
                None => !old(self)@.contains_key(position),
            },
            marked_dirty(
                old(self)@.insert(position, chunk@),
                final(self)@,
                |q: ChunkPos| face_adjacent(position, q),
            ),
    {
        let key = position_key(position);
        let previous = self.chunks.insert(key, chunk);
        proof {
            assert forall|q: ChunkPos| #[trigger] self@.contains_key(q) == old(self)@.insert(
                position,
                chunk@,
            ).contains_key(q) by {
                lemma_key_injective(q, position);
            }
            assert forall|q: ChunkPos| #[trigger] self@.contains_key(q) implies self@[q] == old(
                self,
            )@.insert(position, chunk@)[q] by {
                lemma_key_injective(q, position);
            }
        }
        self.mark_face_neighbors_dirty(position);
        previous
    }

    /// Removes and returns a loaded chunk; its loaded face neighbors are marked dirty.
    pub fn remove_chunk(&mut self, position: ChunkPos) -> (r: Option<Chunk>)
        ensures
            match r {
                Some(removed) => old(self)@.contains_key(position) && removed@ == old(
                    self,
                )@[position] && marked_dirty(
                    old(self)@.remove(position),
                    final(self)@,
                    |q: ChunkPos| face_adjacent(position, q),
                ),
                None => !old(self)@.contains_key(position) && final(self)@ == old(self)@,
            },
    {
        let key = position_key(position);
        let removed = self.chunks.remove(&key);
        proof {
            assert forall|q: ChunkPos| #[trigger] self@.contains_key(q) == old(self)@.remove(
                position,
            ).contains_key(q) by {
                lemma_key_injective(q, position);
            }
            assert forall|q: ChunkPos| #[trigger] self@.contains_key(q) implies self@[q] == old(
                self,
            )@[q] by {
                lemma_key_injective(q, position);
            }
            if removed.is_none() {
                assert(self@ =~= old(self)@);
            }
        }
        if removed.is_some() {
            self.mark_face_neighbors_dirty(position);
        }
        removed
    }

    pub fn get_chunk(&self, position: ChunkPos) -> (r: Option<&Chunk>)
        ensures
            match r {
                Some(chunk) => self@.contains_key(position) && chunk@ == self@[position]
                    && chunk@.blocks.len() == CHUNK_VOLUME,
                None => !self@.contains_key(position),
            },
    {
        let r = self.chunks.get(&position_key(position));
        proof {
            if let Some(chunk) = r {
                chunk.lemma_volume();
            }
        }
        r
    }

    /// Mutable access to a loaded chunk; the store keeps whatever the caller
    /// leaves in it.
    pub fn get_chunk_mut(&mut self, position: ChunkPos) -> (r: Option<&mut Chunk>)
        ensures
            match r {
                Some(chunk) => old(self)@.contains_key(position) && chunk@ == old(self)@[position]
                    && final(self)@ == old(self)@.insert(position, final(chunk)@),
                None => !old(self)@.contains_key(position) && final(self)@ == old(self)@,
            },
    {
        broadcast use lemma_key_decodes_position;

        let key = position_key(position);
        match self.chunks.entry(key) {
            Entry::Occupied(occupied) => Some(occupied.into_mut()),
            Entry::Vacant(_) => None,
        }
    }

    pub fn contains_chunk(&self, position: ChunkPos) -> (r: bool)
        ensures
            r == self@.contains_key(position),
    {
        self.chunks.contains_key(&position_key(position))
    }

    /// Reads a block through world coordinates, or returns `None` if its chunk is unloaded.
    pub fn get_block(&self, world_position: WorldBlockPos) -> (r: Option<BlockId>)
        ensures
            ({
                let chunk = world_position.spec_chunk_pos();
                let local = world_position.spec_local();
                match r {
                    Some(block) => self@.contains_key(chunk) && block == self@[chunk].blocks[
                    local_index(local.0, local.1, local.2)],
                    None => !self@.contains_key(chunk),
                }
            }),
    {
        let (chunk_position, local_position) = world_position.split();
        match self.get_chunk(chunk_position) {
            Some(chunk) => Some(chunk.get_local(local_position)),
            None => None,
        }
    }
}

impl ChunkStorage {
    fn mark_border_neighbors_dirty(&mut self, chunk_position: ChunkPos, local_position: LocalBlockPos)
        ensures
            marked_dirty(
                old(self)@,
                final(self)@,
                |q: ChunkPos| on_shared_face(chunk_position, local_position@, q),
            ),
    {
        let ghost start = self@;
        let ghost local = local_position@;
        if local_position.x() == 0 {
            self.mark_if_present(neighbor(chunk_position, 0, -1));
        }
        if local_position.x() == CHUNK_WIDTH - 1 {
            self.mark_if_present(neighbor(chunk_position, 0, 1));
        }
        if local_position.y() == 0 {
            self.mark_if_present(neighbor(chunk_position, 1, -1));
        }
        if local_position.y() == CHUNK_HEIGHT - 1 {
            self.mark_if_present(neighbor(chunk_position, 1, 1));
        }
        if local_position.z() == 0 {
            self.mark_if_present(neighbor(chunk_position, 2, -1));
        }
        if local_position.z() == CHUNK_DEPTH - 1 {
            self.mark_if_present(neighbor(chunk_position, 2, 1));
        }
        assert forall|q: ChunkPos| #[trigger] self@.contains_key(q) implies self@[q].dirty == (
        start[q].dirty || on_shared_face(chunk_position, local, q)) by {
            if on_shared_face(chunk_position, local, q) {
                if q.x - chunk_position.x == 1 {
                    assert(spec_neighbor(chunk_position, 0, 1) == Some(q));
                } else if q.x - chunk_position.x == -1 {
                    assert(spec_neighbor(chunk_position, 0, -1) == Some(q));
                } else if q.y - chunk_position.y == 1 {
                    assert(spec_neighbor(chunk_position, 1, 1) == Some(q));
                } else if q.y - chunk_position.y == -1 {
                    assert(spec_neighbor(chunk_position, 1, -1) == Some(q));
                } else if q.z - chunk_position.z == 1 {
                    assert(spec_neighbor(chunk_position, 2, 1) == Some(q));
                } else {
                    assert(spec_neighbor(chunk_position, 2, -1) == Some(q));
                }
            }
        }
    }

    /// Replaces a block through world coordinates and returns its previous ID.
    ///
    /// A changed block dirties its own chunk. If it lies on one or more chunk
    /// faces, every loaded chunk sharing one of those faces is dirtied as well.
    pub fn set_block(&mut self, world_position: WorldBlockPos, block: BlockId) -> (r: Result<
        BlockId,
        ChunkNotLoadedError,
    >)
        ensures
            ({
                let chunk = world_position.spec_chunk_pos();
                let local = world_position.spec_local();
                let index = local_index(local.0, local.1, local.2);
                match r {
                    Ok(previous) => {
                        &&& old(self)@.contains_key(chunk)
                        &&& previous == old(self)@[chunk].blocks[index]
                        &&& marked_dirty(
                            old(self)@.insert(
                                chunk,
                                ChunkView {
                                    blocks: with_block(old(self)@[chunk].blocks, index, block),
                                    dirty: old(self)@[chunk].dirty || previous != block,
                                    revision: revised_if(old(self)@[chunk].revision, previous != block),
                                },
                            ),
                            final(self)@,
                            |q: ChunkPos| previous != block && on_shared_face(chunk, local, q),
                        )
                    },
                    Err(error) => {
                        &&& !old(self)@.contains_key(chunk)
                        &&& error == (ChunkNotLoadedError { chunk_position: chunk })
                        &&& final(self)@ == old(self)@
                    },
                }
            }),
    {
        let (chunk_position, local_position) = world_position.split();
        let previous = match self.get_chunk_mut(chunk_position) {
            Some(chunk) => chunk.set_local(local_position, block),
            None => {
                return Err(ChunkNotLoadedError { chunk_position });
            },
        };
        if previous != block {
            self.mark_border_neighbors_dirty(chunk_position, local_position);
        }
        Ok(previous)
    }

    /// Positions of every loaded chunk, each listed once.
    pub fn positions(&self) -> (r: Vec<ChunkPos>)
        ensures
            forall|p: ChunkPos| r@.contains(p) <==> self@.contains_key(p),
            r@.no_duplicates(),
    {
        let mut out: Vec<ChunkPos> = Vec::new();
        for key in it: self.chunks.keys()
            invariant
                it.seq().no_duplicates(),
                it.seq().unref().to_set() == self.chunks@.dom(),
                out@.no_duplicates(),
                forall|p: ChunkPos|
                    out@.contains(p) <==> exists|j: int|
                        0 <= j < it.index() && *it.seq()[j] == chunk_key(p),
                it.index() == it.seq().len() ==> forall|p: ChunkPos|
                    out@.contains(p) <==> self@.contains_key(p),
        {
            let ghost j = it.index();
            if *key < 79228162514264337593543950336u128 {
                let position = decode_key(*key);
                proof {
                    assert(*it.seq()[j] == chunk_key(position));
                    if out@.contains(position) {
                        let jj = choose|jj: int|
                            0 <= jj < j && *it.seq()[jj] == chunk_key(position);
                        assert(it.seq()[jj] == it.seq()[j]);
                    }
                }
                let ghost prev = out@;
                out.push(position);
                proof {
                    assert forall|p: ChunkPos| #[trigger] out@.contains(p) <==> (prev.contains(p) || p
                        == position) by {
                        if out@.contains(p) {
                            let i = choose|i: int| 0 <= i < out@.len() && out@[i] == p;
                            if i < prev.len() {
                                assert(prev[i] == p);
                            }
                        }
                        if prev.contains(p) {
                            let i = choose|i: int| 0 <= i < prev.len() && prev[i] == p;
                            assert(out@[i] == p);
                        }
                        if p == position {
                            assert(out@[out@.len() - 1] == p);
                        }
                    }
                    assert forall|p: ChunkPos|
                        out@.contains(p) <==> exists|jx: int|
                            0 <= jx < j + 1 && *it.seq()[jx] == chunk_key(p) by {
                        if exists|jx: int| 0 <= jx < j + 1 && *it.seq()[jx] == chunk_key(p) {
                            let jx = choose|jx: int|
                                0 <= jx < j + 1 && *it.seq()[jx] == chunk_key(p);
                            if jx == j {
                                lemma_key_injective(p, position);
                            }
                        }
                    }
                }
            } else {
                proof {
                    assert forall|p: ChunkPos|
                        out@.contains(p) <==> exists|jx: int|
                            0 <= jx < j + 1 && *it.seq()[jx] == chunk_key(p) by {
                        if exists|jx: int| 0 <= jx < j + 1 && *it.seq()[jx] == chunk_key(p) {
                            let jx = choose|jx: int|
                                0 <= jx < j + 1 && *it.seq()[jx] == chunk_key(p);
                            lemma_key_round_trip(p);
                            assert(jx != j);
                        }
                    }
                }
            }
            proof {
                lemma_keys_complete(it.seq(), self.chunks@.dom(), out@, j + 1);
            }
        }
        out
    }
}

proof fn lemma_keys_complete(keys: Seq<&u128>, dom: Set<u128>, out: Seq<ChunkPos>, seen: int)
    requires
        keys.unref().to_set() == dom,
        forall|p: ChunkPos|
            out.contains(p) <==> exists|j: int| 0 <= j < seen && *keys[j] == chunk_key(p),
    ensures
        seen == keys.len() ==> forall|p: ChunkPos| out.contains(p) <==> dom.contains(
            chunk_key(p),
        ),
{
    if seen != keys.len() {
        return;
    }
    let values = keys.unref();
    assert forall|p: ChunkPos| out.contains(p) <==> dom.contains(chunk_key(p)) by {
        if dom.contains(chunk_key(p)) {
            assert(values.to_set().contains(chunk_key(p)));
            assert(values.contains(chunk_key(p)));
            let j = choose|j: int| 0 <= j < values.len() && values[j] == chunk_key(p);
            assert(*keys[j] == chunk_key(p));
        }
        if out.contains(p) {
            let j = choose|j: int| 0 <= j < keys.len() && *keys[j] == chunk_key(p);
            assert(values[j] == chunk_key(p));
            assert(values.contains(chunk_key(p)));
        }
    }
}

/// Every key below 2^96 is the key of the position it decodes to.
pub proof fn lemma_key_decodes(key: u128)
    requires
        key < 0x1_0000_0000_0000_0000_0000_0000,
    ensures
        chunk_key(key_position(key)) == key,
{
    let k = key as int;
    let a = k / 18446744073709551616;
    let mid = k / 4294967296;
    vstd::arithmetic::div_mod::lemma_fundamental_div_mod(k, 18446744073709551616);
    vstd::arithmetic::div_mod::lemma_fundamental_div_mod(k, 4294967296);
    vstd::arithmetic::div_mod::lemma_fundamental_div_mod(mid, 4294967296);
    vstd::arithmetic::div_mod::lemma_div_denominator(k, 4294967296, 4294967296);
    assert(a < 4294967296) by {
        vstd::arithmetic::div_mod::lemma_div_by_multiple_is_strongly_ordered(
            k,
            79228162514264337593543950336,
            4294967296,
            18446744073709551616,
        );
    }
}

/// Decodes any key below 2^96 into the position it encodes.
pub(crate) fn decode_key(key: u128) -> (r: ChunkPos)
    requires
        key < 79228162514264337593543950336u128,
    ensures
        chunk_key(r) == key,
        r == key_position(key),
{
    proof {
        lemma_key_decodes(key);
    }
    let x = (key / KEY_STRIDE_X) as i64 - KEY_OFFSET;
    let y = ((key / KEY_STRIDE_Y) % KEY_STRIDE_Y) as i64 - KEY_OFFSET;
    let z = (key % KEY_STRIDE_Y) as i64 - KEY_OFFSET;
    ChunkPos::new(x as i32, y as i32, z as i32)
}

impl Default for ChunkStorage {
    fn default() -> (r: Self)
        ensures
            r@ == Map::<ChunkPos, ChunkView>::empty(),
    {
        Self::new()
    }
}

} // verus!
