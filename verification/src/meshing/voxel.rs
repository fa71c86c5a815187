//! Which voxel faces a chunk mesh shows, and how equal faces merge into rectangles.

use vstd::prelude::*;

use crate::block::definition::BlockFace;
use crate::block::id::{BlockId, WATER_RAW};
use crate::block::registry::block_is_transparent;
use crate::block::BlockRegistry;
use crate::chunk::{Chunk, ChunkStorage};
use crate::coordinates::{local_in_bounds, local_index, ChunkPos, LocalBlockPos, WorldBlockPos};

use super::lighting::{face_direction, shifted, stored_block};

verus! {

/// A face of `block` (raw ID) shows when nothing is loaded beyond it, or the
/// neighbour lets light through, except between two water blocks.
pub open spec fn face_shows(block: Option<nat>, neighbor: Option<nat>) -> bool {
    match neighbor {
        None => true,
        Some(other) => block_is_transparent(other) && !(block == Some(WATER_RAW as nat) && other
            == WATER_RAW),
    }
}

fn face_step(face: BlockFace) -> (r: (i32, i32, i32))
    ensures
        (r.0 as int, r.1 as int, r.2 as int) == face_direction(face),
{
    match face {
        BlockFace::Top => (0, 1, 0),
        BlockFace::Bottom => (0, -1, 0),
        BlockFace::North => (0, 0, -1),
        BlockFace::South => (0, 0, 1),
        BlockFace::East => (1, 0, 0),
        BlockFace::West => (-1, 0, 0),
    }
}

/// Whether the `face` of `block`, stored at `local` in the chunk at
/// `chunk_position`, shows: the neighbour comes from the chunk itself when it
/// holds it, and from the loaded world otherwise.
pub fn is_local_face_visible(
    chunk_position: ChunkPos,
    local: LocalBlockPos,
    block: BlockId,
    face: BlockFace,
    chunk: &Chunk,
    storage: &ChunkStorage,
    registry: &BlockRegistry,
) -> (r: bool)
    requires
        chunk_position.blocks_fit_i32(),
        i32::MIN < chunk_position.x * 16 && chunk_position.x * 16 + 16 <= i32::MAX,
        i32::MIN < chunk_position.y * 16 && chunk_position.y * 16 + 16 <= i32::MAX,
        i32::MIN < chunk_position.z * 16 && chunk_position.z * 16 + 16 <= i32::MAX,
    ensures
        ({
            let step = face_direction(face);
            let n = (local@.0 + step.0, local@.1 + step.1, local@.2 + step.2);
            let neighbor = if local_in_bounds(n.0, n.1, n.2) {
                Some(chunk@.blocks[local_index(n.0, n.1, n.2)]@)
            } else {
                match stored_block(
                    storage@,
                    WorldBlockPos {
                        x: (chunk_position.x * 16 + n.0) as i32,
                        y: (chunk_position.y * 16 + n.1) as i32,
                        z: (chunk_position.z * 16 + n.2) as i32,
                    },
                ) {
                    Some(other) => Some(other@),
                    None => None,
                }
            };
            r == face_shows(Some(block@), neighbor)
        }),
{
    let step = face_step(face);
    let neighbor_x = local.x() as i32 + step.0;
    let neighbor_y = local.y() as i32 + step.1;
    let neighbor_z = local.z() as i32 + step.2;
    let neighbor = if 0 <= neighbor_x && neighbor_x < 16 && 0 <= neighbor_y && neighbor_y < 16 && 0
        <= neighbor_z && neighbor_z < 16 {
        match LocalBlockPos::checked(neighbor_x as usize, neighbor_y as usize, neighbor_z as usize) {
            Some(inside) => Some(chunk.get_local(inside)),
            None => None,
        }
    } else {
        let world = chunk_position.world_block(local);
        storage.get_block(
            WorldBlockPos::new(world.x + step.0, world.y + step.1, world.z + step.2),
        )
    };
    let water = BlockId::water();
    match neighbor {
        None => true,
        Some(other) => {
            proof {
                BlockId::lemma_view_injective(block, water);
                BlockId::lemma_view_injective(other, water);
            }
            registry.is_transparent(other) && !(block == water && other == water)
        },
    }
}

/// Whether the `face` of the block at `block_position` shows, looking both
/// blocks up in the loaded world. Works the same within a chunk and across
/// chunk borders.
pub fn is_face_visible(
    block_position: WorldBlockPos,
    face: BlockFace,
    storage: &ChunkStorage,
    registry: &BlockRegistry,
) -> (r: bool)
    requires
        i32::MIN < block_position.x < i32::MAX,
        i32::MIN < block_position.y < i32::MAX,
        i32::MIN < block_position.z < i32::MAX,
    ensures
        r == face_shows(
            match stored_block(storage@, block_position) {
                Some(current) => Some(current@),
                None => None,
            },
            match stored_block(storage@, shifted(block_position, face_direction(face))) {
                Some(other) => Some(other@),
                None => None,
            },
        ),
{
    let step = face_step(face);
    let neighbor = WorldBlockPos::new(
        block_position.x + step.0,
        block_position.y + step.1,
        block_position.z + step.2,
    );
    let current = storage.get_block(block_position);
    let water = BlockId::water();
    match storage.get_block(neighbor) {
        None => true,
        Some(other) => {
            let current_is_water = match current {
                Some(here) => {
                    proof {
                        BlockId::lemma_view_injective(here, water);
                    }
                    here == water
                },
                None => false,
            };
            proof {
                BlockId::lemma_view_injective(other, water);
            }
            registry.is_transparent(other) && !(current_is_water && other == water)
        },
    }
}

/// A rectangle of equal mask cells: columns `u..u + width`, rows `v..v + height`.
#[derive(Clone, Copy, Debug, PartialEq, Eq, Structural)]
pub struct MaskRect {
    pub u: usize,
    pub v: usize,
    pub width: usize,
    pub height: usize,
    pub key: u32,
}

/// Flat index of mask cell `(x, y)` in rows of `width` cells.
pub open spec fn cell(width: int, x: int, y: int) -> int {
    y * width + x
}

/// The rectangle covers cell `(x, y)`.
pub open spec fn rect_holds(rect: MaskRect, x: int, y: int) -> bool {
    rect.u <= x < rect.u + rect.width && rect.v <= y < rect.v + rect.height
}

/// Some rectangle of the list covers cell `(x, y)`.
pub open spec fn covered(rects: Seq<MaskRect>, x: int, y: int) -> bool {
    exists|i: int| 0 <= i < rects.len() && rect_holds(#[trigger] rects[i], x, y)
}

/// The rectangles tile exactly the filled cells of `mask`, each with the key of
/// every cell it covers, without overlapping.
pub open spec fn tiles_mask(mask: Seq<Option<u32>>, width: int, height: int, rects: Seq<MaskRect>) -> bool {
    &&& forall|i: int|
        0 <= i < rects.len() ==> {
            let r = #[trigger] rects[i];
            &&& 1 <= r.width && r.u + r.width <= width
            &&& 1 <= r.height && r.v + r.height <= height
        }
    &&& forall|i: int, x: int, y: int|
        0 <= i < rects.len() && rect_holds(#[trigger] rects[i], x, y) ==> #[trigger] mask[cell(width, x, y)]
            == Some(rects[i].key)
    &&& forall|i: int, j: int, x: int, y: int|
        0 <= i < j < rects.len() && #[trigger] rect_holds(rects[i], x, y) ==> !#[trigger] rect_holds(
            rects[j],
            x,
            y,
        )
    &&& forall|x: int, y: int|
        0 <= x < width && 0 <= y < height && #[trigger] mask[cell(width, x, y)] is Some ==> covered(
            rects,
            x,
            y,
        )
}

/// Cell `(x, y)` of the mask as the scan finds it after the `earlier`
/// rectangles were taken out.
pub open spec fn free_cell(
    mask: Seq<Option<u32>>,
    width: int,
    earlier: Seq<MaskRect>,
    x: int,
    y: int,
) -> Option<u32> {
    if covered(earlier, x, y) {
        None
    } else {
        mask[cell(width, x, y)]
    }
}

/// `rect` is the one the greedy scan takes after the `earlier` ones: its
/// corner is the first cell, in row-major order, still holding a key; it is
/// as wide as the run of its key in that row, and as tall as the rows below
/// hold its key across its whole width.
pub open spec fn greedy_rect(
    mask: Seq<Option<u32>>,
    width: int,
    height: int,
    earlier: Seq<MaskRect>,
    rect: MaskRect,
) -> bool {
    &&& forall|x: int, y: int|
        0 <= x < width && 0 <= y < height && (y < rect.v || (y == rect.v && x < rect.u))
            ==> #[trigger] free_cell(mask, width, earlier, x, y) is None
    &&& (rect.u + rect.width == width || free_cell(mask, width, earlier, rect.u + rect.width, rect.v as int)
        != Some(rect.key))
    &&& (rect.v + rect.height == height || exists|x: int|
        rect.u <= x < rect.u + rect.width && #[trigger] free_cell(
            mask,
            width,
            earlier,
            x,
            rect.v + rect.height,
        ) != Some(rect.key))
}

/// Every rectangle is the one the greedy scan takes after those before it.
pub open spec fn greedy_scan(mask: Seq<Option<u32>>, width: int, height: int, rects: Seq<MaskRect>) -> bool {
    forall|i: int|
        0 <= i < rects.len() ==> greedy_rect(mask, width, height, rects.take(i), #[trigger] rects[i])
}

/// Appending the rectangle the scan takes next keeps the list a greedy scan.
proof fn lemma_greedy_push(
    mask: Seq<Option<u32>>,
    width: int,
    height: int,
    rects: Seq<MaskRect>,
    rect: MaskRect,
)
    requires
        greedy_scan(mask, width, height, rects),
        greedy_rect(mask, width, height, rects, rect),
    ensures
        greedy_scan(mask, width, height, rects.push(rect)),
{
    let all = rects.push(rect);
    assert forall|i: int| 0 <= i < all.len() implies greedy_rect(
        mask,
        width,
        height,
        all.take(i),
        #[trigger] all[i],
    ) by {
        if i < rects.len() {
            assert(all.take(i) =~= rects.take(i));
            assert(all[i] == rects[i]);
        } else {
            assert(all.take(i) =~= rects);
        }
    }
}

proof fn lemma_cell_unique(width: int, height: int, x: int, y: int, x2: int, y2: int)
    by (nonlinear_arith)
    requires
        0 <= x < width,
        0 <= x2 < width,
        0 <= y < height,
        0 <= y2 < height,
    ensures
        0 <= y * width <= cell(width, x, y) < width * height,
        y * width + width <= width * height,
        cell(width, x, y) == cell(width, x2, y2) <==> (x == x2 && y == y2),
{
}

/// Whether cells `u..u + count` of row `y` all hold `key`.
fn row_matches(mask: &Vec<Option<u32>>, width: usize, height: usize, u: usize, y: usize, count: usize, key: u32) -> (r: bool)
    requires
        mask@.len() == width * height,
        u + count <= width,
        y < height,
    ensures
        r == forall|x: int| u <= x < u + count ==> #[trigger] mask@[cell(width as int, x, y as int)] == Some(key),
{
    let total = mask.len();
    let mut k: usize = 0;
    while k < count
        invariant
            k <= count,
            total == mask@.len(),
            mask@.len() == width * height,
            u + count <= width,
            y < height,
            forall|x: int| u <= x < u + k ==> #[trigger] mask@[cell(width as int, x, y as int)] == Some(key),
        decreases count - k,
    {
        proof {
            lemma_cell_unique(width as int, height as int, (u + k) as int, y as int, 0, 0);
        }
        if mask[y * width + u + k] != Some(key) {
            assert(mask@[cell(width as int, (u + k) as int, y as int)] != Some(key));
            return false;
        }
        k += 1;
    }
    true
}

/// Invariant of the merge: cleared cells are exactly the covered ones, the
/// rectangles tile what they cover, and every cell before `(u, v)` in row-major
/// order is cleared.
spec fn merge_progress(
    initial_mask: Seq<Option<u32>>,
    current: Seq<Option<u32>>,
    width: int,
    height: int,
    rects: Seq<MaskRect>,
    u: int,
    v: int,
) -> bool {
    &&& current.len() == width * height
    &&& initial_mask.len() == width * height
    &&& forall|i: int|
        0 <= i < rects.len() ==> {
            let r = #[trigger] rects[i];
            &&& 1 <= r.width && r.u + r.width <= width
            &&& 1 <= r.height && r.v + r.height <= height
        }
    &&& forall|i: int, x: int, y: int|
        0 <= i < rects.len() && rect_holds(#[trigger] rects[i], x, y) ==> #[trigger] initial_mask[cell(width, x, y)]
            == Some(rects[i].key)
    &&& forall|i: int, j: int, x: int, y: int|
        0 <= i < j < rects.len() && #[trigger] rect_holds(rects[i], x, y) ==> !#[trigger] rect_holds(
            rects[j],
            x,
            y,
        )
    &&& forall|x: int, y: int|
        0 <= x < width && 0 <= y < height ==> #[trigger] current[cell(width, x, y)] == if covered(
            rects,
            x,
            y,
        ) {
            None
        } else {
            initial_mask[cell(width, x, y)]
        }
    &&& forall|x: int, y: int|
        0 <= x < width && 0 <= y < height && (y < v || (y == v && x < u)) ==> #[trigger] current[cell(
            width,
            x,
            y,
        )] is None
}

/// Clears the cells of `rect` in the mask.
fn clear_rect(mask: &mut Vec<Option<u32>>, width: usize, height: usize, rect: MaskRect)
    requires
        old(mask)@.len() == width * height,
        rect.u + rect.width <= width,
        rect.v + rect.height <= height,
    ensures
        final(mask)@.len() == width * height,
        forall|x: int, y: int|
            0 <= x < width && 0 <= y < height ==> #[trigger] final(mask)@[cell(width as int, x, y)] == if rect_holds(
                rect,
                x,
                y,
            ) {
                None
            } else {
                old(mask)@[cell(width as int, x, y)]
            },
{
    let total = mask.len();
    let mut y = rect.v;
    while y < rect.v + rect.height
        invariant
            total == width * height,
            rect.v <= y <= rect.v + rect.height,
            rect.u + rect.width <= width,
            rect.v + rect.height <= height,
            mask@.len() == width * height,
            forall|x: int, yy: int|
                0 <= x < width && 0 <= yy < height ==> #[trigger] mask@[cell(width as int, x, yy)] == if rect_holds(
                    rect,
                    x,
                    yy,
                ) && yy < y {
                    None
                } else {
                    old(mask)@[cell(width as int, x, yy)]
                },
        decreases rect.v + rect.height - y,
    {
        let mut x = rect.u;
        while x < rect.u + rect.width
            invariant
                total == width * height,
                rect.v <= y < rect.v + rect.height,
                rect.u <= x <= rect.u + rect.width,
                rect.u + rect.width <= width,
                rect.v + rect.height <= height,
                mask@.len() == width * height,
                forall|xx: int, yy: int|
                    0 <= xx < width && 0 <= yy < height ==> #[trigger] mask@[cell(width as int, xx, yy)] == if rect_holds(
                        rect,
                        xx,
                        yy,
                    ) && (yy < y || (yy == y && xx < x)) {
                        None
                    } else {
                        old(mask)@[cell(width as int, xx, yy)]
                    },
            decreases rect.u + rect.width - x,
        {
            proof {
                lemma_cell_unique(width as int, height as int, x as int, y as int, 0, 0);
            }
            let index = y * width + x;
            let ghost before = mask@;
            mask.set(index, None);
            proof {
                assert forall|xx: int, yy: int|
                    0 <= xx < width && 0 <= yy < height implies #[trigger] mask@[cell(
                    width as int,
                    xx,
                    yy,
                )] == if rect_holds(rect, xx, yy) && (yy < y || (yy == y && xx < x + 1)) {
                    None
                } else {
                    old(mask)@[cell(width as int, xx, yy)]
                } by {
                    lemma_cell_unique(width as int, height as int, xx, yy, x as int, y as int);
                }
            }
            x += 1;
        }
        y += 1;
    }
}

/// Merges the filled cells of a `width` by `height` mask into rectangles of
/// equal keys, scanning rows from the top: each rectangle grows as wide as the
/// run of its key allows, then as tall as complete rows allow. The mask ends empty.
pub fn merge_mask(mask: &mut Vec<Option<u32>>, width: usize, height: usize) -> (rects: Vec<
    MaskRect,
>)
    requires
        old(mask)@.len() == width * height,
    ensures
        final(mask)@.len() == width * height,
        forall|x: int, y: int|
            0 <= x < width && 0 <= y < height ==> #[trigger] final(mask)@[cell(width as int, x, y)] is None,
        tiles_mask(old(mask)@, width as int, height as int, rects@),
        greedy_scan(old(mask)@, width as int, height as int, rects@),
{
    let ghost initial_mask = mask@;
    let total = mask.len();
    let mut rects: Vec<MaskRect> = Vec::new();
    let mut v: usize = 0;
    while v < height
        invariant
            total == width * height,
            v <= height,
            initial_mask == old(mask)@,
            merge_progress(initial_mask, mask@, width as int, height as int, rects@, 0, v as int),
            greedy_scan(initial_mask, width as int, height as int, rects@),
        decreases height - v,
    {
        let mut u: usize = 0;
        while u < width
            invariant
                total == width * height,
                v < height,
                u <= width,
                initial_mask == old(mask)@,
                merge_progress(initial_mask, mask@, width as int, height as int, rects@, u as int, v as int),
                greedy_scan(initial_mask, width as int, height as int, rects@),
            decreases width - u,
        {
            proof {
                lemma_cell_unique(width as int, height as int, u as int, v as int, 0, 0);
            }
            let index = v * width + u;
            if let Some(key) = mask[index] {
                let mut w: usize = 1;
                while u + w < width && mask[v * width + u + w] == Some(key)
                    invariant
                        total == width * height,
                        v * width + width <= width * height,
                        0 <= v * width,
                        1 <= w,
                        u + w <= width,
                        v < height,
                        mask@.len() == width * height,
                        forall|x: int|
                            u <= x < u + w ==> #[trigger] mask@[cell(width as int, x, v as int)] == Some(key),
                    decreases width - u - w,
                {
                    proof {
                        lemma_cell_unique(width as int, height as int, (u + w) as int, v as int, 0, 0);
                    }
                    w += 1;
                }
                let mut h: usize = 1;
                while v + h < height && row_matches(mask, width, height, u, v + h, w, key)
                    invariant
                        1 <= h,
                        v + h <= height,
                        u + w <= width,
                        mask@.len() == width * height,
                        forall|x: int, y: int|
                            u <= x < u + w && v <= y < v + h ==> #[trigger] mask@[cell(width as int, x, y)]
                                == Some(key),
                    decreases height - v - h,
                {
                    h += 1;
                }
                let rect = MaskRect { u, v, width: w, height: h, key };
                let ghost before = mask@;
                let ghost listed = rects@;
                proof {
                    assert forall|x: int, y: int|
                        0 <= x < width && 0 <= y < height implies #[trigger] free_cell(
                        initial_mask,
                        width as int,
                        listed,
                        x,
                        y,
                    ) == before[cell(width as int, x, y)] by {}
                    if u + w < width {
                        assert(free_cell(initial_mask, width as int, listed, (u + w) as int, v as int)
                            == before[cell(width as int, (u + w) as int, v as int)]);
                    }
                    if v + h < height {
                        let x = choose|x: int|
                            u <= x < u + w && #[trigger] before[cell(width as int, x, (v + h) as int)]
                                != Some(key);
                        assert(free_cell(initial_mask, width as int, listed, x, (v + h) as int)
                            == before[cell(width as int, x, (v + h) as int)]);
                    }
                    assert(greedy_rect(initial_mask, width as int, height as int, listed, rect));
                    lemma_greedy_push(initial_mask, width as int, height as int, listed, rect);
                }
                clear_rect(mask, width, height, rect);
                rects.push(rect);
                proof {
                    lemma_merge_step(initial_mask, before, mask@, width as int, height as int, listed, rect, u as int, v as int);
                }
            }
            u += 1;
        }
        v += 1;
    }
    proof {
        assert forall|x: int, y: int|
            0 <= x < width && 0 <= y < height && #[trigger] initial_mask[cell(width as int, x, y)] is Some implies covered(
            rects@,
            x,
            y,
        ) by {
            assert(mask@[cell(width as int, x, y)] is None);
        }
    }
    rects
}

/// Adding the rectangle found at `(u, v)` keeps the merge invariant, one cell further on.
proof fn lemma_merge_step(
    initial_mask: Seq<Option<u32>>,
    before: Seq<Option<u32>>,
    after: Seq<Option<u32>>,
    width: int,
    height: int,
    rects: Seq<MaskRect>,
    rect: MaskRect,
    u: int,
    v: int,
)
    requires
        merge_progress(initial_mask, before, width, height, rects, u, v),
        0 <= u < width,
        0 <= v < height,
        rect.u == u && rect.v == v,
        1 <= rect.width && u + rect.width <= width,
        1 <= rect.height && v + rect.height <= height,
        forall|x: int, y: int|
            rect_holds(rect, x, y) ==> #[trigger] before[cell(width, x, y)] == Some(rect.key),
        after.len() == width * height,
        forall|x: int, y: int|
            0 <= x < width && 0 <= y < height ==> #[trigger] after[cell(width, x, y)] == if rect_holds(
                rect,
                x,
                y,
            ) {
                None
            } else {
                before[cell(width, x, y)]
            },
    ensures
        merge_progress(initial_mask, after, width, height, rects.push(rect), u + 1, v),
{
    let all = rects.push(rect);
    assert forall|i: int, x: int, y: int|
        0 <= i < all.len() && rect_holds(#[trigger] all[i], x, y) implies #[trigger] initial_mask[cell(width, x, y)]
        == Some(all[i].key) by {
        if i == rects.len() {
            assert(before[cell(width, x, y)] == Some(rect.key));
            if covered(rects, x, y) {
                assert(before[cell(width, x, y)] is None);
            }
        } else {
            assert(all[i] == rects[i]);
        }
    }
    assert forall|i: int, j: int, x: int, y: int|
        0 <= i < j < all.len() && #[trigger] rect_holds(all[i], x, y) implies !#[trigger] rect_holds(
        all[j],
        x,
        y,
    ) by {
        if j == rects.len() {
            assert(all[i] == rects[i]);
            if rect_holds(rect, x, y) {
                assert(covered(rects, x, y));
                assert(before[cell(width, x, y)] is None);
            }
        } else {
            assert(all[i] == rects[i] && all[j] == rects[j]);
        }
    }
    assert forall|x: int, y: int|
        0 <= x < width && 0 <= y < height implies #[trigger] after[cell(width, x, y)] == if covered(
        all,
        x,
        y,
    ) {
        None
    } else {
        initial_mask[cell(width, x, y)]
    } by {
        if covered(rects, x, y) {
            let i = choose|i: int| 0 <= i < rects.len() && rect_holds(#[trigger] rects[i], x, y);
            assert(all[i] == rects[i]);
        }
        if rect_holds(rect, x, y) {
            assert(all[rects.len() as int] == rect);
        }
        if covered(all, x, y) && !rect_holds(rect, x, y) {
            let i = choose|i: int| 0 <= i < all.len() && rect_holds(#[trigger] all[i], x, y);
            assert(rects[i] == all[i]);
        }
    }
    assert forall|x: int, y: int|
        0 <= x < width && 0 <= y < height && (y < v || (y == v && x < u + 1)) implies #[trigger] after[cell(
        width,
        x,
        y,
    )] is None by {}
    assert forall|i: int| 0 <= i < all.len() implies {
        let r = #[trigger] all[i];
        &&& 1 <= r.width && r.u + r.width <= width
        &&& 1 <= r.height && r.v + r.height <= height
    } by {
        if i < rects.len() {
            assert(all[i] == rects[i]);
        }
    }
}

} // verus!
