//! Sky and block light flood fill over the box of cells around a chunk.

use std::collections::VecDeque;

use vstd::prelude::*;

use crate::block::definition::BlockFace;
use crate::block::id::BlockId;
use crate::block::registry::block_is_transparent;
use crate::block::BlockRegistry;
use crate::chunk::{ChunkStorage, ChunkView};
use crate::coordinates::{local_index, ChunkPos, WorldBlockPos};

verus! {

pub const MAX_LIGHT_LEVEL: u8 = 15;

/// A box of light cells, stored x fastest, then z, then y.
#[derive(Clone, Copy, Debug)]
pub struct LightBounds {
    pub min: WorldBlockPos,
    pub width: usize,
    pub height: usize,
    pub depth: usize,
}

impl LightBounds {
    /// The box is non-empty, its cell count fits in `usize` and its corners in `i32`.
    pub open spec fn wf(self) -> bool {
        &&& 0 < self.width <= i32::MAX
        &&& 0 < self.height <= i32::MAX
        &&& 0 < self.depth <= i32::MAX
        &&& self.width * self.height * self.depth <= usize::MAX
        &&& self.min.x + self.width - 1 <= i32::MAX
        &&& self.min.y + self.height - 1 <= i32::MAX
        &&& self.min.z + self.depth - 1 <= i32::MAX
    }

    /// Number of cells in the box.
    pub open spec fn cells(self) -> int {
        self.width * self.height * self.depth
    }

    /// Cells in one horizontal layer.
    pub open spec fn layer(self) -> int {
        self.width * self.depth
    }

    /// Flat index of the cell at box-relative `(x, y, z)`.
    pub open spec fn flat_index(self, x: int, y: int, z: int) -> int {
        (y * self.depth + z) * self.width + x
    }

    /// Box-relative `(x, y, z)` lies inside the box.
    pub open spec fn holds_local(self, x: int, y: int, z: int) -> bool {
        0 <= x < self.width && 0 <= y < self.height && 0 <= z < self.depth
    }

    pub open spec fn cell_x(self, i: int) -> int {
        i % (self.width as int)
    }

    pub open spec fn cell_z(self, i: int) -> int {
        (i / (self.width as int)) % (self.depth as int)
    }

    pub open spec fn cell_y(self, i: int) -> int {
        (i / (self.width as int)) / (self.depth as int)
    }

    /// Flat index of a world position, when the box holds it.
    pub open spec fn spec_index(self, position: WorldBlockPos) -> Option<int> {
        let x = position.x - self.min.x;
        let y = position.y - self.min.y;
        let z = position.z - self.min.z;
        if self.holds_local(x, y, z) {
            Some(self.flat_index(x, y, z))
        } else {
            None
        }
    }
}

/// Cells `i` and `j` of the box share a face.
pub open spec fn light_neighbors(bounds: LightBounds, i: int, j: int) -> bool {
    &&& 0 <= i < bounds.cells()
    &&& {
        ||| bounds.cell_x(i) > 0 && j == i - 1
        ||| bounds.cell_x(i) + 1 < bounds.width && j == i + 1
        ||| bounds.cell_z(i) > 0 && j == i - bounds.width
        ||| bounds.cell_z(i) + 1 < bounds.depth && j == i + bounds.width
        ||| bounds.cell_y(i) > 0 && j == i - bounds.layer()
        ||| bounds.cell_y(i) + 1 < bounds.height && j == i + bounds.layer()
    }
}

proof fn lemma_flat_index_ranges(w: int, h: int, d: int, x: int, y: int, z: int)
    by (nonlinear_arith)
    requires
        0 < w,
        0 < h,
        0 < d,
        0 <= x < w,
        0 <= y < h,
        0 <= z < d,
    ensures
        0 <= (y * d + z) * w,
        0 <= (y * d + z) * w + x < w * h * d,
        z > 0 ==> (y * d + z) * w + x >= w,
        z + 1 < d ==> (y * d + z) * w + x + w < w * h * d,
        y > 0 ==> (y * d + z) * w + x >= w * d,
        y + 1 < h ==> (y * d + z) * w + x + w * d < w * h * d,
        x + 1 < w ==> (y * d + z) * w + x + 1 < w * h * d,
        0 < w * d <= w * h * d,
{
}

/// The coordinates of a cell rebuild its index, and lie inside the box.
proof fn lemma_cell_coordinates(bounds: LightBounds, i: int)
    requires
        bounds.wf(),
        0 <= i < bounds.cells(),
    ensures
        bounds.holds_local(bounds.cell_x(i), bounds.cell_y(i), bounds.cell_z(i)),
        bounds.flat_index(bounds.cell_x(i), bounds.cell_y(i), bounds.cell_z(i)) == i,
{
    let w = bounds.width as int;
    let h = bounds.height as int;
    let d = bounds.depth as int;
    let q = i / w;
    vstd::arithmetic::div_mod::lemma_fundamental_div_mod(i, w);
    vstd::arithmetic::div_mod::lemma_fundamental_div_mod(q, d);
    assert(0 <= q) by (nonlinear_arith)
        requires
            0 <= i,
            0 < w,
            q == i / w,
    ;
    assert(q < h * d) by (nonlinear_arith)
        requires
            i == w * q + i % w,
            0 <= i % w,
            i < w * h * d,
            0 < w,
    ;
    assert(q / d < h) by (nonlinear_arith)
        requires
            q == d * (q / d) + q % d,
            0 <= q % d,
            q < h * d,
            0 < d,
    ;
    assert(0 <= q / d) by (nonlinear_arith)
        requires
            0 <= q,
            0 < d,
    ;
    assert(((q / d) * d + q % d) * w + i % w == i) by (nonlinear_arith)
        requires
            i == w * q + i % w,
            q == d * (q / d) + q % d,
    ;
}

/// The flat index of an in-box position lies in the box and decodes back to it.
proof fn lemma_flat_index_decodes(bounds: LightBounds, x: int, y: int, z: int)
    requires
        bounds.wf(),
        bounds.holds_local(x, y, z),
    ensures
        0 <= bounds.flat_index(x, y, z) < bounds.cells(),
        bounds.cell_x(bounds.flat_index(x, y, z)) == x,
        bounds.cell_y(bounds.flat_index(x, y, z)) == y,
        bounds.cell_z(bounds.flat_index(x, y, z)) == z,
{
    let w = bounds.width as int;
    let h = bounds.height as int;
    let d = bounds.depth as int;
    let i = bounds.flat_index(x, y, z);
    lemma_flat_index_ranges(w, h, d, x, y, z);
    vstd::arithmetic::div_mod::lemma_fundamental_div_mod_converse(i, w, y * d + z, x);
    vstd::arithmetic::div_mod::lemma_fundamental_div_mod_converse(y * d + z, d, y, z);
}

/// The light box around `chunk` has its corners in `i32`.
pub open spec fn light_box_fits(chunk: ChunkPos) -> bool {
    &&& i32::MIN <= chunk.x * 16 - 15 && chunk.x * 16 + 30 <= i32::MAX
    &&& i32::MIN <= chunk.y * 16 - 15 && chunk.y * 16 + 30 <= i32::MAX
    &&& i32::MIN <= chunk.z * 16 - 15 && chunk.z * 16 + 30 <= i32::MAX
}

/// A neighbouring cell lies in the box too.
proof fn lemma_neighbor_in_box(bounds: LightBounds, i: int, j: int)
    requires
        bounds.wf(),
        light_neighbors(bounds, i, j),
    ensures
        0 <= j < bounds.cells(),
        j != i,
{
    lemma_cell_coordinates(bounds, i);
    lemma_flat_index_ranges(
        bounds.width as int,
        bounds.height as int,
        bounds.depth as int,
        bounds.cell_x(i),
        bounds.cell_y(i),
        bounds.cell_z(i),
    );
}

/// The box reaching `MAX_LIGHT_LEVEL` cells beyond `chunk` on every side.
pub open spec fn spec_around_chunk(chunk: ChunkPos) -> LightBounds {
    LightBounds {
        min: WorldBlockPos {
            x: (chunk.x * 16 - 15) as i32,
            y: (chunk.y * 16 - 15) as i32,
            z: (chunk.z * 16 - 15) as i32,
        },
        width: 46,
        height: 46,
        depth: 46,
    }
}

impl LightBounds {
    /// The box reaching `MAX_LIGHT_LEVEL` cells beyond the chunk on every side.
    pub fn around_chunk(chunk: ChunkPos) -> (r: Self)
        requires
            light_box_fits(chunk),
        ensures
            r.wf(),
            r == spec_around_chunk(chunk),
    {
        let radius: i32 = 15;
        Self {
            min: WorldBlockPos::new(
                chunk.x * 16 - radius,
                chunk.y * 16 - radius,
                chunk.z * 16 - radius,
            ),
            width: 46,
            height: 46,
            depth: 46,
        }
    }

    /// The box spanning `min` to `max`, both included.
    pub fn from_min_max(min: WorldBlockPos, max: WorldBlockPos) -> (r: Self)
        requires
            min.x <= max.x,
            min.y <= max.y,
            min.z <= max.z,
            max.x - min.x < i32::MAX,
            max.y - min.y < i32::MAX,
            max.z - min.z < i32::MAX,
            (max.x - min.x + 1) * (max.y - min.y + 1) * (max.z - min.z + 1) <= usize::MAX,
        ensures
            r.wf(),
            r.min == min,
            r.width == max.x - min.x + 1,
            r.height == max.y - min.y + 1,
            r.depth == max.z - min.z + 1,
    {
        let width = (max.x as i64 - min.x as i64 + 1) as usize;
        let height = (max.y as i64 - min.y as i64 + 1) as usize;
        let depth = (max.z as i64 - min.z as i64 + 1) as usize;
        Self { min, width, height, depth }
    }

    /// The far corner of the box.
    pub fn max(self) -> (r: WorldBlockPos)
        requires
            self.wf(),
        ensures
            r.x == self.min.x + self.width - 1,
            r.y == self.min.y + self.height - 1,
            r.z == self.min.z + self.depth - 1,
    {
        WorldBlockPos::new(
            self.min.x + (self.width as i32 - 1),
            self.min.y + (self.height as i32 - 1),
            self.min.z + (self.depth as i32 - 1),
        )
    }

    pub fn volume(self) -> (r: usize)
        requires
            self.wf(),
        ensures
            r == self.cells(),
    {
        assert(0 < self.width * self.height) by (nonlinear_arith)
            requires
                0 < self.width,
                0 < self.height,
        ;
        assert(self.width * self.height <= self.width * self.height * self.depth) by (
        nonlinear_arith)
            requires
                0 < self.depth,
                0 < self.width * self.height,
        ;
        self.width * self.height * self.depth
    }

    /// Index of the column at box-relative `(x, z)`.
    pub fn column_index(self, local_x: usize, local_z: usize) -> (r: usize)
        requires
            self.wf(),
            local_x < self.width,
            local_z < self.depth,
        ensures
            r == local_z * self.width + local_x,
            r < self.width * self.depth,
    {
        proof {
            lemma_flat_index_ranges(
                self.width as int,
                1,
                self.depth as int,
                local_x as int,
                0,
                local_z as int,
            );
            assert(self.width * self.depth <= self.width * self.height * self.depth) by (
            nonlinear_arith)
                requires
                    0 < self.width,
                    0 < self.depth,
                    0 < self.height,
            ;
        }
        local_z * self.width + local_x
    }

    pub fn local_index(self, local_x: usize, local_y: usize, local_z: usize) -> (r: usize)
        requires
            self.wf(),
            self.holds_local(local_x as int, local_y as int, local_z as int),
        ensures
            r == self.flat_index(local_x as int, local_y as int, local_z as int),
            r < self.cells(),
    {
        proof {
            lemma_flat_index_ranges(
                self.width as int,
                self.height as int,
                self.depth as int,
                local_x as int,
                local_y as int,
                local_z as int,
            );
            assert((local_y * self.depth + local_z) * self.width >= local_y * self.depth
                + local_z && local_y * self.depth + local_z >= local_y * self.depth) by (
            nonlinear_arith)
                requires
                    0 <= local_y,
                    0 <= local_z,
                    0 < self.width,
                    0 < self.depth,
            ;
        }
        (local_y * self.depth + local_z) * self.width + local_x
    }

    /// Index of the cell holding a world position, if the box holds it.
    pub fn index(self, position: WorldBlockPos) -> (r: Option<usize>)
        requires
            self.wf(),
        ensures
            match r {
                Some(index) => self.spec_index(position) == Some(index as int) && index
                    < self.cells(),
                None => self.spec_index(position) is None,
            },
    {
        let local_x = position.x as i64 - self.min.x as i64;
        let local_y = position.y as i64 - self.min.y as i64;
        let local_z = position.z as i64 - self.min.z as i64;
        if local_x < 0 || local_y < 0 || local_z < 0 || local_x >= self.width as i64 || local_y
            >= self.height as i64 || local_z >= self.depth as i64 {
            return None;
        }
        Some(self.local_index(local_x as usize, local_y as usize, local_z as usize))
    }
}

/// A cell raised by the flood fill, or one it started from.
pub open spec fn lit_from(initial: Seq<u8>, seeds: Seq<usize>, levels: Seq<u8>, k: int) -> bool {
    seeds.contains(k as usize) || levels[k] != initial[k]
}

/// Total darkness left in a light channel; every brightening lowers it.
spec fn darkness(levels: Seq<u8>) -> nat
    decreases levels.len(),
{
    if levels.len() == 0 {
        0
    } else {
        darkness(levels.drop_last()) + (255 - levels.last()) as nat
    }
}

proof fn lemma_darkness_update(levels: Seq<u8>, index: int, value: u8)
    requires
        0 <= index < levels.len(),
        levels[index] < value,
    ensures
        darkness(levels.update(index, value)) < darkness(levels),
    decreases levels.len(),
{
    let updated = levels.update(index, value);
    if index == levels.len() - 1 {
        assert(updated.drop_last() =~= levels.drop_last());
    } else {
        assert(updated.drop_last() =~= levels.drop_last().update(index, value));
        lemma_darkness_update(levels.drop_last(), index, value);
    }
}

/// Raises cell `index` to `level` and queues it, when the cell lets light through and is darker.
fn spread_to(
    index: usize,
    level: u8,
    levels: &mut Vec<u8>,
    transparent: &[u8],
    queue: &mut VecDeque<usize>,
)
    requires
        index < old(levels)@.len(),
        index < transparent@.len(),
    ensures
        if transparent@[index as int] != 0 && old(levels)@[index as int] < level {
            &&& final(levels)@ == old(levels)@.update(index as int, level)
            &&& final(queue)@ == old(queue)@.push(index)
        } else {
            &&& final(levels)@ == old(levels)@
            &&& final(queue)@ == old(queue)@
        },
{
    if transparent[index] != 0 && levels[index] < level {
        levels[index] = level;
        queue.push_back(index);
    }
}

/// The cells sharing a face with cell `index`: x-, x+, z-, z+, y-, y+.
fn neighbor_cells(bounds: LightBounds, index: usize) -> (r: [Option<usize>; 6])
    requires
        bounds.wf(),
        index < bounds.cells(),
    ensures
        r@[0] == if bounds.cell_x(index as int) > 0 {
            Some((index - 1) as usize)
        } else {
            None::<usize>
        },
        r@[1] == if bounds.cell_x(index as int) + 1 < bounds.width {
            Some((index + 1) as usize)
        } else {
            None::<usize>
        },
        r@[2] == if bounds.cell_z(index as int) > 0 {
            Some((index - bounds.width) as usize)
        } else {
            None::<usize>
        },
        r@[3] == if bounds.cell_z(index as int) + 1 < bounds.depth {
            Some((index + bounds.width) as usize)
        } else {
            None::<usize>
        },
        r@[4] == if bounds.cell_y(index as int) > 0 {
            Some((index - bounds.layer()) as usize)
        } else {
            None::<usize>
        },
        r@[5] == if bounds.cell_y(index as int) + 1 < bounds.height {
            Some((index + bounds.layer()) as usize)
        } else {
            None::<usize>
        },
        forall|m: int| 0 <= m < 6 && #[trigger] r@[m] is Some ==> r@[m]->0 < bounds.cells()
            && light_neighbors(bounds, index as int, r@[m]->0 as int),
{
    proof {
        lemma_cell_coordinates(bounds, index as int);
        lemma_flat_index_ranges(
            bounds.width as int,
            bounds.height as int,
            bounds.depth as int,
            bounds.cell_x(index as int),
            bounds.cell_y(index as int),
            bounds.cell_z(index as int),
        );
    }
    let width = bounds.width;
    let layer = bounds.width * bounds.depth;
    let local_x = index % width;
    let yz = index / width;
    let local_z = yz % bounds.depth;
    let local_y = yz / bounds.depth;
    [
        if local_x > 0 {
            Some(index - 1)
        } else {
            None
        },
        if local_x + 1 < width {
            Some(index + 1)
        } else {
            None
        },
        if local_z > 0 {
            Some(index - width)
        } else {
            None
        },
        if local_z + 1 < bounds.depth {
            Some(index + width)
        } else {
            None
        },
        if local_y > 0 {
            Some(index - layer)
        } else {
            None
        },
        if local_y + 1 < bounds.height {
            Some(index + layer)
        } else {
            None
        },
    ]
}

/// State of the flood fill between two queue pops.
spec fn flood_invariant(
    bounds: LightBounds,
    transparent: Seq<u8>,
    initial: Seq<u8>,
    seeds: Seq<usize>,
    levels: Seq<u8>,
    queue: Seq<usize>,
) -> bool {
    &&& bounds.wf()
    &&& levels.len() == bounds.cells()
    &&& initial.len() == bounds.cells()
    &&& transparent.len() == bounds.cells()
    &&& forall|m: int| 0 <= m < queue.len() ==> #[trigger] queue[m] < bounds.cells()
    &&& forall|m: int| 0 <= m < queue.len() ==> lit_from(initial, seeds, levels, #[trigger] queue[m] as int)
    &&& forall|k: int| 0 <= k < levels.len() ==> initial[k] <= #[trigger] levels[k]
    &&& forall|k: int| 0 <= k < levels.len() && #[trigger] levels[k] != initial[k] ==> transparent[k] != 0
    &&& forall|i: int, j: int|
        #![trigger light_neighbors(bounds, i, j), levels[i]]
        light_neighbors(bounds, i, j) && lit_from(initial, seeds, levels, i) && !queue.contains(
            i as usize,
        ) && levels[i] > 1 && transparent[j] != 0 ==> levels[j] + 1 >= levels[i]
    &&& forall|k: int|
        0 <= k < levels.len() && #[trigger] levels[k] != initial[k] ==> exists|j: int|
            light_neighbors(bounds, j, k) && lit_from(initial, seeds, levels, j) && #[trigger] levels[j]
                > levels[k]
}

/// One pop of the flood fill keeps its invariant: the popped cell has handed
/// its level minus one to every neighbour, and every raised cell is queued.
proof fn lemma_flood_step(
    bounds: LightBounds,
    transparent: Seq<u8>,
    initial: Seq<u8>,
    seeds: Seq<usize>,
    pre: Seq<u8>,
    popped_from: Seq<usize>,
    rest: Seq<usize>,
    index: int,
    candidates: Seq<Option<usize>>,
    levels: Seq<u8>,
    queue: Seq<usize>,
)
    requires
        flood_invariant(bounds, transparent, initial, seeds, pre, popped_from),
        popped_from.len() > 0,
        popped_from[0] == index,
        forall|k: usize| popped_from.contains(k) <==> (k == index || rest.contains(k)),
        forall|m: int| 0 <= m < rest.len() ==> rest[m] == popped_from[m + 1],
        rest.len() + 1 == popped_from.len(),
        pre[index] > 1,
        candidates.len() == 6,
        forall|j: int|
            light_neighbors(bounds, index, j) ==> exists|c: int|
                0 <= c < 6 && #[trigger] candidates[c] == Some(j as usize),
        forall|c: int|
            0 <= c < 6 && #[trigger] candidates[c] is Some ==> light_neighbors(
                bounds,
                index,
                candidates[c]->0 as int,
            ) && candidates[c]->0 < bounds.cells(),
        levels.len() == pre.len(),
        forall|k: int| 0 <= k < pre.len() ==> pre[k] <= #[trigger] levels[k],
        forall|k: int|
            0 <= k < pre.len() && #[trigger] levels[k] != pre[k] ==> levels[k] == pre[index] - 1
                && light_neighbors(bounds, index, k) && transparent[k] != 0 && queue.contains(
                k as usize,
            ),
        rest.len() <= queue.len(),
        queue.subrange(0, rest.len() as int) == rest,
        forall|p: int|
            rest.len() <= p < queue.len() ==> #[trigger] queue[p] < bounds.cells() && levels[queue[p] as int]
                != pre[queue[p] as int],
        forall|c: int|
            0 <= c < 6 && #[trigger] candidates[c] is Some && transparent[candidates[c]->0 as int]
                != 0 ==> levels[candidates[c]->0 as int] >= pre[index] - 1,
    ensures
        flood_invariant(bounds, transparent, initial, seeds, levels, queue),
{
    let next = pre[index] - 1;
    assert(levels[index] == pre[index]) by {
        if levels[index] != pre[index] {
            assert(light_neighbors(bounds, index, index));
        }
    }
    assert forall|m: int| 0 <= m < queue.len() implies #[trigger] queue[m] < bounds.cells()
        && lit_from(initial, seeds, levels, queue[m] as int) by {
        if m < rest.len() {
            assert(queue[m] == rest[m]);
            assert(popped_from[m + 1] == queue[m]);
        }
    }
    assert forall|i: int, j: int|
        #![trigger light_neighbors(bounds, i, j), levels[i]]
        light_neighbors(bounds, i, j) && lit_from(initial, seeds, levels, i) && !queue.contains(
            i as usize,
        ) && levels[i] > 1 && transparent[j] != 0 implies levels[j] + 1 >= levels[i] by {
        lemma_neighbor_in_box(bounds, i, j);
        if i == index {
            let c = choose|c: int| 0 <= c < 6 && #[trigger] candidates[c] == Some(j as usize);
            assert(candidates[c] is Some);
        } else {
            assert(levels[i] == pre[i]);
            assert(!rest.contains(i as usize)) by {
                if rest.contains(i as usize) {
                    let w = choose|w: int| 0 <= w < rest.len() && rest[w] == i as usize;
                    assert(queue[w] == i as usize);
                }
            }
            assert(!popped_from.contains(i as usize));
            assert(lit_from(initial, seeds, pre, i));
            assert(pre[j] <= levels[j]);
        }
    }
    assert forall|k: int|
        0 <= k < levels.len() && #[trigger] levels[k] != initial[k] implies exists|j: int|
            light_neighbors(bounds, j, k) && lit_from(initial, seeds, levels, j) && #[trigger] levels[j]
                > levels[k] by {
        if levels[k] != pre[k] {
            assert(popped_from.contains(index as usize));
            assert(lit_from(initial, seeds, pre, index));
            assert(light_neighbors(bounds, index, k) && lit_from(initial, seeds, levels, index)
                && levels[index] > levels[k]);
        } else {
            let j = choose|j: int|
                light_neighbors(bounds, j, k) && lit_from(initial, seeds, pre, j) && #[trigger] pre[j]
                    > pre[k];
            lemma_neighbor_in_box(bounds, j, k);
            assert(pre[j] <= levels[j]);
            assert(light_neighbors(bounds, j, k) && lit_from(initial, seeds, levels, j) && levels[j]
                > levels[k]);
        }
    }
}

/// With the queue drained, the flood fill invariant is the flood fill's result.
proof fn lemma_flood_done(
    bounds: LightBounds,
    transparent: Seq<u8>,
    initial: Seq<u8>,
    seeds: Seq<usize>,
    levels: Seq<u8>,
)
    requires
        flood_invariant(bounds, transparent, initial, seeds, levels, Seq::empty()),
    ensures
        flooded(bounds, transparent, initial, |k: int| seeds.contains(k as usize), levels),
{
    assert forall|i: int, j: int|
        #![trigger light_neighbors(bounds, i, j), levels[i]]
        light_neighbors(bounds, i, j) && ((|k: int| seeds.contains(k as usize))(i) || levels[i]
            != initial[i]) && levels[i] > 1 && transparent[j] != 0 implies levels[j] + 1
        >= levels[i] by {
        assert(lit_from(initial, seeds, levels, i));
        assert(!Seq::<usize>::empty().contains(i as usize));
    }
    assert forall|k: int|
        0 <= k < initial.len() && #[trigger] levels[k] != initial[k] implies exists|j: int|
            light_neighbors(bounds, j, k) && ((|k: int| seeds.contains(k as usize))(j) || levels[j]
                != initial[j]) && #[trigger] levels[j] > levels[k] by {
        let j = choose|j: int|
            light_neighbors(bounds, j, k) && lit_from(initial, seeds, levels, j) && #[trigger] levels[j]
                > levels[k];
        assert(light_neighbors(bounds, j, k) && ((|k: int| seeds.contains(k as usize))(j)
            || levels[j] != initial[j]) && levels[j] > levels[k]);
    }
}

/// `levels` is what spreading light from the `seed` cells over `initial` gives:
/// cells only brighten, and only where light passes; every seed or brightened
/// cell hands its level minus one to each neighbour that lets light through; and
/// every brightened cell has a seed or brightened neighbour brighter than itself.
pub open spec fn flooded(
    bounds: LightBounds,
    transparent: Seq<u8>,
    initial: Seq<u8>,
    seed: spec_fn(int) -> bool,
    levels: Seq<u8>,
) -> bool {
    &&& levels.len() == initial.len()
    &&& forall|k: int| 0 <= k < initial.len() ==> initial[k] <= #[trigger] levels[k]
    &&& forall|k: int|
        0 <= k < initial.len() && #[trigger] levels[k] != initial[k] ==> transparent[k] != 0
    &&& forall|i: int, j: int|
        #![trigger light_neighbors(bounds, i, j), levels[i]]
        light_neighbors(bounds, i, j) && (seed(i) || levels[i] != initial[i]) && levels[i] > 1
            && transparent[j] != 0 ==> levels[j] + 1 >= levels[i]
    &&& forall|k: int|
        0 <= k < initial.len() && #[trigger] levels[k] != initial[k] ==> exists|j: int|
            light_neighbors(bounds, j, k) && (seed(j) || levels[j] != initial[j]) && #[trigger] levels[j]
                > levels[k]
}

/// Spreads light from the queued cells: each step into a neighbouring cell that
/// lets light through costs one level, and a cell only ever brightens.
pub fn propagate_channel(
    levels: &mut Vec<u8>,
    transparent: &[u8],
    bounds: LightBounds,
    queue: VecDeque<usize>,
)
    requires
        bounds.wf(),
        old(levels)@.len() == bounds.cells(),
        transparent@.len() == bounds.cells(),
        forall|m: int| 0 <= m < queue@.len() ==> #[trigger] queue@[m] < bounds.cells(),
    ensures
        flooded(
            bounds,
            transparent@,
            old(levels)@,
            |k: int| queue@.contains(k as usize),
            final(levels)@,
        ),
        queue@.len() == 0 ==> final(levels)@ == old(levels)@,
{
    let ghost initial = levels@;
    let ghost seeds = queue@;
    let mut queue = queue;
    proof {
        assert forall|i: int, j: int|
            #![trigger light_neighbors(bounds, i, j), levels@[i]]
            light_neighbors(bounds, i, j) && lit_from(initial, seeds, levels@, i) && !queue@.contains(
                i as usize,
            ) && levels@[i] > 1 && transparent@[j] != 0 implies levels@[j] + 1 >= levels@[i] by {
            assert(seeds.contains(i as usize));
        }
    }
    loop
        invariant
            flood_invariant(bounds, transparent@, initial, seeds, levels@, queue@),
            initial == old(levels)@,
            seeds.len() == 0 ==> levels@ == initial && queue@.len() == 0,
        ensures
            flood_invariant(bounds, transparent@, initial, seeds, levels@, queue@),
            queue@.len() == 0,
            seeds.len() == 0 ==> levels@ == initial,
        decreases darkness(levels@), queue@.len(),
    {
        let ghost popped_from = queue@;
        let index = match queue.pop_front() {
            Some(index) => index,
            None => {
                break;
            },
        };
        let ghost rest = queue@;
        let ghost pre = levels@;
        assert(popped_from[0] == index);
        assert(index < bounds.cells());
        assert forall|k: usize| popped_from.contains(k) <==> (k == index || rest.contains(k)) by {
            if rest.contains(k) {
                let m = choose|m: int| 0 <= m < rest.len() && rest[m] == k;
                assert(popped_from[m + 1] == k);
            }
            if popped_from.contains(k) && k != index {
                let m = choose|m: int| 0 <= m < popped_from.len() && popped_from[m] == k;
                assert(rest[m - 1] == k);
            }
        }
        let level = levels[index];
        if level > 1 {
            let next_level = level - 1;
            let candidates = neighbor_cells(bounds, index);
            proof {
                assert forall|j: int| light_neighbors(bounds, index as int, j) implies exists|c: int|
                    0 <= c < 6 && #[trigger] candidates@[c] == Some(j as usize) by {
                    if bounds.cell_x(index as int) > 0 && j == index - 1 {
                        assert(candidates@[0] == Some(j as usize));
                    } else if bounds.cell_x(index as int) + 1 < bounds.width && j == index + 1 {
                        assert(candidates@[1] == Some(j as usize));
                    } else if bounds.cell_z(index as int) > 0 && j == index - bounds.width {
                        assert(candidates@[2] == Some(j as usize));
                    } else if bounds.cell_z(index as int) + 1 < bounds.depth && j == index
                        + bounds.width {
                        assert(candidates@[3] == Some(j as usize));
                    } else if bounds.cell_y(index as int) > 0 && j == index - bounds.layer() {
                        assert(candidates@[4] == Some(j as usize));
                    } else {
                        assert(candidates@[5] == Some(j as usize));
                    }
                }
            }
            let mut m: usize = 0;
            while m < 6
                invariant
                    m <= 6,
                    bounds.wf(),
                    index < bounds.cells(),
                    pre.len() == bounds.cells(),
                    levels@.len() == bounds.cells(),
                    transparent@.len() == bounds.cells(),
                    level == pre[index as int],
                    next_level == level - 1,
                    forall|c: int| 0 <= c < 6 && #[trigger] candidates@[c] is Some ==> light_neighbors(
                        bounds,
                        index as int,
                        candidates@[c]->0 as int,
                    ) && candidates@[c]->0 < bounds.cells(),
                    forall|k: int| 0 <= k < pre.len() ==> pre[k] <= #[trigger] levels@[k],
                    forall|k: int|
                        0 <= k < pre.len() && #[trigger] levels@[k] != pre[k] ==> levels@[k]
                            == next_level && light_neighbors(bounds, index as int, k)
                            && transparent@[k] != 0 && queue@.contains(k as usize),
                    rest.len() <= queue@.len(),
                    queue@.subrange(0, rest.len() as int) == rest,
                    forall|p: int|
                        rest.len() <= p < queue@.len() ==> #[trigger] queue@[p] < bounds.cells()
                            && levels@[queue@[p] as int] != pre[queue@[p] as int],
                    forall|c: int|
                        0 <= c < m && #[trigger] candidates@[c] is Some && transparent@[candidates@[c]->0 as int]
                            != 0 ==> levels@[candidates@[c]->0 as int] >= next_level,
                    darkness(levels@) < darkness(pre) || (levels@ == pre && queue@ == rest),
                decreases 6 - m,
            {
                if let Some(cell) = candidates[m] {
                    let ghost before = levels@;
                    let ghost queued = queue@;
                    spread_to(cell, next_level, levels, transparent, &mut queue);
                    proof {
                        if levels@ != before {
                            lemma_darkness_update(before, cell as int, next_level);
                            assert(queue@[queued.len() as int] == cell);
                            assert(queue@.subrange(0, rest.len() as int) =~= queued.subrange(
                                0,
                                rest.len() as int,
                            ));
                        }
                        assert forall|k: int|
                            0 <= k < pre.len() && #[trigger] levels@[k] != pre[k] implies queue@.contains(
                                k as usize,
                            ) by {
                            if levels@[k] != before[k] {
                                assert(queue@[queued.len() as int] == k as usize);
                            } else {
                                let w = choose|w: int| 0 <= w < queued.len() && queued[w] == k as usize;
                                assert(queue@[w] == k as usize);
                            }
                        }
                    }
                }
                m += 1;
            }
            proof {
                assert forall|m: int| 0 <= m < rest.len() implies rest[m] == popped_from[m + 1] by {}
                lemma_flood_step(
                    bounds,
                    transparent@,
                    initial,
                    seeds,
                    pre,
                    popped_from,
                    rest,
                    index as int,
                    candidates@,
                    levels@,
                    queue@,
                );
            }
        } else {
            proof {
                assert forall|i: int, j: int|
                    #![trigger light_neighbors(bounds, i, j), levels@[i]]
                    light_neighbors(bounds, i, j) && lit_from(initial, seeds, levels@, i)
                        && !queue@.contains(i as usize) && levels@[i] > 1 && transparent@[j]
                        != 0 implies levels@[j] + 1 >= levels@[i] by {
                    assert(!popped_from.contains(i as usize));
                }
                assert forall|m: int| 0 <= m < queue@.len() implies #[trigger] queue@[m]
                    < bounds.cells() && lit_from(initial, seeds, levels@, queue@[m] as int) by {
                    assert(popped_from[m + 1] == queue@[m]);
                }
            }
        }
    }
    proof {
        lemma_flood_done(bounds, transparent@, initial, seeds, levels@);
    }
}

/// Sky and block light of one cell.
#[derive(Clone, Copy, Debug, Default, PartialEq, Eq, Structural)]
pub struct LightLevels {
    pub sky: u8,
    pub block: u8,
}

impl LightBounds {
    /// Index of the column holding cell `i`.
    pub open spec fn column_of(self, i: int) -> int {
        self.cell_z(i) * self.width + self.cell_x(i)
    }

    /// World position of cell `i`.
    pub open spec fn cell_position(self, i: int) -> WorldBlockPos {
        WorldBlockPos {
            x: (self.min.x + self.cell_x(i)) as i32,
            y: (self.min.y + self.cell_y(i)) as i32,
            z: (self.min.z + self.cell_z(i)) as i32,
        }
    }

    /// Cell index of layer `y` in column `column`.
    pub open spec fn column_cell(self, column: int, y: int) -> int {
        self.flat_index(column % (self.width as int), y, column / (self.width as int))
    }
}

/// The block a loaded chunk holds at `position`, or `None` when its chunk is not loaded.
pub open spec fn stored_block(storage: Map<ChunkPos, ChunkView>, position: WorldBlockPos) -> Option<
    BlockId,
> {
    let chunk = position.spec_chunk_pos();
    let local = position.spec_local();
    if storage.contains_key(chunk) {
        Some(storage[chunk].blocks[local_index(local.0, local.1, local.2)])
    } else {
        None
    }
}

/// Cell `i` holds a loaded block that stops light.
#[verifier::opaque]
pub open spec fn stored_opaque(storage: Map<ChunkPos, ChunkView>, bounds: LightBounds, i: int) -> bool {
    match stored_block(storage, bounds.cell_position(i)) {
        Some(block) => !block_is_transparent(block@),
        None => false,
    }
}

/// Cell `i` lets light through: a loaded block says so itself; an unloaded cell
/// does when it lies above the terrain height predicted for its column.
#[verifier::opaque]
pub open spec fn passes_light(
    storage: Map<ChunkPos, ChunkView>,
    bounds: LightBounds,
    predicted: Seq<i32>,
    i: int,
) -> bool {
    match stored_block(storage, bounds.cell_position(i)) {
        Some(block) => block_is_transparent(block@),
        None => bounds.min.y + bounds.cell_y(i) > predicted[bounds.column_of(i)],
    }
}

/// Highest of the predicted terrain height and the loaded opaque blocks among the
/// lowest `layers` cells of a column.
#[verifier::opaque]
pub open spec fn column_top(
    storage: Map<ChunkPos, ChunkView>,
    bounds: LightBounds,
    predicted: Seq<i32>,
    column: int,
    layers: int,
) -> int
    decreases layers,
{
    if layers <= 0 {
        predicted[column] as int
    } else {
        let below = column_top(storage, bounds, predicted, column, layers - 1);
        let y = bounds.min.y + layers - 1;
        if stored_opaque(storage, bounds, bounds.column_cell(column, layers - 1)) && y > below {
            y
        } else {
            below
        }
    }
}

/// Cell `i` sees the sky: it lets light through and lies above every block of its column.
pub open spec fn sky_seed(
    storage: Map<ChunkPos, ChunkView>,
    bounds: LightBounds,
    predicted: Seq<i32>,
    i: int,
) -> bool {
    &&& passes_light(storage, bounds, predicted, i)
    &&& bounds.min.y + bounds.cell_y(i) > column_top(
        storage,
        bounds,
        predicted,
        bounds.column_of(i),
        bounds.height as int,
    )
}

/// Abstract light map: its box and, per cell, sky light, block light and whether light passes.
pub struct ChunkLightMapView {
    pub bounds: LightBounds,
    pub sky: Seq<u8>,
    pub block: Seq<u8>,
    pub transparent: Seq<u8>,
}

/// The map has one sky, block and transparency entry per cell of its box.
pub open spec fn light_map_wf(map: ChunkLightMapView) -> bool {
    &&& map.bounds.wf()
    &&& map.sky.len() == map.bounds.cells()
    &&& map.block.len() == map.bounds.cells()
    &&& map.transparent.len() == map.bounds.cells()
}

/// Sky and block light for the box of cells around one chunk.
pub struct ChunkLightMap {
    bounds: LightBounds,
    sky: Vec<u8>,
    block: Vec<u8>,
    transparent: Vec<u8>,
}

impl View for ChunkLightMap {
    type V = ChunkLightMapView;

    closed spec fn view(&self) -> ChunkLightMapView {
        ChunkLightMapView {
            bounds: self.bounds,
            sky: self.sky@,
            block: self.block@,
            transparent: self.transparent@,
        }
    }
}

/// Every cell is the cell of its own column at its own layer.
proof fn lemma_cell_in_column(bounds: LightBounds, i: int)
    requires
        bounds.wf(),
        0 <= i < bounds.cells(),
    ensures
        i == bounds.column_cell(bounds.column_of(i), bounds.cell_y(i)),
        0 <= bounds.column_of(i) < bounds.width * bounds.depth,
{
    lemma_cell_coordinates(bounds, i);
    let w = bounds.width as int;
    let c = bounds.column_of(i);
    vstd::arithmetic::div_mod::lemma_fundamental_div_mod_converse(c, w, bounds.cell_z(i), bounds.cell_x(i));
    assert(0 <= c < w * bounds.depth) by (nonlinear_arith)
        requires
            c == bounds.cell_z(i) * w + bounds.cell_x(i),
            0 <= bounds.cell_x(i) < w,
            0 <= bounds.cell_z(i) < bounds.depth,
    ;
}

/// Two seed predicates that agree on every cell give the same flood fill.
proof fn lemma_flooded_same_seeds(
    bounds: LightBounds,
    transparent: Seq<u8>,
    initial: Seq<u8>,
    a: spec_fn(int) -> bool,
    b: spec_fn(int) -> bool,
    levels: Seq<u8>,
)
    requires
        bounds.wf(),
        flooded(bounds, transparent, initial, a, levels),
        forall|k: int| 0 <= k < bounds.cells() ==> #[trigger] a(k) == b(k),
    ensures
        flooded(bounds, transparent, initial, b, levels),
{
    assert forall|i: int, j: int|
        #![trigger light_neighbors(bounds, i, j), levels[i]]
        light_neighbors(bounds, i, j) && (b(i) || levels[i] != initial[i]) && levels[i] > 1
            && transparent[j] != 0 implies levels[j] + 1 >= levels[i] by {
        assert(a(i) == b(i));
    }
    assert forall|k: int|
        0 <= k < initial.len() && #[trigger] levels[k] != initial[k] implies exists|j: int|
            light_neighbors(bounds, j, k) && (b(j) || levels[j] != initial[j]) && #[trigger] levels[j]
                > levels[k] by {
        let j = choose|j: int|
            light_neighbors(bounds, j, k) && (a(j) || levels[j] != initial[j]) && #[trigger] levels[j]
                > levels[k];
        lemma_neighbor_in_box(bounds, j, k);
        assert(a(j) == b(j));
    }
}

impl ChunkLightMap {
    /// Lights the box around `target`. Loaded chunks decide which cells let light
    /// through; elsewhere `predicted` gives the terrain height of each column of the
    /// box (`column_index` order), above which cells are open air.
    pub fn build(
        target: ChunkPos,
        storage: &ChunkStorage,
        registry: &BlockRegistry,
        predicted: &[i32],
    ) -> (r: Self)
        requires
            light_box_fits(target),
            predicted@.len() == 46 * 46,
        ensures
            r@.bounds == spec_around_chunk(target),
            light_map_wf(r@),
            forall|i: int|
                0 <= i < r@.bounds.cells() ==> #[trigger] r@.transparent[i] == if passes_light(
                    storage@,
                    r@.bounds,
                    predicted@,
                    i,
                ) {
                    1u8
                } else {
                    0u8
                },
            flooded(
                r@.bounds,
                r@.transparent,
                Seq::new(
                    r@.bounds.cells() as nat,
                    |i: int|
                        if sky_seed(storage@, r@.bounds, predicted@, i) {
                            MAX_LIGHT_LEVEL
                        } else {
                            0u8
                        },
                ),
                |i: int| sky_seed(storage@, r@.bounds, predicted@, i),
                r@.sky,
            ),
            r@.block == Seq::new(r@.bounds.cells() as nat, |i: int| 0u8),
    {
        let bounds = LightBounds::around_chunk(target);
        let volume = bounds.volume();
        let columns = bounds.width * bounds.depth;
        let ghost cells = bounds.cells();
        let ghost view = storage@;
        let ghost heights = predicted@;
        let mut transparent: Vec<u8> = vec![0u8; volume];
        let mut block: Vec<u8> = vec![0u8; volume];
        let mut ceilings: Vec<i32> = Vec::new();
        let mut block_queue: VecDeque<usize> = VecDeque::new();
        assert(transparent@ =~= Seq::new(cells as nat, |i: int| 0u8));
        assert(block@ =~= Seq::new(cells as nat, |i: int| 0u8));
        let mut column: usize = 0;
        while column < columns
            invariant
                bounds == spec_around_chunk(target),
                bounds.wf(),
                cells == bounds.cells(),
                volume == cells,
                columns == bounds.width * bounds.depth,
                view == storage@,
                heights == predicted@,
                heights.len() == columns,
                column <= columns,
                ceilings@.len() == column,
                transparent@.len() == cells,
                block@ == Seq::new(cells as nat, |i: int| 0u8),
                block_queue@.len() == 0,
                forall|c: int|
                    0 <= c < column ==> #[trigger] ceilings@[c] == column_top(
                        view,
                        bounds,
                        heights,
                        c,
                        bounds.height as int,
                    ),
                forall|i: int|
                    0 <= i < cells ==> #[trigger] transparent@[i] == if bounds.column_of(i)
                        < column && passes_light(view, bounds, heights, i) {
                        1u8
                    } else {
                        0u8
                    },
            decreases columns - column,
        {
            let local_x = column % bounds.width;
            let local_z = column / bounds.width;
            proof {
                vstd::arithmetic::div_mod::lemma_fundamental_div_mod(
                    column as int,
                    bounds.width as int,
                );
                assert(local_z < bounds.depth) by (nonlinear_arith)
                    requires
                        column == bounds.width * local_z + local_x,
                        column < bounds.width * bounds.depth,
                        0 <= local_x,
                        0 < bounds.width,
                ;
            }
            let mut ceiling: i32 = predicted[column];
            assert(ceiling == column_top(view, bounds, heights, column as int, 0)) by {
                reveal(column_top);
            }
            let mut local_y: usize = 0;
            while local_y < bounds.height
                invariant
                    bounds == spec_around_chunk(target),
                    bounds.wf(),
                    cells == bounds.cells(),
                    view == storage@,
                    heights == predicted@,
                    heights.len() == columns,
                    columns == bounds.width * bounds.depth,
                    column < columns,
                    local_x == (column as int) % (bounds.width as int),
                    local_z == (column as int) / (bounds.width as int),
                    local_x < bounds.width,
                    local_z < bounds.depth,
                    column == local_z * bounds.width + local_x,
                    local_y <= bounds.height,
                    transparent@.len() == cells,
                    block@ == Seq::new(cells as nat, |i: int| 0u8),
                    block_queue@.len() == 0,
                    ceiling == column_top(view, bounds, heights, column as int, local_y as int),
                    forall|i: int|
                        0 <= i < cells ==> #[trigger] transparent@[i] == if (bounds.column_of(i)
                            < column || (bounds.column_of(i) == column && bounds.cell_y(i)
                            < local_y)) && passes_light(view, bounds, heights, i) {
                            1u8
                        } else {
                            0u8
                        },
                decreases bounds.height - local_y,
            {
                let index = bounds.local_index(local_x, local_y, local_z);
                proof {
                    lemma_flat_index_decodes(
                        bounds,
                        local_x as int,
                        local_y as int,
                        local_z as int,
                    );
                }
                let world = WorldBlockPos::new(
                    bounds.min.x + local_x as i32,
                    bounds.min.y + local_y as i32,
                    bounds.min.z + local_z as i32,
                );
                assert(world == bounds.cell_position(index as int));
                let ghost below = ceiling;
                let lets_through = match storage.get_block(world) {
                    Some(voxel) => {
                        let clear = registry.is_transparent(voxel);
                        if !clear && world.y > ceiling {
                            ceiling = world.y;
                        }
                        let emitted = registry.emitted_light(voxel);
                        let emission = if emitted < MAX_LIGHT_LEVEL {
                            emitted
                        } else {
                            MAX_LIGHT_LEVEL
                        };
                        if emission > block[index] {
                            block[index] = emission;
                            block_queue.push_back(index);
                        }
                        clear
                    },
                    None => world.y > predicted[column],
                };
                proof {
                    assert(lets_through == passes_light(view, bounds, heights, index as int)) by {
                        reveal(passes_light);
                    }
                    assert(index as int == bounds.column_cell(column as int, local_y as int));
                    assert(ceiling == column_top(
                        view,
                        bounds,
                        heights,
                        column as int,
                        local_y + 1,
                    )) by {
                        reveal(column_top);
                        reveal(stored_opaque);
                    }
                }
                let ghost previous = transparent@;
                transparent[index] = if lets_through {
                    1
                } else {
                    0
                };
                proof {
                    assert forall|k: int| 0 <= k < cells implies #[trigger] transparent@[k] == if (
                    bounds.column_of(k) < column || (bounds.column_of(k) == column
                        && bounds.cell_y(k) < local_y + 1)) && passes_light(view, bounds, heights, k) {
                        1u8
                    } else {
                        0u8
                    } by {
                        if k != index {
                            lemma_cell_in_column(bounds, k);
                            assert(transparent@[k] == previous[k]);
                        } else {
                            lemma_cell_in_column(bounds, k);
                        }
                    }
                }
                local_y += 1;
            }
            ceilings.push(ceiling);
            column += 1;
        }
        let mut sky: Vec<u8> = vec![0u8; volume];
        let mut sky_queue: VecDeque<usize> = VecDeque::new();
        let ghost initial_sky = Seq::new(
            cells as nat,
            |i: int|
                if sky_seed(view, bounds, heights, i) {
                    MAX_LIGHT_LEVEL
                } else {
                    0u8
                },
        );
        let mut i: usize = 0;
        while i < volume
            invariant
                bounds == spec_around_chunk(target),
                bounds.wf(),
                cells == bounds.cells(),
                volume == cells,
                view == storage@,
                heights == predicted@,
                i <= volume,
                sky@.len() == cells,
                transparent@.len() == cells,
                ceilings@.len() == bounds.width * bounds.depth,
                forall|c: int|
                    0 <= c < bounds.width * bounds.depth ==> #[trigger] ceilings@[c] == column_top(
                        view,
                        bounds,
                        heights,
                        c,
                        bounds.height as int,
                    ),
                forall|k: int|
                    0 <= k < cells ==> #[trigger] transparent@[k] == if passes_light(
                        view,
                        bounds,
                        heights,
                        k,
                    ) {
                        1u8
                    } else {
                        0u8
                    },
                forall|k: int|
                    0 <= k < cells ==> #[trigger] sky@[k] == if k < i && sky_seed(
                        view,
                        bounds,
                        heights,
                        k,
                    ) {
                        MAX_LIGHT_LEVEL
                    } else {
                        0u8
                    },
                forall|m: int| 0 <= m < sky_queue@.len() ==> #[trigger] sky_queue@[m] < cells,
                forall|k: usize|
                    k < cells ==> (#[trigger] sky_queue@.contains(k) <==> (k < i && sky_seed(
                        view,
                        bounds,
                        heights,
                        k as int,
                    ))),
            decreases volume - i,
        {
            proof {
                lemma_cell_coordinates(bounds, i as int);
            }
            let local_x = i % bounds.width;
            let local_z = (i / bounds.width) % bounds.depth;
            let local_y = (i / bounds.width) / bounds.depth;
            let column = bounds.column_index(local_x, local_z);
            let world_y = bounds.min.y + local_y as i32;
            let ghost queued = sky_queue@;
            proof {
                lemma_cell_in_column(bounds, i as int);
                assert(column == bounds.column_of(i as int));
                assert((transparent@[i as int] != 0 && world_y > ceilings@[column as int]) == sky_seed(
                    view,
                    bounds,
                    heights,
                    i as int,
                ));
            }
            let seeded = transparent[i] != 0 && world_y > ceilings[column];
            let ghost before_sky = sky@;
            if seeded {
                sky[i] = MAX_LIGHT_LEVEL;
                sky_queue.push_back(i);
            }
            proof {
                assert forall|k: int| 0 <= k < cells implies #[trigger] sky@[k] == if k < i + 1
                    && sky_seed(view, bounds, heights, k) {
                    MAX_LIGHT_LEVEL
                } else {
                    0u8
                } by {
                    if k != i {
                        assert(sky@[k] == before_sky[k]);
                    }
                }
                assert forall|k: usize|
                    k < cells implies (#[trigger] sky_queue@.contains(k) <==> (k < i + 1
                        && sky_seed(view, bounds, heights, k as int))) by {
                    assert(queued.contains(k) == (k < i && sky_seed(view, bounds, heights, k as int)));
                    if seeded {
                        assert(sky_queue@[queued.len() as int] == i);
                        if queued.contains(k) {
                            let w = choose|w: int| 0 <= w < queued.len() && queued[w] == k;
                            assert(sky_queue@[w] == k);
                        }
                        if sky_queue@.contains(k) && k != i {
                            let w = choose|w: int| 0 <= w < sky_queue@.len() && sky_queue@[w] == k;
                            assert(queued[w] == k);
                        }
                    } else {
                        assert(sky_queue@ == queued);
                    }
                }
                assert forall|m: int| 0 <= m < sky_queue@.len() implies #[trigger] sky_queue@[m]
                    < cells by {
                    if m < queued.len() {
                        assert(sky_queue@[m] == queued[m]);
                    }
                }
            }
            i += 1;
        }
        assert(sky@ =~= initial_sky);
        let ghost sky_seeds = sky_queue@;
        propagate_channel(&mut sky, transparent.as_slice(), bounds, sky_queue);
        propagate_channel(&mut block, transparent.as_slice(), bounds, block_queue);
        proof {
            assert forall|k: int| 0 <= k < cells implies sky_seeds.contains(k as usize)
                == sky_seed(view, bounds, heights, k) by {
                assert(sky_seeds.contains((k as usize)) == sky_seed(
                    view,
                    bounds,
                    heights,
                    (k as usize) as int,
                ));
            }
            lemma_flooded_same_seeds(
                bounds,
                transparent@,
                initial_sky,
                |k: int| sky_seeds.contains(k as usize),
                |k: int| sky_seed(view, bounds, heights, k),
                sky@,
            );
        }
        Self { bounds, sky, block, transparent }
    }

    /// Light at a world position; outside the box both channels are dark.
    pub fn sample(&self, position: WorldBlockPos) -> (r: LightLevels)
        requires
            light_map_wf(self@),
        ensures
            r == light_at(self@, position),
    {
        match self.bounds.index(position) {
            Some(index) => LightLevels { sky: self.sky[index], block: self.block[index] },
            None => LightLevels { sky: 0, block: 0 },
        }
    }

    /// Whether the box holds `position` and light does not pass there.
    pub fn is_opaque(&self, position: WorldBlockPos) -> (r: bool)
        requires
            light_map_wf(self@),
        ensures
            r == opaque_at(self@, position),
    {
        match self.bounds.index(position) {
            Some(index) => self.transparent[index] == 0,
            None => false,
        }
    }
}

/// Light stored for a world position; outside the box both channels are dark.
pub open spec fn light_at(map: ChunkLightMapView, position: WorldBlockPos) -> LightLevels {
    match map.bounds.spec_index(position) {
        Some(i) => LightLevels { sky: map.sky[i], block: map.block[i] },
        None => LightLevels { sky: 0, block: 0 },
    }
}

/// The box holds `position` and light does not pass there.
pub open spec fn opaque_at(map: ChunkLightMapView, position: WorldBlockPos) -> bool {
    match map.bounds.spec_index(position) {
        Some(i) => map.transparent[i] == 0,
        None => false,
    }
}

/// Outward unit direction of a block face.
pub open spec fn face_direction(face: BlockFace) -> (int, int, int) {
    match face {
        BlockFace::Top => (0, 1, 0),
        BlockFace::Bottom => (0, -1, 0),
        BlockFace::North => (0, 0, -1),
        BlockFace::South => (0, 0, 1),
        BlockFace::East => (1, 0, 0),
        BlockFace::West => (-1, 0, 0),
    }
}

pub fn face_normal(face: BlockFace) -> (r: [i32; 3])
    ensures
        (r@[0] as int, r@[1] as int, r@[2] as int) == face_direction(face),
{
    match face {
        BlockFace::Top => [0, 1, 0],
        BlockFace::Bottom => [0, -1, 0],
        BlockFace::North => [0, 0, -1],
        BlockFace::South => [0, 0, 1],
        BlockFace::East => [1, 0, 0],
        BlockFace::West => [-1, 0, 0],
    }
}

/// `position` moved by `delta`.
pub fn offset(position: WorldBlockPos, delta: [i32; 3]) -> (r: WorldBlockPos)
    requires
        i32::MIN <= position.x + delta@[0] <= i32::MAX,
        i32::MIN <= position.y + delta@[1] <= i32::MAX,
        i32::MIN <= position.z + delta@[2] <= i32::MAX,
    ensures
        r.x == position.x + delta@[0],
        r.y == position.y + delta@[1],
        r.z == position.z + delta@[2],
{
    WorldBlockPos::new(position.x + delta[0], position.y + delta[1], position.z + delta[2])
}

pub fn add_offset(left: [i32; 3], right: [i32; 3]) -> (r: [i32; 3])
    requires
        forall|a: int| 0 <= a < 3 ==> i32::MIN <= #[trigger] left@[a] + right@[a] <= i32::MAX,
    ensures
        forall|a: int| 0 <= a < 3 ==> #[trigger] r@[a] == left@[a] + right@[a],
{
    [left[0] + right[0], left[1] + right[1], left[2] + right[2]]
}

/// Unit step along `axis`, towards the vertex's side of the face.
pub open spec fn side_step(axis: int, upper: bool, component: int) -> int {
    if component == axis {
        if upper {
            1
        } else {
            -1
        }
    } else {
        0
    }
}

/// The two in-plane steps from a face towards one of its vertices: along each axis
/// the face normal leaves at zero, lower axis first; `upper` says on which side of
/// the block's middle the vertex lies along each axis.
pub fn vertex_side_offsets(normal: [i32; 3], upper: [bool; 3]) -> (r: [[i32; 3]; 2])
    requires
        normal@[0] != 0 ==> normal@[1] == 0 && normal@[2] == 0,
        normal@[1] != 0 ==> normal@[0] == 0 && normal@[2] == 0,
        normal@[2] != 0 ==> normal@[0] == 0 && normal@[1] == 0,
        normal@[0] != 0 || normal@[1] != 0 || normal@[2] != 0,
    ensures
        ({
            let first = if normal@[0] != 0 {
                1int
            } else {
                0int
            };
            let second = if normal@[2] != 0 {
                1int
            } else {
                2int
            };
            &&& forall|c: int|
                0 <= c < 3 ==> #[trigger] r@[0]@[c] == side_step(first, upper@[first], c)
            &&& forall|c: int|
                0 <= c < 3 ==> #[trigger] r@[1]@[c] == side_step(second, upper@[second], c)
        }),
{
    let first: usize = if normal[0] != 0 {
        1
    } else {
        0
    };
    let second: usize = if normal[2] != 0 {
        1
    } else {
        2
    };
    let mut side_a = [0i32; 3];
    side_a[first] = if upper[first] {
        1
    } else {
        -1
    };
    let mut side_b = [0i32; 3];
    side_b[second] = if upper[second] {
        1
    } else {
        -1
    };
    assert(side_a@[0] == side_step(first as int, upper@[first as int], 0));
    assert(side_a@[1] == side_step(first as int, upper@[first as int], 1));
    assert(side_a@[2] == side_step(first as int, upper@[first as int], 2));
    assert(side_b@[0] == side_step(second as int, upper@[second as int], 0));
    assert(side_b@[1] == side_step(second as int, upper@[second as int], 1));
    assert(side_b@[2] == side_step(second as int, upper@[second as int], 2));
    [side_a, side_b]
}

/// How many of the three blocks around a face vertex darken it; two blocking
/// sides darken it fully whatever the corner holds.
pub fn occlusion_level(side_a_blocked: bool, side_b_blocked: bool, corner_blocked: bool) -> (r: u8)
    ensures
        r == if side_a_blocked && side_b_blocked {
            3
        } else {
            (if side_a_blocked {
                1int
            } else {
                0int
            }) + (if side_b_blocked {
                1int
            } else {
                0int
            }) + (if corner_blocked {
                1int
            } else {
                0int
            })
        },
{
    if side_a_blocked && side_b_blocked {
        3
    } else {
        (if side_a_blocked {
            1u8
        } else {
            0u8
        }) + (if side_b_blocked {
            1u8
        } else {
            0u8
        }) + (if corner_blocked {
            1u8
        } else {
            0u8
        })
    }
}

/// `position` moved by `step`.
pub open spec fn shifted(position: WorldBlockPos, step: (int, int, int)) -> WorldBlockPos {
    WorldBlockPos {
        x: (position.x + step.0) as i32,
        y: (position.y + step.1) as i32,
        z: (position.z + step.2) as i32,
    }
}

/// The two in-plane steps from a face of `face` towards the vertex picked by `upper`.
pub open spec fn face_side_steps(face: BlockFace, upper: Seq<bool>) -> (
    (int, int, int),
    (int, int, int),
) {
    let first = if face_direction(face).0 != 0 {
        1int
    } else {
        0int
    };
    let second = if face_direction(face).2 != 0 {
        1int
    } else {
        2int
    };
    (
        (
            side_step(first, upper[first], 0),
            side_step(first, upper[first], 1),
            side_step(first, upper[first], 2),
        ),
        (
            side_step(second, upper[second], 0),
            side_step(second, upper[second], 1),
            side_step(second, upper[second], 2),
        ),
    )
}

/// The light in front of one vertex of a block face: the four cells touching the
/// vertex on the face's outer side, and how many of the three beside the face cell
/// block light (see `occlusion_level`).
pub fn vertex_light_samples(
    block: WorldBlockPos,
    face: BlockFace,
    upper: [bool; 3],
    lights: &ChunkLightMap,
) -> (r: ([LightLevels; 4], u8))
    requires
        light_map_wf(lights@),
        i32::MIN + 2 <= block.x <= i32::MAX - 2,
        i32::MIN + 2 <= block.y <= i32::MAX - 2,
        i32::MIN + 2 <= block.z <= i32::MAX - 2,
    ensures
        ({
            let outside = shifted(block, face_direction(face));
            let (a, b) = face_side_steps(face, upper@);
            let corner = (a.0 + b.0, a.1 + b.1, a.2 + b.2);
            &&& r.0@[0] == light_at(lights@, outside)
            &&& r.0@[1] == light_at(lights@, shifted(outside, a))
            &&& r.0@[2] == light_at(lights@, shifted(outside, b))
            &&& r.0@[3] == light_at(lights@, shifted(outside, corner))
            &&& r.1 == if opaque_at(lights@, shifted(outside, a)) && opaque_at(
                lights@,
                shifted(outside, b),
            ) {
                3
            } else {
                (if opaque_at(lights@, shifted(outside, a)) {
                    1int
                } else {
                    0int
                }) + (if opaque_at(lights@, shifted(outside, b)) {
                    1int
                } else {
                    0int
                }) + (if opaque_at(lights@, shifted(outside, corner)) {
                    1int
                } else {
                    0int
                })
            }
        }),
{
    let normal = face_normal(face);
    let outside = offset(block, normal);
    let sides = vertex_side_offsets(normal, upper);
    let side_a = sides[0];
    let side_b = sides[1];
    let corner = add_offset(side_a, side_b);
    let at_a = offset(outside, side_a);
    let at_b = offset(outside, side_b);
    let at_corner = offset(outside, corner);
    let samples = [
        lights.sample(outside),
        lights.sample(at_a),
        lights.sample(at_b),
        lights.sample(at_corner),
    ];
    let occlusion = occlusion_level(
        lights.is_opaque(at_a),
        lights.is_opaque(at_b),
        lights.is_opaque(at_corner),
    );
    (samples, occlusion)
}

/// Every face looks at the neighbour on its own side of the block, for every
/// block position: north is one block towards -z, south towards +z, east
/// towards +x, west towards -x, top towards +y and bottom towards -y.
pub proof fn lemma_faces_look_at_their_own_side(position: WorldBlockPos)
    ensures
        shifted(position, face_direction(BlockFace::North)) == (WorldBlockPos {
            z: (position.z - 1) as i32,
            ..position
        }),
        shifted(position, face_direction(BlockFace::South)) == (WorldBlockPos {
            z: (position.z + 1) as i32,
            ..position
        }),
        shifted(position, face_direction(BlockFace::East)) == (WorldBlockPos {
            x: (position.x + 1) as i32,
            ..position
        }),
        shifted(position, face_direction(BlockFace::West)) == (WorldBlockPos {
            x: (position.x - 1) as i32,
            ..position
        }),
        shifted(position, face_direction(BlockFace::Top)) == (WorldBlockPos {
            y: (position.y + 1) as i32,
            ..position
        }),
        shifted(position, face_direction(BlockFace::Bottom)) == (WorldBlockPos {
            y: (position.y - 1) as i32,
            ..position
        }),
{
}

} // verus!
