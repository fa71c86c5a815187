//! The block texture atlas: every 32-pixel tile of the source image is placed
//! in a 64-pixel cell whose 16-pixel gutter repeats the tile's edge pixels, at
//! each of five mip levels, so texture filtering never mixes neighbouring tiles.

use vstd::prelude::*;

verus! {

pub const ATLAS_COLUMNS: u32 = 4;
pub const ATLAS_ROWS: u32 = 4;
pub const TILE_SIZE: u32 = 32;
pub const TILE_GUTTER: u32 = 16;
pub const ATLAS_CELL_SIZE: u32 = 64;
pub const MIP_LEVEL_COUNT: u32 = 5;

/// Width and height of the source image: the tiles packed without gutters.
pub const SOURCE_ATLAS_WIDTH: u32 = 128;

/// Width and height of the padded atlas at full resolution.
pub const ATLAS_WIDTH: u32 = 256;
pub const ATLAS_HEIGHT: u32 = 256;

/// Bytes of the RGBA8 source image.
pub const SOURCE_ATLAS_BYTES: usize = 65536;

/// Channel `c` of source pixel `(x, y)`.
pub open spec fn source_channel(source: Seq<u8>, x: int, y: int, c: int) -> int {
    source[(y * 128 + x) * 4 + c] as int
}

/// Channel `c` summed over the first `count` pixels of the row starting at `(x, y)`.
pub open spec fn row_sum(source: Seq<u8>, x: int, y: int, count: nat, c: int) -> int
    decreases count,
{
    if count == 0 {
        0
    } else {
        row_sum(source, x, y, (count - 1) as nat, c) + source_channel(source, x + count - 1, y, c)
    }
}

/// Channel `c` summed over `rows` rows of `width` pixels from `(x, y)`.
pub open spec fn box_sum(source: Seq<u8>, x: int, y: int, width: nat, rows: nat, c: int) -> int
    decreases rows,
{
    if rows == 0 {
        0
    } else {
        box_sum(source, x, y, width, (rows - 1) as nat, c) + row_sum(source, x, y + rows - 1, width, c)
    }
}

/// Channel `c` of the `scale` by `scale` source block at `(x, y)`, averaged
/// and rounded to nearest.
pub open spec fn spec_downsample(source: Seq<u8>, x: int, y: int, scale: nat, c: int) -> int {
    (box_sum(source, x, y, scale, scale, c) + (scale * scale) as int / 2) / ((scale * scale) as int)
}

/// Source pixels per atlas pixel at mip `level`.
pub open spec fn level_scale(level: nat) -> nat {
    if level == 0 {
        1
    } else if level == 1 {
        2
    } else if level == 2 {
        4
    } else if level == 3 {
        8
    } else {
        16
    }
}

/// Width and height of mip `level`.
pub open spec fn level_width(level: nat) -> nat {
    256nat / level_scale(level)
}

/// The source coordinate sampled for atlas coordinate `coord` at mip `level`:
/// inside a tile's cell, gutter pixels repeat the nearest edge pixel of the tile.
pub open spec fn source_coordinate(level: nat, coord: int) -> int {
    let scale = level_scale(level) as int;
    let cell = 64int / scale;
    let gutter = 16int / scale;
    let inner = 32int / scale;
    let within = coord % cell;
    let clamped = if within < gutter {
        0
    } else if within - gutter > inner - 1 {
        inner - 1
    } else {
        within - gutter
    };
    (coord / cell) * 32 + clamped * scale
}

/// Byte `i` of mip `level`, in rows of RGBA pixels.
pub open spec fn mip_byte(source: Seq<u8>, level: nat, i: int) -> u8 {
    let width = level_width(level) as int;
    let pixel = i / 4;
    spec_downsample(
        source,
        source_coordinate(level, pixel % width),
        source_coordinate(level, pixel / width),
        level_scale(level),
        i % 4,
    ) as u8
}

/// All bytes of mip `level`.
pub open spec fn mip_level_bytes(source: Seq<u8>, level: nat) -> Seq<u8> {
    let width = level_width(level);
    Seq::new(width * width * 4, |i: int| mip_byte(source, level, i))
}

/// The full mip chain: every level after the previous one.
pub open spec fn spec_mip_chain(source: Seq<u8>) -> Seq<u8> {
    mip_level_bytes(source, 0) + mip_level_bytes(source, 1) + mip_level_bytes(source, 2)
        + mip_level_bytes(source, 3) + mip_level_bytes(source, 4)
}

pub open spec fn mip_chain_prefix(source: Seq<u8>, levels: nat) -> Seq<u8>
    decreases levels,
{
    if levels == 0 {
        Seq::empty()
    } else {
        mip_chain_prefix(source, (levels - 1) as nat) + mip_level_bytes(source, (levels - 1) as nat)
    }
}

proof fn lemma_row_sum_bound(source: Seq<u8>, x: int, y: int, count: nat, c: int)
    ensures
        0 <= row_sum(source, x, y, count, c) <= 255 * count,
    decreases count,
{
    if count > 0 {
        lemma_row_sum_bound(source, x, y, (count - 1) as nat, c);
    }
}

proof fn lemma_box_sum_bound(source: Seq<u8>, x: int, y: int, width: nat, rows: nat, c: int)
    ensures
        0 <= box_sum(source, x, y, width, rows, c) <= 255 * width * rows,
    decreases rows,
{
    if rows > 0 {
        lemma_box_sum_bound(source, x, y, width, (rows - 1) as nat, c);
        lemma_row_sum_bound(source, x, y + rows - 1, width, c);
        assert(255 * width * (rows - 1) + 255 * width == 255 * width * rows) by (nonlinear_arith);
    }
}

/// Averages a `scale` by `scale` block of source pixels, rounding to nearest.
pub fn downsample_source_pixel(source: &[u8], x: u32, y: u32, scale: u32) -> (r: [u8; 4])
    requires
        source@.len() == SOURCE_ATLAS_BYTES,
        1 <= scale <= 16,
        x + scale <= SOURCE_ATLAS_WIDTH,
        y + scale <= SOURCE_ATLAS_WIDTH,
    ensures
        forall|c: int|
            0 <= c < 4 ==> #[trigger] r@[c] == spec_downsample(
                source@,
                x as int,
                y as int,
                scale as nat,
                c,
            ),
{
    let mut sum: [u32; 4] = [0, 0, 0, 0];
    let mut offset_y: u32 = 0;
    while offset_y < scale
        invariant
            source@.len() == SOURCE_ATLAS_BYTES,
            1 <= scale <= 16,
            x + scale <= 128,
            y + scale <= 128,
            offset_y <= scale,
            forall|c: int|
                0 <= c < 4 ==> #[trigger] sum@[c] == box_sum(
                    source@,
                    x as int,
                    y as int,
                    scale as nat,
                    offset_y as nat,
                    c,
                ),
        decreases scale - offset_y,
    {
        let mut offset_x: u32 = 0;
        while offset_x < scale
            invariant
                source@.len() == SOURCE_ATLAS_BYTES,
                1 <= scale <= 16,
                x + scale <= 128,
                y + scale <= 128,
                offset_y < scale,
                offset_x <= scale,
                forall|c: int|
                    0 <= c < 4 ==> #[trigger] sum@[c] == box_sum(
                        source@,
                        x as int,
                        y as int,
                        scale as nat,
                        offset_y as nat,
                        c,
                    ) + row_sum(source@, x as int, y + offset_y, offset_x as nat, c),
            decreases scale - offset_x,
        {
            let offset = (((y + offset_y) * SOURCE_ATLAS_WIDTH + x + offset_x) * 4) as usize;
            let mut channel: usize = 0;
            while channel < 4
                invariant
                    source@.len() == SOURCE_ATLAS_BYTES,
                    1 <= scale <= 16,
                    x + scale <= 128,
                    y + scale <= 128,
                    offset_y < scale,
                    offset_x < scale,
                    offset == ((y + offset_y) * 128 + x + offset_x) * 4,
                    channel <= 4,
                    forall|c: int|
                        0 <= c < channel ==> #[trigger] sum@[c] == box_sum(
                            source@,
                            x as int,
                            y as int,
                            scale as nat,
                            offset_y as nat,
                            c,
                        ) + row_sum(source@, x as int, y + offset_y, offset_x as nat + 1, c),
                    forall|c: int|
                        channel <= c < 4 ==> #[trigger] sum@[c] == box_sum(
                            source@,
                            x as int,
                            y as int,
                            scale as nat,
                            offset_y as nat,
                            c,
                        ) + row_sum(source@, x as int, y + offset_y, offset_x as nat, c),
                decreases 4 - channel,
            {
                proof {
                    let c = channel as int;
                    lemma_box_sum_bound(source@, x as int, y as int, scale as nat, offset_y as nat, c);
                    lemma_row_sum_bound(source@, x as int, y + offset_y, offset_x as nat, c);
                    assert(255 * scale * offset_y <= 255 * 16 * 16) by (nonlinear_arith)
                        requires
                            scale <= 16,
                            offset_y < scale,
                    ;
                }
                sum[channel] = sum[channel] + source[offset + channel] as u32;
                channel = channel + 1;
            }
            offset_x = offset_x + 1;
        }
        offset_y = offset_y + 1;
    }
    assert(1 <= scale * scale <= 256) by (nonlinear_arith)
        requires
            1 <= scale <= 16,
    ;
    let samples = scale * scale;
    let mut r: [u8; 4] = [0, 0, 0, 0];
    let mut channel: usize = 0;
    while channel < 4
        invariant
            source@.len() == SOURCE_ATLAS_BYTES,
            1 <= scale <= 16,
            samples == scale * scale,
            1 <= samples <= 256,
            channel <= 4,
            forall|c: int|
                0 <= c < 4 ==> #[trigger] sum@[c] == box_sum(
                    source@,
                    x as int,
                    y as int,
                    scale as nat,
                    scale as nat,
                    c,
                ),
            forall|c: int|
                0 <= c < channel ==> #[trigger] r@[c] == spec_downsample(
                    source@,
                    x as int,
                    y as int,
                    scale as nat,
                    c,
                ),
        decreases 4 - channel,
    {
        proof {
            lemma_box_sum_bound(source@, x as int, y as int, scale as nat, scale as nat, channel as int);
            let total = box_sum(source@, x as int, y as int, scale as nat, scale as nat, channel as int);
            assert((total + samples as int / 2) / (samples as int) <= 255 && total <= 65280) by (nonlinear_arith)
                requires
                    0 <= total <= 255 * scale * scale,
                    samples == scale * scale,
                    1 <= samples <= 256,
            ;
        }
        r[channel] = ((sum[channel] + samples / 2) / samples) as u8;
        channel = channel + 1;
    }
    r
}

proof fn lemma_pixel_index(p: int, width: int, px: int, py: int, c: int)
    requires
        0 < width,
        0 <= px < width,
        0 <= py,
        p == py * width + px,
        0 <= c < 4,
    ensures
        (4 * p + c) / 4 == p,
        (4 * p + c) % 4 == c,
        p % width == px,
        p / width == py,
{
    vstd::arithmetic::div_mod::lemma_fundamental_div_mod_converse(4 * p + c, 4, p, c);
    vstd::arithmetic::div_mod::lemma_fundamental_div_mod_converse(p, width, py, px);
}

fn level_parameters(level: u32) -> (r: (u32, u32, u32, u32))
    requires
        level < MIP_LEVEL_COUNT,
    ensures
        r.0 == level_scale(level as nat),
        r.1 == 32nat / level_scale(level as nat),
        r.2 == 16nat / level_scale(level as nat),
        r.3 == 64nat / level_scale(level as nat),
        r.1 * r.0 == 32,
        4 * r.3 == 256nat / level_scale(level as nat),
        r.3 == r.1 + 2 * r.2,
        1 <= r.1,
{
    match level {
        0 => (1, 32, 16, 64),
        1 => (2, 16, 8, 32),
        2 => (4, 8, 4, 16),
        3 => (8, 4, 2, 8),
        _ => (16, 2, 1, 4),
    }
}

/// Source coordinate sampled for atlas coordinate `coord` at a level with
/// the given scale, tile size, gutter and cell size.
fn sample_coordinate(coord: u32, scale: u32, inner: u32, gutter: u32, cell: u32, level: Ghost<nat>) -> (r: u32)
    requires
        level@ < 5,
        scale == level_scale(level@),
        inner == 32nat / level_scale(level@),
        gutter == 16nat / level_scale(level@),
        cell == 64nat / level_scale(level@),
        inner * scale == 32,
        cell == inner + 2 * gutter,
        1 <= inner,
        coord < 4 * cell,
    ensures
        r == source_coordinate(level@, coord as int),
        r + scale <= 128,
{
    let tile = coord / cell;
    let within = coord % cell;
    let clamped = if within < gutter {
        0
    } else if within - gutter > inner - 1 {
        inner - 1
    } else {
        within - gutter
    };
    assert(tile <= 3) by (nonlinear_arith)
        requires
            tile == coord / cell,
            coord < 4 * cell,
            cell >= 1,
    ;
    assert(clamped * scale + scale <= 32) by (nonlinear_arith)
        requires
            clamped <= inner - 1,
            inner * scale == 32,
    ;
    tile * 32 + clamped * scale
}

/// Builds mip `level` of the padded atlas, pixel row by pixel row.
fn build_mip_level(source: &[u8], level: u32) -> (r: Vec<u8>)
    requires
        source@.len() == SOURCE_ATLAS_BYTES,
        level < MIP_LEVEL_COUNT,
    ensures
        r@ == mip_level_bytes(source@, level as nat),
{
    let (scale, inner, gutter, cell) = level_parameters(level);
    let width = cell * ATLAS_COLUMNS;
    let ghost lv = level as nat;
    assert(width == level_width(lv));
    let mut out: Vec<u8> = Vec::new();
    let mut y: u32 = 0;
    while y < width
        invariant
            source@.len() == SOURCE_ATLAS_BYTES,
            lv == level as nat,
            lv < 5,
            scale == level_scale(lv),
            inner == 32nat / level_scale(lv),
            gutter == 16nat / level_scale(lv),
            cell == 64nat / level_scale(lv),
            inner * scale == 32,
            cell == inner + 2 * gutter,
            1 <= inner,
            width == 4 * cell,
            width == level_width(lv),
            4 <= width <= 256,
            y <= width,
            out@ == Seq::new((4 * (y * width)) as nat, |i: int| mip_byte(source@, lv, i)),
        decreases width - y,
    {
        let source_y = sample_coordinate(y, scale, inner, gutter, cell, Ghost(lv));
        let mut x: u32 = 0;
        while x < width
            invariant
                source@.len() == SOURCE_ATLAS_BYTES,
                lv == level as nat,
                lv < 5,
                scale == level_scale(lv),
                inner == 32nat / level_scale(lv),
                gutter == 16nat / level_scale(lv),
                cell == 64nat / level_scale(lv),
                inner * scale == 32,
                cell == inner + 2 * gutter,
                1 <= inner,
                width == 4 * cell,
                width == level_width(lv),
                4 <= width <= 256,
                y < width,
                x <= width,
                source_y == source_coordinate(lv, y as int),
                source_y + scale <= 128,
                out@ == Seq::new((4 * (y * width + x)) as nat, |i: int| mip_byte(source@, lv, i)),
            decreases width - x,
        {
            let source_x = sample_coordinate(x, scale, inner, gutter, cell, Ghost(lv));
            let rgba = downsample_source_pixel(source, source_x, source_y, scale);
            let ghost before = out@;
            let ghost p: int = y * width + x;
            assert(0 <= p < 65536) by (nonlinear_arith)
                requires
                    p == y * width + x,
                    y < width,
                    x < width,
                    width <= 256,
            ;
            let mut channel: usize = 0;
            while channel < 4
                invariant
                    source@.len() == SOURCE_ATLAS_BYTES,
                    0 <= p < 65536,
                    p == y * width + x,
                    x < width,
                    4 <= width <= 256,
                    lv < 5,
                    width == level_width(lv),
                    channel <= 4,
                    source_x == source_coordinate(lv, x as int),
                    source_y == source_coordinate(lv, y as int),
                    scale == level_scale(lv),
                    forall|c: int|
                        0 <= c < 4 ==> #[trigger] rgba@[c] == spec_downsample(
                            source@,
                            source_x as int,
                            source_y as int,
                            scale as nat,
                            c,
                        ),
                    out@ == Seq::new((4 * p + channel) as nat, |i: int| mip_byte(source@, lv, i)),
                decreases 4 - channel,
            {
                proof {
                    lemma_pixel_index(p, width as int, x as int, y as int, channel as int);
                    assert(rgba@[channel as int] == mip_byte(source@, lv, 4 * p + channel));
                }
                out.push(rgba[channel]);
                channel = channel + 1;
                assert(out@ =~= Seq::new(
                    (4 * p + channel) as nat,
                    |i: int| mip_byte(source@, lv, i),
                ));
            }
            x = x + 1;
            assert(4 * (y * width + x) == 4 * p + 4);
        }
        assert(y * width + width == (y + 1) * width) by (nonlinear_arith);
        y = y + 1;
    }
    assert(4 * (y * width) == width * width * 4) by (nonlinear_arith)
        requires
            y == width,
    ;
    out
}

/// Builds every mip level of the padded atlas from the RGBA8 source image,
/// one level after another, starting at full resolution.
pub fn build_padded_mip_chain(source: &[u8]) -> (r: Vec<u8>)
    requires
        source@.len() == SOURCE_ATLAS_BYTES,
    ensures
        r@ == spec_mip_chain(source@),
{
    let mut output: Vec<u8> = Vec::new();
    let mut level: u32 = 0;
    while level < MIP_LEVEL_COUNT
        invariant
            source@.len() == SOURCE_ATLAS_BYTES,
            level <= MIP_LEVEL_COUNT,
            output@ == mip_chain_prefix(source@, level as nat),
        decreases MIP_LEVEL_COUNT - level,
    {
        let mut pixels = build_mip_level(source, level);
        output.append(&mut pixels);
        level = level + 1;
    }
    assert(mip_chain_prefix(source@, 5) =~= spec_mip_chain(source@)) by {
        reveal_with_fuel(mip_chain_prefix, 6);
        assert(Seq::<u8>::empty() + mip_level_bytes(source@, 0) =~= mip_level_bytes(source@, 0));
    }
    output
}

/// Every gutter pixel repeats the nearest edge pixel of its tile: on each mip
/// level, the columns (and likewise rows) left of a tile sample the same
/// source pixels as the tile's first column, and those right of it the same
/// as its last column.
pub proof fn lemma_gutter_repeats_tile_edge(level: nat, tile: int, k: int)
    requires
        level < 5,
        0 <= tile < 4,
        0 <= k < 16int / (level_scale(level) as int),
    ensures
        ({
            let scale = level_scale(level) as int;
            let cell = 64int / scale;
            let gutter = 16int / scale;
            let inner = 32int / scale;
            &&& source_coordinate(level, tile * cell + k) == source_coordinate(
                level,
                tile * cell + gutter,
            )
            &&& source_coordinate(level, tile * cell + cell - 1 - k) == source_coordinate(
                level,
                tile * cell + gutter + inner - 1,
            )
        }),
{
    let scale = level_scale(level) as int;
    let cell = 64int / scale;
    let gutter = 16int / scale;
    let inner = 32int / scale;
    assert(cell == inner + 2 * gutter && gutter >= 1 && inner >= 2);
    vstd::arithmetic::div_mod::lemma_fundamental_div_mod_converse(tile * cell + k, cell, tile, k);
    vstd::arithmetic::div_mod::lemma_fundamental_div_mod_converse(
        tile * cell + gutter,
        cell,
        tile,
        gutter,
    );
    vstd::arithmetic::div_mod::lemma_fundamental_div_mod_converse(
        tile * cell + cell - 1 - k,
        cell,
        tile,
        cell - 1 - k,
    );
    vstd::arithmetic::div_mod::lemma_fundamental_div_mod_converse(
        tile * cell + gutter + inner - 1,
        cell,
        tile,
        gutter + inner - 1,
    );
}

} // verus!
