use rustcraft::meshing::atlas::{
    build_padded_mip_chain, downsample_source_pixel, ATLAS_CELL_SIZE, ATLAS_COLUMNS, ATLAS_ROWS,
    ATLAS_WIDTH, MIP_LEVEL_COUNT, SOURCE_ATLAS_BYTES, SOURCE_ATLAS_WIDTH, TILE_GUTTER, TILE_SIZE,
};

/// A source image whose every pixel differs from its neighbours.
fn patterned_source() -> Vec<u8> {
    let mut source = vec![0; SOURCE_ATLAS_BYTES];
    for y in 0..SOURCE_ATLAS_WIDTH {
        for x in 0..SOURCE_ATLAS_WIDTH {
            let offset = ((y * SOURCE_ATLAS_WIDTH + x) * 4) as usize;
            source[offset] = (x * 2) as u8;
            source[offset + 1] = (y * 2) as u8;
            source[offset + 2] = ((x + y) % 256) as u8;
            source[offset + 3] = 255;
        }
    }
    source
}

fn mip_pixel(data: &[u8], offset: usize, width: u32, x: u32, y: u32) -> &[u8] {
    let start = offset + ((y * width + x) * 4) as usize;
    &data[start..start + 4]
}

#[test]
fn atlas_has_padded_mips_and_minification_filtering() {
    let data = build_padded_mip_chain(&patterned_source());
    assert_eq!(
        data.len(),
        (0..MIP_LEVEL_COUNT)
            .map(|level| {
                let width = ATLAS_WIDTH >> level;
                (width * width * 4) as usize
            })
            .sum::<usize>()
    );
}

#[test]
fn every_mip_replicates_tile_edges_into_its_gutter() {
    let data = build_padded_mip_chain(&patterned_source());
    let mut level_offset = 0;

    for level in 0..MIP_LEVEL_COUNT {
        let width = ATLAS_WIDTH >> level;
        let cell = ATLAS_CELL_SIZE >> level;
        let gutter = TILE_GUTTER >> level;
        let inner = TILE_SIZE >> level;
        for tile_y in 0..ATLAS_ROWS {
            for tile_x in 0..ATLAS_COLUMNS {
                let x = tile_x * cell;
                let y = tile_y * cell;
                let sample_y = y + gutter;
                let sample_x = x + gutter;
                assert_eq!(
                    mip_pixel(&data, level_offset, width, x, sample_y),
                    mip_pixel(&data, level_offset, width, sample_x, sample_y)
                );
                assert_eq!(
                    mip_pixel(&data, level_offset, width, x + cell - 1, sample_y),
                    mip_pixel(&data, level_offset, width, sample_x + inner - 1, sample_y)
                );
                assert_eq!(
                    mip_pixel(&data, level_offset, width, sample_x, y),
                    mip_pixel(&data, level_offset, width, sample_x, sample_y)
                );
                assert_eq!(
                    mip_pixel(&data, level_offset, width, sample_x, y + cell - 1),
                    mip_pixel(&data, level_offset, width, sample_x, sample_y + inner - 1)
                );
            }
        }
        level_offset += (width * width * 4) as usize;
    }
}

#[test]
fn full_resolution_tiles_are_copied_unchanged() {
    let source = patterned_source();
    let data = build_padded_mip_chain(&source);
    // Tile (1, 0) starts at source x = 32 and at atlas x = 64 + 16.
    assert_eq!(mip_pixel(&data, 0, ATLAS_WIDTH, 80, 16), mip_pixel(&source, 0, 128, 32, 0));
    assert_eq!(mip_pixel(&data, 0, ATLAS_WIDTH, 111, 47), mip_pixel(&source, 0, 128, 63, 31));
}

#[test]
fn downsampling_rounds_the_block_average() {
    let mut source = vec![0; SOURCE_ATLAS_BYTES];
    source[0] = 1;
    source[4] = 2;
    source[128 * 4] = 2;
    source[128 * 4 + 4] = 2;
    assert_eq!(downsample_source_pixel(&source, 0, 0, 2)[0], 2);
    assert_eq!(downsample_source_pixel(&source, 0, 0, 1)[0], 1);
    source[0] = 0;
    assert_eq!(downsample_source_pixel(&source, 0, 0, 2)[0], 2);
    source[4] = 0;
    assert_eq!(downsample_source_pixel(&source, 0, 0, 2)[0], 1);
}
