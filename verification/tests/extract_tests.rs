use just_tile::extract::{
    extract_tile_from_cog, resample_to_tile, stitch_chunk, stitch_chunks, ChunkRead, Quad,
    TILE_SIZE,
};
use just_tile::geotiff::Real;
use just_tile::plan::TileExtractionPlan;
use just_tile::raster::{Pixel, Raster};
use std::cell::RefCell;

const BLANK: Pixel = (0, 0, 0, 0);

fn plan(width: u32, height: u32, tw: u32, th: u32, is_rgba: bool) -> TileExtractionPlan {
    let zero = Real { bits: 0 };
    TileExtractionPlan {
        ifd_index: 0,
        scale_factor: zero,
        ifd_corners: [(zero, zero); 4],
        start_col: 0,
        end_col: width.div_ceil(tw) - 1,
        start_row: 0,
        end_row: height.div_ceil(th) - 1,
        tw,
        th,
        current_width: width,
        current_height: height,
        is_rgba,
    }
}

/// Samples for a chunk whose rows are `stride` pixels apart; each sample tells its pixel.
fn samples(stride: usize, rows: usize, channels: usize, first: u8) -> Vec<u8> {
    let mut data = Vec::new();
    for y in 0..rows {
        for x in 0..stride {
            for c in 0..channels {
                data.push(first.wrapping_add((y * 16 + x * 4 + c) as u8));
            }
        }
    }
    data
}

fn blend(_: u32, _: u32, quad: Quad) -> Pixel {
    quad.p00
}

#[test]
fn chunks_are_put_side_by_side() {
    let plan = plan(4, 4, 2, 2, true);
    let asked = RefCell::new(Vec::new());
    let read = |number: u32| {
        asked.borrow_mut().push(number);
        ChunkRead::Pixels(samples(2, 2, 4, 60 * number as u8))
    };
    let buffer = stitch_chunks(&plan, &read).unwrap();
    assert_eq!(*asked.borrow(), vec![0, 1, 2, 3]);
    assert_eq!((buffer.width(), buffer.height()), (4, 4));
    assert_eq!(buffer.get(0, 0), (0, 1, 2, 3));
    assert_eq!(buffer.get(1, 0), (4, 5, 6, 7));
    assert_eq!(buffer.get(1, 1), (20, 21, 22, 23));
    assert_eq!(buffer.get(2, 0), (60, 61, 62, 63));
    assert_eq!(buffer.get(0, 2), (120, 121, 122, 123));
    assert_eq!(buffer.get(3, 3), (200, 201, 202, 203));
}

#[test]
fn pixels_without_alpha_are_opaque() {
    let plan = plan(2, 2, 2, 2, false);
    let buffer = stitch_chunks(&plan, &|_| ChunkRead::Pixels(samples(2, 2, 3, 0))).unwrap();
    assert_eq!(buffer.get(0, 0), (0, 1, 2, 255));
    assert_eq!(buffer.get(1, 1), (20, 21, 22, 255));
}

#[test]
fn planned_chunks_keep_their_numbers_and_places() {
    let mut plan = plan(6, 6, 2, 2, true);
    plan.start_col = 1;
    plan.start_row = 2;
    let asked = RefCell::new(Vec::new());
    let read = |number: u32| {
        asked.borrow_mut().push(number);
        ChunkRead::Pixels(vec![number as u8; 16])
    };
    let buffer = stitch_chunks(&plan, &read).unwrap();
    assert_eq!(*asked.borrow(), vec![7, 8]);
    assert_eq!((buffer.width(), buffer.height()), (4, 2));
    assert_eq!(buffer.get(0, 0), (7, 7, 7, 7));
    assert_eq!(buffer.get(3, 1), (8, 8, 8, 8));
}

#[test]
fn chunks_at_the_far_edge_are_cut_off() {
    let plan = plan(3, 3, 2, 2, true);
    let read = |number: u32| {
        let (width, height) = [(2, 2), (1, 2), (2, 1), (1, 1)][number as usize];
        ChunkRead::Pixels(vec![number as u8 + 1; width * height * 4])
    };
    let buffer = stitch_chunks(&plan, &read).unwrap();
    assert_eq!(buffer.get(1, 1), (1, 1, 1, 1));
    assert_eq!(buffer.get(2, 1), (2, 2, 2, 2));
    assert_eq!(buffer.get(3, 1), BLANK);
    assert_eq!(buffer.get(1, 2), (3, 3, 3, 3));
    assert_eq!(buffer.get(1, 3), BLANK);
    assert_eq!(buffer.get(2, 2), (4, 4, 4, 4));
    assert_eq!(buffer.get(3, 3), BLANK);
}

#[test]
fn rows_padded_to_blocks_are_found() {
    // The filled part is 3 by 2 pixels: blocks of 16, blocks of 8, and rows of 5 pixels.
    for (stride, rows) in [(16, 16), (8, 8), (5, 2)] {
        let plan = plan(3, 2, 4, 4, true);
        let mut buffer = Raster::new(4, 4);
        stitch_chunk(&mut buffer, &plan, 0, 0, &samples(stride, rows, 4, 0));
        assert_eq!(buffer.get(2, 0), (8, 9, 10, 11), "{}", stride);
        assert_eq!(buffer.get(0, 1), (16, 17, 18, 19), "{}", stride);
        assert_eq!(buffer.get(2, 1), (24, 25, 26, 27), "{}", stride);
        assert_eq!(buffer.get(3, 0), BLANK);
        assert_eq!(buffer.get(0, 2), BLANK);
    }
}

#[test]
fn samples_of_odd_length_are_read_without_padding() {
    let plan = plan(3, 2, 4, 4, true);
    let mut data = samples(3, 2, 4, 0);
    data.push(99);
    let mut buffer = Raster::new(4, 4);
    stitch_chunk(&mut buffer, &plan, 0, 0, &data);
    assert_eq!(buffer.get(0, 1), (16, 17, 18, 19));
}

#[test]
fn pixels_beyond_the_samples_stay_blank() {
    let plan = plan(2, 2, 2, 2, true);
    let mut buffer = Raster::new(2, 2);
    stitch_chunk(&mut buffer, &plan, 0, 0, &samples(2, 1, 4, 0));
    assert_eq!(buffer.get(1, 0), (4, 5, 6, 7));
    assert_eq!(buffer.get(0, 1), BLANK);
    assert_eq!(buffer.get(1, 1), BLANK);
}

#[test]
fn chunks_with_inconsistent_sizes_stay_blank() {
    let plan = plan(4, 2, 2, 2, true);
    let read = |number: u32| {
        if number == 0 {
            ChunkRead::InconsistentSizes
        } else {
            ChunkRead::Pixels(vec![9; 16])
        }
    };
    let buffer = stitch_chunks(&plan, &read).unwrap();
    assert_eq!(buffer.get(0, 0), BLANK);
    assert_eq!(buffer.get(2, 0), (9, 9, 9, 9));
}

#[test]
fn unreadable_chunks_end_the_extraction() {
    let plan = plan(4, 2, 2, 2, true);
    let broken = |number: u32| {
        if number == 1 {
            ChunkRead::Failed("no data".to_string())
        } else {
            ChunkRead::Pixels(vec![9; 16])
        }
    };
    assert_eq!(
        stitch_chunks(&plan, &broken).err().unwrap(),
        "Failed to read chunk 1: no data"
    );
    let wide = |_: u32| ChunkRead::OtherFormat;
    let result = extract_tile_from_cog(&plan, &wide, &|_, _| None, &blend);
    assert_eq!(result.err().unwrap(), "Unexpected memory format from chunk 0");
}

#[test]
fn tiles_are_resampled_from_four_neighbours() {
    let mut plan = plan(4, 4, 4, 4, true);
    let mut buffer = Raster::new(4, 4);
    for y in 0..4u32 {
        for x in 0..4u32 {
            buffer.put(x, y, (x as u8, y as u8, 0, 100));
        }
    }
    let locate = |tx: u32, ty: u32| {
        if tx == 255 { None } else { Some((tx as i64 - 1, ty as i64 - 1)) }
    };
    let mix = |tx: u32, _: u32, quad: Quad| {
        (tx as u8, quad.p10.0 * 10 + quad.p00.0, quad.p11.1 * 10 + quad.p01.1, quad.p01.3)
    };
    let tile = resample_to_tile(&plan, &buffer, &locate, &mix);
    assert_eq!((tile.width(), tile.height()), (TILE_SIZE, TILE_SIZE));
    assert_eq!(tile.get(0, 1), BLANK);
    assert_eq!(tile.get(1, 0), BLANK);
    assert_eq!(tile.get(1, 1), (1, 10, 11, 100));
    assert_eq!(tile.get(3, 2), (3, 32, 22, 100));
    assert_eq!(tile.get(4, 2), BLANK);
    assert_eq!(tile.get(2, 4), BLANK);
    assert_eq!(tile.get(255, 1), BLANK);
    plan.is_rgba = false;
    let tile = resample_to_tile(&plan, &buffer, &locate, &mix);
    assert_eq!(tile.get(3, 2), (3, 32, 22, 255));
}

#[test]
fn an_extracted_tile_shows_the_chunks() {
    let plan = plan(4, 4, 2, 2, true);
    let read = |number: u32| ChunkRead::Pixels(vec![number as u8 + 1; 16]);
    let locate = |tx: u32, ty: u32| Some((tx as i64, ty as i64));
    let tile = extract_tile_from_cog(&plan, &read, &locate, &blend).ok().unwrap();
    assert_eq!(tile.get(0, 0), (1, 1, 1, 1));
    assert_eq!(tile.get(2, 0), (2, 2, 2, 2));
    assert_eq!(tile.get(1, 2), (3, 3, 3, 3));
    assert_eq!(tile.get(2, 2), (4, 4, 4, 4));
    assert_eq!(tile.get(3, 2), BLANK);
    assert_eq!(tile.get(255, 255), BLANK);
}
