//! Cutting a map tile out of the chunks of an image.

use crate::plan::{
    law_chunks_just_cover_the_image, law_planned_chunks_fill_the_buffer, lemma_count_is_known,
    steps_over, TileExtractionPlan,
};
use crate::raster::{Pixel, Raster};
use crate::text::{decimal, decimal_string, joined};
use vstd::prelude::*;

verus! {

/// The width and height of a map tile.
pub const TILE_SIZE: u32 = 256;

/// How reading a chunk of an image ended.
#[derive(Debug)]
pub enum ChunkRead {
    /// With the chunk's samples, of eight bits each.
    Pixels(Vec<u8>),
    /// With samples of another kind.
    OtherFormat,
    /// With the complaint that the chunk has another size than it should, as padding chunks do.
    InconsistentSizes,
    /// With another error.
    Failed(String),
}

/// The number of samples in a pixel of the image.
pub open spec fn channels(plan: TileExtractionPlan) -> int {
    if plan.is_rgba {
        4
    } else {
        3
    }
}

/// The number of pixels along one side of a chunk that the image fills: a chunk at the far edge
/// may be cut off.
pub open spec fn filled(index: int, count: int, extent: int, step: int) -> int {
    if index == count - 1 && extent % step != 0 {
        extent % step
    } else {
        step
    }
}

/// The filled width of the chunks in a column.
pub open spec fn filled_width(plan: TileExtractionPlan, col: int) -> int {
    filled(col, plan.chunks_across(), plan.current_width as int, plan.tw as int)
}

/// The filled height of the chunks in a row.
pub open spec fn filled_height(plan: TileExtractionPlan, row: int) -> int {
    filled(row, plan.chunks_down(), plan.current_height as int, plan.th as int)
}

/// The least multiple of `unit` that is not less than `n`.
pub open spec fn rounded_up(n: int, unit: int) -> int {
    steps_over(n, unit) * unit
}

/// The number of pixels from one row of a chunk's samples to the next. Samples beyond those of
/// the filled part pad it to blocks of 16 or of 8 pixels, or else pad each row alike.
pub open spec fn stride(len: int, width: int, height: int, channels: int) -> int {
    if len <= width * height * channels {
        width
    } else if rounded_up(width, 16) * rounded_up(height, 16) * channels == len {
        rounded_up(width, 16)
    } else if rounded_up(width, 8) * rounded_up(height, 8) * channels == len {
        rounded_up(width, 8)
    } else if len % (height * channels) == 0 {
        len / (height * channels)
    } else {
        width
    }
}

/// The pixel that a chunk's samples hold for a column and row of the chunk, if they hold one. A
/// pixel without an alpha channel is opaque.
pub open spec fn chunk_pixel(
    plan: TileExtractionPlan,
    row: int,
    col: int,
    samples: Seq<u8>,
    px: int,
    py: int,
) -> Option<Pixel> {
    let width = filled_width(plan, col);
    let height = filled_height(plan, row);
    let n = channels(plan);
    let i = (py * stride(samples.len() as int, width, height, n) + px) * n;
    if px < width && py < height && i + n <= samples.len() {
        Some(
            (samples[i], samples[i + 1], samples[i + 2], if plan.is_rgba {
                samples[i + 3]
            } else {
                255
            }),
        )
    } else {
        None
    }
}

/// Counts the pixels along one side of a chunk that the image fills.
fn count_filled(index: u32, count: u32, extent: u32, step: u32) -> (n: u32)
    requires
        step > 0,
        count > 0,
    ensures
        n == filled(index as int, count as int, extent as int, step as int),
        0 < n <= step,
{
    if index == count - 1 && extent % step != 0 {
        extent % step
    } else {
        step
    }
}

/// Finds out how far apart the rows of a chunk's samples are.
fn find_stride(len: usize, width: u32, height: u32, channels: u32) -> (found: usize)
    requires
        width > 0,
        height > 0,
        3 <= channels <= 4,
        width * height * channels <= usize::MAX,
    ensures
        found == stride(len as int, width as int, height as int, channels as int),
        found >= width,
        height * found * channels <= len || found == width,
{
    let w: u128 = width as u128;
    let h: u128 = height as u128;
    let n: u128 = channels as u128;
    let total: u128 = len as u128;
    let w16: u128 = (w + 15) / 16 * 16;
    let h16: u128 = (h + 15) / 16 * 16;
    let w8: u128 = (w + 7) / 8 * 8;
    let h8: u128 = (h + 7) / 8 * 8;
    assert(width <= usize::MAX) by (nonlinear_arith)
        requires
            width * height * channels <= usize::MAX,
            width > 0,
            height > 0,
            channels >= 3,
    ;
    assert(w * h * n <= usize::MAX);
    assert(w16 * h16 * n <= 0x2_0000_0000 * 0x2_0000_0000 * 4 && w16 * h16 <= 0x2_0000_0000
        * 0x2_0000_0000) by (nonlinear_arith)
        requires
            w16 <= 0x2_0000_0000,
            h16 <= 0x2_0000_0000,
            n <= 4,
    ;
    assert(w8 * h8 * n <= 0x2_0000_0000 * 0x2_0000_0000 * 4 && w8 * h8 <= 0x2_0000_0000
        * 0x2_0000_0000) by (nonlinear_arith)
        requires
            w8 <= 0x2_0000_0000,
            h8 <= 0x2_0000_0000,
            n <= 4,
    ;
    assert(w * h <= w * h * n) by (nonlinear_arith)
        requires
            n >= 1,
    ;
    assert(0 < h * n <= 0x4_0000_0000) by (nonlinear_arith)
        requires
            0 < h <= 0x1_0000_0000,
            3 <= n <= 4,
    ;
    if total <= w * h * n {
        return width as usize;
    }
    if w16 * h16 * n == total {
        assert(h * w16 * n <= total && w16 <= total) by (nonlinear_arith)
            requires
                0 < h <= h16,
                w16 * h16 * n == total,
                n >= 1,
        ;
        return w16 as usize;
    }
    if w8 * h8 * n == total {
        assert(h * w8 * n <= total && w8 <= total) by (nonlinear_arith)
            requires
                0 < h <= h8,
                w8 * h8 * n == total,
                n >= 1,
        ;
        return w8 as usize;
    }
    if total % (h * n) == 0 {
        let found: u128 = total / (h * n);
        assert(found <= total && h * found * n <= total && w <= found) by (nonlinear_arith)
            requires
                found == total as int / (h * n),
                h * n > 0,
                w * h * n < total,
        ;
        return found as usize;
    }
    width as usize
}

/// Copies the pixels that a chunk's samples hold to the chunk's place among the planned chunks.
pub fn stitch_chunk(
    buffer: &mut Raster,
    plan: &TileExtractionPlan,
    row: u32,
    col: u32,
    samples: &Vec<u8>,
)
    requires
        plan.wf(),
        plan.covers(row as int, col as int),
        old(buffer).wf(),
        old(buffer).columns() == plan.buffer_width(),
        old(buffer).rows() == plan.buffer_height(),
    ensures
        final(buffer).wf(),
        final(buffer).columns() == old(buffer).columns(),
        final(buffer).rows() == old(buffer).rows(),
        forall|x: int, y: int|
            #![trigger final(buffer).at(x, y)]
            final(buffer).has(x, y) ==> {
                let px = x - (col - plan.start_col) * plan.tw;
                let py = y - (row - plan.start_row) * plan.th;
                final(buffer).at(x, y) == if 0 <= px < plan.tw && 0 <= py < plan.th {
                    match chunk_pixel(*plan, row as int, col as int, samples@, px, py) {
                        Some(pixel) => pixel,
                        None => old(buffer).at(x, y),
                    }
                } else {
                    old(buffer).at(x, y)
                }
            },
{
    let n: u32 = if plan.is_rgba { 4 } else { 3 };
    let across: u32 = plan.count_across();
    let down: u32 = plan.count_down();
    proof {
        lemma_steps_positive(plan.current_width as int, plan.tw as int);
        lemma_steps_positive(plan.current_height as int, plan.th as int);
        lemma_chunk_fits(plan.start_col, col, plan.end_col, plan.tw);
        lemma_chunk_fits(plan.start_row, row, plan.end_row, plan.th);
    }
    let width: u32 = count_filled(col, across, plan.current_width, plan.tw);
    let height: u32 = count_filled(row, down, plan.current_height, plan.th);
    assert(width * height * n <= 4 * plan.buffer_width() * plan.buffer_height())
        by (nonlinear_arith)
        requires
            0 <= width <= plan.buffer_width(),
            0 <= height <= plan.buffer_height(),
            0 <= n <= 4,
    ;
    let dx: u32 = (col - plan.start_col) * plan.tw;
    let dy: u32 = (row - plan.start_row) * plan.th;
    let len: usize = samples.len();
    let step: usize = find_stride(len, width, height, n);
    let ghost before = *buffer;
    let mut py: u32 = 0;
    while py < height
        invariant
            py <= height <= plan.th,
            width <= plan.tw,
            buffer.wf(),
            buffer.columns() == before.columns() == plan.buffer_width(),
            buffer.rows() == before.rows() == plan.buffer_height(),
            dx + plan.tw <= plan.buffer_width() <= u32::MAX,
            dy + plan.th <= plan.buffer_height() <= u32::MAX,
            n == channels(*plan),
            len == samples@.len(),
            width == filled_width(*plan, col as int),
            height == filled_height(*plan, row as int),
            step == stride(len as int, width as int, height as int, n as int),
            step >= width,
            height * step * n <= len || step == width,
            width * height * n <= usize::MAX,
            forall|x: int, y: int|
                #![trigger buffer.at(x, y)]
                buffer.has(x, y) ==> buffer.at(x, y) == stitched_so_far(
                    *plan,
                    before,
                    row as int,
                    col as int,
                    samples@,
                    dx as int,
                    dy as int,
                    py as int,
                    0,
                    x,
                    y,
                ),
        decreases height - py,
    {
        let mut px: u32 = 0;
        while px < width
            invariant
                py < height <= plan.th,
                px <= width <= plan.tw,
                buffer.wf(),
                buffer.columns() == before.columns() == plan.buffer_width(),
                buffer.rows() == before.rows() == plan.buffer_height(),
                dx + plan.tw <= plan.buffer_width() <= u32::MAX,
                dy + plan.th <= plan.buffer_height() <= u32::MAX,
                n == channels(*plan),
                len == samples@.len(),
                width == filled_width(*plan, col as int),
                height == filled_height(*plan, row as int),
                step == stride(len as int, width as int, height as int, n as int),
                step >= width,
                height * step * n <= len || step == width,
                width * height * n <= usize::MAX,
                forall|x: int, y: int|
                    #![trigger buffer.at(x, y)]
                    buffer.has(x, y) ==> buffer.at(x, y) == stitched_so_far(
                        *plan,
                        before,
                        row as int,
                        col as int,
                        samples@,
                        dx as int,
                        dy as int,
                        py as int,
                        px as int,
                        x,
                        y,
                    ),
            decreases width - px,
        {
            proof {
                lemma_sample_index(
                    py as int,
                    px as int,
                    step as int,
                    width as int,
                    height as int,
                    n as int,
                );
            }
            let i: usize = (py as usize * step + px as usize) * n as usize;
            if i + n as usize <= len {
                let alpha: u8 = if plan.is_rgba { samples[i + 3] } else { 255 };
                buffer.put(
                    dx + px,
                    dy + py,
                    (samples[i], samples[i + 1], samples[i + 2], alpha),
                );
            }
            px = px + 1;
        }
        py = py + 1;
    }
}

/// The pixel of the buffer after the rows of a chunk above `py` were copied and, of row `py`, the
/// columns before `px`.
spec fn stitched_so_far(
    plan: TileExtractionPlan,
    before: Raster,
    row: int,
    col: int,
    samples: Seq<u8>,
    dx: int,
    dy: int,
    py: int,
    px: int,
    x: int,
    y: int,
) -> Pixel {
    if dx <= x < dx + plan.tw && dy <= y < dy + plan.th && (y - dy < py || y - dy == py && x - dx
        < px) {
        match chunk_pixel(plan, row, col, samples, x - dx, y - dy) {
            Some(pixel) => pixel,
            None => before.at(x, y),
        }
    } else {
        before.at(x, y)
    }
}

proof fn lemma_steps_positive(extent: int, step: int)
    requires
        extent > 0,
        step > 0,
    ensures
        steps_over(extent, step) > 0,
{
    assert((extent + step - 1) / step > 0) by (nonlinear_arith)
        requires
            extent > 0,
            step > 0,
    ;
}

proof fn lemma_chunk_fits(start: u32, at: u32, end: u32, step: u32)
    requires
        start <= at <= end,
    ensures
        0 <= (at - start) * step,
        (at - start) * step + step <= (end - start + 1) * step,
{
    assert((at - start) * step + step <= (end - start + 1) * step && 0 <= (at - start) * step)
        by (nonlinear_arith)
        requires
            start <= at <= end,
    ;
}

proof fn lemma_sample_index(py: int, px: int, step: int, width: int, height: int, n: int)
    requires
        0 <= py < height,
        0 <= px < width <= step,
        n >= 1,
    ensures
        0 <= py * step,
        0 <= py * step + px,
        py * step <= py * step + px <= (py * step + px) * n,
        (py * step + px) * n + n <= height * step * n,
        step == width ==> height * step * n == width * height * n,
{
    assert(0 <= py * step) by (nonlinear_arith)
        requires
            0 <= py,
            0 <= step,
    ;
    assert(py * step + step <= height * step) by (nonlinear_arith)
        requires
            py + 1 <= height,
            0 <= step,
    ;
    assert((py * step + px) * n + n <= height * step * n) by (nonlinear_arith)
        requires
            py * step + px + 1 <= height * step,
            n >= 1,
    ;
    assert(py * step + px <= (py * step + px) * n) by (nonlinear_arith)
        requires
            0 <= py * step + px,
            n >= 1,
    ;
    assert(width * height * n == height * width * n) by (nonlinear_arith);
}

/// The message about a chunk that cannot be used, if there is one.
pub open spec fn read_error(number: u32, read: ChunkRead) -> Option<Seq<char>> {
    match read {
        ChunkRead::Pixels(_) => None,
        ChunkRead::InconsistentSizes => None,
        ChunkRead::OtherFormat => Some(
            "Unexpected memory format from chunk "@ + decimal(number as nat),
        ),
        ChunkRead::Failed(e) => Some(
            "Failed to read chunk "@ + decimal(number as nat) + ": "@ + e@,
        ),
    }
}

/// The row in which the chunk lies that holds row `y` of the planned chunks.
pub open spec fn row_at(plan: TileExtractionPlan, y: int) -> int {
    plan.start_row + y / plan.th as int
}

/// The column in which the chunk lies that holds column `x` of the planned chunks.
pub open spec fn col_at(plan: TileExtractionPlan, x: int) -> int {
    plan.start_col + x / plan.tw as int
}

/// The pixel of the planned chunks, side by side, that stands in column `x` and row `y`, where
/// `reads` says how reading the chunk in each row and column ended: blank where no samples were
/// read for it.
pub open spec fn stitched_pixel(
    plan: TileExtractionPlan,
    reads: Map<(int, int), ChunkRead>,
    x: int,
    y: int,
) -> Pixel {
    let row = row_at(plan, y);
    let col = col_at(plan, x);
    if reads.contains_key((row, col)) {
        match reads[(row, col)] {
            ChunkRead::Pixels(samples) => match chunk_pixel(
                plan,
                row,
                col,
                samples@,
                x % plan.tw as int,
                y % plan.th as int,
            ) {
                Some(pixel) => pixel,
                None => (0u8, 0u8, 0u8, 0u8),
            },
            _ => (0u8, 0u8, 0u8, 0u8),
        }
    } else {
        (0u8, 0u8, 0u8, 0u8)
    }
}

/// Whether a raster holds the planned chunks side by side.
pub open spec fn is_stitched(
    plan: TileExtractionPlan,
    reads: Map<(int, int), ChunkRead>,
    buffer: Raster,
) -> bool {
    &&& buffer.wf()
    &&& buffer.columns() == plan.buffer_width()
    &&& buffer.rows() == plan.buffer_height()
    &&& forall|x: int, y: int|
        #![trigger buffer.at(x, y)]
        buffer.has(x, y) ==> buffer.at(x, y) == stitched_pixel(plan, reads, x, y)
}

/// Whether the chunk in row `r` and column `c` is planned and comes before the one in row `row`
/// and column `col`: the chunks are read row by row.
pub open spec fn read_before(
    plan: TileExtractionPlan,
    r: int,
    c: int,
    row: int,
    col: int,
) -> bool {
    plan.covers(r, c) && (r < row || r == row && c < col)
}

/// Whether `reads` holds a usable answer of `read_chunk` for every planned chunk that comes before
/// the one in a row and column, and nothing else.
pub open spec fn usable_reads<R: Fn(u32) -> ChunkRead>(
    plan: TileExtractionPlan,
    read_chunk: R,
    reads: Map<(int, int), ChunkRead>,
    row: int,
    col: int,
) -> bool {
    forall|r: int, c: int|
        #![trigger reads.contains_key((r, c))]
        {
            &&& reads.contains_key((r, c)) <==> read_before(plan, r, c, row, col)
            &&& reads.contains_key((r, c)) ==> {
                let number = plan.chunk_number(r, c) as u32;
                &&& call_ensures(read_chunk, (number,), reads[(r, c)])
                &&& read_error(number, reads[(r, c)]) is None
            }
        }
}

/// Whether a buffer can come of reading the planned chunks, each of which was usable.
pub open spec fn can_be_stitched<R: Fn(u32) -> ChunkRead>(
    plan: TileExtractionPlan,
    read_chunk: R,
    buffer: Raster,
) -> bool {
    exists|reads: Map<(int, int), ChunkRead>|
        {
            &&& #[trigger] usable_reads(
                plan,
                read_chunk,
                reads,
                plan.end_row + 1,
                plan.start_col as int,
            )
            &&& is_stitched(plan, reads, buffer)
        }
}

/// Whether a message can come of reading the planned chunks, the first of them that is not usable
/// being the one that it names.
pub open spec fn can_be_unreadable<R: Fn(u32) -> ChunkRead>(
    plan: TileExtractionPlan,
    read_chunk: R,
    message: Seq<char>,
) -> bool {
    exists|reads: Map<(int, int), ChunkRead>, row: int, col: int, read: ChunkRead|
        {
            &&& plan.covers(row, col)
            &&& #[trigger] usable_reads(plan, read_chunk, reads, row, col)
            &&& #[trigger] call_ensures(
                read_chunk,
                (plan.chunk_number(row, col) as u32,),
                read,
            )
            &&& read_error(plan.chunk_number(row, col) as u32, read) == Some(message)
        }
}

proof fn lemma_place_in_chunk(start: int, at: int, step: int, x: int)
    requires
        step > 0,
        start <= at,
        0 <= x,
    ensures
        (0 <= x - (at - start) * step < step) <==> start + x / step == at,
        start + x / step == at ==> x - (at - start) * step == x % step,
{
    vstd::arithmetic::div_mod::lemma_fundamental_div_mod(x, step);
    let q = x / step;
    let k = at - start;
    assert(x == step * q + x % step);
    if 0 <= x - k * step < step {
        vstd::arithmetic::div_mod::lemma_fundamental_div_mod_converse(x, step, k, x - k * step);
    }
    assert(step * q == q * step) by (nonlinear_arith);
}

/// Reads the planned chunks and puts them side by side. `read_chunk` reads the chunk with a given
/// number; a chunk with inconsistent sizes stays blank, any other failure ends the reading.
pub fn stitch_chunks<R>(plan: &TileExtractionPlan, read_chunk: &R) -> (result: Result<
    Raster,
    String,
>) where R: Fn(u32) -> ChunkRead
    requires
        plan.wf(),
        forall|row: int, col: int| #[trigger]
            plan.covers(row, col) ==> call_requires(
                *read_chunk,
                (plan.chunk_number(row, col) as u32,),
            ),
    ensures
        match result {
            Ok(buffer) => can_be_stitched(*plan, *read_chunk, buffer),
            Err(message) => can_be_unreadable(*plan, *read_chunk, message@),
        },
{
    proof {
        lemma_chunk_fits(plan.start_col, plan.end_col, plan.end_col, plan.tw);
        lemma_chunk_fits(plan.start_row, plan.end_row, plan.end_row, plan.th);
        assert(plan.end_col - plan.start_col + 1 <= plan.buffer_width()) by (nonlinear_arith)
            requires
                plan.buffer_width() == (plan.end_col - plan.start_col + 1) * plan.tw,
                plan.tw >= 1,
                plan.end_col >= plan.start_col,
        ;
        assert(plan.end_row - plan.start_row + 1 <= plan.buffer_height()) by (nonlinear_arith)
            requires
                plan.buffer_height() == (plan.end_row - plan.start_row + 1) * plan.th,
                plan.th >= 1,
                plan.end_row >= plan.start_row,
        ;
    }
    let width: u32 = (plan.end_col - plan.start_col + 1) * plan.tw;
    let height: u32 = (plan.end_row - plan.start_row + 1) * plan.th;
    assert(4 * width <= 4 * width * height) by (nonlinear_arith)
        requires
            height >= 1,
    ;
    let mut buffer = Raster::new(width, height);
    let ghost mut reads = Map::<(int, int), ChunkRead>::empty();
    let mut row: u64 = plan.start_row as u64;
    while row <= plan.end_row as u64
        invariant
            plan.wf(),
            plan.start_row <= row <= plan.end_row + 1,
            forall|r: int, c: int| #[trigger]
                plan.covers(r, c) ==> call_requires(
                    *read_chunk,
                    (plan.chunk_number(r, c) as u32,),
                ),
            usable_reads(*plan, *read_chunk, reads, row as int, plan.start_col as int),
            is_stitched(*plan, reads, buffer),
        decreases plan.end_row + 1 - row,
    {
        let mut col: u64 = plan.start_col as u64;
        while col <= plan.end_col as u64
            invariant
                plan.wf(),
                plan.start_row <= row <= plan.end_row,
                plan.start_col <= col <= plan.end_col + 1,
                forall|r: int, c: int| #[trigger]
                    plan.covers(r, c) ==> call_requires(
                        *read_chunk,
                        (plan.chunk_number(r, c) as u32,),
                    ),
                usable_reads(*plan, *read_chunk, reads, row as int, col as int),
                is_stitched(*plan, reads, buffer),
            decreases plan.end_col + 1 - col,
        {
            assert(plan.covers(row as int, col as int));
            let number: u32 = plan.number_of_chunk(row as u32, col as u32);
            let read = read_chunk(number);
            let ghost reads_before = reads;
            let ghost before = buffer;
            match &read {
                ChunkRead::Pixels(samples) => {
                    stitch_chunk(&mut buffer, plan, row as u32, col as u32, samples);
                },
                ChunkRead::InconsistentSizes => {},
                ChunkRead::OtherFormat => {
                    let digits = decimal_string(number as u64);
                    return Err(joined("Unexpected memory format from chunk ", digits.as_str()));
                },
                ChunkRead::Failed(e) => {
                    let digits = decimal_string(number as u64);
                    let mut message = joined("Failed to read chunk ", digits.as_str());
                    message.append(": ");
                    message.append(e.as_str());
                    return Err(message);
                },
            }
            proof {
                reads = reads.insert((row as int, col as int), read);
                assert forall|x: int, y: int|
                    #![trigger buffer.at(x, y)]
                    buffer.has(x, y) implies buffer.at(x, y) == stitched_pixel(
                    *plan,
                    reads,
                    x,
                    y,
                ) by {
                    assert(before.has(x, y));
                    assert(before.at(x, y) == stitched_pixel(*plan, reads_before, x, y));
                    lemma_place_in_chunk(
                        plan.start_col as int,
                        col as int,
                        plan.tw as int,
                        x,
                    );
                    lemma_place_in_chunk(
                        plan.start_row as int,
                        row as int,
                        plan.th as int,
                        y,
                    );
                    assert(!reads_before.contains_key((row as int, col as int)));
                }
                assert(usable_reads(*plan, *read_chunk, reads, row as int, col + 1)) by {
                    assert forall|r: int, c: int|
                        #![trigger reads.contains_key((r, c))]
                        {
                            &&& reads.contains_key((r, c)) <==> read_before(
                                *plan,
                                r,
                                c,
                                row as int,
                                col + 1,
                            )
                            &&& reads.contains_key((r, c)) ==> {
                                let at = plan.chunk_number(r, c) as u32;
                                &&& call_ensures(*read_chunk, (at,), reads[(r, c)])
                                &&& read_error(at, reads[(r, c)]) is None
                            }
                        } by {
                        if r != row || c != col {
                            assert(reads.contains_key((r, c)) == reads_before.contains_key((r, c)));
                        }
                    }
                }
            }
            col = col + 1;
        }
        assert(usable_reads(*plan, *read_chunk, reads, row + 1, plan.start_col as int));
        row = row + 1;
    }
    Ok(buffer)
}

/// The four pixels around a position.
#[derive(Debug, Clone, Copy)]
pub struct Quad {
    pub p00: Pixel,
    pub p10: Pixel,
    pub p01: Pixel,
    pub p11: Pixel,
}

/// A pixel as it is sampled: where the image has no alpha channel every pixel is opaque, one that
/// was not read too.
pub open spec fn sampled(plan: TileExtractionPlan, pixel: Pixel) -> Pixel {
    if plan.is_rgba {
        pixel
    } else {
        (pixel.0, pixel.1, pixel.2, 255)
    }
}

/// Whether a column and row, and the ones after them, lie in a raster.
pub open spec fn has_quad(buffer: Raster, x: int, y: int) -> bool {
    0 <= x && x + 1 < buffer.columns() && 0 <= y && y + 1 < buffer.rows()
}

/// The four pixels in a column and the next of a row and the next.
pub open spec fn quad_at(plan: TileExtractionPlan, buffer: Raster, x: int, y: int) -> Quad {
    Quad {
        p00: sampled(plan, buffer.at(x, y)),
        p10: sampled(plan, buffer.at(x + 1, y)),
        p01: sampled(plan, buffer.at(x, y + 1)),
        p11: sampled(plan, buffer.at(x + 1, y + 1)),
    }
}

/// Whether `pixel` is what resampling gives for column `tx` and row `ty` of the tile: the blend of
/// the four pixels around the position that `locate` gives, if the buffer has them, and else
/// transparent black.
pub open spec fn is_resampled<L, B>(
    plan: TileExtractionPlan,
    buffer: Raster,
    locate: L,
    blend: B,
    tx: u32,
    ty: u32,
    pixel: Pixel,
) -> bool where L: Fn(u32, u32) -> Option<(i64, i64)>, B: Fn(u32, u32, Quad) -> Pixel {
    exists|place: Option<(i64, i64)>|
        {
            &&& #[trigger] call_ensures(locate, (tx, ty), place)
            &&& match place {
                Some((x, y)) => if has_quad(buffer, x as int, y as int) {
                    call_ensures(
                        blend,
                        (tx, ty, quad_at(plan, buffer, x as int, y as int)),
                        pixel,
                    )
                } else {
                    pixel == (0u8, 0u8, 0u8, 0u8)
                },
                None => pixel == (0u8, 0u8, 0u8, 0u8),
            }
        }
}

/// Whether a raster is the tile that resampling a buffer gives.
pub open spec fn is_resampled_tile<L, B>(
    plan: TileExtractionPlan,
    buffer: Raster,
    locate: L,
    blend: B,
    tile: Raster,
) -> bool where L: Fn(u32, u32) -> Option<(i64, i64)>, B: Fn(u32, u32, Quad) -> Pixel {
    &&& tile.wf()
    &&& tile.columns() == TILE_SIZE
    &&& tile.rows() == TILE_SIZE
    &&& forall|tx: u32, ty: u32|
        #![trigger tile.at(tx as int, ty as int)]
        tx < TILE_SIZE && ty < TILE_SIZE ==> is_resampled(
            plan,
            buffer,
            locate,
            blend,
            tx,
            ty,
            tile.at(tx as int, ty as int),
        )
}

fn sample(plan: &TileExtractionPlan, buffer: &Raster, x: u32, y: u32) -> (pixel: Pixel)
    requires
        buffer.wf(),
        buffer.has(x as int, y as int),
    ensures
        pixel == sampled(*plan, buffer.at(x as int, y as int)),
{
    let pixel = buffer.get(x, y);
    if plan.is_rgba {
        pixel
    } else {
        (pixel.0, pixel.1, pixel.2, 255)
    }
}

/// Resamples the planned chunks onto a tile. `locate` gives the column and row of the planned
/// chunks at or before the position that a column and row of the tile stand for, where there is
/// one; `blend` mixes the four pixels around that position.
pub fn resample_to_tile<L, B>(
    plan: &TileExtractionPlan,
    buffer: &Raster,
    locate: &L,
    blend: &B,
) -> (tile: Raster) where
    L: Fn(u32, u32) -> Option<(i64, i64)>,
    B: Fn(u32, u32, Quad) -> Pixel,

    requires
        buffer.wf(),
        forall|tx: u32, ty: u32|
            tx < TILE_SIZE && ty < TILE_SIZE ==> #[trigger] call_requires(*locate, (tx, ty)),
        forall|tx: u32, ty: u32, quad: Quad|
            tx < TILE_SIZE && ty < TILE_SIZE ==> #[trigger] call_requires(*blend, (tx, ty, quad)),
    ensures
        is_resampled_tile(*plan, *buffer, *locate, *blend, tile),
{
    let mut tile = Raster::new(TILE_SIZE, TILE_SIZE);
    assert forall|x: u32, y: u32|
        #![trigger tile.at(x as int, y as int)]
        x < TILE_SIZE && y < TILE_SIZE implies tile.at(x as int, y as int) == (
        0u8,
        0u8,
        0u8,
        0u8,
    ) by {
        assert(tile.has(x as int, y as int));
    }
    let mut ty: u32 = 0;
    while ty < TILE_SIZE
        invariant
            ty <= TILE_SIZE,
            buffer.wf(),
            tile.wf(),
            tile.columns() == TILE_SIZE,
            tile.rows() == TILE_SIZE,
            forall|x: u32, y: u32|
                x < TILE_SIZE && y < TILE_SIZE ==> #[trigger] call_requires(*locate, (x, y)),
            forall|x: u32, y: u32, quad: Quad|
                x < TILE_SIZE && y < TILE_SIZE ==> #[trigger] call_requires(*blend, (x, y, quad)),
            forall|x: u32, y: u32|
                #![trigger tile.at(x as int, y as int)]
                x < TILE_SIZE && y < ty ==> is_resampled(
                    *plan,
                    *buffer,
                    *locate,
                    *blend,
                    x,
                    y,
                    tile.at(x as int, y as int),
                ),
            forall|x: u32, y: u32|
                #![trigger tile.at(x as int, y as int)]
                x < TILE_SIZE && ty <= y < TILE_SIZE ==> tile.at(x as int, y as int) == (
                    0u8,
                    0u8,
                    0u8,
                    0u8,
                ),
        decreases TILE_SIZE - ty,
    {
        let mut tx: u32 = 0;
        while tx < TILE_SIZE
            invariant
                tx <= TILE_SIZE,
                ty < TILE_SIZE,
                buffer.wf(),
                tile.wf(),
                tile.columns() == TILE_SIZE,
                tile.rows() == TILE_SIZE,
                forall|x: u32, y: u32|
                    x < TILE_SIZE && y < TILE_SIZE ==> #[trigger] call_requires(*locate, (x, y)),
                forall|x: u32, y: u32, quad: Quad|
                    x < TILE_SIZE && y < TILE_SIZE ==> #[trigger] call_requires(
                        *blend,
                        (x, y, quad),
                    ),
                forall|x: u32, y: u32|
                    #![trigger tile.at(x as int, y as int)]
                    x < TILE_SIZE && y < TILE_SIZE && (y < ty || y == ty && x < tx)
                        ==> is_resampled(
                        *plan,
                        *buffer,
                        *locate,
                        *blend,
                        x,
                        y,
                        tile.at(x as int, y as int),
                    ),
                forall|x: u32, y: u32|
                    #![trigger tile.at(x as int, y as int)]
                    x < TILE_SIZE && y < TILE_SIZE && (ty < y || y == ty && tx <= x) ==> tile.at(
                        x as int,
                        y as int,
                    ) == (0u8, 0u8, 0u8, 0u8),
            decreases TILE_SIZE - tx,
        {
            let place = locate(tx, ty);
            let ghost before = tile;
            assert(tile.has(tx as int, ty as int));
            assert(tile.at(tx as int, ty as int) == (0u8, 0u8, 0u8, 0u8));
            match place {
                Some((x, y)) => {
                    if x >= 0 && y >= 0 && x < buffer.width() as i64 - 1 && y
                        < buffer.height() as i64 - 1 {
                        let (xf, yf): (u32, u32) = (x as u32, y as u32);
                        let quad = Quad {
                            p00: sample(plan, buffer, xf, yf),
                            p10: sample(plan, buffer, xf + 1, yf),
                            p01: sample(plan, buffer, xf, yf + 1),
                            p11: sample(plan, buffer, xf + 1, yf + 1),
                        };
                        assert(quad == quad_at(*plan, *buffer, x as int, y as int));
                        let pixel = blend(tx, ty, quad);
                        tile.put(tx, ty, pixel);
                    }
                },
                None => {},
            }
            assert(is_resampled(
                *plan,
                *buffer,
                *locate,
                *blend,
                tx,
                ty,
                tile.at(tx as int, ty as int),
            ));
            assert forall|x: u32, y: u32|
                #![trigger tile.at(x as int, y as int)]
                x < TILE_SIZE && y < TILE_SIZE && (x != tx || y != ty) implies tile.at(
                x as int,
                y as int,
            ) == before.at(x as int, y as int) by {
                assert(tile.has(x as int, y as int));
            }
            tx = tx + 1;
        }
        ty = ty + 1;
    }
    tile
}

/// Extracts a 256x256 map tile from a Cloud Optimized GeoTIFF (COG), given a pre-computed plan: the
/// planned chunks are read and put side by side, and then resampled.
pub fn extract_tile_from_cog<R, L, B>(
    plan: &TileExtractionPlan,
    read_chunk: &R,
    locate: &L,
    blend: &B,
) -> (result: Result<Raster, String>) where
    R: Fn(u32) -> ChunkRead,
    L: Fn(u32, u32) -> Option<(i64, i64)>,
    B: Fn(u32, u32, Quad) -> Pixel,

    requires
        plan.wf(),
        forall|row: int, col: int| #[trigger]
            plan.covers(row, col) ==> call_requires(
                *read_chunk,
                (plan.chunk_number(row, col) as u32,),
            ),
        forall|tx: u32, ty: u32|
            tx < TILE_SIZE && ty < TILE_SIZE ==> #[trigger] call_requires(*locate, (tx, ty)),
        forall|tx: u32, ty: u32, quad: Quad|
            tx < TILE_SIZE && ty < TILE_SIZE ==> #[trigger] call_requires(*blend, (tx, ty, quad)),
    ensures
        match result {
            Ok(tile) => exists|buffer: Raster|
                {
                    &&& #[trigger] can_be_stitched(*plan, *read_chunk, buffer)
                    &&& is_resampled_tile(*plan, buffer, *locate, *blend, tile)
                },
            Err(message) => can_be_unreadable(*plan, *read_chunk, message@),
        },
{
    match stitch_chunks(plan, read_chunk) {
        Ok(buffer) => {
            let tile = resample_to_tile(plan, &buffer, locate, blend);
            Ok(tile)
        },
        Err(message) => Err(message),
    }
}

/// A pixel of the image that lies in a planned chunk is taken from that chunk: side by side, the
/// planned chunks keep the pixels of the image in their places.
pub proof fn law_pixels_keep_their_place(plan: TileExtractionPlan, x: int, y: int)
    requires
        plan.wf(),
        plan.start_col * plan.tw <= x < (plan.end_col + 1) * plan.tw,
        plan.start_row * plan.th <= y < (plan.end_row + 1) * plan.th,
    ensures
        0 <= x - plan.start_col * plan.tw < plan.buffer_width(),
        0 <= y - plan.start_row * plan.th < plan.buffer_height(),
        plan.covers(y / plan.th as int, x / plan.tw as int),
        col_at(plan, x - plan.start_col * plan.tw) == x / plan.tw as int,
        row_at(plan, y - plan.start_row * plan.th) == y / plan.th as int,
        (x - plan.start_col * plan.tw) % plan.tw as int == x % plan.tw as int,
        (y - plan.start_row * plan.th) % plan.th as int == y % plan.th as int,
{
    lemma_offset_place(plan.start_col as int, plan.end_col as int, plan.tw as int, x);
    lemma_offset_place(plan.start_row as int, plan.end_row as int, plan.th as int, y);
}

proof fn lemma_offset_place(start: int, end: int, step: int, x: int)
    requires
        0 <= start <= end,
        step > 0,
        start * step <= x < (end + 1) * step,
    ensures
        x - start * step < (end - start + 1) * step,
        start <= x / step <= end,
        start + (x - start * step) / step == x / step,
        (x - start * step) % step == x % step,
{
    let rest = x - start * step;
    assert(rest < (end - start + 1) * step) by (nonlinear_arith)
        requires
            rest == x - start * step,
            x < (end + 1) * step,
    ;
    vstd::arithmetic::div_mod::lemma_fundamental_div_mod(rest, step);
    let q = rest / step;
    assert(x == (start + q) * step + rest % step) by (nonlinear_arith)
        requires
            rest == x - start * step,
            rest == step * q + rest % step,
    ;
    vstd::arithmetic::div_mod::lemma_fundamental_div_mod_converse(x, step, start + q, rest % step);
    assert(0 <= q <= end - start) by (nonlinear_arith)
        requires
            rest == step * q + rest % step,
            0 <= rest % step < step,
            0 <= rest < (end - start + 1) * step,
            step > 0,
    ;
}

/// The samples of a whole chunk, padded or not, hold every pixel of its filled part and no other.
pub proof fn law_whole_chunks_have_every_pixel(
    plan: TileExtractionPlan,
    row: int,
    col: int,
    samples: Seq<u8>,
    px: int,
    py: int,
)
    requires
        plan.wf(),
        plan.covers(row, col),
        samples.len() >= filled_width(plan, col) * filled_height(plan, row) * channels(plan),
        0 <= px,
        0 <= py,
    ensures
        chunk_pixel(plan, row, col, samples, px, py) is Some <==> px < filled_width(plan, col)
            && py < filled_height(plan, row),
{
    let width = filled_width(plan, col);
    let height = filled_height(plan, row);
    let n = channels(plan);
    let len = samples.len() as int;
    let step = stride(len, width, height, n);
    assert(0 < width <= plan.tw);
    assert(0 < height <= plan.th);
    if px < width && py < height {
        lemma_stride_fits(len, width, height, n);
        lemma_sample_index(py, px, step, width, height, n);
    }
}

proof fn lemma_stride_fits(len: int, width: int, height: int, n: int)
    requires
        width > 0,
        height > 0,
        n > 0,
        len >= width * height * n,
    ensures
        stride(len, width, height, n) >= width,
        height * stride(len, width, height, n) * n <= len,
{
    let step = stride(len, width, height, n);
    assert(width * height * n == height * width * n) by (nonlinear_arith);
    if len <= width * height * n {
    } else if rounded_up(width, 16) * rounded_up(height, 16) * n == len {
        let (w, h) = (rounded_up(width, 16), rounded_up(height, 16));
        assert(height * w * n <= w * h * n) by (nonlinear_arith)
            requires
                0 < height <= h,
                0 < w,
                n > 0,
        ;
    } else if rounded_up(width, 8) * rounded_up(height, 8) * n == len {
        let (w, h) = (rounded_up(width, 8), rounded_up(height, 8));
        assert(height * w * n <= w * h * n) by (nonlinear_arith)
            requires
                0 < height <= h,
                0 < w,
                n > 0,
        ;
    } else if len % (height * n) == 0 {
        assert(height * n > 0) by (nonlinear_arith)
            requires
                height > 0,
                n > 0,
        ;
        vstd::arithmetic::div_mod::lemma_fundamental_div_mod(len, height * n);
        assert(height * step * n == len && step >= width) by (nonlinear_arith)
            requires
                len == (height * n) * step,
                len > width * height * n,
                height * n > 0,
        ;
    }
}

/// Where the image has no alpha channel, every pixel that is blended is opaque.
pub proof fn law_images_without_alpha_are_opaque(
    plan: TileExtractionPlan,
    buffer: Raster,
    x: int,
    y: int,
)
    requires
        !plan.is_rgba,
    ensures
        ({
            let quad = quad_at(plan, buffer, x, y);
            &&& quad.p00.3 == 255
            &&& quad.p10.3 == 255
            &&& quad.p01.3 == 255
            &&& quad.p11.3 == 255
        }),
{
}

/// A pixel of the tile that lies beyond the planned chunks is transparent.
pub proof fn law_tile_is_transparent_beyond_the_chunks<L, B>(
    plan: TileExtractionPlan,
    buffer: Raster,
    locate: L,
    blend: B,
    tile: Raster,
    tx: u32,
    ty: u32,
) where L: Fn(u32, u32) -> Option<(i64, i64)>, B: Fn(u32, u32, Quad) -> Pixel
    requires
        is_resampled_tile(plan, buffer, locate, blend, tile),
        tx < TILE_SIZE,
        ty < TILE_SIZE,
        forall|x: i64, y: i64| #[trigger]
            call_ensures(locate, (tx, ty), Some((x, y))) ==> !has_quad(buffer, x as int, y as int),
    ensures
        tile.at(tx as int, ty as int) == (0u8, 0u8, 0u8, 0u8),
{
    assert(is_resampled(plan, buffer, locate, blend, tx, ty, tile.at(tx as int, ty as int)));
}

/// Samples that pad a chunk to whole blocks of 16 by 16 pixels lie in rows as wide as those blocks:
/// `w` and `h` are the least multiples of 16 that hold its width and height. This is so whether a
/// pixel has three samples or four.
pub proof fn law_rows_of_padded_blocks_of_16(width: int, height: int, n: int, w: int, h: int)
    requires
        0 < width <= w < width + 16,
        0 < height <= h < height + 16,
        w % 16 == 0,
        h % 16 == 0,
        3 <= n <= 4,
    ensures
        stride(w * h * n, width, height, n) == w,
{
    lemma_least_multiple(width, 16, w);
    lemma_least_multiple(height, 16, h);
    lemma_padded_length(width, height, n, w, h);
}

/// Samples that pad a chunk to whole blocks of 8 by 8 pixels, and are not as many as blocks of 16
/// by 16 would take, lie in rows as wide as the blocks of 8.
pub proof fn law_rows_of_padded_blocks_of_8(
    width: int,
    height: int,
    n: int,
    w: int,
    h: int,
    w16: int,
    h16: int,
)
    requires
        0 < width <= w < width + 8,
        0 < height <= h < height + 8,
        w % 8 == 0,
        h % 8 == 0,
        width <= w16 < width + 16,
        height <= h16 < height + 16,
        w16 % 16 == 0,
        h16 % 16 == 0,
        w16 * h16 != w * h,
        3 <= n <= 4,
    ensures
        stride(w * h * n, width, height, n) == w,
{
    lemma_least_multiple(width, 8, w);
    lemma_least_multiple(height, 8, h);
    lemma_least_multiple(width, 16, w16);
    lemma_least_multiple(height, 16, h16);
    lemma_padded_length(width, height, n, w, h);
    assert(w16 * h16 * n != w * h * n) by (nonlinear_arith)
        requires
            w16 * h16 != w * h,
            n > 0,
    ;
}

/// More samples than the filled part of a chunk takes, which pad it to no whole blocks, are rows of
/// `row` pixels each, if they are as many for each row.
pub proof fn law_rows_that_are_padded_alike(
    width: int,
    height: int,
    n: int,
    row: int,
    w8: int,
    h8: int,
    w16: int,
    h16: int,
)
    requires
        0 < width <= row,
        0 < height,
        width <= w8 < width + 8,
        height <= h8 < height + 8,
        w8 % 8 == 0,
        h8 % 8 == 0,
        width <= w16 < width + 16,
        height <= h16 < height + 16,
        w16 % 16 == 0,
        h16 % 16 == 0,
        w8 * h8 * n != height * row * n,
        w16 * h16 * n != height * row * n,
        3 <= n <= 4,
    ensures
        stride(height * row * n, width, height, n) == row,
{
    lemma_least_multiple(width, 8, w8);
    lemma_least_multiple(height, 8, h8);
    lemma_least_multiple(width, 16, w16);
    lemma_least_multiple(height, 16, h16);
    let len = height * row * n;
    if len <= width * height * n {
        assert(row == width) by (nonlinear_arith)
            requires
                height * row * n <= width * height * n,
                width <= row,
                height > 0,
                n > 0,
        ;
    } else {
        assert(height * n > 0) by (nonlinear_arith)
            requires
                height > 0,
                n > 0,
        ;
        assert(len == row * (height * n)) by (nonlinear_arith)
            requires
                len == height * row * n,
        ;
        vstd::arithmetic::div_mod::lemma_fundamental_div_mod_converse(len, height * n, row, 0);
    }
}

/// Samples that are not more than the filled part of a chunk takes, and those that pad it in no
/// known way, lie in rows as wide as the filled part.
pub proof fn law_rows_are_else_as_wide_as_the_chunk(
    len: int,
    width: int,
    height: int,
    n: int,
    w8: int,
    h8: int,
    w16: int,
    h16: int,
)
    requires
        0 < width,
        0 < height,
        width <= w8 < width + 8,
        height <= h8 < height + 8,
        w8 % 8 == 0,
        h8 % 8 == 0,
        width <= w16 < width + 16,
        height <= h16 < height + 16,
        w16 % 16 == 0,
        h16 % 16 == 0,
        3 <= n <= 4,
        len <= width * height * n || {
            &&& w8 * h8 * n != len
            &&& w16 * h16 * n != len
            &&& forall|row: int| len != #[trigger] (height * row) * n
        },
    ensures
        stride(len, width, height, n) == width,
{
    lemma_least_multiple(width, 8, w8);
    lemma_least_multiple(height, 8, h8);
    lemma_least_multiple(width, 16, w16);
    lemma_least_multiple(height, 16, h16);
    if len > width * height * n && len % (height * n) == 0 {
        assert(height * n > 0) by (nonlinear_arith)
            requires
                height > 0,
                n > 0,
        ;
        vstd::arithmetic::div_mod::lemma_fundamental_div_mod(len, height * n);
        let row = len / (height * n);
        assert(len == (height * row) * n) by (nonlinear_arith)
            requires
                len == (height * n) * row,
        ;
    }
}

proof fn lemma_least_multiple(n: int, unit: int, m: int)
    requires
        unit == 8 || unit == 16,
        n <= m < n + unit,
        m % unit == 0,
    ensures
        rounded_up(n, unit) == m,
{
    if unit == 8 {
        assert((n + 7) / 8 * 8 == m);
    } else {
        assert((n + 15) / 16 * 16 == m);
    }
}

proof fn lemma_padded_length(width: int, height: int, n: int, w: int, h: int)
    requires
        0 < width <= w,
        0 < height <= h,
        n > 0,
    ensures
        w * h * n <= width * height * n ==> w == width,
{
    if w > width {
        assert(w * h * n > width * height * n) by (nonlinear_arith)
            requires
                0 < width < w,
                0 < height <= h,
                n > 0,
        ;
    }
}

proof fn lemma_filled(index: int, extent: int, step: int)
    requires
        0 <= index,
        0 <= extent,
        step > 0,
    ensures
        filled(index, steps_over(extent, step), extent, step) == if 0 < extent - index * step
            < step {
            extent - index * step
        } else {
            step
        },
{
    let count = steps_over(extent, step);
    law_chunks_just_cover_the_image(extent, step);
    let rest = extent - index * step;
    if rest <= 0 {
        assert(index != count - 1) by (nonlinear_arith)
            requires
                extent > (count - 1) * step,
                extent <= index * step,
                step > 0,
        ;
    } else if rest < step {
        assert(index == count - 1) by (nonlinear_arith)
            requires
                extent <= count * step,
                extent > (count - 1) * step,
                index * step < extent,
                extent - index * step < step,
                step > 0,
        ;
        vstd::arithmetic::div_mod::lemma_fundamental_div_mod_converse(extent, step, index, rest);
    } else if index == count - 1 {
        assert(rest == step) by (nonlinear_arith)
            requires
                rest == extent - index * step,
                rest >= step,
                index == count - 1,
                extent <= count * step,
        ;
        assert(extent == (index + 1) * step) by (nonlinear_arith)
            requires
                step == extent - index * step,
        ;
        vstd::arithmetic::div_mod::lemma_fundamental_div_mod_converse(extent, step, index + 1, 0);
    }
}

/// The pixels of a chunk stand in its samples row by row, `stride` pixels apart, of four samples
/// each or else of three, and are then opaque. Only pixels of the filled part are taken from them,
/// which a chunk at the far edge of the image cuts off there.
pub proof fn law_chunk_pixels_stand_in_rows(
    plan: TileExtractionPlan,
    row: int,
    col: int,
    samples: Seq<u8>,
    px: int,
    py: int,
    width: int,
    height: int,
)
    requires
        0 <= row,
        0 <= col,
        0 <= px < plan.tw,
        0 <= py < plan.th,
        width == if 0 < plan.current_width - col * plan.tw < plan.tw {
            plan.current_width - col * plan.tw
        } else {
            plan.tw as int
        },
        height == if 0 < plan.current_height - row * plan.th < plan.th {
            plan.current_height - row * plan.th
        } else {
            plan.th as int
        },
    ensures
        chunk_pixel(plan, row, col, samples, px, py) == {
            let len = samples.len() as int;
            let (i, j) = (
                3 * (py * stride(len, width, height, 3) + px),
                4 * (py * stride(len, width, height, 4) + px),
            );
            if px >= width || py >= height {
                None
            } else if !plan.is_rgba && i + 3 <= len {
                Some((samples[i], samples[i + 1], samples[i + 2], 255u8))
            } else if plan.is_rgba && j + 4 <= len {
                Some((samples[j], samples[j + 1], samples[j + 2], samples[j + 3]))
            } else {
                None
            }
        },
{
    lemma_filled(col, plan.current_width as int, plan.tw as int);
    lemma_filled(row, plan.current_height as int, plan.th as int);
    let n = channels(plan);
    let at = py * stride(samples.len() as int, width, height, n) + px;
    assert(at * n == n * at) by (nonlinear_arith);
}

/// Side by side, the chunks hold each pixel of the image that lies in a planned chunk, at its
/// distance from the first planned pixel: the pixel that the samples of its chunk hold, which is
/// the one numbered row by row in an image of `across` chunks in a row. Where no samples were read
/// for it, it is blank.
pub proof fn law_stitched_pixels_are_those_of_the_image<R: Fn(u32) -> ChunkRead>(
    plan: TileExtractionPlan,
    read_chunk: R,
    reads: spec_fn(u32) -> ChunkRead,
    across: int,
    row: int,
    col: int,
    px: int,
    py: int,
    width: int,
    height: int,
    buffer: Raster,
)
    requires
        plan.wf(),
        can_be_stitched(plan, read_chunk, buffer),
        forall|number: u32, read: ChunkRead| #[trigger]
            call_ensures(read_chunk, (number,), read) ==> read == reads(number),
        (across - 1) * plan.tw < plan.current_width <= across * plan.tw,
        plan.start_col <= col <= plan.end_col,
        plan.start_row <= row <= plan.end_row,
        0 <= px < plan.tw,
        0 <= py < plan.th,
        width == if 0 < plan.current_width - col * plan.tw < plan.tw {
            plan.current_width - col * plan.tw
        } else {
            plan.tw as int
        },
        height == if 0 < plan.current_height - row * plan.th < plan.th {
            plan.current_height - row * plan.th
        } else {
            plan.th as int
        },
    ensures
        ({
            let x = col * plan.tw + px;
            let y = row * plan.th + py;
            let pixel = buffer.at(x - plan.start_col * plan.tw, y - plan.start_row * plan.th);
            match reads((row * across + col) as u32) {
                ChunkRead::Pixels(samples) => {
                    let len = samples@.len() as int;
                    let (i, j) = (
                        3 * (py * stride(len, width, height, 3) + px),
                        4 * (py * stride(len, width, height, 4) + px),
                    );
                    pixel == if px >= width || py >= height {
                        (0u8, 0u8, 0u8, 0u8)
                    } else if !plan.is_rgba && i + 3 <= len {
                        (samples@[i], samples@[i + 1], samples@[i + 2], 255u8)
                    } else if plan.is_rgba && j + 4 <= len {
                        (samples@[j], samples@[j + 1], samples@[j + 2], samples@[j + 3])
                    } else {
                        (0u8, 0u8, 0u8, 0u8)
                    }
                },
                _ => pixel == (0u8, 0u8, 0u8, 0u8),
            }
        }),
        buffer.columns() == (plan.end_col + 1) * plan.tw - plan.start_col * plan.tw,
        buffer.rows() == (plan.end_row + 1) * plan.th - plan.start_row * plan.th,
{
    let held = choose|held: Map<(int, int), ChunkRead>|
        {
            &&& #[trigger] usable_reads(
                plan,
                read_chunk,
                held,
                plan.end_row + 1,
                plan.start_col as int,
            )
            &&& is_stitched(plan, held, buffer)
        };
    let x = col * plan.tw + px;
    let y = row * plan.th + py;
    lemma_in_chunk(plan.start_col as int, plan.end_col as int, plan.tw as int, col, px);
    lemma_in_chunk(plan.start_row as int, plan.end_row as int, plan.th as int, row, py);
    law_pixels_keep_their_place(plan, x, y);
    law_planned_chunks_fill_the_buffer(plan, row, col);
    lemma_count_is_known(plan.current_width as int, plan.tw as int, across);
    assert(held.contains_key((row, col)) <==> read_before(
        plan,
        row,
        col,
        plan.end_row + 1,
        plan.start_col as int,
    ));
    let (bx, by) = (x - plan.start_col * plan.tw, y - plan.start_row * plan.th);
    assert(buffer.has(bx, by));
    assert(buffer.at(bx, by) == stitched_pixel(plan, held, bx, by));
    match held[(row, col)] {
        ChunkRead::Pixels(samples) => law_chunk_pixels_stand_in_rows(
            plan,
            row,
            col,
            samples@,
            px,
            py,
            width,
            height,
        ),
        _ => {},
    }
}

proof fn lemma_in_chunk(start: int, end: int, step: int, at: int, offset: int)
    requires
        0 <= start <= at <= end,
        0 <= offset < step,
    ensures
        start * step <= at * step + offset < (end + 1) * step,
        (at * step + offset) / step == at,
        (at * step + offset) % step == offset,
{
    assert(start * step <= at * step && at * step + step <= (end + 1) * step) by (nonlinear_arith)
        requires
            start <= at <= end,
            step > 0,
    ;
    vstd::arithmetic::div_mod::lemma_fundamental_div_mod_converse(
        at * step + offset,
        step,
        at,
        offset,
    );
}

/// Whether a chunk's samples were read, or are left out because of its size.
spec fn is_usable(read: ChunkRead) -> bool {
    read is Pixels || read is InconsistentSizes
}

proof fn lemma_stitched_chunks_are_usable<R: Fn(u32) -> ChunkRead>(
    plan: TileExtractionPlan,
    read_chunk: R,
    reads: spec_fn(u32) -> ChunkRead,
    buffer: Raster,
    row: int,
    col: int,
)
    requires
        can_be_stitched(plan, read_chunk, buffer),
        forall|number: u32, read: ChunkRead| #[trigger]
            call_ensures(read_chunk, (number,), read) ==> read == reads(number),
        plan.covers(row, col),
    ensures
        is_usable(reads(plan.chunk_number(row, col) as u32)),
{
    let held = choose|held: Map<(int, int), ChunkRead>|
        {
            &&& #[trigger] usable_reads(
                plan,
                read_chunk,
                held,
                plan.end_row + 1,
                plan.start_col as int,
            )
            &&& is_stitched(plan, held, buffer)
        };
    assert(held.contains_key((row, col)) <==> read_before(
        plan,
        row,
        col,
        plan.end_row + 1,
        plan.start_col as int,
    ));
}

proof fn lemma_first_unusable_chunk<R: Fn(u32) -> ChunkRead>(
    plan: TileExtractionPlan,
    read_chunk: R,
    reads: spec_fn(u32) -> ChunkRead,
    message: Seq<char>,
) -> (place: (int, int))
    requires
        can_be_unreadable(plan, read_chunk, message),
        forall|number: u32, read: ChunkRead| #[trigger]
            call_ensures(read_chunk, (number,), read) ==> read == reads(number),
    ensures
        plan.covers(place.0, place.1),
        ({
            let number = plan.chunk_number(place.0, place.1) as u32;
            read_error(number, reads(number)) == Some(message)
        }),
        forall|r: int, c: int|
            plan.covers(r, c) && (r < place.0 || r == place.0 && c < place.1) ==> is_usable(
                reads(#[trigger] plan.chunk_number(r, c) as u32),
            ),
{
    let (held, row, col, read) = choose|
        held: Map<(int, int), ChunkRead>,
        row: int,
        col: int,
        read: ChunkRead,
    |
        {
            &&& plan.covers(row, col)
            &&& #[trigger] usable_reads(plan, read_chunk, held, row, col)
            &&& #[trigger] call_ensures(
                read_chunk,
                (plan.chunk_number(row, col) as u32,),
                read,
            )
            &&& read_error(plan.chunk_number(row, col) as u32, read) == Some(message)
        };
    assert forall|r: int, c: int|
        plan.covers(r, c) && (r < row || r == row && c < col) implies is_usable(
        reads(#[trigger] plan.chunk_number(r, c) as u32),
    ) by {
        assert(held.contains_key((r, c)) <==> read_before(plan, r, c, row, col));
    }
    (row, col)
}

/// The planned chunks are put side by side if and only if none of them is of another format or
/// cannot be read, those of inconsistent sizes not counting. Else the first of these in reading
/// order is told by its number.
pub proof fn law_first_unreadable_chunk_is_told<R: Fn(u32) -> ChunkRead>(
    plan: TileExtractionPlan,
    read_chunk: R,
    reads: spec_fn(u32) -> ChunkRead,
    row: int,
    col: int,
    result: Result<Raster, String>,
)
    requires
        call_ensures(stitch_chunks::<R>, (&plan, &read_chunk), result),
        forall|number: u32, read: ChunkRead| #[trigger]
            call_ensures(read_chunk, (number,), read) ==> read == reads(number),
        plan.covers(row, col),
        forall|r: int, c: int|
            plan.covers(r, c) && (r < row || r == row && c < col) ==> {
                let read = reads(#[trigger] plan.chunk_number(r, c) as u32);
                read is Pixels || read is InconsistentSizes
            },
    ensures
        ({
            let number = plan.chunk_number(row, col) as u32;
            match reads(number) {
                ChunkRead::OtherFormat => result matches Err(message) && message@
                    == "Unexpected memory format from chunk "@ + decimal(number as nat),
                ChunkRead::Failed(e) => result matches Err(message) && message@
                    == "Failed to read chunk "@ + decimal(number as nat) + ": "@ + e@,
                _ => row == plan.end_row && col == plan.end_col ==> result is Ok,
            }
        }),
{
    match result {
        Ok(buffer) => lemma_stitched_chunks_are_usable(plan, read_chunk, reads, buffer, row, col),
        Err(message) => {
            let (r, c) = lemma_first_unusable_chunk(plan, read_chunk, reads, message@);
            let number = plan.chunk_number(row, col) as u32;
            let first = plan.chunk_number(r, c) as u32;
            assert(read_error(first, reads(first)) is Some);
            if r < row || r == row && c < col {
                assert(is_usable(reads(plan.chunk_number(r, c) as u32)));
            } else if row < r || row == r && col < c {
                assert(is_usable(reads(plan.chunk_number(row, col) as u32)));
            }
        },
    }
}

/// The pixels that are put side by side are those of the image, each at its distance from the first
/// planned pixel.
pub proof fn law_chunks_are_put_side_by_side<R: Fn(u32) -> ChunkRead>(
    plan: TileExtractionPlan,
    read_chunk: R,
    reads: spec_fn(u32) -> ChunkRead,
    across: int,
    row: int,
    col: int,
    px: int,
    py: int,
    samples: Vec<u8>,
    row_length: int,
    buffer: Raster,
)
    requires
        plan.wf(),
        call_ensures(stitch_chunks::<R>, (&plan, &read_chunk), Ok(buffer)),
        forall|number: u32, read: ChunkRead| #[trigger]
            call_ensures(read_chunk, (number,), read) ==> read == reads(number),
        (across - 1) * plan.tw < plan.current_width <= across * plan.tw,
        plan.start_col <= col <= plan.end_col,
        plan.start_row <= row <= plan.end_row,
        0 <= px < plan.tw,
        0 <= py < plan.th,
        col * plan.tw + px < plan.current_width,
        row * plan.th + py < plan.current_height,
        reads((row * across + col) as u32) == ChunkRead::Pixels(samples),
        ({
            let width = if plan.current_width - col * plan.tw < plan.tw {
                plan.current_width - col * plan.tw
            } else {
                plan.tw as int
            };
            let height = if plan.current_height - row * plan.th < plan.th {
                plan.current_height - row * plan.th
            } else {
                plan.th as int
            };
            let n = if plan.is_rgba {
                4int
            } else {
                3
            };
            row_length == stride(samples@.len() as int, width, height, n)
        }),
    ensures
        ({
            let i = if plan.is_rgba {
                4 * (py * row_length + px)
            } else {
                3 * (py * row_length + px)
            };
            let end = if plan.is_rgba {
                i + 4
            } else {
                i + 3
            };
            let pixel = buffer.at(
                col * plan.tw + px - plan.start_col * plan.tw,
                row * plan.th + py - plan.start_row * plan.th,
            );
            if end > samples@.len() {
                pixel == (0u8, 0u8, 0u8, 0u8)
            } else {
                &&& pixel.0 == samples@[i]
                &&& pixel.1 == samples@[i + 1]
                &&& pixel.2 == samples@[i + 2]
                &&& pixel.3 == if plan.is_rgba {
                    samples@[i + 3]
                } else {
                    255
                }
            }
        }),
{
    let width = if plan.current_width - col * plan.tw < plan.tw {
        plan.current_width - col * plan.tw
    } else {
        plan.tw as int
    };
    let height = if plan.current_height - row * plan.th < plan.th {
        plan.current_height - row * plan.th
    } else {
        plan.th as int
    };
    law_stitched_pixels_are_those_of_the_image(
        plan,
        read_chunk,
        reads,
        across,
        row,
        col,
        px,
        py,
        width,
        height,
        buffer,
    );
}

/// A tile has 256 by 256 pixels. Each is mixed from the four pixels of the planned chunks in the
/// column and row that `locate` gives for it and in the next ones, and is transparent black where
/// it gives none or where one of the four lies beyond the planned chunks. In an image without alpha
/// the four pixels are opaque.
pub proof fn law_tile_pixels_are_mixed_from_their_neighbours<L, B>(
    plan: TileExtractionPlan,
    buffer: Raster,
    locate: L,
    blend: B,
    places: spec_fn(u32, u32) -> Option<(i64, i64)>,
    mixed: spec_fn(u32, u32, Quad) -> Pixel,
    tile: Raster,
    tx: u32,
    ty: u32,
) where L: Fn(u32, u32) -> Option<(i64, i64)>, B: Fn(u32, u32, Quad) -> Pixel
    requires
        call_ensures(resample_to_tile::<L, B>, (&plan, &buffer, &locate, &blend), tile),
        forall|x: u32, y: u32, place: Option<(i64, i64)>| #[trigger]
            call_ensures(locate, (x, y), place) ==> place == places(x, y),
        forall|x: u32, y: u32, quad: Quad, pixel: Pixel| #[trigger]
            call_ensures(blend, (x, y, quad), pixel) ==> pixel == mixed(x, y, quad),
        tx < 256,
        ty < 256,
    ensures
        tile.wf(),
        tile.columns() == 256,
        tile.rows() == 256,
        tile.at(tx as int, ty as int) == match places(tx, ty) {
            Some((x, y)) => if 0 <= x && 0 <= y && x + 1 < buffer.columns() && y + 1
                < buffer.rows() {
                let (p00, p10) = (buffer.at(x as int, y as int), buffer.at(x + 1, y as int));
                let (p01, p11) = (buffer.at(x as int, y + 1), buffer.at(x + 1, y + 1));
                mixed(
                    tx,
                    ty,
                    if plan.is_rgba {
                        Quad { p00, p10, p01, p11 }
                    } else {
                        Quad {
                            p00: (p00.0, p00.1, p00.2, 255),
                            p10: (p10.0, p10.1, p10.2, 255),
                            p01: (p01.0, p01.1, p01.2, 255),
                            p11: (p11.0, p11.1, p11.2, 255),
                        }
                    },
                )
            } else {
                (0u8, 0u8, 0u8, 0u8)
            },
            None => (0u8, 0u8, 0u8, 0u8),
        },
{
    assert(is_resampled(plan, buffer, locate, blend, tx, ty, tile.at(tx as int, ty as int)));
}

/// A tile that is extracted is mixed from the pixels that are put side by side, `pixels` being what
/// these are in every column and row; where a chunk cannot be used, that is told instead.
pub proof fn law_extracted_tiles_are_mixed_from_the_chunks<R, L, B>(
    plan: TileExtractionPlan,
    read_chunk: R,
    locate: L,
    blend: B,
    pixels: spec_fn(int, int) -> Pixel,
    places: spec_fn(u32, u32) -> Option<(i64, i64)>,
    mixed: spec_fn(u32, u32, Quad) -> Pixel,
    tile: Raster,
    tx: u32,
    ty: u32,
) where
    R: Fn(u32) -> ChunkRead,
    L: Fn(u32, u32) -> Option<(i64, i64)>,
    B: Fn(u32, u32, Quad) -> Pixel,

    requires
        call_ensures(
            extract_tile_from_cog::<R, L, B>,
            (&plan, &read_chunk, &locate, &blend),
            Ok(tile),
        ),
        forall|buffer: Raster, x: int, y: int|
            can_be_stitched(plan, read_chunk, buffer) && 0 <= x < buffer.columns() && 0 <= y
                < buffer.rows() ==> #[trigger] buffer.at(x, y) == pixels(x, y),
        forall|x: u32, y: u32, place: Option<(i64, i64)>| #[trigger]
            call_ensures(locate, (x, y), place) ==> place == places(x, y),
        forall|x: u32, y: u32, quad: Quad, pixel: Pixel| #[trigger]
            call_ensures(blend, (x, y, quad), pixel) ==> pixel == mixed(x, y, quad),
        tx < 256,
        ty < 256,
    ensures
        tile.columns() == 256,
        tile.rows() == 256,
        tile.at(tx as int, ty as int) == match places(tx, ty) {
            Some((x, y)) => if 0 <= x && 0 <= y && x + 1 < (plan.end_col + 1) * plan.tw
                - plan.start_col * plan.tw && y + 1 < (plan.end_row + 1) * plan.th - plan.start_row
                * plan.th {
                let (p00, p10) = (pixels(x as int, y as int), pixels(x + 1, y as int));
                let (p01, p11) = (pixels(x as int, y + 1), pixels(x + 1, y + 1));
                mixed(
                    tx,
                    ty,
                    if plan.is_rgba {
                        Quad { p00, p10, p01, p11 }
                    } else {
                        Quad {
                            p00: (p00.0, p00.1, p00.2, 255),
                            p10: (p10.0, p10.1, p10.2, 255),
                            p01: (p01.0, p01.1, p01.2, 255),
                            p11: (p11.0, p11.1, p11.2, 255),
                        }
                    },
                )
            } else {
                (0u8, 0u8, 0u8, 0u8)
            },
            None => (0u8, 0u8, 0u8, 0u8),
        },
{
    let buffer = choose|buffer: Raster|
        {
            &&& #[trigger] can_be_stitched(plan, read_chunk, buffer)
            &&& is_resampled_tile(plan, buffer, locate, blend, tile)
        };
    law_planned_chunks_fill_the_buffer(plan, 0, 0);
    assert(is_resampled(plan, buffer, locate, blend, tx, ty, tile.at(tx as int, ty as int)));
}

/// A tile is extracted if and only if every planned chunk can be used; else the first in reading
/// order that cannot is told.
pub proof fn law_tiles_of_unreadable_chunks_are_refused<R, L, B>(
    plan: TileExtractionPlan,
    read_chunk: R,
    locate: L,
    blend: B,
    reads: spec_fn(u32) -> ChunkRead,
    row: int,
    col: int,
    result: Result<Raster, String>,
) where
    R: Fn(u32) -> ChunkRead,
    L: Fn(u32, u32) -> Option<(i64, i64)>,
    B: Fn(u32, u32, Quad) -> Pixel,

    requires
        call_ensures(
            extract_tile_from_cog::<R, L, B>,
            (&plan, &read_chunk, &locate, &blend),
            result,
        ),
        forall|number: u32, read: ChunkRead| #[trigger]
            call_ensures(read_chunk, (number,), read) ==> read == reads(number),
        plan.covers(row, col),
        forall|r: int, c: int|
            plan.covers(r, c) && (r < row || r == row && c < col) ==> {
                let read = reads(#[trigger] plan.chunk_number(r, c) as u32);
                read is Pixels || read is InconsistentSizes
            },
    ensures
        ({
            let number = plan.chunk_number(row, col) as u32;
            match reads(number) {
                ChunkRead::OtherFormat => result matches Err(message) && message@
                    == "Unexpected memory format from chunk "@ + decimal(number as nat),
                ChunkRead::Failed(e) => result matches Err(message) && message@
                    == "Failed to read chunk "@ + decimal(number as nat) + ": "@ + e@,
                _ => row == plan.end_row && col == plan.end_col ==> result is Ok,
            }
        }),
{
    match result {
        Ok(tile) => {
            let buffer = choose|buffer: Raster|
                {
                    &&& #[trigger] can_be_stitched(plan, read_chunk, buffer)
                    &&& is_resampled_tile(plan, buffer, locate, blend, tile)
                };
            lemma_stitched_chunks_are_usable(plan, read_chunk, reads, buffer, row, col);
        },
        Err(message) => {
            let (r, c) = lemma_first_unusable_chunk(plan, read_chunk, reads, message@);
            let first = plan.chunk_number(r, c) as u32;
            assert(read_error(first, reads(first)) is Some);
            if r < row || r == row && c < col {
                assert(is_usable(reads(plan.chunk_number(r, c) as u32)));
            } else if row < r || row == r && col < c {
                assert(is_usable(reads(plan.chunk_number(row, col) as u32)));
            }
        },
    }
}

/// A chunk's samples are copied to its place among the planned chunks, pixel by pixel as far as
/// they reach and the image does; all other pixels stay.
pub proof fn law_samples_are_copied_to_their_place(
    buffer: &mut Raster,
    plan: TileExtractionPlan,
    row: u32,
    col: u32,
    samples: Vec<u8>,
    x: int,
    y: int,
    width: int,
    height: int,
)
    requires
        call_ensures(stitch_chunk, (buffer, &plan, row, col, &samples), ()),
        plan.tw > 0,
        plan.th > 0,
        width == if 0 < plan.current_width - col * plan.tw < plan.tw {
            plan.current_width - col * plan.tw
        } else {
            plan.tw as int
        },
        height == if 0 < plan.current_height - row * plan.th < plan.th {
            plan.current_height - row * plan.th
        } else {
            plan.th as int
        },
        0 <= x < final(buffer).columns(),
        0 <= y < final(buffer).rows(),
    ensures
        final(buffer).wf(),
        final(buffer).columns() == old(buffer).columns(),
        final(buffer).rows() == old(buffer).rows(),
        ({
            let px = x - (col - plan.start_col) * plan.tw;
            let py = y - (row - plan.start_row) * plan.th;
            let len = samples@.len() as int;
            let (i, j) = (
                3 * (py * stride(len, width, height, 3) + px),
                4 * (py * stride(len, width, height, 4) + px),
            );
            final(buffer).at(x, y) == if px < 0 || px >= width || py < 0 || py >= height {
                old(buffer).at(x, y)
            } else if !plan.is_rgba && i + 3 <= len {
                (samples@[i], samples@[i + 1], samples@[i + 2], 255u8)
            } else if plan.is_rgba && j + 4 <= len {
                (samples@[j], samples@[j + 1], samples@[j + 2], samples@[j + 3])
            } else {
                old(buffer).at(x, y)
            }
        }),
{
    let px = x - (col - plan.start_col) * plan.tw;
    let py = y - (row - plan.start_row) * plan.th;
    assert(final(buffer).has(x, y));
    if 0 <= px < plan.tw && 0 <= py < plan.th {
        law_chunk_pixels_stand_in_rows(
            plan,
            row as int,
            col as int,
            samples@,
            px,
            py,
            width,
            height,
        );
    }
}

} // verus!
