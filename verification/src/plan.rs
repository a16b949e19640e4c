//! Which image directory of a GeoTIFF serves a map tile, and which of its chunks.

use crate::geotiff::{
    calculate_mercator_bounds, corners_of, get_cog_metadata, is_metadata_of, is_utm_code,
    law_code_is_that_of_the_first_projected_entry, law_metadata_is_that_of_the_tags,
    metadata_error, projection_of_tags, tile_bounds, Bounds, CogMetadata, GeoTags, Real,
};
use crate::http_reader::CHUNK_SIZE;
use crate::projection::{
    is_known_utm_definition, law_sixty_zones_can_be_opened, open_projections, projection_of,
    unknown_zone_message, web_mercator_definition,
};
use crate::text::decimal;
use proj4rs::Proj;
use vstd::arithmetic::power2::pow2;
use vstd::prelude::*;

verus! {

/// The image directory that is looked at while a tile is planned.
#[derive(Debug, Clone, Copy, PartialEq, Eq, Structural)]
pub struct IfdCursor {
    pub ifd_index: u32,
    pub width: u32,
    pub height: u32,
}

/// What has become known while an image directory is chosen.
#[derive(Debug, Clone, Copy, PartialEq, Eq, Structural)]
pub enum IfdEvent {
    /// The tile's crop of the current image is, or is not, wider than a tile may be.
    Measured(bool),
    /// The next directory was opened; its image has this width and height.
    Opened(u32, u32),
    /// There is no further directory, or it could not be opened.
    NoMore,
}

/// What is to be done next while an image directory is chosen.
#[derive(Debug, Clone, Copy, PartialEq, Eq, Structural)]
pub enum IfdAction {
    /// Measure the tile's crop of the current image.
    Measure,
    /// Open the next directory.
    OpenNext,
    /// Take the current directory.
    Take,
}

impl IfdCursor {
    /// The first directory, whose image has the full resolution.
    pub fn first(width: u32, height: u32) -> (cursor: IfdCursor)
        ensures
            cursor == (IfdCursor { ifd_index: 0, width, height }),
    {
        IfdCursor { ifd_index: 0, width, height }
    }

    /// The cursor and the action that an event leads to.
    pub open spec fn after(self, event: IfdEvent) -> (IfdCursor, IfdAction) {
        match event {
            IfdEvent::Measured(true) => (self, IfdAction::OpenNext),
            IfdEvent::Measured(false) => (self, IfdAction::Take),
            IfdEvent::Opened(width, height) => (
                IfdCursor { ifd_index: (self.ifd_index + 1) as u32, width, height },
                IfdAction::Measure,
            ),
            IfdEvent::NoMore => (self, IfdAction::Take),
        }
    }

    /// Decides what follows an event.
    pub fn step(&mut self, event: IfdEvent) -> (action: IfdAction)
        requires
            event is Opened ==> old(self).ifd_index < u32::MAX,
        ensures
            (*final(self), action) == old(self).after(event),
    {
        match event {
            IfdEvent::Measured(too_wide) => if too_wide {
                IfdAction::OpenNext
            } else {
                IfdAction::Take
            },
            IfdEvent::Opened(width, height) => {
                *self = IfdCursor { ifd_index: self.ifd_index + 1, width, height };
                IfdAction::Measure
            },
            IfdEvent::NoMore => IfdAction::Take,
        }
    }
}

/// The cursor in which the steps end that begin with measuring `levels[cursor.ifd_index]`, where
/// `levels` holds the size of every directory's image and `wide` says which widths are too wide.
pub open spec fn chosen_from(
    cursor: IfdCursor,
    levels: Seq<(u32, u32)>,
    wide: spec_fn(u32) -> bool,
) -> IfdCursor
    decreases levels.len() - cursor.ifd_index,
{
    let (measured, action) = cursor.after(IfdEvent::Measured(wide(cursor.width)));
    if action is OpenNext && measured.ifd_index + 1 < levels.len() && measured.ifd_index
        < u32::MAX {
        let next = levels[measured.ifd_index + 1];
        chosen_from(measured.after(IfdEvent::Opened(next.0, next.1)).0, levels, wide)
    } else if action is OpenNext {
        measured.after(IfdEvent::NoMore).0
    } else {
        measured
    }
}

/// The steps end in the first directory whose image is not too wide, or else in the last one.
pub proof fn law_first_narrow_directory_is_chosen(
    cursor: IfdCursor,
    levels: Seq<(u32, u32)>,
    wide: spec_fn(u32) -> bool,
)
    requires
        levels.len() <= u32::MAX,
        cursor.ifd_index < levels.len(),
        levels[cursor.ifd_index as int] == (cursor.width, cursor.height),
    ensures
        ({
            let chosen = chosen_from(cursor, levels, wide);
            &&& cursor.ifd_index <= chosen.ifd_index < levels.len()
            &&& levels[chosen.ifd_index as int] == (chosen.width, chosen.height)
            &&& forall|i: int|
                cursor.ifd_index <= i < chosen.ifd_index ==> wide((#[trigger] levels[i]).0)
            &&& !wide(chosen.width) || chosen.ifd_index == levels.len() - 1
        }),
    decreases levels.len() - cursor.ifd_index,
{
    if wide(cursor.width) && cursor.ifd_index + 1 < levels.len() {
        let next = levels[cursor.ifd_index + 1];
        let opened = IfdCursor {
            ifd_index: (cursor.ifd_index + 1) as u32,
            width: next.0,
            height: next.1,
        };
        law_first_narrow_directory_is_chosen(opened, levels, wide);
    }
}

/// The part of an image that a tile covers, in whole pixels; it may reach beyond the image.
#[derive(Debug, Clone, Copy, PartialEq, Eq, Structural)]
pub struct PixelExtent {
    pub minx: i64,
    pub maxx: i64,
    pub miny: i64,
    pub maxy: i64,
}

/// Plan for extracting a tile, containing all necessary coordinates and metadata.
#[derive(Debug, Clone, Copy)]
pub struct TileExtractionPlan {
    pub ifd_index: u32,
    pub scale_factor: Real,
    pub ifd_corners: [(Real, Real); 4],
    pub start_col: u32,
    pub end_col: u32,
    pub start_row: u32,
    pub end_row: u32,
    pub tw: u32,
    pub th: u32,
    pub current_width: u32,
    pub current_height: u32,
    pub is_rgba: bool,
}

/// The smaller of two numbers.
pub open spec fn least(a: int, b: int) -> int {
    if a <= b {
        a
    } else {
        b
    }
}

/// The number of steps of length `step` that cover `extent`.
pub open spec fn steps_over(extent: int, step: int) -> int {
    (extent + step - 1) / step
}

/// The chunk, counted along one side of an image of `extent` pixels, in which a pixel lies. Pixels
/// beyond an edge count as the one at the edge.
pub open spec fn chunk_of_pixel(pixel: i64, extent: u32, step: u32) -> int {
    let at = if pixel < 0 || extent == 0 {
        0
    } else {
        least(pixel as int, extent - 1)
    };
    at / step as int
}

/// Finds the chunk in which a pixel lies.
pub fn chunk_holding(pixel: i64, extent: u32, step: u32) -> (chunk: u32)
    requires
        step > 0,
    ensures
        chunk == chunk_of_pixel(pixel, extent, step),
{
    let last: u32 = extent.saturating_sub(1);
    let at: u32 = if pixel < 0 {
        0
    } else if pixel <= last as i64 {
        pixel as u32
    } else {
        last
    };
    at / step
}

/// What is known once an image's metadata is: where the tile and its corners lie, and the
/// projections of the image and of the tile.
pub struct PlanStart {
    pub metadata: CogMetadata,
    pub bounds: Bounds,
    pub corners: [(u32, u32); 4],
    pub source: Proj,
    pub target: Proj,
}

/// What came of opening the next image directory with a reader: the reader is there, and the image
/// has this width and height or cannot be measured; or there is none, or it could not be opened,
/// and the reader is where it was.
pub enum NextImage<D> {
    Opened(D, u32, u32),
    Unmeasured(String),
    NoMore(D),
}

/// The corners of a tile in pixels of the chosen image, the scale of that image, and the whole
/// pixels around the corners.
#[derive(Debug, Clone, Copy)]
pub struct ScaledCorners {
    pub scale_factor: Real,
    pub ifd_corners: [(Real, Real); 4],
    pub extent: PixelExtent,
}

/// The width and height of an image's chunks, and whether its pixels have an alpha channel.
#[derive(Debug, Clone, Copy)]
pub struct ChunkLayout {
    pub tw: u32,
    pub th: u32,
    pub is_rgba: bool,
}

/// Whether a start is what the tags of an image give for a tile.
pub open spec fn is_start(tags: GeoTags, z: u32, x: u32, y: u32, start: PlanStart) -> bool {
    &&& is_metadata_of(tags, start.metadata)
    &&& start.bounds == tile_bounds(z, x, y)
    &&& start.corners@ == corners_of(start.bounds)
    &&& start.source == projection_of(start.metadata.proj_source_str@)
    &&& start.target == projection_of(web_mercator_definition())
}

/// Whether the tags of an image tell where a tile lies in it.
pub open spec fn can_start(tags: GeoTags) -> bool {
    metadata_error(tags) is None && is_known_utm_definition(projection_of_tags(tags))
}

/// Whether directory `i` is opened with the reader of the one before it, whose crop is too wide.
/// A level holds the reader at a directory, and the width and height of its image.
pub open spec fn is_opened<D, W, N>(
    corners: [(Real, Real); 4],
    wide: W,
    next: N,
    levels: Seq<(D, u32, u32)>,
    i: int,
) -> bool where W: Fn([(Real, Real); 4], u32, u32) -> bool, N: Fn(D, u32) -> NextImage<D> {
    &&& call_ensures(wide, (corners, levels[0].1, levels[i - 1].1), true)
    &&& call_ensures(
        next,
        (levels[i - 1].0, (i - 1) as u32),
        NextImage::Opened(levels[i].0, levels[i].1, levels[i].2),
    )
}

/// Whether these directories are opened one after the other, from a first one on.
pub open spec fn are_opened<D, W, N>(
    corners: [(Real, Real); 4],
    first: (D, u32, u32),
    wide: W,
    next: N,
    levels: Seq<(D, u32, u32)>,
) -> bool where W: Fn([(Real, Real); 4], u32, u32) -> bool, N: Fn(D, u32) -> NextImage<D> {
    &&& levels.len() > 0
    &&& levels[0] == first
    &&& forall|i: int|
        0 < i < levels.len() ==> #[trigger] is_opened(corners, wide, next, levels, i)
}

/// Whether a directory can be the chosen one, with this reader at it: the first whose crop is not
/// too wide, or else the last.
pub open spec fn can_be_chosen<D, W, N>(
    corners: [(Real, Real); 4],
    first: (D, u32, u32),
    wide: W,
    next: N,
    cursor: IfdCursor,
    reader: D,
) -> bool where W: Fn([(Real, Real); 4], u32, u32) -> bool, N: Fn(D, u32) -> NextImage<D> {
    exists|levels: Seq<(D, u32, u32)>|
        {
            &&& #[trigger] are_opened(corners, first, wide, next, levels)
            &&& cursor.ifd_index == levels.len() - 1
            &&& cursor.width == levels.last().1
            &&& cursor.height == levels.last().2
            &&& {
                ||| {
                    &&& call_ensures(wide, (corners, first.1, cursor.width), false)
                    &&& reader == levels.last().0
                }
                ||| {
                    &&& call_ensures(wide, (corners, first.1, cursor.width), true)
                    &&& call_ensures(
                        next,
                        (levels.last().0, cursor.ifd_index),
                        NextImage::NoMore(reader),
                    )
                }
            }
        }
}

/// Whether a directory that is opened can turn out not to be measurable, with this error.
pub open spec fn can_be_unmeasured<D, W, N>(
    corners: [(Real, Real); 4],
    first: (D, u32, u32),
    wide: W,
    next: N,
    e: String,
) -> bool where W: Fn([(Real, Real); 4], u32, u32) -> bool, N: Fn(D, u32) -> NextImage<D> {
    exists|levels: Seq<(D, u32, u32)>|
        {
            &&& #[trigger] are_opened(corners, first, wide, next, levels)
            &&& call_ensures(wide, (corners, first.1, levels.last().1), true)
            &&& call_ensures(
                next,
                (levels.last().0, (levels.len() - 1) as u32),
                NextImage::Unmeasured(e),
            )
        }
}

/// Takes a reader from the first image directory, whose image has the full width and height, to the
/// one that a tile is cut from. `wide` tells whether the crop of a tile with the given corners is
/// too wide in an image of the second of two widths, the first being the full one; `next` opens the
/// directory after the one that a reader is at, which has the given number.
pub fn choose_image<D, W, N>(
    reader: D,
    full_width: u32,
    full_height: u32,
    corners: [(Real, Real); 4],
    wide: &W,
    next: &N,
) -> (result: Result<(IfdCursor, D), String>) where
    W: Fn([(Real, Real); 4], u32, u32) -> bool,
    N: Fn(D, u32) -> NextImage<D>,

    requires
        forall|width: u32| #[trigger] call_requires(*wide, (corners, full_width, width)),
        forall|at: D, i: u32| #[trigger] call_requires(*next, (at, i)),
        forall|at: D, opened: NextImage<D>| #[trigger]
            call_ensures(*next, (at, u32::MAX), opened) ==> !(opened is Opened),
    ensures
        match result {
            Ok((cursor, chosen)) => can_be_chosen(
                corners,
                (reader, full_width, full_height),
                *wide,
                *next,
                cursor,
                chosen,
            ),
            Err(e) => can_be_unmeasured(
                corners,
                (reader, full_width, full_height),
                *wide,
                *next,
                e,
            ),
        },
{
    let mut cursor = IfdCursor::first(full_width, full_height);
    let ghost first = (reader, full_width, full_height);
    let ghost mut levels = seq![first];
    let mut at = reader;
    loop
        invariant
            forall|width: u32| #[trigger] call_requires(*wide, (corners, full_width, width)),
            forall|d: D, i: u32| #[trigger] call_requires(*next, (d, i)),
            forall|d: D, opened: NextImage<D>| #[trigger]
                call_ensures(*next, (d, u32::MAX), opened) ==> !(opened is Opened),
            first == (reader, full_width, full_height),
            are_opened(corners, first, *wide, *next, levels),
            cursor.ifd_index == levels.len() - 1,
            (at, cursor.width, cursor.height) == levels.last(),
        decreases u32::MAX - cursor.ifd_index,
    {
        let too_wide = wide(corners, full_width, cursor.width);
        if cursor.step(IfdEvent::Measured(too_wide)) == IfdAction::Take {
            return Ok((cursor, at));
        }
        match next(at, cursor.ifd_index) {
            NextImage::Opened(opened, width, height) => {
                let ghost before = levels;
                proof {
                    levels = levels.push((opened, width, height));
                }
                at = opened;
                cursor.step(IfdEvent::Opened(width, height));
                assert forall|i: int| 0 < i < levels.len() implies #[trigger] is_opened(
                    corners,
                    *wide,
                    *next,
                    levels,
                    i,
                ) by {
                    if i < before.len() {
                        assert(is_opened(corners, *wide, *next, before, i));
                    }
                }
            },
            NextImage::Unmeasured(e) => return Err(e),
            NextImage::NoMore(left) => {
                cursor.step(IfdEvent::NoMore);
                return Ok((cursor, left));
            },
        }
    }
}

/// Determines the image directory and the chunks needed for a tile extraction, from the tags of the
/// first directory and a reader at it, which is handed back at the directory of the plan.
///
/// `project` gives the corners of the tile in pixels of the image, `wide` and `next` lead to the
/// directory that the tile is cut from, as in `choose_image`, `scale` gives the corners in pixels
/// of that image, from the width of the full resolution and its own, and `layout` tells how the
/// pixels of the image that a reader is at lie in chunks.
pub fn plan_tile_extraction<D, P, W, N, S, L>(
    reader: D,
    tags: GeoTags,
    z: u32,
    x: u32,
    y: u32,
    project: P,
    wide: &W,
    next: &N,
    scale: S,
    layout: L,
) -> (result: Result<(TileExtractionPlan, D), String>) where
    P: FnOnce(PlanStart) -> Result<[(Real, Real); 4], String>,
    W: Fn([(Real, Real); 4], u32, u32) -> bool,
    N: Fn(D, u32) -> NextImage<D>,
    S: FnOnce([(Real, Real); 4], u32, u32) -> ScaledCorners,
    L: FnOnce(D) -> Result<(ChunkLayout, D), String>,

    requires
        tags.complete(),
        metadata_error(tags) is None ==> z < 32 && x < u32::MAX && y < u32::MAX,
        can_start(tags) ==> {
            &&& forall|start: PlanStart| #[trigger] call_requires(project, (start,))
            &&& forall|corners: [(Real, Real); 4], full: u32, width: u32| #[trigger]
                call_requires(*wide, (corners, full, width))
            &&& forall|at: D, i: u32| #[trigger] call_requires(*next, (at, i))
            &&& forall|at: D, opened: NextImage<D>| #[trigger]
                call_ensures(*next, (at, u32::MAX), opened) ==> !(opened is Opened)
            &&& forall|corners: [(Real, Real); 4], full: u32, width: u32| #[trigger]
                call_requires(scale, (corners, full, width))
            &&& forall|at: D| #[trigger] call_requires(layout, (at,))
            &&& forall|at: D, found: ChunkLayout, left: D| #[trigger]
                call_ensures(layout, (at,), Ok((found, left))) ==> found.tw > 0 && found.th > 0
        },
    ensures
        metadata_error(tags) matches Some(text) ==> (result matches Err(e) && e@ == text),
        metadata_error(tags) is None && !can_start(tags) ==> (result matches Err(e) && e@
            == unknown_zone_message()),
        can_start(tags) ==> exists|start: PlanStart, projected: Result<[(Real, Real); 4], String>|
            {
                &&& #[trigger] is_start(tags, z, x, y, start)
                &&& #[trigger] call_ensures(project, (start,), projected)
                &&& match projected {
                    Err(e) => result == Err::<(TileExtractionPlan, D), String>(e),
                    Ok(corners) => can_be_planned(
                        corners,
                        (reader, tags.dimensions->Ok_0.0, tags.dimensions->Ok_0.1),
                        *wide,
                        *next,
                        scale,
                        layout,
                        result,
                    ),
                }
            },
{
    let metadata = match get_cog_metadata(tags) {
        Ok(metadata) => metadata,
        Err(e) => return Err(e),
    };
    let (width, height): (u32, u32) = (metadata.width, metadata.height);
    let bounds = calculate_mercator_bounds(z, x, y);
    let (source, target) = match open_projections(&metadata) {
        Ok(projections) => projections,
        Err(e) => return Err(e),
    };
    let start = PlanStart { metadata, bounds, corners: bounds.corners(), source, target };
    assert(is_start(tags, z, x, y, start));
    let corners = match project(start) {
        Ok(corners) => corners,
        Err(e) => return Err(e),
    };
    let (cursor, chosen) = match choose_image(reader, width, height, corners, wide, next) {
        Ok(found) => found,
        Err(e) => return Err(e),
    };
    let scaled = scale(corners, width, cursor.width);
    match layout(chosen) {
        Ok((found, left)) => {
            let plan = plan_chunks(cursor, scaled, found);
            assert(is_plan_for(cursor, scaled, found, plan));
            assert(is_planned_at(corners, width, scale, layout, cursor, chosen, plan, left));
            Ok((plan, left))
        },
        Err(e) => Err(e),
    }
}

/// Whether a plan is the one for a chosen directory.
pub open spec fn is_plan_for(
    ifd: IfdCursor,
    scaled: ScaledCorners,
    layout: ChunkLayout,
    plan: TileExtractionPlan,
) -> bool {
    &&& plan.ifd_index == ifd.ifd_index
    &&& plan.scale_factor == scaled.scale_factor
    &&& plan.ifd_corners == scaled.ifd_corners
    &&& plan.start_col == chunk_of_pixel(scaled.extent.minx, ifd.width, layout.tw)
    &&& plan.end_col == chunk_of_pixel(scaled.extent.maxx, ifd.width, layout.tw)
    &&& plan.start_row == chunk_of_pixel(scaled.extent.miny, ifd.height, layout.th)
    &&& plan.end_row == chunk_of_pixel(scaled.extent.maxy, ifd.height, layout.th)
    &&& plan.tw == layout.tw
    &&& plan.th == layout.th
    &&& plan.current_width == ifd.width
    &&& plan.current_height == ifd.height
    &&& plan.is_rgba == layout.is_rgba
}

/// Whether a plan can be made for a chosen directory with the reader at it, and leave a reader: the
/// layout is what `layout` tells of that reader, and the corners are scaled to that image.
pub open spec fn is_planned_at<D, S, L>(
    corners: [(Real, Real); 4],
    full_width: u32,
    scale: S,
    layout: L,
    ifd: IfdCursor,
    chosen: D,
    plan: TileExtractionPlan,
    left: D,
) -> bool where
    S: FnOnce([(Real, Real); 4], u32, u32) -> ScaledCorners,
    L: FnOnce(D) -> Result<(ChunkLayout, D), String>,
 {
    exists|scaled: ScaledCorners, found: ChunkLayout|
        {
            &&& #[trigger] call_ensures(scale, (corners, full_width, ifd.width), scaled)
            &&& call_ensures(layout, (chosen,), Ok((found, left)))
            &&& #[trigger] is_plan_for(ifd, scaled, found, plan)
        }
}

/// Whether planning a tile with these corners, from a first directory on, can end with a result: a
/// plan for the chosen directory, with the layout that the reader at that directory gives.
pub open spec fn can_be_planned<D, W, N, S, L>(
    corners: [(Real, Real); 4],
    first: (D, u32, u32),
    wide: W,
    next: N,
    scale: S,
    layout: L,
    result: Result<(TileExtractionPlan, D), String>,
) -> bool where
    W: Fn([(Real, Real); 4], u32, u32) -> bool,
    N: Fn(D, u32) -> NextImage<D>,
    S: FnOnce([(Real, Real); 4], u32, u32) -> ScaledCorners,
    L: FnOnce(D) -> Result<(ChunkLayout, D), String>,
 {
    match result {
        Ok((plan, left)) => exists|ifd: IfdCursor, chosen: D|
            {
                &&& #[trigger] can_be_chosen(corners, first, wide, next, ifd, chosen)
                &&& is_planned_at(corners, first.1, scale, layout, ifd, chosen, plan, left)
            },
        Err(e) => {
            ||| can_be_unmeasured(corners, first, wide, next, e)
            ||| exists|ifd: IfdCursor, chosen: D|
                {
                    &&& #[trigger] can_be_chosen(corners, first, wide, next, ifd, chosen)
                    &&& call_ensures(layout, (chosen,), Err(e))
                }
        },
    }
}

/// Determines the chunks needed for a tile extraction from the chosen image.
pub fn plan_chunks(
    ifd: IfdCursor,
    scaled: ScaledCorners,
    layout: ChunkLayout,
) -> (plan: TileExtractionPlan)
    requires
        layout.tw > 0,
        layout.th > 0,
    ensures
        is_plan_for(ifd, scaled, layout, plan),
{
    let extent = scaled.extent;
    let (tw, th): (u32, u32) = (layout.tw, layout.th);
    TileExtractionPlan {
        ifd_index: ifd.ifd_index,
        scale_factor: scaled.scale_factor,
        ifd_corners: scaled.ifd_corners,
        start_col: chunk_holding(extent.minx, ifd.width, tw),
        end_col: chunk_holding(extent.maxx, ifd.width, tw),
        start_row: chunk_holding(extent.miny, ifd.height, th),
        end_row: chunk_holding(extent.maxy, ifd.height, th),
        tw,
        th,
        current_width: ifd.width,
        current_height: ifd.height,
        is_rgba: layout.is_rgba,
    }
}

/// Along each side, the chunks planned for an extent run forwards and lie in the image: they
/// start no later than they end, and end before the number of chunks that cover the image.
pub proof fn law_planned_chunks_lie_in_the_image(min: i64, max: i64, extent: u32, step: u32)
    requires
        min <= max,
        extent > 0,
        step > 0,
    ensures
        0 <= chunk_of_pixel(min, extent, step) <= chunk_of_pixel(max, extent, step) < steps_over(
            extent as int,
            step as int,
        ),
{
    let at = |pixel: i64|
        least(if pixel < 0 {
            0
        } else {
            pixel as int
        }, extent - 1);
    assert(0 <= at(min) <= at(max) <= extent - 1);
    vstd::arithmetic::div_mod::lemma_div_is_ordered(0, at(min), step as int);
    vstd::arithmetic::div_mod::lemma_div_is_ordered(at(min), at(max), step as int);
    vstd::arithmetic::div_mod::lemma_div_is_ordered(at(max), extent - 1, step as int);
    vstd::arithmetic::div_mod::lemma_div_plus_one(extent - 1, step as int);
}

/// Every pixel of the extent that lies in the image lies in a planned chunk.
pub proof fn law_planned_chunks_hold_the_extent(
    min: i64,
    max: i64,
    pixel: i64,
    extent: u32,
    step: u32,
)
    requires
        min <= pixel <= max,
        0 <= pixel < extent,
        step > 0,
    ensures
        chunk_of_pixel(min, extent, step) <= pixel as int / step as int <= chunk_of_pixel(
            max,
            extent,
            step,
        ),
{
    law_planned_chunks_lie_in_the_image(min, pixel, extent, step);
    law_planned_chunks_lie_in_the_image(pixel, max, extent, step);
}

/// A plan for an extent that runs forwards over an image whose pixels and chunks can be counted
/// can be carried out.
pub proof fn law_plan_over_an_image_is_well_formed(plan: TileExtractionPlan, extent: PixelExtent)
    requires
        plan.tw > 0,
        plan.th > 0,
        plan.current_width > 0,
        plan.current_height > 0,
        extent.minx <= extent.maxx,
        extent.miny <= extent.maxy,
        plan.start_col == chunk_of_pixel(extent.minx, plan.current_width, plan.tw),
        plan.end_col == chunk_of_pixel(extent.maxx, plan.current_width, plan.tw),
        plan.start_row == chunk_of_pixel(extent.miny, plan.current_height, plan.th),
        plan.end_row == chunk_of_pixel(extent.maxy, plan.current_height, plan.th),
        plan.chunks_across() * plan.tw <= u32::MAX,
        plan.chunks_down() * plan.th <= u32::MAX,
        4 * (plan.chunks_across() * plan.tw) * (plan.chunks_down() * plan.th) <= isize::MAX,
        plan.chunks_across() * plan.chunks_down() <= u32::MAX,
    ensures
        plan.wf(),
{
    law_planned_chunks_lie_in_the_image(extent.minx, extent.maxx, plan.current_width, plan.tw);
    law_planned_chunks_lie_in_the_image(extent.miny, extent.maxy, plan.current_height, plan.th);
    let across = plan.chunks_across();
    let down = plan.chunks_down();
    let cols = plan.end_col - plan.start_col + 1;
    let rows = plan.end_row - plan.start_row + 1;
    vstd::arithmetic::mul::lemma_mul_inequality(cols, across, plan.tw as int);
    vstd::arithmetic::mul::lemma_mul_inequality(rows, down, plan.th as int);
    vstd::arithmetic::mul::lemma_mul_inequality(plan.start_col as int, across, plan.tw as int);
    vstd::arithmetic::mul::lemma_mul_inequality(plan.start_row as int, down, plan.th as int);
    let width = plan.buffer_width();
    let height = plan.buffer_height();
    let full_width = across * plan.tw;
    let full_height = down * plan.th;
    assert(4 * width * height <= 4 * full_width * full_height) by (nonlinear_arith)
        requires
            0 <= width <= full_width,
            0 <= height <= full_height,
    ;
    assert(plan.end_row * across + plan.end_col < across * down) by (nonlinear_arith)
        requires
            0 <= plan.end_row <= down - 1,
            0 <= plan.end_col < across,
    ;
}

impl TileExtractionPlan {
    /// The number of chunks across the image.
    pub open spec fn chunks_across(self) -> int {
        steps_over(self.current_width as int, self.tw as int)
    }

    /// The number of chunks down the image.
    pub open spec fn chunks_down(self) -> int {
        steps_over(self.current_height as int, self.th as int)
    }

    /// The width of the planned chunks, side by side.
    pub open spec fn buffer_width(self) -> int {
        (self.end_col - self.start_col + 1) * self.tw
    }

    /// The height of the planned chunks, one above the other.
    pub open spec fn buffer_height(self) -> int {
        (self.end_row - self.start_row + 1) * self.th
    }

    /// The number under which the file holds the chunk in a row and column.
    pub open spec fn chunk_number(self, row: int, col: int) -> int {
        row * self.chunks_across() + col
    }

    /// Whether the chunk in a row and column is planned.
    pub open spec fn covers(self, row: int, col: int) -> bool {
        self.start_row <= row <= self.end_row && self.start_col <= col <= self.end_col
    }

    /// The chunks run forwards, and their numbers, pixels and positions fit the types that hold
    /// them.
    pub open spec fn wf(self) -> bool {
        &&& self.tw > 0
        &&& self.th > 0
        &&& self.current_width > 0
        &&& self.current_height > 0
        &&& self.start_col <= self.end_col
        &&& self.start_row <= self.end_row
        &&& self.buffer_width() <= u32::MAX
        &&& self.buffer_height() <= u32::MAX
        &&& 4 * self.buffer_width() * self.buffer_height() <= isize::MAX
        &&& self.chunk_number(self.end_row as int, self.end_col as int) <= u32::MAX
        &&& self.start_col * self.tw <= u32::MAX
        &&& self.start_row * self.th <= u32::MAX
    }

    /// Checks that the plan can be carried out.
    pub fn is_well_formed(&self) -> (valid: bool)
        ensures
            valid == self.wf(),
    {
        if self.tw == 0 || self.th == 0 || self.current_width == 0 || self.current_height == 0
            || self.start_col > self.end_col || self.start_row > self.end_row {
            return false;
        }
        let most: u128 = 0xFFFF_FFFF;
        let cols: u128 = self.end_col as u128 - self.start_col as u128 + 1;
        let rows: u128 = self.end_row as u128 - self.start_row as u128 + 1;
        assert(0 <= cols * self.tw <= 0x1_0000_0000 * 0x1_0000_0000) by (nonlinear_arith)
            requires
                cols <= 0x1_0000_0000,
                self.tw <= 0x1_0000_0000,
        ;
        assert(0 <= rows * self.th <= 0x1_0000_0000 * 0x1_0000_0000) by (nonlinear_arith)
            requires
                rows <= 0x1_0000_0000,
                self.th <= 0x1_0000_0000,
        ;
        let width: u128 = cols * self.tw as u128;
        let height: u128 = rows * self.th as u128;
        if width > most || height > most {
            return false;
        }
        assert(0 <= 4 * width * height <= 4 * 0x1_0000_0000 * 0x1_0000_0000) by (nonlinear_arith)
            requires
                width <= 0xFFFF_FFFF,
                height <= 0xFFFF_FFFF,
        ;
        if 4 * width * height > isize::MAX as u128 {
            return false;
        }
        let across: u32 = self.count_across();
        assert(0 <= self.end_row * across <= 0x1_0000_0000 * 0x1_0000_0000) by (nonlinear_arith)
            requires
                self.end_row <= 0x1_0000_0000,
                across <= 0x1_0000_0000,
        ;
        assert(0 <= self.start_col * self.tw <= 0x1_0000_0000 * 0x1_0000_0000) by (nonlinear_arith)
            requires
                self.start_col <= 0x1_0000_0000,
                self.tw <= 0x1_0000_0000,
        ;
        assert(0 <= self.start_row * self.th <= 0x1_0000_0000 * 0x1_0000_0000) by (nonlinear_arith)
            requires
                self.start_row <= 0x1_0000_0000,
                self.th <= 0x1_0000_0000,
        ;
        self.end_row as u128 * across as u128 + self.end_col as u128 <= most && self.start_col
            as u128 * self.tw as u128 <= most && self.start_row as u128 * self.th as u128 <= most
    }

    /// Counts the chunks across the image.
    pub fn count_across(&self) -> (count: u32)
        requires
            self.tw > 0,
        ensures
            count == self.chunks_across(),
    {
        count_steps(self.current_width, self.tw)
    }

    /// Counts the chunks down the image.
    pub fn count_down(&self) -> (count: u32)
        requires
            self.th > 0,
        ensures
            count == self.chunks_down(),
    {
        count_steps(self.current_height, self.th)
    }

    /// The number under which the file holds a planned chunk.
    pub fn number_of_chunk(&self, row: u32, col: u32) -> (number: u32)
        requires
            self.wf(),
            self.covers(row as int, col as int),
        ensures
            number == self.chunk_number(row as int, col as int),
    {
        let across: u32 = self.count_across();
        assert(0 <= row * across <= self.end_row * across) by (nonlinear_arith)
            requires
                0 <= row <= self.end_row,
                0 <= across,
        ;
        row * across + col
    }

    /// The position of the first planned pixel in the image.
    pub fn origin(&self) -> (position: (u32, u32))
        requires
            self.wf(),
        ensures
            position.0 == self.start_col * self.tw,
            position.1 == self.start_row * self.th,
    {
        (self.start_col * self.tw, self.start_row * self.th)
    }
}

/// Divides and rounds up.
pub fn count_steps(extent: u32, step: u32) -> (count: u32)
    requires
        step > 0,
    ensures
        count == steps_over(extent as int, step as int),
{
    let sum: u64 = extent as u64 + step as u64 - 1;
    assert((extent + step - 1) / step as int <= 0xFFFF_FFFF) by (nonlinear_arith)
        requires
            step > 0,
            extent <= 0xFFFF_FFFF,
    ;
    (sum / step as u64) as u32
}

/// Whether the file's bytes for the chunk in a row and column reach into cache chunk `c`, where
/// `offsets` and `byte_counts` hold the place and the size of each chunk.
pub open spec fn chunk_reaches(
    plan: TileExtractionPlan,
    offsets: Seq<u64>,
    byte_counts: Seq<u64>,
    row: int,
    col: int,
    c: u64,
) -> bool {
    let i = plan.chunk_number(row, col);
    &&& 0 <= i < offsets.len()
    &&& i < byte_counts.len()
    &&& byte_counts[i] > 0
    &&& offsets[i] as int / CHUNK_SIZE as int <= c
    &&& c <= least(offsets[i] + byte_counts[i] - 1, u64::MAX as int) / CHUNK_SIZE as int
}

/// Whether some planned chunk has bytes in cache chunk `c`.
pub open spec fn is_required(
    plan: TileExtractionPlan,
    offsets: Seq<u64>,
    byte_counts: Seq<u64>,
    c: u64,
) -> bool {
    exists|row: int, col: int|
        plan.covers(row, col) && #[trigger] chunk_reaches(plan, offsets, byte_counts, row, col, c)
}

/// Whether some chunk that is planned and comes before the one in a row and column, in the order
/// of rows and, in a row, of columns, has bytes in cache chunk `c`.
spec fn is_required_before(
    plan: TileExtractionPlan,
    offsets: Seq<u64>,
    byte_counts: Seq<u64>,
    row: int,
    col: int,
    c: u64,
) -> bool {
    exists|r: int, k: int|
        plan.covers(r, k) && (r < row || r == row && k < col) && #[trigger] chunk_reaches(
            plan,
            offsets,
            byte_counts,
            r,
            k,
            c,
        )
}

/// Whether numbers are in ascending order, without repeats.
pub open spec fn ascending(v: Seq<u64>) -> bool {
    forall|i: int, j: int| 0 <= i < j < v.len() ==> v[i] < v[j]
}

/// Every byte that the file holds for a planned chunk lies in a required cache chunk.
pub proof fn law_required_chunks_hold_the_planned_bytes(
    plan: TileExtractionPlan,
    offsets: Seq<u64>,
    byte_counts: Seq<u64>,
    row: int,
    col: int,
    position: u64,
)
    requires
        plan.covers(row, col),
        0 <= plan.chunk_number(row, col) < offsets.len(),
        plan.chunk_number(row, col) < byte_counts.len(),
        offsets[plan.chunk_number(row, col)] <= position,
        position < offsets[plan.chunk_number(row, col)] + byte_counts[plan.chunk_number(row, col)],
    ensures
        is_required(plan, offsets, byte_counts, position / CHUNK_SIZE),
{
    assert(chunk_reaches(plan, offsets, byte_counts, row, col, position / CHUNK_SIZE));
}

/// Puts a number in its place.
fn insert_ascending(v: &mut Vec<u64>, c: u64)
    requires
        ascending(old(v)@),
    ensures
        ascending(final(v)@),
        forall|x: u64| #[trigger] final(v)@.contains(x) <==> old(v)@.contains(x) || x == c,
{
    let mut at: usize = v.len();
    let ghost before = v@;
    while at > 0 && v[at - 1] > c
        invariant
            at <= v@.len(),
            v@ == before,
            ascending(before),
            forall|i: int| at <= i < before.len() ==> before[i] > c,
        decreases at,
    {
        at = at - 1;
    }
    if at > 0 && v[at - 1] == c {
        assert(before[at - 1] == c);
        return ;
    }
    v.insert(at, c);
    let ghost after = v@;
    proof {
        assert(after =~= before.insert(at as int, c));
        assert forall|x: u64| #[trigger] after.contains(x) <==> before.contains(x) || x == c by {
            if before.contains(x) {
                let i = choose|i: int| 0 <= i < before.len() && before[i] == x;
                if i < at {
                    assert(after[i] == x);
                } else {
                    assert(after[i + 1] == x);
                }
            }
            if x == c {
                assert(after[at as int] == x);
            }
            if after.contains(x) && x != c {
                let i = choose|i: int| 0 <= i < after.len() && after[i] == x;
                if i < at {
                    assert(before[i] == x);
                } else {
                    assert(before[i - 1] == x);
                }
            }
        }
    }
}

/// Lists the cache chunks that hold the file's bytes for the planned chunks, where `offsets` and
/// `byte_counts` hold the place and the size of each chunk of the image in the file.
pub fn get_required_cache_chunks(
    plan: &TileExtractionPlan,
    offsets: &Vec<u64>,
    byte_counts: &Vec<u64>,
) -> (required: Vec<u64>)
    requires
        plan.wf(),
    ensures
        ascending(required@),
        forall|c: u64| #[trigger]
            required@.contains(c) <==> is_required(*plan, offsets@, byte_counts@, c),
{
    let mut required: Vec<u64> = Vec::new();
    let mut row: u64 = plan.start_row as u64;
    while row <= plan.end_row as u64
        invariant
            plan.wf(),
            plan.start_row <= row <= plan.end_row + 1,
            ascending(required@),
            forall|c: u64| #[trigger]
                required@.contains(c) <==> is_required_before(
                    *plan,
                    offsets@,
                    byte_counts@,
                    row as int,
                    plan.start_col as int,
                    c,
                ),
        decreases plan.end_row + 1 - row,
    {
        let mut col: u64 = plan.start_col as u64;
        while col <= plan.end_col as u64
            invariant
                plan.wf(),
                plan.start_row <= row <= plan.end_row,
                plan.start_col <= col <= plan.end_col + 1,
                ascending(required@),
                forall|c: u64| #[trigger]
                    required@.contains(c) <==> is_required_before(
                        *plan,
                        offsets@,
                        byte_counts@,
                        row as int,
                        col as int,
                        c,
                    ),
            decreases plan.end_col + 1 - col,
        {
            let ghost before = required@;
            require_chunk(&mut required, plan, offsets, byte_counts, row as u32, col as u32);
            assert forall|c: u64| #[trigger] required@.contains(c) <==> is_required_before(
                *plan,
                offsets@,
                byte_counts@,
                row as int,
                col + 1,
                c,
            ) by {
                let reached = chunk_reaches(
                    *plan,
                    offsets@,
                    byte_counts@,
                    row as int,
                    col as int,
                    c,
                );
                assert(before.contains(c) <==> is_required_before(
                    *plan,
                    offsets@,
                    byte_counts@,
                    row as int,
                    col as int,
                    c,
                ));
                assert(plan.covers(row as int, col as int));
            }
            col = col + 1;
        }
        assert forall|c: u64| #[trigger] required@.contains(c) <==> is_required_before(
            *plan,
            offsets@,
            byte_counts@,
            row + 1,
            plan.start_col as int,
            c,
        ) by {}
        row = row + 1;
    }
    required
}

/// Adds the cache chunks that hold the file's bytes for one chunk.
fn require_chunk(
    required: &mut Vec<u64>,
    plan: &TileExtractionPlan,
    offsets: &Vec<u64>,
    byte_counts: &Vec<u64>,
    row: u32,
    col: u32,
)
    requires
        plan.wf(),
        plan.covers(row as int, col as int),
        ascending(old(required)@),
    ensures
        ascending(final(required)@),
        forall|c: u64| #[trigger]
            final(required)@.contains(c) <==> old(required)@.contains(c) || chunk_reaches(
                *plan,
                offsets@,
                byte_counts@,
                row as int,
                col as int,
                c,
            ),
{
    let i: usize = plan.number_of_chunk(row, col) as usize;
    if i >= offsets.len() || i >= byte_counts.len() || byte_counts[i] == 0 {
        return ;
    }
    let end: u64 = if byte_counts[i] - 1 <= u64::MAX - offsets[i] {
        offsets[i] + (byte_counts[i] - 1)
    } else {
        u64::MAX
    };
    let first: u64 = offsets[i] / CHUNK_SIZE;
    let last: u64 = end / CHUNK_SIZE;
    let ghost before = required@;
    let mut c: u64 = first;
    while c <= last
        invariant
            first <= c <= last + 1,
            last < u64::MAX,
            ascending(required@),
            forall|x: u64| #[trigger]
                required@.contains(x) <==> before.contains(x) || first <= x < c,
        decreases last + 1 - c,
    {
        insert_ascending(required, c);
        c = c + 1;
    }
}

/// The chunks that cover a side of an image are as few as can be: they reach its end, and one less
/// does not.
pub proof fn law_chunks_just_cover_the_image(extent: int, step: int)
    requires
        extent >= 0,
        step > 0,
    ensures
        extent <= steps_over(extent, step) * step,
        extent > (steps_over(extent, step) - 1) * step,
{
    vstd::arithmetic::div_mod::lemma_fundamental_div_mod(extent + step - 1, step);
    let n = (extent + step - 1) / step;
    assert(step * n == n * step) by (nonlinear_arith);
    assert((n - 1) * step == n * step - step) by (nonlinear_arith);
}

/// A pixel of the image lies in the chunk that is found for it; a pixel before the image counts as
/// its first one, and a pixel beyond it as its last. In an empty image the first chunk is found.
pub proof fn law_pixels_lie_in_their_chunk(pixel: i64, extent: u32, step: u32, chunk: u32)
    requires
        step > 0,
        call_ensures(chunk_holding, (pixel, extent, step), chunk),
    ensures
        0 <= pixel < extent ==> chunk * step <= pixel < (chunk + 1) * step,
        pixel < 0 || extent == 0 ==> chunk == 0,
        0 < extent <= pixel ==> chunk * step < extent <= (chunk + 1) * step,
{
    if extent > 0 {
        lemma_pixel_in_chunk(pixel, extent, step);
    }
    vstd::arithmetic::div_mod::lemma_div_basics_1(step as int);
}

proof fn lemma_pixel_in_chunk(pixel: i64, extent: u32, step: u32)
    requires
        extent > 0,
        step > 0,
    ensures
        ({
            let chunk = chunk_of_pixel(pixel, extent, step);
            let at = if pixel < 0 {
                0
            } else if pixel >= extent {
                extent - 1
            } else {
                pixel as int
            };
            chunk * step <= at < (chunk + 1) * step
        }),
{
    let at = if pixel < 0 {
        0
    } else if pixel >= extent {
        extent - 1
    } else {
        pixel as int
    };
    vstd::arithmetic::div_mod::lemma_fundamental_div_mod(at, step as int);
    let chunk = at / step as int;
    assert(step * chunk == chunk * step) by (nonlinear_arith);
    assert((chunk + 1) * step == chunk * step + step) by (nonlinear_arith);
}

/// The chunks that are counted across and down an image just cover its width and its height.
pub proof fn law_counted_chunks_just_cover_the_image(
    plan: TileExtractionPlan,
    across: u32,
    down: u32,
)
    requires
        plan.tw > 0,
        plan.th > 0,
        call_ensures(TileExtractionPlan::count_across, (&plan,), across),
        call_ensures(TileExtractionPlan::count_down, (&plan,), down),
    ensures
        (across - 1) * plan.tw < plan.current_width <= across * plan.tw,
        (down - 1) * plan.th < plan.current_height <= down * plan.th,
{
    law_chunks_just_cover_the_image(plan.current_width as int, plan.tw as int);
    law_chunks_just_cover_the_image(plan.current_height as int, plan.th as int);
}

/// Steps are counted up to the first that reaches the extent.
pub proof fn law_counted_steps_just_cover_the_extent(extent: u32, step: u32, count: u32)
    requires
        step > 0,
        call_ensures(count_steps, (extent, step), count),
    ensures
        (count - 1) * step < extent <= count * step,
{
    law_chunks_just_cover_the_image(extent as int, step as int);
}

/// Chunks are numbered from 0 on, row by row and, in a row, from column to column: the one after
/// another in its row has the next number, and so has the first of the next row after the last of
/// a row, which reaches the end of the image.
pub proof fn law_chunks_are_numbered_in_reading_order(
    plan: TileExtractionPlan,
    row: u32,
    col: u32,
    number: u32,
    next_row: u32,
    next_col: u32,
    next_number: u32,
)
    requires
        plan.tw > 0,
        call_ensures(TileExtractionPlan::number_of_chunk, (&plan, row, col), number),
        call_ensures(
            TileExtractionPlan::number_of_chunk,
            (&plan, next_row, next_col),
            next_number,
        ),
    ensures
        row == 0 && col == 0 ==> number == 0,
        next_row == row && next_col == col + 1 ==> next_number == number + 1,
        next_row == row + 1 && next_col == 0 && col * plan.tw < plan.current_width <= (col + 1)
            * plan.tw ==> next_number == number + 1,
        next_row == row && next_col > col ==> next_number - number == next_col - col,
{
    lemma_numbers_follow(plan, row as int, col as int);
    assert(next_row == 0 ==> next_row * plan.chunks_across() == 0);
}

proof fn lemma_numbers_follow(plan: TileExtractionPlan, row: int, col: int)
    requires
        plan.tw > 0,
    ensures
        plan.chunk_number(0, 0) == 0,
        plan.chunk_number(row, col + 1) == plan.chunk_number(row, col) + 1,
        col * plan.tw < plan.current_width <= (col + 1) * plan.tw ==> plan.chunk_number(row + 1, 0)
            == plan.chunk_number(row, col) + 1,
{
    let across = plan.chunks_across();
    let (width, tw) = (plan.current_width as int, plan.tw as int);
    assert((row + 1) * across == row * across + across) by (nonlinear_arith);
    if col * tw < width <= (col + 1) * tw {
        lemma_count_is_known(width, tw, col + 1);
    }
}

pub proof fn lemma_count_is_known(extent: int, step: int, count: int)
    requires
        extent >= 0,
        step > 0,
        (count - 1) * step < extent <= count * step,
    ensures
        steps_over(extent, step) == count,
{
    law_chunks_just_cover_the_image(extent, step);
    let n = steps_over(extent, step);
    assert(n == count) by (nonlinear_arith)
        requires
            extent <= n * step,
            extent > (n - 1) * step,
            (count - 1) * step < extent <= count * step,
            step > 0,
    ;
}

/// The first planned pixel is the first of the first planned chunk.
pub proof fn law_planned_pixels_start_with_the_first_chunk(
    plan: TileExtractionPlan,
    position: (u32, u32),
)
    requires
        call_ensures(TileExtractionPlan::origin, (&plan,), position),
    ensures
        position.0 == plan.start_col * plan.tw,
        position.1 == plan.start_row * plan.th,
{
}

/// The planned chunks are those of the rows and columns from the first to the last planned one, and
/// lie side by side in a buffer that is just as large.
pub proof fn law_planned_chunks_fill_the_buffer(plan: TileExtractionPlan, row: int, col: int)
    ensures
        plan.covers(row, col) <==> plan.start_row <= row && row <= plan.end_row && plan.start_col
            <= col && col <= plan.end_col,
        plan.buffer_width() == (plan.end_col + 1) * plan.tw - plan.start_col * plan.tw,
        plan.buffer_height() == (plan.end_row + 1) * plan.th - plan.start_row * plan.th,
{
    assert((plan.end_col - plan.start_col + 1) * plan.tw == (plan.end_col + 1) * plan.tw
        - plan.start_col * plan.tw) by (nonlinear_arith);
    assert((plan.end_row - plan.start_row + 1) * plan.th == (plan.end_row + 1) * plan.th
        - plan.start_row * plan.th) by (nonlinear_arith);
}

/// A plan can be carried out if and only if its image and chunks are not empty, the chunks run
/// forwards, and none of these is too large to count: the positions and the size of the planned
/// part in pixels, its bytes in memory at four for a pixel, and the number of its last chunk in an
/// image of `across` chunks in a row.
pub proof fn law_plans_that_can_be_counted_are_well_formed(
    plan: TileExtractionPlan,
    across: int,
    valid: bool,
)
    requires
        plan.tw > 0,
        (across - 1) * plan.tw < plan.current_width <= across * plan.tw,
        call_ensures(TileExtractionPlan::is_well_formed, (&plan,), valid),
    ensures
        valid == plan.wf(),
        valid <==> {
            let width = (plan.end_col + 1) * plan.tw - plan.start_col * plan.tw;
            let height = (plan.end_row + 1) * plan.th - plan.start_row * plan.th;
            &&& plan.th > 0
            &&& plan.current_width > 0
            &&& plan.current_height > 0
            &&& plan.start_col <= plan.end_col
            &&& plan.start_row <= plan.end_row
            &&& width <= 0xFFFF_FFFF
            &&& height <= 0xFFFF_FFFF
            &&& 4 * width * height <= isize::MAX
            &&& plan.start_col * plan.tw <= 0xFFFF_FFFF
            &&& plan.start_row * plan.th <= 0xFFFF_FFFF
            &&& plan.end_row * across + plan.end_col <= 0xFFFF_FFFF
        },
{
    lemma_count_is_known(plan.current_width as int, plan.tw as int, across);
    law_planned_chunks_fill_the_buffer(plan, 0, 0);
}

/// The search for the image of a tile starts with the first directory.
pub proof fn law_search_starts_with_the_first_directory(
    width: u32,
    height: u32,
    cursor: IfdCursor,
)
    requires
        call_ensures(IfdCursor::first, (width, height), cursor),
    ensures
        cursor.ifd_index == 0,
        cursor.width == width,
        cursor.height == height,
{
}

/// Too wide a crop leads to the next directory and one that is not to the end of the search; a
/// directory that is opened is measured, and has the next number; where there is none, the search
/// ends where it is.
pub proof fn law_search_goes_from_directory_to_directory(
    cursor: IfdCursor,
    width: u32,
    height: u32,
)
    requires
        cursor.ifd_index < u32::MAX,
    ensures
        cursor.after(IfdEvent::Measured(true)) == (cursor, IfdAction::OpenNext),
        cursor.after(IfdEvent::Measured(false)) == (cursor, IfdAction::Take),
        cursor.after(IfdEvent::NoMore) == (cursor, IfdAction::Take),
        ({
            let (opened, action) = cursor.after(IfdEvent::Opened(width, height));
            &&& opened.ifd_index == cursor.ifd_index + 1
            &&& opened.width == width
            &&& opened.height == height
            &&& action is Measure
        }),
{
}

/// A plan keeps each corner of the tile in its place, the north-west one first, then the
/// north-east, the south-west and the south-east one, and is for the given directory and the given
/// chunks.
pub proof fn law_plans_keep_the_corners_in_order(
    ifd: IfdCursor,
    scaled: ScaledCorners,
    layout: ChunkLayout,
    plan: TileExtractionPlan,
    k: int,
)
    requires
        call_ensures(plan_chunks, (ifd, scaled, layout), plan),
        0 <= k < 4,
    ensures
        plan.ifd_corners@[k] == scaled.ifd_corners@[k],
        plan.scale_factor == scaled.scale_factor,
        plan.ifd_index == ifd.ifd_index,
        plan.current_width == ifd.width,
        plan.current_height == ifd.height,
        plan.tw == layout.tw,
        plan.th == layout.th,
        plan.is_rgba == layout.is_rgba,
{
}

/// Each pixel of the extent that lies in the image lies in a planned chunk, the first planned chunk
/// holds the least pixel of the extent and the last one the greatest, pixels beyond the image
/// counting as those at its edge.
pub proof fn law_plans_hold_their_extent(
    ifd: IfdCursor,
    scaled: ScaledCorners,
    layout: ChunkLayout,
    plan: TileExtractionPlan,
    px: i64,
    py: i64,
)
    requires
        call_ensures(plan_chunks, (ifd, scaled, layout), plan),
        layout.tw > 0,
        layout.th > 0,
        ifd.width > 0,
        ifd.height > 0,
        scaled.extent.minx <= px <= scaled.extent.maxx,
        scaled.extent.miny <= py <= scaled.extent.maxy,
    ensures
        0 <= px < ifd.width ==> plan.start_col * layout.tw <= px < (plan.end_col + 1) * layout.tw,
        0 <= py < ifd.height ==> plan.start_row * layout.th <= py < (plan.end_row + 1) * layout.th,
        0 <= scaled.extent.minx < ifd.width ==> scaled.extent.minx < (plan.start_col + 1)
            * layout.tw,
        0 <= scaled.extent.miny < ifd.height ==> scaled.extent.miny < (plan.start_row + 1)
            * layout.th,
        0 <= scaled.extent.maxx < ifd.width ==> plan.end_col * layout.tw <= scaled.extent.maxx,
        0 <= scaled.extent.maxy < ifd.height ==> plan.end_row * layout.th <= scaled.extent.maxy,
        scaled.extent.minx <= 0 ==> plan.start_col == 0,
        scaled.extent.miny <= 0 ==> plan.start_row == 0,
        scaled.extent.maxx <= 0 ==> plan.end_col == 0,
        scaled.extent.maxy <= 0 ==> plan.end_row == 0,
        scaled.extent.maxx >= ifd.width ==> plan.end_col * layout.tw < ifd.width <= (plan.end_col
            + 1) * layout.tw,
        scaled.extent.maxy >= ifd.height ==> plan.end_row * layout.th < ifd.height <= (plan.end_row
            + 1) * layout.th,
        scaled.extent.minx >= ifd.width ==> plan.start_col == plan.end_col,
        scaled.extent.miny >= ifd.height ==> plan.start_row == plan.end_row,
{
    lemma_side_of_a_plan(scaled.extent.minx, scaled.extent.maxx, px, ifd.width, layout.tw);
    lemma_side_of_a_plan(scaled.extent.miny, scaled.extent.maxy, py, ifd.height, layout.th);
}

proof fn lemma_side_of_a_plan(min: i64, max: i64, pixel: i64, extent: u32, step: u32)
    requires
        extent > 0,
        step > 0,
        min <= pixel <= max,
    ensures
        ({
            let start = chunk_of_pixel(min, extent, step);
            let end = chunk_of_pixel(max, extent, step);
            &&& 0 <= pixel < extent ==> start * step <= pixel < (end + 1) * step
            &&& 0 <= min < extent ==> min < (start + 1) * step
            &&& 0 <= max < extent ==> end * step <= max
            &&& min <= 0 ==> start == 0
            &&& max <= 0 ==> end == 0
            &&& max >= extent ==> end * step < extent <= (end + 1) * step
            &&& min >= extent ==> start == end
        }),
{
    lemma_pixel_in_chunk(min, extent, step);
    lemma_pixel_in_chunk(max, extent, step);
    vstd::arithmetic::div_mod::lemma_div_basics_1(step as int);
}

/// What opening the next image gives at image `i` of a file: the image after it, and at the last
/// one that there is none, or that the next one cannot be measured.
pub open spec fn next_of<D>(
    images: Seq<(D, u32, u32)>,
    broken: Option<String>,
    i: u32,
) -> NextImage<D> {
    if i + 1 < images.len() {
        NextImage::Opened(images[i + 1].0, images[i + 1].1, images[i + 1].2)
    } else {
        match broken {
            Some(e) => NextImage::Unmeasured(e),
            None => NextImage::NoMore(images[i as int].0),
        }
    }
}

/// Whether `wide` and `next` answer as the images of a file do, where `too_wide` tells which widths
/// give too wide a crop.
pub open spec fn shows_images<D, W, N>(
    corners: [(Real, Real); 4],
    images: Seq<(D, u32, u32)>,
    broken: Option<String>,
    too_wide: spec_fn(u32) -> bool,
    wide: W,
    next: N,
) -> bool where W: Fn([(Real, Real); 4], u32, u32) -> bool, N: Fn(D, u32) -> NextImage<D> {
    &&& 0 < images.len() <= u32::MAX
    &&& forall|width: u32, answer: bool| #[trigger]
        call_ensures(wide, (corners, images[0].1, width), answer) ==> answer == too_wide(width)
    &&& forall|i: u32, answer: NextImage<D>|
        i < images.len() && #[trigger] call_ensures(next, (images[i as int].0, i), answer)
            ==> answer == next_of(images, broken, i)
}

proof fn lemma_levels_are_images<D, W, N>(
    corners: [(Real, Real); 4],
    images: Seq<(D, u32, u32)>,
    broken: Option<String>,
    too_wide: spec_fn(u32) -> bool,
    wide: W,
    next: N,
    levels: Seq<(D, u32, u32)>,
    n: nat,
) where W: Fn([(Real, Real); 4], u32, u32) -> bool, N: Fn(D, u32) -> NextImage<D>
    requires
        shows_images(corners, images, broken, too_wide, wide, next),
        are_opened(corners, images[0], wide, next, levels),
        n < levels.len(),
    ensures
        n < images.len(),
        forall|i: int| 0 <= i <= n ==> #[trigger] levels[i] == images[i],
        forall|i: int| 0 <= i < n ==> too_wide((#[trigger] images[i]).1),
    decreases n,
{
    if n > 0 {
        lemma_levels_are_images(
            corners,
            images,
            broken,
            too_wide,
            wide,
            next,
            levels,
            (n - 1) as nat,
        );
        assert(is_opened(corners, wide, next, levels, n as int));
        assert(levels[n - 1] == images[n - 1]);
        let i = (n - 1) as u32;
        assert(call_ensures(
            next,
            (images[i as int].0, i),
            NextImage::Opened(levels[n as int].0, levels[n as int].1, levels[n as int].2),
        ));
    }
}

/// The chosen image is the first whose crop is not too wide, or else the last, and the reader is
/// left at it.
pub proof fn law_first_narrow_image_can_be_chosen<D, W, N>(
    corners: [(Real, Real); 4],
    images: Seq<(D, u32, u32)>,
    broken: Option<String>,
    too_wide: spec_fn(u32) -> bool,
    wide: W,
    next: N,
    cursor: IfdCursor,
    reader: D,
) where W: Fn([(Real, Real); 4], u32, u32) -> bool, N: Fn(D, u32) -> NextImage<D>
    requires
        shows_images(corners, images, broken, too_wide, wide, next),
        can_be_chosen(corners, images[0], wide, next, cursor, reader),
    ensures
        cursor.ifd_index < images.len(),
        (reader, cursor.width, cursor.height) == images[cursor.ifd_index as int],
        forall|i: int| 0 <= i < cursor.ifd_index ==> too_wide((#[trigger] images[i]).1),
        !too_wide(cursor.width) || cursor.ifd_index == images.len() - 1 && broken is None,
{
    let levels = choose|levels: Seq<(D, u32, u32)>|
        {
            &&& #[trigger] are_opened(corners, images[0], wide, next, levels)
            &&& cursor.ifd_index == levels.len() - 1
            &&& cursor.width == levels.last().1
            &&& cursor.height == levels.last().2
            &&& {
                ||| {
                    &&& call_ensures(wide, (corners, images[0].1, cursor.width), false)
                    &&& reader == levels.last().0
                }
                ||| {
                    &&& call_ensures(wide, (corners, images[0].1, cursor.width), true)
                    &&& call_ensures(
                        next,
                        (levels.last().0, cursor.ifd_index),
                        NextImage::NoMore(reader),
                    )
                }
            }
        };
    lemma_levels_are_images(
        corners,
        images,
        broken,
        too_wide,
        wide,
        next,
        levels,
        (levels.len() - 1) as nat,
    );
    assert(levels.last() == images[levels.len() - 1]);
}

proof fn lemma_unmeasured_image<D, W, N>(
    corners: [(Real, Real); 4],
    images: Seq<(D, u32, u32)>,
    broken: Option<String>,
    too_wide: spec_fn(u32) -> bool,
    wide: W,
    next: N,
    e: String,
) where W: Fn([(Real, Real); 4], u32, u32) -> bool, N: Fn(D, u32) -> NextImage<D>
    requires
        shows_images(corners, images, broken, too_wide, wide, next),
        can_be_unmeasured(corners, images[0], wide, next, e),
    ensures
        broken == Some(e),
        forall|i: int| 0 <= i < images.len() ==> too_wide((#[trigger] images[i]).1),
{
    let levels = choose|levels: Seq<(D, u32, u32)>|
        {
            &&& #[trigger] are_opened(corners, images[0], wide, next, levels)
            &&& call_ensures(wide, (corners, images[0].1, levels.last().1), true)
            &&& call_ensures(
                next,
                (levels.last().0, (levels.len() - 1) as u32),
                NextImage::Unmeasured(e),
            )
        };
    let n = (levels.len() - 1) as nat;
    lemma_levels_are_images(corners, images, broken, too_wide, wide, next, levels, n);
    assert(levels.last() == images[n as int]);
    let last = n as u32;
    assert(call_ensures(next, (images[last as int].0, last), NextImage::Unmeasured(e)));
    assert(too_wide(images[n as int].1));
}

/// The image that a reader is taken to is the first whose crop is not too wide, or else the last;
/// only where all that can be opened are too wide, and the one after them cannot be measured, does
/// the search fail, with the complaint about that one.
pub proof fn law_reader_is_taken_to_the_first_narrow_image<D, W, N>(
    corners: [(Real, Real); 4],
    images: Seq<(D, u32, u32)>,
    broken: Option<String>,
    too_wide: spec_fn(u32) -> bool,
    wide: W,
    next: N,
    result: Result<(IfdCursor, D), String>,
) where W: Fn([(Real, Real); 4], u32, u32) -> bool, N: Fn(D, u32) -> NextImage<D>
    requires
        shows_images(corners, images, broken, too_wide, wide, next),
        call_ensures(
            choose_image::<D, W, N>,
            (images[0].0, images[0].1, images[0].2, corners, &wide, &next),
            result,
        ),
    ensures
        match result {
            Ok((cursor, reader)) => {
                &&& cursor.ifd_index < images.len()
                &&& (reader, cursor.width, cursor.height) == images[cursor.ifd_index as int]
                &&& forall|i: int| 0 <= i < cursor.ifd_index ==> too_wide((#[trigger] images[i]).1)
                &&& !too_wide(cursor.width) || cursor.ifd_index == images.len() - 1
                    && broken is None
            },
            Err(e) => {
                &&& broken == Some(e)
                &&& forall|i: int| 0 <= i < images.len() ==> too_wide((#[trigger] images[i]).1)
            },
        },
{
    match result {
        Ok((cursor, reader)) => law_first_narrow_image_can_be_chosen(
            corners,
            images,
            broken,
            too_wide,
            wide,
            next,
            cursor,
            reader,
        ),
        Err(e) => lemma_unmeasured_image(corners, images, broken, too_wide, wide, next, e),
    }
}

/// A plan is for the first image whose crop is not too wide, or else the last: its corners, scale
/// and extent are those that the full width and the width of that image give, its chunks those that
/// the reader at that image tells of, and that reader is handed back.
pub proof fn law_tile_is_planned_on_the_first_narrow_image<D, P, W, N, S, L>(
    tags: GeoTags,
    z: u32,
    x: u32,
    y: u32,
    project: P,
    wide: W,
    next: N,
    scale: S,
    layout: L,
    corners: [(Real, Real); 4],
    images: Seq<(D, u32, u32)>,
    broken: Option<String>,
    too_wide: spec_fn(u32) -> bool,
    scaled: spec_fn(u32) -> ScaledCorners,
    found: spec_fn(D) -> Result<(ChunkLayout, D), String>,
    result: Result<(TileExtractionPlan, D), String>,
) where
    P: FnOnce(PlanStart) -> Result<[(Real, Real); 4], String>,
    W: Fn([(Real, Real); 4], u32, u32) -> bool,
    N: Fn(D, u32) -> NextImage<D>,
    S: FnOnce([(Real, Real); 4], u32, u32) -> ScaledCorners,
    L: FnOnce(D) -> Result<(ChunkLayout, D), String>,

    requires
        can_start(tags),
        tags.dimensions == Ok::<(u32, u32), String>((images[0].1, images[0].2)),
        shows_images(corners, images, broken, too_wide, wide, next),
        forall|start: PlanStart, answer: Result<[(Real, Real); 4], String>| #[trigger]
            call_ensures(project, (start,), answer) ==> answer == Ok::<
                [(Real, Real); 4],
                String,
            >(corners),
        forall|width: u32, answer: ScaledCorners| #[trigger]
            call_ensures(scale, (corners, images[0].1, width), answer) ==> answer == scaled(width),
        forall|at: D, answer: Result<(ChunkLayout, D), String>| #[trigger]
            call_ensures(layout, (at,), answer) ==> answer == found(at),
        call_ensures(
            plan_tile_extraction::<D, P, W, N, S, L>,
            (images[0].0, tags, z, x, y, project, &wide, &next, scale, layout),
            result,
        ),
    ensures
        match result {
            Ok((plan, left)) => {
                let image = images[plan.ifd_index as int];
                let at = scaled(image.1);
                &&& plan.ifd_index < images.len()
                &&& forall|i: int| 0 <= i < plan.ifd_index ==> too_wide((#[trigger] images[i]).1)
                &&& !too_wide(image.1) || plan.ifd_index == images.len() - 1 && broken is None
                &&& plan.current_width == image.1
                &&& plan.current_height == image.2
                &&& plan.scale_factor == at.scale_factor
                &&& plan.ifd_corners@[0] == at.ifd_corners@[0]
                &&& plan.ifd_corners@[1] == at.ifd_corners@[1]
                &&& plan.ifd_corners@[2] == at.ifd_corners@[2]
                &&& plan.ifd_corners@[3] == at.ifd_corners@[3]
                &&& found(image.0) == Ok::<(ChunkLayout, D), String>(
                    (ChunkLayout { tw: plan.tw, th: plan.th, is_rgba: plan.is_rgba }, left),
                )
                &&& plan.tw > 0 && 0 <= at.extent.minx < image.1 ==> plan.start_col * plan.tw
                    <= at.extent.minx < (plan.start_col + 1) * plan.tw
                &&& plan.tw > 0 && 0 <= at.extent.maxx < image.1 ==> plan.end_col * plan.tw
                    <= at.extent.maxx < (plan.end_col + 1) * plan.tw
                &&& plan.th > 0 && 0 <= at.extent.miny < image.2 ==> plan.start_row * plan.th
                    <= at.extent.miny < (plan.start_row + 1) * plan.th
                &&& plan.th > 0 && 0 <= at.extent.maxy < image.2 ==> plan.end_row * plan.th
                    <= at.extent.maxy < (plan.end_row + 1) * plan.th
            },
            Err(e) => {
                ||| broken == Some(e) && forall|i: int|
                    0 <= i < images.len() ==> too_wide((#[trigger] images[i]).1)
                ||| exists|i: int|
                    {
                        &&& 0 <= i < images.len()
                        &&& found((#[trigger] images[i]).0) == Err::<(ChunkLayout, D), String>(e)
                        &&& forall|k: int| 0 <= k < i ==> too_wide((#[trigger] images[k]).1)
                        &&& !too_wide(images[i].1) || i == images.len() - 1 && broken is None
                    }
            },
        },
{
    let first = images[0];
    assert(can_be_planned(corners, first, wide, next, scale, layout, result));
    match result {
        Ok((plan, left)) => {
            let (ifd, chosen) = choose|ifd: IfdCursor, chosen: D|
                {
                    &&& #[trigger] can_be_chosen(corners, first, wide, next, ifd, chosen)
                    &&& is_planned_at(corners, first.1, scale, layout, ifd, chosen, plan, left)
                };
            law_first_narrow_image_can_be_chosen(
                corners,
                images,
                broken,
                too_wide,
                wide,
                next,
                ifd,
                chosen,
            );
            let (at, lay) = choose|at: ScaledCorners, lay: ChunkLayout|
                {
                    &&& #[trigger] call_ensures(scale, (corners, first.1, ifd.width), at)
                    &&& call_ensures(layout, (chosen,), Ok((lay, left)))
                    &&& #[trigger] is_plan_for(ifd, at, lay, plan)
                };
            assert(call_ensures(layout, (chosen,), Ok((lay, left))));
            let extent = at.extent;
            if plan.tw > 0 && ifd.width > 0 {
                lemma_pixel_in_chunk(extent.minx, ifd.width, plan.tw);
                lemma_pixel_in_chunk(extent.maxx, ifd.width, plan.tw);
            }
            if plan.th > 0 && ifd.height > 0 {
                lemma_pixel_in_chunk(extent.miny, ifd.height, plan.th);
                lemma_pixel_in_chunk(extent.maxy, ifd.height, plan.th);
            }
        },
        Err(e) => {
            if can_be_unmeasured(corners, first, wide, next, e) {
                lemma_unmeasured_image(corners, images, broken, too_wide, wide, next, e);
            } else {
                let (ifd, chosen) = choose|ifd: IfdCursor, chosen: D|
                    {
                        &&& #[trigger] can_be_chosen(corners, first, wide, next, ifd, chosen)
                        &&& call_ensures(layout, (chosen,), Err(e))
                    };
                law_first_narrow_image_can_be_chosen(
                    corners,
                    images,
                    broken,
                    too_wide,
                    wide,
                    next,
                    ifd,
                    chosen,
                );
                assert(call_ensures(layout, (chosen,), Err(e)));
                assert(images[ifd.ifd_index as int].0 == chosen);
            }
        },
    }
}

/// Where the corners of a tile cannot be projected, planning it fails with the reason.
pub proof fn law_unprojected_tiles_are_not_planned<D, P, W, N, S, L>(
    reader: D,
    tags: GeoTags,
    z: u32,
    x: u32,
    y: u32,
    project: P,
    wide: W,
    next: N,
    scale: S,
    layout: L,
    reason: String,
    result: Result<(TileExtractionPlan, D), String>,
) where
    P: FnOnce(PlanStart) -> Result<[(Real, Real); 4], String>,
    W: Fn([(Real, Real); 4], u32, u32) -> bool,
    N: Fn(D, u32) -> NextImage<D>,
    S: FnOnce([(Real, Real); 4], u32, u32) -> ScaledCorners,
    L: FnOnce(D) -> Result<(ChunkLayout, D), String>,

    requires
        can_start(tags),
        forall|start: PlanStart, answer: Result<[(Real, Real); 4], String>| #[trigger]
            call_ensures(project, (start,), answer) ==> answer == Err::<
                [(Real, Real); 4],
                String,
            >(reason),
        call_ensures(
            plan_tile_extraction::<D, P, W, N, S, L>,
            (reader, tags, z, x, y, project, &wide, &next, scale, layout),
            result,
        ),
    ensures
        result == Err::<(TileExtractionPlan, D), String>(reason),
{
}

/// What is projected are the north-west, north-east, south-west and south-east corner of the tile
/// with the given numbers, in this order, between the image's projection and Web Mercator.
pub proof fn law_corners_of_the_tile_are_projected<D, P, W, N, S, L>(
    reader: D,
    tags: GeoTags,
    z: u32,
    x: u32,
    y: u32,
    project: P,
    wide: W,
    next: N,
    scale: S,
    layout: L,
    result: Result<(TileExtractionPlan, D), String>,
) where
    P: FnOnce(PlanStart) -> Result<[(Real, Real); 4], String>,
    W: Fn([(Real, Real); 4], u32, u32) -> bool,
    N: Fn(D, u32) -> NextImage<D>,
    S: FnOnce([(Real, Real); 4], u32, u32) -> ScaledCorners,
    L: FnOnce(D) -> Result<(ChunkLayout, D), String>,

    requires
        can_start(tags),
        z < 32,
        x < u32::MAX,
        y < u32::MAX,
        call_ensures(
            plan_tile_extraction::<D, P, W, N, S, L>,
            (reader, tags, z, x, y, project, &wide, &next, scale, layout),
            result,
        ),
    ensures
        exists|start: PlanStart, answer: Result<[(Real, Real); 4], String>|
            {
                &&& #[trigger] call_ensures(project, (start,), answer)
                &&& start.corners@[0] == (x, y)
                &&& start.corners@[1] == ((x + 1) as u32, y)
                &&& start.corners@[2] == (x, (y + 1) as u32)
                &&& start.corners@[3] == ((x + 1) as u32, (y + 1) as u32)
                &&& start.bounds.tiles == pow2(z as nat)
                &&& start.bounds.minx == x
                &&& start.bounds.maxx == x + 1
                &&& start.bounds.maxy == y
                &&& start.bounds.miny == y + 1
                &&& start.source == projection_of(start.metadata.proj_source_str@)
                &&& start.target == projection_of(
                    "+proj=merc +a=6378137 +b=6378137 +lat_ts=0.0 +lon_0=0.0 +x_0=0.0 +y_0=0 +k=1.0 +units=m +nadgrids=@null +wktext +no_defs"@,
                )
                &&& tags.dimensions == Ok::<(u32, u32), String>(
                    (start.metadata.width, start.metadata.height),
                )
                &&& is_metadata_of(tags, start.metadata)
            },
{
    let (start, answer) = choose|start: PlanStart, answer: Result<[(Real, Real); 4], String>|
        {
            &&& #[trigger] is_start(tags, z, x, y, start)
            &&& #[trigger] call_ensures(project, (start,), answer)
        };
    law_metadata_is_that_of_the_tags(tags, start.metadata);
    vstd::arithmetic::power2::lemma2_to64();
    if z < 31 {
        vstd::arithmetic::power2::lemma_pow2_strictly_increases(z as nat, 31);
    }
}

/// The cache chunks, of a mebibyte each, that are listed for a plan ascend without repeats. Each
/// byte that the file holds for a planned chunk lies in one of them.
pub proof fn law_listed_chunks_hold_the_planned_bytes(
    plan: TileExtractionPlan,
    offsets: Vec<u64>,
    byte_counts: Vec<u64>,
    required: Vec<u64>,
    across: int,
    row: int,
    col: int,
    position: u64,
)
    requires
        plan.tw > 0,
        (across - 1) * plan.tw < plan.current_width <= across * plan.tw,
        plan.start_row <= row <= plan.end_row,
        plan.start_col <= col <= plan.end_col,
        0 <= row * across + col < offsets@.len(),
        row * across + col < byte_counts@.len(),
        offsets@[row * across + col] <= position,
        position < offsets@[row * across + col] + byte_counts@[row * across + col],
        call_ensures(get_required_cache_chunks, (&plan, &offsets, &byte_counts), required),
    ensures
        required@.contains((position as int / 1048576) as u64),
        forall|i: int, j: int| 0 <= i < j < required@.len() ==> required@[i] < required@[j],
{
    lemma_count_is_known(plan.current_width as int, plan.tw as int, across);
    law_required_chunks_hold_the_planned_bytes(
        plan,
        offsets@,
        byte_counts@,
        row,
        col,
        position,
    );
}

/// Every cache chunk that is listed for a plan holds a byte of a planned chunk.
pub proof fn law_listed_chunks_hold_nothing_else(
    plan: TileExtractionPlan,
    offsets: Vec<u64>,
    byte_counts: Vec<u64>,
    required: Vec<u64>,
    k: int,
)
    requires
        call_ensures(get_required_cache_chunks, (&plan, &offsets, &byte_counts), required),
        0 <= k < required@.len(),
    ensures
        exists|row: int, col: int, position: u64|
            {
                let i = plan.chunk_number(row, col);
                &&& #[trigger] plan.covers(row, col)
                &&& 0 <= i < offsets@.len()
                &&& i < byte_counts@.len()
                &&& offsets@[i] <= position
                &&& position < offsets@[i] + byte_counts@[i]
                &&& #[trigger] (position / 1048576) == required@[k]
            },
{
    let c = required@[k];
    assert(required@.contains(c));
    let (row, col) = choose|row: int, col: int|
        plan.covers(row, col) && #[trigger] chunk_reaches(
            plan,
            offsets@,
            byte_counts@,
            row,
            col,
            c,
        );
    let offset = offsets@[plan.chunk_number(row, col)] as int;
    let position = if c * 1048576 < offset {
        offset
    } else {
        c * 1048576
    };
    assert(position <= u64::MAX);
    assert(plan.covers(row, col) && (position as u64) / 1048576 == c);
}

/// A tile is planned only on an image whose size, tie point and GeoKeys can be read and whose code
/// is that of a UTM zone from 1 to 60; else the first of these that fails is told.
pub proof fn law_tiles_are_planned_on_images_in_a_zone<D, P, W, N, S, L>(
    reader: D,
    tags: GeoTags,
    z: u32,
    x: u32,
    y: u32,
    project: P,
    wide: W,
    next: N,
    scale: S,
    layout: L,
    i: int,
    result: Result<(TileExtractionPlan, D), String>,
) where
    P: FnOnce(PlanStart) -> Result<[(Real, Real); 4], String>,
    W: Fn([(Real, Real); 4], u32, u32) -> bool,
    N: Fn(D, u32) -> NextImage<D>,
    S: FnOnce([(Real, Real); 4], u32, u32) -> ScaledCorners,
    L: FnOnce(D) -> Result<(ChunkLayout, D), String>,

    requires
        call_ensures(
            plan_tile_extraction::<D, P, W, N, S, L>,
            (reader, tags, z, x, y, project, &wide, &next, scale, layout),
            result,
        ),
        tags.geo_keys matches Ok(keys) ==> {
            &&& 1 <= i
            &&& 4 * i + 3 < keys@.len()
            &&& keys@[4 * i] == 3072
            &&& forall|k: int| 4 <= k < 4 * i && k % 4 == 0 ==> #[trigger] keys@[k] != 3072
        },
    ensures
        tags.dimensions matches Err(e) ==> (result matches Err(text) && text@
            == "Dimensions error: "@ + e@),
        tags.dimensions is Ok ==> (tags.tiepoint matches Err(e) ==> (result matches Err(text)
            && text@ == "Missing ModelTiepointTag: "@ + e@)),
        tags.dimensions is Ok && tags.tiepoint is Ok ==> (tags.geo_keys matches Err(e) ==> (
        result matches Err(text) && text@ == "Missing GeoKeyDirectoryTag: "@ + e@)),
        tags.dimensions is Ok && tags.tiepoint is Ok ==> (tags.geo_keys matches Ok(keys) ==> {
            let code = keys@[4 * i + 3];
            &&& can_start(tags) <==> 32601 <= code <= 32660 || 32701 <= code <= 32760
            &&& 32661 <= code <= 32700 ==> (result matches Err(text) && text@
                == "Proj4rs error src: InvalidUtmZone"@)
            &&& code < 32601 || code > 32760 ==> (result matches Err(text) && text@
                == "Unsupported EPSG code: "@ + decimal(code as nat))
        }),
{
    if tags.geo_keys is Ok {
        let keys = tags.geo_keys->Ok_0@;
        let code = keys[4 * i + 3];
        law_code_is_that_of_the_first_projected_entry(keys, i);
        if is_utm_code(code) {
            law_sixty_zones_can_be_opened(code);
        }
        reveal_strlit("Proj4rs error src: ");
        reveal_strlit("InvalidUtmZone");
        reveal_strlit("Proj4rs error src: InvalidUtmZone");
        assert("Proj4rs error src: "@ + "InvalidUtmZone"@ =~= "Proj4rs error src: InvalidUtmZone"@);
    }
}

/// A step of the search changes the directory only where the next one was opened.
pub proof fn law_steps_of_the_search(cursor: &mut IfdCursor, event: IfdEvent, action: IfdAction)
    requires
        call_ensures(IfdCursor::step, (cursor, event), action),
        old(cursor).ifd_index < u32::MAX,
    ensures
        match event {
            IfdEvent::Measured(too_wide) => {
                &&& *final(cursor) == *old(cursor)
                &&& action == if too_wide {
                    IfdAction::OpenNext
                } else {
                    IfdAction::Take
                }
            },
            IfdEvent::Opened(width, height) => {
                &&& final(cursor).ifd_index == old(cursor).ifd_index + 1
                &&& final(cursor).width == width
                &&& final(cursor).height == height
                &&& action == IfdAction::Measure
            },
            IfdEvent::NoMore => *final(cursor) == *old(cursor) && action == IfdAction::Take,
        },
{
}

} // verus!
