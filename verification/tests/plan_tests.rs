use just_tile::geotiff::{GeoTags, Real};
use just_tile::http_reader::CHUNK_SIZE;
use just_tile::plan::{
    choose_image, chunk_holding, count_steps, get_required_cache_chunks, plan_chunks,
    plan_tile_extraction, ChunkLayout, IfdAction, IfdCursor, IfdEvent, NextImage, PixelExtent,
    PlanStart, ScaledCorners, TileExtractionPlan,
};
use std::cell::RefCell;

const ZERO: Real = Real { bits: 0 };

fn plan(width: u32, height: u32, tw: u32, th: u32, extent: PixelExtent) -> TileExtractionPlan {
    let scale = Real { bits: 7 };
    let corners = [(scale, ZERO), (ZERO, ZERO), (ZERO, ZERO), (ZERO, scale)];
    let ifd = IfdCursor { ifd_index: 3, width, height };
    let scaled = ScaledCorners { scale_factor: scale, ifd_corners: corners, extent };
    plan_chunks(ifd, scaled, ChunkLayout { tw, th, is_rgba: true })
}

fn extent(minx: i64, maxx: i64, miny: i64, maxy: i64) -> PixelExtent {
    PixelExtent { minx, maxx, miny, maxy }
}

#[test]
fn narrow_images_are_taken_at_once() {
    let mut cursor = IfdCursor::first(10980, 10970);
    assert_eq!(cursor, IfdCursor { ifd_index: 0, width: 10980, height: 10970 });
    assert_eq!(cursor.step(IfdEvent::Measured(false)), IfdAction::Take);
    assert_eq!(cursor.ifd_index, 0);
}

#[test]
fn first_narrow_directory_is_taken() {
    let levels = [(10980, 10980), (5490, 5490), (2745, 2745), (1373, 1373)];
    let mut cursor = IfdCursor::first(10980, 10980);
    let mut action = IfdAction::Measure;
    while action != IfdAction::Take {
        let event = match action {
            IfdAction::Measure => IfdEvent::Measured(cursor.width > 3000),
            _ => match levels.get(cursor.ifd_index as usize + 1) {
                Some((width, height)) => IfdEvent::Opened(*width, *height),
                None => IfdEvent::NoMore,
            },
        };
        action = cursor.step(event);
    }
    assert_eq!(cursor, IfdCursor { ifd_index: 2, width: 2745, height: 2745 });
}

#[test]
fn last_directory_is_taken_where_all_are_wide() {
    let mut cursor = IfdCursor::first(100, 90);
    assert_eq!(cursor.step(IfdEvent::Measured(true)), IfdAction::OpenNext);
    assert_eq!(cursor.step(IfdEvent::Opened(50, 45)), IfdAction::Measure);
    assert_eq!(cursor.step(IfdEvent::Measured(true)), IfdAction::OpenNext);
    assert_eq!(cursor.step(IfdEvent::NoMore), IfdAction::Take);
    assert_eq!(cursor, IfdCursor { ifd_index: 1, width: 50, height: 45 });
}

#[test]
fn chunks_hold_pixels() {
    assert_eq!(chunk_holding(-5, 1000, 256), 0);
    assert_eq!(chunk_holding(0, 1000, 256), 0);
    assert_eq!(chunk_holding(255, 1000, 256), 0);
    assert_eq!(chunk_holding(256, 1000, 256), 1);
    assert_eq!(chunk_holding(999, 1000, 256), 3);
    assert_eq!(chunk_holding(5000, 1000, 256), 3);
    assert_eq!(chunk_holding(5000, 0, 256), 0);
    assert_eq!(chunk_holding(0x1_0000_0100, 1000, 256), 3);
    assert_eq!(chunk_holding(i64::MAX, 1000, 256), 3);
    assert_eq!(chunk_holding(i64::MIN, 1000, 256), 0);
}

#[test]
fn steps_are_counted_upwards() {
    assert_eq!(count_steps(0, 256), 0);
    assert_eq!(count_steps(1, 256), 1);
    assert_eq!(count_steps(256, 256), 1);
    assert_eq!(count_steps(257, 256), 2);
    assert_eq!(count_steps(u32::MAX, 1), u32::MAX);
    assert_eq!(count_steps(u32::MAX, u32::MAX), 1);
}

#[test]
fn a_plan_holds_what_it_was_made_from() {
    let plan = plan(1000, 600, 256, 128, extent(300, 700, -20, 130));
    assert_eq!(plan.ifd_index, 3);
    assert_eq!(plan.scale_factor, Real { bits: 7 });
    assert_eq!(plan.ifd_corners[0].0, Real { bits: 7 });
    assert_eq!(plan.ifd_corners[3].1, Real { bits: 7 });
    assert_eq!((plan.start_col, plan.end_col), (1, 2));
    assert_eq!((plan.start_row, plan.end_row), (0, 1));
    assert_eq!((plan.tw, plan.th), (256, 128));
    assert_eq!((plan.current_width, plan.current_height), (1000, 600));
    assert!(plan.is_rgba);
    assert!(plan.is_well_formed());
    assert_eq!((plan.count_across(), plan.count_down()), (4, 5));
    assert_eq!(plan.number_of_chunk(1, 2), 6);
    assert_eq!(plan.origin(), (256, 0));
}

#[test]
fn extents_beyond_the_image_plan_its_edge() {
    let plan = plan(1000, 600, 256, 128, extent(4000, 5000, -900, -800));
    assert_eq!((plan.start_col, plan.end_col), (3, 3));
    assert_eq!((plan.start_row, plan.end_row), (0, 0));
    assert!(plan.is_well_formed());
}

#[test]
fn plans_that_cannot_be_carried_out_are_recognised() {
    let good = plan(1000, 600, 256, 128, extent(0, 999, 0, 599));
    assert!(good.is_well_formed());
    let broken = [
        TileExtractionPlan { tw: 0, ..good },
        TileExtractionPlan { th: 0, ..good },
        TileExtractionPlan { current_width: 0, ..good },
        TileExtractionPlan { current_height: 0, ..good },
        TileExtractionPlan { start_col: 4, ..good },
        TileExtractionPlan { start_row: 9, ..good },
        TileExtractionPlan { tw: u32::MAX, ..good },
        TileExtractionPlan { end_row: u32::MAX, ..good },
        TileExtractionPlan { start_col: u32::MAX, end_col: u32::MAX, tw: 2, ..good },
    ];
    for plan in broken {
        assert!(!plan.is_well_formed(), "{:?}", plan);
    }
}

#[test]
fn every_pixel_of_the_extent_lies_in_a_planned_chunk() {
    let plan = plan(1000, 600, 256, 128, extent(250, 520, 127, 400));
    for x in 250..=520u32 {
        assert!((plan.start_col..=plan.end_col).contains(&(x / 256)));
    }
    for y in 127..=400u32 {
        assert!((plan.start_row..=plan.end_row).contains(&(y / 128)));
    }
}

#[test]
fn required_cache_chunks_are_listed_once_and_in_order() {
    let plan = plan(512, 512, 256, 256, extent(0, 511, 0, 511));
    let offsets = vec![3 * CHUNK_SIZE - 1, 0, 10, 5 * CHUNK_SIZE];
    let byte_counts = vec![2, CHUNK_SIZE, 0, 2 * CHUNK_SIZE + 1];
    assert_eq!(
        get_required_cache_chunks(&plan, &offsets, &byte_counts),
        vec![0, 2, 3, 5, 6, 7]
    );
}

#[test]
fn only_planned_chunks_are_required() {
    let plan = plan(512, 512, 256, 256, extent(300, 400, 300, 400));
    let offsets = vec![0, CHUNK_SIZE, 2 * CHUNK_SIZE, 9 * CHUNK_SIZE + 5];
    let byte_counts = vec![100, 100, 100, 100];
    assert_eq!(get_required_cache_chunks(&plan, &offsets, &byte_counts), vec![9]);
    assert_eq!(get_required_cache_chunks(&plan, &vec![], &vec![]), Vec::<u64>::new());
}

#[test]
fn chunks_that_would_end_beyond_the_last_position_are_cut_off() {
    let plan = plan(256, 256, 256, 256, extent(0, 255, 0, 255));
    let required = get_required_cache_chunks(&plan, &vec![u64::MAX - 1], &vec![100]);
    assert_eq!(required, vec![(u64::MAX - 1) / CHUNK_SIZE]);
}

const CORNERS: [(Real, Real); 4] = [(ZERO, ZERO); 4];

fn tags(code: u16) -> GeoTags {
    GeoTags {
        dimensions: Ok((1000, 600)),
        tiepoint: Ok(vec![ZERO; 6]),
        pixel_scale: None,
        geo_keys: Ok(vec![1, 1, 0, 1, 3072, 0, 1, code]),
    }
}

fn scaled(_: [(Real, Real); 4], full: u32, width: u32) -> ScaledCorners {
    let factor = Real { bits: (full / width) as u64 };
    ScaledCorners {
        scale_factor: factor,
        ifd_corners: [(factor, factor); 4],
        extent: extent(0, 100, 0, 50),
    }
}

/// A reader stands for the directory that it is at.
fn layout(reader: u32) -> Result<(ChunkLayout, u32), String> {
    Ok((ChunkLayout { tw: 64 >> reader, th: 32 >> reader, is_rgba: reader == 1 }, reader))
}

#[test]
fn images_are_gone_through_until_one_is_narrow() {
    let wide = |_: [(Real, Real); 4], full: u32, width: u32| full == 1000 && width > 300;
    let next = |reader: u32, i: u32| {
        assert_eq!(reader, i);
        NextImage::Opened(reader + 1, 1000 >> (i + 1), 600 >> (i + 1))
    };
    let chosen = choose_image(0, 1000, 600, CORNERS, &wide, &next);
    assert_eq!(chosen, Ok((IfdCursor { ifd_index: 2, width: 250, height: 150 }, 2)));
    let last = choose_image(0, 1000, 600, CORNERS, &wide, &|_: u32, _: u32| NextImage::NoMore(9));
    assert_eq!(last, Ok((IfdCursor { ifd_index: 0, width: 1000, height: 600 }, 9)));
    let unmeasured = |_: u32, _: u32| NextImage::Unmeasured("x".to_string());
    let failed = choose_image(0, 1000, 600, CORNERS, &wide, &unmeasured);
    assert_eq!(failed, Err("x".to_string()));
}

#[test]
fn a_tile_is_planned_from_the_tags() {
    let seen = RefCell::new(None);
    let project = |start: PlanStart| {
        *seen.borrow_mut() = Some((
            start.bounds.tiles,
            start.corners,
            start.metadata.proj_source_str,
            start.source.projname(),
            start.target.projname(),
        ));
        Ok(CORNERS)
    };
    let wide = |_: [(Real, Real); 4], _: u32, width: u32| width > 500;
    let next = |reader: u32, _: u32| NextImage::Opened(reader + 1, 500, 300);
    let (plan, reader) =
        plan_tile_extraction(0, tags(32629), 3, 4, 5, project, &wide, &next, scaled, layout)
            .unwrap();
    assert_eq!(
        *seen.borrow(),
        Some((
            8,
            [(4, 5), (5, 5), (4, 6), (5, 6)],
            "+proj=utm +zone=29 +datum=WGS84 +units=m +no_defs".to_string(),
            "utm",
            "merc"
        ))
    );
    assert_eq!(reader, 1);
    assert_eq!(plan.ifd_index, 1);
    assert_eq!((plan.current_width, plan.current_height), (500, 300));
    assert_eq!((plan.start_col, plan.end_col, plan.start_row, plan.end_row), (0, 3, 0, 3));
    assert_eq!((plan.tw, plan.th, plan.is_rgba), (32, 16, true));
    assert_eq!(plan.scale_factor, Real { bits: 2 });
    assert_eq!(plan.ifd_corners[1].0, Real { bits: 2 });
}

#[test]
fn metadata_errors_are_planning_errors() {
    let planned = |tags: GeoTags| {
        plan_tile_extraction(
            0,
            tags,
            40,
            0,
            0,
            |_: PlanStart| panic!("nothing to project"),
            &|_: [(Real, Real); 4], _: u32, _: u32| panic!("nothing to measure"),
            &|_: u32, _: u32| panic!("the reader is not moved"),
            scaled,
            layout,
        )
        .unwrap_err()
    };
    assert_eq!(planned(tags(3857)), "Unsupported EPSG code: 3857");
    let mut unmeasured = tags(32629);
    unmeasured.dimensions = Err("no size".to_string());
    assert_eq!(planned(unmeasured), "Dimensions error: no size");
}

#[test]
fn each_step_of_planning_can_fail() {
    let plan = |code: u16,
                project: Result<[(Real, Real); 4], String>,
                next: Option<&str>,
                unreadable: Option<&str>| {
        plan_tile_extraction(
            0,
            tags(code),
            3,
            4,
            5,
            |_: PlanStart| project,
            &|_: [(Real, Real); 4], _: u32, _: u32| true,
            &|reader: u32, _: u32| match next {
                Some(e) => NextImage::Unmeasured(e.to_string()),
                None => NextImage::NoMore(reader),
            },
            scaled,
            |reader: u32| match unreadable {
                Some(e) => Err(e.to_string()),
                None => layout(reader),
            },
        )
        .map(|(plan, _)| plan.ifd_index)
    };
    let err = |text: &str| Err::<u32, String>(text.to_string());
    assert_eq!(plan(32661, Ok(CORNERS), None, None), err("Proj4rs error src: InvalidUtmZone"));
    assert_eq!(
        plan(32629, Err("Transform error: x".to_string()), None, None),
        err("Transform error: x")
    );
    assert_eq!(plan(32629, Ok(CORNERS), Some("y"), None), err("y"));
    assert_eq!(plan(32629, Ok(CORNERS), None, Some("z")), err("z"));
    assert_eq!(plan(32629, Ok(CORNERS), None, None), Ok(0));
}

#[test]
fn extents_far_beyond_the_image_plan_its_edge() {
    let far = 0x1_0000_0000;
    let plan = plan(1000, 600, 256, 128, extent(900, far + 5, far + 1, i64::MAX));
    assert_eq!((plan.start_col, plan.end_col), (3, 3));
    assert_eq!((plan.start_row, plan.end_row), (4, 4));
    assert!(plan.is_well_formed());
}
