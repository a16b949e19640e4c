use just_tile::geotiff::{
    calculate_mercator_bounds, find_crs_code, get_cog_metadata, utm_definition_string, GeoTags,
    Real, ONE_BITS,
};

fn number(value: f64) -> Real {
    Real { bits: value.to_bits() }
}

fn tags(geo_keys: Vec<u16>) -> GeoTags {
    GeoTags {
        dimensions: Ok((10980, 10980)),
        tiepoint: Ok(vec![
            number(0.0),
            number(0.0),
            number(0.0),
            number(600000.0),
            number(5900040.0),
            number(0.0),
        ]),
        pixel_scale: Some(vec![number(10.0), number(10.0), number(0.0)]),
        geo_keys: Ok(geo_keys),
    }
}

fn directory(code: u16) -> Vec<u16> {
    vec![1, 1, 0, 2, 1024, 0, 1, 1, 3072, 0, 1, code]
}

#[test]
fn metadata_of_a_northern_zone() {
    let tags = tags(directory(32629));
    assert!(tags.is_complete());
    let metadata = get_cog_metadata(tags).unwrap();
    assert_eq!((metadata.width, metadata.height), (10980, 10980));
    assert_eq!(metadata.tie_x, number(600000.0));
    assert_eq!(metadata.tie_y, number(5900040.0));
    assert_eq!(metadata.scale_x, number(10.0));
    assert_eq!(metadata.scale_y, number(10.0));
    assert_eq!(
        metadata.proj_source_str,
        "+proj=utm +zone=29 +datum=WGS84 +units=m +no_defs"
    );
}

#[test]
fn metadata_of_a_southern_zone() {
    let metadata = get_cog_metadata(tags(directory(32756))).unwrap();
    assert_eq!(
        metadata.proj_source_str,
        "+proj=utm +zone=56 +south +datum=WGS84 +units=m +no_defs"
    );
}

#[test]
fn absent_pixel_scale_is_one() {
    let mut tags = tags(directory(32601));
    tags.pixel_scale = None;
    assert!(tags.is_complete());
    let metadata = get_cog_metadata(tags).unwrap();
    assert_eq!(metadata.scale_x, number(1.0));
    assert_eq!(metadata.scale_y, number(1.0));
    assert_eq!(ONE_BITS, 1.0f64.to_bits());
}

#[test]
fn other_coordinate_systems_are_rejected() {
    for (keys, code) in [
        (directory(3857), "3857"),
        (directory(32600), "32600"),
        (directory(32761), "32761"),
        (vec![], "0"),
        (vec![1, 1, 0, 1, 1024, 0, 1, 1], "0"),
    ] {
        assert_eq!(
            get_cog_metadata(tags(keys)).unwrap_err(),
            format!("Unsupported EPSG code: {}", code)
        );
    }
}

#[test]
fn unreadable_tags_are_reported_in_order() {
    let mut none = tags(directory(32629));
    none.geo_keys = Err("C".to_string());
    assert!(none.is_complete());
    assert_eq!(get_cog_metadata(none).unwrap_err(), "Missing GeoKeyDirectoryTag: C");

    let mut none = tags(directory(32629));
    none.tiepoint = Err("B".to_string());
    none.geo_keys = Err("C".to_string());
    assert_eq!(get_cog_metadata(none).unwrap_err(), "Missing ModelTiepointTag: B");

    let mut none = tags(directory(32629));
    none.dimensions = Err("A".to_string());
    none.tiepoint = Err("B".to_string());
    assert_eq!(get_cog_metadata(none).unwrap_err(), "Dimensions error: A");
}

#[test]
fn incomplete_tags_are_recognised() {
    assert!(!tags(vec![1, 1, 0, 1, 3072, 0]).is_complete());
    assert!(tags(vec![1, 1, 0, 1, 1024, 0]).is_complete());
    assert!(tags(vec![3072, 1]).is_complete());

    let mut short = tags(directory(32629));
    short.tiepoint = Ok(vec![number(0.0); 4]);
    assert!(!short.is_complete());

    let mut short = tags(directory(32629));
    short.pixel_scale = Some(vec![number(10.0)]);
    assert!(!short.is_complete());

    let mut short = tags(directory(3857));
    short.tiepoint = Ok(vec![]);
    assert!(short.is_complete());
}

#[test]
fn first_projected_key_counts_and_the_header_does_not() {
    assert_eq!(find_crs_code(&vec![3072, 1, 0, 5]), 0);
    assert_eq!(
        find_crs_code(&vec![1, 1, 0, 2, 3072, 0, 1, 32633, 3072, 0, 1, 32634]),
        32633
    );
    assert_eq!(find_crs_code(&vec![1, 1, 0, 1, 3073, 0, 1, 9]), 0);
}

#[test]
fn zone_definitions() {
    assert_eq!(
        utm_definition_string(1, false),
        "+proj=utm +zone=1 +datum=WGS84 +units=m +no_defs"
    );
    assert_eq!(
        utm_definition_string(60, true),
        "+proj=utm +zone=60 +south +datum=WGS84 +units=m +no_defs"
    );
}

#[test]
fn tile_bounds_in_grid_steps() {
    let bounds = calculate_mercator_bounds(11, 988, 660);
    assert_eq!(bounds.tiles, 2048);
    assert_eq!((bounds.minx, bounds.maxx), (988, 989));
    assert_eq!((bounds.maxy, bounds.miny), (660, 661));
    assert_eq!(bounds.corners(), [(988, 660), (989, 660), (988, 661), (989, 661)]);
    assert_eq!(calculate_mercator_bounds(0, 0, 0).tiles, 1);
    assert_eq!(calculate_mercator_bounds(31, 0, 0).tiles, 1 << 31);
}

#[test]
fn neighbours_and_children_share_edges() {
    let parent = calculate_mercator_bounds(10, 494, 332);
    let right = calculate_mercator_bounds(10, 495, 332);
    let below = calculate_mercator_bounds(10, 494, 333);
    assert_eq!(parent.maxx, right.minx);
    assert_eq!(parent.miny, below.maxy);
    let first = calculate_mercator_bounds(11, 988, 664);
    let last = calculate_mercator_bounds(11, 989, 665);
    assert_eq!(first.tiles, 2 * parent.tiles);
    assert_eq!((first.minx, first.maxy), (2 * parent.minx, 2 * parent.maxy));
    assert_eq!((last.maxx, last.miny), (2 * parent.maxx, 2 * parent.miny));
    assert_eq!((first.maxx, first.miny), (last.minx, last.maxy));
}
