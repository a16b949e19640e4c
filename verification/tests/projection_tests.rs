use just_tile::geotiff::{utm_definition_string, CogMetadata, Real};
use just_tile::projection::open_projections;
use proj4rs::transform::transform;

fn metadata(definition: String) -> CogMetadata {
    let zero = Real { bits: 0 };
    CogMetadata {
        width: 1,
        height: 1,
        tie_x: zero,
        tie_y: zero,
        scale_x: zero,
        scale_y: zero,
        proj_source_str: definition,
    }
}

#[test]
fn sixty_zones_of_each_hemisphere_open() {
    for zone in 0..=101u16 {
        for south in [false, true] {
            let result = open_projections(&metadata(utm_definition_string(zone, south)));
            assert_eq!(result.is_ok(), (1..=60).contains(&zone), "{}", zone);
        }
    }
}

#[test]
fn other_zones_are_reported() {
    let result = open_projections(&metadata(utm_definition_string(61, false)));
    match result {
        Err(message) => assert_eq!(message, "Proj4rs error src: InvalidUtmZone"),
        Ok(_) => panic!("there is no zone 61"),
    }
}

#[test]
fn opened_projections_are_the_image_and_the_tile_projection() {
    let (source, target) =
        open_projections(&metadata(utm_definition_string(31, false))).ok().unwrap();
    assert_eq!(source.projname(), "utm");
    assert_eq!(target.projname(), "merc");
    let degree = 20037508.342789244 / 180.0;
    let mut points = [(3.0 * degree, 0.0f64, 0.0f64)];
    transform(&target, &source, &mut points[..]).unwrap();
    assert!((points[0].0 - 500000.0).abs() < 1.0, "{:?}", points);
    assert!(points[0].1.abs() < 1.0, "{:?}", points);
}

#[test]
fn southern_zones_have_a_false_northing() {
    let (source, target) =
        open_projections(&metadata(utm_definition_string(31, true))).ok().unwrap();
    let degree = 20037508.342789244 / 180.0;
    let mut points = [(3.0 * degree, 0.0f64, 0.0f64)];
    transform(&target, &source, &mut points[..]).unwrap();
    assert!((points[0].1 - 10_000_000.0).abs() < 1.0, "{:?}", points);
}
