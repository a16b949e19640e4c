use just_tile::raster::Raster;

#[test]
fn a_new_raster_is_blank() {
    let raster = Raster::new(3, 2);
    assert_eq!((raster.width(), raster.height()), (3, 2));
    for y in 0..2 {
        for x in 0..3 {
            assert_eq!(raster.get(x, y), (0, 0, 0, 0));
        }
    }
}

#[test]
fn a_pixel_that_was_put_is_the_only_one_that_changes() {
    let mut raster = Raster::new(3, 2);
    raster.put(2, 1, (1, 2, 3, 4));
    for y in 0..2 {
        for x in 0..3 {
            let expected = if (x, y) == (2, 1) { (1, 2, 3, 4) } else { (0, 0, 0, 0) };
            assert_eq!(raster.get(x, y), expected);
        }
    }
    raster.put(2, 1, (5, 6, 7, 8));
    assert_eq!(raster.get(2, 1), (5, 6, 7, 8));
}

#[test]
fn the_png_file_holds_the_pixels() {
    let mut raster = Raster::new(2, 2);
    raster.put(0, 0, (255, 0, 0, 255));
    raster.put(1, 0, (0, 255, 0, 128));
    raster.put(1, 1, (9, 8, 7, 6));
    let file = raster.into_png().unwrap();
    assert_eq!(&file[..8], &[0x89, b'P', b'N', b'G', 0x0D, 0x0A, 0x1A, 0x0A]);
    let decoded = image::load_from_memory(&file).unwrap().to_rgba8();
    assert_eq!(decoded.dimensions(), (2, 2));
    assert_eq!(
        decoded.into_raw(),
        vec![255, 0, 0, 255, 0, 255, 0, 128, 0, 0, 0, 0, 9, 8, 7, 6]
    );
}

#[test]
fn equal_pixels_give_equal_files() {
    let mut first = Raster::new(4, 4);
    let mut second = Raster::new(4, 4);
    first.put(1, 2, (10, 20, 30, 40));
    second.put(1, 2, (99, 99, 99, 99));
    second.put(1, 2, (10, 20, 30, 40));
    assert_eq!(first.into_png().unwrap(), second.into_png().unwrap());
}
