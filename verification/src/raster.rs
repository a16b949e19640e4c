//! Grids of eight-bit RGBA pixels.

use vstd::prelude::*;

verus! {

/// A pixel's red, green, blue and alpha channel.
pub type Pixel = (u8, u8, u8, u8);

/// The pixel grid of the `image` crate.
#[verifier::external_body]
pub struct PixelGrid {
    image: image::RgbaImage,
}

/// The pixels of a grid, by column and row.
pub uninterp spec fn grid_pixels(grid: PixelGrid) -> Map<(u32, u32), (u8, u8, u8, u8)>;

/// The PNG file that `image` writes for a grid with these pixels, or the text of its error.
pub uninterp spec fn png_file(pixels: Map<(u32, u32), (u8, u8, u8, u8)>) -> Result<
    Seq<u8>,
    Seq<char>,
>;

/// The pixels of a blank grid.
pub open spec fn blank(width: u32, height: u32) -> Map<(u32, u32), Pixel> {
    Map::new(
        |at: (u32, u32)| at.0 < width && at.1 < height,
        |at: (u32, u32)| (0u8, 0u8, 0u8, 0u8),
    )
}

/// `image::ImageBuffer::new` gives a grid of the width and height asked for, in which every
/// channel of every pixel is zero. It panics where the grid, or a row of it, has more bytes than a
/// vector can hold.
#[verifier::external_body]
fn new_grid(width: u32, height: u32) -> (grid: PixelGrid)
    requires
        4 * width <= isize::MAX,
        4 * width * height <= isize::MAX,
    ensures
        grid_pixels(grid) == blank(width, height),
{
    PixelGrid { image: image::RgbaImage::new(width, height) }
}

/// `image::ImageBuffer::put_pixel` replaces one pixel. It panics outside the grid.
#[verifier::external_body]
fn put_pixel(grid: &mut PixelGrid, x: u32, y: u32, pixel: Pixel)
    requires
        grid_pixels(*old(grid)).contains_key((x, y)),
    ensures
        grid_pixels(*final(grid)) == grid_pixels(*old(grid)).insert((x, y), pixel),
{
    grid.image.put_pixel(x, y, image::Rgba([pixel.0, pixel.1, pixel.2, pixel.3]))
}

/// `image::ImageBuffer::get_pixel` hands out one pixel. It panics outside the grid.
#[verifier::external_body]
fn get_pixel(grid: &PixelGrid, x: u32, y: u32) -> (pixel: Pixel)
    requires
        grid_pixels(*grid).contains_key((x, y)),
    ensures
        pixel == grid_pixels(*grid)[(x, y)],
{
    let pixel = grid.image.get_pixel(x, y);
    (pixel[0], pixel[1], pixel[2], pixel[3])
}

/// `image::DynamicImage::write_to` writes a grid as a PNG file. What it writes depends on the
/// grid's pixels alone, if it has any.
#[verifier::external_body]
fn write_png(grid: PixelGrid) -> (result: Result<Vec<u8>, String>)
    requires
        grid_pixels(grid).contains_key((0, 0)),
    ensures
        match (result, png_file(grid_pixels(grid))) {
            (Ok(bytes), Ok(file)) => bytes@ == file,
            (Err(e), Err(text)) => e@ == text,
            _ => false,
        },
{
    let mut out = std::io::Cursor::new(Vec::new());
    match image::DynamicImage::ImageRgba8(grid.image).write_to(&mut out, image::ImageFormat::Png) {
        Ok(()) => Ok(out.into_inner()),
        Err(e) => Err(e.to_string()),
    }
}

/// A grid of pixels with its width and height.
pub struct Raster {
    width: u32,
    height: u32,
    grid: PixelGrid,
}

impl Raster {
    /// The number of columns.
    pub closed spec fn columns(self) -> u32 {
        self.width
    }

    /// The number of rows.
    pub closed spec fn rows(self) -> u32 {
        self.height
    }

    /// The pixels, by column and row.
    pub closed spec fn pixels(self) -> Map<(u32, u32), Pixel> {
        grid_pixels(self.grid)
    }

    /// The pixel in a column and row.
    pub open spec fn at(self, x: int, y: int) -> Pixel {
        self.pixels()[(x as u32, y as u32)]
    }

    /// The grid has a pixel in every column of every row, and no others.
    pub open spec fn wf(self) -> bool {
        self.pixels().dom() == blank(self.columns(), self.rows()).dom()
    }

    /// Whether a column and row lie in the grid.
    pub open spec fn has(self, x: int, y: int) -> bool {
        0 <= x < self.columns() && 0 <= y < self.rows()
    }

    /// A grid in which every channel of every pixel is zero.
    pub fn new(width: u32, height: u32) -> (raster: Raster)
        requires
            4 * width <= isize::MAX,
            4 * width * height <= isize::MAX,
        ensures
            raster.wf(),
            raster.columns() == width,
            raster.rows() == height,
            forall|x: int, y: int| #[trigger]
                raster.has(x, y) ==> raster.at(x, y) == (0u8, 0u8, 0u8, 0u8),
    {
        Raster { width, height, grid: new_grid(width, height) }
    }

    /// The number of columns.
    pub fn width(&self) -> (width: u32)
        ensures
            width == self.columns(),
    {
        self.width
    }

    /// The number of rows.
    pub fn height(&self) -> (height: u32)
        ensures
            height == self.rows(),
    {
        self.height
    }

    /// Hands out a pixel.
    pub fn get(&self, x: u32, y: u32) -> (pixel: Pixel)
        requires
            self.wf(),
            self.has(x as int, y as int),
        ensures
            pixel == self.at(x as int, y as int),
    {
        assert(blank(self.width, self.height).contains_key((x, y)));
        get_pixel(&self.grid, x, y)
    }

    /// Replaces a pixel.
    pub fn put(&mut self, x: u32, y: u32, pixel: Pixel)
        requires
            old(self).wf(),
            old(self).has(x as int, y as int),
        ensures
            final(self).wf(),
            final(self).columns() == old(self).columns(),
            final(self).rows() == old(self).rows(),
            forall|i: int, j: int|
                #![trigger final(self).at(i, j)]
                final(self).has(i, j) ==> final(self).at(i, j) == if i == x && j == y {
                    pixel
                } else {
                    old(self).at(i, j)
                },
    {
        assert(blank(self.width, self.height).contains_key((x, y)));
        put_pixel(&mut self.grid, x, y, pixel);
        assert(grid_pixels(self.grid).dom() =~= blank(self.width, self.height).dom());
    }

    /// Encodes the grid as a PNG file.
    pub fn into_png(self) -> (result: Result<Vec<u8>, String>)
        requires
            self.wf(),
            self.has(0, 0),
        ensures
            match (result, png_file(self.pixels())) {
                (Ok(bytes), Ok(file)) => bytes@ == file,
                (Err(e), Err(text)) => e@ == text,
                _ => false,
            },
    {
        assert(blank(self.width, self.height).contains_key((0, 0)));
        write_png(self.grid)
    }
}

/// A new grid has the width and height asked for, and only blank pixels.
pub proof fn law_new_grids_are_blank(
    width: u32,
    height: u32,
    raster: Raster,
    x: u32,
    y: u32,
    pixel: Pixel,
    columns: u32,
    rows: u32,
)
    requires
        call_ensures(Raster::new, (width, height), raster),
        call_ensures(Raster::get, (&raster, x, y), pixel),
        call_ensures(Raster::width, (&raster,), columns),
        call_ensures(Raster::height, (&raster,), rows),
        x < width,
        y < height,
    ensures
        columns == width,
        rows == height,
        pixel == (0u8, 0u8, 0u8, 0u8),
        raster.columns() == width,
        raster.rows() == height,
        raster.wf(),
        raster.has(x as int, y as int),
{
    assert(raster.has(x as int, y as int));
}

/// A pixel that was put is got in its place, and every other pixel stays.
pub proof fn law_pixels_are_got_where_they_were_put(
    raster: &mut Raster,
    x: u32,
    y: u32,
    pixel: Pixel,
    after: Raster,
    other_x: u32,
    other_y: u32,
    before_pixel: Pixel,
    after_pixel: Pixel,
)
    requires
        call_ensures(Raster::get, (old(raster), other_x, other_y), before_pixel),
        call_ensures(Raster::put, (raster, x, y, pixel), ()),
        call_ensures(Raster::get, (&after, other_x, other_y), after_pixel),
        after == *final(raster),
        other_x < old(raster).columns(),
        other_y < old(raster).rows(),
    ensures
        after_pixel == if other_x == x && other_y == y {
            pixel
        } else {
            before_pixel
        },
        after.columns() == old(raster).columns(),
        after.rows() == old(raster).rows(),
        after.wf(),
{
    assert(final(raster).has(other_x as int, other_y as int));
}

/// A column and row lie in the grid if they are less than its width and height. The pixel there is
/// the one that is got.
pub proof fn law_pixels_lie_in_columns_and_rows(raster: Raster, x: u32, y: u32, pixel: Pixel)
    requires
        call_ensures(Raster::get, (&raster, x, y), pixel),
        raster.wf(),
    ensures
        raster.has(x as int, y as int) <==> x < raster.columns() && y < raster.rows(),
        raster.pixels().contains_key((x, y)) <==> x < raster.columns() && y < raster.rows(),
        pixel == raster.pixels()[(x, y)],
        pixel == raster.at(x as int, y as int),
{
    assert(raster.pixels().dom().contains((x, y)) <==> blank(
        raster.columns(),
        raster.rows(),
    ).dom().contains((x, y)));
}

/// Grids with the same pixels are encoded alike, or fail alike; what is handed out is the PNG file
/// of the pixels.
pub proof fn law_grids_are_encoded_by_their_pixels(
    a: Raster,
    b: Raster,
    first: Result<Vec<u8>, String>,
    second: Result<Vec<u8>, String>,
)
    requires
        call_ensures(Raster::into_png, (a,), first),
        call_ensures(Raster::into_png, (b,), second),
        a.pixels() == b.pixels(),
    ensures
        first is Ok <==> second is Ok,
        first matches Ok(bytes) ==> png_file(a.pixels()) == Ok::<Seq<u8>, Seq<char>>(bytes@)
            && second->Ok_0@ == bytes@,
        first matches Err(e) ==> png_file(a.pixels()) == Err::<Seq<u8>, Seq<char>>(e@)
            && second->Err_0@ == e@,
{
}

} // verus!
