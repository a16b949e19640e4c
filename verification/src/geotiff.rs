//! What a GeoTIFF's tags say, and which part of the image a map tile needs.

pub use crate::extract::{extract_tile_from_cog, resample_to_tile};
pub use crate::plan::{get_required_cache_chunks, plan_tile_extraction, TileExtractionPlan};
use crate::text::{decimal, decimal_string, joined};
use vstd::arithmetic::power2::pow2;
use vstd::prelude::*;

verus! {

/// The GeoKey that holds the EPSG code of a projected coordinate system.
pub const PROJECTED_CRS_KEY: u16 = 3072;

/// A double-precision number that is carried along unread, as its IEEE 754 bit pattern.
#[derive(Debug, Clone, Copy, PartialEq, Eq, Structural)]
pub struct Real {
    pub bits: u64,
}

/// The bit pattern of 1.0.
pub const ONE_BITS: u64 = 0x3FF0_0000_0000_0000;

/// Metadata extracted from a GeoTIFF header.
#[derive(Debug, Clone)]
pub struct CogMetadata {
    pub width: u32,
    pub height: u32,
    pub tie_x: Real,
    pub tie_y: Real,
    pub scale_x: Real,
    pub scale_y: Real,
    pub proj_source_str: String,
}

/// What reading the tags of the current image directory gave.
///
/// Each error is the text that describes it; the pixel scale is absent if it could not be read.
pub struct GeoTags {
    pub dimensions: Result<(u32, u32), String>,
    pub tiepoint: Result<Vec<Real>, String>,
    pub pixel_scale: Option<Vec<Real>>,
    pub geo_keys: Result<Vec<u16>, String>,
}

/// Whether entry `i` of a GeoKey directory, which starts after the header, is the projected CRS.
pub open spec fn is_crs_entry(keys: Seq<u16>, i: int) -> bool {
    1 <= i && 4 * i < keys.len() && keys[4 * i] == PROJECTED_CRS_KEY
}

/// Whether entry `i` is the first one that holds the projected CRS.
pub open spec fn is_first_crs_entry(keys: Seq<u16>, i: int) -> bool {
    is_crs_entry(keys, i) && forall|j: int| j < i ==> !#[trigger] is_crs_entry(keys, j)
}

/// Whether the first entry for the projected CRS, if there is one, has all of its four numbers.
pub open spec fn crs_entry_complete(keys: Seq<u16>) -> bool {
    forall|i: int| #[trigger] is_first_crs_entry(keys, i) ==> 4 * i + 3 < keys.len()
}

/// The EPSG code that a GeoKey directory gives: 0 where it gives none.
pub open spec fn crs_code(keys: Seq<u16>) -> u16 {
    if exists|i: int| is_first_crs_entry(keys, i) {
        keys[4 * (choose|i: int| is_first_crs_entry(keys, i)) + 3]
    } else {
        0
    }
}

/// The WGS 84 / UTM codes.
pub open spec fn is_utm_code(code: u16) -> bool {
    32601 <= code <= 32760
}

/// Whether a UTM code stands for a zone of the southern hemisphere.
pub open spec fn is_southern(code: u16) -> bool {
    code >= 32700
}

/// The zone number in a UTM code.
pub open spec fn utm_zone(code: u16) -> nat {
    if is_southern(code) {
        (code - 32700) as nat
    } else {
        (code - 32600) as nat
    }
}

/// The projection string of a UTM zone.
pub open spec fn utm_definition(zone: nat, south: bool) -> Seq<char> {
    "+proj=utm +zone="@ + decimal(zone) + " "@ + (if south {
        "+south "@
    } else {
        Seq::empty()
    }) + "+datum=WGS84 +units=m +no_defs"@
}

/// Whether a definition is that of a UTM zone, whatever its number.
pub open spec fn is_utm_definition(definition: Seq<char>) -> bool {
    exists|zone: u16, south: bool| definition == #[trigger] utm_definition(zone as nat, south)
}

/// The reason for which the tags give no metadata, if there is one.
pub open spec fn metadata_error(tags: GeoTags) -> Option<Seq<char>> {
    match (tags.dimensions, tags.tiepoint, tags.geo_keys) {
        (Err(e), _, _) => Some("Dimensions error: "@ + e@),
        (_, Err(e), _) => Some("Missing ModelTiepointTag: "@ + e@),
        (_, _, Err(e)) => Some("Missing GeoKeyDirectoryTag: "@ + e@),
        (Ok(_), Ok(_), Ok(keys)) => if is_utm_code(crs_code(keys@)) {
            None
        } else {
            Some("Unsupported EPSG code: "@ + decimal(crs_code(keys@) as nat))
        },
    }
}

/// The pixel scale: 1.0 in each direction where the tag is absent.
pub open spec fn scale_or_unit(scale: Option<Vec<Real>>) -> Seq<Real> {
    match scale {
        Some(values) => values@,
        None => seq![Real { bits: ONE_BITS }, Real { bits: ONE_BITS }, Real { bits: ONE_BITS }],
    }
}

impl CogMetadata {
    /// Whether the projection is that of a numbered UTM zone.
    pub open spec fn names_utm_zone(self) -> bool {
        is_utm_definition(self.proj_source_str@)
    }
}

impl GeoTags {
    /// Whether every number that the metadata is made of is there.
    pub open spec fn complete(self) -> bool {
        &&& self.dimensions is Ok && self.tiepoint is Ok && self.geo_keys is Ok
            ==> crs_entry_complete(self.geo_keys->Ok_0@)
        &&& metadata_error(self) is None ==> {
            &&& self.tiepoint->Ok_0@.len() >= 5
            &&& scale_or_unit(self.pixel_scale).len() >= 2
        }
    }

    /// Tells whether every number that the metadata is made of is there.
    pub fn is_complete(&self) -> (complete: bool)
        ensures
            complete == self.complete(),
    {
        let (tiepoint, geo_keys) = match (&self.dimensions, &self.tiepoint, &self.geo_keys) {
            (Ok(_), Ok(tiepoint), Ok(geo_keys)) => (tiepoint, geo_keys),
            _ => return true,
        };
        if let Some(i) = find_crs_entry(geo_keys) {
            assert(is_first_crs_entry(geo_keys@, i as int));
            if geo_keys.len() - 4 * i < 4 {
                return false;
            }
        }
        let code: u16 = find_crs_code(geo_keys);
        let scale_given = match &self.pixel_scale {
            Some(scale) => scale.len() >= 2,
            None => true,
        };
        code < 32601 || code > 32760 || tiepoint.len() >= 5 && scale_given
    }
}

/// Finds the first entry of a GeoKey directory that holds the projected coordinate system.
fn find_crs_entry(keys: &Vec<u16>) -> (entry: Option<usize>)
    ensures
        match entry {
            Some(i) => forall|k: int| #[trigger] is_first_crs_entry(keys@, k) <==> k == i,
            None => forall|k: int| !#[trigger] is_first_crs_entry(keys@, k),
        },
        keys@.len() <= usize::MAX,
{
    let len: usize = keys.len();
    let entries: usize = if len % 4 == 0 { len / 4 } else { len / 4 + 1 };
    let mut i: usize = 1;
    while i < entries
        invariant
            1 <= i,
            len == keys@.len(),
            4 * entries < len + 4,
            len <= 4 * entries,
            forall|j: int| j < i ==> !#[trigger] is_crs_entry(keys@, j),
        decreases entries - i,
    {
        if keys[4 * i] == PROJECTED_CRS_KEY {
            assert(is_crs_entry(keys@, i as int));
            return Some(i);
        }
        i = i + 1;
    }
    assert forall|k: int| !#[trigger] is_first_crs_entry(keys@, k) by {
        assert(!is_crs_entry(keys@, k));
    }
    None
}

/// Finds the EPSG code of the projected coordinate system in a GeoKey directory.
pub fn find_crs_code(keys: &Vec<u16>) -> (code: u16)
    requires
        crs_entry_complete(keys@),
    ensures
        code == crs_code(keys@),
{
    match find_crs_entry(keys) {
        Some(i) => {
            assert(is_first_crs_entry(keys@, i as int));
            keys[4 * i + 3]
        },
        None => 0,
    }
}

/// Writes the projection string of a UTM zone.
pub fn utm_definition_string(zone: u16, south: bool) -> (s: String)
    ensures
        s@ == utm_definition(zone as nat, south),
{
    let number = decimal_string(zone as u64);
    let mut s = joined("+proj=utm +zone=", number.as_str());
    s.append(" ");
    if south {
        s.append("+south ");
    }
    s.append("+datum=WGS84 +units=m +no_defs");
    assert(s@ =~= utm_definition(zone as nat, south));
    s
}

/// Whether this is the metadata that the tags give.
pub open spec fn is_metadata_of(tags: GeoTags, metadata: CogMetadata) -> bool {
    &&& metadata_error(tags) is None
    &&& metadata.width == tags.dimensions->Ok_0.0
    &&& metadata.height == tags.dimensions->Ok_0.1
    &&& metadata.tie_x == tags.tiepoint->Ok_0@[3]
    &&& metadata.tie_y == tags.tiepoint->Ok_0@[4]
    &&& metadata.scale_x == scale_or_unit(tags.pixel_scale)[0]
    &&& metadata.scale_y == scale_or_unit(tags.pixel_scale)[1]
    &&& metadata.proj_source_str@ == projection_of_tags(tags)
    &&& metadata.names_utm_zone()
}

/// The projection string that the tags give.
pub open spec fn projection_of_tags(tags: GeoTags) -> Seq<char> {
    let code = crs_code(tags.geo_keys->Ok_0@);
    utm_definition(utm_zone(code), is_southern(code))
}

/// Extracts metadata from what the tags of a GeoTIFF's image directory hold.
pub fn get_cog_metadata(tags: GeoTags) -> (result: Result<CogMetadata, String>)
    requires
        tags.complete(),
    ensures
        match result {
            Err(e) => metadata_error(tags) == Some(e@),
            Ok(metadata) => is_metadata_of(tags, metadata),
        },
{
    let (width, height) = match &tags.dimensions {
        Ok(dimensions) => *dimensions,
        Err(e) => return Err(joined("Dimensions error: ", e.as_str())),
    };
    let tiepoint = match &tags.tiepoint {
        Ok(tiepoint) => tiepoint,
        Err(e) => return Err(joined("Missing ModelTiepointTag: ", e.as_str())),
    };
    let geo_keys = match &tags.geo_keys {
        Ok(geo_keys) => geo_keys,
        Err(e) => return Err(joined("Missing GeoKeyDirectoryTag: ", e.as_str())),
    };
    let code: u16 = find_crs_code(geo_keys);
    if code < 32601 || code > 32760 {
        let number = decimal_string(code as u64);
        return Err(joined("Unsupported EPSG code: ", number.as_str()));
    }
    let south = code >= 32700;
    let zone: u16 = if south { code - 32700 } else { code - 32600 };
    let one = Real { bits: ONE_BITS };
    let (scale_x, scale_y) = match &tags.pixel_scale {
        Some(scale) => (scale[0], scale[1]),
        None => (one, one),
    };
    Ok(
        CogMetadata {
            width,
            height,
            tie_x: tiepoint[3],
            tie_y: tiepoint[4],
            scale_x,
            scale_y,
            proj_source_str: utm_definition_string(zone, south),
        },
    )
}

/// A map tile's edges on the Web Mercator plane, in steps of one tile from its north-west corner.
///
/// The plane is `tiles` steps wide and high.
#[derive(Debug, Clone, Copy, PartialEq, Eq, Structural)]
pub struct Bounds {
    pub tiles: u32,
    pub minx: u32,
    pub miny: u32,
    pub maxx: u32,
    pub maxy: u32,
}

/// The edges of the tile in column `x` and row `y` at zoom level `z`.
pub open spec fn tile_bounds(z: u32, x: u32, y: u32) -> Bounds {
    Bounds {
        tiles: pow2(z as nat) as u32,
        minx: x,
        miny: (y + 1) as u32,
        maxx: (x + 1) as u32,
        maxy: y,
    }
}

/// The north-west, north-east, south-west and south-east corner of a tile.
pub open spec fn corners_of(bounds: Bounds) -> Seq<(u32, u32)> {
    seq![
        (bounds.minx, bounds.maxy),
        (bounds.maxx, bounds.maxy),
        (bounds.minx, bounds.miny),
        (bounds.maxx, bounds.miny),
    ]
}

impl Bounds {
    /// Lists the corners of a tile: north-west, north-east, south-west and south-east.
    pub fn corners(&self) -> (corners: [(u32, u32); 4])
        ensures
            corners@ == corners_of(*self),
    {
        let corners = [
            (self.minx, self.maxy),
            (self.maxx, self.maxy),
            (self.minx, self.miny),
            (self.maxx, self.miny),
        ];
        assert(corners@ =~= corners_of(*self));
        corners
    }
}

/// Calculates the Web Mercator extents for a given ZXY tile.
pub fn calculate_mercator_bounds(z: u32, x: u32, y: u32) -> (bounds: Bounds)
    requires
        z < 32,
        x < u32::MAX,
        y < u32::MAX,
    ensures
        bounds == tile_bounds(z, x, y),
        bounds.tiles == pow2(z as nat),
{
    proof {
        vstd::arithmetic::power2::lemma2_to64();
        if z < 31 {
            vstd::arithmetic::power2::lemma_pow2_strictly_increases(z as nat, 31);
        }
        assert(1 * pow2(z as nat) <= u32::MAX);
        vstd::bits::lemma_u32_shl_is_mul(1u32, z);
    }
    Bounds { tiles: 1u32 << z, minx: x, miny: y + 1, maxx: x + 1, maxy: y }
}

/// Neighbouring tiles of one zoom level share an edge.
pub proof fn law_neighbours_share_an_edge(z: u32, x: u32, y: u32)
    requires
        z < 32,
        x + 1 < u32::MAX,
        y + 1 < u32::MAX,
    ensures
        tile_bounds(z, x, y).maxx == tile_bounds(z, (x + 1) as u32, y).minx,
        tile_bounds(z, x, y).miny == tile_bounds(z, x, (y + 1) as u32).maxy,
{
}

/// The four tiles of the next zoom level that lie in a tile cover it exactly: they meet in its
/// middle, their outer edges are its edges, and each step of it is two of theirs.
pub proof fn law_children_cover_their_parent(z: u32, x: u32, y: u32)
    requires
        z + 1 < 32,
        2 * x + 2 < u32::MAX,
        2 * y + 2 < u32::MAX,
    ensures
        ({
            let parent = tile_bounds(z, x, y);
            let first = tile_bounds((z + 1) as u32, (2 * x) as u32, (2 * y) as u32);
            let last = tile_bounds((z + 1) as u32, (2 * x + 1) as u32, (2 * y + 1) as u32);
            &&& first.tiles == 2 * parent.tiles
            &&& last.tiles == 2 * parent.tiles
            &&& first.minx == 2 * parent.minx
            &&& first.maxy == 2 * parent.maxy
            &&& first.maxx == last.minx
            &&& first.miny == last.maxy
            &&& last.maxx == 2 * parent.maxx
            &&& last.miny == 2 * parent.miny
        }),
{
    vstd::arithmetic::power2::lemma2_to64();
    vstd::arithmetic::power2::lemma_pow2_unfold((z + 1) as nat);
    if z + 1 < 31 {
        vstd::arithmetic::power2::lemma_pow2_strictly_increases((z + 1) as nat, 31);
    }
}

/// The EPSG code of an image is the last of the four numbers of the first GeoKey entry, the header
/// left out, that starts with 3072.
pub proof fn law_code_is_that_of_the_first_projected_entry(keys: Seq<u16>, i: int)
    requires
        1 <= i,
        4 * i + 3 < keys.len(),
        keys[4 * i] == 3072,
        forall|k: int| 4 <= k < 4 * i && k % 4 == 0 ==> #[trigger] keys[k] != 3072,
    ensures
        crs_code(keys) == keys[4 * i + 3],
{
    lemma_first_crs_entry(keys, i);
    assert(is_first_crs_entry(keys, i));
}

proof fn lemma_first_crs_entry(keys: Seq<u16>, i: int)
    requires
        1 <= i,
        4 * i < keys.len(),
        keys[4 * i] == 3072,
        forall|k: int| 4 <= k < 4 * i && k % 4 == 0 ==> #[trigger] keys[k] != 3072,
    ensures
        forall|k: int| #[trigger] is_first_crs_entry(keys, k) <==> k == i,
{
    assert forall|j: int| j < i implies !#[trigger] is_crs_entry(keys, j) by {
        if 1 <= j {
            assert(keys[4 * j] != 3072);
        }
    }
    assert(is_first_crs_entry(keys, i));
    assert forall|k: int| #[trigger] is_first_crs_entry(keys, k) implies k == i by {
        assert(!(k < i) || !is_crs_entry(keys, k));
        assert(!(i < k) || !is_crs_entry(keys, i));
    }
}

/// An image without such an entry has the code 0.
pub proof fn law_images_without_a_projected_entry_have_no_code(keys: Seq<u16>)
    requires
        forall|k: int| 4 <= k < keys.len() && k % 4 == 0 ==> #[trigger] keys[k] != 3072,
    ensures
        crs_code(keys) == 0,
{
    lemma_no_crs_entry(keys);
}

proof fn lemma_no_crs_entry(keys: Seq<u16>)
    requires
        forall|k: int| 4 <= k < keys.len() && k % 4 == 0 ==> #[trigger] keys[k] != 3072,
    ensures
        forall|k: int| !#[trigger] is_first_crs_entry(keys, k),
{
    assert forall|k: int| !#[trigger] is_first_crs_entry(keys, k) by {
        if 1 <= k && 4 * k < keys.len() {
            assert(keys[4 * k] != 3072);
        }
    }
}

/// An image whose code is 32600 and a number is projected in the northern UTM zone of that number,
/// and one whose code is 32700 and a number in the southern zone of that number.
pub proof fn law_projection_is_that_of_the_code(tags: GeoTags, metadata: CogMetadata, i: int)
    requires
        is_metadata_of(tags, metadata),
        1 <= i,
        4 * i + 3 < tags.geo_keys->Ok_0@.len(),
        tags.geo_keys->Ok_0@[4 * i] == 3072,
        forall|k: int|
            4 <= k < 4 * i && k % 4 == 0 ==> #[trigger] tags.geo_keys->Ok_0@[k] != 3072,
    ensures
        ({
            let code = tags.geo_keys->Ok_0@[4 * i + 3];
            &&& 32601 <= code <= 32760
            &&& code < 32700 ==> metadata.proj_source_str@ == "+proj=utm +zone="@ + decimal(
                (code - 32600) as nat,
            ) + " +datum=WGS84 +units=m +no_defs"@
            &&& code >= 32700 ==> metadata.proj_source_str@ == "+proj=utm +zone="@ + decimal(
                (code - 32700) as nat,
            ) + " +south +datum=WGS84 +units=m +no_defs"@
        }),
{
    reveal_strlit(" ");
    reveal_strlit("+south ");
    reveal_strlit("+datum=WGS84 +units=m +no_defs");
    reveal_strlit(" +datum=WGS84 +units=m +no_defs");
    reveal_strlit(" +south +datum=WGS84 +units=m +no_defs");
    law_code_is_that_of_the_first_projected_entry(tags.geo_keys->Ok_0@, i);
    let code = tags.geo_keys->Ok_0@[4 * i + 3];
    let rest = "+datum=WGS84 +units=m +no_defs"@;
    assert(" "@ + rest =~= " +datum=WGS84 +units=m +no_defs"@);
    assert(" "@ + "+south "@ + rest =~= " +south +datum=WGS84 +units=m +no_defs"@);
    if code < 32700 {
        assert(metadata.proj_source_str@ =~= "+proj=utm +zone="@ + decimal((code - 32600) as nat)
            + " +datum=WGS84 +units=m +no_defs"@);
    } else {
        assert(metadata.proj_source_str@ =~= "+proj=utm +zone="@ + decimal((code - 32700) as nat)
            + " +south +datum=WGS84 +units=m +no_defs"@);
    }
}

/// The size of an image, the point that its first pixel is tied to and the size of its pixels are
/// those of its tags: the fourth and fifth number of the tie point, and the first two of the pixel
/// scale, which count as one (sign 0, exponent 1023, fraction 0) where there is none.
pub proof fn law_metadata_is_that_of_the_tags(tags: GeoTags, metadata: CogMetadata)
    requires
        is_metadata_of(tags, metadata),
    ensures
        tags.dimensions == Ok::<(u32, u32), String>((metadata.width, metadata.height)),
        tags.tiepoint matches Ok(values) && metadata.tie_x == values@[3] && metadata.tie_y
            == values@[4],
        match tags.pixel_scale {
            Some(values) => metadata.scale_x == values@[0] && metadata.scale_y == values@[1],
            None => metadata.scale_x.bits == 1023 * 0x10_0000_0000_0000 && metadata.scale_y.bits
                == 1023 * 0x10_0000_0000_0000,
        },
{
}

/// The tags give no metadata if the size, the tie point or the GeoKeys cannot be read, which is
/// told of the first of them, or if the code is that of no UTM zone; else they give it.
pub proof fn law_metadata_fails_for_its_reasons(tags: GeoTags)
    ensures
        tags.dimensions matches Err(e) ==> metadata_error(tags) == Some(
            "Dimensions error: "@ + e@,
        ),
        tags.dimensions is Ok ==> (tags.tiepoint matches Err(e) ==> metadata_error(tags) == Some(
            "Missing ModelTiepointTag: "@ + e@,
        )),
        tags.dimensions is Ok && tags.tiepoint is Ok ==> (tags.geo_keys matches Err(e)
            ==> metadata_error(tags) == Some("Missing GeoKeyDirectoryTag: "@ + e@)),
        tags.dimensions is Ok && tags.tiepoint is Ok ==> (tags.geo_keys matches Ok(keys)
            ==> metadata_error(tags) == if 32601 <= crs_code(keys@) <= 32760 {
            None
        } else {
            Some("Unsupported EPSG code: "@ + decimal(crs_code(keys@) as nat))
        }),
{
}

/// Tags are complete if the entry for the projected CRS is whole and, where its code is that of a
/// UTM zone, the tie point has five numbers and the pixel scale, if there is one, has two.
pub proof fn law_whole_tags_are_complete(tags: GeoTags, i: int, complete: bool)
    requires
        call_ensures(GeoTags::is_complete, (&tags,), complete),
        tags.dimensions is Ok,
        tags.tiepoint is Ok,
        tags.geo_keys is Ok,
        1 <= i,
        4 * i < tags.geo_keys->Ok_0@.len(),
        tags.geo_keys->Ok_0@[4 * i] == 3072,
        forall|k: int|
            4 <= k < 4 * i && k % 4 == 0 ==> #[trigger] tags.geo_keys->Ok_0@[k] != 3072,
    ensures
        complete == tags.complete(),
        complete <==> {
            let keys = tags.geo_keys->Ok_0@;
            &&& 4 * i + 3 < keys.len()
            &&& 32601 <= keys[4 * i + 3] <= 32760 ==> {
                &&& tags.tiepoint->Ok_0@.len() >= 5
                &&& tags.pixel_scale matches Some(values) ==> values@.len() >= 2
            }
        },
{
    let keys = tags.geo_keys->Ok_0@;
    lemma_first_crs_entry(keys, i);
    assert(is_first_crs_entry(keys, i));
    if 4 * i + 3 < keys.len() {
        law_code_is_that_of_the_first_projected_entry(keys, i);
    }
}

/// Tags that cannot all be read, or that have no entry for the projected CRS, lack nothing that is
/// looked for.
pub proof fn law_tags_without_a_code_are_complete(tags: GeoTags, complete: bool)
    requires
        call_ensures(GeoTags::is_complete, (&tags,), complete),
        tags.dimensions is Err || tags.tiepoint is Err || tags.geo_keys is Err || forall|k: int|
            4 <= k < tags.geo_keys->Ok_0@.len() && k % 4 == 0
                ==> #[trigger] tags.geo_keys->Ok_0@[k] != 3072,
    ensures
        complete,
{
    if tags.dimensions is Ok && tags.tiepoint is Ok && tags.geo_keys is Ok {
        lemma_no_crs_entry(tags.geo_keys->Ok_0@);
    }
}

/// The metadata of an image is read if its size, tie point and GeoKeys can be and its code is that
/// of a UTM zone; else the first of these that fails is told.
pub proof fn law_metadata_is_read_or_refused(
    tags: GeoTags,
    i: int,
    result: Result<CogMetadata, String>,
)
    requires
        call_ensures(get_cog_metadata, (tags,), result),
        tags.geo_keys matches Ok(keys) ==> {
            &&& 1 <= i
            &&& 4 * i + 3 < keys@.len()
            &&& keys@[4 * i] == 3072
            &&& forall|k: int| 4 <= k < 4 * i && k % 4 == 0 ==> #[trigger] keys@[k] != 3072
        },
    ensures
        tags.dimensions matches Err(e) ==> (result matches Err(text) && text@
            == "Dimensions error: "@ + e@),
        tags.dimensions is Ok ==> (tags.tiepoint matches Err(e) ==> (result matches Err(text)
            && text@ == "Missing ModelTiepointTag: "@ + e@)),
        tags.dimensions is Ok && tags.tiepoint is Ok ==> (tags.geo_keys matches Err(e) ==> (
        result matches Err(text) && text@ == "Missing GeoKeyDirectoryTag: "@ + e@)),
        tags.dimensions is Ok && tags.tiepoint is Ok ==> (tags.geo_keys matches Ok(keys) ==> {
            let code = keys@[4 * i + 3];
            if 32601 <= code <= 32760 {
                result is Ok
            } else {
                result matches Err(text) && text@ == "Unsupported EPSG code: "@ + decimal(
                    code as nat,
                )
            }
        }),
{
    if tags.geo_keys is Ok {
        law_code_is_that_of_the_first_projected_entry(tags.geo_keys->Ok_0@, i);
    }
}

/// An image whose GeoKeys name no projected CRS is refused as one with the code 0.
pub proof fn law_images_without_a_code_are_refused(
    tags: GeoTags,
    result: Result<CogMetadata, String>,
)
    requires
        call_ensures(get_cog_metadata, (tags,), result),
        tags.dimensions is Ok,
        tags.tiepoint is Ok,
        tags.geo_keys is Ok,
        forall|k: int|
            4 <= k < tags.geo_keys->Ok_0@.len() && k % 4 == 0
                ==> #[trigger] tags.geo_keys->Ok_0@[k] != 3072,
    ensures
        result matches Err(text) && text@ == "Unsupported EPSG code: "@ + decimal(0),
{
    law_images_without_a_projected_entry_have_no_code(tags.geo_keys->Ok_0@);
}

/// The metadata that is read of an image has its size, the fourth and fifth number of its tie
/// point, the first two of its pixel scale, which count as one (sign 0, exponent 1023, fraction 0)
/// where there is none, and the projection of its zone: code 32600 and a number stand for the
/// northern zone of that number, code 32700 and a number for the southern one.
pub proof fn law_read_metadata_is_that_of_the_tags(
    tags: GeoTags,
    metadata: CogMetadata,
    i: int,
    zone: nat,
)
    requires
        call_ensures(get_cog_metadata, (tags,), Ok(metadata)),
        1 <= i,
        4 * i + 3 < tags.geo_keys->Ok_0@.len(),
        tags.geo_keys->Ok_0@[4 * i] == 3072,
        forall|k: int|
            4 <= k < 4 * i && k % 4 == 0 ==> #[trigger] tags.geo_keys->Ok_0@[k] != 3072,
    ensures
        tags.dimensions == Ok::<(u32, u32), String>((metadata.width, metadata.height)),
        tags.tiepoint matches Ok(values) && metadata.tie_x == values@[3] && metadata.tie_y
            == values@[4],
        match tags.pixel_scale {
            Some(values) => metadata.scale_x == values@[0] && metadata.scale_y == values@[1],
            None => metadata.scale_x.bits == 1023 * 0x10_0000_0000_0000 && metadata.scale_y.bits
                == 1023 * 0x10_0000_0000_0000,
        },
        tags.geo_keys->Ok_0@[4 * i + 3] == 32600 + zone && 1 <= zone <= 99
            ==> metadata.proj_source_str@ == "+proj=utm +zone="@ + decimal(zone)
            + " +datum=WGS84 +units=m +no_defs"@,
        tags.geo_keys->Ok_0@[4 * i + 3] == 32700 + zone && zone <= 60
            ==> metadata.proj_source_str@ == "+proj=utm +zone="@ + decimal(zone)
            + " +south +datum=WGS84 +units=m +no_defs"@,
{
    law_projection_is_that_of_the_code(tags, metadata, i);
    law_metadata_is_that_of_the_tags(tags, metadata);
}

/// The code that is found is the last of the four numbers of the first entry, the header left out,
/// that starts with 3072, and 0 where there is none.
pub proof fn law_code_is_found_in_the_first_projected_entry(keys: Vec<u16>, i: int, code: u16)
    requires
        call_ensures(find_crs_code, (&keys,), code),
        1 <= i,
        4 * i + 3 < keys@.len() && keys@[4 * i] == 3072 || 4 * i >= keys@.len(),
        forall|k: int|
            4 <= k < 4 * i && k < keys@.len() && k % 4 == 0 ==> #[trigger] keys@[k] != 3072,
    ensures
        code == if 4 * i < keys@.len() {
            keys@[4 * i + 3]
        } else {
            0
        },
{
    if 4 * i < keys@.len() {
        law_code_is_that_of_the_first_projected_entry(keys@, i);
    } else {
        law_images_without_a_projected_entry_have_no_code(keys@);
    }
}

/// The projection string of a zone has its number in decimal notation and, in the south, says so.
pub proof fn law_zones_are_written_with_their_number(zone: u16, south: bool, s: String)
    requires
        call_ensures(utm_definition_string, (zone, south), s),
    ensures
        s@ == "+proj=utm +zone="@ + decimal(zone as nat) + if south {
            " +south +datum=WGS84 +units=m +no_defs"@
        } else {
            " +datum=WGS84 +units=m +no_defs"@
        },
{
    reveal_strlit(" ");
    reveal_strlit("+south ");
    reveal_strlit("+datum=WGS84 +units=m +no_defs");
    reveal_strlit(" +datum=WGS84 +units=m +no_defs");
    reveal_strlit(" +south +datum=WGS84 +units=m +no_defs");
    let rest = "+datum=WGS84 +units=m +no_defs"@;
    assert(" "@ + rest =~= " +datum=WGS84 +units=m +no_defs"@);
    assert(" "@ + "+south "@ + rest =~= " +south +datum=WGS84 +units=m +no_defs"@);
    if south {
        assert(s@ =~= "+proj=utm +zone="@ + decimal(zone as nat)
            + " +south +datum=WGS84 +units=m +no_defs"@);
    } else {
        assert(s@ =~= "+proj=utm +zone="@ + decimal(zone as nat)
            + " +datum=WGS84 +units=m +no_defs"@);
    }
}

/// The edges and corners of a tile are found where its numbers say: the corners from west to east,
/// first those in the north and then those in the south.
pub proof fn law_edges_and_corners_are_those_of_the_tile(
    z: u32,
    x: u32,
    y: u32,
    bounds: Bounds,
    corners: [(u32, u32); 4],
)
    requires
        z < 32,
        x < u32::MAX,
        y < u32::MAX,
        call_ensures(calculate_mercator_bounds, (z, x, y), bounds),
        call_ensures(Bounds::corners, (&bounds,), corners),
    ensures
        bounds.minx == x,
        bounds.maxx == x + 1,
        bounds.maxy == y,
        bounds.miny == y + 1,
        bounds.tiles == pow2(z as nat),
        corners@ == seq![
            (x, y),
            ((x + 1) as u32, y),
            (x, (y + 1) as u32),
            ((x + 1) as u32, (y + 1) as u32),
        ],
{
}

/// A tile's west and north edge are as many steps from the north-west corner of the grid as its
/// numbers say, its east and south edge one more, and each zoom level halves the steps.
pub proof fn law_tiles_lie_at_their_numbers(z: u32, x: u32, y: u32)
    requires
        z < 32,
        x < u32::MAX,
        y < u32::MAX,
    ensures
        tile_bounds(z, x, y).minx == x,
        tile_bounds(z, x, y).maxx == x + 1,
        tile_bounds(z, x, y).maxy == y,
        tile_bounds(z, x, y).miny == y + 1,
        tile_bounds(0, x, y).tiles == 1,
        z > 0 ==> tile_bounds(z, x, y).tiles == 2 * tile_bounds((z - 1) as u32, x, y).tiles,
{
    vstd::arithmetic::power2::lemma2_to64();
    if z > 0 {
        vstd::arithmetic::power2::lemma_pow2_unfold(z as nat);
        if z < 31 {
            vstd::arithmetic::power2::lemma_pow2_strictly_increases(z as nat, 31);
        }
    }
}

/// The corners of a tile are listed from west to east, first those in the north and then those in
/// the south: the edge between the first two is the north edge, and the edge between the first and
/// the third the west edge.
pub proof fn law_corners_are_listed_from_the_north_west(bounds: Bounds)
    ensures
        corners_of(bounds).len() == 4,
        corners_of(bounds)[0].0 == bounds.minx && corners_of(bounds)[2].0 == bounds.minx,
        corners_of(bounds)[1].0 == bounds.maxx && corners_of(bounds)[3].0 == bounds.maxx,
        corners_of(bounds)[0].1 == bounds.maxy && corners_of(bounds)[1].1 == bounds.maxy,
        corners_of(bounds)[2].1 == bounds.miny && corners_of(bounds)[3].1 == bounds.miny,
{
}

} // verus!
