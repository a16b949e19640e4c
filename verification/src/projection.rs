//! The map projections between which tile corners are transformed.

use crate::geotiff::{
    is_southern, is_utm_code, is_utm_definition, utm_definition, utm_zone, CogMetadata,
};
use crate::text::{decimal, is_digit, joined, lemma_decimal_digits};
use proj4rs::Proj;
use vstd::prelude::*;

verus! {

/// The projection of `proj4rs`.
#[verifier::external_type_specification]
#[verifier::external_body]
pub struct ExProj(Proj);

/// The definition of the Web Mercator projection, in which map tiles are cut.
pub open spec fn web_mercator_definition() -> Seq<char> {
    "+proj=merc +a=6378137 +b=6378137 +lat_ts=0.0 +lon_0=0.0 +x_0=0.0 +y_0=0 +k=1.0 +units=m +nadgrids=@null +wktext +no_defs"@
}

/// Whether a definition is that of one of the sixty UTM zones of a hemisphere.
pub open spec fn is_known_utm_definition(definition: Seq<char>) -> bool {
    exists|zone: u16, south: bool|
        1 <= zone <= 60 && definition == #[trigger] utm_definition(zone as nat, south)
}

/// The projection that `proj4rs` makes from the definition of a UTM zone or of Web Mercator.
pub uninterp spec fn projection_of(definition: Seq<char>) -> Proj;

/// `proj4rs::Proj::from_proj_string` makes a projection from its definition alone. It accepts Web
/// Mercator's and those of the UTM zones from 1 to 60; for another zone number the error, in
/// debug notation, reads `InvalidUtmZone`.
#[verifier::external_body]
fn from_definition(definition: &str) -> (result: Result<Proj, String>)
    requires
        definition@ == web_mercator_definition() || is_utm_definition(definition@),
    ensures
        match result {
            Ok(projection) => {
                &&& definition@ == web_mercator_definition() || is_known_utm_definition(definition@)
                &&& projection == projection_of(definition@)
            },
            Err(e) => {
                &&& definition@ != web_mercator_definition()
                &&& !is_known_utm_definition(definition@)
                &&& e@ == "InvalidUtmZone"@
            },
        },
{
    match Proj::from_proj_string(definition) {
        Ok(projection) => Ok(projection),
        Err(e) => Err(format!("{:?}", e)),
    }
}

proof fn lemma_utm_is_not_web_mercator(zone: nat, south: bool)
    ensures
        utm_definition(zone, south) != web_mercator_definition(),
{
    reveal_strlit("+proj=utm +zone=");
    reveal_strlit(
        "+proj=merc +a=6378137 +b=6378137 +lat_ts=0.0 +lon_0=0.0 +x_0=0.0 +y_0=0 +k=1.0 +units=m +nadgrids=@null +wktext +no_defs",
    );
    assert(utm_definition(zone, south)[6] == 'u');
    assert(web_mercator_definition()[6] == 'm');
}

proof fn lemma_utm_definition_has_one_zone(zone: nat, south: bool, other: nat, other_south: bool)
    requires
        utm_definition(zone, south) == utm_definition(other, other_south),
    ensures
        zone == other,
{
    reveal_strlit("+proj=utm +zone=");
    reveal_strlit(" ");
    lemma_decimal_digits(zone);
    lemma_decimal_digits(other);
    let text = utm_definition(zone, south);
    let (a, b) = (decimal(zone), decimal(other));
    assert forall|i: int| 0 <= i < a.len() implies text[16 + i] == a[i] by {}
    assert forall|i: int| 0 <= i < b.len() implies text[16 + i] == b[i] by {}
    assert(text[16int + a.len()] == ' ');
    assert(text[16int + b.len()] == ' ');
    assert(!is_digit(' '));
    if a.len() < b.len() {
        assert(is_digit(b[a.len() as int]));
    }
    if b.len() < a.len() {
        assert(is_digit(a[b.len() as int]));
    }
    assert(a =~= b);
}

/// Of the UTM codes, exactly those with a zone number from 1 to 60 name a projection that can be
/// opened.
pub proof fn law_sixty_zones_can_be_opened(code: u16)
    requires
        is_utm_code(code),
    ensures
        is_utm_definition(utm_definition(utm_zone(code), is_southern(code))),
        is_known_utm_definition(utm_definition(utm_zone(code), is_southern(code))) <==> {
            ||| 32601 <= code <= 32660
            ||| 32701 <= code <= 32760
        },
{
    let (number, south) = (utm_zone(code), is_southern(code));
    let definition = utm_definition(number, south);
    assert(definition == utm_definition(number as u16 as nat, south));
    if is_known_utm_definition(definition) {
        let (zone, other_south) = choose|zone: u16, other_south: bool|
            1 <= zone <= 60 && definition == #[trigger] utm_definition(zone as nat, other_south);
        lemma_utm_definition_has_one_zone(number, south, zone as nat, other_south);
    }
}

/// The message about an image in a UTM zone that there is not.
pub open spec fn unknown_zone_message() -> Seq<char> {
    "Proj4rs error src: "@ + "InvalidUtmZone"@
}

/// Opens the projection of an image, and that of the tiles.
pub fn open_projections(metadata: &CogMetadata) -> (result: Result<(Proj, Proj), String>)
    requires
        metadata.names_utm_zone(),
    ensures
        match result {
            Ok((source, target)) => {
                &&& is_known_utm_definition(metadata.proj_source_str@)
                &&& source == projection_of(metadata.proj_source_str@)
                &&& target == projection_of(web_mercator_definition())
            },
            Err(e) => {
                &&& !is_known_utm_definition(metadata.proj_source_str@)
                &&& e@ == unknown_zone_message()
            },
        },
{
    proof {
        let (zone, south) = choose|zone: u16, south: bool|
            metadata.proj_source_str@ == #[trigger] utm_definition(zone as nat, south);
        lemma_utm_is_not_web_mercator(zone as nat, south);
    }
    let source = match from_definition(metadata.proj_source_str.as_str()) {
        Ok(source) => source,
        Err(e) => return Err(joined("Proj4rs error src: ", e.as_str())),
    };
    let target = match from_definition(
        "+proj=merc +a=6378137 +b=6378137 +lat_ts=0.0 +lon_0=0.0 +x_0=0.0 +y_0=0 +k=1.0 +units=m +nadgrids=@null +wktext +no_defs",
    ) {
        Ok(target) => target,
        Err(e) => return Err(joined("Proj4rs error target: ", e.as_str())),
    };
    Ok((source, target))
}

/// An image in a UTM zone from 1 to 60 opens with its own projection beside that of Web Mercator,
/// on a sphere of 6378137 metres; any other zone is complained of.
pub proof fn law_projections_are_those_of_the_image_and_of_the_tiles(
    metadata: CogMetadata,
    zone: u16,
    south: bool,
    result: Result<(Proj, Proj), String>,
)
    requires
        call_ensures(open_projections, (&metadata,), result),
        metadata.proj_source_str@ == "+proj=utm +zone="@ + decimal(zone as nat) + if south {
            " +south +datum=WGS84 +units=m +no_defs"@
        } else {
            " +datum=WGS84 +units=m +no_defs"@
        },
    ensures
        result is Ok <==> 1 <= zone <= 60,
        match result {
            Ok((source, target)) => {
                &&& source == projection_of(metadata.proj_source_str@)
                &&& target == projection_of(
                    "+proj=merc +a=6378137 +b=6378137 +lat_ts=0.0 +lon_0=0.0 +x_0=0.0 +y_0=0 +k=1.0 +units=m +nadgrids=@null +wktext +no_defs"@,
                )
            },
            Err(e) => e@ == "Proj4rs error src: InvalidUtmZone"@,
        },
{
    reveal_strlit(" ");
    reveal_strlit("+south ");
    reveal_strlit("+datum=WGS84 +units=m +no_defs");
    reveal_strlit(" +datum=WGS84 +units=m +no_defs");
    reveal_strlit(" +south +datum=WGS84 +units=m +no_defs");
    reveal_strlit("Proj4rs error src: ");
    reveal_strlit("InvalidUtmZone");
    reveal_strlit("Proj4rs error src: InvalidUtmZone");
    assert("Proj4rs error src: "@ + "InvalidUtmZone"@ =~= "Proj4rs error src: InvalidUtmZone"@);
    let definition = utm_definition(zone as nat, south);
    let rest = "+datum=WGS84 +units=m +no_defs"@;
    assert(" "@ + rest =~= " +datum=WGS84 +units=m +no_defs"@);
    assert(" "@ + "+south "@ + rest =~= " +south +datum=WGS84 +units=m +no_defs"@);
    assert(metadata.proj_source_str@ =~= definition);
    if is_known_utm_definition(definition) {
        let (other, other_south) = choose|other: u16, other_south: bool|
            1 <= other <= 60 && definition == #[trigger] utm_definition(other as nat, other_south);
        lemma_utm_definition_has_one_zone(zone as nat, south, other as nat, other_south);
    }
}

} // verus!
