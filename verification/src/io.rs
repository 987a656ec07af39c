//! Conversions between geometries and text or binary formats.
//!
//! The output of `ST_AsEWKB` and `ST_AsGeoJSON` is plain text or plain bytes, not a geometry. PostGIS
//! does the same, so a cast back needs an explicit `ST_GeomFrom...` call.
//!
//! The texts and bytes are parsed here. What a parsed value holds is floating point, so the caller
//! turns it into a geometry or a column. The encoders are the caller's too. `ST_AsEWKB` takes the
//! plain Well-Known Binary of a column and writes the SRID of the column into each header.
//!
//! # A known limit
//!
//! `ST_GeomFromEWKB` reads the extended format but drops the embedded SRID. Stamp the column
//! afterwards with `ST_SetSRID` when the SRID matters. `ST_AsEWKB` does write the SRID, taken from
//! the column metadata.

use vstd::prelude::*;
use vstd::utf8::encode_utf8;
use geoarrow_array::GeoArrowArray;
use crate::builder::{are_points, flat_rows, point_column};
use crate::column::{Column, DataType, DataTypeView, Dimension, Kind};
use crate::component::geometry_view;
use crate::crs::{srid_in, srid_of, Metadata, MetadataView};
use crate::error::Error;
use crate::geometry::{Coord, Geometry, GeometryView};
use crate::layout::{entries, entries_of, is_deep, is_takeable, nests_deep};
use crate::rows::map_geometries;

verus! {

/// The type of a column whose values carry no dimension and no layout.
pub open spec fn serialized(kind: Kind, metadata: MetadataView) -> DataTypeView {
    DataTypeView { kind, dimension: None, coord_type: None, metadata }
}

/// The default output type of every `ST_GeomFrom...` function.
///
/// A mixed geometry column, so any input parses without a plan-time type declaration.
pub fn parsed_type(metadata: Metadata) -> (r: DataType)
    ensures
        r@ == DataTypeView::mixed(metadata@),
{
    DataType::mixed(metadata)
}

/// The type that the binary writer is read back as.
pub fn wkb_type(metadata: Metadata) -> (r: DataType)
    ensures
        r@ == serialized(Kind::Wkb, metadata@),
{
    DataType { kind: Kind::Wkb, dimension: None, coord_type: None, metadata }
}

/// The WKT type with the given metadata.
pub fn wkt_type(metadata: Metadata) -> (r: DataType)
    ensures
        r@ == serialized(Kind::Wkt, metadata@),
{
    DataType { kind: Kind::Wkt, dimension: None, coord_type: None, metadata }
}

// ------------------------------------------------------------------------ EWKB
/// Flag set in the WKB type word when an SRID follows it.
pub const EWKB_SRID_FLAG: u32 = 0x2000_0000;

/// The word that starts at a byte.
pub open spec fn word_at(bytes: Seq<u8>, at: int, little_endian: bool) -> u32 {
    if little_endian {
        word(bytes[at], bytes[at + 1], bytes[at + 2], bytes[at + 3])
    } else {
        word(bytes[at + 3], bytes[at + 2], bytes[at + 1], bytes[at])
    }
}

/// The word of four bytes, the lowest one first.
pub open spec fn word(a: u8, b: u8, c: u8, d: u8) -> u32 {
    (a as u32) | ((b as u32) << 8u32) | ((c as u32) << 16u32) | ((d as u32) << 24u32)
}

/// True when the first byte says that the lowest byte of a word comes first.
pub open spec fn is_little_endian(wkb: Seq<u8>) -> bool {
    wkb[0] == 1
}

/// True when `out` is the value `wkb` with an SRID: the same byte order, the type word with its
/// flag, the SRID, and what follows the type word.
pub open spec fn has_srid(wkb: Seq<u8>, srid: i32, out: Seq<u8>) -> bool {
    let little_endian = is_little_endian(wkb);
    &&& out.len() == wkb.len() + 4
    &&& out[0] == wkb[0]
    &&& word_at(out, 1, little_endian) == word_at(wkb, 1, little_endian) | EWKB_SRID_FLAG
    &&& word_at(out, 5, little_endian) == srid as u32
    &&& out.skip(9) == wkb.skip(5)
}

/// The four bytes of a word, the lowest one first.
fn bytes_of(value: u32) -> (r: (u8, u8, u8, u8))
    ensures
        word(r.0, r.1, r.2, r.3) == value,
{
    let a: u8 = (value & 0xff) as u8;
    let b: u8 = ((value >> 8) & 0xff) as u8;
    let c: u8 = ((value >> 16) & 0xff) as u8;
    let d: u8 = ((value >> 24) & 0xff) as u8;
    assert(((value & 0xff) as u8) as u32 | (((((value >> 8u32) & 0xff) as u8) as u32) << 8u32) | (((
    ((value >> 16u32) & 0xff) as u8) as u32) << 16u32) | (((((value >> 24u32) & 0xff) as u8) as u32)
        << 24u32) == value) by (bit_vector);
    (a, b, c, d)
}

/// The word of four bytes, the lowest one first.
fn word_of(a: u8, b: u8, c: u8, d: u8) -> (r: u32)
    ensures
        r == word(a, b, c, d),
{
    (a as u32) | ((b as u32) << 8) | ((c as u32) << 16) | ((d as u32) << 24)
}

/// Read the word that starts at a byte.
pub(crate) fn read_word(bytes: &[u8], at: usize, little_endian: bool) -> (r: u32)
    requires
        at + 4 <= bytes@.len(),
    ensures
        r == word_at(bytes@, at as int, little_endian),
{
    let total: usize = bytes.len();
    assert(at + 4 <= total);
    if little_endian {
        word_of(bytes[at], bytes[at + 1], bytes[at + 2], bytes[at + 3])
    } else {
        word_of(bytes[at + 3], bytes[at + 2], bytes[at + 1], bytes[at])
    }
}

/// The bits of a signed number.
#[verifier::truncate]
fn bits_of(srid: i32) -> (r: u32)
    ensures
        r == srid as u32,
{
    srid as u32
}

/// Append a word in a byte order.
fn push_word(out: &mut Vec<u8>, value: u32, little_endian: bool)
    ensures
        final(out)@.len() == old(out)@.len() + 4,
        final(out)@.take(old(out)@.len() as int) == old(out)@,
        word_at(final(out)@, old(out)@.len() as int, little_endian) == value,
{
    let (a, b, c, d) = bytes_of(value);
    if little_endian {
        out.push(a);
        out.push(b);
        out.push(c);
        out.push(d);
    } else {
        out.push(d);
        out.push(c);
        out.push(b);
        out.push(a);
    }
    assert(out@.take(old(out)@.len() as int) =~= old(out)@);
}

/// Rewrite a WKB header as an EWKB header that holds `srid`.
///
/// A value too short to have a header gives nothing.
pub fn add_srid(wkb: &Vec<u8>, srid: i32) -> (r: Option<Vec<u8>>)
    ensures
        match r {
            Some(out) => wkb@.len() >= 5 && has_srid(wkb@, srid, out@),
            None => wkb@.len() < 5,
        },
{
    let len: usize = wkb.len();
    if len < 5 {
        return None;
    }
    // Byte 0 is the byte order: 1 means little endian.
    let little_endian = wkb[0] == 1;
    let raw: u32 = if little_endian {
        word_of(wkb[1], wkb[2], wkb[3], wkb[4])
    } else {
        word_of(wkb[4], wkb[3], wkb[2], wkb[1])
    };
    let mut out: Vec<u8> = Vec::new();
    out.push(wkb[0]);
    push_word(&mut out, raw | EWKB_SRID_FLAG, little_endian);
    let ghost first = out@;
    assert(first[0] == first.take(1)[0]);
    push_word(&mut out, bits_of(srid), little_endian);
    let ghost second = out@;
    assert forall|i: int| 0 <= i < 5 implies second[i] == first[i] by {
        assert(second.take(5)[i] == first[i]);
    }
    let mut i: usize = 5;
    while i < len
        invariant
            5 <= i <= len,
            len == wkb@.len(),
            out@.len() == i + 4,
            second.len() == 9,
            forall|j: int| 0 <= j < 9 ==> #[trigger] out@[j] == second[j],
            forall|j: int| 9 <= j < i + 4 ==> #[trigger] out@[j] == wkb@[j - 4],
        decreases len - i,
    {
        out.push(wkb[i]);
        i = i + 1;
    }
    proof {
        assert(out@.skip(9) =~= wkb@.skip(5));
        assert(word_at(out@, 1, little_endian) == word_at(first, 1, little_endian));
        assert(word_at(out@, 5, little_endian) == word_at(second, 5, little_endian));
    }
    Some(out)
}

/// The view of an optional value.
pub open spec fn bytes_view(value: Option<Vec<u8>>) -> Option<Seq<u8>> {
    match value {
        Some(bytes) => Some(bytes@),
        None => None,
    }
}

/// True when `out` is a value with an SRID. A null, or a value too short to have a header, gives
/// nothing.
pub open spec fn is_stamped(plain: Option<Seq<u8>>, srid: i32, out: Option<Seq<u8>>) -> bool {
    match plain {
        Some(wkb) => if wkb.len() >= 5 {
            out is Some && has_srid(wkb, srid, out->0)
        } else {
            out is None
        },
        None => out is None,
    }
}

/// `ST_AsEWKB`. Well-Known Binary with the column SRID written into the header.
///
/// `plain` holds the plain Well-Known Binary of the column. When the column carries no SRID it is
/// handed back byte for byte.
pub fn st_as_ewkb(data_type: &DataType, plain: Vec<Option<Vec<u8>>>) -> (r: Vec<Option<Vec<u8>>>)
    ensures
        ({
            let srid = srid_in(data_type@.metadata.crs);
            if srid == 0 {
                r == plain
            } else {
                &&& r@.len() == plain@.len()
                &&& forall|i: int|
                    0 <= i < plain@.len() ==> is_stamped(
                        bytes_view(plain@[i]),
                        srid,
                        bytes_view(#[trigger] r@[i]),
                    )
            }
        }),
{
    let srid: i32 = srid_of(data_type);
    if srid == 0 {
        return plain;
    }
    // EWKB sets a flag in the type word and inserts the SRID straight after it.
    let mut out: Vec<Option<Vec<u8>>> = Vec::new();
    let mut i: usize = 0;
    while i < plain.len()
        invariant
            i <= plain@.len(),
            out@.len() == i,
            forall|j: int|
                0 <= j < i ==> is_stamped(
                    bytes_view(plain@[j]),
                    srid,
                    bytes_view(#[trigger] out@[j]),
                ),
        decreases plain@.len() - i,
    {
        let value = match &plain[i] {
            Some(wkb) => add_srid(wkb, srid),
            None => None,
        };
        out.push(value);
        i = i + 1;
    }
    out
}

// ------------------------------------------------------- Well-Known Text and Binary
/// A parsed column of mixed geometries, as the `geoarrow_array` crate holds it.
#[verifier::external_type_specification]
#[verifier::external_body]
pub struct ExGeometryArray(geoarrow_array::array::GeometryArray);

/// The mixed column of some encoded values. Nothing where one of them cannot be parsed.
pub uninterp spec fn mixed_column(values: Seq<Option<Seq<u8>>>) -> Option<
    geoarrow_array::array::GeometryArray,
>;

/// The encoding of the geometry that a text holds. Nothing for a text that holds none.
pub uninterp spec fn text_encoding(text: Seq<char>) -> Option<Seq<u8>>;

/// The views of some encoded values.
pub open spec fn values_view(values: Seq<Option<Vec<u8>>>) -> Seq<Option<Seq<u8>>> {
    Seq::new(values.len(), |i: int| bytes_view(values[i]))
}

/// The entries that the encoded values `0..end` take together in the buffers of a mixed column.
pub open spec fn entry_total(values: Seq<Option<Seq<u8>>>, end: int) -> nat
    decreases end,
{
    if end <= 0 {
        0
    } else {
        entry_total(values, end - 1) + match values[end - 1] {
            Some(bytes) => entries_of(bytes)->0,
            None => 0,
        }
    }
}

/// True when a mixed column can take every value.
pub open spec fn are_takeable(values: Seq<Option<Seq<u8>>>) -> bool {
    forall|i: int| 0 <= i < values.len() && #[trigger] values[i] is Some ==> is_takeable(values[i]->0)
}

/// Parse Well-Known Binary by `geoarrow_array::cast::from_wkb`, into a mixed column without
/// metadata.
///
/// The column, or the failure, is a function of the values alone. Which values parse, and to what,
/// is not stated. The values that would make the outside function panic are left out: those that a
/// mixed column cannot take, and more rows or entries than an offset can count.
#[verifier::external_body]
fn parse_values(values: &Vec<Option<Vec<u8>>>) -> (r: Option<geoarrow_array::array::GeometryArray>)
    requires
        are_takeable(values_view(values@)),
        values@.len() <= i32::MAX,
        entry_total(values_view(values@), values@.len() as int) <= i32::MAX,
    ensures
        r == mixed_column(values_view(values@)),
{
    let rows: arrow_array::LargeBinaryArray = values.iter().map(|value| value.as_deref()).collect();
    let encoded = geoarrow_array::array::GenericWkbArray::new(rows, Default::default());
    let mixed = geoarrow_schema::GeometryType::new(Default::default());
    let target = geoarrow_schema::GeoArrowType::Geometry(mixed);
    let parsed = geoarrow_array::cast::from_wkb(&encoded, target).ok()?;
    parsed.as_any().downcast_ref::<geoarrow_array::array::GeometryArray>().cloned()
}

/// Parse Well-Known Text by `geoarrow_array::cast::from_wkt`, and encode it as Well-Known Binary.
///
/// The encoding, or the failure, is a function of the text alone. Which texts parse, and to what, is
/// not stated. Left out are texts with so many nested collections that the outside parser could run
/// out of stack.
#[verifier::external_body]
fn encode_text(text: &String) -> (r: Option<Vec<u8>>)
    requires
        !is_deep(encode_utf8(text@)),
    ensures
        bytes_view(r) == text_encoding(text@),
{
    let rows = arrow_array::LargeStringArray::from(vec![text.as_str()]);
    let texts = geoarrow_array::array::GenericWktArray::new(rows, Default::default());
    let binary = geoarrow_schema::WkbType::new(Default::default());
    let target = geoarrow_schema::GeoArrowType::LargeWkb(binary);
    let parsed = geoarrow_array::cast::from_wkt(&texts, target).ok()?;
    let encoded = parsed.as_any().downcast_ref::<geoarrow_array::array::GenericWkbArray<i64>>()?;
    Some(encoded.inner().value(0).to_vec())
}

/// True when `r` is what a parsed column was turned into. A column that could not be parsed fails.
pub open spec fn is_turned<T, C: Fn(geoarrow_array::array::GeometryArray, Metadata) -> T>(
    convert: C,
    parsed: Option<geoarrow_array::array::GeometryArray>,
    metadata: Metadata,
    r: Result<T, Error>,
) -> bool {
    match parsed {
        Some(array) => r matches Ok(out) && convert.ensures((array, metadata), out),
        None => r matches Err(error) && error == Error::External,
    }
}

/// Turn a parsed column into what the caller wants, with the metadata. A column that could not be
/// parsed fails.
pub fn from_parsed<T, C: Fn(geoarrow_array::array::GeometryArray, Metadata) -> T>(
    parsed: Option<geoarrow_array::array::GeometryArray>,
    metadata: Metadata,
    convert: &C,
) -> (r: Result<T, Error>)
    requires
        forall|array: geoarrow_array::array::GeometryArray, metadata: Metadata| #[trigger]
            convert.requires((array, metadata)),
    ensures
        is_turned(*convert, parsed, metadata, r),
{
    match parsed {
        Some(array) => Ok(convert(array, metadata)),
        None => Err(Error::External),
    }
}

/// What parsing encoded values gives. A value that a mixed column cannot take fails. More rows or
/// entries than an offset can count overflow.
pub open spec fn is_from_values<T, C: Fn(geoarrow_array::array::GeometryArray, Metadata) -> T>(
    convert: C,
    values: Seq<Option<Seq<u8>>>,
    metadata: Metadata,
    r: Result<T, Error>,
) -> bool {
    if !are_takeable(values) {
        r matches Err(error) && error == Error::External
    } else if values.len() > i32::MAX || entry_total(values, values.len() as int) > i32::MAX {
        r matches Err(error) && error == Error::Overflow
    } else {
        is_turned(convert, mixed_column(values), metadata, r)
    }
}

/// `ST_GeomFromWKB` and `ST_GeomFromEWKB`.
///
/// Both the plain and the extended format are read. An SRID embedded in extended input is ignored.
/// See the module documentation.
pub fn st_geom_from_wkb<T, C: Fn(geoarrow_array::array::GeometryArray, Metadata) -> T>(
    binary: &Vec<Option<Vec<u8>>>,
    metadata: Metadata,
    convert: &C,
) -> (r: Result<T, Error>)
    requires
        forall|array: geoarrow_array::array::GeometryArray, metadata: Metadata| #[trigger]
            convert.requires((array, metadata)),
    ensures
        is_from_values(*convert, values_view(binary@), metadata, r),
{
    let ghost values = values_view(binary@);
    let mut total: u64 = 0;
    let mut fits = true;
    let mut i: usize = 0;
    while i < binary.len()
        invariant
            i <= binary@.len(),
            values == values_view(binary@),
            total <= i32::MAX,
            fits ==> total == entry_total(values, i as int),
            !fits ==> entry_total(values, i as int) > i32::MAX,
            forall|j: int| 0 <= j < i && #[trigger] values[j] is Some ==> is_takeable(values[j]->0),
        decreases binary@.len() - i,
    {
        if let Some(bytes) = &binary[i] {
            assert(values[i as int] == Some(bytes@));
            match entries(bytes.as_slice()) {
                Some(found) => {
                    if found as u64 > 0x7fff_ffff - total {
                        fits = false;
                    } else if fits {
                        total = total + found as u64;
                    }
                },
                None => {
                    return Err(Error::External);
                },
            }
        }
        i = i + 1;
    }
    if !fits || binary.len() > 0x7fff_ffff {
        return Err(Error::Overflow);
    }
    from_parsed(parse_values(binary), metadata, convert)
}

/// The encoding of the geometry that a text holds. A text with nested collections holds none.
pub open spec fn encoding_of(text: Seq<char>) -> Option<Seq<u8>> {
    if is_deep(encode_utf8(text)) {
        None
    } else {
        text_encoding(text)
    }
}

/// True when a text holds no geometry.
pub open spec fn is_unreadable(text: Option<Seq<char>>) -> bool {
    text matches Some(text) && encoding_of(text) is None
}

/// The encodings of the geometries that some texts hold.
pub open spec fn encodings(texts: Seq<Option<String>>) -> Seq<Option<Seq<u8>>> {
    Seq::new(
        texts.len(),
        |i: int|
            match texts[i] {
                Some(text) => encoding_of(text@),
                None => None,
            },
    )
}

/// Encode one text.
fn encode_one(text: &String) -> (r: Option<Vec<u8>>)
    ensures
        bytes_view(r) == encoding_of(text@),
{
    if nests_deep(text.as_str().as_bytes()) {
        None
    } else {
        encode_text(text)
    }
}

/// `ST_GeomFromText`. Parse Well-Known Text.
///
/// A text that holds no geometry fails.
pub fn st_geom_from_text<T, C: Fn(geoarrow_array::array::GeometryArray, Metadata) -> T>(
    text: &Vec<Option<String>>,
    metadata: Metadata,
    convert: &C,
) -> (r: Result<T, Error>)
    requires
        forall|array: geoarrow_array::array::GeometryArray, metadata: Metadata| #[trigger]
            convert.requires((array, metadata)),
    ensures
        if exists|i: int| 0 <= i < text@.len() && is_unreadable(text_view(#[trigger] text@[i])) {
            r matches Err(error) && error == Error::External
        } else {
            is_from_values(*convert, encodings(text@), metadata, r)
        },
{
    let mut binary: Vec<Option<Vec<u8>>> = Vec::new();
    let mut i: usize = 0;
    while i < text.len()
        invariant
            i <= text@.len(),
            forall|j: int| 0 <= j < i ==> !is_unreadable(text_view(#[trigger] text@[j])),
            binary@.len() == i,
            forall|j: int|
                0 <= j < i ==> bytes_view(#[trigger] binary@[j]) == encodings(text@)[j],
        decreases text@.len() - i,
    {
        match &text[i] {
            Some(value) => match encode_one(value) {
                Some(bytes) => {
                    binary.push(Some(bytes));
                },
                None => {
                    assert(is_unreadable(text_view(text@[i as int])));
                    return Err(Error::External);
                },
            },
            None => {
                binary.push(None);
            },
        }
        i = i + 1;
    }
    assert(values_view(binary@) =~= encodings(text@));
    st_geom_from_wkb(&binary, metadata, convert)
}

// --------------------------------------------------------------------- GeoJSON
/// The view of an optional text.
pub open spec fn text_view(text: Option<String>) -> Option<Seq<char>> {
    match text {
        Some(text) => Some(text@),
        None => None,
    }
}

/// True when `text` is what the encoder gave for a geometry.
pub open spec fn is_encoded<E: Fn(&Geometry) -> String>(
    encode: E,
    geom: GeometryView,
    text: Seq<char>,
) -> bool {
    exists|g: Geometry, out: String| #[trigger]
        encode.ensures((&g,), out) && g@ == geom && out@ == text
}

fn encode_geometry<E: Fn(&Geometry) -> String>(geom: &Geometry, encode: &E) -> (r: String)
    requires
        forall|g: &Geometry| #[trigger] encode.requires((g,)),
    ensures
        is_encoded(*encode, geom@, r@),
{
    let r = encode(geom);
    assert(encode.ensures((geom,), r));
    r
}

/// `ST_AsGeoJSON`. One GeoJSON geometry object per row.
pub fn st_as_geojson<E: Fn(&Geometry) -> String>(array: &Column, encode: &E) -> (r: Result<
    Vec<Option<String>>,
    Error,
>)
    requires
        array.wf(),
        forall|g: &Geometry| #[trigger] encode.requires((g,)),
    ensures
        match r {
            Ok(out) => {
                &&& !array@.has_broken(array.rows())
                &&& out@.len() == array.rows()
                &&& forall|i: int|
                    0 <= i < out@.len() ==> match array@.geometry(i) {
                        Some(geom) => #[trigger] out@[i] is Some && is_encoded(
                            *encode,
                            geom,
                            out@[i]->0@,
                        ),
                        None => out@[i] is None,
                    }
            },
            Err(error) => array@.has_broken(array.rows()) && error == Error::Undecodable,
        },
{
    let f = |geom: &Geometry| -> (out: Option<String>)
        ensures
            out is Some && is_encoded(*encode, geom@, out->0@),
        { Some(encode_geometry(geom, encode)) };
    map_geometries(array, &f)
}

/// The type and the coordinates of a GeoJSON geometry object, as the `geojson` crate holds them.
#[verifier::external_type_specification]
#[verifier::external_body]
pub struct ExGeoJson(geojson::GeometryValue);

/// The geometry object that a text holds. Nothing for a text that holds none.
pub uninterp spec fn geojson_object(text: Seq<char>) -> Option<geojson::GeometryValue>;

/// Parse a GeoJSON geometry object by the `FromStr` impl of `geojson::Geometry`, and take its value.
///
/// The value, or the failure, is a function of the text alone. Which texts parse, and to what, is
/// not stated.
#[verifier::external_body]
fn parse_geojson(text: &String) -> (r: Option<geojson::GeometryValue>)
    ensures
        r == geojson_object(text@),
{
    text.parse::<geojson::Geometry>().ok().map(|object| object.value)
}

/// True when `out` is the geometry of a parsed object. Nothing for an object that has none.
pub open spec fn is_from_object<C: Fn(geojson::GeometryValue) -> Option<Geometry>>(
    convert: C,
    object: Option<geojson::GeometryValue>,
    out: Option<GeometryView>,
) -> bool {
    match object {
        Some(object) => exists|found: Option<Geometry>| #[trigger]
            convert.ensures((object,), found) && out == geometry_view(found),
        None => out is None,
    }
}

/// The geometry of a parsed object.
///
/// A text that holds no object fails, and so does an object that is no geometry.
pub fn geometry_from_object<C: Fn(geojson::GeometryValue) -> Option<Geometry>>(
    object: Option<geojson::GeometryValue>,
    convert: &C,
) -> (r: Result<Geometry, Error>)
    requires
        forall|object: geojson::GeometryValue| #[trigger] convert.requires((object,)),
    ensures
        match r {
            Ok(geom) => is_from_object(*convert, object, Some(geom@)),
            Err(error) => error == Error::External && is_from_object(*convert, object, None),
        },
{
    match object {
        Some(object) => {
            let found = convert(object);
            assert(convert.ensures((object,), found));
            match found {
                Some(geom) => Ok(geom),
                None => Err(Error::External),
            }
        },
        None => Err(Error::External),
    }
}

/// `ST_GeomFromGeoJSON`. Parse a GeoJSON geometry object.
///
/// A null gives a null. The first text that cannot be parsed fails the call.
pub fn st_geom_from_geojson<C: Fn(geojson::GeometryValue) -> Option<Geometry>>(
    text: &Vec<Option<String>>,
    convert: &C,
) -> (r: Result<Vec<Option<Geometry>>, Error>)
    requires
        forall|object: geojson::GeometryValue| #[trigger] convert.requires((object,)),
    ensures
        match r {
            Ok(out) => {
                &&& out@.len() == text@.len()
                &&& forall|i: int|
                    0 <= i < text@.len() ==> match text@[i] {
                        Some(t) => #[trigger] out@[i] is Some && is_from_object(
                            *convert,
                            geojson_object(t@),
                            geometry_view(out@[i]),
                        ),
                        None => out@[i] is None,
                    }
            },
            Err(error) => error == Error::External && exists|i: int|
                0 <= i < text@.len() && #[trigger] text@[i] is Some && is_from_object(
                    *convert,
                    geojson_object(text@[i]->0@),
                    None,
                ),
        },
{
    let mut out: Vec<Option<Geometry>> = Vec::new();
    let mut i: usize = 0;
    while i < text.len()
        invariant
            i <= text@.len(),
            forall|object: geojson::GeometryValue| #[trigger] convert.requires((object,)),
            out@.len() == i,
            forall|j: int|
                0 <= j < i ==> match text@[j] {
                    Some(t) => #[trigger] out@[j] is Some && is_from_object(
                        *convert,
                        geojson_object(t@),
                        geometry_view(out@[j]),
                    ),
                    None => out@[j] is None,
                },
        decreases text@.len() - i,
    {
        match &text[i] {
            Some(t) => match geometry_from_object(parse_geojson(t), convert) {
                Ok(geom) => {
                    out.push(Some(geom));
                },
                Err(error) => {
                    assert(text@[i as int] is Some);
                    return Err(error);
                },
            },
            None => {
                out.push(None);
            },
        }
        i = i + 1;
    }
    Ok(out)
}

// --------------------------------------------------------------------- geohash
/// True when `hash` is what the encoder gave for a position.
pub open spec fn is_hashed<H: Fn(Coord, usize) -> Option<String>>(
    hash: H,
    c: Coord,
    precision: usize,
    out: Option<Seq<char>>,
) -> bool {
    exists|found: Option<String>| #[trigger]
        hash.ensures((c, precision), found) && out == text_view(found)
}

/// The geohash of a geometry that is a point.
fn hash_geometry<H: Fn(Coord, usize) -> Option<String>>(
    geom: &Geometry,
    precision: usize,
    hash: &H,
) -> (r: Option<String>)
    requires
        forall|c: Coord, p: usize| #[trigger] hash.requires((c, p)),
    ensures
        match geom@ {
            GeometryView::Point(c) => is_hashed(*hash, c, precision, text_view(r)),
            _ => r is None,
        },
{
    match geom {
        Geometry::Point(c) => {
            // Out of range coordinates cannot be hashed. PostGIS errors, this gives nothing.
            let r = hash(*c, precision);
            assert(hash.ensures((*c, precision), r));
            r
        },
        _ => None,
    }
}

/// `ST_GeoHash`. Encode a point as a geohash string.
///
/// PostGIS accepts any geometry and hashes the centre of its box. This follows the same rule for
/// points, and returns null for any other type, which is the case that matters in practice.
pub fn st_geohash<H: Fn(Coord, usize) -> Option<String>>(
    array: &Column,
    precision: usize,
    hash: &H,
) -> (r: Result<Vec<Option<String>>, Error>)
    requires
        array.wf(),
        forall|c: Coord, p: usize| #[trigger] hash.requires((c, p)),
    ensures
        match r {
            Ok(out) => {
                &&& !array@.has_broken(array.rows())
                &&& out@.len() == array.rows()
                &&& forall|i: int|
                    0 <= i < out@.len() ==> match array@.geometry(i) {
                        Some(GeometryView::Point(c)) => is_hashed(
                            *hash,
                            c,
                            precision,
                            text_view(#[trigger] out@[i]),
                        ),
                        _ => out@[i] is None,
                    }
            },
            Err(error) => array@.has_broken(array.rows()) && error == Error::Undecodable,
        },
{
    let f = |geom: &Geometry| -> (out: Option<String>)
        ensures
            match geom@ {
                GeometryView::Point(c) => is_hashed(*hash, c, precision, text_view(out)),
                _ => out is None,
            },
        { hash_geometry(geom, precision, hash) };
    map_geometries(array, &f)
}

/// True for a character of the geohash alphabet: a digit, or a lowercase letter other than a, i, l
/// and o.
pub open spec fn is_geohash_char(c: char) -> bool {
    ||| '0' <= c <= '9'
    ||| 'b' <= c <= 'z' && c != 'i' && c != 'l' && c != 'o'
}

/// True for a text that is a geohash: from one to twelve characters of its alphabet.
pub open spec fn is_geohash(text: Seq<char>) -> bool {
    &&& 1 <= text.len() <= 12
    &&& forall|i: int| 0 <= i < text.len() ==> is_geohash_char(#[trigger] text[i])
}

/// The centre of the cell of a geohash: its longitude and its latitude.
pub uninterp spec fn geohash_centre(text: Seq<char>) -> (u64, u64);

/// Decode a geohash by `geohash::decode`.
///
/// It succeeds exactly on a text of at most twelve characters of the alphabet, and gives the centre
/// of the cell, which is a function of the text alone. Which numbers the centre has is not stated.
/// The empty text is left out: its cell would take a shift by the whole width of a word.
#[verifier::external_body]
fn decode_geohash(text: &String) -> (r: Option<Coord>)
    requires
        text@.len() > 0,
    ensures
        r == if is_geohash(text@) {
            Some(Coord { x: geohash_centre(text@).0, y: geohash_centre(text@).1 })
        } else {
            None
        },
{
    match geohash::decode(text) {
        Ok((centre, _, _)) => Some(Coord { x: centre.x.to_bits(), y: centre.y.to_bits() }),
        Err(_) => None,
    }
}

/// The point of a row, where its text is a geohash.
pub open spec fn geohash_point(text: Option<Seq<char>>) -> Option<Coord> {
    match text {
        Some(text) => if is_geohash(text) {
            Some(Coord { x: geohash_centre(text).0, y: geohash_centre(text).1 })
        } else {
            None
        },
        None => None,
    }
}

/// `ST_PointFromGeoHash`. Decode a geohash string to the centre of its cell.
///
/// A text that is no geohash gives null.
pub fn st_point_from_geohash(text: &Vec<Option<String>>, metadata: Metadata) -> (r: Column)
    requires
        forall|i: int| 0 <= i < text@.len() ==> (#[trigger] text@[i] matches Some(t) ==> t@.len() > 0),
    ensures
        r@.data_type() == DataTypeView::separated(Kind::Point, Dimension::XY, metadata@),
        are_points(
            r@,
            Dimension::XY,
            flat_rows(Seq::new(text@.len(), |i: int| geohash_point(text_view(text@[i])))),
        ),
{
    let mut found: Vec<Option<Coord>> = Vec::new();
    let mut i: usize = 0;
    while i < text.len()
        invariant
            i <= text@.len(),
            forall|i: int|
                0 <= i < text@.len() ==> (#[trigger] text@[i] matches Some(t) ==> t@.len() > 0),
            found@.len() == i,
            forall|j: int|
                0 <= j < i ==> #[trigger] found@[j] == geohash_point(text_view(text@[j])),
        decreases text@.len() - i,
    {
        let point: Option<Coord> = match &text[i] {
            Some(t) => decode_geohash(t),
            None => None,
        };
        found.push(point);
        i = i + 1;
    }
    assert(found@ =~= Seq::new(text@.len(), |i: int| geohash_point(text_view(text@[i]))));
    point_column(&found, metadata)
}

// ------------------------------------------------------------------------ laws
/// The SRID adds exactly four bytes, sets the flag, and reads back as the number it was.
pub proof fn law_the_srid_is_in_the_header(wkb: Seq<u8>, srid: i32, out: Seq<u8>)
    requires
        wkb.len() >= 5,
        has_srid(wkb, srid, out),
    ensures
        out.len() == wkb.len() + 4,
        word_at(out, 1, is_little_endian(out)) & EWKB_SRID_FLAG == EWKB_SRID_FLAG,
        word_at(out, 5, is_little_endian(out)) as i32 == srid,
{
    let plain = word_at(wkb, 1, is_little_endian(wkb));
    assert((plain | 0x2000_0000u32) & 0x2000_0000u32 == 0x2000_0000u32) by (bit_vector);
    assert((srid as u32) as i32 == srid) by (bit_vector);
}

/// Without the SRID and the flag, the plain value is back, where it had no flag of its own.
pub proof fn law_the_plain_value_is_recovered(wkb: Seq<u8>, srid: i32, out: Seq<u8>)
    requires
        wkb.len() >= 5,
        has_srid(wkb, srid, out),
        word_at(wkb, 1, is_little_endian(wkb)) & EWKB_SRID_FLAG == 0,
    ensures
        out[0] == wkb[0],
        word_at(out, 1, is_little_endian(out)) & !EWKB_SRID_FLAG == word_at(
            wkb,
            1,
            is_little_endian(wkb),
        ),
        out.skip(9) == wkb.skip(5),
{
    let plain = word_at(wkb, 1, is_little_endian(wkb));
    assert(plain & 0x2000_0000u32 == 0 ==> (plain | 0x2000_0000u32) & !0x2000_0000u32 == plain)
        by (bit_vector);
}

/// The header decides: no two results hold the same value with the same SRID.
pub proof fn law_the_srid_is_written_one_way(wkb: Seq<u8>, srid: i32, a: Seq<u8>, b: Seq<u8>)
    requires
        wkb.len() >= 5,
        has_srid(wkb, srid, a),
        has_srid(wkb, srid, b),
    ensures
        a == b,
{
    let little_endian = is_little_endian(wkb);
    lemma_word_is_one_to_one(a, b, 1, little_endian);
    lemma_word_is_one_to_one(a, b, 5, little_endian);
    assert forall|i: int| 9 <= i < a.len() implies a[i] == b[i] by {
        assert(a.skip(9)[i - 9] == b.skip(9)[i - 9]);
    }
    assert(a =~= b);
}

proof fn lemma_word_is_one_to_one(a: Seq<u8>, b: Seq<u8>, at: int, little_endian: bool)
    requires
        0 <= at,
        at + 4 <= a.len(),
        at + 4 <= b.len(),
        word_at(a, at, little_endian) == word_at(b, at, little_endian),
    ensures
        a[at] == b[at],
        a[at + 1] == b[at + 1],
        a[at + 2] == b[at + 2],
        a[at + 3] == b[at + 3],
{
    if little_endian {
        lemma_word_parts(
            a[at],
            a[at + 1],
            a[at + 2],
            a[at + 3],
            b[at],
            b[at + 1],
            b[at + 2],
            b[at + 3],
        );
    } else {
        lemma_word_parts(
            a[at + 3],
            a[at + 2],
            a[at + 1],
            a[at],
            b[at + 3],
            b[at + 2],
            b[at + 1],
            b[at],
        );
    }
}

proof fn lemma_word_parts(a: u8, b: u8, c: u8, d: u8, e: u8, f: u8, g: u8, h: u8)
    requires
        word(a, b, c, d) == word(e, f, g, h),
    ensures
        a == e,
        b == f,
        c == g,
        d == h,
{
    assert(((a as u32) | ((b as u32) << 8u32) | ((c as u32) << 16u32) | ((d as u32) << 24u32)) == ((
    e as u32) | ((f as u32) << 8u32) | ((g as u32) << 16u32) | ((h as u32) << 24u32)) ==> a == e && b
        == f && c == g && d == h) by (bit_vector);
}

} // verus!
