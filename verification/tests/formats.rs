//! Formats, reprojection, and the rules of a call.

use geoarrow_array::array::{GeometryArray, PointArray};
use geoarrow_array::builder::PointBuilder;
use geoarrow_array::cast::{to_wkb, to_wkt};
use geoarrow_array::GeoArrowArray;
use geoarrow_schema::{Dimension as GeoDimension, PointType};
use spatial_kernels::accessor::Ordinate;
use spatial_kernels::affine::{Output, move_geometry};
use spatial_kernels::call::{
    Argument, Constant, IndexedComponent, ParseFormat, Radius, Relation, accepts_make_line,
    accepts_make_polygon, all_scalar, argument_counts, check_same_crs, collapses, constant_i32,
    distance_predicate_names, distance_radius, geohash_precision, line_end_names, make_point_type,
    nearest_names, nearest_output_type, ordinate_sql_name, parameter_rows, point_argument,
    position_argument, relate_gives_boolean, relation, require_constant_i32, row_count,
    set_srid_target, transform_target, validity_names,
};
use spatial_kernels::column::{
    Body, Column, CoordBuffer, CoordType, Dimension, InterleavedCoordBuffer, Item, Kind,
    SeparatedCoordBuffer,
};
use spatial_kernels::component::LineEnd;
use spatial_kernels::crs::{Metadata, srid_of, st_set_srid, with_srid};
use spatial_kernels::edit::VertexEdit;
use spatial_kernels::error::Error;
use spatial_kernels::geometry::{Coord, Geometry, Polygon};
use spatial_kernels::io::{
    EWKB_SRID_FLAG, add_srid, from_parsed, parsed_type, st_as_ewkb, st_as_geojson, st_geohash,
    st_geom_from_geojson, geometry_from_object, st_geom_from_text, st_geom_from_wkb,
    st_point_from_geohash, wkb_type, wkt_type,
};
use spatial_kernels::layout::takes;
use spatial_kernels::reproject::{
    Conversion, epsg_name, output_type, st_transform, st_transform_with, transformation,
};

fn c(x: f64, y: f64) -> Coord {
    Coord { x: x.to_bits(), y: y.to_bits() }
}

fn xy(at: Coord) -> (f64, f64) {
    (f64::from_bits(at.x), f64::from_bits(at.y))
}

fn path(values: &[(f64, f64)]) -> Vec<Coord> {
    values.iter().map(|(x, y)| c(*x, *y)).collect()
}

fn buffer(values: &[Coord], layout: CoordType) -> CoordBuffer {
    match layout {
        CoordType::Separated => CoordBuffer::Separated(SeparatedCoordBuffer {
            buffers: [
                values.iter().map(|at| at.x).collect(),
                values.iter().map(|at| at.y).collect(),
                Vec::new(),
                Vec::new(),
            ],
            dim: Dimension::XY,
        }),
        CoordType::Interleaved => CoordBuffer::Interleaved(InterleavedCoordBuffer {
            coords: values.iter().flat_map(|at| [at.x, at.y]).collect(),
            dim: Dimension::XY,
        }),
    }
}

fn column(body: Body, valid: Vec<bool>) -> Column {
    let validity = if valid.iter().all(|ok| *ok) { None } else { Some(valid) };
    Column { body, validity, metadata: Metadata::default() }
}

fn points(values: &[Option<(f64, f64)>], layout: CoordType) -> Column {
    let coords: Vec<Coord> = values
        .iter()
        .map(|value| match value {
            Some((x, y)) => c(*x, *y),
            None => c(f64::NAN, f64::NAN),
        })
        .collect();
    column(
        Body::Point { coords: buffer(&coords, layout) },
        values.iter().map(|value| value.is_some()).collect(),
    )
}

fn lines(values: &[Option<Vec<Coord>>], layout: CoordType) -> Column {
    let mut coords: Vec<Coord> = Vec::new();
    let mut geom_offsets: Vec<i32> = vec![0];
    for value in values {
        if let Some(line) = value {
            coords.extend(line.iter().copied());
        }
        geom_offsets.push(coords.len() as i32);
    }
    column(
        Body::LineString { coords: buffer(&coords, layout), geom_offsets },
        values.iter().map(|value| value.is_some()).collect(),
    )
}

fn mixed(values: Vec<Option<Geometry>>) -> Column {
    let valid: Vec<bool> = values.iter().map(|value| value.is_some()).collect();
    let items: Vec<Option<Item>> = values
        .into_iter()
        .map(|value| {
            Some(Item {
                geometry: value.unwrap_or(Geometry::MultiPoint(Vec::new())),
                dim: Dimension::XY,
                z: 0,
                m: 0,
            })
        })
        .collect();
    column(
        Body::Rows {
            kind: Kind::Geometry,
            dimension: None,
            coord_type: Some(CoordType::Separated),
            items,
        },
        valid,
    )
}

fn to_geo_coord(at: &Coord) -> geo::Coord<f64> {
    geo::Coord { x: f64::from_bits(at.x), y: f64::from_bits(at.y) }
}

fn to_geo_line(line: &[Coord]) -> geo::LineString<f64> {
    geo::LineString::new(line.iter().map(to_geo_coord).collect())
}

fn to_geo_polygon(area: &Polygon) -> geo::Polygon<f64> {
    geo::Polygon::new(
        to_geo_line(&area.exterior),
        area.interiors.iter().map(|ring| to_geo_line(ring)).collect(),
    )
}

fn to_geo_polygons(areas: &[Polygon]) -> geo::MultiPolygon<f64> {
    geo::MultiPolygon::new(areas.iter().map(to_geo_polygon).collect())
}

fn to_geo(geom: &Geometry) -> geo::Geometry<f64> {
    match geom {
        Geometry::Point(at) => geo::Geometry::Point(to_geo_coord(at).into()),
        Geometry::Line(a, b) => {
            geo::Geometry::Line(geo::Line::new(to_geo_coord(a), to_geo_coord(b)))
        }
        Geometry::LineString(line) => geo::Geometry::LineString(to_geo_line(line)),
        Geometry::Polygon(area) => geo::Geometry::Polygon(to_geo_polygon(area)),
        Geometry::MultiPoint(list) => geo::Geometry::MultiPoint(geo::MultiPoint::new(
            list.iter().map(|at| to_geo_coord(at).into()).collect(),
        )),
        Geometry::MultiLineString(list) => geo::Geometry::MultiLineString(
            geo::MultiLineString::new(list.iter().map(|line| to_geo_line(line)).collect()),
        ),
        Geometry::MultiPolygon(areas) => geo::Geometry::MultiPolygon(to_geo_polygons(areas)),
        Geometry::GeometryCollection(parts) => geo::Geometry::GeometryCollection(
            geo::GeometryCollection::new_from(parts.iter().map(to_geo).collect()),
        ),
        Geometry::Rect(a, b) => {
            geo::Geometry::Rect(geo::Rect::new(to_geo_coord(a), to_geo_coord(b)))
        }
        Geometry::Triangle(a, b, d) => geo::Geometry::Triangle(geo::Triangle::new(
            to_geo_coord(a),
            to_geo_coord(b),
            to_geo_coord(d),
        )),
    }
}

fn from_geo_coord(at: geo::Coord<f64>) -> Coord {
    c(at.x, at.y)
}

fn from_geo_line(line: &geo::LineString<f64>) -> Vec<Coord> {
    line.0.iter().map(|at| from_geo_coord(*at)).collect()
}

fn from_geo_polygon(area: &geo::Polygon<f64>) -> Polygon {
    Polygon {
        exterior: from_geo_line(area.exterior()),
        interiors: area.interiors().iter().map(from_geo_line).collect(),
    }
}

fn from_geo_polygons(areas: &geo::MultiPolygon<f64>) -> Vec<Polygon> {
    areas.0.iter().map(from_geo_polygon).collect()
}

fn from_geo(geom: &geo::Geometry<f64>) -> Geometry {
    match geom {
        geo::Geometry::Point(at) => Geometry::Point(from_geo_coord(at.0)),
        geo::Geometry::Line(line) => {
            Geometry::Line(from_geo_coord(line.start), from_geo_coord(line.end))
        }
        geo::Geometry::LineString(line) => Geometry::LineString(from_geo_line(line)),
        geo::Geometry::Polygon(area) => Geometry::Polygon(from_geo_polygon(area)),
        geo::Geometry::MultiPoint(list) => {
            Geometry::MultiPoint(list.0.iter().map(|at| from_geo_coord(at.0)).collect())
        }
        geo::Geometry::MultiLineString(list) => {
            Geometry::MultiLineString(list.0.iter().map(from_geo_line).collect())
        }
        geo::Geometry::MultiPolygon(areas) => Geometry::MultiPolygon(from_geo_polygons(areas)),
        geo::Geometry::GeometryCollection(parts) => {
            Geometry::GeometryCollection(parts.0.iter().map(from_geo).collect())
        }
        geo::Geometry::Rect(area) => {
            Geometry::Rect(from_geo_coord(area.min()), from_geo_coord(area.max()))
        }
        geo::Geometry::Triangle(area) => Geometry::Triangle(
            from_geo_coord(area.v1()),
            from_geo_coord(area.v2()),
            from_geo_coord(area.v3()),
        ),
    }
}
fn sample_points() -> Column {
    points(&[Some((1.5, 2.5)), None, Some((-3.0, 4.0))], CoordType::Separated)
}

fn write(geom: &Geometry) -> Option<Vec<u8>> {
    let mut bytes = Vec::new();
    wkb::writer::write_geometry(&mut bytes, &to_geo(geom), &Default::default()).ok()?;
    Some(bytes)
}

/// The plain Well-Known Binary of a column.
fn plain_wkb(array: &Column) -> Vec<Option<Vec<u8>>> {
    (0..array.len())
        .map(|row| array.geometry_at(row).unwrap().map(|geom| write(&geom).unwrap()))
        .collect()
}

fn to_json(geom: &Geometry) -> String {
    geojson::GeometryValue::from(&to_geo(geom)).to_string()
}

fn from_json(object: geojson::GeometryValue) -> Option<Geometry> {
    let geom: geo::Geometry<f64> = geo::Geometry::try_from(object).ok()?;
    Some(from_geo(&geom))
}

fn hash(at: Coord, precision: usize) -> Option<String> {
    geohash::encode(to_geo_coord(&at), precision).ok()
}

// -------------------------------------------------------------------------- io
#[test]
fn as_geojson_round_trips() {
    let array = sample_points();
    let json = st_as_geojson(&array, &to_json).unwrap();
    assert!(json[0].as_ref().unwrap().contains("\"Point\""));
    assert!(json[1].is_none());
    let parsed = st_geom_from_geojson(&json, &from_json).unwrap();
    let back = st_as_geojson(&mixed(parsed), &to_json).unwrap();
    assert_eq!(json[0], back[0]);
}

/// EWKB must add exactly four bytes and set the SRID flag.
#[test]
fn as_ewkb_carries_the_srid() {
    let array = sample_points();
    let stamped = st_set_srid(&array, 4326);
    let plain = plain_wkb(&array);
    let extended = st_as_ewkb(&stamped.data_type(), plain_wkb(&stamped));
    let bytes = extended[0].as_ref().unwrap();
    assert_eq!(bytes.len(), plain[0].as_ref().unwrap().len() + 4);
    assert!(extended[1].is_none());
    assert_eq!(bytes[0], 1, "little endian");
    let type_word = u32::from_le_bytes(bytes[1..5].try_into().unwrap());
    assert_ne!(type_word & EWKB_SRID_FLAG, 0, "the SRID flag must be set");
    let srid = i32::from_le_bytes(bytes[5..9].try_into().unwrap());
    assert_eq!(srid, 4326);
    assert_eq!(&bytes[9..], &plain[0].as_ref().unwrap()[5..]);
}

#[test]
fn as_ewkb_without_a_srid_is_plain_wkb() {
    let array = sample_points();
    assert_eq!(st_as_ewkb(&array.data_type(), plain_wkb(&array))[0], plain_wkb(&array)[0]);
}

#[test]
fn the_header_follows_the_byte_order() {
    let big = add_srid(&vec![0, 0, 0, 0, 1, 7, 8], -2).unwrap();
    assert_eq!(big, vec![0, 0x20, 0, 0, 1, 0xff, 0xff, 0xff, 0xfe, 7, 8]);
    let little = add_srid(&vec![1, 1, 0, 0, 0, 7], 258).unwrap();
    assert_eq!(little, vec![1, 1, 0, 0, 0x20, 2, 1, 0, 0, 7]);
    assert_eq!(add_srid(&vec![1, 1, 0, 0], 4326), None);
}

fn as_parsed(array: GeometryArray, _: Metadata) -> GeometryArray {
    array
}

fn wkt_points() -> PointArray {
    let (p0, p1) = (geo::Point::new(1.5, 2.5), geo::Point::new(-3.0, 4.0));
    let kind = PointType::new(GeoDimension::XY, Default::default());
    PointBuilder::from_nullable_points([Some(&p0), None, Some(&p1)].into_iter(), kind).finish()
}

fn texts_of(array: &dyn GeoArrowArray) -> Vec<Option<String>> {
    let text = to_wkt::<i32>(array).unwrap();
    text.inner().iter().map(|value| value.map(str::to_string)).collect()
}

fn bytes_of(array: &dyn GeoArrowArray) -> Vec<Option<Vec<u8>>> {
    let binary = to_wkb::<i32>(array).unwrap();
    binary.inner().iter().map(|value| value.map(<[u8]>::to_vec)).collect()
}

fn read_text(text: &str) -> Result<Vec<Option<String>>, Error> {
    let parsed = st_geom_from_text(&vec![Some(text.to_string())], Metadata::default(), &as_parsed)?;
    Ok(texts_of(&parsed))
}

#[test]
fn as_text_round_trips() {
    let text = texts_of(&wkt_points());
    assert!(text[0].as_ref().unwrap().starts_with("POINT"));
    assert!(text[1].is_none());

    let parsed = st_geom_from_text(&text, Metadata::default(), &as_parsed).unwrap();
    let back = texts_of(&parsed);
    assert_eq!(text[0], back[0]);
    assert!(back[1].is_none());
    assert_eq!(text, back);
}

#[test]
fn as_binary_round_trips() {
    let binary = bytes_of(&wkt_points());
    let parsed = st_geom_from_wkb(&binary, Metadata::default(), &as_parsed).unwrap();
    let back = bytes_of(&parsed);

    assert_eq!(binary[0], back[0]);
    assert!(back[1].is_none());
    assert_eq!(binary, back);
}

/// The reader accepts what the writer produced, SRID header and all.
#[test]
fn ewkb_parses_back() {
    let stamped = st_set_srid(&sample_points(), 4326);
    let extended = st_as_ewkb(&stamped.data_type(), plain_wkb(&stamped));

    let parsed = st_geom_from_wkb(&extended, Metadata::default(), &as_parsed).unwrap();
    let text = texts_of(&parsed);
    assert!(text[0].as_ref().unwrap().starts_with("POINT"));
    // The embedded SRID is dropped, as the module documentation says.
    assert!(parsed.data_type().metadata().crs().crs_value().is_none());
    assert_eq!(srid_of(&parsed_type(Metadata::default())), 0);
}

#[test]
fn text_is_read_by_its_ordinates() {
    assert_eq!(read_text("point z (1 2 3)").unwrap()[0].as_deref(), Some("POINT Z(1 2 3)"));
    assert_eq!(read_text("LINESTRING(0 0,1 1)").unwrap()[0].as_deref(), Some("LINESTRING(0 0,1 1)"));
    let area = "MULTIPOLYGON(((0 0,1 0,1 1,0 0)),((5 5,6 5,6 6,5 5)))";
    assert_eq!(read_text(area).unwrap()[0].as_deref(), Some(area));
    let parts = "GEOMETRYCOLLECTION(POINT(1 2),LINESTRING(0 0,1 1))";
    assert_eq!(read_text(parts).unwrap()[0].as_deref(), Some(parts));
}

#[test]
fn text_that_holds_no_geometry_is_an_error() {
    for bad in ["", "nonsense", "POINT(1)", "POINT(1 2", "((((((((", "LINESTRING(0 0,x 1)"] {
        assert_eq!(read_text(bad), Err(Error::External), "{bad}");
    }
    // What follows the geometry is not read.
    assert_eq!(read_text("POINT EMPTY ((((((").unwrap().len(), 1);
    assert_eq!(read_text("POINT(1 2) ((((((").unwrap()[0].as_deref(), Some("POINT(1 2)"));
}

#[test]
fn a_mixed_column_takes_no_nested_collection() {
    let nested = "GEOMETRYCOLLECTION(GEOMETRYCOLLECTION(POINT(1 2)),POINT(3 4))";
    assert_eq!(read_text(nested), Err(Error::External));
    let deep = format!("{}POINT(1 2){}", "GEOMETRYCOLLECTION(".repeat(9000), ")".repeat(9000));
    assert_eq!(read_text(&deep), Err(Error::External));
}

#[test]
fn a_mixed_column_takes_parts_with_the_same_ordinates() {
    let same = "GEOMETRYCOLLECTION Z(POINT Z(1 2 3),POINT Z(4 5 6))";
    assert_eq!(read_text(same).unwrap()[0].as_deref(), Some(same));
    assert!(read_text("GEOMETRYCOLLECTION Z(POINT Z(1 2 3),POINT EMPTY)").is_ok());
    let single = read_text("GEOMETRYCOLLECTION(POINT Z(1 2 3))").unwrap();
    assert_eq!(single[0].as_deref(), Some("POINT Z(1 2 3)"));
    for bad in [
        "GEOMETRYCOLLECTION Z(POINT Z(1 2 3),POINT(4 5))",
        "GEOMETRYCOLLECTION(LINESTRING(0 0,1 1),POINT M(1 2 3))",
        "MULTIPOLYGON(EMPTY,((0 0,1 0,1 1,0 0)))",
    ] {
        assert_eq!(read_text(bad), Err(Error::External), "{bad}");
    }
}

#[test]
fn broken_binary_is_an_error() {
    let point = write(&Geometry::Point(c(1.0, 2.0))).unwrap();
    let read = |bytes: &[u8]| {
        let values = vec![None, Some(bytes.to_vec())];
        st_geom_from_wkb(&values, Metadata::default(), &as_parsed).map(|array| bytes_of(&array))
    };
    assert_eq!(read(&point).unwrap(), vec![None, Some(point.clone())]);
    assert_eq!(read(&point[..20]), Err(Error::External));
    assert_eq!(read(&[]), Err(Error::External));
    assert_eq!(read(&[2, 1, 0, 0, 0]), Err(Error::External));
    // A multi point whose only point claims an SRID that it has no room for.
    let mut multi = vec![1, 4, 0, 0, 0, 1, 0, 0, 0, 1, 1, 0, 0, 0x20];
    multi.extend([0u8; 16]);
    assert_eq!(read(&multi), Err(Error::External));
    assert!(matches!(from_parsed(None, Metadata::default(), &as_parsed), Err(Error::External)));
}

#[test]
fn every_plain_geometry_can_be_taken() {
    let ring: &[(f64, f64)] = &[(0.0, 0.0), (4.0, 0.0), (4.0, 4.0), (0.0, 0.0)];
    let area = || Polygon { exterior: path(ring), interiors: vec![path(ring)] };
    for geom in [
        Geometry::Point(c(1.0, 2.0)),
        Geometry::LineString(path(ring)),
        Geometry::Polygon(area()),
        Geometry::MultiPoint(path(ring)),
        Geometry::MultiLineString(vec![path(ring), path(ring)]),
        Geometry::MultiPolygon(vec![area(), area()]),
        Geometry::GeometryCollection(vec![Geometry::Point(c(1.0, 2.0)), Geometry::Polygon(area())]),
    ] {
        let bytes = write(&geom).unwrap();
        assert!(takes(&bytes));
        assert!(!takes(&bytes[..bytes.len() - 1]));
        let values = vec![Some(bytes.clone())];
        let parsed = st_geom_from_wkb(&values, Metadata::default(), &as_parsed).unwrap();
        assert_eq!(bytes_of(&parsed)[0], Some(bytes));
    }
}

#[test]
fn geohash_round_trips_to_the_cell_centre() {
    let array = sample_points();
    let hashes = st_geohash(&array, 9, &hash).unwrap();
    assert_eq!(hashes[0].as_ref().unwrap().len(), 9);
    assert!(hashes[1].is_none());
    let back = st_point_from_geohash(&hashes, Metadata::default());
    match back.geometry_at(0).unwrap() {
        Some(Geometry::Point(at)) => {
            let (x, y) = xy(at);
            // Nine characters give roughly five metres of precision.
            assert!((x - 1.5).abs() < 1e-3, "x was {x}");
            assert!((y - 2.5).abs() < 1e-3, "y was {y}");
        }
        other => panic!("expected a point, got {other:?}"),
    }
    assert!(back.geometry_at(1).unwrap().is_none());
}

#[test]
fn a_geohash_is_decoded_to_its_exact_centre() {
    let texts = vec![
        Some("9q60y".to_string()),
        Some("no hash".to_string()),
        Some("9Q60Y".to_string()),
        Some("0123456789bcd".to_string()),
        None,
    ];
    let back = st_point_from_geohash(&texts, Metadata::default());
    assert_eq!(
        back.geometry_at(0).unwrap(),
        Some(Geometry::Point(c(-120.65185546875, 35.31005859375)))
    );
    for row in 1..5 {
        assert!(back.geometry_at(row).unwrap().is_none(), "row {row}");
    }
}

#[test]
fn geohash_of_a_non_point_is_null() {
    let array = lines(&[Some(path(&[(0.0, 0.0), (1.0, 1.0)]))], CoordType::Separated);
    assert!(st_geohash(&array, 6, &hash).unwrap()[0].is_none());
}

#[test]
fn geojson_is_read_by_its_coordinates() {
    let text = vec![
        Some("{\"type\":\"Point\",\"coordinates\":[1.5,-2.5]}".to_string()),
        None,
        Some("{\"type\":\"LineString\",\"coordinates\":[[0,0],[3,4]]}".to_string()),
    ];
    let parsed = st_geom_from_geojson(&text, &from_json).unwrap();
    assert_eq!(parsed.len(), 3);
    assert_eq!(parsed[0], Some(Geometry::Point(c(1.5, -2.5))));
    assert_eq!(parsed[1], None);
    assert_eq!(parsed[2], Some(Geometry::LineString(vec![c(0.0, 0.0), c(3.0, 4.0)])));
}

#[test]
fn an_object_without_a_geometry_is_an_error() {
    let none = |_: geojson::GeometryValue| None;
    let text = vec![Some("{\"type\":\"Point\",\"coordinates\":[1,2]}".to_string())];
    assert!(matches!(st_geom_from_geojson(&text, &none), Err(Error::External)));
    assert!(matches!(geometry_from_object(None, &from_json), Err(Error::External)));
}

#[test]
fn bad_geojson_is_an_error() {
    let text = vec![None, Some("not json".to_string())];
    assert!(matches!(st_geom_from_geojson(&text, &from_json), Err(Error::External)));
}

#[test]
fn the_serialized_types_carry_no_dimension() {
    assert_eq!(wkb_type(Metadata::default()).kind, Kind::Wkb);
    assert_eq!(wkt_type(Metadata::default()).kind, Kind::Wkt);
    assert!(wkb_type(Metadata::default()).dimension.is_none());
    assert_eq!(parsed_type(Metadata::default()).kind, Kind::Geometry);
}

// ------------------------------------------------------------------- reproject
const RADIUS: f64 = 6_378_137.0;

fn to_mercator(at: Coord) -> Coord {
    let (lon, lat) = xy(at);
    let half = std::f64::consts::FRAC_PI_4 + lat.to_radians() / 2.0;
    c(RADIUS * lon.to_radians(), RADIUS * half.tan().ln())
}

fn from_mercator(at: Coord) -> Coord {
    let (x, y) = xy(at);
    let half = (y / RADIUS).exp().atan() - std::f64::consts::FRAC_PI_4;
    c((x / RADIUS).to_degrees(), (half * 2.0).to_degrees())
}

type Batch = Box<dyn Fn(&Vec<Coord>) -> Option<Vec<Coord>>>;
type Whole = Box<dyn Fn(&Geometry) -> Option<Geometry>>;

/// The conversions between longitude and latitude and Web Mercator.
fn open(from: &String, to: &String) -> Option<Conversion<Batch, Whole>> {
    let step: fn(Coord) -> Coord = match (from.as_str(), to.as_str()) {
        ("EPSG:4326", "EPSG:3857") => to_mercator,
        ("EPSG:3857", "EPSG:4326") => from_mercator,
        _ => return None,
    };
    Some(Conversion {
        batch: Box::new(move |values: &Vec<Coord>| {
            Some(values.iter().map(|at| step(*at)).collect())
        }),
        whole: Box::new(move |geom: &Geometry| Some(move_geometry(geom, &step))),
    })
}

/// London, in longitude and latitude.
fn london(layout: CoordType) -> Column {
    st_set_srid(&points(&[Some((-0.1278, 51.5074))], layout), 4326)
}

fn native(output: Output) -> Column {
    match output {
        Output::Native(column) => column,
        Output::Mixed(_) => panic!("expected a native column"),
    }
}

fn first_point(array: &Column) -> (f64, f64) {
    match array.geometry_at(0).unwrap() {
        Some(Geometry::Point(at)) => xy(at),
        other => panic!("expected a point, got {other:?}"),
    }
}

/// Web Mercator metres for London are roughly (-14 200, 6 711 000).
#[test]
fn transform_to_web_mercator() {
    for layout in [CoordType::Separated, CoordType::Interleaved] {
        let moved = native(st_transform(&london(layout), 3857, &open).unwrap());
        let (x, y) = first_point(&moved);
        assert!((-14_300.0..-14_100.0).contains(&x), "x was {x}");
        assert!((6_710_000.0..6_712_000.0).contains(&y), "y was {y}");
    }
}

/// The output column must carry the target SRID, not the source one.
#[test]
fn the_output_is_restamped() {
    let array = london(CoordType::Separated);
    assert_eq!(srid_of(&array.data_type()), 4326);
    let moved = native(st_transform(&array, 3857, &open).unwrap());
    assert_eq!(srid_of(&moved.data_type()), 3857);
}

/// There and back again must land where it started.
#[test]
fn a_round_trip_returns_the_input() {
    let array = london(CoordType::Separated);
    let (before_x, before_y) = first_point(&array);
    let there = native(st_transform(&array, 3857, &open).unwrap());
    let back = native(st_transform(&there, 4326, &open).unwrap());
    let (after_x, after_y) = first_point(&back);
    assert!((after_x - before_x).abs() < 1e-9, "x drifted to {after_x}");
    assert!((after_y - before_y).abs() < 1e-9, "y drifted to {after_y}");
    assert_eq!(srid_of(&back.data_type()), 4326);
}

/// A transform moves coordinates and keeps the ring structure, so the offsets survive.
#[test]
fn reproject_offsets_survive_the_transform() {
    let array = st_set_srid(
        &lines(
            &[
                Some(path(&[(-0.1278, 51.5074), (2.3522, 48.8566), (13.405, 52.52)])),
                Some(path(&[(4.9041, 52.3676), (12.4964, 41.9028)])),
            ],
            CoordType::Separated,
        ),
        4326,
    );
    let moved = native(st_transform(&array, 3857, &open).unwrap());
    match (&moved.body, &array.body) {
        (
            Body::LineString { geom_offsets: after, .. },
            Body::LineString { geom_offsets: before, .. },
        ) => assert_eq!(
            after, before,
            "the offsets describe nesting, which a reprojection does not change"
        ),
        _ => panic!("expected line strings"),
    }
    assert_eq!(moved.len(), 2);
}

/// Without a source SRID there is nothing to transform from.
#[test]
fn an_unstamped_column_is_an_error() {
    let array = points(&[Some((0.0, 0.0))], CoordType::Separated);
    let err = st_transform(&array, 3857, &open).err().unwrap();
    assert_eq!(err, Error::NoSourceSrid);
    assert!(err.advice().contains("ST_SetSRID"), "got: {err:?}");
    let stamped = london(CoordType::Separated);
    assert_eq!(st_transform(&stamped, 0, &open).err(), Some(Error::NoTargetSrid));
}

#[test]
fn an_unknown_srid_is_an_error() {
    let err = st_transform(&london(CoordType::Separated), 999_999, &open).err();
    assert_eq!(err, Some(Error::External));
}

/// The transformation serves every batch. That is why this function is public.
#[test]
fn one_transformation_serves_many_batches() {
    let conversion = transformation(4326, 3857, &open).ok().unwrap();
    let array = london(CoordType::Separated);
    let first = native(st_transform_with(&array, &conversion, 3857).unwrap());
    let second = native(st_transform_with(&array, &conversion, 3857).unwrap());
    assert_eq!(first_point(&first), first_point(&second));
}

#[test]
fn a_mixed_column_is_transformed_row_by_row() {
    let array = st_set_srid(&mixed(vec![Some(Geometry::Point(c(0.0, 0.0))), None]), 4326);
    match st_transform(&array, 3857, &open).unwrap() {
        Output::Mixed(rows) => {
            assert!(matches!(rows[0], Some(Geometry::Point(_))));
            assert!(rows[1].is_none());
        }
        Output::Native(_) => panic!("a mixed column has no buffer"),
    }
    let output = output_type(&array.data_type(), 3857);
    assert_eq!(output.kind, Kind::Geometry);
    assert_eq!(srid_of(&output), 3857);
    assert_eq!(epsg_name(-7), "EPSG:-7");
}

// ------------------------------------------------------------------------ call
#[test]
fn integers_are_read_from_constants_alone() {
    let arguments = vec![
        None,
        Some(Constant::Int64(Some(4326))),
        Some(Constant::Int32(None)),
        Some(Constant::Int64(Some(1 << 40))),
        Some(Constant::Utf8(None)),
        Some(Constant::Null),
    ];
    assert_eq!(constant_i32(&arguments, 0), None);
    assert_eq!(constant_i32(&arguments, 1), Some(Some(4326)));
    assert_eq!(constant_i32(&arguments, 2), Some(None));
    assert_eq!(constant_i32(&arguments, 3), Some(None), "it does not fit");
    assert_eq!(constant_i32(&arguments, 4), None);
    assert_eq!(constant_i32(&arguments, 5), Some(None));
    assert_eq!(constant_i32(&arguments, 6), None);
    assert_eq!(set_srid_target(&arguments), Ok(4326));
    assert_eq!(transform_target(&arguments), Ok(4326));
    let nulls = vec![None, Some(Constant::Null)];
    assert_eq!(set_srid_target(&nulls), Ok(0));
    assert_eq!(transform_target(&nulls), Err(Error::NullTargetSrid));
    let columns = vec![None, None];
    assert_eq!(
        set_srid_target(&columns),
        Err(Error::NeedsConstant { function: "ST_SetSRID", argument: 2 })
    );
    assert_eq!(
        transform_target(&columns),
        Err(Error::NeedsConstant { function: "ST_Transform", argument: 2 })
    );
    assert_eq!(
        require_constant_i32("ST_GeoHash", 1, &Argument::Column),
        Err(Error::NeedsConstant { function: "ST_GeoHash", argument: 2 })
    );
}

#[test]
fn a_geohash_precision_has_a_default_and_a_range() {
    let scalar = |n: i32| Argument::Scalar(Constant::Int32(Some(n)));
    assert_eq!(geohash_precision(None), Ok(20));
    assert_eq!(geohash_precision(Some(&Argument::Scalar(Constant::Null))), Ok(20));
    assert_eq!(geohash_precision(Some(&scalar(9))), Ok(9));
    assert_eq!(
        geohash_precision(Some(&scalar(21))),
        Err(Error::GeoHashPrecision { precision: 21 })
    );
    assert_eq!(
        geohash_precision(Some(&scalar(0))),
        Err(Error::GeoHashPrecision { precision: 0 })
    );
    assert!(geohash_precision(Some(&Argument::Column)).is_err());
}

#[test]
fn a_radius_is_one_number_for_the_batch() {
    let half = 0.5f64.to_bits();
    let radius = |constant: Constant| distance_radius(false, &Argument::Scalar(constant));
    assert_eq!(radius(Constant::Float64(Some(half))), Ok(Radius::Number(half)));
    assert_eq!(radius(Constant::Int64(Some(7))), Ok(Radius::Integer(7)));
    assert_eq!(radius(Constant::Null), Ok(Radius::Missing));
    assert_eq!(
        distance_radius(true, &Argument::Column),
        Err(Error::NeedsConstant { function: "ST_DFullyWithin", argument: 3 })
    );
}

#[test]
fn a_relation_is_a_matrix_or_a_pattern() {
    assert!(matches!(relation(None), Ok(Relation::Matrix)));
    let pattern = Argument::Scalar(Constant::Utf8(Some("T********".to_string())));
    match relation(Some(&pattern)) {
        Ok(Relation::Pattern(text)) => assert_eq!(text, "T********"),
        other => panic!("unexpected {other:?}"),
    }
    let missing = Argument::Scalar(Constant::Utf8(None));
    assert!(matches!(relation(Some(&missing)), Ok(Relation::Missing)));
    assert!(relation(Some(&Argument::Column)).is_err());
    assert!(relate_gives_boolean(3) && !relate_gives_boolean(2));
}

#[test]
fn constants_stay_one_value() {
    let constant = Argument::Scalar(Constant::Other);
    assert_eq!(parameter_rows(&constant, 8), 1);
    assert_eq!(parameter_rows(&Argument::Column, 8), 8);
    assert!(all_scalar(&vec![constant]));
    assert!(!all_scalar(&vec![Argument::Scalar(Constant::Null), Argument::Column]));
    assert!(collapses(true, 1) && !collapses(true, 2) && !collapses(false, 1));
    assert_eq!(row_count(0), 1);
    assert_eq!(row_count(5), 5);
}

#[test]
fn mixed_systems_are_refused() {
    let plain = sample_points().data_type();
    let stamped = with_srid(&plain, 4326);
    assert!(check_same_crs("ST_Contains", &stamped, &with_srid(&plain, 4326)).is_ok());
    assert_eq!(
        check_same_crs("ST_Contains", &stamped, &plain).err(),
        Some(Error::MixedSystems { function: "ST_Contains" })
    );
}

#[test]
fn the_argument_order_follows_postgis() {
    assert_eq!(point_argument(VertexEdit::Add), Some(1));
    assert_eq!(point_argument(VertexEdit::Replace), Some(2));
    assert_eq!(point_argument(VertexEdit::Remove), None);
    assert_eq!(VertexEdit::all().map(position_argument), [2, 1, 1]);
    assert_eq!(VertexEdit::all().map(argument_counts), [(2, 3), (2, 2), (3, 3)]);
}

#[test]
fn types_are_checked_at_plan_time() {
    let point = sample_points().data_type();
    let line = lines(&[None], CoordType::Separated).data_type();
    let any = mixed(vec![None]).data_type();
    assert!(accepts_make_polygon(&line) && accepts_make_polygon(&any));
    assert!(!accepts_make_polygon(&point));
    assert!(accepts_make_line(&point, &point) && !accepts_make_line(&point, &line));
    assert_eq!(make_point_type(2).dimension, Some(Dimension::XY));
    assert_eq!(make_point_type(3).dimension, Some(Dimension::XYZ));
    assert_eq!(nearest_output_type(true, &any).kind, Kind::LineString);
    assert_eq!(nearest_output_type(false, &any).kind, Kind::Point);
    assert_eq!(IndexedComponent::GeometryN.output_type(&line).kind, Kind::Geometry);
    assert_eq!(IndexedComponent::PointN.output_type(&line).kind, Kind::Point);
    assert_eq!(ParseFormat::GeoHash.output_type().kind, Kind::Point);
    assert_eq!(ParseFormat::Wkt.output_type().kind, Kind::Geometry);
    assert!(ParseFormat::Wkb.reads_bytes() && !ParseFormat::GeoJson.reads_bytes());
}

#[test]
fn every_function_has_its_two_names() {
    assert_eq!(ParseFormat::GeoHash.names(), ("st_pointfromgeohash", "ST_PointFromGeoHash"));
    assert_eq!(IndexedComponent::PointN.names(), ("st_pointn", "ST_PointN"));
    assert_eq!(line_end_names(LineEnd::End), ("st_endpoint", "ST_EndPoint"));
    assert_eq!(distance_predicate_names(false), ("st_dwithin", "ST_DWithin"));
    assert_eq!(nearest_names(true), ("st_shortestline", "ST_ShortestLine"));
    assert_eq!(validity_names(true), ("st_isvalidreason", "ST_IsValidReason"));
    assert_eq!(ordinate_sql_name(Ordinate::M), "st_m");
    assert_eq!(Ordinate::X.function_name(), "ST_X");
}
