//! Columns: what is read out of them, and how new ones are laid out.

use geo::BoundingRect;
use geo::line_intersection::{LineIntersection, line_intersection};
use spatial_kernels::accessor::{
    Meeting, accepts_ordinate, is_simple, st_coord_dim, st_dimension, st_geometry_type, st_is_closed, st_is_empty,
    st_is_ring, st_is_simple, st_m, st_npoints, st_num_geometries, st_num_interior_rings,
    st_num_points, st_x, st_y, st_z,
};
use spatial_kernels::affine::{Affine, Motion, Output, affine};
use spatial_kernels::bbox::{Bbox, bbox_of, fill_bboxes};
use spatial_kernels::column::{
    Body, Column, CoordBuffer, CoordType, Dimension, InterleavedCoordBuffer, Item, Kind,
    SeparatedCoordBuffer,
};
use spatial_kernels::component::{
    Index, LineEnd, line_string_output_type, point_output_type, st_exterior_ring, st_geometry_n,
    st_interior_ring_n, st_line_end, st_point_n,
};
use spatial_kernels::constructor::{
    line_string_type_for, polygon_type_for, st_make_envelope, st_make_line, st_make_point,
    st_make_polygon,
};
use spatial_kernels::crs::{Crs, CrsType, Json, JsonNumber, Metadata, srid_of, st_set_srid, st_srid};
use spatial_kernels::decimal::{i32_text, parse_i32};
use spatial_kernels::envelope::{
    Bound, bound, box_output_type, st_bbox_intersects, st_envelope, st_expand,
};
use spatial_kernels::error::Error;
use spatial_kernels::geometry::{Coord, Geometry, Polygon};
use spatial_kernels::materialize::{all_null, empty_geometry};
use spatial_kernels::transform::{st_flip_coordinates, st_force_2d, st_force_3d};

fn c(x: f64, y: f64) -> Coord {
    Coord { x: x.to_bits(), y: y.to_bits() }
}

fn xy(at: Coord) -> (f64, f64) {
    (f64::from_bits(at.x), f64::from_bits(at.y))
}

fn path(values: &[(f64, f64)]) -> Vec<Coord> {
    values.iter().map(|(x, y)| c(*x, *y)).collect()
}

fn polygon(rings: &[&[(f64, f64)]]) -> Polygon {
    Polygon {
        exterior: path(rings[0]),
        interiors: rings[1..].iter().map(|ring| path(ring)).collect(),
    }
}

fn buffer(values: &[Coord], layout: CoordType) -> CoordBuffer {
    match layout {
        CoordType::Separated => CoordBuffer::Separated(SeparatedCoordBuffer {
            buffers: [
                values.iter().map(|at| at.x).collect(),
                values.iter().map(|at| at.y).collect(),
                Vec::new(),
                Vec::new(),
            ],
            dim: Dimension::XY,
        }),
        CoordType::Interleaved => CoordBuffer::Interleaved(InterleavedCoordBuffer {
            coords: values.iter().flat_map(|at| [at.x, at.y]).collect(),
            dim: Dimension::XY,
        }),
    }
}

fn column(body: Body, valid: Vec<bool>) -> Column {
    let validity = if valid.iter().all(|ok| *ok) { None } else { Some(valid) };
    Column { body, validity, metadata: Metadata::default() }
}

fn points(values: &[Option<(f64, f64)>], layout: CoordType) -> Column {
    let coords: Vec<Coord> = values
        .iter()
        .map(|value| match value {
            Some((x, y)) => c(*x, *y),
            None => c(f64::NAN, f64::NAN),
        })
        .collect();
    column(
        Body::Point { coords: buffer(&coords, layout) },
        values.iter().map(|value| value.is_some()).collect(),
    )
}

fn lines(values: &[Option<Vec<Coord>>], layout: CoordType) -> Column {
    let mut coords: Vec<Coord> = Vec::new();
    let mut geom_offsets: Vec<i32> = vec![0];
    for value in values {
        if let Some(line) = value {
            coords.extend(line.iter().copied());
        }
        geom_offsets.push(coords.len() as i32);
    }
    column(
        Body::LineString { coords: buffer(&coords, layout), geom_offsets },
        values.iter().map(|value| value.is_some()).collect(),
    )
}

fn polygons(values: &[Option<Polygon>], layout: CoordType) -> Column {
    let mut coords: Vec<Coord> = Vec::new();
    let mut ring_offsets: Vec<i32> = vec![0];
    let mut geom_offsets: Vec<i32> = vec![0];
    for value in values {
        if let Some(area) = value {
            coords.extend(area.exterior.iter().copied());
            ring_offsets.push(coords.len() as i32);
            for ring in &area.interiors {
                coords.extend(ring.iter().copied());
                ring_offsets.push(coords.len() as i32);
            }
        }
        geom_offsets.push(ring_offsets.len() as i32 - 1);
    }
    column(
        Body::Polygon { coords: buffer(&coords, layout), geom_offsets, ring_offsets },
        values.iter().map(|value| value.is_some()).collect(),
    )
}

fn mixed(values: Vec<Option<Geometry>>) -> Column {
    let valid: Vec<bool> = values.iter().map(|value| value.is_some()).collect();
    let items: Vec<Option<Item>> = values
        .into_iter()
        .map(|value| {
            Some(Item {
                geometry: value.unwrap_or(Geometry::MultiPoint(Vec::new())),
                dim: Dimension::XY,
                z: 0,
                m: 0,
            })
        })
        .collect();
    column(
        Body::Rows {
            kind: Kind::Geometry,
            dimension: None,
            coord_type: Some(CoordType::Separated),
            items,
        },
        valid,
    )
}

fn number(value: Option<u64>) -> Option<f64> {
    value.map(f64::from_bits)
}

fn bits(values: &[f64]) -> Vec<Option<u64>> {
    values.iter().map(|value| Some(value.to_bits())).collect()
}
fn to_geo_coord(at: &Coord) -> geo::Coord<f64> {
    geo::Coord { x: f64::from_bits(at.x), y: f64::from_bits(at.y) }
}

fn to_geo_line(line: &[Coord]) -> geo::LineString<f64> {
    geo::LineString::new(line.iter().map(to_geo_coord).collect())
}

fn to_geo_polygon(area: &Polygon) -> geo::Polygon<f64> {
    geo::Polygon::new(
        to_geo_line(&area.exterior),
        area.interiors.iter().map(|ring| to_geo_line(ring)).collect(),
    )
}

fn to_geo_polygons(areas: &[Polygon]) -> geo::MultiPolygon<f64> {
    geo::MultiPolygon::new(areas.iter().map(to_geo_polygon).collect())
}

fn to_geo(geom: &Geometry) -> geo::Geometry<f64> {
    match geom {
        Geometry::Point(at) => geo::Geometry::Point(to_geo_coord(at).into()),
        Geometry::Line(a, b) => {
            geo::Geometry::Line(geo::Line::new(to_geo_coord(a), to_geo_coord(b)))
        }
        Geometry::LineString(line) => geo::Geometry::LineString(to_geo_line(line)),
        Geometry::Polygon(area) => geo::Geometry::Polygon(to_geo_polygon(area)),
        Geometry::MultiPoint(list) => geo::Geometry::MultiPoint(geo::MultiPoint::new(
            list.iter().map(|at| to_geo_coord(at).into()).collect(),
        )),
        Geometry::MultiLineString(list) => geo::Geometry::MultiLineString(
            geo::MultiLineString::new(list.iter().map(|line| to_geo_line(line)).collect()),
        ),
        Geometry::MultiPolygon(areas) => geo::Geometry::MultiPolygon(to_geo_polygons(areas)),
        Geometry::GeometryCollection(parts) => geo::Geometry::GeometryCollection(
            geo::GeometryCollection::new_from(parts.iter().map(to_geo).collect()),
        ),
        Geometry::Rect(a, b) => {
            geo::Geometry::Rect(geo::Rect::new(to_geo_coord(a), to_geo_coord(b)))
        }
        Geometry::Triangle(a, b, d) => geo::Geometry::Triangle(geo::Triangle::new(
            to_geo_coord(a),
            to_geo_coord(b),
            to_geo_coord(d),
        )),
    }
}

fn from_geo_coord(at: geo::Coord<f64>) -> Coord {
    c(at.x, at.y)
}

fn from_geo_line(line: &geo::LineString<f64>) -> Vec<Coord> {
    line.0.iter().map(|at| from_geo_coord(*at)).collect()
}

fn from_geo_polygon(area: &geo::Polygon<f64>) -> Polygon {
    Polygon {
        exterior: from_geo_line(area.exterior()),
        interiors: area.interiors().iter().map(from_geo_line).collect(),
    }
}

fn from_geo_polygons(areas: &geo::MultiPolygon<f64>) -> Vec<Polygon> {
    areas.0.iter().map(from_geo_polygon).collect()
}

fn from_geo(geom: &geo::Geometry<f64>) -> Geometry {
    match geom {
        geo::Geometry::Point(at) => Geometry::Point(from_geo_coord(at.0)),
        geo::Geometry::Line(line) => {
            Geometry::Line(from_geo_coord(line.start), from_geo_coord(line.end))
        }
        geo::Geometry::LineString(line) => Geometry::LineString(from_geo_line(line)),
        geo::Geometry::Polygon(area) => Geometry::Polygon(from_geo_polygon(area)),
        geo::Geometry::MultiPoint(list) => {
            Geometry::MultiPoint(list.0.iter().map(|at| from_geo_coord(at.0)).collect())
        }
        geo::Geometry::MultiLineString(list) => {
            Geometry::MultiLineString(list.0.iter().map(from_geo_line).collect())
        }
        geo::Geometry::MultiPolygon(areas) => Geometry::MultiPolygon(from_geo_polygons(areas)),
        geo::Geometry::GeometryCollection(parts) => {
            Geometry::GeometryCollection(parts.0.iter().map(from_geo).collect())
        }
        geo::Geometry::Rect(area) => {
            Geometry::Rect(from_geo_coord(area.min()), from_geo_coord(area.max()))
        }
        geo::Geometry::Triangle(area) => Geometry::Triangle(
            from_geo_coord(area.v1()),
            from_geo_coord(area.v2()),
            from_geo_coord(area.v3()),
        ),
    }
}
const LAYOUTS: [CoordType; 2] = [CoordType::Separated, CoordType::Interleaved];

fn line(values: &[(f64, f64)]) -> Geometry {
    Geometry::LineString(path(values))
}

fn geometry_of(array: &Column, row: usize) -> Option<Geometry> {
    array.geometry_at(row).unwrap()
}

fn point_of(array: &Column, row: usize) -> Option<(f64, f64)> {
    match geometry_of(array, row) {
        Some(Geometry::Point(at)) => Some(xy(at)),
        Some(other) => panic!("expected a point, got {other:?}"),
        None => None,
    }
}

fn line_of(array: &Column, row: usize) -> Option<Vec<(f64, f64)>> {
    match geometry_of(array, row) {
        Some(Geometry::LineString(line)) => Some(line.into_iter().map(xy).collect()),
        Some(other) => panic!("expected a line string, got {other:?}"),
        None => None,
    }
}

fn separated(array: &Column) -> &SeparatedCoordBuffer {
    match array.body.coords() {
        Some(CoordBuffer::Separated(coords)) => coords,
        _ => panic!("expected separated coordinates"),
    }
}

/// Points with three ordinates.
fn xyz_points(values: &[(f64, f64, f64)], layout: CoordType) -> Column {
    let coords = match layout {
        CoordType::Separated => CoordBuffer::Separated(SeparatedCoordBuffer {
            buffers: [
                values.iter().map(|v| v.0.to_bits()).collect(),
                values.iter().map(|v| v.1.to_bits()).collect(),
                values.iter().map(|v| v.2.to_bits()).collect(),
                Vec::new(),
            ],
            dim: Dimension::XYZ,
        }),
        CoordType::Interleaved => CoordBuffer::Interleaved(InterleavedCoordBuffer {
            coords: values
                .iter()
                .flat_map(|v| [v.0.to_bits(), v.1.to_bits(), v.2.to_bits()])
                .collect(),
            dim: Dimension::XYZ,
        }),
    };
    column(Body::Point { coords }, vec![true; values.len()])
}

/// Which pairs of segments meet, and where.
fn meetings(segments: &Vec<(Coord, Coord)>) -> Vec<Meeting> {
    let geo_lines: Vec<geo::Line<f64>> = segments
        .iter()
        .map(|(a, b)| geo::Line::new(to_geo_coord(a), to_geo_coord(b)))
        .collect();
    let mut out = Vec::new();
    for i in 0..geo_lines.len() {
        for j in i + 1..geo_lines.len() {
            let at = match line_intersection(geo_lines[i], geo_lines[j]) {
                Some(LineIntersection::SinglePoint { intersection, .. }) => Some(intersection),
                Some(LineIntersection::Collinear { .. }) => None,
                None => continue,
            };
            out.push(Meeting { first: i, second: j, at: at.map(|at| c(at.x, at.y)) });
        }
    }
    out
}

// -------------------------------------------------------------------- accessors
fn sample_points(layout: CoordType) -> Column {
    points(&[Some((1.0, 2.0)), None, Some((3.0, 4.0))], layout)
}

/// A mixed column with one geometry of each shape under test.
fn sample_mixed() -> Column {
    mixed(vec![
        Some(Geometry::Point(c(1.0, 2.0))),
        Some(line(&[(0.0, 0.0), (1.0, 1.0), (2.0, 0.0)])),
        Some(Geometry::Polygon(polygon(&[
            &[(0.0, 0.0), (4.0, 0.0), (4.0, 4.0), (0.0, 4.0), (0.0, 0.0)],
            &[(1.0, 1.0), (2.0, 1.0), (2.0, 2.0), (1.0, 1.0)],
        ]))),
        Some(Geometry::MultiPoint(path(&[(0.0, 0.0), (5.0, 5.0)]))),
    ])
}

#[test]
fn st_x_reads_the_x_buffer() {
    for layout in LAYOUTS {
        let array = sample_points(layout);
        let x = st_x(&array).unwrap();
        let y = st_y(&array).unwrap();
        assert_eq!(number(x[0]), Some(1.0));
        assert!(x[1].is_none());
        assert_eq!(number(x[2]), Some(3.0));
        assert_eq!(number(y[0]), Some(2.0));
    }
}

#[test]
fn st_z_is_null_in_two_dimensions() {
    let array = sample_points(CoordType::Separated);
    let z = st_z(&array).unwrap();
    assert_eq!(z.len(), 3);
    assert!((0..3).all(|i| z[i].is_none()));
    assert!((0..3).all(|i| st_m(&array).unwrap()[i].is_none()));
}

#[test]
fn st_z_reads_the_third_buffer() {
    for layout in LAYOUTS {
        let array = xyz_points(&[(1.0, 2.0, 3.0), (4.0, 5.0, 6.0)], layout);
        let z = st_z(&array).unwrap();
        assert_eq!(number(z[0]), Some(3.0));
        assert_eq!(number(z[1]), Some(6.0));
        // The measure is absent from XYZ.
        assert!(st_m(&array).unwrap()[0].is_none());
    }
}

#[test]
fn st_x_rejects_a_line_string_array() {
    let array = lines(&[Some(path(&[(0.0, 0.0), (1.0, 1.0)]))], CoordType::Separated);
    assert!(st_x(&array).is_err());
    assert!(!accepts_ordinate(&array.data_type()));
    assert!(matches!(
        st_x(&array),
        Err(Error::NeedsPoints { function: "ST_X", got: Kind::LineString })
    ));
}

#[test]
fn geometry_type_is_constant_for_a_typed_array() {
    let names = st_geometry_type(&sample_points(CoordType::Separated)).unwrap();
    assert_eq!(names[0], Some("ST_Point"));
    assert!(names[1].is_none(), "a null row stays null");
    assert_eq!(names[2], Some("ST_Point"));
}

#[test]
fn geometry_type_varies_in_a_mixed_array() {
    let names = st_geometry_type(&sample_mixed()).unwrap();
    assert_eq!(names[0], Some("ST_Point"));
    assert_eq!(names[1], Some("ST_LineString"));
    assert_eq!(names[2], Some("ST_Polygon"));
    assert_eq!(names[3], Some("ST_MultiPoint"));
}

#[test]
fn dimension_and_coord_dim() {
    let array = sample_mixed();
    let dims = st_dimension(&array).unwrap();
    assert_eq!(dims[0], Some(0), "point");
    assert_eq!(dims[1], Some(1), "line string");
    assert_eq!(dims[2], Some(2), "polygon");
    assert_eq!(dims[3], Some(0), "multi point");
    let coord_dims = st_coord_dim(&array).unwrap();
    assert!((0..4).all(|i| coord_dims[i] == Some(2)));
}

#[test]
fn counts_match_postgis() {
    let array = sample_mixed();
    let npoints = st_npoints(&array).unwrap();
    assert_eq!(npoints[0], Some(1), "point");
    assert_eq!(npoints[1], Some(3), "line string");
    assert_eq!(npoints[2], Some(9), "polygon rings, 5 plus 4");
    assert_eq!(npoints[3], Some(2), "multi point");

    let num_points = st_num_points(&array).unwrap();
    assert!(num_points[0].is_none(), "ST_NumPoints is line string only");
    assert_eq!(num_points[1], Some(3));
    assert!(num_points[2].is_none());

    let num_geoms = st_num_geometries(&array).unwrap();
    assert_eq!(num_geoms[0], Some(1));
    assert_eq!(num_geoms[1], Some(1));
    assert_eq!(num_geoms[3], Some(2), "multi point has two parts");

    let rings = st_num_interior_rings(&array).unwrap();
    assert!(rings[0].is_none(), "not a polygon");
    assert_eq!(rings[2], Some(1), "one hole");
}

#[test]
fn is_empty_and_is_closed() {
    let array = sample_mixed();
    let empty = st_is_empty(&array).unwrap();
    assert!((0..4).all(|i| empty[i] == Some(false)));
    let closed = st_is_closed(&array).unwrap();
    assert_eq!(closed[0], Some(true), "a point is closed");
    assert_eq!(closed[1], Some(false), "an open line string is not");
    assert_eq!(closed[2], Some(true), "a polygon is closed");
}

#[test]
fn is_ring_needs_closed_and_simple() {
    let array = lines(
        &[
            // Closed and simple.
            Some(path(&[(0.0, 0.0), (1.0, 0.0), (1.0, 1.0), (0.0, 0.0)])),
            // Closed but crosses itself, a bow tie.
            Some(path(&[(0.0, 0.0), (2.0, 2.0), (2.0, 0.0), (0.0, 2.0), (0.0, 0.0)])),
            // Simple but open.
            Some(path(&[(0.0, 0.0), (1.0, 1.0)])),
        ],
        CoordType::Separated,
    );
    let is_ring = st_is_ring(&array, &meetings).unwrap();
    assert_eq!(is_ring[0], Some(true), "closed and simple");
    assert_eq!(is_ring[1], Some(false), "self crossing");
    assert_eq!(is_ring[2], Some(false), "open");

    // ST_IsRing returns null for every type other than a line string.
    let array = sample_points(CoordType::Separated);
    assert!(st_is_ring(&array, &meetings).unwrap()[0].is_none());
}

#[test]
fn is_simple_finds_self_crossings() {
    let array = lines(
        &[
            Some(path(&[(0.0, 0.0), (1.0, 1.0), (2.0, 0.0)])),
            Some(path(&[(0.0, 0.0), (2.0, 2.0), (2.0, 0.0), (0.0, 2.0)])),
            Some(path(&[(0.0, 0.0), (1.0, 0.0), (1.0, 1.0), (0.0, 0.0)])),
        ],
        CoordType::Separated,
    );
    let simple = st_is_simple(&array, &meetings).unwrap();
    assert_eq!(simple[0], Some(true), "a plain open line is simple");
    assert_eq!(simple[1], Some(false), "the crossing line is not");
    assert_eq!(simple[2], Some(true), "a closed ring is simple");
}

#[test]
fn is_simple_on_multi_point_finds_duplicates() {
    let array = mixed(vec![
        Some(Geometry::MultiPoint(path(&[(0.0, 0.0), (1.0, 1.0)]))),
        Some(Geometry::MultiPoint(path(&[(0.0, 0.0), (0.0, 0.0)]))),
    ]);
    let simple = st_is_simple(&array, &meetings).unwrap();
    assert_eq!(simple[0], Some(true));
    assert_eq!(simple[1], Some(false), "a repeated point is not simple");
}

#[test]
fn polygons_are_always_simple() {
    let array = polygons(
        &[Some(polygon(&[&[(0.0, 0.0), (1.0, 0.0), (1.0, 1.0), (0.0, 1.0), (0.0, 0.0)]]))],
        CoordType::Separated,
    );
    assert_eq!(st_is_simple(&array, &meetings).unwrap()[0], Some(true));
}

#[test]
fn parts_may_meet_at_their_ends_only() {
    let verdict = |parts: &[&[(f64, f64)]]| {
        let lines = parts.iter().map(|part| path(part)).collect();
        is_simple(&Geometry::MultiLineString(lines), &meetings)
    };
    let bent: &[(f64, f64)] = &[(0.0, 0.0), (1.0, 1.0), (2.0, 0.0)];
    // A bend is no crossing, and one part is as simple as its line.
    assert!(verdict(&[bent]));
    assert!(is_simple(&Geometry::LineString(path(bent)), &meetings));
    // Two parts that share an end.
    assert!(verdict(&[bent, &[(2.0, 0.0), (3.0, 3.0)]]));
    assert!(verdict(&[bent, &[(5.0, 5.0), (6.0, 6.0)]]));
    // A crossing, a touch in the middle, and an overlap that starts at a shared end.
    assert!(!verdict(&[&[(0.0, 0.0), (2.0, 2.0)], &[(0.0, 2.0), (2.0, 0.0)]]));
    assert!(!verdict(&[bent, &[(1.0, 1.0), (1.0, 5.0)]]));
    assert!(!verdict(&[&[(0.0, 0.0), (2.0, 0.0)], &[(0.0, 0.0), (1.0, 0.0)]]));
    // A closed part has no end.
    let ring: &[(f64, f64)] = &[(0.0, 0.0), (1.0, 0.0), (1.0, 1.0), (0.0, 0.0)];
    assert!(verdict(&[ring]));
    assert!(!verdict(&[ring, &[(0.0, 0.0), (-1.0, -1.0)]]));
}

#[test]
fn an_undecoded_row_is_an_error() {
    let array = Column {
        body: Body::Rows {
            kind: Kind::Wkb,
            dimension: None,
            coord_type: None,
            items: vec![None],
        },
        validity: None,
        metadata: Metadata::default(),
    };
    assert_eq!(st_geometry_type(&array), Err(Error::Undecodable));
    assert_eq!(st_npoints(&array), Err(Error::Undecodable));
    assert!(matches!(st_geometry_n(&array, Index::Constant(Some(1))), Err(Error::Undecodable)));
    let mut boxes = Vec::new();
    assert_eq!(fill_bboxes(&array, &mut boxes), Err(Error::Undecodable));
}

// ----------------------------------------------------------------------- affine
fn matrix_step(m: [f64; 6]) -> impl Fn(Coord) -> Coord {
    move |at: Coord| {
        let (x, y) = xy(at);
        c(m[0] * x + m[1] * y + m[2], m[3] * x + m[4] * y + m[5])
    }
}

fn native(output: Output) -> Column {
    match output {
        Output::Native(column) => column,
        Output::Mixed(_) => panic!("expected a native column"),
    }
}

#[test]
fn translate_moves_every_coordinate() {
    for layout in LAYOUTS {
        let array = points(&[Some((1.0, 2.0)), Some((3.0, 4.0))], layout);
        let moved = native(affine(&array, &matrix_step([1.0, 0.0, 10.0, 0.0, 1.0, 20.0])).unwrap());
        assert_eq!(point_of(&moved, 0), Some((11.0, 22.0)));
        assert_eq!(point_of(&moved, 1), Some((13.0, 24.0)));
    }
}

#[test]
fn scale_multiplies_about_the_origin() {
    let array = points(&[Some((1.0, 2.0)), Some((3.0, 4.0))], CoordType::Separated);
    let scaled = native(affine(&array, &matrix_step([2.0, 0.0, 0.0, 0.0, 3.0, 0.0])).unwrap());
    assert_eq!(point_of(&scaled, 0), Some((2.0, 6.0)));
}

/// PostGIS rotates by radians, so a quarter turn is pi over two.
#[test]
fn rotate_takes_radians() {
    let array = points(&[Some((1.0, 0.0))], CoordType::Separated);
    let (sin, cos) = std::f64::consts::FRAC_PI_2.sin_cos();
    let turned = native(affine(&array, &matrix_step([cos, -sin, 0.0, sin, cos, 0.0])).unwrap());
    let (x, y) = point_of(&turned, 0).unwrap();
    assert!(x.abs() < 1e-12, "x was {x}");
    assert!((y - 1.0).abs() < 1e-12, "y was {y}");
}

#[test]
fn matrix_form_matches_translate() {
    let array = points(&[Some((1.0, 2.0)), Some((3.0, 4.0))], CoordType::Separated);
    // Identity rotation with an offset is the same as a translation.
    let parameters = [1.0, 0.0, 0.0, 1.0, 10.0, 20.0].map(f64::to_bits).to_vec();
    let rows = match Affine::Matrix.matrix(&parameters) {
        Motion::Rows { a, b, xoff, d, e, yoff } => [a, b, xoff, d, e, yoff].map(f64::from_bits),
        other => panic!("expected a matrix, got {other:?}"),
    };
    let moved = native(affine(&array, &matrix_step(rows)).unwrap());
    assert_eq!(point_of(&moved, 0), Some((11.0, 22.0)));
}

/// The offsets are structure, not position, so a transform must leave them alone.
#[test]
fn affine_offsets_survive_the_transform() {
    let array = lines(
        &[
            Some(path(&[(0.0, 0.0), (1.0, 1.0), (2.0, 2.0)])),
            Some(path(&[(5.0, 5.0), (6.0, 6.0)])),
        ],
        CoordType::Separated,
    );
    let moved = native(affine(&array, &matrix_step([1.0, 0.0, 1.0, 0.0, 1.0, 1.0])).unwrap());
    match (&moved.body, &array.body) {
        (
            Body::LineString { geom_offsets: after, .. },
            Body::LineString { geom_offsets: before, .. },
        ) => assert_eq!(after, before),
        _ => panic!("expected line strings"),
    }
    let first = line_of(&moved, 0).unwrap();
    assert_eq!(first[0], (1.0, 1.0));
    assert_eq!(first.len(), 3);
}

/// The output type is the input type, so a point column stays a point column.
#[test]
fn the_geometry_type_is_preserved() {
    let array = points(&[Some((1.0, 2.0)), Some((3.0, 4.0))], CoordType::Separated);
    let moved = native(affine(&array, &matrix_step([1.0, 0.0, 1.0, 0.0, 1.0, 1.0])).unwrap());
    assert_eq!(moved.data_type().kind, array.data_type().kind);
    assert_eq!(moved.data_type().dimension, array.data_type().dimension);
    assert_eq!(moved.data_type().coord_type, array.data_type().coord_type);
}

#[test]
fn an_affine_transform_keeps_z_and_turns_a_mixed_column_row_by_row() {
    let array = xyz_points(&[(1.0, 2.0, 9.0)], CoordType::Interleaved);
    let moved = native(affine(&array, &matrix_step([1.0, 0.0, 10.0, 0.0, 1.0, 20.0])).unwrap());
    assert_eq!(number(st_z(&moved).unwrap()[0]), Some(9.0));
    match affine(&sample_mixed(), &matrix_step([1.0, 0.0, 10.0, 0.0, 1.0, 20.0])).unwrap() {
        Output::Mixed(rows) => assert_eq!(rows[0], Some(Geometry::Point(c(11.0, 22.0)))),
        Output::Native(_) => panic!("a mixed column has no buffer"),
    }
    let boxes = st_make_envelope(
        &bits(&[0.0]),
        &bits(&[0.0]),
        &bits(&[1.0]),
        &bits(&[1.0]),
        Metadata::default(),
    )
    .unwrap();
    assert!(matches!(
        affine(&boxes, &matrix_step([1.0, 0.0, 0.0, 0.0, 1.0, 0.0])),
        Err(Error::NeedsNativeColumn { .. })
    ));
}

#[test]
fn affine_names_and_parameter_counts() {
    assert_eq!(Affine::all().len(), 4);
    assert_eq!(Affine::Translate.function_name(), "ST_Translate");
    assert_eq!(Affine::Rotate.sql_name(), "st_rotate");
    assert_eq!(Affine::Matrix.parameter_count(), 6);
    // A number beyond the parameters is not read.
    assert_eq!(Affine::Translate.matrix(&vec![1, 2, 3]), Motion::Shift { dx: 1, dy: 2 });
    assert_eq!(Affine::Scale.matrix(&vec![1, 2]), Motion::Stretch { x: 1, y: 2 });
    assert_eq!(Affine::Rotate.matrix(&vec![7, 8]), Motion::Turn { radians: 7 });
}

// ------------------------------------------------------------------------- bbox
fn bbox(minx: f64, miny: f64, maxx: f64, maxy: f64) -> Bbox {
    Bbox {
        minx: minx.to_bits(),
        miny: miny.to_bits(),
        maxx: maxx.to_bits(),
        maxy: maxy.to_bits(),
    }
}

#[test]
fn an_empty_box_meets_not_even_the_whole_plane() {
    let (low, high) = (f64::NEG_INFINITY.to_bits(), f64::INFINITY.to_bits());
    let plane = Bbox { minx: low, miny: low, maxx: high, maxy: high };
    assert!(!Bbox::empty().intersects(&plane));
    assert!(!plane.intersects(&Bbox::empty()));
    assert!(plane.intersects(&plane));
    let [zero, one, two] = [0.0, 1.0, 2.0].map(f64::to_bits);
    let backwards = Bbox { minx: one, miny: zero, maxx: zero, maxy: one };
    assert!(backwards.is_empty());
    let wide = Bbox { minx: zero, miny: zero, maxx: two, maxy: one };
    assert!(!backwards.intersects(&wide) && !wide.intersects(&backwards));
}

#[test]
fn an_empty_point_has_an_empty_box() {
    for layout in [CoordType::Separated, CoordType::Interleaved] {
        let array = points(&[Some((f64::NAN, f64::NAN)), Some((1.0, 2.0))], layout);
        let mut out = Vec::new();
        fill_bboxes(&array, &mut out).unwrap();
        assert_eq!(out[0], Bbox::empty());
        assert_eq!(out[1], bbox_of(&Geometry::Point(c(1.0, 2.0))));

        let boxes = st_envelope(&array, &box_output_type(&array.data_type())).unwrap();
        assert!(geometry_of(&boxes, 0).is_none());
        // The slots under the null hold zeros, never an infinity.
        match &boxes.body {
            Body::Rect { lower, upper } => {
                for corner in [lower, upper] {
                    assert_eq!(corner.buffers[0][0], 0.0f64.to_bits());
                    assert_eq!(corner.buffers[1][0], 0.0f64.to_bits());
                }
            }
            _ => panic!("expected boxes"),
        }
    }
}

#[test]
fn a_row_has_the_box_of_its_geometry() {
    let area = || {
        polygon(&[
            &[(0.0, 0.0), (4.0, 0.0), (4.0, 5.0), (0.0, 0.0)],
            &[(2.0, 1.0), (3.0, 1.0), (3.0, 2.0), (2.0, 1.0)],
        ])
    };
    for layout in [CoordType::Separated, CoordType::Interleaved] {
        for array in [
            points(&[Some((1.0, 2.0)), None], layout),
            lines(&[Some(path(&[(3.0, -1.0), (1.0, 7.0)])), None, Some(vec![])], layout),
            polygons(&[Some(area()), None], layout),
        ] {
            let mut boxes = Vec::new();
            fill_bboxes(&array, &mut boxes).unwrap();
            for row in 0..array.len() {
                let expected = geometry_of(&array, row).map_or(Bbox::empty(), |g| bbox_of(&g));
                assert_eq!(boxes[row], expected);
            }
        }
    }
}

#[test]
fn a_null_row_leaves_the_buffer_alone() {
    let array = points(&[None, Some((1.0, 2.0))], CoordType::Separated);
    let mut out = Geometry::LineString(path(&[(5.0, 6.0), (7.0, 8.0)]));
    assert_eq!(array.fill_geometry(0, &mut out), Ok(false));
    assert_eq!(out, Geometry::LineString(path(&[(5.0, 6.0), (7.0, 8.0)])));
    assert_eq!(array.fill_geometry(1, &mut out), Ok(true));
    assert_eq!(out, Geometry::Point(c(1.0, 2.0)));
}

#[test]
fn empty_box_never_intersects() {
    let unit = bbox(0.0, 0.0, 1.0, 1.0);
    assert!(!Bbox::empty().intersects(&unit));
    assert!(!unit.intersects(&Bbox::empty()));
    assert!(!Bbox::empty().intersects(&Bbox::empty()));
    assert!(unit.intersects(&unit));
}

#[test]
fn touching_boxes_intersect() {
    assert!(bbox(0.0, 0.0, 1.0, 1.0).intersects(&bbox(1.0, 0.0, 2.0, 1.0)));
}

#[test]
fn bbox_of_polygon_uses_exterior_ring() {
    let area = polygon(&[
        &[(0.0, 0.0), (10.0, 0.0), (10.0, 10.0), (0.0, 10.0), (0.0, 0.0)],
        &[(2.0, 2.0), (3.0, 2.0), (3.0, 3.0), (2.0, 2.0)],
    ]);
    let found = bbox_of(&Geometry::Polygon(area));
    assert_eq!(f64::from_bits(found.minx), 0.0);
    assert_eq!(f64::from_bits(found.miny), 0.0);
    assert_eq!(f64::from_bits(found.maxx), 10.0);
    assert_eq!(f64::from_bits(found.maxy), 10.0);
}

#[test]
fn fill_bboxes_marks_nulls_empty() {
    for layout in LAYOUTS {
        let array = points(&[Some((1.0, 2.0)), None, Some((5.0, 6.0))], layout);
        let mut out = Vec::new();
        fill_bboxes(&array, &mut out).unwrap();
        assert_eq!(out.len(), 3);
        assert_eq!(f64::from_bits(out[0].minx), 1.0);
        assert_eq!(f64::from_bits(out[0].maxy), 2.0);
        assert!(out[1].is_empty(), "null row must be empty: {:?}", out[1]);
        assert_eq!(f64::from_bits(out[2].minx), 5.0);
    }
}

#[test]
fn fill_bboxes_reuses_the_vector() {
    let array = points(&[Some((1.0, 2.0))], CoordType::Separated);
    let mut out = vec![Bbox::empty(); 128];
    let before = out.as_ptr();
    fill_bboxes(&array, &mut out).unwrap();
    assert_eq!(out.len(), 1);
    assert_eq!(out.as_ptr(), before, "clear plus reserve must not reallocate");
}

#[test]
fn bbox_matches_geo_bounding_rect() {
    let geoms = [
        Geometry::Point(c(1.0, 2.0)),
        line(&[(0.0, 0.0), (3.0, 4.0), (-1.0, 7.0)]),
        Geometry::MultiPoint(path(&[(0.0, 0.0), (5.0, -2.0)])),
        Geometry::Polygon(polygon(&[&[
            (0.0, 0.0),
            (4.0, 0.0),
            (4.0, 4.0),
            (0.0, 4.0),
            (0.0, 0.0),
        ]])),
    ];
    for geom in geoms {
        let ours = bbox_of(&geom);
        let theirs = to_geo(&geom).bounding_rect().unwrap();
        assert_eq!(f64::from_bits(ours.minx), theirs.min().x);
        assert_eq!(f64::from_bits(ours.miny), theirs.min().y);
        assert_eq!(f64::from_bits(ours.maxx), theirs.max().x);
        assert_eq!(f64::from_bits(ours.maxy), theirs.max().y);
        // A round trip keeps the same answer.
        assert!(bbox_of(&from_geo(&to_geo(&geom))).same(&ours));
    }
}

#[test]
fn boxes_merge_and_contain() {
    let mut joined = bbox(0.0, 0.0, 1.0, 1.0);
    joined.merge(&bbox(3.0, -2.0, 4.0, 0.5));
    assert!(joined.same(&bbox(0.0, -2.0, 4.0, 1.0)));
    assert!(joined.contains(&bbox(3.0, -2.0, 4.0, 0.5)));
    assert!(!joined.contains(&bbox(3.0, -2.0, 5.0, 0.5)));
    assert!(!joined.contains(&Bbox::empty()));
    // A NaN moves no bound.
    joined.push_xy(f64::NAN.to_bits(), 7.0f64.to_bits());
    assert!(joined.same(&bbox(0.0, -2.0, 4.0, 7.0)));
}

// -------------------------------------------------------------------- component
fn line_array() -> Column {
    lines(
        &[
            Some(path(&[(0.0, 0.0), (1.0, 1.0), (2.0, 4.0)])),
            Some(path(&[(5.0, 5.0), (6.0, 6.0)])),
        ],
        CoordType::Separated,
    )
}

fn polygon_array() -> Column {
    polygons(
        &[Some(polygon(&[
            &[(0.0, 0.0), (4.0, 0.0), (4.0, 4.0), (0.0, 4.0), (0.0, 0.0)],
            &[(1.0, 1.0), (2.0, 1.0), (2.0, 2.0), (1.0, 1.0)],
        ]))],
        CoordType::Separated,
    )
}

#[test]
fn start_and_end_point() {
    let array = line_array();
    let output = point_output_type(&array.data_type());
    let start = st_line_end(&array, LineEnd::Start, &output).unwrap();
    let end = st_line_end(&array, LineEnd::End, &output).unwrap();
    assert_eq!(point_of(&start, 0), Some((0.0, 0.0)));
    assert_eq!(point_of(&end, 0), Some((2.0, 4.0)));
}

#[test]
fn point_n_is_one_based_and_clamps_to_null() {
    let array = line_array();
    let output = point_output_type(&array.data_type());
    let second = st_point_n(&array, Index::Constant(Some(2)), &output).unwrap();
    assert_eq!(point_of(&second, 0), Some((1.0, 1.0)));
    // Zero, negative and past the end all give null, as in PostGIS.
    for out_of_range in [0, -1, 4] {
        let result = st_point_n(&array, Index::Constant(Some(out_of_range)), &output).unwrap();
        assert!(point_of(&result, 0).is_none(), "index {out_of_range} must give null");
    }
}

#[test]
fn point_n_accepts_a_per_row_index() {
    let array = line_array();
    let output = point_output_type(&array.data_type());
    let indices = vec![Some(3), Some(1)];
    let result = st_point_n(&array, Index::PerRow(&indices), &output).unwrap();
    assert_eq!(point_of(&result, 0), Some((2.0, 4.0)));
    assert_eq!(point_of(&result, 1), Some((5.0, 5.0)));
}

#[test]
fn exterior_and_interior_rings() {
    let array = polygon_array();
    let output = line_string_output_type(&array.data_type());
    let shell = st_exterior_ring(&array, &output).unwrap();
    assert_eq!(line_of(&shell, 0).unwrap().len(), 5);
    let hole = st_interior_ring_n(&array, Index::Constant(Some(1)), &output).unwrap();
    assert_eq!(line_of(&hole, 0).unwrap().len(), 4);
    // There is only one hole.
    let missing = st_interior_ring_n(&array, Index::Constant(Some(2)), &output).unwrap();
    assert!(line_of(&missing, 0).is_none());
}

#[test]
fn geometry_n_walks_a_collection() {
    let array = mixed(vec![
        Some(Geometry::MultiPoint(path(&[(1.0, 1.0), (2.0, 2.0), (3.0, 3.0)]))),
        Some(Geometry::Point(c(9.0, 9.0))),
    ]);
    let second = st_geometry_n(&array, Index::Constant(Some(2))).unwrap();
    assert_eq!(second[0], Some(Geometry::Point(c(2.0, 2.0))));
    // A single geometry answers index one with itself.
    let first = st_geometry_n(&array, Index::Constant(Some(1))).unwrap();
    assert_eq!(first[1], Some(Geometry::Point(c(9.0, 9.0))));
    // And null for any other index.
    let third = st_geometry_n(&array, Index::Constant(Some(2))).unwrap();
    assert!(third[1].is_none());
}

#[test]
fn wrong_type_gives_null_not_an_error() {
    let array = polygon_array();
    let output = point_output_type(&array.data_type());
    let result = st_point_n(&array, Index::Constant(Some(1)), &output).unwrap();
    assert!(point_of(&result, 0).is_none());
}

#[test]
fn a_ring_with_more_ordinates_does_not_fit_a_mixed_column() {
    let mut array = mixed(vec![Some(Geometry::Polygon(polygon(&[&[
        (0.0, 0.0),
        (1.0, 0.0),
        (1.0, 1.0),
        (0.0, 0.0),
    ]])))]);
    let output = line_string_output_type(&array.data_type());
    let flat = st_exterior_ring(&array, &output).unwrap();
    assert_eq!(line_of(&flat, 0).unwrap().len(), 4);
    if let Body::Rows { items, .. } = &mut array.body {
        items[0].as_mut().unwrap().dim = Dimension::XYZ;
    }
    assert!(matches!(
        st_exterior_ring(&array, &output),
        Err(Error::WrongDimension { dimension: Dimension::XYZ })
    ));
}

#[test]
fn the_ends_keep_every_ordinate() {
    let array = column(
        Body::LineString {
            coords: CoordBuffer::Interleaved(InterleavedCoordBuffer {
                coords: [0.0, 1.0, 7.0, 2.0, 3.0, 8.0].iter().map(|v| f64::to_bits(*v)).collect(),
                dim: Dimension::XYZ,
            }),
            geom_offsets: vec![0, 2],
        },
        vec![true],
    );
    let output = point_output_type(&array.data_type());
    let end = st_line_end(&array, LineEnd::End, &output).unwrap();
    assert_eq!(point_of(&end, 0), Some((2.0, 3.0)));
    assert_eq!(number(st_z(&end).unwrap()[0]), Some(8.0));
}

// ------------------------------------------------------------------ constructor
#[test]
fn make_point_adopts_the_input_buffers() {
    let x = bits(&[1.0, 3.0, 5.0]);
    let y = bits(&[2.0, 4.0, 6.0]);
    let array = st_make_point(&x, &y, None, Metadata::default()).unwrap();
    let coords = separated(&array);
    assert_eq!(coords.buffers[0], [1.0, 3.0, 5.0].map(f64::to_bits));
    assert_eq!(coords.buffers[1], [2.0, 4.0, 6.0].map(f64::to_bits));
    assert_eq!(point_of(&array, 1), Some((3.0, 4.0)));
}

#[test]
fn make_point_is_null_when_any_ordinate_is_null() {
    let x = vec![Some(1.0f64.to_bits()), None, Some(5.0f64.to_bits())];
    let y = vec![Some(2.0f64.to_bits()), Some(4.0f64.to_bits()), None];
    let array = st_make_point(&x, &y, None, Metadata::default()).unwrap();
    assert!(point_of(&array, 0).is_some());
    assert!(point_of(&array, 1).is_none());
    assert!(point_of(&array, 2).is_none());
}

#[test]
fn make_point_z_keeps_three_dimensions() {
    let z = bits(&[3.0]);
    let array =
        st_make_point(&bits(&[1.0]), &bits(&[2.0]), Some(&z), Metadata::default()).unwrap();
    assert_eq!(array.data_type().dimension, Some(Dimension::XYZ));
    assert_eq!(separated(&array).buffers[2], [3.0f64.to_bits()]);
}

#[test]
fn make_point_rejects_a_length_mismatch() {
    let made = st_make_point(&bits(&[1.0, 2.0]), &bits(&[1.0]), None, Metadata::default());
    assert!(matches!(made, Err(Error::UnequalColumns { function: "ST_MakePoint" })));
}

#[test]
fn make_envelope_adopts_all_four_buffers() {
    let array = st_make_envelope(
        &bits(&[0.0]),
        &bits(&[1.0]),
        &bits(&[2.0]),
        &bits(&[3.0]),
        Metadata::default(),
    )
    .unwrap();
    match &array.body {
        Body::Rect { lower, upper } => {
            assert_eq!(lower.buffers[0], [0.0f64.to_bits()]);
            assert_eq!(upper.buffers[1], [3.0f64.to_bits()]);
        }
        _ => panic!("expected boxes"),
    }
    assert!(st_make_envelope(
        &bits(&[0.0]),
        &bits(&[1.0]),
        &bits(&[]),
        &bits(&[3.0]),
        Metadata::default()
    )
    .is_err());
}

#[test]
fn make_polygon_shares_the_coordinate_buffer() {
    let array = lines(
        &[
            Some(path(&[(0.0, 0.0), (1.0, 0.0), (1.0, 1.0), (0.0, 0.0)])),
            Some(path(&[(5.0, 5.0), (6.0, 5.0), (6.0, 6.0), (5.0, 5.0)])),
        ],
        CoordType::Separated,
    );
    let output = polygon_type_for(&array.data_type());
    let made = st_make_polygon(&array, &output).unwrap();
    assert_eq!(separated(&made).buffers[0], separated(&array).buffers[0]);
    // The line string offsets became the ring offsets, untouched.
    match (&made.body, &array.body) {
        (Body::Polygon { ring_offsets, .. }, Body::LineString { geom_offsets, .. }) => {
            assert_eq!(ring_offsets, geom_offsets);
        }
        _ => panic!("expected polygons over line strings"),
    }
    match geometry_of(&made, 0) {
        Some(Geometry::Polygon(area)) => {
            assert_eq!(area.exterior.len(), 4);
            assert_eq!(area.interiors.len(), 0);
        }
        other => panic!("expected a polygon, got {other:?}"),
    }
}

#[test]
fn make_polygon_rejects_a_point_array() {
    let array = points(&[Some((0.0, 0.0))], CoordType::Separated);
    let output = polygon_type_for(&array.data_type());
    assert!(matches!(
        st_make_polygon(&array, &output),
        Err(Error::NeedsLineStrings { got: Kind::Point })
    ));
}

#[test]
fn make_polygon_closes_the_rows_of_a_mixed_column() {
    let array = mixed(vec![
        Some(line(&[(0.0, 0.0), (1.0, 0.0), (1.0, 1.0)])),
        None,
        Some(Geometry::Point(c(0.0, 0.0))),
    ]);
    let mut output = polygon_type_for(&array.data_type());
    for layout in LAYOUTS {
        output.coord_type = Some(layout);
        let made = st_make_polygon(&array, &output).unwrap();
        assert_eq!(
            geometry_of(&made, 0),
            Some(Geometry::Polygon(polygon(&[&[(0.0, 0.0), (1.0, 0.0), (1.0, 1.0), (0.0, 0.0)]])))
        );
        assert!(geometry_of(&made, 1).is_none());
        assert!(geometry_of(&made, 2).is_none(), "a point has no ring");
    }
}

#[test]
fn make_line_joins_two_point_columns() {
    let a = points(&[Some((0.0, 0.0)), Some((1.0, 1.0))], CoordType::Separated);
    let b = points(&[Some((10.0, 10.0)), Some((11.0, 11.0))], CoordType::Separated);
    let output = line_string_type_for(&a.data_type());
    let made = st_make_line(&a, &b, &output).unwrap();
    let first = line_of(&made, 0).unwrap();
    assert_eq!(first.len(), 2);
    assert_eq!(first[0], (0.0, 0.0));
    assert_eq!(first[1], (10.0, 10.0));
    let short = points(&[Some((0.0, 0.0))], CoordType::Separated);
    assert!(matches!(
        st_make_line(&a, &short, &output),
        Err(Error::UnequalColumns { function: "ST_MakeLine" })
    ));
    assert!(matches!(st_make_line(&a, &line_array(), &output), Err(Error::NeedsTwoPoints)));
}

// -------------------------------------------------------------------------- crs
fn stamped_points(metadata: Metadata) -> Column {
    Column { metadata, ..points(&[Some((1.0, 2.0))], CoordType::Separated) }
}

#[test]
fn no_crs_reports_zero() {
    assert_eq!(st_srid(&stamped_points(Metadata::default()))[0], Some(0));
}

#[test]
fn srid_round_trips() {
    let stamped = st_set_srid(&stamped_points(Metadata::default()), 4326);
    assert_eq!(st_srid(&stamped)[0], Some(4326));
    assert_eq!(srid_of(&stamped.data_type()), 4326);
}

#[test]
fn authority_code_is_parsed() {
    let crs = Crs {
        value: Some(Json::Text("EPSG:3857".to_string())),
        crs_type: Some(CrsType::AuthorityCode),
    };
    let array = stamped_points(Metadata { crs, edges: None });
    assert_eq!(st_srid(&array)[0], Some(3857));
}

#[test]
fn projjson_id_code_is_parsed() {
    let id = Json::Object(vec![
        ("authority".to_string(), Json::Text("EPSG".to_string())),
        (
            "code".to_string(),
            Json::Number(JsonNumber { text: "4326".to_string(), integer: Some(4326) }),
        ),
    ]);
    let projjson = Json::Object(vec![
        ("id".to_string(), id),
        ("name".to_string(), Json::Text("WGS 84".to_string())),
        ("type".to_string(), Json::Text("GeographicCRS".to_string())),
    ]);
    let crs = Crs { value: Some(projjson), crs_type: Some(CrsType::Projjson) };
    let array = stamped_points(Metadata { crs, edges: None });
    assert_eq!(st_srid(&array)[0], Some(4326));
}

#[test]
fn setting_zero_clears_the_crs() {
    let stamped = st_set_srid(&stamped_points(Metadata::default()), 4326);
    let cleared = st_set_srid(&stamped, 0);
    assert_eq!(st_srid(&cleared)[0], Some(0));
}

#[test]
fn set_srid_keeps_the_values() {
    let stamped = st_set_srid(&stamped_points(Metadata::default()), 4326);
    assert_eq!(point_of(&stamped, 0), Some((1.0, 2.0)));
}

#[test]
fn the_last_stamp_wins() {
    let once = st_set_srid(&stamped_points(Metadata::default()), 4326);
    let twice = st_set_srid(&once, -3857);
    assert_eq!(srid_of(&twice.data_type()), -3857);
}

#[test]
fn a_number_reads_back() {
    for value in [0, 7, -1, 4326, i32::MAX, i32::MIN] {
        assert_eq!(i32_text(value), value.to_string());
        assert_eq!(parse_i32(&i32_text(value)), Some(value));
    }
    assert_eq!(parse_i32("EPSG"), None);
    assert_eq!(parse_i32("99999999999"), None);
}

// --------------------------------------------------------------------- envelope
fn minus(a: u64, b: u64) -> u64 {
    (f64::from_bits(a) - f64::from_bits(b)).to_bits()
}

fn plus(a: u64, b: u64) -> u64 {
    (f64::from_bits(a) + f64::from_bits(b)).to_bits()
}

fn two_polygons() -> Column {
    polygons(
        &[
            Some(polygon(&[&[(0.0, 0.0), (4.0, 0.0), (4.0, 3.0), (0.0, 3.0), (0.0, 0.0)]])),
            None,
        ],
        CoordType::Separated,
    )
}

fn two_points() -> Column {
    points(&[Some((1.0, 2.0)), Some((5.0, 6.0))], CoordType::Separated)
}

fn bounds(array: &Column, which: Bound) -> Vec<Option<f64>> {
    bound(array, which).unwrap().into_iter().map(number).collect()
}

#[test]
fn envelope_of_a_polygon() {
    let array = two_polygons();
    let envelope = st_envelope(&array, &box_output_type(&array.data_type())).unwrap();
    assert_eq!(bounds(&envelope, Bound::XMin)[0], Some(0.0));
    assert_eq!(bounds(&envelope, Bound::YMin)[0], Some(0.0));
    assert_eq!(bounds(&envelope, Bound::XMax)[0], Some(4.0));
    assert_eq!(bounds(&envelope, Bound::YMax)[0], Some(3.0));
    assert!(bounds(&envelope, Bound::XMin)[1].is_none(), "the null row stays null");
}

#[test]
fn envelope_of_a_box_is_itself() {
    let array = two_polygons();
    let output = box_output_type(&array.data_type());
    let once = st_envelope(&array, &output).unwrap();
    let twice = st_envelope(&once, &output).unwrap();
    assert_eq!(bounds(&twice, Bound::XMax)[0], bounds(&once, Bound::XMax)[0]);
}

#[test]
fn bounds_work_without_a_box_column() {
    let array = two_points();
    assert_eq!(bounds(&array, Bound::XMin)[0], Some(1.0));
    assert_eq!(bounds(&array, Bound::XMax)[1], Some(5.0));
    // A point's box is degenerate, so min equals max.
    assert_eq!(bounds(&array, Bound::YMin)[0], bounds(&array, Bound::YMax)[0]);
}

/// The box walker is two-dimensional, so a z bound is null rather than a guess.
#[test]
fn z_bounds_are_null_in_two_dimensions() {
    let array = two_points();
    assert!(bounds(&array, Bound::ZMin)[0].is_none());
    let envelope = st_envelope(&array, &box_output_type(&array.data_type())).unwrap();
    assert!(bounds(&envelope, Bound::ZMax)[0].is_none());
}

#[test]
fn expand_grows_the_box() {
    let array = two_points();
    let output = box_output_type(&array.data_type());
    let expanded = st_expand(&array, &bits(&[2.0]), &output, &minus, &plus).unwrap();
    assert_eq!(bounds(&expanded, Bound::XMin)[0], Some(-1.0));
    assert_eq!(bounds(&expanded, Bound::XMax)[0], Some(3.0));
    assert_eq!(bounds(&expanded, Bound::YMin)[0], Some(0.0));
}

#[test]
fn expand_with_a_null_distance_is_null() {
    let array = two_points();
    let output = box_output_type(&array.data_type());
    let distance = vec![None, Some(1.0f64.to_bits())];
    let expanded = st_expand(&array, &distance, &output, &minus, &plus).unwrap();
    let xmin = bounds(&expanded, Bound::XMin);
    assert!(xmin[0].is_none());
    assert_eq!(xmin[1], Some(4.0));
}

#[test]
fn bbox_intersects_is_the_box_test_alone() {
    let far = points(&[Some((1.0, 2.0)), Some((99.0, 99.0))], CoordType::Separated);
    let hits = st_bbox_intersects(&two_points(), &far).unwrap();
    assert_eq!(hits[0], Some(true), "the same point");
    assert_eq!(hits[1], Some(false), "far apart");
}

/// A box column and a polygon column must answer the operator the same way.
#[test]
fn bbox_intersects_agrees_with_the_envelope() {
    let array = two_polygons();
    let envelope = st_envelope(&array, &box_output_type(&array.data_type())).unwrap();
    let direct = st_bbox_intersects(&array, &array).unwrap();
    let through_boxes = st_bbox_intersects(&envelope, &envelope).unwrap();
    assert_eq!(direct, through_boxes);
}

#[test]
fn bound_names() {
    assert_eq!(Bound::all().len(), 6);
    assert_eq!(Bound::ZMax.function_name(), "ST_ZMax");
    assert_eq!(Bound::XMin.sql_name(), "st_xmin");
    assert!(Bound::YMin.is_lower() && !Bound::YMax.is_lower());
    assert_eq!(Bound::ZMin.ordinate(), 2);
}

// ------------------------------------------------------------------ materialize
/// A polygon with one hole, so the ring loop is exercised.
fn holed(offset: f64) -> Polygon {
    polygon(&[
        &[
            (offset, 0.0),
            (offset + 10.0, 0.0),
            (offset + 10.0, 10.0),
            (offset, 10.0),
            (offset, 0.0),
        ],
        &[(offset + 2.0, 2.0), (offset + 4.0, 2.0), (offset + 4.0, 4.0), (offset + 2.0, 2.0)],
    ])
}

/// The filler must agree with the stored values for every row, whatever the row before it was.
fn assert_matches(array: &Column, expected: &[Geometry]) {
    let mut scratch = empty_geometry();
    for (index, value) in expected.iter().enumerate() {
        assert_eq!(array.fill_geometry(index, &mut scratch), Ok(true));
        assert_eq!(&scratch, value, "value disagreement at {index}");
        assert_eq!(array.raw_geometry(index).as_ref(), Some(value));
    }
}

#[test]
fn polygons_match_the_generic_accessor() {
    for layout in LAYOUTS {
        let array = polygons(&[Some(holed(0.0)), Some(holed(100.0)), Some(holed(200.0))], layout);
        let expected: Vec<Geometry> =
            [0.0, 100.0, 200.0].map(|at| Geometry::Polygon(holed(at))).into_iter().collect();
        assert_matches(&array, &expected);
    }
}

#[test]
fn line_strings_match_the_generic_accessor() {
    let values = [
        path(&[(0.0, 0.0), (1.0, 1.0)]),
        path(&[(5.0, 5.0), (6.0, 7.0), (8.0, 9.0)]),
    ];
    let array =
        lines(&[Some(values[0].clone()), Some(values[1].clone())], CoordType::Separated);
    let expected: Vec<Geometry> = values.into_iter().map(Geometry::LineString).collect();
    assert_matches(&array, &expected);
}

/// Row 1 holds two polygons and row 0 holds one, so the reuse path must resize the list.
#[test]
fn multi_polygons_match_the_generic_accessor() {
    let flat = polygons(
        &[Some(holed(0.0)), Some(holed(100.0)), Some(holed(200.0)), Some(holed(300.0))],
        CoordType::Separated,
    );
    let body = match flat.body {
        Body::Polygon { coords, geom_offsets, ring_offsets } => Body::MultiPolygon {
            coords,
            geom_offsets: vec![0, 1, 3, 4],
            polygon_offsets: geom_offsets,
            ring_offsets,
        },
        _ => unreachable!(),
    };
    let array = column(body, vec![true; 3]);
    let expected = [
        Geometry::MultiPolygon(vec![holed(0.0)]),
        Geometry::MultiPolygon(vec![holed(100.0), holed(200.0)]),
        Geometry::MultiPolygon(vec![holed(300.0)]),
    ];
    assert_matches(&array, &expected);
}

/// A mixed column changes variant from row to row. The filler must still be correct.
#[test]
fn a_mixed_column_falls_back_and_stays_correct() {
    let values = || {
        vec![
            Geometry::Point(c(1.0, 2.0)),
            Geometry::Polygon(holed(0.0)),
            line(&[(0.0, 0.0), (3.0, 4.0)]),
        ]
    };
    let array = mixed(values().into_iter().map(Some).collect());
    assert_matches(&array, &values());
}

/// Reuse must not leak the previous row into the next one.
#[test]
fn reuse_does_not_leak_between_rows() {
    let array = polygons(&[Some(holed(0.0)), Some(holed(100.0))], CoordType::Separated);
    let mut scratch = empty_geometry();
    array.fill_geometry(0, &mut scratch).unwrap();
    array.fill_geometry(1, &mut scratch).unwrap();
    assert_eq!(scratch, Geometry::Polygon(holed(100.0)));
}

#[test]
fn an_open_ring_is_closed_when_it_is_read() {
    let array = polygons(
        &[Some(polygon(&[&[(0.0, 0.0), (1.0, 0.0), (1.0, 1.0)]]))],
        CoordType::Separated,
    );
    assert_eq!(
        geometry_of(&array, 0),
        Some(Geometry::Polygon(polygon(&[&[(0.0, 0.0), (1.0, 0.0), (1.0, 1.0), (0.0, 0.0)]])))
    );
    assert!(all_null(&points(&[None, None], CoordType::Separated)));
    assert!(!all_null(&two_points()));
}

// -------------------------------------------------------------------- transform
fn flip_lines() -> [Option<Vec<Coord>>; 2] {
    [
        Some(path(&[(0.0, 0.0), (1.0, 2.0), (3.0, 4.0)])),
        Some(path(&[(5.0, 6.0), (7.0, 8.0)])),
    ]
}

#[test]
fn flip_swaps_x_and_y() {
    for layout in LAYOUTS {
        let array = points(&[Some((1.0, 2.0)), Some((3.0, 4.0))], layout);
        let flipped = st_flip_coordinates(&array).unwrap();
        assert_eq!(point_of(&flipped, 0), Some((2.0, 1.0)));
    }
}

/// A flip of a line string must not disturb the offsets.
#[test]
fn flip_keeps_the_offsets() {
    for layout in LAYOUTS {
        let array = lines(&flip_lines(), layout);
        let flipped = st_flip_coordinates(&array).unwrap();
        match (&flipped.body, &array.body) {
            (
                Body::LineString { geom_offsets: after, .. },
                Body::LineString { geom_offsets: before, .. },
            ) => assert_eq!(after, before),
            _ => panic!("expected line strings"),
        }
        let first = line_of(&flipped, 0).unwrap();
        assert_eq!(first[0].0, 0.0);
        assert_eq!(first[1].0, 2.0, "x and y swapped");
        assert_eq!(first[1].1, 1.0);
    }
}

#[test]
fn two_flips_cancel() {
    for layout in LAYOUTS {
        let array = lines(&flip_lines(), layout);
        let twice = st_flip_coordinates(&st_flip_coordinates(&array).unwrap()).unwrap();
        assert_eq!(geometry_of(&twice, 0), geometry_of(&array, 0));
        assert_eq!(geometry_of(&twice, 1), geometry_of(&array, 1));
    }
}

#[test]
fn force_3d_adds_a_zero_z() {
    let array = points(&[Some((1.0, 2.0)), Some((3.0, 4.0))], CoordType::Separated);
    let forced = st_force_3d(&array).unwrap();
    assert_eq!(forced.data_type().dimension, Some(Dimension::XYZ));
    assert_eq!(separated(&forced).buffers[2], [0.0, 0.0].map(f64::to_bits));
    // x and y are the input buffers, untouched.
    assert_eq!(separated(&forced).buffers[0], separated(&array).buffers[0]);
}

#[test]
fn force_2d_drops_z_without_copying_x_and_y() {
    let array = points(&[Some((1.0, 2.0)), Some((3.0, 4.0))], CoordType::Separated);
    let three_d = st_force_3d(&array).unwrap();
    let two_d = st_force_2d(&three_d).unwrap();
    assert_eq!(two_d.data_type().dimension, Some(Dimension::XY));
    assert_eq!(separated(&two_d).buffers[0], separated(&three_d).buffers[0], "x survives");
}

#[test]
fn force_to_the_same_dimension_is_a_no_op() {
    let array = points(&[Some((1.0, 2.0)), Some((3.0, 4.0))], CoordType::Separated);
    let forced = st_force_2d(&array).unwrap();
    assert_eq!(forced.len(), array.len());
    assert_eq!(forced.data_type().dimension, Some(Dimension::XY));
}

#[test]
fn polygons_keep_both_offset_levels() {
    let array = polygon_array();
    let flipped = st_flip_coordinates(&array).unwrap();
    match (&flipped.body, &array.body) {
        (
            Body::Polygon { geom_offsets: a, ring_offsets: b, .. },
            Body::Polygon { geom_offsets: d, ring_offsets: e, .. },
        ) => {
            assert_eq!(a, d);
            assert_eq!(b, e);
        }
        _ => panic!("expected polygons"),
    }
}

#[test]
fn untyped_input_is_rejected_with_advice() {
    let array = Column {
        body: Body::Rows {
            kind: Kind::Wkb,
            dimension: None,
            coord_type: None,
            items: vec![Some(Item {
                geometry: line(&[(0.0, 0.0), (1.0, 1.0)]),
                dim: Dimension::XY,
                z: 0,
                m: 0,
            })],
        },
        validity: None,
        metadata: Metadata::default(),
    };
    let err = st_force_3d(&array).unwrap_err();
    assert!(err.advice().contains("Cast a WKB"), "got: {err:?}");
}

#[test]
fn a_forced_dimension_keeps_its_ordinates_in_both_layouts() {
    for layout in LAYOUTS {
        let array = xyz_points(&[(1.0, 2.0, 3.0), (4.0, 5.0, 6.0)], layout);
        let flat = st_force_2d(&array).unwrap();
        assert_eq!(point_of(&flat, 1), Some((4.0, 5.0)));
        assert!(st_z(&flat).unwrap()[1].is_none());
        let back = st_force_3d(&flat).unwrap();
        assert_eq!(number(st_z(&back).unwrap()[1]), Some(0.0));
    }
}
