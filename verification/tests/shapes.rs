//! Shapes: overlays, transforms, edits and aggregates.

use geo::{Area, BooleanOps, Buffer, Centroid, ChaikinSmoothing, Contains, ConvexHull, Densify, InteriorPoint, MakeValid, MinimumRotatedRect, Orient, RemoveRepeatedPoints, Simplify, SimplifyVw, Validation};
use geo::algorithm::winding_order::Winding;
use geo::orient::Direction;
use geo_traits::to_geo::ToGeoGeometry;
use spatial_kernels::aggregate::{
    geometry_from_encoded, read_wkb, Collect, Extent, Gather, GatherAccumulator, UnionAll,
};
use spatial_kernels::bbox::Bbox;
use spatial_kernels::column::{
    Body, Column, CoordBuffer, CoordType, Dimension, InterleavedCoordBuffer, Item, Kind,
    SeparatedCoordBuffer,
};
use spatial_kernels::crs::Metadata;
use spatial_kernels::edit::{
    Structure, VertexEdit, apply_vertex_edit, st_dump, st_snap_to_grid, structure, vertex_edit,
};
use spatial_kernels::error::Error;
use spatial_kernels::geometry::{Coord, Geometry, Polygon};
use spatial_kernels::process::{
    Overlay, Shape, ShapeTools, Sized, SizedTools, boundary_of, overlay, reversed, shape,
    sized_shape, st_is_valid, st_is_valid_reason,
};

fn c(x: f64, y: f64) -> Coord {
    Coord { x: x.to_bits(), y: y.to_bits() }
}

fn xy(at: Coord) -> (f64, f64) {
    (f64::from_bits(at.x), f64::from_bits(at.y))
}

fn path(values: &[(f64, f64)]) -> Vec<Coord> {
    values.iter().map(|(x, y)| c(*x, *y)).collect()
}

fn polygon(rings: &[&[(f64, f64)]]) -> Polygon {
    Polygon {
        exterior: path(rings[0]),
        interiors: rings[1..].iter().map(|ring| path(ring)).collect(),
    }
}

fn buffer(values: &[Coord], layout: CoordType) -> CoordBuffer {
    match layout {
        CoordType::Separated => CoordBuffer::Separated(SeparatedCoordBuffer {
            buffers: [
                values.iter().map(|at| at.x).collect(),
                values.iter().map(|at| at.y).collect(),
                Vec::new(),
                Vec::new(),
            ],
            dim: Dimension::XY,
        }),
        CoordType::Interleaved => CoordBuffer::Interleaved(InterleavedCoordBuffer {
            coords: values.iter().flat_map(|at| [at.x, at.y]).collect(),
            dim: Dimension::XY,
        }),
    }
}

fn column(body: Body, valid: Vec<bool>) -> Column {
    let validity = if valid.iter().all(|ok| *ok) { None } else { Some(valid) };
    Column { body, validity, metadata: Metadata::default() }
}

fn points(values: &[Option<(f64, f64)>], layout: CoordType) -> Column {
    let coords: Vec<Coord> = values
        .iter()
        .map(|value| match value {
            Some((x, y)) => c(*x, *y),
            None => c(f64::NAN, f64::NAN),
        })
        .collect();
    column(
        Body::Point { coords: buffer(&coords, layout) },
        values.iter().map(|value| value.is_some()).collect(),
    )
}

fn lines(values: &[Option<Vec<Coord>>], layout: CoordType) -> Column {
    let mut coords: Vec<Coord> = Vec::new();
    let mut geom_offsets: Vec<i32> = vec![0];
    for value in values {
        if let Some(line) = value {
            coords.extend(line.iter().copied());
        }
        geom_offsets.push(coords.len() as i32);
    }
    column(
        Body::LineString { coords: buffer(&coords, layout), geom_offsets },
        values.iter().map(|value| value.is_some()).collect(),
    )
}

fn polygons(values: &[Option<Polygon>], layout: CoordType) -> Column {
    let mut coords: Vec<Coord> = Vec::new();
    let mut ring_offsets: Vec<i32> = vec![0];
    let mut geom_offsets: Vec<i32> = vec![0];
    for value in values {
        if let Some(area) = value {
            coords.extend(area.exterior.iter().copied());
            ring_offsets.push(coords.len() as i32);
            for ring in &area.interiors {
                coords.extend(ring.iter().copied());
                ring_offsets.push(coords.len() as i32);
            }
        }
        geom_offsets.push(ring_offsets.len() as i32 - 1);
    }
    column(
        Body::Polygon { coords: buffer(&coords, layout), geom_offsets, ring_offsets },
        values.iter().map(|value| value.is_some()).collect(),
    )
}

fn mixed(values: Vec<Option<Geometry>>) -> Column {
    let valid: Vec<bool> = values.iter().map(|value| value.is_some()).collect();
    let items: Vec<Option<Item>> = values
        .into_iter()
        .map(|value| {
            Some(Item {
                geometry: value.unwrap_or(Geometry::MultiPoint(Vec::new())),
                dim: Dimension::XY,
                z: 0,
                m: 0,
            })
        })
        .collect();
    column(
        Body::Rows {
            kind: Kind::Geometry,
            dimension: None,
            coord_type: Some(CoordType::Separated),
            items,
        },
        valid,
    )
}

fn bits(values: &[f64]) -> Vec<Option<u64>> {
    values.iter().map(|value| Some(value.to_bits())).collect()
}
fn to_geo_coord(at: &Coord) -> geo::Coord<f64> {
    geo::Coord { x: f64::from_bits(at.x), y: f64::from_bits(at.y) }
}

fn to_geo_line(line: &[Coord]) -> geo::LineString<f64> {
    geo::LineString::new(line.iter().map(to_geo_coord).collect())
}

fn to_geo_polygon(area: &Polygon) -> geo::Polygon<f64> {
    geo::Polygon::new(
        to_geo_line(&area.exterior),
        area.interiors.iter().map(|ring| to_geo_line(ring)).collect(),
    )
}

fn to_geo_polygons(areas: &[Polygon]) -> geo::MultiPolygon<f64> {
    geo::MultiPolygon::new(areas.iter().map(to_geo_polygon).collect())
}

fn to_geo(geom: &Geometry) -> geo::Geometry<f64> {
    match geom {
        Geometry::Point(at) => geo::Geometry::Point(to_geo_coord(at).into()),
        Geometry::Line(a, b) => {
            geo::Geometry::Line(geo::Line::new(to_geo_coord(a), to_geo_coord(b)))
        }
        Geometry::LineString(line) => geo::Geometry::LineString(to_geo_line(line)),
        Geometry::Polygon(area) => geo::Geometry::Polygon(to_geo_polygon(area)),
        Geometry::MultiPoint(list) => geo::Geometry::MultiPoint(geo::MultiPoint::new(
            list.iter().map(|at| to_geo_coord(at).into()).collect(),
        )),
        Geometry::MultiLineString(list) => geo::Geometry::MultiLineString(
            geo::MultiLineString::new(list.iter().map(|line| to_geo_line(line)).collect()),
        ),
        Geometry::MultiPolygon(areas) => geo::Geometry::MultiPolygon(to_geo_polygons(areas)),
        Geometry::GeometryCollection(parts) => geo::Geometry::GeometryCollection(
            geo::GeometryCollection::new_from(parts.iter().map(to_geo).collect()),
        ),
        Geometry::Rect(a, b) => {
            geo::Geometry::Rect(geo::Rect::new(to_geo_coord(a), to_geo_coord(b)))
        }
        Geometry::Triangle(a, b, d) => geo::Geometry::Triangle(geo::Triangle::new(
            to_geo_coord(a),
            to_geo_coord(b),
            to_geo_coord(d),
        )),
    }
}

fn from_geo_coord(at: geo::Coord<f64>) -> Coord {
    c(at.x, at.y)
}

fn from_geo_line(line: &geo::LineString<f64>) -> Vec<Coord> {
    line.0.iter().map(|at| from_geo_coord(*at)).collect()
}

fn from_geo_polygon(area: &geo::Polygon<f64>) -> Polygon {
    Polygon {
        exterior: from_geo_line(area.exterior()),
        interiors: area.interiors().iter().map(from_geo_line).collect(),
    }
}

fn from_geo_polygons(areas: &geo::MultiPolygon<f64>) -> Vec<Polygon> {
    areas.0.iter().map(from_geo_polygon).collect()
}

fn from_geo(geom: &geo::Geometry<f64>) -> Geometry {
    match geom {
        geo::Geometry::Point(at) => Geometry::Point(from_geo_coord(at.0)),
        geo::Geometry::Line(line) => {
            Geometry::Line(from_geo_coord(line.start), from_geo_coord(line.end))
        }
        geo::Geometry::LineString(line) => Geometry::LineString(from_geo_line(line)),
        geo::Geometry::Polygon(area) => Geometry::Polygon(from_geo_polygon(area)),
        geo::Geometry::MultiPoint(list) => {
            Geometry::MultiPoint(list.0.iter().map(|at| from_geo_coord(at.0)).collect())
        }
        geo::Geometry::MultiLineString(list) => {
            Geometry::MultiLineString(list.0.iter().map(from_geo_line).collect())
        }
        geo::Geometry::MultiPolygon(areas) => Geometry::MultiPolygon(from_geo_polygons(areas)),
        geo::Geometry::GeometryCollection(parts) => {
            Geometry::GeometryCollection(parts.0.iter().map(from_geo).collect())
        }
        geo::Geometry::Rect(area) => {
            Geometry::Rect(from_geo_coord(area.min()), from_geo_coord(area.max()))
        }
        geo::Geometry::Triangle(area) => Geometry::Triangle(
            from_geo_coord(area.v1()),
            from_geo_coord(area.v2()),
            from_geo_coord(area.v3()),
        ),
    }
}
fn line(values: &[(f64, f64)]) -> Geometry {
    Geometry::LineString(path(values))
}

fn unit_square() -> Polygon {
    polygon(&[&[(0.0, 0.0), (1.0, 0.0), (1.0, 1.0), (0.0, 1.0), (0.0, 0.0)]])
}

fn shifted_square() -> Polygon {
    polygon(&[&[(0.5, 0.0), (1.5, 0.0), (1.5, 1.0), (0.5, 1.0), (0.5, 0.0)]])
}

fn squares(values: Vec<Polygon>) -> Column {
    let values: Vec<Option<Polygon>> = values.into_iter().map(Some).collect();
    polygons(&values, CoordType::Separated)
}

fn area_of(geom: &Geometry) -> f64 {
    to_geo(geom).unsigned_area()
}

fn row_area(rows: &[Option<Geometry>], row: usize) -> f64 {
    rows[row].as_ref().map_or(0.0, area_of)
}

fn write(geom: &Geometry) -> Option<Vec<u8>> {
    let mut bytes = Vec::new();
    wkb::writer::write_geometry(&mut bytes, &to_geo(geom), &Default::default()).ok()?;
    Some(bytes)
}

fn read(encoded: &wkb::reader::Wkb<'_>) -> Option<Geometry> {
    Some(from_geo(&encoded.to_geometry()))
}

// ---------------------------------------------------------------------- overlay
fn overlaid(operation: Overlay, left: &Vec<Polygon>, right: &Vec<Polygon>) -> Vec<Polygon> {
    let (a, b) = (to_geo_polygons(left), to_geo_polygons(right));
    let result = match operation {
        Overlay::Union => a.union(&b),
        Overlay::Intersection => a.intersection(&b),
        Overlay::Difference => a.difference(&b),
        Overlay::SymDifference => a.xor(&b),
    };
    from_geo_polygons(&result)
}

#[test]
fn overlay_operations_agree_with_area() {
    let a = squares(vec![unit_square()]);
    let b = squares(vec![shifted_square()]);
    // The two unit squares overlap on half their width.
    for (operation, want) in [
        (Overlay::Union, 1.5),
        (Overlay::Intersection, 0.5),
        (Overlay::Difference, 0.5),
        (Overlay::SymDifference, 1.0),
    ] {
        let result = overlay(&a, &b, operation, &overlaid).unwrap();
        assert!((row_area(&result, 0) - want).abs() < 1e-9, "{}", operation.function_name());
    }
    assert_eq!(Overlay::all().len(), 4);
    assert_eq!(Overlay::SymDifference.sql_name(), "st_symdifference");
}

/// Boolean operations are defined for areal geometries, so a point yields null.
#[test]
fn overlay_of_a_point_is_null() {
    let a = squares(vec![unit_square()]);
    let point = points(&[Some((0.5, 0.5))], CoordType::Separated);
    let result = overlay(&a, &point, Overlay::Union, &overlaid).unwrap();
    assert!(result[0].is_none());
}

// ----------------------------------------------------------------------- shapes
fn hull(transform: Shape, geom: &Geometry) -> Option<Polygon> {
    let value = to_geo(geom);
    match transform {
        Shape::ConvexHull => Some(from_geo_polygon(&value.convex_hull())),
        _ => value.minimum_rotated_rect().as_ref().map(from_geo_polygon),
    }
}

fn representative(transform: Shape, geom: &Geometry) -> Option<Coord> {
    let value = to_geo(geom);
    let found = match transform {
        Shape::Centroid => value.centroid(),
        _ => value.interior_point(),
    };
    found.map(|point| from_geo_coord(point.0))
}

fn repair(geom: &Geometry) -> Option<Vec<Polygon>> {
    let repaired = match to_geo(geom) {
        geo::Geometry::Polygon(area) => area.make_valid().ok(),
        geo::Geometry::MultiPolygon(areas) => areas.make_valid().ok(),
        _ => unreachable!("only areas are repaired"),
    };
    repaired.as_ref().map(from_geo_polygons)
}

fn distinct(geom: &Geometry) -> Geometry {
    from_geo(&to_geo(geom).remove_repeated_points())
}

fn orient(area: &Polygon, outward: bool) -> Polygon {
    let direction = if outward { Direction::Default } else { Direction::Reversed };
    from_geo_polygon(&to_geo_polygon(area).orient(direction))
}

fn shaped(array: &Column, transform: Shape) -> Vec<Option<Geometry>> {
    let tools = ShapeTools { hull, point: representative, repair, distinct, orient };
    shape(array, transform, &tools).unwrap()
}

#[test]
fn convex_hull_and_oriented_envelope() {
    let array = mixed(vec![Some(Geometry::MultiPoint(path(&[
        (0.0, 0.0),
        (2.0, 0.0),
        (2.0, 2.0),
        (0.0, 2.0),
        (1.0, 1.0),
    ])))]);
    let hull = shaped(&array, Shape::ConvexHull);
    assert!((row_area(&hull, 0) - 4.0).abs() < 1e-9, "the 2 by 2 box");
    let envelope = shaped(&array, Shape::OrientedEnvelope);
    assert!((row_area(&envelope, 0) - 4.0).abs() < 1e-9);
}

#[test]
fn centroid_and_point_on_surface() {
    let array = squares(vec![unit_square()]);
    match &shaped(&array, Shape::Centroid)[0] {
        Some(Geometry::Point(at)) => {
            let (x, y) = xy(*at);
            assert!((x - 0.5).abs() < 1e-9);
            assert!((y - 0.5).abs() < 1e-9);
        }
        other => panic!("expected a point, got {other:?}"),
    }
    // A point on surface must actually lie inside the polygon.
    let on_surface = shaped(&array, Shape::PointOnSurface);
    assert!(to_geo_polygon(&unit_square()).contains(&to_geo(on_surface[0].as_ref().unwrap())));
}

#[test]
fn boundary_follows_the_ogc_rules() {
    let array = mixed(vec![
        Some(Geometry::Polygon(unit_square())),
        Some(line(&[(0.0, 0.0), (1.0, 1.0)])),
        Some(line(&[(0.0, 0.0), (1.0, 0.0), (1.0, 1.0), (0.0, 0.0)])),
        Some(Geometry::Point(c(1.0, 1.0))),
    ]);
    let result = shaped(&array, Shape::Boundary);
    // A polygon's boundary is its rings.
    assert!(matches!(result[0], Some(Geometry::MultiLineString(_))));
    // An open line gives its two endpoints.
    assert_eq!(result[1], Some(Geometry::MultiPoint(path(&[(0.0, 0.0), (1.0, 1.0)]))));
    // A closed line has an empty boundary.
    assert_eq!(result[2], Some(Geometry::MultiPoint(Vec::new())));
    // And so does a point.
    assert_eq!(result[3], Some(Geometry::MultiPoint(Vec::new())));
}

#[test]
fn an_even_number_of_ends_cancels() {
    let lines = Geometry::MultiLineString(vec![
        path(&[(0.0, 0.0), (1.0, 1.0)]),
        path(&[(1.0, 1.0), (2.0, 0.0)]),
        path(&[(-0.0, 0.0), (5.0, 5.0)]),
        path(&[(1.0, 1.0), (9.0, 9.0)]),
    ]);
    // The origin occurs twice, and (1, 1) three times.
    assert_eq!(
        boundary_of(&lines),
        Geometry::MultiPoint(path(&[(2.0, 0.0), (5.0, 5.0), (1.0, 1.0), (9.0, 9.0)]))
    );
}

#[test]
fn reverse_flips_the_coordinate_order() {
    let array = mixed(vec![Some(line(&[(0.0, 0.0), (1.0, 1.0), (2.0, 2.0)]))]);
    let result = shaped(&array, Shape::Reverse);
    assert_eq!(result[0], Some(line(&[(2.0, 2.0), (1.0, 1.0), (0.0, 0.0)])));
}

#[test]
fn reversing_twice_changes_nothing() {
    for geom in [
        line(&[(0.0, 0.0), (1.0, 1.0), (2.0, 5.0)]),
        Geometry::Polygon(unit_square()),
        Geometry::MultiPolygon(vec![unit_square(), shifted_square()]),
        Geometry::Line(c(0.0, 0.0), c(1.0, 2.0)),
    ] {
        assert_eq!(reversed(&reversed(&geom)), geom);
    }
}

#[test]
fn force_orientation_is_stable() {
    let array = squares(vec![unit_square()]);
    match &shaped(&array, Shape::ForceCcw)[0] {
        Some(Geometry::Polygon(area)) => assert!(to_geo_polygon(area).exterior().is_ccw()),
        other => panic!("expected a polygon, got {other:?}"),
    }
    match &shaped(&array, Shape::ForceCw)[0] {
        Some(Geometry::Polygon(area)) => assert!(to_geo_polygon(area).exterior().is_cw()),
        other => panic!("expected a polygon, got {other:?}"),
    }
}

#[test]
fn repeated_points_are_removed() {
    let array = mixed(vec![Some(line(&[(0.0, 0.0), (0.0, 0.0), (1.0, 1.0)]))]);
    let result = shaped(&array, Shape::RemoveRepeatedPoints);
    assert_eq!(result[0], Some(line(&[(0.0, 0.0), (1.0, 1.0)])));
    assert_eq!(Shape::all().len(), 10);
    assert_eq!(Shape::ForceCw.function_name(), "ST_ForcePolygonCW");
}

#[test]
fn process_nulls_propagate() {
    let array = polygons(&[Some(unit_square()), None], CoordType::Separated);
    let hull = shaped(&array, Shape::ConvexHull);
    assert!(hull[0].is_some());
    assert!(hull[1].is_none());
}

// ----------------------------------------------------------------- sized shapes
fn buffered(geom: &Geometry, distance: u64) -> Vec<Polygon> {
    from_geo_polygons(&to_geo(geom).buffer(f64::from_bits(distance)))
}

fn worked_line(transform: Sized, value: &Vec<Coord>, parameter: u64) -> Vec<Coord> {
    let (value, parameter) = (to_geo_line(value), f64::from_bits(parameter));
    from_geo_line(&match transform {
        Sized::Simplify => value.simplify(parameter),
        Sized::SimplifyVw => value.simplify_vw(parameter),
        Sized::Segmentize => geo::Euclidean.densify(&value, parameter),
        _ => value.chaikin_smoothing(parameter as usize),
    })
}

fn worked_polygon(transform: Sized, value: &Polygon, parameter: u64) -> Polygon {
    let (value, parameter) = (to_geo_polygon(value), f64::from_bits(parameter));
    from_geo_polygon(&match transform {
        Sized::Simplify => value.simplify(parameter),
        Sized::SimplifyVw => value.simplify_vw(parameter),
        Sized::Segmentize => geo::Euclidean.densify(&value, parameter),
        _ => value.chaikin_smoothing(parameter as usize),
    })
}

fn concave(geom: &Geometry, _percent: u64) -> Polygon {
    hull(Shape::ConvexHull, geom).unwrap()
}

fn round(value: u64) -> u64 {
    f64::from_bits(value).round().to_bits()
}

fn sized(
    array: &Column,
    transform: Sized,
    parameter: &[f64],
) -> Result<Vec<Option<Geometry>>, Error> {
    let tools = SizedTools {
        buffer: buffered,
        line: worked_line,
        polygon: worked_polygon,
        hull: concave,
        round,
    };
    sized_shape(array, transform, &bits(parameter), &tools)
}

fn vertex_count(value: &Option<Geometry>) -> usize {
    match value {
        Some(Geometry::LineString(line)) => line.len(),
        other => panic!("expected a line string, got {other:?}"),
    }
}

#[test]
fn simplify_drops_collinear_points() {
    let array = mixed(vec![Some(line(&[(0.0, 0.0), (1.0, 0.001), (2.0, 0.0), (3.0, 0.0)]))]);
    for transform in [Sized::Simplify, Sized::SimplifyVw] {
        let result = sized(&array, transform, &[0.01]).unwrap();
        assert!(
            vertex_count(&result[0]) < 4,
            "{} kept every point",
            transform.function_name()
        );
    }
}

#[test]
fn buffer_grows_the_area() {
    let result = sized(&squares(vec![unit_square()]), Sized::Buffer, &[0.5]).unwrap();
    let area = row_area(&result, 0);
    // The unit square grown by 0.5 is 1 + 4 sides of 0.5 + 4 quarter circles of radius 0.5.
    let expected = 1.0 + 4.0 * 0.5 + std::f64::consts::PI * 0.25;
    assert!((area - expected).abs() < 0.05, "area was {area}");
}

#[test]
fn segmentize_adds_vertices() {
    let array = mixed(vec![Some(line(&[(0.0, 0.0), (10.0, 0.0)]))]);
    let result = sized(&array, Sized::Segmentize, &[2.0]).unwrap();
    let count = vertex_count(&result[0]);
    assert!(count >= 6, "got {count} points");
    // A non-positive length would never terminate, so it gives null.
    let result = sized(&array, Sized::Segmentize, &[0.0]).unwrap();
    assert!(result[0].is_none());
}

#[test]
fn smoothing_counts_from_zero_to_eight() {
    let array = mixed(vec![Some(line(&[(0.0, 0.0), (1.0, 1.0), (2.0, 0.0)]))]);
    assert_eq!(vertex_count(&sized(&array, Sized::Chaikin, &[0.2]).unwrap()[0]), 3);
    assert!(vertex_count(&sized(&array, Sized::Chaikin, &[1.0]).unwrap()[0]) > 3);
    assert!(sized(&array, Sized::Chaikin, &[9.0]).unwrap()[0].is_none());
    assert!(sized(&array, Sized::Chaikin, &[-1.0]).unwrap()[0].is_none());
}

#[test]
fn a_point_has_no_concave_hull() {
    let array = mixed(vec![
        Some(Geometry::Point(c(0.0, 0.0))),
        Some(Geometry::MultiPoint(path(&[(0.0, 0.0), (2.0, 0.0), (2.0, 2.0), (0.0, 2.0)]))),
    ]);
    let result = sized(&array, Sized::ConcaveHull, &[1.0]).unwrap();
    assert!(result[0].is_none());
    assert!((row_area(&result, 1) - 4.0).abs() < 1e-9);
    assert!(matches!(
        sized(&array, Sized::ConcaveHull, &[]),
        Err(Error::ParameterCount { function: "ST_ConcaveHull", given: 0, rows: 2 })
    ));
    assert_eq!(Sized::all().len(), 6);
    assert_eq!(Sized::Chaikin.sql_name(), "st_chaikinsmoothing");
}

// --------------------------------------------------------------------- validity
fn check(geom: &Geometry) -> Option<String> {
    to_geo(geom).check_validation().err().map(|problem| problem.to_string())
}

#[test]
fn validity_reports_the_reason() {
    // A polygon whose interior ring escapes the exterior is invalid.
    let broken = polygon(&[
        &[(0.0, 0.0), (1.0, 0.0), (1.0, 1.0), (0.0, 1.0), (0.0, 0.0)],
        &[(5.0, 5.0), (6.0, 5.0), (6.0, 6.0), (5.0, 5.0)],
    ]);
    let array = squares(vec![unit_square(), broken]);
    let valid = st_is_valid(&array, &check).unwrap();
    assert_eq!(valid[0], Some(true));
    assert_eq!(valid[1], Some(false));
    let reasons = st_is_valid_reason(&array, &check).unwrap();
    assert_eq!(reasons[0].as_deref(), Some("Valid Geometry"));
    assert!(!reasons[1].as_ref().unwrap().is_empty());
    assert_ne!(reasons[1].as_deref(), Some("Valid Geometry"));
}

#[test]
fn make_valid_repairs_a_polygon() {
    // A bow tie polygon, which self intersects.
    let bow_tie = polygon(&[&[(0.0, 0.0), (2.0, 2.0), (2.0, 0.0), (0.0, 2.0), (0.0, 0.0)]]);
    let array = squares(vec![bow_tie]);
    assert_eq!(st_is_valid(&array, &check).unwrap()[0], Some(false));
    let repaired = shaped(&array, Shape::MakeValid);
    let geometry = repaired[0].as_ref().expect("repair must produce a geometry");
    assert!(check(geometry).is_none(), "the repaired geometry must be valid");
}

// ------------------------------------------------------------------------- edit
#[test]
fn multi_promotes_a_single_geometry() {
    let array = mixed(vec![
        Some(Geometry::Point(c(1.0, 2.0))),
        Some(line(&[(0.0, 0.0), (1.0, 1.0)])),
        Some(Geometry::MultiPoint(path(&[(0.0, 0.0), (1.0, 1.0)]))),
    ]);
    let result = structure(&array, Structure::Multi).unwrap();
    assert!(matches!(result[0], Some(Geometry::MultiPoint(_))));
    assert!(matches!(result[1], Some(Geometry::MultiLineString(_))));
    // Already multi, so unchanged.
    assert!(matches!(result[2], Some(Geometry::MultiPoint(_))));
    let again = Structure::Multi.apply(result[1].as_ref().unwrap());
    assert_eq!(Some(again), result[1], "promotion is done once");
}

#[test]
fn points_gathers_every_coordinate() {
    let array = mixed(vec![Some(Geometry::Polygon(polygon(&[&[
        (0.0, 0.0),
        (1.0, 0.0),
        (1.0, 1.0),
        (0.0, 0.0),
    ]])))]);
    let result = structure(&array, Structure::Points).unwrap();
    match &result[0] {
        Some(Geometry::MultiPoint(found)) => assert_eq!(found.len(), 4),
        other => panic!("expected a multi point, got {other:?}"),
    }
    assert_eq!(Structure::all().len(), 2);
    assert_eq!(Structure::Points.function_name(), "ST_Points");
    assert_eq!(Structure::Multi.sql_name(), "st_multi");
}

fn snap(grid: u64) -> impl Fn(Coord) -> Coord {
    let grid = f64::from_bits(grid);
    move |at: Coord| {
        let (x, y) = xy(at);
        c((x / grid).round() * grid, (y / grid).round() * grid)
    }
}

#[test]
fn snap_to_grid_rounds_coordinates() {
    let array = mixed(vec![Some(Geometry::Point(c(1.234, 5.678)))]);
    let result = st_snap_to_grid(&array, &bits(&[0.5]), &snap).unwrap();
    assert_eq!(result[0], Some(Geometry::Point(c(1.0, 5.5))));
}

#[test]
fn snap_to_grid_rejects_a_non_positive_size() {
    let array = mixed(vec![Some(Geometry::Point(c(1.0, 2.0)))]);
    for bad in [0.0, -1.0] {
        let result = st_snap_to_grid(&array, &bits(&[bad]), &snap).unwrap();
        assert!(result[0].is_none(), "{bad} must give null");
    }
}

fn three_line() -> Column {
    lines(&[Some(path(&[(0.0, 0.0), (1.0, 1.0), (2.0, 2.0)]))], CoordType::Separated)
}

fn edited(
    array: &Column,
    edit: VertexEdit,
    point: Option<(f64, f64)>,
    position: Option<i32>,
) -> Option<Vec<(f64, f64)>> {
    let point = point.map(|at| points(&[Some(at)], CoordType::Separated));
    let position = position.map(|at| vec![Some(at)]);
    let result = vertex_edit(array, edit, point.as_ref(), position.as_ref()).unwrap();
    match &result[0] {
        Some(Geometry::LineString(line)) => Some(line.iter().map(|at| xy(*at)).collect()),
        Some(other) => panic!("expected a line string, got {other:?}"),
        None => None,
    }
}

#[test]
fn add_point_appends_by_default() {
    let line = edited(&three_line(), VertexEdit::Add, Some((9.0, 9.0)), None).unwrap();
    assert_eq!(line.len(), 4);
    assert_eq!(line[3], (9.0, 9.0));
}

#[test]
fn a_negative_or_distant_position_gives_null() {
    for at in [-1, 4, i32::MIN, i32::MAX] {
        assert!(edited(&three_line(), VertexEdit::Add, Some((9.0, 9.0)), Some(at)).is_none());
    }
    for at in [-1, 3, i32::MIN] {
        assert!(edited(&three_line(), VertexEdit::Replace, Some((9.0, 9.0)), Some(at)).is_none());
        assert!(edited(&three_line(), VertexEdit::Remove, None, Some(at)).is_none());
    }
    let longer = edited(&three_line(), VertexEdit::Add, Some((9.0, 9.0)), Some(3)).unwrap();
    assert_eq!(longer.len(), 4);
}

#[test]
fn add_point_inserts_at_a_position() {
    let line = edited(&three_line(), VertexEdit::Add, Some((9.0, 9.0)), Some(1)).unwrap();
    assert_eq!(line[1], (9.0, 9.0));
    assert_eq!(line.len(), 4);
}

#[test]
fn remove_and_set_point() {
    let removed = edited(&three_line(), VertexEdit::Remove, None, Some(1)).unwrap();
    assert_eq!(removed.len(), 2);
    assert_eq!(removed[1], (2.0, 2.0));
    let set = edited(&three_line(), VertexEdit::Replace, Some((7.0, 7.0)), Some(1)).unwrap();
    assert_eq!(set[1], (7.0, 7.0));
}

#[test]
fn a_position_outside_the_line_gives_null() {
    assert!(edited(&three_line(), VertexEdit::Remove, None, Some(99)).is_none());
    assert!(edited(&three_line(), VertexEdit::Add, Some((0.0, 0.0)), Some(4)).is_none());
    assert!(edited(&three_line(), VertexEdit::Replace, Some((0.0, 0.0)), Some(-1)).is_none());
    let two = points(&[None, None], CoordType::Separated);
    assert!(matches!(
        vertex_edit(&three_line(), VertexEdit::Add, Some(&two), None),
        Err(Error::UnequalLengths { function: "ST_AddPoint", left: 1, right: 2 })
    ));
}

/// A line string needs two coordinates, so the last removal is refused.
#[test]
fn remove_will_not_collapse_a_line() {
    let array = lines(&[Some(path(&[(0.0, 0.0), (1.0, 1.0)]))], CoordType::Separated);
    assert!(edited(&array, VertexEdit::Remove, None, Some(0)).is_none());
}

#[test]
fn removing_undoes_adding() {
    let line = path(&[(0.0, 0.0), (1.0, 1.0)]);
    for at in 0..3 {
        let longer = apply_vertex_edit(&line, VertexEdit::Add, Some(c(5.0, 5.0)), Some(at));
        let back = apply_vertex_edit(&longer.unwrap(), VertexEdit::Remove, None, Some(at));
        assert_eq!(back, Some(line.clone()));
    }
    assert!(VertexEdit::Add.needs_point() && !VertexEdit::Remove.needs_point());
    assert_eq!(VertexEdit::all().len(), 3);
    assert_eq!(VertexEdit::Replace.function_name(), "ST_SetPoint");
    assert_eq!(VertexEdit::Replace.sql_name(), "st_setpoint");
}

#[test]
fn dump_splits_a_collection() {
    let array = mixed(vec![
        Some(Geometry::MultiPoint(path(&[(0.0, 0.0), (1.0, 1.0), (2.0, 2.0)]))),
        Some(Geometry::Point(c(9.0, 9.0))),
    ]);
    let dumped = st_dump(&array, &write).unwrap();
    assert_eq!(dumped.valid.len(), 2);
    assert_eq!(dumped.offsets[1] - dumped.offsets[0], 3, "three parts");
    assert_eq!(dumped.offsets[2] - dumped.offsets[1], 1, "a single geometry is one part");
    // The parts are WKB, which reads back on its own.
    let parts: Vec<Geometry> =
        dumped.parts[0..3].iter().map(|bytes| read_wkb(bytes, &read).unwrap()).collect();
    assert_eq!(parts.len(), 3);
    assert_eq!(parts[1], Geometry::Point(c(1.0, 1.0)));
}

#[test]
fn dump_keeps_null_rows_null() {
    let array =
        mixed(vec![Some(Geometry::MultiPoint(path(&[(0.0, 0.0), (1.0, 1.0)]))), None]);
    let dumped = st_dump(&array, &write).unwrap();
    assert!(dumped.valid[0]);
    assert!(!dumped.valid[1]);
    let refuse = |_: &Geometry| -> Option<Vec<u8>> { None };
    assert!(matches!(st_dump(&array, &refuse), Err(Error::External)));
}

// -------------------------------------------------------------------- aggregate
fn bounds(found: &Bbox) -> [f64; 4] {
    [found.minx, found.miny, found.maxx, found.maxy].map(f64::from_bits)
}

#[test]
fn extent_of_points() {
    for layout in [CoordType::Separated, CoordType::Interleaved] {
        let array = points(&[Some((1.0, 5.0)), None, Some((-3.0, 2.0))], layout);
        let mut extent = Extent::new();
        extent.update(&array).unwrap();
        let found = extent.finish().expect("two valid points");
        assert_eq!(bounds(&found), [-3.0, 2.0, 1.0, 5.0]);
    }
}

#[test]
fn extent_of_mixed_geometries() {
    let array = mixed(vec![
        Some(Geometry::Point(c(0.0, 0.0))),
        Some(Geometry::Polygon(polygon(&[&[
            (2.0, 2.0),
            (8.0, 2.0),
            (8.0, 6.0),
            (2.0, 6.0),
            (2.0, 2.0),
        ]]))),
    ]);
    let mut extent = Extent::new();
    extent.update(&array).unwrap();
    let found = bounds(&extent.finish().unwrap());
    assert_eq!(found[0], 0.0);
    assert_eq!(found[2], 8.0);
    assert_eq!(found[3], 6.0);
}

#[test]
fn merge_matches_a_single_pass() {
    let left = points(&[Some((1.0, 1.0))], CoordType::Separated);
    let right = points(&[Some((4.0, 9.0))], CoordType::Separated);
    let both = points(&[Some((1.0, 1.0)), Some((4.0, 9.0))], CoordType::Separated);
    let mut partial_a = Extent::new();
    partial_a.update(&left).unwrap();
    let mut partial_b = Extent::new();
    partial_b.update(&right).unwrap();
    let state = partial_b.bounds();
    let mut batched = partial_a;
    batched.merge_batch(
        &vec![state.minx],
        &vec![state.miny],
        &vec![state.maxx],
        &vec![state.maxy],
    );
    partial_a.merge(&partial_b);
    let mut single = Extent::new();
    single.update(&both).unwrap();
    assert!(partial_a.bounds().same(&single.bounds()));
    assert!(batched.bounds().same(&single.bounds()));
}

#[test]
fn all_null_input_yields_none() {
    let array = points(&[None, None], CoordType::Separated);
    let mut extent = Extent::new();
    extent.update(&array).unwrap();
    assert!(extent.is_empty());
    assert!(extent.finish().is_none());
}

#[test]
fn state_round_trips_through_four_values() {
    let [minx, miny, maxx, maxy] = [-1.0, -2.0, 3.0, 4.0].map(f64::to_bits);
    let extent = Extent::from_bounds(minx, miny, maxx, maxy);
    let state = extent.bounds();
    let rebuilt = Extent::from_bounds(state.minx, state.miny, state.maxx, state.maxy);
    assert!(extent.bounds().same(&rebuilt.bounds()));
}

fn collected(state: Collect) -> Vec<Geometry> {
    match state.finish() {
        Some(Geometry::GeometryCollection(parts)) => parts,
        other => panic!("expected a collection, got {other:?}"),
    }
}

#[test]
fn collect_gathers_every_row() {
    let mut state = Collect::new();
    state.update(&squares(vec![unit_square(), shifted_square()])).unwrap();
    assert_eq!(collected(state).len(), 2);
}

#[test]
fn collect_of_nothing_is_none() {
    let state = Collect::new();
    assert!(state.is_empty());
    assert!(state.finish().is_none());
}

/// A partial state must survive the trip between partitions.
#[test]
fn collect_state_round_trips_through_wkb() {
    let mut left = Collect::new();
    left.update(&squares(vec![unit_square(), shifted_square()])).unwrap();
    let encoded = left.to_wkb(&write).unwrap();
    let decoded = Collect::from_wkb(&encoded, &read).unwrap();
    assert_eq!(collected(decoded).len(), 2);
    assert!(matches!(Collect::from_wkb(&[0], &read), Err(Error::External)));
}

#[test]
fn collect_merge_matches_a_single_pass() {
    let mut partial = Collect::new();
    partial.update(&squares(vec![unit_square()])).unwrap();
    let mut other = Collect::new();
    other.update(&squares(vec![shifted_square()])).unwrap();
    partial.merge(other);
    let mut single = Collect::new();
    single.update(&squares(vec![unit_square(), shifted_square()])).unwrap();
    assert_eq!(collected(partial), collected(single));
}

fn union(left: &Vec<Polygon>, right: &Vec<Polygon>) -> Vec<Polygon> {
    overlaid(Overlay::Union, left, right)
}

#[test]
fn union_merges_overlapping_shapes() {
    let mut state = UnionAll::new();
    state.update(&squares(vec![unit_square(), shifted_square()]), &union).unwrap();
    let found = state.finish().expect("two polygons were seen");
    // The two unit squares half overlap, so they cover 1.5.
    assert!((area_of(&found) - 1.5).abs() < 1e-9);
}

#[test]
fn union_merge_matches_a_single_pass() {
    let mut partial = UnionAll::new();
    partial.update(&squares(vec![unit_square()]), &union).unwrap();
    let mut other = UnionAll::new();
    other.update(&squares(vec![shifted_square()]), &union).unwrap();
    partial.merge(other, &union);
    let mut single = UnionAll::new();
    single.update(&squares(vec![unit_square(), shifted_square()]), &union).unwrap();
    let merged = area_of(&partial.finish().unwrap());
    let direct = area_of(&single.finish().unwrap());
    assert!((merged - direct).abs() < 1e-9);
}

#[test]
fn union_state_round_trips_through_wkb() {
    let mut state = UnionAll::new();
    state.update(&squares(vec![unit_square(), shifted_square()]), &union).unwrap();
    let encoded = state.to_wkb(&write).unwrap();
    let decoded = UnionAll::from_wkb(&encoded, &read).unwrap();
    assert!((area_of(&decoded.finish().unwrap()) - 1.5).abs() < 1e-9);
}

#[test]
fn union_of_nothing_is_none() {
    let state = UnionAll::new();
    assert!(state.is_empty());
    assert!(state.finish().is_none());
    // An empty state still encodes and decodes.
    let encoded = UnionAll::new().to_wkb(&write).unwrap();
    assert!(UnionAll::from_wkb(&encoded, &read).unwrap().finish().is_none());
}

#[test]
fn an_accumulator_gathers_across_partitions() {
    for (gather, name) in [(Gather::Collect, "st_collect"), (Gather::Union, "st_memunion")] {
        assert_eq!(gather.names().0, name);
        let mut left = GatherAccumulator::new(gather);
        left.update_batch(&squares(vec![unit_square()]), &union).unwrap();
        let mut right = GatherAccumulator::new(gather);
        right.update_batch(&squares(vec![shifted_square()]), &union).unwrap();
        let states = vec![Some(right.state(&write).unwrap()), None];
        left.merge_batch(&states, &read, &union).unwrap();
        match (gather, left.finished()) {
            (Gather::Collect, Some(Geometry::GeometryCollection(parts))) => {
                assert_eq!(parts.len(), 2);
            }
            (Gather::Union, Some(found)) => assert!((area_of(&found) - 1.5).abs() < 1e-9),
            (_, other) => panic!("unexpected {other:?}"),
        }
        // The state starts over.
        assert!(left.finished().is_none());
    }
}

#[test]
fn written_bytes_are_read_back() {
    let line = Geometry::LineString(vec![c(0.0, 0.0), c(3.0, 4.0)]);
    let bytes = write(&line).unwrap();
    assert_eq!(read_wkb(&bytes, &read).unwrap(), line);
}

#[test]
fn bytes_that_hold_no_geometry_are_an_error() {
    let point = write(&Geometry::Point(c(1.0, 2.0))).unwrap();
    assert!(matches!(read_wkb(&point[..20], &read), Err(Error::External)));
    assert!(matches!(read_wkb(&[], &read), Err(Error::External)));
    assert!(matches!(geometry_from_encoded(None, &read), Err(Error::External)));

    let mut state = Collect::new();
    let partials = vec![Some(point), None, Some(vec![9u8])];
    assert!(matches!(state.merge_batch(&partials, &read), Err(Error::External)));
}
