//! Measures, positions along lines, clusters and tessellations.

use geo::{Area, Bearing, Centroid, ClosestPoint, CoordsIter, Dbscan, Destination, Distance, Euclidean, Geodesic, HausdorffDistance, Haversine, InterpolateLine, KMeans, Length, LineLocatePoint, TriangulateDelaunayUnconstrained, Voronoi};
use geo::line_measures::FrechetDistance;
use spatial_kernels::cluster::{Cluster, evaluate_all, st_cluster_dbscan, st_cluster_kmeans};
use spatial_kernels::column::{
    Body, Column, CoordBuffer, CoordType, Dimension, InterleavedCoordBuffer, Item, Kind,
    SeparatedCoordBuffer,
};
use spatial_kernels::crs::Metadata;
use spatial_kernels::error::Error;
use spatial_kernels::geometry::{Coord, Geometry, Polygon};
use spatial_kernels::linear::{
    Closest, Nearest, line_output_type, point_output_type, st_closest_point,
    st_line_interpolate_point, st_line_locate_point, st_project, st_shortest_line,
};
use spatial_kernels::measure::{
    BinaryMeasure, UnaryMeasure, binary_measure, st_area, st_length, st_perimeter, unary_measure,
};
use spatial_kernels::number::count;
use spatial_kernels::tessellate::{Tessellation, TessellationTools, tessellate};

fn c(x: f64, y: f64) -> Coord {
    Coord { x: x.to_bits(), y: y.to_bits() }
}

fn xy(at: Coord) -> (f64, f64) {
    (f64::from_bits(at.x), f64::from_bits(at.y))
}

fn path(values: &[(f64, f64)]) -> Vec<Coord> {
    values.iter().map(|(x, y)| c(*x, *y)).collect()
}

fn polygon(rings: &[&[(f64, f64)]]) -> Polygon {
    Polygon {
        exterior: path(rings[0]),
        interiors: rings[1..].iter().map(|ring| path(ring)).collect(),
    }
}

fn buffer(values: &[Coord], layout: CoordType) -> CoordBuffer {
    match layout {
        CoordType::Separated => CoordBuffer::Separated(SeparatedCoordBuffer {
            buffers: [
                values.iter().map(|at| at.x).collect(),
                values.iter().map(|at| at.y).collect(),
                Vec::new(),
                Vec::new(),
            ],
            dim: Dimension::XY,
        }),
        CoordType::Interleaved => CoordBuffer::Interleaved(InterleavedCoordBuffer {
            coords: values.iter().flat_map(|at| [at.x, at.y]).collect(),
            dim: Dimension::XY,
        }),
    }
}

fn column(body: Body, valid: Vec<bool>) -> Column {
    let validity = if valid.iter().all(|ok| *ok) { None } else { Some(valid) };
    Column { body, validity, metadata: Metadata::default() }
}

fn points(values: &[Option<(f64, f64)>], layout: CoordType) -> Column {
    let coords: Vec<Coord> = values
        .iter()
        .map(|value| match value {
            Some((x, y)) => c(*x, *y),
            None => c(f64::NAN, f64::NAN),
        })
        .collect();
    column(
        Body::Point { coords: buffer(&coords, layout) },
        values.iter().map(|value| value.is_some()).collect(),
    )
}

fn lines(values: &[Option<Vec<Coord>>], layout: CoordType) -> Column {
    let mut coords: Vec<Coord> = Vec::new();
    let mut geom_offsets: Vec<i32> = vec![0];
    for value in values {
        if let Some(line) = value {
            coords.extend(line.iter().copied());
        }
        geom_offsets.push(coords.len() as i32);
    }
    column(
        Body::LineString { coords: buffer(&coords, layout), geom_offsets },
        values.iter().map(|value| value.is_some()).collect(),
    )
}

fn polygons(values: &[Option<Polygon>], layout: CoordType) -> Column {
    let mut coords: Vec<Coord> = Vec::new();
    let mut ring_offsets: Vec<i32> = vec![0];
    let mut geom_offsets: Vec<i32> = vec![0];
    for value in values {
        if let Some(area) = value {
            coords.extend(area.exterior.iter().copied());
            ring_offsets.push(coords.len() as i32);
            for ring in &area.interiors {
                coords.extend(ring.iter().copied());
                ring_offsets.push(coords.len() as i32);
            }
        }
        geom_offsets.push(ring_offsets.len() as i32 - 1);
    }
    column(
        Body::Polygon { coords: buffer(&coords, layout), geom_offsets, ring_offsets },
        values.iter().map(|value| value.is_some()).collect(),
    )
}

fn mixed(values: Vec<Option<Geometry>>) -> Column {
    let valid: Vec<bool> = values.iter().map(|value| value.is_some()).collect();
    let items: Vec<Option<Item>> = values
        .into_iter()
        .map(|value| {
            Some(Item {
                geometry: value.unwrap_or(Geometry::MultiPoint(Vec::new())),
                dim: Dimension::XY,
                z: 0,
                m: 0,
            })
        })
        .collect();
    column(
        Body::Rows {
            kind: Kind::Geometry,
            dimension: None,
            coord_type: Some(CoordType::Separated),
            items,
        },
        valid,
    )
}

fn number(value: Option<u64>) -> Option<f64> {
    value.map(f64::from_bits)
}

fn bits(values: &[f64]) -> Vec<Option<u64>> {
    values.iter().map(|value| Some(value.to_bits())).collect()
}
fn to_geo_coord(at: &Coord) -> geo::Coord<f64> {
    geo::Coord { x: f64::from_bits(at.x), y: f64::from_bits(at.y) }
}

fn to_geo_line(line: &[Coord]) -> geo::LineString<f64> {
    geo::LineString::new(line.iter().map(to_geo_coord).collect())
}

fn to_geo_polygon(area: &Polygon) -> geo::Polygon<f64> {
    geo::Polygon::new(
        to_geo_line(&area.exterior),
        area.interiors.iter().map(|ring| to_geo_line(ring)).collect(),
    )
}

fn to_geo_polygons(areas: &[Polygon]) -> geo::MultiPolygon<f64> {
    geo::MultiPolygon::new(areas.iter().map(to_geo_polygon).collect())
}

fn to_geo(geom: &Geometry) -> geo::Geometry<f64> {
    match geom {
        Geometry::Point(at) => geo::Geometry::Point(to_geo_coord(at).into()),
        Geometry::Line(a, b) => {
            geo::Geometry::Line(geo::Line::new(to_geo_coord(a), to_geo_coord(b)))
        }
        Geometry::LineString(line) => geo::Geometry::LineString(to_geo_line(line)),
        Geometry::Polygon(area) => geo::Geometry::Polygon(to_geo_polygon(area)),
        Geometry::MultiPoint(list) => geo::Geometry::MultiPoint(geo::MultiPoint::new(
            list.iter().map(|at| to_geo_coord(at).into()).collect(),
        )),
        Geometry::MultiLineString(list) => geo::Geometry::MultiLineString(
            geo::MultiLineString::new(list.iter().map(|line| to_geo_line(line)).collect()),
        ),
        Geometry::MultiPolygon(areas) => geo::Geometry::MultiPolygon(to_geo_polygons(areas)),
        Geometry::GeometryCollection(parts) => geo::Geometry::GeometryCollection(
            geo::GeometryCollection::new_from(parts.iter().map(to_geo).collect()),
        ),
        Geometry::Rect(a, b) => {
            geo::Geometry::Rect(geo::Rect::new(to_geo_coord(a), to_geo_coord(b)))
        }
        Geometry::Triangle(a, b, d) => geo::Geometry::Triangle(geo::Triangle::new(
            to_geo_coord(a),
            to_geo_coord(b),
            to_geo_coord(d),
        )),
    }
}

fn from_geo_coord(at: geo::Coord<f64>) -> Coord {
    c(at.x, at.y)
}

fn from_geo_line(line: &geo::LineString<f64>) -> Vec<Coord> {
    line.0.iter().map(|at| from_geo_coord(*at)).collect()
}

fn from_geo_polygon(area: &geo::Polygon<f64>) -> Polygon {
    Polygon {
        exterior: from_geo_line(area.exterior()),
        interiors: area.interiors().iter().map(from_geo_line).collect(),
    }
}

fn length(line: &Vec<Coord>) -> u64 {
    Euclidean.length(&to_geo_line(line)).to_bits()
}

fn area(geom: &Geometry) -> u64 {
    to_geo(geom).unsigned_area().to_bits()
}

fn plus(a: u64, b: u64) -> u64 {
    (f64::from_bits(a) + f64::from_bits(b)).to_bits()
}

fn gap(a: Coord, b: Coord) -> u64 {
    let ((ax, ay), (bx, by)) = (xy(a), xy(b));
    (ax - bx).hypot(ay - by).to_bits()
}

fn first_point(geom: &geo::Geometry<f64>) -> geo::Point<f64> {
    geom.coords_iter().next().unwrap().into()
}

fn measured(measure: BinaryMeasure, left: &Geometry, right: &Geometry) -> u64 {
    let (a, b) = (to_geo(left), to_geo(right));
    let value = match measure {
        BinaryMeasure::Distance => Euclidean.distance(&a, &b),
        BinaryMeasure::MaxDistance => unreachable!("the kernel walks the vertex pairs"),
        BinaryMeasure::Hausdorff => a.hausdorff_distance(&b),
        BinaryMeasure::Frechet => match (&a, &b) {
            (geo::Geometry::LineString(x), geo::Geometry::LineString(y)) => {
                Euclidean.frechet_distance(x, y)
            }
            _ => unreachable!("the kernel hands over line strings alone"),
        },
        BinaryMeasure::Sphere => Haversine.distance(first_point(&a), first_point(&b)),
        BinaryMeasure::Spheroid => Geodesic.distance(first_point(&a), first_point(&b)),
        BinaryMeasure::Azimuth => Geodesic
            .bearing(first_point(&a), first_point(&b))
            .to_radians()
            .rem_euclid(std::f64::consts::TAU),
    };
    value.to_bits()
}

fn binary(left: &Column, right: &Column, measure: BinaryMeasure) -> Vec<Option<f64>> {
    binary_measure(left, right, measure, &measured, &gap)
        .unwrap()
        .into_iter()
        .map(number)
        .collect()
}

fn numbers(values: Result<Vec<Option<u64>>, Error>) -> Vec<Option<f64>> {
    values.unwrap().into_iter().map(number).collect()
}

fn one_point(x: f64, y: f64) -> Column {
    points(&[Some((x, y))], CoordType::Separated)
}

fn shapes() -> Column {
    mixed(vec![
        Some(Geometry::Point(c(0.0, 0.0))),
        Some(Geometry::LineString(path(&[(0.0, 0.0), (3.0, 4.0)]))),
        Some(Geometry::Polygon(polygon(&[&[
            (0.0, 0.0),
            (4.0, 0.0),
            (4.0, 3.0),
            (0.0, 3.0),
            (0.0, 0.0),
        ]]))),
    ])
}

// ---------------------------------------------------------------------- measure
#[test]
fn area_length_and_perimeter() {
    let array = shapes();
    let areas = numbers(st_area(&array, &area, &length, &plus));
    assert_eq!(areas[0], Some(0.0), "a point has no area");
    assert_eq!(areas[1], Some(0.0), "nor does a line");
    assert_eq!(areas[2], Some(12.0), "4 by 3");

    let lengths = numbers(st_length(&array, &area, &length, &plus));
    assert_eq!(lengths[0], Some(0.0));
    assert_eq!(lengths[1], Some(5.0), "the 3-4-5 triangle");
    assert_eq!(lengths[2], Some(0.0), "a polygon has no length in PostGIS");

    let perimeters = numbers(st_perimeter(&array, &area, &length, &plus));
    assert_eq!(perimeters[1], Some(0.0), "a line has no perimeter");
    assert_eq!(perimeters[2], Some(14.0), "2 times 4 plus 3");
}

/// A typed point column answers area from the schema, with no coordinate read.
#[test]
fn area_of_a_point_column_is_constant_folded() {
    let array = points(&[Some((1.0, 2.0)), None], CoordType::Separated);
    let never = |_: &Geometry| -> u64 { panic!("no geometry is read") };
    let areas = numbers(unary_measure(&array, UnaryMeasure::Area, &never, &length, &plus));
    assert_eq!(areas[0], Some(0.0));
    assert!(areas[1].is_none(), "the null row stays null");
}

#[test]
fn distance_between_points() {
    let (a, b) = (one_point(0.0, 0.0), one_point(3.0, 4.0));
    assert_eq!(binary(&a, &b, BinaryMeasure::Distance)[0], Some(5.0));
    assert_eq!(
        binary(&a, &b, BinaryMeasure::MaxDistance)[0],
        Some(5.0),
        "one vertex each, so both agree"
    );
}

#[test]
fn max_distance_finds_the_far_corners() {
    let a = polygons(
        &[Some(polygon(&[&[(0.0, 0.0), (1.0, 0.0), (1.0, 1.0), (0.0, 1.0), (0.0, 0.0)]]))],
        CoordType::Separated,
    );
    let point = one_point(0.0, 0.0);
    let max = binary(&a, &point, BinaryMeasure::MaxDistance)[0].unwrap();
    // The far corner of the unit square is the diagonal away.
    assert!((max - 2.0f64.sqrt()).abs() < 1e-12);
    assert_eq!(
        binary(&a, &point, BinaryMeasure::Distance)[0],
        Some(0.0),
        "the point sits on the corner"
    );
}

#[test]
fn hausdorff_and_frechet() {
    let a = lines(&[Some(path(&[(0.0, 0.0), (1.0, 0.0), (2.0, 0.0)]))], CoordType::Separated);
    let b = lines(&[Some(path(&[(0.0, 1.0), (1.0, 1.0), (2.0, 1.0)]))], CoordType::Separated);
    assert_eq!(
        binary(&a, &b, BinaryMeasure::Hausdorff)[0],
        Some(1.0),
        "the lines run one unit apart"
    );
    assert_eq!(binary(&a, &b, BinaryMeasure::Frechet)[0], Some(1.0));
}

/// Frechet distance is defined for line strings, so anything else is null.
#[test]
fn frechet_of_a_point_is_null() {
    let array = one_point(0.0, 0.0);
    assert!(binary(&array, &array, BinaryMeasure::Frechet)[0].is_none());
}

/// London to Paris is roughly 344 kilometres.
#[test]
fn spherical_distances_are_in_metres() {
    let (london, paris) = (one_point(-0.1278, 51.5074), one_point(2.3522, 48.8566));
    let sphere = binary(&london, &paris, BinaryMeasure::Sphere)[0].unwrap();
    let spheroid = binary(&london, &paris, BinaryMeasure::Spheroid)[0].unwrap();
    assert!((330_000.0..350_000.0).contains(&sphere), "sphere gave {sphere}");
    assert!((330_000.0..350_000.0).contains(&spheroid), "spheroid gave {spheroid}");
    // The ellipsoid is the more accurate of the two, so they must differ a little.
    assert_ne!(sphere, spheroid);
}

/// Two identical points have no direction.
#[test]
fn azimuth_of_a_point_to_itself_is_null() {
    let (a, b) = (one_point(0.0, 0.0), one_point(0.0, 1.0));
    assert!(binary(&a, &a, BinaryMeasure::Azimuth)[0].is_none());
    assert_eq!(binary(&a, &b, BinaryMeasure::Azimuth)[0], Some(0.0), "due north");
}

#[test]
fn measure_nulls_propagate() {
    let a = points(&[Some((0.0, 0.0)), None], CoordType::Separated);
    let b = points(&[Some((3.0, 4.0)), Some((1.0, 1.0))], CoordType::Separated);
    let distance = binary(&a, &b, BinaryMeasure::Distance);
    assert_eq!(distance[0], Some(5.0));
    assert!(distance[1].is_none());
}

/// One constant side is measured against every row, converted once rather than per row.
#[test]
fn measure_a_single_row_side_broadcasts() {
    let distance = binary(&shapes(), &one_point(0.0, 0.0), BinaryMeasure::Distance);
    assert_eq!(distance.len(), 3);
    assert_eq!(distance[0], Some(0.0), "the point sits on the origin");
    assert_eq!(distance[1], Some(0.0), "the line starts at the origin");
}

#[test]
fn measure_a_genuine_length_mismatch_is_an_error() {
    let two = points(&[Some((0.0, 0.0)), Some((1.0, 1.0))], CoordType::Separated);
    assert_eq!(
        binary_measure(&shapes(), &two, BinaryMeasure::Distance, &measured, &gap),
        Err(Error::UnequalLengths { function: "ST_Distance", left: 3, right: 2 })
    );
}

#[test]
fn measure_names() {
    assert_eq!(UnaryMeasure::all().len(), 3);
    assert_eq!(BinaryMeasure::all().len(), 7);
    assert_eq!(UnaryMeasure::Perimeter.function_name(), "ST_Perimeter");
    assert_eq!(BinaryMeasure::Spheroid.sql_name(), "st_distancespheroid");
}

// ----------------------------------------------------------------------- linear
fn closest(geom: &Geometry, target: Coord) -> Closest {
    let at: geo::Point<f64> = to_geo_coord(&target).into();
    let found = match to_geo(geom) {
        geo::Geometry::Point(inner) => inner.closest_point(&at),
        geo::Geometry::Line(inner) => inner.closest_point(&at),
        geo::Geometry::LineString(inner) => inner.closest_point(&at),
        geo::Geometry::Polygon(inner) => inner.closest_point(&at),
        geo::Geometry::MultiPoint(inner) => inner.closest_point(&at),
        geo::Geometry::MultiLineString(inner) => inner.closest_point(&at),
        geo::Geometry::MultiPolygon(inner) => inner.closest_point(&at),
        geo::Geometry::Rect(inner) => inner.closest_point(&at),
        geo::Geometry::Triangle(inner) => inner.closest_point(&at),
        geo::Geometry::GeometryCollection(_) => unreachable!("the kernel walks the parts"),
    };
    match found {
        geo::Closest::Intersection(point) => Closest::Intersection(from_geo_coord(point.0)),
        geo::Closest::SinglePoint(point) => Closest::SinglePoint(from_geo_coord(point.0)),
        geo::Closest::Indeterminate => Closest::Indeterminate,
    }
}

fn reach(at: Coord, geom: &Geometry) -> u64 {
    let point: geo::Point<f64> = to_geo_coord(&at).into();
    geo::Distance::distance(&Euclidean, &geo::Geometry::Point(point), &to_geo(geom)).to_bits()
}

type ClosestTool = fn(&Geometry, Coord) -> Closest;
type GapTool = fn(Coord, Coord) -> u64;
type ReachTool = fn(Coord, &Geometry) -> u64;

fn nearest() -> Nearest<ClosestTool, GapTool, ReachTool> {
    Nearest { closest, gap, distance: reach }
}

fn locate(line: &Vec<Coord>, at: Coord) -> Option<u64> {
    let point: geo::Point<f64> = to_geo_coord(&at).into();
    to_geo_line(line).line_locate_point(&point).map(f64::to_bits)
}

fn walk(line: &Vec<Coord>, fraction: u64) -> Option<Coord> {
    Euclidean
        .point_at_ratio_from_start(&to_geo_line(line), f64::from_bits(fraction))
        .map(|point| from_geo_coord(point.0))
}

fn one_line() -> Column {
    lines(&[Some(path(&[(0.0, 0.0), (10.0, 0.0)]))], CoordType::Separated)
}

fn point_of(array: &Column, row: usize) -> Option<(f64, f64)> {
    match array.geometry_at(row).unwrap() {
        Some(Geometry::Point(at)) => Some(xy(at)),
        Some(other) => panic!("expected a point, got {other:?}"),
        None => None,
    }
}

#[test]
fn closest_point_lands_on_the_line() {
    let line = one_line();
    let output = point_output_type(&line.data_type());
    let found = st_closest_point(&line, &one_point(5.0, 3.0), &output, &nearest()).unwrap();
    assert_eq!(point_of(&found, 0), Some((5.0, 0.0)), "the foot of the perpendicular");
}

#[test]
fn shortest_line_joins_both_geometries() {
    let line = one_line();
    let output = line_output_type(&line.data_type());
    let shortest = st_shortest_line(&line, &one_point(5.0, 3.0), &output, &nearest()).unwrap();
    match shortest.geometry_at(0).unwrap() {
        Some(Geometry::LineString(joined)) => {
            assert_eq!(joined.len(), 2);
            assert_eq!(xy(joined[0]), (5.0, 0.0));
            assert_eq!(xy(joined[1]), (5.0, 3.0));
        }
        other => panic!("expected a line string, got {other:?}"),
    }
}

#[test]
fn the_nearest_part_and_the_nearest_vertex_decide() {
    let parts = mixed(vec![Some(Geometry::GeometryCollection(vec![
        Geometry::Point(c(100.0, 0.0)),
        Geometry::LineString(path(&[(0.0, 0.0), (10.0, 0.0)])),
    ]))]);
    let output = point_output_type(&parts.data_type());
    let found = st_closest_point(&parts, &one_point(5.0, 3.0), &output, &nearest()).unwrap();
    assert_eq!(point_of(&found, 0), Some((5.0, 0.0)));
    // The second vertex of the other line is the near one.
    let other = lines(&[Some(path(&[(4.0, 50.0), (7.0, 2.0)]))], CoordType::Separated);
    let found = st_closest_point(&one_line(), &other, &output, &nearest()).unwrap();
    assert_eq!(point_of(&found, 0), Some((7.0, 0.0)));
}

#[test]
fn line_locate_point_returns_a_fraction() {
    let line = one_line();
    let quarter = st_line_locate_point(&line, &one_point(2.5, 0.0), &locate, &reach).unwrap();
    assert!((number(quarter[0]).unwrap() - 0.25).abs() < 1e-12);
    // Off the line, but still projected onto it.
    let off = st_line_locate_point(&line, &one_point(7.5, 4.0), &locate, &reach).unwrap();
    assert!((number(off[0]).unwrap() - 0.75).abs() < 1e-12);
}

#[test]
fn line_interpolate_point_walks_the_line() {
    let line = one_line();
    let output = point_output_type(&line.data_type());
    let at = |fraction: f64| {
        let found = st_line_interpolate_point(&line, &bits(&[fraction]), &output, &walk).unwrap();
        point_of(&found, 0)
    };
    assert_eq!(at(0.5), Some((5.0, 0.0)));
    assert_eq!(at(0.0), Some((0.0, 0.0)));
    // Outside the unit interval gives null.
    for bad in [-0.1, 1.1] {
        assert!(at(bad).is_none(), "{bad} must be null");
    }
    assert!(matches!(
        st_line_interpolate_point(&line, &bits(&[0.5, 0.5]), &output, &walk),
        Err(Error::UnequalLengths { function: "ST_LineInterpolatePoint", left: 1, right: 2 })
    ));
}

#[test]
fn line_functions_are_null_for_other_types() {
    let area = polygons(
        &[Some(polygon(&[&[(0.0, 0.0), (1.0, 0.0), (1.0, 1.0), (0.0, 0.0)]]))],
        CoordType::Separated,
    );
    let target = one_point(0.5, 0.5);
    assert!(st_line_locate_point(&area, &target, &locate, &reach).unwrap()[0].is_none());
    let output = point_output_type(&area.data_type());
    let found = st_line_interpolate_point(&area, &bits(&[0.5]), &output, &walk).unwrap();
    assert!(point_of(&found, 0).is_none());
}

#[test]
fn linear_nulls_propagate() {
    let line = lines(&[Some(path(&[(0.0, 0.0), (10.0, 0.0)])), None], CoordType::Separated);
    let targets = points(&[Some((5.0, 1.0)), Some((5.0, 1.0))], CoordType::Separated);
    let located = st_line_locate_point(&line, &targets, &locate, &reach).unwrap();
    assert!(located[0].is_some());
    assert!(located[1].is_none());
}

#[test]
fn project_takes_one_value_or_one_per_row() {
    let project = |start: Coord, distance: u64, azimuth: u64| -> Coord {
        let from: geo::Point<f64> = to_geo_coord(&start).into();
        let bearing = f64::from_bits(azimuth).to_degrees();
        from_geo_coord(geo::Geodesic.destination(from, bearing, f64::from_bits(distance)).0)
    };
    let array = points(&[Some((0.0, 0.0)), None], CoordType::Separated);
    let output = point_output_type(&array.data_type());
    let moved =
        st_project(&array, &bits(&[100_000.0]), &bits(&[0.0, 0.0]), &output, &project).unwrap();
    let (x, y) = point_of(&moved, 0).unwrap();
    assert!(x.abs() < 1e-9, "due north");
    assert!((y - 0.9044).abs() < 1e-3, "y was {y}");
    assert!(point_of(&moved, 1).is_none());
    assert!(matches!(
        st_project(&array, &bits(&[]), &bits(&[0.0]), &output, &project),
        Err(Error::ProjectCount { name: "distance", given: 0, rows: 2 })
    ));
    assert!(matches!(
        st_project(&array, &bits(&[1.0]), &bits(&[0.0; 3]), &output, &project),
        Err(Error::ProjectCount { name: "azimuth", given: 3, rows: 2 })
    ));
}

// ---------------------------------------------------------------------- cluster
fn centroid(geom: &Geometry) -> Option<Coord> {
    to_geo(geom).centroid().map(|point| from_geo_coord(point.0))
}

fn geo_points(values: &[Coord]) -> Vec<geo::Point<f64>> {
    values.iter().map(|at| to_geo_coord(at).into()).collect()
}

fn kmeans(values: &Vec<Coord>, k: usize, seed: u64) -> Option<Vec<usize>> {
    geo_points(values).kmeans_with_seed(k, seed).ok()
}

fn dbscan(values: &Vec<Coord>, epsilon: u64, min_points: usize) -> Vec<Option<usize>> {
    geo_points(values).dbscan(f64::from_bits(epsilon), min_points)
}

/// Two tight groups, far apart.
fn two_groups() -> Column {
    points(
        &[
            Some((0.0, 0.0)),
            Some((0.1, 0.1)),
            Some((0.2, 0.0)),
            Some((50.0, 50.0)),
            Some((50.1, 50.1)),
            Some((50.2, 50.0)),
        ],
        CoordType::Separated,
    )
}

#[test]
fn kmeans_separates_two_groups() {
    let ids = st_cluster_kmeans(&two_groups(), 2, &centroid, &kmeans).unwrap();
    // The three near the origin share an id, and so do the three far away.
    assert_eq!(ids[0], ids[1]);
    assert_eq!(ids[1], ids[2]);
    assert_eq!(ids[3], ids[4]);
    assert_eq!(ids[4], ids[5]);
    assert_ne!(ids[0], ids[3], "the two groups must differ");
}

/// The same input must always give the same answer.
#[test]
fn kmeans_is_reproducible() {
    let first = st_cluster_kmeans(&two_groups(), 2, &centroid, &kmeans).unwrap();
    let second = st_cluster_kmeans(&two_groups(), 2, &centroid, &kmeans).unwrap();
    assert_eq!(first, second);
}

#[test]
fn kmeans_rejects_a_bad_k() {
    let array = two_groups();
    assert_eq!(
        st_cluster_kmeans(&array, 0, &centroid, &kmeans),
        Err(Error::ClusterCount { k: 0, geometries: 6 })
    );
    assert!(
        st_cluster_kmeans(&array, 99, &centroid, &kmeans).is_err(),
        "k exceeds the rows"
    );
}

#[test]
fn dbscan_separates_two_groups() {
    let ids =
        st_cluster_dbscan(&two_groups(), 1.0f64.to_bits(), 2, &centroid, &dbscan).unwrap();
    assert_eq!(ids[0], ids[1]);
    assert_eq!(ids[3], ids[4]);
    assert_ne!(ids[0], ids[3]);
}

/// A point too far from any group is noise, which PostGIS reports as null.
#[test]
fn dbscan_marks_noise_as_null() {
    let array = points(
        &[Some((0.0, 0.0)), Some((0.1, 0.1)), Some((0.2, 0.0)), Some((999.0, 999.0))],
        CoordType::Separated,
    );
    let ids = st_cluster_dbscan(&array, 1.0f64.to_bits(), 3, &centroid, &dbscan).unwrap();
    assert!(ids[0].is_some());
    assert!(ids[3].is_none(), "the far point is noise");
}

#[test]
fn dbscan_rejects_a_non_positive_eps() {
    let array = two_groups();
    for bad in [0.0, -1.0, f64::NAN, f64::INFINITY] {
        assert_eq!(
            st_cluster_dbscan(&array, f64::to_bits(bad), 2, &centroid, &dbscan),
            Err(Error::ClusterRadius)
        );
    }
}

/// A null geometry takes no part, and keeps a null id.
#[test]
fn nulls_are_skipped() {
    let array = points(
        &[Some((0.0, 0.0)), Some((0.1, 0.1)), None, Some((50.0, 50.0)), Some((50.1, 50.1))],
        CoordType::Separated,
    );
    let ids = st_cluster_kmeans(&array, 2, &centroid, &kmeans).unwrap();
    assert!(ids[2].is_none(), "the null row has no cluster");
    assert_eq!(ids[0], ids[1]);
    assert_eq!(ids[3], ids[4]);
    assert_ne!(ids[0], ids[3]);
}

#[test]
fn a_partition_reads_its_parameters_from_row_zero() {
    let array = two_groups();
    let run = |cluster: Cluster, parameters: Vec<Vec<Option<u64>>>, rows: usize| {
        evaluate_all(cluster, &array, &parameters, rows, &centroid, &kmeans, &dbscan)
    };
    let by_k = run(Cluster::KMeans, vec![bits(&[2.0, 99.0])], 6).unwrap();
    assert_eq!(by_k, st_cluster_kmeans(&array, 2, &centroid, &kmeans).unwrap());
    let by_density = run(Cluster::Dbscan, vec![bits(&[1.0]), bits(&[2.0])], 6).unwrap();
    assert_eq!(by_density[0], by_density[1]);
    assert_eq!(
        run(Cluster::KMeans, Vec::new(), 6),
        Err(Error::MissingParameter { function: "ST_ClusterKMeans", name: "k" })
    );
    assert_eq!(
        run(Cluster::KMeans, vec![bits(&[1.5])], 6),
        Err(Error::NotACount { function: "ST_ClusterKMeans", name: "k" })
    );
    assert_eq!(
        run(Cluster::Dbscan, vec![bits(&[1.0]), vec![None]], 6),
        Err(Error::MissingParameter { function: "ST_ClusterDBSCAN", name: "minpoints" })
    );
    assert_eq!(
        run(Cluster::KMeans, vec![bits(&[2.0])], 7),
        Err(Error::RowCount { function: "ST_ClusterKMeans", given: 6, rows: 7 })
    );
    assert_eq!(Cluster::all().map(Cluster::parameter_count), [1, 2]);
    assert_eq!(Cluster::Dbscan.sql_name(), "st_clusterdbscan");
}

#[test]
fn whole_numbers_are_read_from_their_bits() {
    for n in [0.0, -0.0, 1.0, 2.0, 7.0, 4096.0, 9007199254740993.0, 1e18] {
        assert_eq!(count(f64::to_bits(n)), Some(n as usize), "{n}");
    }
    assert_eq!(count(f64::to_bits(1e300)), Some(usize::MAX));
    for bad in [-1.0, 0.5, 1.5, 1e-300, f64::NAN, f64::INFINITY, f64::NEG_INFINITY] {
        assert_eq!(count(f64::to_bits(bad)), None, "{bad}");
    }
}

// ------------------------------------------------------------------- tessellate
fn geo_multi_point(values: &[Coord]) -> geo::MultiPoint<f64> {
    geo::MultiPoint::new(geo_points(values))
}

fn triangles(values: &Vec<Coord>) -> Option<Vec<(Coord, Coord, Coord)>> {
    let found = geo_multi_point(values).unconstrained_triangulation().ok()?;
    Some(
        found
            .into_iter()
            .map(|t| (from_geo_coord(t.v1()), from_geo_coord(t.v2()), from_geo_coord(t.v3())))
            .collect(),
    )
}

fn cells(values: &Vec<Coord>) -> Option<Vec<Polygon>> {
    let found = geo_multi_point(values).voronoi_cells().ok()?;
    Some(found.iter().map(from_geo_polygon).collect())
}

fn edges(values: &Vec<Coord>) -> Option<Vec<(Coord, Coord)>> {
    let found = Voronoi::voronoi_edges(&geo_multi_point(values)).ok()?;
    Some(
        found
            .into_iter()
            .map(|line| (from_geo_coord(line.start), from_geo_coord(line.end)))
            .collect(),
    )
}

fn scatter() -> Column {
    mixed(vec![
        Some(Geometry::MultiPoint(path(&[
            (0.0, 0.0),
            (4.0, 0.0),
            (4.0, 4.0),
            (0.0, 4.0),
            (2.0, 2.0),
        ]))),
        // Two points cannot be tessellated.
        Some(Geometry::MultiPoint(path(&[(0.0, 0.0), (1.0, 1.0)]))),
        // Nor can two places, however often they are named.
        Some(Geometry::MultiPoint(path(&[(0.0, 0.0), (1.0, 1.0), (0.0, 0.0), (1.0, 1.0)]))),
    ])
}

fn tessellated(array: &Column, kind: Tessellation) -> Vec<Option<Geometry>> {
    let tools = TessellationTools { triangles, cells, edges };
    tessellate(array, kind, &tools).unwrap()
}

fn parts(value: &Option<Geometry>) -> &Vec<Geometry> {
    match value {
        Some(Geometry::GeometryCollection(parts)) => parts,
        other => panic!("expected a collection, got {other:?}"),
    }
}

#[test]
fn delaunay_covers_the_hull() {
    let result = tessellated(&scatter(), Tessellation::Delaunay);
    let found = parts(&result[0]);
    assert!(!found.is_empty());
    // The triangles together cover the convex hull of the input, which is the 4 by 4 square.
    let total: f64 = found.iter().map(|part| f64::from_bits(area(part))).sum();
    assert!((total - 16.0).abs() < 1e-9, "total area was {total}");
}

#[test]
fn voronoi_gives_one_cell_per_vertex() {
    let result = tessellated(&scatter(), Tessellation::VoronoiPolygons);
    assert_eq!(parts(&result[0]).len(), 5, "one cell per input point");
}

#[test]
fn voronoi_lines_are_the_cell_boundaries() {
    let result = tessellated(&scatter(), Tessellation::VoronoiLines);
    match &result[0] {
        Some(Geometry::MultiLineString(found)) => {
            assert!(!found.is_empty());
            assert!(found.iter().all(|line| line.len() == 2));
        }
        other => panic!("expected a multi line string, got {other:?}"),
    }
}

/// Fewer than three vertices cannot be tessellated, which is null rather than an error.
#[test]
fn too_few_points_gives_null() {
    for kind in Tessellation::all() {
        let result = tessellated(&scatter(), kind);
        assert!(
            result[1].is_none(),
            "{} must give null for two points",
            kind.function_name()
        );
        assert!(result[2].is_none(), "{} must give null for two places", kind.sql_name());
    }
}

/// A polygon and the multi point of its corners tessellate the same way.
#[test]
fn only_the_vertices_matter() {
    let array = mixed(vec![Some(Geometry::Polygon(polygon(&[&[
        (0.0, 0.0),
        (4.0, 0.0),
        (4.0, 4.0),
        (0.0, 4.0),
        (0.0, 0.0),
    ]])))]);
    let result = tessellated(&array, Tessellation::Delaunay);
    // A square gives two triangles, whichever way the diagonal falls.
    assert_eq!(parts(&result[0]).len(), 2);
}
