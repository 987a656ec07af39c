//! Predicates, and the indexes behind them.

use geo::{Contains, ContainsProperly, CoordsIter, Covers, Distance, Intersects, Kernel, Relate};
use geo::kernels::RobustKernel;
use spatial_kernels::bbox::{Bbox, bbox_of};
use spatial_kernels::column::{
    Body, Column, CoordBuffer, CoordType, Dimension, InterleavedCoordBuffer, Item, Kind,
    SeparatedCoordBuffer,
};
use spatial_kernels::crs::Metadata;
use spatial_kernels::error::Error;
use spatial_kernels::geometry::{Coord, Geometry, Polygon};
use spatial_kernels::index::{BboxGrid, Candidates};
use spatial_kernels::matrix::{Dimensions, IntersectionMatrix};
use spatial_kernels::predicate::{
    Direct, Distances, Exact, PointRule, Predicate, PredicateScratch, PreparedLiteral, Side,
    predicate_call, st_dfully_within, st_dwithin, st_intersects_scalar, st_predicate,
    st_predicate_scalar, st_relate, st_relate_pattern,
};
use spatial_kernels::ring::{MAX_FANOUT, Orientation, PointInPolygonIndex};

fn c(x: f64, y: f64) -> Coord {
    Coord { x: x.to_bits(), y: y.to_bits() }
}

fn xy(at: Coord) -> (f64, f64) {
    (f64::from_bits(at.x), f64::from_bits(at.y))
}

fn path(values: &[(f64, f64)]) -> Vec<Coord> {
    values.iter().map(|(x, y)| c(*x, *y)).collect()
}

fn polygon(rings: &[&[(f64, f64)]]) -> Polygon {
    Polygon {
        exterior: path(rings[0]),
        interiors: rings[1..].iter().map(|ring| path(ring)).collect(),
    }
}

fn buffer(values: &[Coord], layout: CoordType) -> CoordBuffer {
    match layout {
        CoordType::Separated => CoordBuffer::Separated(SeparatedCoordBuffer {
            buffers: [
                values.iter().map(|at| at.x).collect(),
                values.iter().map(|at| at.y).collect(),
                Vec::new(),
                Vec::new(),
            ],
            dim: Dimension::XY,
        }),
        CoordType::Interleaved => CoordBuffer::Interleaved(InterleavedCoordBuffer {
            coords: values.iter().flat_map(|at| [at.x, at.y]).collect(),
            dim: Dimension::XY,
        }),
    }
}

fn column(body: Body, valid: Vec<bool>) -> Column {
    let validity = if valid.iter().all(|ok| *ok) { None } else { Some(valid) };
    Column { body, validity, metadata: Metadata::default() }
}

fn points(values: &[Option<(f64, f64)>], layout: CoordType) -> Column {
    let coords: Vec<Coord> = values
        .iter()
        .map(|value| match value {
            Some((x, y)) => c(*x, *y),
            None => c(f64::NAN, f64::NAN),
        })
        .collect();
    column(
        Body::Point { coords: buffer(&coords, layout) },
        values.iter().map(|value| value.is_some()).collect(),
    )
}

fn lines(values: &[Option<Vec<Coord>>], layout: CoordType) -> Column {
    let mut coords: Vec<Coord> = Vec::new();
    let mut geom_offsets: Vec<i32> = vec![0];
    for value in values {
        if let Some(line) = value {
            coords.extend(line.iter().copied());
        }
        geom_offsets.push(coords.len() as i32);
    }
    column(
        Body::LineString { coords: buffer(&coords, layout), geom_offsets },
        values.iter().map(|value| value.is_some()).collect(),
    )
}

fn polygons(values: &[Option<Polygon>], layout: CoordType) -> Column {
    let mut coords: Vec<Coord> = Vec::new();
    let mut ring_offsets: Vec<i32> = vec![0];
    let mut geom_offsets: Vec<i32> = vec![0];
    for value in values {
        if let Some(area) = value {
            coords.extend(area.exterior.iter().copied());
            ring_offsets.push(coords.len() as i32);
            for ring in &area.interiors {
                coords.extend(ring.iter().copied());
                ring_offsets.push(coords.len() as i32);
            }
        }
        geom_offsets.push(ring_offsets.len() as i32 - 1);
    }
    column(
        Body::Polygon { coords: buffer(&coords, layout), geom_offsets, ring_offsets },
        values.iter().map(|value| value.is_some()).collect(),
    )
}

fn mixed(values: Vec<Option<Geometry>>) -> Column {
    let valid: Vec<bool> = values.iter().map(|value| value.is_some()).collect();
    let items: Vec<Option<Item>> = values
        .into_iter()
        .map(|value| {
            Some(Item {
                geometry: value.unwrap_or(Geometry::MultiPoint(Vec::new())),
                dim: Dimension::XY,
                z: 0,
                m: 0,
            })
        })
        .collect();
    column(
        Body::Rows {
            kind: Kind::Geometry,
            dimension: None,
            coord_type: Some(CoordType::Separated),
            items,
        },
        valid,
    )
}

fn number(value: Option<u64>) -> Option<f64> {
    value.map(f64::from_bits)
}

fn to_geo_coord(at: &Coord) -> geo::Coord<f64> {
    geo::Coord { x: f64::from_bits(at.x), y: f64::from_bits(at.y) }
}

fn to_geo_line(line: &[Coord]) -> geo::LineString<f64> {
    geo::LineString::new(line.iter().map(to_geo_coord).collect())
}

fn to_geo_polygon(area: &Polygon) -> geo::Polygon<f64> {
    geo::Polygon::new(
        to_geo_line(&area.exterior),
        area.interiors.iter().map(|ring| to_geo_line(ring)).collect(),
    )
}

fn to_geo_polygons(areas: &[Polygon]) -> geo::MultiPolygon<f64> {
    geo::MultiPolygon::new(areas.iter().map(to_geo_polygon).collect())
}

fn to_geo(geom: &Geometry) -> geo::Geometry<f64> {
    match geom {
        Geometry::Point(at) => geo::Geometry::Point(to_geo_coord(at).into()),
        Geometry::Line(a, b) => {
            geo::Geometry::Line(geo::Line::new(to_geo_coord(a), to_geo_coord(b)))
        }
        Geometry::LineString(line) => geo::Geometry::LineString(to_geo_line(line)),
        Geometry::Polygon(area) => geo::Geometry::Polygon(to_geo_polygon(area)),
        Geometry::MultiPoint(list) => geo::Geometry::MultiPoint(geo::MultiPoint::new(
            list.iter().map(|at| to_geo_coord(at).into()).collect(),
        )),
        Geometry::MultiLineString(list) => geo::Geometry::MultiLineString(
            geo::MultiLineString::new(list.iter().map(|line| to_geo_line(line)).collect()),
        ),
        Geometry::MultiPolygon(areas) => geo::Geometry::MultiPolygon(to_geo_polygons(areas)),
        Geometry::GeometryCollection(parts) => geo::Geometry::GeometryCollection(
            geo::GeometryCollection::new_from(parts.iter().map(to_geo).collect()),
        ),
        Geometry::Rect(a, b) => {
            geo::Geometry::Rect(geo::Rect::new(to_geo_coord(a), to_geo_coord(b)))
        }
        Geometry::Triangle(a, b, d) => geo::Geometry::Triangle(geo::Triangle::new(
            to_geo_coord(a),
            to_geo_coord(b),
            to_geo_coord(d),
        )),
    }
}

fn cell(value: u64, low: u64, high: u64, cells: usize) -> usize {
    let (value, low, high) = (f64::from_bits(value), f64::from_bits(low), f64::from_bits(high));
    let side = if high > low { (high - low) / cells as f64 } else { 1.0 };
    let offset = (value - low) / side;
    // A NaN offset fails this test and lands in the first cell. So does a negative one.
    if offset > 0.0 {
        offset as usize
    } else {
        0
    }
}

fn orient(a: Coord, b: Coord, p: Coord) -> Orientation {
    match RobustKernel::orient2d(to_geo_coord(&a), to_geo_coord(&b), to_geo_coord(&p)) {
        geo::Orientation::CounterClockwise => Orientation::CounterClockwise,
        geo::Orientation::Clockwise => Orientation::Clockwise,
        geo::Orientation::Collinear => Orientation::Collinear,
    }
}

fn direct(test: Direct, left: &Geometry, right: &Geometry) -> bool {
    let (a, b) = (to_geo(left), to_geo(right));
    match test {
        Direct::Intersects => a.intersects(&b),
        Direct::Contains => a.contains(&b),
        Direct::ContainsProperly => a.contains_properly(&b),
        Direct::Covers => a.covers(&b),
    }
}

fn relate(left: &Geometry, right: &Geometry, prepared: bool) -> IntersectionMatrix {
    let (a, b) = (to_geo(left), to_geo(right));
    let matrix = if prepared {
        geo::PreparedGeometry::from(&a).relate(&b)
    } else {
        a.relate(&b)
    };
    let order = [
        geo::coordinate_position::CoordPos::Inside,
        geo::coordinate_position::CoordPos::OnBoundary,
        geo::coordinate_position::CoordPos::Outside,
    ];
    let mut cells = [Dimensions::Empty; 9];
    for (row, lhs) in order.into_iter().enumerate() {
        for (col, rhs) in order.into_iter().enumerate() {
            cells[row * 3 + col] = match matrix.get(lhs, rhs) {
                geo::dimensions::Dimensions::Empty => Dimensions::Empty,
                geo::dimensions::Dimensions::ZeroDimensional => Dimensions::ZeroDimensional,
                geo::dimensions::Dimensions::OneDimensional => Dimensions::OneDimensional,
                geo::dimensions::Dimensions::TwoDimensional => Dimensions::TwoDimensional,
            };
        }
    }
    IntersectionMatrix { cells }
}

type DirectTest = fn(Direct, &Geometry, &Geometry) -> bool;
type MatrixTest = fn(&Geometry, &Geometry, bool) -> IntersectionMatrix;
type CellTest = fn(u64, u64, u64, usize) -> usize;
type SideTest = fn(Coord, Coord, Coord) -> Orientation;

fn exact() -> Exact<DirectTest, MatrixTest, CellTest, SideTest> {
    Exact { direct, relate, cell, orient }
}

// ------------------------------------------------------------------- predicates
fn probe_points(layout: CoordType) -> Column {
    points(&[Some((0.5, 0.5)), Some((9.0, 9.0)), None, Some((0.1, 0.1))], layout)
}

fn unit_square() -> Polygon {
    polygon(&[&[(0.0, 0.0), (1.0, 0.0), (1.0, 1.0), (0.0, 1.0), (0.0, 0.0)]])
}

fn unit_squares(count: usize) -> Column {
    let values: Vec<Option<Polygon>> = (0..count).map(|_| Some(unit_square())).collect();
    polygons(&values, CoordType::Separated)
}

/// A regular polygon with `sides` vertices, centred on the origin.
fn regular(sides: usize, radius: f64) -> Vec<Coord> {
    let mut ring: Vec<Coord> = (0..sides)
        .map(|i| {
            let angle = (i as f64) / (sides as f64) * std::f64::consts::TAU;
            c(radius * angle.cos(), radius * angle.sin())
        })
        .collect();
    ring.push(ring[0]);
    ring
}

fn regular_ring(sides: usize) -> Polygon {
    Polygon { exterior: regular(sides, 1.0), interiors: Vec::new() }
}

fn literal(geom: Geometry) -> PreparedLiteral {
    PreparedLiteral::new(geom)
}

fn against(
    array: &Column,
    constant: &mut PreparedLiteral,
    predicate: Predicate,
    side: Side,
) -> Vec<Option<bool>> {
    let mut scratch = PredicateScratch::new();
    st_predicate_scalar(array, constant, predicate, side, &mut scratch, &exact()).unwrap()
}

fn both(left: &Column, right: &Column, predicate: Predicate) -> Vec<Option<bool>> {
    st_predicate(left, right, predicate, &exact()).unwrap()
}

#[test]
fn scalar_intersects_matches_geo() {
    for layout in [CoordType::Separated, CoordType::Interleaved] {
        let array = probe_points(layout);
        let mut square = literal(Geometry::Polygon(unit_square()));
        let mut scratch = PredicateScratch::new();
        let result = st_intersects_scalar(&array, &mut square, &mut scratch, &exact()).unwrap();
        assert_eq!(result[0], Some(true), "point inside the square");
        assert_eq!(result[1], Some(false), "point far outside");
        assert!(result[2].is_none(), "null input yields null");
        assert_eq!(result[3], Some(true), "second point inside");
    }
}

/// The box test alone must settle `ST_Disjoint` for a far away row.
#[test]
fn disjoint_is_the_complement_of_intersects() {
    let array = probe_points(CoordType::Separated);
    let mut square = literal(Geometry::Polygon(unit_square()));
    let hits = against(&array, &mut square, Predicate::Intersects, Side::Right);
    let misses = against(&array, &mut square, Predicate::Disjoint, Side::Right);
    for row in [0usize, 1, 3] {
        assert_eq!(
            hits[row].unwrap(),
            !misses[row].unwrap(),
            "row {row} disagreed between intersects and disjoint"
        );
    }
    assert!(misses[2].is_none());
}

/// Contains and Within are converses. A swap of the arguments must swap the answer.
#[test]
fn contains_and_within_are_converses() {
    let squares = unit_squares(4);
    let array = probe_points(CoordType::Separated);
    let contains = both(&squares, &array, Predicate::Contains);
    let within = both(&array, &squares, Predicate::Within);
    for row in [0usize, 1, 3] {
        assert_eq!(contains[row], within[row], "row {row}");
    }
    assert_eq!(contains[0], Some(true), "the square contains the inner point");
    assert_eq!(contains[1], Some(false), "and not the far one");
}

#[test]
fn covers_accepts_the_boundary_where_contains_does_not() {
    // A point exactly on the corner of the square.
    let corner = points(&[Some((0.0, 0.0))], CoordType::Separated);
    let square = unit_squares(1);
    assert_eq!(both(&square, &corner, Predicate::Contains)[0], Some(false));
    assert_eq!(both(&square, &corner, Predicate::Covers)[0], Some(true));
}

#[test]
fn equals_needs_matching_boxes() {
    let a = unit_squares(2);
    let b = polygons(
        &[
            Some(unit_square()),
            Some(polygon(&[&[(5.0, 5.0), (6.0, 5.0), (6.0, 6.0), (5.0, 6.0), (5.0, 5.0)]])),
        ],
        CoordType::Separated,
    );
    let equals = both(&a, &b, Predicate::Equals);
    assert_eq!(equals[0], Some(true));
    assert_eq!(equals[1], Some(false), "the box test settles this one");
}

#[test]
fn touches_crosses_and_overlaps() {
    let left = mixed(vec![
        // The two shapes meet at one point.
        Some(Geometry::LineString(path(&[(0.0, 0.0), (1.0, 0.0)]))),
        // The two lines cross in the middle.
        Some(Geometry::LineString(path(&[(0.0, 0.0), (2.0, 2.0)]))),
        // Two squares that overlap in part.
        Some(Geometry::Polygon(unit_square())),
    ]);
    let right = mixed(vec![
        Some(Geometry::LineString(path(&[(1.0, 0.0), (2.0, 0.0)]))),
        Some(Geometry::LineString(path(&[(0.0, 2.0), (2.0, 0.0)]))),
        Some(Geometry::Polygon(polygon(&[&[
            (0.5, 0.5),
            (1.5, 0.5),
            (1.5, 1.5),
            (0.5, 1.5),
            (0.5, 0.5),
        ]]))),
    ]);
    assert_eq!(both(&left, &right, Predicate::Touches)[0], Some(true));
    assert_eq!(both(&left, &right, Predicate::Crosses)[1], Some(true));
    assert_eq!(both(&left, &right, Predicate::Overlaps)[2], Some(true));
}

/// The prepared form must be asked for by a DE-9IM predicate and skipped by a direct one.
#[test]
fn only_relate_predicates_build_the_index() {
    let array = probe_points(CoordType::Separated);
    let mut plain = literal(Geometry::Polygon(regular_ring(64)));
    against(&array, &mut plain, Predicate::Intersects, Side::Right);
    assert!(!plain.is_indexed(), "a direct predicate must not build the R-tree");

    let mut indexed = literal(Geometry::Polygon(regular_ring(64)));
    against(&array, &mut indexed, Predicate::Touches, Side::Right);
    assert!(indexed.is_indexed(), "a DE-9IM predicate must build the R-tree once");
}

/// The constant path and the two-array path must agree, both ways round.
#[test]
fn scalar_and_array_paths_agree() {
    let array = probe_points(CoordType::Separated);
    let squares = unit_squares(4);
    let mut square = literal(Geometry::Polygon(unit_square()));
    for predicate in Predicate::all() {
        assert_eq!(
            both(&array, &squares, predicate),
            against(&array, &mut square, predicate, Side::Right),
            "{} disagreed with the constant on the right",
            predicate.function_name()
        );
        assert_eq!(
            both(&squares, &array, predicate),
            against(&array, &mut square, predicate, Side::Left),
            "{} disagreed with the constant on the left",
            predicate.function_name()
        );
    }
}

fn scaled(ring: &[Coord], factor: f64, dx: f64) -> Vec<Coord> {
    ring.iter()
        .map(|at| {
            let (x, y) = xy(*at);
            c(x * factor + dx, y * factor)
        })
        .collect()
}

/// A ring, a ring with a hole, and two rings. Each is over the index threshold.
fn indexable_literals() -> Vec<Geometry> {
    let shell = regular(128, 1.0);
    vec![
        Geometry::Polygon(Polygon { exterior: shell.clone(), interiors: Vec::new() }),
        Geometry::Polygon(Polygon {
            exterior: shell.clone(),
            interiors: vec![scaled(&shell, 0.4, 0.0)],
        }),
        Geometry::MultiPolygon(vec![
            Polygon { exterior: scaled(&shell, 0.8, -1.4), interiors: Vec::new() },
            Polygon { exterior: scaled(&shell, 0.8, 1.4), interiors: Vec::new() },
        ]),
    ]
}

fn next(state: &mut u64) -> f64 {
    *state = state.wrapping_mul(6364136223846793005).wrapping_add(1);
    ((*state >> 11) as f64) / ((1u64 << 53) as f64)
}

fn rings_of(geom: &Geometry) -> Vec<&Vec<Coord>> {
    let areas: Vec<&Polygon> = match geom {
        Geometry::Polygon(area) => vec![area],
        Geometry::MultiPolygon(areas) => areas.iter().collect(),
        _ => Vec::new(),
    };
    areas
        .into_iter()
        .flat_map(|area| std::iter::once(&area.exterior).chain(area.interiors.iter()))
        .collect()
}

/// Every vertex and every edge midpoint. They sit exactly on the boundary.
fn boundary_probes(geom: &Geometry) -> Vec<Coord> {
    let mut probes = Vec::new();
    for ring in rings_of(geom) {
        for edge in ring.windows(2) {
            let (ax, ay) = xy(edge[0]);
            let (bx, by) = xy(edge[1]);
            probes.push(edge[0]);
            probes.push(c((ax + bx) / 2.0, (ay + by) / 2.0));
        }
    }
    probes
}

/// Points spread over the shape, plus every vertex and every edge midpoint.
///
/// The last two groups are where `ST_Contains` and `ST_Covers` part company, so a verdict that
/// reads the boundary wrongly shows up here.
fn boundary_and_spread_probes(geom: &Geometry) -> Vec<Coord> {
    let mut state = 0x5EEDu64;
    let mut probes: Vec<Coord> = (0..300)
        .map(|_| {
            let x = (next(&mut state) - 0.5) * 5.2;
            let y = (next(&mut state) - 0.5) * 2.6;
            c(x, y)
        })
        .collect();
    probes.extend(boundary_probes(geom));
    probes
}

/// The index must never change an answer, for any predicate, on either side.
#[test]
fn the_point_index_never_changes_an_answer() {
    for geom in indexable_literals() {
        let probes = boundary_and_spread_probes(&geom);
        let mut prepared = literal(geom.copy());
        for predicate in Predicate::all() {
            for side in [Side::Left, Side::Right] {
                for probe in &probes {
                    let row = Geometry::Point(*probe);
                    let want = match side {
                        Side::Left => predicate.evaluate(&geom, &row, &exact()),
                        Side::Right => predicate.evaluate(&row, &geom, &exact()),
                    };
                    assert_eq!(
                        prepared.evaluate(predicate, &row, side, &exact()),
                        want,
                        "{} with the constant on the {side:?} disagreed at {:?}",
                        predicate.function_name(),
                        xy(*probe)
                    );
                }
            }
        }
        assert!(prepared.has_point_index(), "the fixture must reach the indexed path");
    }
}

/// The table that decides which predicate reads the verdict.
#[test]
fn the_point_rule_table_covers_every_direct_predicate() {
    // The constant is the areal side, so it holds the point.
    for predicate in [Predicate::Contains, Predicate::ContainsProperly] {
        assert_eq!(predicate.point_rule(Side::Left), Some(PointRule::Inside));
        assert_eq!(predicate.point_rule(Side::Right), None);
    }
    assert_eq!(Predicate::Covers.point_rule(Side::Left), Some(PointRule::NotOutside));
    assert_eq!(Predicate::Covers.point_rule(Side::Right), None);

    // The converse pair reads the other way round.
    assert_eq!(Predicate::Within.point_rule(Side::Right), Some(PointRule::Inside));
    assert_eq!(Predicate::Within.point_rule(Side::Left), None);
    assert_eq!(Predicate::CoveredBy.point_rule(Side::Right), Some(PointRule::NotOutside));
    assert_eq!(Predicate::CoveredBy.point_rule(Side::Left), None);

    // Symmetric, so either side works.
    for side in [Side::Left, Side::Right] {
        assert_eq!(Predicate::Intersects.point_rule(side), Some(PointRule::NotOutside));
        assert_eq!(Predicate::Disjoint.point_rule(side), Some(PointRule::Outside));
    }

    // A DE-9IM predicate keeps the matrix path.
    for predicate in Predicate::all().iter().filter(|p| p.needs_relate()) {
        for side in [Side::Left, Side::Right] {
            assert_eq!(
                predicate.point_rule(side),
                None,
                "{} needs the matrix",
                predicate.function_name()
            );
        }
    }
}

/// The constant side reads the edge index. The two array side never builds one, so this compares
/// the indexed kernel with the unindexed kernel, end to end.
#[test]
fn scalar_and_array_paths_agree_on_a_large_polygon() {
    let ring = Geometry::Polygon(regular_ring(128));
    let probes = boundary_and_spread_probes(&ring);
    let rows: Vec<Option<(f64, f64)>> = probes.iter().map(|at| Some(xy(*at))).collect();
    let array = points(&rows, CoordType::Separated);
    let areas: Vec<Option<Polygon>> = probes.iter().map(|_| Some(regular_ring(128))).collect();
    let areas = polygons(&areas, CoordType::Separated);
    let mut constant = literal(ring);
    for predicate in Predicate::all() {
        assert_eq!(
            both(&array, &areas, predicate),
            against(&array, &mut constant, predicate, Side::Right),
            "{} disagreed with the constant on the right",
            predicate.function_name()
        );
        assert_eq!(
            both(&areas, &array, predicate),
            against(&array, &mut constant, predicate, Side::Left),
            "{} disagreed with the constant on the left",
            predicate.function_name()
        );
    }
    assert!(constant.has_point_index(), "the index must have been used");
}

/// A hole takes a point back out, and the boundary splits `ST_Contains` from `ST_Covers`.
#[test]
fn the_index_reads_a_hole_and_a_boundary() {
    let shell = regular(64, 1.0);
    let hole = scaled(&shell, 0.4, 0.0);
    let on_the_shell = xy(shell[0]);
    let donut = Polygon { exterior: shell, interiors: vec![hole] };
    let array = points(
        &[
            Some((0.0, 0.0)),   // in the hole
            Some((0.7, 0.0)),   // in the ring
            Some((0.95, 0.9)),  // outside
            Some(on_the_shell), // on the shell
        ],
        CoordType::Separated,
    );
    let mut constant = literal(Geometry::Polygon(donut));

    // The interior only.
    for (predicate, side) in [(Predicate::Within, Side::Right), (Predicate::Contains, Side::Left)] {
        let result = against(&array, &mut constant, predicate, side);
        let name = predicate.function_name();
        assert_eq!(result[0], Some(false), "{name}: the hole is not inside");
        assert_eq!(result[1], Some(true), "{name}: the ring is");
        assert_eq!(result[2], Some(false), "{name}: the corner is not");
        assert_eq!(result[3], Some(false), "{name}: the shell is not inside");
    }

    // The interior and the boundary.
    for (predicate, side) in [
        (Predicate::Covers, Side::Left),
        (Predicate::CoveredBy, Side::Right),
        (Predicate::Intersects, Side::Right),
    ] {
        let result = against(&array, &mut constant, predicate, side);
        let name = predicate.function_name();
        assert_eq!(result[0], Some(false), "{name}: the hole is still out");
        assert_eq!(result[1], Some(true), "{name}: the ring is in");
        assert_eq!(result[2], Some(false), "{name}: the corner is out");
        assert_eq!(result[3], Some(true), "{name}: the shell counts here");
    }

    // The complement of intersects.
    let disjoint = against(&array, &mut constant, Predicate::Disjoint, Side::Right);
    assert_eq!(disjoint[0], Some(true));
    assert_eq!(disjoint[1], Some(false));
    assert_eq!(disjoint[2], Some(true));
    assert_eq!(disjoint[3], Some(false));
    assert!(constant.has_point_index());
}

/// A point column with runs of repeats must answer exactly as one without them.
///
/// The two array path has no reuse, so it is the reference. Nulls sit between the runs, because a
/// null row carries an empty box and must never key a repeat.
#[test]
fn a_repeated_point_row_reuses_the_right_answer() {
    let vertex = xy(regular(128, 1.0)[0]);
    let sources = [
        Some((0.2, 0.1)),
        Some((0.2, 0.1)),
        Some((0.2, 0.1)),
        None,
        None,
        Some(vertex),
        Some(vertex),
        Some((40.0, 40.0)),
        Some((40.0, 40.0)),
        Some((-0.3, 0.6)),
        None,
        Some((-0.3, 0.6)),
        // A negative zero compares equal to a zero. Both name the same coordinate.
        Some((0.0, 0.5)),
        Some((-0.0, 0.5)),
    ];
    let array = points(&sources, CoordType::Separated);
    let areas: Vec<Option<Polygon>> = sources.iter().map(|_| Some(regular_ring(128))).collect();
    let areas = polygons(&areas, CoordType::Separated);
    let mut constant = literal(Geometry::Polygon(regular_ring(128)));
    for predicate in Predicate::all() {
        for side in [Side::Left, Side::Right] {
            let reused = against(&array, &mut constant, predicate, side);
            let reference = match side {
                Side::Right => both(&array, &areas, predicate),
                Side::Left => both(&areas, &array, predicate),
            };
            assert_eq!(
                reused,
                reference,
                "{} with the constant on the {side:?} reused a wrong answer",
                predicate.function_name()
            );
        }
    }
}

/// Only a point column may reuse a row. Two polygons can share a box and still differ.
#[test]
fn a_polygon_row_never_reuses_the_row_before_it() {
    let triangle = || polygon(&[&[(0.0, 0.0), (1.0, 0.0), (0.0, 1.0), (0.0, 0.0)]]);
    assert!(
        bbox_of(&Geometry::Polygon(unit_square()))
            .same(&bbox_of(&Geometry::Polygon(triangle()))),
        "the fixture needs two shapes with one box"
    );
    let rows = polygons(&[Some(unit_square()), Some(triangle())], CoordType::Separated);
    // The probe sits inside the square and outside the triangle.
    let mut constant = literal(Geometry::Point(c(0.75, 0.75)));
    let contains = against(&rows, &mut constant, Predicate::Contains, Side::Right);
    assert_eq!(contains[0], Some(true), "the square holds the probe");
    assert_eq!(contains[1], Some(false), "the triangle does not");
}

/// The edge index answers a point against a polygon. Every other call must leave it unbuilt.
#[test]
fn only_a_point_against_a_polygon_builds_the_edge_index() {
    let array = probe_points(CoordType::Separated);

    let mut small = literal(Geometry::Polygon(unit_square()));
    against(&array, &mut small, Predicate::Within, Side::Right);
    assert!(!small.has_point_index(), "a 5 vertex constant is below the threshold");

    let mut line = literal(Geometry::LineString(path(&[(-1.0, -1.0), (9.0, 9.0)])));
    against(&array, &mut line, Predicate::Within, Side::Right);
    assert!(!line.has_point_index(), "a line has no inside to index");

    let mut touches = literal(Geometry::Polygon(regular_ring(64)));
    against(&array, &mut touches, Predicate::Touches, Side::Right);
    assert!(!touches.has_point_index(), "a DE-9IM predicate keeps the R-tree path");
    assert!(touches.is_indexed(), "and builds that R-tree instead");

    // A polygon column, not a point column. The index answers a point probe only.
    let mut rows = literal(Geometry::Polygon(regular_ring(64)));
    against(&unit_squares(2), &mut rows, Predicate::Within, Side::Right);
    assert!(!rows.has_point_index(), "a polygon row is not a point probe");

    // Each direct predicate, with the constant on the side that holds the point.
    for (predicate, side) in [
        (Predicate::Within, Side::Right),
        (Predicate::CoveredBy, Side::Right),
        (Predicate::Contains, Side::Left),
        (Predicate::ContainsProperly, Side::Left),
        (Predicate::Covers, Side::Left),
        (Predicate::Intersects, Side::Right),
        (Predicate::Disjoint, Side::Right),
    ] {
        let mut constant = literal(Geometry::Polygon(regular_ring(64)));
        against(&array, &mut constant, predicate, side);
        assert!(
            constant.has_point_index(),
            "{} must reach the edge index",
            predicate.function_name()
        );
        assert!(
            !constant.is_indexed(),
            "{} must not also build the R-tree",
            predicate.function_name()
        );
    }
}

fn near(left: &Geometry, right: &Geometry) -> u64 {
    geo::Euclidean.distance(&to_geo(left), &to_geo(right)).to_bits()
}

/// The greatest distance of a vertex of either geometry from the other. No point is further away
/// where the other geometry is convex.
fn spread(left: &Geometry, right: &Geometry) -> u64 {
    let (a, b) = (to_geo(left), to_geo(right));
    let reach = |from: &geo::Geometry<f64>, to: &geo::Geometry<f64>| {
        from.coords_iter()
            .map(|at| geo::Euclidean.distance(&geo::Geometry::from(geo::Point(at)), to))
            .fold(0.0f64, f64::max)
    };
    reach(&a, &b).max(reach(&b, &a)).to_bits()
}

fn minus(a: u64, b: u64) -> u64 {
    (f64::from_bits(a) - f64::from_bits(b)).to_bits()
}

fn plus(a: u64, b: u64) -> u64 {
    (f64::from_bits(a) + f64::from_bits(b)).to_bits()
}

#[test]
fn dwithin_uses_the_expanded_box() {
    let a = points(&[Some((0.0, 0.0)), Some((0.0, 0.0))], CoordType::Separated);
    let b = points(&[Some((3.0, 4.0)), Some((30.0, 40.0))], CoordType::Separated);
    let distances = Distances { near, spread, minus, plus };
    let mut scratch = PredicateScratch::new();
    let within_five = st_dwithin(&a, &b, 5.0f64.to_bits(), &mut scratch, &distances).unwrap();
    assert_eq!(within_five[0], Some(true), "the 3-4-5 triangle is exactly 5 away");
    assert_eq!(within_five[1], Some(false));
    let within_four = st_dwithin(&a, &b, 4.0f64.to_bits(), &mut scratch, &distances).unwrap();
    assert_eq!(within_four[0], Some(false));
}

#[test]
fn dfullywithin_reads_the_far_corners() {
    let square = unit_squares(1);
    let corner = points(&[Some((0.0, 0.0)), None], CoordType::Separated);
    let distances = Distances { near, spread, minus, plus };
    let mut scratch = PredicateScratch::new();
    let close = st_dfully_within(&square, &corner, 1.0f64.to_bits(), &mut scratch, &distances);
    assert_eq!(close, Ok(vec![Some(false), None]));
    let wide = st_dfully_within(&square, &corner, 1.5f64.to_bits(), &mut scratch, &distances);
    assert_eq!(wide, Ok(vec![Some(true), None]));
}

#[test]
fn the_prefilter_of_dwithin_drops_no_match() {
    let square = unit_squares(1);
    let distances = Distances { near, spread, minus, plus };
    let mut scratch = PredicateScratch::new();
    for (at, gap) in [((4.0, 5.0), 5.0), ((0.5, 3.0), 2.0), ((-1.0, 0.5), 1.0), ((0.5, 0.5), 0.0)] {
        let point = points(&[Some(at)], CoordType::Separated);
        for radius in [gap, gap + 0.25, gap - 0.25] {
            let found =
                st_dwithin(&square, &point, f64::to_bits(radius), &mut scratch, &distances);
            assert_eq!(found, Ok(vec![Some(gap <= radius)]), "{at:?} within {radius}");
        }
    }
}

#[test]
fn symmetric_predicates_answer_both_ways() {
    let shapes = [
        Geometry::Polygon(unit_square()),
        Geometry::LineString(path(&[(-1.0, 0.5), (2.0, 0.5)])),
        Geometry::Point(c(1.0, 0.5)),
        Geometry::Point(c(9.0, 9.0)),
    ];
    for a in &shapes {
        for b in &shapes {
            for predicate in Predicate::all() {
                let forth = predicate.evaluate(a, b, &exact());
                let back = predicate.evaluate(b, a, &exact());
                assert!(!predicate.is_symmetric() || forth == back, "{predicate:?}");
                let settled = predicate.bbox_verdict(&bbox_of(a), &bbox_of(b));
                assert!(settled.is_none() || settled == Some(forth), "{predicate:?}");
                for (side, expected) in [(Side::Left, forth), (Side::Right, back)] {
                    let mut literal = PreparedLiteral::new(a.copy());
                    assert_eq!(literal.evaluate(predicate, b, side, &exact()), expected);
                }
            }
            let ask = |predicate: Predicate, a, b| predicate.evaluate(a, b, &exact());
            assert_eq!(ask(Predicate::Disjoint, a, b), !ask(Predicate::Intersects, a, b));
            assert_eq!(ask(Predicate::Within, a, b), ask(Predicate::Contains, b, a));
            assert_eq!(ask(Predicate::CoveredBy, a, b), ask(Predicate::Covers, b, a));
        }
    }
}

#[test]
fn a_constant_answers_as_a_column_of_copies() {
    let ring = || Polygon { exterior: regular(64, 2.0), interiors: vec![regular(32, 1.0)] };
    let rows = [(0.0, 0.0), (0.0, 0.0), (1.5, 0.0), (1.5, -0.0), (2.0, 0.0), (9.0, 9.0)];
    let rows: Vec<Option<(f64, f64)>> = rows.iter().map(|at| Some(*at)).chain([None]).collect();
    let copies: Vec<Option<Polygon>> = rows.iter().map(|_| Some(ring())).collect();
    for layout in [CoordType::Separated, CoordType::Interleaved] {
        let (array, many) = (points(&rows, layout), polygons(&copies, layout));
        for predicate in Predicate::all() {
            let mut scratch = PredicateScratch::new();
            let mut literal = PreparedLiteral::new(Geometry::Polygon(ring()));
            let right = st_predicate(&array, &many, predicate, &exact()).unwrap();
            let found = st_predicate_scalar(
                &array,
                &mut literal,
                predicate,
                Side::Right,
                &mut scratch,
                &exact(),
            );
            assert_eq!(found.unwrap(), right, "{predicate:?}");
            let left = st_predicate(&many, &array, predicate, &exact()).unwrap();
            let found = st_predicate_scalar(
                &array,
                &mut literal,
                predicate,
                Side::Left,
                &mut scratch,
                &exact(),
            );
            assert_eq!(found.unwrap(), left, "{predicate:?}");
        }
    }
}

#[test]
fn dfullywithin_holds_of_parallel_lines() {
    let lower = lines(&[Some(path(&[(0.0, 0.0), (10.0, 0.0)]))], CoordType::Separated);
    let upper = lines(&[Some(path(&[(0.0, 1.0), (10.0, 1.0)]))], CoordType::Separated);
    let distances = Distances { near, spread, minus, plus };
    let mut scratch = PredicateScratch::new();
    let wide = st_dfully_within(&lower, &upper, 2.0f64.to_bits(), &mut scratch, &distances);
    assert_eq!(wide, Ok(vec![Some(true)]));
    let tight = st_dfully_within(&lower, &upper, 0.5f64.to_bits(), &mut scratch, &distances);
    assert_eq!(tight, Ok(vec![Some(false)]));
}

#[test]
fn relate_returns_the_matrix() {
    let square = unit_squares(1);
    let inner = points(&[Some((0.5, 0.5))], CoordType::Separated);
    let matrix = st_relate(&square, &inner, &relate).unwrap();
    assert_eq!(matrix[0].as_ref().unwrap().len(), 9);
    assert_eq!(matrix[0].as_deref(), Some("0F2FF1FF2"));
    // The same relationship, asked as a pattern.
    let contains = st_relate_pattern(&square, &inner, "T*****FF*", &relate).unwrap();
    assert_eq!(contains[0], Some(true));
}

#[test]
fn a_bad_pattern_is_an_error() {
    let square = unit_squares(1);
    assert!(st_relate_pattern(&square, &square, "too short", &relate).is_err());
    assert_eq!(
        st_relate_pattern(&square, &square, "T*", &relate),
        Err(Error::PatternLength { len: 2 })
    );
    assert_eq!(
        st_relate_pattern(&square, &square, "X********", &relate),
        Err(Error::PatternCharacter { found: 'X' })
    );
}

/// A side of length one is broadcast over the batch. Any other mismatch is an error.
#[test]
fn predicate_a_single_row_side_broadcasts() {
    let left = probe_points(CoordType::Separated);
    let broadcast = both(&left, &unit_squares(1), Predicate::Intersects);
    assert_eq!(broadcast.len(), left.len());
    assert_eq!(broadcast[0], Some(true), "the inner point hits the square");
    assert_eq!(broadcast[1], Some(false), "the far point does not");
    assert!(broadcast[2].is_none());
    // The same answers as a hand-built constant column.
    assert_eq!(broadcast, both(&left, &unit_squares(4), Predicate::Intersects));
}

#[test]
fn predicate_a_genuine_length_mismatch_is_an_error() {
    let left = probe_points(CoordType::Separated);
    let three =
        points(&[Some((0.0, 0.0)), Some((1.0, 1.0)), Some((2.0, 2.0))], CoordType::Separated);
    assert_eq!(
        st_predicate(&left, &three, Predicate::Intersects, &exact()),
        Err(Error::UnequalLengths { function: "ST_Intersects", left: 4, right: 3 })
    );
}

#[test]
fn a_null_constant_makes_every_row_null() {
    let array = probe_points(CoordType::Separated);
    let nothing = points(&[None], CoordType::Separated);
    let called =
        predicate_call(&array, false, &nothing, true, Predicate::Intersects, &exact()).unwrap();
    assert_eq!(called, vec![None; 4]);
    let square = unit_squares(1);
    let right = predicate_call(&array, false, &square, true, Predicate::Within, &exact()).unwrap();
    assert_eq!(right, vec![Some(true), Some(false), None, Some(true)]);
    let left = predicate_call(&square, true, &array, false, Predicate::Contains, &exact()).unwrap();
    assert_eq!(left, right);
    let plain = predicate_call(&square, true, &square, true, Predicate::Equals, &exact()).unwrap();
    assert_eq!(plain, vec![Some(true)]);
}

#[test]
fn predicate_names() {
    assert_eq!(Predicate::all().len(), 11);
    assert_eq!(Predicate::CoveredBy.function_name(), "ST_CoveredBy");
    assert_eq!(Predicate::ContainsProperly.sql_name(), "st_containsproperly");
    assert!(Predicate::Touches.is_symmetric() && !Predicate::Within.is_symmetric());
}

#[test]
fn a_turned_matrix_swaps_contains_and_within() {
    let square = Geometry::Polygon(unit_square());
    let inner = Geometry::Point(c(0.5, 0.5));
    let matrix = relate(&square, &inner, false);
    let turned = relate(&inner, &square, true);
    assert!(Predicate::Contains.read_matrix(&matrix) && Predicate::Within.read_matrix(&turned));
    assert!(!Predicate::Within.read_matrix(&matrix));
    assert_eq!(matrix.matches(&matrix.text()), Ok(true));
    assert_eq!(matrix.matches("**********"), Err(Error::PatternLength { len: 10 }));
    assert_eq!(matrix.matches("********"), Err(Error::PatternLength { len: 8 }));
}

// ------------------------------------------------------------------------- grid
fn bbox(minx: f64, miny: f64, maxx: f64, maxy: f64) -> Bbox {
    Bbox {
        minx: minx.to_bits(),
        miny: miny.to_bits(),
        maxx: maxx.to_bits(),
        maxy: maxy.to_bits(),
    }
}

/// The index must never drop a true overlap. This is the only property that matters.
fn assert_superset(boxes: &[Bbox], probes: &[Bbox]) {
    let grid = BboxGrid::build(boxes, &cell);
    let mut candidates = Candidates::new(boxes.len());
    for probe in probes {
        grid.query(probe, &cell, &mut candidates);
        for (id, build) in boxes.iter().enumerate() {
            if build.intersects(probe) {
                assert!(
                    candidates.ids().contains(&(id as u32)),
                    "row {id} overlaps {probe:?} but the grid missed it"
                );
            }
        }
    }
}

#[test]
fn a_scattered_grid_finds_every_overlap() {
    let mut state = 0x5EEDu64;
    let boxes: Vec<Bbox> = (0..500)
        .map(|_| {
            let (x, y) = (next(&mut state) * 100.0, next(&mut state) * 100.0);
            let (w, h) = (next(&mut state) * 5.0, next(&mut state) * 5.0);
            bbox(x, y, x + w, y + h)
        })
        .collect();
    let probes: Vec<Bbox> = (0..100)
        .map(|_| {
            let (x, y) = (next(&mut state) * 100.0, next(&mut state) * 100.0);
            bbox(x, y, x + 3.0, y + 3.0)
        })
        .collect();
    assert_superset(&boxes, &probes);
}

/// Every box in one spot. The grid degenerates to one cell and must still be correct.
#[test]
fn identical_boxes_still_answer() {
    let boxes = vec![bbox(1.0, 1.0, 2.0, 2.0); 50];
    assert_superset(&boxes, &[bbox(1.5, 1.5, 1.6, 1.6), bbox(9.0, 9.0, 9.1, 9.1)]);
}

/// A single point has zero width and zero height. The cell size must not become infinite.
#[test]
fn a_degenerate_extent_does_not_divide_by_zero() {
    let boxes = vec![bbox(3.0, 4.0, 3.0, 4.0)];
    assert_superset(&boxes, &[bbox(3.0, 4.0, 3.0, 4.0), bbox(0.0, 0.0, 1.0, 1.0)]);
}

#[test]
fn an_empty_box_is_never_a_candidate() {
    let boxes = vec![Bbox::empty(), bbox(0.0, 0.0, 1.0, 1.0), Bbox::empty()];
    let grid = BboxGrid::build(&boxes, &cell);
    assert_eq!(grid.len(), 1);
    let mut candidates = Candidates::new(boxes.len());
    grid.query(&bbox(-10.0, -10.0, 10.0, 10.0), &cell, &mut candidates);
    assert_eq!(candidates.ids(), &[1]);
}

#[test]
fn an_empty_build_side_answers_nothing() {
    let grid = BboxGrid::build(&[], &cell);
    assert!(grid.is_empty());
    let mut candidates = Candidates::new(0);
    grid.query(&bbox(0.0, 0.0, 1.0, 1.0), &cell, &mut candidates);
    assert!(candidates.ids().is_empty());
}

/// A box that covers many cells must appear once, not once per cell.
#[test]
fn a_wide_box_is_reported_once() {
    let mut boxes: Vec<Bbox> =
        (0..100).map(|i| bbox(i as f64, 0.0, i as f64 + 0.1, 1.0)).collect();
    boxes.push(bbox(0.0, 0.0, 100.0, 1.0));
    let wide = (boxes.len() - 1) as u32;
    let grid = BboxGrid::build(&boxes, &cell);
    let mut candidates = Candidates::new(boxes.len());
    grid.query(&bbox(0.0, 0.0, 100.0, 1.0), &cell, &mut candidates);
    assert_eq!(
        candidates.ids().iter().filter(|&&id| id == wide).count(),
        1,
        "the wide row must appear once"
    );
}

// ------------------------------------------------------------- point in polygon
/// A star, so the ray crosses the ring more than twice on many rows.
fn star(tips: usize) -> Vec<Coord> {
    let mut ring: Vec<Coord> = (0..tips * 2)
        .map(|i| {
            let angle = (i as f64) / ((tips * 2) as f64) * std::f64::consts::TAU;
            let radius = if i % 2 == 0 { 1.0 } else { 0.35 };
            c(radius * angle.cos(), radius * angle.sin())
        })
        .collect();
    ring.push(ring[0]);
    ring
}

fn inside(geom: &Geometry, at: Coord) -> bool {
    to_geo(geom).contains(&to_geo_coord(&at))
}

/// The one property that matters: the index answers what `geo::Contains` answers.
fn assert_agrees(geom: &Geometry, probes: &[Coord]) {
    let index = PointInPolygonIndex::new(geom, &cell).expect("a polygonal geometry");
    let reference = to_geo(geom);
    for probe in probes {
        let at = to_geo_coord(probe);
        assert_eq!(
            index.contains(*probe, &cell, &orient),
            geo::Contains::contains(&reference, &at),
            "{at:?} disagreed with geo"
        );
    }
}

/// Probes over a square of `spread`, plus every vertex and every edge midpoint.
fn spread_probes(geom: &Geometry, count: usize, spread: f64) -> Vec<Coord> {
    let mut state = 0x5EEDu64;
    let mut out: Vec<Coord> = (0..count)
        .map(|_| {
            let x = (next(&mut state) - 0.5) * spread;
            let y = (next(&mut state) - 0.5) * spread;
            c(x, y)
        })
        .collect();
    out.extend(boundary_probes(geom));
    out
}

fn area(exterior: Vec<Coord>, interiors: Vec<Vec<Coord>>) -> Geometry {
    Geometry::Polygon(Polygon { exterior, interiors })
}

#[test]
fn a_plain_ring_agrees_with_geo() {
    for sides in [3usize, 5, 64, 256, 1000] {
        let geom = area(regular(sides, 1.0), Vec::new());
        assert_agrees(&geom, &spread_probes(&geom, 4000, 2.4));
    }
}

#[test]
fn a_concave_ring_agrees_with_geo() {
    let geom = area(star(40), Vec::new());
    assert_agrees(&geom, &spread_probes(&geom, 4000, 2.4));
}

/// A hole wound the other way round from the shell. This is the well formed case.
#[test]
fn a_hole_agrees_with_geo() {
    let mut hole = regular(128, 0.4);
    hole.reverse();
    let geom = area(regular(256, 1.0), vec![hole]);
    assert_agrees(&geom, &spread_probes(&geom, 4000, 2.4));
}

/// A hole wound the same way as the shell. The rings are read one at a time, so the point in the
/// hole is still outside. A single winding number over every ring would say inside.
#[test]
fn a_hole_wound_like_its_shell_agrees_with_geo() {
    let geom = area(regular(128, 1.0), vec![regular(64, 0.4)]);
    let index = PointInPolygonIndex::new(&geom, &cell).unwrap();
    let centre = c(0.0, 0.0);
    assert!(!inside(&geom, centre), "geo puts the centre in the hole");
    assert!(!index.contains(centre, &cell, &orient), "the index must say the same");
    assert_agrees(&geom, &spread_probes(&geom, 4000, 2.4));
}

#[test]
fn a_multi_polygon_agrees_with_geo() {
    let shift = |ring: Vec<Coord>, dx: f64| scaled(&ring, 1.0, dx);
    let geom = Geometry::MultiPolygon(vec![
        Polygon { exterior: shift(regular(64, 0.9), -1.0), interiors: Vec::new() },
        Polygon { exterior: shift(regular(200, 0.9), 1.0), interiors: Vec::new() },
    ]);
    assert_agrees(&geom, &spread_probes(&geom, 6000, 5.0));
}

/// Long horizontal edges make one edge land in many buckets. The build must cap that and still
/// answer correctly.
#[test]
fn a_comb_with_long_edges_agrees_with_geo() {
    let mut ring = vec![(0.0, 0.0)];
    for tooth in 0..60 {
        let y = tooth as f64;
        ring.push((100.0, y));
        ring.push((100.0, y + 0.5));
        ring.push((0.0, y + 0.5));
        ring.push((0.0, y + 1.0));
    }
    ring.push((0.0, 0.0));
    let geom = area(path(&ring), Vec::new());

    let index = PointInPolygonIndex::new(&geom, &cell).unwrap();
    assert!(
        index.shell_slots(0) <= (ring.len() - 1) * MAX_FANOUT,
        "the build must cap the fanout"
    );

    let mut state = 0xC0FFEEu64;
    let mut spread: Vec<Coord> = (0..8000)
        .map(|_| {
            let x = next(&mut state) * 110.0 - 5.0;
            let y = next(&mut state) * 70.0 - 5.0;
            c(x, y)
        })
        .collect();
    spread.extend(spread_probes(&geom, 0, 0.0));
    assert_agrees(&geom, &spread);
}

/// A ring with no area still has to answer, and must not divide by zero.
#[test]
fn a_degenerate_ring_answers() {
    let flat = area(path(&[(0.0, 5.0), (1.0, 5.0), (2.0, 5.0), (0.0, 5.0)]), Vec::new());
    assert_agrees(&flat, &[c(0.5, 5.0), c(0.5, 4.0), c(9.0, 5.0)]);
    let empty = area(Vec::new(), Vec::new());
    assert_agrees(&empty, &[c(0.0, 0.0)]);
    let dot = area(path(&[(3.0, 4.0)]), Vec::new());
    assert_agrees(&dot, &[c(3.0, 4.0), c(0.0, 0.0)]);
}

/// A point with no coordinate reaches the kernel as NaN. It must be outside, not a panic.
#[test]
fn a_nan_probe_is_outside() {
    let geom = area(regular(128, 1.0), Vec::new());
    let index = PointInPolygonIndex::new(&geom, &cell).unwrap();
    assert!(!index.contains(c(f64::NAN, f64::NAN), &cell, &orient));
}

#[test]
fn a_non_polygonal_literal_has_no_index() {
    let line = Geometry::LineString(regular(64, 1.0));
    assert!(PointInPolygonIndex::new(&line, &cell).is_none());
    assert!(PointInPolygonIndex::new(&Geometry::Point(c(0.0, 0.0)), &cell).is_none());
}
