//! Linear reference.
//!
//! `ST_ClosestPoint`, `ST_ShortestLine`, `ST_LineLocatePoint` and `ST_LineInterpolatePoint`.
//!
//! These read a position along a geometry rather than a property of it. The two `Line...`
//! functions are defined on line strings only, and return null for anything else, as in PostGIS.

use vstd::prelude::*;
use crate::builder::{
    are_lines, are_points, flat, flat_rows, flat_tuple, lemma_vertex_total, point_column,
    vertex_total, LineStringBuilder,
};
use crate::column::{Column, ColumnView, DataType, DataTypeView, Dimension, Kind};
use crate::error::Error;
use crate::geometry::{coords_of, lemma_collection_view, Coord, Geometry, GeometryView};
use crate::materialize::GeometryReader;
use crate::number;
use crate::operand::{
    has_pair_broken, is_pair_read, lengths_fit, map_pairs, no_pair_broken, pair_len, slot,
};

verus! {

/// The point type these functions produce from a given input type.
pub fn point_output_type(input: &DataType) -> (r: DataType)
    ensures
        r@ == DataTypeView::separated(Kind::Point, Dimension::XY, input@.metadata),
{
    DataType::separated(Kind::Point, Dimension::XY, input.metadata.copy())
}

/// The line string type `ST_ShortestLine` produces.
pub fn line_output_type(input: &DataType) -> (r: DataType)
    ensures
        r@ == DataTypeView::separated(Kind::LineString, Dimension::XY, input@.metadata),
{
    DataType::separated(Kind::LineString, Dimension::XY, input.metadata.copy())
}

// --------------------------------------------------------------------- closest
/// The point of a geometry that is nearest to a target.
#[derive(Debug, Clone, Copy)]
pub enum Closest {
    /// The target lies on the geometry.
    Intersection(Coord),
    /// One point is nearer than any other.
    SinglePoint(Coord),
    /// There is no single nearest point.
    Indeterminate,
}

impl Closest {
    /// The nearest point, if there is a single one.
    pub open spec fn found(self) -> Option<Coord> {
        match self {
            Closest::Intersection(c) => Some(c),
            Closest::SinglePoint(c) => Some(c),
            Closest::Indeterminate => None,
        }
    }

    /// The nearest point, if there is a single one. PostGIS reports anything else as null.
    pub fn point(self) -> (r: Option<Coord>)
        ensures
            r == self.found(),
    {
        match self {
            Closest::Intersection(c) => Some(c),
            Closest::SinglePoint(c) => Some(c),
            Closest::Indeterminate => None,
        }
    }
}

/// The distances that the caller supplies.
pub struct Nearest<C, G, D> {
    /// The point of a geometry that is not a collection nearest to a position.
    pub closest: C,
    /// The distance between two positions.
    pub gap: G,
    /// The distance between a position and a geometry.
    pub distance: D,
}

/// True when the distances can be asked for.
pub open spec fn can_find<C, G, D>(tools: Nearest<C, G, D>) -> bool where
    C: Fn(&Geometry, Coord) -> Closest,
    G: Fn(Coord, Coord) -> u64,
    D: Fn(Coord, &Geometry) -> u64,
 {
    &&& forall|g: &Geometry, c: Coord| #[trigger] tools.closest.requires((g, c))
    &&& forall|a: Coord, b: Coord| #[trigger] tools.gap.requires((a, b))
    &&& forall|c: Coord, g: &Geometry| #[trigger] tools.distance.requires((c, g))
}

/// The candidate before `end` with the least distance, the first of them where several have it.
pub open spec fn best(candidates: Seq<Option<Coord>>, distances: Seq<u64>, end: int) -> Option<int>
    decreases end,
{
    if end <= 0 {
        None
    } else {
        let front = best(candidates, distances, end - 1);
        if candidates[end - 1] is None {
            front
        } else {
            match front {
                Some(at) => if number::is_lt(distances[end - 1], distances[at]) {
                    Some(end - 1)
                } else {
                    front
                },
                None => Some(end - 1),
            }
        }
    }
}

/// True when each candidate has its distance from the target.
pub open spec fn are_gaps<G: Fn(Coord, Coord) -> u64>(
    gap: G,
    target: Coord,
    candidates: Seq<Option<Coord>>,
    distances: Seq<u64>,
) -> bool {
    &&& distances.len() == candidates.len()
    &&& forall|i: int|
        0 <= i < candidates.len() ==> (#[trigger] candidates[i] matches Some(c) ==> gap.ensures(
            (c, target),
            distances[i],
        ))
}

/// True when `out` is the candidate nearest to the target.
pub open spec fn is_best<G: Fn(Coord, Coord) -> u64>(
    gap: G,
    target: Coord,
    candidates: Seq<Option<Coord>>,
    out: Option<Coord>,
) -> bool {
    exists|distances: Seq<u64>| #[trigger]
        are_gaps(gap, target, candidates, distances) && out == match best(
            candidates,
            distances,
            candidates.len() as int,
        ) {
            Some(at) => candidates[at],
            None => None,
        }
}

/// True when `out` is the point of a geometry nearest to the target. For a collection it is the
/// nearest over its parts.
pub open spec fn is_closest<C, G, D>(
    tools: Nearest<C, G, D>,
    geom: GeometryView,
    target: Coord,
    out: Option<Coord>,
) -> bool where
    C: Fn(&Geometry, Coord) -> Closest,
    G: Fn(Coord, Coord) -> u64,
    D: Fn(Coord, &Geometry) -> u64,

    decreases geom,
{
    match geom {
        GeometryView::GeometryCollection(parts) => exists|candidates: Seq<Option<Coord>>|
            are_closest(tools, parts, target, candidates) && #[trigger] is_best(
                tools.gap,
                target,
                candidates,
                out,
            ),
        _ => exists|g: Geometry, found: Closest| #[trigger]
            tools.closest.ensures((&g, target), found) && g@ == geom && out == found.found(),
    }
}

/// True when each candidate is the point of its part nearest to the target.
pub open spec fn are_closest<C, G, D>(
    tools: Nearest<C, G, D>,
    parts: Seq<GeometryView>,
    target: Coord,
    candidates: Seq<Option<Coord>>,
) -> bool where
    C: Fn(&Geometry, Coord) -> Closest,
    G: Fn(Coord, Coord) -> u64,
    D: Fn(Coord, &Geometry) -> u64,

    decreases parts,
{
    &&& candidates.len() == parts.len()
    &&& forall|i: int|
        0 <= i < parts.len() ==> is_closest(tools, parts[i], target, #[trigger] candidates[i])
}

/// The point of `geom` nearest to `target`.
pub fn closest_point_of<C, G, D>(geom: &Geometry, target: Coord, tools: &Nearest<C, G, D>) -> (r:
    Option<Coord>) where
    C: Fn(&Geometry, Coord) -> Closest,
    G: Fn(Coord, Coord) -> u64,
    D: Fn(Coord, &Geometry) -> u64,

    requires
        can_find(*tools),
    ensures
        is_closest(*tools, geom@, target, r),
    decreases geom,
{
    match geom {
        // A collection has no single answer. Take the nearest over its parts.
        Geometry::GeometryCollection(parts) => {
            let gap = &tools.gap;
            let ghost views = geom@->GeometryCollection_0;
            proof {
                lemma_collection_view(*parts);
            }
            let ghost mut candidates: Seq<Option<Coord>> = Seq::empty();
            let ghost mut distances: Seq<u64> = Seq::empty();
            let ghost mut chosen: Option<int> = None;
            let mut nearest: Option<(u64, Coord)> = None;
            let mut i: usize = 0;
            while i < parts.len()
                invariant
                    i <= parts@.len(),
                    can_find(*tools),
                    gap == &tools.gap,
                    *geom == Geometry::GeometryCollection(*parts),
                    views.len() == parts@.len(),
                    forall|j: int| 0 <= j < parts@.len() ==> views[j] == (#[trigger] parts@[j])@,
                    candidates.len() == i,
                    distances.len() == i,
                    forall|j: int|
                        0 <= j < i ==> is_closest(
                            *tools,
                            views[j],
                            target,
                            #[trigger] candidates[j],
                        ),
                    forall|j: int|
                        0 <= j < i ==> (#[trigger] candidates[j] matches Some(c)
                            ==> tools.gap.ensures((c, target), distances[j])),
                    chosen == best(candidates, distances, i as int),
                    match (nearest, chosen) {
                        (Some((d, c)), Some(at)) => 0 <= at < i && candidates[at] == Some(c)
                            && distances[at] == d,
                        (None, None) => true,
                        _ => false,
                    },
                decreases parts@.len() - i,
            {
                proof {
                    assert(decreases_to!(*parts => parts[i as int]));
                    assert(decreases_to!(*geom => geom->GeometryCollection_0));
                }
                let candidate = closest_point_of(&parts[i], target, tools);
                let ghost before = candidates;
                let ghost sums = distances;
                proof {
                    candidates = before.push(candidate);
                    distances = sums.push(0);
                }
                if let Some(c) = candidate {
                    let d: u64 = gap(c, target);
                    assert(gap.ensures((c, target), d));
                    proof {
                        distances = sums.push(d);
                    }
                    let closer = match nearest {
                        Some((current, _)) => number::lt(d, current),
                        None => true,
                    };
                    if closer {
                        nearest = Some((d, c));
                    }
                }
                proof {
                    lemma_best_prefix(before, sums, candidates, distances, i as int);
                    chosen = best(candidates, distances, i + 1);
                }
                i = i + 1;
            }
            let r: Option<Coord> = match nearest {
                Some((_, c)) => Some(c),
                None => None,
            };
            proof {
                assert(are_gaps(tools.gap, target, candidates, distances));
                assert(is_best(tools.gap, target, candidates, r));
                assert(are_closest(*tools, views, target, candidates));
            }
            r
        },
        _ => {
            let closest = &tools.closest;
            let found = closest(geom, target);
            assert(closest.ensures((geom, target), found));
            found.point()
        },
    }
}

/// What is best goes by the candidates before the end alone.
proof fn lemma_best_prefix(
    a: Seq<Option<Coord>>,
    x: Seq<u64>,
    b: Seq<Option<Coord>>,
    y: Seq<u64>,
    end: int,
)
    requires
        end <= a.len(),
        end <= b.len(),
        end <= x.len(),
        end <= y.len(),
        forall|i: int| 0 <= i < end ==> #[trigger] a[i] == b[i],
        forall|i: int| 0 <= i < end ==> #[trigger] x[i] == y[i],
    ensures
        best(a, x, end) == best(b, y, end),
        best(a, x, end) matches Some(at) ==> 0 <= at < end && a[at] is Some,
    decreases end,
{
    if end > 0 {
        lemma_best_prefix(a, x, b, y, end - 1);
        assert(a[end - 1] == b[end - 1]);
        assert(x[end - 1] == y[end - 1]);
    }
}

// -------------------------------------------------------------- representative
/// True when each vertex has its distance from the other geometry.
pub open spec fn are_reaches<D: Fn(Coord, &Geometry) -> u64>(
    distance: D,
    vertices: Seq<Coord>,
    other: GeometryView,
    distances: Seq<u64>,
) -> bool {
    &&& distances.len() == vertices.len()
    &&& forall|i: int|
        0 <= i < vertices.len() ==> is_reach(
            distance,
            vertices[i],
            other,
            #[trigger] distances[i],
        )
}

/// True when `out` is the distance between a position and a geometry.
pub open spec fn is_reach<D: Fn(Coord, &Geometry) -> u64>(
    distance: D,
    c: Coord,
    other: GeometryView,
    out: u64,
) -> bool {
    exists|g: Geometry| #[trigger] distance.ensures((c, &g), out) && g@ == other
}

/// The first of the least of the distances before `end`.
pub open spec fn least(distances: Seq<u64>, end: int) -> int
    decreases end,
{
    if end <= 1 {
        0
    } else {
        let front = least(distances, end - 1);
        if number::is_lt(distances[end - 1], distances[front]) {
            end - 1
        } else {
            front
        }
    }
}

/// True when `out` stands for a geometry: a point for itself, anything else for its vertex nearest
/// to the other geometry.
pub open spec fn is_representative<D: Fn(Coord, &Geometry) -> u64>(
    distance: D,
    geom: GeometryView,
    other: GeometryView,
    out: Option<Coord>,
) -> bool {
    let vertices = coords_of(geom);
    match geom {
        GeometryView::Point(c) => out == Some(c),
        _ => if vertices.len() == 0 {
            out is None
        } else {
            exists|distances: Seq<u64>| #[trigger]
                are_reaches(distance, vertices, other, distances) && out == Some(
                    vertices[least(distances, distances.len() as int)],
                )
        },
    }
}

proof fn lemma_least_prefix(a: Seq<u64>, b: Seq<u64>, end: int)
    requires
        0 < end <= a.len(),
        end <= b.len(),
        forall|i: int| 0 <= i < end ==> #[trigger] a[i] == b[i],
    ensures
        least(a, end) == least(b, end),
        0 <= least(a, end) < end,
    decreases end,
{
    if end > 1 {
        lemma_least_prefix(a, b, end - 1);
        assert(a[end - 1] == b[end - 1]);
    }
}

/// A representative point for one of two geometries.
///
/// PostGIS measures to the nearest point of the second geometry. A non-point argument is reduced to
/// its nearest vertex. That is exact when the argument is a point, which is the case these
/// functions are used for.
pub fn as_point<D: Fn(Coord, &Geometry) -> u64>(
    geom: &Geometry,
    other: &Geometry,
    distance: &D,
) -> (r: Option<Coord>)
    requires
        forall|c: Coord, g: &Geometry| #[trigger] distance.requires((c, g)),
    ensures
        is_representative(*distance, geom@, other@, r),
{
    if let Geometry::Point(c) = geom {
        return Some(*c);
    }
    let vertices = geom.coords();
    if vertices.len() == 0 {
        return None;
    }
    let mut nearest: usize = 0;
    let mut reach: u64 = distance(vertices[0], other);
    let ghost mut distances: Seq<u64> = seq![reach];
    assert(distance.ensures((vertices@[0], other), reach));
    assert(is_reach(*distance, vertices@[0], other@, reach));
    let mut i: usize = 1;
    while i < vertices.len()
        invariant
            1 <= i <= vertices@.len(),
            forall|c: Coord, g: &Geometry| #[trigger] distance.requires((c, g)),
            distances.len() == i,
            forall|j: int|
                0 <= j < i ==> is_reach(
                    *distance,
                    vertices@[j],
                    other@,
                    #[trigger] distances[j],
                ),
            nearest == least(distances, i as int),
            nearest < i,
            reach == distances[nearest as int],
        decreases vertices@.len() - i,
    {
        let d: u64 = distance(vertices[i], other);
        assert(distance.ensures((vertices@[i as int], other), d));
        assert(is_reach(*distance, vertices@[i as int], other@, d));
        let ghost before = distances;
        proof {
            distances = before.push(d);
            lemma_least_prefix(before, distances, i as int);
        }
        if number::lt(d, reach) {
            nearest = i;
            reach = d;
        }
        i = i + 1;
    }
    assert(are_reaches(*distance, vertices@, other@, distances));
    Some(vertices[nearest])
}

/// True when `out` is the point of the first geometry nearest to the representative of the second.
pub open spec fn is_nearest_point<C, G, D>(
    tools: Nearest<C, G, D>,
    left: GeometryView,
    right: GeometryView,
    out: Option<Coord>,
) -> bool where
    C: Fn(&Geometry, Coord) -> Closest,
    G: Fn(Coord, Coord) -> u64,
    D: Fn(Coord, &Geometry) -> u64,
 {
    exists|target: Option<Coord>| #[trigger]
        is_representative(tools.distance, right, left, target) && match target {
            Some(c) => is_closest(tools, left, c, out),
            None => out is None,
        }
}

/// The point of the first geometry nearest to the second.
pub fn nearest_point<C, G, D>(left: &Geometry, right: &Geometry, tools: &Nearest<C, G, D>) -> (r:
    Option<Coord>) where
    C: Fn(&Geometry, Coord) -> Closest,
    G: Fn(Coord, Coord) -> u64,
    D: Fn(Coord, &Geometry) -> u64,

    requires
        can_find(*tools),
    ensures
        is_nearest_point(*tools, left@, right@, r),
{
    let target = as_point(right, left, &tools.distance);
    match target {
        Some(c) => closest_point_of(left, c, tools),
        None => None,
    }
}

// ----------------------------------------------------------------- two columns
/// True when `f` holds of the two geometries of each row and the result of the row, and a row
/// without one of them gives nothing.
pub open spec fn are_pair_rows<T>(
    left: ColumnView,
    right: ColumnView,
    f: spec_fn(GeometryView, GeometryView, Option<T>) -> bool,
    out: Seq<Option<T>>,
) -> bool {
    forall|i: int|
        0 <= i < out.len() ==> match (
            left.geometry(slot(left.rows(), out.len() as int, i)),
            right.geometry(slot(right.rows(), out.len() as int, i)),
        ) {
            (Some(a), Some(b)) => f(a, b, #[trigger] out[i]),
            _ => out[i] is None,
        }
}

/// When a kernel over two columns gives a column, and when it fails.
pub open spec fn is_pair_column(
    left: ColumnView,
    right: ColumnView,
    function: Seq<char>,
    r: Result<Column, Error>,
) -> bool {
    match r {
        Ok(out) => {
            &&& lengths_fit(left.rows(), right.rows(), out@.rows())
            &&& no_pair_broken(left, right, out@.rows(), out@.rows())
        },
        Err(Error::UnequalLengths { function: name, left: a, right: b }) => {
            &&& pair_len(left.rows(), right.rows()) is None
            &&& name@ == function
            &&& a == left.rows()
            &&& b == right.rows()
        },
        Err(Error::Undecodable) => match pair_len(left.rows(), right.rows()) {
            Some(rows) => has_pair_broken(left, right, rows, rows),
            None => false,
        },
        Err(_) => false,
    }
}

/// `ST_ClosestPoint`. The point of the first geometry nearest to the second.
pub fn st_closest_point<C, G, D>(
    left: &Column,
    right: &Column,
    output: &DataType,
    tools: &Nearest<C, G, D>,
) -> (r: Result<Column, Error>) where
    C: Fn(&Geometry, Coord) -> Closest,
    G: Fn(Coord, Coord) -> u64,
    D: Fn(Coord, &Geometry) -> u64,

    requires
        left.wf(),
        right.wf(),
        can_find(*tools),
        output@ == DataTypeView::separated(Kind::Point, Dimension::XY, output@.metadata),
    ensures
        is_pair_column(left@, right@, "ST_ClosestPoint"@, r),
        r matches Ok(out) ==> out@.data_type() == output@ && exists|found: Seq<Option<Coord>>|
            {
                &&& #[trigger] are_points(out@, Dimension::XY, flat_rows(found))
                &&& are_pair_rows(
                    left@,
                    right@,
                    |a: GeometryView, b: GeometryView, c: Option<Coord>|
                        is_nearest_point(*tools, a, b, c),
                    found,
                )
            },
{
    let f = |a: &Geometry, b: &Geometry| -> (out: Option<Coord>)
        ensures
            is_nearest_point(*tools, a@, b@, out),
        { nearest_point(a, b, tools) };
    match map_pairs("ST_ClosestPoint", left, right, &f) {
        Ok(found) => {
            let out = point_column(&found, output.metadata.copy());
            assert(are_points(out@, Dimension::XY, flat_rows(found@)));
            Ok(out)
        },
        Err(error) => Err(error),
    }
}

/// True when `out` has one end on each geometry: the nearest point of the first to the second, and
/// of the second to the first.
pub open spec fn is_shortest<C, G, D>(
    tools: Nearest<C, G, D>,
    left: GeometryView,
    right: GeometryView,
    out: Option<(Coord, Coord)>,
) -> bool where
    C: Fn(&Geometry, Coord) -> Closest,
    G: Fn(Coord, Coord) -> u64,
    D: Fn(Coord, &Geometry) -> u64,
 {
    exists|a: Option<Coord>, b: Option<Coord>|
        {
            &&& #[trigger] is_nearest_point(tools, left, right, a)
            &&& #[trigger] is_nearest_point(tools, right, left, b)
            &&& out == match (a, b) {
                (Some(start), Some(end)) => Some((start, end)),
                _ => None,
            }
        }
}

/// The ends of the shortest line between two geometries.
pub fn shortest_ends<C, G, D>(left: &Geometry, right: &Geometry, tools: &Nearest<C, G, D>) -> (r:
    Option<(Coord, Coord)>) where
    C: Fn(&Geometry, Coord) -> Closest,
    G: Fn(Coord, Coord) -> u64,
    D: Fn(Coord, &Geometry) -> u64,

    requires
        can_find(*tools),
    ensures
        is_shortest(*tools, left@, right@, r),
{
    let start = nearest_point(left, right, tools);
    let end = nearest_point(right, left, tools);
    match (start, end) {
        (Some(a), Some(b)) => Some((a, b)),
        _ => None,
    }
}

/// The rows of a line string column over optional pairs of ends.
pub open spec fn end_rows(found: Seq<Option<(Coord, Coord)>>) -> Seq<Option<Seq<Seq<u64>>>> {
    Seq::new(
        found.len(),
        |i: int|
            match found[i] {
                Some((a, b)) => Some(seq![flat(a), flat(b)]),
                None => None,
            },
    )
}

/// `ST_ShortestLine`. The two point line between the nearest points of the two geometries.
pub fn st_shortest_line<C, G, D>(
    left: &Column,
    right: &Column,
    output: &DataType,
    tools: &Nearest<C, G, D>,
) -> (r: Result<Column, Error>) where
    C: Fn(&Geometry, Coord) -> Closest,
    G: Fn(Coord, Coord) -> u64,
    D: Fn(Coord, &Geometry) -> u64,

    requires
        left.wf(),
        right.wf(),
        can_find(*tools),
        output@ == DataTypeView::separated(Kind::LineString, Dimension::XY, output@.metadata),
        pair_len(left.rows(), right.rows()) matches Some(rows) ==> 2 * rows <= i32::MAX,
    ensures
        is_pair_column(left@, right@, "ST_ShortestLine"@, r),
        r matches Ok(out) ==> out@.data_type() == output@ && exists|
            found: Seq<Option<(Coord, Coord)>>,
        |
            {
                &&& #[trigger] are_lines(out@, Dimension::XY, end_rows(found))
                &&& are_pair_rows(
                    left@,
                    right@,
                    |a: GeometryView, b: GeometryView, ends: Option<(Coord, Coord)>|
                        is_shortest(*tools, a, b, ends),
                    found,
                )
            },
{
    let f = |a: &Geometry, b: &Geometry| -> (out: Option<(Coord, Coord)>)
        ensures
            is_shortest(*tools, a@, b@, out),
        { shortest_ends(a, b, tools) };
    let found = match map_pairs("ST_ShortestLine", left, right, &f) {
        Ok(found) => found,
        Err(error) => {
            return Err(error);
        },
    };
    let ghost expected = end_rows(found@);
    let mut builder = LineStringBuilder::new(Dimension::XY);
    let mut i: usize = 0;
    while i < found.len()
        invariant
            i <= found@.len(),
            2 * found@.len() <= i32::MAX,
            expected == end_rows(found@),
            builder.wf(),
            builder.dimension() == Dimension::XY,
            builder.rows() == expected.take(i as int),
            builder.open_row() == Seq::<Seq<u64>>::empty(),
            vertex_total(builder.rows(), i as int) <= 2 * i,
        decreases found@.len() - i,
    {
        let ghost before = builder.rows();
        match found[i] {
            Some((a, b)) => {
                let _first = builder.push_vertex(flat_tuple(a));
                let _second = builder.push_vertex(flat_tuple(b));
                assert(builder.open_row() =~= seq![flat(a), flat(b)]);
                builder.end_row();
            },
            None => {
                builder.push_null();
            },
        }
        proof {
            lemma_vertex_total(before, builder.rows(), i as int);
            assert(expected.take(i + 1) =~= expected.take(i as int).push(expected[i as int]));
        }
        i = i + 1;
    }
    assert(expected.take(i as int) =~= expected);
    let out = builder.finish(output.metadata.copy());
    assert(are_lines(out@, Dimension::XY, end_rows(found@)));
    Ok(out)
}

/// True when `out` is where along a line the representative of the second geometry falls.
pub open spec fn is_line_position<L, D>(
    locate: L,
    distance: D,
    line: GeometryView,
    other: GeometryView,
    out: Option<u64>,
) -> bool where L: Fn(&Vec<Coord>, Coord) -> Option<u64>, D: Fn(Coord, &Geometry) -> u64 {
    match line {
        GeometryView::LineString(path) => exists|target: Option<Coord>| #[trigger]
            is_representative(distance, other, line, target) && match target {
                Some(c) => exists|l: Vec<Coord>| #[trigger]
                    locate.ensures((&l, c), out) && l@ == path,
                None => out is None,
            },
        _ => out is None,
    }
}

/// Where along a line a geometry falls. PostGIS restricts this one to line strings.
pub fn line_position<L, D>(line: &Geometry, other: &Geometry, locate: &L, distance: &D) -> (r:
    Option<u64>) where L: Fn(&Vec<Coord>, Coord) -> Option<u64>, D: Fn(Coord, &Geometry) -> u64
    requires
        forall|l: &Vec<Coord>, c: Coord| #[trigger] locate.requires((l, c)),
        forall|c: Coord, g: &Geometry| #[trigger] distance.requires((c, g)),
    ensures
        is_line_position(*locate, *distance, line@, other@, r),
{
    match line {
        Geometry::LineString(path) => {
            let target = as_point(other, line, distance);
            match target {
                Some(c) => {
                    let r = locate(path, c);
                    assert(locate.ensures((path, c), r));
                    r
                },
                None => None,
            }
        },
        _ => None,
    }
}

/// `ST_LineLocatePoint`. Where along a line string a point falls, from 0 to 1.
pub fn st_line_locate_point<L, D>(line: &Column, point: &Column, locate: &L, distance: &D) -> (r:
    Result<Vec<Option<u64>>, Error>) where
    L: Fn(&Vec<Coord>, Coord) -> Option<u64>,
    D: Fn(Coord, &Geometry) -> u64,

    requires
        line.wf(),
        point.wf(),
        forall|l: &Vec<Coord>, c: Coord| #[trigger] locate.requires((l, c)),
        forall|c: Coord, g: &Geometry| #[trigger] distance.requires((c, g)),
    ensures
        is_pair_read(line@, point@, "ST_LineLocatePoint"@, r),
        r matches Ok(out) ==> are_pair_rows(
            line@,
            point@,
            |a: GeometryView, b: GeometryView, x: Option<u64>|
                is_line_position(*locate, *distance, a, b, x),
            out@,
        ),
{
    let f = |a: &Geometry, b: &Geometry| -> (out: Option<u64>)
        ensures
            is_line_position(*locate, *distance, a@, b@, out),
        { line_position(a, b, locate, distance) };
    map_pairs("ST_LineLocatePoint", line, point, &f)
}

// ----------------------------------------------------------------- interpolate
/// The fraction of a row, where it has one from 0 to 1.
pub open spec fn fraction_at(fraction: Seq<Option<u64>>, i: int) -> Option<u64> {
    match fraction[i] {
        Some(p) => if number::is_le(number::ZERO, p) && number::is_le(p, number::ONE) {
            Some(p)
        } else {
            None
        },
        None => None,
    }
}

/// True when a row with a fraction has a value that could not be decoded. A row without one is not
/// read.
pub open spec fn is_walk_broken(line: ColumnView, fraction: Seq<Option<u64>>, i: int) -> bool {
    fraction_at(fraction, i) is Some && line.is_broken(i)
}

/// True when `out` is the point at the fraction of a row along its line.
pub open spec fn is_walked<W: Fn(&Vec<Coord>, u64) -> Option<Coord>>(
    walk: W,
    line: ColumnView,
    fraction: Seq<Option<u64>>,
    i: int,
    out: Option<Coord>,
) -> bool {
    match (fraction_at(fraction, i), line.geometry(i)) {
        (Some(p), Some(GeometryView::LineString(path))) => exists|l: Vec<Coord>| #[trigger]
            walk.ensures((&l, p), out) && l@ == path,
        _ => out is None,
    }
}

/// `ST_LineInterpolatePoint`. The point a given fraction along a line string.
///
/// A fraction outside `0..=1` gives null, as in PostGIS.
pub fn st_line_interpolate_point<W: Fn(&Vec<Coord>, u64) -> Option<Coord>>(
    line: &Column,
    fraction: &Vec<Option<u64>>,
    output: &DataType,
    walk: &W,
) -> (r: Result<Column, Error>)
    requires
        line.wf(),
        forall|l: &Vec<Coord>, p: u64| #[trigger] walk.requires((l, p)),
        output@ == DataTypeView::separated(Kind::Point, Dimension::XY, output@.metadata),
    ensures
        match r {
            Ok(out) => {
                &&& fraction@.len() == line.rows()
                &&& out@.data_type() == output@
                &&& forall|i: int|
                    0 <= i < line.rows() ==> !#[trigger] is_walk_broken(line@, fraction@, i)
                &&& exists|found: Seq<Option<Coord>>|
                    {
                        &&& #[trigger] are_points(out@, Dimension::XY, flat_rows(found))
                        &&& found.len() == line.rows()
                        &&& forall|i: int|
                            0 <= i < found.len() ==> is_walked(
                                *walk,
                                line@,
                                fraction@,
                                i,
                                #[trigger] found[i],
                            )
                    }
            },
            Err(Error::UnequalLengths { function, left, right }) => {
                &&& fraction@.len() != line.rows()
                &&& function@ == "ST_LineInterpolatePoint"@
                &&& left == line.rows()
                &&& right == fraction@.len()
            },
            Err(Error::Undecodable) => fraction@.len() == line.rows() && exists|i: int|
                0 <= i < line.rows() && #[trigger] is_walk_broken(line@, fraction@, i),
            Err(_) => false,
        },
{
    let len: usize = line.len();
    if fraction.len() != len {
        return Err(
            Error::UnequalLengths {
                function: "ST_LineInterpolatePoint",
                left: len,
                right: fraction.len(),
            },
        );
    }
    let mut reader = GeometryReader::new(line);
    let mut found: Vec<Option<Coord>> = Vec::new();
    let mut i: usize = 0;
    while i < len
        invariant
            i <= len,
            line.wf(),
            len == line.rows(),
            len == fraction@.len(),
            forall|l: &Vec<Coord>, p: u64| #[trigger] walk.requires((l, p)),
            reader.source() == *line,
            forall|j: int| 0 <= j < i ==> !#[trigger] is_walk_broken(line@, fraction@, j),
            found@.len() == i,
            forall|j: int|
                0 <= j < i ==> is_walked(*walk, line@, fraction@, j, #[trigger] found@[j]),
        decreases len - i,
    {
        let position: Option<u64> = match fraction[i] {
            Some(p) => if number::le(number::ZERO, p) && number::le(p, number::ONE) {
                Some(p)
            } else {
                None
            },
            None => None,
        };
        assert(position == fraction_at(fraction@, i as int));
        let mut point: Option<Coord> = None;
        if let Some(p) = position {
            match reader.read(i) {
                Ok(Some(Geometry::LineString(path))) => {
                    point = walk(path, p);
                    assert(walk.ensures((path, p), point));
                },
                Ok(_) => {},
                Err(error) => {
                    assert(is_walk_broken(line@, fraction@, i as int));
                    return Err(error);
                },
            }
        }
        found.push(point);
        i = i + 1;
    }
    let out = point_column(&found, output.metadata.copy());
    assert(are_points(out@, Dimension::XY, flat_rows(found@)));
    Ok(out)
}

// --------------------------------------------------------------------- project
/// The value of a row. One value stands for every row.
pub open spec fn value_at(values: Seq<Option<u64>>, i: int) -> Option<u64> {
    if values.len() == 1 {
        values[0]
    } else {
        values[i]
    }
}

/// True when `out` is the point of a row, moved. PostGIS restricts this one to points.
pub open spec fn is_projected<P: Fn(Coord, u64, u64) -> Coord>(
    project: P,
    array: ColumnView,
    distance: Seq<Option<u64>>,
    azimuth: Seq<Option<u64>>,
    i: int,
    out: Option<Coord>,
) -> bool {
    match (array.geometry(i), value_at(distance, i), value_at(azimuth, i)) {
        (Some(GeometryView::Point(start)), Some(d), Some(a)) => out is Some && project.ensures(
            (start, d, a),
            out->0,
        ),
        _ => out is None,
    }
}

/// `ST_Project`. The point a given distance and bearing away from a start point.
///
/// PostGIS takes the distance in metres and the azimuth in radians, and answers on the WGS 84
/// ellipsoid.
pub fn st_project<P: Fn(Coord, u64, u64) -> Coord>(
    array: &Column,
    distance: &Vec<Option<u64>>,
    azimuth: &Vec<Option<u64>>,
    output: &DataType,
    project: &P,
) -> (r: Result<Column, Error>)
    requires
        array.wf(),
        forall|c: Coord, d: u64, a: u64| #[trigger] project.requires((c, d, a)),
        output@ == DataTypeView::separated(Kind::Point, Dimension::XY, output@.metadata),
    ensures
        ({
            let first = distance@.len() == array.rows() || distance@.len() == 1;
            let second = azimuth@.len() == array.rows() || azimuth@.len() == 1;
            match r {
                Ok(out) => {
                    &&& first && second
                    &&& !array@.has_broken(array.rows())
                    &&& out@.data_type() == output@
                    &&& exists|found: Seq<Option<Coord>>|
                        {
                            &&& #[trigger] are_points(out@, Dimension::XY, flat_rows(found))
                            &&& found.len() == array.rows()
                            &&& forall|i: int|
                                0 <= i < found.len() ==> is_projected(
                                    *project,
                                    array@,
                                    distance@,
                                    azimuth@,
                                    i,
                                    #[trigger] found[i],
                                )
                        }
                },
                Err(Error::ProjectCount { name, given, rows }) => {
                    &&& rows == array.rows()
                    &&& if !first {
                        name@ == "distance"@ && given == distance@.len()
                    } else {
                        !second && name@ == "azimuth"@ && given == azimuth@.len()
                    }
                },
                Err(Error::Undecodable) => first && second && array@.has_broken(array.rows()),
                Err(_) => false,
            }
        }),
{
    let rows: usize = array.len();
    if distance.len() != rows && distance.len() != 1 {
        return Err(Error::ProjectCount { name: "distance", given: distance.len(), rows });
    }
    if azimuth.len() != rows && azimuth.len() != 1 {
        return Err(Error::ProjectCount { name: "azimuth", given: azimuth.len(), rows });
    }
    let mut reader = GeometryReader::new(array);
    let mut found: Vec<Option<Coord>> = Vec::new();
    let mut i: usize = 0;
    while i < rows
        invariant
            i <= rows,
            array.wf(),
            rows == array.rows(),
            distance@.len() == rows || distance@.len() == 1,
            azimuth@.len() == rows || azimuth@.len() == 1,
            forall|c: Coord, d: u64, a: u64| #[trigger] project.requires((c, d, a)),
            reader.source() == *array,
            !array@.has_broken(i as int),
            found@.len() == i,
            forall|j: int|
                0 <= j < i ==> is_projected(
                    *project,
                    array@,
                    distance@,
                    azimuth@,
                    j,
                    #[trigger] found@[j],
                ),
        decreases rows - i,
    {
        let far: Option<u64> = if distance.len() == 1 {
            distance[0]
        } else {
            distance[i]
        };
        let bearing: Option<u64> = if azimuth.len() == 1 {
            azimuth[0]
        } else {
            azimuth[i]
        };
        let point: Option<Coord> = match (reader.read(i), far, bearing) {
            (Ok(Some(Geometry::Point(start))), Some(d), Some(a)) => Some(project(*start, d, a)),
            (Ok(_), _, _) => None,
            (Err(error), _, _) => {
                return Err(error);
            },
        };
        found.push(point);
        i = i + 1;
    }
    let out = point_column(&found, output.metadata.copy());
    assert(are_points(out@, Dimension::XY, flat_rows(found@)));
    Ok(out)
}

// ------------------------------------------------------------------------ laws
/// No candidate is nearer than the best one, where every distance is a number.
pub proof fn law_no_candidate_is_nearer(
    candidates: Seq<Option<Coord>>,
    distances: Seq<u64>,
    end: int,
    i: int,
)
    requires
        0 <= i < end <= candidates.len(),
        distances.len() == candidates.len(),
        candidates[i] is Some,
        forall|j: int| 0 <= j < end ==> !number::is_nan(#[trigger] distances[j]),
    ensures
        best(candidates, distances, end) is Some,
        0 <= best(candidates, distances, end)->0 < end,
        candidates[best(candidates, distances, end)->0] is Some,
        number::is_le(distances[best(candidates, distances, end)->0], distances[i]),
    decreases end,
{
    lemma_best_prefix(candidates, distances, candidates, distances, end - 1);
    assert(!number::is_nan(distances[end - 1]));
    if i < end - 1 {
        law_no_candidate_is_nearer(candidates, distances, end - 1, i);
        assert(!number::is_nan(distances[i]));
    } else {
        let front = best(candidates, distances, end - 1);
        if front is Some {
            assert(!number::is_nan(distances[front->0]));
        }
    }
}

/// No vertex is nearer than the one that stands for the geometry, where every distance is a number.
pub proof fn law_no_vertex_is_nearer(distances: Seq<u64>, end: int, i: int)
    requires
        0 <= i < end <= distances.len(),
        forall|j: int| 0 <= j < end ==> !number::is_nan(#[trigger] distances[j]),
    ensures
        0 <= least(distances, end) < end,
        number::is_le(distances[least(distances, end)], distances[i]),
    decreases end,
{
    lemma_least_prefix(distances, distances, end);
    assert(!number::is_nan(distances[end - 1]));
    if end > 1 {
        lemma_least_prefix(distances, distances, end - 1);
        assert(!number::is_nan(distances[least(distances, end - 1)]));
        if i < end - 1 {
            law_no_vertex_is_nearer(distances, end - 1, i);
            assert(!number::is_nan(distances[i]));
        }
    }
}

/// A point stands for itself, so a nearest point to a point is exact.
pub proof fn law_a_point_stands_for_itself<D: Fn(Coord, &Geometry) -> u64>(
    distance: D,
    c: Coord,
    other: GeometryView,
    out: Option<Coord>,
)
    ensures
        is_representative(distance, GeometryView::Point(c), other, out) <==> out == Some(c),
{
}

/// The shortest line turned round is the shortest line of the geometries in the other order.
pub proof fn law_the_shortest_line_goes_both_ways<C, G, D>(
    tools: Nearest<C, G, D>,
    left: GeometryView,
    right: GeometryView,
    a: Coord,
    b: Coord,
) where
    C: Fn(&Geometry, Coord) -> Closest,
    G: Fn(Coord, Coord) -> u64,
    D: Fn(Coord, &Geometry) -> u64,

    ensures
        is_shortest(tools, left, right, Some((a, b))) <==> is_shortest(
            tools,
            right,
            left,
            Some((b, a)),
        ),
{
    if is_shortest(tools, left, right, Some((a, b))) {
        assert(is_nearest_point(tools, left, right, Some(a)));
        assert(is_nearest_point(tools, right, left, Some(b)));
        assert(is_shortest(tools, right, left, Some((b, a))));
    }
    if is_shortest(tools, right, left, Some((b, a))) {
        assert(is_nearest_point(tools, left, right, Some(a)));
        assert(is_nearest_point(tools, right, left, Some(b)));
        assert(is_shortest(tools, left, right, Some((a, b))));
    }
}

} // verus!
