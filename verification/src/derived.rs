//! What the derived geometries are.
//!
//! The algorithms of the transforms come from the caller. The laws below read each of them as a
//! function, and say which one a transform asks, of what, and what becomes of its answer.

use vstd::prelude::*;
use crate::accessor::topology;
use crate::aggregate::area_of;
use crate::column::ColumnView;
use crate::edit::exploded;
use crate::geometry::{
    coords_of, polygons_view, triangle_polygon, Coord, Geometry, GeometryView, Polygon, PolygonView,
};
use crate::linear::{
    are_closest, are_gaps, are_reaches, best, is_best, is_closest, is_line_position,
    is_nearest_point, is_projected, is_reach, is_representative, is_shortest, is_walked,
    law_no_vertex_is_nearer, least, Closest, Nearest,
};
use crate::number;
use crate::process::{
    boundary, is_reason, is_turned, is_validity, is_worked, is_worked_line, is_worked_polygon,
    turned, MOST_ITERATIONS, Shape, ShapeTools, Sized, SizedTools,
};
use crate::region::is_areal;
use crate::tessellate::{Tessellation, TessellationTools};

verus! {

// ---------------------------------------------------------------------- shapes
/// True when each algorithm answers by its arguments alone.
pub open spec fn are_shapes<H, P, V, D, O>(
    tools: ShapeTools<H, P, V, D, O>,
    hull: spec_fn(Shape, GeometryView) -> Option<PolygonView>,
    point: spec_fn(Shape, GeometryView) -> Option<Coord>,
    repair: spec_fn(GeometryView) -> Option<Seq<PolygonView>>,
    distinct: spec_fn(GeometryView) -> GeometryView,
) -> bool where
    H: Fn(Shape, &Geometry) -> Option<Polygon>,
    P: Fn(Shape, &Geometry) -> Option<Coord>,
    V: Fn(&Geometry) -> Option<Vec<Polygon>>,
    D: Fn(&Geometry) -> Geometry,
    O: Fn(&Polygon, bool) -> Polygon,
 {
    &&& forall|s: Shape, g: &Geometry, out: Option<Polygon>| #[trigger]
        tools.hull.ensures((s, g), out) ==> hull(s, g@) == match out {
            Some(polygon) => Some(polygon@),
            None => None,
        }
    &&& forall|s: Shape, g: &Geometry, out: Option<Coord>| #[trigger]
        tools.point.ensures((s, g), out) ==> out == point(s, g@)
    &&& forall|g: &Geometry, out: Option<Vec<Polygon>>| #[trigger]
        tools.repair.ensures((g,), out) ==> repair(g@) == match out {
            Some(polygons) => Some(polygons_view(polygons@)),
            None => None,
        }
    &&& forall|g: &Geometry, out: Geometry| #[trigger]
        tools.distinct.ensures((g,), out) ==> out@ == distinct(g@)
}

/// Each transform gives what its own algorithm gives for the geometry. A repair is asked of polygons
/// alone.
pub proof fn law_a_shape_is_what_its_algorithm_gives<H, P, V, D, O>(
    tools: ShapeTools<H, P, V, D, O>,
    hull: spec_fn(Shape, GeometryView) -> Option<PolygonView>,
    point: spec_fn(Shape, GeometryView) -> Option<Coord>,
    repair: spec_fn(GeometryView) -> Option<Seq<PolygonView>>,
    distinct: spec_fn(GeometryView) -> GeometryView,
    shape: Shape,
    geom: GeometryView,
    out: Option<GeometryView>,
) where
    H: Fn(Shape, &Geometry) -> Option<Polygon>,
    P: Fn(Shape, &Geometry) -> Option<Coord>,
    V: Fn(&Geometry) -> Option<Vec<Polygon>>,
    D: Fn(&Geometry) -> Geometry,
    O: Fn(&Polygon, bool) -> Polygon,

    requires
        are_shapes(tools, hull, point, repair, distinct),
        shape.is_applied(tools, geom, out),
    ensures
        shape == Shape::ConvexHull || shape == Shape::OrientedEnvelope ==> out == match hull(
            shape,
            geom,
        ) {
            Some(polygon) => Some(GeometryView::Polygon(polygon)),
            None => None,
        },
        shape == Shape::Centroid || shape == Shape::PointOnSurface ==> out == match point(
            shape,
            geom,
        ) {
            Some(c) => Some(GeometryView::Point(c)),
            None => None,
        },
        shape == Shape::MakeValid && (geom is Polygon || geom is MultiPolygon) ==> out
            == match repair(geom) {
            Some(polygons) => Some(GeometryView::MultiPolygon(polygons)),
            None => None,
        },
        shape == Shape::MakeValid && !(geom is Polygon || geom is MultiPolygon) ==> out == Some(geom),
        shape == Shape::RemoveRepeatedPoints ==> out == Some(distinct(geom)),
        shape == Shape::Boundary ==> out == Some(boundary(geom)),
        shape == Shape::Reverse ==> out == Some(turned(geom)),
{
}

/// Every polygon of a geometry that is turned counter clockwise runs counter clockwise, and none of
/// one that is turned clockwise does. The number of polygons stays, and a geometry without an area
/// stays as it is.
pub proof fn law_the_rings_run_the_way_they_are_turned<H, P, V, D, O>(
    tools: ShapeTools<H, P, V, D, O>,
    ccw: spec_fn(PolygonView) -> bool,
    geom: GeometryView,
    out: Option<GeometryView>,
    ccw_wanted: bool,
    k: int,
) where
    H: Fn(Shape, &Geometry) -> Option<Polygon>,
    P: Fn(Shape, &Geometry) -> Option<Coord>,
    V: Fn(&Geometry) -> Option<Vec<Polygon>>,
    D: Fn(&Geometry) -> Geometry,
    O: Fn(&Polygon, bool) -> Polygon,

    requires
        forall|a: &Polygon, outward: bool, b: Polygon| #[trigger]
            tools.orient.ensures((a, outward), b) ==> ccw(b@) == outward,
        ccw_wanted ==> Shape::ForceCcw.is_applied(tools, geom, out),
        !ccw_wanted ==> Shape::ForceCw.is_applied(tools, geom, out),
    ensures
        out is Some,
        !is_areal(geom) ==> out == Some(geom),
        is_areal(geom) ==> {
            &&& is_areal(out->0)
            &&& area_of(out->0)->0.len() == area_of(geom)->0.len()
            &&& 0 <= k < area_of(out->0)->0.len() ==> ccw(area_of(out->0)->0[k]) == ccw_wanted
        },
{
    if let (GeometryView::MultiPolygon(a), GeometryView::MultiPolygon(b)) = (geom, out->0) {
        if 0 <= k < b.len() {
            assert(is_turned(tools.orient, a[k], ccw_wanted, b[k]));
        }
    }
}

/// True when each algorithm answers by its arguments alone.
pub open spec fn are_sizes<B, L, P, H, R>(
    tools: SizedTools<B, L, P, H, R>,
    buffer: spec_fn(GeometryView, u64) -> Seq<PolygonView>,
    line: spec_fn(Sized, Seq<Coord>, u64) -> Seq<Coord>,
    polygon: spec_fn(Sized, PolygonView, u64) -> PolygonView,
    hull: spec_fn(GeometryView, u64) -> PolygonView,
    round: spec_fn(u64) -> u64,
) -> bool where
    B: Fn(&Geometry, u64) -> Vec<Polygon>,
    L: Fn(Sized, &Vec<Coord>, u64) -> Vec<Coord>,
    P: Fn(Sized, &Polygon, u64) -> Polygon,
    H: Fn(&Geometry, u64) -> Polygon,
    R: Fn(u64) -> u64,
 {
    &&& forall|g: &Geometry, p: u64, out: Vec<Polygon>| #[trigger]
        tools.buffer.ensures((g, p), out) ==> polygons_view(out@) == buffer(g@, p)
    &&& forall|s: Sized, l: &Vec<Coord>, p: u64, out: Vec<Coord>| #[trigger]
        tools.line.ensures((s, l, p), out) ==> out@ == line(s, l@, p)
    &&& forall|s: Sized, a: &Polygon, p: u64, out: Polygon| #[trigger]
        tools.polygon.ensures((s, a, p), out) ==> out@ == polygon(s, a@, p)
    &&& forall|g: &Geometry, p: u64, out: Polygon| #[trigger]
        tools.hull.ensures((g, p), out) ==> out@ == hull(g@, p)
    &&& forall|p: u64, out: u64| #[trigger] tools.round.ensures((p,), out) ==> out == round(p)
}

/// The number that a transform works with: a smoothing count is rounded.
pub open spec fn working_number(sized: Sized, round: spec_fn(u64) -> u64, parameter: u64) -> u64 {
    if sized == Sized::Chaikin {
        round(parameter)
    } else {
        parameter
    }
}

/// True when a number makes sense to a transform that works on lines and polygons.
pub open spec fn is_sensible(sized: Sized, n: u64) -> bool {
    match sized {
        Sized::Segmentize => !number::is_nan(n) && number::place(n) > 0,
        Sized::Chaikin => !number::is_nan(n) && 0 <= number::place(n) <= number::place(
            MOST_ITERATIONS,
        ),
        _ => true,
    }
}

/// A sized transform works on each part on its own: a line becomes what the algorithm makes of it,
/// and so does a polygon, while a point stays. Where the number makes no sense there is nothing.
pub proof fn law_a_sized_transform_works_on_each_part<B, L, P, H, R>(
    tools: SizedTools<B, L, P, H, R>,
    buffer: spec_fn(GeometryView, u64) -> Seq<PolygonView>,
    line: spec_fn(Sized, Seq<Coord>, u64) -> Seq<Coord>,
    polygon: spec_fn(Sized, PolygonView, u64) -> PolygonView,
    hull: spec_fn(GeometryView, u64) -> PolygonView,
    round: spec_fn(u64) -> u64,
    sized: Sized,
    geom: GeometryView,
    parameter: u64,
    out: Option<GeometryView>,
    k: int,
) where
    B: Fn(&Geometry, u64) -> Vec<Polygon>,
    L: Fn(Sized, &Vec<Coord>, u64) -> Vec<Coord>,
    P: Fn(Sized, &Polygon, u64) -> Polygon,
    H: Fn(&Geometry, u64) -> Polygon,
    R: Fn(u64) -> u64,

    requires
        are_sizes(tools, buffer, line, polygon, hull, round),
        sized.is_applied(tools, geom, parameter, out),
        sized != Sized::Buffer && sized != Sized::ConcaveHull,
        0 <= k < exploded(geom).len(),
    ensures
        out is Some == is_sensible(sized, working_number(sized, round, parameter)),
        out matches Some(worked) ==> {
            let n = working_number(sized, round, parameter);
            &&& topology(worked) == topology(geom)
            &&& exploded(worked).len() == exploded(geom).len()
            &&& !(geom is GeometryCollection) && exploded(geom)[k] is LineString ==> exploded(
                worked,
            )[k] == GeometryView::LineString(line(sized, exploded(geom)[k]->LineString_0, n))
            &&& !(geom is GeometryCollection) && exploded(geom)[k] is Polygon ==> exploded(
                worked,
            )[k] == GeometryView::Polygon(polygon(sized, exploded(geom)[k]->Polygon_0, n))
            &&& topology(geom) == 0 || geom is GeometryCollection ==> worked == geom
        },
        sized == Sized::Segmentize && out is Some ==> {
            &&& geom is Line ==> out == Some(
                GeometryView::LineString(line(sized, coords_of(geom), parameter)),
            )
            &&& geom is Rect || geom is Triangle ==> out == Some(
                GeometryView::Polygon(polygon(sized, area_of(geom)->0[0], parameter)),
            )
        },
        sized != Sized::Segmentize && out is Some && (geom is Line || geom is Rect
            || geom is Triangle) ==> out == Some(geom),
{
    if let Some(worked) = out {
        let n = working_number(sized, round, parameter);
        assert(is_worked(tools.line, tools.polygon, sized, n, geom, worked));
        match (geom, worked) {
            (GeometryView::MultiLineString(a), GeometryView::MultiLineString(b)) => {
                assert(is_worked_line(tools.line, sized, n, a[k], b[k]));
            },
            (GeometryView::MultiPolygon(a), GeometryView::MultiPolygon(b)) => {
                assert(is_worked_polygon(tools.polygon, sized, n, a[k], b[k]));
            },
            _ => {},
        }
    }
}

/// A buffer is a list of polygons and a concave hull one polygon, of the geometry and the number as
/// they are. A geometry of fewer than two vertices that is no list has no concave hull.
pub proof fn law_a_buffer_and_a_hull_are_asked_of_the_geometry<B, L, P, H, R>(
    tools: SizedTools<B, L, P, H, R>,
    buffer: spec_fn(GeometryView, u64) -> Seq<PolygonView>,
    line: spec_fn(Sized, Seq<Coord>, u64) -> Seq<Coord>,
    polygon: spec_fn(Sized, PolygonView, u64) -> PolygonView,
    hull: spec_fn(GeometryView, u64) -> PolygonView,
    round: spec_fn(u64) -> u64,
    geom: GeometryView,
    parameter: u64,
    buffered: Option<GeometryView>,
    hulled: Option<GeometryView>,
) where
    B: Fn(&Geometry, u64) -> Vec<Polygon>,
    L: Fn(Sized, &Vec<Coord>, u64) -> Vec<Coord>,
    P: Fn(Sized, &Polygon, u64) -> Polygon,
    H: Fn(&Geometry, u64) -> Polygon,
    R: Fn(u64) -> u64,

    requires
        are_sizes(tools, buffer, line, polygon, hull, round),
        Sized::Buffer.is_applied(tools, geom, parameter, buffered),
        Sized::ConcaveHull.is_applied(tools, geom, parameter, hulled),
    ensures
        buffered == Some(GeometryView::MultiPolygon(buffer(geom, parameter))),
        hulled is Some ==> hulled == Some(GeometryView::Polygon(hull(geom, parameter))),
        hulled is None == (geom is Point || geom is GeometryCollection || geom is Line
            || geom is Rect || geom is Triangle),
{
}

// -------------------------------------------------------------------- validity
/// A geometry is valid exactly when the check finds no problem, and then it is told so. Else it is
/// told the problem.
pub proof fn law_a_valid_geometry_is_told_so<C: Fn(&Geometry) -> Option<String>>(
    check: C,
    problem: spec_fn(GeometryView) -> Option<Seq<char>>,
    geom: GeometryView,
    valid: bool,
    text: Seq<char>,
)
    requires
        forall|g: &Geometry, found: Option<String>| #[trigger]
            check.ensures((g,), found) ==> problem(g@) == match found {
                Some(found) => Some(found@),
                None => None,
            },
        is_validity(check, geom, valid),
        is_reason(check, geom, text),
    ensures
        valid ==> problem(geom) is None && text == "Valid Geometry"@,
        !valid ==> problem(geom) == Some(text),
{
}

// ---------------------------------------------------------------- tessellation
/// A triangulation is a polygon for each triangle, the cells are a polygon each, and the edges a line
/// each, all of them built over the vertices of the geometry.
pub proof fn law_a_tessellation_is_what_its_algorithm_gives<T, C, E>(
    tools: TessellationTools<T, C, E>,
    triangles: spec_fn(Seq<Coord>) -> Option<Seq<(Coord, Coord, Coord)>>,
    cells: spec_fn(Seq<Coord>) -> Option<Seq<PolygonView>>,
    edges: spec_fn(Seq<Coord>) -> Option<Seq<(Coord, Coord)>>,
    which: Tessellation,
    geom: GeometryView,
    out: Option<GeometryView>,
    k: int,
) where
    T: Fn(&Vec<Coord>) -> Option<Vec<(Coord, Coord, Coord)>>,
    C: Fn(&Vec<Coord>) -> Option<Vec<Polygon>>,
    E: Fn(&Vec<Coord>) -> Option<Vec<(Coord, Coord)>>,

    requires
        forall|v: &Vec<Coord>, found: Option<Vec<(Coord, Coord, Coord)>>| #[trigger]
            tools.triangles.ensures((v,), found) ==> triangles(v@) == match found {
                Some(list) => Some(list@),
                None => None,
            },
        forall|v: &Vec<Coord>, found: Option<Vec<Polygon>>| #[trigger]
            tools.cells.ensures((v,), found) ==> cells(v@) == match found {
                Some(list) => Some(polygons_view(list@)),
                None => None,
            },
        forall|v: &Vec<Coord>, found: Option<Vec<(Coord, Coord)>>| #[trigger]
            tools.edges.ensures((v,), found) ==> edges(v@) == match found {
                Some(list) => Some(list@),
                None => None,
            },
        which.is_applied(tools, geom, out),
        exists|a: int, b: int, c: int|
            #[trigger] crate::tessellate::are_three(coords_of(geom), a, b, c),
    ensures
        which == Tessellation::Delaunay ==> {
            let found = triangles(coords_of(geom));
            &&& out is Some == found is Some
            &&& out is Some ==> exploded(out->0).len() == found->0.len()
            &&& out is Some && 0 <= k < found->0.len() ==> exploded(out->0)[k]
                == GeometryView::Polygon(
                triangle_polygon(found->0[k].0, found->0[k].1, found->0[k].2),
            )
        },
        which == Tessellation::VoronoiPolygons ==> {
            let found = cells(coords_of(geom));
            &&& out is Some == found is Some
            &&& out is Some ==> exploded(out->0).len() == found->0.len()
            &&& out is Some && 0 <= k < found->0.len() ==> exploded(out->0)[k]
                == GeometryView::Polygon(found->0[k])
        },
        which == Tessellation::VoronoiLines ==> {
            let found = edges(coords_of(geom));
            &&& out is Some == found is Some
            &&& out is Some ==> out->0 is MultiLineString && exploded(out->0).len()
                == found->0.len()
            &&& out is Some && 0 <= k < found->0.len() ==> exploded(out->0)[k]
                == GeometryView::LineString(seq![found->0[k].0, found->0[k].1])
        },
{
}

// --------------------------------------------------------------- nearest points
/// True when a position lies on a geometry: on one of its parts, for a collection.
pub open spec fn lies_on(
    on: spec_fn(GeometryView, Coord) -> bool,
    geom: GeometryView,
    c: Coord,
) -> bool
    decreases geom,
{
    match geom {
        GeometryView::GeometryCollection(parts) => lies_on_a_part(on, parts, c),
        _ => on(geom, c),
    }
}

/// True when a position lies on one of the parts.
pub open spec fn lies_on_a_part(
    on: spec_fn(GeometryView, Coord) -> bool,
    parts: Seq<GeometryView>,
    c: Coord,
) -> bool
    decreases parts,
{
    exists|k: int| 0 <= k < parts.len() && lies_on(on, #[trigger] parts[k], c)
}

proof fn lemma_best_is_a_candidate(candidates: Seq<Option<Coord>>, distances: Seq<u64>, end: int)
    requires
        end <= candidates.len(),
    ensures
        best(candidates, distances, end) matches Some(at) ==> 0 <= at < end
            && candidates[at] is Some,
    decreases end,
{
    if end > 0 {
        lemma_best_is_a_candidate(candidates, distances, end - 1);
    }
}

proof fn lemma_closest_lies_on<C, G, D>(
    tools: Nearest<C, G, D>,
    on: spec_fn(GeometryView, Coord) -> bool,
    geom: GeometryView,
    target: Coord,
    out: Option<Coord>,
) where
    C: Fn(&Geometry, Coord) -> Closest,
    G: Fn(Coord, Coord) -> u64,
    D: Fn(Coord, &Geometry) -> u64,

    requires
        finds_on(tools, on),
        is_closest(tools, geom, target, out),
    ensures
        out matches Some(c) ==> lies_on(on, geom, c),
    decreases geom,
{
    if let GeometryView::GeometryCollection(parts) = geom {
        let candidates = choose|candidates: Seq<Option<Coord>>|
            are_closest(tools, parts, target, candidates) && #[trigger] is_best(
                tools.gap,
                target,
                candidates,
                out,
            );
        let distances = choose|distances: Seq<u64>| #[trigger]
            are_gaps(tools.gap, target, candidates, distances) && out == match best(
                candidates,
                distances,
                candidates.len() as int,
            ) {
                Some(at) => candidates[at],
                None => None,
            };
        lemma_best_is_a_candidate(candidates, distances, candidates.len() as int);
        if out is Some {
            let at = best(candidates, distances, candidates.len() as int)->0;
            assert(is_closest(tools, parts[at], target, candidates[at]));
            assert(decreases_to!(geom => parts[at]));
            lemma_closest_lies_on(tools, on, parts[at], target, candidates[at]);
            assert(lies_on(on, parts[at], out->0));
            assert(lies_on_a_part(on, parts, out->0));
        }
    }
}

/// True when the search finds positions on the geometry that it is given.
pub open spec fn finds_on<C, G, D>(
    tools: Nearest<C, G, D>,
    on: spec_fn(GeometryView, Coord) -> bool,
) -> bool where
    C: Fn(&Geometry, Coord) -> Closest,
    G: Fn(Coord, Coord) -> u64,
    D: Fn(Coord, &Geometry) -> u64,
 {
    forall|g: &Geometry, c: Coord, found: Closest| #[trigger]
        tools.closest.ensures((g, c), found) ==> match found {
            Closest::Intersection(p) => on(g@, p),
            Closest::SinglePoint(p) => on(g@, p),
            Closest::Indeterminate => true,
        }
}

/// The nearest point lies on the first geometry. The shortest line starts on the first and ends on
/// the second.
pub proof fn law_nearest_points_lie_on_their_geometries<C, G, D>(
    tools: Nearest<C, G, D>,
    on: spec_fn(GeometryView, Coord) -> bool,
    left: GeometryView,
    right: GeometryView,
    nearest: Option<Coord>,
    shortest: Option<(Coord, Coord)>,
) where
    C: Fn(&Geometry, Coord) -> Closest,
    G: Fn(Coord, Coord) -> u64,
    D: Fn(Coord, &Geometry) -> u64,

    requires
        finds_on(tools, on),
        is_nearest_point(tools, left, right, nearest),
        is_shortest(tools, left, right, shortest),
    ensures
        nearest matches Some(c) ==> lies_on(on, left, c),
        shortest matches Some((a, b)) ==> lies_on(on, left, a) && lies_on(on, right, b),
{
    lemma_nearest_lies_on(tools, on, left, right, nearest);
    let (a, b) = choose|a: Option<Coord>, b: Option<Coord>|
        {
            &&& #[trigger] is_nearest_point(tools, left, right, a)
            &&& #[trigger] is_nearest_point(tools, right, left, b)
            &&& shortest == match (a, b) {
                (Some(start), Some(end)) => Some((start, end)),
                _ => None,
            }
        };
    lemma_nearest_lies_on(tools, on, left, right, a);
    lemma_nearest_lies_on(tools, on, right, left, b);
}

proof fn lemma_nearest_lies_on<C, G, D>(
    tools: Nearest<C, G, D>,
    on: spec_fn(GeometryView, Coord) -> bool,
    left: GeometryView,
    right: GeometryView,
    out: Option<Coord>,
) where
    C: Fn(&Geometry, Coord) -> Closest,
    G: Fn(Coord, Coord) -> u64,
    D: Fn(Coord, &Geometry) -> u64,

    requires
        finds_on(tools, on),
        is_nearest_point(tools, left, right, out),
    ensures
        out matches Some(c) ==> lies_on(on, left, c),
{
    let target = choose|target: Option<Coord>| #[trigger]
        is_representative(tools.distance, right, left, target) && match target {
            Some(c) => is_closest(tools, left, c, out),
            None => out is None,
        };
    if let Some(c) = target {
        lemma_closest_lies_on(tools, on, left, c, out);
    }
}

proof fn lemma_least(distances: Seq<u64>, end: int)
    requires
        0 < end <= distances.len(),
    ensures
        0 <= least(distances, end) < end,
    decreases end,
{
    if end > 1 {
        lemma_least(distances, end - 1);
    }
}

/// A geometry is represented by one of its own positions, and a geometry with a position always is.
pub proof fn law_a_representative_is_a_vertex<D: Fn(Coord, &Geometry) -> u64>(
    distance: D,
    geom: GeometryView,
    other: GeometryView,
    out: Option<Coord>,
)
    requires
        is_representative(distance, geom, other, out),
    ensures
        out is Some == (coords_of(geom).len() > 0),
        out matches Some(c) ==> coords_of(geom).contains(c),
{
    let vertices = coords_of(geom);
    match geom {
        GeometryView::Point(c) => {
            assert(vertices[0] == c);
        },
        _ => {
            if vertices.len() > 0 {
                let distances = choose|distances: Seq<u64>| #[trigger]
                    are_reaches(distance, vertices, other, distances) && out == Some(
                        vertices[least(distances, distances.len() as int)],
                    );
                lemma_least(distances, distances.len() as int);
            }
        },
    }
}

/// No vertex of a geometry is nearer to the other geometry than the one that represents it.
pub proof fn law_a_representative_is_the_nearest_vertex<D: Fn(Coord, &Geometry) -> u64>(
    distance: D,
    reach: spec_fn(Coord, GeometryView) -> u64,
    geom: GeometryView,
    other: GeometryView,
    out: Option<Coord>,
    k: int,
)
    requires
        forall|c: Coord, g: &Geometry, d: u64| #[trigger]
            distance.ensures((c, g), d) ==> d == reach(c, g@),
        forall|c: Coord| !number::is_nan(#[trigger] reach(c, other)),
        is_representative(distance, geom, other, out),
        0 <= k < coords_of(geom).len(),
    ensures
        out matches Some(c) && number::is_le(reach(c, other), reach(coords_of(geom)[k], other)),
{
    let vertices = coords_of(geom);
    if !(geom is Point) {
        let distances = choose|distances: Seq<u64>| #[trigger]
            are_reaches(distance, vertices, other, distances) && out == Some(
                vertices[least(distances, distances.len() as int)],
            );
        assert forall|j: int| 0 <= j < distances.len() implies #[trigger] distances[j] == reach(
            vertices[j],
            other,
        ) by {
            assert(is_reach(distance, vertices[j], other, distances[j]));
        }
        law_no_vertex_is_nearer(distances, distances.len() as int, k);
        let at = least(distances, distances.len() as int);
        assert(distances[at] == reach(vertices[at], other));
        assert(distances[k] == reach(vertices[k], other));
    } else {
        assert(!number::is_nan(reach(geom->Point_0, other)));
    }
}

/// The nearest point of a collection is that of one of its parts, and no part has a nearer one.
pub proof fn law_no_part_is_nearer<C, G, D>(
    tools: Nearest<C, G, D>,
    near: spec_fn(GeometryView, Coord) -> Option<Coord>,
    gap: spec_fn(Coord, Coord) -> u64,
    parts: Seq<GeometryView>,
    target: Coord,
    out: Option<Coord>,
    k: int,
) where
    C: Fn(&Geometry, Coord) -> Closest,
    G: Fn(Coord, Coord) -> u64,
    D: Fn(Coord, &Geometry) -> u64,

    requires
        forall|g: GeometryView, c: Coord, found: Option<Coord>| #[trigger]
            is_closest(tools, g, c, found) ==> found == near(g, c),
        forall|a: Coord, b: Coord, d: u64| #[trigger]
            tools.gap.ensures((a, b), d) ==> d == gap(a, b),
        forall|a: Coord, b: Coord| !number::is_nan(#[trigger] gap(a, b)),
        is_closest(tools, GeometryView::GeometryCollection(parts), target, out),
        0 <= k < parts.len(),
        near(parts[k], target) is Some,
    ensures
        out is Some,
        number::is_le(gap(out->0, target), gap(near(parts[k], target)->0, target)),
        exists|j: int| 0 <= j < parts.len() && out == near(#[trigger] parts[j], target),
{
    let candidates = choose|candidates: Seq<Option<Coord>>|
        are_closest(tools, parts, target, candidates) && #[trigger] is_best(
            tools.gap,
            target,
            candidates,
            out,
        );
    let distances = choose|distances: Seq<u64>| #[trigger]
        are_gaps(tools.gap, target, candidates, distances) && out == match best(
            candidates,
            distances,
            candidates.len() as int,
        ) {
            Some(at) => candidates[at],
            None => None,
        };
    assert forall|j: int| 0 <= j < candidates.len() implies #[trigger] candidates[j] == near(
        parts[j],
        target,
    ) by {
        assert(is_closest(tools, parts[j], target, candidates[j]));
    }
    lemma_nearest_candidate(tools.gap, gap, target, candidates, distances, k);
    lemma_best_is_a_candidate(candidates, distances, candidates.len() as int);
    let at = best(candidates, distances, candidates.len() as int)->0;
    assert(out == near(parts[at], target));
}

proof fn lemma_nearest_candidate<G: Fn(Coord, Coord) -> u64>(
    measure: G,
    gap: spec_fn(Coord, Coord) -> u64,
    target: Coord,
    candidates: Seq<Option<Coord>>,
    distances: Seq<u64>,
    k: int,
)
    requires
        forall|a: Coord, b: Coord, d: u64| #[trigger]
            measure.ensures((a, b), d) ==> d == gap(a, b),
        forall|a: Coord, b: Coord| !number::is_nan(#[trigger] gap(a, b)),
        are_gaps(measure, target, candidates, distances),
        0 <= k < candidates.len(),
        candidates[k] is Some,
    ensures
        best(candidates, distances, candidates.len() as int) matches Some(at) && candidates[at]
            is Some && number::is_le(gap(candidates[at]->0, target), gap(candidates[k]->0, target)),
{
    lemma_nearest_before(measure, gap, target, candidates, distances, k, candidates.len() as int);
}

proof fn lemma_nearest_before<G: Fn(Coord, Coord) -> u64>(
    measure: G,
    gap: spec_fn(Coord, Coord) -> u64,
    target: Coord,
    candidates: Seq<Option<Coord>>,
    distances: Seq<u64>,
    k: int,
    end: int,
)
    requires
        forall|a: Coord, b: Coord, d: u64| #[trigger]
            measure.ensures((a, b), d) ==> d == gap(a, b),
        forall|a: Coord, b: Coord| !number::is_nan(#[trigger] gap(a, b)),
        are_gaps(measure, target, candidates, distances),
        0 <= k < end <= candidates.len(),
        candidates[k] is Some,
    ensures
        best(candidates, distances, end) matches Some(at) && 0 <= at < end && candidates[at]
            is Some && number::is_le(gap(candidates[at]->0, target), gap(candidates[k]->0, target)),
    decreases end,
{
    let last = end - 1;
    if candidates[last] is Some {
        assert(measure.ensures((candidates[last]->0, target), distances[last]));
        assert(!number::is_nan(gap(candidates[last]->0, target)));
    }
    lemma_best_is_a_candidate(candidates, distances, last);
    let front = best(candidates, distances, last);
    if front is Some {
        assert(candidates[front->0] is Some);
        assert(measure.ensures((candidates[front->0]->0, target), distances[front->0]));
        assert(!number::is_nan(gap(candidates[front->0]->0, target)));
    }
    if k < last {
        lemma_nearest_before(measure, gap, target, candidates, distances, k, last);
    }
}

/// The place along a line is asked of the line with a vertex of the other geometry. What is no line
/// string has no such place.
pub proof fn law_a_place_is_that_of_a_vertex<L, D>(
    locate: L,
    distance: D,
    place: spec_fn(Seq<Coord>, Coord) -> Option<u64>,
    line: GeometryView,
    other: GeometryView,
    out: Option<u64>,
) where L: Fn(&Vec<Coord>, Coord) -> Option<u64>, D: Fn(Coord, &Geometry) -> u64
    requires
        forall|l: &Vec<Coord>, c: Coord, found: Option<u64>| #[trigger]
            locate.ensures((l, c), found) ==> found == place(l@, c),
        is_line_position(locate, distance, line, other, out),
    ensures
        !(line is LineString) || coords_of(other).len() == 0 ==> out is None,
        line is LineString && coords_of(other).len() > 0 ==> exists|k: int|
            0 <= k < coords_of(other).len() && out == place(
                coords_of(line),
                #[trigger] coords_of(other)[k],
            ),
        line is LineString && other is Point ==> out == place(coords_of(line), other->Point_0),
{
    if line is LineString {
        let target = choose|target: Option<Coord>| #[trigger]
            is_representative(distance, other, line, target) && match target {
                Some(c) => exists|l: Vec<Coord>| #[trigger]
                    locate.ensures((&l, c), out) && l@ == line->LineString_0,
                None => out is None,
            };
        law_a_representative_is_a_vertex(distance, other, line, target);
        if let Some(c) = target {
            let k = choose|k: int| 0 <= k < coords_of(other).len() && coords_of(other)[k] == c;
            assert(out == place(coords_of(line), coords_of(other)[k]));
        }
    }
}

/// A point along a line is asked of the line with the fraction, where it lies from 0 to 1.
pub proof fn law_a_walk_takes_a_fraction<W: Fn(&Vec<Coord>, u64) -> Option<Coord>>(
    walk: W,
    along: spec_fn(Seq<Coord>, u64) -> Option<Coord>,
    line: ColumnView,
    fraction: Seq<Option<u64>>,
    i: int,
    out: Option<Coord>,
)
    requires
        forall|l: &Vec<Coord>, p: u64, found: Option<Coord>| #[trigger]
            walk.ensures((l, p), found) ==> found == along(l@, p),
        is_walked(walk, line, fraction, i, out),
    ensures
        match (line.geometry(i), fraction[i]) {
            (Some(GeometryView::LineString(path)), Some(p)) => {
                let inside = !number::is_nan(p) && number::place(number::ZERO) <= number::place(p)
                    <= number::place(number::ONE);
                out == if inside {
                    along(path, p)
                } else {
                    None
                }
            },
            _ => out is None,
        },
{
}

/// A projected point is asked of the point, the distance and the direction, in this order.
pub proof fn law_a_projection_keeps_its_arguments<P: Fn(Coord, u64, u64) -> Coord>(
    project: P,
    moved: spec_fn(Coord, u64, u64) -> Coord,
    array: ColumnView,
    distance: Seq<Option<u64>>,
    azimuth: Seq<Option<u64>>,
    i: int,
    out: Option<Coord>,
)
    requires
        forall|c: Coord, d: u64, a: u64, found: Coord| #[trigger]
            project.ensures((c, d, a), found) ==> found == moved(c, d, a),
        is_projected(project, array, distance, azimuth, i, out),
        distance.len() > 1,
        azimuth.len() > 1,
    ensures
        match (array.geometry(i), distance[i], azimuth[i]) {
            (Some(GeometryView::Point(c)), Some(d), Some(a)) => out == Some(moved(c, d, a)),
            _ => out is None,
        },
{
}

} // verus!
