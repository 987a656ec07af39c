//! Process and overlay functions.
//!
//! These build new geometries. They do not read a property of an existing one.
//!
//! # Output types
//!
//! Every function in this module returns a mixed geometry column. The output type of an overlay is
//! not knowable from the input types. Two polygons can intersect in a polygon, a line, a point
//! or nothing. A mixed column is the only honest answer at plan time.
//!
//! # Where the numbers come from
//!
//! The caller supplies the algorithms that compute positions: hulls, buffers, overlays. What is
//! done with them, and everything that only rearranges positions, is decided here.

use vstd::prelude::*;
use crate::aggregate::{area_of, areal_of};
use crate::column::{Column, ColumnView, DataType, DataTypeView};
use crate::component::geometry_view;
use crate::crs::Metadata;
use crate::error::Error;
use crate::geometry::{
    closing, copy_line, is_closed_path, lines_view, path_is_closed, polygon_over, polygons_view,
    rect_polygon, rect_to_polygon, triangle_polygon, triangle_to_polygon, Coord, Geometry,
    GeometryView, Polygon, PolygonView,
};
use crate::lists::lemma_flatten_step;
use crate::materialize::GeometryReader;
use crate::number;
use crate::operand::{broadcast_nulls, is_pair_read, is_side_null, map_pairs, slot};
use crate::rows::map_geometries;

verus! {

/// The output type of every function in this module.
///
/// See the module documentation for why this is always a mixed geometry column.
pub fn output_type(input: &DataType) -> (r: DataType)
    ensures
        r@ == DataTypeView::mixed(input@.metadata),
{
    DataType::mixed(input.metadata.copy())
}

/// The output type when the metadata comes from somewhere else.
pub fn output_type_from(metadata: Metadata) -> (r: DataType)
    ensures
        r@ == DataTypeView::mixed(metadata@),
{
    DataType::mixed(metadata)
}

// --------------------------------------------------------------------- overlay
/// A two-argument overlay operation.
#[derive(Debug, Clone, Copy, PartialEq, Eq, Structural, Hash)]
pub enum Overlay {
    /// `ST_Union`.
    Union,
    /// `ST_Intersection`.
    Intersection,
    /// `ST_Difference`.
    Difference,
    /// `ST_SymDifference`.
    SymDifference,
}

/// True when `out` is the overlay of two areas.
pub open spec fn is_overlaid<F: Fn(Overlay, &Vec<Polygon>, &Vec<Polygon>) -> Vec<Polygon>>(
    overlay: F,
    operation: Overlay,
    left: Seq<PolygonView>,
    right: Seq<PolygonView>,
    out: Seq<PolygonView>,
) -> bool {
    exists|a: Vec<Polygon>, b: Vec<Polygon>, c: Vec<Polygon>|
        {
            &&& #[trigger] overlay.ensures((operation, &a, &b), c)
            &&& polygons_view(a@) == left
            &&& polygons_view(b@) == right
            &&& polygons_view(c@) == out
        }
}

/// True when `out` is the overlay of two geometries: one list of polygons, or nothing where one of
/// them has no area.
pub open spec fn is_overlay<F: Fn(Overlay, &Vec<Polygon>, &Vec<Polygon>) -> Vec<Polygon>>(
    overlay: F,
    operation: Overlay,
    left: GeometryView,
    right: GeometryView,
    out: Option<GeometryView>,
) -> bool {
    match (area_of(left), area_of(right)) {
        (Some(a), Some(b)) => out matches Some(GeometryView::MultiPolygon(polygons))
            && is_overlaid(overlay, operation, a, b, polygons),
        _ => out is None,
    }
}

impl Overlay {
    /// The PostGIS function name.
    pub open spec fn name_text(self) -> Seq<char> {
        match self {
            Overlay::Union => "ST_Union"@,
            Overlay::Intersection => "ST_Intersection"@,
            Overlay::Difference => "ST_Difference"@,
            Overlay::SymDifference => "ST_SymDifference"@,
        }
    }

    /// The lowercase SQL name.
    pub open spec fn sql_text(self) -> Seq<char> {
        match self {
            Overlay::Union => "st_union"@,
            Overlay::Intersection => "st_intersection"@,
            Overlay::Difference => "st_difference"@,
            Overlay::SymDifference => "st_symdifference"@,
        }
    }

    /// The PostGIS function name.
    pub fn function_name(self) -> (r: &'static str)
        ensures
            r@ == self.name_text(),
    {
        match self {
            Overlay::Union => "ST_Union",
            Overlay::Intersection => "ST_Intersection",
            Overlay::Difference => "ST_Difference",
            Overlay::SymDifference => "ST_SymDifference",
        }
    }

    /// The lowercase SQL name.
    pub fn sql_name(self) -> (r: &'static str)
        ensures
            r@ == self.sql_text(),
    {
        match self {
            Overlay::Union => "st_union",
            Overlay::Intersection => "st_intersection",
            Overlay::Difference => "st_difference",
            Overlay::SymDifference => "st_symdifference",
        }
    }

    /// Every overlay operation, for registration.
    pub fn all() -> (r: [Overlay; 4])
        ensures
            r@ == seq![
                Overlay::Union,
                Overlay::Intersection,
                Overlay::Difference,
                Overlay::SymDifference,
            ],
    {
        let r = [
            Overlay::Union,
            Overlay::Intersection,
            Overlay::Difference,
            Overlay::SymDifference,
        ];
        assert(r@ =~= seq![
            Overlay::Union,
            Overlay::Intersection,
            Overlay::Difference,
            Overlay::SymDifference,
        ]);
        r
    }
}

impl Overlay {
    /// Overlay two geometries.
    pub fn apply<F: Fn(Overlay, &Vec<Polygon>, &Vec<Polygon>) -> Vec<Polygon>>(
        self,
        left: &Geometry,
        right: &Geometry,
        overlay: &F,
    ) -> (r: Option<Geometry>)
        requires
            forall|o: Overlay, a: &Vec<Polygon>, b: &Vec<Polygon>| #[trigger]
                overlay.requires((o, a, b)),
        ensures
            is_overlay(*overlay, self, left@, right@, geometry_view(r)),
    {
        match (areal_of(left), areal_of(right)) {
            (Some(a), Some(b)) => {
                let result = overlay(self, &a, &b);
                assert(overlay.ensures((self, &a, &b), result));
                assert(is_overlaid(
                    *overlay,
                    self,
                    polygons_view(a@),
                    polygons_view(b@),
                    polygons_view(result@),
                ));
                Some(Geometry::MultiPolygon(result))
            },
            _ => None,
        }
    }
}

/// Any overlay operation over two columns.
///
/// The operations are defined on areal geometries only, where there is no ambiguity. A non-areal
/// row yields null rather than a silently wrong answer.
pub fn overlay<F: Fn(Overlay, &Vec<Polygon>, &Vec<Polygon>) -> Vec<Polygon>>(
    left: &Column,
    right: &Column,
    operation: Overlay,
    apply: &F,
) -> (r: Result<Vec<Option<Geometry>>, Error>)
    requires
        left.wf(),
        right.wf(),
        forall|o: Overlay, a: &Vec<Polygon>, b: &Vec<Polygon>| #[trigger] apply.requires((o, a, b)),
    ensures
        is_pair_read(left@, right@, operation.name_text(), r),
        r matches Ok(out) ==> forall|i: int|
            0 <= i < out@.len() ==> match (
                left@.geometry(slot(left.rows(), out@.len() as int, i)),
                right@.geometry(slot(right.rows(), out@.len() as int, i)),
            ) {
                (Some(a), Some(b)) => is_overlay(
                    *apply,
                    operation,
                    a,
                    b,
                    geometry_view(#[trigger] out@[i]),
                ),
                _ => out@[i] is None,
            },
{
    let f = |a: &Geometry, b: &Geometry| -> (out: Option<Geometry>)
        ensures
            is_overlay(*apply, operation, a@, b@, geometry_view(out)),
        { operation.apply(a, b, apply) };
    map_pairs(operation.function_name(), left, right, &f)
}

/// The combined validity of a binary overlay: which rows have a value on both sides.
pub fn overlay_nulls(left: &Column, right: &Column, rows: usize) -> (r: Vec<bool>)
    requires
        left.wf(),
        right.wf(),
    ensures
        r@ == Seq::new(
            rows as nat,
            |i: int|
                !is_side_null(left@, rows as int, i) && !is_side_null(right@, rows as int, i),
        ),
{
    broadcast_nulls(left, right, rows)
}

// -------------------------------------------------------------------- boundary
/// The boundary of a line: its two ends, or nothing when it is closed.
pub open spec fn line_ends(line: Seq<Coord>) -> Seq<Coord> {
    if line.len() < 2 || is_closed_path(line) {
        Seq::empty()
    } else {
        seq![line[0], line.last()]
    }
}

/// The first position from `k` on that is the same as `c`, or the length.
pub open spec fn same_from(ends: Seq<Coord>, c: Coord, k: int) -> int
    decreases ends.len() - k,
{
    if k >= ends.len() {
        ends.len() as int
    } else if ends[k].is_same(c) {
        k
    } else {
        same_from(ends, c, k + 1)
    }
}

/// The list without the first position that is the same as `c`, or with `c` where there is none.
pub open spec fn toggled(ends: Seq<Coord>, c: Coord) -> Seq<Coord> {
    let at = same_from(ends, c, 0);
    if at < ends.len() {
        ends.remove(at)
    } else {
        ends.push(c)
    }
}

/// What is left of a list when every second occurrence of a position cancels the one before it.
pub open spec fn cancelled(points: Seq<Coord>) -> Seq<Coord>
    decreases points.len(),
{
    if points.len() == 0 {
        Seq::empty()
    } else {
        toggled(cancelled(points.drop_last()), points.last())
    }
}

/// The boundary of each line.
pub open spec fn all_ends(lines: Seq<Seq<Coord>>) -> Seq<Seq<Coord>> {
    Seq::new(lines.len(), |i: int| line_ends(lines[i]))
}

/// The rings of a polygon, the outer one first.
pub open spec fn rings_of(polygon: PolygonView) -> Seq<Seq<Coord>> {
    seq![polygon.exterior] + polygon.interiors
}

/// The rings of each polygon.
pub open spec fn all_rings(polygons: Seq<PolygonView>) -> Seq<Seq<Seq<Coord>>> {
    Seq::new(polygons.len(), |i: int| rings_of(polygons[i]))
}

/// The topological boundary of a geometry, by the OGC rule.
///
/// The boundary of a polygon is its rings. The boundary of an open line is its two end points. A
/// closed line and a point both have an empty boundary. A position shared by an even number of
/// line ends cancels out. A collection is given an empty boundary.
pub open spec fn boundary(geom: GeometryView) -> GeometryView {
    match geom {
        GeometryView::LineString(line) => GeometryView::MultiPoint(line_ends(line)),
        GeometryView::MultiLineString(lines) => GeometryView::MultiPoint(
            cancelled(all_ends(lines).flatten()),
        ),
        GeometryView::Polygon(polygon) => GeometryView::MultiLineString(rings_of(polygon)),
        GeometryView::MultiPolygon(polygons) => GeometryView::MultiLineString(
            all_rings(polygons).flatten(),
        ),
        GeometryView::Rect(a, b) => GeometryView::MultiLineString(rings_of(rect_polygon(a, b))),
        GeometryView::Triangle(a, b, c) => GeometryView::MultiLineString(
            rings_of(triangle_polygon(a, b, c)),
        ),
        GeometryView::Line(a, b) => GeometryView::MultiPoint(seq![a, b]),
        _ => GeometryView::MultiPoint(Seq::empty()),
    }
}

/// The boundary of a line.
pub fn line_boundary(line: &Vec<Coord>) -> (r: Vec<Coord>)
    ensures
        r@ == line_ends(line@),
{
    let mut out: Vec<Coord> = Vec::new();
    if line.len() >= 2 && !path_is_closed(line) {
        out.push(line[0]);
        out.push(line[line.len() - 1]);
    }
    assert(out@ =~= line_ends(line@));
    out
}

/// Cancel a position against the list, or add it.
fn toggle(ends: &mut Vec<Coord>, c: Coord)
    ensures
        final(ends)@ == toggled(old(ends)@, c),
{
    let mut k: usize = 0;
    while k < ends.len()
        invariant
            k <= ends@.len(),
            *ends == *old(ends),
            same_from(ends@, c, 0) == same_from(ends@, c, k as int),
        decreases ends@.len() - k,
    {
        if ends[k].same(&c) {
            let _dropped = ends.remove(k);
            return;
        }
        k = k + 1;
    }
    ends.push(c);
}

proof fn lemma_cancelled_push(points: Seq<Coord>, c: Coord)
    ensures
        cancelled(points.push(c)) == toggled(cancelled(points), c),
{
    assert(points.push(c).drop_last() =~= points);
}

/// Append the rings of a polygon.
fn push_rings(out: &mut Vec<Vec<Coord>>, polygon: &Polygon)
    ensures
        lines_view(final(out)@) == lines_view(old(out)@) + rings_of(polygon@),
{
    out.push(copy_line(&polygon.exterior));
    let mut k: usize = 0;
    while k < polygon.interiors.len()
        invariant
            k <= polygon.interiors@.len(),
            lines_view(out@) =~= lines_view(old(out)@) + seq![polygon@.exterior]
                + polygon@.interiors.take(k as int),
        decreases polygon.interiors@.len() - k,
    {
        let ghost before = out@;
        out.push(copy_line(&polygon.interiors[k]));
        assert(lines_view(out@) =~= lines_view(before).push(polygon@.interiors[k as int]));
        k = k + 1;
    }
    assert(lines_view(out@) =~= lines_view(old(out)@) + rings_of(polygon@));
}

/// The rings of one polygon as a boundary.
fn ring_boundary(polygon: &Polygon) -> (r: Geometry)
    ensures
        r@ == GeometryView::MultiLineString(rings_of(polygon@)),
{
    let mut rings: Vec<Vec<Coord>> = Vec::new();
    push_rings(&mut rings, polygon);
    assert(lines_view(rings@) =~= rings_of(polygon@));
    Geometry::MultiLineString(rings)
}

/// `ST_Boundary`. The topological boundary of a geometry.
pub fn boundary_of(geom: &Geometry) -> (r: Geometry)
    ensures
        r@ == boundary(geom@),
{
    match geom {
        Geometry::LineString(line) => Geometry::MultiPoint(line_boundary(line)),
        Geometry::MultiLineString(lines) => {
            // A coordinate shared by an even number of ends cancels out, per the OGC mod-2 rule.
            let mut ends: Vec<Coord> = Vec::new();
            let ghost every = all_ends(lines_view(lines@));
            let ghost mut seen: Seq<Coord> = Seq::empty();
            let mut i: usize = 0;
            assert(every.take(0).flatten() =~= Seq::<Coord>::empty());
            while i < lines.len()
                invariant
                    i <= lines@.len(),
                    every == all_ends(lines_view(lines@)),
                    seen == every.take(i as int).flatten(),
                    ends@ == cancelled(seen),
                decreases lines@.len() - i,
            {
                let pair = line_boundary(&lines[i]);
                let ghost start = seen;
                let mut k: usize = 0;
                assert(start + pair@.take(0) =~= start);
                while k < pair.len()
                    invariant
                        k <= pair@.len(),
                        seen == start + pair@.take(k as int),
                        ends@ == cancelled(seen),
                    decreases pair@.len() - k,
                {
                    toggle(&mut ends, pair[k]);
                    proof {
                        lemma_cancelled_push(seen, pair@[k as int]);
                        assert(start + pair@.take(k + 1) =~= seen.push(pair@[k as int]));
                        seen = seen.push(pair@[k as int]);
                    }
                    k = k + 1;
                }
                proof {
                    assert(pair@.take(k as int) =~= pair@);
                    assert(every[i as int] == pair@);
                    lemma_flatten_step(every, i as int);
                }
                i = i + 1;
            }
            assert(every.take(i as int) =~= every);
            Geometry::MultiPoint(ends)
        },
        Geometry::Polygon(polygon) => ring_boundary(polygon),
        Geometry::MultiPolygon(polygons) => {
            let mut rings: Vec<Vec<Coord>> = Vec::new();
            let ghost every = all_rings(polygons_view(polygons@));
            let mut i: usize = 0;
            assert(every.take(0).flatten() =~= Seq::<Seq<Coord>>::empty());
            assert(lines_view(rings@) =~= Seq::<Seq<Coord>>::empty());
            while i < polygons.len()
                invariant
                    i <= polygons@.len(),
                    every == all_rings(polygons_view(polygons@)),
                    lines_view(rings@) == every.take(i as int).flatten(),
                decreases polygons@.len() - i,
            {
                push_rings(&mut rings, &polygons[i]);
                proof {
                    assert(every[i as int] == rings_of(polygons@[i as int]@));
                    lemma_flatten_step(every, i as int);
                }
                i = i + 1;
            }
            assert(every.take(i as int) =~= every);
            Geometry::MultiLineString(rings)
        },
        Geometry::Rect(a, b) => ring_boundary(&rect_to_polygon(*a, *b)),
        Geometry::Triangle(a, b, c) => ring_boundary(&triangle_to_polygon(*a, *b, *c)),
        Geometry::Line(a, b) => {
            let ends = vec![*a, *b];
            assert(ends@ =~= seq![*a, *b]);
            Geometry::MultiPoint(ends)
        },
        // The OGC rule for a collection is the union of its parts' boundaries. Keep it simple and
        // report an empty boundary, which is what a collection of points would give anyway.
        _ => {
            let none: Vec<Coord> = Vec::new();
            assert(none@ =~= Seq::<Coord>::empty());
            Geometry::MultiPoint(none)
        },
    }
}

// --------------------------------------------------------------------- reverse
/// A polygon with each ring turned round.
pub open spec fn turned_polygon(polygon: PolygonView) -> PolygonView {
    polygon_over(
        polygon.exterior.reverse(),
        Seq::new(polygon.interiors.len(), |i: int| polygon.interiors[i].reverse()),
    )
}

/// The geometry with the coordinate order of its lineal parts reversed.
pub open spec fn turned(geom: GeometryView) -> GeometryView {
    match geom {
        GeometryView::LineString(line) => GeometryView::LineString(line.reverse()),
        GeometryView::MultiLineString(lines) => GeometryView::MultiLineString(
            Seq::new(lines.len(), |i: int| lines[i].reverse()),
        ),
        GeometryView::Polygon(polygon) => GeometryView::Polygon(turned_polygon(polygon)),
        GeometryView::MultiPolygon(polygons) => GeometryView::MultiPolygon(
            Seq::new(polygons.len(), |i: int| turned_polygon(polygons[i])),
        ),
        GeometryView::Line(a, b) => GeometryView::Line(b, a),
        other => other,
    }
}

fn flip(line: &Vec<Coord>) -> (r: Vec<Coord>)
    ensures
        r@ == line@.reverse(),
{
    let n: usize = line.len();
    let mut out: Vec<Coord> = Vec::new();
    let mut i: usize = 0;
    while i < n
        invariant
            i <= n,
            n == line@.len(),
            out@.len() == i,
            forall|j: int| 0 <= j < i ==> #[trigger] out@[j] == line@[n - 1 - j],
        decreases n - i,
    {
        out.push(line[n - 1 - i]);
        i = i + 1;
    }
    assert(out@ =~= line@.reverse());
    out
}

fn flip_lines(lines: &Vec<Vec<Coord>>) -> (r: Vec<Vec<Coord>>)
    ensures
        lines_view(r@) == Seq::new(lines@.len(), |i: int| lines@[i]@.reverse()),
{
    let mut out: Vec<Vec<Coord>> = Vec::new();
    let mut i: usize = 0;
    while i < lines.len()
        invariant
            i <= lines@.len(),
            out@.len() == i,
            forall|j: int| 0 <= j < i ==> (#[trigger] out@[j])@ == lines@[j]@.reverse(),
        decreases lines@.len() - i,
    {
        out.push(flip(&lines[i]));
        i = i + 1;
    }
    assert(lines_view(out@) =~= Seq::new(lines@.len(), |i: int| lines@[i]@.reverse()));
    out
}

fn flip_polygon(polygon: &Polygon) -> (r: Polygon)
    ensures
        r@ == turned_polygon(polygon@),
{
    let interiors = flip_lines(&polygon.interiors);
    assert(lines_view(interiors@) =~= Seq::new(
        polygon@.interiors.len(),
        |i: int| polygon@.interiors[i].reverse(),
    ));
    Polygon::new(flip(&polygon.exterior), interiors)
}

/// Reverse the coordinate order of the lineal parts of a geometry.
pub fn reversed(geom: &Geometry) -> (r: Geometry)
    ensures
        r@ == turned(geom@),
{
    match geom {
        Geometry::LineString(line) => Geometry::LineString(flip(line)),
        Geometry::MultiLineString(lines) => {
            let r = Geometry::MultiLineString(flip_lines(lines));
            assert(r@->MultiLineString_0 =~= turned(geom@)->MultiLineString_0);
            r
        },
        Geometry::Polygon(polygon) => Geometry::Polygon(flip_polygon(polygon)),
        Geometry::MultiPolygon(polygons) => {
            let mut out: Vec<Polygon> = Vec::new();
            let mut i: usize = 0;
            while i < polygons.len()
                invariant
                    i <= polygons@.len(),
                    out@.len() == i,
                    forall|j: int|
                        0 <= j < i ==> (#[trigger] out@[j])@ == turned_polygon(polygons@[j]@),
                decreases polygons@.len() - i,
            {
                out.push(flip_polygon(&polygons[i]));
                i = i + 1;
            }
            assert(polygons_view(out@) =~= turned(geom@)->MultiPolygon_0);
            Geometry::MultiPolygon(out)
        },
        Geometry::Line(a, b) => Geometry::Line(*b, *a),
        other => other.copy(),
    }
}

// ---------------------------------------------------------------- orientation
/// True when `after` is the polygon `before` with its rings turned the given way.
pub open spec fn is_turned<O: Fn(&Polygon, bool) -> Polygon>(
    orient: O,
    before: PolygonView,
    outward: bool,
    after: PolygonView,
) -> bool {
    exists|a: Polygon, b: Polygon|
        {
            &&& #[trigger] orient.ensures((&a, outward), b)
            &&& a@ == before
            &&& b@ == after
        }
}

/// True when `after` is the geometry with the rings of its areal parts turned the given way.
/// Orientation is meaningless without a ring.
pub open spec fn is_oriented<O: Fn(&Polygon, bool) -> Polygon>(
    orient: O,
    before: GeometryView,
    outward: bool,
    after: GeometryView,
) -> bool {
    match before {
        GeometryView::Polygon(a) => after matches GeometryView::Polygon(b) && is_turned(
            orient,
            a,
            outward,
            b,
        ),
        GeometryView::MultiPolygon(a) => {
            &&& after is MultiPolygon
            &&& after->MultiPolygon_0.len() == a.len()
            &&& forall|i: int|
                0 <= i < a.len() ==> is_turned(
                    orient,
                    a[i],
                    outward,
                    #[trigger] after->MultiPolygon_0[i],
                )
        },
        GeometryView::Rect(a, b) => after matches GeometryView::Polygon(c) && is_turned(
            orient,
            rect_polygon(a, b),
            outward,
            c,
        ),
        GeometryView::Triangle(a, b, c) => after matches GeometryView::Polygon(d) && is_turned(
            orient,
            triangle_polygon(a, b, c),
            outward,
            d,
        ),
        other => after == other,
    }
}

fn turn<O: Fn(&Polygon, bool) -> Polygon>(polygon: &Polygon, outward: bool, orient: &O) -> (r:
    Polygon)
    requires
        forall|p: &Polygon, o: bool| #[trigger] orient.requires((p, o)),
    ensures
        is_turned(*orient, polygon@, outward, r@),
{
    let r = orient(polygon, outward);
    assert(orient.ensures((polygon, outward), r));
    r
}

/// Force the ring orientation of the areal parts of a geometry.
///
/// `outward` asks for a counter clockwise outer ring and clockwise holes. Without it, the other way
/// round.
pub fn oriented<O: Fn(&Polygon, bool) -> Polygon>(geom: &Geometry, outward: bool, orient: &O) -> (r:
    Geometry)
    requires
        forall|p: &Polygon, o: bool| #[trigger] orient.requires((p, o)),
    ensures
        is_oriented(*orient, geom@, outward, r@),
{
    match geom {
        Geometry::Polygon(polygon) => Geometry::Polygon(turn(polygon, outward, orient)),
        Geometry::MultiPolygon(polygons) => {
            let mut out: Vec<Polygon> = Vec::new();
            let mut i: usize = 0;
            while i < polygons.len()
                invariant
                    i <= polygons@.len(),
                    forall|p: &Polygon, o: bool| #[trigger] orient.requires((p, o)),
                    out@.len() == i,
                    forall|j: int|
                        0 <= j < i ==> is_turned(
                            *orient,
                            polygons@[j]@,
                            outward,
                            (#[trigger] out@[j])@,
                        ),
                decreases polygons@.len() - i,
            {
                out.push(turn(&polygons[i], outward, orient));
                i = i + 1;
            }
            proof {
                assert forall|j: int| 0 <= j < polygons@.len() implies is_turned(
                    *orient,
                    polygons_view(polygons@)[j],
                    outward,
                    #[trigger] polygons_view(out@)[j],
                ) by {
                    assert(is_turned(*orient, polygons@[j]@, outward, out@[j]@));
                }
            }
            Geometry::MultiPolygon(out)
        },
        Geometry::Rect(a, b) => Geometry::Polygon(turn(&rect_to_polygon(*a, *b), outward, orient)),
        Geometry::Triangle(a, b, c) => Geometry::Polygon(
            turn(&triangle_to_polygon(*a, *b, *c), outward, orient),
        ),
        // Orientation is meaningless without a ring.
        other => other.copy(),
    }
}

// ----------------------------------------------------------------------- shape
/// A one-argument geometry transform that takes no extra parameter.
#[derive(Debug, Clone, Copy, PartialEq, Eq, Structural, Hash)]
pub enum Shape {
    /// `ST_ConvexHull`.
    ConvexHull,
    /// `ST_OrientedEnvelope`. The smallest rotated rectangle that covers the geometry.
    OrientedEnvelope,
    /// `ST_Boundary`.
    Boundary,
    /// `ST_Centroid`.
    Centroid,
    /// `ST_PointOnSurface`. A point guaranteed to lie on the geometry.
    PointOnSurface,
    /// `ST_MakeValid`.
    MakeValid,
    /// `ST_RemoveRepeatedPoints`.
    RemoveRepeatedPoints,
    /// `ST_Reverse`.
    Reverse,
    /// `ST_ForcePolygonCCW`.
    ForceCcw,
    /// `ST_ForcePolygonCW`.
    ForceCw,
}

/// The algorithms behind the shape transforms.
pub struct ShapeTools<H, P, V, D, O> {
    /// The convex hull or the oriented envelope of a geometry.
    pub hull: H,
    /// The centroid of a geometry, or a point on it.
    pub point: P,
    /// The repaired polygons of an areal geometry.
    pub repair: V,
    /// The geometry without repeated positions.
    pub distinct: D,
    /// The polygon with its rings turned a given way.
    pub orient: O,
}

/// True when the algorithms can be asked.
pub open spec fn can_shape<H, P, V, D, O>(tools: ShapeTools<H, P, V, D, O>) -> bool where
    H: Fn(Shape, &Geometry) -> Option<Polygon>,
    P: Fn(Shape, &Geometry) -> Option<Coord>,
    V: Fn(&Geometry) -> Option<Vec<Polygon>>,
    D: Fn(&Geometry) -> Geometry,
    O: Fn(&Polygon, bool) -> Polygon,
 {
    &&& forall|s: Shape, g: &Geometry| #[trigger] tools.hull.requires((s, g))
    &&& forall|s: Shape, g: &Geometry| #[trigger] tools.point.requires((s, g))
    &&& forall|g: &Geometry| #[trigger] tools.repair.requires((g,))
    &&& forall|g: &Geometry| #[trigger] tools.distinct.requires((g,))
    &&& forall|p: &Polygon, o: bool| #[trigger] tools.orient.requires((p, o))
}

/// True when `out` is the polygon that the algorithm gave.
pub open spec fn is_hull<H: Fn(Shape, &Geometry) -> Option<Polygon>>(
    hull: H,
    transform: Shape,
    geom: GeometryView,
    out: Option<GeometryView>,
) -> bool {
    exists|g: Geometry, p: Option<Polygon>|
        {
            &&& #[trigger] hull.ensures((transform, &g), p)
            &&& g@ == geom
            &&& out == match p {
                Some(polygon) => Some(GeometryView::Polygon(polygon@)),
                None => None,
            }
        }
}

/// True when `out` is the point that the algorithm gave.
pub open spec fn is_located_point<P: Fn(Shape, &Geometry) -> Option<Coord>>(
    point: P,
    transform: Shape,
    geom: GeometryView,
    out: Option<GeometryView>,
) -> bool {
    exists|g: Geometry, p: Option<Coord>|
        {
            &&& #[trigger] point.ensures((transform, &g), p)
            &&& g@ == geom
            &&& out == match p {
                Some(c) => Some(GeometryView::Point(c)),
                None => None,
            }
        }
}

/// True when `out` is the list of polygons that the algorithm gave.
pub open spec fn is_repaired<V: Fn(&Geometry) -> Option<Vec<Polygon>>>(
    repair: V,
    geom: GeometryView,
    out: Option<GeometryView>,
) -> bool {
    exists|g: Geometry, p: Option<Vec<Polygon>>|
        {
            &&& #[trigger] repair.ensures((&g,), p)
            &&& g@ == geom
            &&& out == match p {
                Some(polygons) => Some(GeometryView::MultiPolygon(polygons_view(polygons@))),
                None => None,
            }
        }
}

/// True when `out` is the geometry that the algorithm gave.
pub open spec fn is_thinned<D: Fn(&Geometry) -> Geometry>(
    distinct: D,
    geom: GeometryView,
    out: GeometryView,
) -> bool {
    exists|g: Geometry, h: Geometry|
        {
            &&& #[trigger] distinct.ensures((&g,), h)
            &&& g@ == geom
            &&& h@ == out
        }
}

impl Shape {
    /// The PostGIS function name.
    pub open spec fn name_text(self) -> Seq<char> {
        match self {
            Shape::ConvexHull => "ST_ConvexHull"@,
            Shape::OrientedEnvelope => "ST_OrientedEnvelope"@,
            Shape::Boundary => "ST_Boundary"@,
            Shape::Centroid => "ST_Centroid"@,
            Shape::PointOnSurface => "ST_PointOnSurface"@,
            Shape::MakeValid => "ST_MakeValid"@,
            Shape::RemoveRepeatedPoints => "ST_RemoveRepeatedPoints"@,
            Shape::Reverse => "ST_Reverse"@,
            Shape::ForceCcw => "ST_ForcePolygonCCW"@,
            Shape::ForceCw => "ST_ForcePolygonCW"@,
        }
    }

    /// The lowercase SQL name.
    pub open spec fn sql_text(self) -> Seq<char> {
        match self {
            Shape::ConvexHull => "st_convexhull"@,
            Shape::OrientedEnvelope => "st_orientedenvelope"@,
            Shape::Boundary => "st_boundary"@,
            Shape::Centroid => "st_centroid"@,
            Shape::PointOnSurface => "st_pointonsurface"@,
            Shape::MakeValid => "st_makevalid"@,
            Shape::RemoveRepeatedPoints => "st_removerepeatedpoints"@,
            Shape::Reverse => "st_reverse"@,
            Shape::ForceCcw => "st_forcepolygonccw"@,
            Shape::ForceCw => "st_forcepolygoncw"@,
        }
    }

    /// The PostGIS function name.
    pub fn function_name(self) -> (r: &'static str)
        ensures
            r@ == self.name_text(),
    {
        match self {
            Shape::ConvexHull => "ST_ConvexHull",
            Shape::OrientedEnvelope => "ST_OrientedEnvelope",
            Shape::Boundary => "ST_Boundary",
            Shape::Centroid => "ST_Centroid",
            Shape::PointOnSurface => "ST_PointOnSurface",
            Shape::MakeValid => "ST_MakeValid",
            Shape::RemoveRepeatedPoints => "ST_RemoveRepeatedPoints",
            Shape::Reverse => "ST_Reverse",
            Shape::ForceCcw => "ST_ForcePolygonCCW",
            Shape::ForceCw => "ST_ForcePolygonCW",
        }
    }

    /// The lowercase SQL name.
    pub fn sql_name(self) -> (r: &'static str)
        ensures
            r@ == self.sql_text(),
    {
        match self {
            Shape::ConvexHull => "st_convexhull",
            Shape::OrientedEnvelope => "st_orientedenvelope",
            Shape::Boundary => "st_boundary",
            Shape::Centroid => "st_centroid",
            Shape::PointOnSurface => "st_pointonsurface",
            Shape::MakeValid => "st_makevalid",
            Shape::RemoveRepeatedPoints => "st_removerepeatedpoints",
            Shape::Reverse => "st_reverse",
            Shape::ForceCcw => "st_forcepolygonccw",
            Shape::ForceCw => "st_forcepolygoncw",
        }
    }

    /// Every shape function, for registration.
    pub fn all() -> (r: [Shape; 10])
        ensures
            r@ == seq![
                Shape::ConvexHull,
                Shape::OrientedEnvelope,
                Shape::Boundary,
                Shape::Centroid,
                Shape::PointOnSurface,
                Shape::MakeValid,
                Shape::RemoveRepeatedPoints,
                Shape::Reverse,
                Shape::ForceCcw,
                Shape::ForceCw,
            ],
    {
        let r = [
            Shape::ConvexHull,
            Shape::OrientedEnvelope,
            Shape::Boundary,
            Shape::Centroid,
            Shape::PointOnSurface,
            Shape::MakeValid,
            Shape::RemoveRepeatedPoints,
            Shape::Reverse,
            Shape::ForceCcw,
            Shape::ForceCw,
        ];
        assert(r@ =~= seq![
            Shape::ConvexHull,
            Shape::OrientedEnvelope,
            Shape::Boundary,
            Shape::Centroid,
            Shape::PointOnSurface,
            Shape::MakeValid,
            Shape::RemoveRepeatedPoints,
            Shape::Reverse,
            Shape::ForceCcw,
            Shape::ForceCw,
        ]);
        r
    }

    /// True when `out` is what the transform makes of a geometry.
    ///
    /// Only an areal geometry is repaired. Anything else is already as valid as it gets.
    pub open spec fn is_applied<H, P, V, D, O>(
        self,
        tools: ShapeTools<H, P, V, D, O>,
        geom: GeometryView,
        out: Option<GeometryView>,
    ) -> bool where
        H: Fn(Shape, &Geometry) -> Option<Polygon>,
        P: Fn(Shape, &Geometry) -> Option<Coord>,
        V: Fn(&Geometry) -> Option<Vec<Polygon>>,
        D: Fn(&Geometry) -> Geometry,
        O: Fn(&Polygon, bool) -> Polygon,
     {
        match self {
            Shape::ConvexHull | Shape::OrientedEnvelope => is_hull(tools.hull, self, geom, out),
            Shape::Boundary => out == Some(boundary(geom)),
            Shape::Centroid | Shape::PointOnSurface => is_located_point(
                tools.point,
                self,
                geom,
                out,
            ),
            Shape::MakeValid => if geom is Polygon || geom is MultiPolygon {
                is_repaired(tools.repair, geom, out)
            } else {
                out == Some(geom)
            },
            Shape::RemoveRepeatedPoints => out is Some && is_thinned(tools.distinct, geom, out->0),
            Shape::Reverse => out == Some(turned(geom)),
            Shape::ForceCcw => out is Some && is_oriented(tools.orient, geom, true, out->0),
            Shape::ForceCw => out is Some && is_oriented(tools.orient, geom, false, out->0),
        }
    }

    /// Apply this transform to one geometry.
    ///
    /// Returns `None` where PostGIS returns NULL, such as the centroid of an empty geometry.
    pub fn apply<H, P, V, D, O>(self, geom: &Geometry, tools: &ShapeTools<H, P, V, D, O>) -> (r:
        Option<Geometry>) where
        H: Fn(Shape, &Geometry) -> Option<Polygon>,
        P: Fn(Shape, &Geometry) -> Option<Coord>,
        V: Fn(&Geometry) -> Option<Vec<Polygon>>,
        D: Fn(&Geometry) -> Geometry,
        O: Fn(&Polygon, bool) -> Polygon,

        requires
            can_shape(*tools),
        ensures
            self.is_applied(*tools, geom@, geometry_view(r)),
    {
        let hull = &tools.hull;
        let point = &tools.point;
        let repair = &tools.repair;
        let distinct = &tools.distinct;
        match self {
            Shape::ConvexHull | Shape::OrientedEnvelope => {
                let found = hull(self, geom);
                assert(hull.ensures((self, geom), found));
                match found {
                    Some(polygon) => Some(Geometry::Polygon(polygon)),
                    None => None,
                }
            },
            Shape::Boundary => Some(boundary_of(geom)),
            Shape::Centroid | Shape::PointOnSurface => {
                let found = point(self, geom);
                assert(point.ensures((self, geom), found));
                match found {
                    Some(c) => Some(Geometry::Point(c)),
                    None => None,
                }
            },
            Shape::MakeValid => match geom {
                Geometry::Polygon(_) | Geometry::MultiPolygon(_) => {
                    let found = repair(geom);
                    assert(repair.ensures((geom,), found));
                    match found {
                        Some(polygons) => Some(Geometry::MultiPolygon(polygons)),
                        None => None,
                    }
                },
                other => Some(other.copy()),
            },
            Shape::RemoveRepeatedPoints => {
                let thinned = distinct(geom);
                assert(distinct.ensures((geom,), thinned));
                Some(thinned)
            },
            Shape::Reverse => Some(reversed(geom)),
            Shape::ForceCcw => Some(oriented(geom, true, &tools.orient)),
            Shape::ForceCw => Some(oriented(geom, false, &tools.orient)),
        }
    }
}

/// Any one-argument shape transform over a column.
pub fn shape<H, P, V, D, O>(
    array: &Column,
    transform: Shape,
    tools: &ShapeTools<H, P, V, D, O>,
) -> (r: Result<Vec<Option<Geometry>>, Error>) where
    H: Fn(Shape, &Geometry) -> Option<Polygon>,
    P: Fn(Shape, &Geometry) -> Option<Coord>,
    V: Fn(&Geometry) -> Option<Vec<Polygon>>,
    D: Fn(&Geometry) -> Geometry,
    O: Fn(&Polygon, bool) -> Polygon,

    requires
        array.wf(),
        can_shape(*tools),
    ensures
        match r {
            Ok(out) => {
                &&& !array@.has_broken(array.rows())
                &&& out@.len() == array.rows()
                &&& forall|i: int|
                    0 <= i < out@.len() ==> match array@.geometry(i) {
                        Some(geom) => transform.is_applied(
                            *tools,
                            geom,
                            geometry_view(#[trigger] out@[i]),
                        ),
                        None => out@[i] is None,
                    }
            },
            Err(error) => array@.has_broken(array.rows()) && error == Error::Undecodable,
        },
{
    let f = |geom: &Geometry| -> (out: Option<Geometry>)
        ensures
            transform.is_applied(*tools, geom@, geometry_view(out)),
        { transform.apply(geom, tools) };
    map_geometries(array, &f)
}

// ------------------------------------------------------- parameterized shapes
/// A one-argument transform that also takes a distance or tolerance.
#[derive(Debug, Clone, Copy, PartialEq, Eq, Structural, Hash)]
pub enum Sized {
    /// `ST_Buffer`.
    Buffer,
    /// `ST_Simplify`. It runs Ramer-Douglas-Peucker.
    Simplify,
    /// `ST_SimplifyVW`. It runs Visvalingam-Whyatt.
    SimplifyVw,
    /// `ST_Segmentize`. Split segments longer than the given length.
    Segmentize,
    /// `ST_ConcaveHull`. The parameter is the target ratio, from 0 to 1.
    ConcaveHull,
    /// `ST_ChaikinSmoothing`. The parameter is the iteration count.
    Chaikin,
}

/// The algorithms behind the parameterized shapes.
pub struct SizedTools<B, L, P, H, R> {
    /// The buffer of a geometry.
    pub buffer: B,
    /// A line, simplified, split or smoothed.
    pub line: L,
    /// A polygon, simplified, split or smoothed.
    pub polygon: P,
    /// The concave hull of a geometry.
    pub hull: H,
    /// The nearest whole number.
    pub round: R,
}

/// True when the algorithms can be asked.
pub open spec fn can_size<B, L, P, H, R>(tools: SizedTools<B, L, P, H, R>) -> bool where
    B: Fn(&Geometry, u64) -> Vec<Polygon>,
    L: Fn(Sized, &Vec<Coord>, u64) -> Vec<Coord>,
    P: Fn(Sized, &Polygon, u64) -> Polygon,
    H: Fn(&Geometry, u64) -> Polygon,
    R: Fn(u64) -> u64,
 {
    &&& forall|g: &Geometry, p: u64| #[trigger] tools.buffer.requires((g, p))
    &&& forall|s: Sized, l: &Vec<Coord>, p: u64| #[trigger] tools.line.requires((s, l, p))
    &&& forall|s: Sized, l: &Polygon, p: u64| #[trigger] tools.polygon.requires((s, l, p))
    &&& forall|g: &Geometry, p: u64| #[trigger] tools.hull.requires((g, p))
    &&& forall|p: u64| #[trigger] tools.round.requires((p,))
}

/// True when `after` is what the algorithm made of a line.
pub open spec fn is_worked_line<L: Fn(Sized, &Vec<Coord>, u64) -> Vec<Coord>>(
    line: L,
    transform: Sized,
    parameter: u64,
    before: Seq<Coord>,
    after: Seq<Coord>,
) -> bool {
    exists|a: Vec<Coord>, b: Vec<Coord>|
        {
            &&& #[trigger] line.ensures((transform, &a, parameter), b)
            &&& a@ == before
            &&& b@ == after
        }
}

/// True when `after` is what the algorithm made of a polygon.
pub open spec fn is_worked_polygon<P: Fn(Sized, &Polygon, u64) -> Polygon>(
    polygon: P,
    transform: Sized,
    parameter: u64,
    before: PolygonView,
    after: PolygonView,
) -> bool {
    exists|a: Polygon, b: Polygon|
        {
            &&& #[trigger] polygon.ensures((transform, &a, parameter), b)
            &&& a@ == before
            &&& b@ == after
        }
}

/// True when `after` is the geometry with each line and each polygon worked on its own.
///
/// A point has nothing to simplify, split or smooth. Splitting also takes a single segment, a box
/// and a triangle.
pub open spec fn is_worked<L, P>(
    line: L,
    polygon: P,
    transform: Sized,
    parameter: u64,
    before: GeometryView,
    after: GeometryView,
) -> bool where
    L: Fn(Sized, &Vec<Coord>, u64) -> Vec<Coord>,
    P: Fn(Sized, &Polygon, u64) -> Polygon,
 {
    match before {
        GeometryView::LineString(a) => after matches GeometryView::LineString(b) && is_worked_line(
            line,
            transform,
            parameter,
            a,
            b,
        ),
        GeometryView::MultiLineString(a) => {
            &&& after is MultiLineString
            &&& after->MultiLineString_0.len() == a.len()
            &&& forall|i: int|
                0 <= i < a.len() ==> is_worked_line(
                    line,
                    transform,
                    parameter,
                    a[i],
                    #[trigger] after->MultiLineString_0[i],
                )
        },
        GeometryView::Polygon(a) => after matches GeometryView::Polygon(b) && is_worked_polygon(
            polygon,
            transform,
            parameter,
            a,
            b,
        ),
        GeometryView::MultiPolygon(a) => {
            &&& after is MultiPolygon
            &&& after->MultiPolygon_0.len() == a.len()
            &&& forall|i: int|
                0 <= i < a.len() ==> is_worked_polygon(
                    polygon,
                    transform,
                    parameter,
                    a[i],
                    #[trigger] after->MultiPolygon_0[i],
                )
        },
        GeometryView::Line(a, b) => if transform == Sized::Segmentize {
            after matches GeometryView::LineString(c) && is_worked_line(
                line,
                transform,
                parameter,
                seq![a, b],
                c,
            )
        } else {
            after == before
        },
        GeometryView::Rect(a, b) => if transform == Sized::Segmentize {
            after matches GeometryView::Polygon(c) && is_worked_polygon(
                polygon,
                transform,
                parameter,
                rect_polygon(a, b),
                c,
            )
        } else {
            after == before
        },
        GeometryView::Triangle(a, b, c) => if transform == Sized::Segmentize {
            after matches GeometryView::Polygon(d) && is_worked_polygon(
                polygon,
                transform,
                parameter,
                triangle_polygon(a, b, c),
                d,
            )
        } else {
            after == before
        },
        other => after == other,
    }
}

fn work_line<L: Fn(Sized, &Vec<Coord>, u64) -> Vec<Coord>>(
    line: &L,
    transform: Sized,
    parameter: u64,
    value: &Vec<Coord>,
) -> (r: Vec<Coord>)
    requires
        forall|s: Sized, l: &Vec<Coord>, p: u64| #[trigger] line.requires((s, l, p)),
    ensures
        is_worked_line(*line, transform, parameter, value@, r@),
{
    let r = line(transform, value, parameter);
    assert(line.ensures((transform, value, parameter), r));
    r
}

fn work_polygon<P: Fn(Sized, &Polygon, u64) -> Polygon>(
    polygon: &P,
    transform: Sized,
    parameter: u64,
    value: &Polygon,
) -> (r: Polygon)
    requires
        forall|s: Sized, l: &Polygon, p: u64| #[trigger] polygon.requires((s, l, p)),
    ensures
        is_worked_polygon(*polygon, transform, parameter, value@, r@),
{
    let r = polygon(transform, value, parameter);
    assert(polygon.ensures((transform, value, parameter), r));
    r
}

/// Work on each line and each polygon of a geometry.
pub fn work<L, P>(line: &L, polygon: &P, transform: Sized, parameter: u64, geom: &Geometry) -> (r:
    Geometry) where
    L: Fn(Sized, &Vec<Coord>, u64) -> Vec<Coord>,
    P: Fn(Sized, &Polygon, u64) -> Polygon,

    requires
        forall|s: Sized, l: &Vec<Coord>, p: u64| #[trigger] line.requires((s, l, p)),
        forall|s: Sized, l: &Polygon, p: u64| #[trigger] polygon.requires((s, l, p)),
    ensures
        is_worked(*line, *polygon, transform, parameter, geom@, r@),
{
    let split = match transform {
        Sized::Segmentize => true,
        _ => false,
    };
    match geom {
        Geometry::LineString(value) => Geometry::LineString(
            work_line(line, transform, parameter, value),
        ),
        Geometry::MultiLineString(lines) => {
            let mut out: Vec<Vec<Coord>> = Vec::new();
            let mut i: usize = 0;
            while i < lines.len()
                invariant
                    i <= lines@.len(),
                    forall|s: Sized, l: &Vec<Coord>, p: u64| #[trigger] line.requires((s, l, p)),
                    out@.len() == i,
                    forall|j: int|
                        0 <= j < i ==> is_worked_line(
                            *line,
                            transform,
                            parameter,
                            lines@[j]@,
                            (#[trigger] out@[j])@,
                        ),
                decreases lines@.len() - i,
            {
                out.push(work_line(line, transform, parameter, &lines[i]));
                i = i + 1;
            }
            proof {
                assert forall|j: int| 0 <= j < lines@.len() implies is_worked_line(
                    *line,
                    transform,
                    parameter,
                    lines_view(lines@)[j],
                    #[trigger] lines_view(out@)[j],
                ) by {
                    assert(is_worked_line(*line, transform, parameter, lines@[j]@, out@[j]@));
                }
            }
            Geometry::MultiLineString(out)
        },
        Geometry::Polygon(value) => Geometry::Polygon(
            work_polygon(polygon, transform, parameter, value),
        ),
        Geometry::MultiPolygon(polygons) => {
            let mut out: Vec<Polygon> = Vec::new();
            let mut i: usize = 0;
            while i < polygons.len()
                invariant
                    i <= polygons@.len(),
                    forall|s: Sized, l: &Polygon, p: u64| #[trigger] polygon.requires((s, l, p)),
                    out@.len() == i,
                    forall|j: int|
                        0 <= j < i ==> is_worked_polygon(
                            *polygon,
                            transform,
                            parameter,
                            polygons@[j]@,
                            (#[trigger] out@[j])@,
                        ),
                decreases polygons@.len() - i,
            {
                out.push(work_polygon(polygon, transform, parameter, &polygons[i]));
                i = i + 1;
            }
            proof {
                assert forall|j: int| 0 <= j < polygons@.len() implies is_worked_polygon(
                    *polygon,
                    transform,
                    parameter,
                    polygons_view(polygons@)[j],
                    #[trigger] polygons_view(out@)[j],
                ) by {
                    assert(is_worked_polygon(
                        *polygon,
                        transform,
                        parameter,
                        polygons@[j]@,
                        out@[j]@,
                    ));
                }
            }
            Geometry::MultiPolygon(out)
        },
        Geometry::Line(a, b) => if split {
            let value = vec![*a, *b];
            assert(value@ =~= seq![*a, *b]);
            Geometry::LineString(work_line(line, transform, parameter, &value))
        } else {
            geom.copy()
        },
        Geometry::Rect(a, b) => if split {
            Geometry::Polygon(
                work_polygon(polygon, transform, parameter, &rect_to_polygon(*a, *b)),
            )
        } else {
            geom.copy()
        },
        Geometry::Triangle(a, b, c) => if split {
            Geometry::Polygon(
                work_polygon(polygon, transform, parameter, &triangle_to_polygon(*a, *b, *c)),
            )
        } else {
            geom.copy()
        },
        other => other.copy(),
    }
}

/// The highest iteration count of `ST_ChaikinSmoothing`, as a number. Every iteration doubles the
/// vertex count.
pub const MOST_ITERATIONS: u64 = 0x4020_0000_0000_0000;

/// True when a concave hull exists. A single point has none, nor has a collection.
pub open spec fn has_concave_hull(geom: GeometryView) -> bool {
    geom is MultiPoint || geom is LineString || geom is MultiLineString || geom is Polygon
        || geom is MultiPolygon
}

impl Sized {
    /// The PostGIS function name.
    pub open spec fn name_text(self) -> Seq<char> {
        match self {
            Sized::Buffer => "ST_Buffer"@,
            Sized::Simplify => "ST_Simplify"@,
            Sized::SimplifyVw => "ST_SimplifyVW"@,
            Sized::Segmentize => "ST_Segmentize"@,
            Sized::ConcaveHull => "ST_ConcaveHull"@,
            Sized::Chaikin => "ST_ChaikinSmoothing"@,
        }
    }

    /// The lowercase SQL name.
    pub open spec fn sql_text(self) -> Seq<char> {
        match self {
            Sized::Buffer => "st_buffer"@,
            Sized::Simplify => "st_simplify"@,
            Sized::SimplifyVw => "st_simplifyvw"@,
            Sized::Segmentize => "st_segmentize"@,
            Sized::ConcaveHull => "st_concavehull"@,
            Sized::Chaikin => "st_chaikinsmoothing"@,
        }
    }

    /// The PostGIS function name.
    pub fn function_name(self) -> (r: &'static str)
        ensures
            r@ == self.name_text(),
    {
        match self {
            Sized::Buffer => "ST_Buffer",
            Sized::Simplify => "ST_Simplify",
            Sized::SimplifyVw => "ST_SimplifyVW",
            Sized::Segmentize => "ST_Segmentize",
            Sized::ConcaveHull => "ST_ConcaveHull",
            Sized::Chaikin => "ST_ChaikinSmoothing",
        }
    }

    /// The lowercase SQL name.
    pub fn sql_name(self) -> (r: &'static str)
        ensures
            r@ == self.sql_text(),
    {
        match self {
            Sized::Buffer => "st_buffer",
            Sized::Simplify => "st_simplify",
            Sized::SimplifyVw => "st_simplifyvw",
            Sized::Segmentize => "st_segmentize",
            Sized::ConcaveHull => "st_concavehull",
            Sized::Chaikin => "st_chaikinsmoothing",
        }
    }

    /// Every parameterized shape function, for registration.
    pub fn all() -> (r: [Sized; 6])
        ensures
            r@ == seq![
                Sized::Buffer,
                Sized::Simplify,
                Sized::SimplifyVw,
                Sized::Segmentize,
                Sized::ConcaveHull,
                Sized::Chaikin,
            ],
    {
        let r = [
            Sized::Buffer,
            Sized::Simplify,
            Sized::SimplifyVw,
            Sized::Segmentize,
            Sized::ConcaveHull,
            Sized::Chaikin,
        ];
        assert(r@ =~= seq![
            Sized::Buffer,
            Sized::Simplify,
            Sized::SimplifyVw,
            Sized::Segmentize,
            Sized::ConcaveHull,
            Sized::Chaikin,
        ]);
        r
    }

    /// True when `out` is what the transform makes of a geometry.
    ///
    /// Splitting by a length of zero or less would never end. A smoothing count is rounded, and
    /// makes sense from zero to [`MOST_ITERATIONS`].
    pub open spec fn is_applied<B, L, P, H, R>(
        self,
        tools: SizedTools<B, L, P, H, R>,
        geom: GeometryView,
        parameter: u64,
        out: Option<GeometryView>,
    ) -> bool where
        B: Fn(&Geometry, u64) -> Vec<Polygon>,
        L: Fn(Sized, &Vec<Coord>, u64) -> Vec<Coord>,
        P: Fn(Sized, &Polygon, u64) -> Polygon,
        H: Fn(&Geometry, u64) -> Polygon,
        R: Fn(u64) -> u64,
     {
        match self {
            Sized::Buffer => exists|g: Geometry, p: Vec<Polygon>|
                {
                    &&& #[trigger] tools.buffer.ensures((&g, parameter), p)
                    &&& g@ == geom
                    &&& out == Some(GeometryView::MultiPolygon(polygons_view(p@)))
                },
            Sized::Simplify | Sized::SimplifyVw => out is Some && is_worked(
                tools.line,
                tools.polygon,
                self,
                parameter,
                geom,
                out->0,
            ),
            Sized::Segmentize => if number::is_lt(number::ZERO, parameter) {
                out is Some && is_worked(
                    tools.line,
                    tools.polygon,
                    self,
                    parameter,
                    geom,
                    out->0,
                )
            } else {
                out is None
            },
            Sized::ConcaveHull => if has_concave_hull(geom) {
                exists|g: Geometry, p: Polygon|
                    {
                        &&& #[trigger] tools.hull.ensures((&g, parameter), p)
                        &&& g@ == geom
                        &&& out == Some(GeometryView::Polygon(p@))
                    }
            } else {
                out is None
            },
            Sized::Chaikin => exists|count: u64| #[trigger]
                tools.round.ensures((parameter,), count) && if number::is_le(number::ZERO, count)
                    && number::is_le(count, MOST_ITERATIONS) {
                    out is Some && is_worked(
                        tools.line,
                        tools.polygon,
                        self,
                        count,
                        geom,
                        out->0,
                    )
                } else {
                    out is None
                },
        }
    }

    /// Apply this transform to one geometry.
    pub fn apply<B, L, P, H, R>(
        self,
        geom: &Geometry,
        parameter: u64,
        tools: &SizedTools<B, L, P, H, R>,
    ) -> (r: Option<Geometry>) where
        B: Fn(&Geometry, u64) -> Vec<Polygon>,
        L: Fn(Sized, &Vec<Coord>, u64) -> Vec<Coord>,
        P: Fn(Sized, &Polygon, u64) -> Polygon,
        H: Fn(&Geometry, u64) -> Polygon,
        R: Fn(u64) -> u64,

        requires
            can_size(*tools),
        ensures
            self.is_applied(*tools, geom@, parameter, geometry_view(r)),
    {
        let buffer = &tools.buffer;
        let hull = &tools.hull;
        let round = &tools.round;
        match self {
            Sized::Buffer => {
                let polygons = buffer(geom, parameter);
                assert(buffer.ensures((geom, parameter), polygons));
                Some(Geometry::MultiPolygon(polygons))
            },
            Sized::Simplify | Sized::SimplifyVw => Some(
                work(&tools.line, &tools.polygon, self, parameter, geom),
            ),
            Sized::Segmentize => {
                // A segment length of zero or less would never terminate.
                if number::lt(number::ZERO, parameter) {
                    Some(work(&tools.line, &tools.polygon, self, parameter, geom))
                } else {
                    None
                }
            },
            Sized::ConcaveHull => match geom {
                Geometry::MultiPoint(_) | Geometry::LineString(_) | Geometry::MultiLineString(_)
                | Geometry::Polygon(_) | Geometry::MultiPolygon(_) => {
                    let polygon = hull(geom, parameter);
                    assert(hull.ensures((geom, parameter), polygon));
                    Some(Geometry::Polygon(polygon))
                },
                // A single point has no hull, and there is none for a collection.
                _ => None,
            },
            Sized::Chaikin => {
                // The parameter is a count, so a fraction or a negative makes no sense.
                let count: u64 = round(parameter);
                assert(round.ensures((parameter,), count));
                if number::le(number::ZERO, count) && number::le(count, MOST_ITERATIONS) {
                    Some(work(&tools.line, &tools.polygon, self, count, geom))
                } else {
                    None
                }
            },
        }
    }
}

/// The parameter of a row. One value may stand for every row.
pub open spec fn parameter_at(parameter: Seq<Option<u64>>, rows: int, i: int) -> Option<u64> {
    parameter[slot(parameter.len() as int, rows, i)]
}

/// True when a row with a parameter has a value that could not be decoded. A row without one is not
/// read.
pub open spec fn is_sized_broken(array: ColumnView, parameter: Seq<Option<u64>>, i: int) -> bool {
    parameter_at(parameter, array.rows(), i) is Some && array.is_broken(i)
}

/// Any parameterized shape transform over a column.
///
/// The parameter may be one constant or one value per row.
pub fn sized_shape<B, L, P, H, R>(
    array: &Column,
    transform: Sized,
    parameter: &Vec<Option<u64>>,
    tools: &SizedTools<B, L, P, H, R>,
) -> (r: Result<Vec<Option<Geometry>>, Error>) where
    B: Fn(&Geometry, u64) -> Vec<Polygon>,
    L: Fn(Sized, &Vec<Coord>, u64) -> Vec<Coord>,
    P: Fn(Sized, &Polygon, u64) -> Polygon,
    H: Fn(&Geometry, u64) -> Polygon,
    R: Fn(u64) -> u64,

    requires
        array.wf(),
        can_size(*tools),
    ensures
        ({
            let fits = parameter@.len() == array.rows() || parameter@.len() == 1;
            match r {
                Ok(out) => {
                    &&& fits
                    &&& forall|i: int|
                        0 <= i < array.rows() ==> !#[trigger] is_sized_broken(
                            array@,
                            parameter@,
                            i,
                        )
                    &&& out@.len() == array.rows()
                    &&& forall|i: int|
                        0 <= i < out@.len() ==> match (
                            parameter_at(parameter@, array.rows(), i),
                            array@.geometry(i),
                        ) {
                            (Some(p), Some(geom)) => transform.is_applied(
                                *tools,
                                geom,
                                p,
                                geometry_view(#[trigger] out@[i]),
                            ),
                            _ => out@[i] is None,
                        }
                },
                Err(Error::ParameterCount { function, given, rows }) => {
                    &&& !fits
                    &&& function@ == transform.name_text()
                    &&& given == parameter@.len()
                    &&& rows == array.rows()
                },
                Err(Error::Undecodable) => fits && exists|i: int|
                    0 <= i < array.rows() && #[trigger] is_sized_broken(array@, parameter@, i),
                Err(_) => false,
            }
        }),
{
    let rows: usize = array.len();
    let given: usize = parameter.len();
    if given != rows && given != 1 {
        return Err(Error::ParameterCount { function: transform.function_name(), given, rows });
    }
    let broadcast = given == 1 && rows != 1;
    let mut reader = GeometryReader::new(array);
    let mut out: Vec<Option<Geometry>> = Vec::new();
    let mut i: usize = 0;
    while i < rows
        invariant
            i <= rows,
            array.wf(),
            rows == array.rows(),
            given == parameter@.len(),
            given == rows || given == 1,
            broadcast == (given == 1 && rows != 1),
            can_size(*tools),
            reader.source() == *array,
            forall|j: int| 0 <= j < i ==> !#[trigger] is_sized_broken(array@, parameter@, j),
            out@.len() == i,
            forall|j: int|
                0 <= j < i ==> match (
                    parameter_at(parameter@, array.rows(), j),
                    array@.geometry(j),
                ) {
                    (Some(p), Some(geom)) => transform.is_applied(
                        *tools,
                        geom,
                        p,
                        geometry_view(#[trigger] out@[j]),
                    ),
                    _ => out@[j] is None,
                },
        decreases rows - i,
    {
        let at: usize = if broadcast {
            0
        } else {
            i
        };
        let value: Option<u64> = parameter[at];
        assert(value == parameter_at(parameter@, array.rows(), i as int));
        match value {
            Some(p) => match reader.read(i) {
                Ok(Some(geom)) => {
                    let result = transform.apply(geom, p, tools);
                    out.push(result);
                },
                Ok(None) => {
                    out.push(None);
                },
                Err(error) => {
                    assert(is_sized_broken(array@, parameter@, i as int));
                    return Err(error);
                },
            },
            None => {
                out.push(None);
            },
        }
        i = i + 1;
    }
    Ok(out)
}

// -------------------------------------------------------------------- validity
/// True when `problem` is what the check of a geometry gave: nothing, or the first problem.
pub open spec fn is_checked<C: Fn(&Geometry) -> Option<String>>(
    check: C,
    geom: GeometryView,
    problem: Option<Seq<char>>,
) -> bool {
    exists|g: Geometry, text: Option<String>|
        {
            &&& #[trigger] check.ensures((&g,), text)
            &&& g@ == geom
            &&& problem == match text {
                Some(text) => Some(text@),
                None => None,
            }
        }
}

/// True when `valid` is the verdict of the check: a geometry without a problem is valid.
pub open spec fn is_validity<C: Fn(&Geometry) -> Option<String>>(
    check: C,
    geom: GeometryView,
    valid: bool,
) -> bool {
    exists|problem: Option<Seq<char>>| #[trigger]
        is_checked(check, geom, problem) && valid == (problem is None)
}

/// True when `text` is what a geometry is told: its first problem, or that it has none.
pub open spec fn is_reason<C: Fn(&Geometry) -> Option<String>>(
    check: C,
    geom: GeometryView,
    text: Seq<char>,
) -> bool {
    exists|problem: Option<Seq<char>>| #[trigger]
        is_checked(check, geom, problem) && text == match problem {
            Some(problem) => problem,
            None => valid_text(),
        }
}

/// What a geometry without a problem is told. PostGIS returns that exact string, so scripts can
/// compare against it.
pub open spec fn valid_text() -> Seq<char> {
    "Valid Geometry"@
}

/// `ST_IsValid`.
pub fn st_is_valid<C: Fn(&Geometry) -> Option<String>>(array: &Column, check: &C) -> (r: Result<
    Vec<Option<bool>>,
    Error,
>)
    requires
        array.wf(),
        forall|g: &Geometry| #[trigger] check.requires((g,)),
    ensures
        match r {
            Ok(out) => {
                &&& !array@.has_broken(array.rows())
                &&& out@.len() == array.rows()
                &&& forall|i: int|
                    0 <= i < out@.len() ==> match array@.geometry(i) {
                        Some(geom) => #[trigger] out@[i] is Some && is_validity(
                            *check,
                            geom,
                            out@[i]->0,
                        ),
                        None => out@[i] is None,
                    }
            },
            Err(error) => array@.has_broken(array.rows()) && error == Error::Undecodable,
        },
{
    let f = |geom: &Geometry| -> (out: Option<bool>)
        ensures
            out is Some,
            is_validity(*check, geom@, out->0),
        {
            let problem = check_geometry(check, geom);
            Some(problem.is_none())
        };
    map_geometries(array, &f)
}

fn check_geometry<C: Fn(&Geometry) -> Option<String>>(check: &C, geom: &Geometry) -> (r: Option<
    String,
>)
    requires
        forall|g: &Geometry| #[trigger] check.requires((g,)),
    ensures
        is_checked(
            *check,
            geom@,
            match r {
                Some(text) => Some(text@),
                None => None,
            },
        ),
{
    let r = check(geom);
    assert(check.ensures((geom,), r));
    r
}

/// `ST_IsValidReason`. The first problem with the geometry, or `Valid Geometry`.
pub fn st_is_valid_reason<C: Fn(&Geometry) -> Option<String>>(array: &Column, check: &C) -> (r:
    Result<Vec<Option<String>>, Error>)
    requires
        array.wf(),
        forall|g: &Geometry| #[trigger] check.requires((g,)),
    ensures
        match r {
            Ok(out) => {
                &&& !array@.has_broken(array.rows())
                &&& out@.len() == array.rows()
                &&& forall|i: int|
                    0 <= i < out@.len() ==> match array@.geometry(i) {
                        Some(geom) => #[trigger] out@[i] is Some && is_reason(
                            *check,
                            geom,
                            out@[i]->0@,
                        ),
                        None => out@[i] is None,
                    }
            },
            Err(error) => array@.has_broken(array.rows()) && error == Error::Undecodable,
        },
{
    let f = |geom: &Geometry| -> (out: Option<String>)
        ensures
            out is Some,
            is_reason(*check, geom@, out->0@),
        {
            match check_geometry(check, geom) {
                Some(problem) => Some(problem),
                None => {
                    let mut text = String::new();
                    text.append("Valid Geometry");
                    Some(text)
                },
            }
        };
    map_geometries(array, &f)
}

// ------------------------------------------------------------------------ laws
/// How often a position occurs in a list, up to numeric equality.
pub open spec fn occurrences(points: Seq<Coord>, c: Coord) -> nat
    decreases points.len(),
{
    if points.len() == 0 {
        0
    } else {
        occurrences(points.drop_last(), c) + if points.last().is_same(c) {
            1nat
        } else {
            0nat
        }
    }
}

/// True when no position of a list is NaN.
pub open spec fn are_numeric(points: Seq<Coord>) -> bool {
    forall|i: int|
        0 <= i < points.len() ==> !number::is_nan((#[trigger] points[i]).x) && !number::is_nan(
            points[i].y,
        )
}

proof fn lemma_occurrences_remove(points: Seq<Coord>, at: int, c: Coord)
    requires
        0 <= at < points.len(),
    ensures
        occurrences(points, c) == occurrences(points.remove(at), c) + if points[at].is_same(c) {
            1nat
        } else {
            0nat
        },
    decreases points.len(),
{
    let rest = points.remove(at);
    if at == points.len() - 1 {
        assert(rest =~= points.drop_last());
    } else {
        lemma_occurrences_remove(points.drop_last(), at, c);
        assert(rest.drop_last() =~= points.drop_last().remove(at));
        assert(rest.last() == points.last());
    }
}

proof fn lemma_same_from(ends: Seq<Coord>, c: Coord, k: int)
    requires
        0 <= k <= ends.len(),
    ensures
        ({
            let at = same_from(ends, c, k);
            &&& k <= at <= ends.len()
            &&& at < ends.len() ==> ends[at].is_same(c)
            &&& forall|j: int| k <= j < at ==> !(#[trigger] ends[j]).is_same(c)
        }),
    decreases ends.len() - k,
{
    if k < ends.len() && !ends[k].is_same(c) {
        lemma_same_from(ends, c, k + 1);
    }
}

proof fn lemma_occurrences_none(points: Seq<Coord>, c: Coord)
    requires
        forall|i: int| 0 <= i < points.len() ==> !(#[trigger] points[i]).is_same(c),
    ensures
        occurrences(points, c) == 0,
    decreases points.len(),
{
    if points.len() > 0 {
        assert(!points[points.len() - 1].is_same(c));
        assert forall|i: int| 0 <= i < points.drop_last().len() implies !(
        #[trigger] points.drop_last()[i]).is_same(c) by {
            assert(!points[i].is_same(c));
        }
        lemma_occurrences_none(points.drop_last(), c);
    }
}

proof fn lemma_cancelled_numeric(points: Seq<Coord>)
    requires
        are_numeric(points),
    ensures
        are_numeric(cancelled(points)),
    decreases points.len(),
{
    if points.len() > 0 {
        let front = points.drop_last();
        assert forall|i: int| 0 <= i < front.len() implies !number::is_nan(
            (#[trigger] front[i]).x,
        ) && !number::is_nan(front[i].y) by {
            assert(front[i] == points[i]);
        }
        lemma_cancelled_numeric(front);
        let held = cancelled(front);
        let at = same_from(held, points.last(), 0);
        lemma_same_from(held, points.last(), 0);
        let last = points[points.len() - 1];
        if at < held.len() {
            let rest = held.remove(at);
            assert forall|i: int| 0 <= i < rest.len() implies !number::is_nan(
                (#[trigger] rest[i]).x,
            ) && !number::is_nan(rest[i].y) by {
                if i < at {
                    assert(rest[i] == held[i]);
                } else {
                    assert(rest[i] == held[i + 1]);
                }
            }
        }
    }
}

/// The mod-2 rule: a position is in the boundary of a list of lines exactly when it is the end of
/// an odd number of them, and it is there once.
pub proof fn law_an_even_number_of_ends_cancels(points: Seq<Coord>, c: Coord)
    requires
        are_numeric(points),
    ensures
        occurrences(cancelled(points), c) == occurrences(points, c) % 2,
    decreases points.len(),
{
    if points.len() > 0 {
        let front = points.drop_last();
        let p = points.last();
        assert(p == points[points.len() - 1]);
        assert forall|i: int| 0 <= i < front.len() implies !number::is_nan(
            (#[trigger] front[i]).x,
        ) && !number::is_nan(front[i].y) by {
            assert(front[i] == points[i]);
        }
        law_an_even_number_of_ends_cancels(front, c);
        lemma_cancelled_numeric(front);
        let held = cancelled(front);
        let at = same_from(held, p, 0);
        lemma_same_from(held, p, 0);
        if at < held.len() {
            lemma_occurrences_remove(held, at, c);
            assert(held[at].is_same(p));
            assert(held[at].is_same(c) == p.is_same(c));
        } else {
            assert(held.push(p).drop_last() =~= held);
            if p.is_same(c) {
                assert forall|i: int| 0 <= i < held.len() implies !(#[trigger] held[i]).is_same(
                    c,
                ) by {
                    assert(!held[i].is_same(p));
                }
                lemma_occurrences_none(held, c);
            }
        }
    }
}

/// A closed line has an empty boundary, and so has a point.
pub proof fn law_a_closed_line_has_no_boundary(line: Seq<Coord>, c: Coord)
    requires
        is_closed_path(line),
    ensures
        boundary(GeometryView::LineString(line)) == GeometryView::MultiPoint(Seq::empty()),
        boundary(GeometryView::Point(c)) == GeometryView::MultiPoint(Seq::empty()),
{
}

/// True when every ring of a polygon ends where it starts.
pub open spec fn is_closed_polygon(polygon: PolygonView) -> bool {
    &&& is_closed_path(polygon.exterior)
    &&& forall|i: int|
        0 <= i < polygon.interiors.len() ==> is_closed_path(#[trigger] polygon.interiors[i])
}

/// True when every ring of a geometry that is turned round ends where it starts.
pub open spec fn has_closed_rings(geom: GeometryView) -> bool {
    match geom {
        GeometryView::Polygon(polygon) => is_closed_polygon(polygon),
        GeometryView::MultiPolygon(polygons) => forall|i: int|
            0 <= i < polygons.len() ==> is_closed_polygon(#[trigger] polygons[i]),
        _ => true,
    }
}

proof fn lemma_turned_ring(ring: Seq<Coord>)
    requires
        is_closed_path(ring),
    ensures
        is_closed_path(ring.reverse()),
        closing(ring.reverse()) == ring.reverse(),
        ring.reverse().reverse() == ring,
{
    assert(ring.reverse().reverse() =~= ring);
    if ring.len() > 0 {
        assert(ring.reverse()[0] == ring.last());
        assert(ring.reverse().last() == ring[0]);
    }
}

proof fn lemma_turned_polygon(polygon: PolygonView)
    requires
        is_closed_polygon(polygon),
    ensures
        is_closed_polygon(turned_polygon(polygon)),
        turned_polygon(turned_polygon(polygon)) == polygon,
{
    let once = turned_polygon(polygon);
    lemma_turned_ring(polygon.exterior);
    assert forall|i: int| 0 <= i < polygon.interiors.len() implies is_closed_path(
        #[trigger] once.interiors[i],
    ) && once.interiors[i] == polygon.interiors[i].reverse() by {
        lemma_turned_ring(polygon.interiors[i]);
    }
    let twice = turned_polygon(once);
    lemma_turned_ring(once.exterior);
    assert forall|i: int| 0 <= i < polygon.interiors.len() implies #[trigger] twice.interiors[i]
        == polygon.interiors[i] by {
        assert(once.interiors[i] == polygon.interiors[i].reverse());
        lemma_turned_ring(polygon.interiors[i]);
        lemma_turned_ring(once.interiors[i]);
    }
    assert(twice.interiors =~= polygon.interiors);
}

/// `ST_Reverse` undoes itself, where every ring ends where it starts.
pub proof fn law_reversing_twice_changes_nothing(geom: GeometryView)
    requires
        has_closed_rings(geom),
    ensures
        turned(turned(geom)) == geom,
{
    match geom {
        GeometryView::LineString(line) => {
            assert(line.reverse().reverse() =~= line);
        },
        GeometryView::MultiLineString(lines) => {
            let twice = turned(turned(geom))->MultiLineString_0;
            assert forall|i: int| 0 <= i < lines.len() implies #[trigger] twice[i] == lines[i] by {
                assert(lines[i].reverse().reverse() =~= lines[i]);
            }
            assert(twice =~= lines);
        },
        GeometryView::Polygon(polygon) => {
            lemma_turned_polygon(polygon);
        },
        GeometryView::MultiPolygon(polygons) => {
            let twice = turned(turned(geom))->MultiPolygon_0;
            assert forall|i: int| 0 <= i < polygons.len() implies #[trigger] twice[i]
                == polygons[i] by {
                lemma_turned_polygon(polygons[i]);
            }
            assert(twice =~= polygons);
        },
        _ => {},
    }
}

/// An overlay with a geometry that has no area gives nothing.
pub proof fn law_an_overlay_needs_two_areas<
    F: Fn(Overlay, &Vec<Polygon>, &Vec<Polygon>) -> Vec<Polygon>,
>(
    overlay: F,
    operation: Overlay,
    left: GeometryView,
    right: GeometryView,
    out: Option<GeometryView>,
)
    requires
        is_overlay(overlay, operation, left, right, out),
    ensures
        out is Some <==> area_of(left) is Some && area_of(right) is Some,
{
}

} // verus!
