//! Two-dimensional bounding boxes.
//!
//! A box test costs four comparisons. An exact topology test builds a graph. So every predicate
//! runs the box test first and asks for the exact test only on the rows that survive.

use vstd::prelude::*;
use crate::column::{
    offsets_fit, paths_at, raw_polygon_at, settled, settled_parts, BodyView, Column, ColumnView,
    CoordBufferView,
};
use crate::error::Error;
use crate::geometry::{
    closing, geometries_view, lemma_collection_view, lines_view, polygons_view, Coord, Geometry,
    GeometryView, Polygon, PolygonView,
};
use crate::lists::{lemma_flatten_all, lemma_flatten_none, lemma_flatten_step};
use crate::materialize::{row_runs, run_of};
use crate::number;

verus! {

/// An axis-aligned bounding box in the XY plane.
///
/// Higher dimensions are ignored. PostGIS `&&` and the standard predicates are 2D operators.
#[derive(Debug, Clone, Copy, PartialEq, Eq, Structural, Hash)]
pub struct Bbox {
    /// Lowest x value.
    pub minx: u64,
    /// Lowest y value.
    pub miny: u64,
    /// Highest x value.
    pub maxx: u64,
    /// Highest y value.
    pub maxy: u64,
}

impl Bbox {
    /// The inverted box. See [`Bbox::empty`].
    pub open spec fn blank() -> Bbox {
        Bbox {
            minx: number::INFINITY,
            miny: number::INFINITY,
            maxx: number::NEG_INFINITY,
            maxy: number::NEG_INFINITY,
        }
    }

    /// True when the box holds no coordinate: its bounds are the wrong way round.
    pub open spec fn is_void(self) -> bool {
        number::is_lt(self.maxx, self.minx)
    }

    /// True when neither box is void and the two overlap or touch.
    pub open spec fn meets(self, other: Bbox) -> bool {
        &&& !self.is_void()
        &&& !other.is_void()
        &&& number::is_le(self.minx, other.maxx)
        &&& number::is_le(other.minx, self.maxx)
        &&& number::is_le(self.miny, other.maxy)
        &&& number::is_le(other.miny, self.maxy)
    }

    /// True when neither box is void and this one holds every point of the other.
    pub open spec fn holds(self, other: Bbox) -> bool {
        &&& !self.is_void()
        &&& !other.is_void()
        &&& number::is_le(self.minx, other.minx)
        &&& number::is_le(other.maxx, self.maxx)
        &&& number::is_le(self.miny, other.miny)
        &&& number::is_le(other.maxy, self.maxy)
    }

    /// Equality of the four bounds as numbers.
    pub open spec fn is_same(self, other: Bbox) -> bool {
        &&& number::is_eq(self.minx, other.minx)
        &&& number::is_eq(self.miny, other.miny)
        &&& number::is_eq(self.maxx, other.maxx)
        &&& number::is_eq(self.maxy, other.maxy)
    }

    /// The box that also holds the box `other`. A NaN never replaces a bound.
    pub open spec fn joined(self, other: Bbox) -> Bbox {
        Bbox {
            minx: if number::is_lt(other.minx, self.minx) {
                other.minx
            } else {
                self.minx
            },
            miny: if number::is_lt(other.miny, self.miny) {
                other.miny
            } else {
                self.miny
            },
            maxx: if number::is_lt(self.maxx, other.maxx) {
                other.maxx
            } else {
                self.maxx
            },
            maxy: if number::is_lt(self.maxy, other.maxy) {
                other.maxy
            } else {
                self.maxy
            },
        }
    }

    /// The box of one coordinate.
    pub open spec fn at(c: Coord) -> Bbox {
        Bbox { minx: c.x, miny: c.y, maxx: c.x, maxy: c.y }
    }

    /// An inverted box. It intersects nothing, not even itself.
    ///
    /// Null rows and empty geometries both take this value. That makes the box test the null test
    /// as well, so the inner loop needs no extra branch.
    pub fn empty() -> (r: Bbox)
        ensures
            r == Bbox::blank(),
    {
        Bbox {
            minx: number::INFINITY,
            miny: number::INFINITY,
            maxx: number::NEG_INFINITY,
            maxy: number::NEG_INFINITY,
        }
    }

    /// Returns true when this box holds no coordinate.
    pub fn is_empty(&self) -> (r: bool)
        ensures
            r == self.is_void(),
    {
        number::lt(self.maxx, self.minx)
    }

    /// Returns true when the two boxes overlap or touch.
    ///
    /// This is the PostGIS `&&` operator. An empty box returns false against every input.
    pub fn intersects(&self, other: &Bbox) -> (r: bool)
        ensures
            r == self.meets(*other),
    {
        !self.is_empty() && !other.is_empty() && number::le(self.minx, other.maxx) && number::le(
            other.minx,
            self.maxx,
        ) && number::le(self.miny, other.maxy) && number::le(other.miny, self.maxy)
    }

    /// Grow this box to hold the coordinate.
    ///
    /// A NaN coordinate fails every comparison, so it never changes the box.
    pub fn push_xy(&mut self, x: u64, y: u64)
        ensures
            *final(self) == old(self).joined(Bbox::at(Coord { x, y })),
    {
        if number::lt(x, self.minx) {
            self.minx = x;
        }
        if number::lt(self.maxx, x) {
            self.maxx = x;
        }
        if number::lt(y, self.miny) {
            self.miny = y;
        }
        if number::lt(self.maxy, y) {
            self.maxy = y;
        }
    }

    /// Returns true when this box holds every point of the other box.
    ///
    /// An empty box is contained by nothing and contains nothing.
    pub fn contains(&self, other: &Bbox) -> (r: bool)
        ensures
            r == self.holds(*other),
    {
        !self.is_empty() && !other.is_empty() && number::le(self.minx, other.minx) && number::le(
            other.maxx,
            self.maxx,
        ) && number::le(self.miny, other.miny) && number::le(other.maxy, self.maxy)
    }

    /// Equality of the four bounds as numbers.
    pub fn same(&self, other: &Bbox) -> (r: bool)
        ensures
            r == self.is_same(*other),
    {
        number::eq(self.minx, other.minx) && number::eq(self.miny, other.miny) && number::eq(
            self.maxx,
            other.maxx,
        ) && number::eq(self.maxy, other.maxy)
    }

    /// What [`Bbox::expand`] gives, over the sums that the two closures computed.
    pub open spec fn is_expanded<M, P>(self, radius: u64, minus: M, plus: P, r: Bbox) -> bool where
        M: Fn(u64, u64) -> u64,
        P: Fn(u64, u64) -> u64,
     {
        if self.is_void() {
            r == self
        } else {
            &&& minus.ensures((self.minx, radius), r.minx)
            &&& minus.ensures((self.miny, radius), r.miny)
            &&& plus.ensures((self.maxx, radius), r.maxx)
            &&& plus.ensures((self.maxy, radius), r.maxy)
        }
    }

    /// Grow this box by `radius` on every side. An empty box stays as it is.
    ///
    /// This is the prefilter for `ST_DWithin`: a geometry further than `radius` from this box
    /// cannot be within `radius` of its contents. The caller supplies the difference and the sum
    /// of two numbers.
    pub fn expand<M, P>(&self, radius: u64, minus: &M, plus: &P) -> (r: Bbox) where
        M: Fn(u64, u64) -> u64,
        P: Fn(u64, u64) -> u64,

        requires
            forall|a: u64, b: u64| #[trigger] minus.requires((a, b)),
            forall|a: u64, b: u64| #[trigger] plus.requires((a, b)),
        ensures
            self.is_expanded(radius, *minus, *plus, r),
    {
        if self.is_empty() {
            return *self;
        }
        Bbox {
            minx: minus(self.minx, radius),
            miny: minus(self.miny, radius),
            maxx: plus(self.maxx, radius),
            maxy: plus(self.maxy, radius),
        }
    }

    /// Grow this box to hold the other box.
    pub fn merge(&mut self, other: &Bbox)
        ensures
            *final(self) == old(self).joined(*other),
    {
        if number::lt(other.minx, self.minx) {
            self.minx = other.minx;
        }
        if number::lt(self.maxx, other.maxx) {
            self.maxx = other.maxx;
        }
        if number::lt(other.miny, self.miny) {
            self.miny = other.miny;
        }
        if number::lt(self.maxy, other.maxy) {
            self.maxy = other.maxy;
        }
    }
}

impl Default for Bbox {
    fn default() -> (r: Bbox)
        ensures
            r == Bbox::blank(),
    {
        Bbox::empty()
    }
}

// ------------------------------------------------------- the box of a geometry
/// The box `start`, grown by each coordinate in turn.
pub open spec fn grown(start: Bbox, coords: Seq<Coord>) -> Bbox
    decreases coords.len(),
{
    if coords.len() == 0 {
        start
    } else {
        grown(start, coords.drop_last()).joined(Bbox::at(coords.last()))
    }
}

/// The box of a list of coordinates.
pub open spec fn box_over(coords: Seq<Coord>) -> Bbox {
    grown(Bbox::blank(), coords)
}

/// The shells of a list of polygons.
pub open spec fn shells(polygons: Seq<PolygonView>) -> Seq<Seq<Coord>> {
    Seq::new(polygons.len(), |i: int| polygons[i].exterior)
}

/// The coordinates that decide the box of a geometry.
///
/// Of a polygon only the shell matters: every hole lies inside it. A box gives its two corners.
pub open spec fn outline(geom: GeometryView) -> Seq<Coord>
    decreases geom,
{
    match geom {
        GeometryView::Point(c) => seq![c],
        GeometryView::Line(a, b) => seq![a, b],
        GeometryView::LineString(line) => line,
        GeometryView::Polygon(polygon) => polygon.exterior,
        GeometryView::MultiPoint(points) => points,
        GeometryView::MultiLineString(lines) => lines.flatten(),
        GeometryView::MultiPolygon(polygons) => shells(polygons).flatten(),
        GeometryView::GeometryCollection(parts) => outlines(parts).flatten(),
        GeometryView::Rect(min, max) => seq![min, max],
        GeometryView::Triangle(a, b, c) => seq![a, b, c],
    }
}

/// The outline of each part of a collection.
pub open spec fn outlines(parts: Seq<GeometryView>) -> Seq<Seq<Coord>>
    decreases parts,
{
    Seq::new(
        parts.len(),
        |i: int|
            if 0 <= i < parts.len() {
                outline(parts[i])
            } else {
                Seq::empty()
            },
    )
}

/// Growing by two lists is growing by the first and then by the second.
pub proof fn lemma_grown_concat(start: Bbox, a: Seq<Coord>, b: Seq<Coord>)
    ensures
        grown(start, a + b) == grown(grown(start, a), b),
    decreases b.len(),
{
    if b.len() == 0 {
        assert(a + b =~= a);
    } else {
        lemma_grown_concat(start, a, b.drop_last());
        assert((a + b).drop_last() =~= a + b.drop_last());
    }
}

/// Growing by one coordinate.
pub proof fn lemma_grown_push(start: Bbox, a: Seq<Coord>, c: Coord)
    ensures
        grown(start, a.push(c)) == grown(start, a).joined(Bbox::at(c)),
{
    assert(a.push(c).drop_last() =~= a);
}

/// Compute the bounding box of one geometry.
pub fn bbox_of(geom: &Geometry) -> (r: Bbox)
    ensures
        r == box_over(outline(geom@)),
{
    let mut bbox = Bbox::empty();
    push_geometry(&mut bbox, geom);
    bbox
}

fn push_coord(bbox: &mut Bbox, coord: &Coord)
    ensures
        *final(bbox) == old(bbox).joined(Bbox::at(*coord)),
        *final(bbox) == grown(*old(bbox), seq![*coord]),
{
    bbox.push_xy(coord.x, coord.y);
    proof {
        reveal_with_fuel(grown, 2);
        assert(seq![*coord].drop_last() =~= Seq::empty());
    }
}

fn push_line_string(bbox: &mut Bbox, line: &Vec<Coord>)
    ensures
        *final(bbox) == grown(*old(bbox), line@),
{
    for i in 0..line.len()
        invariant
            *bbox == grown(*old(bbox), line@.take(i as int)),
    {
        push_coord(bbox, &line[i]);
        proof {
            assert(line@.take(i + 1) =~= line@.take(i as int).push(line@[i as int]));
            lemma_grown_push(*old(bbox), line@.take(i as int), line@[i as int]);
        }
    }
    assert(line@.take(line@.len() as int) =~= line@);
}

/// Only the exterior ring matters. Every interior ring lies inside it.
fn push_polygon(bbox: &mut Bbox, polygon: &Polygon)
    ensures
        *final(bbox) == grown(*old(bbox), polygon@.exterior),
{
    push_line_string(bbox, &polygon.exterior);
}

fn push_geometry(bbox: &mut Bbox, geom: &Geometry)
    ensures
        *final(bbox) == grown(*old(bbox), outline(geom@)),
    decreases geom,
{
    let ghost start = *bbox;
    match geom {
        Geometry::Point(c) => push_coord(bbox, c),
        Geometry::LineString(line) => push_line_string(bbox, line),
        Geometry::Polygon(polygon) => push_polygon(bbox, polygon),
        Geometry::MultiPoint(points) => push_line_string(bbox, points),
        Geometry::MultiLineString(lines) => {
            let ghost lists = lines_view(lines@);
            proof {
                lemma_flatten_none(lists);
            }
            for i in 0..lines.len()
                invariant
                    lists == lines_view(lines@),
                    *bbox == grown(start, lists.take(i as int).flatten()),
            {
                push_line_string(bbox, &lines[i]);
                proof {
                    lemma_flatten_step(lists, i as int);
                    lemma_grown_concat(start, lists.take(i as int).flatten(), lists[i as int]);
                }
            }
            proof {
                lemma_flatten_all(lists);
            }
        },
        Geometry::MultiPolygon(polygons) => {
            let ghost lists = shells(polygons_view(polygons@));
            proof {
                lemma_flatten_none(lists);
            }
            for i in 0..polygons.len()
                invariant
                    lists == shells(polygons_view(polygons@)),
                    *bbox == grown(start, lists.take(i as int).flatten()),
            {
                push_polygon(bbox, &polygons[i]);
                proof {
                    lemma_flatten_step(lists, i as int);
                    lemma_grown_concat(start, lists.take(i as int).flatten(), lists[i as int]);
                }
            }
            proof {
                lemma_flatten_all(lists);
            }
        },
        Geometry::GeometryCollection(parts) => {
            let ghost views = geometries_view(parts@);
            let ghost lists = outlines(views);
            proof {
                lemma_flatten_none(lists);
            }
            for i in 0..parts.len()
                invariant
                    *geom == Geometry::GeometryCollection(*parts),
                    views == geometries_view(parts@),
                    lists == outlines(views),
                    *bbox == grown(start, lists.take(i as int).flatten()),
            {
                proof {
                    assert(decreases_to!(*parts => parts[i as int]));
                    assert(decreases_to!(*geom => geom->GeometryCollection_0));
                }
                push_geometry(bbox, &parts[i]);
                proof {
                    reveal_with_fuel(outlines, 2);
                    lemma_flatten_step(lists, i as int);
                    lemma_grown_concat(start, lists.take(i as int).flatten(), lists[i as int]);
                }
            }
            proof {
                lemma_flatten_all(lists);
                lemma_collection_view(*parts);
            }
        },
        Geometry::Rect(min, max) => {
            push_coord(bbox, min);
            push_coord(bbox, max);
            proof {
                lemma_grown_concat(start, seq![*min], seq![*max]);
                assert(seq![*min] + seq![*max] =~= seq![*min, *max]);
            }
        },
        Geometry::Triangle(a, b, c) => {
            push_coord(bbox, a);
            push_coord(bbox, b);
            push_coord(bbox, c);
            proof {
                lemma_grown_concat(start, seq![*a], seq![*b]);
                lemma_grown_concat(start, seq![*a] + seq![*b], seq![*c]);
                assert(seq![*a] + seq![*b] + seq![*c] =~= seq![*a, *b, *c]);
            }
        },
        Geometry::Line(a, b) => {
            push_coord(bbox, a);
            push_coord(bbox, b);
            proof {
                lemma_grown_concat(start, seq![*a], seq![*b]);
                assert(seq![*a] + seq![*b] =~= seq![*a, *b]);
            }
        },
    }
}

// -------------------------------------------------------- the boxes of a column
/// The box of a row.
///
/// A null row takes the inverted box. A native row takes the box of its coordinate run, and a row
/// without a run the box of its outline. So an empty geometry takes the inverted box too.
pub open spec fn box_at(array: ColumnView, i: int) -> Bbox {
    if array.is_null(i) {
        Bbox::blank()
    } else {
        match array.body.coords() {
            Some(coords) => {
                let (start, end) = run_of(array.body, i)->0;
                box_over(coords.run(start, end))
            },
            None => box_over(outline(array.body.raw(i)->0)),
        }
    }
}

/// Fill `out` with one bounding box per row.
///
/// The vector is cleared first. Pass the same vector across batches to reuse its allocation.
///
/// A null row and an empty geometry take the inverted box.
pub fn fill_bboxes(array: &Column, out: &mut Vec<Bbox>) -> (r: Result<(), Error>)
    requires
        array.wf(),
    ensures
        match r {
            Ok(()) => {
                &&& !array@.has_broken(array.rows())
                &&& final(out)@ == Seq::new(array.rows() as nat, |i: int| box_at(array@, i))
            },
            Err(error) => array@.has_broken(array.rows()) && error == Error::Undecodable,
        },
{
    out.clear();
    let rows: usize = array.len();
    let mut i: usize = 0;
    // Fast path. Every native type stores the coordinates of a row in one contiguous range.
    match row_runs(array) {
        Some(runs) => {
            while i < rows
                invariant
                    i <= rows,
                    array.wf(),
                    rows == array.rows(),
                    runs.wf(),
                    runs.rows() == rows,
                    array@.body.coords() == Some(runs.coords@),
                    forall|j: int| #[trigger] run_of(array@.body, j) == Some(runs.run(j)),
                    out@.len() == i,
                    forall|j: int| 0 <= j < i ==> #[trigger] out@[j] == box_at(array@, j),
                decreases rows - i,
            {
                let bbox = if array.null_at(i) {
                    Bbox::empty()
                } else {
                    let (start, end) = runs.range(i);
                    assert(run_of(array@.body, i as int) == Some(runs.run(i as int)));
                    runs.coords.bounds(start, end)
                };
                out.push(bbox);
                i = i + 1;
            }
            proof {
                assert forall|j: int| 0 <= j < rows implies !#[trigger] array@.is_broken(j) by {}
            }
        },
        None => {
            while i < rows
                invariant
                    i <= rows,
                    array.wf(),
                    rows == array.rows(),
                    array@.body.coords() is None,
                    out@.len() == i,
                    forall|j: int|
                        0 <= j < i ==> #[trigger] out@[j] == box_at(array@, j)
                            && !array@.is_broken(j),
                decreases rows - i,
            {
                if array.null_at(i) {
                    out.push(Bbox::empty());
                } else {
                    match array.raw_geometry(i) {
                        Some(geom) => out.push(bbox_of(&geom)),
                        None => {
                            assert(array@.is_broken(i as int));
                            return Err(Error::Undecodable);
                        },
                    }
                }
                i = i + 1;
            }
            proof {
                assert forall|j: int| 0 <= j < rows implies !#[trigger] array@.is_broken(j) by {
                    assert(out@[j] == box_at(array@, j));
                }
            }
        },
    }
    assert(out@ =~= Seq::new(array.rows() as nat, |i: int| box_at(array@, i)));
    Ok(())
}

// ------------------------------------------------------------------------ laws
impl Bbox {
    /// True when no bound is a NaN.
    pub open spec fn is_numeric(self) -> bool {
        &&& !number::is_nan(self.minx)
        &&& !number::is_nan(self.miny)
        &&& !number::is_nan(self.maxx)
        &&& !number::is_nan(self.maxy)
    }

    /// True when this box holds the coordinate, on each axis where it is a number.
    pub open spec fn encloses(self, c: Coord) -> bool {
        &&& !number::is_nan(c.x) ==> number::is_le(self.minx, c.x) && number::is_le(c.x, self.maxx)
        &&& !number::is_nan(c.y) ==> number::is_le(self.miny, c.y) && number::is_le(c.y, self.maxy)
    }
}

/// Growing a box keeps it free of NaN, and never lets go of what the box held.
pub proof fn law_growing_keeps_what_it_holds(start: Bbox, coords: Seq<Coord>, c: Coord)
    requires
        start.is_numeric(),
        start.encloses(c),
    ensures
        grown(start, coords).is_numeric(),
        grown(start, coords).encloses(c),
    decreases coords.len(),
{
    if coords.len() > 0 {
        law_growing_keeps_what_it_holds(start, coords.drop_last(), c);
    }
}

/// The box of a list of coordinates encloses each of them.
pub proof fn law_box_encloses_its_coordinates(coords: Seq<Coord>, i: int)
    requires
        0 <= i < coords.len(),
    ensures
        box_over(coords).encloses(coords[i]),
    decreases coords.len(),
{
    law_growing_keeps_what_it_holds(
        Bbox::blank(),
        coords.drop_last(),
        Coord { x: number::NAN, y: number::NAN },
    );
    if i < coords.len() - 1 {
        law_box_encloses_its_coordinates(coords.drop_last(), i);
        assert(coords.drop_last()[i] == coords[i]);
    }
}

/// Each bound of a box comes from one of its coordinates, or is the bound of the inverted box.
pub proof fn law_box_is_tight(coords: Seq<Coord>)
    ensures
        ({
            let b = box_over(coords);
            &&& b.minx == number::INFINITY || exists|i: int|
                0 <= i < coords.len() && #[trigger] coords[i].x == b.minx
            &&& b.miny == number::INFINITY || exists|i: int|
                0 <= i < coords.len() && #[trigger] coords[i].y == b.miny
            &&& b.maxx == number::NEG_INFINITY || exists|i: int|
                0 <= i < coords.len() && #[trigger] coords[i].x == b.maxx
            &&& b.maxy == number::NEG_INFINITY || exists|i: int|
                0 <= i < coords.len() && #[trigger] coords[i].y == b.maxy
        }),
    decreases coords.len(),
{
    if coords.len() > 0 {
        let front = coords.drop_last();
        law_box_is_tight(front);
        let f = box_over(front);
        let b = box_over(coords);
        let last = coords.len() - 1;
        assert(coords[last] == coords.last());
        if b.minx == f.minx && f.minx != number::INFINITY {
            let i = choose|i: int| 0 <= i < front.len() && #[trigger] front[i].x == f.minx;
            assert(coords[i].x == b.minx);
        }
        if b.miny == f.miny && f.miny != number::INFINITY {
            let i = choose|i: int| 0 <= i < front.len() && #[trigger] front[i].y == f.miny;
            assert(coords[i].y == b.miny);
        }
        if b.maxx == f.maxx && f.maxx != number::NEG_INFINITY {
            let i = choose|i: int| 0 <= i < front.len() && #[trigger] front[i].x == f.maxx;
            assert(coords[i].x == b.maxx);
        }
        if b.maxy == f.maxy && f.maxy != number::NEG_INFINITY {
            let i = choose|i: int| 0 <= i < front.len() && #[trigger] front[i].y == f.maxy;
            assert(coords[i].y == b.maxy);
        }
    }
}

/// A coordinate with a NaN ordinate leaves the bounds of that axis alone.
pub proof fn law_nan_never_changes_a_bound(bbox: Bbox, c: Coord)
    ensures
        number::is_nan(c.x) ==> bbox.joined(Bbox::at(c)).minx == bbox.minx && bbox.joined(
            Bbox::at(c),
        ).maxx == bbox.maxx,
        number::is_nan(c.y) ==> bbox.joined(Bbox::at(c)).miny == bbox.miny && bbox.joined(
            Bbox::at(c),
        ).maxy == bbox.maxy,
{
}

/// Overlap is symmetric.
pub proof fn law_meets_is_symmetric(a: Bbox, b: Bbox)
    ensures
        a.meets(b) == b.meets(a),
{
}

/// An empty box meets nothing, not even itself.
pub proof fn law_an_empty_box_meets_nothing(a: Bbox, b: Bbox)
    requires
        a.is_void(),
    ensures
        !a.meets(b),
        !b.meets(a),
        !a.meets(a),
        Bbox::blank().is_void(),
{
}

/// A void box neither contains a box nor is contained by one.
pub proof fn law_a_void_box_contains_nothing(a: Bbox, b: Bbox)
    requires
        a.is_void(),
    ensures
        !a.holds(b),
        !b.holds(a),
{
}

/// Containment is transitive.
pub proof fn law_containment_is_transitive(a: Bbox, b: Bbox, c: Bbox)
    requires
        a.holds(b),
        b.holds(c),
    ensures
        a.holds(c),
{
}

/// A box that contains another overlaps it, when the inner box is not inverted in y.
pub proof fn law_containment_implies_overlap(a: Bbox, b: Bbox)
    requires
        a.holds(b),
        number::is_le(b.miny, b.maxy),
    ensures
        a.meets(b),
{
}

/// The merge of two boxes contains both, when neither is void.
pub proof fn law_merge_contains_both(a: Bbox, b: Bbox)
    requires
        a.is_numeric(),
        b.is_numeric(),
        !a.is_void(),
        !b.is_void(),
    ensures
        a.joined(b).holds(a),
        a.joined(b).holds(b),
{
}

/// The order of a merge does not matter, up to the sign of a zero.
pub proof fn law_merge_is_commutative(a: Bbox, b: Bbox)
    requires
        a.is_numeric(),
        b.is_numeric(),
    ensures
        a.joined(b).is_same(b.joined(a)),
{
}

/// The grouping of merges does not matter.
pub proof fn law_merge_is_associative(a: Bbox, b: Bbox, c: Bbox)
    requires
        a.is_numeric(),
        b.is_numeric(),
        c.is_numeric(),
    ensures
        a.joined(b).joined(c) == a.joined(b.joined(c)),
{
}

/// A merge with the inverted box changes nothing.
pub proof fn law_the_inverted_box_is_neutral(a: Bbox)
    requires
        a.is_numeric(),
    ensures
        a.joined(Bbox::blank()) == a,
        Bbox::blank().joined(a).is_same(a),
{
}

/// The box of two lists together is the merge of the two boxes.
pub proof fn law_the_box_of_two_lists_is_the_merge(a: Seq<Coord>, b: Seq<Coord>)
    ensures
        box_over(a + b) == box_over(a).joined(box_over(b)),
    decreases b.len(),
{
    let nowhere = Coord { x: number::NAN, y: number::NAN };
    law_growing_keeps_what_it_holds(Bbox::blank(), a, nowhere);
    if b.len() == 0 {
        assert(a + b =~= a);
    } else {
        law_the_box_of_two_lists_is_the_merge(a, b.drop_last());
        law_growing_keeps_what_it_holds(Bbox::blank(), b.drop_last(), nowhere);
        assert((a + b).drop_last() =~= a + b.drop_last());
    }
}

// ------------------------------------------------------------- the grown box
impl Bbox {
    /// True when every bound is a number other than an infinity.
    pub open spec fn is_bounded(self) -> bool {
        &&& number::is_finite(self.minx)
        &&& number::is_finite(self.miny)
        &&& number::is_finite(self.maxx)
        &&& number::is_finite(self.maxy)
    }

    /// True when a box reaches as far as this one and the radius more, on every side. It does where
    /// the sums and differences were exact.
    pub open spec fn is_reached(self, radius: u64, wide: Bbox) -> bool {
        &&& number::units(wide.minx) <= number::units(self.minx) - number::units(radius)
        &&& number::units(wide.miny) <= number::units(self.miny) - number::units(radius)
        &&& number::units(wide.maxx) >= number::units(self.maxx) + number::units(radius)
        &&& number::units(wide.maxy) >= number::units(self.maxy) + number::units(radius)
    }
}

/// True when two finite positions are no further apart than the distance.
pub open spec fn is_apart(p: Coord, q: Coord, distance: u64) -> bool {
    let dx = number::units(p.x) - number::units(q.x);
    let dy = number::units(p.y) - number::units(q.y);
    let d = number::units(distance);
    0 <= d && dx * dx + dy * dy <= d * d
}

/// The prefilter of `ST_DWithin` drops no match: where a point of one box is within the radius of a
/// point of the other, the grown box meets the other box.
pub proof fn law_a_near_point_is_in_the_grown_box<M, P>(
    left: Bbox,
    right: Bbox,
    radius: u64,
    minus: M,
    plus: P,
    wide: Bbox,
    p: Coord,
    q: Coord,
    distance: u64,
) where M: Fn(u64, u64) -> u64, P: Fn(u64, u64) -> u64
    requires
        left.is_expanded(radius, minus, plus, wide),
        left.is_bounded(),
        right.is_bounded(),
        wide.is_bounded(),
        left.is_reached(radius, wide),
        number::is_finite(p.x) && number::is_finite(p.y),
        number::is_finite(q.x) && number::is_finite(q.y),
        left.encloses(p),
        right.encloses(q),
        number::is_finite(distance),
        number::is_finite(radius),
        is_apart(p, q, distance),
        number::is_le(distance, radius),
    ensures
        wide.meets(right),
{
    number::lemma_units_order(left.minx, p.x);
    number::lemma_units_order(p.x, left.maxx);
    number::lemma_units_order(left.miny, p.y);
    number::lemma_units_order(p.y, left.maxy);
    number::lemma_units_order(right.minx, q.x);
    number::lemma_units_order(q.x, right.maxx);
    number::lemma_units_order(right.miny, q.y);
    number::lemma_units_order(q.y, right.maxy);
    number::lemma_units_order(distance, radius);
    number::lemma_units_order(wide.minx, right.maxx);
    number::lemma_units_order(right.minx, wide.maxx);
    number::lemma_units_order(wide.miny, right.maxy);
    number::lemma_units_order(right.miny, wide.maxy);
    number::lemma_units_order(wide.maxx, wide.minx);
    number::lemma_units_order(right.maxx, right.minx);
    let dx = number::units(p.x) - number::units(q.x);
    let dy = number::units(p.y) - number::units(q.y);
    let d = number::units(distance);
    assert(-d <= dx <= d && -d <= dy <= d) by (nonlinear_arith)
        requires
            0 <= d,
            dx * dx + dy * dy <= d * d,
    ;
}

// ------------------------------------------------- a row and its own geometry
/// True when every hole of a polygon lies in the box of its shell.
pub open spec fn is_hole_inside(polygon: PolygonView) -> bool {
    forall|k: int, j: int|
        0 <= k < polygon.interiors.len() && 0 <= j < polygon.interiors[k].len() ==> box_over(
            polygon.exterior,
        ).encloses(#[trigger] polygon.interiors[k][j])
}

/// True when every hole of a geometry lies in the box of its own shell.
pub open spec fn are_holes_inside(geom: GeometryView) -> bool {
    match geom {
        GeometryView::Polygon(polygon) => is_hole_inside(polygon),
        GeometryView::MultiPolygon(polygons) => forall|k: int|
            0 <= k < polygons.len() ==> is_hole_inside(#[trigger] polygons[k]),
        _ => true,
    }
}

/// The box of some coordinates is free of NaN.
proof fn lemma_box_is_numeric(coords: Seq<Coord>)
    ensures
        box_over(coords).is_numeric(),
{
    law_growing_keeps_what_it_holds(
        Bbox::blank(),
        coords,
        Coord { x: number::NAN, y: number::NAN },
    );
}

/// What a box holds does not make it grow.
proof fn lemma_grown_within(start: Bbox, coords: Seq<Coord>)
    requires
        start.is_numeric(),
        forall|j: int| 0 <= j < coords.len() ==> start.encloses(#[trigger] coords[j]),
    ensures
        grown(start, coords) == start,
    decreases coords.len(),
{
    if coords.len() > 0 {
        let front = coords.drop_last();
        assert forall|j: int| 0 <= j < front.len() implies start.encloses(#[trigger] front[j]) by {
            assert(front[j] == coords[j]);
        }
        lemma_grown_within(start, front);
        assert(start.encloses(coords[coords.len() - 1]));
    }
}

/// A run in two pieces.
pub proof fn lemma_run_split(coords: CoordBufferView, a: int, b: int, c: int)
    requires
        a <= b <= c,
    ensures
        coords.run(a, c) == coords.run(a, b) + coords.run(b, c),
{
    assert(coords.run(a, c) =~= coords.run(a, b) + coords.run(b, c));
}

/// The rings of a range lie behind one another.
pub proof fn lemma_paths_flatten(coords: CoordBufferView, offsets: Seq<i32>, first: int, last: int)
    requires
        offsets_fit(offsets, coords.len()),
        0 <= first <= last < offsets.len(),
    ensures
        paths_at(coords, offsets, first, last).flatten() == coords.run(
            offsets[first] as int,
            offsets[last] as int,
        ),
    decreases last - first,
{
    let paths = paths_at(coords, offsets, first, last);
    if first == last {
        assert(paths.len() == 0);
        assert(paths.flatten() =~= coords.run(offsets[first] as int, offsets[last] as int));
    } else {
        lemma_paths_flatten(coords, offsets, first, last - 1);
        let front = paths_at(coords, offsets, first, last - 1);
        assert(offsets[first] <= offsets[last - 1]);
        assert(offsets[last - 1] <= offsets[last]);
        let ring = coords.run(offsets[last - 1] as int, offsets[last] as int);
        assert(paths =~= front.push(ring));
        front.lemma_flatten_push(ring);
        lemma_run_split(
            coords,
            offsets[first] as int,
            offsets[last - 1] as int,
            offsets[last] as int,
        );
    }
}

/// Holes that a box holds do not make it grow.
proof fn lemma_holes_within(start: Bbox, holes: Seq<Seq<Coord>>)
    requires
        start.is_numeric(),
        forall|k: int, j: int|
            0 <= k < holes.len() && 0 <= j < holes[k].len() ==> start.encloses(
                #[trigger] holes[k][j],
            ),
    ensures
        grown(start, holes.flatten()) == start,
    decreases holes.len(),
{
    if holes.len() == 0 {
        assert(holes.flatten().len() == 0);
    } else {
        let front = holes.drop_last();
        let last = holes.last();
        assert forall|k: int, j: int|
            0 <= k < front.len() && 0 <= j < front[k].len() implies start.encloses(
            #[trigger] front[k][j],
        ) by {
            assert(front[k][j] == holes[k][j]);
        }
        lemma_holes_within(start, front);
        assert(holes =~= front.push(last));
        front.lemma_flatten_push(last);
        lemma_grown_concat(start, front.flatten(), last);
        assert forall|j: int| 0 <= j < last.len() implies start.encloses(#[trigger] last[j]) by {
            assert(last[j] == holes[holes.len() - 1][j]);
        }
        lemma_grown_within(start, last);
    }
}

/// Behind some coordinates, a polygon grows a box as its shell alone does.
proof fn lemma_polygon_run(
    before: Seq<Coord>,
    coords: CoordBufferView,
    offsets: Seq<i32>,
    first: int,
    last: int,
)
    requires
        offsets_fit(offsets, coords.len()),
        0 <= first <= last < offsets.len(),
        is_hole_inside(raw_polygon_at(coords, offsets, first, last)),
    ensures
        grown(box_over(before), coords.run(offsets[first] as int, offsets[last] as int)) == grown(
            box_over(before),
            raw_polygon_at(coords, offsets, first, last).exterior,
        ),
{
    let polygon = raw_polygon_at(coords, offsets, first, last);
    if first == last {
        assert(coords.run(offsets[first] as int, offsets[last] as int).len() == 0);
    } else {
        let shell = polygon.exterior;
        let holes = polygon.interiors;
        assert(offsets[first] <= offsets[first + 1]);
        assert(offsets[first + 1] <= offsets[last]);
        lemma_run_split(
            coords,
            offsets[first] as int,
            offsets[first + 1] as int,
            offsets[last] as int,
        );
        lemma_paths_flatten(coords, offsets, first + 1, last);
        lemma_grown_concat(box_over(before), shell, holes.flatten());
        let wide = grown(box_over(before), shell);
        lemma_grown_concat(Bbox::blank(), before, shell);
        law_the_box_of_two_lists_is_the_merge(before, shell);
        lemma_box_is_numeric(before);
        lemma_box_is_numeric(shell);
        lemma_box_is_numeric(before + shell);
        assert forall|k: int, j: int|
            0 <= k < holes.len() && 0 <= j < holes[k].len() implies wide.encloses(
            #[trigger] holes[k][j],
        ) by {
            assert(box_over(shell).encloses(polygon.interiors[k][j]));
        }
        lemma_holes_within(wide, holes);
    }
}

/// The polygons of a range grow a box as their shells alone do.
proof fn lemma_polygons_run(
    coords: CoordBufferView,
    polygon_offsets: Seq<i32>,
    ring_offsets: Seq<i32>,
    first: int,
    count: int,
    polygons: Seq<PolygonView>,
)
    requires
        offsets_fit(ring_offsets, coords.len()),
        offsets_fit(polygon_offsets, ring_offsets.len() - 1),
        0 <= first,
        0 <= count <= polygons.len(),
        first + polygons.len() < polygon_offsets.len(),
        forall|k: int|
            0 <= k < polygons.len() ==> #[trigger] polygons[k] == raw_polygon_at(
                coords,
                ring_offsets,
                polygon_offsets[first + k] as int,
                polygon_offsets[first + k + 1] as int,
            ),
        forall|k: int| 0 <= k < polygons.len() ==> is_hole_inside(#[trigger] polygons[k]),
    ensures
        box_over(
            coords.run(
                ring_offsets[polygon_offsets[first] as int] as int,
                ring_offsets[polygon_offsets[first + count] as int] as int,
            ),
        ) == box_over(shells(polygons).take(count).flatten()),
    decreases count,
{
    let start = ring_offsets[polygon_offsets[first] as int] as int;
    let lists = shells(polygons);
    if count == 0 {
        lemma_flatten_none(lists);
        assert(coords.run(start, start) =~= Seq::<Coord>::empty());
    } else {
        lemma_polygons_run(coords, polygon_offsets, ring_offsets, first, count - 1, polygons);
        let low = polygon_offsets[first + count - 1] as int;
        let high = polygon_offsets[first + count] as int;
        assert(polygon_offsets[first] <= polygon_offsets[first + count - 1]);
        assert(polygon_offsets[first + count - 1] <= polygon_offsets[first + count]);
        assert(polygon_offsets[first + count] <= polygon_offsets[polygon_offsets.len() - 1]);
        assert(0 <= polygon_offsets[0] <= polygon_offsets[first]);
        assert(ring_offsets[polygon_offsets[first] as int] <= ring_offsets[low]);
        assert(ring_offsets[low] <= ring_offsets[high]);
        lemma_run_split(coords, start, ring_offsets[low] as int, ring_offsets[high] as int);
        let before = coords.run(start, ring_offsets[low] as int);
        let polygon = polygons[count - 1];
        assert(is_hole_inside(polygon));
        lemma_polygon_run(before, coords, ring_offsets, low, high);
        lemma_grown_concat(
            Bbox::blank(),
            before,
            coords.run(ring_offsets[low] as int, ring_offsets[high] as int),
        );
        lemma_flatten_step(lists, count - 1);
        lemma_grown_concat(
            Bbox::blank(),
            lists.take(count - 1).flatten(),
            lists[count - 1],
        );
    }
}

/// The box of a row is the box of its value, where every hole lies in the box of its shell.
///
/// The layout of the coordinates makes no difference.
pub proof fn law_a_row_has_the_box_of_its_value(array: ColumnView, i: int)
    requires
        array.wf(),
        0 <= i < array.rows(),
        array.raw(i) is Some,
        are_holes_inside(array.raw(i)->0),
    ensures
        box_at(array, i) == box_over(outline(array.raw(i)->0)),
{
    match array.body {
        BodyView::Point { coords } => {
            assert(coords.run(i, i + 1) =~= seq![coords.coord(i)]);
        },
        BodyView::Polygon { coords, geom_offsets, ring_offsets } => {
            lemma_row_offsets(geom_offsets, i);
            lemma_polygon_run(
                Seq::empty(),
                coords,
                ring_offsets,
                geom_offsets[i] as int,
                geom_offsets[i + 1] as int,
            );
        },
        BodyView::MultiLineString { coords, geom_offsets, ring_offsets } => {
            lemma_row_offsets(geom_offsets, i);
            lemma_paths_flatten(
                coords,
                ring_offsets,
                geom_offsets[i] as int,
                geom_offsets[i + 1] as int,
            );
        },
        BodyView::MultiPolygon { coords, geom_offsets, polygon_offsets, ring_offsets } => {
            lemma_row_offsets(geom_offsets, i);
            let polygons = array.raw(i)->0->MultiPolygon_0;
            lemma_polygons_run(
                coords,
                polygon_offsets,
                ring_offsets,
                geom_offsets[i] as int,
                polygons.len() as int,
                polygons,
            );
            lemma_flatten_all(shells(polygons));
        },
        _ => {},
    }
}

/// The offsets of a row follow one another, and the children have them.
proof fn lemma_row_offsets(offsets: Seq<i32>, i: int)
    requires
        0 <= i < offsets.len() - 1,
        0 <= offsets[0],
        forall|i: int, j: int|
            0 <= i <= j < offsets.len() ==> #[trigger] offsets[i] <= #[trigger] offsets[j],
    ensures
        0 <= offsets[i] <= offsets[i + 1] <= offsets[offsets.len() - 1],
{
    assert(offsets[0] <= offsets[i]);
    assert(offsets[i] <= offsets[i + 1]);
    assert(offsets[i + 1] <= offsets[offsets.len() - 1]);
}

/// Closing a ring that was left open keeps its box.
proof fn lemma_closing_keeps_the_box(ring: Seq<Coord>)
    ensures
        box_over(closing(ring)) == box_over(ring),
{
    if closing(ring) != ring {
        lemma_box_is_numeric(ring);
        law_box_encloses_its_coordinates(ring, 0);
        lemma_grown_push(Bbox::blank(), ring, ring[0]);
    }
}

/// The box of a row is the box of its geometry, where every hole lies in the box of its shell: the
/// rings that are closed in the geometry keep their boxes.
///
/// For a box and a collection it is the same box up to the sign of a zero: the corners of a box are
/// put in order, and of two zeros another one may come first.
pub proof fn law_a_row_has_the_box_of_its_geometry(array: ColumnView, i: int)
    requires
        array.wf(),
        0 <= i < array.rows(),
        array.raw(i) is Some,
        are_holes_inside(array.raw(i)->0),
    ensures
        box_at(array, i).is_same(box_over(outline(array.geometry(i)->0))),
        !(array.raw(i)->0 is Rect) && !(array.raw(i)->0 is GeometryCollection) ==> box_at(array, i)
            == box_over(outline(array.geometry(i)->0)),
{
    law_a_row_has_the_box_of_its_value(array, i);
    lemma_settling_keeps_the_box(array.raw(i)->0);
}

/// Closing the rings of a geometry keeps its box, and so does putting the corners of a box in order,
/// up to the sign of a zero.
proof fn lemma_settling_keeps_the_box(geom: GeometryView)
    ensures
        box_over(outline(geom)).is_same(box_over(outline(settled(geom)))),
        !(geom is Rect) && !(geom is GeometryCollection) ==> box_over(outline(geom)) == box_over(
            outline(settled(geom)),
        ),
    decreases geom, 0nat,
{
    lemma_box_is_numeric(outline(geom));
    match geom {
        GeometryView::Polygon(polygon) => {
            lemma_closing_keeps_the_box(polygon.exterior);
        },
        GeometryView::MultiPolygon(polygons) => {
            let closed = settled(geom)->MultiPolygon_0;
            assert(closed.len() == polygons.len());
            lemma_closed_shells(polygons, closed, polygons.len() as int);
            lemma_flatten_all(shells(polygons));
            lemma_flatten_all(shells(closed));
        },
        GeometryView::Rect(a, b) => {
            let low = settled(geom)->Rect_0;
            let high = settled(geom)->Rect_1;
            lemma_two_corners(a, b);
            lemma_two_corners(low, high);
        },
        GeometryView::GeometryCollection(parts) => {
            reveal_with_fuel(outline, 2);
            reveal_with_fuel(settled, 2);
            lemma_settling_parts(parts, parts.len());
            lemma_flatten_all(outlines(parts));
            lemma_flatten_all(outlines(settled_parts(parts)));
        },
        _ => {},
    }
}

/// The box of two corners.
proof fn lemma_two_corners(a: Coord, b: Coord)
    ensures
        box_over(seq![a, b]) == Bbox::blank().joined(Bbox::at(a)).joined(Bbox::at(b)),
{
    assert(seq![a, b].drop_last() =~= seq![a]);
    assert(seq![a].drop_last() =~= Seq::<Coord>::empty());
    reveal_with_fuel(grown, 3);
}

/// The first parts of a collection keep their box.
proof fn lemma_settling_parts(parts: Seq<GeometryView>, count: nat)
    requires
        count <= parts.len(),
    ensures
        box_over(outlines(parts).take(count as int).flatten()).is_same(
            box_over(outlines(settled_parts(parts)).take(count as int).flatten()),
        ),
    decreases parts, count,
{
    reveal_with_fuel(outlines, 2);
    reveal_with_fuel(settled_parts, 2);
    let a = outlines(parts);
    let b = outlines(settled_parts(parts));
    if count == 0 {
        lemma_flatten_none(a);
        lemma_flatten_none(b);
    } else {
        let last = count - 1;
        lemma_settling_parts(parts, last as nat);
        assert(decreases_to!(parts => parts[last]));
        lemma_settling_keeps_the_box(parts[last]);
        lemma_flatten_step(a, last);
        lemma_flatten_step(b, last);
        law_the_box_of_two_lists_is_the_merge(a.take(last).flatten(), a[last]);
        law_the_box_of_two_lists_is_the_merge(b.take(last).flatten(), b[last]);
        assert(a[last] == outline(parts[last]));
        assert(b[last] == outline(settled(parts[last])));
    }
}

/// Polygons with their rings closed have the same box.
proof fn lemma_closed_shells(polygons: Seq<PolygonView>, closed: Seq<PolygonView>, count: int)
    requires
        polygons.len() == closed.len(),
        0 <= count <= polygons.len(),
        forall|k: int|
            0 <= k < polygons.len() ==> (#[trigger] closed[k]).exterior == closing(
                polygons[k].exterior,
            ),
    ensures
        box_over(shells(polygons).take(count).flatten()) == box_over(
            shells(closed).take(count).flatten(),
        ),
    decreases count,
{
    let a = shells(polygons);
    let b = shells(closed);
    if count == 0 {
        lemma_flatten_none(a);
        lemma_flatten_none(b);
    } else {
        lemma_closed_shells(polygons, closed, count - 1);
        lemma_flatten_step(a, count - 1);
        lemma_flatten_step(b, count - 1);
        law_the_box_of_two_lists_is_the_merge(a.take(count - 1).flatten(), a[count - 1]);
        law_the_box_of_two_lists_is_the_merge(b.take(count - 1).flatten(), b[count - 1]);
        assert(b[count - 1] == closing(a[count - 1])) by {
            assert(closed[count - 1].exterior == closing(polygons[count - 1].exterior));
        }
        lemma_closing_keeps_the_box(a[count - 1]);
    }
}

} // verus!
