//! What boxes and bounds hold.
//!
//! The laws below read a box as the positions between its bounds.

use vstd::prelude::*;
use crate::accessor::{is_ring_verdict, is_simple_verdict, is_sound_search, may_touch, Meeting};
use crate::aggregate::{gathered, merged_boxes, swept, value_box};
use crate::bbox::{
    are_holes_inside, box_over, is_hole_inside, law_box_encloses_its_coordinates, law_box_is_tight,
    law_growing_keeps_what_it_holds, outline, outlines, shells, Bbox,
};
use crate::column::ColumnView;
use crate::constructor::made_box;
use crate::edit::exploded;
use crate::envelope::{bound_at, corners, envelope_at, Bound};
use crate::geometry::{closing, coords_of, polygon_coords, Coord, GeometryView, PolygonView};
use crate::lists::{lemma_flatten_one, lemma_singles};
use crate::number;
use crate::place::is_numeric;

verus! {

// ----------------------------------------------------------------------- boxes
/// True when the bounds of a box are numbers in order.
pub open spec fn is_proper(bbox: Bbox) -> bool {
    number::is_le(bbox.minx, bbox.maxx) && number::is_le(bbox.miny, bbox.maxy)
}

/// True when a position of numbers lies between the bounds of a box.
pub open spec fn is_in(bbox: Bbox, c: Coord) -> bool {
    &&& number::is_le(bbox.minx, c.x) && number::is_le(c.x, bbox.maxx)
    &&& number::is_le(bbox.miny, c.y) && number::is_le(c.y, bbox.maxy)
}

/// Two boxes meet exactly when a position lies in both.
pub proof fn law_boxes_meet_at_a_position(a: Bbox, b: Bbox)
    requires
        is_proper(a),
        is_proper(b),
    ensures
        a.meets(b) == exists|c: Coord| #[trigger] is_in(a, c) && is_in(b, c),
{
    if a.meets(b) {
        let x = if number::is_le(a.minx, b.minx) {
            b.minx
        } else {
            a.minx
        };
        let y = if number::is_le(a.miny, b.miny) {
            b.miny
        } else {
            a.miny
        };
        let c = Coord { x, y };
        assert(is_in(a, c) && is_in(b, c));
    }
}

/// A box holds another exactly when it has every position of it.
pub proof fn law_a_box_holds_every_position(a: Bbox, b: Bbox)
    requires
        is_proper(a),
        is_proper(b),
    ensures
        a.holds(b) == forall|c: Coord| #[trigger] is_in(b, c) ==> is_in(a, c),
{
    let low = Coord { x: b.minx, y: b.miny };
    let high = Coord { x: b.maxx, y: b.maxy };
    assert(is_in(b, low) && is_in(b, high));
    if !a.holds(b) {
        assert(!is_in(a, low) || !is_in(a, high));
    }
}

/// The merge of two boxes is the least box that holds both.
pub proof fn law_a_merge_is_the_least(a: Bbox, b: Bbox, wide: Bbox)
    requires
        is_proper(a),
        is_proper(b),
        is_proper(wide),
    ensures
        a.joined(b).holds(a),
        a.joined(b).holds(b),
        wide.holds(a) && wide.holds(b) ==> wide.holds(a.joined(b)),
{
}

/// The box of some positions is the least box that holds them all.
pub proof fn law_the_box_is_the_least(coords: Seq<Coord>, wide: Bbox)
    requires
        coords.len() > 0,
        forall|i: int| 0 <= i < coords.len() ==> is_numeric(#[trigger] coords[i]),
    ensures
        is_proper(box_over(coords)),
        forall|i: int| 0 <= i < coords.len() ==> is_in(box_over(coords), #[trigger] coords[i]),
        (forall|i: int| 0 <= i < coords.len() ==> is_in(wide, #[trigger] coords[i]))
            ==> wide.holds(box_over(coords)),
{
    let b = box_over(coords);
    assert forall|i: int| 0 <= i < coords.len() implies is_in(b, #[trigger] coords[i]) by {
        law_box_encloses_its_coordinates(coords, i);
    }
    assert(is_in(b, coords[0]));
    if forall|i: int| 0 <= i < coords.len() ==> is_in(wide, #[trigger] coords[i]) {
        law_box_is_tight(coords);
        assert(is_in(wide, coords[0]));
        if b.minx != number::INFINITY {
            let i = choose|i: int| 0 <= i < coords.len() && #[trigger] coords[i].x == b.minx;
            assert(is_in(wide, coords[i]));
        }
        if b.miny != number::INFINITY {
            let i = choose|i: int| 0 <= i < coords.len() && #[trigger] coords[i].y == b.miny;
            assert(is_in(wide, coords[i]));
        }
        if b.maxx != number::NEG_INFINITY {
            let i = choose|i: int| 0 <= i < coords.len() && #[trigger] coords[i].x == b.maxx;
            assert(is_in(wide, coords[i]));
        }
        if b.maxy != number::NEG_INFINITY {
            let i = choose|i: int| 0 <= i < coords.len() && #[trigger] coords[i].y == b.maxy;
            assert(is_in(wide, coords[i]));
        }
    }
}

/// Nothing at all has the inverted box, and it is void.
pub proof fn law_nothing_has_a_void_box()
    ensures
        box_over(Seq::empty()).is_void(),
        forall|c: Coord| is_numeric(c) ==> !#[trigger] is_in(box_over(Seq::empty()), c),
{
}

/// A box grown by a radius reaches the radius further on every side, where the sums are exact.
pub proof fn law_a_grown_box_reaches_further<M, P>(
    bbox: Bbox,
    radius: u64,
    minus: M,
    plus: P,
    wide: Bbox,
) where M: Fn(u64, u64) -> u64, P: Fn(u64, u64) -> u64
    requires
        bbox.is_expanded(radius, minus, plus, wide),
        forall|a: u64, b: u64, d: u64| #[trigger]
            minus.ensures((a, b), d) ==> number::units(d) == number::units(a) - number::units(b),
        forall|a: u64, b: u64, d: u64| #[trigger]
            plus.ensures((a, b), d) ==> number::units(d) == number::units(a) + number::units(b),
        !bbox.is_void(),
    ensures
        bbox.is_reached(radius, wide),
        number::units(bbox.minx) - number::units(wide.minx) == number::units(radius),
        number::units(bbox.miny) - number::units(wide.miny) == number::units(radius),
        number::units(wide.maxx) - number::units(bbox.maxx) == number::units(radius),
        number::units(wide.maxy) - number::units(bbox.maxy) == number::units(radius),
{
}

/// The two corners of a box are those it was made of, the lower one first. They are its bounds.
pub proof fn law_a_made_box_has_its_bounds(xmin: u64, ymin: u64, xmax: u64, ymax: u64)
    requires
        number::is_le(xmin, xmax),
    ensures
        ({
            let bbox = box_of(xmin, ymin, xmax, ymax);
            &&& made_box(Some(xmin), Some(ymin), Some(xmax), Some(ymax)) == corners(bbox)
            &&& corners(bbox) matches Some((low, high)) && {
                &&& low.x == Bound::XMin.of(bbox)
                &&& low.y == Bound::YMin.of(bbox)
                &&& high.x == Bound::XMax.of(bbox)
                &&& high.y == Bound::YMax.of(bbox)
            }
        }),
{
}

/// The box between four bounds.
pub open spec fn box_of(xmin: u64, ymin: u64, xmax: u64, ymax: u64) -> Bbox {
    Bbox { minx: xmin, miny: ymin, maxx: xmax, maxy: ymax }
}

/// The bounds of a row are the least and the greatest ordinates of its positions, each on its axis.
pub proof fn law_the_bounds_are_extremes(array: ColumnView, i: int, k: int)
    requires
        array.wf(),
        0 <= i < array.rows(),
        array.raw(i) is Some,
        are_holes_inside(array.raw(i)->0),
        !(array.body is Rect),
        0 <= k < outline(array.raw(i)->0).len(),
        is_numeric(outline(array.raw(i)->0)[k]),
    ensures
        ({
            let c = outline(array.raw(i)->0)[k];
            &&& bound_at(array, Bound::XMin, i) matches Some(n) && number::is_le(n, c.x)
            &&& bound_at(array, Bound::XMax, i) matches Some(n) && number::is_le(c.x, n)
            &&& bound_at(array, Bound::YMin, i) matches Some(n) && number::is_le(n, c.y)
            &&& bound_at(array, Bound::YMax, i) matches Some(n) && number::is_le(c.y, n)
            &&& bound_at(array, Bound::ZMin, i) is None
            &&& bound_at(array, Bound::ZMax, i) is None
        }),
{
    crate::bbox::law_a_row_has_the_box_of_its_value(array, i);
    law_box_encloses_its_coordinates(outline(array.raw(i)->0), k);
}

/// The bounds of a row of a box column are the ordinates of its corners: the lower ones of the lower
/// corner, the upper ones of the upper corner.
pub proof fn law_a_box_column_gives_its_corners(array: ColumnView, i: int)
    requires
        array.wf(),
        0 <= i < array.rows(),
        array.body is Rect,
        !array.is_null(i),
    ensures
        array.raw(i) matches Some(GeometryView::Rect(lower, upper)) && {
            &&& bound_at(array, Bound::XMin, i) == Some(lower.x)
            &&& bound_at(array, Bound::YMin, i) == Some(lower.y)
            &&& bound_at(array, Bound::XMax, i) == Some(upper.x)
            &&& bound_at(array, Bound::YMax, i) == Some(upper.y)
        },
{
}

/// The envelope of a row with a position encloses every position of its outline.
pub proof fn law_an_envelope_encloses_its_row(array: ColumnView, i: int, k: int)
    requires
        array.wf(),
        0 <= i < array.rows(),
        array.raw(i) is Some,
        are_holes_inside(array.raw(i)->0),
        0 <= k < outline(array.raw(i)->0).len(),
        is_numeric(outline(array.raw(i)->0)[k]),
    ensures
        envelope_at(array, i) matches Some((low, high)) && {
            let c = outline(array.raw(i)->0)[k];
            &&& number::is_le(low.x, c.x) && number::is_le(c.x, high.x)
            &&& number::is_le(low.y, c.y) && number::is_le(c.y, high.y)
        },
{
    crate::bbox::law_a_row_has_the_box_of_its_value(array, i);
    law_box_encloses_its_coordinates(outline(array.raw(i)->0), k);
}

// -------------------------------------------------------------------- outlines
/// The outline of a geometry is that of its parts, one after the other.
pub proof fn law_an_outline_is_that_of_the_parts(geom: GeometryView)
    ensures
        outline(geom) == Seq::new(
            exploded(geom).len(),
            |k: int| outline(exploded(geom)[k]),
        ).flatten(),
{
    let parts = exploded(geom);
    let lists = Seq::new(parts.len(), |k: int| outline(parts[k]));
    match geom {
        GeometryView::MultiPoint(points) => {
            lemma_singles(points);
            assert(lists =~= Seq::new(points.len(), |k: int| seq![points[k]]));
        },
        GeometryView::MultiLineString(lines) => {
            assert(lists =~= lines);
        },
        GeometryView::MultiPolygon(polygons) => {
            assert(lists =~= shells(polygons));
        },
        GeometryView::GeometryCollection(inner) => {
            assert(lists =~= outlines(inner));
        },
        _ => {
            assert(lists =~= seq![outline(geom)]);
            lemma_flatten_one(outline(geom));
        },
    }
}

/// An element of a flattened list is one of its lists.
proof fn lemma_in_flatten<T>(lists: Seq<Seq<T>>, k: int)
    requires
        0 <= k < lists.flatten().len(),
    ensures
        exists|i: int, j: int|
            0 <= i < lists.len() && 0 <= j < lists[i].len() && lists.flatten()[k]
                == #[trigger] lists[i][j],
    decreases lists.len(),
{
    if lists.len() > 0 {
        let front = lists.drop_last();
        assert(lists =~= front.push(lists.last()));
        front.lemma_flatten_push(lists.last());
        if k < front.flatten().len() {
            lemma_in_flatten(front, k);
            let (i, j) = choose|i: int, j: int|
                0 <= i < front.len() && 0 <= j < front[i].len() && front.flatten()[k]
                    == #[trigger] front[i][j];
            assert(lists[i][j] == front[i][j]);
        } else {
            let j = k - front.flatten().len();
            assert(lists[lists.len() - 1][j] == lists.flatten()[k]);
        }
    }
}

/// What one of the lists holds, the flattened list holds.
proof fn lemma_list_in_flatten<T>(lists: Seq<Seq<T>>, i: int, j: int)
    requires
        0 <= i < lists.len(),
        0 <= j < lists[i].len(),
    ensures
        lists.flatten().contains(lists[i][j]),
    decreases lists.len(),
{
    let front = lists.drop_last();
    assert(lists =~= front.push(lists.last()));
    front.lemma_flatten_push(lists.last());
    if i < front.len() {
        lemma_list_in_flatten(front, i, j);
        let k = choose|k: int| 0 <= k < front.flatten().len() && front.flatten()[k] == front[i][j];
        assert(lists.flatten()[k] == lists[i][j]);
    } else {
        assert(lists.flatten()[front.flatten().len() + j] == lists[i][j]);
    }
}

/// The box of more positions encloses what the box of some of them encloses.
proof fn lemma_wider_box(some: Seq<Coord>, all: Seq<Coord>, c: Coord)
    requires
        forall|j: int| 0 <= j < some.len() ==> all.contains(#[trigger] some[j]),
        box_over(some).encloses(c),
    ensures
        box_over(all).encloses(c),
{
    let a = box_over(some);
    law_box_is_tight(some);
    let nowhere = Coord { x: number::NAN, y: number::NAN };
    law_growing_keeps_what_it_holds(Bbox::blank(), some, nowhere);
    law_growing_keeps_what_it_holds(Bbox::blank(), all, nowhere);
    assert forall|j: int| 0 <= j < some.len() implies box_over(all).encloses(#[trigger] some[j]) by {
        let k = choose|k: int| 0 <= k < all.len() && all[k] == some[j];
        law_box_encloses_its_coordinates(all, k);
    }
    if a.minx != number::INFINITY {
        let j = choose|j: int| 0 <= j < some.len() && #[trigger] some[j].x == a.minx;
        assert(box_over(all).encloses(some[j]));
    }
    if a.miny != number::INFINITY {
        let j = choose|j: int| 0 <= j < some.len() && #[trigger] some[j].y == a.miny;
        assert(box_over(all).encloses(some[j]));
    }
    if a.maxx != number::NEG_INFINITY {
        let j = choose|j: int| 0 <= j < some.len() && #[trigger] some[j].x == a.maxx;
        assert(box_over(all).encloses(some[j]));
    }
    if a.maxy != number::NEG_INFINITY {
        let j = choose|j: int| 0 <= j < some.len() && #[trigger] some[j].y == a.maxy;
        assert(box_over(all).encloses(some[j]));
    }
}

proof fn lemma_polygon_in_box(polygon: PolygonView, k: int)
    requires
        is_hole_inside(polygon),
        0 <= k < polygon_coords(polygon).len(),
    ensures
        box_over(polygon.exterior).encloses(polygon_coords(polygon)[k]),
{
    if k < polygon.exterior.len() {
        law_box_encloses_its_coordinates(polygon.exterior, k);
    } else {
        let rest = polygon.interiors;
        let at = k - polygon.exterior.len();
        lemma_in_flatten(rest, at);
        let (i, j) = choose|i: int, j: int|
            0 <= i < rest.len() && 0 <= j < rest[i].len() && rest.flatten()[at]
                == #[trigger] rest[i][j];
        assert(box_over(polygon.exterior).encloses(rest[i][j]));
    }
}

/// The box of the outline encloses every coordinate of a geometry, where every hole lies in the box
/// of its shell.
pub proof fn law_the_outline_decides_the_box(geom: GeometryView, k: int)
    requires
        !(geom is GeometryCollection),
        are_holes_inside(geom),
        0 <= k < coords_of(geom).len(),
    ensures
        box_over(outline(geom)).encloses(coords_of(geom)[k]),
{
    match geom {
        GeometryView::Polygon(polygon) => lemma_polygon_in_box(polygon, k),
        GeometryView::MultiPolygon(polygons) => {
            let lists = Seq::new(polygons.len(), |i: int| polygon_coords(polygons[i]));
            lemma_in_flatten(lists, k);
            let (i, j) = choose|i: int, j: int|
                0 <= i < lists.len() && 0 <= j < lists[i].len() && lists.flatten()[k]
                    == #[trigger] lists[i][j];
            assert(is_hole_inside(polygons[i]));
            lemma_polygon_in_box(polygons[i], j);
            let every = shells(polygons);
            assert(every[i] == polygons[i].exterior);
            assert forall|m: int|
                0 <= m < polygons[i].exterior.len() implies every.flatten().contains(
                #[trigger] polygons[i].exterior[m],
            ) by {
                lemma_list_in_flatten(every, i, m);
            }
            lemma_wider_box(polygons[i].exterior, every.flatten(), coords_of(geom)[k]);
        },
        GeometryView::Rect(min, max) => {
            let two = outline(geom);
            law_box_encloses_its_coordinates(two, 0);
            law_box_encloses_its_coordinates(two, 1);
        },
        _ => law_box_encloses_its_coordinates(outline(geom), k),
    }
}

// --------------------------------------------------------------------- extents
/// The extent of a column encloses every position of every row before `end`, and what it started
/// from.
pub proof fn law_an_extent_encloses_its_rows(
    array: ColumnView,
    start: Bbox,
    end: int,
    i: int,
    k: int,
)
    requires
        start.is_numeric(),
        0 <= i < end <= array.rows(),
        array.raw(i) is Some,
        0 <= k < outline(array.raw(i)->0).len(),
    ensures
        swept(array, start, end).encloses(outline(array.raw(i)->0)[k]),
    decreases end,
{
    lemma_swept_is_numeric(array, start, end - 1);
    let before = swept(array, start, end - 1);
    if i < end - 1 {
        law_an_extent_encloses_its_rows(array, start, end - 1, i, k);
    } else {
        law_box_encloses_its_coordinates(outline(array.raw(i)->0), k);
    }
    if !array.is_null(end - 1) {
        lemma_value_box_is_numeric(array, end - 1);
    }
}

proof fn lemma_value_box_is_numeric(array: ColumnView, i: int)
    ensures
        value_box(array, i).is_numeric(),
{
    law_growing_keeps_what_it_holds(
        Bbox::blank(),
        outline(array.body.raw(i)->0),
        Coord { x: number::NAN, y: number::NAN },
    );
}

proof fn lemma_swept_is_numeric(array: ColumnView, start: Bbox, end: int)
    requires
        start.is_numeric(),
    ensures
        swept(array, start, end).is_numeric(),
    decreases end,
{
    if end > 0 {
        lemma_swept_is_numeric(array, start, end - 1);
        lemma_value_box_is_numeric(array, end - 1);
    }
}

/// Each bound of an extent is that of its start or of the box of a row with a value.
pub proof fn law_an_extent_is_tight(array: ColumnView, start: Bbox, end: int)
    requires
        0 <= end,
    ensures
        swept(array, start, end).minx == start.minx || exists|i: int|
            0 <= i < end && !array.is_null(i) && swept(array, start, end).minx
                == (#[trigger] value_box(array, i)).minx,
        swept(array, start, end).miny == start.miny || exists|i: int|
            0 <= i < end && !array.is_null(i) && swept(array, start, end).miny
                == (#[trigger] value_box(array, i)).miny,
        swept(array, start, end).maxx == start.maxx || exists|i: int|
            0 <= i < end && !array.is_null(i) && swept(array, start, end).maxx
                == (#[trigger] value_box(array, i)).maxx,
        swept(array, start, end).maxy == start.maxy || exists|i: int|
            0 <= i < end && !array.is_null(i) && swept(array, start, end).maxy
                == (#[trigger] value_box(array, i)).maxy,
    decreases end,
{
    if end > 0 {
        law_an_extent_is_tight(array, start, end - 1);
        let last = value_box(array, end - 1);
    }
}

/// Merged extents hold each extent that was merged, and what they started from.
pub proof fn law_merged_extents_hold_each(
    start: Bbox,
    partials: Seq<Bbox>,
    end: int,
    i: int,
    c: Coord,
)
    requires
        start.is_numeric(),
        forall|k: int| 0 <= k < partials.len() ==> (#[trigger] partials[k]).is_numeric(),
        0 <= i < end <= partials.len(),
    ensures
        merged_boxes(start, partials, end).is_numeric(),
        partials[i].encloses(c) ==> merged_boxes(start, partials, end).encloses(c),
        start.encloses(c) ==> merged_boxes(start, partials, end).encloses(c),
    decreases end,
{
    assert(partials[end - 1].is_numeric());
    if i < end - 1 {
        law_merged_extents_hold_each(start, partials, end - 1, i, c);
    } else if end > 1 {
        law_merged_extents_hold_each(start, partials, end - 1, 0, c);
    }
}

/// The collected geometries are those of the rows that have one, in their order.
pub proof fn law_every_row_is_collected_in_order(array: ColumnView, end: int, i: int)
    requires
        0 <= i < end,
        array.geometry(i) is Some,
    ensures
        gathered(array, i).len() < gathered(array, end).len(),
        gathered(array, end)[gathered(array, i).len() as int] == array.geometry(i)->0,
        gathered(array, i + 1).len() == gathered(array, i).len() + 1,
    decreases end,
{
    if i < end - 1 {
        law_every_row_is_collected_in_order(array, end - 1, i);
    }
}

/// A row without a geometry adds nothing to what is collected.
pub proof fn law_a_null_is_not_collected(array: ColumnView, i: int)
    requires
        0 <= i,
        array.geometry(i) is None,
    ensures
        gathered(array, i + 1) == gathered(array, i),
        gathered(array, 0) == Seq::<GeometryView>::empty(),
{
}

// ----------------------------------------------------------------------- rings
/// A closed path ends where it starts, and has one vertex more at most.
pub proof fn law_a_closed_path_ends_where_it_starts(line: Seq<Coord>)
    requires
        line.len() > 0,
        is_numeric(line[0]),
    ensures
        closing(line)[0] == line[0],
        closing(line).last().is_same(line[0]),
        closing(line).take(line.len() as int) == line,
        closing(line).len() == line.len() || closing(line).len() == line.len() + 1,
        line.last().is_same(line[0]) ==> closing(line) == line,
{
    assert(closing(line).take(line.len() as int) =~= line);
}

/// True when two segments of a path have a vertex in common by their numbers. In a closed path the
/// last vertex is the first.
pub open spec fn have_a_vertex(i: int, j: int, count: int, closed: bool) -> bool {
    exists|v: int, w: int|
        {
            &&& #[trigger] is_vertex_of(v, i)
            &&& #[trigger] is_vertex_of(w, j)
            &&& v == w || (closed && v == 0 && w == count) || (closed && w == 0 && v == count)
        }
}

/// True when a segment starts or ends at a vertex.
pub open spec fn is_vertex_of(v: int, i: int) -> bool {
    v == i || v == i + 1
}

/// Two segments of a path may meet exactly when they have a vertex in common.
pub proof fn law_neighbours_may_meet(i: int, j: int, count: int, closed: bool)
    requires
        0 <= i < count,
        0 <= j < count,
        i != j,
    ensures
        may_touch(i, j, count, closed) == have_a_vertex(i, j, count, closed),
{
    if may_touch(i, j, count, closed) {
        if i - j == 1 {
            assert(is_vertex_of(i, i) && is_vertex_of(i, j));
        } else if j - i == 1 {
            assert(is_vertex_of(j, i) && is_vertex_of(j, j));
        } else if i == 0 {
            assert(is_vertex_of(0, i) && is_vertex_of(count, j));
        } else {
            assert(is_vertex_of(count, i) && is_vertex_of(0, j));
        }
    }
}

/// A line string is a ring exactly when it is closed and simple. Nothing else is asked.
pub proof fn law_a_ring_is_closed_and_simple<S: Fn(&Vec<(Coord, Coord)>) -> Vec<Meeting>>(
    meetings: S,
    geom: GeometryView,
    ring: Option<bool>,
    simple: bool,
)
    requires
        is_sound_search(meetings),
        is_ring_verdict(meetings, geom, ring),
        is_simple_verdict(meetings, geom, simple),
    ensures
        ring is Some == geom is LineString,
        ring matches Some(verdict) ==> verdict == (simple && crate::accessor::is_closed_geometry(
            geom,
        )),
{
}

} // verus!
