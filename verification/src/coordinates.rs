//! What the operations on geometries do to their coordinates and parts.
//!
//! A geometry is a list of parts, and each part a list of coordinates. The laws below say of the
//! counts, the boundary, the reversal, the multi form and a motion what becomes of those lists.

use vstd::prelude::*;
use crate::accessor::{
    coord_count, emptiness_at, has_end, highest, hole_count, is_closed_geometry, is_line_verdict,
    is_segments_verdict, is_simple_verdict, line_count, may_join, may_touch, narrowed, npoints_at,
    owners_of_all, part_count, part_counts, polygon_count, row_count, segments_of, segments_of_all,
    solid_points, solid_run, static_topology, static_type_text, topologies, topology, type_text,
    Meeting,
};
use crate::affine::{are_moved, are_moved_lines, are_moved_parts, is_moved, is_moved_polygon};
use crate::column::{BodyView, ColumnView, CoordBufferView, Dimension, Kind};
use crate::component::LineEnd;
use crate::edit::{edited_line, exploded, grid_at, promoted, Structure, VertexEdit};
use crate::geometry::{
    coords_of, is_closed_path, part_coords, polygon_coords, polygon_over, rect_polygon,
    triangle_polygon, Coord, GeometryView, PolygonView,
};
use crate::lists::{
    lemma_flatten_len, lemma_flatten_mapped, lemma_flatten_one, lemma_singles, mapped, total,
};
use crate::number;
use crate::process::{
    all_ends, all_rings, are_numeric, boundary, law_an_even_number_of_ends_cancels, occurrences,
    rings_of, turned,
};
use crate::region::is_areal;

verus! {

// ----------------------------------------------------------------------- parts
/// True for a geometry that is made of parts.
pub open spec fn has_parts(geom: GeometryView) -> bool {
    geom is MultiPoint || geom is MultiLineString || geom is MultiPolygon
        || geom is GeometryCollection
}

/// The coordinates of a geometry are those of its parts, one after the other.
pub proof fn law_the_parts_hold_every_coordinate(geom: GeometryView)
    ensures
        Seq::new(exploded(geom).len(), |k: int| coords_of(exploded(geom)[k])).flatten()
            == coords_of(geom),
{
    let parts = exploded(geom);
    let lists = Seq::new(parts.len(), |k: int| coords_of(parts[k]));
    match geom {
        GeometryView::MultiPoint(points) => {
            lemma_singles(points);
            assert(lists =~= Seq::new(points.len(), |k: int| seq![points[k]]));
        },
        GeometryView::MultiLineString(lines) => {
            assert(lists =~= lines);
        },
        GeometryView::MultiPolygon(polygons) => {
            assert(lists =~= Seq::new(polygons.len(), |i: int| polygon_coords(polygons[i])));
        },
        GeometryView::GeometryCollection(inner) => {
            assert(lists =~= part_coords(inner));
        },
        _ => {
            assert(lists =~= seq![coords_of(geom)]);
            lemma_flatten_one(coords_of(geom));
        },
    }
}

/// The number of parts is that of the dump.
pub proof fn law_the_dump_has_every_part(geom: GeometryView)
    ensures
        part_count(geom) == narrowed(exploded(geom).len() as int),
        exploded(geom).len() <= i32::MAX ==> part_count(geom) == exploded(geom).len(),
        !has_parts(geom) ==> exploded(geom) == seq![geom],
{
}

/// The number of coordinates of a geometry is that of its parts together.
pub proof fn law_counts_add_up(geom: GeometryView)
    ensures
        coord_count(geom) == total(
            Seq::new(exploded(geom).len(), |k: int| coord_count(exploded(geom)[k])),
        ),
{
    let parts = exploded(geom);
    let counts = Seq::new(parts.len(), |k: int| coord_count(parts[k]));
    match geom {
        GeometryView::MultiPoint(points) => {
            lemma_solid(points);
            assert(counts =~= Seq::new(
                points.len(),
                |k: int| coord_count(GeometryView::Point(points[k])),
            ));
        },
        GeometryView::MultiLineString(lines) => {
            lemma_flatten_len(lines);
            assert(counts =~= Seq::new(lines.len(), |k: int| lines[k].len()));
        },
        GeometryView::MultiPolygon(polygons) => {
            assert(counts =~= Seq::new(polygons.len(), |k: int| polygon_count(polygons[k])));
        },
        GeometryView::GeometryCollection(inner) => {
            assert(counts =~= part_counts(inner));
        },
        _ => {
            assert(counts =~= seq![coord_count(geom)]);
            assert(counts.drop_last() =~= Seq::empty());
            reveal_with_fuel(total, 2);
        },
    }
}

proof fn lemma_solid(points: Seq<Coord>)
    ensures
        solid_points(points) == total(
            Seq::new(points.len(), |k: int| coord_count(GeometryView::Point(points[k]))),
        ),
    decreases points.len(),
{
    let counts = Seq::new(points.len(), |k: int| coord_count(GeometryView::Point(points[k])));
    if points.len() > 0 {
        let front = points.drop_last();
        lemma_solid(front);
        assert(counts.drop_last() =~= Seq::new(
            front.len(),
            |k: int| coord_count(GeometryView::Point(front[k])),
        ));
    }
}

/// A geometry without parts has as many coordinates as it lists. An empty point has none, and a box
/// or a triangle has one more, that closes its ring.
pub proof fn law_a_single_geometry_counts_its_coordinates(geom: GeometryView)
    requires
        !has_parts(geom),
    ensures
        geom matches GeometryView::Point(c) && c.is_blank() ==> coord_count(geom) == 0,
        geom matches GeometryView::Point(c) && !c.is_blank() ==> coord_count(geom) == 1,
        geom is LineString || geom is Line || geom is Polygon ==> coord_count(geom) == coords_of(
            geom,
        ).len(),
        geom is Rect || geom is Triangle ==> coord_count(geom) == coords_of(geom).len() + 1,
        line_count(geom) is Some == (topology(geom) == 1),
        line_count(geom) matches Some(n) ==> n == narrowed(coord_count(geom) as int),
{
}

/// A count that an integer can hold is given as it is.
pub proof fn law_a_small_count_is_kept(count: int)
    requires
        0 <= count <= i32::MAX,
    ensures
        narrowed(count) == count,
{
}

/// Only a line alone counts its vertices, and only a polygon alone its holes.
pub proof fn law_parts_have_no_count_of_their_own(geom: GeometryView)
    ensures
        has_parts(geom) ==> line_count(geom) is None && hole_count(geom) is None,
        hole_count(geom) is Some == (is_areal(geom) && !has_parts(geom)),
{
}

/// The multi form has the coordinates of the geometry. The ring of a box or a triangle is closed.
pub proof fn law_promotion_keeps_every_coordinate(geom: GeometryView)
    ensures
        !(geom is Rect || geom is Triangle) ==> coords_of(promoted(geom)) == coords_of(geom),
        geom matches GeometryView::Rect(a, b) ==> promoted(geom) == promoted(
            GeometryView::Polygon(rect_polygon(a, b)),
        ),
        geom matches GeometryView::Triangle(a, b, c) ==> promoted(geom) == promoted(
            GeometryView::Polygon(triangle_polygon(a, b, c)),
        ),
        has_parts(promoted(geom)),
        topology(promoted(geom)) == topology(geom),
        has_parts(geom) ==> promoted(geom) == geom,
        Structure::Multi.edited(geom) == promoted(geom),
{
    match geom {
        GeometryView::LineString(line) => lemma_flatten_one(line),
        GeometryView::Line(a, b) => lemma_flatten_one(seq![a, b]),
        GeometryView::Polygon(polygon) => {
            let coords = polygon_coords(polygon);
            lemma_flatten_one(coords);
            assert(Seq::new(1, |i: int| polygon_coords(seq![polygon][i])) =~= seq![coords]);
        },
        _ => {},
    }
}

/// The points of a geometry are its coordinates, each of them a part.
pub proof fn law_the_points_are_the_coordinates(geom: GeometryView)
    ensures
        Structure::Points.edited(geom) is MultiPoint,
        coords_of(Structure::Points.edited(geom)) == coords_of(geom),
        exploded(Structure::Points.edited(geom)) == Seq::new(
            coords_of(geom).len(),
            |k: int| GeometryView::Point(coords_of(geom)[k]),
        ),
{
}

/// The ring of a box starts and ends at its lower right corner, goes round counter clockwise, and
/// turns at each of the four corners once.
pub proof fn law_the_ring_of_a_box_visits_its_corners(min: Coord, max: Coord)
    requires
        number::is_eq(max.x, max.x),
        number::is_eq(min.y, min.y),
    ensures
        ({
            let ring = rect_polygon(min, max).exterior;
            &&& rect_polygon(min, max).interiors.len() == 0
            &&& ring.len() == 5
            &&& ring[0] == ring[4]
            &&& ring[1] == max
            &&& ring[3] == min
            &&& ring[0].x == max.x && ring[0].y == min.y
            &&& ring[2].x == min.x && ring[2].y == max.y
            &&& coords_of(GeometryView::Rect(min, max)) == ring.drop_last()
        }),
{
    let ring = rect_polygon(min, max).exterior;
    assert(coords_of(GeometryView::Rect(min, max)) =~= ring.drop_last());
}

/// The ring of a triangle goes through its three corners and back.
pub proof fn law_the_ring_of_a_triangle_visits_its_corners(a: Coord, b: Coord, c: Coord)
    requires
        a.is_same(a),
    ensures
        triangle_polygon(a, b, c).exterior == seq![a, b, c, a],
        triangle_polygon(a, b, c).interiors.len() == 0,
        coords_of(GeometryView::Triangle(a, b, c)) == seq![a, b, c],
{
}

// ------------------------------------------------------------------- dimension
/// A collection has the highest dimension of its parts, and every other geometry that of each part.
pub proof fn law_a_dimension_is_that_of_the_parts(geom: GeometryView)
    ensures
        0 <= topology(geom) <= 2,
        forall|k: int|
            0 <= k < exploded(geom).len() ==> topology(#[trigger] exploded(geom)[k]) <= topology(
                geom,
            ),
        exploded(geom).len() > 0 ==> exists|k: int|
            0 <= k < exploded(geom).len() && topology(#[trigger] exploded(geom)[k]) == topology(
                geom,
            ),
        exploded(geom).len() == 0 && geom is GeometryCollection ==> topology(geom) == 0,
        is_areal(geom) ==> topology(geom) == 2,
    decreases geom,
{
    let parts = exploded(geom);
    match geom {
        GeometryView::GeometryCollection(inner) => {
            let values = topologies(inner);
            assert forall|k: int| 0 <= k < values.len() implies 0 <= #[trigger] values[k] <= 2 by {
                assert(decreases_to!(geom => inner[k]));
                law_a_dimension_is_that_of_the_parts(inner[k]);
            }
            lemma_highest(values);
            assert forall|k: int| 0 <= k < parts.len() implies topology(#[trigger] parts[k])
                <= topology(geom) by {
                assert(values[k] == topology(inner[k]));
            }
            if parts.len() > 0 {
                let k = choose|k: int|
                    0 <= k < values.len() && #[trigger] values[k] == highest(values);
                assert(topology(parts[k]) == topology(geom));
            }
        },
        _ => {
            if parts.len() > 0 {
                assert(topology(parts[0]) == topology(geom));
            }
        },
    }
}

proof fn lemma_highest(values: Seq<i32>)
    requires
        forall|k: int| 0 <= k < values.len() ==> 0 <= #[trigger] values[k] <= 2,
    ensures
        0 <= highest(values) <= 2,
        forall|k: int| 0 <= k < values.len() ==> #[trigger] values[k] <= highest(values),
        values.len() > 0 ==> exists|k: int|
            0 <= k < values.len() && #[trigger] values[k] == highest(values),
    decreases values.len(),
{
    if values.len() > 0 {
        let front = values.drop_last();
        assert forall|k: int| 0 <= k < front.len() implies 0 <= #[trigger] front[k] <= 2 by {
            assert(front[k] == values[k]);
        }
        lemma_highest(front);
        assert forall|k: int| 0 <= k < values.len() implies #[trigger] values[k] <= highest(
            values,
        ) by {
            if k < front.len() {
                assert(front[k] == values[k]);
            }
        }
        if values.last() > highest(front) || front.len() == 0 {
            assert(values[values.len() - 1] == highest(values));
        } else {
            let k = choose|k: int| 0 <= k < front.len() && #[trigger] front[k] == highest(front);
            assert(values[k] == highest(values));
        }
    }
}

/// The column type says of every row what the row says itself.
pub proof fn law_the_type_of_a_column_is_that_of_its_rows(array: ColumnView, i: int)
    requires
        array.wf(),
        0 <= i < array.rows(),
        array.raw(i) is Some,
    ensures
        static_topology(array.body.kind()) matches Some(d) ==> topology(array.raw(i)->0) == d,
        array.body.kind() != Kind::GeometryCollection ==> (static_type_text(array.body.kind())
            matches Some(name) ==> type_text(array.raw(i)->0) == name),
{
}

/// A geometry is named by what it is: two geometries have one name exactly when they are the same in
/// kind, where a box or a triangle is a polygon and a segment a line string.
pub proof fn law_a_type_name_tells_the_kind(geom: GeometryView)
    ensures
        type_text(geom) == "ST_Polygon"@ <==> is_areal(geom) && !has_parts(geom),
        type_text(geom) == "ST_LineString"@ <==> topology(geom) == 1 && !has_parts(geom),
        type_text(geom) == "ST_Point"@ <==> geom is Point,
        type_text(geom) == "ST_MultiPoint"@ <==> geom is MultiPoint,
        type_text(geom) == "ST_MultiLineString"@ <==> geom is MultiLineString,
        type_text(geom) == "ST_MultiPolygon"@ <==> geom is MultiPolygon,
        type_text(geom) == "ST_GeometryCollection"@ <==> geom is GeometryCollection,
{
    reveal_strlit("ST_Point");
    reveal_strlit("ST_LineString");
    reveal_strlit("ST_Polygon");
    reveal_strlit("ST_MultiPoint");
    reveal_strlit("ST_MultiLineString");
    reveal_strlit("ST_MultiPolygon");
    reveal_strlit("ST_GeometryCollection");
    assert("ST_Polygon"@[3] == 'P' && "ST_Point"@[3] == 'P' && "ST_LineString"@[3] == 'L');
    assert("ST_Polygon"@.len() == 10 && "ST_Point"@.len() == 8 && "ST_LineString"@.len() == 13);
    assert("ST_MultiPoint"@.len() == 13 && "ST_MultiPoint"@[3] == 'M');
    assert("ST_MultiLineString"@.len() == 18 && "ST_MultiPolygon"@.len() == 15);
    assert("ST_GeometryCollection"@.len() == 21);
}

// -------------------------------------------------------------------- boundary
/// The boundary of a line or an area has one dimension less. An area is bounded by all of its
/// coordinates, and the rings of its parts one after the other bound it.
pub proof fn law_a_boundary_has_one_dimension_less(geom: GeometryView)
    requires
        !(geom is GeometryCollection),
    ensures
        topology(geom) > 0 ==> topology(boundary(geom)) == topology(geom) - 1,
        topology(geom) == 0 ==> boundary(geom) == GeometryView::MultiPoint(Seq::empty()),
        geom is Polygon || geom is MultiPolygon ==> coords_of(boundary(geom)) == coords_of(geom),
        is_areal(geom) ==> boundary(promoted(geom)) == boundary(geom),
        hole_count(geom) is Some ==> hole_count(geom)->0 == narrowed(
            exploded(boundary(geom)).len() - 1,
        ),
{
    match geom {
        GeometryView::Polygon(polygon) => {
            lemma_rings(polygon);
            lemma_one_boundary(polygon);
        },
        GeometryView::MultiPolygon(polygons) => lemma_all_rings(polygons),
        GeometryView::Rect(a, b) => lemma_one_boundary(rect_polygon(a, b)),
        GeometryView::Triangle(a, b, c) => lemma_one_boundary(triangle_polygon(a, b, c)),
        _ => {},
    }
}

proof fn lemma_one_boundary(polygon: PolygonView)
    ensures
        all_rings(seq![polygon]).flatten() == rings_of(polygon),
{
    assert(all_rings(seq![polygon]) =~= seq![rings_of(polygon)]);
    lemma_flatten_one(rings_of(polygon));
}

proof fn lemma_rings(polygon: PolygonView)
    ensures
        rings_of(polygon).flatten() == polygon_coords(polygon),
{
    let rings = rings_of(polygon);
    assert(rings.drop_first() =~= polygon.interiors);
    assert(rings.first() == polygon.exterior);
    assert(rings.flatten() =~= rings.first() + rings.drop_first().flatten());
}

proof fn lemma_all_rings(polygons: Seq<PolygonView>)
    ensures
        all_rings(polygons).flatten().flatten() == Seq::new(
            polygons.len(),
            |i: int| polygon_coords(polygons[i]),
        ).flatten(),
    decreases polygons.len(),
{
    let lists = Seq::new(polygons.len(), |i: int| polygon_coords(polygons[i]));
    let rings = all_rings(polygons);
    if polygons.len() == 0 {
        assert(rings.flatten() =~= Seq::empty());
        assert(rings.flatten().flatten() =~= Seq::empty());
        assert(lists.flatten() =~= Seq::empty());
    } else {
        let front = polygons.drop_last();
        lemma_all_rings(front);
        assert(rings.drop_last() =~= all_rings(front));
        assert(rings =~= rings.drop_last().push(rings.last()));
        rings.drop_last().lemma_flatten_push(rings.last());
        assert(lists.drop_last() =~= Seq::new(front.len(), |i: int| polygon_coords(front[i])));
        assert(lists =~= lists.drop_last().push(lists.last()));
        lists.drop_last().lemma_flatten_push(lists.last());
        lemma_rings(polygons.last());
        lemma_flatten_joined(rings.drop_last().flatten(), rings.last());
    }
}

proof fn lemma_flatten_joined<T>(a: Seq<Seq<T>>, b: Seq<Seq<T>>)
    ensures
        (a + b).flatten() == a.flatten() + b.flatten(),
    decreases b.len(),
{
    if b.len() == 0 {
        assert(a + b =~= a);
        assert(b.flatten() =~= Seq::empty());
        assert(a.flatten() + b.flatten() =~= a.flatten());
    } else {
        let front = b.drop_last();
        lemma_flatten_joined(a, front);
        assert(a + b =~= (a + front).push(b.last()));
        (a + front).lemma_flatten_push(b.last());
        assert(b =~= front.push(b.last()));
        front.lemma_flatten_push(b.last());
        assert((a + b).flatten() =~= a.flatten() + b.flatten());
    }
}

/// The boundary of a list of polygons is the boundaries of its parts, one after the other.
pub proof fn law_the_parts_are_bounded_one_by_one(geom: GeometryView)
    requires
        is_areal(geom),
    ensures
        boundary(geom) == GeometryView::MultiLineString(
            Seq::new(
                exploded(geom).len(),
                |k: int| boundary(exploded(geom)[k])->MultiLineString_0,
            ).flatten(),
        ),
{
    let parts = exploded(geom);
    let lists = Seq::new(parts.len(), |k: int| boundary(parts[k])->MultiLineString_0);
    match geom {
        GeometryView::MultiPolygon(polygons) => {
            assert(lists =~= all_rings(polygons));
        },
        _ => {
            assert(lists =~= seq![boundary(geom)->MultiLineString_0]);
            lemma_flatten_one(boundary(geom)->MultiLineString_0);
        },
    }
}

/// A line is closed exactly when it has no boundary. An open line is bounded by its two ends.
pub proof fn law_an_open_line_is_bounded_by_its_ends(line: Seq<Coord>)
    requires
        line.len() >= 2,
    ensures
        is_closed_geometry(GeometryView::LineString(line)) == (boundary(
            GeometryView::LineString(line),
        ) == GeometryView::MultiPoint(Seq::empty())),
        !is_closed_geometry(GeometryView::LineString(line)) ==> boundary(
            GeometryView::LineString(line),
        ) == GeometryView::MultiPoint(
            seq![
                line[LineEnd::Start.position(line.len() as int)->0],
                line[LineEnd::End.position(line.len() as int)->0],
            ],
        ),
{
    if !is_closed_path(line) {
        assert(seq![line[0], line.last()].len() != Seq::<Coord>::empty().len());
    }
}

/// A position bounds a list of lines exactly when it is the end of an odd number of them, and then
/// once.
pub proof fn law_a_shared_end_cancels(lines: Seq<Seq<Coord>>, c: Coord)
    requires
        are_numeric(all_ends(lines).flatten()),
    ensures
        boundary(GeometryView::MultiLineString(lines)) is MultiPoint,
        occurrences(coords_of(boundary(GeometryView::MultiLineString(lines))), c) == occurrences(
            Seq::new(
                lines.len(),
                |k: int| coords_of(boundary(GeometryView::LineString(lines[k]))),
            ).flatten(),
            c,
        ) % 2,
{
    law_an_even_number_of_ends_cancels(all_ends(lines).flatten(), c);
    assert(all_ends(lines) =~= Seq::new(
        lines.len(),
        |k: int| coords_of(boundary(GeometryView::LineString(lines[k]))),
    ));
}

/// True when every ring of a list of polygons ends where it starts.
pub open spec fn has_closed_rings(polygons: Seq<PolygonView>) -> bool {
    forall|k: int|
        0 <= k < all_rings(polygons).flatten().len() ==> is_closed_path(
            #[trigger] all_rings(polygons).flatten()[k],
        )
}

/// What bounds an area has no boundary itself.
pub proof fn law_a_boundary_of_an_area_is_closed(polygons: Seq<PolygonView>)
    requires
        has_closed_rings(polygons),
    ensures
        boundary(boundary(GeometryView::MultiPolygon(polygons))) == GeometryView::MultiPoint(
            Seq::empty(),
        ),
{
    let rings = all_rings(polygons).flatten();
    lemma_no_ends(rings);
}

proof fn lemma_no_ends(lines: Seq<Seq<Coord>>)
    requires
        forall|k: int| 0 <= k < lines.len() ==> is_closed_path(#[trigger] lines[k]),
    ensures
        all_ends(lines).flatten() == Seq::<Coord>::empty(),
    decreases lines.len(),
{
    let ends = all_ends(lines);
    if lines.len() > 0 {
        let front = lines.drop_last();
        assert forall|k: int| 0 <= k < front.len() implies is_closed_path(#[trigger] front[k]) by {
            assert(front[k] == lines[k]);
        }
        lemma_no_ends(front);
        assert(ends.drop_last() =~= all_ends(front));
        assert(ends =~= ends.drop_last().push(ends.last()));
        ends.drop_last().lemma_flatten_push(ends.last());
        assert(is_closed_path(lines[lines.len() - 1]));
        assert(ends.last() =~= Seq::empty());
    }
    assert(ends.flatten() =~= Seq::<Coord>::empty());
}

/// A geometry made of lines is closed exactly when it has a line and each of them is closed.
/// Everything that is no line is closed.
pub proof fn law_closed_lines_are_closed_one_by_one(geom: GeometryView)
    ensures
        geom is MultiLineString ==> is_closed_geometry(geom) == (exploded(geom).len() > 0
            && forall|k: int|
            0 <= k < exploded(geom).len() ==> is_closed_geometry(#[trigger] exploded(geom)[k])),
        !(geom is GeometryCollection) && topology(geom) != 1 ==> is_closed_geometry(geom),
{
    if let GeometryView::MultiLineString(lines) = geom {
        let parts = exploded(geom);
        assert forall|k: int| 0 <= k < lines.len() implies is_closed_geometry(parts[k])
            == crate::accessor::is_closed_line(#[trigger] lines[k]) by {}
        if forall|k: int| 0 <= k < parts.len() ==> is_closed_geometry(#[trigger] parts[k]) {
            assert forall|k: int| 0 <= k < lines.len() implies crate::accessor::is_closed_line(
                #[trigger] lines[k],
            ) by {
                assert(is_closed_geometry(parts[k]));
            }
        }
    }
}

// -------------------------------------------------------------------- reversal
/// A reversed line runs from its last vertex to its first.
pub proof fn law_a_reversed_line_runs_backwards(geom: GeometryView, k: int)
    requires
        geom is LineString || geom is Line,
        0 <= k < coords_of(geom).len(),
    ensures
        coords_of(turned(geom)).len() == coords_of(geom).len(),
        coords_of(turned(geom))[k] == coords_of(geom)[coords_of(geom).len() - 1 - k],
        turned(geom) is LineString == geom is LineString,
{
}

/// A geometry with parts is reversed part by part, in place. A point, a box, a triangle and a
/// collection stay as they are.
pub proof fn law_parts_are_reversed_in_place(geom: GeometryView, k: int)
    requires
        0 <= k < exploded(geom).len(),
    ensures
        exploded(turned(geom)).len() == exploded(geom).len(),
        !(geom is GeometryCollection) ==> exploded(turned(geom))[k] == turned(exploded(geom)[k]),
        geom is GeometryCollection || topology(geom) == 0 || geom is Rect || geom is Triangle
            ==> turned(geom) == geom,
{
}

/// Each closed ring of a reversed polygon runs backwards, and stays what it was: the shell or a hole.
pub proof fn law_the_rings_are_reversed(polygon: PolygonView, n: int)
    requires
        forall|k: int|
            0 <= k < rings_of(polygon).len() ==> is_closed_path(
                (#[trigger] rings_of(polygon)[k]).reverse(),
            ),
        0 <= n < rings_of(polygon).len(),
    ensures
        turned(GeometryView::Polygon(polygon)) is Polygon,
        rings_of(turned(GeometryView::Polygon(polygon))->Polygon_0).len() == rings_of(
            polygon,
        ).len(),
        rings_of(turned(GeometryView::Polygon(polygon))->Polygon_0)[n] == rings_of(
            polygon,
        )[n].reverse(),
{
    let ring = rings_of(polygon)[n];
    assert(is_closed_path(ring.reverse()));
}

// --------------------------------------------------------------------- editing
/// An added vertex stands at its position, those before it stay and those behind it move up. A
/// removed one is closed up, and a replaced one changes alone.
pub proof fn law_an_edit_changes_one_vertex(line: Seq<Coord>, c: Coord, at: i32, k: int)
    requires
        0 <= at < line.len(),
        0 <= k < line.len(),
    ensures
        edited_line(line, VertexEdit::Add, Some(c), Some(at)) matches Some(added) && {
            &&& added.len() == line.len() + 1
            &&& added[at as int] == c
            &&& k < at ==> added[k] == line[k]
            &&& k >= at ==> added[k + 1] == line[k]
        },
        edited_line(line, VertexEdit::Add, Some(c), None) matches Some(added) && {
            &&& added.len() == line.len() + 1
            &&& added.last() == c
            &&& added[k] == line[k]
        },
        edited_line(line, VertexEdit::Replace, Some(c), Some(at)) matches Some(replaced) && {
            &&& replaced.len() == line.len()
            &&& replaced[k] == if k == at {
                c
            } else {
                line[k]
            }
        },
        line.len() > 2 ==> (edited_line(line, VertexEdit::Remove, None, Some(at)) matches Some(
            removed,
        ) && {
            &&& removed.len() == line.len() - 1
            &&& k < at ==> removed[k] == line[k]
            &&& k > at ==> removed[k - 1] == line[k]
        }),
{
}

// ---------------------------------------------------------------------- motion
/// True when a motion by `f` leaves the rings of a geometry closed. A box is left out: its corners
/// are put in order again.
pub open spec fn keeps_rings(f: spec_fn(Coord) -> Coord, geom: GeometryView) -> bool
    decreases geom,
{
    match geom {
        GeometryView::Polygon(polygon) => keeps_closed(f, polygon),
        GeometryView::MultiPolygon(polygons) => forall|k: int|
            0 <= k < polygons.len() ==> keeps_closed(f, #[trigger] polygons[k]),
        GeometryView::GeometryCollection(parts) => keep_rings(f, parts),
        GeometryView::Rect(_, _) => false,
        _ => true,
    }
}

/// True when a motion by `f` leaves the rings of each part closed.
pub open spec fn keep_rings(f: spec_fn(Coord) -> Coord, parts: Seq<GeometryView>) -> bool
    decreases parts,
{
    forall|k: int| 0 <= k < parts.len() ==> keeps_rings(f, #[trigger] parts[k])
}

/// True when a motion by `f` leaves the rings of a polygon closed.
pub open spec fn keeps_closed(f: spec_fn(Coord) -> Coord, polygon: PolygonView) -> bool {
    &&& is_closed_path(mapped(f, polygon.exterior))
    &&& forall|k: int|
        0 <= k < polygon.interiors.len() ==> is_closed_path(
            mapped(f, #[trigger] polygon.interiors[k]),
        )
}

/// True when a step gives `f` of each position.
pub open spec fn is_step<F: Fn(Coord) -> Coord>(step: F, f: spec_fn(Coord) -> Coord) -> bool {
    forall|a: Coord, b: Coord| #[trigger] step.ensures((a,), b) ==> b == f(a)
}

proof fn lemma_moved<F: Fn(Coord) -> Coord>(
    step: F,
    f: spec_fn(Coord) -> Coord,
    before: Seq<Coord>,
    after: Seq<Coord>,
)
    requires
        is_step(step, f),
        are_moved(step, before, after),
    ensures
        after == mapped(f, before),
{
    assert forall|i: int| 0 <= i < after.len() implies after[i] == mapped(f, before)[i] by {
        assert(step.ensures((before[i],), after[i]));
    }
    assert(after =~= mapped(f, before));
}

proof fn lemma_moved_lines<F: Fn(Coord) -> Coord>(
    step: F,
    f: spec_fn(Coord) -> Coord,
    before: Seq<Seq<Coord>>,
    after: Seq<Seq<Coord>>,
)
    requires
        is_step(step, f),
        are_moved_lines(step, before, after),
    ensures
        after == Seq::new(before.len(), |i: int| mapped(f, before[i])),
        after.flatten() == mapped(f, before.flatten()),
{
    let images = Seq::new(before.len(), |i: int| mapped(f, before[i]));
    assert forall|i: int| 0 <= i < after.len() implies after[i] == images[i] by {
        lemma_moved(step, f, before[i], after[i]);
    }
    assert(after =~= images);
    lemma_flatten_mapped(f, before);
}

proof fn lemma_moved_polygon<F: Fn(Coord) -> Coord>(
    step: F,
    f: spec_fn(Coord) -> Coord,
    before: PolygonView,
    after: PolygonView,
)
    requires
        is_step(step, f),
        is_moved_polygon(step, before, after),
        keeps_closed(f, before),
    ensures
        polygon_coords(after) == mapped(f, polygon_coords(before)),
        rings_of(after).len() == rings_of(before).len(),
{
    let (exterior, interiors) = choose|exterior: Seq<Coord>, interiors: Seq<Seq<Coord>>|
        {
            &&& #[trigger] are_moved(step, before.exterior, exterior)
            &&& #[trigger] are_moved_lines(step, before.interiors, interiors)
            &&& after == polygon_over(exterior, interiors)
        };
    lemma_moved(step, f, before.exterior, exterior);
    lemma_moved_lines(step, f, before.interiors, interiors);
    assert forall|k: int| 0 <= k < interiors.len() implies is_closed_path(
        #[trigger] interiors[k],
    ) by {
        assert(is_closed_path(mapped(f, before.interiors[k])));
    }
    assert(after.interiors =~= interiors);
    assert(polygon_coords(after) =~= mapped(f, polygon_coords(before)));
}

/// A moved geometry has every coordinate moved, in its place, and is of the same kind.
pub proof fn law_a_motion_moves_every_coordinate<F: Fn(Coord) -> Coord>(
    step: F,
    f: spec_fn(Coord) -> Coord,
    before: GeometryView,
    after: GeometryView,
)
    requires
        is_step(step, f),
        is_moved(step, before, after),
        keeps_rings(f, before),
    ensures
        coords_of(after) == mapped(f, coords_of(before)),
        type_text(after) == type_text(before),
        exploded(after).len() == exploded(before).len(),
    decreases before,
{
    match (before, after) {
        (GeometryView::LineString(a), GeometryView::LineString(b)) => lemma_moved(step, f, a, b),
        (GeometryView::MultiPoint(a), GeometryView::MultiPoint(b)) => lemma_moved(step, f, a, b),
        (GeometryView::MultiLineString(a), GeometryView::MultiLineString(b)) => lemma_moved_lines(
            step,
            f,
            a,
            b,
        ),
        (GeometryView::Polygon(a), GeometryView::Polygon(b)) => lemma_moved_polygon(step, f, a, b),
        (GeometryView::MultiPolygon(a), GeometryView::MultiPolygon(b)) => {
            let old_lists = Seq::new(a.len(), |i: int| polygon_coords(a[i]));
            let new_lists = Seq::new(b.len(), |i: int| polygon_coords(b[i]));
            assert forall|i: int| 0 <= i < b.len() implies new_lists[i] == mapped(
                f,
                #[trigger] old_lists[i],
            ) by {
                assert(keeps_closed(f, a[i]));
                assert(is_moved_polygon(step, a[i], b[i]));
                lemma_moved_polygon(step, f, a[i], b[i]);
            }
            assert(new_lists =~= Seq::new(old_lists.len(), |i: int| mapped(f, old_lists[i])));
            lemma_flatten_mapped(f, old_lists);
        },
        (GeometryView::GeometryCollection(a), GeometryView::GeometryCollection(b)) => {
            assert(are_moved_parts(step, a, b));
            let old_lists = part_coords(a);
            let new_lists = part_coords(b);
            assert forall|i: int| 0 <= i < a.len() implies new_lists[i] == mapped(
                f,
                #[trigger] old_lists[i],
            ) by {
                assert(decreases_to!(before => a[i]));
                assert(is_moved(step, a[i], b[i]));
                assert(keeps_rings(f, a[i]));
                law_a_motion_moves_every_coordinate(step, f, a[i], b[i]);
            }
            assert(new_lists =~= Seq::new(old_lists.len(), |i: int| mapped(f, old_lists[i])));
            lemma_flatten_mapped(f, old_lists);
        },
        _ => {
            assert(coords_of(after) =~= mapped(f, coords_of(before)));
        },
    }
}

// ------------------------------------------------------------------ simplicity
/// The segments of a path join its vertices in order, each of them from where the last one ended.
pub proof fn law_segments_chain(line: Seq<Coord>, k: int)
    requires
        line.len() >= 2,
        0 <= k < line.len() - 1,
    ensures
        segments_of(line).len() == line.len() - 1,
        segments_of(line)[k].0 == line[k],
        k > 0 ==> segments_of(line)[k - 1].1 == segments_of(line)[k].0,
        segments_of(line).last().1 == line.last(),
{
}

/// A line ends where its boundary is.
pub proof fn law_a_line_ends_at_its_boundary(line: Seq<Coord>, c: Coord)
    requires
        line.len() >= 2,
    ensures
        has_end(line, c) == exists|k: int|
            0 <= k < coords_of(boundary(GeometryView::LineString(line))).len() && c.is_same(
                #[trigger] coords_of(boundary(GeometryView::LineString(line)))[k],
            ),
{
    let ends = coords_of(boundary(GeometryView::LineString(line)));
    if has_end(line, c) {
        assert(ends[0] == line[0] && ends[1] == line.last());
        assert(c.is_same(ends[0]) || c.is_same(ends[1]));
    }
}

/// Each segment of several lines is one of the line that owns it.
pub proof fn law_a_segment_is_of_its_owner(lines: Seq<Seq<Coord>>, k: int)
    requires
        0 <= k < segments_of_all(lines).len(),
    ensures
        owners_of_all(lines).len() == segments_of_all(lines).len(),
        0 <= owners_of_all(lines)[k] < lines.len(),
        segments_of(lines[owners_of_all(lines)[k]]).contains(segments_of_all(lines)[k]),
    decreases lines.len(),
{
    lemma_owners_len(lines);
    let lists = Seq::new(lines.len(), |i: int| segments_of(lines[i]));
    let marks = Seq::new(lines.len(), |i: int| Seq::new(segments_of(lines[i]).len(), |k: int| i));
    if lines.len() == 0 {
        assert(lists.flatten() =~= Seq::empty());
    } else {
        let front = lines.drop_last();
        let last = lines.len() - 1;
        let front_lists = Seq::new(front.len(), |i: int| segments_of(front[i]));
        let front_marks = Seq::new(
            front.len(),
            |i: int| Seq::new(segments_of(front[i]).len(), |k: int| i),
        );
        assert(lists =~= front_lists.push(lists[last]));
        front_lists.lemma_flatten_push(lists[last]);
        assert(marks.drop_last() =~= front_marks);
        assert(marks =~= front_marks.push(marks[last]));
        front_marks.lemma_flatten_push(marks[last]);
        lemma_owners_len(front);
        let n = segments_of_all(front).len();
        if k < n {
            law_a_segment_is_of_its_owner(front, k);
            assert(owners_of_all(lines)[k] == owners_of_all(front)[k]);
            assert(segments_of_all(lines)[k] == segments_of_all(front)[k]);
            let owner = owners_of_all(front)[k];
            assert(front[owner] == lines[owner]);
        } else {
            assert(owners_of_all(lines)[k] == last);
            assert(segments_of_all(lines)[k] == segments_of(lines[last])[k - n]);
        }
    }
}

proof fn lemma_owners_len(lines: Seq<Seq<Coord>>)
    ensures
        owners_of_all(lines).len() == segments_of_all(lines).len(),
{
    let lists = Seq::new(lines.len(), |i: int| segments_of(lines[i]));
    let marks = Seq::new(lines.len(), |i: int| Seq::new(segments_of(lines[i]).len(), |k: int| i));
    lemma_flatten_len(lists);
    lemma_flatten_len(marks);
    assert(Seq::new(lists.len(), |i: int| lists[i].len()) =~= Seq::new(
        marks.len(),
        |i: int| marks[i].len(),
    ));
}

/// Simple lines are simple one by one, and two of them meet only where both end.
pub proof fn law_simple_lines_meet_at_their_ends<S: Fn(&Vec<(Coord, Coord)>) -> Vec<Meeting>>(
    meetings: S,
    meet: spec_fn(Seq<(Coord, Coord)>) -> Seq<Meeting>,
    lines: Seq<Seq<Coord>>,
    k: int,
)
    requires
        forall|list: &Vec<(Coord, Coord)>, pairs: Vec<Meeting>| #[trigger]
            meetings.ensures((list,), pairs) ==> pairs@ == meet(list@),
        is_simple_verdict(meetings, GeometryView::MultiLineString(lines), true),
        segments_of_all(lines).len() >= 2,
        0 <= k < meet(segments_of_all(lines)).len(),
    ensures
        forall|i: int|
            0 <= i < lines.len() ==> is_simple_verdict(
                meetings,
                GeometryView::LineString(#[trigger] lines[i]),
                true,
            ),
        ({
            let found = meet(segments_of_all(lines))[k];
            let owners = owners_of_all(lines);
            let a = owners[found.first as int];
            let b = owners[found.second as int];
            a != b ==> found.at is Some && has_end(lines[a], found.at->0) && has_end(
                lines[b],
                found.at->0,
            )
        }),
{
    let found = meet(segments_of_all(lines))[k];
    assert(is_segments_verdict(meetings, lines, true));
    assert(may_join(lines, found));
    assert forall|i: int| 0 <= i < lines.len() implies is_simple_verdict(
        meetings,
        GeometryView::LineString(#[trigger] lines[i]),
        true,
    ) by {
        assert(is_line_verdict(meetings, lines[i], true));
    }
}

/// A line that crosses itself is not simple: its segments may meet where they share a vertex only.
pub proof fn law_a_simple_line_does_not_cross_itself<
    S: Fn(&Vec<(Coord, Coord)>) -> Vec<Meeting>,
>(
    meetings: S,
    meet: spec_fn(Seq<(Coord, Coord)>) -> Seq<Meeting>,
    line: Seq<Coord>,
    simple: bool,
)
    requires
        forall|list: &Vec<(Coord, Coord)>, pairs: Vec<Meeting>| #[trigger]
            meetings.ensures((list,), pairs) ==> pairs@ == meet(list@),
        is_simple_verdict(meetings, GeometryView::LineString(line), simple),
        line.len() >= 3,
    ensures
        simple == forall|k: int|
            0 <= k < meet(segments_of(line)).len() ==> may_touch(
                (#[trigger] meet(segments_of(line))[k]).first as int,
                meet(segments_of(line))[k].second as int,
                segments_of(line).len() as int,
                line[0].is_same(line.last()),
            ),
{
}

/// Points are simple where no two of them are the same, and areas always are.
pub proof fn law_simple_points_are_apart<S: Fn(&Vec<(Coord, Coord)>) -> Vec<Meeting>>(
    meetings: S,
    geom: GeometryView,
    simple: bool,
)
    requires
        is_simple_verdict(meetings, geom, simple),
    ensures
        geom is MultiPoint ==> simple == exploded(geom).no_duplicates(),
        is_areal(geom) || geom is Point || geom is Line ==> simple,
{
    if let GeometryView::MultiPoint(points) = geom {
        let parts = exploded(geom);
        if points.no_duplicates() {
            assert(parts.no_duplicates());
        }
        if parts.no_duplicates() {
            assert forall|i: int, j: int|
                0 <= i < points.len() && 0 <= j < points.len() && i != j implies points[i]
                != points[j] by {
                assert(parts[i] != parts[j]);
            }
        }
    }
}

// ------------------------------------------------------------------- emptiness
/// A row is empty exactly when it has no point.
pub proof fn law_an_empty_row_has_no_point(array: ColumnView, i: int)
    ensures
        emptiness_at(array, i) is Some == npoints_at(array, i) is Some,
        npoints_at(array, i) matches Some(n) && n != 0 ==> emptiness_at(array, i) == Some(false),
        emptiness_at(array, i) == Some(true) ==> npoints_at(array, i) == Some(0i32),
        row_count(array, i) is Some && row_count(array, i)->0 <= i32::MAX ==> npoints_at(array, i)
            == Some(row_count(array, i)->0 as i32),
        row_count(array, i) matches Some(n) && 0 < n <= i32::MAX ==> emptiness_at(array, i)
            == Some(false),
{
}

/// A row of the plane has as many points as its value has coordinates.
pub proof fn law_a_row_counts_its_value(array: ColumnView, i: int)
    requires
        array.wf(),
        0 <= i < array.rows(),
        array.raw(i) is Some,
        !(array.body is Rows),
        array.body.coords() matches Some(coords) ==> coords.dim() == Dimension::XY,
    ensures
        row_count(array, i) == Some(coord_count(array.raw(i)->0)),
{
    match array.body {
        BodyView::Point { coords } => {
            lemma_blank(coords, i);
            reveal_with_fuel(solid_run, 2);
        },
        BodyView::MultiPoint { coords, geom_offsets } => {
            assert(geom_offsets[i] <= geom_offsets[i + 1]);
            lemma_solid_run(coords, geom_offsets[i] as int, geom_offsets[i + 1] as int);
        },
        _ => {},
    }
}

proof fn lemma_blank(coords: CoordBufferView, i: int)
    requires
        coords.dim() == Dimension::XY,
    ensures
        coords.is_blank(i) == coords.coord(i).is_blank(),
{
    if coords.is_blank(i) {
        assert(number::is_nan(coords.ordinate(i, 0)));
        assert(number::is_nan(coords.ordinate(i, 1)));
    }
}

proof fn lemma_solid_run(coords: CoordBufferView, start: int, end: int)
    requires
        coords.dim() == Dimension::XY,
        start <= end,
    ensures
        solid_run(coords, start, end) == solid_points(coords.run(start, end)),
    decreases end - start,
{
    if start < end {
        lemma_solid_run(coords, start, end - 1);
        lemma_blank(coords, end - 1);
        let run = coords.run(start, end);
        assert(run.drop_last() =~= coords.run(start, end - 1));
        assert(run.last() == coords.coord(end - 1));
    }
}

// ------------------------------------------------------------------------ grids
/// A grid size is used exactly when it is not zero or less.
pub proof fn law_a_grid_is_positive(size: Seq<Option<u64>>, rows: int, i: int, grid: u64)
    requires
        size.len() == rows,
        0 <= i < rows,
        size[i] == Some(grid),
        !number::is_nan(grid),
    ensures
        grid_at(size, rows, i) == if number::place(grid) > 0 {
            Some(grid)
        } else {
            None
        },
{
}

} // verus!
