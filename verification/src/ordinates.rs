//! What the rows of a column and the parts taken out of them hold.
//!
//! A coordinate has its ordinates in a fixed order, a row a run of coordinates, and a polygon its
//! rings. The laws below say what is read where.

use vstd::prelude::*;
use crate::accessor::{item_dimension, ordinate_at, Ordinate};
use crate::affine::is_moved;
use crate::bbox::{lemma_paths_flatten, lemma_run_split};
use crate::builder::{
    are_boxes, are_lines, are_points, box_corners, flat, flat_rows, line_at, point_at, tuple_at,
};
use crate::column::{
    offsets_fit, raw_polygon_at, settled, BodyView, ColumnView, CoordBufferView, Dimension,
    ItemView,
};
use crate::component::{
    end_position, exterior_number, interior_number, nth_position, ring_at, vertex_at, Index,
    LineEnd,
};
use crate::constructor::{are_two_ended, made_point, slots_at};
use crate::coordinates::{is_step, keeps_rings, law_a_motion_moves_every_coordinate};
use crate::edit::{exploded, grid_at, is_snapped};
use crate::envelope::distance_at;
use crate::geometry::{
    closing, coords_of, is_closed_path, polygon_coords, polygon_over, Coord, Geometry, GeometryView,
    PolygonView,
};
use crate::linear::{end_rows, value_at};
use crate::lists::mapped;
use crate::materialize::run_of;
use crate::number;
use crate::operand::{is_constant, pair_len, slot};
use crate::predicate::{is_distance_answer, Distances};
use crate::process::{parameter_at, rings_of};

verus! {

// ------------------------------------------------------------------- ordinates
/// True when coordinates of a dimension have an ordinate.
pub open spec fn has_ordinate(dim: Dimension, ord: Ordinate) -> bool {
    match ord {
        Ordinate::X => true,
        Ordinate::Y => true,
        Ordinate::Z => dim == Dimension::XYZ || dim == Dimension::XYZM,
        Ordinate::M => dim == Dimension::XYM || dim == Dimension::XYZM,
    }
}

/// One for an ordinate that coordinates of a dimension have, and zero for another.
pub open spec fn one_if(dim: Dimension, ord: Ordinate) -> int {
    if has_ordinate(dim, ord) {
        1
    } else {
        0
    }
}

/// The ordinates stand in the order x, y, z, m, and none that is lacking takes a place.
pub proof fn law_ordinates_stand_in_order(dim: Dimension)
    ensures
        forall|ord: Ordinate| #[trigger] ord.slot(dim) is Some == has_ordinate(dim, ord),
        Ordinate::X.slot(dim) == Some(0int),
        Ordinate::Y.slot(dim) == Some(one_if(dim, Ordinate::X)),
        Ordinate::Z.slot(dim) matches Some(k) ==> k == one_if(dim, Ordinate::X) + one_if(
            dim,
            Ordinate::Y,
        ),
        Ordinate::M.slot(dim) matches Some(k) ==> k == one_if(dim, Ordinate::X) + one_if(
            dim,
            Ordinate::Y,
        ) + one_if(dim, Ordinate::Z),
        dim.count() == one_if(dim, Ordinate::X) + one_if(dim, Ordinate::Y) + one_if(
            dim,
            Ordinate::Z,
        ) + one_if(dim, Ordinate::M),
{
}

/// A point gives back the ordinates that it was made of.
pub proof fn law_a_made_point_gives_its_ordinates(
    array: ColumnView,
    i: int,
    x: u64,
    y: u64,
    z: u64,
)
    requires
        array.body is Point,
        !array.is_null(i),
    ensures
        made_point(Some(x), Some(y), None) == Some(tuple_at(array.body->Point_coords, i)) ==> {
            &&& ordinate_at(array, Ordinate::X, i) == Some(x)
            &&& ordinate_at(array, Ordinate::Y, i) == Some(y)
            &&& ordinate_at(array, Ordinate::Z, i) is None
            &&& ordinate_at(array, Ordinate::M, i) is None
        },
        array.body->Point_coords.dim() == Dimension::XYZ && made_point(
            Some(x),
            Some(y),
            Some(Some(z)),
        ) == Some(tuple_at(array.body->Point_coords, i)) ==> {
            &&& ordinate_at(array, Ordinate::X, i) == Some(x)
            &&& ordinate_at(array, Ordinate::Y, i) == Some(y)
            &&& ordinate_at(array, Ordinate::Z, i) == Some(z)
            &&& ordinate_at(array, Ordinate::M, i) is None
        },
{
    let coords = array.body->Point_coords;
    let tuple = tuple_at(coords, i);
    if made_point(Some(x), Some(y), None) == Some(tuple) {
        assert(seq![x, y].len() == tuple.len());
        assert(tuple[0] == x && tuple[1] == y);
    }
    if coords.dim() == Dimension::XYZ && made_point(Some(x), Some(y), Some(Some(z))) == Some(
        tuple,
    ) {
        assert(tuple[0] == x && tuple[1] == y && tuple[2] == z);
    }
}

/// A point has all of its ordinates or it is not made.
pub proof fn law_a_null_ordinate_makes_no_point(
    x: Option<u64>,
    y: Option<u64>,
    z: Option<Option<u64>>,
)
    ensures
        made_point(x, y, z) is Some == (x is Some && y is Some && z != Some(None::<u64>)),
{
}

/// The x and y of a point row are those of its geometry.
pub proof fn law_x_and_y_are_those_of_the_point(array: ColumnView, i: int, c: Coord)
    requires
        array.raw(i) == Some(GeometryView::Point(c)),
        array.body is Point || (array.body is Rows && !(
        array.body->Rows_items[i]->0.is_empty_point())),
    ensures
        ordinate_at(array, Ordinate::X, i) == Some(c.x),
        ordinate_at(array, Ordinate::Y, i) == Some(c.y),
{
}

// ------------------------------------------------------------------------ rows
/// Where the run of a row starts.
pub open spec fn run_start(array: ColumnView, i: int) -> int {
    let (start, _) = run_of(array.body, i)->0;
    start
}

/// Where the run of a row ends.
pub open spec fn run_end(array: ColumnView, i: int) -> int {
    let (_, end) = run_of(array.body, i)->0;
    end
}

/// The coordinates of a row of a native column are the run that its offsets bound, in order.
pub proof fn law_a_row_lists_its_run(array: ColumnView, i: int)
    requires
        array.wf(),
        0 <= i < array.rows(),
        array.raw(i) is Some,
        run_of(array.body, i) is Some,
    ensures
        coords_of(array.raw(i)->0) == array.body.coords()->0.run(
            run_start(array, i),
            run_end(array, i),
        ),
{
    match array.body {
        BodyView::Point { coords } => {
            assert(coords.run(i, i + 1) =~= seq![coords.coord(i)]);
        },
        BodyView::Polygon { coords, geom_offsets, ring_offsets } => {
            lemma_offsets(geom_offsets, ring_offsets.len() - 1, i);
            lemma_polygon_lists(
                coords,
                ring_offsets,
                geom_offsets[i] as int,
                geom_offsets[i + 1] as int,
            );
        },
        BodyView::MultiLineString { coords, geom_offsets, ring_offsets } => {
            lemma_offsets(geom_offsets, ring_offsets.len() - 1, i);
            lemma_paths_flatten(
                coords,
                ring_offsets,
                geom_offsets[i] as int,
                geom_offsets[i + 1] as int,
            );
        },
        BodyView::MultiPolygon { coords, geom_offsets, polygon_offsets, ring_offsets } => {
            lemma_offsets(geom_offsets, polygon_offsets.len() - 1, i);
            let first = geom_offsets[i] as int;
            let count = geom_offsets[i + 1] - geom_offsets[i];
            lemma_polygons_list(coords, polygon_offsets, ring_offsets, first, count);
            let polygons = array.raw(i)->0->MultiPolygon_0;
            assert(Seq::new(polygons.len(), |k: int| polygon_coords(polygons[k])) =~= polygon_lists(
                coords,
                polygon_offsets,
                ring_offsets,
                first,
                count,
            ));
        },
        _ => {},
    }
}

proof fn lemma_offsets(offsets: Seq<i32>, children: int, i: int)
    requires
        offsets_fit(offsets, children),
        0 <= i < offsets.len() - 1,
    ensures
        0 <= offsets[i] <= offsets[i + 1] <= children,
{
    assert(offsets[0] <= offsets[i]);
    assert(offsets[i] <= offsets[i + 1]);
    assert(offsets[i + 1] <= offsets[offsets.len() - 1]);
}

proof fn lemma_polygon_lists(coords: CoordBufferView, offsets: Seq<i32>, first: int, last: int)
    requires
        offsets_fit(offsets, coords.len()),
        0 <= first <= last < offsets.len(),
    ensures
        polygon_coords(raw_polygon_at(coords, offsets, first, last)) == coords.run(
            offsets[first] as int,
            offsets[last] as int,
        ),
{
    let polygon = raw_polygon_at(coords, offsets, first, last);
    if first == last {
        assert(polygon.interiors.flatten() =~= Seq::empty());
        assert(polygon_coords(polygon) =~= coords.run(offsets[first] as int, offsets[last] as int));
    } else {
        lemma_paths_flatten(coords, offsets, first + 1, last);
        assert(offsets[first] <= offsets[first + 1]);
        assert(offsets[first + 1] <= offsets[last]);
        lemma_run_split(
            coords,
            offsets[first] as int,
            offsets[first + 1] as int,
            offsets[last] as int,
        );
    }
}

/// The coordinates of `count` polygons from `first` on.
pub open spec fn polygon_lists(
    coords: CoordBufferView,
    polygon_offsets: Seq<i32>,
    ring_offsets: Seq<i32>,
    first: int,
    count: int,
) -> Seq<Seq<Coord>> {
    Seq::new(
        count as nat,
        |k: int|
            polygon_coords(
                raw_polygon_at(
                    coords,
                    ring_offsets,
                    polygon_offsets[first + k] as int,
                    polygon_offsets[first + k + 1] as int,
                ),
            ),
    )
}

proof fn lemma_polygons_list(
    coords: CoordBufferView,
    polygon_offsets: Seq<i32>,
    ring_offsets: Seq<i32>,
    first: int,
    count: int,
)
    requires
        offsets_fit(ring_offsets, coords.len()),
        offsets_fit(polygon_offsets, ring_offsets.len() - 1),
        0 <= first,
        0 <= count,
        first + count < polygon_offsets.len(),
    ensures
        polygon_lists(coords, polygon_offsets, ring_offsets, first, count).flatten() == coords.run(
            ring_offsets[polygon_offsets[first] as int] as int,
            ring_offsets[polygon_offsets[first + count] as int] as int,
        ),
    decreases count,
{
    let lists = polygon_lists(coords, polygon_offsets, ring_offsets, first, count);
    let start = polygon_offsets[first] as int;
    let end = polygon_offsets[first + count] as int;
    assert(polygon_offsets[0] <= polygon_offsets[first]);
    assert(polygon_offsets[first] <= polygon_offsets[first + count]);
    assert(polygon_offsets[first + count] <= polygon_offsets[polygon_offsets.len() - 1]);
    if count == 0 {
        assert(lists.flatten() =~= coords.run(ring_offsets[start] as int, ring_offsets[end] as int));
    } else {
        let middle = polygon_offsets[first + count - 1] as int;
        lemma_polygons_list(coords, polygon_offsets, ring_offsets, first, count - 1);
        let front = polygon_lists(coords, polygon_offsets, ring_offsets, first, count - 1);
        assert(lists =~= front.push(lists[count - 1]));
        front.lemma_flatten_push(lists[count - 1]);
        assert(polygon_offsets[first] <= polygon_offsets[first + count - 1]);
        assert(polygon_offsets[first + count - 1] <= polygon_offsets[first + count]);
        lemma_polygon_lists(coords, ring_offsets, middle, end);
        assert(ring_offsets[start] <= ring_offsets[middle]);
        assert(ring_offsets[middle] <= ring_offsets[end]);
        lemma_run_split(
            coords,
            ring_offsets[start] as int,
            ring_offsets[middle] as int,
            ring_offsets[end] as int,
        );
    }
}

/// Reading a row closes the rings of its polygons and puts the corners of a box in order. What has
/// neither stays as it is stored.
pub proof fn law_a_row_is_read_as_it_is_stored(array: ColumnView, i: int)
    requires
        array.raw(i) is Some,
    ensures
        array.geometry(i) == Some(settled(array.raw(i)->0)),
        !(array.raw(i)->0 is Polygon || array.raw(i)->0 is MultiPolygon || array.raw(i)->0 is Rect
            || array.raw(i)->0 is GeometryCollection) ==> array.geometry(i) == array.raw(i),
        array.raw(i)->0 matches GeometryView::Polygon(polygon) ==> {
            &&& is_closed_path(polygon.exterior) && (forall|k: int|
                0 <= k < polygon.interiors.len() ==> is_closed_path(
                    #[trigger] polygon.interiors[k],
                )) ==> array.geometry(i) == array.raw(i)
        },
        array.raw(i)->0 matches GeometryView::Rect(low, high) ==> {
            &&& number::is_lt(low.x, high.x) && number::is_lt(low.y, high.y) ==> array.geometry(i)
                == array.raw(i)
            &&& number::is_lt(high.x, low.x) && number::is_lt(high.y, low.y) ==> array.geometry(i)
                == Some(GeometryView::Rect(high, low))
        },
{
    if let GeometryView::Polygon(polygon) = array.raw(i)->0 {
        let closed = polygon_over(polygon.exterior, polygon.interiors);
        if is_closed_path(polygon.exterior) && (forall|k: int|
            0 <= k < polygon.interiors.len() ==> is_closed_path(#[trigger] polygon.interiors[k])) {
            assert(closed.interiors =~= polygon.interiors);
        }
    }
}

/// Reading closes the rings of a polygon one by one, and reads a geometry with parts part by part.
pub proof fn law_parts_are_read_one_by_one(geom: GeometryView, k: int)
    ensures
        exploded(settled(geom)).len() == exploded(geom).len(),
        0 <= k < exploded(geom).len() ==> exploded(settled(geom))[k] == settled(exploded(geom)[k]),
        geom matches GeometryView::Polygon(polygon) ==> {
            let read = settled(geom)->Polygon_0;
            &&& settled(geom) is Polygon
            &&& rings_of(read).len() == rings_of(polygon).len()
            &&& 0 <= k < rings_of(polygon).len() ==> rings_of(read)[k] == closing(
                rings_of(polygon)[k],
            )
        },
{
}

// ----------------------------------------------------------------------- parts
/// True when ordinates start with those of a position.
pub open spec fn is_position_of(ordinates: Seq<u64>, c: Coord) -> bool {
    ordinates.len() >= 2 && ordinates[0] == c.x && ordinates[1] == c.y
}

/// The start of a line is its first vertex, its end the last, and its nth the nth.
pub proof fn law_vertices_are_those_of_the_line(
    array: ColumnView,
    i: int,
    line: Seq<Coord>,
    n: i32,
)
    requires
        array.wf(),
        0 <= i < array.rows(),
        array.raw(i) == Some(GeometryView::LineString(line)),
    ensures
        end_position(array, LineEnd::Start, i) matches Some(p) ==> is_position_of(
            vertex_at(array, i, p),
            line[0],
        ),
        end_position(array, LineEnd::End, i) matches Some(p) ==> is_position_of(
            vertex_at(array, i, p),
            line.last(),
        ),
        end_position(array, LineEnd::Start, i) is Some == (line.len() > 0),
        end_position(array, LineEnd::End, i) is Some == (line.len() > 0),
        nth_position(array, Index::Constant(Some(n)), i) is Some == (1 <= n <= line.len()),
        1 <= n <= line.len() ==> is_position_of(
            vertex_at(array, i, nth_position(array, Index::Constant(Some(n)), i)->0),
            line[n - 1],
        ),
{
    assert forall|p: int| 0 <= p < line.len() implies is_position_of(
        #[trigger] vertex_at(array, i, p),
        line[p],
    ) by {}
    if line.len() > 0 {
        assert(is_position_of(vertex_at(array, i, 0), line[0]));
        assert(is_position_of(vertex_at(array, i, line.len() - 1), line[line.len() - 1]));
    }
    if 1 <= n <= line.len() {
        assert(is_position_of(vertex_at(array, i, n - 1), line[n - 1]));
    }
}

/// The outer ring of a polygon is its shell, and its nth inner ring its nth hole.
pub proof fn law_rings_are_those_of_the_polygon(
    array: ColumnView,
    i: int,
    polygon: PolygonView,
    n: i32,
    k: int,
)
    requires
        array.wf(),
        0 <= i < array.rows(),
        array.raw(i) == Some(GeometryView::Polygon(polygon)),
    ensures
        exterior_number(array, i) matches Some(at) ==> {
            let ring = ring_at(array, i, at);
            &&& ring.len() == polygon.exterior.len()
            &&& 0 <= k < ring.len() ==> is_position_of(ring[k], polygon.exterior[k])
        },
        exterior_number(array, i) is None ==> polygon.exterior.len() == 0,
        interior_number(array, Index::Constant(Some(n)), i) is Some == (1 <= n
            <= polygon.interiors.len()),
        interior_number(array, Index::Constant(Some(n)), i) matches Some(at) ==> {
            let ring = ring_at(array, i, at);
            &&& ring.len() == polygon.interiors[n - 1].len()
            &&& 0 <= k < ring.len() ==> is_position_of(ring[k], polygon.interiors[n - 1][k])
        },
{
    if let BodyView::Polygon { coords, geom_offsets, ring_offsets } = array.body {
        lemma_offsets(geom_offsets, ring_offsets.len() - 1, i);
        let first = geom_offsets[i] as int;
        let last = geom_offsets[i + 1] as int;
        if first < last {
            assert(ring_offsets[first] <= ring_offsets[first + 1]);
            assert(polygon.interiors.len() == last - first - 1);
            if 1 <= n <= polygon.interiors.len() {
                let at = first + n;
                assert(ring_offsets[at] <= ring_offsets[at + 1]);
                assert(polygon.interiors[n - 1] == coords.run(
                    ring_offsets[first + 1 + (n - 1)] as int,
                    ring_offsets[first + 1 + (n - 1) + 1] as int,
                ));
            }
        }
    }
}

// --------------------------------------------------------------- built columns
/// A column built over points holds the point of each row.
pub proof fn law_a_point_column_holds_its_points(
    array: ColumnView,
    dim: Dimension,
    rows: Seq<Option<Seq<u64>>>,
    i: int,
)
    requires
        are_points(array, dim, rows),
        0 <= i < rows.len(),
    ensures
        rows[i] is None ==> array.raw(i) is None,
        rows[i] matches Some(tuple) ==> (array.raw(i) matches Some(GeometryView::Point(c))
            && is_position_of(tuple, c)),
{
    assert(point_at(array, i) == rows[i]);
}

/// A column built over lines holds the line of each row.
pub proof fn law_a_line_column_holds_its_lines(
    array: ColumnView,
    dim: Dimension,
    rows: Seq<Option<Seq<Seq<u64>>>>,
    i: int,
    k: int,
)
    requires
        are_lines(array, dim, rows),
        0 <= i < rows.len(),
    ensures
        rows[i] is None ==> array.raw(i) is None,
        rows[i] matches Some(tuples) ==> (array.raw(i) matches Some(GeometryView::LineString(line))
            && line.len() == tuples.len() && (0 <= k < tuples.len() ==> is_position_of(
            tuples[k],
            line[k],
        ))),
{
    assert(line_at(array, i) == rows[i]);
}

/// A column built over boxes holds the box of each row.
pub proof fn law_a_box_column_holds_its_boxes(
    array: ColumnView,
    rows: Seq<Option<(Coord, Coord)>>,
    i: int,
)
    requires
        are_boxes(array, rows),
        0 <= i < rows.len(),
    ensures
        rows[i] is None ==> array.raw(i) is None,
        rows[i] matches Some((low, high)) ==> array.raw(i) == Some(GeometryView::Rect(low, high)),
{
    assert(box_corners(array, i) == rows[i]);
}

/// The shortest line of a row is a line of two vertices, from its first end to its second.
pub proof fn law_two_ends_make_a_line(
    array: ColumnView,
    found: Seq<Option<(Coord, Coord)>>,
    i: int,
)
    requires
        are_lines(array, Dimension::XY, end_rows(found)),
        0 <= i < found.len(),
    ensures
        found[i] is None ==> array.raw(i) is None,
        found[i] matches Some((a, b)) ==> array.raw(i) == Some(
            GeometryView::LineString(seq![a, b]),
        ),
{
    let rows = end_rows(found);
    law_a_line_column_holds_its_lines(array, Dimension::XY, rows, i, 0);
    law_a_line_column_holds_its_lines(array, Dimension::XY, rows, i, 1);
    if let Some((a, b)) = found[i] {
        let line = array.raw(i)->0->LineString_0;
        assert(rows[i] == Some(seq![flat(a), flat(b)]));
        assert(line =~= seq![a, b]);
    }
}

/// A point in the plane is a row of its x and its y.
pub proof fn law_a_position_is_a_row(array: ColumnView, found: Seq<Option<Coord>>, i: int)
    requires
        are_points(array, Dimension::XY, flat_rows(found)),
        0 <= i < found.len(),
    ensures
        array.raw(i) == match found[i] {
            Some(c) => Some(GeometryView::Point(c)),
            None => None,
        },
{
    law_a_point_column_holds_its_points(array, Dimension::XY, flat_rows(found), i);
}

/// A made line runs from the point of the first column to that of the second.
pub proof fn law_a_made_line_joins_two_points(
    array: ColumnView,
    start: CoordBufferView,
    end: CoordBufferView,
    dim: Dimension,
    rows: int,
    i: int,
)
    requires
        start.wf() && end.wf(),
        start.dim() == dim && end.dim() == dim,
        start.len() == rows && end.len() == rows,
        2 * rows <= i32::MAX,
        are_two_ended(array.body, start, end, dim, rows),
        array.body->LineString_coords.dim() == dim,
        0 <= i < rows,
        !array.is_null(i),
    ensures
        array.raw(i) == Some(GeometryView::LineString(seq![start.coord(i), end.coord(i)])),
{
    let coords = array.body->LineString_coords;
    let offsets = array.body->LineString_geom_offsets;
    let line = array.raw(i)->0->LineString_0;
    assert(offsets[i] == 2 * i && offsets[i + 1] == 2 * (i + 1));
    lemma_slots(start, dim, i);
    lemma_slots(end, dim, i);
    let first = tuple_at(coords, 2 * i);
    let second = tuple_at(coords, 2 * i + 1);
    assert(first[0] == start.ordinate(i, 0) && first[1] == start.ordinate(i, 1));
    assert(second[0] == end.ordinate(i, 0) && second[1] == end.ordinate(i, 1));
    assert(line =~= seq![start.coord(i), end.coord(i)]);
}

proof fn lemma_slots(coords: CoordBufferView, dim: Dimension, i: int)
    requires
        coords.wf(),
        coords.dim() == dim,
        0 <= i < coords.len(),
    ensures
        slots_at(coords, dim, i).len() >= 2,
        slots_at(coords, dim, i)[0] == coords.ordinate(i, 0),
        slots_at(coords, dim, i)[1] == coords.ordinate(i, 1),
{
    match coords {
        CoordBufferView::Separated(buffers, _) => {
            assert(buffers[1].len() == buffers[0].len());
        },
        CoordBufferView::Interleaved(values, _) => {
            let w = dim.count();
            let n = coords.len();
            assert(i * w + 1 < values.len()) by (nonlinear_arith)
                requires
                    0 <= i < n,
                    n == values.len() as int / w,
                    values.len() as int % w == 0,
                    w >= 2,
            ;
        },
    }
}

/// A decoded point has its z and its m where its dimension has them.
pub proof fn law_a_decoded_point_has_its_ordinates(array: ColumnView, i: int, item: ItemView)
    requires
        array.body is Rows,
        !array.is_null(i),
        array.body->Rows_items[i] == Some(item),
        item.geometry is Point,
        !item.is_empty_point(),
    ensures
        ordinate_at(array, Ordinate::Z, i) == if has_ordinate(item.dim, Ordinate::Z) {
            Some(item.z)
        } else {
            None
        },
        ordinate_at(array, Ordinate::M, i) == if has_ordinate(item.dim, Ordinate::M) {
            Some(item.m)
        } else {
            None
        },
        item_dimension(array, i) == Some(
            (one_if(item.dim, Ordinate::X) + one_if(item.dim, Ordinate::Y) + one_if(
                item.dim,
                Ordinate::Z,
            ) + one_if(item.dim, Ordinate::M)) as i32,
        ),
{
}

/// A number of a call that is given once stands for every row, and else each row has its own.
pub proof fn law_one_number_stands_for_every_row(
    values: Seq<Option<u64>>,
    rows: int,
    i: int,
)
    requires
        0 <= i < rows,
        values.len() == rows || values.len() == 1,
    ensures
        values.len() == rows ==> {
            &&& value_at(values, i) == values[i]
            &&& distance_at(values, rows, i) == values[i]
            &&& parameter_at(values, rows, i) == values[i]
        },
        values.len() == 1 ==> {
            &&& value_at(values, i) == values[0]
            &&& distance_at(values, rows, i) == values[0]
            &&& parameter_at(values, rows, i) == values[0]
        },
{
}

/// A snapped row has every coordinate on the grid of its size. A row without a size or without a
/// geometry has nothing.
pub proof fn law_a_snapped_row_lies_on_its_grid<G: Fn(Coord) -> Coord, S: Fn(u64) -> G>(
    array: ColumnView,
    size: Seq<Option<u64>>,
    snap: S,
    on_grid: spec_fn(u64, Coord) -> Coord,
    grid: u64,
    i: int,
    out: Option<Geometry>,
)
    requires
        0 <= i < array.rows(),
        size.len() == array.rows(),
        forall|g: u64, step: G| #[trigger]
            snap.ensures((g,), step) ==> is_step(step, |c: Coord| on_grid(g, c)),
        is_snapped(array, size, snap, i, out),
    ensures
        array.geometry(i) is None || size[i] is None ==> out is None,
        size[i] == Some(grid) && number::is_lt(number::ZERO, grid) && array.geometry(i) is Some
            && keeps_rings(|c: Coord| on_grid(grid, c), array.geometry(i)->0) ==> out is Some
            && coords_of(out->0@) == mapped(
            |c: Coord| on_grid(grid, c),
            coords_of(array.geometry(i)->0),
        ),
{
    if size[i] == Some(grid) && number::is_lt(number::ZERO, grid) && array.geometry(i) is Some
        && keeps_rings(|c: Coord| on_grid(grid, c), array.geometry(i)->0) {
        let geom = array.geometry(i)->0;
        assert(grid_at(size, array.rows(), i) == Some(grid));
        let step = choose|step: G| #[trigger]
            snap.ensures((grid,), step) && out is Some && is_moved(step, geom, out->0@);
        law_a_motion_moves_every_coordinate(step, |c: Coord| on_grid(grid, c), geom, out->0@);
    }
}

// ----------------------------------------------------------------------- pairs
/// Two sides make as many rows as either has, or as the other has where one of them is a single
/// value. Which side it is makes no difference.
pub proof fn law_one_value_is_stretched(left: int, right: int)
    requires
        left >= 0,
        right >= 0,
    ensures
        pair_len(left, right) == pair_len(right, left),
        pair_len(left, left) == Some(left),
        pair_len(1, right) == Some(right),
        pair_len(left, right) is Some == (left == right || left == 1 || right == 1),
        pair_len(left, right) matches Some(rows) ==> (rows == left || rows == right) && (left != 1
            ==> rows == left) && (right != 1 ==> rows == right),
{
}

/// Row `i` reads row `i` of a side that has as many rows, and the only row of a single value.
pub proof fn law_each_row_reads_its_own(own: int, rows: int, i: int)
    requires
        0 <= i < rows,
        own == rows || own == 1,
    ensures
        0 <= slot(own, rows, i) < own,
        own == rows ==> slot(own, rows, i) == i,
        own == 1 ==> slot(own, rows, i) == 0,
        is_constant(own, rows) ==> own == 1,
{
}

/// Two geometries are fully within a radius exactly when their spread is no larger. A distance equal
/// to the radius is within it.
pub proof fn law_fully_within_compares_the_spread<N, F, M, P>(
    distances: Distances<N, F, M, P>,
    spread: spec_fn(GeometryView, GeometryView) -> u64,
    radius: u64,
    left: ColumnView,
    i: int,
    right: ColumnView,
    j: int,
    out: Option<bool>,
) where
    N: Fn(&Geometry, &Geometry) -> u64,
    F: Fn(&Geometry, &Geometry) -> u64,
    M: Fn(u64, u64) -> u64,
    P: Fn(u64, u64) -> u64,

    requires
        forall|a: &Geometry, b: &Geometry, d: u64| #[trigger]
            distances.spread.ensures((a, b), d) ==> d == spread(a@, b@),
        left.raw(i) is Some,
        right.raw(j) is Some,
        is_distance_answer(distances, radius, true, left, i, right, j, out),
    ensures
        ({
            let d = spread(left.geometry(i)->0, right.geometry(j)->0);
            out == Some(
                !number::is_nan(d) && !number::is_nan(radius) && number::place(d) <= number::place(
                    radius,
                ),
            )
        }),
{
}

} // verus!
