//! What the kernels answer, row by row.
//!
//! The laws below follow a row from the column that it stands in to the answer of a kernel.

use vstd::prelude::*;
use crate::accessor::{are_ordinates, are_values, Ordinate};
use crate::affine::are_moved_rows;
use crate::aggregate::{gathered, is_first_broken, is_gathered};
use crate::builder::are_points;
use crate::cluster::{is_clustered, is_dbscan, is_kmeans, Cluster};
use crate::column::{BodyView, Column, ColumnView, CoordBufferView, DataTypeView, Dimension};
use crate::component::{
    are_taken, end_position, exterior_number, geometry_view, interior_number, nth_position, picked,
    ring_at, taken, Index, LineEnd,
};
use crate::constructor::made_polygon;
use crate::coordinates::{is_step, keeps_rings, law_a_motion_moves_every_coordinate};
use crate::edit::{are_edited, edited_line, edited_row, VertexEdit};
use crate::envelope::{corners, is_expanded_row};
use crate::error::Error;
use crate::geometry::{coords_of, is_closed_path, Coord, Geometry, GeometryView, PolygonView};
use crate::io::{is_geohash, is_stamped, has_srid};
use crate::layout::{entries_of, is_takeable, part_walk, word_in};
use crate::linear::are_pair_rows;
use crate::lists::mapped;
use crate::materialize::run_of;
use crate::matrix::IntersectionMatrix;
use crate::measure::{are_measured, is_always_zero, is_measure, UnaryMeasure};
use crate::number;
use crate::operand::{has_pair_broken, is_pair_read, slot};
use crate::ordinates::{
    has_ordinate, law_a_line_column_holds_its_lines, law_a_point_column_holds_its_points,
    law_a_row_lists_its_run, law_ordinates_stand_in_order, law_rings_are_those_of_the_polygon,
    law_vertices_are_those_of_the_line, run_end, run_start,
};
use crate::predicate::{are_predicate_rows, is_row_answer, Direct, Exact, Predicate};
use crate::quantity::{
    is_exact, law_a_length_is_that_of_the_lines, law_a_perimeter_is_the_length_of_the_boundary, rim,
    way,
};
use crate::ring::Orientation;
use crate::transform::{
    flipped, is_forced, is_rebuilt, law_a_flip_swaps_x_and_y, law_a_resize_keeps_shared_ordinates,
    law_offsets_survive_a_transform, resized,
};

verus! {

// ------------------------------------------------------------------ transforms
/// A flipped row has the x and the y of each of its coordinates swapped, and nothing else changed.
pub proof fn law_a_flipped_row_has_x_and_y_swapped(
    array: ColumnView,
    function: Seq<char>,
    column: Column,
    i: int,
    k: int,
)
    requires
        array.wf(),
        array.body.coords() is Some,
        is_rebuilt(
            array,
            function,
            |coords: CoordBufferView| flipped(coords),
            Ok::<Column, Error>(column),
        ),
        0 <= i < array.rows(),
        array.raw(i) is Some,
        0 <= k < coords_of(array.raw(i)->0).len(),
    ensures
        column@.rows() == array.rows(),
        column@.raw(i) is Some,
        coords_of(column@.raw(i)->0).len() == coords_of(array.raw(i)->0).len(),
        coords_of(column@.raw(i)->0)[k].x == coords_of(array.raw(i)->0)[k].y,
        coords_of(column@.raw(i)->0)[k].y == coords_of(array.raw(i)->0)[k].x,
        column@.body.kind() == array.body.kind(),
        column@.metadata == array.metadata,
{
    let before = array.body.coords()->0;
    let after = flipped(before);
    lemma_flip(before);
    law_offsets_survive_a_transform(array, after, i);
    law_a_row_lists_its_run(array, i);
    law_a_row_lists_its_run(column@, i);
    lemma_run_is_inside(array, i);
    let at = run_start(array, i) + k;
    law_a_flip_swaps_x_and_y(before, at, 0);
    law_a_flip_swaps_x_and_y(before, at, 1);
}

proof fn lemma_flip(coords: CoordBufferView)
    requires
        coords.wf(),
    ensures
        flipped(coords).wf(),
        flipped(coords).len() == coords.len(),
{
    crate::transform::lemma_flip_shape(coords);
}

/// The run of a row lies in the coordinates of its column.
proof fn lemma_run_is_inside(array: ColumnView, i: int)
    requires
        array.wf(),
        0 <= i < array.rows(),
        run_of(array.body, i) is Some,
    ensures
        0 <= run_start(array, i) <= run_end(array, i) <= array.body.coords()->0.len(),
{
    match array.body {
        BodyView::LineString { coords, geom_offsets } => lemma_inside(geom_offsets, i, i + 1),
        BodyView::MultiPoint { coords, geom_offsets } => lemma_inside(geom_offsets, i, i + 1),
        BodyView::Polygon { coords, geom_offsets, ring_offsets } => {
            lemma_inside(geom_offsets, i, i + 1);
            lemma_inside(ring_offsets, geom_offsets[i] as int, geom_offsets[i + 1] as int);
        },
        BodyView::MultiLineString { coords, geom_offsets, ring_offsets } => {
            lemma_inside(geom_offsets, i, i + 1);
            lemma_inside(ring_offsets, geom_offsets[i] as int, geom_offsets[i + 1] as int);
        },
        BodyView::MultiPolygon { coords, geom_offsets, polygon_offsets, ring_offsets } => {
            lemma_inside(geom_offsets, i, i + 1);
            let first = geom_offsets[i] as int;
            let last = geom_offsets[i + 1] as int;
            lemma_inside(polygon_offsets, first, last);
            lemma_inside(ring_offsets, polygon_offsets[first] as int, polygon_offsets[last] as int);
        },
        _ => {},
    }
}

proof fn lemma_inside(offsets: Seq<i32>, a: int, b: int)
    requires
        0 <= a <= b < offsets.len(),
        0 <= offsets[0],
        forall|i: int, j: int|
            0 <= i <= j < offsets.len() ==> #[trigger] offsets[i] <= #[trigger] offsets[j],
    ensures
        0 <= offsets[a] <= offsets[b] <= offsets[offsets.len() - 1],
{
    assert(offsets[0] <= offsets[a]);
    assert(offsets[a] <= offsets[b]);
    assert(offsets[b] <= offsets[offsets.len() - 1]);
}

/// A row that is forced to a dimension keeps its positions, and its column has that dimension.
pub proof fn law_a_forced_row_keeps_its_positions(
    array: ColumnView,
    function: Seq<char>,
    target: Dimension,
    column: Column,
    i: int,
)
    requires
        array.wf(),
        array.body.coords() is Some,
        array.body.coords()->0.len() > 0,
        is_forced(array, function, target, Ok::<Column, Error>(column)),
        0 <= i < array.rows(),
        array.raw(i) is Some,
    ensures
        column@.body.dimension() == Some(target),
        column@.rows() == array.rows(),
        column@.raw(i) is Some,
        coords_of(column@.raw(i)->0) == coords_of(array.raw(i)->0),
        column@.body.kind() == array.body.kind(),
{
    let before = array.body.coords()->0;
    if array.body.dimension() != Some(target) {
        let after = resized(before, target);
        law_a_resize_keeps_shared_ordinates(before, target, 0, 0);
        law_offsets_survive_a_transform(array, after, i);
        law_a_row_lists_its_run(array, i);
        law_a_row_lists_its_run(column@, i);
        lemma_run_is_inside(array, i);
        assert forall|k: int| 0 <= k < before.len() implies #[trigger] after.coord(k)
            == before.coord(k) by {
            law_a_resize_keeps_shared_ordinates(before, target, k, 0);
        }
        assert(coords_of(column@.raw(i)->0) =~= coords_of(array.raw(i)->0));
    }
}

/// An ordinate that both dimensions have is kept, and one that is new is zero.
pub proof fn law_a_resize_keeps_each_ordinate(
    coords: CoordBufferView,
    target: Dimension,
    i: int,
    ord: Ordinate,
)
    requires
        coords.wf(),
        0 <= i < coords.len(),
        has_ordinate(target, ord),
    ensures
        resized(coords, target).ordinate(i, ord.slot(target)->0) == if has_ordinate(
            coords.dim(),
            ord,
        ) {
            coords.ordinate(i, ord.slot(coords.dim())->0)
        } else {
            number::ZERO
        },
{
    law_ordinates_stand_in_order(target);
    law_ordinates_stand_in_order(coords.dim());
    law_a_resize_keeps_shared_ordinates(coords, target, i, ord.slot(target)->0);
}

/// Each coordinate of a moved row is moved.
pub proof fn law_a_moved_row_has_every_coordinate_moved<F: Fn(Coord) -> Coord>(
    step: F,
    f: spec_fn(Coord) -> Coord,
    array: ColumnView,
    out: Seq<Option<Geometry>>,
    i: int,
)
    requires
        is_step(step, f),
        are_moved_rows(step, array, out),
        0 <= i < array.rows(),
    ensures
        out.len() == array.rows(),
        array.geometry(i) is None ==> out[i] is None,
        array.geometry(i) is Some ==> out[i] is Some,
        array.geometry(i) is Some && keeps_rings(f, array.geometry(i)->0) ==> coords_of(
            out[i]->0@,
        ) == mapped(f, coords_of(array.geometry(i)->0)),
{
    let row = out[i];
    if array.geometry(i) is Some && keeps_rings(f, array.geometry(i)->0) {
        law_a_motion_moves_every_coordinate(step, f, array.geometry(i)->0, row->0@);
    }
}

// ------------------------------------------------------------------- accessors
/// The x of a point row is the x of its point, and the y its y. A null has neither.
pub proof fn law_a_point_row_gives_x_and_y(
    array: ColumnView,
    xs: Vec<Option<u64>>,
    ys: Vec<Option<u64>>,
    i: int,
)
    requires
        array.body is Point,
        0 <= i < array.rows(),
        are_ordinates(array, Ordinate::X, Ok::<Vec<Option<u64>>, Error>(xs)),
        are_ordinates(array, Ordinate::Y, Ok::<Vec<Option<u64>>, Error>(ys)),
    ensures
        xs@.len() == array.rows(),
        ys@.len() == array.rows(),
        match array.raw(i) {
            Some(GeometryView::Point(c)) => xs@[i] == Some(c.x) && ys@[i] == Some(c.y),
            _ => xs@[i] is None && ys@[i] is None,
        },
{
}

/// A kernel over stored values gives for each row the function of its value, and nothing for a null.
pub proof fn law_each_value_has_its_answer<T>(
    array: ColumnView,
    f: spec_fn(GeometryView) -> Option<T>,
    out: Vec<Option<T>>,
    i: int,
)
    requires
        are_values(array, f, Ok::<Vec<Option<T>>, Error>(out)),
        0 <= i < array.rows(),
    ensures
        out@.len() == array.rows(),
        array.is_null(i) ==> out@[i] is None,
        !array.is_null(i) ==> array.raw(i) is Some && out@[i] == f(array.raw(i)->0),
{
    let row = out@[i];
    if !array.is_null(i) && array.raw(i) is None {
        assert(array.is_broken(i));
    }
}

// -------------------------------------------------------------------- measures
/// The length of a row is that of the lines of its geometry, and the perimeter that of the rings of
/// its areas, whether or not the type of its column settles it.
pub proof fn law_a_row_measures_its_geometry<A, L, P>(
    array: ColumnView,
    measure: UnaryMeasure,
    area: A,
    length: L,
    plus: P,
    value: spec_fn(u64) -> int,
    len: spec_fn(Seq<Coord>) -> int,
    out: Vec<Option<u64>>,
    i: int,
) where A: Fn(&Geometry) -> u64, L: Fn(&Vec<Coord>) -> u64, P: Fn(u64, u64) -> u64
    requires
        array.wf(),
        is_exact(length, plus, value, len),
        are_measured(array, measure, area, length, plus, Ok::<Vec<Option<u64>>, Error>(out)),
        measure != UnaryMeasure::Area,
        0 <= i < array.rows(),
    ensures
        array.geometry(i) is None ==> out@[i] is None,
        array.geometry(i) is Some ==> out@[i] is Some,
        array.geometry(i) is Some && measure == UnaryMeasure::Length ==> value(out@[i]->0) == way(
            len,
            array.geometry(i)->0,
        ),
        array.geometry(i) is Some && measure == UnaryMeasure::Perimeter ==> value(out@[i]->0)
            == rim(len, array.geometry(i)->0),
{
    let row = out@[i];
    if let Some(geom) = array.geometry(i) {
        if !is_always_zero(measure, array.body.kind()) {
            assert(is_measure(measure, area, length, plus, geom, row->0));
            if measure == UnaryMeasure::Length {
                law_a_length_is_that_of_the_lines(length, plus, value, len, geom, row->0);
            } else {
                law_a_perimeter_is_the_length_of_the_boundary(
                    length,
                    plus,
                    value,
                    len,
                    geom,
                    row->0,
                );
            }
        }
    }
}

/// A kernel over two columns of one length asks its function of the two geometries of each row, the
/// first column first. A row without one of them has no answer.
pub proof fn law_each_pair_has_its_answer<T>(
    left: ColumnView,
    right: ColumnView,
    f: spec_fn(GeometryView, GeometryView) -> Option<T>,
    out: Seq<Option<T>>,
    i: int,
)
    requires
        left.rows() == out.len(),
        right.rows() == out.len(),
        are_pair_rows(
            left,
            right,
            |a: GeometryView, b: GeometryView, found: Option<T>| found == f(a, b),
            out,
        ),
        0 <= i < out.len(),
    ensures
        out[i] == match (left.geometry(i), right.geometry(i)) {
            (Some(a), Some(b)) => f(a, b),
            _ => None,
        },
{
    let row = out[i];
}

/// An edit of a column edits the geometry of each row, and leaves a null a null.
pub proof fn law_each_geometry_is_edited(
    array: ColumnView,
    f: spec_fn(GeometryView) -> Option<GeometryView>,
    out: Vec<Option<Geometry>>,
    i: int,
)
    requires
        are_edited(array, f, Ok::<Vec<Option<Geometry>>, Error>(out)),
        0 <= i < array.rows(),
    ensures
        out@.len() == array.rows(),
        array.is_null(i) ==> out@[i] is None,
        array.geometry(i) matches Some(geom) ==> match f(geom) {
            Some(edited) => out@[i] matches Some(found) && found@ == edited,
            None => out@[i] is None,
        },
{
    let row = out@[i];
    assert(geometry_view(row) == match array.geometry(i) {
        Some(geom) => f(geom),
        None => None,
    });
}

/// A predicate over two columns of one length answers for the two values of each row, and a null
/// makes a null.
pub proof fn law_each_row_is_tested_by_itself<D, R, C, O>(
    exact: Exact<D, R, C, O>,
    predicate: Predicate,
    left: ColumnView,
    right: ColumnView,
    out: Vec<Option<bool>>,
    i: int,
) where
    D: Fn(Direct, &Geometry, &Geometry) -> bool,
    R: Fn(&Geometry, &Geometry, bool) -> IntersectionMatrix,
    C: Fn(u64, u64, u64, usize) -> usize,
    O: Fn(Coord, Coord, Coord) -> Orientation,

    requires
        left.rows() == out@.len(),
        right.rows() == out@.len(),
        are_predicate_rows(exact, predicate, left, right, Ok::<Vec<Option<bool>>, Error>(out)),
        0 <= i < out@.len(),
    ensures
        is_row_answer(exact, predicate, left, i, right, i, out@[i]),
        out@[i] is None == (left.is_null(i) || right.is_null(i)),
{
    let row = out@[i];
}

// ------------------------------------------------------------------ components
/// The start of each line is its first vertex, and the end its last, as points.
pub proof fn law_a_line_end_is_a_vertex(
    array: ColumnView,
    end: LineEnd,
    column: ColumnView,
    dim: Dimension,
    line: Seq<Coord>,
    i: int,
)
    requires
        array.wf(),
        0 <= i < array.rows(),
        array.raw(i) == Some(GeometryView::LineString(line)),
        are_points(
            column,
            dim,
            Seq::new(
                array.rows() as nat,
                |i: int| picked(array, i, end_position(array, end, i)),
            ),
        ),
    ensures
        line.len() == 0 ==> column.raw(i) is None,
        line.len() > 0 ==> column.raw(i) == Some(
            GeometryView::Point(
                match end {
                    LineEnd::Start => line[0],
                    LineEnd::End => line[line.len() - 1],
                },
            ),
        ),
{
    let rows = Seq::new(
        array.rows() as nat,
        |i: int| picked(array, i, end_position(array, end, i)),
    );
    law_vertices_are_those_of_the_line(array, i, line, 1);
    law_a_point_column_holds_its_points(column, dim, rows, i);
}

/// The nth point of each line is its nth vertex, counted from one.
pub proof fn law_an_nth_point_is_a_vertex(
    array: ColumnView,
    n: i32,
    column: ColumnView,
    dim: Dimension,
    line: Seq<Coord>,
    i: int,
)
    requires
        array.wf(),
        0 <= i < array.rows(),
        array.raw(i) == Some(GeometryView::LineString(line)),
        are_points(
            column,
            dim,
            Seq::new(
                array.rows() as nat,
                |i: int| picked(array, i, nth_position(array, Index::Constant(Some(n)), i)),
            ),
        ),
    ensures
        1 <= n <= line.len() ==> column.raw(i) == Some(GeometryView::Point(line[n - 1])),
        !(1 <= n <= line.len()) ==> column.raw(i) is None,
{
    let rows = Seq::new(
        array.rows() as nat,
        |i: int| picked(array, i, nth_position(array, Index::Constant(Some(n)), i)),
    );
    law_vertices_are_those_of_the_line(array, i, line, n);
    law_a_point_column_holds_its_points(column, dim, rows, i);
}

/// The outer rings of a column are the shells of its polygons, as lines.
pub proof fn law_an_outer_ring_is_the_shell(
    array: ColumnView,
    output: DataTypeView,
    column: Column,
    polygon: PolygonView,
    i: int,
    k: int,
)
    requires
        array.wf(),
        0 <= i < array.rows(),
        array.raw(i) == Some(GeometryView::Polygon(polygon)),
        polygon.exterior.len() > 0,
        are_taken(
            array,
            Seq::new(array.rows() as nat, |i: int| exterior_number(array, i)),
            output,
            Ok::<Column, Error>(column),
        ),
        0 <= k < polygon.exterior.len(),
    ensures
        column@.raw(i) matches Some(GeometryView::LineString(line)) && line.len()
            == polygon.exterior.len() && line[k] == polygon.exterior[k],
{
    let numbers = Seq::new(array.rows() as nat, |i: int| exterior_number(array, i));
    let rows = Seq::new(array.rows() as nat, |i: int| taken(array, i, numbers[i]));
    law_rings_are_those_of_the_polygon(array, i, polygon, 1, k);
    law_a_line_column_holds_its_lines(column@, output.dimension->0, rows, i, k);
    let at = exterior_number(array, i)->0;
    assert(rows[i] == Some(ring_at(array, i, at)));
}

/// The nth inner rings of a column are the nth holes of its polygons, as lines.
pub proof fn law_an_inner_ring_is_the_hole(
    array: ColumnView,
    output: DataTypeView,
    column: Column,
    polygon: PolygonView,
    n: i32,
    i: int,
    k: int,
)
    requires
        array.wf(),
        0 <= i < array.rows(),
        array.raw(i) == Some(GeometryView::Polygon(polygon)),
        1 <= n <= polygon.interiors.len(),
        are_taken(
            array,
            Seq::new(
                array.rows() as nat,
                |i: int| interior_number(array, Index::Constant(Some(n)), i),
            ),
            output,
            Ok::<Column, Error>(column),
        ),
        0 <= k < polygon.interiors[n - 1].len(),
    ensures
        column@.raw(i) matches Some(GeometryView::LineString(line)) && line.len()
            == polygon.interiors[n - 1].len() && line[k] == polygon.interiors[n - 1][k],
{
    let numbers = Seq::new(
        array.rows() as nat,
        |i: int| interior_number(array, Index::Constant(Some(n)), i),
    );
    let rows = Seq::new(array.rows() as nat, |i: int| taken(array, i, numbers[i]));
    law_rings_are_those_of_the_polygon(array, i, polygon, n, k);
    law_a_line_column_holds_its_lines(column@, output.dimension->0, rows, i, k);
    let at = interior_number(array, Index::Constant(Some(n)), i)->0;
    assert(rows[i] == Some(ring_at(array, i, at)));
}

/// A polygon is made of a line string alone: a shell with the vertices of the line, closed.
pub proof fn law_a_made_polygon_has_one_ring(raw: Option<GeometryView>, k: int)
    ensures
        made_polygon(raw) is Some == (raw matches Some(geom) && geom is LineString),
        made_polygon(raw) matches Some(made) ==> {
            let line = coords_of(raw->0);
            &&& made is Polygon
            &&& made->Polygon_0.interiors.len() == 0
            &&& made->Polygon_0.exterior.len() >= line.len()
            &&& 0 <= k < line.len() ==> made->Polygon_0.exterior[k] == line[k]
            &&& is_closed_path(line) ==> made->Polygon_0.exterior == line
            &&& line.len() > 0 && line[0].is_same(line[0]) ==> is_closed_path(
                made->Polygon_0.exterior,
            )
        },
{
}

/// Only a line string is edited, at the position and with the point of its own row.
pub proof fn law_a_row_is_edited_with_its_own_point(
    array: ColumnView,
    edit: VertexEdit,
    points: ColumnView,
    positions: &Vec<Option<i32>>,
    i: int,
)
    requires
        0 <= i < array.rows(),
        points.rows() == array.rows(),
        positions@.len() == array.rows(),
    ensures
        !(array.geometry(i) matches Some(geom) && geom is LineString) ==> edited_row(
            array,
            edit,
            Some(points),
            Some(positions),
            i,
        ) is None,
        match (array.geometry(i), points.geometry(i)) {
            (
                Some(GeometryView::LineString(line)),
                Some(GeometryView::Point(c)),
            ) => match edited_line(line, edit, Some(c), positions@[i]) {
                Some(edited) => edited_row(array, edit, Some(points), Some(positions), i) == Some(
                    GeometryView::LineString(edited),
                ),
                None => edited_row(array, edit, Some(points), Some(positions), i) is None,
            },
            _ => edited_row(array, edit, Some(points), Some(positions), i) is None,
        },
{
}

// -------------------------------------------------------------------- envelopes
/// An expanded row reaches the distance further than its box on every side, where the sums are
/// exact.
pub proof fn law_an_expanded_row_reaches_further<M, P>(
    array: ColumnView,
    distance: Seq<Option<u64>>,
    minus: M,
    plus: P,
    i: int,
    d: u64,
    out: Option<(Coord, Coord)>,
) where M: Fn(u64, u64) -> u64, P: Fn(u64, u64) -> u64
    requires
        forall|a: u64, b: u64, c: u64| #[trigger]
            minus.ensures((a, b), c) ==> number::units(c) == number::units(a) - number::units(b),
        forall|a: u64, b: u64, c: u64| #[trigger]
            plus.ensures((a, b), c) ==> number::units(c) == number::units(a) + number::units(b),
        0 <= i < array.rows(),
        distance.len() == array.rows(),
        distance[i] == Some(d),
        !array.is_null(i),
        is_expanded_row(array, distance, minus, plus, i, out),
        corners(crate::bbox::box_at(array, i)) is Some,
    ensures
        out matches Some((low, high)) ==> {
            let bbox = crate::bbox::box_at(array, i);
            &&& number::units(low.x) == number::units(bbox.minx) - number::units(d)
            &&& number::units(low.y) == number::units(bbox.miny) - number::units(d)
            &&& number::units(high.x) == number::units(bbox.maxx) + number::units(d)
            &&& number::units(high.y) == number::units(bbox.maxy) + number::units(d)
        },
{
}

// -------------------------------------------------------------------- aggregates
/// What is collected of a column stands behind what was collected before, which stays.
pub proof fn law_a_column_is_collected_behind(
    array: ColumnView,
    before: Seq<GeometryView>,
    after: Seq<GeometryView>,
    r: Result<(), Error>,
    k: int,
)
    requires
        is_gathered(array, before, after, r),
        0 <= k < before.len(),
    ensures
        before.len() <= after.len(),
        after[k] == before[k],
        r is Ok ==> after.len() == before.len() + gathered(array, array.rows()).len(),
        r is Ok == !array.has_broken(array.rows()),
{
    if r is Err {
        let i = choose|i: int| #[trigger]
            is_first_broken(array, i) && after == before + gathered(array, i);
        assert(array.is_broken(i));
    }
}

// --------------------------------------------------------------------- clusters
/// The first number of a clustering by density is the radius, and the second the least number of
/// points. A clustering by centres takes the number of clusters.
pub proof fn law_the_numbers_of_a_clustering<C, K, D>(
    array: ColumnView,
    parameters: Seq<Vec<Option<u64>>>,
    first: u64,
    second: u64,
    n: nat,
    centroid: C,
    kmeans: K,
    dbscan: D,
    r: Result<Vec<Option<i32>>, Error>,
) where
    C: Fn(&Geometry) -> Option<Coord>,
    K: Fn(&Vec<Coord>, usize, u64) -> Option<Vec<usize>>,
    D: Fn(&Vec<Coord>, u64, usize) -> Vec<Option<usize>>,

    requires
        parameters.len() == 2,
        parameters[0]@.len() > 0 && parameters[0]@[0] == Some(first),
        parameters[1]@.len() > 0 && parameters[1]@[0] == Some(second),
        n <= usize::MAX,
    ensures
        number::whole(second) == Some(n) && is_clustered(
            Cluster::Dbscan,
            array,
            parameters,
            centroid,
            kmeans,
            dbscan,
            r,
        ) ==> is_dbscan(array, first, n as usize, centroid, dbscan, r),
        number::whole(first) == Some(n) && is_clustered(
            Cluster::KMeans,
            array,
            parameters,
            centroid,
            kmeans,
            dbscan,
            r,
        ) ==> is_kmeans(array, n as usize, centroid, kmeans, r),
{
}

// ----------------------------------------------------------------------- pairs
/// Two columns are read together exactly when their lengths go together and every value that is read
/// could be decoded. Which of the two failed is told.
pub proof fn law_a_pair_is_read_or_told_why<T>(
    left: ColumnView,
    right: ColumnView,
    function: Seq<char>,
    r: Result<Vec<T>, Error>,
)
    requires
        is_pair_read(left, right, function, r),
        left.rows() >= 0,
        right.rows() >= 0,
    ensures
        r is Err && r->Err_0 is UnequalLengths ==> left.rows() != right.rows() && left.rows() != 1
            && right.rows() != 1,
        r is Ok ==> {
            let rows = r->Ok_0@.len();
            &&& left.rows() == rows || left.rows() == 1
            &&& right.rows() == rows || right.rows() == 1
            &&& left.rows() == right.rows() || left.rows() == 1 || right.rows() == 1
        },
        r is Ok ==> forall|i: int|
            0 <= i < r->Ok_0@.len() ==> !left.is_broken(
                #[trigger] slot(left.rows(), r->Ok_0@.len() as int, i),
            ),
{
    if r is Ok {
        let rows = r->Ok_0@.len() as int;
        assert forall|i: int| 0 <= i < rows implies !left.is_broken(
            #[trigger] slot(left.rows(), rows, i),
        ) by {
            if left.is_broken(slot(left.rows(), rows, i)) {
                assert(crate::operand::is_pair_broken(left, right, rows, i));
                assert(has_pair_broken(left, right, rows, rows));
            }
        }
    }
}

// ---------------------------------------------------------------------- formats
/// A geohash has one character at least and twelve at most, and none of them is a capital or one of
/// the four letters that look like another character.
pub proof fn law_a_geohash_avoids_some_letters(text: Seq<char>, k: int)
    requires
        is_geohash(text),
        0 <= k < text.len(),
    ensures
        1 <= text.len() <= 12,
        text[k] != 'a' && text[k] != 'i' && text[k] != 'l' && text[k] != 'o',
        !('A' <= text[k] <= 'Z'),
        text[k] as int <= 'z' as int,
{
}

/// A value of five bytes or more is stamped, and a shorter one or a null is not.
pub proof fn law_a_header_is_stamped(plain: Option<Seq<u8>>, srid: i32, out: Option<Seq<u8>>)
    requires
        is_stamped(plain, srid, out),
    ensures
        plain is None ==> out is None,
        plain matches Some(wkb) ==> (wkb.len() < 5 ==> out is None),
        plain matches Some(wkb) ==> (wkb.len() >= 5 ==> out is Some && out->0.len() == wkb.len() + 4
            && has_srid(wkb, srid, out->0)),
{
}

/// A mixed column takes every geometry that is no collection, and a collection of nothing. It does
/// not take an empty value, nor one of another byte order than the two.
pub proof fn law_a_mixed_column_takes_single_geometries(bytes: Seq<u8>)
    ensures
        part_walk(bytes, 0) is Some ==> is_takeable(bytes) && entries_of(bytes)
            == Some(part_walk(bytes, 0)->0.entries as nat),
        bytes.len() == 0 ==> !is_takeable(bytes),
        bytes.len() > 0 && bytes[0] > 1 ==> !is_takeable(bytes),
        bytes.len() < 5 ==> !is_takeable(bytes),
        crate::format::starts(bytes, 0, 7, Dimension::XY) && word_in(bytes, 5, bytes[0] == 1)
            == Some(0u32) ==> entries_of(bytes) == Some(0nat),
{
    reveal_with_fuel(crate::layout::parts_walk, 2);
}

} // verus!
