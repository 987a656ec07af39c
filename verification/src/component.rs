//! Pull one component out of a geometry.
//!
//! `ST_GeometryN`, `ST_PointN`, `ST_StartPoint`, `ST_EndPoint`, `ST_ExteriorRing` and
//! `ST_InteriorRingN`. PostGIS numbers components from one, and an index outside the range gives
//! null rather than an error. Both rules are followed here.
//!
//! A vertex or a ring keeps every ordinate of its column. A mixed or serialized column has no
//! dimension of its own, so what is taken out of it goes to a column of the plane, and a value with
//! more ordinates does not fit there.

use vstd::prelude::*;
use crate::builder::{
    are_lines, are_points, flat, flat_tuple, flats, lemma_vertex_total, tuple_at, tuples_in,
    vertex_total, LineStringBuilder, PointBuilder,
};
use crate::column::{Body, BodyView, Column, ColumnView, DataType, DataTypeView, Dimension, Kind};
use crate::error::Error;
use crate::geometry::{
    copy_line, copy_polygon, lemma_collection_view, Coord, Geometry, GeometryView,
};
use crate::materialize::GeometryReader;

verus! {

/// A component index that may be the same for every row or vary by row.
///
/// A constant index is the common case. It stays one scalar.
#[derive(Debug, Clone, Copy)]
pub enum Index<'a> {
    /// The same index for every row.
    Constant(Option<i32>),
    /// One index per row.
    PerRow(&'a Vec<Option<i32>>),
}

/// A one-based index as a zero-based one, or `None` when it is out of range.
pub open spec fn zero_based(raw: Option<i32>, count: int) -> Option<int> {
    match raw {
        Some(n) => if 1 <= n && n - 1 < count {
            Some(n - 1)
        } else {
            None
        },
        None => None,
    }
}

impl<'a> Index<'a> {
    /// The index of a row.
    pub open spec fn nth(self, row: int) -> Option<i32> {
        match self {
            Index::Constant(value) => value,
            Index::PerRow(values) => values@[row],
        }
    }

    /// True when the index has a value for each row.
    pub open spec fn covers(self, rows: int) -> bool {
        self matches Index::PerRow(values) ==> values@.len() >= rows
    }

    /// The index of a row.
    pub fn at(&self, row: usize) -> (r: Option<i32>)
        requires
            self.covers(row + 1),
        ensures
            r == self.nth(row as int),
    {
        match self {
            Index::Constant(value) => *value,
            Index::PerRow(values) => values[row],
        }
    }

    /// Turn a PostGIS one-based index into a zero-based one, or `None` when it is out of range.
    pub fn zero_based(&self, row: usize, count: usize) -> (r: Option<usize>)
        requires
            self.covers(row + 1),
        ensures
            match r {
                Some(n) => zero_based(self.nth(row as int), count as int) == Some(n as int),
                None => zero_based(self.nth(row as int), count as int) is None,
            },
    {
        match self.at(row) {
            Some(raw) => if raw >= 1 && ((raw - 1) as usize) < count {
                Some((raw - 1) as usize)
            } else {
                None
            },
            None => None,
        }
    }
}

/// The type `ST_PointN`, `ST_StartPoint` and `ST_EndPoint` produce.
pub fn point_output_type(input: &DataType) -> (r: DataType)
    ensures
        r@ == DataTypeView::separated(Kind::Point, input@.dimension_or_xy(), input@.metadata),
{
    DataType::separated(Kind::Point, input.dimension_or_xy(), input.metadata.copy())
}

/// The type `ST_ExteriorRing` and `ST_InteriorRingN` produce.
pub fn line_string_output_type(input: &DataType) -> (r: DataType)
    ensures
        r@ == DataTypeView::separated(Kind::LineString, input@.dimension_or_xy(), input@.metadata),
{
    DataType::separated(Kind::LineString, input.dimension_or_xy(), input.metadata.copy())
}

/// The type `ST_GeometryN` produces.
pub fn geometry_output_type(input: &DataType) -> (r: DataType)
    ensures
        r@ == DataTypeView::mixed(input@.metadata),
{
    DataType::mixed(input.metadata.copy())
}

// -------------------------------------------------------------------- vertices
/// Which end of a line string to read.
#[derive(Debug, Clone, Copy, PartialEq, Eq, Structural, Hash)]
pub enum LineEnd {
    /// The first coordinate.
    Start,
    /// The last coordinate.
    End,
}

impl LineEnd {
    /// The position of the end in a line of `count` vertices.
    pub open spec fn position(self, count: int) -> Option<int> {
        if count <= 0 {
            None
        } else {
            match self {
                LineEnd::Start => Some(0),
                LineEnd::End => Some(count - 1),
            }
        }
    }
}

/// The vertices of a row that is a line string.
pub open spec fn line_len(array: ColumnView, i: int) -> Option<int> {
    match array.raw(i) {
        Some(GeometryView::LineString(line)) => Some(line.len() as int),
        _ => None,
    }
}

/// The ordinates of a vertex of a row that is a line string.
pub open spec fn vertex_at(array: ColumnView, i: int, position: int) -> Seq<u64> {
    match array.body {
        BodyView::LineString { coords, geom_offsets } => tuple_at(
            coords,
            geom_offsets[i] + position,
        ),
        _ => flat(array.raw(i)->0->LineString_0[position]),
    }
}

/// True when a value fits a column of the dimension that the input has, or of the plane.
pub open spec fn is_fitting(array: ColumnView, i: int) -> bool {
    match array.body {
        BodyView::Rows { items, .. } => items[i] matches Some(item) ==> item.dim == Dimension::XY,
        _ => true,
    }
}

/// The vertex that is taken out of a row, if any.
pub open spec fn picked(array: ColumnView, i: int, position: Option<int>) -> Option<Seq<u64>> {
    match position {
        Some(p) => Some(vertex_at(array, i, p)),
        None => None,
    }
}

/// Where the end of the line of a row lies.
pub open spec fn end_position(array: ColumnView, end: LineEnd, i: int) -> Option<int> {
    match line_len(array, i) {
        Some(count) => end.position(count),
        None => None,
    }
}

/// Where the nth vertex of the line of a row lies.
pub open spec fn nth_position(array: ColumnView, index: Index, i: int) -> Option<int> {
    match line_len(array, i) {
        Some(count) => zero_based(index.nth(i), count),
        None => None,
    }
}

/// The vertices of a row that is a line string.
fn line_length(array: &Column, i: usize) -> (r: Result<Option<usize>, Error>)
    requires
        array.wf(),
        i < array.rows(),
    ensures
        match r {
            Ok(Some(count)) => !array@.is_broken(i as int) && line_len(array@, i as int) == Some(
                count as int,
            ),
            Ok(None) => !array@.is_broken(i as int) && line_len(array@, i as int) is None,
            Err(error) => array@.is_broken(i as int) && error == Error::Undecodable,
        },
{
    if array.null_at(i) {
        return Ok(None);
    }
    match &array.body {
        Body::LineString { geom_offsets, .. } => {
            proof {
                assert(geom_offsets@[0] <= geom_offsets@[i as int]);
                assert(geom_offsets@[i as int] <= geom_offsets@[i + 1]);
            }
            let _offsets: usize = geom_offsets.len();
            Ok(Some((geom_offsets[i + 1] - geom_offsets[i]) as usize))
        },
        Body::Rows { items, .. } => match &items[i] {
            Some(item) => match &item.geometry {
                Geometry::LineString(line) => Ok(Some(line.len())),
                _ => Ok(None),
            },
            None => Err(Error::Undecodable),
        },
        _ => Ok(None),
    }
}

/// Append a vertex of a row that is a line string.
fn push_line_vertex(builder: &mut PointBuilder, array: &Column, i: usize, position: usize)
    requires
        array.wf(),
        i < array.rows(),
        line_len(array@, i as int) matches Some(count) && position < count,
        is_fitting(array@, i as int),
        old(builder).wf(),
        old(builder).dimension() == array@.data_type().dimension_or_xy(),
    ensures
        final(builder).wf(),
        final(builder).dimension() == old(builder).dimension(),
        final(builder).rows() == old(builder).rows().push(
            Some(vertex_at(array@, i as int, position as int)),
        ),
{
    match &array.body {
        Body::LineString { coords, geom_offsets } => {
            proof {
                assert(geom_offsets@[0] <= geom_offsets@[i as int]);
                assert(geom_offsets@[i as int] <= geom_offsets@[i + 1]);
                assert(geom_offsets@[i + 1] <= geom_offsets@[geom_offsets@.len() - 1]);
            }
            builder.push(coords.tuple(geom_offsets[i] as usize + position));
        },
        Body::Rows { items, .. } => match &items[i] {
            Some(item) => match &item.geometry {
                Geometry::LineString(line) => {
                    builder.push(flat_tuple(line[position]));
                },
                _ => {},
            },
            None => {},
        },
        _ => {},
    }
}

/// `ST_StartPoint` and `ST_EndPoint`. Null for anything that is not a line string.
pub fn st_line_end(array: &Column, end: LineEnd, output: &DataType) -> (r: Result<Column, Error>)
    requires
        array.wf(),
        output@ == DataTypeView::separated(
            Kind::Point,
            array@.data_type().dimension_or_xy(),
            output@.metadata,
        ),
        forall|i: int|
            0 <= i < array.rows() && #[trigger] end_position(array@, end, i) is Some ==> is_fitting(
                array@,
                i,
            ),
    ensures
        match r {
            Ok(out) => {
                &&& !array@.has_broken(array.rows())
                &&& out@.data_type() == output@
                &&& are_points(
                    out@,
                    output@.dimension->0,
                    Seq::new(
                        array.rows() as nat,
                        |i: int| picked(array@, i, end_position(array@, end, i)),
                    ),
                )
            },
            Err(error) => array@.has_broken(array.rows()) && error == Error::Undecodable,
        },
{
    let rows: usize = array.len();
    let mut builder = PointBuilder::new(output.dimension_or_xy());
    let ghost expected = Seq::new(
        rows as nat,
        |i: int| picked(array@, i, end_position(array@, end, i)),
    );
    let mut i: usize = 0;
    while i < rows
        invariant
            i <= rows,
            array.wf(),
            rows == array.rows(),
            builder.wf(),
            builder.dimension() == array@.data_type().dimension_or_xy(),
            expected == Seq::new(
                rows as nat,
                |i: int| picked(array@, i, end_position(array@, end, i)),
            ),
            builder.rows() == expected.take(i as int),
            forall|j: int|
                0 <= j < rows && #[trigger] end_position(array@, end, j) is Some ==> is_fitting(
                    array@,
                    j,
                ),
            !array@.has_broken(i as int),
        decreases rows - i,
    {
        let count: Option<usize> = match line_length(array, i) {
            Ok(count) => count,
            Err(error) => {
                return Err(error);
            },
        };
        let position: Option<usize> = match count {
            Some(count) => if count == 0 {
                None
            } else {
                match end {
                    LineEnd::Start => Some(0),
                    LineEnd::End => Some(count - 1),
                }
            },
            None => None,
        };
        match position {
            Some(p) => {
                assert(end_position(array@, end, i as int) == Some(p as int));
                push_line_vertex(&mut builder, array, i, p);
            },
            None => {
                assert(end_position(array@, end, i as int) is None);
                builder.push_null();
            },
        }
        assert(expected.take(i + 1) =~= expected.take(i as int).push(expected[i as int]));
        i = i + 1;
    }
    assert(expected.take(rows as int) =~= expected);
    Ok(builder.finish(output.metadata.copy()))
}

/// `ST_PointN`. The nth coordinate of a line string, numbered from one.
pub fn st_point_n(array: &Column, index: Index, output: &DataType) -> (r: Result<Column, Error>)
    requires
        array.wf(),
        index.covers(array.rows()),
        output@ == DataTypeView::separated(
            Kind::Point,
            array@.data_type().dimension_or_xy(),
            output@.metadata,
        ),
        forall|i: int|
            0 <= i < array.rows() && #[trigger] nth_position(array@, index, i) is Some
                ==> is_fitting(array@, i),
    ensures
        match r {
            Ok(out) => {
                &&& !array@.has_broken(array.rows())
                &&& out@.data_type() == output@
                &&& are_points(
                    out@,
                    output@.dimension->0,
                    Seq::new(
                        array.rows() as nat,
                        |i: int| picked(array@, i, nth_position(array@, index, i)),
                    ),
                )
            },
            Err(error) => array@.has_broken(array.rows()) && error == Error::Undecodable,
        },
{
    let rows: usize = array.len();
    let mut builder = PointBuilder::new(output.dimension_or_xy());
    let ghost expected = Seq::new(
        rows as nat,
        |i: int| picked(array@, i, nth_position(array@, index, i)),
    );
    let mut i: usize = 0;
    while i < rows
        invariant
            i <= rows,
            array.wf(),
            rows == array.rows(),
            index.covers(array.rows()),
            builder.wf(),
            builder.dimension() == array@.data_type().dimension_or_xy(),
            expected == Seq::new(
                rows as nat,
                |i: int| picked(array@, i, nth_position(array@, index, i)),
            ),
            builder.rows() == expected.take(i as int),
            forall|j: int|
                0 <= j < rows && #[trigger] nth_position(array@, index, j) is Some ==> is_fitting(
                    array@,
                    j,
                ),
            !array@.has_broken(i as int),
        decreases rows - i,
    {
        let count: Option<usize> = match line_length(array, i) {
            Ok(count) => count,
            Err(error) => {
                return Err(error);
            },
        };
        let position: Option<usize> = match count {
            Some(count) => index.zero_based(i, count),
            None => None,
        };
        match position {
            Some(p) => {
                assert(nth_position(array@, index, i as int) == Some(p as int));
                push_line_vertex(&mut builder, array, i, p);
            },
            None => {
                assert(nth_position(array@, index, i as int) is None);
                builder.push_null();
            },
        }
        assert(expected.take(i + 1) =~= expected.take(i as int).push(expected[i as int]));
        i = i + 1;
    }
    assert(expected.take(rows as int) =~= expected);
    Ok(builder.finish(output.metadata.copy()))
}

// ----------------------------------------------------------------------- rings
/// The rings of a row that is a polygon. A decoded polygon without a vertex has none.
pub open spec fn ring_count(array: ColumnView, i: int) -> Option<int> {
    if array.is_null(i) {
        None
    } else {
        match array.body {
            BodyView::Polygon { geom_offsets, .. } => Some(geom_offsets[i + 1] - geom_offsets[i]),
            _ => match array.body.raw(i) {
                Some(GeometryView::Polygon(polygon)) => if polygon.exterior.len() == 0
                    && polygon.interiors.len() == 0 {
                    Some(0)
                } else {
                    Some(1 + polygon.interiors.len() as int)
                },
                _ => None,
            },
        }
    }
}

/// The ordinates of ring `n` of a row that is a polygon. Ring zero is the outer one.
pub open spec fn ring_at(array: ColumnView, i: int, n: int) -> Seq<Seq<u64>> {
    match array.body {
        BodyView::Polygon { coords, geom_offsets, ring_offsets } => tuples_in(
            coords,
            ring_offsets[geom_offsets[i] + n] as int,
            ring_offsets[geom_offsets[i] + n + 1] as int,
        ),
        _ => {
            let polygon = array.body.raw(i)->0->Polygon_0;
            if n == 0 {
                flats(polygon.exterior)
            } else {
                flats(polygon.interiors[n - 1])
            }
        },
    }
}

/// Which ring `ST_ExteriorRing` takes.
pub open spec fn exterior_number(array: ColumnView, i: int) -> Option<int> {
    match ring_count(array, i) {
        Some(count) => if count > 0 {
            Some(0)
        } else {
            None
        },
        None => None,
    }
}

/// Which ring `ST_InteriorRingN` takes.
pub open spec fn interior_number(array: ColumnView, index: Index, i: int) -> Option<int> {
    match ring_count(array, i) {
        Some(count) => match zero_based(index.nth(i), count - 1) {
            Some(n) => Some(n + 1),
            None => None,
        },
        None => None,
    }
}

/// The ring that is taken out of a row, if any.
pub open spec fn taken(array: ColumnView, i: int, number: Option<int>) -> Option<Seq<Seq<u64>>> {
    match number {
        Some(n) => Some(ring_at(array, i, n)),
        None => None,
    }
}

/// True when a ring of a mixed or serialized column has ordinates that its output has not.
pub open spec fn is_unfit_ring(array: ColumnView, i: int, number: Option<int>, got: Dimension) -> bool {
    &&& number matches Some(n) && ring_at(array, i, n).len() > 0
    &&& !array.is_null(i)
    &&& match array.body {
        BodyView::Rows { items, .. } => items[i] is Some && items[i]->0.dim == got && got
            != Dimension::XY,
        _ => false,
    }
}

/// True when taking the rings of a column fails at row `i` with `error`.
pub open spec fn is_ring_failure(
    array: ColumnView,
    taken: Seq<Option<Seq<Seq<u64>>>>,
    numbers: Seq<Option<int>>,
    i: int,
    error: Error,
) -> bool {
    match error {
        Error::Undecodable => array.is_broken(i),
        Error::WrongDimension { dimension: got } => is_unfit_ring(array, i, numbers[i], got),
        Error::Overflow => vertex_total(taken, i + 1) > i32::MAX,
        _ => false,
    }
}

/// True when the rings of a column were taken, or a row tells why not.
pub open spec fn are_taken(
    array: ColumnView,
    numbers: Seq<Option<int>>,
    output: DataTypeView,
    r: Result<Column, Error>,
) -> bool {
    let rows = Seq::new(array.rows() as nat, |i: int| taken(array, i, numbers[i]));
    match r {
        Ok(out) => {
            &&& forall|i: int, error: Error|
                0 <= i < array.rows() ==> !#[trigger] is_ring_failure(array, rows, numbers, i, error)
            &&& out@.data_type() == output
            &&& are_lines(out@, output.dimension->0, rows)
        },
        Err(error) => exists|i: int|
            0 <= i < array.rows() && #[trigger] is_ring_failure(array, rows, numbers, i, error),
    }
}

/// The rings of a row that is a polygon: none, or an outer one and a number of holes.
fn rings_in(array: &Column, i: usize) -> (r: Option<Option<usize>>)
    requires
        array.wf(),
        i < array.rows(),
    ensures
        match r {
            Some(Some(holes)) => ring_count(array@, i as int) == Some(1 + holes as int),
            Some(None) => ring_count(array@, i as int) == Some(0int),
            None => ring_count(array@, i as int) is None,
        },
{
    if array.null_at(i) {
        return None;
    }
    match &array.body {
        Body::Polygon { geom_offsets, .. } => {
            proof {
                assert(geom_offsets@[0] <= geom_offsets@[i as int]);
                assert(geom_offsets@[i as int] <= geom_offsets@[i + 1]);
            }
            let _offsets: usize = geom_offsets.len();
            let count: i32 = geom_offsets[i + 1] - geom_offsets[i];
            if count == 0 {
                Some(None)
            } else {
                Some(Some((count - 1) as usize))
            }
        },
        Body::Rows { items, .. } => match &items[i] {
            Some(item) => match &item.geometry {
                Geometry::Polygon(polygon) => {
                    let holes: usize = polygon.interiors.len();
                    if polygon.exterior.len() == 0 && holes == 0 {
                        Some(None)
                    } else {
                        Some(Some(holes))
                    }
                },
                _ => None,
            },
            None => None,
        },
        _ => None,
    }
}

/// Append the vertices of a line in the plane.
fn push_flat_line(builder: &mut LineStringBuilder, line: &Vec<Coord>) -> (r: bool)
    requires
        old(builder).wf(),
        old(builder).dimension() == Dimension::XY,
        old(builder).open_row() == Seq::<Seq<u64>>::empty(),
    ensures
        final(builder).wf(),
        final(builder).dimension() == old(builder).dimension(),
        final(builder).rows() == old(builder).rows(),
        r == (vertex_total(old(builder).rows(), old(builder).rows().len() as int) + line@.len()
            <= i32::MAX),
        r ==> final(builder).open_row() == flats(line@),
{
    let ghost base = vertex_total(builder.rows(), builder.rows().len() as int);
    let mut j: usize = 0;
    proof {
        builder.lemma_counted();
    }
    assert(flats(line@).take(0) =~= Seq::<Seq<u64>>::empty());
    while j < line.len()
        invariant
            j <= line@.len(),
            builder.wf(),
            builder.dimension() == Dimension::XY,
            builder.dimension() == old(builder).dimension(),
            builder.rows() == old(builder).rows(),
            builder.open_row() == flats(line@).take(j as int),
            base == vertex_total(builder.rows(), builder.rows().len() as int),
            base + j <= i32::MAX,
        decreases line@.len() - j,
    {
        if !builder.push_vertex(flat_tuple(line[j])) {
            return false;
        }
        assert(flats(line@).take(j + 1) =~= flats(line@).take(j as int).push(flat(line@[j as int])));
        j = j + 1;
    }
    assert(flats(line@).take(j as int) =~= flats(line@));
    true
}

/// A ring to take out of a row.
#[derive(Debug, Clone, Copy, PartialEq, Eq)]
enum Ring {
    Exterior,
    Interior(usize),
}

impl Ring {
    spec fn number(self) -> int {
        match self {
            Ring::Exterior => 0,
            Ring::Interior(n) => n + 1,
        }
    }
}

/// The number of a ring, if any.
spec fn number_of(ring: Option<Ring>) -> Option<int> {
    match ring {
        Some(ring) => Some(ring.number()),
        None => None,
    }
}

/// Append a ring of a row that is a polygon.
fn push_ring(builder: &mut LineStringBuilder, array: &Column, i: usize, ring: Ring) -> (r: Result<
    (),
    Error,
>)
    requires
        array.wf(),
        i < array.rows(),
        ring_count(array@, i as int) matches Some(count) && ring.number() < count,
        old(builder).wf(),
        old(builder).dimension() == array@.data_type().dimension_or_xy(),
        old(builder).open_row() == Seq::<Seq<u64>>::empty(),
    ensures
        final(builder).wf(),
        final(builder).dimension() == old(builder).dimension(),
        final(builder).rows() == old(builder).rows(),
        ({
            let vertices = ring_at(array@, i as int, ring.number());
            let total = vertex_total(old(builder).rows(), old(builder).rows().len() as int)
                + vertices.len();
            match r {
                Ok(()) => {
                    &&& total <= i32::MAX
                    &&& forall|got: Dimension| !#[trigger] is_unfit_ring(array@, i as int, Some(ring.number()), got)
                    &&& final(builder).open_row() == vertices
                },
                Err(Error::Overflow) => total > i32::MAX,
                Err(Error::WrongDimension { dimension }) => is_unfit_ring(
                    array@,
                    i as int,
                    Some(ring.number()),
                    dimension,
                ),
                Err(_) => false,
            }
        }),
{
    match &array.body {
        Body::Polygon { coords, geom_offsets, ring_offsets } => {
            let ghost n = ring.number();
            proof {
                assert(geom_offsets@[0] <= geom_offsets@[i as int]);
                assert(geom_offsets@[i as int] <= geom_offsets@[i + 1]);
                assert(geom_offsets@[i + 1] <= geom_offsets@[geom_offsets@.len() - 1]);
            }
            let first: usize = geom_offsets[i] as usize;
            let at: usize = match ring {
                Ring::Exterior => first,
                Ring::Interior(hole) => first + 1 + hole,
            };
            proof {
                assert(ring_offsets@[0] <= ring_offsets@[at as int]);
                assert(ring_offsets@[at as int] <= ring_offsets@[at + 1]);
                assert(ring_offsets@[at + 1] <= ring_offsets@[ring_offsets@.len() - 1]);
            }
            let start: usize = ring_offsets[at] as usize;
            let end: usize = ring_offsets[at + 1] as usize;
            let ghost vertices = tuples_in(coords@, start as int, end as int);
            let ghost base = vertex_total(builder.rows(), builder.rows().len() as int);
            proof {
                builder.lemma_counted();
                assert(vertices == ring_at(array@, i as int, n));
            }
            assert(vertices.take(0) =~= Seq::<Seq<u64>>::empty());
            let mut j: usize = start;
            while j < end
                invariant
                    start <= j <= end <= coords@.len(),
                    coords@.wf(),
                    builder.wf(),
                    builder.dimension() == coords@.dim(),
                    builder.dimension() == old(builder).dimension(),
                    builder.rows() == old(builder).rows(),
                    vertices == tuples_in(coords@, start as int, end as int),
                    vertices == ring_at(array@, i as int, n),
                    n == ring.number(),
                    builder.open_row() == vertices.take(j - start),
                    base == vertex_total(builder.rows(), builder.rows().len() as int),
                    base + (j - start) <= i32::MAX,
                decreases end - j,
            {
                if !builder.push_vertex(coords.tuple(j)) {
                    return Err(Error::Overflow);
                }
                assert(vertices.take(j + 1 - start) =~= vertices.take(j - start).push(
                    vertices[j - start],
                ));
                j = j + 1;
            }
            assert(vertices.take(end - start) =~= vertices);
            Ok(())
        },
        Body::Rows { items, .. } => match &items[i] {
            Some(item) => match &item.geometry {
                Geometry::Polygon(polygon) => {
                    let line: &Vec<Coord> = match ring {
                        Ring::Exterior => &polygon.exterior,
                        Ring::Interior(hole) => &polygon.interiors[hole],
                    };
                    assert(flats(line@) == ring_at(array@, i as int, ring.number()));
                    if line.len() > 0 && item.dim != Dimension::XY {
                        return Err(Error::WrongDimension { dimension: item.dim });
                    }
                    if push_flat_line(builder, line) {
                        Ok(())
                    } else {
                        Err(Error::Overflow)
                    }
                },
                _ => Ok(()),
            },
            None => Ok(()),
        },
        _ => Ok(()),
    }
}

/// Take a ring out of each row.
fn take_rings(array: &Column, rings: &Vec<Option<Ring>>, output: &DataType) -> (r: Result<
    Column,
    Error,
>)
    requires
        array.wf(),
        rings@.len() == array.rows(),
        output@ == DataTypeView::separated(
            Kind::LineString,
            array@.data_type().dimension_or_xy(),
            output@.metadata,
        ),
        forall|i: int|
            0 <= i < array.rows() ==> (#[trigger] rings@[i] matches Some(ring) ==> ring_count(
                array@,
                i,
            ) is Some && ring.number() < ring_count(array@, i)->0),
    ensures
        are_taken(
            array@,
            Seq::new(array.rows() as nat, |i: int| number_of(rings@[i])),
            output@,
            r,
        ),
{
    let rows: usize = array.len();
    let ghost numbers = Seq::new(rows as nat, |i: int| number_of(rings@[i]));
    let ghost expected = Seq::new(rows as nat, |i: int| taken(array@, i, numbers[i]));
    let mut builder = LineStringBuilder::new(output.dimension_or_xy());
    let mut i: usize = 0;
    while i < rows
        invariant
            i <= rows,
            array.wf(),
            rows == array.rows(),
            rings@.len() == rows,
            builder.wf(),
            builder.dimension() == array@.data_type().dimension_or_xy(),
            numbers == Seq::new(rows as nat, |i: int| number_of(rings@[i])),
            expected == Seq::new(rows as nat, |i: int| taken(array@, i, numbers[i])),
            builder.rows() == expected.take(i as int),
            builder.open_row() == Seq::<Seq<u64>>::empty(),
            forall|i: int|
                0 <= i < array.rows() ==> (#[trigger] rings@[i] matches Some(ring) ==> ring_count(
                    array@,
                    i,
                ) is Some && ring.number() < ring_count(array@, i)->0),
            vertex_total(expected, i as int) <= i32::MAX,
            forall|j: int, error: Error|
                0 <= j < i ==> !#[trigger] is_ring_failure(array@, expected, numbers, j, error),
        decreases rows - i,
    {
        let ghost at = i as int;
        proof {
            lemma_vertex_total(expected.take(at), expected, at);
            assert(numbers[at] == number_of(rings@[at]));
            assert(expected[at] == taken(array@, at, numbers[at]));
        }
        let broken = !array.null_at(i) && is_undecoded(array, i);
        if broken {
            assert(is_ring_failure(array@, expected, numbers, at, Error::Undecodable));
            return Err(Error::Undecodable);
        }
        match rings[i] {
            Some(ring) => {
                match push_ring(&mut builder, array, i, ring) {
                    Ok(()) => {},
                    Err(error) => {
                        assert(is_ring_failure(array@, expected, numbers, at, error));
                        return Err(error);
                    },
                }
                builder.end_row();
            },
            None => {
                builder.push_null();
            },
        }
        proof {
            assert(expected.take(at + 1) =~= expected.take(at).push(expected[at]));
            assert forall|error: Error| !#[trigger] is_ring_failure(array@, expected, numbers, at, error) by {
            }
        }
        i = i + 1;
    }
    assert(expected.take(rows as int) =~= expected);
    Ok(builder.finish(output.metadata.copy()))
}

/// True when the value of a row could not be decoded.
fn is_undecoded(array: &Column, i: usize) -> (r: bool)
    requires
        array.wf(),
        i < array.rows(),
    ensures
        r == (array@.body.raw(i as int) is None),
{
    match &array.body {
        Body::Rows { items, .. } => items[i].is_none(),
        _ => false,
    }
}

/// `ST_ExteriorRing`. The outer ring of a polygon, as a line string.
pub fn st_exterior_ring(array: &Column, output: &DataType) -> (r: Result<Column, Error>)
    requires
        array.wf(),
        output@ == DataTypeView::separated(
            Kind::LineString,
            array@.data_type().dimension_or_xy(),
            output@.metadata,
        ),
    ensures
        are_taken(
            array@,
            Seq::new(array.rows() as nat, |i: int| exterior_number(array@, i)),
            output@,
            r,
        ),
{
    let rows: usize = array.len();
    let mut rings: Vec<Option<Ring>> = Vec::new();
    let mut i: usize = 0;
    while i < rows
        invariant
            i <= rows,
            array.wf(),
            rows == array.rows(),
            rings@.len() == i,
            forall|j: int|
                0 <= j < i ==> number_of(#[trigger] rings@[j]) == exterior_number(array@, j),
        decreases rows - i,
    {
        rings.push(
            match rings_in(array, i) {
                Some(Some(_)) => Some(Ring::Exterior),
                _ => None,
            },
        );
        i = i + 1;
    }
    assert(Seq::new(rows as nat, |i: int| number_of(rings@[i])) =~= Seq::new(
        rows as nat,
        |i: int| exterior_number(array@, i),
    ));
    take_rings(array, &rings, output)
}

/// `ST_InteriorRingN`. The nth hole of a polygon, numbered from one.
pub fn st_interior_ring_n(array: &Column, index: Index, output: &DataType) -> (r: Result<
    Column,
    Error,
>)
    requires
        array.wf(),
        index.covers(array.rows()),
        output@ == DataTypeView::separated(
            Kind::LineString,
            array@.data_type().dimension_or_xy(),
            output@.metadata,
        ),
    ensures
        are_taken(
            array@,
            Seq::new(array.rows() as nat, |i: int| interior_number(array@, index, i)),
            output@,
            r,
        ),
{
    let rows: usize = array.len();
    let mut rings: Vec<Option<Ring>> = Vec::new();
    let mut i: usize = 0;
    while i < rows
        invariant
            i <= rows,
            array.wf(),
            rows == array.rows(),
            index.covers(array.rows()),
            rings@.len() == i,
            forall|j: int|
                0 <= j < i ==> number_of(#[trigger] rings@[j]) == interior_number(array@, index, j),
        decreases rows - i,
    {
        rings.push(
            match rings_in(array, i) {
                Some(Some(holes)) => match index.zero_based(i, holes) {
                    Some(n) => Some(Ring::Interior(n)),
                    None => None,
                },
                _ => None,
            },
        );
        i = i + 1;
    }
    assert(Seq::new(rows as nat, |i: int| number_of(rings@[i])) =~= Seq::new(
        rows as nat,
        |i: int| interior_number(array@, index, i),
    ));
    take_rings(array, &rings, output)
}

// ----------------------------------------------------------------------- parts
/// The nth part of a geometry, numbered from one. A single geometry is its own first part.
pub open spec fn nth_part(geom: GeometryView, raw: Option<i32>) -> Option<GeometryView> {
    match geom {
        GeometryView::MultiPoint(points) => match zero_based(raw, points.len() as int) {
            Some(n) => Some(GeometryView::Point(points[n])),
            None => None,
        },
        GeometryView::MultiLineString(lines) => match zero_based(raw, lines.len() as int) {
            Some(n) => Some(GeometryView::LineString(lines[n])),
            None => None,
        },
        GeometryView::MultiPolygon(polygons) => match zero_based(raw, polygons.len() as int) {
            Some(n) => Some(GeometryView::Polygon(polygons[n])),
            None => None,
        },
        GeometryView::GeometryCollection(parts) => match zero_based(raw, parts.len() as int) {
            Some(n) => Some(parts[n]),
            None => None,
        },
        _ => match zero_based(raw, 1) {
            Some(_) => Some(geom),
            None => None,
        },
    }
}

/// The view of an optional geometry.
pub open spec fn geometry_view(geom: Option<Geometry>) -> Option<GeometryView> {
    match geom {
        Some(geom) => Some(geom@),
        None => None,
    }
}

/// The nth part of a geometry as an owned value.
///
/// Only the requested part is copied, not the whole geometry.
pub fn part_at(geom: &Geometry, index: &Index, row: usize) -> (r: Option<Geometry>)
    requires
        index.covers(row + 1),
    ensures
        geometry_view(r) == nth_part(geom@, index.nth(row as int)),
{
    match geom {
        Geometry::MultiPoint(points) => match index.zero_based(row, points.len()) {
            Some(n) => Some(Geometry::Point(points[n])),
            None => None,
        },
        Geometry::MultiLineString(lines) => match index.zero_based(row, lines.len()) {
            Some(n) => Some(Geometry::LineString(copy_line(&lines[n]))),
            None => None,
        },
        Geometry::MultiPolygon(polygons) => match index.zero_based(row, polygons.len()) {
            Some(n) => Some(Geometry::Polygon(copy_polygon(&polygons[n]))),
            None => None,
        },
        Geometry::GeometryCollection(parts) => {
            proof {
                lemma_collection_view(*parts);
            }
            match index.zero_based(row, parts.len()) {
                Some(n) => Some(parts[n].copy()),
                None => None,
            }
        },
        _ => match index.zero_based(row, 1) {
            Some(_) => Some(geom.copy()),
            None => None,
        },
    }
}

/// `ST_GeometryN`. The nth part of a collection, numbered from one.
///
/// For a geometry that is not a collection, index one returns the geometry itself and every other
/// index returns null. That matches PostGIS.
pub fn st_geometry_n(array: &Column, index: Index) -> (r: Result<Vec<Option<Geometry>>, Error>)
    requires
        array.wf(),
        index.covers(array.rows()),
    ensures
        match r {
            Ok(out) => {
                &&& !array@.has_broken(array.rows())
                &&& out@.len() == array.rows()
                &&& forall|i: int|
                    0 <= i < out@.len() ==> geometry_view(#[trigger] out@[i]) == match array@.geometry(
                        i,
                    ) {
                        Some(geom) => nth_part(geom, index.nth(i)),
                        None => None,
                    }
            },
            Err(error) => array@.has_broken(array.rows()) && error == Error::Undecodable,
        },
{
    let rows: usize = array.len();
    let mut reader = GeometryReader::new(array);
    let mut out: Vec<Option<Geometry>> = Vec::new();
    let mut i: usize = 0;
    while i < rows
        invariant
            i <= rows,
            array.wf(),
            rows == array.rows(),
            index.covers(array.rows()),
            reader.source() == *array,
            out@.len() == i,
            forall|j: int|
                0 <= j < i ==> geometry_view(#[trigger] out@[j]) == match array@.geometry(j) {
                    Some(geom) => nth_part(geom, index.nth(j)),
                    None => None,
                },
            !array@.has_broken(i as int),
        decreases rows - i,
    {
        match reader.read(i) {
            Ok(Some(geom)) => {
                let part = part_at(geom, &index, i);
                out.push(part);
            },
            Ok(None) => {
                out.push(None);
            },
            Err(error) => {
                return Err(error);
            },
        }
        i = i + 1;
    }
    Ok(out)
}

// ------------------------------------------------------------------------ laws
/// Components are numbered from one: an index of zero or less, or beyond the last one, gives
/// nothing, and every other index gives the component it counts to.
pub proof fn law_components_are_numbered_from_one(n: i32, count: int)
    ensures
        zero_based(Some(n), count) is Some <==> 1 <= n <= count,
        1 <= n <= count ==> zero_based(Some(n), count) == Some(n - 1),
        zero_based(None, count) is None,
{
}

/// `ST_StartPoint` is the first and `ST_EndPoint` is the last of what `ST_PointN` counts.
pub proof fn law_the_ends_are_the_first_and_last_vertices(array: ColumnView, i: int, count: i32)
    requires
        line_len(array, i) == Some(count as int),
    ensures
        end_position(array, LineEnd::Start, i) == nth_position(
            array,
            Index::Constant(Some(1)),
            i,
        ),
        end_position(array, LineEnd::End, i) == nth_position(
            array,
            Index::Constant(Some(count)),
            i,
        ),
{
}

/// A single geometry is its own first part and has no other.
pub proof fn law_a_single_geometry_is_its_only_part(geom: GeometryView, n: i32)
    requires
        !(geom is MultiPoint),
        !(geom is MultiLineString),
        !(geom is MultiPolygon),
        !(geom is GeometryCollection),
    ensures
        nth_part(geom, Some(1)) == Some(geom),
        n != 1 ==> nth_part(geom, Some(n)) is None,
{
}

} // verus!
