//! Build geometries from plain columns.
//!
//! A column of numbers is a list with a value per row, or none for a null.
//!
//! `ST_MakePolygon` builds next to nothing: a line string column and a polygon column share a
//! coordinate buffer layout, and the line string offsets become the polygon ring offsets. Only one
//! small offset list is built.

use vstd::prelude::*;
use crate::accessor::untyped_kind;
use crate::builder::{
    are_boxes, are_points, box_column, is_plane, plane, tuple_at, tuples_in, CoordList,
    PointBuilder,
};
use crate::column::{
    copy_offsets, copy_validity, is_untyped_kind, lemma_len_nonnegative, lemma_slots, offsets_fit,
    raw_polygon_at, Body, BodyView, Column, ColumnView, CoordBuffer, CoordBufferView, CoordType,
    DataType, DataTypeView, Dimension, Item, Kind,
};
use crate::crs::Metadata;
use crate::error::Error;
use crate::geometry::{close, copy_line, polygon_over, Coord, Geometry, GeometryView, PolygonView};
use crate::lists::append_copies;
use crate::number;

verus! {

/// The point of a row: its ordinates, or nothing when any of them is null.
pub open spec fn made_point(
    x: Option<u64>,
    y: Option<u64>,
    z: Option<Option<u64>>,
) -> Option<Seq<u64>> {
    match (x, y, z) {
        (Some(x), Some(y), None) => Some(seq![x, y]),
        (Some(x), Some(y), Some(Some(z))) => Some(seq![x, y, z]),
        _ => None,
    }
}

/// The z of a row, where there is a z column.
pub open spec fn nth_z(z: Option<&Vec<Option<u64>>>, i: int) -> Option<Option<u64>> {
    match z {
        Some(z) => Some(z@[i]),
        None => None,
    }
}

/// `ST_Point` and `ST_MakePoint`. Build points from an x column and a y column.
///
/// A row is null when any ordinate is null, as in PostGIS.
pub fn st_make_point(
    x: &Vec<Option<u64>>,
    y: &Vec<Option<u64>>,
    z: Option<&Vec<Option<u64>>>,
    metadata: Metadata,
) -> (r: Result<Column, Error>)
    ensures
        ({
            let equal = y@.len() == x@.len() && (z matches Some(z) ==> z@.len() == x@.len());
            let dim = if z is Some {
                Dimension::XYZ
            } else {
                Dimension::XY
            };
            match r {
                Ok(out) => {
                    &&& equal
                    &&& out@.data_type() == DataTypeView::separated(Kind::Point, dim, metadata@)
                    &&& are_points(
                        out@,
                        dim,
                        Seq::new(x@.len(), |i: int| made_point(x@[i], y@[i], nth_z(z, i))),
                    )
                },
                Err(Error::UnequalColumns { function }) => !equal && function@ == "ST_MakePoint"@,
                Err(_) => false,
            }
        }),
{
    let len: usize = x.len();
    let unequal = match z {
        Some(z) => z.len() != len,
        None => false,
    };
    if y.len() != len || unequal {
        return Err(Error::UnequalColumns { function: "ST_MakePoint" });
    }
    let dim = match z {
        Some(_) => Dimension::XYZ,
        None => Dimension::XY,
    };
    let mut builder = PointBuilder::new(dim);
    let ghost expected = Seq::new(x@.len(), |i: int| made_point(x@[i], y@[i], nth_z(z, i)));
    let mut i: usize = 0;
    while i < len
        invariant
            i <= len,
            len == x@.len(),
            len == y@.len(),
            z matches Some(z) ==> z@.len() == len,
            builder.wf(),
            builder.dimension() == dim,
            dim == (if z is Some {
                Dimension::XYZ
            } else {
                Dimension::XY
            }),
            expected == Seq::new(x@.len(), |i: int| made_point(x@[i], y@[i], nth_z(z, i))),
            builder.rows() == expected.take(i as int),
        decreases len - i,
    {
        let ghost before = builder.rows();
        let third: Option<u64> = match z {
            Some(z) => z[i],
            None => Some(number::ZERO),
        };
        match (x[i], y[i], third) {
            (Some(a), Some(b), Some(c)) => {
                let tuple = [a, b, c, number::ZERO];
                builder.push(tuple);
                assert(Some(tuple@.take(dim.count())) == expected[i as int]) by {
                    assert(tuple@.take(dim.count()) =~= expected[i as int]->0);
                }
            },
            _ => {
                builder.push_null();
            },
        }
        assert(expected.take(i + 1) =~= before.push(expected[i as int]));
        i = i + 1;
    }
    assert(expected.take(len as int) =~= expected);
    Ok(builder.finish(metadata))
}

/// The type `ST_MakePoint` produces.
pub fn point_type(dim: Dimension, metadata: Metadata) -> (r: DataType)
    ensures
        r@ == DataTypeView::separated(Kind::Point, dim, metadata@),
{
    DataType::separated(Kind::Point, dim, metadata)
}

/// The box of a row: its corners, or nothing when any ordinate is null.
pub open spec fn made_box(
    xmin: Option<u64>,
    ymin: Option<u64>,
    xmax: Option<u64>,
    ymax: Option<u64>,
) -> Option<(Coord, Coord)> {
    match (xmin, ymin, xmax, ymax) {
        (Some(a), Some(b), Some(c), Some(d)) => Some((Coord { x: a, y: b }, Coord { x: c, y: d })),
        _ => None,
    }
}

/// `ST_MakeEnvelope` and `ST_MakeBox2D`. Build boxes from four ordinate columns.
pub fn st_make_envelope(
    xmin: &Vec<Option<u64>>,
    ymin: &Vec<Option<u64>>,
    xmax: &Vec<Option<u64>>,
    ymax: &Vec<Option<u64>>,
    metadata: Metadata,
) -> (r: Result<Column, Error>)
    ensures
        ({
            let equal = ymin@.len() == xmin@.len() && xmax@.len() == xmin@.len() && ymax@.len()
                == xmin@.len();
            match r {
                Ok(out) => {
                    &&& equal
                    &&& out@.data_type() == DataTypeView::separated(
                        Kind::Rect,
                        Dimension::XY,
                        metadata@,
                    )
                    &&& are_boxes(
                        out@,
                        Seq::new(
                            xmin@.len(),
                            |i: int| made_box(xmin@[i], ymin@[i], xmax@[i], ymax@[i]),
                        ),
                    )
                },
                Err(Error::UnequalColumns { function }) => !equal && function@
                    == "ST_MakeEnvelope"@,
                Err(_) => false,
            }
        }),
{
    let len: usize = xmin.len();
    if ymin.len() != len || xmax.len() != len || ymax.len() != len {
        return Err(Error::UnequalColumns { function: "ST_MakeEnvelope" });
    }
    let ghost expected = Seq::new(
        xmin@.len(),
        |i: int| made_box(xmin@[i], ymin@[i], xmax@[i], ymax@[i]),
    );
    let mut rows: Vec<Option<(Coord, Coord)>> = Vec::new();
    let mut i: usize = 0;
    while i < len
        invariant
            i <= len,
            len == xmin@.len(),
            len == ymin@.len(),
            len == xmax@.len(),
            len == ymax@.len(),
            rows@.len() == i,
            forall|j: int|
                0 <= j < i ==> #[trigger] rows@[j] == made_box(
                    xmin@[j],
                    ymin@[j],
                    xmax@[j],
                    ymax@[j],
                ),
        decreases len - i,
    {
        rows.push(
            match (xmin[i], ymin[i], xmax[i], ymax[i]) {
                (Some(a), Some(b), Some(c), Some(d)) => Some(
                    (Coord { x: a, y: b }, Coord { x: c, y: d }),
                ),
                _ => None,
            },
        );
        i = i + 1;
    }
    assert(rows@ =~= expected);
    Ok(box_column(&rows, metadata))
}

/// The type `ST_MakeEnvelope` produces.
pub fn box_type(metadata: Metadata) -> (r: DataType)
    ensures
        r@ == DataTypeView::separated(Kind::Rect, Dimension::XY, metadata@),
{
    DataType::separated(Kind::Rect, Dimension::XY, metadata)
}

// -------------------------------------------------------------------- polygons
/// The offsets of one ring per polygon.
pub open spec fn one_each(rows: int) -> Seq<i32> {
    Seq::new((rows + 1) as nat, |i: int| i as i32)
}

/// The polygon of a row of a mixed or serialized column: a line string makes the outer ring, closed
/// where it is not, and anything else makes a null.
pub open spec fn made_polygon(raw: Option<GeometryView>) -> Option<GeometryView> {
    match raw {
        Some(GeometryView::LineString(line)) => Some(
            GeometryView::Polygon(polygon_over(line, Seq::empty())),
        ),
        _ => None,
    }
}

/// The vertices of the polygons of the rows `0..end`.
pub open spec fn ring_total(array: ColumnView, end: int) -> nat
    decreases end,
{
    if end <= 0 {
        0
    } else {
        ring_total(array, end - 1) + match made_polygon(array.raw(end - 1)) {
            Some(polygon) => polygon->Polygon_0.exterior.len(),
            None => 0,
        }
    }
}

/// The layout that a type asks for.
pub open spec fn layout_of(data_type: DataTypeView) -> CoordType {
    match data_type.coord_type {
        Some(layout) => layout,
        None => CoordType::Separated,
    }
}

/// `ST_MakePolygon`. Turn each closed line string into a polygon with no holes.
///
/// # Two paths
///
/// A typed line string column needs no coordinate work. The two sides share the coordinate buffer.
/// The line string offsets become the polygon ring offsets. The only new list is `0, 1, 2, ...`. It
/// states that every polygon has exactly one ring.
///
/// A mixed or serialized column carries an unknown type per row, so it takes a per-row path. That
/// is the shape produced by `ST_GeomFromText`, so it is the common case in hand written SQL.
pub fn st_make_polygon(array: &Column, output: &DataType) -> (r: Result<Column, Error>)
    requires
        array.wf(),
        array@.body is LineString || is_untyped_kind(array@.data_type().kind) ==> array.rows()
            <= i32::MAX,
        is_untyped_kind(array@.data_type().kind) ==> output@.kind == Kind::Polygon
            && output@.dimension == Some(Dimension::XY) && output@.coord_type is Some,
    ensures
        match array@.body {
            BodyView::LineString { coords, geom_offsets } => {
                &&& r is Ok
                &&& r->Ok_0@.wf()
                &&& r->Ok_0@.body == (BodyView::Polygon {
                    coords,
                    geom_offsets: one_each(array.rows()),
                    ring_offsets: geom_offsets,
                })
                &&& r->Ok_0@.validity == array@.validity
                &&& r->Ok_0@.metadata == array@.metadata
            },
            _ => if is_untyped_kind(array@.data_type().kind) {
                match r {
                    Ok(out) => {
                        &&& !array@.has_broken(array.rows())
                        &&& ring_total(array@, array.rows()) <= i32::MAX
                        &&& out@.wf()
                        &&& out@.data_type() == output@
                        &&& out@.rows() == array.rows()
                        &&& forall|i: int|
                            0 <= i < array.rows() ==> #[trigger] out@.raw(i) == made_polygon(
                                array@.raw(i),
                            )
                    },
                    Err(Error::Undecodable) => array@.has_broken(array.rows()),
                    Err(Error::Overflow) => ring_total(array@, array.rows()) > i32::MAX,
                    Err(_) => false,
                }
            } else {
                r == Err::<Column, Error>(
                    Error::NeedsLineStrings { got: array@.data_type().kind },
                )
            },
        },
{
    match &array.body {
        Body::LineString { coords, geom_offsets } => {
            let rows: usize = array.len();
            // One ring per polygon. This is the only list built here.
            let mut offsets: Vec<i32> = Vec::new();
            offsets.push(0);
            let mut i: usize = 0;
            while i < rows
                invariant
                    i <= rows,
                    rows <= i32::MAX,
                    offsets@.len() == i + 1,
                    forall|j: int| 0 <= j <= i ==> #[trigger] offsets@[j] == j,
                decreases rows - i,
            {
                offsets.push((i + 1) as i32);
                i = i + 1;
            }
            assert(offsets@ =~= one_each(array.rows()));
            Ok(
                Column {
                    body: Body::Polygon {
                        coords: coords.copy(),
                        geom_offsets: offsets,
                        ring_offsets: copy_offsets(geom_offsets),
                    },
                    validity: copy_validity(&array.validity),
                    metadata: array.metadata.copy(),
                },
            )
        },
        Body::Rows { kind, items, .. } => {
            if untyped_kind(*kind) {
                make_polygon_per_row(array, items, output)
            } else {
                Err(Error::NeedsLineStrings { got: *kind })
            }
        },
        _ => Err(Error::NeedsLineStrings { got: array.body.kind() }),
    }
}

/// The runs of the rings `0..n` of the rows `0..rows` of a column of one ring at most per row.
spec fn is_ring_row(
    points: Seq<Coord>,
    geom_offsets: Seq<i32>,
    ring_offsets: Seq<i32>,
    valid: bool,
    i: int,
    expected: Option<GeometryView>,
) -> bool {
    match expected {
        None => !valid && geom_offsets[i] == geom_offsets[i + 1],
        Some(polygon) => {
            let ring = polygon->Polygon_0.exterior;
            &&& valid
            &&& if ring.len() == 0 {
                geom_offsets[i] == geom_offsets[i + 1]
            } else {
                let n = geom_offsets[i] as int;
                &&& geom_offsets[i + 1] == n + 1
                &&& points.subrange(ring_offsets[n] as int, ring_offsets[n + 1] as int) == ring
            }
        },
    }
}

fn make_polygon_per_row(array: &Column, items: &Vec<Option<Item>>, output: &DataType) -> (r: Result<
    Column,
    Error,
>)
    requires
        array.wf(),
        array.rows() <= i32::MAX,
        array.body is Rows,
        array.body->items == *items,
        output@.kind == Kind::Polygon,
        output@.dimension == Some(Dimension::XY),
        output@.coord_type is Some,
    ensures
        match r {
            Ok(out) => {
                &&& !array@.has_broken(array.rows())
                &&& ring_total(array@, array.rows()) <= i32::MAX
                &&& out@.wf()
                &&& out@.data_type() == output@
                &&& out@.rows() == array.rows()
                &&& forall|i: int|
                    0 <= i < array.rows() ==> #[trigger] out@.raw(i) == made_polygon(array@.raw(i))
            },
            Err(Error::Undecodable) => array@.has_broken(array.rows()),
            Err(Error::Overflow) => ring_total(array@, array.rows()) > i32::MAX,
            Err(_) => false,
        },
{
    let rows: usize = array.len();
    let mut points: Vec<Coord> = Vec::new();
    let mut geom_offsets: Vec<i32> = Vec::new();
    let mut ring_offsets: Vec<i32> = Vec::new();
    let mut valid: Vec<bool> = Vec::new();
    geom_offsets.push(0);
    ring_offsets.push(0);
    let mut i: usize = 0;
    while i < rows
        invariant
            i <= rows,
            rows <= i32::MAX,
            array.wf(),
            rows == array.rows(),
            array.body is Rows,
            array.body->items == *items,
            !array@.has_broken(i as int),
            points@.len() == ring_total(array@, i as int),
            points@.len() <= i32::MAX,
            valid@.len() == i,
            geom_offsets@.len() == i + 1,
            geom_offsets@[i as int] == ring_offsets@.len() - 1,
            ring_offsets@.len() <= i + 1,
            ring_offsets@[ring_offsets@.len() - 1] == points@.len(),
            offsets_fit(geom_offsets@, ring_offsets@.len() - 1),
            offsets_fit(ring_offsets@, points@.len() as int),
            forall|j: int|
                0 <= j < i ==> is_ring_row(
                    points@,
                    geom_offsets@,
                    ring_offsets@,
                    #[trigger] valid@[j],
                    j,
                    made_polygon(array@.raw(j)),
                ),
        decreases rows - i,
    {
        let ghost at = i as int;
        let ghost old_points = points@;
        let ghost old_geoms = geom_offsets@;
        let ghost old_rings = ring_offsets@;
        let ghost old_valid = valid@;
        if array.null_at(i) {
            valid.push(false);
        } else {
            match &items[i] {
                Some(item) => match &item.geometry {
                    Geometry::LineString(line) => {
                        let mut ring = copy_line(line);
                        close(&mut ring);
                        let count: usize = ring.len();
                        let held: usize = points.len();
                        assert(ring_total(array@, at + 1) == old_points.len() + ring@.len());
                        if count > 0x7fff_ffff - held {
                            proof {
                                lemma_ring_total_grows(array@, at + 1, rows as int);
                            }
                            return Err(Error::Overflow);
                        }
                        append_copies(&mut points, &ring);
                        if count > 0 {
                            ring_offsets.push((held + count) as i32);
                        }
                        assert(points@.subrange(held as int, held + count) =~= ring@);
                        valid.push(true);
                    },
                    // PostGIS raises here. A null keeps a mixed column usable.
                    _ => {
                        valid.push(false);
                    },
                },
                None => {
                    assert(array@.is_broken(i as int));
                    return Err(Error::Undecodable);
                },
            }
        }
        geom_offsets.push((ring_offsets.len() - 1) as i32);
        proof {
            assert forall|j: int| 0 <= j <= at implies is_ring_row(
                points@,
                geom_offsets@,
                ring_offsets@,
                #[trigger] valid@[j],
                j,
                made_polygon(array@.raw(j)),
            ) by {
                if j < at {
                    assert(is_ring_row(
                        old_points,
                        old_geoms,
                        old_rings,
                        old_valid[j],
                        j,
                        made_polygon(array@.raw(j)),
                    ));
                    let n = old_geoms[j] as int;
                    assert(old_geoms[j] <= old_geoms[j + 1]);
                    assert(old_geoms[j + 1] <= old_geoms[at]);
                    assert(old_geoms[0] <= old_geoms[j]);
                    if old_geoms[j + 1] == n + 1 {
                        assert(old_rings[0] <= old_rings[n]);
                        assert(old_rings[n] <= old_rings[n + 1]);
                        assert(old_rings[n + 1] <= old_rings[old_rings.len() - 1]);
                        assert(points@.subrange(old_rings[n] as int, old_rings[n + 1] as int)
                            =~= old_points.subrange(old_rings[n] as int, old_rings[n + 1] as int));
                    }
                }
            }
        }
        i = i + 1;
    }
    let layout: CoordType = match output.coord_type {
        Some(layout) => layout,
        None => CoordType::Separated,
    };
    let coords = plane(&points, layout);
    let out = Column {
        body: Body::Polygon { coords, geom_offsets, ring_offsets },
        validity: Some(valid),
        metadata: output.metadata.copy(),
    };
    proof {
        assert forall|j: int| 0 <= j < rows implies #[trigger] out@.raw(j) == made_polygon(
            array@.raw(j),
        ) by {
            assert(is_ring_row(
                points@,
                geom_offsets@,
                ring_offsets@,
                valid@[j],
                j,
                made_polygon(array@.raw(j)),
            ));
            if made_polygon(array@.raw(j)) is Some {
                lemma_ring_row_read(
                    coords@,
                    points@,
                    geom_offsets@,
                    ring_offsets@,
                    valid@[j],
                    j,
                    array@.raw(j),
                );
            }
        }
    }
    Ok(out)
}

proof fn lemma_ring_total_grows(array: ColumnView, start: int, end: int)
    requires
        start <= end,
    ensures
        ring_total(array, start) <= ring_total(array, end),
    decreases end - start,
{
    if start < end {
        lemma_ring_total_grows(array, start, end - 1);
    }
}

/// A row that was laid out reads back.
proof fn lemma_ring_row_read(
    coords: CoordBufferView,
    points: Seq<Coord>,
    geom_offsets: Seq<i32>,
    ring_offsets: Seq<i32>,
    valid: bool,
    j: int,
    raw: Option<GeometryView>,
)
    requires
        is_plane(coords, coords.coord_type(), points),
        0 <= j,
        j + 1 < geom_offsets.len(),
        offsets_fit(geom_offsets, ring_offsets.len() - 1),
        offsets_fit(ring_offsets, points.len() as int),
        is_ring_row(points, geom_offsets, ring_offsets, valid, j, made_polygon(raw)),
        made_polygon(raw) is Some,
    ensures
        made_polygon(raw) == Some(
            GeometryView::Polygon(
                raw_polygon_at(
                    coords,
                    ring_offsets,
                    geom_offsets[j] as int,
                    geom_offsets[j + 1] as int,
                ),
            ),
        ),
{
    let polygon = made_polygon(raw)->0->Polygon_0;
    let first = geom_offsets[j] as int;
    let last = geom_offsets[j + 1] as int;
    let got = raw_polygon_at(coords, ring_offsets, first, last);
    assert(polygon.interiors.len() == 0);
    assert(geom_offsets[0] <= geom_offsets[j]);
    assert(geom_offsets[j + 1] <= geom_offsets[geom_offsets.len() - 1]);
    if first < last {
        assert(ring_offsets[0] <= ring_offsets[first]);
        assert(ring_offsets[first] <= ring_offsets[first + 1]);
        assert(ring_offsets[first + 1] <= ring_offsets[ring_offsets.len() - 1]);
        assert(got.exterior =~= points.subrange(
            ring_offsets[first] as int,
            ring_offsets[first + 1] as int,
        ));
    }
    assert(got.exterior =~= polygon.exterior);
    assert(got.interiors =~= polygon.interiors);
}

/// The type `ST_MakePolygon` produces from a given line string type.
pub fn polygon_type_for(input: &DataType) -> (r: DataType)
    ensures
        r@ == (DataTypeView {
            kind: Kind::Polygon,
            dimension: Some(input@.dimension_or_xy()),
            coord_type: Some(layout_of(input@)),
            metadata: input@.metadata,
        }),
{
    let layout: CoordType = match input.coord_type {
        Some(layout) => layout,
        None => CoordType::Separated,
    };
    DataType {
        kind: Kind::Polygon,
        dimension: Some(input.dimension_or_xy()),
        coord_type: Some(layout),
        metadata: input.metadata.copy(),
    }
}

// ----------------------------------------------------------------------- lines
/// One ordinate slot of a coordinate buffer, zero beyond its end.
pub open spec fn slot_or_zero(coords: CoordBufferView, row: int, k: int) -> u64 {
    match coords {
        CoordBufferView::Separated(buffers, _) => if row < buffers[k].len() {
            buffers[k][row]
        } else {
            number::ZERO
        },
        CoordBufferView::Interleaved(values, dim) => if row * dim.count() + k < values.len() {
            values[row * dim.count() + k]
        } else {
            number::ZERO
        },
    }
}

/// The first ordinate slots of a coordinate.
pub open spec fn slots_at(coords: CoordBufferView, dim: Dimension, row: int) -> Seq<u64> {
    Seq::new(dim.count() as nat, |k: int| slot_or_zero(coords, row, k))
}

/// Read one ordinate out of a coordinate buffer. This builds no scalar.
pub fn ordinate_at(coords: &CoordBuffer, row: usize, ordinate: usize) -> (r: u64)
    requires
        coords@.wf(),
        row < coords@.len(),
        ordinate < 4,
    ensures
        r == slot_or_zero(coords@, row as int, ordinate as int),
{
    match coords {
        CoordBuffer::Separated(separated) => if row < separated.buffers[ordinate].len() {
            separated.buffers[ordinate][row]
        } else {
            number::ZERO
        },
        CoordBuffer::Interleaved(interleaved) => {
            let stride: usize = interleaved.dim.size();
            let total: usize = interleaved.coords.len();
            proof {
                lemma_slots(interleaved.coords@, interleaved.dim, row as int, 0);
            }
            let first: usize = row * stride;
            if ordinate < total - first {
                interleaved.coords[first + ordinate]
            } else {
                number::ZERO
            }
        },
    }
}

/// The type `ST_MakeLine` produces from a point input type.
pub fn line_string_type_for(input: &DataType) -> (r: DataType)
    ensures
        r@ == DataTypeView::separated(Kind::LineString, input@.dimension_or_xy(), input@.metadata),
{
    DataType::separated(Kind::LineString, input.dimension_or_xy(), input.metadata.copy())
}

/// True when each line of a body goes from the coordinate of one buffer to that of the other.
pub open spec fn are_two_ended(
    body: BodyView,
    start: CoordBufferView,
    end: CoordBufferView,
    dim: Dimension,
    rows: int,
) -> bool {
    &&& body is LineString
    &&& body->LineString_geom_offsets == Seq::new((rows + 1) as nat, |i: int| (2 * i) as i32)
    &&& body->LineString_coords.len() == 2 * rows
    &&& forall|i: int|
        0 <= i < rows ==> #[trigger] tuple_at(body->LineString_coords, 2 * i) == slots_at(
            start,
            dim,
            i,
        )
    &&& forall|i: int|
        0 <= i < rows ==> #[trigger] tuple_at(body->LineString_coords, 2 * i + 1) == slots_at(
            end,
            dim,
            i,
        )
}

/// `ST_MakeLine`. Join two point columns into a two point line string.
///
/// The coordinates are interleaved row by row. There is no layout in which two separate point
/// columns already read as one line string column.
pub fn st_make_line(start: &Column, end: &Column, output: &DataType) -> (r: Result<Column, Error>)
    requires
        start.wf(),
        end.wf(),
        output@.kind == Kind::LineString,
        output@.dimension is Some,
        output@.coord_type == Some(CoordType::Separated),
        start@.body is Point ==> 2 * start.rows() <= i32::MAX,
    ensures
        match (start@.body, end@.body) {
            (BodyView::Point { coords: a }, BodyView::Point { coords: b }) => {
                if start.rows() != end.rows() {
                    r matches Err(Error::UnequalColumns { function }) && function@
                        == "ST_MakeLine"@
                } else {
                    &&& r is Ok
                    &&& r->Ok_0@.wf()
                    &&& r->Ok_0@.data_type() == output@
                    &&& r->Ok_0@.rows() == start.rows()
                    &&& forall|i: int|
                        0 <= i < start.rows() ==> #[trigger] r->Ok_0@.is_null(i) == (start.is_null(
                            i,
                        ) || end.is_null(i))
                    &&& are_two_ended(r->Ok_0@.body, a, b, output@.dimension->0, start.rows())
                }
            },
            _ => r == Err::<Column, Error>(Error::NeedsTwoPoints),
        },
{
    let (a, b) = match (&start.body, &end.body) {
        (Body::Point { coords: a }, Body::Point { coords: b }) => (a, b),
        _ => {
            return Err(Error::NeedsTwoPoints);
        },
    };
    let len: usize = start.len();
    if end.len() != len {
        return Err(Error::UnequalColumns { function: "ST_MakeLine" });
    }
    let dim = output.dimension_or_xy();
    // Two coordinates per row, laid out one line string at a time.
    let mut list = CoordList::new(dim);
    let mut offsets: Vec<i32> = Vec::new();
    let mut valid: Vec<bool> = Vec::new();
    offsets.push(0);
    let mut i: usize = 0;
    while i < len
        invariant
            i <= len,
            start.wf(),
            end.wf(),
            start.body == (Body::Point { coords: *a }),
            end.body == (Body::Point { coords: *b }),
            len == start.rows(),
            len == end.rows(),
            2 * len <= i32::MAX,
            list.wf(),
            list.dimension() == dim,
            list.tuples().len() == 2 * i,
            forall|j: int|
                0 <= j < i ==> list.tuples()[2 * j] == #[trigger] slots_at(a@, dim, j),
            forall|j: int|
                0 <= j < i ==> list.tuples()[2 * j + 1] == #[trigger] slots_at(b@, dim, j),
            offsets@.len() == i + 1,
            forall|j: int| 0 <= j <= i ==> #[trigger] offsets@[j] == 2 * j,
            valid@.len() == i,
            forall|j: int|
                0 <= j < i ==> #[trigger] valid@[j] == !(start.is_null(j) || end.is_null(j)),
        decreases len - i,
    {
        let first = [
            ordinate_at(a, i, 0),
            ordinate_at(a, i, 1),
            ordinate_at(a, i, 2),
            ordinate_at(a, i, 3),
        ];
        let second = [
            ordinate_at(b, i, 0),
            ordinate_at(b, i, 1),
            ordinate_at(b, i, 2),
            ordinate_at(b, i, 3),
        ];
        proof {
            assert(first@.take(dim.count()) =~= slots_at(a@, dim, i as int));
            assert(second@.take(dim.count()) =~= slots_at(b@, dim, i as int));
        }
        list.push(first);
        list.push(second);
        offsets.push((2 * (i + 1)) as i32);
        valid.push(!(start.null_at(i) || end.null_at(i)));
        i = i + 1;
    }
    let ghost tuples = list.tuples();
    let coords = list.finish();
    proof {
        lemma_len_nonnegative(coords@);
        let all = tuples_in(coords@, 0, coords@.len());
        assert(all.len() == tuples.len());
        assert forall|j: int| 0 <= j < len implies #[trigger] tuple_at(coords@, 2 * j) == slots_at(
            a@,
            dim,
            j,
        ) by {
            assert(all[2 * j] == tuples[2 * j]);
        }
        assert forall|j: int| 0 <= j < len implies #[trigger] tuple_at(coords@, 2 * j + 1)
            == slots_at(b@, dim, j) by {
            assert(all[2 * j + 1] == tuples[2 * j + 1]);
        }
        assert(offsets@ =~= Seq::new((len + 1) as nat, |i: int| (2 * i) as i32));
    }
    Ok(
        Column {
            body: Body::LineString { coords, geom_offsets: offsets },
            validity: Some(valid),
            metadata: output.metadata.copy(),
        },
    )
}

// ------------------------------------------------------------------------ laws
/// A polygon that was made of a line string column has the line of its row as its only ring.
pub proof fn law_the_line_is_the_only_ring(
    lines: ColumnView,
    polygons: ColumnView,
    coords: CoordBufferView,
    offsets: Seq<i32>,
    i: int,
)
    requires
        lines.wf(),
        lines.rows() <= i32::MAX,
        lines.body == (BodyView::LineString { coords, geom_offsets: offsets }),
        polygons.body == (BodyView::Polygon {
            coords,
            geom_offsets: one_each(lines.rows()),
            ring_offsets: offsets,
        }),
        0 <= i < lines.rows(),
    ensures
        polygons.body.raw(i) == Some(
            GeometryView::Polygon(
                PolygonView {
                    exterior: lines.body.raw(i)->0->LineString_0,
                    interiors: Seq::empty(),
                },
            ),
        ),
{
    let got = polygons.body.raw(i)->0->Polygon_0;
    assert(got.interiors =~= Seq::empty());
}

} // verus!
