//! Geometry accessors.
//!
//! These read a property out of every row. Most of them are pure columnar work with no geometric
//! algorithm behind them.
//!
//! A single-typed column already answers `ST_GeometryType`, `ST_Dimension` and `ST_CoordDim` from
//! its schema. Those kernels fill a constant and never look at a row.

use vstd::prelude::*;
use crate::column::{
    is_untyped_kind, item_view, items_view, Body, BodyView, Column, ColumnView, CoordBuffer,
    CoordBufferView, DataType, Dimension, Item, ItemView, Kind,
};
use crate::error::Error;
use crate::geometry::{
    geometries_view, is_closed_path, lemma_collection_view, lines_view, path_is_closed,
    polygons_view, Coord, Geometry, GeometryView, Polygon, PolygonView,
};
use crate::lists::{lemma_flatten_all, lemma_flatten_none, lemma_flatten_step, total};
use crate::materialize::{row_runs, run_of};
use crate::number;
use crate::rows::{map_geometries, map_raw};

verus! {

// ------------------------------------------------------------------- ordinates
/// Which coordinate to read.
#[derive(Debug, Clone, Copy, PartialEq, Eq, Structural, Hash)]
pub enum Ordinate {
    /// The x coordinate. Present in every dimension.
    X,
    /// The y coordinate. Present in every dimension.
    Y,
    /// The z coordinate. Absent from XY and XYM.
    Z,
    /// The measure. Absent from XY and XYZ.
    M,
}

impl Ordinate {
    /// The PostGIS function name that reads this ordinate.
    pub open spec fn name_text(self) -> Seq<char> {
        match self {
            Ordinate::X => "ST_X"@,
            Ordinate::Y => "ST_Y"@,
            Ordinate::Z => "ST_Z"@,
            Ordinate::M => "ST_M"@,
        }
    }

    /// Position of this ordinate inside a coordinate.
    pub open spec fn slot(self, dim: Dimension) -> Option<int> {
        match (self, dim) {
            (Ordinate::X, _) => Some(0),
            (Ordinate::Y, _) => Some(1),
            (Ordinate::Z, Dimension::XYZ) => Some(2),
            (Ordinate::Z, Dimension::XYZM) => Some(2),
            (Ordinate::Z, _) => None,
            (Ordinate::M, Dimension::XYM) => Some(2),
            (Ordinate::M, Dimension::XYZM) => Some(3),
            (Ordinate::M, _) => None,
        }
    }

    /// The PostGIS function name that reads this ordinate.
    pub fn function_name(self) -> (r: &'static str)
        ensures
            r@ == self.name_text(),
    {
        match self {
            Ordinate::X => "ST_X",
            Ordinate::Y => "ST_Y",
            Ordinate::Z => "ST_Z",
            Ordinate::M => "ST_M",
        }
    }

    /// Position of this ordinate inside a coordinate, or `None` when the dimension lacks it.
    ///
    /// XYM stores the measure in slot 2, XYZM in slot 3. That difference is why this is a lookup
    /// and not a constant.
    pub fn index_in(self, dim: Dimension) -> (r: Option<usize>)
        ensures
            match r {
                Some(k) => self.slot(dim) == Some(k as int) && k < dim.count(),
                None => self.slot(dim) is None,
            },
    {
        match (self, dim) {
            (Ordinate::X, _) => Some(0),
            (Ordinate::Y, _) => Some(1),
            (Ordinate::Z, Dimension::XYZ) => Some(2),
            (Ordinate::Z, Dimension::XYZM) => Some(2),
            (Ordinate::Z, _) => None,
            (Ordinate::M, Dimension::XYM) => Some(2),
            (Ordinate::M, Dimension::XYZM) => Some(3),
            (Ordinate::M, _) => None,
        }
    }
}

/// Returns true when the row type is unknown before execution.
pub fn is_untyped(data_type: &DataType) -> (r: bool)
    ensures
        r == is_untyped_kind(data_type.kind),
{
    untyped_kind(data_type.kind)
}

/// Returns true for the kinds whose row type is unknown before execution.
pub fn untyped_kind(kind: Kind) -> (r: bool)
    ensures
        r == is_untyped_kind(kind),
{
    match kind {
        Kind::Geometry | Kind::Wkb | Kind::LargeWkb | Kind::WkbView | Kind::Wkt | Kind::LargeWkt
        | Kind::WktView => true,
        _ => false,
    }
}

/// Returns true when [`ordinate`] accepts this type.
///
/// A single-typed column that is not a point is rejected at plan time. A mixed or serialized
/// column carries an unknown type per row, so it is accepted and non-point rows yield null.
pub fn accepts_ordinate(data_type: &DataType) -> (r: bool)
    ensures
        r == (data_type.kind == Kind::Point || is_untyped_kind(data_type.kind)),
{
    data_type.kind == Kind::Point || is_untyped(data_type)
}

/// `ST_X`.
pub fn st_x(array: &Column) -> (r: Result<Vec<Option<u64>>, Error>)
    requires
        array.wf(),
    ensures
        are_ordinates(array@, Ordinate::X, r),
{
    ordinate(array, Ordinate::X)
}

/// `ST_Y`.
pub fn st_y(array: &Column) -> (r: Result<Vec<Option<u64>>, Error>)
    requires
        array.wf(),
    ensures
        are_ordinates(array@, Ordinate::Y, r),
{
    ordinate(array, Ordinate::Y)
}

/// `ST_Z`. Null for a two-dimensional geometry.
pub fn st_z(array: &Column) -> (r: Result<Vec<Option<u64>>, Error>)
    requires
        array.wf(),
    ensures
        are_ordinates(array@, Ordinate::Z, r),
{
    ordinate(array, Ordinate::Z)
}

/// `ST_M`. Null for a geometry without a measure.
pub fn st_m(array: &Column) -> (r: Result<Vec<Option<u64>>, Error>)
    requires
        array.wf(),
    ensures
        are_ordinates(array@, Ordinate::M, r),
{
    ordinate(array, Ordinate::M)
}

impl ItemView {
    /// One ordinate of a point, by its place in the coordinate.
    pub open spec fn nth(self, k: int) -> u64 {
        if k == 0 {
            self.geometry->Point_0.x
        } else if k == 1 {
            self.geometry->Point_0.y
        } else if k == 2 && self.dim != Dimension::XYM {
            self.z
        } else {
            self.m
        }
    }

    /// True for a point whose ordinates are all NaN.
    pub open spec fn is_empty_point(self) -> bool {
        self.geometry is Point && forall|k: int|
            0 <= k < self.dim.count() ==> number::is_nan(#[trigger] self.nth(k))
    }
}

/// The ordinate of a row: nothing for a null, for another geometry than a point, for an empty
/// point, and where the dimension lacks the ordinate.
pub open spec fn ordinate_at(array: ColumnView, ord: Ordinate, i: int) -> Option<u64> {
    if array.is_null(i) {
        None
    } else {
        match array.body {
            BodyView::Point { coords } => match ord.slot(coords.dim()) {
                Some(k) => Some(coords.ordinate(i, k)),
                None => None,
            },
            BodyView::Rows { items, .. } => match items[i] {
                Some(item) => if item.geometry is Point && !item.is_empty_point() {
                    match ord.slot(item.dim) {
                        Some(k) => Some(item.nth(k)),
                        None => None,
                    }
                } else {
                    None
                },
                None => None,
            },
            _ => None,
        }
    }
}

/// What [`ordinate`] gives.
pub open spec fn are_ordinates(
    array: ColumnView,
    ord: Ordinate,
    r: Result<Vec<Option<u64>>, Error>,
) -> bool {
    let kind = array.body.kind();
    match r {
        Ok(out) => {
            &&& kind == Kind::Point || is_untyped_kind(kind)
            &&& !array.has_broken(array.rows())
            &&& out@ == Seq::new(array.rows() as nat, |i: int| ordinate_at(array, ord, i))
        },
        Err(Error::Undecodable) => is_untyped_kind(kind) && array.has_broken(array.rows()),
        Err(Error::NeedsPoints { function, got }) => {
            &&& kind != Kind::Point
            &&& !is_untyped_kind(kind)
            &&& function@ == ord.name_text()
            &&& got == kind
        },
        Err(_) => false,
    }
}

impl Item {
    /// One ordinate of a point, by its place in the coordinate.
    fn nth(&self, c: &Coord, k: usize) -> (r: u64)
        requires
            self.geometry@ == GeometryView::Point(*c),
        ensures
            r == self@.nth(k as int),
    {
        if k == 0 {
            c.x
        } else if k == 1 {
            c.y
        } else if k == 2 && self.dim != Dimension::XYM {
            self.z
        } else {
            self.m
        }
    }

    /// True for a point whose ordinates are all NaN.
    pub fn is_empty_point(&self) -> (r: bool)
        ensures
            r == self@.is_empty_point(),
    {
        match &self.geometry {
            Geometry::Point(c) => {
                let size: usize = self.dim.size();
                let mut k: usize = 0;
                while k < size
                    invariant
                        k <= size,
                        size == self.dim.count(),
                        self.geometry@ == GeometryView::Point(*c),
                        forall|j: int| 0 <= j < k ==> number::is_nan(#[trigger] self@.nth(j)),
                    decreases size - k,
                {
                    let value: u64 = self.nth(c, k);
                    if !number::nan(value) {
                        assert(!number::is_nan(self@.nth(k as int)));
                        return false;
                    }
                    k = k + 1;
                }
                true
            },
            _ => false,
        }
    }
}

/// Read one ordinate of every point in the column.
pub fn ordinate(array: &Column, ord: Ordinate) -> (r: Result<Vec<Option<u64>>, Error>)
    requires
        array.wf(),
    ensures
        are_ordinates(array@, ord, r),
{
    match &array.body {
        Body::Point { coords } => Ok(point_ordinate(array, coords, ord)),
        Body::Rows { kind, items, .. } => if untyped_kind(*kind) {
            untyped_ordinate(array, items, ord)
        } else {
            Err(Error::NeedsPoints { function: ord.function_name(), got: *kind })
        },
        _ => Err(Error::NeedsPoints { function: ord.function_name(), got: array.body.kind() }),
    }
}

/// The path over a coordinate buffer.
fn point_ordinate(array: &Column, coords: &CoordBuffer, ord: Ordinate) -> (r: Vec<Option<u64>>)
    requires
        array.wf(),
        array@.body == (BodyView::Point { coords: coords@ }),
    ensures
        !array@.has_broken(array.rows()),
        r@ == Seq::new(array.rows() as nat, |i: int| ordinate_at(array@, ord, i)),
{
    let rows: usize = array.len();
    let slot = ord.index_in(coords.dim());
    let mut out: Vec<Option<u64>> = Vec::new();
    let mut i: usize = 0;
    while i < rows
        invariant
            i <= rows,
            array.wf(),
            rows == array.rows(),
            array@.body == (BodyView::Point { coords: coords@ }),
            match slot {
                Some(k) => ord.slot(coords@.dim()) == Some(k as int) && k < coords@.dim().count(),
                None => ord.slot(coords@.dim()) is None,
            },
            out@.len() == i,
            forall|j: int| 0 <= j < i ==> #[trigger] out@[j] == ordinate_at(array@, ord, j),
        decreases rows - i,
    {
        let value: Option<u64> = if array.null_at(i) {
            None
        } else {
            match slot {
                Some(k) => Some(coords.ordinate(i, k)),
                // The dimension has no such ordinate. PostGIS returns NULL, not an error.
                None => None,
            }
        };
        out.push(value);
        i = i + 1;
    }
    proof {
        assert(out@ =~= Seq::new(array.rows() as nat, |i: int| ordinate_at(array@, ord, i)));
        assert forall|j: int| 0 <= j < rows implies !#[trigger] array@.is_broken(j) by {}
    }
    out
}

/// The decoded value of a row.
fn item_at<'a>(array: &Column, items: &'a Vec<Option<Item>>, i: usize) -> (r: &'a Option<Item>)
    requires
        array@.body is Rows,
        array@.body->Rows_items == items_view(items@),
        i < items@.len(),
    ensures
        item_view(*r) == array@.body->Rows_items[i as int],
        array@.body.raw(i as int) == match *r {
            Some(item) => Some(item.geometry@),
            None => None,
        },
{
    &items[i]
}

/// Per-row path for columns whose row type is unknown before execution.
fn untyped_ordinate(array: &Column, items: &Vec<Option<Item>>, ord: Ordinate) -> (r: Result<
    Vec<Option<u64>>,
    Error,
>)
    requires
        array.wf(),
        array@.body is Rows,
        array@.body->Rows_items == items_view(items@),
        is_untyped_kind(array@.body.kind()),
    ensures
        are_ordinates(array@, ord, r),
{
    let rows: usize = array.len();
    let mut out: Vec<Option<u64>> = Vec::new();
    let mut i: usize = 0;
    while i < rows
        invariant
            i <= rows,
            array.wf(),
            rows == array.rows(),
            array@.body is Rows,
            array@.body->Rows_items == items_view(items@),
            is_untyped_kind(array@.body.kind()),
            out@.len() == i,
            forall|j: int|
                0 <= j < i ==> #[trigger] out@[j] == ordinate_at(array@, ord, j)
                    && !array@.is_broken(j),
        decreases rows - i,
    {
        if array.null_at(i) {
            out.push(None);
        } else {
            match item_at(array, items, i) {
                Some(item) => {
                    let value: Option<u64> = match &item.geometry {
                        Geometry::Point(c) => if item.is_empty_point() {
                            None
                        } else {
                            match ord.index_in(item.dim) {
                                Some(k) => Some(item.nth(c, k)),
                                None => None,
                            }
                        },
                        // PostGIS returns NULL for a mixed column. It raises no error.
                        _ => None,
                    };
                    out.push(value);
                },
                None => {
                    assert(array@.is_broken(i as int));
                    return Err(Error::Undecodable);
                },
            }
        }
        i = i + 1;
    }
    proof {
        assert(out@ =~= Seq::new(array.rows() as nat, |i: int| ordinate_at(array@, ord, i)));
        assert forall|j: int| 0 <= j < rows implies !#[trigger] array@.is_broken(j) by {
            assert(out@[j] == ordinate_at(array@, ord, j));
        }
    }
    Ok(out)
}

// -------------------------------------------------------------- type and dimension
/// The PostGIS type name of a geometry.
pub open spec fn type_text(geom: GeometryView) -> Seq<char> {
    match geom {
        GeometryView::Point(_) => "ST_Point"@,
        GeometryView::LineString(_) => "ST_LineString"@,
        GeometryView::Polygon(_) => "ST_Polygon"@,
        GeometryView::MultiPoint(_) => "ST_MultiPoint"@,
        GeometryView::MultiLineString(_) => "ST_MultiLineString"@,
        GeometryView::MultiPolygon(_) => "ST_MultiPolygon"@,
        GeometryView::GeometryCollection(_) => "ST_GeometryCollection"@,
        GeometryView::Rect(_, _) => "ST_Polygon"@,
        GeometryView::Triangle(_, _, _) => "ST_Polygon"@,
        GeometryView::Line(_, _) => "ST_LineString"@,
    }
}

/// The PostGIS type name that a column type fixes.
pub open spec fn static_type_text(kind: Kind) -> Option<Seq<char>> {
    match kind {
        Kind::Point => Some("ST_Point"@),
        Kind::LineString => Some("ST_LineString"@),
        Kind::Polygon => Some("ST_Polygon"@),
        Kind::MultiPoint => Some("ST_MultiPoint"@),
        Kind::MultiLineString => Some("ST_MultiLineString"@),
        Kind::MultiPolygon => Some("ST_MultiPolygon"@),
        Kind::GeometryCollection => Some("ST_GeometryCollection"@),
        // A box behaves as a polygon everywhere in PostGIS.
        Kind::Rect => Some("ST_Polygon"@),
        _ => None,
    }
}

/// The PostGIS type name of a statically typed column, or `None` when the type varies per row.
pub fn static_type_name(kind: Kind) -> (r: Option<&'static str>)
    ensures
        match r {
            Some(name) => static_type_text(kind) == Some(name@),
            None => static_type_text(kind) is None,
        },
{
    match kind {
        Kind::Point => Some("ST_Point"),
        Kind::LineString => Some("ST_LineString"),
        Kind::Polygon => Some("ST_Polygon"),
        Kind::MultiPoint => Some("ST_MultiPoint"),
        Kind::MultiLineString => Some("ST_MultiLineString"),
        Kind::MultiPolygon => Some("ST_MultiPolygon"),
        Kind::GeometryCollection => Some("ST_GeometryCollection"),
        Kind::Rect => Some("ST_Polygon"),
        _ => None,
    }
}

/// The PostGIS type name of a geometry.
pub fn type_name_of(geom: &Geometry) -> (r: &'static str)
    ensures
        r@ == type_text(geom@),
{
    match geom {
        Geometry::Point(_) => "ST_Point",
        Geometry::LineString(_) => "ST_LineString",
        Geometry::Polygon(_) => "ST_Polygon",
        Geometry::MultiPoint(_) => "ST_MultiPoint",
        Geometry::MultiLineString(_) => "ST_MultiLineString",
        Geometry::MultiPolygon(_) => "ST_MultiPolygon",
        Geometry::GeometryCollection(_) => "ST_GeometryCollection",
        Geometry::Rect(_, _) => "ST_Polygon",
        Geometry::Triangle(_, _, _) => "ST_Polygon",
        Geometry::Line(_, _) => "ST_LineString",
    }
}

/// The text of an optional name.
pub open spec fn name_view(name: Option<&'static str>) -> Option<Seq<char>> {
    match name {
        Some(name) => Some(name@),
        None => None,
    }
}

/// One value for every row that is not null.
fn constant<T: Copy>(array: &Column, value: T) -> (r: Vec<Option<T>>)
    requires
        array.wf(),
    ensures
        r@.len() == array.rows(),
        forall|i: int|
            0 <= i < r@.len() ==> #[trigger] r@[i] == if array.is_null(i) {
                None
            } else {
                Some(value)
            },
{
    let rows: usize = array.len();
    let mut out: Vec<Option<T>> = Vec::new();
    let mut i: usize = 0;
    while i < rows
        invariant
            i <= rows,
            array.wf(),
            rows == array.rows(),
            out@.len() == i,
            forall|j: int|
                0 <= j < i ==> #[trigger] out@[j] == if array.is_null(j) {
                    None
                } else {
                    Some(value)
                },
        decreases rows - i,
    {
        if array.null_at(i) {
            out.push(None);
        } else {
            out.push(Some(value));
        }
        i = i + 1;
    }
    out
}

/// `ST_GeometryType`. Returns `ST_Point`, `ST_LineString` and so on.
///
/// A single-type column answers from its schema. So this fills a constant and reads no row.
pub fn st_geometry_type(array: &Column) -> (r: Result<Vec<Option<&'static str>>, Error>)
    requires
        array.wf(),
    ensures
        match r {
            Ok(out) => {
                &&& out@.len() == array.rows()
                &&& match static_type_text(array@.body.kind()) {
                    Some(name) => forall|i: int|
                        0 <= i < out@.len() ==> name_view(#[trigger] out@[i]) == if array.is_null(i) {
                            None
                        } else {
                            Some(name)
                        },
                    None => !array@.has_broken(array.rows()) && forall|i: int|
                        0 <= i < out@.len() ==> name_view(#[trigger] out@[i]) == match array@.raw(i) {
                            Some(geom) => Some(type_text(geom)),
                            None => None,
                        },
                }
            },
            Err(error) => {
                &&& static_type_text(array@.body.kind()) is None
                &&& array@.has_broken(array.rows())
                &&& error == Error::Undecodable
            },
        },
{
    match static_type_name(array.body.kind()) {
        Some(name) => Ok(constant(array, name)),
        None => {
            let f = |geom: &Geometry| -> (r: Option<&'static str>)
                ensures
                    name_view(r) == Some(type_text(geom@)),
                { Some(type_name_of(geom)) };
            map_raw(array, &f)
        },
    }
}

/// The topological dimension of a geometry: 0 for points, 1 for lines, 2 for areas.
///
/// A collection takes the highest dimension it holds. An empty collection is 0.
pub open spec fn topology(geom: GeometryView) -> i32
    decreases geom,
{
    match geom {
        GeometryView::Point(_) => 0,
        GeometryView::MultiPoint(_) => 0,
        GeometryView::LineString(_) => 1,
        GeometryView::MultiLineString(_) => 1,
        GeometryView::Line(_, _) => 1,
        GeometryView::GeometryCollection(parts) => highest(topologies(parts)),
        _ => 2,
    }
}

/// The topological dimension of each part of a collection.
pub open spec fn topologies(parts: Seq<GeometryView>) -> Seq<i32>
    decreases parts,
{
    Seq::new(
        parts.len(),
        |i: int|
            if 0 <= i < parts.len() {
                topology(parts[i])
            } else {
                0
            },
    )
}

/// The highest of a list of dimensions, zero when there is none.
pub open spec fn highest(values: Seq<i32>) -> i32
    decreases values.len(),
{
    if values.len() == 0 {
        0
    } else {
        let before = highest(values.drop_last());
        if values.last() > before {
            values.last()
        } else {
            before
        }
    }
}

/// The topological dimension that a column type fixes.
pub open spec fn static_topology(kind: Kind) -> Option<i32> {
    match kind {
        Kind::Point | Kind::MultiPoint => Some(0),
        Kind::LineString | Kind::MultiLineString => Some(1),
        Kind::Polygon | Kind::MultiPolygon | Kind::Rect => Some(2),
        _ => None,
    }
}

fn static_topological_dimension(kind: Kind) -> (r: Option<i32>)
    ensures
        r == static_topology(kind),
{
    match kind {
        Kind::Point | Kind::MultiPoint => Some(0),
        Kind::LineString | Kind::MultiLineString => Some(1),
        Kind::Polygon | Kind::MultiPolygon | Kind::Rect => Some(2),
        _ => None,
    }
}

/// The topological dimension of a geometry.
pub fn topological_dimension(geom: &Geometry) -> (r: i32)
    ensures
        r == topology(geom@),
    decreases geom,
{
    match geom {
        Geometry::Point(_) => 0,
        Geometry::MultiPoint(_) => 0,
        Geometry::LineString(_) => 1,
        Geometry::MultiLineString(_) => 1,
        Geometry::Line(_, _) => 1,
        Geometry::GeometryCollection(parts) => {
            let ghost views = geometries_view(parts@);
            let ghost all = topologies(views);
            let mut best: i32 = 0;
            let mut i: usize = 0;
            assert(all.take(0).len() == 0);
            while i < parts.len()
                invariant
                    i <= parts@.len(),
                    *geom == Geometry::GeometryCollection(*parts),
                    views == geometries_view(parts@),
                    all == topologies(views),
                    best == highest(all.take(i as int)),
                decreases parts@.len() - i,
            {
                proof {
                    assert(decreases_to!(*parts => parts[i as int]));
                    assert(decreases_to!(*geom => geom->GeometryCollection_0));
                    reveal_with_fuel(topologies, 2);
                    assert(all.take(i + 1).drop_last() =~= all.take(i as int));
                }
                let value: i32 = topological_dimension(&parts[i]);
                if value > best {
                    best = value;
                }
                i = i + 1;
            }
            proof {
                assert(all.take(i as int) =~= all);
                lemma_collection_view(*parts);
            }
            best
        },
        _ => 2,
    }
}

/// `ST_Dimension`. The topological dimension: 0 for points, 1 for lines, 2 for areas.
pub fn st_dimension(array: &Column) -> (r: Result<Vec<Option<i32>>, Error>)
    requires
        array.wf(),
    ensures
        match r {
            Ok(out) => {
                &&& out@.len() == array.rows()
                &&& match static_topology(array@.body.kind()) {
                    Some(value) => forall|i: int|
                        0 <= i < out@.len() ==> #[trigger] out@[i] == if array.is_null(i) {
                            None
                        } else {
                            Some(value)
                        },
                    None => !array@.has_broken(array.rows()) && forall|i: int|
                        0 <= i < out@.len() ==> #[trigger] out@[i] == match array@.raw(i) {
                            Some(geom) => Some(topology(geom)),
                            None => None,
                        },
                }
            },
            Err(error) => {
                &&& static_topology(array@.body.kind()) is None
                &&& array@.has_broken(array.rows())
                &&& error == Error::Undecodable
            },
        },
{
    match static_topological_dimension(array.body.kind()) {
        Some(value) => Ok(constant(array, value)),
        None => {
            let f = |geom: &Geometry| -> (r: Option<i32>)
                ensures
                    r == Some(topology(geom@)),
                { Some(topological_dimension(geom)) };
            map_raw(array, &f)
        },
    }
}

/// The number of ordinates of a row of a mixed or serialized column.
pub open spec fn item_dimension(array: ColumnView, i: int) -> Option<i32> {
    if array.is_null(i) {
        None
    } else {
        match array.body->Rows_items[i] {
            Some(item) => Some(item.dim.count() as i32),
            None => None,
        }
    }
}

/// `ST_CoordDim`. The number of ordinates per coordinate: 2, 3 or 4.
pub fn st_coord_dim(array: &Column) -> (r: Result<Vec<Option<i32>>, Error>)
    requires
        array.wf(),
    ensures
        match r {
            Ok(out) => {
                &&& out@.len() == array.rows()
                &&& match array@.body.dimension() {
                    Some(dim) => forall|i: int|
                        0 <= i < out@.len() ==> #[trigger] out@[i] == if array.is_null(i) {
                            None
                        } else {
                            Some(dim.count() as i32)
                        },
                    None => !array@.has_broken(array.rows()) && forall|i: int|
                        0 <= i < out@.len() ==> #[trigger] out@[i] == item_dimension(array@, i),
                }
            },
            Err(error) => {
                &&& array@.body.dimension() is None
                &&& array@.has_broken(array.rows())
                &&& error == Error::Undecodable
            },
        },
{
    match array.body.dimension() {
        Some(dim) => Ok(constant(array, dim.size() as i32)),
        None => match &array.body {
            Body::Rows { items, .. } => coord_dim_rows(array, items),
            // Every other column has a dimension.
            _ => Ok(Vec::new()),
        },
    }
}

fn coord_dim_rows(array: &Column, items: &Vec<Option<Item>>) -> (r: Result<
    Vec<Option<i32>>,
    Error,
>)
    requires
        array.wf(),
        array@.body is Rows,
        array@.body->Rows_items == items_view(items@),
    ensures
        match r {
            Ok(out) => {
                &&& out@.len() == array.rows()
                &&& !array@.has_broken(array.rows())
                &&& forall|i: int|
                    0 <= i < out@.len() ==> #[trigger] out@[i] == item_dimension(array@, i)
            },
            Err(error) => array@.has_broken(array.rows()) && error == Error::Undecodable,
        },
{
    let rows: usize = array.len();
    let mut out: Vec<Option<i32>> = Vec::new();
    let mut i: usize = 0;
    while i < rows
        invariant
            i <= rows,
            array.wf(),
            rows == array.rows(),
            array@.body is Rows,
            array@.body->Rows_items == items_view(items@),
            out@.len() == i,
            forall|j: int|
                0 <= j < i ==> #[trigger] out@[j] == item_dimension(array@, j)
                    && !array@.is_broken(j),
        decreases rows - i,
    {
        let ghost before = out@;
        if array.null_at(i) {
            out.push(None);
        } else {
            match item_at(array, items, i) {
                Some(item) => {
                    out.push(Some(item.dim.size() as i32));
                    assert(!array@.is_broken(i as int));
                    assert(item_dimension(array@, i as int) == Some(item.dim.count() as i32));
                },
                None => {
                    assert(array@.is_broken(i as int));
                    return Err(Error::Undecodable);
                },
            }
        }
        proof {
            assert forall|j: int| 0 <= j < i + 1 implies #[trigger] out@[j] == item_dimension(
                array@,
                j,
            ) && !array@.is_broken(j) by {
                if j < i {
                    assert(out@[j] == before[j]);
                }
            }
        }
        i = i + 1;
    }
    proof {
        assert forall|j: int| 0 <= j < rows implies !#[trigger] array@.is_broken(j) by {
            assert(out@[j] == item_dimension(array@, j));
        }
    }
    Ok(out)
}

// ---------------------------------------------------------------------- counts
/// A count, cut down to a 32 bit integer.
pub open spec fn narrowed(count: int) -> i32 {
    let low = count % 0x1_0000_0000;
    if low < 0x8000_0000 {
        low as i32
    } else {
        (low - 0x1_0000_0000) as i32
    }
}

/// The number of coordinates of a polygon.
pub open spec fn polygon_count(polygon: PolygonView) -> nat {
    polygon.exterior.len() + polygon.interiors.flatten().len()
}

/// The positions of a list that are not empty points.
pub open spec fn solid_points(points: Seq<Coord>) -> nat
    decreases points.len(),
{
    if points.len() == 0 {
        0
    } else {
        solid_points(points.drop_last()) + if points.last().is_blank() {
            0nat
        } else {
            1nat
        }
    }
}

/// The number of coordinates of a geometry, at any depth. An empty point has none.
///
/// A box counts as the closed ring around it, and so does a triangle.
pub open spec fn coord_count(geom: GeometryView) -> nat
    decreases geom,
{
    match geom {
        GeometryView::Point(c) => if c.is_blank() {
            0
        } else {
            1
        },
        GeometryView::LineString(line) => line.len(),
        GeometryView::Polygon(polygon) => polygon_count(polygon),
        GeometryView::MultiPoint(points) => solid_points(points),
        GeometryView::MultiLineString(lines) => lines.flatten().len(),
        GeometryView::MultiPolygon(polygons) => total(
            Seq::new(polygons.len(), |i: int| polygon_count(polygons[i])),
        ),
        GeometryView::GeometryCollection(parts) => total(part_counts(parts)),
        GeometryView::Rect(_, _) => 5,
        GeometryView::Triangle(_, _, _) => 4,
        GeometryView::Line(_, _) => 2,
    }
}

/// The number of coordinates of each part of a collection.
pub open spec fn part_counts(parts: Seq<GeometryView>) -> Seq<nat>
    decreases parts,
{
    Seq::new(
        parts.len(),
        |i: int|
            if 0 <= i < parts.len() {
                coord_count(parts[i])
            } else {
                0
            },
    )
}

/// The number of coordinates of a run that are not empty points.
pub open spec fn solid_run(coords: CoordBufferView, start: int, end: int) -> nat
    decreases end - start,
{
    if end <= start {
        0
    } else {
        solid_run(coords, start, end - 1) + if coords.is_blank(end - 1) {
            0nat
        } else {
            1nat
        }
    }
}

/// The number of coordinates of a row.
///
/// A point is empty when every one of its ordinates is NaN, the higher ones included.
pub open spec fn row_count(array: ColumnView, i: int) -> Option<nat> {
    if array.is_null(i) {
        None
    } else {
        match array.body {
            BodyView::Point { coords } => Some(solid_run(coords, i, i + 1)),
            BodyView::MultiPoint { coords, geom_offsets } => Some(
                solid_run(coords, geom_offsets[i] as int, geom_offsets[i + 1] as int),
            ),
            BodyView::Rows { items, .. } => match items[i] {
                Some(item) => Some(
                    if item.geometry is Point {
                        if item.is_empty_point() {
                            0
                        } else {
                            1
                        }
                    } else {
                        coord_count(item.geometry)
                    },
                ),
                None => None,
            },
            _ => Some(coord_count(array.body.raw(i)->0)),
        }
    }
}

/// A count: its low 32 bits, and whether it is zero.
#[derive(Debug, Clone, Copy)]
pub struct Tally {
    low: u32,
    any: bool,
}

impl Tally {
    /// True when this is the tally of a count.
    pub closed spec fn is(self, count: nat) -> bool {
        self.low == count as int % 0x1_0000_0000 && self.any == (count > 0)
    }

    fn none() -> (r: Tally)
        ensures
            r.is(0),
    {
        Tally { low: 0, any: false }
    }

    fn plus(self, more: usize, Ghost(count): Ghost<nat>) -> (r: Tally)
        requires
            self.is(count),
        ensures
            r.is((count + more) as nat),
    {
        let low: u64 = (self.low as u64 + more as u64 % 0x1_0000_0000) % 0x1_0000_0000;
        proof {
            assert((count + more) as int % 0x1_0000_0000 == low) by {
                vstd::arithmetic::div_mod::lemma_add_mod_noop(
                    count as int,
                    more as int,
                    0x1_0000_0000,
                );
            }
        }
        Tally { low: low as u32, any: self.any || more > 0 }
    }

    fn join(self, other: Tally, Ghost(a): Ghost<nat>, Ghost(b): Ghost<nat>) -> (r: Tally)
        requires
            self.is(a),
            other.is(b),
        ensures
            r.is((a + b) as nat),
    {
        let low: u64 = (self.low as u64 + other.low as u64) % 0x1_0000_0000;
        proof {
            vstd::arithmetic::div_mod::lemma_add_mod_noop(a as int, b as int, 0x1_0000_0000);
        }
        Tally { low: low as u32, any: self.any || other.any }
    }

    /// The count, cut down to a 32 bit integer.
    fn narrow(self, Ghost(count): Ghost<nat>) -> (r: i32)
        requires
            self.is(count),
        ensures
            r == narrowed(count as int),
    {
        if self.low < 0x8000_0000 {
            self.low as i32
        } else {
            (self.low as i64 - 0x1_0000_0000) as i32
        }
    }

    /// True when the count is zero.
    fn is_zero(self, Ghost(count): Ghost<nat>) -> (r: bool)
        requires
            self.is(count),
        ensures
            r == (count == 0),
    {
        !self.any
    }
}

fn tally_lines(lines: &Vec<Vec<Coord>>) -> (r: Tally)
    ensures
        r.is(lines_view(lines@).flatten().len()),
{
    let ghost lists = lines_view(lines@);
    let mut tally = Tally::none();
    let mut i: usize = 0;
    proof {
        lemma_flatten_none(lists);
    }
    while i < lines.len()
        invariant
            i <= lines@.len(),
            lists == lines_view(lines@),
            tally.is(lists.take(i as int).flatten().len()),
        decreases lines@.len() - i,
    {
        tally = tally.plus(lines[i].len(), Ghost(lists.take(i as int).flatten().len()));
        proof {
            lemma_flatten_step(lists, i as int);
        }
        i = i + 1;
    }
    proof {
        lemma_flatten_all(lists);
    }
    tally
}

fn tally_polygon(polygon: &Polygon) -> (r: Tally)
    ensures
        r.is(polygon_count(polygon@)),
{
    let tally = tally_lines(&polygon.interiors);
    let r = tally.plus(polygon.exterior.len(), Ghost(polygon@.interiors.flatten().len()));
    assert(polygon@.interiors.flatten().len() + polygon@.exterior.len() == polygon_count(polygon@));
    r
}

/// The number of coordinates of a geometry, at any depth.
pub fn count_coords(geom: &Geometry) -> (r: Tally)
    ensures
        r.is(coord_count(geom@)),
    decreases geom,
{
    let none = Tally::none();
    match geom {
        Geometry::Point(c) => if c.blank() {
            none
        } else {
            none.plus(1, Ghost(0))
        },
        Geometry::LineString(line) => none.plus(line.len(), Ghost(0)),
        Geometry::Polygon(polygon) => tally_polygon(polygon),
        Geometry::MultiPoint(points) => {
            let mut tally = none;
            let mut i: usize = 0;
            assert(points@.take(0).len() == 0);
            while i < points.len()
                invariant
                    i <= points@.len(),
                    tally.is(solid_points(points@.take(i as int))),
                decreases points@.len() - i,
            {
                proof {
                    assert(points@.take(i + 1).drop_last() =~= points@.take(i as int));
                }
                if !points[i].blank() {
                    tally = tally.plus(1, Ghost(solid_points(points@.take(i as int))));
                }
                i = i + 1;
            }
            assert(points@.take(i as int) =~= points@);
            tally
        },
        Geometry::MultiLineString(lines) => tally_lines(lines),
        Geometry::MultiPolygon(polygons) => {
            let ghost views = polygons_view(polygons@);
            let ghost counts = Seq::new(views.len(), |i: int| polygon_count(views[i]));
            let mut tally = none;
            let mut i: usize = 0;
            assert(counts.take(0).len() == 0);
            while i < polygons.len()
                invariant
                    i <= polygons@.len(),
                    views == polygons_view(polygons@),
                    counts == Seq::new(views.len(), |i: int| polygon_count(views[i])),
                    tally.is(total(counts.take(i as int))),
                decreases polygons@.len() - i,
            {
                proof {
                    assert(counts.take(i + 1).drop_last() =~= counts.take(i as int));
                }
                let more = tally_polygon(&polygons[i]);
                tally = tally.join(
                    more,
                    Ghost(total(counts.take(i as int))),
                    Ghost(counts[i as int]),
                );
                i = i + 1;
            }
            assert(counts.take(i as int) =~= counts);
            tally
        },
        Geometry::GeometryCollection(parts) => {
            let ghost views = geometries_view(parts@);
            let ghost counts = part_counts(views);
            let mut tally = none;
            let mut i: usize = 0;
            assert(counts.take(0).len() == 0);
            while i < parts.len()
                invariant
                    i <= parts@.len(),
                    *geom == Geometry::GeometryCollection(*parts),
                    views == geometries_view(parts@),
                    counts == part_counts(views),
                    tally.is(total(counts.take(i as int))),
                decreases parts@.len() - i,
            {
                proof {
                    assert(decreases_to!(*parts => parts[i as int]));
                    assert(decreases_to!(*geom => geom->GeometryCollection_0));
                    reveal_with_fuel(part_counts, 2);
                    assert(counts.take(i + 1).drop_last() =~= counts.take(i as int));
                }
                let more = count_coords(&parts[i]);
                tally = tally.join(
                    more,
                    Ghost(total(counts.take(i as int))),
                    Ghost(counts[i as int]),
                );
                i = i + 1;
            }
            proof {
                assert(counts.take(i as int) =~= counts);
                lemma_collection_view(*parts);
            }
            tally
        },
        Geometry::Rect(_, _) => none.plus(5, Ghost(0)),
        Geometry::Triangle(_, _, _) => none.plus(4, Ghost(0)),
        Geometry::Line(_, _) => none.plus(2, Ghost(0)),
    }
}

/// True when every ordinate of a coordinate is NaN.
fn is_blank(coords: &CoordBuffer, i: usize) -> (r: bool)
    requires
        coords@.wf(),
        i < coords@.len(),
    ensures
        r == coords@.is_blank(i as int),
{
    let size: usize = coords.dim().size();
    let mut k: usize = 0;
    while k < size
        invariant
            k <= size,
            size == coords@.dim().count(),
            coords@.wf(),
            i < coords@.len(),
            forall|j: int| 0 <= j < k ==> number::is_nan(#[trigger] coords@.ordinate(i as int, j)),
        decreases size - k,
    {
        let value: u64 = coords.ordinate(i, k);
        if !number::nan(value) {
            assert(!number::is_nan(coords@.ordinate(i as int, k as int)));
            return false;
        }
        k = k + 1;
    }
    true
}

fn tally_run(coords: &CoordBuffer, start: usize, end: usize) -> (r: Tally)
    requires
        coords@.wf(),
        start <= end <= coords@.len(),
    ensures
        r.is(solid_run(coords@, start as int, end as int)),
{
    let mut tally = Tally::none();
    let mut i: usize = start;
    while i < end
        invariant
            start <= i <= end <= coords@.len(),
            coords@.wf(),
            tally.is(solid_run(coords@, start as int, i as int)),
        decreases end - i,
    {
        if !is_blank(coords, i) {
            tally = tally.plus(1, Ghost(solid_run(coords@, start as int, i as int)));
        }
        i = i + 1;
    }
    tally
}

/// The number of coordinates of a row that is not null. `None` where it could not be decoded.
fn tally_row(array: &Column, i: usize) -> (r: Option<Tally>)
    requires
        array.wf(),
        i < array.rows(),
        !array.is_null(i as int),
    ensures
        match r {
            Some(tally) => row_count(array@, i as int) is Some && tally.is(
                row_count(array@, i as int)->0,
            ) && !array@.is_broken(i as int),
            None => array@.is_broken(i as int),
        },
{
    let rows: usize = array.len();
    match &array.body {
        Body::Point { coords } => Some(tally_run(coords, i, i + 1)),
        Body::MultiPoint { coords, .. } => match row_runs(array) {
            Some(runs) => {
                let (start, end) = runs.range(i);
                assert(run_of(array@.body, i as int) == Some(runs.run(i as int)));
                Some(tally_run(coords, start, end))
            },
            None => None,
        },
        Body::Rows { items, .. } => match item_at(array, items, i) {
            Some(item) => match &item.geometry {
                Geometry::Point(_) => if item.is_empty_point() {
                    Some(Tally::none())
                } else {
                    Some(Tally::none().plus(1, Ghost(0)))
                },
                _ => Some(count_coords(&item.geometry)),
            },
            None => None,
        },
        _ => match array.raw_geometry(i) {
            Some(geom) => Some(count_coords(&geom)),
            None => None,
        },
    }
}

/// What `ST_NPoints` gives for a row.
pub open spec fn npoints_at(array: ColumnView, i: int) -> Option<i32> {
    match row_count(array, i) {
        Some(count) => Some(narrowed(count as int)),
        None => None,
    }
}

/// What `ST_IsEmpty` gives for a row.
pub open spec fn emptiness_at(array: ColumnView, i: int) -> Option<bool> {
    match row_count(array, i) {
        Some(count) => Some(count == 0),
        None => None,
    }
}

/// `ST_NPoints`. Every coordinate in the geometry, at any depth.
pub fn st_npoints(array: &Column) -> (r: Result<Vec<Option<i32>>, Error>)
    requires
        array.wf(),
    ensures
        match r {
            Ok(out) => {
                &&& !array@.has_broken(array.rows())
                &&& out@.len() == array.rows()
                &&& forall|i: int|
                    0 <= i < out@.len() ==> #[trigger] out@[i] == npoints_at(array@, i)
            },
            Err(error) => array@.has_broken(array.rows()) && error == Error::Undecodable,
        },
{
    let rows: usize = array.len();
    let mut out: Vec<Option<i32>> = Vec::new();
    let mut i: usize = 0;
    while i < rows
        invariant
            i <= rows,
            array.wf(),
            rows == array.rows(),
            out@.len() == i,
            forall|j: int|
                0 <= j < i ==> #[trigger] out@[j] == npoints_at(array@, j) && !array@.is_broken(j),
        decreases rows - i,
    {
        let ghost before = out@;
        if array.null_at(i) {
            out.push(None);
        } else {
            match tally_row(array, i) {
                Some(tally) => {
                    out.push(Some(tally.narrow(Ghost(row_count(array@, i as int)->0))));
                    assert(!array@.is_broken(i as int));
                    assert(row_count(array@, i as int) is Some);
                },
                None => {
                    assert(array@.is_broken(i as int));
                    return Err(Error::Undecodable);
                },
            }
        }
        proof {
            assert forall|j: int| 0 <= j < i + 1 implies #[trigger] out@[j] == npoints_at(
                array@,
                j,
            ) && !array@.is_broken(j) by {
                if j < i {
                    assert(out@[j] == before[j]);
                }
            }
        }
        i = i + 1;
    }
    proof {
        assert forall|j: int| 0 <= j < rows implies !#[trigger] array@.is_broken(j) by {
            assert(out@[j] == out@[j]);
        }
    }
    Ok(out)
}

/// `ST_IsEmpty`. True when the geometry holds no coordinate.
pub fn st_is_empty(array: &Column) -> (r: Result<Vec<Option<bool>>, Error>)
    requires
        array.wf(),
    ensures
        match r {
            Ok(out) => {
                &&& !array@.has_broken(array.rows())
                &&& out@.len() == array.rows()
                &&& forall|i: int|
                    0 <= i < out@.len() ==> #[trigger] out@[i] == emptiness_at(array@, i)
            },
            Err(error) => array@.has_broken(array.rows()) && error == Error::Undecodable,
        },
{
    let rows: usize = array.len();
    let mut out: Vec<Option<bool>> = Vec::new();
    let mut i: usize = 0;
    while i < rows
        invariant
            i <= rows,
            array.wf(),
            rows == array.rows(),
            out@.len() == i,
            forall|j: int|
                0 <= j < i ==> #[trigger] out@[j] == emptiness_at(array@, j) && !array@.is_broken(j),
        decreases rows - i,
    {
        let ghost before = out@;
        if array.null_at(i) {
            out.push(None);
        } else {
            match tally_row(array, i) {
                Some(tally) => {
                    out.push(Some(tally.is_zero(Ghost(row_count(array@, i as int)->0))));
                },
                None => {
                    assert(array@.is_broken(i as int));
                    return Err(Error::Undecodable);
                },
            }
        }
        proof {
            assert forall|j: int| 0 <= j < i + 1 implies #[trigger] out@[j] == emptiness_at(
                array@,
                j,
            ) && !array@.is_broken(j) by {
                if j < i {
                    assert(out@[j] == before[j]);
                }
            }
        }
        i = i + 1;
    }
    proof {
        assert forall|j: int| 0 <= j < rows implies !#[trigger] array@.is_broken(j) by {
            assert(out@[j] == out@[j]);
        }
    }
    Ok(out)
}

/// The coordinate count of a line string, and nothing for anything else.
pub open spec fn line_count(geom: GeometryView) -> Option<i32> {
    match geom {
        GeometryView::LineString(line) => Some(narrowed(line.len() as int)),
        GeometryView::Line(_, _) => Some(2),
        _ => None,
    }
}

/// A length, cut down to a 32 bit integer.
fn narrow_len(len: usize) -> (r: i32)
    ensures
        r == narrowed(len as int),
{
    Tally::none().plus(len, Ghost(0)).narrow(Ghost(len as nat))
}

/// What a per-row kernel over stored values gives, by a function of the value.
pub open spec fn are_values<T>(
    array: ColumnView,
    f: spec_fn(GeometryView) -> Option<T>,
    r: Result<Vec<Option<T>>, Error>,
) -> bool {
    match r {
        Ok(out) => {
            &&& !array.has_broken(array.rows())
            &&& out@.len() == array.rows()
            &&& forall|i: int|
                0 <= i < out@.len() ==> #[trigger] out@[i] == match array.raw(i) {
                    Some(geom) => f(geom),
                    None => None,
                }
        },
        Err(error) => array.has_broken(array.rows()) && error == Error::Undecodable,
    }
}

/// `ST_NumPoints`. The coordinate count of a line string, and null for anything else.
///
/// PostGIS restricts this one to line strings. `ST_NPoints` is the version that accepts every
/// type.
pub fn st_num_points(array: &Column) -> (r: Result<Vec<Option<i32>>, Error>)
    requires
        array.wf(),
    ensures
        are_values(array@, |geom: GeometryView| line_count(geom), r),
{
    let f = |geom: &Geometry| -> (r: Option<i32>)
        ensures
            r == line_count(geom@),
        {
            match geom {
                Geometry::LineString(line) => Some(narrow_len(line.len())),
                Geometry::Line(_, _) => Some(2),
                _ => None,
            }
        };
    map_raw(array, &f)
}

/// One for a single geometry, the part count for a collection.
pub open spec fn part_count(geom: GeometryView) -> i32 {
    match geom {
        GeometryView::MultiPoint(points) => narrowed(points.len() as int),
        GeometryView::MultiLineString(lines) => narrowed(lines.len() as int),
        GeometryView::MultiPolygon(polygons) => narrowed(polygons.len() as int),
        GeometryView::GeometryCollection(parts) => narrowed(parts.len() as int),
        _ => 1,
    }
}

/// `ST_NumGeometries`. One for a single geometry, the part count for a collection.
pub fn st_num_geometries(array: &Column) -> (r: Result<Vec<Option<i32>>, Error>)
    requires
        array.wf(),
    ensures
        are_values(array@, |geom: GeometryView| Some(part_count(geom)), r),
{
    let f = |geom: &Geometry| -> (r: Option<i32>)
        ensures
            r == Some(part_count(geom@)),
        {
            let count: i32 = match geom {
                Geometry::MultiPoint(points) => narrow_len(points.len()),
                Geometry::MultiLineString(lines) => narrow_len(lines.len()),
                Geometry::MultiPolygon(polygons) => narrow_len(polygons.len()),
                Geometry::GeometryCollection(parts) => {
                    proof {
                        lemma_collection_view(*parts);
                    }
                    narrow_len(parts.len())
                },
                _ => 1,
            };
            Some(count)
        };
    map_raw(array, &f)
}

/// The hole count of a polygon, and nothing for anything else.
pub open spec fn hole_count(geom: GeometryView) -> Option<i32> {
    match geom {
        GeometryView::Polygon(polygon) => Some(narrowed(polygon.interiors.len() as int)),
        GeometryView::Rect(_, _) => Some(0),
        GeometryView::Triangle(_, _, _) => Some(0),
        _ => None,
    }
}

/// `ST_NumInteriorRings`. The hole count of a polygon, and null for anything else.
pub fn st_num_interior_rings(array: &Column) -> (r: Result<Vec<Option<i32>>, Error>)
    requires
        array.wf(),
    ensures
        are_values(array@, |geom: GeometryView| hole_count(geom), r),
{
    let f = |geom: &Geometry| -> (r: Option<i32>)
        ensures
            r == hole_count(geom@),
        {
            match geom {
                Geometry::Polygon(polygon) => Some(narrow_len(polygon.interiors.len())),
                Geometry::Rect(_, _) => Some(0),
                Geometry::Triangle(_, _, _) => Some(0),
                _ => None,
            }
        };
    map_raw(array, &f)
}

// ---------------------------------------------------------------- closed, simple
/// True when a path of two coordinates or more ends where it starts.
pub open spec fn is_closed_line(line: Seq<Coord>) -> bool {
    line.len() >= 2 && line[0].is_same(line.last())
}

/// True when a lineal geometry starts and ends at the same coordinate.
///
/// Points and areal geometries are closed by definition in PostGIS.
pub open spec fn is_closed_geometry(geom: GeometryView) -> bool {
    match geom {
        GeometryView::LineString(line) => is_closed_line(line),
        GeometryView::MultiLineString(lines) => lines.len() > 0 && forall|i: int|
            0 <= i < lines.len() ==> is_closed_line(#[trigger] lines[i]),
        GeometryView::Line(_, _) => false,
        _ => true,
    }
}

/// True when a path of two coordinates or more ends where it starts.
pub fn ring_is_closed(line: &Vec<Coord>) -> (r: bool)
    ensures
        r == is_closed_line(line@),
{
    let count: usize = line.len();
    count >= 2 && line[0].same(&line[count - 1])
}

/// True when a lineal geometry starts and ends at the same coordinate.
pub fn is_closed(geom: &Geometry) -> (r: bool)
    ensures
        r == is_closed_geometry(geom@),
{
    match geom {
        Geometry::LineString(line) => ring_is_closed(line),
        Geometry::MultiLineString(lines) => {
            let ghost views = lines_view(lines@);
            let mut i: usize = 0;
            while i < lines.len()
                invariant
                    i <= lines@.len(),
                    views == lines_view(lines@),
                    geom@ == GeometryView::MultiLineString(views),
                    forall|j: int| 0 <= j < i ==> is_closed_line(#[trigger] views[j]),
                decreases lines@.len() - i,
            {
                if !ring_is_closed(&lines[i]) {
                    assert(!is_closed_line(views[i as int]));
                    return false;
                }
                i = i + 1;
            }
            lines.len() > 0
        },
        Geometry::Line(_, _) => false,
        _ => true,
    }
}

/// `ST_IsClosed`. True when a lineal geometry starts and ends at the same coordinate.
///
/// PostGIS returns true for a point and for any areal geometry.
pub fn st_is_closed(array: &Column) -> (r: Result<Vec<Option<bool>>, Error>)
    requires
        array.wf(),
    ensures
        are_values(array@, |geom: GeometryView| Some(is_closed_geometry(geom)), r),
{
    let f = |geom: &Geometry| -> (r: Option<bool>)
        ensures
            r == Some(is_closed_geometry(geom@)),
        { Some(is_closed(geom)) };
    map_raw(array, &f)
}

/// The segments of a path.
pub open spec fn segments_of(line: Seq<Coord>) -> Seq<(Coord, Coord)> {
    Seq::new(
        if line.len() == 0 {
            0
        } else {
            (line.len() - 1) as nat
        },
        |i: int| (line[i], line[i + 1]),
    )
}

/// The segments of several paths, path by path.
pub open spec fn segments_of_all(lines: Seq<Seq<Coord>>) -> Seq<(Coord, Coord)> {
    Seq::new(lines.len(), |i: int| segments_of(lines[i])).flatten()
}

/// Two segments that meet, by their places in a list of segments.
#[derive(Debug, Clone, Copy, PartialEq, Eq, Structural)]
pub struct Meeting {
    /// The place of one segment.
    pub first: usize,
    /// The place of the other.
    pub second: usize,
    /// Where they meet. Nothing where they have more than one point in common.
    pub at: Option<Coord>,
}

/// For each segment of several paths, which path it is of.
pub open spec fn owners_of_all(lines: Seq<Seq<Coord>>) -> Seq<int> {
    Seq::new(lines.len(), |i: int| Seq::new(segments_of(lines[i]).len(), |k: int| i)).flatten()
}

/// True when a path ends at a position. A closed path has no end.
pub open spec fn has_end(line: Seq<Coord>, c: Coord) -> bool {
    !is_closed_path(line) && (c.is_same(line[0]) || c.is_same(line.last()))
}

/// True when a path ends at a position. A closed path has no end.
fn ends_at(line: &Vec<Coord>, c: &Coord) -> (r: bool)
    ensures
        r == has_end(line@, *c),
{
    !path_is_closed(line) && (c.same(&line[0]) || c.same(&line[line.len() - 1]))
}

/// Two segments of several line strings may meet when they are of one line string, or where both of
/// their line strings end.
pub open spec fn may_join(lines: Seq<Seq<Coord>>, meeting: Meeting) -> bool {
    let owners = owners_of_all(lines);
    &&& meeting.first < owners.len()
    &&& meeting.second < owners.len()
    &&& {
        let a = owners[meeting.first as int];
        let b = owners[meeting.second as int];
        a == b || (meeting.at matches Some(c) && has_end(lines[a], c) && has_end(lines[b], c))
    }
}

/// Two segments of one line string may meet when they are neighbours, or when they are the first
/// and last segment of a closed ring.
pub open spec fn may_touch(i: int, j: int, count: int, closed: bool) -> bool {
    ||| i - j == 1
    ||| j - i == 1
    ||| closed && ((i == 0 && j == count - 1) || (j == 0 && i == count - 1))
}

/// Two segments of one line string may meet when they are neighbours, or when they are the first
/// and last segment of a closed ring.
pub fn allowed_touch(i: usize, j: usize, count: usize, closed: bool) -> (r: bool)
    ensures
        r == may_touch(i as int, j as int, count as int, closed),
{
    let (low, high) = if i < j {
        (i, j)
    } else {
        (j, i)
    };
    if high - low == 1 {
        return true;
    }
    closed && low == 0 && count > 0 && high == count - 1
}

/// True when `simple` is the verdict on one line string.
///
/// The closure finds the pairs of segments that meet. Fewer than two segments need no search.
pub open spec fn is_line_verdict<S: Fn(&Vec<(Coord, Coord)>) -> Vec<Meeting>>(
    meetings: S,
    line: Seq<Coord>,
    simple: bool,
) -> bool {
    let segments = segments_of(line);
    if segments.len() < 2 {
        simple
    } else {
        exists|list: Vec<(Coord, Coord)>, pairs: Vec<Meeting>|
            {
                &&& list@ == segments
                &&& #[trigger] meetings.ensures((&list,), pairs)
                &&& simple == forall|k: int|
                    0 <= k < pairs@.len() ==> may_touch(
                        (#[trigger] pairs@[k]).first as int,
                        pairs@[k].second as int,
                        segments.len() as int,
                        is_closed_path(line),
                    )
            }
    }
}

/// True when `simple` is the verdict on the segments of several line strings together: segments of
/// different ones may meet only where both line strings end.
pub open spec fn is_segments_verdict<S: Fn(&Vec<(Coord, Coord)>) -> Vec<Meeting>>(
    meetings: S,
    lines: Seq<Seq<Coord>>,
    simple: bool,
) -> bool {
    let segments = segments_of_all(lines);
    if segments.len() < 2 {
        simple
    } else {
        exists|list: Vec<(Coord, Coord)>, pairs: Vec<Meeting>|
            {
                &&& list@ == segments
                &&& #[trigger] meetings.ensures((&list,), pairs)
                &&& simple == forall|k: int|
                    0 <= k < pairs@.len() ==> may_join(lines, #[trigger] pairs@[k])
            }
    }
}

/// True when `simple` is the verdict on a geometry.
///
/// Areal geometries are always simple, since self intersection there is a validity question. A
/// multi point is simple when no coordinate repeats. The parts of a multi line string must be
/// simple, and may meet one another only at their ends.
pub open spec fn is_simple_verdict<S: Fn(&Vec<(Coord, Coord)>) -> Vec<Meeting>>(
    meetings: S,
    geom: GeometryView,
    simple: bool,
) -> bool
    decreases geom,
{
    match geom {
        GeometryView::MultiPoint(points) => simple == points.no_duplicates(),
        GeometryView::LineString(line) => is_line_verdict(meetings, line, simple),
        GeometryView::MultiLineString(lines) => if simple {
            &&& forall|k: int|
                0 <= k < lines.len() ==> is_line_verdict(meetings, #[trigger] lines[k], true)
            &&& is_segments_verdict(meetings, lines, true)
        } else {
            ||| exists|k: int|
                0 <= k < lines.len() && is_line_verdict(meetings, #[trigger] lines[k], false)
            ||| is_segments_verdict(meetings, lines, false)
        },
        GeometryView::GeometryCollection(parts) => are_simple_parts(meetings, parts, simple),
        _ => simple,
    }
}

/// True when `simple` is the verdict on the parts of a collection: each of them must be simple.
pub open spec fn are_simple_parts<S: Fn(&Vec<(Coord, Coord)>) -> Vec<Meeting>>(
    meetings: S,
    parts: Seq<GeometryView>,
    simple: bool,
) -> bool
    decreases parts,
{
    if simple {
        forall|k: int|
            0 <= k < parts.len() ==> is_simple_verdict(meetings, #[trigger] parts[k], true)
    } else {
        exists|k: int|
            0 <= k < parts.len() && is_simple_verdict(meetings, #[trigger] parts[k], false)
    }
}

/// Append the segments of a path.
fn push_segments(out: &mut Vec<(Coord, Coord)>, line: &Vec<Coord>)
    ensures
        final(out)@ == old(out)@ + segments_of(line@),
{
    let ghost segments = segments_of(line@);
    let mut i: usize = 1;
    assert(out@ =~= old(out)@ + segments.take(0));
    while i < line.len()
        invariant
            1 <= i,
            i <= line@.len() || (i == 1 && line@.len() == 0),
            segments == segments_of(line@),
            out@ == old(out)@ + segments.take(i - 1),
        decreases line@.len() - i,
    {
        out.push((line[i - 1], line[i]));
        assert(out@ =~= old(out)@ + segments.take(i as int));
        i = i + 1;
    }
    assert(segments.take(i - 1) =~= segments);
}

/// A line string is simple when its segments meet only where they must.
fn line_string_is_simple<S: Fn(&Vec<(Coord, Coord)>) -> Vec<Meeting>>(
    line: &Vec<Coord>,
    meetings: &S,
) -> (r: bool)
    requires
        forall|list: &Vec<(Coord, Coord)>| #[trigger] meetings.requires((list,)),
    ensures
        is_line_verdict(*meetings, line@, r),
{
    let closed = path_is_closed(line);
    let mut segments: Vec<(Coord, Coord)> = Vec::new();
    push_segments(&mut segments, line);
    assert(segments@ =~= segments_of(line@));
    let count: usize = segments.len();
    if count < 2 {
        return true;
    }
    let pairs = meetings(&segments);
    let mut k: usize = 0;
    while k < pairs.len()
        invariant
            k <= pairs@.len(),
            count >= 2,
            count == segments_of(line@).len(),
            closed == is_closed_path(line@),
            segments@ == segments_of(line@),
            meetings.ensures((&segments,), pairs),
            forall|j: int|
                0 <= j < k ==> may_touch(
                    (#[trigger] pairs@[j]).first as int,
                    pairs@[j].second as int,
                    count as int,
                    closed,
                ),
        decreases pairs@.len() - k,
    {
        if !allowed_touch(pairs[k].first, pairs[k].second, count, closed) {
            assert(!may_touch(
                pairs@[k as int].first as int,
                pairs@[k as int].second as int,
                count as int,
                closed,
            ));
            return false;
        }
        k = k + 1;
    }
    true
}

/// Segments from different parts may not touch at all beyond shared endpoints.
fn segments_are_simple<S: Fn(&Vec<(Coord, Coord)>) -> Vec<Meeting>>(
    lines: &Vec<Vec<Coord>>,
    meetings: &S,
) -> (r: bool)
    requires
        forall|list: &Vec<(Coord, Coord)>| #[trigger] meetings.requires((list,)),
    ensures
        is_segments_verdict(*meetings, lines_view(lines@), r),
{
    let ghost views = lines_view(lines@);
    let ghost lists = Seq::new(views.len(), |i: int| segments_of(views[i]));
    let ghost marks = Seq::new(
        views.len(),
        |i: int| Seq::new(segments_of(views[i]).len(), |k: int| i),
    );
    let mut segments: Vec<(Coord, Coord)> = Vec::new();
    let mut owners: Vec<usize> = Vec::new();
    let mut i: usize = 0;
    proof {
        lemma_flatten_none(lists);
        lemma_flatten_none(marks);
        assert(segments@ =~= lists.take(0).flatten());
    }
    while i < lines.len()
        invariant
            i <= lines@.len(),
            views == lines_view(lines@),
            lists == Seq::new(views.len(), |i: int| segments_of(views[i])),
            marks == Seq::new(
                views.len(),
                |i: int| Seq::new(segments_of(views[i]).len(), |k: int| i),
            ),
            segments@ == lists.take(i as int).flatten(),
            owners@.len() == segments@.len(),
            owners@.len() == marks.take(i as int).flatten().len(),
            forall|k: int|
                0 <= k < owners@.len() ==> #[trigger] owners@[k] == marks.take(i as int).flatten()[k],
            forall|k: int| 0 <= k < owners@.len() ==> #[trigger] owners@[k] < i,
        decreases lines@.len() - i,
    {
        let ghost before = segments@.len();
        push_segments(&mut segments, &lines[i]);
        proof {
            lemma_flatten_step(lists, i as int);
            lemma_flatten_step(marks, i as int);
        }
        while owners.len() < segments.len()
            invariant
                before <= owners@.len() <= segments@.len(),
                segments@.len() == before + marks[i as int].len(),
                i < marks.len(),
                marks[i as int] == Seq::new(marks[i as int].len(), |k: int| i as int),
                before == marks.take(i as int).flatten().len(),
                marks.take(i + 1).flatten() == marks.take(i as int).flatten() + marks[i as int],
                forall|k: int|
                    0 <= k < owners@.len() ==> #[trigger] owners@[k] == marks.take(
                        i + 1,
                    ).flatten()[k],
                forall|k: int| 0 <= k < owners@.len() ==> #[trigger] owners@[k] <= i,
            decreases segments@.len() - owners@.len(),
        {
            owners.push(i);
        }
        i = i + 1;
    }
    proof {
        lemma_flatten_all(lists);
        lemma_flatten_all(marks);
        assert(marks.flatten() == owners_of_all(views));
    }
    if segments.len() < 2 {
        return true;
    }
    let pairs = meetings(&segments);
    let mut k: usize = 0;
    while k < pairs.len()
        invariant
            k <= pairs@.len(),
            views == lines_view(lines@),
            segments@.len() >= 2,
            segments@ == segments_of_all(views),
            owners@.len() == owners_of_all(views).len(),
            forall|k: int|
                0 <= k < owners@.len() ==> #[trigger] owners@[k] == owners_of_all(views)[k],
            forall|k: int| 0 <= k < owners@.len() ==> #[trigger] owners@[k] < lines@.len(),
            meetings.ensures((&segments,), pairs),
            forall|j: int| 0 <= j < k ==> may_join(views, #[trigger] pairs@[j]),
        decreases pairs@.len() - k,
    {
        let meeting = pairs[k];
        let joined = if meeting.first >= owners.len() || meeting.second >= owners.len() {
            false
        } else {
            let a: usize = owners[meeting.first];
            let b: usize = owners[meeting.second];
            if a == b {
                true
            } else {
                match meeting.at {
                    Some(c) => ends_at(&lines[a], &c) && ends_at(&lines[b], &c),
                    None => false,
                }
            }
        };
        if !joined {
            assert(!may_join(views, pairs@[k as int]));
            return false;
        }
        k = k + 1;
    }
    true
}

/// True when no position repeats, bit for bit.
fn all_distinct(points: &Vec<Coord>) -> (r: bool)
    ensures
        r == points@.no_duplicates(),
{
    let mut i: usize = 0;
    while i < points.len()
        invariant
            i <= points@.len(),
            forall|a: int, b: int|
                0 <= a < i && 0 <= b < i && a != b ==> points@[a] != points@[b],
        decreases points@.len() - i,
    {
        let mut j: usize = 0;
        while j < i
            invariant
                j <= i < points@.len(),
                forall|a: int| 0 <= a < j ==> points@[a] != points@[i as int],
            decreases i - j,
        {
            if points[i] == points[j] {
                return false;
            }
            j = j + 1;
        }
        i = i + 1;
    }
    true
}

/// True when the geometry has no anomalous point such as a self intersection.
pub fn is_simple<S: Fn(&Vec<(Coord, Coord)>) -> Vec<Meeting>>(
    geom: &Geometry,
    meetings: &S,
) -> (r: bool)
    requires
        forall|list: &Vec<(Coord, Coord)>| #[trigger] meetings.requires((list,)),
    ensures
        is_simple_verdict(*meetings, geom@, r),
    decreases geom,
{
    match geom {
        Geometry::MultiPoint(points) => all_distinct(points),
        Geometry::LineString(line) => line_string_is_simple(line, meetings),
        Geometry::MultiLineString(lines) => {
            let ghost views = lines_view(lines@);
            let mut i: usize = 0;
            while i < lines.len()
                invariant
                    i <= lines@.len(),
                    views == lines_view(lines@),
                    geom@ == GeometryView::MultiLineString(views),
                    forall|list: &Vec<(Coord, Coord)>| #[trigger] meetings.requires((list,)),
                    forall|j: int|
                        0 <= j < i ==> is_line_verdict(*meetings, #[trigger] views[j], true),
                decreases lines@.len() - i,
            {
                if !line_string_is_simple(&lines[i], meetings) {
                    assert(is_line_verdict(*meetings, views[i as int], false));
                    return false;
                }
                i = i + 1;
            }
            segments_are_simple(lines, meetings)
        },
        Geometry::GeometryCollection(parts) => {
            let ghost views = geometries_view(parts@);
            let mut i: usize = 0;
            proof {
                lemma_collection_view(*parts);
                reveal_with_fuel(are_simple_parts, 2);
            }
            while i < parts.len()
                invariant
                    i <= parts@.len(),
                    *geom == Geometry::GeometryCollection(*parts),
                    views == geometries_view(parts@),
                    geom@ == GeometryView::GeometryCollection(views),
                    forall|list: &Vec<(Coord, Coord)>| #[trigger] meetings.requires((list,)),
                    forall|j: int|
                        0 <= j < i ==> is_simple_verdict(*meetings, #[trigger] views[j], true),
                decreases parts@.len() - i,
            {
                proof {
                    assert(decreases_to!(*parts => parts[i as int]));
                    assert(decreases_to!(*geom => geom->GeometryCollection_0));
                }
                if !is_simple(&parts[i], meetings) {
                    proof {
                        reveal_with_fuel(are_simple_parts, 2);
                        assert(is_simple_verdict(*meetings, views[i as int], false));
                    }
                    return false;
                }
                i = i + 1;
            }
            true
        },
        _ => true,
    }
}

/// True when `out` is what `ST_IsRing` gives for a value.
///
/// Null for every type other than a line string. An open line string needs no search.
pub open spec fn is_ring_verdict<S: Fn(&Vec<(Coord, Coord)>) -> Vec<Meeting>>(
    meetings: S,
    geom: GeometryView,
    out: Option<bool>,
) -> bool {
    match geom {
        GeometryView::LineString(line) => if is_closed_line(line) {
            out is Some && is_line_verdict(meetings, line, out->0)
        } else {
            out == Some(false)
        },
        _ => out is None,
    }
}

/// `ST_IsRing`. True when a line string is closed and does not cross itself.
///
/// Null for every type other than a line string, as in PostGIS.
pub fn st_is_ring<S: Fn(&Vec<(Coord, Coord)>) -> Vec<Meeting>>(
    array: &Column,
    meetings: &S,
) -> (r: Result<Vec<Option<bool>>, Error>)
    requires
        array.wf(),
        forall|list: &Vec<(Coord, Coord)>| #[trigger] meetings.requires((list,)),
    ensures
        match r {
            Ok(out) => {
                &&& !array@.has_broken(array.rows())
                &&& out@.len() == array.rows()
                &&& forall|i: int|
                    0 <= i < out@.len() ==> match array@.raw(i) {
                        Some(geom) => is_ring_verdict(*meetings, geom, #[trigger] out@[i]),
                        None => out@[i] is None,
                    }
            },
            Err(error) => array@.has_broken(array.rows()) && error == Error::Undecodable,
        },
{
    let f = |geom: &Geometry| -> (r: Option<bool>)
        ensures
            is_ring_verdict(*meetings, geom@, r),
        {
            match geom {
                Geometry::LineString(line) => {
                    // The cheap test first. Most non-rings fail here and never reach the sweep.
                    if !ring_is_closed(line) {
                        Some(false)
                    } else {
                        Some(line_string_is_simple(line, meetings))
                    }
                },
                _ => None,
            }
        };
    map_raw(array, &f)
}

/// `ST_IsSimple`. True when the geometry has no anomalous point such as a self intersection.
///
/// Areal geometries are always simple, since self intersection there is a validity question and
/// not a simplicity one. Use `ST_IsValid` for that.
pub fn st_is_simple<S: Fn(&Vec<(Coord, Coord)>) -> Vec<Meeting>>(
    array: &Column,
    meetings: &S,
) -> (r: Result<Vec<Option<bool>>, Error>)
    requires
        array.wf(),
        forall|list: &Vec<(Coord, Coord)>| #[trigger] meetings.requires((list,)),
    ensures
        match r {
            Ok(out) => {
                &&& !array@.has_broken(array.rows())
                &&& out@.len() == array.rows()
                &&& forall|i: int|
                    0 <= i < out@.len() ==> match array@.geometry(i) {
                        Some(geom) => #[trigger] out@[i] is Some && is_simple_verdict(
                            *meetings,
                            geom,
                            out@[i]->0,
                        ),
                        None => out@[i] is None,
                    }
            },
            Err(error) => array@.has_broken(array.rows()) && error == Error::Undecodable,
        },
{
    let f = |geom: &Geometry| -> (r: Option<bool>)
        ensures
            r is Some && is_simple_verdict(*meetings, geom@, r->0),
        { Some(is_simple(geom, meetings)) };
    map_geometries(array, &f)
}

// ------------------------------------------------------------------------ laws
/// True when the search depends on the segments alone, and finds places of the list only.
pub open spec fn is_sound_search<S: Fn(&Vec<(Coord, Coord)>) -> Vec<Meeting>>(meetings: S) -> bool {
    &&& forall|a: Vec<(Coord, Coord)>, b: Vec<(Coord, Coord)>, p: Vec<Meeting>, q: Vec<Meeting>|
        #[trigger] meetings.ensures((&a,), p) && #[trigger] meetings.ensures((&b,), q) && a@ == b@
            ==> p@ == q@
    &&& forall|list: Vec<(Coord, Coord)>, pairs: Vec<Meeting>| #[trigger]
        meetings.ensures((&list,), pairs) ==> forall|k: int|
            0 <= k < pairs@.len() ==> (#[trigger] pairs@[k]).first < list@.len() && pairs@[k].second
                < list@.len()
}

/// A multi line string of one part is simple exactly when the part is.
pub proof fn law_a_single_part_is_as_simple_as_its_line<
    S: Fn(&Vec<(Coord, Coord)>) -> Vec<Meeting>,
>(meetings: S, line: Seq<Coord>, whole: bool, part: bool)
    requires
        is_sound_search(meetings),
        is_simple_verdict(meetings, GeometryView::MultiLineString(seq![line]), whole),
        is_simple_verdict(meetings, GeometryView::LineString(line), part),
    ensures
        whole == part,
{
    let lines = seq![line];
    let lists = Seq::new(lines.len(), |i: int| segments_of(lines[i]));
    let marks = Seq::new(lines.len(), |i: int| Seq::new(segments_of(lines[i]).len(), |k: int| i));
    lemma_flatten_none(lists);
    lemma_flatten_step(lists, 0);
    lemma_flatten_all(lists);
    lemma_flatten_none(marks);
    lemma_flatten_step(marks, 0);
    lemma_flatten_all(marks);
    assert(segments_of_all(lines) =~= segments_of(line));
    assert(owners_of_all(lines) =~= Seq::new(segments_of(line).len(), |k: int| 0int));
    assert(lines[0] == line);
    if segments_of(line).len() >= 2 {
        assert forall|list: Vec<(Coord, Coord)>, pairs: Vec<Meeting>|
            list@ == segments_of(line) && #[trigger] meetings.ensures((&list,), pairs) implies (
        forall|k: int| 0 <= k < pairs@.len() ==> may_join(lines, #[trigger] pairs@[k])) by {}
    }
}

} // verus!
