//! Geometry columns.
//!
//! A native column is a coordinate buffer plus offset buffers. The offsets say which rings belong
//! to a row and which coordinates to a ring. A mixed or serialized column has no such buffers: it
//! holds one decoded value per row.

use vstd::prelude::*;
use crate::crs::{Metadata, MetadataView};
use crate::geometry::{polygon_over, Coord, Geometry, GeometryView, Polygon, PolygonView};
use crate::number;

verus! {

// ----------------------------------------------------------------------- types
/// Which ordinates a coordinate has.
#[derive(Debug, Clone, Copy, PartialEq, Eq, Structural, Hash)]
pub enum Dimension {
    /// Two ordinates.
    XY,
    /// Three ordinates.
    XYZ,
    /// Two ordinates and a measure.
    XYM,
    /// Three ordinates and a measure.
    XYZM,
}

impl Dimension {
    /// The number of ordinates of a coordinate.
    pub open spec fn count(self) -> int {
        match self {
            Dimension::XY => 2,
            Dimension::XYZ => 3,
            Dimension::XYM => 3,
            Dimension::XYZM => 4,
        }
    }

    /// The number of ordinates of a coordinate.
    pub fn size(self) -> (r: usize)
        ensures
            r == self.count(),
    {
        match self {
            Dimension::XY => 2,
            Dimension::XYZ => 3,
            Dimension::XYM => 3,
            Dimension::XYZM => 4,
        }
    }
}

/// How coordinates are laid out.
#[derive(Debug, Clone, Copy, PartialEq, Eq, Structural, Hash)]
pub enum CoordType {
    /// One buffer for each ordinate.
    Separated,
    /// One buffer, coordinate by coordinate.
    Interleaved,
}

/// Which geometries a column holds, and how they are encoded.
#[derive(Debug, Clone, Copy, PartialEq, Eq, Structural, Hash)]
pub enum Kind {
    /// Points.
    Point,
    /// Line strings.
    LineString,
    /// Polygons.
    Polygon,
    /// Multi points.
    MultiPoint,
    /// Multi line strings.
    MultiLineString,
    /// Multi polygons.
    MultiPolygon,
    /// Geometry collections.
    GeometryCollection,
    /// Boxes.
    Rect,
    /// Any geometry, the type varies by row.
    Geometry,
    /// Well-known binary.
    Wkb,
    /// Well-known binary with wide offsets.
    LargeWkb,
    /// Well-known binary views.
    WkbView,
    /// Well-known text.
    Wkt,
    /// Well-known text with wide offsets.
    LargeWkt,
    /// Well-known text views.
    WktView,
}

/// The type of a geometry column.
#[derive(Debug)]
pub struct DataType {
    /// Which geometries, and how they are encoded.
    pub kind: Kind,
    /// The dimension, where the type fixes it.
    pub dimension: Option<Dimension>,
    /// The layout, where the type has one.
    pub coord_type: Option<CoordType>,
    /// What the column says of its coordinates.
    pub metadata: Metadata,
}

/// The view of a [`DataType`].
#[verifier::ext_equal]
pub struct DataTypeView {
    /// Which geometries, and how they are encoded.
    pub kind: Kind,
    /// The dimension, where the type fixes it.
    pub dimension: Option<Dimension>,
    /// The layout, where the type has one.
    pub coord_type: Option<CoordType>,
    /// What the column says of its coordinates.
    pub metadata: MetadataView,
}

impl DataTypeView {
    /// A type of separated coordinates, or of boxes.
    pub open spec fn separated(kind: Kind, dimension: Dimension, metadata: MetadataView) -> DataTypeView {
        DataTypeView {
            kind,
            dimension: Some(dimension),
            coord_type: Some(CoordType::Separated),
            metadata,
        }
    }

    /// The type of a mixed column.
    pub open spec fn mixed(metadata: MetadataView) -> DataTypeView {
        DataTypeView {
            kind: Kind::Geometry,
            dimension: None,
            coord_type: Some(CoordType::Separated),
            metadata,
        }
    }

    /// The dimension of the type, two ordinates where it fixes none.
    pub open spec fn dimension_or_xy(self) -> Dimension {
        match self.dimension {
            Some(dim) => dim,
            None => Dimension::XY,
        }
    }

    /// The same type with other metadata.
    pub open spec fn with_metadata(self, metadata: MetadataView) -> DataTypeView {
        DataTypeView { metadata, ..self }
    }

    /// The same type with another dimension.
    pub open spec fn with_dimension(self, dimension: Dimension) -> DataTypeView {
        DataTypeView { dimension: Some(dimension), ..self }
    }
}

impl View for DataType {
    type V = DataTypeView;

    open spec fn view(&self) -> DataTypeView {
        DataTypeView {
            kind: self.kind,
            dimension: self.dimension,
            coord_type: self.coord_type,
            metadata: self.metadata@,
        }
    }
}

impl DataType {
    /// A type of separated coordinates, or of boxes.
    pub fn separated(kind: Kind, dimension: Dimension, metadata: Metadata) -> (r: DataType)
        ensures
            r@ == DataTypeView::separated(kind, dimension, metadata@),
    {
        DataType {
            kind,
            dimension: Some(dimension),
            coord_type: Some(CoordType::Separated),
            metadata,
        }
    }

    /// The type of a mixed column.
    pub fn mixed(metadata: Metadata) -> (r: DataType)
        ensures
            r@ == DataTypeView::mixed(metadata@),
    {
        DataType {
            kind: Kind::Geometry,
            dimension: None,
            coord_type: Some(CoordType::Separated),
            metadata,
        }
    }

    /// The dimension of the type, two ordinates where it fixes none.
    pub fn dimension_or_xy(&self) -> (r: Dimension)
        ensures
            r == self@.dimension_or_xy(),
    {
        match self.dimension {
            Some(dim) => dim,
            None => Dimension::XY,
        }
    }

    /// A copy of this type.
    pub fn copy(&self) -> (r: DataType)
        ensures
            r@ == self@,
    {
        DataType {
            kind: self.kind,
            dimension: self.dimension,
            coord_type: self.coord_type,
            metadata: self.metadata.copy(),
        }
    }
}

// ----------------------------------------------------------------- coordinates
/// Coordinates in one buffer per ordinate. The buffers past the dimension have no meaning.
#[derive(Debug)]
pub struct SeparatedCoordBuffer {
    /// A buffer for each of four ordinates.
    pub buffers: [Vec<u64>; 4],
    /// Which ordinates there are.
    pub dim: Dimension,
}

/// Coordinates one after the other in one buffer.
#[derive(Debug)]
pub struct InterleavedCoordBuffer {
    /// The ordinates.
    pub coords: Vec<u64>,
    /// Which ordinates there are.
    pub dim: Dimension,
}

/// The coordinates of a column.
#[derive(Debug)]
pub enum CoordBuffer {
    /// One buffer for each ordinate.
    Separated(SeparatedCoordBuffer),
    /// One buffer for all of them.
    Interleaved(InterleavedCoordBuffer),
}

/// The view of a [`CoordBuffer`].
#[verifier::ext_equal]
pub enum CoordBufferView {
    /// One buffer for each of four ordinates.
    Separated(Seq<Seq<u64>>, Dimension),
    /// One buffer for all of them.
    Interleaved(Seq<u64>, Dimension),
}

/// The views of four buffers.
pub open spec fn buffers_view(buffers: [Vec<u64>; 4]) -> Seq<Seq<u64>> {
    Seq::new(4, |k: int| buffers@[k]@)
}

impl View for CoordBuffer {
    type V = CoordBufferView;

    open spec fn view(&self) -> CoordBufferView {
        match self {
            CoordBuffer::Separated(b) => CoordBufferView::Separated(buffers_view(b.buffers), b.dim),
            CoordBuffer::Interleaved(b) => CoordBufferView::Interleaved(b.coords@, b.dim),
        }
    }
}

impl CoordBufferView {
    /// Which ordinates there are.
    pub open spec fn dim(self) -> Dimension {
        match self {
            CoordBufferView::Separated(_, dim) => dim,
            CoordBufferView::Interleaved(_, dim) => dim,
        }
    }

    /// How the coordinates are laid out.
    pub open spec fn coord_type(self) -> CoordType {
        match self {
            CoordBufferView::Separated(_, _) => CoordType::Separated,
            CoordBufferView::Interleaved(_, _) => CoordType::Interleaved,
        }
    }

    /// The number of coordinates.
    pub open spec fn len(self) -> int {
        match self {
            CoordBufferView::Separated(buffers, _) => buffers[0].len() as int,
            CoordBufferView::Interleaved(values, dim) => values.len() as int / dim.count(),
        }
    }

    /// The buffers have the right lengths.
    pub open spec fn wf(self) -> bool {
        match self {
            CoordBufferView::Separated(buffers, dim) => {
                &&& buffers.len() == 4
                &&& forall|k: int|
                    0 <= k < dim.count() ==> (#[trigger] buffers[k]).len() == buffers[0].len()
            },
            CoordBufferView::Interleaved(values, dim) => values.len() as int % dim.count() == 0,
        }
    }

    /// One ordinate of one coordinate.
    pub open spec fn ordinate(self, i: int, k: int) -> u64 {
        match self {
            CoordBufferView::Separated(buffers, _) => buffers[k][i],
            CoordBufferView::Interleaved(values, dim) => values[i * dim.count() + k],
        }
    }

    /// The position of one coordinate.
    pub open spec fn coord(self, i: int) -> Coord {
        Coord { x: self.ordinate(i, 0), y: self.ordinate(i, 1) }
    }

    /// The positions of the coordinates `start..end`.
    pub open spec fn run(self, start: int, end: int) -> Seq<Coord> {
        Seq::new((end - start) as nat, |j: int| self.coord(start + j))
    }

    /// True when every ordinate of a coordinate is NaN. Such a coordinate is an empty point.
    pub open spec fn is_blank(self, i: int) -> bool {
        forall|k: int| 0 <= k < self.dim().count() ==> number::is_nan(#[trigger] self.ordinate(i, k))
    }
}

/// A coordinate's slots lie inside an interleaved buffer.
pub proof fn lemma_slots(values: Seq<u64>, dim: Dimension, i: int, k: int)
    requires
        values.len() as int % dim.count() == 0,
        0 <= i < values.len() as int / dim.count(),
        0 <= k < dim.count(),
    ensures
        0 <= i * dim.count(),
        i * dim.count() + k < values.len(),
        i * dim.count() + dim.count() <= values.len(),
        values.len() as int == (values.len() as int / dim.count()) * dim.count(),
{
    let n = values.len() as int / dim.count();
    let w = dim.count();
    vstd::arithmetic::div_mod::lemma_fundamental_div_mod(values.len() as int, w);
    assert(n * w == values.len()) by (nonlinear_arith)
        requires
            values.len() as int == w * n + 0,
    ;
    assert(i * w + w <= n * w) by (nonlinear_arith)
        requires
            0 <= i < n,
            w > 0,
    ;
    assert(0 <= i * w) by (nonlinear_arith)
        requires
            0 <= i,
            w > 0,
    ;
}

/// A buffer has no negative number of coordinates.
pub proof fn lemma_len_nonnegative(coords: CoordBufferView)
    ensures
        coords.len() >= 0,
{
    match coords {
        CoordBufferView::Separated(_, _) => {},
        CoordBufferView::Interleaved(values, dim) => {
            vstd::arithmetic::div_mod::lemma_div_pos_is_pos(values.len() as int, dim.count());
        },
    }
}

/// A copy of a list of words.
pub fn copy_words(words: &Vec<u64>) -> (r: Vec<u64>)
    ensures
        r@ == words@,
{
    let r = words.clone();
    assert(r@ =~= words@);
    r
}

/// A copy of a list of offsets.
pub fn copy_offsets(offsets: &Vec<i32>) -> (r: Vec<i32>)
    ensures
        r@ == offsets@,
{
    let r = offsets.clone();
    assert(r@ =~= offsets@);
    r
}

/// A copy of a validity list.
pub fn copy_validity(validity: &Option<Vec<bool>>) -> (r: Option<Vec<bool>>)
    ensures
        validity_view(r) == validity_view(*validity),
{
    match validity {
        Some(valid) => {
            let r = valid.clone();
            assert(r@ =~= valid@);
            Some(r)
        },
        None => None,
    }
}

impl CoordBuffer {
    /// A copy of this buffer.
    pub fn copy(&self) -> (r: CoordBuffer)
        ensures
            r@ == self@,
    {
        match self {
            CoordBuffer::Separated(b) => {
                let buffers = [
                    copy_words(&b.buffers[0]),
                    copy_words(&b.buffers[1]),
                    copy_words(&b.buffers[2]),
                    copy_words(&b.buffers[3]),
                ];
                assert(buffers_view(buffers) =~= buffers_view(b.buffers));
                CoordBuffer::Separated(SeparatedCoordBuffer { buffers, dim: b.dim })
            },
            CoordBuffer::Interleaved(b) => CoordBuffer::Interleaved(
                InterleavedCoordBuffer { coords: copy_words(&b.coords), dim: b.dim },
            ),
        }
    }

    /// Which ordinates there are.
    pub fn dim(&self) -> (r: Dimension)
        ensures
            r == self@.dim(),
    {
        match self {
            CoordBuffer::Separated(b) => b.dim,
            CoordBuffer::Interleaved(b) => b.dim,
        }
    }

    /// The number of coordinates.
    pub fn len(&self) -> (r: usize)
        ensures
            r == self@.len(),
    {
        match self {
            CoordBuffer::Separated(b) => {
                assert(buffers_view(b.buffers)[0] == b.buffers@[0]@);
                b.buffers[0].len()
            },
            CoordBuffer::Interleaved(b) => b.coords.len() / b.dim.size(),
        }
    }

    /// The position of one coordinate.
    pub fn at(&self, i: usize) -> (r: Coord)
        requires
            self@.wf(),
            i < self@.len(),
        ensures
            r == self@.coord(i as int),
    {
        Coord { x: self.ordinate(i, 0), y: self.ordinate(i, 1) }
    }

    /// One ordinate of one coordinate.
    pub fn ordinate(&self, i: usize, k: usize) -> (r: u64)
        requires
            self@.wf(),
            i < self@.len(),
            k < self@.dim().count(),
        ensures
            r == self@.ordinate(i as int, k as int),
    {
        match self {
            CoordBuffer::Separated(b) => {
                assert(buffers_view(b.buffers)[k as int] == b.buffers@[k as int]@);
                assert(self@->Separated_0[k as int].len() == self@->Separated_0[0].len());
                b.buffers[k][i]
            },
            CoordBuffer::Interleaved(b) => {
                proof {
                    lemma_slots(b.coords@, b.dim, i as int, k as int);
                }
                let total: usize = b.coords.len();
                b.coords[i * b.dim.size() + k]
            },
        }
    }

    /// Refill `out` with the positions of coordinates `start..end`. Keeps the existing capacity.
    pub fn fill(&self, out: &mut Vec<Coord>, start: usize, end: usize)
        requires
            self@.wf(),
            start <= end <= self@.len(),
        ensures
            final(out)@ == self@.run(start as int, end as int),
    {
        out.clear();
        let mut i: usize = start;
        while i < end
            invariant
                start <= i <= end,
                end <= self@.len(),
                self@.wf(),
                out@ == self@.run(start as int, i as int),
            decreases end - i,
        {
            out.push(self.at(i));
            assert(out@ =~= self@.run(start as int, i + 1));
            i = i + 1;
        }
        assert(out@ =~= self@.run(start as int, end as int));
    }
}

// --------------------------------------------------------------------- columns
/// One decoded value of a mixed or serialized column.
#[derive(Debug)]
pub struct Item {
    /// The geometry, in the plane.
    pub geometry: Geometry,
    /// Which ordinates its coordinates have.
    pub dim: Dimension,
    /// The z ordinate of a point that has one.
    pub z: u64,
    /// The measure of a point that has one.
    pub m: u64,
}

/// The view of an [`Item`].
#[verifier::ext_equal]
pub struct ItemView {
    /// The geometry, in the plane.
    pub geometry: GeometryView,
    /// Which ordinates its coordinates have.
    pub dim: Dimension,
    /// The z ordinate of a point that has one.
    pub z: u64,
    /// The measure of a point that has one.
    pub m: u64,
}

impl View for Item {
    type V = ItemView;

    open spec fn view(&self) -> ItemView {
        ItemView { geometry: self.geometry@, dim: self.dim, z: self.z, m: self.m }
    }
}

/// The values of a column.
#[derive(Debug)]
pub enum Body {
    /// Row `i` is coordinate `i`.
    Point { coords: CoordBuffer },
    /// A run of coordinates per row.
    LineString { coords: CoordBuffer, geom_offsets: Vec<i32> },
    /// A run of rings per row, a run of coordinates per ring.
    Polygon { coords: CoordBuffer, geom_offsets: Vec<i32>, ring_offsets: Vec<i32> },
    /// A run of coordinates per row.
    MultiPoint { coords: CoordBuffer, geom_offsets: Vec<i32> },
    /// A run of paths per row, a run of coordinates per path.
    MultiLineString { coords: CoordBuffer, geom_offsets: Vec<i32>, ring_offsets: Vec<i32> },
    /// A run of polygons per row, of rings per polygon, of coordinates per ring.
    MultiPolygon {
        coords: CoordBuffer,
        geom_offsets: Vec<i32>,
        polygon_offsets: Vec<i32>,
        ring_offsets: Vec<i32>,
    },
    /// The lower and the upper corner of each box.
    Rect { lower: SeparatedCoordBuffer, upper: SeparatedCoordBuffer },
    /// A collection, mixed, WKB or WKT column. A value that could not be decoded is `None`.
    Rows {
        kind: Kind,
        dimension: Option<Dimension>,
        coord_type: Option<CoordType>,
        items: Vec<Option<Item>>,
    },
}

/// A geometry column.
#[derive(Debug)]
pub struct Column {
    /// The values.
    pub body: Body,
    /// Which rows have a value. All of them where it is `None`.
    pub validity: Option<Vec<bool>>,
    /// What the column says of its coordinates.
    pub metadata: Metadata,
}

/// The view of a [`Body`].
#[verifier::ext_equal]
pub enum BodyView {
    /// Row `i` is coordinate `i`.
    Point { coords: CoordBufferView },
    /// A run of coordinates per row.
    LineString { coords: CoordBufferView, geom_offsets: Seq<i32> },
    /// A run of rings per row, a run of coordinates per ring.
    Polygon { coords: CoordBufferView, geom_offsets: Seq<i32>, ring_offsets: Seq<i32> },
    /// A run of coordinates per row.
    MultiPoint { coords: CoordBufferView, geom_offsets: Seq<i32> },
    /// A run of paths per row, a run of coordinates per path.
    MultiLineString { coords: CoordBufferView, geom_offsets: Seq<i32>, ring_offsets: Seq<i32> },
    /// A run of polygons per row, of rings per polygon, of coordinates per ring.
    MultiPolygon {
        coords: CoordBufferView,
        geom_offsets: Seq<i32>,
        polygon_offsets: Seq<i32>,
        ring_offsets: Seq<i32>,
    },
    /// The lower and the upper corner of each box.
    Rect { lower: CoordBufferView, upper: CoordBufferView },
    /// A collection, mixed, WKB or WKT column.
    Rows {
        kind: Kind,
        dimension: Option<Dimension>,
        coord_type: Option<CoordType>,
        items: Seq<Option<ItemView>>,
    },
}

/// The view of a [`Column`].
#[verifier::ext_equal]
pub struct ColumnView {
    /// The values.
    pub body: BodyView,
    /// Which rows have a value.
    pub validity: Option<Seq<bool>>,
    /// What the column says of its coordinates.
    pub metadata: MetadataView,
}

/// The view of a validity list.
pub open spec fn validity_view(validity: Option<Vec<bool>>) -> Option<Seq<bool>> {
    match validity {
        Some(valid) => Some(valid@),
        None => None,
    }
}

/// The view of a decoded value, or of a value that could not be decoded.
pub open spec fn item_view(item: Option<Item>) -> Option<ItemView> {
    match item {
        Some(item) => Some(item@),
        None => None,
    }
}

/// The views of the values of a mixed or serialized column.
pub open spec fn items_view(items: Seq<Option<Item>>) -> Seq<Option<ItemView>> {
    Seq::new(items.len(), |i: int| item_view(items[i]))
}

/// The view of a separated buffer.
pub open spec fn separated_view(b: SeparatedCoordBuffer) -> CoordBufferView {
    CoordBufferView::Separated(buffers_view(b.buffers), b.dim)
}

impl View for Body {
    type V = BodyView;

    open spec fn view(&self) -> BodyView {
        match self {
            Body::Point { coords } => BodyView::Point { coords: coords@ },
            Body::LineString { coords, geom_offsets } => BodyView::LineString {
                coords: coords@,
                geom_offsets: geom_offsets@,
            },
            Body::Polygon { coords, geom_offsets, ring_offsets } => BodyView::Polygon {
                coords: coords@,
                geom_offsets: geom_offsets@,
                ring_offsets: ring_offsets@,
            },
            Body::MultiPoint { coords, geom_offsets } => BodyView::MultiPoint {
                coords: coords@,
                geom_offsets: geom_offsets@,
            },
            Body::MultiLineString { coords, geom_offsets, ring_offsets } => {
                BodyView::MultiLineString {
                    coords: coords@,
                    geom_offsets: geom_offsets@,
                    ring_offsets: ring_offsets@,
                }
            },
            Body::MultiPolygon { coords, geom_offsets, polygon_offsets, ring_offsets } => {
                BodyView::MultiPolygon {
                    coords: coords@,
                    geom_offsets: geom_offsets@,
                    polygon_offsets: polygon_offsets@,
                    ring_offsets: ring_offsets@,
                }
            },
            Body::Rect { lower, upper } => BodyView::Rect {
                lower: separated_view(*lower),
                upper: separated_view(*upper),
            },
            Body::Rows { kind, dimension, coord_type, items } => BodyView::Rows {
                kind: *kind,
                dimension: *dimension,
                coord_type: *coord_type,
                items: items_view(items@),
            },
        }
    }
}

impl View for Column {
    type V = ColumnView;

    open spec fn view(&self) -> ColumnView {
        ColumnView {
            body: self.body@,
            validity: validity_view(self.validity),
            metadata: self.metadata@,
        }
    }
}

/// Offsets start at zero or later, never step back, and end inside their children.
pub open spec fn offsets_fit(offsets: Seq<i32>, children: int) -> bool {
    &&& offsets.len() >= 1
    &&& 0 <= offsets[0]
    &&& forall|i: int, j: int|
        0 <= i <= j < offsets.len() ==> #[trigger] offsets[i] <= #[trigger] offsets[j]
    &&& offsets[offsets.len() - 1] <= children
}

/// The corners of a box, the lower one first on each axis.
pub open spec fn rect_over(a: Coord, b: Coord) -> GeometryView {
    GeometryView::Rect(
        Coord {
            x: if number::is_lt(a.x, b.x) {
                a.x
            } else {
                b.x
            },
            y: if number::is_lt(a.y, b.y) {
                a.y
            } else {
                b.y
            },
        },
        Coord {
            x: if number::is_lt(a.x, b.x) {
                b.x
            } else {
                a.x
            },
            y: if number::is_lt(a.y, b.y) {
                b.y
            } else {
                a.y
            },
        },
    )
}

/// The paths `first..last`.
pub open spec fn paths_at(
    coords: CoordBufferView,
    ring_offsets: Seq<i32>,
    first: int,
    last: int,
) -> Seq<Seq<Coord>> {
    Seq::new(
        (last - first) as nat,
        |k: int| coords.run(ring_offsets[first + k] as int, ring_offsets[first + k + 1] as int),
    )
}

/// The polygon over rings `first..last`, its rings as they are stored.
pub open spec fn raw_polygon_at(
    coords: CoordBufferView,
    ring_offsets: Seq<i32>,
    first: int,
    last: int,
) -> PolygonView {
    if first == last {
        PolygonView { exterior: Seq::empty(), interiors: Seq::empty() }
    } else {
        PolygonView {
            exterior: coords.run(ring_offsets[first] as int, ring_offsets[first + 1] as int),
            interiors: paths_at(coords, ring_offsets, first + 1, last),
        }
    }
}

/// The geometry with every ring closed and the corners of a box in order.
pub open spec fn settled(geom: GeometryView) -> GeometryView
    decreases geom,
{
    match geom {
        GeometryView::Polygon(polygon) => GeometryView::Polygon(
            polygon_over(polygon.exterior, polygon.interiors),
        ),
        GeometryView::MultiPolygon(polygons) => GeometryView::MultiPolygon(
            Seq::new(
                polygons.len(),
                |i: int| polygon_over(polygons[i].exterior, polygons[i].interiors),
            ),
        ),
        GeometryView::GeometryCollection(parts) => GeometryView::GeometryCollection(
            settled_parts(parts),
        ),
        GeometryView::Rect(a, b) => rect_over(a, b),
        other => other,
    }
}

/// Each part of a collection, settled.
pub open spec fn settled_parts(parts: Seq<GeometryView>) -> Seq<GeometryView>
    decreases parts,
{
    Seq::new(
        parts.len(),
        |i: int|
            if 0 <= i < parts.len() {
                settled(parts[i])
            } else {
                arbitrary()
            },
    )
}

impl BodyView {
    /// Which geometries, and how they are encoded.
    pub open spec fn kind(self) -> Kind {
        match self {
            BodyView::Point { .. } => Kind::Point,
            BodyView::LineString { .. } => Kind::LineString,
            BodyView::Polygon { .. } => Kind::Polygon,
            BodyView::MultiPoint { .. } => Kind::MultiPoint,
            BodyView::MultiLineString { .. } => Kind::MultiLineString,
            BodyView::MultiPolygon { .. } => Kind::MultiPolygon,
            BodyView::Rect { .. } => Kind::Rect,
            BodyView::Rows { kind, .. } => kind,
        }
    }

    /// The coordinate buffer of a native column.
    pub open spec fn coords(self) -> Option<CoordBufferView> {
        match self {
            BodyView::Point { coords } => Some(coords),
            BodyView::LineString { coords, .. } => Some(coords),
            BodyView::Polygon { coords, .. } => Some(coords),
            BodyView::MultiPoint { coords, .. } => Some(coords),
            BodyView::MultiLineString { coords, .. } => Some(coords),
            BodyView::MultiPolygon { coords, .. } => Some(coords),
            BodyView::Rect { .. } => None,
            BodyView::Rows { .. } => None,
        }
    }

    /// The dimension, where the type fixes it.
    pub open spec fn dimension(self) -> Option<Dimension> {
        match self {
            BodyView::Rect { lower, .. } => Some(lower.dim()),
            BodyView::Rows { dimension, .. } => dimension,
            _ => Some(self.coords()->0.dim()),
        }
    }

    /// The layout, where the type has one.
    pub open spec fn coord_type(self) -> Option<CoordType> {
        match self {
            BodyView::Rect { .. } => Some(CoordType::Separated),
            BodyView::Rows { coord_type, .. } => coord_type,
            _ => Some(self.coords()->0.coord_type()),
        }
    }

    /// The number of rows.
    pub open spec fn rows(self) -> int {
        match self {
            BodyView::Point { coords } => coords.len(),
            BodyView::LineString { geom_offsets, .. } => geom_offsets.len() - 1,
            BodyView::Polygon { geom_offsets, .. } => geom_offsets.len() - 1,
            BodyView::MultiPoint { geom_offsets, .. } => geom_offsets.len() - 1,
            BodyView::MultiLineString { geom_offsets, .. } => geom_offsets.len() - 1,
            BodyView::MultiPolygon { geom_offsets, .. } => geom_offsets.len() - 1,
            BodyView::Rect { lower, .. } => lower.len(),
            BodyView::Rows { items, .. } => items.len() as int,
        }
    }

    /// The buffers belong together.
    pub open spec fn wf(self) -> bool {
        match self {
            BodyView::Point { coords } => coords.wf(),
            BodyView::LineString { coords, geom_offsets } => {
                coords.wf() && offsets_fit(geom_offsets, coords.len())
            },
            BodyView::Polygon { coords, geom_offsets, ring_offsets } => {
                &&& coords.wf()
                &&& offsets_fit(geom_offsets, ring_offsets.len() - 1)
                &&& offsets_fit(ring_offsets, coords.len())
            },
            BodyView::MultiPoint { coords, geom_offsets } => {
                coords.wf() && offsets_fit(geom_offsets, coords.len())
            },
            BodyView::MultiLineString { coords, geom_offsets, ring_offsets } => {
                &&& coords.wf()
                &&& offsets_fit(geom_offsets, ring_offsets.len() - 1)
                &&& offsets_fit(ring_offsets, coords.len())
            },
            BodyView::MultiPolygon { coords, geom_offsets, polygon_offsets, ring_offsets } => {
                &&& coords.wf()
                &&& offsets_fit(geom_offsets, polygon_offsets.len() - 1)
                &&& offsets_fit(polygon_offsets, ring_offsets.len() - 1)
                &&& offsets_fit(ring_offsets, coords.len())
            },
            BodyView::Rect { lower, upper } => {
                &&& lower.wf()
                &&& upper.wf()
                &&& lower.len() == upper.len()
                &&& lower.dim() == upper.dim()
                &&& lower is Separated
                &&& upper is Separated
            },
            BodyView::Rows { kind, dimension, items, .. } => {
                &&& kind == Kind::GeometryCollection || is_untyped_kind(kind)
                &&& (kind == Kind::GeometryCollection) == dimension is Some
                &&& kind == Kind::GeometryCollection ==> forall|i: int|
                    0 <= i < items.len() && #[trigger] items[i] is Some
                        ==> items[i]->0.geometry is GeometryCollection
            },
        }
    }

    /// The value of a row as it is stored. `None` where it could not be decoded.
    pub open spec fn raw(self, i: int) -> Option<GeometryView> {
        match self {
            BodyView::Point { coords } => Some(GeometryView::Point(coords.coord(i))),
            BodyView::LineString { coords, geom_offsets } => Some(
                GeometryView::LineString(
                    coords.run(geom_offsets[i] as int, geom_offsets[i + 1] as int),
                ),
            ),
            BodyView::Polygon { coords, geom_offsets, ring_offsets } => Some(
                GeometryView::Polygon(
                    raw_polygon_at(
                        coords,
                        ring_offsets,
                        geom_offsets[i] as int,
                        geom_offsets[i + 1] as int,
                    ),
                ),
            ),
            BodyView::MultiPoint { coords, geom_offsets } => Some(
                GeometryView::MultiPoint(
                    coords.run(geom_offsets[i] as int, geom_offsets[i + 1] as int),
                ),
            ),
            BodyView::MultiLineString { coords, geom_offsets, ring_offsets } => Some(
                GeometryView::MultiLineString(
                    paths_at(
                        coords,
                        ring_offsets,
                        geom_offsets[i] as int,
                        geom_offsets[i + 1] as int,
                    ),
                ),
            ),
            BodyView::MultiPolygon { coords, geom_offsets, polygon_offsets, ring_offsets } => Some(
                GeometryView::MultiPolygon(
                    Seq::new(
                        (geom_offsets[i + 1] - geom_offsets[i]) as nat,
                        |k: int|
                            raw_polygon_at(
                                coords,
                                ring_offsets,
                                polygon_offsets[geom_offsets[i] + k] as int,
                                polygon_offsets[geom_offsets[i] + k + 1] as int,
                            ),
                    ),
                ),
            ),
            BodyView::Rect { lower, upper } => Some(
                GeometryView::Rect(lower.coord(i), upper.coord(i)),
            ),
            BodyView::Rows { items, .. } => match items[i] {
                Some(item) => Some(item.geometry),
                None => None,
            },
        }
    }
}

/// True for the kinds whose row type is unknown before execution.
pub open spec fn is_untyped_kind(kind: Kind) -> bool {
    match kind {
        Kind::Geometry | Kind::Wkb | Kind::LargeWkb | Kind::WkbView | Kind::Wkt | Kind::LargeWkt
        | Kind::WktView => true,
        _ => false,
    }
}

impl ColumnView {
    /// The number of rows.
    pub open spec fn rows(self) -> int {
        self.body.rows()
    }

    /// True when the row has no value.
    pub open spec fn is_null(self, i: int) -> bool {
        match self.validity {
            Some(valid) => !valid[i],
            None => false,
        }
    }

    /// The buffers belong together.
    pub open spec fn wf(self) -> bool {
        &&& self.body.wf()
        &&& self.validity matches Some(valid) ==> valid.len() == self.rows()
    }

    /// The type of the column.
    pub open spec fn data_type(self) -> DataTypeView {
        DataTypeView {
            kind: self.body.kind(),
            dimension: self.body.dimension(),
            coord_type: self.body.coord_type(),
            metadata: self.metadata,
        }
    }

    /// The same column with other metadata.
    pub open spec fn with_metadata(self, metadata: MetadataView) -> ColumnView {
        ColumnView { metadata, ..self }
    }

    /// The value of a row as it is stored. `None` for a null.
    pub open spec fn raw(self, i: int) -> Option<GeometryView> {
        if self.is_null(i) {
            None
        } else {
            self.body.raw(i)
        }
    }

    /// True when the row has a value that could not be decoded.
    pub open spec fn is_broken(self, i: int) -> bool {
        !self.is_null(i) && self.body.raw(i) is None
    }

    /// The geometry of a row: its value, settled. `None` for a null.
    pub open spec fn geometry(self, i: int) -> Option<GeometryView> {
        match self.raw(i) {
            Some(geom) => Some(settled(geom)),
            None => None,
        }
    }

    /// True when some row before `end` has a value that could not be decoded.
    pub open spec fn has_broken(self, end: int) -> bool {
        exists|i: int| 0 <= i < end && #[trigger] self.is_broken(i)
    }
}

impl Column {
    /// The buffers belong together.
    pub open spec fn wf(&self) -> bool {
        self@.wf()
    }

    /// The number of rows.
    pub open spec fn rows(&self) -> int {
        self@.rows()
    }

    /// True when the row has no value.
    pub open spec fn is_null(&self, i: int) -> bool {
        self@.is_null(i)
    }
}

impl SeparatedCoordBuffer {
    /// A copy of this buffer.
    pub fn copy(&self) -> (r: SeparatedCoordBuffer)
        ensures
            separated_view(r) == separated_view(*self),
    {
        let buffers = [
            copy_words(&self.buffers[0]),
            copy_words(&self.buffers[1]),
            copy_words(&self.buffers[2]),
            copy_words(&self.buffers[3]),
        ];
        assert(buffers_view(buffers) =~= buffers_view(self.buffers));
        SeparatedCoordBuffer { buffers, dim: self.dim }
    }

    /// The number of coordinates.
    pub fn len(&self) -> (r: usize)
        ensures
            r == separated_view(*self).len(),
    {
        assert(buffers_view(self.buffers)[0] == self.buffers@[0]@);
        self.buffers[0].len()
    }

    /// The position of one coordinate.
    pub fn at(&self, i: usize) -> (r: Coord)
        requires
            separated_view(*self).wf(),
            i < separated_view(*self).len(),
        ensures
            r == separated_view(*self).coord(i as int),
    {
        let ghost view = buffers_view(self.buffers);
        proof {
            assert(view[0] == self.buffers@[0]@);
            assert(view[1] == self.buffers@[1]@);
            assert(view[1].len() == view[0].len());
        }
        Coord { x: self.buffers[0][i], y: self.buffers[1][i] }
    }
}

impl Item {
    /// A copy of this value.
    pub fn copy(&self) -> (r: Item)
        ensures
            r@ == self@,
    {
        Item { geometry: self.geometry.copy(), dim: self.dim, z: self.z, m: self.m }
    }
}

impl Body {
    /// A copy of these values.
    pub fn copy(&self) -> (r: Body)
        ensures
            r@ == self@,
    {
        match self {
            Body::Point { coords } => Body::Point { coords: coords.copy() },
            Body::LineString { coords, geom_offsets } => Body::LineString {
                coords: coords.copy(),
                geom_offsets: copy_offsets(geom_offsets),
            },
            Body::Polygon { coords, geom_offsets, ring_offsets } => Body::Polygon {
                coords: coords.copy(),
                geom_offsets: copy_offsets(geom_offsets),
                ring_offsets: copy_offsets(ring_offsets),
            },
            Body::MultiPoint { coords, geom_offsets } => Body::MultiPoint {
                coords: coords.copy(),
                geom_offsets: copy_offsets(geom_offsets),
            },
            Body::MultiLineString { coords, geom_offsets, ring_offsets } => Body::MultiLineString {
                coords: coords.copy(),
                geom_offsets: copy_offsets(geom_offsets),
                ring_offsets: copy_offsets(ring_offsets),
            },
            Body::MultiPolygon { coords, geom_offsets, polygon_offsets, ring_offsets } => {
                Body::MultiPolygon {
                    coords: coords.copy(),
                    geom_offsets: copy_offsets(geom_offsets),
                    polygon_offsets: copy_offsets(polygon_offsets),
                    ring_offsets: copy_offsets(ring_offsets),
                }
            },
            Body::Rect { lower, upper } => Body::Rect { lower: lower.copy(), upper: upper.copy() },
            Body::Rows { kind, dimension, coord_type, items } => {
                let mut out: Vec<Option<Item>> = Vec::new();
                let mut i: usize = 0;
                while i < items.len()
                    invariant
                        i <= items@.len(),
                        out@.len() == i,
                        forall|j: int|
                            0 <= j < i ==> item_view(#[trigger] out@[j]) == item_view(items@[j]),
                    decreases items@.len() - i,
                {
                    out.push(
                        match &items[i] {
                            Some(item) => Some(item.copy()),
                            None => None,
                        },
                    );
                    i = i + 1;
                }
                assert(items_view(out@) =~= items_view(items@));
                Body::Rows {
                    kind: *kind,
                    dimension: *dimension,
                    coord_type: *coord_type,
                    items: out,
                }
            },
        }
    }

    /// Which geometries, and how they are encoded.
    pub fn kind(&self) -> (r: Kind)
        ensures
            r == self@.kind(),
    {
        match self {
            Body::Point { .. } => Kind::Point,
            Body::LineString { .. } => Kind::LineString,
            Body::Polygon { .. } => Kind::Polygon,
            Body::MultiPoint { .. } => Kind::MultiPoint,
            Body::MultiLineString { .. } => Kind::MultiLineString,
            Body::MultiPolygon { .. } => Kind::MultiPolygon,
            Body::Rect { .. } => Kind::Rect,
            Body::Rows { kind, .. } => *kind,
        }
    }

    /// The coordinate buffer of a native column.
    pub fn coords(&self) -> (r: Option<&CoordBuffer>)
        ensures
            match r {
                Some(coords) => self@.coords() == Some(coords@),
                None => self@.coords() is None,
            },
    {
        match self {
            Body::Point { coords } => Some(coords),
            Body::LineString { coords, .. } => Some(coords),
            Body::Polygon { coords, .. } => Some(coords),
            Body::MultiPoint { coords, .. } => Some(coords),
            Body::MultiLineString { coords, .. } => Some(coords),
            Body::MultiPolygon { coords, .. } => Some(coords),
            Body::Rect { .. } => None,
            Body::Rows { .. } => None,
        }
    }

    /// The dimension, where the type fixes it.
    pub fn dimension(&self) -> (r: Option<Dimension>)
        ensures
            r == self@.dimension(),
    {
        match self {
            Body::Rect { lower, .. } => Some(lower.dim),
            Body::Rows { dimension, .. } => *dimension,
            _ => match self.coords() {
                Some(coords) => Some(coords.dim()),
                None => None,
            },
        }
    }

    /// The layout, where the type has one.
    pub fn coord_type(&self) -> (r: Option<CoordType>)
        ensures
            r == self@.coord_type(),
    {
        match self {
            Body::Rect { .. } => Some(CoordType::Separated),
            Body::Rows { coord_type, .. } => *coord_type,
            _ => match self.coords() {
                Some(CoordBuffer::Separated(_)) => Some(CoordType::Separated),
                Some(CoordBuffer::Interleaved(_)) => Some(CoordType::Interleaved),
                None => None,
            },
        }
    }

    /// The number of rows.
    pub fn len(&self) -> (r: usize)
        requires
            self@.wf(),
        ensures
            r == self@.rows(),
    {
        match self {
            Body::Point { coords } => coords.len(),
            Body::LineString { geom_offsets, .. } => geom_offsets.len() - 1,
            Body::Polygon { geom_offsets, .. } => geom_offsets.len() - 1,
            Body::MultiPoint { geom_offsets, .. } => geom_offsets.len() - 1,
            Body::MultiLineString { geom_offsets, .. } => geom_offsets.len() - 1,
            Body::MultiPolygon { geom_offsets, .. } => geom_offsets.len() - 1,
            Body::Rect { lower, .. } => lower.len(),
            Body::Rows { items, .. } => items.len(),
        }
    }
}

impl Column {
    /// A copy of this column.
    pub fn copy(&self) -> (r: Column)
        ensures
            r@ == self@,
    {
        Column {
            body: self.body.copy(),
            validity: copy_validity(&self.validity),
            metadata: self.metadata.copy(),
        }
    }

    /// The number of rows.
    pub fn len(&self) -> (r: usize)
        requires
            self.wf(),
        ensures
            r == self.rows(),
    {
        self.body.len()
    }

    /// True when the row has no value.
    pub fn null_at(&self, i: usize) -> (r: bool)
        requires
            self.wf(),
            i < self.rows(),
        ensures
            r == self.is_null(i as int),
    {
        match &self.validity {
            Some(valid) => !valid[i],
            None => false,
        }
    }

    /// The type of the column.
    pub fn data_type(&self) -> (r: DataType)
        ensures
            r@ == self@.data_type(),
    {
        DataType {
            kind: self.body.kind(),
            dimension: self.body.dimension(),
            coord_type: self.body.coord_type(),
            metadata: self.metadata.copy(),
        }
    }
}

} // verus!
