//! Build one geometry per row without a new allocation.
//!
//! A kernel that works on whole geometries refills one geometry for every row. The buffers of the
//! row before are taken over where the geometry type is the same, so the loop allocates nothing
//! after the first row. What the row before left in them never shows.

use vstd::prelude::*;
use crate::bbox::{box_over, lemma_grown_push, Bbox};
use crate::column::{
    item_view, offsets_fit, paths_at, raw_polygon_at, settled, settled_parts, Body, BodyView,
    Column, ColumnView, CoordBuffer, ItemView,
};
use crate::error::Error;
use crate::geometry::{
    copy_line, copy_lines, geometries_view, lemma_collection_view, lines_view, polygon_over,
    polygons_view, Coord, Geometry, GeometryView, Polygon,
};
use crate::number;

verus! {

// --------------------------------------------------------------------- helpers
/// A geometry that owns no heap memory.
///
/// Used as a placeholder while the real value is taken apart and refilled.
pub fn empty_geometry() -> (r: Geometry)
    ensures
        r@ == GeometryView::Point(Coord { x: number::ZERO, y: number::ZERO }),
{
    Geometry::Point(Coord { x: number::ZERO, y: number::ZERO })
}

/// Take the value out of a place and leave a placeholder.
fn take(out: &mut Geometry) -> (r: Geometry)
    ensures
        r == *old(out),
        final(out)@ == GeometryView::Point(Coord { x: number::ZERO, y: number::ZERO }),
{
    let mut taken = empty_geometry();
    std::mem::swap(out, &mut taken);
    taken
}

/// True when every row of the column is null.
///
/// A kernel that answers true here can fill its output with nulls and read no coordinate. The
/// guard costs one comparison and saves the whole loop. It can never lose.
pub fn all_null(array: &Column) -> (r: bool)
    requires
        array.wf(),
    ensures
        r == (array.rows() > 0 && forall|i: int| 0 <= i < array.rows() ==> array.is_null(i)),
{
    let rows: usize = array.len();
    let mut i: usize = 0;
    while i < rows
        invariant
            i <= rows,
            array.wf(),
            rows == array.rows(),
            forall|j: int| 0 <= j < i ==> array.is_null(j),
        decreases rows - i,
    {
        if !array.null_at(i) {
            return false;
        }
        i = i + 1;
    }
    rows > 0
}

impl CoordBuffer {
    /// The bounding box of coordinates `start..end`. A NaN never replaces a bound.
    pub fn bounds(&self, start: usize, end: usize) -> (r: Bbox)
        requires
            self@.wf(),
            start <= end <= self@.len(),
        ensures
            r == box_over(self@.run(start as int, end as int)),
    {
        let mut bbox = Bbox::empty();
        let mut i: usize = start;
        while i < end
            invariant
                start <= i <= end <= self@.len(),
                self@.wf(),
                bbox == box_over(self@.run(start as int, i as int)),
            decreases end - i,
        {
            let c = self.at(i);
            bbox.push_xy(c.x, c.y);
            proof {
                let before = self@.run(start as int, i as int);
                assert(self@.run(start as int, i + 1) =~= before.push(c));
                lemma_grown_push(Bbox::blank(), before, c);
            }
            i = i + 1;
        }
        bbox
    }
}

// ------------------------------------------------------------------------ runs
/// How many offset buffers sit between a row and its coordinates.
#[derive(Debug, Clone, Copy)]
pub enum Chain<'a> {
    /// A point. Row `i` is coordinate `i`.
    Direct,
    /// A line string or multi point.
    One(&'a Vec<i32>),
    /// A polygon or multi line string.
    Two(&'a Vec<i32>, &'a Vec<i32>),
    /// A multi polygon.
    Three(&'a Vec<i32>, &'a Vec<i32>, &'a Vec<i32>),
}

/// The coordinate run of one row.
///
/// Every native type stores the coordinates of a row in one contiguous range, whatever the ring
/// structure inside it. A bounding box needs only that range, so it needs no ring walk.
#[derive(Debug)]
pub struct RowRuns<'a> {
    /// The coordinates of the column.
    pub coords: &'a CoordBuffer,
    /// The way from a row to its coordinates.
    pub chain: Chain<'a>,
}

/// The coordinate range of a row of a native column.
pub open spec fn run_of(body: BodyView, i: int) -> Option<(int, int)> {
    match body {
        BodyView::Point { .. } => Some((i, i + 1)),
        BodyView::LineString { geom_offsets, .. } => Some(
            (geom_offsets[i] as int, geom_offsets[i + 1] as int),
        ),
        BodyView::MultiPoint { geom_offsets, .. } => Some(
            (geom_offsets[i] as int, geom_offsets[i + 1] as int),
        ),
        BodyView::Polygon { geom_offsets, ring_offsets, .. } => Some(
            (
                ring_offsets[geom_offsets[i] as int] as int,
                ring_offsets[geom_offsets[i + 1] as int] as int,
            ),
        ),
        BodyView::MultiLineString { geom_offsets, ring_offsets, .. } => Some(
            (
                ring_offsets[geom_offsets[i] as int] as int,
                ring_offsets[geom_offsets[i + 1] as int] as int,
            ),
        ),
        BodyView::MultiPolygon { geom_offsets, polygon_offsets, ring_offsets, .. } => Some(
            (
                ring_offsets[polygon_offsets[geom_offsets[i] as int] as int] as int,
                ring_offsets[polygon_offsets[geom_offsets[i + 1] as int] as int] as int,
            ),
        ),
        BodyView::Rect { .. } => None,
        BodyView::Rows { .. } => None,
    }
}

/// A step inside fitting offsets.
pub proof fn lemma_offset_step(offsets: Seq<i32>, children: int, i: int)
    requires
        offsets_fit(offsets, children),
        0 <= i < offsets.len() - 1,
    ensures
        0 <= offsets[i] <= offsets[i + 1] <= children,
{
    assert(offsets[0] <= offsets[i]);
    assert(offsets[i] <= offsets[i + 1]);
    assert(offsets[i + 1] <= offsets[offsets.len() - 1]);
}

/// The value of an offset.
fn offset_at(offsets: &Vec<i32>, i: usize, Ghost(children): Ghost<int>) -> (r: usize)
    requires
        offsets_fit(offsets@, children),
        i < offsets@.len(),
    ensures
        r == offsets@[i as int],
        r <= children,
{
    proof {
        assert(offsets@[0] <= offsets@[i as int]);
        assert(offsets@[i as int] <= offsets@[offsets@.len() - 1]);
    }
    offsets[i] as usize
}

impl<'a> RowRuns<'a> {
    /// The number of rows.
    pub open spec fn rows(self) -> int {
        match self.chain {
            Chain::Direct => self.coords@.len(),
            Chain::One(first) => first@.len() - 1,
            Chain::Two(first, _) => first@.len() - 1,
            Chain::Three(first, _, _) => first@.len() - 1,
        }
    }

    /// The buffers belong together.
    pub open spec fn wf(self) -> bool {
        &&& self.coords@.wf()
        &&& match self.chain {
            Chain::Direct => true,
            Chain::One(first) => offsets_fit(first@, self.coords@.len()),
            Chain::Two(first, second) => offsets_fit(first@, second@.len() - 1) && offsets_fit(
                second@,
                self.coords@.len(),
            ),
            Chain::Three(first, second, third) => {
                &&& offsets_fit(first@, second@.len() - 1)
                &&& offsets_fit(second@, third@.len() - 1)
                &&& offsets_fit(third@, self.coords@.len())
            },
        }
    }

    /// The coordinate range of one row.
    pub open spec fn run(self, i: int) -> (int, int) {
        match self.chain {
            Chain::Direct => (i, i + 1),
            Chain::One(first) => (first@[i] as int, first@[i + 1] as int),
            Chain::Two(first, second) => (
                second@[first@[i] as int] as int,
                second@[first@[i + 1] as int] as int,
            ),
            Chain::Three(first, second, third) => (
                third@[second@[first@[i] as int] as int] as int,
                third@[second@[first@[i + 1] as int] as int] as int,
            ),
        }
    }

    /// The coordinate range of one row.
    pub fn range(&self, index: usize) -> (r: (usize, usize))
        requires
            self.wf(),
            index < self.rows(),
        ensures
            (r.0 as int, r.1 as int) == self.run(index as int),
            r.0 <= r.1 <= self.coords@.len(),
    {
        let size: usize = self.coords.len();
        let ghost total = self.coords@.len();
        match self.chain {
            Chain::Direct => (index, index + 1),
            Chain::One(first) => {
                let n: usize = first.len();
                proof {
                    lemma_offset_step(first@, total, index as int);
                }
                (
                    offset_at(first, index, Ghost(total)),
                    offset_at(first, index + 1, Ghost(total)),
                )
            },
            Chain::Two(first, second) => {
                let n: usize = first.len();
                proof {
                    lemma_offset_step(first@, second@.len() - 1, index as int);
                    assert(second@[first@[index as int] as int] <= second@[first@[index
                        + 1] as int]);
                }
                let a: usize = offset_at(first, index, Ghost(second@.len() - 1));
                let b: usize = offset_at(first, index + 1, Ghost(second@.len() - 1));
                (offset_at(second, a, Ghost(total)), offset_at(second, b, Ghost(total)))
            },
            Chain::Three(first, second, third) => {
                let n: usize = first.len();
                proof {
                    lemma_offset_step(first@, second@.len() - 1, index as int);
                    assert(second@[first@[index as int] as int] <= second@[first@[index
                        + 1] as int]);
                }
                let a: usize = offset_at(first, index, Ghost(second@.len() - 1));
                let b: usize = offset_at(first, index + 1, Ghost(second@.len() - 1));
                let c: usize = offset_at(second, a, Ghost(third@.len() - 1));
                let d: usize = offset_at(second, b, Ghost(third@.len() - 1));
                proof {
                    assert(third@[c as int] <= third@[d as int]);
                }
                (offset_at(third, c, Ghost(total)), offset_at(third, d, Ghost(total)))
            },
        }
    }
}

/// The coordinate runs of a column, when its type stores one run per row.
///
/// Returns `None` for a mixed, WKB, WKT, box or collection column. Those have no single run.
pub fn row_runs(array: &Column) -> (r: Option<RowRuns<'_>>)
    requires
        array.wf(),
    ensures
        match r {
            Some(runs) => {
                &&& runs.wf()
                &&& runs.rows() == array.rows()
                &&& array@.body.coords() == Some(runs.coords@)
                &&& forall|i: int| #[trigger] run_of(array@.body, i) == Some(runs.run(i))
            },
            None => array@.body.coords() is None,
        },
{
    match &array.body {
        Body::Point { coords } => Some(RowRuns { coords, chain: Chain::Direct }),
        Body::LineString { coords, geom_offsets } => Some(
            RowRuns { coords, chain: Chain::One(geom_offsets) },
        ),
        Body::MultiPoint { coords, geom_offsets } => Some(
            RowRuns { coords, chain: Chain::One(geom_offsets) },
        ),
        Body::Polygon { coords, geom_offsets, ring_offsets } => Some(
            RowRuns { coords, chain: Chain::Two(geom_offsets, ring_offsets) },
        ),
        Body::MultiLineString { coords, geom_offsets, ring_offsets } => Some(
            RowRuns { coords, chain: Chain::Two(geom_offsets, ring_offsets) },
        ),
        Body::MultiPolygon { coords, geom_offsets, polygon_offsets, ring_offsets } => Some(
            RowRuns { coords, chain: Chain::Three(geom_offsets, polygon_offsets, ring_offsets) },
        ),
        Body::Rect { .. } => None,
        Body::Rows { .. } => None,
    }
}

// --------------------------------------------------------------------- filling
/// Resize a ring list, and keep the coordinate buffer of every ring that survives.
fn resize_rings(rings: &mut Vec<Vec<Coord>>, count: usize)
    ensures
        final(rings)@.len() == count,
{
    if rings.len() > count {
        rings.truncate(count);
    }
    while rings.len() < count
        invariant
            rings@.len() <= count,
        decreases count - rings@.len(),
    {
        rings.push(Vec::new());
    }
}

/// Refill `dst` from rings `first..last`.
fn fill_rings(
    dst: &mut Vec<Vec<Coord>>,
    coords: &CoordBuffer,
    ring_offsets: &Vec<i32>,
    first: usize,
    last: usize,
)
    requires
        coords@.wf(),
        offsets_fit(ring_offsets@, coords@.len()),
        first <= last < ring_offsets@.len(),
    ensures
        lines_view(final(dst)@) == paths_at(coords@, ring_offsets@, first as int, last as int),
{
    resize_rings(dst, last - first);
    let mut k: usize = 0;
    while k < last - first
        invariant
            k <= last - first,
            first <= last < ring_offsets@.len(),
            coords@.wf(),
            offsets_fit(ring_offsets@, coords@.len()),
            dst@.len() == last - first,
            forall|j: int|
                0 <= j < k ==> (#[trigger] dst@[j])@ == coords@.run(
                    ring_offsets@[first + j] as int,
                    ring_offsets@[first + j + 1] as int,
                ),
        decreases last - first - k,
    {
        proof {
            lemma_offset_step(ring_offsets@, coords@.len(), first + k);
        }
        let start: usize = offset_at(ring_offsets, first + k, Ghost(coords@.len()));
        let end: usize = offset_at(ring_offsets, first + k + 1, Ghost(coords@.len()));
        let mut ring: Vec<Coord> = Vec::new();
        std::mem::swap(&mut ring, &mut dst[k]);
        coords.fill(&mut ring, start, end);
        dst[k] = ring;
        k = k + 1;
    }
    assert(lines_view(dst@) =~= paths_at(coords@, ring_offsets@, first as int, last as int));
}

/// Refill one polygon. The shell is the first ring, the holes are the rest. Each is closed.
fn fill_polygon(
    slot: Polygon,
    coords: &CoordBuffer,
    ring_offsets: &Vec<i32>,
    first: usize,
    last: usize,
) -> (r: Polygon)
    requires
        coords@.wf(),
        offsets_fit(ring_offsets@, coords@.len()),
        first <= last < ring_offsets@.len(),
    ensures
        ({
            let raw = raw_polygon_at(coords@, ring_offsets@, first as int, last as int);
            r@ == polygon_over(raw.exterior, raw.interiors)
        }),
{
    let mut shell = slot.exterior;
    let mut holes = slot.interiors;
    if first == last {
        shell.clear();
        holes.clear();
        assert(shell@ =~= Seq::<Coord>::empty());
        assert(lines_view(holes@) =~= Seq::<Seq<Coord>>::empty());
    } else {
        proof {
            lemma_offset_step(ring_offsets@, coords@.len(), first as int);
        }
        let start: usize = offset_at(ring_offsets, first, Ghost(coords@.len()));
        let end: usize = offset_at(ring_offsets, first + 1, Ghost(coords@.len()));
        coords.fill(&mut shell, start, end);
        fill_rings(&mut holes, coords, ring_offsets, first + 1, last);
    }
    Polygon::new(shell, holes)
}

/// The geometry with every ring closed and the corners of a box in order.
pub fn settle(geom: &Geometry) -> (r: Geometry)
    ensures
        r@ == settled(geom@),
    decreases geom,
{
    match geom {
        Geometry::Polygon(polygon) => Geometry::Polygon(settle_polygon(polygon)),
        Geometry::MultiPolygon(polygons) => {
            let ghost views = polygons_view(polygons@);
            let mut out: Vec<Polygon> = Vec::new();
            let mut i: usize = 0;
            while i < polygons.len()
                invariant
                    i <= polygons@.len(),
                    views == polygons_view(polygons@),
                    out@.len() == i,
                    forall|j: int|
                        0 <= j < i ==> (#[trigger] out@[j])@ == polygon_over(
                            views[j].exterior,
                            views[j].interiors,
                        ),
                decreases polygons@.len() - i,
            {
                out.push(settle_polygon(&polygons[i]));
                i = i + 1;
            }
            assert(polygons_view(out@) =~= settled(geom@)->MultiPolygon_0);
            Geometry::MultiPolygon(out)
        },
        Geometry::GeometryCollection(parts) => {
            let ghost views = geometries_view(parts@);
            let mut out: Vec<Geometry> = Vec::new();
            let mut i: usize = 0;
            while i < parts.len()
                invariant
                    i <= parts@.len(),
                    *geom == Geometry::GeometryCollection(*parts),
                    views == geometries_view(parts@),
                    out@.len() == i,
                    forall|j: int| 0 <= j < i ==> (#[trigger] out@[j])@ == settled(views[j]),
                decreases parts@.len() - i,
            {
                proof {
                    assert(decreases_to!(*parts => parts[i as int]));
                    assert(decreases_to!(*geom => geom->GeometryCollection_0));
                }
                out.push(settle(&parts[i]));
                i = i + 1;
            }
            proof {
                reveal_with_fuel(settled_parts, 2);
                lemma_collection_view(*parts);
                lemma_collection_view(out);
                assert(geometries_view(out@) =~= settled_parts(views));
            }
            Geometry::GeometryCollection(out)
        },
        Geometry::Rect(a, b) => {
            let (min_x, max_x) = if number::lt(a.x, b.x) {
                (a.x, b.x)
            } else {
                (b.x, a.x)
            };
            let (min_y, max_y) = if number::lt(a.y, b.y) {
                (a.y, b.y)
            } else {
                (b.y, a.y)
            };
            Geometry::Rect(Coord { x: min_x, y: min_y }, Coord { x: max_x, y: max_y })
        },
        Geometry::Point(_) => geom.copy(),
        Geometry::Line(_, _) => geom.copy(),
        Geometry::LineString(_) => geom.copy(),
        Geometry::MultiPoint(_) => geom.copy(),
        Geometry::MultiLineString(_) => geom.copy(),
        Geometry::Triangle(_, _, _) => geom.copy(),
    }
}

/// A polygon with every ring closed.
fn settle_polygon(polygon: &Polygon) -> (r: Polygon)
    ensures
        r@ == polygon_over(polygon@.exterior, polygon@.interiors),
{
    Polygon::new(
        copy_line(&polygon.exterior),
        copy_lines(&polygon.interiors),
    )
}

/// What filling from a row gives: whether there is a geometry, or that it cannot be decoded.
pub open spec fn is_filled(
    array: ColumnView,
    i: int,
    out: GeometryView,
    r: Result<bool, Error>,
) -> bool {
    if array.is_null(i) {
        r == Ok::<bool, Error>(false)
    } else if array.is_broken(i) {
        r == Err::<bool, Error>(Error::Undecodable)
    } else {
        r == Ok::<bool, Error>(true) && array.geometry(i) == Some(out)
    }
}

impl Column {
    /// Fill `out` with a row. Returns `false` when the row is null, and leaves `out` as it was.
    ///
    /// The native types below hold their coordinates in one contiguous run per row, so a row is a
    /// slice copy. A mixed or serialized column copies its decoded value.
    pub fn fill_geometry(&self, index: usize, out: &mut Geometry) -> (r: Result<bool, Error>)
        requires
            self.wf(),
            index < self.rows(),
        ensures
            is_filled(self@, index as int, final(out)@, r),
            r != Ok::<bool, Error>(true) ==> *final(out) == *old(out),
    {
        if self.null_at(index) {
            return Ok(false);
        }
        match &self.body {
            Body::Point { coords } => {
                *out = Geometry::Point(coords.at(index));
                Ok(true)
            },
            Body::LineString { coords, geom_offsets } => {
                let mut line = match take(out) {
                    Geometry::LineString(line) => line,
                    _ => Vec::new(),
                };
                fill_row(&mut line, coords, geom_offsets, index);
                *out = Geometry::LineString(line);
                Ok(true)
            },
            Body::Polygon { coords, geom_offsets, ring_offsets } => {
                let (first, last) = row_of(
                    geom_offsets,
                    index,
                    Ghost(ring_offsets@.len() - 1),
                );
                let slot = match take(out) {
                    Geometry::Polygon(polygon) => polygon,
                    _ => Polygon { exterior: Vec::new(), interiors: Vec::new() },
                };
                let polygon = fill_polygon(slot, coords, ring_offsets, first, last);
                *out = Geometry::Polygon(polygon);
                Ok(true)
            },
            Body::MultiPoint { coords, geom_offsets } => {
                let mut points = match take(out) {
                    Geometry::MultiPoint(points) => points,
                    _ => Vec::new(),
                };
                fill_row(&mut points, coords, geom_offsets, index);
                *out = Geometry::MultiPoint(points);
                Ok(true)
            },
            Body::MultiLineString { coords, geom_offsets, ring_offsets } => {
                let (first, last) = row_of(
                    geom_offsets,
                    index,
                    Ghost(ring_offsets@.len() - 1),
                );
                let mut lines = match take(out) {
                    Geometry::MultiLineString(lines) => lines,
                    _ => Vec::new(),
                };
                fill_rings(&mut lines, coords, ring_offsets, first, last);
                *out = Geometry::MultiLineString(lines);
                Ok(true)
            },
            Body::MultiPolygon { coords, geom_offsets, polygon_offsets, ring_offsets } => {
                let ghost rings = ring_offsets@.len() - 1;
                let (start, end) = row_of(
                    geom_offsets,
                    index,
                    Ghost(polygon_offsets@.len() - 1),
                );
                let mut old_list = match take(out) {
                    Geometry::MultiPolygon(list) => list,
                    _ => Vec::new(),
                };
                let mut list: Vec<Polygon> = Vec::new();
                let mut k: usize = start;
                while k < end
                    invariant
                        start <= k <= end < polygon_offsets@.len(),
                        rings == ring_offsets@.len() - 1,
                        coords@.wf(),
                        offsets_fit(polygon_offsets@, rings),
                        offsets_fit(ring_offsets@, coords@.len()),
                        list@.len() == k - start,
                        forall|j: int|
                            0 <= j < list@.len() ==> (#[trigger] list@[j])@ == ({
                                let raw = raw_polygon_at(
                                    coords@,
                                    ring_offsets@,
                                    polygon_offsets@[start + j] as int,
                                    polygon_offsets@[start + j + 1] as int,
                                );
                                polygon_over(raw.exterior, raw.interiors)
                            }),
                    decreases end - k,
                {
                    // Take over the buffers of a polygon of the row before, where one is left.
                    let slot = match old_list.pop() {
                        Some(polygon) => polygon,
                        None => Polygon { exterior: Vec::new(), interiors: Vec::new() },
                    };
                    let (first, last) = row_of(polygon_offsets, k, Ghost(rings));
                    let polygon = fill_polygon(slot, coords, ring_offsets, first, last);
                    list.push(polygon);
                    k = k + 1;
                }
                *out = Geometry::MultiPolygon(list);
                proof {
                    assert(out@->MultiPolygon_0 =~= self@.geometry(
                        index as int,
                    )->0->MultiPolygon_0);
                }
                Ok(true)
            },
            Body::Rect { lower, upper } => {
                let corners = Geometry::Rect(lower.at(index), upper.at(index));
                *out = settle(&corners);
                Ok(true)
            },
            Body::Rows { items, .. } => {
                assert(items_at(*self, index as int) == item_view(
                    items@[index as int],
                ));
                match &items[index] {
                    Some(item) => {
                        *out = settle(&item.geometry);
                        Ok(true)
                    },
                    None => Err(Error::Undecodable),
                }
            },
        }
    }

    /// One row, as an owned geometry.
    pub fn geometry_at(&self, index: usize) -> (r: Result<Option<Geometry>, Error>)
        requires
            self.wf(),
            index < self.rows(),
        ensures
            is_read(self@, index as int, r),
    {
        let mut out = empty_geometry();
        match self.fill_geometry(index, &mut out) {
            Ok(true) => Ok(Some(out)),
            Ok(false) => Ok(None),
            Err(error) => Err(error),
        }
    }
}

/// The decoded value of a row.
spec fn items_at(array: Column, i: int) -> Option<ItemView> {
    array@.body->Rows_items[i]
}

/// What reading a row gives: its geometry, nothing for a null, or that it cannot be decoded.
pub open spec fn is_read(
    array: ColumnView,
    i: int,
    r: Result<Option<Geometry>, Error>,
) -> bool {
    match r {
        Ok(Some(geom)) => !array.is_broken(i) && array.geometry(i) == Some(geom@),
        Ok(None) => array.is_null(i),
        Err(error) => array.is_broken(i) && error == Error::Undecodable,
    }
}

/// A row reader for one column.
///
/// Build one per batch and read every row from it.
#[derive(Debug)]
pub struct GeometryReader<'a> {
    array: &'a Column,
    scratch: Geometry,
}

impl<'a> GeometryReader<'a> {
    /// The column that is read.
    pub closed spec fn source(self) -> Column {
        *self.array
    }

    /// Build a reader for one column.
    pub fn new(array: &'a Column) -> (r: GeometryReader<'a>)
        ensures
            r.source() == *array,
    {
        GeometryReader { array, scratch: empty_geometry() }
    }

    /// One row, as an owned geometry.
    ///
    /// This allocates for every row. Use [`GeometryReader::read`] in a loop.
    pub fn get(&self, index: usize) -> (r: Result<Option<Geometry>, Error>)
        requires
            self.source().wf(),
            index < self.source().rows(),
        ensures
            is_read(self.source()@, index as int, r),
    {
        self.array.geometry_at(index)
    }

    /// One row, in a buffer that this reader owns and reuses.
    ///
    /// The reference is valid until the next call. The loop allocates nothing after the first
    /// row.
    pub fn read(&mut self, index: usize) -> (r: Result<Option<&Geometry>, Error>)
        requires
            old(self).source().wf(),
            index < old(self).source().rows(),
        ensures
            final(self).source() == old(self).source(),
            match r {
                Ok(Some(geom)) => !old(self).source()@.is_broken(index as int) && old(
                    self,
                ).source()@.geometry(index as int) == Some(geom@),
                Ok(None) => old(self).source().is_null(index as int),
                Err(error) => old(self).source()@.is_broken(index as int) && error
                    == Error::Undecodable,
            },
    {
        match self.array.fill_geometry(index, &mut self.scratch) {
            Ok(true) => Ok(Some(&self.scratch)),
            Ok(false) => Ok(None),
            Err(error) => Err(error),
        }
    }
}

// ------------------------------------------------------------- values as stored
/// The polygon over rings `first..last`, its rings as they are stored.
fn raw_polygon(
    coords: &CoordBuffer,
    ring_offsets: &Vec<i32>,
    first: usize,
    last: usize,
) -> (r: Polygon)
    requires
        coords@.wf(),
        offsets_fit(ring_offsets@, coords@.len()),
        first <= last < ring_offsets@.len(),
    ensures
        r@ == raw_polygon_at(coords@, ring_offsets@, first as int, last as int),
{
    let mut exterior: Vec<Coord> = Vec::new();
    let mut interiors: Vec<Vec<Coord>> = Vec::new();
    if first < last {
        proof {
            lemma_offset_step(ring_offsets@, coords@.len(), first as int);
        }
        let start: usize = offset_at(ring_offsets, first, Ghost(coords@.len()));
        let end: usize = offset_at(ring_offsets, first + 1, Ghost(coords@.len()));
        coords.fill(&mut exterior, start, end);
        fill_rings(&mut interiors, coords, ring_offsets, first + 1, last);
    } else {
        assert(exterior@ =~= Seq::<Coord>::empty());
        assert(lines_view(interiors@) =~= Seq::<Seq<Coord>>::empty());
    }
    Polygon { exterior, interiors }
}

impl Column {
    /// The value of a row as it is stored. `None` where it could not be decoded.
    pub fn raw_geometry(&self, index: usize) -> (r: Option<Geometry>)
        requires
            self.wf(),
            index < self.rows(),
        ensures
            match r {
                Some(geom) => self@.body.raw(index as int) == Some(geom@),
                None => self@.body.raw(index as int) is None,
            },
    {
        match &self.body {
            Body::Point { coords } => Some(Geometry::Point(coords.at(index))),
            Body::LineString { coords, geom_offsets } => {
                let mut line: Vec<Coord> = Vec::new();
                fill_row(&mut line, coords, geom_offsets, index);
                Some(Geometry::LineString(line))
            },
            Body::MultiPoint { coords, geom_offsets } => {
                let mut points: Vec<Coord> = Vec::new();
                fill_row(&mut points, coords, geom_offsets, index);
                Some(Geometry::MultiPoint(points))
            },
            Body::Polygon { coords, geom_offsets, ring_offsets } => {
                let (first, last) = row_of(
                    geom_offsets,
                    index,
                    Ghost(ring_offsets@.len() - 1),
                );
                Some(Geometry::Polygon(raw_polygon(coords, ring_offsets, first, last)))
            },
            Body::MultiLineString { coords, geom_offsets, ring_offsets } => {
                let (first, last) = row_of(
                    geom_offsets,
                    index,
                    Ghost(ring_offsets@.len() - 1),
                );
                let mut lines: Vec<Vec<Coord>> = Vec::new();
                fill_rings(&mut lines, coords, ring_offsets, first, last);
                Some(Geometry::MultiLineString(lines))
            },
            Body::MultiPolygon { coords, geom_offsets, polygon_offsets, ring_offsets } => {
                let ghost rings = ring_offsets@.len() - 1;
                let (start, end) = row_of(
                    geom_offsets,
                    index,
                    Ghost(polygon_offsets@.len() - 1),
                );
                let mut list: Vec<Polygon> = Vec::new();
                let mut k: usize = start;
                while k < end
                    invariant
                        start <= k <= end < polygon_offsets@.len(),
                        rings == ring_offsets@.len() - 1,
                        coords@.wf(),
                        offsets_fit(polygon_offsets@, rings),
                        offsets_fit(ring_offsets@, coords@.len()),
                        list@.len() == k - start,
                        forall|j: int|
                            0 <= j < list@.len() ==> (#[trigger] list@[j])@ == raw_polygon_at(
                                coords@,
                                ring_offsets@,
                                polygon_offsets@[start + j] as int,
                                polygon_offsets@[start + j + 1] as int,
                            ),
                    decreases end - k,
                {
                    let (first, last) = row_of(polygon_offsets, k, Ghost(rings));
                    list.push(raw_polygon(coords, ring_offsets, first, last));
                    k = k + 1;
                }
                let r = Geometry::MultiPolygon(list);
                proof {
                    assert(r@->MultiPolygon_0 =~= self@.body.raw(index as int)->0->MultiPolygon_0);
                }
                Some(r)
            },
            Body::Rect { lower, upper } => Some(Geometry::Rect(lower.at(index), upper.at(index))),
            Body::Rows { items, .. } => {
                assert(items_at(*self, index as int) == item_view(
                    items@[index as int],
                ));
                match &items[index] {
                    Some(item) => Some(item.geometry.copy()),
                    None => None,
                }
            },
        }
    }
}

/// The children of a row.
fn row_of(offsets: &Vec<i32>, index: usize, Ghost(children): Ghost<int>) -> (r: (usize, usize))
    requires
        offsets_fit(offsets@, children),
        index < offsets@.len() - 1,
    ensures
        r.0 == offsets@[index as int],
        r.1 == offsets@[index + 1],
        r.0 <= r.1 <= children,
{
    proof {
        lemma_offset_step(offsets@, children, index as int);
    }
    let n: usize = offsets.len();
    (offset_at(offsets, index, Ghost(children)), offset_at(offsets, index + 1, Ghost(children)))
}

/// Refill `out` with the coordinates of a row.
fn fill_row(out: &mut Vec<Coord>, coords: &CoordBuffer, offsets: &Vec<i32>, index: usize)
    requires
        coords@.wf(),
        offsets_fit(offsets@, coords@.len()),
        index < offsets@.len() - 1,
    ensures
        final(out)@ == coords@.run(offsets@[index as int] as int, offsets@[index + 1] as int),
{
    let (start, end) = row_of(offsets, index, Ghost(coords@.len()));
    coords.fill(out, start, end);
}

} // verus!
