//! Column builders.
//!
//! A kernel that gives a new native column appends one row at a time. The builders keep the
//! ordinates apart, one list per axis, and lay out the column at the end.

use vstd::prelude::*;
use crate::column::{
    lemma_len_nonnegative, offsets_fit, separated_view, Body, Column, ColumnView, CoordBuffer,
    CoordBufferView, CoordType, Dimension, InterleavedCoordBuffer, SeparatedCoordBuffer,
};
use crate::crs::Metadata;
use crate::geometry::Coord;
use crate::number;

verus! {

/// The ordinates of coordinate `i`.
pub open spec fn tuple_at(coords: CoordBufferView, i: int) -> Seq<u64> {
    Seq::new(coords.dim().count() as nat, |k: int| coords.ordinate(i, k))
}

/// The ordinates of the coordinates `start..end`.
pub open spec fn tuples_in(coords: CoordBufferView, start: int, end: int) -> Seq<Seq<u64>> {
    Seq::new((end - start) as nat, |j: int| tuple_at(coords, start + j))
}

/// The ordinates of a coordinate in the plane.
pub open spec fn flat(c: Coord) -> Seq<u64> {
    seq![c.x, c.y]
}

/// The ordinates of a list of coordinates in the plane.
pub open spec fn flats(line: Seq<Coord>) -> Seq<Seq<u64>> {
    Seq::new(line.len(), |j: int| flat(line[j]))
}

/// The ordinates of an absent coordinate.
pub open spec fn blank_tuple(dim: Dimension) -> Seq<u64> {
    Seq::new(dim.count() as nat, |k: int| number::NAN)
}

impl CoordBuffer {
    /// The ordinates of coordinate `i`. Zero where the dimension has none.
    pub fn tuple(&self, i: usize) -> (r: [u64; 4])
        requires
            self@.wf(),
            i < self@.len(),
        ensures
            r@.take(self@.dim().count()) == tuple_at(self@, i as int),
    {
        let size: usize = self.dim().size();
        let third: u64 = if size > 2 {
            self.ordinate(i, 2)
        } else {
            number::ZERO
        };
        let fourth: u64 = if size > 3 {
            self.ordinate(i, 3)
        } else {
            number::ZERO
        };
        let r = [self.ordinate(i, 0), self.ordinate(i, 1), third, fourth];
        assert(r@.take(self@.dim().count()) =~= tuple_at(self@, i as int));
        r
    }
}

/// A growing list of coordinates.
pub struct CoordList {
    dim: Dimension,
    x: Vec<u64>,
    y: Vec<u64>,
    third: Vec<u64>,
    fourth: Vec<u64>,
}

impl CoordList {
    /// The dimension.
    pub closed spec fn dimension(self) -> Dimension {
        self.dim
    }

    /// The lists are as long as the dimension asks.
    pub closed spec fn wf(self) -> bool {
        &&& self.x@.len() == self.y@.len()
        &&& self.third@.len() == (if self.dim.count() > 2 {
            self.x@.len()
        } else {
            0
        })
        &&& self.fourth@.len() == (if self.dim.count() > 3 {
            self.x@.len()
        } else {
            0
        })
    }

    /// The ordinates of each coordinate.
    pub closed spec fn tuples(self) -> Seq<Seq<u64>> {
        Seq::new(
            self.x@.len(),
            |i: int|
                Seq::new(
                    self.dim.count() as nat,
                    |k: int|
                        if k == 0 {
                            self.x@[i]
                        } else if k == 1 {
                            self.y@[i]
                        } else if k == 2 {
                            self.third@[i]
                        } else {
                            self.fourth@[i]
                        },
                ),
        )
    }

    /// An empty list.
    pub fn new(dim: Dimension) -> (r: CoordList)
        ensures
            r.wf(),
            r.dimension() == dim,
            r.tuples() == Seq::<Seq<u64>>::empty(),
    {
        let r = CoordList {
            dim,
            x: Vec::new(),
            y: Vec::new(),
            third: Vec::new(),
            fourth: Vec::new(),
        };
        assert(r.tuples() =~= Seq::<Seq<u64>>::empty());
        r
    }

    /// Add a coordinate. Ordinates beyond the dimension are left out.
    pub fn push(&mut self, tuple: [u64; 4])
        requires
            old(self).wf(),
        ensures
            final(self).wf(),
            final(self).dimension() == old(self).dimension(),
            final(self).tuples() == old(self).tuples().push(
                tuple@.take(old(self).dimension().count()),
            ),
    {
        let size: usize = self.dim.size();
        self.x.push(tuple[0]);
        self.y.push(tuple[1]);
        if size > 2 {
            self.third.push(tuple[2]);
        }
        if size > 3 {
            self.fourth.push(tuple[3]);
        }
        proof {
            let after = self.tuples();
            let before = old(self).tuples().push(tuple@.take(old(self).dimension().count()));
            assert(after.len() == before.len());
            assert forall|i: int| 0 <= i < after.len() implies after[i] == before[i] by {
                assert(after[i] =~= before[i]);
            }
            assert(after =~= before);
        }
    }

    /// Lay out the buffer.
    pub fn finish(self) -> (r: CoordBuffer)
        requires
            self.wf(),
        ensures
            r@ is Separated,
            r@.wf(),
            r@.dim() == self.dimension(),
            tuples_in(r@, 0, r@.len()) == self.tuples(),
    {
        let ghost list = self;
        let r = CoordBuffer::Separated(
            SeparatedCoordBuffer {
                buffers: [self.x, self.y, self.third, self.fourth],
                dim: self.dim,
            },
        );
        proof {
            let got = tuples_in(r@, 0, r@.len());
            assert(got.len() == list.tuples().len());
            assert forall|i: int| 0 <= i < got.len() implies got[i] == list.tuples()[i] by {
                assert(got[i] =~= list.tuples()[i]);
            }
            assert(got =~= list.tuples());
        }
        r
    }
}

/// The ordinates of an absent coordinate.
pub fn nan_tuple(dim: Dimension) -> (r: [u64; 4])
    ensures
        r@.take(dim.count()) == blank_tuple(dim),
{
    let r = [number::NAN, number::NAN, number::NAN, number::NAN];
    assert(r@.take(dim.count()) =~= blank_tuple(dim));
    r
}

/// The ordinates of a coordinate in the plane.
pub fn flat_tuple(c: Coord) -> (r: [u64; 4])
    ensures
        r@.take(2) == flat(c),
{
    let r = [c.x, c.y, number::ZERO, number::ZERO];
    assert(r@.take(2) =~= flat(c));
    r
}

// ---------------------------------------------------------------------- points
/// What a point column holds at row `i`: the ordinates, or nothing for a null.
pub open spec fn point_at(array: ColumnView, i: int) -> Option<Seq<u64>> {
    if array.is_null(i) {
        None
    } else {
        Some(tuple_at(array.body->Point_coords, i))
    }
}

/// True when a column is a point column over the rows, its ordinates kept apart.
pub open spec fn are_points(
    array: ColumnView,
    dim: Dimension,
    rows: Seq<Option<Seq<u64>>>,
) -> bool {
    &&& array.wf()
    &&& array.body is Point
    &&& array.body->Point_coords is Separated
    &&& array.body->Point_coords.dim() == dim
    &&& array.rows() == rows.len()
    &&& forall|i: int| 0 <= i < rows.len() ==> #[trigger] point_at(array, i) == rows[i]
}

/// Builds a point column.
pub struct PointBuilder {
    coords: CoordList,
    valid: Vec<bool>,
    rows: Ghost<Seq<Option<Seq<u64>>>>,
}

impl PointBuilder {
    /// The dimension.
    pub closed spec fn dimension(self) -> Dimension {
        self.coords.dimension()
    }

    /// The rows so far.
    pub closed spec fn rows(self) -> Seq<Option<Seq<u64>>> {
        self.rows@
    }

    /// The lists hold the rows.
    pub closed spec fn wf(self) -> bool {
        &&& self.coords.wf()
        &&& self.coords.tuples().len() == self.rows().len()
        &&& self.valid@.len() == self.rows().len()
        &&& forall|i: int|
            0 <= i < self.rows().len() ==> match #[trigger] self.rows()[i] {
                Some(tuple) => self.valid@[i] && self.coords.tuples()[i] == tuple,
                None => !self.valid@[i],
            }
    }

    /// A builder with no row.
    pub fn new(dim: Dimension) -> (r: PointBuilder)
        ensures
            r.wf(),
            r.dimension() == dim,
            r.rows() == Seq::<Option<Seq<u64>>>::empty(),
    {
        PointBuilder { coords: CoordList::new(dim), valid: Vec::new(), rows: Ghost(Seq::empty()) }
    }

    /// Add a point.
    pub fn push(&mut self, tuple: [u64; 4])
        requires
            old(self).wf(),
        ensures
            final(self).wf(),
            final(self).dimension() == old(self).dimension(),
            final(self).rows() == old(self).rows().push(
                Some(tuple@.take(old(self).dimension().count())),
            ),
    {
        self.coords.push(tuple);
        self.valid.push(true);
        self.rows = Ghost(self.rows@.push(Some(tuple@.take(self.coords.dimension().count()))));
    }

    /// Add a null.
    pub fn push_null(&mut self)
        requires
            old(self).wf(),
        ensures
            final(self).wf(),
            final(self).dimension() == old(self).dimension(),
            final(self).rows() == old(self).rows().push(None),
    {
        self.coords.push(nan_tuple(self.coords.dim));
        self.valid.push(false);
        self.rows = Ghost(self.rows@.push(None));
    }

    /// Lay out the column.
    pub fn finish(self, metadata: Metadata) -> (r: Column)
        requires
            self.wf(),
        ensures
            are_points(r@, self.dimension(), self.rows()),
            r@.metadata == metadata@,
    {
        let ghost rows = self.rows@;
        let ghost tuples = self.coords.tuples();
        let coords = self.coords.finish();
        let r = Column { body: Body::Point { coords }, validity: Some(self.valid), metadata };
        proof {
            assert(tuples_in(coords@, 0, coords@.len()).len() == tuples.len());
            assert forall|i: int| 0 <= i < rows.len() implies #[trigger] point_at(r@, i)
                == rows[i] by {
                assert(tuples_in(coords@, 0, coords@.len())[i] == tuples[i]);
            }
        }
        r
    }
}

/// The rows of a point column over optional positions in the plane.
pub open spec fn flat_rows(found: Seq<Option<Coord>>) -> Seq<Option<Seq<u64>>> {
    Seq::new(
        found.len(),
        |i: int|
            match found[i] {
                Some(c) => Some(flat(c)),
                None => None,
            },
    )
}

/// Build a point column of the plane.
pub fn point_column(found: &Vec<Option<Coord>>, metadata: Metadata) -> (r: Column)
    ensures
        are_points(r@, Dimension::XY, flat_rows(found@)),
        r@.metadata == metadata@,
{
    let mut builder = PointBuilder::new(Dimension::XY);
    let ghost expected = flat_rows(found@);
    let mut i: usize = 0;
    while i < found.len()
        invariant
            i <= found@.len(),
            expected == flat_rows(found@),
            builder.wf(),
            builder.dimension() == Dimension::XY,
            builder.rows() == expected.take(i as int),
        decreases found@.len() - i,
    {
        match found[i] {
            Some(c) => {
                builder.push(flat_tuple(c));
            },
            None => {
                builder.push_null();
            },
        }
        assert(expected.take(i + 1) =~= expected.take(i as int).push(expected[i as int]));
        i = i + 1;
    }
    assert(expected.take(i as int) =~= expected);
    builder.finish(metadata)
}

// ----------------------------------------------------------------------- lines
/// What a line string column holds at row `i`: the ordinates of its vertices, or nothing for a
/// null.
pub open spec fn line_at(array: ColumnView, i: int) -> Option<Seq<Seq<u64>>> {
    if array.is_null(i) {
        None
    } else {
        Some(
            tuples_in(
                array.body->LineString_coords,
                array.body->LineString_geom_offsets[i] as int,
                array.body->LineString_geom_offsets[i + 1] as int,
            ),
        )
    }
}

/// True when a column is a line string column over the rows, its ordinates kept apart.
pub open spec fn are_lines(
    array: ColumnView,
    dim: Dimension,
    rows: Seq<Option<Seq<Seq<u64>>>>,
) -> bool {
    &&& array.wf()
    &&& array.body is LineString
    &&& array.body->LineString_coords is Separated
    &&& array.body->LineString_coords.dim() == dim
    &&& array.rows() == rows.len()
    &&& forall|i: int| 0 <= i < rows.len() ==> #[trigger] line_at(array, i) == rows[i]
}

/// Builds a line string column.
pub struct LineStringBuilder {
    coords: CoordList,
    offsets: Vec<i32>,
    valid: Vec<bool>,
    rows: Ghost<Seq<Option<Seq<Seq<u64>>>>>,
}

/// The vertices of the rows `0..end`.
pub open spec fn vertex_total(rows: Seq<Option<Seq<Seq<u64>>>>, end: int) -> nat
    decreases end,
{
    if end <= 0 {
        0
    } else {
        vertex_total(rows, end - 1) + match rows[end - 1] {
            Some(line) => line.len(),
            None => 0,
        }
    }
}

/// The count goes by the rows before the end alone, and never steps back.
pub proof fn lemma_vertex_total(
    rows: Seq<Option<Seq<Seq<u64>>>>,
    more: Seq<Option<Seq<Seq<u64>>>>,
    end: int,
)
    requires
        0 <= end <= rows.len(),
        end <= more.len(),
        forall|i: int| 0 <= i < end ==> rows[i] == more[i],
    ensures
        vertex_total(rows, end) == vertex_total(more, end),
    decreases end,
{
    if end > 0 {
        lemma_vertex_total(rows, more, end - 1);
    }
}

impl LineStringBuilder {
    /// The dimension.
    pub closed spec fn dimension(self) -> Dimension {
        self.coords.dimension()
    }

    /// The rows so far.
    pub closed spec fn rows(self) -> Seq<Option<Seq<Seq<u64>>>> {
        self.rows@
    }

    /// The vertices of the row that is being built.
    pub closed spec fn open_row(self) -> Seq<Seq<u64>> {
        self.coords.tuples().skip(self.offsets@.last() as int)
    }

    /// The lists hold the rows, and the vertices of the row that is being built.
    pub closed spec fn wf(self) -> bool {
        let n = self.rows().len();
        &&& self.coords.wf()
        &&& self.coords.tuples().len() <= i32::MAX
        &&& self.offsets@.len() == n + 1
        &&& self.valid@.len() == n
        &&& self.offsets@[0] == 0
        &&& offsets_fit(self.offsets@, self.coords.tuples().len() as int)
        &&& self.offsets@[n as int] == vertex_total(self.rows(), n as int)
        &&& forall|i: int|
            0 <= i < n ==> match #[trigger] self.rows()[i] {
                Some(line) => self.valid@[i] && self.coords.tuples().subrange(
                    self.offsets@[i] as int,
                    self.offsets@[i + 1] as int,
                ) == line,
                None => !self.valid@[i] && self.offsets@[i] == self.offsets@[i + 1],
            }
    }

    /// A builder with no row.
    pub fn new(dim: Dimension) -> (r: LineStringBuilder)
        ensures
            r.wf(),
            r.dimension() == dim,
            r.rows() == Seq::<Option<Seq<Seq<u64>>>>::empty(),
            r.open_row() == Seq::<Seq<u64>>::empty(),
    {
        let mut offsets: Vec<i32> = Vec::new();
        offsets.push(0);
        let r = LineStringBuilder {
            coords: CoordList::new(dim),
            offsets,
            valid: Vec::new(),
            rows: Ghost(Seq::empty()),
        };
        assert(r.open_row() =~= Seq::<Seq<u64>>::empty());
        r
    }

    /// The offsets can count every vertex.
    pub proof fn lemma_counted(self)
        requires
            self.wf(),
        ensures
            vertex_total(self.rows(), self.rows().len() as int) + self.open_row().len() <= i32::MAX,
    {
    }

    /// Add a vertex to the row that is being built. False, and nothing added, where the offsets
    /// could not count it.
    pub fn push_vertex(&mut self, tuple: [u64; 4]) -> (r: bool)
        requires
            old(self).wf(),
        ensures
            final(self).wf(),
            final(self).dimension() == old(self).dimension(),
            final(self).rows() == old(self).rows(),
            r == (vertex_total(old(self).rows(), old(self).rows().len() as int)
                + old(self).open_row().len() < i32::MAX),
            r ==> final(self).open_row() == old(self).open_row().push(
                tuple@.take(old(self).dimension().count()),
            ),
    {
        if self.coords.x.len() >= 0x7fff_ffff {
            return false;
        }
        self.coords.push(tuple);
        proof {
            let before = old(self).coords.tuples();
            let after = self.coords.tuples();
            let last = self.offsets@.last() as int;
            assert(after.skip(last) =~= before.skip(last).push(
                tuple@.take(self.coords.dimension().count()),
            ));
            assert forall|i: int| 0 <= i < self.rows().len() implies match #[trigger] self.rows()[i] {
                Some(line) => self.valid@[i] && after.subrange(
                    self.offsets@[i] as int,
                    self.offsets@[i + 1] as int,
                ) == line,
                None => !self.valid@[i] && self.offsets@[i] == self.offsets@[i + 1],
            } by {
                if self.rows()[i] is Some {
                    assert(self.offsets@[i + 1] <= self.offsets@[self.rows().len() as int]);
                    assert(after.subrange(self.offsets@[i] as int, self.offsets@[i + 1] as int)
                        =~= before.subrange(self.offsets@[i] as int, self.offsets@[i + 1] as int));
                }
            }
        }
        true
    }

    /// Close the row that is being built.
    pub fn end_row(&mut self)
        requires
            old(self).wf(),
        ensures
            final(self).wf(),
            final(self).dimension() == old(self).dimension(),
            final(self).rows() == old(self).rows().push(Some(old(self).open_row())),
            final(self).open_row() == Seq::<Seq<u64>>::empty(),
    {
        let ghost n = self.rows().len() as int;
        let count: usize = self.coords.x.len();
        self.offsets.push(count as i32);
        self.valid.push(true);
        self.rows = Ghost(self.rows@.push(Some(old(self).open_row())));
        proof {
            let tuples = self.coords.tuples();
            lemma_vertex_total(old(self).rows(), self.rows(), n);
            assert(tuples.subrange(old(self).offsets@[n] as int, tuples.len() as int) =~= old(
                self,
            ).open_row());
            assert(self.open_row() =~= Seq::<Seq<u64>>::empty());
            assert forall|i: int| 0 <= i < n implies old(self).rows()[i] == #[trigger] self.rows()[i]
                && self.offsets@[i] == old(self).offsets@[i] && self.offsets@[i + 1] == old(
                self,
            ).offsets@[i + 1] && self.valid@[i] == old(self).valid@[i] by {}
        }
    }

    /// Add a null.
    pub fn push_null(&mut self)
        requires
            old(self).wf(),
            old(self).open_row() == Seq::<Seq<u64>>::empty(),
        ensures
            final(self).wf(),
            final(self).dimension() == old(self).dimension(),
            final(self).rows() == old(self).rows().push(None),
            final(self).open_row() == Seq::<Seq<u64>>::empty(),
    {
        let ghost n = self.rows().len() as int;
        let count: usize = self.coords.x.len();
        self.offsets.push(count as i32);
        self.valid.push(false);
        self.rows = Ghost(self.rows@.push(None));
        proof {
            let tuples = self.coords.tuples();
            assert(old(self).open_row().len() == 0);
            lemma_vertex_total(old(self).rows(), self.rows(), n);
            assert(self.open_row() =~= Seq::<Seq<u64>>::empty());
            assert forall|i: int| 0 <= i < n implies old(self).rows()[i] == #[trigger] self.rows()[i]
                && self.offsets@[i] == old(self).offsets@[i] && self.offsets@[i + 1] == old(
                self,
            ).offsets@[i + 1] && self.valid@[i] == old(self).valid@[i] by {}
        }
    }

    /// Lay out the column.
    pub fn finish(self, metadata: Metadata) -> (r: Column)
        requires
            self.wf(),
        ensures
            are_lines(r@, self.dimension(), self.rows()),
            r@.metadata == metadata@,
    {
        let ghost rows = self.rows@;
        let ghost tuples = self.coords.tuples();
        let ghost offsets = self.offsets@;
        let ghost dim = self.dimension();
        let coords = self.coords.finish();
        let r = Column {
            body: Body::LineString { coords, geom_offsets: self.offsets },
            validity: Some(self.valid),
            metadata,
        };
        proof {
            let all = tuples_in(coords@, 0, coords@.len());
            lemma_len_nonnegative(coords@);
            assert(all.len() == tuples.len());
            assert forall|i: int| 0 <= i < rows.len() implies #[trigger] line_at(r@, i)
                == rows[i] by {
                let start = offsets[i] as int;
                let end = offsets[i + 1] as int;
                assert(offsets[0] <= offsets[i]);
                assert(offsets[i] <= offsets[i + 1]);
                assert(offsets[i + 1] <= offsets[rows.len() as int]);
                assert(tuples_in(coords@, start, end) =~= all.subrange(start, end));
            }
        }
        r
    }
}

// ----------------------------------------------------------------------- plane
/// True when a buffer holds the positions, and no other ordinate.
pub open spec fn is_plane(coords: CoordBufferView, layout: CoordType, points: Seq<Coord>) -> bool {
    &&& coords.wf()
    &&& coords.dim() == Dimension::XY
    &&& coords.coord_type() == layout
    &&& coords.len() == points.len()
    &&& forall|i: int| 0 <= i < points.len() ==> #[trigger] coords.coord(i) == points[i]
}

/// Lay out positions in the plane.
pub fn plane(points: &Vec<Coord>, layout: CoordType) -> (r: CoordBuffer)
    ensures
        is_plane(r@, layout, points@),
{
    match layout {
        CoordType::Separated => CoordBuffer::Separated(separated(points)),
        CoordType::Interleaved => {
            let mut values: Vec<u64> = Vec::new();
            let mut i: usize = 0;
            while i < points.len()
                invariant
                    i <= points@.len(),
                    values@.len() == 2 * i,
                    forall|j: int|
                        0 <= j < i ==> values@[j * 2] == (#[trigger] points@[j]).x && values@[j * 2
                            + 1] == points@[j].y,
                decreases points@.len() - i,
            {
                values.push(points[i].x);
                values.push(points[i].y);
                i = i + 1;
            }
            let r = CoordBuffer::Interleaved(
                InterleavedCoordBuffer { coords: values, dim: Dimension::XY },
            );
            assert forall|j: int| 0 <= j < points@.len() implies #[trigger] r@.coord(j)
                == points@[j] by {
                assert(values@[j * 2] == points@[j].x && values@[j * 2 + 1] == points@[j].y);
            }
            r
        },
    }
}

/// Lay out positions in the plane, one list per axis.
pub fn separated(points: &Vec<Coord>) -> (r: SeparatedCoordBuffer)
    ensures
        is_plane(separated_view(r), CoordType::Separated, points@),
{
    let mut x: Vec<u64> = Vec::new();
    let mut y: Vec<u64> = Vec::new();
    let mut i: usize = 0;
    while i < points.len()
        invariant
            i <= points@.len(),
            x@.len() == i,
            y@.len() == i,
            forall|j: int|
                0 <= j < i ==> #[trigger] x@[j] == points@[j].x && y@[j] == points@[j].y,
        decreases points@.len() - i,
    {
        x.push(points[i].x);
        y.push(points[i].y);
        i = i + 1;
    }
    let r = SeparatedCoordBuffer { buffers: [x, y, Vec::new(), Vec::new()], dim: Dimension::XY };
    assert forall|j: int| 0 <= j < points@.len() implies #[trigger] separated_view(r).coord(j)
        == points@[j] by {
        assert(x@[j] == points@[j].x);
    }
    r
}

// ----------------------------------------------------------------------- boxes
/// True when a column is a box column of the plane with the lower and the upper corner of each
/// row, or nothing for a null. The corners under a null are zeros, never an infinity.
pub open spec fn are_boxes(array: ColumnView, rows: Seq<Option<(Coord, Coord)>>) -> bool {
    &&& array.wf()
    &&& array.body is Rect
    &&& array.body->lower.dim() == Dimension::XY
    &&& array.rows() == rows.len()
    &&& forall|i: int| 0 <= i < rows.len() ==> #[trigger] box_corners(array, i) == rows[i]
    &&& forall|i: int|
        0 <= i < rows.len() && #[trigger] rows[i] is None ==> array.body->lower.coord(i) == (
        Coord { x: number::ZERO, y: number::ZERO }) && array.body->upper.coord(i) == (Coord {
            x: number::ZERO,
            y: number::ZERO,
        })
}

/// The lower and the upper corner of a row of a box column, or nothing for a null.
pub open spec fn box_corners(array: ColumnView, i: int) -> Option<(Coord, Coord)> {
    if array.is_null(i) {
        None
    } else {
        Some((array.body->lower.coord(i), array.body->upper.coord(i)))
    }
}

/// Build a box column. A null row holds zeros.
pub fn box_column(rows: &Vec<Option<(Coord, Coord)>>, metadata: Metadata) -> (r: Column)
    ensures
        are_boxes(r@, rows@),
        r@.metadata == metadata@,
{
    let mut lower: Vec<Coord> = Vec::new();
    let mut upper: Vec<Coord> = Vec::new();
    let mut valid: Vec<bool> = Vec::new();
    let mut i: usize = 0;
    while i < rows.len()
        invariant
            i <= rows@.len(),
            lower@.len() == i,
            upper@.len() == i,
            valid@.len() == i,
            forall|j: int|
                0 <= j < i ==> match #[trigger] rows@[j] {
                    Some((low, high)) => valid@[j] && lower@[j] == low && upper@[j] == high,
                    None => !valid@[j] && lower@[j] == (Coord {
                        x: number::ZERO,
                        y: number::ZERO,
                    }) && upper@[j] == (Coord { x: number::ZERO, y: number::ZERO }),
                },
        decreases rows@.len() - i,
    {
        match rows[i] {
            Some((low, high)) => {
                lower.push(low);
                upper.push(high);
                valid.push(true);
            },
            None => {
                lower.push(Coord { x: number::ZERO, y: number::ZERO });
                upper.push(Coord { x: number::ZERO, y: number::ZERO });
                valid.push(false);
            },
        }
        i = i + 1;
    }
    Column {
        body: Body::Rect { lower: separated(&lower), upper: separated(&upper) },
        validity: Some(valid),
        metadata,
    }
}

} // verus!
