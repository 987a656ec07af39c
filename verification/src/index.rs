//! Spatial indexes.
//!
//! [`BboxGrid`] buckets whole rows by bounding box for a join. The index of the edges of one polygon
//! stands in [`crate::ring`].
//!
//! # A bounding box index for spatial joins
//!
//! A join on `ST_Intersects(a.geom, b.geom)` has no equality key, so it runs as a nested loop:
//! every row of one side against every row of the other. The box prefilter makes one pair cheap,
//! but the pair count is the product of the two row counts.
//!
//! [`BboxGrid`] changes that. It buckets the build side by bounding box. It then answers a probe
//! box with the rows of the cells that overlap.
//!
//! # Which cell a value falls in
//!
//! That is a division of two numbers, which the caller supplies as a closure: of a value, the
//! bounds of the grid on that axis and the number of cells it gives the cell. Its result is cut
//! off at the last cell. Nothing else is asked of the closure, except by the laws, which hold of
//! every closure that keeps the order of numbers.

use vstd::prelude::*;
use crate::bbox::Bbox;
use crate::buckets::{lemma_members_contains, members, Buckets, Span};
use crate::number;

verus! {

// ------------------------------------------------------------------ candidates
/// Candidate row ids for one probe, without duplicates.
///
/// A build row that spans several cells appears in each of them. The stamp array removes the
/// repeat. It clears no set for each probe.
#[derive(Debug)]
pub struct Candidates {
    /// The probe that last found each row.
    stamp: Vec<u32>,
    /// The current probe.
    epoch: u32,
    /// The rows that the current probe found.
    out: Vec<u32>,
}

/// `seen`, and behind it each id of `more` that is not in the list yet.
pub open spec fn fresh(seen: Seq<u32>, more: Seq<u32>) -> Seq<u32>
    decreases more.len(),
{
    if more.len() == 0 {
        seen
    } else {
        let before = fresh(seen, more.drop_last());
        if before.contains(more.last()) {
            before
        } else {
            before.push(more.last())
        }
    }
}

impl Candidates {
    /// The ids found by the current probe.
    pub closed spec fn found(self) -> Seq<u32> {
        self.out@
    }

    /// How many rows there is room for.
    pub closed spec fn room(self) -> int {
        self.stamp@.len() as int
    }

    /// True once a probe has begun.
    pub closed spec fn begun(self) -> bool {
        self.epoch > 0
    }

    /// The stamps tell which ids were found.
    pub closed spec fn wf(self) -> bool {
        &&& forall|i: int| 0 <= i < self.stamp@.len() ==> #[trigger] self.stamp@[i] <= self.epoch
        &&& self.epoch == 0 ==> self.out@.len() == 0
        &&& self.out@.no_duplicates()
        &&& forall|k: int|
            0 <= k < self.out@.len() ==> (#[trigger] self.out@[k]) < self.stamp@.len()
                && self.stamp@[self.out@[k] as int] == self.epoch
        &&& self.epoch > 0 ==> forall|i: int|
            0 <= i < self.stamp@.len() && #[trigger] self.stamp@[i] == self.epoch && i <= u32::MAX
                ==> self.out@.contains(i as u32)
    }

    /// Room for `rows` build-side rows.
    pub fn new(rows: usize) -> (r: Candidates)
        ensures
            r.wf(),
            r.room() == rows,
            r.found() == Seq::<u32>::empty(),
            !r.begun(),
    {
        let r = Candidates { stamp: vec![0; rows], epoch: 0, out: Vec::new() };
        assert(r.out@ =~= Seq::<u32>::empty());
        r
    }

    /// Start a new probe. The buffer that the ids land in is empty again.
    pub fn begin(&mut self)
        requires
            old(self).wf(),
        ensures
            final(self).wf(),
            final(self).begun(),
            final(self).room() == old(self).room(),
            final(self).found() == Seq::<u32>::empty(),
    {
        // A wrap around would let a stale stamp match after 4 billion probes. Clear instead.
        match self.epoch.checked_add(1) {
            Some(next) => {
                self.epoch = next;
            },
            None => {
                let rows: usize = self.stamp.len();
                let mut i: usize = 0;
                while i < rows
                    invariant
                        i <= rows,
                        self.stamp@.len() == rows,
                        rows == old(self).stamp@.len(),
                        forall|j: int| 0 <= j < i ==> #[trigger] self.stamp@[j] == 0,
                    decreases rows - i,
                {
                    self.stamp[i] = 0;
                    i = i + 1;
                }
                self.epoch = 1;
            },
        }
        self.out.clear();
        assert(self.out@ =~= Seq::<u32>::empty());
    }

    /// Add an id, unless the current probe found it already.
    pub fn push(&mut self, id: u32)
        requires
            old(self).wf(),
            old(self).begun(),
            id < old(self).room(),
        ensures
            final(self).wf(),
            final(self).begun(),
            final(self).room() == old(self).room(),
            final(self).found() == if old(self).found().contains(id) {
                old(self).found()
            } else {
                old(self).found().push(id)
            },
    {
        let at: usize = id as usize;
        if self.stamp[at] != self.epoch {
            let ghost before = *self;
            self.stamp[at] = self.epoch;
            self.out.push(id);
            proof {
                if before.out@.contains(id) {
                    let k = choose|k: int| 0 <= k < before.out@.len() && before.out@[k] == id;
                    assert(before.stamp@[before.out@[k] as int] == before.epoch);
                }
                assert forall|i: int|
                    0 <= i < self.stamp@.len() && #[trigger] self.stamp@[i] == self.epoch && i
                        <= u32::MAX implies self.out@.contains(i as u32) by {
                    if i == id {
                        assert(self.out@[before.out@.len() as int] == id);
                    } else {
                        assert(before.stamp@[i] == before.epoch);
                        let k = choose|k: int|
                            0 <= k < before.out@.len() && before.out@[k] == i as u32;
                        assert(self.out@[k] == i as u32);
                    }
                }
                assert forall|k: int| 0 <= k < self.out@.len() implies (#[trigger] self.out@[k])
                    < self.stamp@.len() && self.stamp@[self.out@[k] as int] == self.epoch by {
                    if k < before.out@.len() {
                        assert(self.out@[k] == before.out@[k]);
                    }
                }
            }
        } else {
            proof {
                assert(self.stamp@[id as int] == self.epoch);
            }
        }
    }

    /// The ids found by the last query.
    pub fn ids(&self) -> (r: &[u32])
        ensures
            r@ == self.found(),
    {
        self.out.as_slice()
    }
}

/// The merged list holds what the two lists held, each id once.
pub proof fn lemma_fresh(seen: Seq<u32>, more: Seq<u32>)
    requires
        seen.no_duplicates(),
    ensures
        fresh(seen, more).no_duplicates(),
        forall|id: u32| #[trigger]
            fresh(seen, more).contains(id) <==> seen.contains(id) || more.contains(id),
    decreases more.len(),
{
    if more.len() > 0 {
        let front = more.drop_last();
        let last = more.last();
        let before = fresh(seen, front);
        lemma_fresh(seen, front);
        let all = fresh(seen, more);
        assert(more[more.len() - 1] == last);
        assert forall|id: u32| #[trigger] all.contains(id) <==> seen.contains(id)
            || more.contains(id) by {
            assert(before.contains(id) <==> seen.contains(id) || front.contains(id));
            if front.contains(id) {
                let k = choose|k: int| 0 <= k < front.len() && front[k] == id;
                assert(more[k] == id);
            }
            if more.contains(id) && id != last {
                let k = choose|k: int| 0 <= k < more.len() && more[k] == id;
                assert(front[k] == id);
            }
            if !before.contains(last) {
                assert(all[before.len() as int] == last);
                if before.contains(id) {
                    let k = choose|k: int| 0 <= k < before.len() && before[k] == id;
                    assert(all[k] == id);
                }
            }
        }
    }
}

/// Merging in two steps.
pub proof fn lemma_fresh_concat(seen: Seq<u32>, a: Seq<u32>, b: Seq<u32>)
    ensures
        fresh(seen, a + b) == fresh(fresh(seen, a), b),
    decreases b.len(),
{
    if b.len() == 0 {
        assert(a + b =~= a);
    } else {
        lemma_fresh_concat(seen, a, b.drop_last());
        assert((a + b).drop_last() =~= a + b.drop_last());
    }
}

// ------------------------------------------------------------------- the cells
/// What the library asks of the closure that picks a cell: that it can be called.
pub open spec fn picks_cells<F: Fn(u64, u64, u64, usize) -> usize>(cell: F) -> bool {
    forall|value: u64, low: u64, high: u64, cells: usize| #[trigger]
        cell.requires((value, low, high, cells))
}

/// True when `at` is the cell of `value`: what the closure gave, cut off at the last cell.
pub open spec fn is_cell<F: Fn(u64, u64, u64, usize) -> usize>(
    cell: F,
    value: u64,
    low: u64,
    high: u64,
    cells: usize,
    at: usize,
) -> bool {
    exists|raw: usize| #[trigger]
        cell.ensures((value, low, high, cells), raw) && at == if raw < cells {
            raw as int
        } else {
            cells - 1
        }
}

/// True when the closure keeps the order of numbers between two bounds.
pub open spec fn keeps_order<F: Fn(u64, u64, u64, usize) -> usize>(
    cell: F,
    low: u64,
    high: u64,
) -> bool {
    forall|a: u64, b: u64, cells: usize, p: usize, q: usize|
        number::is_le(a, b) && #[trigger] cell.ensures((a, low, high, cells), p)
            && #[trigger] cell.ensures((b, low, high, cells), q) ==> p <= q
}

/// The cell of a value, cut off at the last cell.
pub fn cell_of<F: Fn(u64, u64, u64, usize) -> usize>(
    cell: &F,
    value: u64,
    low: u64,
    high: u64,
    cells: usize,
) -> (at: usize)
    requires
        picks_cells(*cell),
        cells > 0,
    ensures
        at < cells,
        is_cell(*cell, value, low, high, cells, at),
{
    let raw: usize = cell(value, low, high, cells);
    if raw < cells {
        raw
    } else {
        cells - 1
    }
}

// -------------------------------------------------------------------- the grid
/// A uniform grid over the bounding boxes of one side of a join.
pub struct BboxGrid {
    /// Extent of the whole build side.
    extent: Bbox,
    cols: usize,
    rows: usize,
    /// Row ids, grouped by cell.
    buckets: Buckets,
    /// Rows with a box. The others match nothing, so they are indexed nowhere.
    indexed: usize,
}

/// The box around every box that is not void.
pub open spec fn extent_of(boxes: Seq<Bbox>) -> Bbox
    decreases boxes.len(),
{
    if boxes.len() == 0 {
        Bbox::blank()
    } else {
        let before = extent_of(boxes.drop_last());
        if boxes.last().is_void() {
            before
        } else {
            before.joined(boxes.last())
        }
    }
}

/// How many boxes are not void.
pub open spec fn solid_count(boxes: Seq<Bbox>) -> nat
    decreases boxes.len(),
{
    if boxes.len() == 0 {
        0
    } else {
        solid_count(boxes.drop_last()) + if boxes.last().is_void() {
            0nat
        } else {
            1nat
        }
    }
}

/// The side of the smallest square, of one cell at least, that has a cell for each row.
pub open spec fn is_side(rows: int, side: int) -> bool {
    side >= 1 && rows <= side * side && (side == 1 || (side - 1) * (side - 1) < rows)
}

/// The members of the cells `c0..end` of one row of cells, cell by cell.
pub open spec fn row_sweep(
    spans: Seq<Option<Span>>,
    cols: int,
    row: int,
    c0: int,
    end: int,
) -> Seq<u32>
    decreases end - c0,
{
    if end <= c0 {
        Seq::empty()
    } else {
        row_sweep(spans, cols, row, c0, end - 1) + members(spans, cols, row * cols + (end - 1))
    }
}

/// The members of the cells of a span, row by row, up to row `end`.
pub open spec fn sweep(spans: Seq<Option<Span>>, cols: int, span: Span, end: int) -> Seq<u32>
    decreases end - span.r0,
{
    if end <= span.r0 {
        Seq::empty()
    } else {
        sweep(spans, cols, span, end - 1) + row_sweep(
            spans,
            cols,
            end - 1,
            span.c0 as int,
            span.c1 + 1,
        )
    }
}

/// The side of the grid over `rows` rows.
fn grid_side(rows: usize) -> (side: usize)
    requires
        rows <= u32::MAX,
    ensures
        is_side(rows as int, side as int),
        side <= 65536,
{
    let wanted: u64 = rows as u64;
    let mut side: u64 = 1;
    while side * side < wanted
        invariant
            1 <= side <= 65536,
            wanted == rows <= u32::MAX,
            side == 1 || (side - 1) * (side - 1) < wanted,
            side * side <= 65536 * 65536,
        decreases 65536 - side,
    {
        proof {
            assert(side < 65536) by (nonlinear_arith)
                requires
                    side * side < wanted,
                    wanted <= 0xffff_ffff,
                    1 <= side <= 65536,
            ;
            assert((side + 1) * (side + 1) <= 65536 * 65536) by (nonlinear_arith)
                requires
                    1 <= side < 65536,
            ;
        }
        side = side + 1;
    }
    side as usize
}

impl BboxGrid {
    /// The extent of the boxes.
    pub closed spec fn bounds(self) -> Bbox {
        self.extent
    }

    /// The number of cells on a side.
    pub closed spec fn side(self) -> usize {
        self.cols
    }

    /// The span of every row, by row id. A void box has none.
    pub closed spec fn spans(self) -> Seq<Option<Span>> {
        self.buckets.entered()
    }

    /// How many rows the index holds.
    pub closed spec fn count(self) -> int {
        self.indexed as int
    }

    /// The grid is square and its cells hold what the spans say.
    pub closed spec fn wf(self) -> bool {
        &&& self.buckets.wf()
        &&& self.cols == self.rows
        &&& 1 <= self.cols <= 65536
        &&& self.buckets.width() == self.cols
        &&& self.buckets.cells() == self.cols * self.rows
        &&& self.buckets.entered().len() <= u32::MAX
    }

    /// True when `span` is the cell range of `bbox`.
    pub open spec fn is_span<F: Fn(u64, u64, u64, usize) -> usize>(
        self,
        cell: F,
        bbox: Bbox,
        span: Span,
    ) -> bool {
        let e = self.bounds();
        &&& is_cell(cell, bbox.minx, e.minx, e.maxx, self.side(), span.c0)
        &&& is_cell(cell, bbox.miny, e.miny, e.maxy, self.side(), span.r0)
        &&& is_cell(cell, bbox.maxx, e.minx, e.maxx, self.side(), span.c1)
        &&& is_cell(cell, bbox.maxy, e.miny, e.maxy, self.side(), span.r1)
    }

    /// True when the grid was built over `boxes`: its extent and its size are theirs, each solid
    /// box has its span, and a void box has none.
    pub open spec fn is_over<F: Fn(u64, u64, u64, usize) -> usize>(
        self,
        cell: F,
        boxes: Seq<Bbox>,
    ) -> bool {
        &&& self.bounds() == extent_of(boxes)
        &&& self.count() == solid_count(boxes)
        &&& is_side(solid_count(boxes) as int, self.side() as int)
        &&& self.spans().len() == boxes.len()
        &&& forall|i: int|
            0 <= i < boxes.len() ==> match #[trigger] self.spans()[i] {
                Some(span) => !boxes[i].is_void() && self.is_span(cell, boxes[i], span),
                None => boxes[i].is_void(),
            }
    }

    /// Build an index over `boxes`.
    ///
    /// An empty box takes no cell. Such a row intersects nothing, so no probe should reach it.
    pub fn build<F: Fn(u64, u64, u64, usize) -> usize>(boxes: &[Bbox], cell: &F) -> (r: BboxGrid)
        requires
            boxes@.len() <= u32::MAX,
            picks_cells(*cell),
        ensures
            r.wf(),
            r.is_over(*cell, boxes@),
    {
        let total: usize = boxes.len();
        let mut extent = Bbox::empty();
        let mut indexed: usize = 0;
        let mut i: usize = 0;
        while i < total
            invariant
                i <= total,
                total == boxes@.len(),
                extent == extent_of(boxes@.take(i as int)),
                indexed == solid_count(boxes@.take(i as int)),
                indexed <= i,
            decreases total - i,
        {
            let bbox = boxes[i];
            if !bbox.is_empty() {
                indexed = indexed + 1;
                extent.merge(&bbox);
            }
            proof {
                assert(boxes@.take(i + 1).drop_last() =~= boxes@.take(i as int));
            }
            i = i + 1;
        }
        assert(boxes@.take(total as int) =~= boxes@);
        // One cell per row, laid out square. That keeps the average occupancy near one.
        let side: usize = grid_side(indexed);
        let mut spans: Vec<Option<Span>> = Vec::new();
        let mut i: usize = 0;
        while i < total
            invariant
                i <= total,
                total == boxes@.len(),
                picks_cells(*cell),
                1 <= side <= 65536,
                spans@.len() == i,
                forall|j: int|
                    0 <= j < i ==> match #[trigger] spans@[j] {
                        Some(span) => {
                            &&& !boxes@[j].is_void()
                            &&& span.fits(side as int, side as int)
                            &&& is_cell(
                                *cell,
                                boxes@[j].minx,
                                extent.minx,
                                extent.maxx,
                                side,
                                span.c0,
                            )
                            &&& is_cell(
                                *cell,
                                boxes@[j].miny,
                                extent.miny,
                                extent.maxy,
                                side,
                                span.r0,
                            )
                            &&& is_cell(
                                *cell,
                                boxes@[j].maxx,
                                extent.minx,
                                extent.maxx,
                                side,
                                span.c1,
                            )
                            &&& is_cell(
                                *cell,
                                boxes@[j].maxy,
                                extent.miny,
                                extent.maxy,
                                side,
                                span.r1,
                            )
                        },
                        None => boxes@[j].is_void(),
                    },
            decreases total - i,
        {
            let bbox = boxes[i];
            if bbox.is_empty() {
                spans.push(None);
            } else {
                let span = Span {
                    c0: cell_of(cell, bbox.minx, extent.minx, extent.maxx, side),
                    r0: cell_of(cell, bbox.miny, extent.miny, extent.maxy, side),
                    c1: cell_of(cell, bbox.maxx, extent.minx, extent.maxx, side),
                    r1: cell_of(cell, bbox.maxy, extent.miny, extent.maxy, side),
                };
                spans.push(Some(span));
            }
            i = i + 1;
        }
        proof {
            assert(side * side <= 65536 * 65536) by (nonlinear_arith)
                requires
                    1 <= side <= 65536,
            ;
        }
        let buckets = Buckets::build(&spans, side, side);
        BboxGrid { extent, cols: side, rows: side, buckets, indexed }
    }

    /// How many rows the index holds. An empty box is not one of them.
    pub fn len(&self) -> (r: usize)
        ensures
            r == self.count(),
    {
        self.indexed
    }

    /// True when no row was indexed.
    pub fn is_empty(&self) -> (r: bool)
        ensures
            r == (self.count() == 0),
    {
        self.indexed == 0
    }

    /// The inclusive cell range a box covers, clamped to the grid.
    fn cell_span<F: Fn(u64, u64, u64, usize) -> usize>(&self, cell: &F, bbox: &Bbox) -> (span: Span)
        requires
            self.wf(),
            picks_cells(*cell),
        ensures
            self.is_span(*cell, *bbox, span),
            span.fits(self.side() as int, self.side() as int),
    {
        Span {
            c0: cell_of(cell, bbox.minx, self.extent.minx, self.extent.maxx, self.cols),
            r0: cell_of(cell, bbox.miny, self.extent.miny, self.extent.maxy, self.rows),
            c1: cell_of(cell, bbox.maxx, self.extent.minx, self.extent.maxx, self.cols),
            r1: cell_of(cell, bbox.maxy, self.extent.miny, self.extent.maxy, self.rows),
        }
    }

    /// What a query finds: nothing for a void probe or an empty grid, else the members of the
    /// cells of the probe, row of cells by row of cells, each once.
    pub open spec fn is_answer<F: Fn(u64, u64, u64, usize) -> usize>(
        self,
        cell: F,
        probe: Bbox,
        found: Seq<u32>,
    ) -> bool {
        if self.count() == 0 || probe.is_void() {
            found == Seq::<u32>::empty()
        } else {
            exists|span: Span| #[trigger]
                self.is_span(cell, probe, span) && found == fresh(
                    Seq::empty(),
                    sweep(self.spans(), self.side() as int, span, span.r1 + 1),
                )
        }
    }

    /// Collect every build row whose cell overlaps `probe`.
    ///
    /// The result is a superset of the true matches. The caller still runs the exact test.
    pub fn query<F: Fn(u64, u64, u64, usize) -> usize>(
        &self,
        probe: &Bbox,
        cell: &F,
        into: &mut Candidates,
    )
        requires
            self.wf(),
            picks_cells(*cell),
            old(into).wf(),
            self.spans().len() <= old(into).room(),
        ensures
            final(into).wf(),
            final(into).room() == old(into).room(),
            self.is_answer(*cell, *probe, final(into).found()),
    {
        into.begin();
        if self.indexed == 0 || probe.is_empty() {
            return ;
        }
        let span = self.cell_span(cell, probe);
        let ghost spans = self.spans();
        let ghost w = self.cols as int;
        let mut row: usize = span.r0;
        while row <= span.r1
            invariant
                self.wf(),
                spans == self.spans(),
                w == self.cols,
                span.fits(w, w),
                row >= span.r0,
                row == span.r0 || row <= span.r1 + 1,
                into.wf(),
                into.begun(),
                into.room() == old(into).room(),
                spans.len() <= into.room(),
                into.found() == fresh(Seq::empty(), sweep(spans, w, span, row as int)),
            decreases span.r1 + 1 - row,
        {
            proof {
                assert(row * w + w <= w * w) by (nonlinear_arith)
                    requires
                        0 <= row < w,
                ;
                assert(w * w <= 65536 * 65536) by (nonlinear_arith)
                    requires
                        1 <= w <= 65536,
                ;
            }
            let base: u64 = row as u64 * self.cols as u64;
            let ghost above = sweep(spans, w, span, row as int);
            let mut col: usize = span.c0;
            proof {
                assert(above + row_sweep(spans, w, row as int, span.c0 as int, col as int)
                    =~= above);
            }
            while col <= span.c1
                invariant
                    self.wf(),
                    spans == self.spans(),
                    w == self.cols,
                    span.fits(w, w),
                    span.r0 <= row <= span.r1,
                    col >= span.c0,
                    col == span.c0 || col <= span.c1 + 1,
                    base == row * w,
                    row * w + w <= w * w <= 65536 * 65536,
                    into.wf(),
                    into.begun(),
                    into.room() == old(into).room(),
                    spans.len() <= into.room(),
                    into.found() == fresh(
                        Seq::empty(),
                        above + row_sweep(spans, w, row as int, span.c0 as int, col as int),
                    ),
                decreases span.c1 + 1 - col,
            {
                let cells: usize = self.buckets.len();
                assert(row * w + col < cells);
                let at: usize = base as usize + col;
                let run = self.buckets.run(at);
                let ghost list = members(spans, w, at as int);
                let ghost before = above + row_sweep(
                    spans,
                    w,
                    row as int,
                    span.c0 as int,
                    col as int,
                );
                proof {
                    assert(list.take(0) =~= Seq::<u32>::empty());
                    assert(before + list.take(0) =~= before);
                }
                let mut k: usize = 0;
                while k < run.len()
                    invariant
                        k <= run@.len(),
                        run@ == list,
                        spans.len() <= u32::MAX,
                        list == members(spans, w, at as int),
                        into.wf(),
                        into.begun(),
                        into.room() == old(into).room(),
                        spans.len() <= into.room(),
                        into.found() == fresh(Seq::empty(), before + list.take(k as int)),
                    decreases run@.len() - k,
                {
                    let id: u32 = run[k];
                    proof {
                        lemma_members_contains(spans, w, at as int, id);
                        assert(list[k as int] == id);
                        assert((before + list.take(k + 1)).drop_last() =~= before + list.take(
                            k as int,
                        ));
                    }
                    into.push(id);
                    k = k + 1;
                }
                proof {
                    assert(list.take(k as int) =~= list);
                    assert(before + list =~= above + row_sweep(
                        spans,
                        w,
                        row as int,
                        span.c0 as int,
                        col + 1,
                    ));
                }
                col = col + 1;
            }
            proof {
                if span.c0 > span.c1 {
                    assert(row_sweep(spans, w, row as int, span.c0 as int, span.c1 + 1)
                        =~= row_sweep(spans, w, row as int, span.c0 as int, col as int));
                }
            }
            row = row + 1;
        }
        proof {
            if span.r0 > span.r1 {
                assert(sweep(spans, w, span, span.r1 + 1) =~= sweep(spans, w, span, row as int));
            }
            assert(self.is_span(*cell, *probe, span));
        }
    }
}

// ------------------------------------------------------------ laws of the grid
/// A closure that keeps order still does so after the cut at the last cell.
pub proof fn lemma_cells_ordered<F: Fn(u64, u64, u64, usize) -> usize>(
    cell: F,
    a: u64,
    b: u64,
    low: u64,
    high: u64,
    cells: usize,
    p: usize,
    q: usize,
)
    requires
        keeps_order(cell, low, high),
        number::is_le(a, b),
        is_cell(cell, a, low, high, cells, p),
        is_cell(cell, b, low, high, cells, q),
    ensures
        p <= q,
{
    let r = choose|raw: usize| #[trigger]
        cell.ensures((a, low, high, cells), raw) && p == if raw < cells {
            raw as int
        } else {
            cells - 1
        };
    let s = choose|raw: usize| #[trigger]
        cell.ensures((b, low, high, cells), raw) && q == if raw < cells {
            raw as int
        } else {
            cells - 1
        };
    assert(r <= s);
}

/// A member of a cell in the row is in the sweep of the row.
proof fn lemma_row_sweep_holds(
    spans: Seq<Option<Span>>,
    cols: int,
    row: int,
    c0: int,
    end: int,
    col: int,
    id: u32,
)
    requires
        c0 <= col < end,
        members(spans, cols, row * cols + col).contains(id),
    ensures
        row_sweep(spans, cols, row, c0, end).contains(id),
    decreases end - c0,
{
    let before = row_sweep(spans, cols, row, c0, end - 1);
    let last = members(spans, cols, row * cols + (end - 1));
    let all = before + last;
    assert(all == row_sweep(spans, cols, row, c0, end));
    if col < end - 1 {
        lemma_row_sweep_holds(spans, cols, row, c0, end - 1, col, id);
        let k = choose|k: int| 0 <= k < before.len() && before[k] == id;
        assert(all[k] == id);
    } else {
        let k = choose|k: int| 0 <= k < last.len() && last[k] == id;
        assert(all[before.len() + k] == id);
    }
}

/// A member of a cell of the span is in the sweep of the span.
proof fn lemma_sweep_holds(
    spans: Seq<Option<Span>>,
    cols: int,
    span: Span,
    end: int,
    row: int,
    col: int,
    id: u32,
)
    requires
        span.r0 <= row < end,
        span.c0 <= col <= span.c1,
        members(spans, cols, row * cols + col).contains(id),
    ensures
        sweep(spans, cols, span, end).contains(id),
    decreases end - span.r0,
{
    let before = sweep(spans, cols, span, end - 1);
    let last = row_sweep(spans, cols, end - 1, span.c0 as int, span.c1 + 1);
    let all = before + last;
    assert(all == sweep(spans, cols, span, end));
    if row < end - 1 {
        lemma_sweep_holds(spans, cols, span, end - 1, row, col, id);
        let k = choose|k: int| 0 <= k < before.len() && before[k] == id;
        assert(all[k] == id);
    } else {
        lemma_row_sweep_holds(spans, cols, row, span.c0 as int, span.c1 + 1, col, id);
        let k = choose|k: int| 0 <= k < last.len() && last[k] == id;
        assert(all[before.len() + k] == id);
    }
}

/// A row sweep holds only ids that have a span.
proof fn lemma_row_sweep_only(
    spans: Seq<Option<Span>>,
    cols: int,
    row: int,
    c0: int,
    end: int,
    id: u32,
)
    requires
        spans.len() <= u32::MAX,
        row_sweep(spans, cols, row, c0, end).contains(id),
    ensures
        id < spans.len(),
        spans[id as int] is Some,
    decreases end - c0,
{
    if end > c0 {
        let before = row_sweep(spans, cols, row, c0, end - 1);
        let last = members(spans, cols, row * cols + (end - 1));
        let all = before + last;
        let k = choose|k: int| 0 <= k < all.len() && all[k] == id;
        if k < before.len() {
            assert(before[k] == id);
            lemma_row_sweep_only(spans, cols, row, c0, end - 1, id);
        } else {
            assert(last[k - before.len()] == id);
            lemma_members_contains(spans, cols, row * cols + (end - 1), id);
        }
    }
}

/// A sweep holds only ids that have a span.
proof fn lemma_sweep_only(spans: Seq<Option<Span>>, cols: int, span: Span, end: int, id: u32)
    requires
        spans.len() <= u32::MAX,
        sweep(spans, cols, span, end).contains(id),
    ensures
        id < spans.len(),
        spans[id as int] is Some,
    decreases end - span.r0,
{
    if end > span.r0 {
        let before = sweep(spans, cols, span, end - 1);
        let last = row_sweep(spans, cols, end - 1, span.c0 as int, span.c1 + 1);
        let all = before + last;
        let k = choose|k: int| 0 <= k < all.len() && all[k] == id;
        if k < before.len() {
            assert(before[k] == id);
            lemma_sweep_only(spans, cols, span, end - 1, id);
        } else {
            assert(last[k - before.len()] == id);
            lemma_row_sweep_only(spans, cols, end - 1, span.c0 as int, span.c1 + 1, id);
        }
    }
}

/// A list with a solid box counts at least one.
proof fn lemma_solid_count(boxes: Seq<Bbox>, id: int)
    requires
        0 <= id < boxes.len(),
        !boxes[id].is_void(),
    ensures
        solid_count(boxes) > 0,
    decreases boxes.len(),
{
    if id < boxes.len() - 1 {
        lemma_solid_count(boxes.drop_last(), id);
    }
}

/// The index never drops a true overlap.
///
/// Every row whose box overlaps the probe is among the candidates, for every closure that keeps
/// the order of numbers between the bounds of the grid. Neither box may be the wrong way round in y.
pub proof fn law_every_overlap_is_a_candidate<F: Fn(u64, u64, u64, usize) -> usize>(
    cell: F,
    grid: BboxGrid,
    boxes: Seq<Bbox>,
    probe: Bbox,
    found: Seq<u32>,
    id: int,
)
    requires
        keeps_order(cell, grid.bounds().minx, grid.bounds().maxx),
        keeps_order(cell, grid.bounds().miny, grid.bounds().maxy),
        boxes.len() <= u32::MAX,
        grid.is_over(cell, boxes),
        grid.is_answer(cell, probe, found),
        0 <= id < boxes.len(),
        number::is_le(boxes[id].miny, boxes[id].maxy),
        number::is_le(probe.miny, probe.maxy),
        boxes[id].meets(probe),
    ensures
        found.contains(id as u32),
{
    lemma_solid_count(boxes, id);
    let b = boxes[id];
    let e = grid.bounds();
    let side = grid.side();
    let w = side as int;
    let own = grid.spans()[id]->0;
    assert(grid.is_span(cell, b, own));
    let span = choose|span: Span| #[trigger]
        grid.is_span(cell, probe, span) && found == fresh(
            Seq::empty(),
            sweep(grid.spans(), w, span, span.r1 + 1),
        );
    lemma_cells_ordered(cell, b.minx, b.maxx, e.minx, e.maxx, side, own.c0, own.c1);
    lemma_cells_ordered(cell, b.miny, b.maxy, e.miny, e.maxy, side, own.r0, own.r1);
    lemma_cells_ordered(cell, probe.minx, probe.maxx, e.minx, e.maxx, side, span.c0, span.c1);
    lemma_cells_ordered(cell, probe.miny, probe.maxy, e.miny, e.maxy, side, span.r0, span.r1);
    lemma_cells_ordered(cell, b.minx, probe.maxx, e.minx, e.maxx, side, own.c0, span.c1);
    lemma_cells_ordered(cell, probe.minx, b.maxx, e.minx, e.maxx, side, span.c0, own.c1);
    lemma_cells_ordered(cell, b.miny, probe.maxy, e.miny, e.maxy, side, own.r0, span.r1);
    lemma_cells_ordered(cell, probe.miny, b.maxy, e.miny, e.maxy, side, span.r0, own.r1);
    let col = if own.c0 > span.c0 {
        own.c0 as int
    } else {
        span.c0 as int
    };
    let row = if own.r0 > span.r0 {
        own.r0 as int
    } else {
        span.r0 as int
    };
    assert(0 <= col < w);
    vstd::arithmetic::div_mod::lemma_fundamental_div_mod_converse(row * w + col, w, row, col);
    assert(own.covers(w, row * w + col));
    lemma_members_contains(grid.spans(), w, row * w + col, id as u32);
    lemma_sweep_holds(grid.spans(), w, span, span.r1 + 1, row, col, id as u32);
    lemma_fresh(Seq::empty(), sweep(grid.spans(), w, span, span.r1 + 1));
}

/// A row with a void box is never a candidate, and every candidate is a row.
pub proof fn law_an_empty_box_is_never_a_candidate<F: Fn(u64, u64, u64, usize) -> usize>(
    cell: F,
    grid: BboxGrid,
    boxes: Seq<Bbox>,
    probe: Bbox,
    found: Seq<u32>,
    id: u32,
)
    requires
        boxes.len() <= u32::MAX,
        grid.is_over(cell, boxes),
        grid.is_answer(cell, probe, found),
        found.contains(id),
    ensures
        id < boxes.len(),
        !boxes[id as int].is_void(),
{
    let w = grid.side() as int;
    let span = choose|span: Span| #[trigger]
        grid.is_span(cell, probe, span) && found == fresh(
            Seq::empty(),
            sweep(grid.spans(), w, span, span.r1 + 1),
        );
    lemma_fresh(Seq::empty(), sweep(grid.spans(), w, span, span.r1 + 1));
    lemma_sweep_only(grid.spans(), w, span, span.r1 + 1, id);
    assert(grid.spans()[id as int] is Some);
}

/// A row that spans many cells is reported once.
pub proof fn law_a_candidate_is_reported_once<F: Fn(u64, u64, u64, usize) -> usize>(
    cell: F,
    grid: BboxGrid,
    probe: Bbox,
    found: Seq<u32>,
)
    requires
        grid.is_answer(cell, probe, found),
    ensures
        found.no_duplicates(),
{
    if grid.count() != 0 && !probe.is_void() {
        let w = grid.side() as int;
        let span = choose|span: Span| #[trigger]
            grid.is_span(cell, probe, span) && found == fresh(
                Seq::empty(),
                sweep(grid.spans(), w, span, span.r1 + 1),
            );
        lemma_fresh(Seq::empty(), sweep(grid.spans(), w, span, span.r1 + 1));
    }
}

} // verus!
