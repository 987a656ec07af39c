//! Items grouped by the grid cells that they cover.
//!
//! A counting sort lays the item ids out cell by cell in one flat list. Two passes size the list
//! exactly once. [`crate::index`] uses it for the boxes of a column and for the edges of a ring.

use vstd::prelude::*;
use vstd::arithmetic::div_mod::lemma_fundamental_div_mod_converse;

verus! {

/// The inclusive cell range that an item covers.
#[derive(Debug, Clone, Copy, PartialEq, Eq, Structural)]
pub struct Span {
    /// The first column.
    pub c0: usize,
    /// The first row.
    pub r0: usize,
    /// The last column.
    pub c1: usize,
    /// The last row.
    pub r1: usize,
}

impl Span {
    /// True when the span covers the cell. Cells are numbered row by row.
    pub open spec fn covers(self, cols: int, cell: int) -> bool {
        self.c0 <= cell % cols <= self.c1 && self.r0 <= cell / cols <= self.r1
    }

    /// True when the span ends inside the grid.
    pub open spec fn fits(self, cols: int, rows: int) -> bool {
        self.c1 < cols && self.r1 < rows
    }
}

/// The ids of the items that cover a cell, in increasing order.
pub open spec fn members(spans: Seq<Option<Span>>, cols: int, cell: int) -> Seq<u32>
    decreases spans.len(),
{
    if spans.len() == 0 {
        Seq::empty()
    } else {
        let before = members(spans.drop_last(), cols, cell);
        match spans.last() {
            Some(span) => if span.covers(cols, cell) {
                before.push((spans.len() - 1) as u32)
            } else {
                before
            },
            None => before,
        }
    }
}

/// How many ids the cells before `cell` hold together.
pub open spec fn offset(spans: Seq<Option<Span>>, cols: int, cell: int) -> int
    decreases cell,
{
    if cell <= 0 {
        0
    } else {
        offset(spans, cols, cell - 1) + members(spans, cols, cell - 1).len()
    }
}

/// True when `list` stands in `ids` from `start` on.
pub open spec fn laid(ids: Seq<u32>, start: int, list: Seq<u32>) -> bool {
    forall|k: int| 0 <= k < list.len() ==> ids[start + k] == #[trigger] list[k]
}

/// The members of a cell while item `id` is being entered: the cells before (`row`, `col`) hold
/// it already.
spec fn entering(
    spans: Seq<Option<Span>>,
    cols: int,
    id: int,
    span: Span,
    row: int,
    col: int,
    cell: int,
) -> Seq<u32> {
    let before = members(spans.take(id), cols, cell);
    if span.covers(cols, cell) && (cell / cols < row || (cell / cols == row && cell % cols < col)) {
        before.push(id as u32)
    } else {
        before
    }
}

/// A cell holds an id if and only if the item covers the cell.
pub proof fn lemma_members_contains(spans: Seq<Option<Span>>, cols: int, cell: int, id: u32)
    requires
        spans.len() <= u32::MAX,
    ensures
        members(spans, cols, cell).contains(id) <==> id < spans.len() && spans[id as int] is Some
            && spans[id as int]->0.covers(cols, cell),
    decreases spans.len(),
{
    if spans.len() > 0 {
        let front = spans.drop_last();
        let before = members(front, cols, cell);
        let all = members(spans, cols, cell);
        lemma_members_contains(front, cols, cell, id);
        if all != before {
            let last = (spans.len() - 1) as u32;
            assert(all == before.push(last));
            assert(all[before.len() as int] == last);
            if before.contains(id) {
                let k = choose|k: int| 0 <= k < before.len() && before[k] == id;
                assert(all[k] == id);
            }
        }
    }
}

/// Every id in a cell names an item.
pub proof fn lemma_members_bounded(spans: Seq<Option<Span>>, cols: int, cell: int)
    requires
        spans.len() <= u32::MAX,
    ensures
        members(spans, cols, cell).len() <= spans.len(),
        forall|k: int|
            0 <= k < members(spans, cols, cell).len() ==> #[trigger] members(
                spans,
                cols,
                cell,
            )[k] < spans.len(),
    decreases spans.len(),
{
    if spans.len() > 0 {
        lemma_members_bounded(spans.drop_last(), cols, cell);
    }
}

/// An earlier state of a cell is a prefix of a later one.
proof fn lemma_members_grow(spans: Seq<Option<Span>>, cols: int, cell: int, id: int)
    requires
        0 <= id <= spans.len(),
    ensures
        members(spans.take(id), cols, cell).len() <= members(spans, cols, cell).len(),
    decreases spans.len(),
{
    if id == spans.len() {
        assert(spans.take(id) =~= spans);
    } else {
        lemma_members_grow(spans.drop_last(), cols, cell, id);
        assert(spans.drop_last().take(id) =~= spans.take(id));
    }
}

/// One more item in a cell.
proof fn lemma_members_step(spans: Seq<Option<Span>>, cols: int, cell: int, id: int)
    requires
        0 <= id < spans.len(),
    ensures
        members(spans.take(id + 1), cols, cell) == match spans[id] {
            Some(span) => if span.covers(cols, cell) {
                members(spans.take(id), cols, cell).push(id as u32)
            } else {
                members(spans.take(id), cols, cell)
            },
            None => members(spans.take(id), cols, cell),
        },
{
    assert(spans.take(id + 1).drop_last() =~= spans.take(id));
}

/// The runs of the cells lie one after the other.
proof fn lemma_offset_ordered(spans: Seq<Option<Span>>, cols: int, low: int, high: int)
    requires
        0 <= low < high,
    ensures
        offset(spans, cols, low) + members(spans, cols, low).len() <= offset(spans, cols, high),
    decreases high,
{
    if low + 1 < high {
        lemma_offset_ordered(spans, cols, low, high - 1);
    }
}

/// The runs together stay below the number of items times the number of cells.
proof fn lemma_offset_bounded(spans: Seq<Option<Span>>, cols: int, cell: int)
    requires
        spans.len() <= u32::MAX,
        cell >= 0,
    ensures
        0 <= offset(spans, cols, cell) <= cell * spans.len(),
    decreases cell,
{
    if cell > 0 {
        lemma_offset_bounded(spans, cols, cell - 1);
        lemma_members_bounded(spans, cols, cell - 1);
        assert((cell - 1) * spans.len() + spans.len() == cell * spans.len()) by (nonlinear_arith);
    }
}

/// The number of the cell in a row and a column.
proof fn lemma_cell(cols: int, rows: int, row: int, col: int)
    requires
        0 <= row < rows,
        0 <= col < cols,
    ensures
        0 <= row * cols + col < cols * rows,
        (row * cols + col) / cols == row,
        (row * cols + col) % cols == col,
{
    lemma_fundamental_div_mod_converse(row * cols + col, cols, row, col);
    assert(0 <= row * cols) by (nonlinear_arith)
        requires
            0 <= row,
            0 < cols,
    ;
    assert(row * cols + col < cols * rows) by (nonlinear_arith)
        requires
            0 <= row < rows,
            0 <= col < cols,
    ;
}

/// Two cells in the same row and the same column are one.
proof fn lemma_same_cell(cols: int, a: int, b: int)
    requires
        cols > 0,
        a / cols == b / cols,
        a % cols == b % cols,
    ensures
        a == b,
{
    vstd::arithmetic::div_mod::lemma_fundamental_div_mod(a, cols);
    vstd::arithmetic::div_mod::lemma_fundamental_div_mod(b, cols);
}

/// Item ids, grouped by cell.
pub struct Buckets {
    /// `starts[c]..starts[c + 1]` is the run of cell `c`.
    starts: Vec<u64>,
    /// The runs, one after the other.
    ids: Vec<u32>,
    /// The cells in one row.
    cols: usize,
    /// The spans that were entered.
    spans: Ghost<Seq<Option<Span>>>,
}

impl Buckets {
    /// The spans that were entered, by item id.
    pub closed spec fn entered(self) -> Seq<Option<Span>> {
        self.spans@
    }

    /// The cells in one row.
    pub closed spec fn width(self) -> int {
        self.cols as int
    }

    /// The number of cells.
    pub closed spec fn cells(self) -> int {
        self.starts@.len() - 1
    }

    /// The runs hold what the spans say.
    pub closed spec fn wf(self) -> bool {
        &&& self.spans@.len() <= u32::MAX
        &&& self.cols > 0
        &&& self.starts@.len() >= 1
        &&& self.starts@.len() <= 0x1_0000_0001
        &&& self.ids@.len() == offset(self.spans@, self.cols as int, self.starts@.len() - 1)
        &&& forall|c: int|
            0 <= c < self.starts@.len() ==> #[trigger] self.starts@[c] == offset(
                self.spans@,
                self.cols as int,
                c,
            )
        &&& forall|c: int|
            0 <= c < self.starts@.len() - 1 ==> #[trigger] laid(
                self.ids@,
                offset(self.spans@, self.cols as int, c),
                members(self.spans@, self.cols as int, c),
            )
    }

    /// Count the members of every cell. Slot `c + 1` holds the count of cell `c`.
    fn count(spans: &Vec<Option<Span>>, cols: usize, rows: usize) -> (counts: Vec<u64>)
        requires
            spans@.len() <= u32::MAX,
            cols > 0,
            cols * rows <= 0x1_0000_0000,
            forall|i: int|
                0 <= i < spans@.len() && spans@[i] is Some ==> (#[trigger] spans@[i])->0.fits(
                    cols as int,
                    rows as int,
                ),
        ensures
            counts@.len() == cols * rows + 1,
            counts@[0] == 0,
            forall|c: int|
                0 <= c < cols * rows ==> #[trigger] counts@[c + 1] == members(
                    spans@,
                    cols as int,
                    c,
                ).len(),
    {
        let cells: u64 = cols as u64 * rows as u64;
        let ghost w = cols as int;
        let mut counts: Vec<u64> = Vec::new();
        counts.push(0);
        let mut made: u64 = 0;
        while made < cells
            invariant
                made <= cells,
                counts@.len() == made + 1,
                forall|c: int| 0 <= c < counts@.len() ==> counts@[c] == 0,
            decreases cells - made,
        {
            counts.push(0);
            made = made + 1;
        }
        let mut id: usize = 0;
        while id < spans.len()
            invariant
                id <= spans@.len(),
                w == cols,
                cells == cols * rows,
                cols > 0,
                cells <= 0x1_0000_0000,
                spans@.len() <= u32::MAX,
                forall|i: int|
                    0 <= i < spans@.len() && spans@[i] is Some ==> (#[trigger] spans@[i])->0.fits(
                        cols as int,
                        rows as int,
                    ),
                counts@.len() == cells + 1,
                counts@[0] == 0,
                forall|c: int|
                    0 <= c < cells ==> #[trigger] counts@[c + 1] == members(
                        spans@.take(id as int),
                        w,
                        c,
                    ).len(),
            decreases spans@.len() - id,
        {
            match spans[id] {
                Some(span) => {
                    let mut row: usize = span.r0;
                    proof {
                        assert(spans@[id as int]->0.fits(w, rows as int));
                        assert forall|c: int| 0 <= c < cells implies #[trigger] counts@[c + 1]
                            == entering(spans@, w, id as int, span, row as int, 0, c).len() by {
                            assert(c % w >= 0) by (nonlinear_arith)
                                requires
                                    w > 0,
                            ;
                        }
                    }
                    while row <= span.r1
                        invariant
                            w == cols,
                            cells == cols * rows,
                            cols > 0,
                            cells <= 0x1_0000_0000,
                            id < spans@.len() <= u32::MAX,
                            span.fits(w, rows as int),
                            row >= span.r0,
                            counts@.len() == cells + 1,
                            counts@[0] == 0,
                            forall|c: int|
                                0 <= c < cells ==> #[trigger] counts@[c + 1] == entering(
                                    spans@,
                                    w,
                                    id as int,
                                    span,
                                    row as int,
                                    0,
                                    c,
                                ).len(),
                        decreases span.r1 + 1 - row,
                    {
                        let mut col: usize = span.c0;
                        proof {
                            assert forall|c: int| 0 <= c < cells implies #[trigger] counts@[c + 1]
                                == entering(
                                spans@,
                                w,
                                id as int,
                                span,
                                row as int,
                                col as int,
                                c,
                            ).len() by {}
                        }
                        while col <= span.c1
                            invariant
                                w == cols,
                                cells == cols * rows,
                                cols > 0,
                                cells <= 0x1_0000_0000,
                                id < spans@.len() <= u32::MAX,
                                span.fits(w, rows as int),
                                span.r0 <= row <= span.r1,
                                col >= span.c0,
                                counts@.len() == cells + 1,
                                counts@[0] == 0,
                                forall|c: int|
                                    0 <= c < cells ==> #[trigger] counts@[c + 1] == entering(
                                        spans@,
                                        w,
                                        id as int,
                                        span,
                                        row as int,
                                        col as int,
                                        c,
                                    ).len(),
                            decreases span.c1 + 1 - col,
                        {
                            proof {
                                lemma_cell(w, rows as int, row as int, col as int);
                            }
                            let cell: usize = row * cols + col;
                            let size: usize = counts.len();
                            assert(cell + 1 < size);
                            let ghost before = counts@;
                            proof {
                                assert(before[cell + 1] == entering(
                                    spans@,
                                    w,
                                    id as int,
                                    span,
                                    row as int,
                                    col as int,
                                    cell as int,
                                ).len());
                                lemma_members_bounded(spans@.take(id as int), w, cell as int);
                            }
                            counts[cell + 1] = counts[cell + 1] + 1;
                            proof {
                                assert forall|c: int| 0 <= c < cells implies #[trigger] counts@[c
                                    + 1] == entering(
                                    spans@,
                                    w,
                                    id as int,
                                    span,
                                    row as int,
                                    col + 1,
                                    c,
                                ).len() by {
                                    assert(before[c + 1] == entering(
                                        spans@,
                                        w,
                                        id as int,
                                        span,
                                        row as int,
                                        col as int,
                                        c,
                                    ).len());
                                    if c / w == row && c % w == col {
                                        lemma_same_cell(w, c, cell as int);
                                    }
                                }
                            }
                            col = col + 1;
                        }
                        proof {
                            assert forall|c: int| 0 <= c < cells implies #[trigger] counts@[c + 1]
                                == entering(
                                spans@,
                                w,
                                id as int,
                                span,
                                row + 1,
                                0,
                                c,
                            ).len() by {
                                assert(c % w >= 0) by (nonlinear_arith)
                                    requires
                                        w > 0,
                                ;
                            }
                        }
                        row = row + 1;
                    }
                    proof {
                        assert forall|c: int| 0 <= c < cells implies #[trigger] counts@[c + 1]
                            == members(spans@.take(id + 1), w, c).len() by {
                            lemma_members_step(spans@, w, c, id as int);
                        }
                    }
                },
                None => {
                    proof {
                        assert forall|c: int| 0 <= c < cells implies #[trigger] counts@[c + 1]
                            == members(spans@.take(id + 1), w, c).len() by {
                            lemma_members_step(spans@, w, c, id as int);
                        }
                    }
                },
            }
            id = id + 1;
        }
        assert(spans@.take(spans@.len() as int) =~= spans@);
        counts
    }

    /// Group the ids of `spans` by cell, in a grid of `cols` by `rows` cells.
    pub fn build(spans: &Vec<Option<Span>>, cols: usize, rows: usize) -> (r: Buckets)
        requires
            spans@.len() <= u32::MAX,
            cols > 0,
            cols * rows <= 0x1_0000_0000,
            forall|i: int|
                0 <= i < spans@.len() && spans@[i] is Some ==> (#[trigger] spans@[i])->0.fits(
                    cols as int,
                    rows as int,
                ),
        ensures
            r.wf(),
            r.entered() == spans@,
            r.width() == cols,
            r.cells() == cols * rows,
    {
        let mut starts = Buckets::count(spans, cols, rows);
        let ghost w = cols as int;
        let ghost cells = (cols * rows) as int;
        let ghost counted = starts@;
        // Sum the counts, so slot `c` holds where the run of cell `c` starts.
        let mut cell: usize = 1;
        while cell < starts.len()
            invariant
                1 <= cell <= starts@.len(),
                w == cols,
                cells == cols * rows,
                cells <= 0x1_0000_0000,
                spans@.len() <= u32::MAX,
                starts@.len() == cells + 1,
                counted.len() == cells + 1,
                forall|c: int|
                    0 <= c < cells ==> #[trigger] counted[c + 1] == members(spans@, w, c).len(),
                forall|c: int| 0 <= c < cell ==> #[trigger] starts@[c] == offset(spans@, w, c),
                forall|c: int| cell <= c <= cells ==> #[trigger] starts@[c] == counted[c],
            decreases starts@.len() - cell,
        {
            proof {
                lemma_offset_bounded(spans@, w, cell as int);
                assert(counted[(cell - 1) + 1] == members(spans@, w, cell - 1).len());
                assert(cell * spans@.len() <= 0x1_0000_0000 * 0xffff_ffff) by (nonlinear_arith)
                    requires
                        0 <= cell <= 0x1_0000_0000,
                        0 <= spans@.len() <= 0xffff_ffff,
                ;
                assert(starts@[cell - 1] == offset(spans@, w, cell - 1));
                assert(starts@[cell as int] == counted[cell as int]);
            }
            starts[cell] = starts[cell] + starts[cell - 1];
            cell = cell + 1;
        }
        let last: usize = starts.len() - 1;
        let total: u64 = starts[last];
        let mut ids: Vec<u32> = Vec::new();
        let mut made: u64 = 0;
        while made < total
            invariant
                made <= total,
                ids@.len() == made,
            decreases total - made,
        {
            ids.push(0);
            made = made + 1;
        }
        let mut cursor: Vec<u64> = Vec::new();
        for c in 0..starts.len()
            invariant
                cursor@ == starts@.take(c as int),
        {
            cursor.push(starts[c]);
            assert(starts@.take(c + 1) =~= starts@.take(c as int).push(starts@[c as int]));
        }
        assert(cursor@ =~= starts@);
        assert(spans@.take(0).len() == 0);
        let mut id: usize = 0;
        while id < spans.len()
            invariant
                id <= spans@.len(),
                w == cols,
                cells == cols * rows,
                cols > 0,
                cells <= 0x1_0000_0000,
                spans@.len() <= u32::MAX,
                forall|i: int|
                    0 <= i < spans@.len() && spans@[i] is Some ==> (#[trigger] spans@[i])->0.fits(
                        cols as int,
                        rows as int,
                    ),
                ids@.len() == offset(spans@, w, cells),
                cursor@.len() == cells + 1,
                forall|c: int|
                    0 <= c < cells ==> #[trigger] cursor@[c] == offset(spans@, w, c) + members(
                        spans@.take(id as int),
                        w,
                        c,
                    ).len(),
                forall|c: int|
                    0 <= c < cells ==> #[trigger] laid(
                        ids@,
                        offset(spans@, w, c),
                        members(spans@.take(id as int), w, c),
                    ),
            decreases spans@.len() - id,
        {
            match spans[id] {
                Some(span) => {
                    let mut row: usize = span.r0;
                    proof {
                        assert(spans@[id as int]->0.fits(w, rows as int));
                        assert forall|c: int| 0 <= c < cells implies entering(
                            spans@,
                            w,
                            id as int,
                            span,
                            row as int,
                            0,
                            c,
                        ) == #[trigger] members(spans@.take(id as int), w, c) by {
                            assert(c % w >= 0) by (nonlinear_arith)
                                requires
                                    w > 0,
                            ;
                        }
                        assert forall|c: int| 0 <= c < cells implies #[trigger] cursor@[c]
                            == offset(spans@, w, c) + entering(
                            spans@,
                            w,
                            id as int,
                            span,
                            row as int,
                            0,
                            c,
                        ).len() by {
                            assert(members(spans@.take(id as int), w, c) == entering(
                                spans@,
                                w,
                                id as int,
                                span,
                                row as int,
                                0,
                                c,
                            ));
                        }
                        assert forall|c: int| 0 <= c < cells implies #[trigger] laid(
                            ids@,
                            offset(spans@, w, c),
                            entering(spans@, w, id as int, span, row as int, 0, c),
                        ) by {
                            assert(laid(
                                ids@,
                                offset(spans@, w, c),
                                members(spans@.take(id as int), w, c),
                            ));
                        }
                    }
                    while row <= span.r1
                        invariant
                            w == cols,
                            cells == cols * rows,
                            cols > 0,
                            cells <= 0x1_0000_0000,
                            id < spans@.len() <= u32::MAX,
                            spans@[id as int] == Some(span),
                            span.fits(w, rows as int),
                            row >= span.r0,
                            ids@.len() == offset(spans@, w, cells),
                            cursor@.len() == cells + 1,
                            filled(
                                spans@,
                                w,
                                cells,
                                id as int,
                                span,
                                row as int,
                                0,
                                cursor@,
                                ids@,
                            ),
                        decreases span.r1 + 1 - row,
                    {
                        let mut col: usize = span.c0;
                        proof {
                            assert forall|c: int| 0 <= c < cells implies #[trigger] entering(
                                spans@,
                                w,
                                id as int,
                                span,
                                row as int,
                                col as int,
                                c,
                            ) == entering(spans@, w, id as int, span, row as int, 0, c) by {
                                assert(c % w >= 0) by (nonlinear_arith)
                                    requires
                                        w > 0,
                                ;
                            }
                            lemma_filled_same(
                                spans@,
                                w,
                                cells,
                                id as int,
                                span,
                                row as int,
                                0,
                                row as int,
                                col as int,
                                cursor@,
                                ids@,
                            );
                        }
                        while col <= span.c1
                            invariant
                                w == cols,
                                cells == cols * rows,
                                cols > 0,
                                cells <= 0x1_0000_0000,
                                id < spans@.len() <= u32::MAX,
                                spans@[id as int] == Some(span),
                                span.fits(w, rows as int),
                                span.r0 <= row <= span.r1,
                                col >= span.c0,
                                ids@.len() == offset(spans@, w, cells),
                                cursor@.len() == cells + 1,
                                filled(
                                    spans@,
                                    w,
                                    cells,
                                    id as int,
                                    span,
                                    row as int,
                                    col as int,
                                    cursor@,
                                    ids@,
                                ),
                            decreases span.c1 + 1 - col,
                        {
                            proof {
                                lemma_cell(w, rows as int, row as int, col as int);
                                lemma_slot(
                                    spans@,
                                    w,
                                    cells,
                                    id as int,
                                    span,
                                    row as int,
                                    col as int,
                                    row * cols + col,
                                    cursor@,
                                    ids@,
                                );
                            }
                            let cell: usize = row * cols + col;
                            let ghost cursor_before = cursor@;
                            let ghost ids_before = ids@;
                            let size: usize = ids.len();
                            assert(cursor@[cell as int] < size);
                            let at: usize = cursor[cell] as usize;
                            ids[at] = id as u32;
                            cursor[cell] = cursor[cell] + 1;
                            proof {
                                let next = (cursor_before[cell as int] + 1) as u64;
                                assert(cursor@ == cursor_before.update(cell as int, next));
                                assert(ids@ == ids_before.update(at as int, id as u32));
                            }
                            col = col + 1;
                        }
                        proof {
                            assert forall|c: int| 0 <= c < cells implies #[trigger] entering(
                                spans@,
                                w,
                                id as int,
                                span,
                                row + 1,
                                0,
                                c,
                            ) == entering(
                                spans@,
                                w,
                                id as int,
                                span,
                                row as int,
                                col as int,
                                c,
                            ) by {
                                assert(c % w >= 0) by (nonlinear_arith)
                                    requires
                                        w > 0,
                                ;
                            }
                            lemma_filled_same(
                                spans@,
                                w,
                                cells,
                                id as int,
                                span,
                                row as int,
                                col as int,
                                row + 1,
                                0,
                                cursor@,
                                ids@,
                            );
                        }
                        row = row + 1;
                    }
                    proof {
                        assert forall|c: int| 0 <= c < cells implies #[trigger] members(
                            spans@.take(id + 1),
                            w,
                            c,
                        ) == entering(spans@, w, id as int, span, row as int, 0, c) by {
                            lemma_members_step(spans@, w, c, id as int);
                        }
                        assert forall|c: int| 0 <= c < cells implies #[trigger] laid(
                            ids@,
                            offset(spans@, w, c),
                            members(spans@.take(id + 1), w, c),
                        ) by {
                            assert(laid(
                                ids@,
                                offset(spans@, w, c),
                                entering(spans@, w, id as int, span, row as int, 0, c),
                            ));
                        }
                        assert forall|c: int| 0 <= c < cells implies #[trigger] cursor@[c]
                            == offset(spans@, w, c) + members(spans@.take(id + 1), w, c).len() by {}
                    }
                },
                None => {
                    proof {
                        assert forall|c: int| 0 <= c < cells implies #[trigger] members(
                            spans@.take(id + 1),
                            w,
                            c,
                        ) == members(spans@.take(id as int), w, c) by {
                            lemma_members_step(spans@, w, c, id as int);
                        }
                        assert forall|c: int| 0 <= c < cells implies #[trigger] laid(
                            ids@,
                            offset(spans@, w, c),
                            members(spans@.take(id + 1), w, c),
                        ) by {
                            assert(laid(
                                ids@,
                                offset(spans@, w, c),
                                members(spans@.take(id as int), w, c),
                            ));
                        }
                    }
                },
            }
            id = id + 1;
        }
        assert(spans@.take(spans@.len() as int) =~= spans@);
        Buckets { starts, ids, cols, spans: Ghost(spans@) }
    }

    /// The ids of one cell, in increasing order.
    pub fn run(&self, cell: usize) -> (r: &[u32])
        requires
            self.wf(),
            cell < self.cells(),
        ensures
            r@ == members(self.entered(), self.width(), cell as int),
    {
        proof {
            lemma_offset_ordered(self.spans@, self.cols as int, cell as int, cell + 1);
            if cell + 1 < self.starts@.len() - 1 {
                lemma_offset_ordered(
                    self.spans@,
                    self.cols as int,
                    cell + 1,
                    self.starts@.len() - 1,
                );
            }
            lemma_offset_bounded(self.spans@, self.cols as int, cell as int);
            assert(self.starts@[cell as int] == offset(
                self.spans@,
                self.cols as int,
                cell as int,
            ));
            assert(self.starts@[cell + 1] == offset(self.spans@, self.cols as int, cell + 1));
        }
        let size: usize = self.starts.len();
        assert(cell + 1 < size);
        assert(laid(
            self.ids@,
            offset(self.spans@, self.cols as int, cell as int),
            members(self.spans@, self.cols as int, cell as int),
        ));
        let slots: usize = self.ids.len();
        assert(self.starts@[cell as int] <= self.starts@[cell + 1] <= slots);
        let from: usize = self.starts[cell] as usize;
        let to: usize = self.starts[cell + 1] as usize;
        let r = vstd::slice::slice_subrange(self.ids.as_slice(), from, to);
        proof {
            assert(r@ =~= members(self.spans@, self.cols as int, cell as int));
        }
        r
    }

    /// The number of cells.
    pub fn len(&self) -> (r: usize)
        requires
            self.wf(),
        ensures
            r == self.cells(),
    {
        self.starts.len() - 1
    }

    /// How many ids all the cells hold together.
    pub fn slots(&self) -> (r: usize)
        requires
            self.wf(),
        ensures
            r == offset(self.entered(), self.width(), self.cells()),
    {
        self.ids.len()
    }
}

/// The cursors and the ids while item `id` is being entered.
spec fn filled(
    spans: Seq<Option<Span>>,
    cols: int,
    cells: int,
    id: int,
    span: Span,
    row: int,
    col: int,
    cursor: Seq<u64>,
    ids: Seq<u32>,
) -> bool {
    &&& forall|c: int|
        0 <= c < cells ==> #[trigger] cursor[c] == offset(spans, cols, c) + entering(
            spans,
            cols,
            id,
            span,
            row,
            col,
            c,
        ).len()
    &&& forall|c: int|
        0 <= c < cells ==> #[trigger] laid(
            ids,
            offset(spans, cols, c),
            entering(spans, cols, id, span, row, col, c),
        )
}

proof fn lemma_filled_same(
    spans: Seq<Option<Span>>,
    cols: int,
    cells: int,
    id: int,
    span: Span,
    row: int,
    col: int,
    row2: int,
    col2: int,
    cursor: Seq<u64>,
    ids: Seq<u32>,
)
    requires
        filled(spans, cols, cells, id, span, row, col, cursor, ids),
        forall|c: int|
            0 <= c < cells ==> #[trigger] entering(spans, cols, id, span, row2, col2, c)
                == entering(spans, cols, id, span, row, col, c),
    ensures
        filled(spans, cols, cells, id, span, row2, col2, cursor, ids),
{
    assert forall|c: int| 0 <= c < cells implies #[trigger] cursor[c] == offset(spans, cols, c)
        + entering(spans, cols, id, span, row2, col2, c).len() by {}
    assert forall|c: int| 0 <= c < cells implies #[trigger] laid(
        ids,
        offset(spans, cols, c),
        entering(spans, cols, id, span, row2, col2, c),
    ) by {
        assert(laid(
            ids,
            offset(spans, cols, c),
            entering(spans, cols, id, span, row, col, c),
        ));
    }
}

/// The slot of the cursor is free, and writing the id there enters it in the cell.
proof fn lemma_slot(
    spans: Seq<Option<Span>>,
    cols: int,
    cells: int,
    id: int,
    span: Span,
    row: int,
    col: int,
    cell: int,
    cursor: Seq<u64>,
    ids: Seq<u32>,
)
    requires
        cols > 0,
        0 <= id < spans.len() <= u32::MAX,
        cells <= 0x1_0000_0000,
        spans[id] == Some(span),
        span.r0 <= row <= span.r1,
        span.c0 <= col <= span.c1,
        0 <= cell < cells,
        cell / cols == row,
        cell % cols == col,
        cursor.len() == cells + 1,
        ids.len() == offset(spans, cols, cells),
        filled(spans, cols, cells, id, span, row, col, cursor, ids),
    ensures
        0 <= cursor[cell] < ids.len(),
        cursor[cell] < u64::MAX,
        forall|next: u64|
            next == cursor[cell] + 1 ==> filled(
                spans,
                cols,
                cells,
                id,
                span,
                row,
                col + 1,
                #[trigger] cursor.update(cell, next),
                ids.update(cursor[cell] as int, id as u32),
            ),
{
    let before = entering(spans, cols, id, span, row, col, cell);
    assert(before == members(spans.take(id), cols, cell));
    assert(cursor[cell] == offset(spans, cols, cell) + before.len());
    lemma_members_step(spans, cols, cell, id);
    lemma_members_grow(spans, cols, cell, id + 1);
    lemma_offset_ordered(spans, cols, cell, cells);
    lemma_offset_bounded(spans, cols, cell);
    lemma_offset_bounded(spans, cols, cells);
    assert(cells * spans.len() <= 0x1_0000_0000 * 0xffff_ffff) by (nonlinear_arith)
        requires
            0 <= cells <= 0x1_0000_0000,
            0 <= spans.len() <= 0xffff_ffff,
    ;
    let at = cursor[cell] as int;
    assert forall|next: u64| next == cursor[cell] + 1 implies filled(
        spans,
        cols,
        cells,
        id,
        span,
        row,
        col + 1,
        #[trigger] cursor.update(cell, next),
        ids.update(at, id as u32),
    ) by {
        let cursor2 = cursor.update(cell, next);
        let ids2 = ids.update(at, id as u32);
        assert forall|c: int| 0 <= c < cells && c != cell implies #[trigger] entering(
            spans,
            cols,
            id,
            span,
            row,
            col + 1,
            c,
        ) == entering(spans, cols, id, span, row, col, c) by {
            if c / cols == row && c % cols == col {
                lemma_same_cell(cols, c, cell);
            }
        }
        assert(entering(spans, cols, id, span, row, col + 1, cell) == before.push(id as u32));
        assert forall|c: int| 0 <= c < cells implies #[trigger] cursor2[c] == offset(spans, cols, c)
            + entering(spans, cols, id, span, row, col + 1, c).len() by {
            if c != cell {
                assert(cursor2[c] == cursor[c]);
                assert(entering(spans, cols, id, span, row, col + 1, c) == entering(
                    spans,
                    cols,
                    id,
                    span,
                    row,
                    col,
                    c,
                ));
            }
        }
        assert forall|c: int| 0 <= c < cells implies #[trigger] laid(
            ids2,
            offset(spans, cols, c),
            entering(spans, cols, id, span, row, col + 1, c),
        ) by {
            let list = entering(spans, cols, id, span, row, col + 1, c);
            let start = offset(spans, cols, c);
            assert(laid(ids, start, entering(spans, cols, id, span, row, col, c)));
            lemma_members_step(spans, cols, c, id);
            lemma_members_grow(spans, cols, c, id + 1);
            assert(list.len() <= members(spans, cols, c).len());
            lemma_offset_ordered(spans, cols, c, cells);
            lemma_offset_bounded(spans, cols, c);
            if c < cell {
                lemma_offset_ordered(spans, cols, c, cell);
            } else if c > cell {
                lemma_offset_ordered(spans, cols, cell, c);
            }
            assert forall|k: int| 0 <= k < list.len() implies ids2[start + k]
                == #[trigger] list[k] by {
                if c == cell && k == before.len() {
                    assert(start + k == at);
                } else {
                    assert(start + k != at);
                    assert(list[k] == entering(spans, cols, id, span, row, col, c)[k]);
                }
            }
        }
    }
}

} // verus!
