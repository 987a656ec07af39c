//! A point-in-polygon index over the edges of one polygonal geometry.
//!
//! # What it answers, and why only this shape
//!
//! A direct predicate between a point and a polygon walks every edge of every ring for every row.
//! A 5000 vertex coastline therefore costs 5000 orientation tests per row, and the cost grows with
//! the vertex count.
//!
//! The winding number rule reads an edge only when the y interval of that edge holds the y of the
//! point. Every other edge adds nothing. So an index over that interval drops them before the loop
//! starts.
//!
//! # Why a uniform bucket and not an interval tree
//!
//! The same reason as for [`crate::index::BboxGrid`]. The bucket array builds in one pass, needs
//! no recursion and holds no pointers. A ring with a long near horizontal edge makes one edge land
//! in many buckets, so the build halves the bucket count until the total entry count stays inside
//! [`MAX_FANOUT`] times the edge count. One bucket is the floor, which is the unindexed walk.
//!
//! # What the caller supplies
//!
//! Two computations with numbers: which bucket a y value falls in, as for the grid, and on which
//! side of an edge a point lies. [`law_the_index_agrees_with_the_walk`] says when the index gives
//! the answer of the walk over every edge.

use vstd::prelude::*;
use crate::bbox::{box_over, law_box_encloses_its_coordinates, lemma_grown_push, Bbox};
use crate::buckets::{lemma_members_bounded, lemma_members_contains, members, offset, Buckets, Span};
use crate::geometry::{
    copy_line, is_closed_path, polygons_view, Coord, Geometry, GeometryView, Polygon, PolygonView,
};
use crate::index::{cell_of, is_cell, keeps_order, lemma_cells_ordered, picks_cells};
use crate::number;

verus! {

/// Where a point lies relative to an area.
#[derive(Debug, Clone, Copy, PartialEq, Eq, Structural, Hash)]
pub enum CoordPos {
    /// On the boundary.
    OnBoundary,
    /// In the interior.
    Inside,
    /// In the exterior.
    Outside,
}

/// Which way three positions turn.
#[derive(Debug, Clone, Copy, PartialEq, Eq, Structural, Hash)]
pub enum Orientation {
    /// To the left.
    CounterClockwise,
    /// To the right.
    Clockwise,
    /// Not at all.
    Collinear,
}

/// What one edge adds to the walk around a ring.
#[derive(Debug, Clone, Copy, PartialEq, Eq, Structural, Hash)]
pub enum Effect {
    /// The ray to the right of the point crosses the edge upward.
    Up,
    /// The ray to the right of the point crosses the edge downward.
    Down,
    /// The point lies on the edge.
    Touch,
    /// The edge does not count.
    Nothing,
}

/// The largest average number of buckets one edge may occupy.
///
/// A ring of tiny edges lands each edge in one bucket. A ring with long near horizontal edges
/// spreads one edge over many. This cap bounds the memory of the second case.
pub const MAX_FANOUT: usize = 4;

// ------------------------------------------------------------------- the rules
/// True when `value` lies between the two bounds, in either order.
pub open spec fn is_between(value: u64, bound_1: u64, bound_2: u64) -> bool {
    if number::is_lt(bound_1, bound_2) {
        number::is_le(bound_1, value) && number::is_le(value, bound_2)
    } else {
        number::is_le(bound_2, value) && number::is_le(value, bound_1)
    }
}

/// True when the y interval of the edge holds the y of the point, so its side decides.
pub open spec fn is_asked(start: Coord, end: Coord, c: Coord) -> bool {
    if number::is_le(start.y, c.y) {
        number::is_le(c.y, end.y)
    } else {
        number::is_le(end.y, c.y)
    }
}

/// What an edge adds whose side is known.
///
/// 1. An upward edge includes its starting endpoint, and excludes its final endpoint.
/// 2. A downward edge excludes its starting endpoint, and includes its final endpoint.
/// 3. Horizontal edges are excluded.
/// 4. The point where the ray meets the edge must be strictly right of the point.
pub open spec fn effect_of(start: Coord, end: Coord, c: Coord, side: Orientation) -> Effect {
    if !is_asked(start, end, c) {
        Effect::Nothing
    } else if side == Orientation::Collinear {
        if is_between(c.x, start.x, end.x) {
            Effect::Touch
        } else {
            Effect::Nothing
        }
    } else if number::is_le(start.y, c.y) {
        if side == Orientation::CounterClockwise && !number::is_eq(end.y, c.y) {
            Effect::Up
        } else {
            Effect::Nothing
        }
    } else if side == Orientation::Clockwise {
        Effect::Down
    } else {
        Effect::Nothing
    }
}

/// True when `effect` is what the edge adds. The closure is called only where the side decides.
pub open spec fn is_effect<O: Fn(Coord, Coord, Coord) -> Orientation>(
    orient: O,
    start: Coord,
    end: Coord,
    c: Coord,
    effect: Effect,
) -> bool {
    if is_asked(start, end, c) {
        exists|side: Orientation| #[trigger]
            orient.ensures((start, end, c), side) && effect == effect_of(start, end, c, side)
    } else {
        effect == Effect::Nothing
    }
}

/// The weight of an edge in the winding number.
pub open spec fn weight(effect: Effect) -> int {
    match effect {
        Effect::Up => 1,
        Effect::Down => -1,
        _ => 0,
    }
}

/// The winding number of a list of effects.
pub open spec fn winding(effects: Seq<Effect>) -> int
    decreases effects.len(),
{
    if effects.len() == 0 {
        0
    } else {
        winding(effects.drop_last()) + weight(effects.last())
    }
}

/// True when `pos` is the verdict of a walk over the edges `ids` of a ring.
///
/// The walk stops at the first edge that the point lies on.
pub open spec fn is_walk<O: Fn(Coord, Coord, Coord) -> Orientation>(
    orient: O,
    ring: Seq<Coord>,
    ids: Seq<u32>,
    c: Coord,
    effects: Seq<Effect>,
    pos: CoordPos,
) -> bool {
    &&& effects.len() <= ids.len()
    &&& forall|k: int|
        0 <= k < effects.len() ==> is_effect(
            orient,
            ring[ids[k] as int],
            ring[ids[k] + 1],
            c,
            #[trigger] effects[k],
        )
    &&& forall|k: int| 0 <= k < effects.len() - 1 ==> #[trigger] effects[k] != Effect::Touch
    &&& if effects.len() > 0 && effects.last() == Effect::Touch {
        pos == CoordPos::OnBoundary
    } else {
        &&& effects.len() == ids.len()
        &&& pos == if winding(effects) == 0 {
            CoordPos::Outside
        } else {
            CoordPos::Inside
        }
    }
}

/// The ids of the first `count` edges, in order.
pub open spec fn all_edges(count: nat) -> Seq<u32> {
    Seq::new(count, |i: int| i as u32)
}

/// True when `pos` is the verdict of the walk over every edge of a ring.
///
/// A ring with no edge generates no crossing. A single vertex is its own boundary.
pub open spec fn is_place_in_ring<O: Fn(Coord, Coord, Coord) -> Orientation>(
    orient: O,
    ring: Seq<Coord>,
    c: Coord,
    pos: CoordPos,
) -> bool {
    if ring.len() < 2 {
        pos == if ring.len() == 1 && ring[0].is_same(c) {
            CoordPos::OnBoundary
        } else {
            CoordPos::Outside
        }
    } else {
        exists|effects: Seq<Effect>| #[trigger]
            is_walk(orient, ring, all_edges((ring.len() - 1) as nat), c, effects, pos)
    }
}

/// True when `value` lies between the two bounds, in either order.
pub fn value_in_between(value: u64, bound_1: u64, bound_2: u64) -> (r: bool)
    ensures
        r == is_between(value, bound_1, bound_2),
{
    if number::lt(bound_1, bound_2) {
        number::le(bound_1, value) && number::le(value, bound_2)
    } else {
        number::le(bound_2, value) && number::le(value, bound_1)
    }
}

// ------------------------------------------------------------------- the index
/// The lower of two numbers. A NaN gives way to the other.
pub open spec fn lower(a: u64, b: u64) -> u64 {
    if number::is_nan(a) || number::is_lt(b, a) {
        b
    } else {
        a
    }
}

/// The higher of two numbers. A NaN gives way to the other.
pub open spec fn higher(a: u64, b: u64) -> u64 {
    if number::is_nan(a) || number::is_lt(a, b) {
        b
    } else {
        a
    }
}

/// True when `span` is the bucket range of an edge: one column, the buckets as its rows.
pub open spec fn is_edge_span<F: Fn(u64, u64, u64, usize) -> usize>(
    cell: F,
    start: Coord,
    end: Coord,
    bbox: Bbox,
    buckets: usize,
    span: Span,
) -> bool {
    &&& span.c0 == 0
    &&& span.c1 == 0
    &&& is_cell(cell, lower(start.y, end.y), bbox.miny, bbox.maxy, buckets, span.r0)
    &&& is_cell(cell, higher(start.y, end.y), bbox.miny, bbox.maxy, buckets, span.r1)
}

/// True when `spans` are the bucket ranges of the edges of a ring.
pub open spec fn are_edge_spans<F: Fn(u64, u64, u64, usize) -> usize>(
    cell: F,
    ring: Seq<Coord>,
    bbox: Bbox,
    buckets: usize,
    spans: Seq<Option<Span>>,
) -> bool {
    &&& spans.len() == if ring.len() == 0 {
        0
    } else {
        ring.len() - 1
    }
    &&& forall|i: int|
        0 <= i < spans.len() ==> #[trigger] spans[i] is Some && is_edge_span(
            cell,
            ring[i],
            ring[i + 1],
            bbox,
            buckets,
            spans[i]->0,
        )
}

/// How many buckets a span takes.
pub open spec fn span_size(span: Option<Span>) -> int {
    match span {
        Some(s) => if s.r0 <= s.r1 {
            s.r1 - s.r0 + 1
        } else {
            0
        },
        None => 0,
    }
}

/// How many bucket slots the spans take together.
pub open spec fn fanout_of(spans: Seq<Option<Span>>) -> int
    decreases spans.len(),
{
    if spans.len() == 0 {
        0
    } else {
        fanout_of(spans.drop_last()) + span_size(spans.last())
    }
}

/// `edges`, halved `times` times.
pub open spec fn halved(edges: nat, times: nat) -> nat
    decreases times,
{
    if times == 0 {
        edges
    } else {
        halved(edges, (times - 1) as nat) / 2
    }
}

/// One bucket per edge, halved until the fanout fits: true when `spans` is what that gives.
pub open spec fn is_choice<F: Fn(u64, u64, u64, usize) -> usize>(
    cell: F,
    ring: Seq<Coord>,
    bbox: Bbox,
    buckets: usize,
    spans: Seq<Option<Span>>,
) -> bool {
    let edges = (ring.len() - 1) as nat;
    exists|times: nat|
        {
            &&& #[trigger] halved(edges, times) == buckets
            &&& buckets == 1 || fanout_of(spans) <= edges * MAX_FANOUT
            &&& forall|t: nat|
                t < times ==> #[trigger] halved(edges, t) > 1 && exists|tried: Seq<Option<Span>>|
                    #[trigger]
                    are_edge_spans(cell, ring, bbox, halved(edges, t) as usize, tried) && fanout_of(
                        tried,
                    ) > edges * MAX_FANOUT
        }
}

/// One closed ring, with its edges bucketed by y interval.
pub struct RingIndex {
    /// The ring vertices. Edge `i` runs from `coords[i]` to `coords[i + 1]`.
    coords: Vec<Coord>,
    bbox: Bbox,
    buckets: usize,
    /// Edge ids, grouped by bucket.
    cells: Buckets,
}

impl RingIndex {
    /// The vertices of the ring.
    pub closed spec fn ring(self) -> Seq<Coord> {
        self.coords@
    }

    /// The number of buckets.
    pub closed spec fn height(self) -> usize {
        self.buckets
    }

    /// The bucket range of every edge.
    pub closed spec fn spans(self) -> Seq<Option<Span>> {
        self.cells.entered()
    }

    /// The buckets hold what the spans say.
    pub closed spec fn wf(self) -> bool {
        &&& self.cells.wf()
        &&& self.cells.width() == 1
        &&& self.cells.cells() == self.buckets
        &&& 1 <= self.buckets <= u32::MAX
        &&& self.coords@.len() <= u32::MAX
        &&& self.bbox == box_over(self.coords@)
        &&& self.cells.entered().len() == if self.coords@.len() == 0 {
            0
        } else {
            self.coords@.len() - 1
        }
    }

    /// True when the index was built over `ring`.
    ///
    /// A flat ring, an empty ring or a single edge has one bucket, which is the unindexed walk.
    pub open spec fn is_over<F: Fn(u64, u64, u64, usize) -> usize>(
        self,
        cell: F,
        ring: Seq<Coord>,
    ) -> bool {
        let bbox = box_over(ring);
        &&& self.ring() == ring
        &&& are_edge_spans(cell, ring, bbox, self.height(), self.spans())
        &&& if ring.len() > 2 && number::is_lt(bbox.miny, bbox.maxy) {
            is_choice(cell, ring, bbox, self.height(), self.spans())
        } else {
            self.height() == 1
        }
    }

    /// Index one ring.
    pub fn new<F: Fn(u64, u64, u64, usize) -> usize>(ring: &Vec<Coord>, cell: &F) -> (r: RingIndex)
        requires
            ring@.len() <= u32::MAX,
            picks_cells(*cell),
        ensures
            r.wf(),
            r.is_over(*cell, ring@),
    {
        let coords = copy_line(ring);
        let mut bbox = Bbox::empty();
        let mut i: usize = 0;
        while i < coords.len()
            invariant
                i <= coords@.len(),
                bbox == box_over(coords@.take(i as int)),
            decreases coords@.len() - i,
        {
            bbox.push_xy(coords[i].x, coords[i].y);
            proof {
                assert(coords@.take(i + 1) =~= coords@.take(i as int).push(coords@[i as int]));
                lemma_grown_push(Bbox::blank(), coords@.take(i as int), coords@[i as int]);
            }
            i = i + 1;
        }
        assert(coords@.take(i as int) =~= coords@);
        let edges: usize = if coords.len() == 0 {
            0
        } else {
            coords.len() - 1
        };
        // A flat ring, an empty ring or a single edge needs no division. One bucket is the whole
        // ring, which is the unindexed walk.
        let (buckets, spans) = if edges > 1 && number::lt(bbox.miny, bbox.maxy) {
            RingIndex::choose_buckets(&coords, &bbox, edges, cell)
        } else {
            (1, RingIndex::edge_spans(&coords, &bbox, 1, cell))
        };
        let cells = Buckets::build(&spans, 1, buckets);
        RingIndex { coords, bbox, buckets, cells }
    }

    /// One bucket per edge, halved until the fanout fits.
    fn choose_buckets<F: Fn(u64, u64, u64, usize) -> usize>(
        coords: &Vec<Coord>,
        bbox: &Bbox,
        edges: usize,
        cell: &F,
    ) -> (r: (usize, Vec<Option<Span>>))
        requires
            coords@.len() == edges + 1,
            1 < edges < u32::MAX,
            picks_cells(*cell),
        ensures
            1 <= r.0 <= edges,
            are_edge_spans(*cell, coords@, *bbox, r.0, r.1@),
            is_choice(*cell, coords@, *bbox, r.0, r.1@),
            forall|i: int|
                0 <= i < r.1@.len() ==> (#[trigger] r.1@[i])->0.fits(1, r.0 as int),
    {
        proof {
            assert(edges * MAX_FANOUT <= 0xffff_ffff * 4) by (nonlinear_arith)
                requires
                    0 <= edges <= 0xffff_ffff,
                    MAX_FANOUT == 4,
            ;
        }
        let cap: u64 = edges as u64 * MAX_FANOUT as u64;
        let mut buckets: usize = edges;
        let ghost mut times: nat = 0;
        let mut spans = RingIndex::edge_spans(coords, bbox, buckets, cell);
        while buckets != 1 && RingIndex::fanout(&spans, buckets) > cap
            invariant
                coords@.len() == edges + 1,
                1 < edges < u32::MAX,
                cap == edges * MAX_FANOUT,
                picks_cells(*cell),
                1 <= buckets <= edges,
                halved(edges as nat, times) == buckets,
                are_edge_spans(*cell, coords@, *bbox, buckets, spans@),
                forall|i: int|
                    0 <= i < spans@.len() ==> (#[trigger] spans@[i])->0.fits(1, buckets as int),
                forall|t: nat|
                    t < times ==> #[trigger] halved(edges as nat, t) > 1 && exists|
                        tried: Seq<Option<Span>>,
                    | #[trigger]
                        are_edge_spans(
                            *cell,
                            coords@,
                            *bbox,
                            halved(edges as nat, t) as usize,
                            tried,
                        ) && fanout_of(tried) > edges * MAX_FANOUT,
            decreases buckets,
        {
            let ghost declined = spans@;
            let ghost before = buckets;
            buckets = buckets / 2;
            spans = RingIndex::edge_spans(coords, bbox, buckets, cell);
            proof {
                let all = (edges * MAX_FANOUT) as int;
                assert(are_edge_spans(*cell, coords@, *bbox, before, declined));
                assert(halved(edges as nat, times) as usize == before);
                assert(are_edge_spans(
                    *cell,
                    coords@,
                    *bbox,
                    halved(edges as nat, times) as usize,
                    declined,
                ) && fanout_of(declined) > edges * MAX_FANOUT);
                assert(halved(edges as nat, (times + 1) as nat) == buckets);
                times = (times + 1) as nat;
            }
        }
        proof {
            assert(halved((coords@.len() - 1) as nat, times) == buckets);
        }
        (buckets, spans)
    }

    /// Total bucket slots the edges would take at this bucket count.
    fn fanout(spans: &Vec<Option<Span>>, buckets: usize) -> (total: u64)
        requires
            spans@.len() <= u32::MAX,
            buckets <= u32::MAX,
            forall|i: int|
                0 <= i < spans@.len() ==> (#[trigger] spans@[i])->0.fits(1, buckets as int),
        ensures
            total == fanout_of(spans@),
    {
        let mut total: u64 = 0;
        let mut i: usize = 0;
        while i < spans.len()
            invariant
                i <= spans@.len() <= u32::MAX,
                buckets <= u32::MAX,
                forall|i: int|
                    0 <= i < spans@.len() ==> (#[trigger] spans@[i])->0.fits(1, buckets as int),
                total == fanout_of(spans@.take(i as int)),
                total <= i * 0xffff_ffff,
            decreases spans@.len() - i,
        {
            proof {
                assert(spans@[i as int]->0.fits(1, buckets as int));
                assert(spans@.take(i + 1).drop_last() =~= spans@.take(i as int));
                assert(i * 0xffff_ffff + 0xffff_ffff == (i + 1) * 0xffff_ffff) by (nonlinear_arith);
                assert(i * 0xffff_ffff <= 0xffff_ffff * 0xffff_ffff) by (nonlinear_arith)
                    requires
                        0 <= i <= 0xffff_ffff,
                ;
            }
            match spans[i] {
                Some(span) => if span.r0 <= span.r1 {
                    total = total + ((span.r1 - span.r0) as u64 + 1);
                },
                None => {},
            }
            i = i + 1;
        }
        assert(spans@.take(i as int) =~= spans@);
        total
    }

    /// The bucket range of every edge.
    fn edge_spans<F: Fn(u64, u64, u64, usize) -> usize>(
        coords: &Vec<Coord>,
        bbox: &Bbox,
        buckets: usize,
        cell: &F,
    ) -> (spans: Vec<Option<Span>>)
        requires
            buckets > 0,
            picks_cells(*cell),
        ensures
            are_edge_spans(*cell, coords@, *bbox, buckets, spans@),
            forall|i: int|
                0 <= i < spans@.len() ==> (#[trigger] spans@[i])->0.fits(1, buckets as int),
    {
        let mut spans: Vec<Option<Span>> = Vec::new();
        let mut i: usize = 1;
        while i < coords.len()
            invariant
                1 <= i,
                i <= coords@.len() || (i == 1 && coords@.len() == 0),
                buckets > 0,
                picks_cells(*cell),
                spans@.len() == i - 1,
                forall|j: int|
                    0 <= j < spans@.len() ==> #[trigger] spans@[j] is Some && spans@[j]->0.fits(
                        1,
                        buckets as int,
                    ) && is_edge_span(
                        *cell,
                        coords@[j],
                        coords@[j + 1],
                        *bbox,
                        buckets,
                        spans@[j]->0,
                    ),
            decreases coords@.len() - i,
        {
            let span = RingIndex::span(&coords[i - 1], &coords[i], bbox, buckets, cell);
            spans.push(Some(span));
            i = i + 1;
        }
        spans
    }

    /// The inclusive bucket range one edge covers.
    fn span<F: Fn(u64, u64, u64, usize) -> usize>(
        start: &Coord,
        end: &Coord,
        bbox: &Bbox,
        buckets: usize,
        cell: &F,
    ) -> (span: Span)
        requires
            buckets > 0,
            picks_cells(*cell),
        ensures
            is_edge_span(*cell, *start, *end, *bbox, buckets, span),
            span.fits(1, buckets as int),
    {
        let low: u64 = if number::nan(start.y) || number::lt(end.y, start.y) {
            end.y
        } else {
            start.y
        };
        let high: u64 = if number::nan(start.y) || number::lt(start.y, end.y) {
            end.y
        } else {
            start.y
        };
        Span {
            c0: 0,
            r0: cell_of(cell, low, bbox.miny, bbox.maxy, buckets),
            c1: 0,
            r1: cell_of(cell, high, bbox.miny, bbox.maxy, buckets),
        }
    }

    /// How many bucket slots the edges take.
    pub fn slots(&self) -> (r: usize)
        requires
            self.wf(),
        ensures
            r == offset(self.spans(), 1, self.height() as int),
    {
        self.cells.slots()
    }

    /// True when `pos` is the verdict of the index.
    ///
    /// A point outside the box of the ring is outside. Else the walk runs over one bucket.
    pub open spec fn is_located<F, O>(self, cell: F, orient: O, c: Coord, pos: CoordPos) -> bool where
        F: Fn(u64, u64, u64, usize) -> usize,
        O: Fn(Coord, Coord, Coord) -> Orientation,
     {
        let ring = self.ring();
        let bbox = box_over(ring);
        if ring.len() < 2 {
            pos == if ring.len() == 1 && ring[0].is_same(c) {
                CoordPos::OnBoundary
            } else {
                CoordPos::Outside
            }
        } else if number::is_lt(c.x, bbox.minx) || number::is_lt(bbox.maxx, c.x) || number::is_lt(
            c.y,
            bbox.miny,
        ) || number::is_lt(bbox.maxy, c.y) {
            pos == CoordPos::Outside
        } else {
            exists|bucket: usize, effects: Seq<Effect>|
                is_cell(cell, c.y, bbox.miny, bbox.maxy, self.height(), bucket)
                    && #[trigger] is_walk(
                    orient,
                    ring,
                    members(self.spans(), 1, bucket as int),
                    c,
                    effects,
                    pos,
                )
        }
    }

    /// Where the point sits relative to this ring.
    ///
    /// This is the walk over the edges of one bucket. Every edge outside that bucket misses the y
    /// of the point, and the crossing rules give such an edge no weight.
    pub fn locate<F, O>(&self, c: Coord, cell: &F, orient: &O) -> (pos: CoordPos) where
        F: Fn(u64, u64, u64, usize) -> usize,
        O: Fn(Coord, Coord, Coord) -> Orientation,

        requires
            self.wf(),
            picks_cells(*cell),
            forall|a: Coord, b: Coord, p: Coord| #[trigger] orient.requires((a, b, p)),
        ensures
            self.is_located(*cell, *orient, c, pos),
    {
        let n: usize = self.coords.len();
        // A ring with no edge generates no crossing. A single vertex is its own boundary.
        if n < 2 {
            if n == 1 && self.coords[0].same(&c) {
                return CoordPos::OnBoundary;
            }
            return CoordPos::Outside;
        }
        // A point outside the box of the ring crosses each upward edge and each downward edge in
        // equal number, so its winding number is zero. It is not on the ring either.

        if number::lt(c.x, self.bbox.minx) || number::lt(self.bbox.maxx, c.x) || number::lt(
            c.y,
            self.bbox.miny,
        ) || number::lt(self.bbox.maxy, c.y) {
            return CoordPos::Outside;
        }
        let bucket: usize = cell_of(
            cell,
            c.y,
            self.bbox.miny,
            self.bbox.maxy,
            self.buckets,
        );
        let run = self.cells.run(bucket);
        let ghost ids = members(self.spans(), 1, bucket as int);
        let ghost ring = self.coords@;
        let ghost mut effects: Seq<Effect> = Seq::empty();
        proof {
            lemma_members_bounded(self.spans(), 1, bucket as int);
        }
        let mut turns: i64 = 0;
        let mut k: usize = 0;
        while k < run.len()
            invariant
                k <= run@.len() <= u32::MAX,
                self.wf(),
                ring == self.coords@,
                ring == self.ring(),
                ring.len() >= 2,
                !(number::is_lt(c.x, self.bbox.minx) || number::is_lt(self.bbox.maxx, c.x)
                    || number::is_lt(c.y, self.bbox.miny) || number::is_lt(self.bbox.maxy, c.y)),
                self.bbox == box_over(ring),
                is_cell(*cell, c.y, self.bbox.miny, self.bbox.maxy, self.height(), bucket),
                run@ == ids,
                ids == members(self.spans(), 1, bucket as int),
                forall|a: Coord, b: Coord, p: Coord| #[trigger] orient.requires((a, b, p)),
                forall|j: int| 0 <= j < ids.len() ==> (#[trigger] ids[j]) < ring.len() - 1,
                effects.len() == k,
                turns == winding(effects),
                -k <= turns <= k,
                forall|j: int|
                    0 <= j < effects.len() ==> is_effect(
                        *orient,
                        ring[ids[j] as int],
                        ring[ids[j] + 1],
                        c,
                        #[trigger] effects[j],
                    ) && effects[j] != Effect::Touch,
            decreases run@.len() - k,
        {
            let id: usize = run[k] as usize;
            assert(ids[k as int] < ring.len() - 1);
            let start = self.coords[id];
            let end = self.coords[id + 1];
            let rising = number::le(start.y, c.y);
            let asked = if rising {
                number::le(c.y, end.y)
            } else {
                number::le(end.y, c.y)
            };
            let ghost mut effect = Effect::Nothing;
            if asked {
                let side = orient(start, end, c);
                proof {
                    effect = effect_of(start, end, c, side);
                    assert(orient.ensures((start, end, c), side));
                    assert(is_effect(*orient, start, end, c, effect));
                }
                if side == Orientation::Collinear && value_in_between(c.x, start.x, end.x) {
                    proof {
                        let stopped = effects.push(effect);
                        assert(stopped.last() == Effect::Touch);
                        assert forall|j: int| 0 <= j < stopped.len() implies is_effect(
                            *orient,
                            ring[ids[j] as int],
                            ring[ids[j] + 1],
                            c,
                            #[trigger] stopped[j],
                        ) by {
                            if j < effects.len() {
                                assert(stopped[j] == effects[j]);
                            }
                        }
                        assert(is_walk(*orient, ring, ids, c, stopped, CoordPos::OnBoundary));
                    }
                    return CoordPos::OnBoundary;
                }
                if rising {
                    if side == Orientation::CounterClockwise && !number::eq(end.y, c.y) {
                        turns = turns + 1;
                    }
                } else if side == Orientation::Clockwise {
                    turns = turns - 1;
                }
            }
            proof {
                let more = effects.push(effect);
                assert(more.drop_last() =~= effects);
                assert forall|j: int| 0 <= j < more.len() implies is_effect(
                    *orient,
                    ring[ids[j] as int],
                    ring[ids[j] + 1],
                    c,
                    #[trigger] more[j],
                ) && more[j] != Effect::Touch by {
                    if j < effects.len() {
                        assert(more[j] == effects[j]);
                    }
                }
                effects = more;
            }
            k = k + 1;
        }
        let pos = if turns == 0 {
            CoordPos::Outside
        } else {
            CoordPos::Inside
        };
        proof {
            assert(is_walk(*orient, ring, ids, c, effects, pos));
        }
        pos
    }
}


// ---------------------------------------------------------------- the polygons
/// True when `pos` is the verdict over a shell and its holes.
///
/// The shell decides first. A hole then takes an inside point back out. `holes` are the verdicts
/// of the holes up to the one that decides.
pub open spec fn is_polygon_verdict(
    shell: CoordPos,
    holes: Seq<CoordPos>,
    total: int,
    pos: CoordPos,
) -> bool {
    if shell != CoordPos::Inside {
        pos == shell
    } else {
        &&& holes.len() <= total
        &&& forall|k: int| 0 <= k < holes.len() - 1 ==> #[trigger] holes[k] == CoordPos::Outside
        &&& if holes.len() > 0 && holes.last() != CoordPos::Outside {
            pos == if holes.last() == CoordPos::OnBoundary {
                CoordPos::OnBoundary
            } else {
                CoordPos::Outside
            }
        } else {
            holes.len() == total && pos == CoordPos::Inside
        }
    }
}

/// True when `pos` is the verdict over several polygons.
///
/// One member that holds the point inside settles the answer, and the boundary counts only when
/// no member holds it. `members` are the verdicts of the members up to the one that settles it.
pub open spec fn is_multi_verdict(parts: Seq<CoordPos>, total: int, pos: CoordPos) -> bool {
    &&& parts.len() <= total
    &&& forall|k: int| 0 <= k < parts.len() - 1 ==> #[trigger] parts[k] != CoordPos::Inside
    &&& if parts.len() > 0 && parts.last() == CoordPos::Inside {
        pos == CoordPos::Inside
    } else {
        &&& parts.len() == total
        &&& pos == if parts.contains(CoordPos::OnBoundary) {
            CoordPos::OnBoundary
        } else {
            CoordPos::Outside
        }
    }
}

/// True when the walk over every edge of every ring of a polygon gives `pos`.
pub open spec fn is_place_in_polygon<O: Fn(Coord, Coord, Coord) -> Orientation>(
    orient: O,
    polygon: PolygonView,
    c: Coord,
    pos: CoordPos,
) -> bool {
    exists|shell: CoordPos, holes: Seq<CoordPos>|
        {
            &&& is_place_in_ring(orient, polygon.exterior, c, shell)
            &&& forall|k: int|
                0 <= k < holes.len() && k < polygon.interiors.len() ==> is_place_in_ring(
                    orient,
                    polygon.interiors[k],
                    c,
                    #[trigger] holes[k],
                )
            &&& #[trigger] is_polygon_verdict(shell, holes, polygon.interiors.len() as int, pos)
        }
}

/// The polygons of a polygonal geometry.
pub open spec fn polygonal_parts(geom: GeometryView) -> Option<Seq<PolygonView>> {
    match geom {
        GeometryView::Polygon(polygon) => Some(seq![polygon]),
        GeometryView::MultiPolygon(polygons) => Some(polygons),
        _ => None,
    }
}

/// True when the walk over every edge of a polygonal geometry gives `pos`.
pub open spec fn is_place_in_parts<O: Fn(Coord, Coord, Coord) -> Orientation>(
    orient: O,
    polygons: Seq<PolygonView>,
    c: Coord,
    pos: CoordPos,
) -> bool {
    exists|parts: Seq<CoordPos>|
        {
            &&& forall|k: int|
                0 <= k < parts.len() && k < polygons.len() ==> is_place_in_polygon(
                    orient,
                    polygons[k],
                    c,
                    #[trigger] parts[k],
                )
            &&& #[trigger] is_multi_verdict(parts, polygons.len() as int, pos)
        }
}

/// True when every ring of the polygon has few enough vertices to number its edges.
pub open spec fn is_countable(polygon: PolygonView) -> bool {
    &&& polygon.exterior.len() <= u32::MAX
    &&& forall|k: int|
        0 <= k < polygon.interiors.len() ==> (#[trigger] polygon.interiors[k]).len() <= u32::MAX
}

/// True when every ring of the geometry has few enough vertices to number its edges.
pub open spec fn is_indexable(geom: GeometryView) -> bool {
    match polygonal_parts(geom) {
        Some(polygons) => forall|k: int|
            0 <= k < polygons.len() ==> is_countable(#[trigger] polygons[k]),
        None => true,
    }
}

/// One polygon: the shell, then every hole.
pub struct PolygonIndex {
    rings: Vec<RingIndex>,
}

impl PolygonIndex {
    /// The index of each ring, the shell first.
    pub closed spec fn rings(self) -> Seq<RingIndex> {
        self.rings@
    }

    /// There is a shell, and every ring index is well formed.
    pub open spec fn wf(self) -> bool {
        &&& self.rings().len() >= 1
        &&& forall|k: int| 0 <= k < self.rings().len() ==> (#[trigger] self.rings()[k]).wf()
    }

    /// True when the index was built over the polygon.
    pub open spec fn is_over<F: Fn(u64, u64, u64, usize) -> usize>(
        self,
        cell: F,
        polygon: PolygonView,
    ) -> bool {
        &&& self.rings().len() == 1 + polygon.interiors.len()
        &&& self.rings()[0].is_over(cell, polygon.exterior)
        &&& forall|k: int|
            0 <= k < polygon.interiors.len() ==> (#[trigger] self.rings()[k + 1]).is_over(
                cell,
                polygon.interiors[k],
            )
    }

    /// Index one polygon.
    pub fn new<F: Fn(u64, u64, u64, usize) -> usize>(polygon: &Polygon, cell: &F) -> (r:
        PolygonIndex)
        requires
            is_countable(polygon@),
            picks_cells(*cell),
        ensures
            r.wf(),
            r.is_over(*cell, polygon@),
    {
        let mut rings: Vec<RingIndex> = Vec::new();
        let shell = RingIndex::new(&polygon.exterior, cell);
        rings.push(shell);
        let mut k: usize = 0;
        while k < polygon.interiors.len()
            invariant
                k <= polygon.interiors@.len(),
                is_countable(polygon@),
                picks_cells(*cell),
                rings@.len() == k + 1,
                forall|j: int| 0 <= j < rings@.len() ==> (#[trigger] rings@[j]).wf(),
                rings@[0].is_over(*cell, polygon@.exterior),
                forall|j: int|
                    0 <= j < k ==> (#[trigger] rings@[j + 1]).is_over(
                        *cell,
                        polygon@.interiors[j],
                    ),
            decreases polygon.interiors@.len() - k,
        {
            assert(polygon@.interiors[k as int].len() <= u32::MAX);
            let ghost before = rings@;
            let hole = RingIndex::new(&polygon.interiors[k], cell);
            rings.push(hole);
            proof {
                assert forall|j: int| 0 <= j < k + 1 implies (#[trigger] rings@[j + 1]).is_over(
                    *cell,
                    polygon@.interiors[j],
                ) by {
                    if j < k {
                        assert(rings@[j + 1] == before[j + 1]);
                    }
                }
            }
            k = k + 1;
        }
        PolygonIndex { rings }
    }

    /// True when `pos` is the verdict of the index.
    pub open spec fn is_located<F, O>(self, cell: F, orient: O, c: Coord, pos: CoordPos) -> bool where
        F: Fn(u64, u64, u64, usize) -> usize,
        O: Fn(Coord, Coord, Coord) -> Orientation,
     {
        exists|shell: CoordPos, holes: Seq<CoordPos>|
            {
                &&& self.rings()[0].is_located(cell, orient, c, shell)
                &&& forall|k: int|
                    0 <= k < holes.len() && k < self.rings().len() - 1 ==> self.rings()[k
                        + 1].is_located(cell, orient, c, #[trigger] holes[k])
                &&& #[trigger] is_polygon_verdict(shell, holes, self.rings().len() - 1, pos)
            }
    }

    /// Where the point sits. The shell decides first. A hole then takes an inside point back out.
    pub fn locate<F, O>(&self, c: Coord, cell: &F, orient: &O) -> (pos: CoordPos) where
        F: Fn(u64, u64, u64, usize) -> usize,
        O: Fn(Coord, Coord, Coord) -> Orientation,

        requires
            self.wf(),
            picks_cells(*cell),
            forall|a: Coord, b: Coord, p: Coord| #[trigger] orient.requires((a, b, p)),
        ensures
            self.is_located(*cell, *orient, c, pos),
    {
        let shell = self.rings[0].locate(c, cell, orient);
        let ghost mut holes: Seq<CoordPos> = Seq::empty();
        if shell != CoordPos::Inside {
            proof {
                assert(is_polygon_verdict(shell, holes, self.rings().len() - 1, shell));
            }
            return shell;
        }
        let mut k: usize = 1;
        while k < self.rings.len()
            invariant
                1 <= k <= self.rings@.len(),
                self.rings@ == self.rings(),
                self.wf(),
                picks_cells(*cell),
                forall|a: Coord, b: Coord, p: Coord| #[trigger] orient.requires((a, b, p)),
                shell == CoordPos::Inside,
                self.rings()[0].is_located(*cell, *orient, c, shell),
                holes.len() == k - 1,
                forall|j: int|
                    0 <= j < holes.len() ==> #[trigger] holes[j] == CoordPos::Outside
                        && self.rings()[j + 1].is_located(*cell, *orient, c, holes[j]),
            decreases self.rings@.len() - k,
        {
            let hole = self.rings[k].locate(c, cell, orient);
            let ghost more = holes.push(hole);
            proof {
                assert forall|j: int|
                    0 <= j < more.len() && j < self.rings().len() - 1 implies self.rings()[j
                    + 1].is_located(*cell, *orient, c, #[trigger] more[j]) by {
                    if j < holes.len() {
                        assert(more[j] == holes[j]);
                    }
                }
            }
            match hole {
                CoordPos::Outside => {},
                CoordPos::OnBoundary => {
                    proof {
                        assert(is_polygon_verdict(
                            shell,
                            more,
                            self.rings().len() - 1,
                            CoordPos::OnBoundary,
                        ));
                    }
                    return CoordPos::OnBoundary;
                },
                CoordPos::Inside => {
                    proof {
                        assert(is_polygon_verdict(
                            shell,
                            more,
                            self.rings().len() - 1,
                            CoordPos::Outside,
                        ));
                    }
                    return CoordPos::Outside;
                },
            }
            proof {
                assert forall|j: int| 0 <= j < more.len() implies #[trigger] more[j]
                    == CoordPos::Outside && self.rings()[j + 1].is_located(
                    *cell,
                    *orient,
                    c,
                    more[j],
                ) by {
                    if j < holes.len() {
                        assert(more[j] == holes[j]);
                    }
                }
                holes = more;
            }
            k = k + 1;
        }
        proof {
            assert(is_polygon_verdict(shell, holes, self.rings().len() - 1, CoordPos::Inside));
        }
        CoordPos::Inside
    }
}

/// A point-in-polygon index over the edges of one polygonal geometry.
pub struct PointInPolygonIndex {
    /// One entry per polygon. A multi polygon fills several.
    polygons: Vec<PolygonIndex>,
}

impl PointInPolygonIndex {
    /// The index of each polygon.
    pub closed spec fn polygons(self) -> Seq<PolygonIndex> {
        self.polygons@
    }

    /// Every polygon index is well formed.
    pub open spec fn wf(self) -> bool {
        forall|k: int| 0 <= k < self.polygons().len() ==> (#[trigger] self.polygons()[k]).wf()
    }

    /// True when the index was built over the polygons.
    pub open spec fn is_over<F: Fn(u64, u64, u64, usize) -> usize>(
        self,
        cell: F,
        polygons: Seq<PolygonView>,
    ) -> bool {
        &&& self.polygons().len() == polygons.len()
        &&& forall|k: int|
            0 <= k < polygons.len() ==> (#[trigger] self.polygons()[k]).is_over(cell, polygons[k])
    }

    /// Index a polygonal geometry. Returns `None` for every other type.
    pub fn new<F: Fn(u64, u64, u64, usize) -> usize>(geometry: &Geometry, cell: &F) -> (r: Option<
        PointInPolygonIndex,
    >)
        requires
            is_indexable(geometry@),
            picks_cells(*cell),
        ensures
            match polygonal_parts(geometry@) {
                Some(polygons) => r matches Some(index) && index.wf() && index.is_over(
                    *cell,
                    polygons,
                ),
                None => r is None,
            },
    {
        match geometry {
            Geometry::Polygon(polygon) => {
                proof {
                    assert(polygonal_parts(geometry@) == Some(seq![polygon@]));
                    assert(is_countable(seq![polygon@][0]));
                }
                let mut polygons: Vec<PolygonIndex> = Vec::new();
                polygons.push(PolygonIndex::new(polygon, cell));
                Some(PointInPolygonIndex { polygons })
            },
            Geometry::MultiPolygon(list) => {
                let ghost views = polygons_view(list@);
                proof {
                    let parts = polygonal_parts(geometry@)->0;
                    assert(geometry@ == GeometryView::MultiPolygon(views));
                    assert(parts == views);
                    assert forall|j: int| 0 <= j < views.len() implies is_countable(
                        #[trigger] views[j],
                    ) by {
                        assert(is_countable(parts[j]));
                    }
                }
                let mut polygons: Vec<PolygonIndex> = Vec::new();
                let mut k: usize = 0;
                while k < list.len()
                    invariant
                        k <= list@.len(),
                        views == polygons_view(list@),
                        forall|j: int|
                            0 <= j < views.len() ==> is_countable(#[trigger] views[j]),
                        picks_cells(*cell),
                        polygons@.len() == k,
                        forall|j: int|
                            0 <= j < k ==> (#[trigger] polygons@[j]).wf() && polygons@[j].is_over(
                                *cell,
                                views[j],
                            ),
                    decreases list@.len() - k,
                {
                    assert(is_countable(views[k as int]));
                    polygons.push(PolygonIndex::new(&list[k], cell));
                    k = k + 1;
                }
                Some(PointInPolygonIndex { polygons })
            },
            _ => None,
        }
    }

    /// True when `pos` is the verdict of the index.
    pub open spec fn is_located<F, O>(self, cell: F, orient: O, c: Coord, pos: CoordPos) -> bool where
        F: Fn(u64, u64, u64, usize) -> usize,
        O: Fn(Coord, Coord, Coord) -> Orientation,
     {
        exists|parts: Seq<CoordPos>|
            {
                &&& forall|k: int|
                    0 <= k < parts.len() && k < self.polygons().len()
                        ==> self.polygons()[k].is_located(cell, orient, c, #[trigger] parts[k])
                &&& #[trigger] is_multi_verdict(parts, self.polygons().len() as int, pos)
            }
    }

    /// Where the point sits: inside, on the boundary, or outside.
    ///
    /// This one verdict answers every direct predicate. `ST_Contains` and `ST_Within` want
    /// `Inside`. `ST_Intersects` and `ST_Covers` want anything but `Outside`. `ST_Disjoint` wants
    /// `Outside`.
    pub fn locate<F, O>(&self, c: Coord, cell: &F, orient: &O) -> (pos: CoordPos) where
        F: Fn(u64, u64, u64, usize) -> usize,
        O: Fn(Coord, Coord, Coord) -> Orientation,

        requires
            self.wf(),
            picks_cells(*cell),
            forall|a: Coord, b: Coord, p: Coord| #[trigger] orient.requires((a, b, p)),
        ensures
            self.is_located(*cell, *orient, c, pos),
    {
        let mut boundary = false;
        let ghost mut parts: Seq<CoordPos> = Seq::empty();
        let mut k: usize = 0;
        while k < self.polygons.len()
            invariant
                k <= self.polygons@.len(),
                self.polygons@ == self.polygons(),
                self.wf(),
                picks_cells(*cell),
                forall|a: Coord, b: Coord, p: Coord| #[trigger] orient.requires((a, b, p)),
                parts.len() == k,
                boundary == parts.contains(CoordPos::OnBoundary),
                forall|j: int|
                    0 <= j < parts.len() ==> #[trigger] parts[j] != CoordPos::Inside
                        && self.polygons()[j].is_located(*cell, *orient, c, parts[j]),
            decreases self.polygons@.len() - k,
        {
            let part = self.polygons[k].locate(c, cell, orient);
            let ghost more = parts.push(part);
            proof {
                assert forall|j: int|
                    0 <= j < more.len() && j < self.polygons().len() implies self.polygons()[j].is_located(
                    *cell,
                    *orient,
                    c,
                    #[trigger] more[j],
                ) by {
                    if j < parts.len() {
                        assert(more[j] == parts[j]);
                    }
                }
                assert(more[parts.len() as int] == part);
                if parts.contains(CoordPos::OnBoundary) {
                    let j = choose|j: int|
                        0 <= j < parts.len() && parts[j] == CoordPos::OnBoundary;
                    assert(more[j] == CoordPos::OnBoundary);
                }
            }
            match part {
                CoordPos::Inside => {
                    proof {
                        assert(is_multi_verdict(
                            more,
                            self.polygons().len() as int,
                            CoordPos::Inside,
                        ));
                    }
                    return CoordPos::Inside;
                },
                CoordPos::OnBoundary => {
                    boundary = true;
                },
                CoordPos::Outside => {},
            }
            proof {
                assert forall|j: int| 0 <= j < more.len() implies #[trigger] more[j]
                    != CoordPos::Inside && self.polygons()[j].is_located(
                    *cell,
                    *orient,
                    c,
                    more[j],
                ) by {
                    if j < parts.len() {
                        assert(more[j] == parts[j]);
                    }
                }
                parts = more;
            }
            k = k + 1;
        }
        let pos = if boundary {
            CoordPos::OnBoundary
        } else {
            CoordPos::Outside
        };
        proof {
            assert(is_multi_verdict(parts, self.polygons().len() as int, pos));
        }
        pos
    }

    /// True when the point lies strictly inside the geometry.
    ///
    /// A point on the boundary is not inside.
    pub fn contains<F, O>(&self, c: Coord, cell: &F, orient: &O) -> (r: bool) where
        F: Fn(u64, u64, u64, usize) -> usize,
        O: Fn(Coord, Coord, Coord) -> Orientation,

        requires
            self.wf(),
            picks_cells(*cell),
            forall|a: Coord, b: Coord, p: Coord| #[trigger] orient.requires((a, b, p)),
        ensures
            exists|pos: CoordPos| #[trigger]
                self.is_located(*cell, *orient, c, pos) && r == (pos == CoordPos::Inside),
    {
        let pos = self.locate(c, cell, orient);
        pos == CoordPos::Inside
    }

    /// How many bucket slots the shell of a polygon takes.
    pub fn shell_slots(&self, polygon: usize) -> (r: usize)
        requires
            self.wf(),
            polygon < self.polygons().len(),
        ensures
            r == offset(
                self.polygons()[polygon as int].rings()[0].spans(),
                1,
                self.polygons()[polygon as int].rings()[0].height() as int,
            ),
    {
        assert(self.polygons()[polygon as int].wf());
        assert(self.polygons()[polygon as int].rings()[0].wf());
        self.polygons[polygon].rings[0].slots()
    }
}

// ------------------------------------------------------------------------ laws
/// True when the closure gives one answer for an edge of the ring and the point, and puts a point
/// that is left of both ends of the edge on the left of it going up and on the right of it going
/// down, and the other way round for a point right of both.
pub open spec fn knows_edge<O: Fn(Coord, Coord, Coord) -> Orientation>(
    orient: O,
    ring: Seq<Coord>,
    i: int,
    p: Coord,
) -> bool {
    let (a, b) = (ring[i], ring[i + 1]);
    &&& forall|s: Orientation, t: Orientation| #[trigger]
        orient.ensures((a, b, p), s) && #[trigger] orient.ensures((a, b, p), t) ==> s == t
    &&& forall|s: Orientation| #[trigger]
        orient.ensures((a, b, p), s) ==> {
            &&& number::is_le(a.y, p.y) && number::is_lt(p.y, b.y) && number::is_lt(p.x, a.x)
                && number::is_lt(p.x, b.x) ==> s == Orientation::CounterClockwise
            &&& number::is_le(b.y, p.y) && number::is_lt(p.y, a.y) && number::is_lt(p.x, a.x)
                && number::is_lt(p.x, b.x) ==> s == Orientation::Clockwise
            &&& number::is_le(a.y, p.y) && number::is_lt(p.y, b.y) && number::is_lt(a.x, p.x)
                && number::is_lt(b.x, p.x) ==> s == Orientation::Clockwise
            &&& number::is_le(b.y, p.y) && number::is_lt(p.y, a.y) && number::is_lt(a.x, p.x)
                && number::is_lt(b.x, p.x) ==> s == Orientation::CounterClockwise
        }
}

/// True when the closures can be relied on for one ring and one point: the ring is closed and free
/// of NaN, one closure keeps the order of numbers between its bounds, and the other knows the sides
/// of its edges.
pub open spec fn knows_ring<F, O>(cell: F, orient: O, ring: Seq<Coord>, c: Coord) -> bool where
    F: Fn(u64, u64, u64, usize) -> usize,
    O: Fn(Coord, Coord, Coord) -> Orientation,
 {
    &&& is_sound_ring(ring)
    &&& keeps_order(cell, box_over(ring).miny, box_over(ring).maxy)
    &&& forall|i: int| 0 <= i < ring.len() - 1 ==> #[trigger] knows_edge(orient, ring, i, c)
}

/// True when the closures can be relied on for every ring of a polygon and one point.
pub open spec fn knows_polygon<F, O>(cell: F, orient: O, polygon: PolygonView, c: Coord) -> bool where
    F: Fn(u64, u64, u64, usize) -> usize,
    O: Fn(Coord, Coord, Coord) -> Orientation,
 {
    &&& knows_ring(cell, orient, polygon.exterior, c)
    &&& forall|k: int|
        0 <= k < polygon.interiors.len() ==> #[trigger] knows_ring(
            cell,
            orient,
            polygon.interiors[k],
            c,
        )
}

/// True for a closed ring without NaN.
pub open spec fn is_sound_ring(ring: Seq<Coord>) -> bool {
    &&& ring.len() <= u32::MAX
    &&& is_closed_path(ring)
    &&& forall|i: int|
        0 <= i < ring.len() ==> !number::is_nan((#[trigger] ring[i]).x) && !number::is_nan(
            ring[i].y,
        )
}

/// One when the vertex is not above the point.
spec fn below(ring: Seq<Coord>, i: int, c: Coord) -> int {
    if number::is_le(ring[i].y, c.y) {
        1
    } else {
        0
    }
}

/// With every edge worth the difference of its ends, the walk is worth the difference of its ends.
proof fn lemma_winding_telescopes(ring: Seq<Coord>, c: Coord, effects: Seq<Effect>)
    requires
        effects.len() < ring.len(),
        forall|k: int|
            0 <= k < effects.len() ==> weight(#[trigger] effects[k]) == below(ring, k, c) - below(
                ring,
                k + 1,
                c,
            ),
    ensures
        winding(effects) == below(ring, 0, c) - below(ring, effects.len() as int, c),
    decreases effects.len(),
{
    if effects.len() > 0 {
        let front = effects.drop_last();
        assert forall|k: int| 0 <= k < front.len() implies weight(#[trigger] front[k]) == below(
            ring,
            k,
            c,
        ) - below(ring, k + 1, c) by {
            assert(front[k] == effects[k]);
        }
        lemma_winding_telescopes(ring, c, front);
        assert(effects.last() == effects[effects.len() - 1]);
    }
}

/// A walk whose edges all weigh nothing has no winding.
proof fn lemma_no_winding(effects: Seq<Effect>)
    requires
        forall|k: int| 0 <= k < effects.len() ==> weight(#[trigger] effects[k]) == 0,
    ensures
        winding(effects) == 0,
    decreases effects.len(),
{
    if effects.len() > 0 {
        let front = effects.drop_last();
        assert forall|k: int| 0 <= k < front.len() implies weight(#[trigger] front[k]) == 0 by {
            assert(front[k] == effects[k]);
        }
        lemma_no_winding(front);
        assert(effects.last() == effects[effects.len() - 1]);
    }
}

/// The effects of the members of a bucket, read from the effects of every edge.
spec fn picked(effects: Seq<Effect>, ids: Seq<u32>) -> Seq<Effect> {
    Seq::new(ids.len(), |j: int| effects[ids[j] as int])
}

/// Edges outside the bucket add nothing, so the bucket alone has the whole winding number.
proof fn lemma_bucket_winding(
    spans: Seq<Option<Span>>,
    bucket: int,
    effects: Seq<Effect>,
    n: int,
)
    requires
        0 <= n <= spans.len() <= u32::MAX,
        effects.len() == spans.len(),
        forall|i: int|
            0 <= i < spans.len() ==> #[trigger] spans[i] is Some && (spans[i]->0.covers(1, bucket)
                || effects[i] == Effect::Nothing),
    ensures
        winding(picked(effects, members(spans.take(n), 1, bucket))) == winding(effects.take(n)),
    decreases n,
{
    if n == 0 {
        assert(spans.take(0).len() == 0);
        assert(picked(effects, members(spans.take(0), 1, bucket)).len() == 0);
        assert(effects.take(0).len() == 0);
    } else {
        lemma_bucket_winding(spans, bucket, effects, n - 1);
        let front = members(spans.take(n - 1), 1, bucket);
        let all = members(spans.take(n), 1, bucket);
        assert(spans.take(n).drop_last() =~= spans.take(n - 1));
        assert(spans.take(n).last() == spans[n - 1]);
        assert(effects.take(n).drop_last() =~= effects.take(n - 1));
        assert(effects.take(n).last() == effects[n - 1]);
        if spans[n - 1]->0.covers(1, bucket) {
            assert(all == front.push((n - 1) as u32));
            assert(picked(effects, all).drop_last() =~= picked(effects, front));
            assert(picked(effects, all).last() == effects[n - 1]);
        } else {
            assert(all == front);
        }
    }
}

/// Two effects of one edge are the same.
proof fn lemma_one_effect<O: Fn(Coord, Coord, Coord) -> Orientation>(
    orient: O,
    start: Coord,
    end: Coord,
    c: Coord,
    a: Effect,
    b: Effect,
)
    requires
        forall|s: Orientation, t: Orientation| #[trigger]
            orient.ensures((start, end, c), s) && #[trigger] orient.ensures((start, end, c), t)
                ==> s == t,
        is_effect(orient, start, end, c, a),
        is_effect(orient, start, end, c, b),
    ensures
        a == b,
{
}

/// The bucket of the point holds every edge whose y interval holds the y of the point.
proof fn lemma_asked_edges_are_in_the_bucket<F: Fn(u64, u64, u64, usize) -> usize>(
    cell: F,
    ring: Seq<Coord>,
    bbox: Bbox,
    buckets: usize,
    spans: Seq<Option<Span>>,
    c: Coord,
    bucket: usize,
    i: int,
)
    requires
        keeps_order(cell, bbox.miny, bbox.maxy),
        is_sound_ring(ring),
        are_edge_spans(cell, ring, bbox, buckets, spans),
        is_cell(cell, c.y, bbox.miny, bbox.maxy, buckets, bucket),
        0 <= i < spans.len(),
        is_asked(ring[i], ring[i + 1], c),
    ensures
        spans[i] is Some,
        spans[i]->0.covers(1, bucket as int),
{
    let start = ring[i];
    let end = ring[i + 1];
    let span = spans[i]->0;
    assert(is_edge_span(cell, start, end, bbox, buckets, span));
    lemma_cells_ordered(
        cell,
        lower(start.y, end.y),
        c.y,
        bbox.miny,
        bbox.maxy,
        buckets,
        span.r0,
        bucket,
    );
    lemma_cells_ordered(
        cell,
        c.y,
        higher(start.y, end.y),
        bbox.miny,
        bbox.maxy,
        buckets,
        bucket,
        span.r1,
    );
}

/// A point outside the box of the ring is outside by the walk over every edge too.
proof fn lemma_outside_the_box<O: Fn(Coord, Coord, Coord) -> Orientation>(
    orient: O,
    ring: Seq<Coord>,
    c: Coord,
    pos: CoordPos,
)
    requires
        forall|i: int| 0 <= i < ring.len() - 1 ==> #[trigger] knows_edge(orient, ring, i, c),
        is_sound_ring(ring),
        ring.len() >= 2,
        is_place_in_ring(orient, ring, c, pos),
        ({
            let bbox = box_over(ring);
            number::is_lt(c.x, bbox.minx) || number::is_lt(bbox.maxx, c.x) || number::is_lt(
                c.y,
                bbox.miny,
            ) || number::is_lt(bbox.maxy, c.y)
        }),
    ensures
        pos == CoordPos::Outside,
{
    let bbox = box_over(ring);
    let n = (ring.len() - 1) as nat;
    let ids = all_edges(n);
    let effects = choose|effects: Seq<Effect>| #[trigger]
        is_walk(orient, ring, ids, c, effects, pos);
    assert forall|k: int| 0 <= k < effects.len() implies #[trigger] effects[k] != Effect::Touch
        && {
        ||| weight(effects[k]) == 0 && !(number::is_lt(c.x, bbox.minx) && is_asked(
            ring[k],
            ring[k + 1],
            c,
        ))
        ||| weight(effects[k]) == below(ring, k, c) - below(ring, k + 1, c)
    } by {
        assert(ids[k] == k as u32);
        assert(is_effect(orient, ring[k], ring[k + 1], c, effects[k]));
        assert(knows_edge(orient, ring, k, c));
        law_box_encloses_its_coordinates(ring, k);
        law_box_encloses_its_coordinates(ring, k + 1);
        assert(!number::is_nan(ring[k].x) && !number::is_nan(ring[k + 1].x));
    }
    assert(effects.len() == n);
    if number::is_lt(c.x, bbox.minx) {
        assert forall|k: int| 0 <= k < effects.len() implies weight(#[trigger] effects[k]) == below(
            ring,
            k,
            c,
        ) - below(ring, k + 1, c) by {
            assert(ids[k] == k as u32);
            assert(is_effect(orient, ring[k], ring[k + 1], c, effects[k]));
            assert(knows_edge(orient, ring, k, c));
            law_box_encloses_its_coordinates(ring, k);
            law_box_encloses_its_coordinates(ring, k + 1);
            assert(!number::is_nan(ring[k].y) && !number::is_nan(ring[k + 1].y));
        }
        lemma_winding_telescopes(ring, c, effects);
        assert(ring[0].is_same(ring.last()));
    } else {
        assert forall|k: int| 0 <= k < effects.len() implies weight(#[trigger] effects[k]) == 0 by {
            assert(ids[k] == k as u32);
            assert(is_effect(orient, ring[k], ring[k + 1], c, effects[k]));
            assert(knows_edge(orient, ring, k, c));
            law_box_encloses_its_coordinates(ring, k);
            law_box_encloses_its_coordinates(ring, k + 1);
            assert(!number::is_nan(ring[k].y) && !number::is_nan(ring[k + 1].y));
        }
        lemma_no_winding(effects);
    }
}

/// The index of a ring gives the answer of the walk over every edge of the ring.
///
/// This holds of every closed ring without NaN, where the closures can be relied on for its edges
/// and the point.
pub proof fn law_the_index_agrees_with_the_walk<F, O>(
    cell: F,
    orient: O,
    index: RingIndex,
    ring: Seq<Coord>,
    c: Coord,
    indexed: CoordPos,
    walked: CoordPos,
) where F: Fn(u64, u64, u64, usize) -> usize, O: Fn(Coord, Coord, Coord) -> Orientation
    requires
        knows_ring(cell, orient, ring, c),
        index.is_over(cell, ring),
        index.is_located(cell, orient, c, indexed),
        is_place_in_ring(orient, ring, c, walked),
    ensures
        indexed == walked,
{
    let bbox = box_over(ring);
    if ring.len() < 2 {
    } else if number::is_lt(c.x, bbox.minx) || number::is_lt(bbox.maxx, c.x) || number::is_lt(
        c.y,
        bbox.miny,
    ) || number::is_lt(bbox.maxy, c.y) {
        lemma_outside_the_box(orient, ring, c, walked);
    } else {
        let n = (ring.len() - 1) as nat;
        let every = all_edges(n);
        let effects = choose|effects: Seq<Effect>| #[trigger]
            is_walk(orient, ring, every, c, effects, walked);
        let (bucket, short) = choose|bucket: usize, short: Seq<Effect>|
            is_cell(cell, c.y, bbox.miny, bbox.maxy, index.height(), bucket) && #[trigger] is_walk(
                orient,
                ring,
                members(index.spans(), 1, bucket as int),
                c,
                short,
                indexed,
            );
        let spans = index.spans();
        let ids = members(spans, 1, bucket as int);
        lemma_members_bounded(spans, 1, bucket as int);
        // One edge has one effect in both walks.
        assert forall|j: int| 0 <= j < short.len() && ids[j] < effects.len() implies #[trigger] short[j]
            == effects[ids[j] as int] by {
            let id = ids[j] as int;
            assert(every[id] == id as u32);
            assert(is_effect(orient, ring[id], ring[id + 1], c, effects[id]));
            assert(knows_edge(orient, ring, id, c));
            lemma_one_effect(orient, ring[id], ring[id + 1], c, short[j], effects[id]);
        }
        if short.len() > 0 && short.last() == Effect::Touch {
            let j = short.len() - 1;
            assert(short[j] == Effect::Touch);
            if ids[j] < effects.len() {
                assert(effects[ids[j] as int] == Effect::Touch);
                assert(ids[j] == effects.len() - 1);
            }
        } else {
            if effects.len() > 0 && effects.last() == Effect::Touch {
                let k = effects.len() - 1;
                assert(every[k] == k as u32);
                assert(is_effect(orient, ring[k], ring[k + 1], c, effects[k]));
                lemma_asked_edges_are_in_the_bucket(
                    cell,
                    ring,
                    bbox,
                    index.height(),
                    spans,
                    c,
                    bucket,
                    k,
                );
                lemma_members_contains(spans, 1, bucket as int, k as u32);
                let j = choose|j: int| 0 <= j < ids.len() && ids[j] == k as u32;
                assert(short[j] == effects[k]);
                assert(false);
            }
            assert forall|i: int| 0 <= i < spans.len() implies #[trigger] spans[i] is Some && (
            spans[i]->0.covers(1, bucket as int) || effects[i] == Effect::Nothing) by {
                assert(every[i] == i as u32);
                assert(is_effect(orient, ring[i], ring[i + 1], c, effects[i]));
                if is_asked(ring[i], ring[i + 1], c) {
                    lemma_asked_edges_are_in_the_bucket(
                        cell,
                        ring,
                        bbox,
                        index.height(),
                        spans,
                        c,
                        bucket,
                        i,
                    );
                }
            }
            lemma_bucket_winding(spans, bucket as int, effects, spans.len() as int);
            assert(spans.take(spans.len() as int) =~= spans);
            assert(effects.take(spans.len() as int) =~= effects);
            assert(picked(effects, ids) =~= short);
        }
    }
}

/// The index of a polygon gives the answer of the walk over every edge of every ring.
pub proof fn law_the_polygon_index_agrees_with_the_walk<F, O>(
    cell: F,
    orient: O,
    index: PolygonIndex,
    polygon: PolygonView,
    c: Coord,
    indexed: CoordPos,
    walked: CoordPos,
) where F: Fn(u64, u64, u64, usize) -> usize, O: Fn(Coord, Coord, Coord) -> Orientation
    requires
        knows_polygon(cell, orient, polygon, c),
        index.is_over(cell, polygon),
        index.is_located(cell, orient, c, indexed),
        is_place_in_polygon(orient, polygon, c, walked),
    ensures
        indexed == walked,
{
    let total = polygon.interiors.len() as int;
    let (shell, holes) = choose|shell: CoordPos, holes: Seq<CoordPos>|
        {
            &&& index.rings()[0].is_located(cell, orient, c, shell)
            &&& forall|k: int|
                0 <= k < holes.len() && k < index.rings().len() - 1 ==> index.rings()[k
                    + 1].is_located(cell, orient, c, #[trigger] holes[k])
            &&& #[trigger] is_polygon_verdict(shell, holes, index.rings().len() - 1, indexed)
        };
    let (shell2, holes2) = choose|shell2: CoordPos, holes2: Seq<CoordPos>|
        {
            &&& is_place_in_ring(orient, polygon.exterior, c, shell2)
            &&& forall|k: int|
                0 <= k < holes2.len() && k < polygon.interiors.len() ==> is_place_in_ring(
                    orient,
                    polygon.interiors[k],
                    c,
                    #[trigger] holes2[k],
                )
            &&& #[trigger] is_polygon_verdict(shell2, holes2, total, walked)
        };
    law_the_index_agrees_with_the_walk(
        cell,
        orient,
        index.rings()[0],
        polygon.exterior,
        c,
        shell,
        shell2,
    );
    if shell == CoordPos::Inside {
        assert forall|k: int| 0 <= k < holes.len() && k < holes2.len() implies holes[k]
            == #[trigger] holes2[k] by {
            assert(index.rings()[k + 1].is_located(cell, orient, c, holes[k]));
            assert(knows_ring(cell, orient, polygon.interiors[k], c));
            law_the_index_agrees_with_the_walk(
                cell,
                orient,
                index.rings()[k + 1],
                polygon.interiors[k],
                c,
                holes[k],
                holes2[k],
            );
        }
        if holes.len() < holes2.len() {
            assert(holes.len() > 0);
            assert(holes2[holes.len() - 1] == CoordPos::Outside);
        } else if holes2.len() < holes.len() {
            assert(holes2.len() > 0);
            assert(holes[holes2.len() - 1] == CoordPos::Outside);
            assert(holes[holes2.len() - 1] == holes2[holes2.len() - 1]);
        } else if holes.len() > 0 {
            assert(holes.last() == holes2[holes.len() - 1]);
        }
    }
}

/// The index of a polygonal geometry gives the answer of the walk over every edge.
pub proof fn law_the_point_index_agrees_with_the_walk<F, O>(
    cell: F,
    orient: O,
    index: PointInPolygonIndex,
    polygons: Seq<PolygonView>,
    c: Coord,
    indexed: CoordPos,
    walked: CoordPos,
) where F: Fn(u64, u64, u64, usize) -> usize, O: Fn(Coord, Coord, Coord) -> Orientation
    requires
        forall|i: int|
            0 <= i < polygons.len() ==> #[trigger] knows_polygon(cell, orient, polygons[i], c),
        index.is_over(cell, polygons),
        index.is_located(cell, orient, c, indexed),
        is_place_in_parts(orient, polygons, c, walked),
    ensures
        indexed == walked,
{
    let total = polygons.len() as int;
    let a = choose|a: Seq<CoordPos>|
        {
            &&& forall|k: int|
                0 <= k < a.len() && k < index.polygons().len()
                    ==> index.polygons()[k].is_located(cell, orient, c, #[trigger] a[k])
            &&& #[trigger] is_multi_verdict(a, index.polygons().len() as int, indexed)
        };
    let b = choose|b: Seq<CoordPos>|
        {
            &&& forall|k: int|
                0 <= k < b.len() && k < polygons.len() ==> is_place_in_polygon(
                    orient,
                    polygons[k],
                    c,
                    #[trigger] b[k],
                )
            &&& #[trigger] is_multi_verdict(b, total, walked)
        };
    assert forall|k: int| 0 <= k < a.len() && k < b.len() implies a[k] == #[trigger] b[k] by {
        assert(index.polygons()[k].is_located(cell, orient, c, a[k]));
        assert(knows_polygon(cell, orient, polygons[k], c));
        law_the_polygon_index_agrees_with_the_walk(
            cell,
            orient,
            index.polygons()[k],
            polygons[k],
            c,
            a[k],
            b[k],
        );
    }
    if a.len() < b.len() {
        assert(a.len() > 0 && a.last() == CoordPos::Inside);
        assert(b[a.len() - 1] == a[a.len() - 1]);
    } else if b.len() < a.len() {
        assert(b.len() > 0 && b.last() == CoordPos::Inside);
        assert(a[b.len() - 1] == b[b.len() - 1]);
    } else {
        assert(a =~= b);
    }
}

/// The edges take no more bucket slots than the cap allows, unless there is one bucket only.
///
/// One bucket is the unindexed walk: it holds every edge once.
pub proof fn law_the_fanout_is_capped<F: Fn(u64, u64, u64, usize) -> usize>(
    cell: F,
    index: RingIndex,
    ring: Seq<Coord>,
)
    requires
        index.is_over(cell, ring),
        ring.len() >= 2,
    ensures
        index.height() == 1 || fanout_of(index.spans()) <= (ring.len() - 1) * MAX_FANOUT,
{
}

} // verus!
