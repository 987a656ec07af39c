//! Spatial predicates.
//!
//! # Why a bounding box first, and why not the same box test for every predicate
//!
//! An exact test builds a topology graph. It can also walk every edge pair. A box test is four
//! comparisons. Real data is mostly disjoint. So the box test answers most rows, and the exact test
//! never runs.
//!
//! The box test is not the same for every predicate, and a generic "do the boxes overlap" filter
//! throws away most of its value:
//!
//! | Predicate | What the boxes can settle on their own |
//! |---|---|
//! | `ST_Intersects` | disjoint boxes mean false |
//! | `ST_Disjoint` | disjoint boxes mean **true**, answered without any geometry |
//! | `ST_Contains`, `ST_Covers` | the right box must sit inside the left one, or false |
//! | `ST_Within`, `ST_CoveredBy` | the left box must sit inside the right one, or false |
//! | `ST_Equals` | the boxes must match exactly, or false |
//! | `ST_Touches`, `ST_Crosses`, `ST_Overlaps` | disjoint boxes mean false |
//!
//! # Where the exact answer comes from
//!
//! The caller supplies the exact tests, see [`Exact`]. A direct test answers one question. The
//! matrix answers every question and costs the most, so only the predicates that need it ask for
//! it. A point against a large polygonal constant takes a third path, through
//! [`crate::ring::PointInPolygonIndex`].
//!
//! # Why a repeated point row costs nothing
//!
//! A point column often repeats a coordinate on neighbouring rows. For a point the bounding box is
//! the coordinate, and [`st_predicate_scalar`] has already read the box. So two comparisons settle
//! whether this row repeats the one before it, and a repeat reuses that answer.

use vstd::prelude::*;
use crate::bbox::{bbox_of, box_at, box_over, fill_bboxes, outline, Bbox};
use crate::column::{Body, Column, ColumnView, CoordBuffer};
use crate::error::Error;
use crate::geometry::{coords_of, Coord, Geometry, GeometryView};
use crate::index::picks_cells;
use crate::materialize::{empty_geometry, GeometryReader};
use crate::matrix::{matrix_text, pattern_verdict, IntersectionMatrix};
use crate::number;
use crate::operand::{
    broadcast_len, has_pair_broken, is_pair_broken, is_pair_read, lengths_fit, map_pairs,
    no_pair_broken, pair_len, side_null, slot, Operand,
};
use crate::ring::{is_indexable, polygonal_parts, CoordPos, Orientation, PointInPolygonIndex};

verus! {

/// Reusable buffers for a predicate over two columns.
///
/// Hold one of these across batches to keep the box vectors allocated.
#[derive(Debug)]
pub struct PredicateScratch {
    left: Vec<Bbox>,
    right: Vec<Bbox>,
}

/// The box of every row of a column.
pub open spec fn boxes_of(array: ColumnView) -> Seq<Bbox> {
    Seq::new(array.rows() as nat, |i: int| box_at(array, i))
}

impl PredicateScratch {
    /// The boxes kept for the first column.
    pub closed spec fn left_boxes(self) -> Seq<Bbox> {
        self.left@
    }

    /// The boxes kept for the second column.
    pub closed spec fn right_boxes(self) -> Seq<Bbox> {
        self.right@
    }

    /// Create empty scratch buffers.
    pub fn new() -> (r: PredicateScratch)
        ensures
            r.left_boxes() == Seq::<Bbox>::empty(),
            r.right_boxes() == Seq::<Bbox>::empty(),
    {
        PredicateScratch { left: Vec::new(), right: Vec::new() }
    }
}

impl Default for PredicateScratch {
    fn default() -> (r: PredicateScratch)
        ensures
            r.left_boxes() == Seq::<Bbox>::empty(),
            r.right_boxes() == Seq::<Bbox>::empty(),
    {
        PredicateScratch::new()
    }
}

/// Which side of a binary predicate a constant argument sits on.
#[derive(Debug, Clone, Copy, PartialEq, Eq, Structural, Hash)]
pub enum Side {
    /// The constant is the first argument.
    Left,
    /// The constant is the second argument.
    Right,
}

/// A two-argument spatial predicate.
#[derive(Debug, Clone, Copy, PartialEq, Eq, Structural, Hash)]
pub enum Predicate {
    /// `ST_Intersects`.
    Intersects,
    /// `ST_Disjoint`.
    Disjoint,
    /// `ST_Contains`.
    Contains,
    /// `ST_ContainsProperly`.
    ContainsProperly,
    /// `ST_Within`.
    Within,
    /// `ST_Covers`.
    Covers,
    /// `ST_CoveredBy`.
    CoveredBy,
    /// `ST_Touches`.
    Touches,
    /// `ST_Crosses`.
    Crosses,
    /// `ST_Overlaps`.
    Overlaps,
    /// `ST_Equals`.
    Equals,
}

/// How an indexed point-in-polygon verdict answers one predicate.
///
/// The index reports one of three positions for a point against a polygonal constant. Each direct
/// predicate reads that one verdict, so no row walks the rings. See [`Predicate::point_rule`].
#[derive(Debug, Clone, Copy, PartialEq, Eq, Structural, Hash)]
pub enum PointRule {
    /// True inside only. `ST_Contains`, `ST_ContainsProperly` and `ST_Within`.
    Inside,
    /// True inside and on the boundary. `ST_Intersects`, `ST_Covers` and `ST_CoveredBy`.
    NotOutside,
    /// True outside only. `ST_Disjoint`.
    Outside,
}

impl PointRule {
    /// What the rule says of a position.
    pub open spec fn reads(self, position: CoordPos) -> bool {
        match self {
            PointRule::Inside => position == CoordPos::Inside,
            PointRule::NotOutside => position != CoordPos::Outside,
            PointRule::Outside => position == CoordPos::Outside,
        }
    }

    /// Read one verdict.
    pub fn read(self, position: CoordPos) -> (r: bool)
        ensures
            r == self.reads(position),
    {
        match self {
            PointRule::Inside => position == CoordPos::Inside,
            PointRule::NotOutside => position != CoordPos::Outside,
            PointRule::Outside => position == CoordPos::Outside,
        }
    }
}

/// The exact tests that build no matrix.
#[derive(Debug, Clone, Copy, PartialEq, Eq, Structural, Hash)]
pub enum Direct {
    /// The two have a point in common.
    Intersects,
    /// The second lies in the first, and their interiors meet.
    Contains,
    /// The second lies in the interior of the first.
    ContainsProperly,
    /// The second lies in the first.
    Covers,
}

/// The exact tests that the caller supplies.
pub struct Exact<D, R, C, O> {
    /// Answers one direct test of two geometries.
    pub direct: D,
    /// Computes the matrix of two geometries. The flag tells whether the first one is a constant
    /// that is worth a prepared form.
    pub relate: R,
    /// Picks the bucket of a y value.
    pub cell: C,
    /// Tells the side of an edge that a point lies on.
    pub orient: O,
}

/// True when the exact tests can be asked.
pub open spec fn can_answer<D, R, C, O>(exact: Exact<D, R, C, O>) -> bool where
    D: Fn(Direct, &Geometry, &Geometry) -> bool,
    R: Fn(&Geometry, &Geometry, bool) -> IntersectionMatrix,
    C: Fn(u64, u64, u64, usize) -> usize,
    O: Fn(Coord, Coord, Coord) -> Orientation,
 {
    &&& forall|t: Direct, a: &Geometry, b: &Geometry| #[trigger] exact.direct.requires((t, a, b))
    &&& forall|a: &Geometry, b: &Geometry, p: bool| #[trigger] exact.relate.requires((a, b, p))
    &&& picks_cells(exact.cell)
    &&& forall|a: Coord, b: Coord, p: Coord| #[trigger] exact.orient.requires((a, b, p))
}

/// True when a direct test gave `out` for the two geometries.
pub open spec fn is_direct<D: Fn(Direct, &Geometry, &Geometry) -> bool>(
    direct: D,
    test: Direct,
    left: GeometryView,
    right: GeometryView,
    out: bool,
) -> bool {
    exists|a: Geometry, b: Geometry|
        {
            &&& #[trigger] a@ == left
            &&& #[trigger] b@ == right
            &&& direct.ensures((test, &a, &b), out)
        }
}

/// True when `matrix` was computed for the two geometries.
pub open spec fn is_related<R: Fn(&Geometry, &Geometry, bool) -> IntersectionMatrix>(
    relate: R,
    left: GeometryView,
    right: GeometryView,
    prepared: bool,
    matrix: IntersectionMatrix,
) -> bool {
    exists|a: Geometry, b: Geometry|
        {
            &&& #[trigger] a@ == left
            &&& #[trigger] b@ == right
            &&& relate.ensures((&a, &b, prepared), matrix)
        }
}

/// True when `text` is that of the matrix of the two geometries.
pub open spec fn is_relation_text<R: Fn(&Geometry, &Geometry, bool) -> IntersectionMatrix>(
    relate: R,
    left: GeometryView,
    right: GeometryView,
    text: Seq<char>,
) -> bool {
    exists|matrix: IntersectionMatrix| #[trigger]
        is_related(relate, left, right, false, matrix) && text == matrix_text(matrix)
}

impl Predicate {
    /// The PostGIS function name.
    pub open spec fn name_text(self) -> Seq<char> {
        match self {
            Predicate::Intersects => "ST_Intersects"@,
            Predicate::Disjoint => "ST_Disjoint"@,
            Predicate::Contains => "ST_Contains"@,
            Predicate::ContainsProperly => "ST_ContainsProperly"@,
            Predicate::Within => "ST_Within"@,
            Predicate::Covers => "ST_Covers"@,
            Predicate::CoveredBy => "ST_CoveredBy"@,
            Predicate::Touches => "ST_Touches"@,
            Predicate::Crosses => "ST_Crosses"@,
            Predicate::Overlaps => "ST_Overlaps"@,
            Predicate::Equals => "ST_Equals"@,
        }
    }

    /// The lowercase SQL name.
    pub open spec fn sql_text(self) -> Seq<char> {
        match self {
            Predicate::Intersects => "st_intersects"@,
            Predicate::Disjoint => "st_disjoint"@,
            Predicate::Contains => "st_contains"@,
            Predicate::ContainsProperly => "st_containsproperly"@,
            Predicate::Within => "st_within"@,
            Predicate::Covers => "st_covers"@,
            Predicate::CoveredBy => "st_coveredby"@,
            Predicate::Touches => "st_touches"@,
            Predicate::Crosses => "st_crosses"@,
            Predicate::Overlaps => "st_overlaps"@,
            Predicate::Equals => "st_equals"@,
        }
    }

    /// Every predicate.
    pub open spec fn list() -> Seq<Predicate> {
        seq![
            Predicate::Intersects,
            Predicate::Disjoint,
            Predicate::Contains,
            Predicate::ContainsProperly,
            Predicate::Within,
            Predicate::Covers,
            Predicate::CoveredBy,
            Predicate::Touches,
            Predicate::Crosses,
            Predicate::Overlaps,
            Predicate::Equals,
        ]
    }

    /// True when the exact test needs the full DE-9IM matrix.
    pub open spec fn wants_matrix(self) -> bool {
        match self {
            Predicate::Touches | Predicate::Crosses | Predicate::Overlaps | Predicate::Equals => {
                true
            },
            _ => false,
        }
    }

    /// How a point-in-polygon verdict answers the predicate, with the area on the given side.
    pub open spec fn rule(self, areal_side: Side) -> Option<PointRule> {
        match (self, areal_side) {
            (Predicate::Contains | Predicate::ContainsProperly, Side::Left) => Some(
                PointRule::Inside,
            ),
            (Predicate::Within, Side::Right) => Some(PointRule::Inside),
            (Predicate::Covers, Side::Left) => Some(PointRule::NotOutside),
            (Predicate::CoveredBy, Side::Right) => Some(PointRule::NotOutside),
            (Predicate::Intersects, _) => Some(PointRule::NotOutside),
            (Predicate::Disjoint, _) => Some(PointRule::Outside),
            _ => None,
        }
    }

    /// True when a swap of the two arguments cannot change the answer.
    pub open spec fn goes_both_ways(self) -> bool {
        match self {
            Predicate::Intersects | Predicate::Disjoint | Predicate::Touches | Predicate::Crosses
            | Predicate::Overlaps | Predicate::Equals => true,
            _ => false,
        }
    }

    /// What the bounding boxes alone settle.
    pub open spec fn verdict(self, left: Bbox, right: Bbox) -> Option<bool> {
        match self {
            Predicate::Disjoint => if left.meets(right) {
                None
            } else {
                Some(true)
            },
            Predicate::Contains | Predicate::ContainsProperly | Predicate::Covers => {
                if left.holds(right) {
                    None
                } else {
                    Some(false)
                }
            },
            Predicate::Within | Predicate::CoveredBy => if right.holds(left) {
                None
            } else {
                Some(false)
            },
            Predicate::Equals => if left.is_same(right) {
                None
            } else {
                Some(false)
            },
            _ => if left.meets(right) {
                None
            } else {
                Some(false)
            },
        }
    }

    /// What a matrix says of the predicate.
    pub open spec fn reads(self, matrix: IntersectionMatrix) -> bool {
        match self {
            Predicate::Intersects => !matrix.says_disjoint(),
            Predicate::Disjoint => matrix.says_disjoint(),
            Predicate::Contains => matrix.says_contains(),
            Predicate::ContainsProperly => matrix.says_contains_properly(),
            Predicate::Within => matrix.says_within(),
            Predicate::Covers => matrix.says_covers(),
            Predicate::CoveredBy => matrix.says_covered_by(),
            Predicate::Touches => matrix.says_touches(),
            Predicate::Crosses => matrix.says_crosses(),
            Predicate::Overlaps => matrix.says_overlaps(),
            Predicate::Equals => matrix.says_equal(),
        }
    }

    /// True when `out` is what the exact test gives, with no cached index.
    ///
    /// `Within` is the converse of `Contains`, so it asks the same test the other way round.
    pub open spec fn is_evaluated<D, R, C, O>(
        self,
        exact: Exact<D, R, C, O>,
        left: GeometryView,
        right: GeometryView,
        out: bool,
    ) -> bool where
        D: Fn(Direct, &Geometry, &Geometry) -> bool,
        R: Fn(&Geometry, &Geometry, bool) -> IntersectionMatrix,
        C: Fn(u64, u64, u64, usize) -> usize,
        O: Fn(Coord, Coord, Coord) -> Orientation,
     {
        match self {
            Predicate::Intersects => is_direct(exact.direct, Direct::Intersects, left, right, out),
            Predicate::Disjoint => is_direct(exact.direct, Direct::Intersects, left, right, !out),
            Predicate::Contains => is_direct(exact.direct, Direct::Contains, left, right, out),
            Predicate::ContainsProperly => is_direct(
                exact.direct,
                Direct::ContainsProperly,
                left,
                right,
                out,
            ),
            Predicate::Within => is_direct(exact.direct, Direct::Contains, right, left, out),
            Predicate::Covers => is_direct(exact.direct, Direct::Covers, left, right, out),
            Predicate::CoveredBy => is_direct(exact.direct, Direct::Covers, right, left, out),
            _ => exists|matrix: IntersectionMatrix| #[trigger]
                is_related(exact.relate, left, right, false, matrix) && out == self.reads(matrix),
        }
    }

    /// The PostGIS function name.
    pub fn function_name(self) -> (r: &'static str)
        ensures
            r@ == self.name_text(),
    {
        match self {
            Predicate::Intersects => "ST_Intersects",
            Predicate::Disjoint => "ST_Disjoint",
            Predicate::Contains => "ST_Contains",
            Predicate::ContainsProperly => "ST_ContainsProperly",
            Predicate::Within => "ST_Within",
            Predicate::Covers => "ST_Covers",
            Predicate::CoveredBy => "ST_CoveredBy",
            Predicate::Touches => "ST_Touches",
            Predicate::Crosses => "ST_Crosses",
            Predicate::Overlaps => "ST_Overlaps",
            Predicate::Equals => "ST_Equals",
        }
    }

    /// The lowercase SQL name.
    pub fn sql_name(self) -> (r: &'static str)
        ensures
            r@ == self.sql_text(),
    {
        match self {
            Predicate::Intersects => "st_intersects",
            Predicate::Disjoint => "st_disjoint",
            Predicate::Contains => "st_contains",
            Predicate::ContainsProperly => "st_containsproperly",
            Predicate::Within => "st_within",
            Predicate::Covers => "st_covers",
            Predicate::CoveredBy => "st_coveredby",
            Predicate::Touches => "st_touches",
            Predicate::Crosses => "st_crosses",
            Predicate::Overlaps => "st_overlaps",
            Predicate::Equals => "st_equals",
        }
    }

    /// Every predicate, for registration.
    pub fn all() -> (r: [Predicate; 11])
        ensures
            r@ == Predicate::list(),
    {
        let r = [
            Predicate::Intersects,
            Predicate::Disjoint,
            Predicate::Contains,
            Predicate::ContainsProperly,
            Predicate::Within,
            Predicate::Covers,
            Predicate::CoveredBy,
            Predicate::Touches,
            Predicate::Crosses,
            Predicate::Overlaps,
            Predicate::Equals,
        ];
        assert(r@ =~= Predicate::list());
        r
    }

    /// True when the exact test needs the full DE-9IM matrix.
    ///
    /// Only these benefit from the prepared form of a [`PreparedLiteral`].
    pub fn needs_relate(self) -> (r: bool)
        ensures
            r == self.wants_matrix(),
    {
        match self {
            Predicate::Touches | Predicate::Crosses | Predicate::Overlaps | Predicate::Equals => {
                true
            },
            _ => false,
        }
    }

    /// How a point-in-polygon verdict answers this predicate, when the areal argument is the
    /// constant one.
    ///
    /// `areal_side` is the side the polygonal constant sits on. `None` means the index cannot
    /// answer: the constant is on the wrong side of a one-way predicate, or the predicate needs
    /// the DE-9IM matrix.
    ///
    /// A point has no interior of its own, so `ST_Contains` and `ST_Within` reduce to one
    /// question, and so do `ST_Covers`, `ST_CoveredBy` and `ST_Intersects`.
    pub fn point_rule(self, areal_side: Side) -> (r: Option<PointRule>)
        ensures
            r == self.rule(areal_side),
    {
        match (self, areal_side) {
            // The constant holds the point. Only the interior counts.
            (Predicate::Contains | Predicate::ContainsProperly, Side::Left) => Some(
                PointRule::Inside,
            ),
            (Predicate::Within, Side::Right) => Some(PointRule::Inside),
            // The boundary counts as well.
            (Predicate::Covers, Side::Left) => Some(PointRule::NotOutside),
            (Predicate::CoveredBy, Side::Right) => Some(PointRule::NotOutside),
            // Symmetric, so the constant may sit on either side.
            (Predicate::Intersects, _) => Some(PointRule::NotOutside),
            (Predicate::Disjoint, _) => Some(PointRule::Outside),
            // Either the constant is the inner argument, which no index of the constant can
            // answer, or the predicate needs the matrix.
            _ => None,
        }
    }

    /// True when a swap of the two arguments cannot change the answer.
    ///
    /// A symmetric predicate lets a constant argument always take the cached side, whichever way
    /// round the query wrote it.
    pub fn is_symmetric(self) -> (r: bool)
        ensures
            r == self.goes_both_ways(),
    {
        match self {
            Predicate::Intersects | Predicate::Disjoint | Predicate::Touches | Predicate::Crosses
            | Predicate::Overlaps | Predicate::Equals => true,
            _ => false,
        }
    }

    /// What the bounding boxes alone can settle, if anything.
    ///
    /// `Some(answer)` skips the exact test for that row.
    pub fn bbox_verdict(self, left: &Bbox, right: &Bbox) -> (r: Option<bool>)
        ensures
            r == self.verdict(*left, *right),
    {
        match self {
            // The one predicate a disjoint pair of boxes proves outright.
            Predicate::Disjoint => if left.intersects(right) {
                None
            } else {
                Some(true)
            },
            // The inner side must fit inside the box of the outer side.
            Predicate::Contains | Predicate::ContainsProperly | Predicate::Covers => {
                if left.contains(right) {
                    None
                } else {
                    Some(false)
                }
            },
            Predicate::Within | Predicate::CoveredBy => if right.contains(left) {
                None
            } else {
                Some(false)
            },
            // Equal geometries have equal boxes.
            Predicate::Equals => if left.same(right) {
                None
            } else {
                Some(false)
            },
            _ => if left.intersects(right) {
                None
            } else {
                Some(false)
            },
        }
    }

    /// The exact test, with no cached index.
    pub fn evaluate<D, R, C, O>(
        self,
        left: &Geometry,
        right: &Geometry,
        exact: &Exact<D, R, C, O>,
    ) -> (r: bool) where
        D: Fn(Direct, &Geometry, &Geometry) -> bool,
        R: Fn(&Geometry, &Geometry, bool) -> IntersectionMatrix,
        C: Fn(u64, u64, u64, usize) -> usize,
        O: Fn(Coord, Coord, Coord) -> Orientation,

        requires
            can_answer(*exact),
        ensures
            self.is_evaluated(*exact, left@, right@, r),
    {
        let direct = &exact.direct;
        let relate = &exact.relate;
        match self {
            Predicate::Intersects => ask(direct, Direct::Intersects, left, right),
            Predicate::Disjoint => !ask(direct, Direct::Intersects, left, right),
            Predicate::Contains => ask(direct, Direct::Contains, left, right),
            Predicate::ContainsProperly => ask(direct, Direct::ContainsProperly, left, right),
            Predicate::Within => ask(direct, Direct::Contains, right, left),
            Predicate::Covers => ask(direct, Direct::Covers, left, right),
            Predicate::CoveredBy => ask(direct, Direct::Covers, right, left),
            _ => {
                let matrix = ask_matrix(relate, left, right, false);
                self.read_matrix(&matrix)
            },
        }
    }

    /// Read this predicate out of an already computed DE-9IM matrix.
    pub fn read_matrix(self, matrix: &IntersectionMatrix) -> (r: bool)
        ensures
            r == self.reads(*matrix),
    {
        match self {
            Predicate::Intersects => matrix.is_intersects(),
            Predicate::Disjoint => matrix.is_disjoint(),
            Predicate::Contains => matrix.is_contains(),
            Predicate::ContainsProperly => matrix.is_contains_properly(),
            Predicate::Within => matrix.is_within(),
            Predicate::Covers => matrix.is_covers(),
            Predicate::CoveredBy => matrix.is_coveredby(),
            Predicate::Touches => matrix.is_touches(),
            Predicate::Crosses => matrix.is_crosses(),
            Predicate::Overlaps => matrix.is_overlaps(),
            Predicate::Equals => matrix.is_equal_topo(),
        }
    }
}

/// Ask one direct test.
fn ask<D: Fn(Direct, &Geometry, &Geometry) -> bool>(
    direct: &D,
    test: Direct,
    left: &Geometry,
    right: &Geometry,
) -> (r: bool)
    requires
        forall|t: Direct, a: &Geometry, b: &Geometry| #[trigger] direct.requires((t, a, b)),
    ensures
        is_direct(*direct, test, left@, right@, r),
{
    let r = direct(test, left, right);
    assert(direct.ensures((test, left, right), r));
    r
}

/// Ask for the matrix.
fn ask_matrix<R: Fn(&Geometry, &Geometry, bool) -> IntersectionMatrix>(
    relate: &R,
    left: &Geometry,
    right: &Geometry,
    prepared: bool,
) -> (r: IntersectionMatrix)
    requires
        forall|a: &Geometry, b: &Geometry, p: bool| #[trigger] relate.requires((a, b, p)),
    ensures
        is_related(*relate, left@, right@, prepared, r),
{
    let r = relate(left, right, prepared);
    assert(relate.ensures((left, right, prepared), r));
    r
}

// -------------------------------------------------------------------- literals
/// Coordinate count at which a prepared form starts to pay for itself on a `relate` call.
pub const PREPARE_THRESHOLD: usize = 32;

/// Coordinate count at which the point-in-polygon index starts to pay for itself.
///
/// Below this the walk over every edge is already cheap, and the index build is loss. A closed
/// ring of `n` vertices holds `n + 1` coordinates.
pub const POINT_INDEX_THRESHOLD: usize = 16;

/// A constant geometry, held for repeated tests against every row of a batch.
///
/// The bounding box is computed once at construction. The prepared form is asked for on the first
/// matrix, and the edge index is built on the first point probe.
pub struct PreparedLiteral {
    geometry: Geometry,
    bbox: Bbox,
    coord_count: usize,
    /// True once the prepared form has been asked for.
    prepared: bool,
    /// Built on demand for a point probe.
    point_index: Option<PointInPolygonIndex>,
}

/// True when an index over the polygons gave `pos`.
pub open spec fn is_indexed_place<C, O>(
    cell: C,
    orient: O,
    literal: GeometryView,
    c: Coord,
    pos: CoordPos,
) -> bool where
    C: Fn(u64, u64, u64, usize) -> usize,
    O: Fn(Coord, Coord, Coord) -> Orientation,
 {
    match polygonal_parts(literal) {
        Some(polygons) => exists|index: PointInPolygonIndex|
            index.is_over(cell, polygons) && #[trigger] index.is_located(cell, orient, c, pos),
        None => false,
    }
}

/// True when a literal is large enough to be worth a prepared form.
pub open spec fn is_worth_preparing(literal: GeometryView) -> bool {
    coords_of(literal).len() >= PREPARE_THRESHOLD
}

/// True when a literal is polygonal and large enough to be worth an edge index.
pub open spec fn is_worth_an_index(literal: GeometryView) -> bool {
    polygonal_parts(literal) is Some && coords_of(literal).len() >= POINT_INDEX_THRESHOLD
}

/// True when `out` is what a literal gives for a row.
///
/// A predicate that needs the matrix reads it with the literal as the first argument: every one of
/// them is symmetric. A point against an indexed literal reads the verdict of the index. Everything
/// else takes its direct test, with the arguments in the order of the query.
pub open spec fn is_literal_answer<D, R, C, O>(
    exact: Exact<D, R, C, O>,
    literal: GeometryView,
    predicate: Predicate,
    other: GeometryView,
    side: Side,
    out: bool,
) -> bool where
    D: Fn(Direct, &Geometry, &Geometry) -> bool,
    R: Fn(&Geometry, &Geometry, bool) -> IntersectionMatrix,
    C: Fn(u64, u64, u64, usize) -> usize,
    O: Fn(Coord, Coord, Coord) -> Orientation,
 {
    if predicate.wants_matrix() {
        exists|matrix: IntersectionMatrix| #[trigger]
            is_related(
                exact.relate,
                literal,
                other,
                is_worth_preparing(literal),
                matrix,
            ) && out == predicate.reads(matrix)
    } else if other is Point && predicate.rule(side) is Some && is_worth_an_index(literal) {
        exists|pos: CoordPos| #[trigger]
            is_indexed_place(exact.cell, exact.orient, literal, other->Point_0, pos) && out
                == predicate.rule(side)->0.reads(pos)
    } else if side == Side::Left {
        predicate.is_evaluated(exact, literal, other, out)
    } else {
        predicate.is_evaluated(exact, other, literal, out)
    }
}

impl PreparedLiteral {
    /// The underlying geometry.
    pub closed spec fn value(self) -> GeometryView {
        self.geometry@
    }

    /// True once the prepared form has been asked for.
    pub closed spec fn is_prepared(self) -> bool {
        self.prepared
    }

    /// The edge index, once it is built.
    pub closed spec fn kept_index(self) -> Option<PointInPolygonIndex> {
        self.point_index
    }

    /// True once the edge index exists.
    pub open spec fn holds_point_index(self) -> bool {
        self.kept_index() is Some
    }

    /// The cached values are those of the geometry.
    pub closed spec fn is_sound(self) -> bool {
        &&& self.bbox == box_over(outline(self.geometry@))
        &&& self.coord_count == coords_of(self.geometry@).len()
        &&& is_indexable(self.geometry@)
    }

    /// The literal is sound, and its index, if it has one, was built with the closure.
    pub open spec fn fits<C: Fn(u64, u64, u64, usize) -> usize>(self, cell: C) -> bool {
        &&& self.is_sound()
        &&& match self.kept_index() {
            Some(index) => {
                &&& is_worth_an_index(self.value())
                &&& index.wf()
                &&& index.is_over(cell, polygonal_parts(self.value())->0)
            },
            None => true,
        }
    }

    /// Hold a literal geometry for repeated tests.
    ///
    /// This does no index work. Construction is cheap.
    pub fn new(geometry: Geometry) -> (r: PreparedLiteral)
        requires
            is_indexable(geometry@),
        ensures
            r.is_sound(),
            r.value() == geometry@,
            !r.is_prepared(),
            !r.holds_point_index(),
    {
        let bbox = bbox_of(&geometry);
        let coord_count: usize = geometry.coords().len();
        PreparedLiteral { geometry, bbox, coord_count, prepared: false, point_index: None }
    }

    /// The bounding box of the literal. Computed once, tested against every row.
    pub fn bbox(&self) -> (r: Bbox)
        requires
            self.is_sound(),
        ensures
            r == box_over(outline(self.value())),
    {
        self.bbox
    }

    /// The underlying geometry.
    pub fn geometry(&self) -> (r: &Geometry)
        ensures
            r@ == self.value(),
    {
        &self.geometry
    }

    /// Returns true when this literal can never intersect anything.
    pub fn is_empty(&self) -> (r: bool)
        requires
            self.is_sound(),
        ensures
            r == box_over(outline(self.value())).is_void(),
    {
        self.bbox.is_empty()
    }

    /// Exact intersection test through the direct algorithm.
    pub fn intersects<D: Fn(Direct, &Geometry, &Geometry) -> bool>(
        &self,
        other: &Geometry,
        direct: &D,
    ) -> (r: bool)
        requires
            forall|t: Direct, a: &Geometry, b: &Geometry| #[trigger] direct.requires((t, a, b)),
        ensures
            is_direct(*direct, Direct::Intersects, self.value(), other@, r),
    {
        ask(direct, Direct::Intersects, &self.geometry, other)
    }

    /// Full DE-9IM matrix against one geometry, with this literal as the first argument.
    ///
    /// The first call asks for the prepared form when the literal is large enough.
    pub fn relate<R>(&mut self, other: &Geometry, relate: &R) -> (r: IntersectionMatrix) where
        R: Fn(&Geometry, &Geometry, bool) -> IntersectionMatrix,

        requires
            old(self).is_sound(),
            forall|a: &Geometry, b: &Geometry, p: bool| #[trigger] relate.requires((a, b, p)),
        ensures
            final(self).is_sound(),
            final(self).value() == old(self).value(),
            final(self).kept_index() == old(self).kept_index(),
            final(self).is_prepared() == (old(self).is_prepared() || is_worth_preparing(
                old(self).value(),
            )),
            is_related(
                *relate,
                old(self).value(),
                other@,
                is_worth_preparing(old(self).value()),
                r,
            ),
    {
        let large = self.coord_count >= PREPARE_THRESHOLD;
        if large {
            self.prepared = true;
        }
        ask_matrix(relate, &self.geometry, other, large)
    }

    /// Build the edge index on the first point probe, where the literal is worth one.
    fn point_index<C: Fn(u64, u64, u64, usize) -> usize>(&mut self, cell: &C) -> (r: bool)
        requires
            old(self).fits(*cell),
            picks_cells(*cell),
        ensures
            final(self).fits(*cell),
            final(self).value() == old(self).value(),
            final(self).is_prepared() == old(self).is_prepared(),
            r == is_worth_an_index(old(self).value()),
            final(self).holds_point_index() == r,
    {
        if self.point_index.is_some() {
            return true;
        }
        if self.coord_count < POINT_INDEX_THRESHOLD {
            return false;
        }
        self.point_index = PointInPolygonIndex::new(&self.geometry, cell);
        self.point_index.is_some()
    }

    /// Evaluate a predicate against one row. The argument order of the query is kept.
    ///
    /// A DE-9IM predicate goes through the cached matrix. Everything else takes its direct
    /// algorithm, because that is faster even against the cache.
    pub fn evaluate<D, R, C, O>(
        &mut self,
        predicate: Predicate,
        other: &Geometry,
        literal_side: Side,
        exact: &Exact<D, R, C, O>,
    ) -> (r: bool) where
        D: Fn(Direct, &Geometry, &Geometry) -> bool,
        R: Fn(&Geometry, &Geometry, bool) -> IntersectionMatrix,
        C: Fn(u64, u64, u64, usize) -> usize,
        O: Fn(Coord, Coord, Coord) -> Orientation,

        requires
            old(self).fits(exact.cell),
            can_answer(*exact),
        ensures
            final(self).fits(exact.cell),
            final(self).value() == old(self).value(),
            is_literal_answer(
                *exact,
                old(self).value(),
                predicate,
                other@,
                literal_side,
                r,
            ),
            final(self).is_prepared() == (old(self).is_prepared() || (predicate.wants_matrix()
                && is_worth_preparing(old(self).value()))),
            final(self).holds_point_index() == (old(self).holds_point_index() || (
            !predicate.wants_matrix() && other@ is Point && predicate.rule(literal_side) is Some
                && is_worth_an_index(old(self).value()))),
    {
        if predicate.needs_relate() {
            // Every predicate that needs the matrix is symmetric, so the literal can always be
            // the first argument and keep the benefit of the prepared form.
            let matrix = self.relate(other, &exact.relate);
            return predicate.read_matrix(&matrix);
        }
        // A point against a polygonal constant. One indexed verdict answers every direct
        // predicate, so the row reads the edges that cross its own y and never walks a ring.

        if let Geometry::Point(point) = other {
            if let Some(rule) = predicate.point_rule(literal_side) {
                if self.point_index(&exact.cell) {
                    if let Some(index) = &self.point_index {
                        let pos = index.locate(*point, &exact.cell, &exact.orient);
                        proof {
                            assert(is_indexed_place(
                                exact.cell,
                                exact.orient,
                                old(self).value(),
                                *point,
                                pos,
                            ));
                        }
                        let answer = rule.read(pos);
                        proof {
                            assert(predicate.rule(literal_side) == Some(rule));
                            assert(is_worth_an_index(old(self).value()));
                            assert(other@ is Point && other@->Point_0 == *point);
                            assert(answer == predicate.rule(literal_side)->0.reads(pos));
                        }
                        return answer;
                    }
                }
            }
        }
        match literal_side {
            Side::Left => predicate.evaluate(&self.geometry, other, exact),
            Side::Right => predicate.evaluate(other, &self.geometry, exact),
        }
    }

    /// Returns true once the prepared form has been asked for.
    pub fn is_indexed(&self) -> (r: bool)
        ensures
            r == self.is_prepared(),
    {
        self.prepared
    }

    /// Returns true once the point-in-polygon index exists.
    pub fn has_point_index(&self) -> (r: bool)
        ensures
            r == self.holds_point_index(),
    {
        self.point_index.is_some()
    }
}

// ----------------------------------------------------------------- two columns
/// True when `out` is what a predicate gives for a row of two columns.
///
/// A null on either side gives a null. Else the boxes settle the row, or the exact test does.
pub open spec fn is_row_answer<D, R, C, O>(
    exact: Exact<D, R, C, O>,
    predicate: Predicate,
    left: ColumnView,
    i: int,
    right: ColumnView,
    j: int,
    out: Option<bool>,
) -> bool where
    D: Fn(Direct, &Geometry, &Geometry) -> bool,
    R: Fn(&Geometry, &Geometry, bool) -> IntersectionMatrix,
    C: Fn(u64, u64, u64, usize) -> usize,
    O: Fn(Coord, Coord, Coord) -> Orientation,
 {
    if left.is_null(i) || right.is_null(j) {
        out is None
    } else {
        match predicate.verdict(box_at(left, i), box_at(right, j)) {
            Some(answer) => out == Some(answer),
            None => out is Some && predicate.is_evaluated(
                exact,
                left.geometry(i)->0,
                right.geometry(j)->0,
                out->0,
            ),
        }
    }
}

/// When a kernel that reads the boxes of two columns gives a value per row, and when it fails.
pub open spec fn is_boxes_read<T>(
    left: ColumnView,
    right: ColumnView,
    function: Seq<char>,
    r: Result<Vec<T>, Error>,
) -> bool {
    let broken = left.has_broken(left.rows()) || right.has_broken(right.rows());
    match r {
        Ok(out) => lengths_fit(left.rows(), right.rows(), out@.len() as int) && !broken,
        Err(Error::UnequalLengths { function: name, left: a, right: b }) => {
            &&& pair_len(left.rows(), right.rows()) is None
            &&& name@ == function
            &&& a == left.rows()
            &&& b == right.rows()
        },
        Err(Error::Undecodable) => pair_len(left.rows(), right.rows()) is Some && broken,
        Err(_) => false,
    }
}

/// Any predicate over two columns of the same length.
pub fn st_predicate<D, R, C, O>(
    left: &Column,
    right: &Column,
    predicate: Predicate,
    exact: &Exact<D, R, C, O>,
) -> (r: Result<Vec<Option<bool>>, Error>) where
    D: Fn(Direct, &Geometry, &Geometry) -> bool,
    R: Fn(&Geometry, &Geometry, bool) -> IntersectionMatrix,
    C: Fn(u64, u64, u64, usize) -> usize,
    O: Fn(Coord, Coord, Coord) -> Orientation,

    requires
        left.wf(),
        right.wf(),
        can_answer(*exact),
    ensures
        are_predicate_rows(*exact, predicate, left@, right@, r),
{
    let mut scratch = PredicateScratch::new();
    st_predicate_with(left, right, predicate, &mut scratch, exact)
}

/// What a predicate over two columns gives.
pub open spec fn are_predicate_rows<D, R, C, O>(
    exact: Exact<D, R, C, O>,
    predicate: Predicate,
    left: ColumnView,
    right: ColumnView,
    r: Result<Vec<Option<bool>>, Error>,
) -> bool where
    D: Fn(Direct, &Geometry, &Geometry) -> bool,
    R: Fn(&Geometry, &Geometry, bool) -> IntersectionMatrix,
    C: Fn(u64, u64, u64, usize) -> usize,
    O: Fn(Coord, Coord, Coord) -> Orientation,
 {
    &&& is_boxes_read(left, right, predicate.name_text(), r)
    &&& r matches Ok(out) ==> forall|i: int|
        0 <= i < out@.len() ==> is_row_answer(
            exact,
            predicate,
            left,
            slot(left.rows(), out@.len() as int, i),
            right,
            slot(right.rows(), out@.len() as int, i),
            #[trigger] out@[i],
        )
}

/// Bounding boxes for one side. One value may stand for every row.
fn box_of_row(boxes: &Vec<Bbox>, rows: usize, index: usize) -> (r: Bbox)
    requires
        boxes@.len() == 1 || boxes@.len() == rows,
        index < rows,
    ensures
        r == boxes@[slot(boxes@.len() as int, rows as int, index as int)],
{
    if boxes.len() == 1 && rows != 1 {
        boxes[0]
    } else {
        boxes[index]
    }
}

/// A column without a broken row has none in particular.
proof fn lemma_not_broken(array: ColumnView, i: int)
    requires
        !array.has_broken(array.rows()),
        0 <= i < array.rows(),
    ensures
        !array.is_broken(i),
{
}

/// Any predicate over two columns, with caller-owned scratch buffers.
pub fn st_predicate_with<D, R, C, O>(
    left: &Column,
    right: &Column,
    predicate: Predicate,
    scratch: &mut PredicateScratch,
    exact: &Exact<D, R, C, O>,
) -> (r: Result<Vec<Option<bool>>, Error>) where
    D: Fn(Direct, &Geometry, &Geometry) -> bool,
    R: Fn(&Geometry, &Geometry, bool) -> IntersectionMatrix,
    C: Fn(u64, u64, u64, usize) -> usize,
    O: Fn(Coord, Coord, Coord) -> Orientation,

    requires
        left.wf(),
        right.wf(),
        can_answer(*exact),
    ensures
        r is Ok ==> final(scratch).left_boxes() == boxes_of(left@),
        r is Ok ==> final(scratch).right_boxes() == boxes_of(right@),
        are_predicate_rows(*exact, predicate, left@, right@, r),
{
    let len: usize = match broadcast_len(predicate.function_name(), left, right) {
        Ok(len) => len,
        Err(error) => {
            return Err(error);
        },
    };
    match fill_bboxes(left, &mut scratch.left) {
        Ok(()) => {},
        Err(error) => {
            return Err(error);
        },
    }
    match fill_bboxes(right, &mut scratch.right) {
        Ok(()) => {},
        Err(error) => {
            return Err(error);
        },
    }
    let mut left_geom = match Operand::new(left, len) {
        Ok(operand) => operand,
        Err(error) => {
            assert(left@.is_broken(0));
            return Err(error);
        },
    };
    let mut right_geom = match Operand::new(right, len) {
        Ok(operand) => operand,
        Err(error) => {
            assert(right@.is_broken(0));
            return Err(error);
        },
    };
    let ghost l = left.rows();
    let ghost r = right.rows();
    let mut out: Vec<Option<bool>> = Vec::new();
    let mut i: usize = 0;
    while i < len
        invariant
            i <= len,
            left.wf(),
            right.wf(),
            can_answer(*exact),
            l == left.rows(),
            r == right.rows(),
            lengths_fit(l, r, len as int),
            !left@.has_broken(l),
            !right@.has_broken(r),
            scratch.left@ == Seq::new(l as nat, |i: int| box_at(left@, i)),
            scratch.right@ == Seq::new(r as nat, |i: int| box_at(right@, i)),
            left_geom.is_over(*left, len as int),
            right_geom.is_over(*right, len as int),
            out@.len() == i,
            forall|j: int|
                0 <= j < i ==> is_row_answer(
                    *exact,
                    predicate,
                    left@,
                    slot(l, len as int, j),
                    right@,
                    slot(r, len as int, j),
                    #[trigger] out@[j],
                ),
        decreases len - i,
    {
        let ghost li = slot(l, len as int, i as int);
        let ghost ri = slot(r, len as int, i as int);
        if side_null(left, len, i) || side_null(right, len, i) {
            out.push(None);
        } else {
            let left_box = box_of_row(&scratch.left, len, i);
            let right_box = box_of_row(&scratch.right, len, i);
            match predicate.bbox_verdict(&left_box, &right_box) {
                Some(answer) => {
                    out.push(Some(answer));
                },
                None => {
                    let lhs = match left_geom.get(i, Ghost(*left), Ghost(len as int)) {
                        Ok(value) => value,
                        Err(error) => {
                            assert(left@.is_broken(li));
                            return Err(error);
                        },
                    };
                    let rhs = match right_geom.get(i, Ghost(*right), Ghost(len as int)) {
                        Ok(value) => value,
                        Err(error) => {
                            assert(right@.is_broken(ri));
                            return Err(error);
                        },
                    };
                    match (lhs, rhs) {
                        (Some(a), Some(b)) => {
                            out.push(Some(predicate.evaluate(a, b, exact)));
                        },
                        _ => {
                            out.push(None);
                        },
                    }
                },
            }
        }
        i = i + 1;
    }
    Ok(out)
}

// ------------------------------------------------------------- against a constant
/// The position of a row of a point column.
pub open spec fn point_at(array: ColumnView, i: int) -> Coord {
    array.body->Point_coords.coord(i)
}

/// True when two positions are equal as numbers.
pub open spec fn is_same_position(a: Coord, b: Coord) -> bool {
    number::is_eq(a.x, b.x) && number::is_eq(a.y, b.y)
}

/// True when row `j` decided for row `i`: it is the row itself, or an earlier row of a point
/// column at the same position.
pub open spec fn is_decided_by(array: ColumnView, literal_box: Bbox, i: int, j: int) -> bool {
    ||| i == j
    ||| {
        &&& 0 <= j < i
        &&& array.body is Point
        &&& !literal_box.is_void()
        &&& !array.is_null(j)
        &&& is_same_position(point_at(array, i), point_at(array, j))
    }
}

/// The two boxes of a row, in the order of the query.
pub open spec fn scalar_verdict(predicate: Predicate, side: Side, literal: Bbox, row: Bbox) -> Option<
    bool,
> {
    if side == Side::Left {
        predicate.verdict(literal, row)
    } else {
        predicate.verdict(row, literal)
    }
}

/// True when `out` is what a predicate against a constant gives for a row.
pub open spec fn is_scalar_answer<D, R, C, O>(
    exact: Exact<D, R, C, O>,
    literal: GeometryView,
    predicate: Predicate,
    side: Side,
    array: ColumnView,
    i: int,
    out: Option<bool>,
) -> bool where
    D: Fn(Direct, &Geometry, &Geometry) -> bool,
    R: Fn(&Geometry, &Geometry, bool) -> IntersectionMatrix,
    C: Fn(u64, u64, u64, usize) -> usize,
    O: Fn(Coord, Coord, Coord) -> Orientation,
 {
    let literal_box = box_over(outline(literal));
    if array.is_null(i) {
        out is None
    } else {
        match scalar_verdict(predicate, side, literal_box, box_at(array, i)) {
            Some(answer) => out == Some(answer),
            None => out is Some && exists|j: int| #[trigger]
                is_decided_by(array, literal_box, i, j) && is_literal_answer(
                    exact,
                    literal,
                    predicate,
                    array.geometry(j)->0,
                    side,
                    out->0,
                ),
        }
    }
}

/// Any predicate between a column and one constant geometry.
///
/// `literal_side` records which argument of the query the constant was, so a non-symmetric
/// predicate such as `ST_Contains` keeps its meaning.
pub fn st_predicate_scalar<D, R, C, O>(
    array: &Column,
    literal: &mut PreparedLiteral,
    predicate: Predicate,
    literal_side: Side,
    scratch: &mut PredicateScratch,
    exact: &Exact<D, R, C, O>,
) -> (r: Result<Vec<Option<bool>>, Error>) where
    D: Fn(Direct, &Geometry, &Geometry) -> bool,
    R: Fn(&Geometry, &Geometry, bool) -> IntersectionMatrix,
    C: Fn(u64, u64, u64, usize) -> usize,
    O: Fn(Coord, Coord, Coord) -> Orientation,

    requires
        array.wf(),
        old(literal).fits(exact.cell),
        can_answer(*exact),
    ensures
        final(scratch).right_boxes() == old(scratch).right_boxes(),
        r is Ok ==> final(scratch).left_boxes() == boxes_of(array@),
        final(literal).fits(exact.cell),
        final(literal).value() == old(literal).value(),
        match r {
            Ok(out) => {
                &&& !array@.has_broken(array.rows())
                &&& out@.len() == array.rows()
                &&& forall|i: int|
                    0 <= i < out@.len() ==> is_scalar_answer(
                        *exact,
                        old(literal).value(),
                        predicate,
                        literal_side,
                        array@,
                        i,
                        #[trigger] out@[i],
                    )
            },
            Err(error) => array@.has_broken(array.rows()) && error == Error::Undecodable,
        },
{
    let len: usize = array.len();
    let literal_bbox = literal.bbox();
    let ghost value = literal.value();
    match fill_bboxes(array, &mut scratch.left) {
        Ok(()) => {},
        Err(error) => {
            return Err(error);
        },
    }
    // Only a point column may reuse a row, because two different geometries can share a box. And
    // the literal must hold a box of its own: then the boxes settle every row without one.
    let points: Option<&CoordBuffer> = match &array.body {
        Body::Point { coords } => if literal_bbox.is_empty() {
            None
        } else {
            Some(coords)
        },
        _ => None,
    };
    // The position of the row that was last evaluated, and its answer.
    let mut last: Option<(Coord, bool)> = None;
    let ghost mut source: int = 0;
    let mut row = empty_geometry();
    let mut out: Vec<Option<bool>> = Vec::new();
    let mut i: usize = 0;
    while i < len
        invariant
            i <= len,
            array.wf(),
            len == array.rows(),
            can_answer(*exact),
            literal.fits(exact.cell),
            literal.value() == value,
            value == old(literal).value(),
            literal_bbox == box_over(outline(value)),
            !array@.has_broken(len as int),
            scratch.left@ == Seq::new(len as nat, |i: int| box_at(array@, i)),
            match points {
                Some(coords) => {
                    &&& array.body == (Body::Point { coords: *coords })
                    &&& !literal_bbox.is_void()
                },
                None => true,
            },
            match last {
                Some((at, answer)) => {
                    &&& points is Some
                    &&& 0 <= source < i
                    &&& !array.is_null(source)
                    &&& at == point_at(array@, source)
                    &&& is_literal_answer(
                        *exact,
                        value,
                        predicate,
                        array@.geometry(source)->0,
                        literal_side,
                        answer,
                    )
                },
                None => true,
            },
            out@.len() == i,
            forall|j: int|
                0 <= j < i ==> is_scalar_answer(
                    *exact,
                    value,
                    predicate,
                    literal_side,
                    array@,
                    j,
                    #[trigger] out@[j],
                ),
        decreases len - i,
    {
        let row_bbox = scratch.left[i];
        if array.null_at(i) {
            out.push(None);
        } else {
            let verdict = match literal_side {
                Side::Left => predicate.bbox_verdict(&literal_bbox, &row_bbox),
                Side::Right => predicate.bbox_verdict(&row_bbox, &literal_bbox),
            };
            let position: Option<Coord> = match points {
                Some(coords) => Some(coords.at(i)),
                None => None,
            };
            // NaN equals nothing, so a row without a number is never reused.
            let reused: Option<bool> = match (position, last) {
                (Some(c), Some((at, answer))) => if number::eq(c.x, at.x) && number::eq(c.y, at.y) {
                    Some(answer)
                } else {
                    None
                },
                _ => None,
            };
            match (verdict, reused) {
                (Some(answer), _) => {
                    out.push(Some(answer));
                },
                (None, Some(answer)) => {
                    proof {
                        assert(is_decided_by(array@, literal_bbox, i as int, source));
                    }
                    out.push(Some(answer));
                },
                (None, None) => {
                    proof {
                        lemma_not_broken(array@, i as int);
                    }
                    let filled = array.fill_geometry(i, &mut row);
                    let answer = literal.evaluate(predicate, &row, literal_side, exact);
                    proof {
                        assert(is_decided_by(array@, literal_bbox, i as int, i as int));
                    }
                    if let Some(c) = position {
                        last = Some((c, answer));
                        proof {
                            source = i as int;
                        }
                    }
                    out.push(Some(answer));
                },
            }
        }
        i = i + 1;
    }
    Ok(out)
}

/// Any predicate between a column and a one-row constant. A null constant makes every row null, as
/// in PostGIS.
pub fn prepared_against<D, R, C, O>(
    array: &Column,
    constant: &Column,
    predicate: Predicate,
    literal_side: Side,
    scratch: &mut PredicateScratch,
    exact: &Exact<D, R, C, O>,
) -> (r: Result<Vec<Option<bool>>, Error>) where
    D: Fn(Direct, &Geometry, &Geometry) -> bool,
    R: Fn(&Geometry, &Geometry, bool) -> IntersectionMatrix,
    C: Fn(u64, u64, u64, usize) -> usize,
    O: Fn(Coord, Coord, Coord) -> Orientation,

    requires
        array.wf(),
        constant.wf(),
        constant.rows() > 0,
        constant@.geometry(0) matches Some(geom) ==> is_indexable(geom),
        can_answer(*exact),
    ensures
        final(scratch).right_boxes() == old(scratch).right_boxes(),
        r is Ok && constant@.geometry(0) is Some ==> final(scratch).left_boxes() == boxes_of(
            array@,
        ),
        constant@.geometry(0) is None ==> *final(scratch) == *old(scratch),
        is_prepared_call(*exact, array@, constant@, predicate, literal_side, r),
{
    match geometry_at(constant, 0) {
        Ok(Some(geometry)) => {
            let mut literal = PreparedLiteral::new(geometry);
            st_predicate_scalar(array, &mut literal, predicate, literal_side, scratch, exact)
        },
        Ok(None) => {
            let rows: usize = array.len();
            let mut out: Vec<Option<bool>> = Vec::new();
            let mut i: usize = 0;
            while i < rows
                invariant
                    i <= rows,
                    out@.len() == i,
                    forall|j: int| 0 <= j < i ==> #[trigger] out@[j] is None,
                decreases rows - i,
            {
                out.push(None);
                i = i + 1;
            }
            Ok(out)
        },
        Err(error) => Err(error),
    }
}

/// What a predicate between a column and a one-row constant gives.
pub open spec fn is_prepared_call<D, R, C, O>(
    exact: Exact<D, R, C, O>,
    array: ColumnView,
    constant: ColumnView,
    predicate: Predicate,
    side: Side,
    r: Result<Vec<Option<bool>>, Error>,
) -> bool where
    D: Fn(Direct, &Geometry, &Geometry) -> bool,
    R: Fn(&Geometry, &Geometry, bool) -> IntersectionMatrix,
    C: Fn(u64, u64, u64, usize) -> usize,
    O: Fn(Coord, Coord, Coord) -> Orientation,
 {
    match r {
        Ok(out) => {
            &&& !constant.is_broken(0)
            &&& out@.len() == array.rows()
            &&& match constant.geometry(0) {
                Some(literal) => !array.has_broken(array.rows()) && forall|i: int|
                    0 <= i < out@.len() ==> is_scalar_answer(
                        exact,
                        literal,
                        predicate,
                        side,
                        array,
                        i,
                        #[trigger] out@[i],
                    ),
                None => forall|i: int| 0 <= i < out@.len() ==> #[trigger] out@[i] is None,
            }
        },
        Err(error) => {
            &&& error == Error::Undecodable
            &&& constant.is_broken(0) || (constant.geometry(0) is Some && array.has_broken(
                array.rows(),
            ))
        },
    }
}

/// Any predicate, by which of its arguments are constant.
///
/// A single constant argument is prepared once and reused for the whole batch. The side keeps the
/// argument order of the query, which matters for `ST_Contains` and its relatives.
pub fn predicate_call<D, R, C, O>(
    left: &Column,
    left_is_scalar: bool,
    right: &Column,
    right_is_scalar: bool,
    predicate: Predicate,
    exact: &Exact<D, R, C, O>,
) -> (r: Result<Vec<Option<bool>>, Error>) where
    D: Fn(Direct, &Geometry, &Geometry) -> bool,
    R: Fn(&Geometry, &Geometry, bool) -> IntersectionMatrix,
    C: Fn(u64, u64, u64, usize) -> usize,
    O: Fn(Coord, Coord, Coord) -> Orientation,

    requires
        left.wf(),
        right.wf(),
        right_is_scalar && !left_is_scalar ==> right.rows() > 0,
        left_is_scalar && !right_is_scalar ==> left.rows() > 0,
        right_is_scalar && !left_is_scalar ==> (right@.geometry(0) matches Some(geom)
            ==> is_indexable(geom)),
        left_is_scalar && !right_is_scalar ==> (left@.geometry(0) matches Some(geom)
            ==> is_indexable(geom)),
        can_answer(*exact),
    ensures
        if right_is_scalar && !left_is_scalar {
            is_prepared_call(*exact, left@, right@, predicate, Side::Right, r)
        } else if left_is_scalar && !right_is_scalar {
            is_prepared_call(*exact, right@, left@, predicate, Side::Left, r)
        } else {
            are_predicate_rows(*exact, predicate, left@, right@, r)
        },
{
    let mut scratch = PredicateScratch::new();
    if right_is_scalar && !left_is_scalar {
        prepared_against(left, right, predicate, Side::Right, &mut scratch, exact)
    } else if left_is_scalar && !right_is_scalar {
        prepared_against(right, left, predicate, Side::Left, &mut scratch, exact)
    } else {
        st_predicate_with(left, right, predicate, &mut scratch, exact)
    }
}

/// `ST_Intersects`. Kept as a named entry point.
pub fn st_intersects<D, R, C, O>(left: &Column, right: &Column, exact: &Exact<D, R, C, O>) -> (r:
    Result<Vec<Option<bool>>, Error>) where
    D: Fn(Direct, &Geometry, &Geometry) -> bool,
    R: Fn(&Geometry, &Geometry, bool) -> IntersectionMatrix,
    C: Fn(u64, u64, u64, usize) -> usize,
    O: Fn(Coord, Coord, Coord) -> Orientation,

    requires
        left.wf(),
        right.wf(),
        can_answer(*exact),
    ensures
        are_predicate_rows(*exact, Predicate::Intersects, left@, right@, r),
{
    st_predicate(left, right, Predicate::Intersects, exact)
}

/// `ST_Intersects` over two columns with caller-owned scratch.
pub fn st_intersects_with<D, R, C, O>(
    left: &Column,
    right: &Column,
    scratch: &mut PredicateScratch,
    exact: &Exact<D, R, C, O>,
) -> (r: Result<Vec<Option<bool>>, Error>) where
    D: Fn(Direct, &Geometry, &Geometry) -> bool,
    R: Fn(&Geometry, &Geometry, bool) -> IntersectionMatrix,
    C: Fn(u64, u64, u64, usize) -> usize,
    O: Fn(Coord, Coord, Coord) -> Orientation,

    requires
        left.wf(),
        right.wf(),
        can_answer(*exact),
    ensures
        r is Ok ==> final(scratch).left_boxes() == boxes_of(left@),
        r is Ok ==> final(scratch).right_boxes() == boxes_of(right@),
        are_predicate_rows(*exact, Predicate::Intersects, left@, right@, r),
{
    st_predicate_with(left, right, Predicate::Intersects, scratch, exact)
}

/// `ST_Intersects` against a constant.
pub fn st_intersects_scalar<D, R, C, O>(
    array: &Column,
    literal: &mut PreparedLiteral,
    scratch: &mut PredicateScratch,
    exact: &Exact<D, R, C, O>,
) -> (r: Result<Vec<Option<bool>>, Error>) where
    D: Fn(Direct, &Geometry, &Geometry) -> bool,
    R: Fn(&Geometry, &Geometry, bool) -> IntersectionMatrix,
    C: Fn(u64, u64, u64, usize) -> usize,
    O: Fn(Coord, Coord, Coord) -> Orientation,

    requires
        array.wf(),
        old(literal).fits(exact.cell),
        can_answer(*exact),
    ensures
        final(scratch).right_boxes() == old(scratch).right_boxes(),
        r is Ok ==> final(scratch).left_boxes() == boxes_of(array@),
        final(literal).fits(exact.cell),
        final(literal).value() == old(literal).value(),
        match r {
            Ok(out) => {
                &&& !array@.has_broken(array.rows())
                &&& out@.len() == array.rows()
                &&& forall|i: int|
                    0 <= i < out@.len() ==> is_scalar_answer(
                        *exact,
                        old(literal).value(),
                        Predicate::Intersects,
                        Side::Right,
                        array@,
                        i,
                        #[trigger] out@[i],
                    )
            },
            Err(error) => array@.has_broken(array.rows()) && error == Error::Undecodable,
        },
{
    st_predicate_scalar(array, literal, Predicate::Intersects, Side::Right, scratch, exact)
}

// -------------------------------------------------------------------- distance
/// The distances that the caller supplies.
pub struct Distances<N, F, M, P> {
    /// The least distance between two geometries.
    pub near: N,
    /// The greatest distance of a point of either geometry from the other geometry.
    pub spread: F,
    /// The difference of two numbers.
    pub minus: M,
    /// The sum of two numbers.
    pub plus: P,
}

/// True when the distances can be asked for.
pub open spec fn can_measure<N, F, M, P>(distances: Distances<N, F, M, P>) -> bool where
    N: Fn(&Geometry, &Geometry) -> u64,
    F: Fn(&Geometry, &Geometry) -> u64,
    M: Fn(u64, u64) -> u64,
    P: Fn(u64, u64) -> u64,
 {
    &&& forall|a: &Geometry, b: &Geometry| #[trigger] distances.near.requires((a, b))
    &&& forall|a: &Geometry, b: &Geometry| #[trigger] distances.spread.requires((a, b))
    &&& forall|a: u64, b: u64| #[trigger] distances.minus.requires((a, b))
    &&& forall|a: u64, b: u64| #[trigger] distances.plus.requires((a, b))
}

/// True when `out` is the distance that was given for the two geometries.
pub open spec fn is_distance<N: Fn(&Geometry, &Geometry) -> u64>(
    measure: N,
    left: GeometryView,
    right: GeometryView,
    out: u64,
) -> bool {
    exists|a: Geometry, b: Geometry|
        {
            &&& #[trigger] a@ == left
            &&& #[trigger] b@ == right
            &&& measure.ensures((&a, &b), out)
        }
}

/// True when `out` is what a distance predicate gives for a row.
///
/// `ST_DFullyWithin` holds when no point of either geometry is further than the radius from the
/// other one.
///
/// For `ST_DWithin` the left box grows by the radius first. A right box that it does not meet is
/// further away than the radius, so the row needs no distance.
pub open spec fn is_distance_answer<N, F, M, P>(
    distances: Distances<N, F, M, P>,
    radius: u64,
    fully: bool,
    left: ColumnView,
    i: int,
    right: ColumnView,
    j: int,
    out: Option<bool>,
) -> bool where
    N: Fn(&Geometry, &Geometry) -> u64,
    F: Fn(&Geometry, &Geometry) -> u64,
    M: Fn(u64, u64) -> u64,
    P: Fn(u64, u64) -> u64,
 {
    if left.is_null(i) || right.is_null(j) {
        out is None
    } else if fully {
        exists|d: u64| #[trigger]
            is_distance(distances.spread, left.geometry(i)->0, right.geometry(j)->0, d) && out
                == Some(number::is_le(d, radius))
    } else {
        exists|grown: Bbox| #[trigger]
            box_at(left, i).is_expanded(radius, distances.minus, distances.plus, grown) && (
            if grown.meets(box_at(right, j)) {
                exists|d: u64| #[trigger]
                    is_distance(distances.near, left.geometry(i)->0, right.geometry(j)->0, d) && out
                        == Some(number::is_le(d, radius))
            } else {
                out == Some(false)
            })
    }
}

/// What a distance predicate over two columns gives.
pub open spec fn are_distance_rows<N, F, M, P>(
    distances: Distances<N, F, M, P>,
    radius: u64,
    fully: bool,
    left: ColumnView,
    right: ColumnView,
    r: Result<Vec<Option<bool>>, Error>,
) -> bool where
    N: Fn(&Geometry, &Geometry) -> u64,
    F: Fn(&Geometry, &Geometry) -> u64,
    M: Fn(u64, u64) -> u64,
    P: Fn(u64, u64) -> u64,
 {
    &&& is_boxes_read(left, right, "a distance predicate"@, r)
    &&& r matches Ok(out) ==> forall|i: int|
        0 <= i < out@.len() ==> is_distance_answer(
            distances,
            radius,
            fully,
            left,
            slot(left.rows(), out@.len() as int, i),
            right,
            slot(right.rows(), out@.len() as int, i),
            #[trigger] out@[i],
        )
}

/// `ST_DWithin`. True when the two are within `radius` of each other.
///
/// The radius is in coordinate units.
pub fn st_dwithin<N, F, M, P>(
    left: &Column,
    right: &Column,
    radius: u64,
    scratch: &mut PredicateScratch,
    distances: &Distances<N, F, M, P>,
) -> (r: Result<Vec<Option<bool>>, Error>) where
    N: Fn(&Geometry, &Geometry) -> u64,
    F: Fn(&Geometry, &Geometry) -> u64,
    M: Fn(u64, u64) -> u64,
    P: Fn(u64, u64) -> u64,

    requires
        left.wf(),
        right.wf(),
        can_measure(*distances),
    ensures
        r is Ok ==> final(scratch).left_boxes() == boxes_of(left@),
        r is Ok ==> final(scratch).right_boxes() == boxes_of(right@),
        are_distance_rows(*distances, radius, false, left@, right@, r),
{
    distance_predicate(left, right, radius, scratch, false, distances)
}

/// `ST_DFullyWithin`. True when every point of one is within `radius` of the other.
pub fn st_dfully_within<N, F, M, P>(
    left: &Column,
    right: &Column,
    radius: u64,
    scratch: &mut PredicateScratch,
    distances: &Distances<N, F, M, P>,
) -> (r: Result<Vec<Option<bool>>, Error>) where
    N: Fn(&Geometry, &Geometry) -> u64,
    F: Fn(&Geometry, &Geometry) -> u64,
    M: Fn(u64, u64) -> u64,
    P: Fn(u64, u64) -> u64,

    requires
        left.wf(),
        right.wf(),
        can_measure(*distances),
    ensures
        r is Ok ==> final(scratch).left_boxes() == boxes_of(left@),
        r is Ok ==> final(scratch).right_boxes() == boxes_of(right@),
        are_distance_rows(*distances, radius, true, left@, right@, r),
{
    distance_predicate(left, right, radius, scratch, true, distances)
}

fn distance_predicate<N, F, M, P>(
    left: &Column,
    right: &Column,
    radius: u64,
    scratch: &mut PredicateScratch,
    fully: bool,
    distances: &Distances<N, F, M, P>,
) -> (r: Result<Vec<Option<bool>>, Error>) where
    N: Fn(&Geometry, &Geometry) -> u64,
    F: Fn(&Geometry, &Geometry) -> u64,
    M: Fn(u64, u64) -> u64,
    P: Fn(u64, u64) -> u64,

    requires
        left.wf(),
        right.wf(),
        can_measure(*distances),
    ensures
        r is Ok ==> final(scratch).left_boxes() == boxes_of(left@),
        r is Ok ==> final(scratch).right_boxes() == boxes_of(right@),
        are_distance_rows(*distances, radius, fully, left@, right@, r),
{
    let near = &distances.near;
    let spread = &distances.spread;
    let len: usize = match broadcast_len("a distance predicate", left, right) {
        Ok(len) => len,
        Err(error) => {
            return Err(error);
        },
    };
    match fill_bboxes(left, &mut scratch.left) {
        Ok(()) => {},
        Err(error) => {
            return Err(error);
        },
    }
    match fill_bboxes(right, &mut scratch.right) {
        Ok(()) => {},
        Err(error) => {
            return Err(error);
        },
    }
    let mut left_geom = match Operand::new(left, len) {
        Ok(operand) => operand,
        Err(error) => {
            assert(left@.is_broken(0));
            return Err(error);
        },
    };
    let mut right_geom = match Operand::new(right, len) {
        Ok(operand) => operand,
        Err(error) => {
            assert(right@.is_broken(0));
            return Err(error);
        },
    };
    let ghost l = left.rows();
    let ghost r = right.rows();
    let mut out: Vec<Option<bool>> = Vec::new();
    let mut i: usize = 0;
    while i < len
        invariant
            i <= len,
            left.wf(),
            right.wf(),
            can_measure(*distances),
            near == &distances.near,
            spread == &distances.spread,
            l == left.rows(),
            r == right.rows(),
            lengths_fit(l, r, len as int),
            !left@.has_broken(l),
            !right@.has_broken(r),
            scratch.left@ == Seq::new(l as nat, |i: int| box_at(left@, i)),
            scratch.right@ == Seq::new(r as nat, |i: int| box_at(right@, i)),
            left_geom.is_over(*left, len as int),
            right_geom.is_over(*right, len as int),
            out@.len() == i,
            forall|j: int|
                0 <= j < i ==> is_distance_answer(
                    *distances,
                    radius,
                    fully,
                    left@,
                    slot(l, len as int, j),
                    right@,
                    slot(r, len as int, j),
                    #[trigger] out@[j],
                ),
        decreases len - i,
    {
        let ghost li = slot(l, len as int, i as int);
        let ghost ri = slot(r, len as int, i as int);
        // Grow one box by the radius. A row outside it is further away than the radius.
        let left_box = box_of_row(&scratch.left, len, i);
        let right_box = box_of_row(&scratch.right, len, i);
        let grown = left_box.expand(radius, &distances.minus, &distances.plus);
        let outside = !fully && !grown.intersects(&right_box);
        let answer: Option<bool> = if side_null(left, len, i) || side_null(right, len, i) {
            None
        } else if outside {
            Some(false)
        } else {
            let lhs = match left_geom.get(i, Ghost(*left), Ghost(len as int)) {
                Ok(value) => value,
                Err(error) => {
                    assert(left@.is_broken(li));
                    return Err(error);
                },
            };
            let rhs = match right_geom.get(i, Ghost(*right), Ghost(len as int)) {
                Ok(value) => value,
                Err(error) => {
                    assert(right@.is_broken(ri));
                    return Err(error);
                },
            };
            match (lhs, rhs) {
                (Some(a), Some(b)) => {
                    let distance: u64 = if fully {
                        let d: u64 = spread(a, b);
                        assert(spread.ensures((a, b), d));
                        assert(is_distance(distances.spread, a@, b@, d));
                        d
                    } else {
                        let d: u64 = near(a, b);
                        assert(near.ensures((a, b), d));
                        assert(is_distance(distances.near, a@, b@, d));
                        d
                    };
                    let close = number::le(distance, radius);
                    assert(left@.geometry(li)->0 == a@ && right@.geometry(ri)->0 == b@);
                    assert(fully ==> is_distance(distances.spread, a@, b@, distance));
                    assert(!fully ==> is_distance(distances.near, a@, b@, distance));
                    assert(close == number::is_le(distance, radius));
                    Some(close)
                },
                _ => None,
            }
        };
        proof {
            assert(left_box == box_at(left@, li));
            assert(right_box == box_at(right@, ri));
            assert(box_at(left@, li).is_expanded(radius, distances.minus, distances.plus, grown));
            assert(is_distance_answer(*distances, radius, fully, left@, li, right@, ri, answer));
        }
        out.push(answer);
        i = i + 1;
    }
    Ok(out)
}

// ---------------------------------------------------------------------- matrix
/// `ST_Relate(a, b)`. The nine character DE-9IM matrix as text.
pub fn st_relate<R: Fn(&Geometry, &Geometry, bool) -> IntersectionMatrix>(
    left: &Column,
    right: &Column,
    relate: &R,
) -> (r: Result<Vec<Option<String>>, Error>)
    requires
        left.wf(),
        right.wf(),
        forall|a: &Geometry, b: &Geometry, p: bool| #[trigger] relate.requires((a, b, p)),
    ensures
        is_pair_read(left@, right@, "ST_Relate"@, r),
        r matches Ok(out) ==> forall|i: int|
            0 <= i < out@.len() ==> match (
                left@.geometry(slot(left.rows(), out@.len() as int, i)),
                right@.geometry(slot(right.rows(), out@.len() as int, i)),
            ) {
                (Some(a), Some(b)) => #[trigger] out@[i] is Some && is_relation_text(
                    *relate,
                    a,
                    b,
                    out@[i]->0@,
                ),
                _ => out@[i] is None,
            },
{
    let text = |a: &Geometry, b: &Geometry| -> (out: Option<String>)
        ensures
            out is Some,
            is_relation_text(*relate, a@, b@, out->0@),
        {
            let matrix = ask_matrix(relate, a, b, false);
            Some(matrix.text())
        };
    map_pairs("ST_Relate", left, right, &text)
}

/// True when `out` is what `ST_Relate` with a pattern gives for a pair.
pub open spec fn is_pattern_answer<R: Fn(&Geometry, &Geometry, bool) -> IntersectionMatrix>(
    relate: R,
    left: Option<GeometryView>,
    right: Option<GeometryView>,
    pattern: Seq<char>,
    out: Option<bool>,
) -> bool {
    match (left, right) {
        (Some(a), Some(b)) => exists|m: IntersectionMatrix| #[trigger]
            is_related(relate, a, b, false, m) && out is Some && pattern_verdict(m, pattern, 0)
                == Ok::<bool, Error>(out->0),
        _ => out is None,
    }
}

/// True when a pattern fails on the matrix of a pair with the error.
pub open spec fn is_pattern_failure<R: Fn(&Geometry, &Geometry, bool) -> IntersectionMatrix>(
    relate: R,
    left: Option<GeometryView>,
    right: Option<GeometryView>,
    pattern: Seq<char>,
    error: Error,
) -> bool {
    match (left, right) {
        (Some(a), Some(b)) => exists|m: IntersectionMatrix| #[trigger]
            is_related(relate, a, b, false, m) && pattern_verdict(m, pattern, 0) == Err::<
                bool,
                Error,
            >(error),
        _ => false,
    }
}

/// True when `ST_Relate` with a pattern has an answer for a row.
pub open spec fn has_pattern_answer<R: Fn(&Geometry, &Geometry, bool) -> IntersectionMatrix>(
    relate: R,
    left: ColumnView,
    right: ColumnView,
    pattern: Seq<char>,
    rows: int,
    i: int,
) -> bool {
    exists|out: Option<bool>| #[trigger]
        is_pattern_answer(
            relate,
            left.geometry(slot(left.rows(), rows, i)),
            right.geometry(slot(right.rows(), rows, i)),
            pattern,
            out,
        )
}

/// True when row `i` is the first that fails, with the error that its own values give: one of them
/// could not be decoded, or the pattern has a bad character that the matrix comes to.
pub open spec fn is_relate_failure<R: Fn(&Geometry, &Geometry, bool) -> IntersectionMatrix>(
    relate: R,
    left: ColumnView,
    right: ColumnView,
    pattern: Seq<char>,
    rows: int,
    i: int,
    error: Error,
) -> bool {
    &&& 0 <= i < rows
    &&& no_pair_broken(left, right, rows, i)
    &&& forall|j: int|
        0 <= j < i ==> #[trigger] has_pattern_answer(relate, left, right, pattern, rows, j)
    &&& if is_pair_broken(left, right, rows, i) {
        error == Error::Undecodable
    } else {
        is_pattern_failure(
            relate,
            left.geometry(slot(left.rows(), rows, i)),
            right.geometry(slot(right.rows(), rows, i)),
            pattern,
            error,
        )
    }
}

/// `ST_Relate(a, b, pattern)`. True when the matrix matches the nine character pattern.
///
/// The length is counted in bytes and tested before any row. A bad character is met row by row, so
/// the rows before it decide whether it is. The first row that fails decides the error.
pub fn st_relate_pattern<R: Fn(&Geometry, &Geometry, bool) -> IntersectionMatrix>(
    left: &Column,
    right: &Column,
    pattern: &str,
    relate: &R,
) -> (r: Result<Vec<Option<bool>>, Error>)
    requires
        left.wf(),
        right.wf(),
        forall|a: &Geometry, b: &Geometry, p: bool| #[trigger] relate.requires((a, b, p)),
    ensures
        match pair_len(left.rows(), right.rows()) {
            None => r is Err && is_pair_read(left@, right@, "ST_Relate"@, r),
            Some(rows) => if pattern.len() != 9 {
                r == Err::<Vec<Option<bool>>, Error>(Error::PatternLength { len: pattern.len() })
            } else {
                match r {
                    Ok(out) => {
                        &&& out@.len() == rows
                        &&& no_pair_broken(left@, right@, rows, rows)
                        &&& forall|i: int|
                            0 <= i < out@.len() ==> is_pattern_answer(
                                *relate,
                                left@.geometry(slot(left.rows(), rows, i)),
                                right@.geometry(slot(right.rows(), rows, i)),
                                pattern@,
                                #[trigger] out@[i],
                            )
                    },
                    Err(error) => {
                        ||| error == Error::Undecodable && has_pair_broken(left@, right@, rows, 0)
                        ||| exists|i: int| #[trigger]
                            is_relate_failure(
                                *relate,
                                left@,
                                right@,
                                pattern@,
                                rows,
                                i,
                                error,
                            )
                    },
                }
            },
        },
{
    let len: usize = match broadcast_len("ST_Relate", left, right) {
        Ok(len) => len,
        Err(error) => {
            return Err(error);
        },
    };
    let count: usize = pattern.len();
    if count != 9 {
        return Err(Error::PatternLength { len: count });
    }
    let mut left_geom = match Operand::new(left, len) {
        Ok(operand) => operand,
        Err(error) => {
            return Err(error);
        },
    };
    let mut right_geom = match Operand::new(right, len) {
        Ok(operand) => operand,
        Err(error) => {
            return Err(error);
        },
    };
    let mut out: Vec<Option<bool>> = Vec::new();
    let mut i: usize = 0;
    while i < len
        invariant
            i <= len,
            count == 9,
            count == pattern.len(),
            left_geom.is_over(*left, len as int),
            right_geom.is_over(*right, len as int),
            forall|a: &Geometry, b: &Geometry, p: bool| #[trigger] relate.requires((a, b, p)),
            no_pair_broken(left@, right@, len as int, i as int),
            lengths_fit(left.rows(), right.rows(), len as int),
            out@.len() == i,
            forall|j: int|
                0 <= j < i ==> is_pattern_answer(
                    *relate,
                    left@.geometry(slot(left.rows(), len as int, j)),
                    right@.geometry(slot(right.rows(), len as int, j)),
                    pattern@,
                    #[trigger] out@[j],
                ),
            forall|j: int|
                0 <= j < i ==> #[trigger] has_pattern_answer(
                    *relate,
                    left@,
                    right@,
                    pattern@,
                    len as int,
                    j,
                ),
        decreases len - i,
    {
        let lhs = match left_geom.get(i, Ghost(*left), Ghost(len as int)) {
            Ok(value) => value,
            Err(error) => {
                assert(is_pair_broken(left@, right@, len as int, i as int));
                assert(is_relate_failure(
                    *relate,
                    left@,
                    right@,
                    pattern@,
                    len as int,
                    i as int,
                    error,
                ));
                return Err(error);
            },
        };
        let rhs = match right_geom.get(i, Ghost(*right), Ghost(len as int)) {
            Ok(value) => value,
            Err(error) => {
                assert(is_pair_broken(left@, right@, len as int, i as int));
                assert(is_relate_failure(
                    *relate,
                    left@,
                    right@,
                    pattern@,
                    len as int,
                    i as int,
                    error,
                ));
                return Err(error);
            },
        };
        let answer: Option<bool> = match (lhs, rhs) {
            (Some(a), Some(b)) => {
                let matrix = ask_matrix(relate, a, b, false);
                match matrix.matches(pattern) {
                    Ok(answer) => Some(answer),
                    Err(error) => {
                        assert(is_pattern_failure(
                            *relate,
                            left@.geometry(slot(left.rows(), len as int, i as int)),
                            right@.geometry(slot(right.rows(), len as int, i as int)),
                            pattern@,
                            error,
                        ));
                        assert(is_relate_failure(
                            *relate,
                            left@,
                            right@,
                            pattern@,
                            len as int,
                            i as int,
                            error,
                        ));
                        return Err(error);
                    },
                }
            },
            _ => None,
        };
        assert(is_pattern_answer(
            *relate,
            left@.geometry(slot(left.rows(), len as int, i as int)),
            right@.geometry(slot(right.rows(), len as int, i as int)),
            pattern@,
            answer,
        ));
        assert(has_pattern_answer(*relate, left@, right@, pattern@, len as int, i as int));
        out.push(answer);
        i = i + 1;
    }
    Ok(out)
}

/// Convert one row into an owned geometry.
///
/// In a loop, build a [`GeometryReader`] once instead.
pub fn geometry_at(array: &Column, index: usize) -> (r: Result<Option<Geometry>, Error>)
    requires
        array.wf(),
        index < array.rows(),
    ensures
        match r {
            Ok(Some(geom)) => !array@.is_broken(index as int) && array@.geometry(index as int)
                == Some(geom@),
            Ok(None) => array.is_null(index as int) && array@.geometry(index as int) is None,
            Err(error) => array@.is_broken(index as int) && error == Error::Undecodable,
        },
{
    let reader = GeometryReader::new(array);
    reader.get(index)
}

// ------------------------------------------------------------------------ laws
/// A swap of the boxes changes nothing for a symmetric predicate.
pub proof fn law_a_symmetric_verdict_goes_both_ways(predicate: Predicate, a: Bbox, b: Bbox)
    requires
        predicate.goes_both_ways(),
    ensures
        predicate.verdict(a, b) == predicate.verdict(b, a),
{
}

/// `ST_Within` is `ST_Contains` with its arguments swapped, and `ST_CoveredBy` is `ST_Covers`: the
/// boxes settle the same rows, the exact tests are the same, and so are the rules for a point.
pub proof fn law_converse_predicates_agree<D, R, C, O>(
    exact: Exact<D, R, C, O>,
    left: GeometryView,
    right: GeometryView,
    a: Bbox,
    b: Bbox,
    out: bool,
) where
    D: Fn(Direct, &Geometry, &Geometry) -> bool,
    R: Fn(&Geometry, &Geometry, bool) -> IntersectionMatrix,
    C: Fn(u64, u64, u64, usize) -> usize,
    O: Fn(Coord, Coord, Coord) -> Orientation,

    ensures
        Predicate::Within.verdict(a, b) == Predicate::Contains.verdict(b, a),
        Predicate::CoveredBy.verdict(a, b) == Predicate::Covers.verdict(b, a),
        Predicate::Within.is_evaluated(exact, left, right, out) == Predicate::Contains.is_evaluated(
            exact,
            right,
            left,
            out,
        ),
        Predicate::CoveredBy.is_evaluated(exact, left, right, out)
            == Predicate::Covers.is_evaluated(exact, right, left, out),
        Predicate::Within.rule(Side::Right) == Predicate::Contains.rule(Side::Left),
        Predicate::Within.rule(Side::Left) == Predicate::Contains.rule(Side::Right),
        Predicate::CoveredBy.rule(Side::Right) == Predicate::Covers.rule(Side::Left),
        Predicate::CoveredBy.rule(Side::Left) == Predicate::Covers.rule(Side::Right),
{
}

/// `ST_Disjoint` is the negation of `ST_Intersects` on every path: by the boxes, by the exact test,
/// by the rule for a point and by the matrix.
pub proof fn law_disjoint_negates_intersects<D, R, C, O>(
    exact: Exact<D, R, C, O>,
    left: GeometryView,
    right: GeometryView,
    a: Bbox,
    b: Bbox,
    side: Side,
    position: CoordPos,
    matrix: IntersectionMatrix,
    out: bool,
) where
    D: Fn(Direct, &Geometry, &Geometry) -> bool,
    R: Fn(&Geometry, &Geometry, bool) -> IntersectionMatrix,
    C: Fn(u64, u64, u64, usize) -> usize,
    O: Fn(Coord, Coord, Coord) -> Orientation,

    ensures
        match Predicate::Intersects.verdict(a, b) {
            Some(answer) => Predicate::Disjoint.verdict(a, b) == Some(!answer),
            None => Predicate::Disjoint.verdict(a, b) is None,
        },
        Predicate::Disjoint.is_evaluated(exact, left, right, out)
            == Predicate::Intersects.is_evaluated(exact, left, right, !out),
        Predicate::Disjoint.rule(side) is Some,
        Predicate::Intersects.rule(side) is Some,
        Predicate::Disjoint.rule(side)->0.reads(position) == !Predicate::Intersects.rule(
            side,
        )->0.reads(position),
        Predicate::Disjoint.reads(matrix) == !Predicate::Intersects.reads(matrix),
{
}

/// Every predicate that needs the matrix is symmetric, so the constant can always be the first
/// argument of the matrix, and no index answers it.
pub proof fn law_a_matrix_predicate_is_symmetric(predicate: Predicate, side: Side)
    requires
        predicate.wants_matrix(),
    ensures
        predicate.goes_both_ways(),
        predicate.rule(side) is None,
{
}

/// What lies inside is not outside: wherever `ST_Contains` holds for a point, `ST_Covers` and
/// `ST_Intersects` do.
pub proof fn law_a_contained_point_is_covered(position: CoordPos)
    ensures
        PointRule::Inside.reads(position) ==> PointRule::NotOutside.reads(position),
        PointRule::NotOutside.reads(position) == !PointRule::Outside.reads(position),
{
}

/// A constant box and a row box settle a row just as two columns would.
pub proof fn law_a_constant_settles_what_a_column_settles(
    predicate: Predicate,
    literal: Bbox,
    row: Bbox,
)
    ensures
        scalar_verdict(predicate, Side::Left, literal, row) == predicate.verdict(literal, row),
        scalar_verdict(predicate, Side::Right, literal, row) == predicate.verdict(row, literal),
        predicate.goes_both_ways() ==> scalar_verdict(predicate, Side::Left, literal, row)
            == scalar_verdict(predicate, Side::Right, literal, row),
{
}

/// A repeated point takes the answer of the row that it repeats: where the exact tests tell two
/// points at numerically equal positions the same, every row holds what its own test gives.
pub proof fn law_a_repeated_point_changes_no_answer<D, R, C, O>(
    exact: Exact<D, R, C, O>,
    literal: GeometryView,
    predicate: Predicate,
    side: Side,
    array: ColumnView,
    i: int,
    out: Option<bool>,
) where
    D: Fn(Direct, &Geometry, &Geometry) -> bool,
    R: Fn(&Geometry, &Geometry, bool) -> IntersectionMatrix,
    C: Fn(u64, u64, u64, usize) -> usize,
    O: Fn(Coord, Coord, Coord) -> Orientation,

    requires
        0 <= i < array.rows(),
        !array.is_null(i),
        is_scalar_answer(exact, literal, predicate, side, array, i, out),
        forall|j: int, answer: bool|
            is_decided_by(array, box_over(outline(literal)), i, j) && #[trigger] is_literal_answer(
                exact,
                literal,
                predicate,
                array.geometry(j)->0,
                side,
                answer,
            ) ==> is_literal_answer(
                exact,
                literal,
                predicate,
                array.geometry(i)->0,
                side,
                answer,
            ),
        scalar_verdict(predicate, side, box_over(outline(literal)), box_at(array, i)) is None,
    ensures
        out is Some,
        is_literal_answer(exact, literal, predicate, array.geometry(i)->0, side, out->0),
{
}

/// A side of one row answers as a column that holds the same value in every row.
pub proof fn law_one_value_stands_for_every_row(one: ColumnView, many: ColumnView, i: int)
    requires
        one.rows() == 1,
        0 <= i < many.rows(),
        forall|j: int| 0 <= j < many.rows() ==> #[trigger] many.geometry(j) == one.geometry(0),
    ensures
        one.geometry(slot(one.rows(), many.rows(), i)) == many.geometry(
            slot(many.rows(), many.rows(), i),
        ),
{
}

} // verus!
