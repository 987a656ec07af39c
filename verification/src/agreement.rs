//! The fast paths of a predicate, and the plain test.
//!
//! A row of a predicate can be settled by two boxes, by the index of a constant, by the matrix of a
//! prepared constant, or by the answer of an equal point before it. The laws below say that none of
//! them changes an answer. They speak of tests that are steady, that is, whose answers depend on the
//! geometries alone, and that respect what the paths rely on. Each law asks that of the geometries
//! it speaks of, and of no others.

use vstd::prelude::*;
use crate::bbox::{
    box_at, box_over, is_apart, law_a_near_point_is_in_the_grown_box,
    law_growing_keeps_what_it_holds, outline, Bbox,
};
use crate::column::ColumnView;
use crate::geometry::{Coord, Geometry, GeometryView};
use crate::matrix::{is_transposed, law_a_swap_turns_relations_round, IntersectionMatrix};
use crate::number;
use crate::predicate::{
    is_decided_by, is_direct, is_distance, is_distance_answer, is_indexed_place, is_literal_answer,
    is_related, is_row_answer, is_scalar_answer, is_worth_an_index,
    is_worth_preparing, point_at, scalar_verdict, Direct, Distances, Exact, Predicate,
    Side,
};
use crate::ring::{
    is_place_in_parts, knows_polygon, law_the_point_index_agrees_with_the_walk, polygonal_parts,
    CoordPos, Orientation, PointInPolygonIndex,
};

verus! {

// ------------------------------------------------------------------ hypotheses
/// True when the answers of the tests for two geometries, in this order, depend on the geometries
/// alone: `direct` and `relate` are what they give.
pub open spec fn is_steady<D, R, C, O>(
    exact: Exact<D, R, C, O>,
    direct: spec_fn(Direct, GeometryView, GeometryView) -> bool,
    relate: spec_fn(GeometryView, GeometryView) -> IntersectionMatrix,
    a: GeometryView,
    b: GeometryView,
) -> bool where
    D: Fn(Direct, &Geometry, &Geometry) -> bool,
    R: Fn(&Geometry, &Geometry, bool) -> IntersectionMatrix,
    C: Fn(u64, u64, u64, usize) -> usize,
    O: Fn(Coord, Coord, Coord) -> Orientation,
 {
    &&& forall|test: Direct, out: bool| #[trigger]
        is_direct(exact.direct, test, a, b, out) ==> out == direct(test, a, b)
    &&& forall|prepared: bool, matrix: IntersectionMatrix| #[trigger]
        is_related(exact.relate, a, b, prepared, matrix) ==> matrix == relate(a, b)
}

/// True when the answers of the tests for two geometries, in either order, depend on the geometries
/// alone.
pub open spec fn are_steady<D, R, C, O>(
    exact: Exact<D, R, C, O>,
    direct: spec_fn(Direct, GeometryView, GeometryView) -> bool,
    relate: spec_fn(GeometryView, GeometryView) -> IntersectionMatrix,
    a: GeometryView,
    b: GeometryView,
) -> bool where
    D: Fn(Direct, &Geometry, &Geometry) -> bool,
    R: Fn(&Geometry, &Geometry, bool) -> IntersectionMatrix,
    C: Fn(u64, u64, u64, usize) -> usize,
    O: Fn(Coord, Coord, Coord) -> Orientation,
 {
    is_steady(exact, direct, relate, a, b) && is_steady(exact, direct, relate, b, a)
}

/// True when a swap of the two geometries keeps whether they meet, and transposes their matrix.
pub open spec fn is_mutual(
    direct: spec_fn(Direct, GeometryView, GeometryView) -> bool,
    relate: spec_fn(GeometryView, GeometryView) -> IntersectionMatrix,
    a: GeometryView,
    b: GeometryView,
) -> bool {
    &&& direct(Direct::Intersects, a, b) == direct(Direct::Intersects, b, a)
    &&& is_transposed(relate(a, b), relate(b, a))
}

/// The box of a geometry.
pub open spec fn box_of(geom: GeometryView) -> Bbox {
    box_over(outline(geom))
}

/// True when the tests respect the boxes of two geometries: what meets has boxes that meet, what
/// lies in the other has its box in that of the other, and equal geometries have equal boxes.
pub open spec fn respect_pair(
    direct: spec_fn(Direct, GeometryView, GeometryView) -> bool,
    relate: spec_fn(GeometryView, GeometryView) -> IntersectionMatrix,
    a: GeometryView,
    b: GeometryView,
) -> bool {
    &&& direct(Direct::Intersects, a, b) ==> box_of(a).meets(box_of(b))
    &&& direct(Direct::Contains, a, b) ==> box_of(a).holds(box_of(b))
    &&& direct(Direct::ContainsProperly, a, b) ==> box_of(a).holds(box_of(b))
    &&& direct(Direct::Covers, a, b) ==> box_of(a).holds(box_of(b))
    &&& !relate(a, b).says_disjoint() ==> box_of(a).meets(box_of(b))
    &&& relate(a, b).says_equal() ==> box_of(a).is_same(box_of(b))
}

/// True when the tests respect the boxes of two geometries, either way round.
pub open spec fn respect_boxes(
    direct: spec_fn(Direct, GeometryView, GeometryView) -> bool,
    relate: spec_fn(GeometryView, GeometryView) -> IntersectionMatrix,
    a: GeometryView,
    b: GeometryView,
) -> bool {
    respect_pair(direct, relate, a, b) && respect_pair(direct, relate, b, a)
}

/// True when the tests of a point against an area read its place: `at` is where the walk over every
/// edge finds it, and the closures of the index can be relied on for its edges and the point.
pub open spec fn tell_place<D, R, C, O>(
    exact: Exact<D, R, C, O>,
    direct: spec_fn(Direct, GeometryView, GeometryView) -> bool,
    area: GeometryView,
    c: Coord,
    at: CoordPos,
) -> bool where
    D: Fn(Direct, &Geometry, &Geometry) -> bool,
    R: Fn(&Geometry, &Geometry, bool) -> IntersectionMatrix,
    C: Fn(u64, u64, u64, usize) -> usize,
    O: Fn(Coord, Coord, Coord) -> Orientation,
 {
    let polygons = polygonal_parts(area)->0;
    let point = GeometryView::Point(c);
    &&& polygonal_parts(area) is Some
    &&& forall|i: int|
        0 <= i < polygons.len() ==> #[trigger] knows_polygon(
            exact.cell,
            exact.orient,
            polygons[i],
            c,
        )
    &&& is_place_in_parts(exact.orient, polygons, c, at)
    &&& direct(Direct::Intersects, area, point) == (at != CoordPos::Outside)
    &&& direct(Direct::Intersects, point, area) == (at != CoordPos::Outside)
    &&& direct(Direct::Contains, area, point) == (at == CoordPos::Inside)
    &&& direct(Direct::ContainsProperly, area, point) == (at == CoordPos::Inside)
    &&& direct(Direct::Covers, area, point) == (at != CoordPos::Outside)
}

/// True when the tests can be relied on for a constant and another geometry: they are steady, a swap
/// transposes the matrix, and they read the place of a point where an index does.
pub open spec fn is_fair<D, R, C, O>(
    exact: Exact<D, R, C, O>,
    direct: spec_fn(Direct, GeometryView, GeometryView) -> bool,
    relate: spec_fn(GeometryView, GeometryView) -> IntersectionMatrix,
    literal: GeometryView,
    other: GeometryView,
) -> bool where
    D: Fn(Direct, &Geometry, &Geometry) -> bool,
    R: Fn(&Geometry, &Geometry, bool) -> IntersectionMatrix,
    C: Fn(u64, u64, u64, usize) -> usize,
    O: Fn(Coord, Coord, Coord) -> Orientation,
 {
    &&& are_steady(exact, direct, relate, literal, other)
    &&& is_mutual(direct, relate, literal, other)
    &&& is_worth_an_index(literal) && other is Point ==> exists|at: CoordPos| #[trigger]
        tell_place(exact, direct, literal, other->Point_0, at)
}

/// True when a test tells two points apart.
pub open spec fn is_told_apart(
    direct: spec_fn(Direct, GeometryView, GeometryView) -> bool,
    relate: spec_fn(GeometryView, GeometryView) -> IntersectionMatrix,
    p: Coord,
    q: Coord,
    other: GeometryView,
) -> bool {
    let (a, b) = (GeometryView::Point(p), GeometryView::Point(q));
    ||| exists|test: Direct| #[trigger] direct(test, a, other) != direct(test, b, other)
    ||| exists|test: Direct| #[trigger] direct(test, other, a) != direct(test, other, b)
    ||| relate(a, other) != relate(b, other)
    ||| relate(other, a) != relate(other, b)
}

/// True when the box of a row is that of its geometry, up to the sign of a zero.
pub open spec fn has_own_box(array: ColumnView, i: int) -> bool {
    array.geometry(i) is Some && box_at(array, i).is_same(box_of(array.geometry(i)->0))
}

/// What steady tests answer.
pub open spec fn answer(
    direct: spec_fn(Direct, GeometryView, GeometryView) -> bool,
    relate: spec_fn(GeometryView, GeometryView) -> IntersectionMatrix,
    predicate: Predicate,
    left: GeometryView,
    right: GeometryView,
) -> bool {
    match predicate {
        Predicate::Intersects => direct(Direct::Intersects, left, right),
        Predicate::Disjoint => !direct(Direct::Intersects, left, right),
        Predicate::Contains => direct(Direct::Contains, left, right),
        Predicate::ContainsProperly => direct(Direct::ContainsProperly, left, right),
        Predicate::Within => direct(Direct::Contains, right, left),
        Predicate::Covers => direct(Direct::Covers, left, right),
        Predicate::CoveredBy => direct(Direct::Covers, right, left),
        _ => predicate.reads(relate(left, right)),
    }
}

/// What steady tests answer for a constant on a side.
pub open spec fn answer_for(
    direct: spec_fn(Direct, GeometryView, GeometryView) -> bool,
    relate: spec_fn(GeometryView, GeometryView) -> IntersectionMatrix,
    predicate: Predicate,
    literal: GeometryView,
    other: GeometryView,
    side: Side,
) -> bool {
    if side == Side::Left {
        answer(direct, relate, predicate, literal, other)
    } else {
        answer(direct, relate, predicate, other, literal)
    }
}

// ------------------------------------------------------------------------ laws
/// The exact test gives the answer of the steady tests.
pub proof fn law_the_test_gives_the_answer<D, R, C, O>(
    exact: Exact<D, R, C, O>,
    direct: spec_fn(Direct, GeometryView, GeometryView) -> bool,
    relate: spec_fn(GeometryView, GeometryView) -> IntersectionMatrix,
    predicate: Predicate,
    left: GeometryView,
    right: GeometryView,
    out: bool,
) where
    D: Fn(Direct, &Geometry, &Geometry) -> bool,
    R: Fn(&Geometry, &Geometry, bool) -> IntersectionMatrix,
    C: Fn(u64, u64, u64, usize) -> usize,
    O: Fn(Coord, Coord, Coord) -> Orientation,

    requires
        are_steady(exact, direct, relate, left, right),
        predicate.is_evaluated(exact, left, right, out),
    ensures
        out == answer(direct, relate, predicate, left, right),
{
}

/// A symmetric predicate answers the same with its arguments swapped. The others are those five for
/// which one geometry lies in the other.
pub proof fn law_a_symmetric_predicate_goes_both_ways<D, R, C, O>(
    exact: Exact<D, R, C, O>,
    direct: spec_fn(Direct, GeometryView, GeometryView) -> bool,
    relate: spec_fn(GeometryView, GeometryView) -> IntersectionMatrix,
    predicate: Predicate,
    a: GeometryView,
    b: GeometryView,
    forth: bool,
    back: bool,
) where
    D: Fn(Direct, &Geometry, &Geometry) -> bool,
    R: Fn(&Geometry, &Geometry, bool) -> IntersectionMatrix,
    C: Fn(u64, u64, u64, usize) -> usize,
    O: Fn(Coord, Coord, Coord) -> Orientation,

    requires
        are_steady(exact, direct, relate, a, b),
        is_mutual(direct, relate, a, b),
        predicate.is_evaluated(exact, a, b, forth),
        predicate.is_evaluated(exact, b, a, back),
    ensures
        predicate.goes_both_ways() ==> forth == back,
        predicate.goes_both_ways() == !(predicate == Predicate::Contains || predicate
            == Predicate::ContainsProperly || predicate == Predicate::Within || predicate
            == Predicate::Covers || predicate == Predicate::CoveredBy),
{
    lemma_symmetric_answers(direct, relate, predicate, a, b);
}

proof fn lemma_symmetric_answers(
    direct: spec_fn(Direct, GeometryView, GeometryView) -> bool,
    relate: spec_fn(GeometryView, GeometryView) -> IntersectionMatrix,
    predicate: Predicate,
    a: GeometryView,
    b: GeometryView,
)
    requires
        is_mutual(direct, relate, a, b),
    ensures
        predicate.goes_both_ways() ==> answer(direct, relate, predicate, a, b) == answer(
            direct,
            relate,
            predicate,
            b,
            a,
        ),
{
    law_a_swap_turns_relations_round(relate(a, b), relate(b, a));
}

/// `ST_Disjoint` answers the opposite of `ST_Intersects`, and each converse pair answers the same
/// with the arguments swapped.
pub proof fn law_related_predicates_agree<D, R, C, O>(
    exact: Exact<D, R, C, O>,
    direct: spec_fn(Direct, GeometryView, GeometryView) -> bool,
    relate: spec_fn(GeometryView, GeometryView) -> IntersectionMatrix,
    a: GeometryView,
    b: GeometryView,
    x: bool,
    y: bool,
) where
    D: Fn(Direct, &Geometry, &Geometry) -> bool,
    R: Fn(&Geometry, &Geometry, bool) -> IntersectionMatrix,
    C: Fn(u64, u64, u64, usize) -> usize,
    O: Fn(Coord, Coord, Coord) -> Orientation,

    requires
        are_steady(exact, direct, relate, a, b),
    ensures
        Predicate::Disjoint.is_evaluated(exact, a, b, x) && Predicate::Intersects.is_evaluated(
            exact,
            a,
            b,
            y,
        ) ==> x == !y,
        Predicate::Within.is_evaluated(exact, a, b, x) && Predicate::Contains.is_evaluated(
            exact,
            b,
            a,
            y,
        ) ==> x == y,
        Predicate::CoveredBy.is_evaluated(exact, a, b, x) && Predicate::Covers.is_evaluated(
            exact,
            b,
            a,
            y,
        ) ==> x == y,
{
}

/// What two boxes settle is what the exact test answers.
pub proof fn law_a_box_verdict_is_the_answer<D, R, C, O>(
    exact: Exact<D, R, C, O>,
    direct: spec_fn(Direct, GeometryView, GeometryView) -> bool,
    relate: spec_fn(GeometryView, GeometryView) -> IntersectionMatrix,
    predicate: Predicate,
    left: GeometryView,
    right: GeometryView,
    out: bool,
) where
    D: Fn(Direct, &Geometry, &Geometry) -> bool,
    R: Fn(&Geometry, &Geometry, bool) -> IntersectionMatrix,
    C: Fn(u64, u64, u64, usize) -> usize,
    O: Fn(Coord, Coord, Coord) -> Orientation,

    requires
        are_steady(exact, direct, relate, left, right),
        respect_boxes(direct, relate, left, right),
        predicate.is_evaluated(exact, left, right, out),
    ensures
        predicate.verdict(box_of(left), box_of(right)) matches Some(settled) ==> settled == out,
{
    lemma_verdict(direct, relate, predicate, left, right);
}

proof fn lemma_verdict(
    direct: spec_fn(Direct, GeometryView, GeometryView) -> bool,
    relate: spec_fn(GeometryView, GeometryView) -> IntersectionMatrix,
    predicate: Predicate,
    left: GeometryView,
    right: GeometryView,
)
    requires
        respect_boxes(direct, relate, left, right),
    ensures
        predicate.verdict(box_of(left), box_of(right)) matches Some(settled) ==> settled == answer(
            direct,
            relate,
            predicate,
            left,
            right,
        ),
{
}

/// Boxes that are the same up to the sign of a zero settle the same.
proof fn lemma_same_boxes(predicate: Predicate, a: Bbox, b: Bbox, c: Bbox, d: Bbox)
    requires
        a.is_same(c),
        b.is_same(d),
    ensures
        predicate.verdict(a, b) == predicate.verdict(c, d),
{
}

/// A row of two columns holds what the exact test answers, whether or not the boxes settled it.
pub proof fn law_the_boxes_change_no_answer<D, R, C, O>(
    exact: Exact<D, R, C, O>,
    direct: spec_fn(Direct, GeometryView, GeometryView) -> bool,
    relate: spec_fn(GeometryView, GeometryView) -> IntersectionMatrix,
    predicate: Predicate,
    left: ColumnView,
    i: int,
    right: ColumnView,
    j: int,
    out: Option<bool>,
) where
    D: Fn(Direct, &Geometry, &Geometry) -> bool,
    R: Fn(&Geometry, &Geometry, bool) -> IntersectionMatrix,
    C: Fn(u64, u64, u64, usize) -> usize,
    O: Fn(Coord, Coord, Coord) -> Orientation,

    requires
        are_steady(exact, direct, relate, left.geometry(i)->0, right.geometry(j)->0),
        respect_boxes(direct, relate, left.geometry(i)->0, right.geometry(j)->0),
        has_own_box(left, i),
        has_own_box(right, j),
        is_row_answer(exact, predicate, left, i, right, j, out),
    ensures
        out == Some(
            answer(direct, relate, predicate, left.geometry(i)->0, right.geometry(j)->0),
        ),
{
    let a = left.geometry(i)->0;
    let b = right.geometry(j)->0;
    lemma_verdict(direct, relate, predicate, a, b);
    lemma_same_boxes(predicate, box_at(left, i), box_at(right, j), box_of(a), box_of(b));
    if predicate.verdict(box_of(a), box_of(b)) is None {
        law_the_test_gives_the_answer(exact, direct, relate, predicate, a, b, out->0);
    }
}

/// The index of an area finds a point inside exactly where the exact test finds it contained, and
/// outside exactly where the two do not meet.
pub proof fn law_the_index_tells_what_the_test_tells<D, R, C, O>(
    exact: Exact<D, R, C, O>,
    direct: spec_fn(Direct, GeometryView, GeometryView) -> bool,
    area: GeometryView,
    index: PointInPolygonIndex,
    c: Coord,
    at: CoordPos,
    pos: CoordPos,
) where
    D: Fn(Direct, &Geometry, &Geometry) -> bool,
    R: Fn(&Geometry, &Geometry, bool) -> IntersectionMatrix,
    C: Fn(u64, u64, u64, usize) -> usize,
    O: Fn(Coord, Coord, Coord) -> Orientation,

    requires
        tell_place(exact, direct, area, c, at),
        index.is_over(exact.cell, polygonal_parts(area)->0),
        index.is_located(exact.cell, exact.orient, c, pos),
    ensures
        (pos == CoordPos::Inside) == direct(Direct::Contains, area, GeometryView::Point(c)),
        (pos != CoordPos::Outside) == direct(Direct::Intersects, area, GeometryView::Point(c)),
{
    law_the_point_index_agrees_with_the_walk(
        exact.cell,
        exact.orient,
        index,
        polygonal_parts(area)->0,
        c,
        pos,
        at,
    );
}

/// A literal answers what the exact test answers, whatever it keeps: a prepared form, an index of
/// its edges, or neither.
pub proof fn law_a_literal_gives_the_answer<D, R, C, O>(
    exact: Exact<D, R, C, O>,
    direct: spec_fn(Direct, GeometryView, GeometryView) -> bool,
    relate: spec_fn(GeometryView, GeometryView) -> IntersectionMatrix,
    literal: GeometryView,
    predicate: Predicate,
    other: GeometryView,
    side: Side,
    out: bool,
) where
    D: Fn(Direct, &Geometry, &Geometry) -> bool,
    R: Fn(&Geometry, &Geometry, bool) -> IntersectionMatrix,
    C: Fn(u64, u64, u64, usize) -> usize,
    O: Fn(Coord, Coord, Coord) -> Orientation,

    requires
        is_fair(exact, direct, relate, literal, other),
        is_literal_answer(exact, literal, predicate, other, side, out),
    ensures
        out == answer_for(direct, relate, predicate, literal, other, side),
{
    if predicate.wants_matrix() {
        let matrix = choose|matrix: IntersectionMatrix| #[trigger]
            is_related(exact.relate, literal, other, is_worth_preparing(literal), matrix) && out
                == predicate.reads(matrix);
        assert(matrix == relate(literal, other));
        lemma_symmetric_answers(direct, relate, predicate, literal, other);
    } else if other is Point && predicate.rule(side) is Some && is_worth_an_index(literal) {
        let c = other->Point_0;
        let polygons = polygonal_parts(literal)->0;
        let pos = choose|pos: CoordPos| #[trigger]
            is_indexed_place(exact.cell, exact.orient, literal, c, pos) && out == predicate.rule(
                side,
            )->0.reads(pos);
        let index = choose|index: PointInPolygonIndex|
            index.is_over(exact.cell, polygons) && #[trigger] index.is_located(
                exact.cell,
                exact.orient,
                c,
                pos,
            );
        let at = choose|at: CoordPos| #[trigger] tell_place(exact, direct, literal, c, at);
        law_the_point_index_agrees_with_the_walk(
            exact.cell,
            exact.orient,
            index,
            polygons,
            c,
            pos,
            at,
        );
    } else if side == Side::Left {
        law_the_test_gives_the_answer(exact, direct, relate, predicate, literal, other, out);
    } else {
        law_the_test_gives_the_answer(exact, direct, relate, predicate, other, literal, out);
    }
}

/// True when the tests can be relied on for a constant and a row: they respect the boxes, they are
/// fair to the row and to each equal point before it, and they tell no two of those points apart.
pub open spec fn is_fair_to_row<D, R, C, O>(
    exact: Exact<D, R, C, O>,
    direct: spec_fn(Direct, GeometryView, GeometryView) -> bool,
    relate: spec_fn(GeometryView, GeometryView) -> IntersectionMatrix,
    literal: GeometryView,
    array: ColumnView,
    i: int,
) -> bool where
    D: Fn(Direct, &Geometry, &Geometry) -> bool,
    R: Fn(&Geometry, &Geometry, bool) -> IntersectionMatrix,
    C: Fn(u64, u64, u64, usize) -> usize,
    O: Fn(Coord, Coord, Coord) -> Orientation,
 {
    &&& respect_boxes(direct, relate, literal, array.geometry(i)->0)
    &&& forall|j: int| #[trigger]
        is_decided_by(array, box_of(literal), i, j) ==> is_fair(
            exact,
            direct,
            relate,
            literal,
            array.geometry(j)->0,
        ) && (j != i ==> !is_told_apart(
            direct,
            relate,
            point_at(array, j),
            point_at(array, i),
            literal,
        ))
}

/// A row against a constant holds what the exact test answers: by the boxes, by what the constant
/// keeps, or by the answer of an equal point before it.
pub proof fn law_a_constant_changes_no_answer<D, R, C, O>(
    exact: Exact<D, R, C, O>,
    direct: spec_fn(Direct, GeometryView, GeometryView) -> bool,
    relate: spec_fn(GeometryView, GeometryView) -> IntersectionMatrix,
    literal: GeometryView,
    predicate: Predicate,
    side: Side,
    array: ColumnView,
    i: int,
    out: Option<bool>,
) where
    D: Fn(Direct, &Geometry, &Geometry) -> bool,
    R: Fn(&Geometry, &Geometry, bool) -> IntersectionMatrix,
    C: Fn(u64, u64, u64, usize) -> usize,
    O: Fn(Coord, Coord, Coord) -> Orientation,

    requires
        is_fair_to_row(exact, direct, relate, literal, array, i),
        has_own_box(array, i),
        is_scalar_answer(exact, literal, predicate, side, array, i, out),
    ensures
        out == Some(
            answer_for(direct, relate, predicate, literal, array.geometry(i)->0, side),
        ),
{
    let geom = array.geometry(i)->0;
    lemma_verdict(direct, relate, predicate, literal, geom);
    lemma_verdict(direct, relate, predicate, geom, literal);
    let literal_box = box_of(literal);
    law_growing_keeps_what_it_holds(
        Bbox::blank(),
        outline(literal),
        Coord { x: number::NAN, y: number::NAN },
    );
    lemma_same_boxes(predicate, literal_box, box_at(array, i), literal_box, box_of(geom));
    lemma_same_boxes(predicate, box_at(array, i), literal_box, box_of(geom), literal_box);
    if scalar_verdict(predicate, side, box_of(literal), box_at(array, i)) is None {
        let j = choose|j: int| #[trigger]
            is_decided_by(array, box_of(literal), i, j) && is_literal_answer(
                exact,
                literal,
                predicate,
                array.geometry(j)->0,
                side,
                out->0,
            );
        let decider = array.geometry(j)->0;
        law_a_literal_gives_the_answer(
            exact,
            direct,
            relate,
            literal,
            predicate,
            decider,
            side,
            out->0,
        );
        if j != i {
            let (p, q) = (point_at(array, j), point_at(array, i));
            assert(geom == GeometryView::Point(q));
            assert(decider == GeometryView::Point(p));
            lemma_equal_points(direct, relate, p, q, literal);
        }
    }
}

proof fn lemma_equal_points(
    direct: spec_fn(Direct, GeometryView, GeometryView) -> bool,
    relate: spec_fn(GeometryView, GeometryView) -> IntersectionMatrix,
    p: Coord,
    q: Coord,
    other: GeometryView,
)
    requires
        !is_told_apart(direct, relate, p, q, other),
    ensures
        forall|predicate: Predicate, side: Side| #[trigger]
            answer_for(direct, relate, predicate, other, GeometryView::Point(p), side)
                == answer_for(direct, relate, predicate, other, GeometryView::Point(q), side),
{
}

/// A predicate against a constant gives each row what a predicate over two columns gives it, where
/// the other column holds a copy of the constant.
pub proof fn law_a_constant_answers_as_a_column<D, R, C, O>(
    exact: Exact<D, R, C, O>,
    direct: spec_fn(Direct, GeometryView, GeometryView) -> bool,
    relate: spec_fn(GeometryView, GeometryView) -> IntersectionMatrix,
    literal: GeometryView,
    predicate: Predicate,
    side: Side,
    array: ColumnView,
    i: int,
    copies: ColumnView,
    j: int,
    scalar: Option<bool>,
    paired: Option<bool>,
) where
    D: Fn(Direct, &Geometry, &Geometry) -> bool,
    R: Fn(&Geometry, &Geometry, bool) -> IntersectionMatrix,
    C: Fn(u64, u64, u64, usize) -> usize,
    O: Fn(Coord, Coord, Coord) -> Orientation,

    requires
        array.is_null(i) || (has_own_box(array, i) && is_fair_to_row(
            exact,
            direct,
            relate,
            literal,
            array,
            i,
        )),
        has_own_box(copies, j),
        copies.geometry(j) == Some(literal),
        is_scalar_answer(exact, literal, predicate, side, array, i, scalar),
        if side == Side::Left {
            is_row_answer(exact, predicate, copies, j, array, i, paired)
        } else {
            is_row_answer(exact, predicate, array, i, copies, j, paired)
        },
    ensures
        scalar == paired,
{
    if !array.is_null(i) {
        assert(is_decided_by(array, box_of(literal), i, i));
        law_a_constant_changes_no_answer(
            exact,
            direct,
            relate,
            literal,
            predicate,
            side,
            array,
            i,
            scalar,
        );
        if side == Side::Left {
            law_the_boxes_change_no_answer(
                exact,
                direct,
                relate,
                predicate,
                copies,
                j,
                array,
                i,
                paired,
            );
        } else {
            law_the_boxes_change_no_answer(
                exact,
                direct,
                relate,
                predicate,
                array,
                i,
                copies,
                j,
                paired,
            );
        }
    }
}

/// True when a distance is that of two finite positions, one in each box.
pub open spec fn is_between(left: Bbox, right: Bbox, distance: u64) -> bool {
    exists|p: Coord, q: Coord|
        {
            &&& #[trigger] left.encloses(p)
            &&& #[trigger] right.encloses(q)
            &&& number::is_finite(p.x) && number::is_finite(p.y)
            &&& number::is_finite(q.x) && number::is_finite(q.y)
            &&& is_apart(p, q, distance)
        }
}

/// `ST_DWithin` compares the distance with the radius: the boxes drop no row that is near enough.
///
/// The distance is one between two points of the boxes, and the sums that grew the left box were
/// exact, or reached further.
pub proof fn law_the_prefilter_drops_no_match<N, F, M, P>(
    distances: Distances<N, F, M, P>,
    radius: u64,
    left: ColumnView,
    i: int,
    right: ColumnView,
    j: int,
    distance: u64,
    out: Option<bool>,
) where
    N: Fn(&Geometry, &Geometry) -> u64,
    F: Fn(&Geometry, &Geometry) -> u64,
    M: Fn(u64, u64) -> u64,
    P: Fn(u64, u64) -> u64,

    requires
        !left.is_null(i),
        !right.is_null(j),
        forall|d: u64| #[trigger]
            is_distance(distances.near, left.geometry(i)->0, right.geometry(j)->0, d) ==> d
                == distance,
        box_at(left, i).is_bounded(),
        box_at(right, j).is_bounded(),
        number::is_finite(distance),
        number::is_finite(radius),
        is_between(box_at(left, i), box_at(right, j), distance),
        forall|wide: Bbox| #[trigger]
            box_at(left, i).is_expanded(radius, distances.minus, distances.plus, wide)
                ==> wide.is_bounded() && box_at(left, i).is_reached(radius, wide),
        is_distance_answer(distances, radius, false, left, i, right, j, out),
    ensures
        out == Some(number::is_le(distance, radius)),
{
    let a = box_at(left, i);
    let b = box_at(right, j);
    let wide = choose|wide: Bbox| #[trigger]
        a.is_expanded(radius, distances.minus, distances.plus, wide) && (if wide.meets(b) {
            exists|d: u64| #[trigger]
                is_distance(distances.near, left.geometry(i)->0, right.geometry(j)->0, d) && out
                    == Some(number::is_le(d, radius))
        } else {
            out == Some(false)
        });
    if number::is_le(distance, radius) {
        let (p, q) = choose|p: Coord, q: Coord|
            {
                &&& #[trigger] a.encloses(p)
                &&& #[trigger] b.encloses(q)
                &&& number::is_finite(p.x) && number::is_finite(p.y)
                &&& number::is_finite(q.x) && number::is_finite(q.y)
                &&& is_apart(p, q, distance)
            };
        law_a_near_point_is_in_the_grown_box(
            a,
            b,
            radius,
            distances.minus,
            distances.plus,
            wide,
            p,
            q,
            distance,
        );
    }
}

} // verus!
