//! Where a point lies in an area.
//!
//! The laws below say of the walk round a ring, of a polygon with holes and of several polygons
//! where a point lies.

use vstd::prelude::*;
use crate::geometry::{Coord, PolygonView};
use crate::number;
use crate::ring::{
    all_edges, effect_of, is_effect, is_multi_verdict, is_place_in_parts, is_place_in_polygon,
    is_place_in_ring, is_polygon_verdict, is_walk, weight, winding, CoordPos, Effect, Orientation,
};

verus! {

// ----------------------------------------------------------------------- edges
/// True when a position is made of two numbers.
pub open spec fn is_numeric(c: Coord) -> bool {
    !number::is_nan(c.x) && !number::is_nan(c.y)
}

/// The side on the other side.
pub open spec fn other_side(side: Orientation) -> Orientation {
    match side {
        Orientation::CounterClockwise => Orientation::Clockwise,
        Orientation::Clockwise => Orientation::CounterClockwise,
        Orientation::Collinear => Orientation::Collinear,
    }
}

/// An edge walked backwards counts the other way round.
pub proof fn law_a_reversed_edge_counts_the_other_way(
    start: Coord,
    end: Coord,
    c: Coord,
    side: Orientation,
)
    requires
        is_numeric(start) && is_numeric(end) && is_numeric(c),
        number::is_eq(start.y, end.y) ==> (side == Orientation::Collinear) == number::is_eq(
            c.y,
            start.y,
        ),
    ensures
        weight(effect_of(end, start, c, other_side(side))) == -weight(
            effect_of(start, end, c, side),
        ),
        !number::is_eq(c.y, start.y) && !number::is_eq(c.y, end.y) ==> (effect_of(
            end,
            start,
            c,
            other_side(side),
        ) == Effect::Touch) == (effect_of(start, end, c, side) == Effect::Touch),
{
}

/// An edge that is cut in two counts as its two halves do: a ray through the cut meets one of them.
pub proof fn law_a_cut_edge_counts_once(
    start: Coord,
    cut: Coord,
    end: Coord,
    c: Coord,
    side: Orientation,
)
    requires
        is_numeric(start) && is_numeric(cut) && is_numeric(end) && is_numeric(c),
        side != Orientation::Collinear,
        (number::is_lt(start.y, cut.y) && number::is_lt(cut.y, end.y)) || (number::is_lt(
            end.y,
            cut.y,
        ) && number::is_lt(cut.y, start.y)),
    ensures
        weight(effect_of(start, end, c, side)) == weight(effect_of(start, cut, c, side)) + weight(
            effect_of(cut, end, c, side),
        ),
{
}

/// An edge counts exactly when it passes the height of the point with the point on its inner side: a
/// point on the left of a rising edge, or on the right of a falling one.
pub proof fn law_an_edge_counts_where_it_passes(
    start: Coord,
    end: Coord,
    c: Coord,
    side: Orientation,
)
    requires
        is_numeric(start) && is_numeric(end) && is_numeric(c),
        !number::is_eq(c.y, start.y) && !number::is_eq(c.y, end.y),
        side != Orientation::Collinear,
    ensures
        weight(effect_of(start, end, c, side)) != 0 <==> {
            ||| number::is_lt(start.y, c.y) && number::is_lt(c.y, end.y) && side
                == Orientation::CounterClockwise
            ||| number::is_lt(end.y, c.y) && number::is_lt(c.y, start.y) && side
                == Orientation::Clockwise
        },
{
}

// ----------------------------------------------------------------------- boxes
/// True when the sides of edges along the axes are told as they are.
pub open spec fn tells_sides<O: Fn(Coord, Coord, Coord) -> Orientation>(orient: O) -> bool {
    forall|a: Coord, b: Coord, c: Coord, side: Orientation| #[trigger]
        orient.ensures((a, b, c), side) && is_numeric(a) && is_numeric(b) && is_numeric(c) ==> {
            &&& number::is_eq(a.x, b.x) && number::is_lt(a.y, b.y) ==> side == side_of(a.x, c.x)
            &&& number::is_eq(a.x, b.x) && number::is_lt(b.y, a.y) ==> side == other_side(
                side_of(a.x, c.x),
            )
            &&& number::is_eq(a.y, b.y) && number::is_lt(a.x, b.x) ==> side == other_side(
                side_of(a.y, c.y),
            )
            &&& number::is_eq(a.y, b.y) && number::is_lt(b.x, a.x) ==> side == side_of(a.y, c.y)
        }
}

/// The side of a number on a line: counter clockwise below it.
pub open spec fn side_of(line: u64, n: u64) -> Orientation {
    if number::is_lt(n, line) {
        Orientation::CounterClockwise
    } else if number::is_lt(line, n) {
        Orientation::Clockwise
    } else {
        Orientation::Collinear
    }
}

/// A point lies in the ring round a box where it lies in the box: inside between all four sides, on
/// the boundary on one of them, and outside else.
pub proof fn law_a_place_in_a_box<O: Fn(Coord, Coord, Coord) -> Orientation>(
    orient: O,
    min: Coord,
    max: Coord,
    c: Coord,
    pos: CoordPos,
)
    requires
        tells_sides(orient),
        is_numeric(min) && is_numeric(max) && is_numeric(c),
        number::is_lt(min.x, max.x) && number::is_lt(min.y, max.y),
        is_place_in_ring(
            orient,
            crate::geometry::rect_polygon(min, max).exterior,
            c,
            pos,
        ),
    ensures
        pos == CoordPos::Inside <==> {
            &&& number::is_lt(min.x, c.x) && number::is_lt(c.x, max.x)
            &&& number::is_lt(min.y, c.y) && number::is_lt(c.y, max.y)
        },
        pos == CoordPos::Outside <==> {
            ||| number::is_lt(c.x, min.x) || number::is_lt(max.x, c.x)
            ||| number::is_lt(c.y, min.y) || number::is_lt(max.y, c.y)
        },
{
    let ring = crate::geometry::rect_polygon(min, max).exterior;
    assert(ring.len() == 5);
    assert(ring[0] == ring[4] && ring[0].x == max.x && ring[0].y == min.y);
    assert(ring[1] == max && ring[3] == min);
    assert(ring[2].x == min.x && ring[2].y == max.y);
    let ids = all_edges(4);
    let effects = choose|effects: Seq<Effect>| #[trigger]
        is_walk(orient, ring, ids, c, effects, pos);
    assert(ids[0] == 0 && ids[1] == 1 && ids[2] == 2 && ids[3] == 3);
    let n = effects.len();
    assert(n <= 4);
    if n > 0 {
        assert(is_effect(orient, ring[0], ring[1], c, effects[0]));
    }
    if n > 1 {
        assert(is_effect(orient, ring[1], ring[2], c, effects[1]));
        assert(effects[0] != Effect::Touch);
    }
    if n > 2 {
        assert(is_effect(orient, ring[2], ring[3], c, effects[2]));
        assert(effects[1] != Effect::Touch);
    }
    if n > 3 {
        assert(is_effect(orient, ring[3], ring[4], c, effects[3]));
        assert(effects[2] != Effect::Touch);
    }
    if n == 4 {
        lemma_four(effects);
    }
}

proof fn lemma_four(effects: Seq<Effect>)
    requires
        effects.len() == 4,
    ensures
        winding(effects) == weight(effects[0]) + weight(effects[1]) + weight(effects[2]) + weight(
            effects[3],
        ),
{
    let three = effects.drop_last();
    let two = three.drop_last();
    let one = two.drop_last();
    assert(one.drop_last().len() == 0);
    assert(winding(one.drop_last()) == 0);
    assert(winding(one) == weight(effects[0]));
    assert(winding(two) == weight(effects[0]) + weight(effects[1]));
    assert(winding(three) == weight(effects[0]) + weight(effects[1]) + weight(effects[2]));
}

// -------------------------------------------------------------------- polygons
/// True when the walk round each ring gives the place that `place` names.
pub open spec fn tells_places<O: Fn(Coord, Coord, Coord) -> Orientation>(
    orient: O,
    c: Coord,
    place: spec_fn(Seq<Coord>) -> CoordPos,
) -> bool {
    forall|ring: Seq<Coord>, pos: CoordPos| #[trigger]
        is_place_in_ring(orient, ring, c, pos) ==> pos == place(ring)
}

/// A point lies inside a polygon where it lies inside the shell and outside every hole. It lies
/// outside where it lies outside the shell or inside the one hole that it does not lie outside of.
/// What is left is the boundary.
pub proof fn law_a_place_in_a_polygon<O: Fn(Coord, Coord, Coord) -> Orientation>(
    orient: O,
    place: spec_fn(Seq<Coord>) -> CoordPos,
    polygon: PolygonView,
    c: Coord,
    pos: CoordPos,
)
    requires
        tells_places(orient, c, place),
        is_place_in_polygon(orient, polygon, c, pos),
        forall|j: int, k: int|
            0 <= j < k < polygon.interiors.len() ==> place(#[trigger] polygon.interiors[j])
                == CoordPos::Outside || place(#[trigger] polygon.interiors[k]) == CoordPos::Outside,
    ensures
        pos == CoordPos::Inside <==> place(polygon.exterior) == CoordPos::Inside && forall|k: int|
            0 <= k < polygon.interiors.len() ==> place(#[trigger] polygon.interiors[k])
                == CoordPos::Outside,
        pos == CoordPos::Outside <==> place(polygon.exterior) == CoordPos::Outside || (place(
            polygon.exterior,
        ) == CoordPos::Inside && exists|k: int|
            0 <= k < polygon.interiors.len() && place(#[trigger] polygon.interiors[k])
                == CoordPos::Inside),
{
    let total = polygon.interiors.len() as int;
    let (shell, holes) = choose|shell: CoordPos, holes: Seq<CoordPos>|
        {
            &&& is_place_in_ring(orient, polygon.exterior, c, shell)
            &&& forall|k: int|
                0 <= k < holes.len() && k < polygon.interiors.len() ==> is_place_in_ring(
                    orient,
                    polygon.interiors[k],
                    c,
                    #[trigger] holes[k],
                )
            &&& #[trigger] is_polygon_verdict(shell, holes, polygon.interiors.len() as int, pos)
        };
    assert(shell == place(polygon.exterior));
    assert forall|k: int| 0 <= k < holes.len() && k < total implies #[trigger] holes[k] == place(
        polygon.interiors[k],
    ) by {}
    if shell == CoordPos::Inside {
        if holes.len() > 0 && holes.last() != CoordPos::Outside {
            let last = holes.len() - 1;
            assert(holes[last] == place(polygon.interiors[last]));
        } else {
            assert forall|k: int| 0 <= k < total implies place(#[trigger] polygon.interiors[k])
                == CoordPos::Outside by {
                assert(holes[k] == place(polygon.interiors[k]));
            }
        }
    }
}

/// A point lies inside several polygons where it lies inside one of them, and on their boundary where
/// it lies on that of one and inside none.
pub proof fn law_a_place_in_several<O: Fn(Coord, Coord, Coord) -> Orientation>(
    orient: O,
    places: Seq<CoordPos>,
    polygons: Seq<PolygonView>,
    c: Coord,
    pos: CoordPos,
)
    requires
        places.len() == polygons.len(),
        forall|k: int, part: CoordPos|
            0 <= k < polygons.len() && #[trigger] is_place_in_polygon(orient, polygons[k], c, part)
                ==> part == places[k],
        is_place_in_parts(orient, polygons, c, pos),
    ensures
        pos == CoordPos::Inside <==> places.contains(CoordPos::Inside),
        pos == CoordPos::OnBoundary <==> places.contains(CoordPos::OnBoundary) && !places.contains(
            CoordPos::Inside,
        ),
{
    let parts = choose|parts: Seq<CoordPos>|
        {
            &&& forall|k: int|
                0 <= k < parts.len() && k < polygons.len() ==> is_place_in_polygon(
                    orient,
                    polygons[k],
                    c,
                    #[trigger] parts[k],
                )
            &&& #[trigger] is_multi_verdict(parts, polygons.len() as int, pos)
        };
    assert forall|k: int| 0 <= k < parts.len() implies #[trigger] parts[k] == places[k] by {
        assert(is_place_in_polygon(orient, polygons[k], c, parts[k]));
    }
    if parts.len() > 0 && parts.last() == CoordPos::Inside {
        let last = parts.len() - 1;
        assert(parts[last] == places[last]);
    } else {
        assert(parts =~= places);
        assert forall|k: int| 0 <= k < places.len() implies #[trigger] places[k]
            != CoordPos::Inside by {
            assert(parts[k] == places[k]);
        }
    }
}

} // verus!
