//! What the areas of geometries cover.
//!
//! An area covers positions. The laws below say of each operation on areas which positions its
//! result covers, and that the area of a geometry is that of its parts.

use vstd::prelude::*;
use crate::aggregate::{
    are_collected, are_unioned, area_of, areas_in, is_absorbed, is_appended, is_decoded, is_folded,
    is_union_of, is_union_step, polygons_in, shape_of,
};
use crate::column::ColumnView;
use crate::edit::{exploded, promoted};
use crate::error::Error;
use crate::geometry::{
    polygons_view, rect_polygon, triangle_polygon, Geometry, GeometryView, Polygon, PolygonView,
};
use crate::lists::lemma_singles;
use crate::process::{is_overlay, Overlay};
use crate::ring::polygonal_parts;

verus! {

// ----------------------------------------------------------------------- areas
/// True for a geometry that has an area: a polygon, a list of them, a box or a triangle.
pub open spec fn is_areal(geom: GeometryView) -> bool {
    geom is Polygon || geom is MultiPolygon || geom is Rect || geom is Triangle
}

/// True when one of the polygons covers a position.
pub open spec fn is_covered(
    inside: spec_fn(PolygonView, int) -> bool,
    polygons: Seq<PolygonView>,
    p: int,
) -> bool {
    exists|k: int| 0 <= k < polygons.len() && inside(#[trigger] polygons[k], p)
}

/// True when a geometry covers a position with its area.
pub open spec fn is_over(
    inside: spec_fn(PolygonView, int) -> bool,
    geom: GeometryView,
    p: int,
) -> bool {
    match geom {
        GeometryView::Polygon(polygon) => inside(polygon, p),
        GeometryView::MultiPolygon(polygons) => is_covered(inside, polygons, p),
        GeometryView::Rect(a, b) => inside(rect_polygon(a, b), p),
        GeometryView::Triangle(a, b, c) => inside(triangle_polygon(a, b, c), p),
        _ => false,
    }
}

/// Where a position lies after an operation, from where it lies in its two areas.
pub open spec fn is_kept(operation: Overlay, first: bool, second: bool) -> bool {
    match operation {
        Overlay::Union => first || second,
        Overlay::Intersection => first && second,
        Overlay::Difference => first && !second,
        Overlay::SymDifference => first != second,
    }
}

/// True when an overlay of polygons computes what the operation says, position by position.
pub open spec fn computes_positions<F: Fn(Overlay, &Vec<Polygon>, &Vec<Polygon>) -> Vec<Polygon>>(
    overlay: F,
    inside: spec_fn(PolygonView, int) -> bool,
) -> bool {
    forall|operation: Overlay, a: &Vec<Polygon>, b: &Vec<Polygon>, c: Vec<Polygon>, p: int|
        #[trigger] overlay.ensures((operation, a, b), c) ==> #[trigger] is_covered(
            inside,
            polygons_view(c@),
            p,
        ) == is_kept(
            operation,
            is_covered(inside, polygons_view(a@), p),
            is_covered(inside, polygons_view(b@), p),
        )
}

/// True when a union of polygons covers what either of the two lists covers.
pub open spec fn computes_union<U: Fn(&Vec<Polygon>, &Vec<Polygon>) -> Vec<Polygon>>(
    union: U,
    inside: spec_fn(PolygonView, int) -> bool,
) -> bool {
    forall|a: &Vec<Polygon>, b: &Vec<Polygon>, c: Vec<Polygon>, p: int|
        #[trigger] union.ensures((a, b), c) ==> #[trigger] is_covered(
            inside,
            polygons_view(c@),
            p,
        ) == (is_covered(inside, polygons_view(a@), p) || is_covered(
            inside,
            polygons_view(b@),
            p,
        ))
}

/// A list of one polygon covers what that polygon covers.
proof fn lemma_one_polygon(inside: spec_fn(PolygonView, int) -> bool, polygon: PolygonView, p: int)
    ensures
        is_covered(inside, seq![polygon], p) == inside(polygon, p),
{
    if inside(polygon, p) {
        assert(inside(seq![polygon][0], p));
    }
}

// ------------------------------------------------------------------------ laws
/// A geometry has an area exactly when it is a polygon, a list of them, a box or a triangle, and its
/// area covers what the geometry covers.
pub proof fn law_an_area_covers_its_geometry(
    inside: spec_fn(PolygonView, int) -> bool,
    geom: GeometryView,
    p: int,
)
    ensures
        area_of(geom) is Some == is_areal(geom),
        area_of(geom) matches Some(area) ==> is_covered(inside, area, p) == is_over(
            inside,
            geom,
            p,
        ),
        is_areal(geom) ==> promoted(geom) == GeometryView::MultiPolygon(area_of(geom)->0),
        geom matches GeometryView::MultiPolygon(polygons) ==> area_of(geom) == Some(polygons),
{
    match geom {
        GeometryView::Polygon(polygon) => lemma_one_polygon(inside, polygon, p),
        GeometryView::Rect(a, b) => lemma_one_polygon(inside, rect_polygon(a, b), p),
        GeometryView::Triangle(a, b, c) => lemma_one_polygon(inside, triangle_polygon(a, b, c), p),
        _ => {},
    }
}

/// What an edge index is built over is the area of a polygon or a list of them.
pub proof fn law_an_index_is_over_the_area(geom: GeometryView)
    ensures
        geom is Polygon || geom is MultiPolygon ==> polygonal_parts(geom) == area_of(geom),
        polygonal_parts(geom) is Some ==> is_areal(geom),
{
}

/// The area of a geometry is the areas of its parts, one after the other, and a position is covered
/// by a geometry with an area exactly when one of its parts covers it.
pub proof fn law_an_area_is_that_of_the_parts(
    inside: spec_fn(PolygonView, int) -> bool,
    geom: GeometryView,
    p: int,
)
    requires
        is_areal(geom),
    ensures
        forall|k: int| 0 <= k < exploded(geom).len() ==> is_areal(#[trigger] exploded(geom)[k]),
        area_of(geom) == Some(
            Seq::new(exploded(geom).len(), |k: int| area_of(exploded(geom)[k])->0).flatten(),
        ),
        is_over(inside, geom, p) == exists|k: int|
            0 <= k < exploded(geom).len() && is_over(inside, #[trigger] exploded(geom)[k], p),
{
    let parts = exploded(geom);
    let areas = Seq::new(parts.len(), |k: int| area_of(parts[k])->0);
    match geom {
        GeometryView::MultiPolygon(polygons) => {
            lemma_singles(polygons);
            assert(areas =~= Seq::new(polygons.len(), |k: int| seq![polygons[k]]));
            assert forall|k: int| 0 <= k < parts.len() implies is_over(
                inside,
                #[trigger] parts[k],
                p,
            ) == inside(polygons[k], p) by {}
            if is_covered(inside, polygons, p) {
                let k = choose|k: int| 0 <= k < polygons.len() && inside(#[trigger] polygons[k], p);
                assert(is_over(inside, parts[k], p));
            }
        },
        _ => {
            let area = area_of(geom)->0;
            assert(parts =~= seq![geom]);
            assert(areas =~= seq![area]);
            assert(areas.drop_first() =~= Seq::empty());
            assert(areas.drop_first().flatten() =~= Seq::empty());
            assert(areas.flatten() =~= area);
            assert(parts[0] == geom);
        },
    }
}

/// The overlay of two geometries covers what the operation says of what they cover: the difference,
/// for one, covers what the first covers and the second does not. There is an overlay exactly when
/// both geometries have an area.
pub proof fn law_an_overlay_covers_what_it_says<
    F: Fn(Overlay, &Vec<Polygon>, &Vec<Polygon>) -> Vec<Polygon>,
>(
    overlay: F,
    inside: spec_fn(PolygonView, int) -> bool,
    operation: Overlay,
    left: GeometryView,
    right: GeometryView,
    out: Option<GeometryView>,
    p: int,
)
    requires
        computes_positions(overlay, inside),
        is_overlay(overlay, operation, left, right, out),
    ensures
        out is Some == (is_areal(left) && is_areal(right)),
        out matches Some(geom) ==> geom is MultiPolygon && is_over(inside, geom, p) == is_kept(
            operation,
            is_over(inside, left, p),
            is_over(inside, right, p),
        ),
{
    law_an_area_covers_its_geometry(inside, left, p);
    law_an_area_covers_its_geometry(inside, right, p);
    if let Some(GeometryView::MultiPolygon(polygons)) = out {
        let (x, y) = (area_of(left)->0, area_of(right)->0);
        let (a, b, c) = choose|a: Vec<Polygon>, b: Vec<Polygon>, c: Vec<Polygon>|
            {
                &&& #[trigger] overlay.ensures((operation, &a, &b), c)
                &&& polygons_view(a@) == x
                &&& polygons_view(b@) == y
                &&& polygons_view(c@) == polygons
            };
        assert(overlay.ensures((operation, &a, &b), c));
        assert(is_covered(inside, polygons_view(c@), p) == is_kept(
            operation,
            is_covered(inside, polygons_view(a@), p),
            is_covered(inside, polygons_view(b@), p),
        ));
    }
}

/// The overlay of polygons is asked with those of the first geometry first: where it answers by the
/// operation and the two lists alone, the result is that answer for the areas in their order.
pub proof fn law_an_overlay_keeps_its_sides<
    F: Fn(Overlay, &Vec<Polygon>, &Vec<Polygon>) -> Vec<Polygon>,
>(
    overlay: F,
    answer: spec_fn(Overlay, Seq<PolygonView>, Seq<PolygonView>) -> Seq<PolygonView>,
    operation: Overlay,
    left: Seq<PolygonView>,
    right: Seq<PolygonView>,
    out: Option<GeometryView>,
)
    requires
        forall|o: Overlay, a: &Vec<Polygon>, b: &Vec<Polygon>, c: Vec<Polygon>|
            #[trigger] overlay.ensures((o, a, b), c) ==> polygons_view(c@) == answer(
                o,
                polygons_view(a@),
                polygons_view(b@),
            ),
        is_overlay(
            overlay,
            operation,
            GeometryView::MultiPolygon(left),
            GeometryView::MultiPolygon(right),
            out,
        ),
    ensures
        out == Some(GeometryView::MultiPolygon(answer(operation, left, right))),
{
}

/// True when a row before `end` has an area that covers a position.
pub open spec fn is_covered_by_a_row(
    inside: spec_fn(PolygonView, int) -> bool,
    array: ColumnView,
    end: int,
    p: int,
) -> bool {
    exists|i: int|
        0 <= i < end && (#[trigger] array.geometry(i)) is Some && is_over(
            inside,
            array.geometry(i)->0,
            p,
        )
}

/// True when a row before `end` has an area.
pub open spec fn has_an_area(array: ColumnView, end: int) -> bool {
    exists|i: int|
        0 <= i < end && (#[trigger] array.geometry(i)) is Some && is_areal(array.geometry(i)->0)
}

/// The union over the rows before `end` covers what it started from and what they cover.
proof fn lemma_folded<U: Fn(&Vec<Polygon>, &Vec<Polygon>) -> Vec<Polygon>>(
    union: U,
    inside: spec_fn(PolygonView, int) -> bool,
    array: ColumnView,
    before: Option<Seq<PolygonView>>,
    end: int,
    after: Option<Seq<PolygonView>>,
    p: int,
)
    requires
        computes_union(union, inside),
        is_folded(union, before, areas_in(array, end), after),
    ensures
        after is Some == (before is Some || has_an_area(array, end)),
        is_covered(inside, polygons_in(after), p) == (is_covered(inside, polygons_in(before), p)
            || is_covered_by_a_row(inside, array, end, p)),
    decreases end,
{
    if end > 0 {
        let i = end - 1;
        let areas = areas_in(array, end);
        let read = array.geometry(i);
        if read is Some {
            law_an_area_covers_its_geometry(inside, read->0, p);
        }
        if read is Some && is_areal(read->0) {
            let area = area_of(read->0)->0;
            assert(areas.drop_last() =~= areas_in(array, i));
            assert(areas.last() == area);
            let state = choose|state: Option<Seq<PolygonView>>|
                is_folded(union, before, areas.drop_last(), state) && #[trigger] is_absorbed(
                    union,
                    state,
                    areas.last(),
                    after,
                );
            lemma_folded(union, inside, array, before, i, state, p);
            if state is Some {
                let (a, b, c) = choose|a: Vec<Polygon>, b: Vec<Polygon>, c: Vec<Polygon>|
                    {
                        &&& #[trigger] union.ensures((&a, &b), c)
                        &&& polygons_view(a@) == state->0
                        &&& polygons_view(b@) == area
                        &&& after == Some(polygons_view(c@))
                    };
                assert(union.ensures((&a, &b), c));
                assert(is_covered(inside, polygons_view(c@), p) == (is_covered(
                    inside,
                    polygons_view(a@),
                    p,
                ) || is_covered(inside, polygons_view(b@), p)));
            } else {
                assert(!is_covered(inside, Seq::<PolygonView>::empty(), p));
            }
            assert(has_an_area(array, end));
        } else {
            assert(areas == areas_in(array, i));
            lemma_folded(union, inside, array, before, i, after, p);
        }
        if is_covered_by_a_row(inside, array, i, p) {
            let k = choose|k: int|
                0 <= k < i && (#[trigger] array.geometry(k)) is Some && is_over(
                    inside,
                    array.geometry(k)->0,
                    p,
                );
            assert(0 <= k < end && array.geometry(k) is Some);
        }
        if has_an_area(array, i) {
            let k = choose|k: int|
                0 <= k < i && (#[trigger] array.geometry(k)) is Some && is_areal(
                    array.geometry(k)->0,
                );
            assert(0 <= k < end && array.geometry(k) is Some);
        }
        if read is Some && is_over(inside, read->0, p) {
            assert(is_covered_by_a_row(inside, array, end, p));
        }
    }
}

/// The union over a column covers what its start covers and what one of the rows covers, and there
/// is one as soon as a row has an area.
pub proof fn law_a_union_covers_its_rows<U: Fn(&Vec<Polygon>, &Vec<Polygon>) -> Vec<Polygon>>(
    union: U,
    inside: spec_fn(PolygonView, int) -> bool,
    array: ColumnView,
    before: Option<Seq<PolygonView>>,
    after: Option<Seq<PolygonView>>,
    p: int,
)
    requires
        computes_union(union, inside),
        is_union_of(union, array, before, after, Ok::<(), Error>(())),
    ensures
        after is Some == (before is Some || has_an_area(array, array.rows())),
        is_covered(inside, polygons_in(after), p) == (is_covered(inside, polygons_in(before), p)
            || is_covered_by_a_row(inside, array, array.rows(), p)),
{
    lemma_folded(union, inside, array, before, array.rows(), after, p);
}

/// The union over a column of which one row alone has an area is made of the polygons of that row.
pub proof fn law_one_area_is_its_own_union<U: Fn(&Vec<Polygon>, &Vec<Polygon>) -> Vec<Polygon>>(
    union: U,
    array: ColumnView,
    i: int,
    polygons: Seq<PolygonView>,
    after: Option<Seq<PolygonView>>,
)
    requires
        0 <= i < array.rows(),
        array.geometry(i) == Some(GeometryView::MultiPolygon(polygons)),
        forall|k: int|
            0 <= k < array.rows() && k != i ==> ((#[trigger] array.geometry(k)) matches Some(geom)
                ==> !is_areal(geom)),
        is_union_of(union, array, None, after, Ok::<(), Error>(())),
    ensures
        after == Some(polygons),
{
    lemma_one_area(array, i, polygons, array.rows());
    let areas = areas_in(array, array.rows());
    assert(areas =~= seq![polygons]);
    assert(areas.drop_last() =~= Seq::empty());
    let state = choose|state: Option<Seq<PolygonView>>|
        is_folded(union, None, areas.drop_last(), state) && #[trigger] is_absorbed(
            union,
            state,
            areas.last(),
            after,
        );
    assert(state is None);
}

proof fn lemma_one_area(array: ColumnView, i: int, polygons: Seq<PolygonView>, end: int)
    requires
        0 <= i < array.rows(),
        0 <= end <= array.rows(),
        array.geometry(i) == Some(GeometryView::MultiPolygon(polygons)),
        forall|k: int|
            0 <= k < array.rows() && k != i ==> ((#[trigger] array.geometry(k)) matches Some(geom)
                ==> !is_areal(geom)),
    ensures
        areas_in(array, end) =~= if end <= i {
            Seq::empty()
        } else {
            seq![polygons]
        },
    decreases end,
{
    if end > 0 {
        lemma_one_area(array, i, polygons, end - 1);
        let read = array.geometry(end - 1);
    }
}

/// What a decoded state stands for covers what the decoded geometry covers.
pub proof fn law_a_decoded_state_covers_its_geometry(
    inside: spec_fn(PolygonView, int) -> bool,
    geom: GeometryView,
    p: int,
)
    ensures
        is_covered(inside, polygons_in(shape_of(geom)), p) == is_over(inside, geom, p),
        !(geom is Point || geom is MultiPoint || geom is LineString || geom is MultiLineString
            || geom is Line || geom is GeometryCollection) ==> (shape_of(geom) is None
            ==> promoted(geom) == GeometryView::MultiPolygon(Seq::empty())),
{
    law_an_area_covers_its_geometry(inside, geom, p);
    if let GeometryView::MultiPolygon(polygons) = geom {
        assert(polygons.len() == 0 ==> polygons =~= Seq::empty());
    }
}

/// True when decoding depends on the bytes alone.
pub open spec fn decodes<R: Fn(&wkb::reader::Wkb<'_>) -> Option<Geometry>>(
    read: R,
    decode: spec_fn(Seq<u8>) -> Option<GeometryView>,
) -> bool {
    forall|bytes: Seq<u8>, out: Option<GeometryView>| #[trigger]
        is_decoded(read, bytes, out) ==> out == decode(bytes)
}

/// True when a partial state before `end` covers a position.
pub open spec fn is_covered_by_a_state(
    inside: spec_fn(PolygonView, int) -> bool,
    decode: spec_fn(Seq<u8>) -> Option<GeometryView>,
    partials: Seq<Option<Vec<u8>>>,
    end: int,
    p: int,
) -> bool {
    exists|k: int|
        0 <= k < end && (#[trigger] partials[k]) is Some && is_over(
            inside,
            decode(partials[k]->0@)->0,
            p,
        )
}

/// The union of partial states covers what it started from and what one of them covers.
pub proof fn law_a_union_covers_its_states<
    R: Fn(&wkb::reader::Wkb<'_>) -> Option<Geometry>,
    U: Fn(&Vec<Polygon>, &Vec<Polygon>) -> Vec<Polygon>,
>(
    read: R,
    union: U,
    inside: spec_fn(PolygonView, int) -> bool,
    decode: spec_fn(Seq<u8>) -> Option<GeometryView>,
    start: Option<Seq<PolygonView>>,
    partials: Seq<Option<Vec<u8>>>,
    end: int,
    out: Option<Seq<PolygonView>>,
    p: int,
)
    requires
        computes_union(union, inside),
        decodes(read, decode),
        0 <= end <= partials.len(),
        are_unioned(read, union, start, partials, end, out),
    ensures
        is_covered(inside, polygons_in(out), p) == (is_covered(inside, polygons_in(start), p)
            || is_covered_by_a_state(inside, decode, partials, end, p)),
    decreases end,
{
    if end > 0 {
        let last = partials[end - 1];
        if is_covered_by_a_state(inside, decode, partials, end - 1, p) {
            let k = choose|k: int|
                0 <= k < end - 1 && (#[trigger] partials[k]) is Some && is_over(
                    inside,
                    decode(partials[k]->0@)->0,
                    p,
                );
            assert(0 <= k < end && partials[k] is Some);
        }
        if last is None {
            law_a_union_covers_its_states(
                read,
                union,
                inside,
                decode,
                start,
                partials,
                end - 1,
                out,
                p,
            );
        } else {
            let (front, geom) = choose|front: Option<Seq<PolygonView>>, geom: GeometryView|
                are_unioned(read, union, start, partials, end - 1, front)
                    && #[trigger] is_union_step(read, union, front, last->0@, geom, out);
            law_a_union_covers_its_states(
                read,
                union,
                inside,
                decode,
                start,
                partials,
                end - 1,
                front,
                p,
            );
            assert(decode(last->0@) == Some(geom));
            law_a_decoded_state_covers_its_geometry(inside, geom, p);
            if let (Some(area), Some(current)) = (shape_of(geom), front) {
                let (a, b, c) = choose|a: Vec<Polygon>, b: Vec<Polygon>, c: Vec<Polygon>|
                    {
                        &&& #[trigger] union.ensures((&a, &b), c)
                        &&& polygons_view(a@) == current
                        &&& polygons_view(b@) == area
                        &&& out == Some(polygons_view(c@))
                    };
                assert(union.ensures((&a, &b), c));
                assert(is_covered(inside, polygons_view(c@), p) == (is_covered(
                    inside,
                    polygons_view(a@),
                    p,
                ) || is_covered(inside, polygons_view(b@), p)));
            }
            assert(!is_covered(inside, Seq::<PolygonView>::empty(), p));
            if is_over(inside, geom, p) {
                assert(0 <= end - 1 < end && partials[end - 1] is Some);
            }
        }
    }
}

/// The parts of each partial state before `end`, none for a null.
pub open spec fn state_parts(
    decode: spec_fn(Seq<u8>) -> Option<GeometryView>,
    partials: Seq<Option<Vec<u8>>>,
    end: int,
) -> Seq<Seq<GeometryView>> {
    Seq::new(
        end as nat,
        |k: int|
            match partials[k] {
                Some(bytes) => match decode(bytes@)->0 {
                    GeometryView::GeometryCollection(parts) => parts,
                    other => seq![other],
                },
                None => Seq::empty(),
            },
    )
}

/// Collected partial states are their parts, one after the other, behind what it started from.
pub proof fn law_a_collection_joins_its_states<
    R: Fn(&wkb::reader::Wkb<'_>) -> Option<Geometry>,
>(
    read: R,
    decode: spec_fn(Seq<u8>) -> Option<GeometryView>,
    start: Seq<GeometryView>,
    partials: Seq<Option<Vec<u8>>>,
    end: int,
    out: Seq<GeometryView>,
)
    requires
        decodes(read, decode),
        0 <= end <= partials.len(),
        are_collected(read, start, partials, end, out),
    ensures
        out == start + state_parts(decode, partials, end).flatten(),
    decreases end,
{
    let lists = state_parts(decode, partials, end);
    if end == 0 {
        assert(lists.flatten() =~= Seq::empty());
        assert(out =~= start + lists.flatten());
    } else {
        let before = state_parts(decode, partials, end - 1);
        assert(lists =~= before.push(lists[end - 1]));
        before.lemma_flatten_push(lists[end - 1]);
        let last = partials[end - 1];
        if last is None {
            law_a_collection_joins_its_states(read, decode, start, partials, end - 1, out);
            assert(out =~= start + lists.flatten());
        } else {
            let (front, geom) = choose|front: Seq<GeometryView>, geom: GeometryView|
                are_collected(read, start, partials, end - 1, front) && #[trigger] is_appended(
                    read,
                    front,
                    last->0@,
                    geom,
                    out,
                );
            law_a_collection_joins_its_states(read, decode, start, partials, end - 1, front);
            assert(decode(last->0@) == Some(geom));
            assert(out =~= start + lists.flatten());
        }
    }
}

} // verus!
