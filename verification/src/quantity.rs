//! What the measures add up to.
//!
//! The laws below read the lengths, perimeters and distances as exact numbers: `value` gives the
//! number that a result stands for, and `len` the exact length of a path.

use vstd::prelude::*;
use crate::accessor::{static_topology, topology};
use crate::column::Kind;
use crate::edit::exploded;
use crate::geometry::{
    coords_of, rect_polygon, triangle_polygon, Coord, Geometry, GeometryView, PolygonView,
};
use crate::measure::{
    are_distances, are_lengths, are_perimeters, are_planar_lengths, are_planar_perimeters,
    is_always_zero, is_length, is_max_distance, is_planar_length, is_planar_perimeter,
    is_polygon_perimeter, is_sum, is_total_length, peak, BinaryMeasure, UnaryMeasure,
};
use crate::number;
use crate::process::{all_rings, boundary, rings_of};
use crate::region::is_areal;

verus! {

// --------------------------------------------------------------- exact numbers
/// True when the closures measure and add exactly.
pub open spec fn is_exact<L: Fn(&Vec<Coord>) -> u64, P: Fn(u64, u64) -> u64>(
    length: L,
    plus: P,
    value: spec_fn(u64) -> int,
    len: spec_fn(Seq<Coord>) -> int,
) -> bool {
    &&& value(number::ZERO) == 0
    &&& forall|path: &Vec<Coord>, out: u64| #[trigger]
        length.ensures((path,), out) ==> value(out) == len(path@)
    &&& forall|a: u64, b: u64, out: u64| #[trigger]
        plus.ensures((a, b), out) ==> value(out) == value(a) + value(b)
}

/// The sum of a list of numbers.
pub open spec fn sum_of(terms: Seq<int>) -> int
    decreases terms.len(),
{
    if terms.len() == 0 {
        0
    } else {
        sum_of(terms.drop_last()) + terms.last()
    }
}

/// The length of paths together.
pub open spec fn way_along(len: spec_fn(Seq<Coord>) -> int, lines: Seq<Seq<Coord>>) -> int {
    sum_of(Seq::new(lines.len(), |k: int| len(lines[k])))
}

/// The length of the lines of a geometry.
pub open spec fn way(len: spec_fn(Seq<Coord>) -> int, geom: GeometryView) -> int
    decreases geom,
{
    match geom {
        GeometryView::Line(a, b) => len(seq![a, b]),
        GeometryView::LineString(line) => len(line),
        GeometryView::MultiLineString(lines) => way_along(len, lines),
        GeometryView::GeometryCollection(parts) => sum_of(ways(len, parts)),
        _ => 0,
    }
}

/// The length of the lines of each part.
pub open spec fn ways(len: spec_fn(Seq<Coord>) -> int, parts: Seq<GeometryView>) -> Seq<int>
    decreases parts,
{
    Seq::new(
        parts.len(),
        |k: int|
            if 0 <= k < parts.len() {
                way(len, parts[k])
            } else {
                0
            },
    )
}

/// The length of the rings of the polygons of a geometry.
pub open spec fn rim(len: spec_fn(Seq<Coord>) -> int, geom: GeometryView) -> int
    decreases geom,
{
    match geom {
        GeometryView::GeometryCollection(parts) => sum_of(rims(len, parts)),
        _ => if is_areal(geom) {
            way(len, boundary(geom))
        } else {
            0
        },
    }
}

/// The length of the rings of the polygons of each part.
pub open spec fn rims(len: spec_fn(Seq<Coord>) -> int, parts: Seq<GeometryView>) -> Seq<int>
    decreases parts,
{
    Seq::new(
        parts.len(),
        |k: int|
            if 0 <= k < parts.len() {
                rim(len, parts[k])
            } else {
                0
            },
    )
}

proof fn lemma_sum<P: Fn(u64, u64) -> u64>(
    plus: P,
    value: spec_fn(u64) -> int,
    terms: Seq<u64>,
    sum: u64,
)
    requires
        value(number::ZERO) == 0,
        forall|a: u64, b: u64, out: u64| #[trigger]
            plus.ensures((a, b), out) ==> value(out) == value(a) + value(b),
        is_sum(plus, terms, sum),
    ensures
        value(sum) == sum_of(Seq::new(terms.len(), |k: int| value(terms[k]))),
    decreases terms.len(),
{
    let values = Seq::new(terms.len(), |k: int| value(terms[k]));
    if terms.len() == 1 {
        assert(values.drop_last() =~= Seq::empty());
        reveal_with_fuel(sum_of, 2);
    } else if terms.len() > 1 {
        let front = choose|front: u64|
            is_sum(plus, terms.drop_last(), front) && #[trigger] plus.ensures(
                (front, terms.last()),
                sum,
            );
        lemma_sum(plus, value, terms.drop_last(), front);
        assert(values.drop_last() =~= Seq::new(
            terms.drop_last().len(),
            |k: int| value(terms.drop_last()[k]),
        ));
    }
}

proof fn lemma_total_length<L: Fn(&Vec<Coord>) -> u64, P: Fn(u64, u64) -> u64>(
    length: L,
    plus: P,
    value: spec_fn(u64) -> int,
    len: spec_fn(Seq<Coord>) -> int,
    lines: Seq<Seq<Coord>>,
    out: u64,
)
    requires
        is_exact(length, plus, value, len),
        is_total_length(length, plus, lines, out),
    ensures
        value(out) == way_along(len, lines),
{
    let sums = choose|sums: Seq<u64>| #[trigger]
        are_lengths(length, lines, sums) && is_sum(plus, sums, out);
    lemma_sum(plus, value, sums, out);
    assert forall|k: int| 0 <= k < sums.len() implies value(#[trigger] sums[k]) == len(lines[k]) by {
        assert(is_length(length, lines[k], sums[k]));
    }
    assert(Seq::new(sums.len(), |k: int| value(sums[k])) =~= Seq::new(
        lines.len(),
        |k: int| len(lines[k]),
    ));
}

proof fn lemma_sum_joined(a: Seq<int>, b: Seq<int>)
    ensures
        sum_of(a + b) == sum_of(a) + sum_of(b),
    decreases b.len(),
{
    if b.len() == 0 {
        assert(a + b =~= a);
    } else {
        lemma_sum_joined(a, b.drop_last());
        assert((a + b).drop_last() =~= a + b.drop_last());
    }
}

proof fn lemma_way_joined(len: spec_fn(Seq<Coord>) -> int, a: Seq<Seq<Coord>>, b: Seq<Seq<Coord>>)
    ensures
        way_along(len, a + b) == way_along(len, a) + way_along(len, b),
{
    let x = Seq::new(a.len(), |k: int| len(a[k]));
    let y = Seq::new(b.len(), |k: int| len(b[k]));
    lemma_sum_joined(x, y);
    assert(Seq::new((a + b).len(), |k: int| len((a + b)[k])) =~= x + y);
}

proof fn lemma_perimeter<L: Fn(&Vec<Coord>) -> u64, P: Fn(u64, u64) -> u64>(
    length: L,
    plus: P,
    value: spec_fn(u64) -> int,
    len: spec_fn(Seq<Coord>) -> int,
    polygon: PolygonView,
    out: u64,
)
    requires
        is_exact(length, plus, value, len),
        is_polygon_perimeter(length, plus, polygon, out),
    ensures
        value(out) == way_along(len, rings_of(polygon)),
{
    let (shell, holes) = choose|shell: u64, holes: u64|
        {
            &&& #[trigger] is_length(length, polygon.exterior, shell)
            &&& #[trigger] is_total_length(length, plus, polygon.interiors, holes)
            &&& plus.ensures((shell, holes), out)
        };
    lemma_total_length(length, plus, value, len, polygon.interiors, holes);
    lemma_way_joined(len, seq![polygon.exterior], polygon.interiors);
    let one = Seq::new(1, |k: int| len(seq![polygon.exterior][k]));
    assert(one.drop_last() =~= Seq::empty());
    assert(one.last() == len(polygon.exterior));
    reveal_with_fuel(sum_of, 2);
    assert(way_along(len, seq![polygon.exterior]) == sum_of(one));
}

proof fn lemma_way_flattened(len: spec_fn(Seq<Coord>) -> int, lists: Seq<Seq<Seq<Coord>>>)
    ensures
        way_along(len, lists.flatten()) == sum_of(
            Seq::new(lists.len(), |k: int| way_along(len, lists[k])),
        ),
    decreases lists.len(),
{
    let terms = Seq::new(lists.len(), |k: int| way_along(len, lists[k]));
    if lists.len() == 0 {
        assert(lists.flatten() =~= Seq::empty());
    } else {
        let front = lists.drop_last();
        lemma_way_flattened(len, front);
        assert(lists =~= front.push(lists.last()));
        front.lemma_flatten_push(lists.last());
        lemma_way_joined(len, front.flatten(), lists.last());
        assert(terms.drop_last() =~= Seq::new(front.len(), |k: int| way_along(len, front[k])));
    }
}

// ------------------------------------------------------------------------ laws
/// The length of a geometry is that of its lines, at any depth: points and areas add nothing.
pub proof fn law_a_length_is_that_of_the_lines<L: Fn(&Vec<Coord>) -> u64, P: Fn(u64, u64) -> u64>(
    length: L,
    plus: P,
    value: spec_fn(u64) -> int,
    len: spec_fn(Seq<Coord>) -> int,
    geom: GeometryView,
    out: u64,
)
    requires
        is_exact(length, plus, value, len),
        is_planar_length(length, plus, geom, out),
    ensures
        value(out) == way(len, geom),
        !(geom is GeometryCollection) && topology(geom) != 1 ==> out == number::ZERO,
    decreases geom,
{
    match geom {
        GeometryView::MultiLineString(lines) => lemma_total_length(
            length,
            plus,
            value,
            len,
            lines,
            out,
        ),
        GeometryView::GeometryCollection(parts) => {
            let sums = choose|sums: Seq<u64>|
                are_planar_lengths(length, plus, parts, sums) && #[trigger] is_sum(plus, sums, out);
            lemma_sum(plus, value, sums, out);
            assert forall|k: int| 0 <= k < sums.len() implies value(#[trigger] sums[k]) == way(
                len,
                parts[k],
            ) by {
                assert(decreases_to!(geom => parts[k]));
                law_a_length_is_that_of_the_lines(length, plus, value, len, parts[k], sums[k]);
            }
            assert(Seq::new(sums.len(), |k: int| value(sums[k])) =~= ways(len, parts));
        },
        _ => {},
    }
}

/// The perimeter of a geometry is the length of what bounds its areas, shells and holes alike.
/// Points and lines add nothing.
pub proof fn law_a_perimeter_is_the_length_of_the_boundary<
    L: Fn(&Vec<Coord>) -> u64,
    P: Fn(u64, u64) -> u64,
>(
    length: L,
    plus: P,
    value: spec_fn(u64) -> int,
    len: spec_fn(Seq<Coord>) -> int,
    geom: GeometryView,
    out: u64,
)
    requires
        is_exact(length, plus, value, len),
        is_planar_perimeter(length, plus, geom, out),
    ensures
        value(out) == rim(len, geom),
        is_areal(geom) ==> value(out) == way(len, boundary(geom)),
        topology(geom) != 2 && !(geom is GeometryCollection) ==> out == number::ZERO,
    decreases geom,
{
    match geom {
        GeometryView::Polygon(polygon) => lemma_perimeter(length, plus, value, len, polygon, out),
        GeometryView::Rect(a, b) => lemma_perimeter(
            length,
            plus,
            value,
            len,
            rect_polygon(a, b),
            out,
        ),
        GeometryView::Triangle(a, b, c) => lemma_perimeter(
            length,
            plus,
            value,
            len,
            triangle_polygon(a, b, c),
            out,
        ),
        GeometryView::MultiPolygon(polygons) => {
            let sums = choose|sums: Seq<u64>|
                are_perimeters(length, plus, polygons, sums) && #[trigger] is_sum(plus, sums, out);
            lemma_sum(plus, value, sums, out);
            lemma_way_flattened(len, all_rings(polygons));
            assert forall|k: int| 0 <= k < sums.len() implies value(#[trigger] sums[k])
                == way_along(len, all_rings(polygons)[k]) by {
                lemma_perimeter(length, plus, value, len, polygons[k], sums[k]);
            }
            assert(Seq::new(sums.len(), |k: int| value(sums[k])) =~= Seq::new(
                all_rings(polygons).len(),
                |k: int| way_along(len, all_rings(polygons)[k]),
            ));
        },
        GeometryView::GeometryCollection(parts) => {
            let sums = choose|sums: Seq<u64>|
                are_planar_perimeters(length, plus, parts, sums) && #[trigger] is_sum(
                    plus,
                    sums,
                    out,
                );
            lemma_sum(plus, value, sums, out);
            assert forall|k: int| 0 <= k < sums.len() implies value(#[trigger] sums[k]) == rim(
                len,
                parts[k],
            ) by {
                assert(decreases_to!(geom => parts[k]));
                law_a_perimeter_is_the_length_of_the_boundary(
                    length,
                    plus,
                    value,
                    len,
                    parts[k],
                    sums[k],
                );
            }
            assert(Seq::new(sums.len(), |k: int| value(sums[k])) =~= rims(len, parts));
        },
        _ => {},
    }
}

/// The lines of a geometry are as long as those of its parts together.
pub proof fn law_lengths_add_up(len: spec_fn(Seq<Coord>) -> int, geom: GeometryView)
    ensures
        way(len, geom) == sum_of(
            Seq::new(exploded(geom).len(), |k: int| way(len, exploded(geom)[k])),
        ),
{
    let parts = exploded(geom);
    let terms = Seq::new(parts.len(), |k: int| way(len, parts[k]));
    match geom {
        GeometryView::MultiLineString(lines) => {
            assert(terms =~= Seq::new(lines.len(), |k: int| len(lines[k])));
        },
        GeometryView::GeometryCollection(inner) => {
            assert(terms =~= ways(len, inner));
        },
        GeometryView::MultiPoint(_) => lemma_zeros(terms),
        GeometryView::MultiPolygon(_) => lemma_zeros(terms),
        _ => {
            assert(terms =~= seq![way(len, geom)]);
            assert(terms.drop_last() =~= Seq::empty());
            reveal_with_fuel(sum_of, 2);
        },
    }
}

proof fn lemma_zeros(terms: Seq<int>)
    requires
        forall|k: int| 0 <= k < terms.len() ==> #[trigger] terms[k] == 0,
    ensures
        sum_of(terms) == 0,
    decreases terms.len(),
{
    if terms.len() > 0 {
        assert(terms.last() == terms[terms.len() - 1]);
        lemma_zeros(terms.drop_last());
    }
}

/// A column type settles a measure at zero only where every geometry of the type measures zero: a
/// length needs lines, an area and a perimeter need areas.
pub proof fn law_only_the_wrong_dimension_is_always_zero(measure: UnaryMeasure, kind: Kind)
    requires
        is_always_zero(measure, kind),
    ensures
        static_topology(kind) matches Some(d) && match measure {
            UnaryMeasure::Length => d != 1,
            UnaryMeasure::Area => d != 2,
            UnaryMeasure::Perimeter => d != 2,
        },
{
}

/// The measures between points need two points, and a direction two different ones. The Frechet
/// distance needs two line strings. Every other measure is defined for all geometries.
pub proof fn law_where_a_measure_is_defined(left: GeometryView, right: GeometryView)
    ensures
        BinaryMeasure::Distance.is_defined(left, right),
        BinaryMeasure::MaxDistance.is_defined(left, right),
        BinaryMeasure::Hausdorff.is_defined(left, right),
        forall|measure: BinaryMeasure|
            #[trigger] measure.is_defined(left, right) == measure.is_defined(right, left),
        forall|a: Coord, b: Coord|
            left == GeometryView::Point(a) && right == GeometryView::Point(b) ==> {
                &&& BinaryMeasure::Sphere.is_defined(left, right)
                &&& BinaryMeasure::Spheroid.is_defined(left, right)
                &&& BinaryMeasure::Azimuth.is_defined(left, right) == !#[trigger] a.is_same(b)
                &&& !BinaryMeasure::Frechet.is_defined(left, right)
            },
        !(left is Point) ==> !BinaryMeasure::Sphere.is_defined(left, right)
            && !BinaryMeasure::Spheroid.is_defined(left, right)
            && !BinaryMeasure::Azimuth.is_defined(left, right),
        BinaryMeasure::Frechet.is_defined(left, right) <==> left is LineString
            && right is LineString,
{
}

/// A measure that the closure computes is computed of the first geometry and the second, in this
/// order.
pub proof fn law_a_measure_keeps_its_sides<
    D: Fn(BinaryMeasure, &Geometry, &Geometry) -> u64,
    F: Fn(Coord, Coord) -> u64,
>(
    number: D,
    far: F,
    answer: spec_fn(BinaryMeasure, GeometryView, GeometryView) -> u64,
    measure: BinaryMeasure,
    left: GeometryView,
    right: GeometryView,
    out: Option<u64>,
)
    requires
        forall|m: BinaryMeasure, a: &Geometry, b: &Geometry, n: u64| #[trigger]
            number.ensures((m, a, b), n) ==> n == answer(m, a@, b@),
        measure.is_evaluated(number, far, left, right, out),
        measure != BinaryMeasure::MaxDistance,
    ensures
        out == if measure.is_defined(left, right) {
            Some(answer(measure, left, right))
        } else {
            None
        },
{
}

/// The largest distance is one of the distances between the positions, and none of them is larger.
pub proof fn law_no_distance_is_larger<F: Fn(Coord, Coord) -> u64>(
    far: F,
    distance: spec_fn(Coord, Coord) -> u64,
    left: GeometryView,
    right: GeometryView,
    out: u64,
    i: int,
    j: int,
)
    requires
        forall|a: Coord, b: Coord, d: u64| #[trigger]
            far.ensures((a, b), d) ==> d == distance(a, b),
        forall|a: Coord, b: Coord|
            number::is_le(number::ZERO, #[trigger] distance(a, b)),
        is_max_distance(far, left, right, out),
        0 <= i < coords_of(left).len(),
        0 <= j < coords_of(right).len(),
    ensures
        number::is_le(distance(coords_of(left)[i], coords_of(right)[j]), out),
        number::is_eq(out, number::ZERO) || exists|k: int, l: int|
            0 <= k < coords_of(left).len() && 0 <= l < coords_of(right).len() && out
                == #[trigger] distance(coords_of(left)[k], coords_of(right)[l]),
{
    let a = coords_of(left);
    let b = coords_of(right);
    let values = choose|values: Seq<u64>| #[trigger]
        are_distances(far, a, b, values) && out == peak(values);
    let n = b.len() as int;
    assert(0 <= i * n + j < values.len()) by (nonlinear_arith)
        requires
            0 <= i < a.len(),
            0 <= j < n,
            n == b.len(),
            values.len() == a.len() * b.len(),
    ;
    assert forall|m: int| 0 <= m < values.len() implies exists|k: int, l: int|
        0 <= k < a.len() && 0 <= l < n && #[trigger] values[m] == #[trigger] distance(a[k], b[l]) by {
        let k = m / n;
        let l = m % n;
        assert(0 <= k < a.len() && 0 <= l < n && m == k * n + l) by (nonlinear_arith)
            requires
                0 <= m < values.len(),
                n > 0,
                n == b.len(),
                values.len() == a.len() * b.len(),
                k == m / n,
                l == m % n,
        ;
        assert(far.ensures((a[k], b[l]), values[k * n + l]));
        assert(values[m] == distance(a[k], b[l]));
    }
    assert forall|m: int| 0 <= m < values.len() implies number::is_le(
        number::ZERO,
        #[trigger] values[m],
    ) by {
        let (k, l) = choose|k: int, l: int|
            0 <= k < a.len() && 0 <= l < n && values[m] == #[trigger] distance(a[k], b[l]);
    }
    lemma_peak(values);
    assert(far.ensures((a[i], b[j]), values[i * n + j]));
    if !number::is_eq(out, number::ZERO) {
        let m = choose|m: int| 0 <= m < values.len() && #[trigger] values[m] == peak(values);
        let (k, l) = choose|k: int, l: int|
            0 <= k < a.len() && 0 <= l < n && values[m] == #[trigger] distance(a[k], b[l]);
        assert(out == distance(coords_of(left)[k], coords_of(right)[l]));
    }
}

proof fn lemma_peak(values: Seq<u64>)
    requires
        forall|m: int|
            0 <= m < values.len() ==> number::is_le(number::ZERO, #[trigger] values[m]),
    ensures
        number::is_le(number::ZERO, peak(values)),
        forall|m: int| 0 <= m < values.len() ==> number::is_le(#[trigger] values[m], peak(values)),
        peak(values) == number::ZERO || exists|m: int|
            0 <= m < values.len() && #[trigger] values[m] == peak(values),
    decreases values.len(),
{
    if values.len() == 0 {
        assert(number::is_le(number::ZERO, number::ZERO));
    } else {
        let front = values.drop_last();
        assert forall|m: int| 0 <= m < front.len() implies number::is_le(
            number::ZERO,
            #[trigger] front[m],
        ) by {
            assert(front[m] == values[m]);
        }
        lemma_peak(front);
        let last = values[values.len() - 1];
        assert(number::is_le(number::ZERO, last));
        assert forall|m: int| 0 <= m < values.len() implies number::is_le(
            #[trigger] values[m],
            peak(values),
        ) by {
            if m < front.len() {
                assert(front[m] == values[m]);
            }
        }
        if peak(values) == last {
            assert(values[values.len() - 1] == peak(values));
        } else if peak(front) != number::ZERO {
            let m = choose|m: int| 0 <= m < front.len() && #[trigger] front[m] == peak(front);
            assert(values[m] == peak(values));
        }
    }
}

} // verus!
