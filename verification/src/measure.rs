//! Measurement functions.
//!
//! # Planar and spherical are different questions
//!
//! `ST_Distance`, `ST_Area` and `ST_Length` are planar. They treat coordinates as Cartesian, so on
//! longitude and latitude data they return degrees, not metres. That is what PostGIS does for the
//! `geometry` type.
//!
//! `ST_DistanceSphere` and `ST_DistanceSpheroid` are the spherical answers, in metres.
//!
//! The numbers themselves come from the caller: an area, the length of one path, the distance of
//! two geometries, a sum. What is decided here is which number answers which row.

use vstd::prelude::*;
use crate::column::{Column, ColumnView, Kind};
use crate::error::Error;
use crate::geometry::{
    coords_of, geometries_view, lemma_collection_view, lines_view, polygons_view, rect_polygon,
    rect_to_polygon, triangle_polygon, triangle_to_polygon, Coord, Geometry, GeometryView, Polygon,
    PolygonView,
};
use crate::number;
use crate::operand::{
    broadcast_len, is_pair_broken, is_pair_read, lengths_fit, no_pair_broken, slot, Operand,
};
use crate::rows::map_geometries;

verus! {

/// A measurement over one geometry.
#[derive(Debug, Clone, Copy, PartialEq, Eq, Structural, Hash)]
pub enum UnaryMeasure {
    /// `ST_Area`. Always positive.
    Area,
    /// `ST_Length`. The length of lineal parts. Zero for a point or a polygon, as in PostGIS.
    Length,
    /// `ST_Perimeter`. The boundary length of areal parts. Zero for a point or a line.
    Perimeter,
}

impl UnaryMeasure {
    /// The PostGIS function name.
    pub open spec fn name_text(self) -> Seq<char> {
        match self {
            UnaryMeasure::Area => "ST_Area"@,
            UnaryMeasure::Length => "ST_Length"@,
            UnaryMeasure::Perimeter => "ST_Perimeter"@,
        }
    }

    /// The lowercase SQL name.
    pub open spec fn sql_text(self) -> Seq<char> {
        match self {
            UnaryMeasure::Area => "st_area"@,
            UnaryMeasure::Length => "st_length"@,
            UnaryMeasure::Perimeter => "st_perimeter"@,
        }
    }

    /// The PostGIS function name.
    pub fn function_name(self) -> (r: &'static str)
        ensures
            r@ == self.name_text(),
    {
        match self {
            UnaryMeasure::Area => "ST_Area",
            UnaryMeasure::Length => "ST_Length",
            UnaryMeasure::Perimeter => "ST_Perimeter",
        }
    }

    /// The lowercase SQL name.
    pub fn sql_name(self) -> (r: &'static str)
        ensures
            r@ == self.sql_text(),
    {
        match self {
            UnaryMeasure::Area => "st_area",
            UnaryMeasure::Length => "st_length",
            UnaryMeasure::Perimeter => "st_perimeter",
        }
    }

    /// Every unary measure, for registration.
    pub fn all() -> (r: [UnaryMeasure; 3])
        ensures
            r@ == seq![UnaryMeasure::Area, UnaryMeasure::Length, UnaryMeasure::Perimeter],
    {
        let r = [UnaryMeasure::Area, UnaryMeasure::Length, UnaryMeasure::Perimeter];
        assert(r@ =~= seq![UnaryMeasure::Area, UnaryMeasure::Length, UnaryMeasure::Perimeter]);
        r
    }
}

// ------------------------------------------------------------------------ sums
/// True when `sum` is the sum of a list from left to right. A list of nothing sums to zero.
pub open spec fn is_sum<P: Fn(u64, u64) -> u64>(plus: P, terms: Seq<u64>, sum: u64) -> bool
    decreases terms.len(),
{
    if terms.len() == 0 {
        sum == number::ZERO
    } else if terms.len() == 1 {
        sum == terms[0]
    } else {
        exists|front: u64|
            is_sum(plus, terms.drop_last(), front) && #[trigger] plus.ensures(
                (front, terms.last()),
                sum,
            )
    }
}

/// The sum of a list from left to right.
fn sum_of<P: Fn(u64, u64) -> u64>(terms: &Vec<u64>, plus: &P) -> (r: u64)
    requires
        forall|a: u64, b: u64| #[trigger] plus.requires((a, b)),
    ensures
        is_sum(*plus, terms@, r),
{
    if terms.len() == 0 {
        return number::ZERO;
    }
    let mut sum: u64 = terms[0];
    let mut i: usize = 1;
    assert(terms@.take(1).len() == 1);
    while i < terms.len()
        invariant
            1 <= i <= terms@.len(),
            forall|a: u64, b: u64| #[trigger] plus.requires((a, b)),
            is_sum(*plus, terms@.take(i as int), sum),
        decreases terms@.len() - i,
    {
        let next: u64 = plus(sum, terms[i]);
        proof {
            assert(terms@.take(i + 1).drop_last() =~= terms@.take(i as int));
            assert(is_sum(*plus, terms@.take(i + 1).drop_last(), sum));
            assert(plus.ensures((sum, terms@.take(i + 1).last()), next));
        }
        sum = next;
        i = i + 1;
    }
    assert(terms@.take(i as int) =~= terms@);
    sum
}

// --------------------------------------------------------------- length, perimeter
/// True when `sums` are the lengths of the paths.
pub open spec fn are_lengths<L: Fn(&Vec<Coord>) -> u64>(
    length: L,
    lines: Seq<Seq<Coord>>,
    sums: Seq<u64>,
) -> bool {
    &&& sums.len() == lines.len()
    &&& forall|i: int| 0 <= i < sums.len() ==> is_length(length, lines[i], #[trigger] sums[i])
}

/// True when `out` is the length of a path.
pub open spec fn is_length<L: Fn(&Vec<Coord>) -> u64>(length: L, line: Seq<Coord>, out: u64) -> bool {
    exists|path: Vec<Coord>| #[trigger] path@ == line && length.ensures((&path,), out)
}

/// True when `out` is the length of the paths together.
pub open spec fn is_total_length<L: Fn(&Vec<Coord>) -> u64, P: Fn(u64, u64) -> u64>(
    length: L,
    plus: P,
    lines: Seq<Seq<Coord>>,
    out: u64,
) -> bool {
    exists|sums: Seq<u64>| #[trigger]
        are_lengths(length, lines, sums) && is_sum(plus, sums, out)
}

/// True when `out` is the length of the lineal parts of a geometry.
///
/// PostGIS returns zero for a polygon here. `ST_Perimeter` is the areal version.
pub open spec fn is_planar_length<L: Fn(&Vec<Coord>) -> u64, P: Fn(u64, u64) -> u64>(
    length: L,
    plus: P,
    geom: GeometryView,
    out: u64,
) -> bool
    decreases geom, 1int,
{
    match geom {
        GeometryView::Line(a, b) => is_length(length, seq![a, b], out),
        GeometryView::LineString(line) => is_length(length, line, out),
        GeometryView::MultiLineString(lines) => is_total_length(length, plus, lines, out),
        GeometryView::GeometryCollection(parts) => exists|sums: Seq<u64>|
            are_planar_lengths(length, plus, parts, sums) && #[trigger] is_sum(plus, sums, out),
        _ => out == number::ZERO,
    }
}

/// True when `sums` are the lengths of the parts.
pub open spec fn are_planar_lengths<L: Fn(&Vec<Coord>) -> u64, P: Fn(u64, u64) -> u64>(
    length: L,
    plus: P,
    parts: Seq<GeometryView>,
    sums: Seq<u64>,
) -> bool
    decreases parts, 0int,
{
    &&& sums.len() == parts.len()
    &&& forall|i: int|
        0 <= i < parts.len() ==> is_planar_length(length, plus, parts[i], #[trigger] sums[i])
}

/// True when `out` is the length of the shell plus the length of the holes.
pub open spec fn is_polygon_perimeter<L: Fn(&Vec<Coord>) -> u64, P: Fn(u64, u64) -> u64>(
    length: L,
    plus: P,
    polygon: PolygonView,
    out: u64,
) -> bool {
    exists|shell: u64, holes: u64|
        {
            &&& #[trigger] is_length(length, polygon.exterior, shell)
            &&& #[trigger] is_total_length(length, plus, polygon.interiors, holes)
            &&& plus.ensures((shell, holes), out)
        }
}

/// True when `sums` are the perimeters of the polygons.
pub open spec fn are_perimeters<L: Fn(&Vec<Coord>) -> u64, P: Fn(u64, u64) -> u64>(
    length: L,
    plus: P,
    polygons: Seq<PolygonView>,
    sums: Seq<u64>,
) -> bool {
    &&& sums.len() == polygons.len()
    &&& forall|i: int|
        0 <= i < sums.len() ==> is_polygon_perimeter(length, plus, polygons[i], #[trigger] sums[i])
}

/// True when `out` is the boundary length of the areal parts of a geometry.
pub open spec fn is_planar_perimeter<L: Fn(&Vec<Coord>) -> u64, P: Fn(u64, u64) -> u64>(
    length: L,
    plus: P,
    geom: GeometryView,
    out: u64,
) -> bool
    decreases geom, 1int,
{
    match geom {
        GeometryView::Polygon(polygon) => is_polygon_perimeter(length, plus, polygon, out),
        GeometryView::MultiPolygon(polygons) => exists|sums: Seq<u64>|
            are_perimeters(length, plus, polygons, sums) && #[trigger] is_sum(plus, sums, out),
        GeometryView::Rect(a, b) => is_polygon_perimeter(length, plus, rect_polygon(a, b), out),
        GeometryView::Triangle(a, b, c) => is_polygon_perimeter(
            length,
            plus,
            triangle_polygon(a, b, c),
            out,
        ),
        GeometryView::GeometryCollection(parts) => exists|sums: Seq<u64>|
            are_planar_perimeters(length, plus, parts, sums) && #[trigger] is_sum(plus, sums, out),
        _ => out == number::ZERO,
    }
}

/// True when `sums` are the perimeters of the parts.
pub open spec fn are_planar_perimeters<L: Fn(&Vec<Coord>) -> u64, P: Fn(u64, u64) -> u64>(
    length: L,
    plus: P,
    parts: Seq<GeometryView>,
    sums: Seq<u64>,
) -> bool
    decreases parts, 0int,
{
    &&& sums.len() == parts.len()
    &&& forall|i: int|
        0 <= i < parts.len() ==> is_planar_perimeter(length, plus, parts[i], #[trigger] sums[i])
}

/// What the caller's closures must accept.
pub open spec fn can_measure<L: Fn(&Vec<Coord>) -> u64, P: Fn(u64, u64) -> u64>(
    length: L,
    plus: P,
) -> bool {
    &&& forall|line: &Vec<Coord>| #[trigger] length.requires((line,))
    &&& forall|a: u64, b: u64| #[trigger] plus.requires((a, b))
}

fn total_length<L: Fn(&Vec<Coord>) -> u64, P: Fn(u64, u64) -> u64>(
    lines: &Vec<Vec<Coord>>,
    length: &L,
    plus: &P,
) -> (r: u64)
    requires
        can_measure(*length, *plus),
    ensures
        is_total_length(*length, *plus, lines_view(lines@), r),
{
    let ghost views = lines_view(lines@);
    let mut sums: Vec<u64> = Vec::new();
    let mut i: usize = 0;
    while i < lines.len()
        invariant
            i <= lines@.len(),
            views == lines_view(lines@),
            can_measure(*length, *plus),
            sums@.len() == i,
            forall|j: int| 0 <= j < i ==> is_length(*length, views[j], #[trigger] sums@[j]),
        decreases lines@.len() - i,
    {
        let line = &lines[i];
        let value: u64 = length(line);
        assert(line@ == views[i as int] && length.ensures((line,), value));
        sums.push(value);
        i = i + 1;
    }
    assert(are_lengths(*length, views, sums@));
    sum_of(&sums, plus)
}

/// The length of the lineal parts of a geometry.
pub fn planar_length<L: Fn(&Vec<Coord>) -> u64, P: Fn(u64, u64) -> u64>(
    geom: &Geometry,
    length: &L,
    plus: &P,
) -> (r: u64)
    requires
        can_measure(*length, *plus),
    ensures
        is_planar_length(*length, *plus, geom@, r),
    decreases geom,
{
    match geom {
        Geometry::Line(a, b) => {
            let mut line: Vec<Coord> = Vec::new();
            line.push(*a);
            line.push(*b);
            let r: u64 = length(&line);
            assert(line@ =~= seq![*a, *b]);
            assert(line@ == seq![*a, *b] && length.ensures((&line,), r));
            assert(is_length(*length, seq![*a, *b], r));
            assert(geom@ == GeometryView::Line(*a, *b));
            r
        },
        Geometry::LineString(line) => {
            let r: u64 = length(line);
            assert(line@ == geom@->LineString_0 && length.ensures((line,), r));
            r
        },
        Geometry::MultiLineString(lines) => total_length(lines, length, plus),
        Geometry::GeometryCollection(parts) => {
            let ghost views = geometries_view(parts@);
            let mut sums: Vec<u64> = Vec::new();
            let mut i: usize = 0;
            while i < parts.len()
                invariant
                    i <= parts@.len(),
                    *geom == Geometry::GeometryCollection(*parts),
                    views == geometries_view(parts@),
                    can_measure(*length, *plus),
                    sums@.len() == i,
                    forall|j: int|
                        0 <= j < i ==> is_planar_length(
                            *length,
                            *plus,
                            views[j],
                            #[trigger] sums@[j],
                        ),
                decreases parts@.len() - i,
            {
                proof {
                    assert(decreases_to!(*parts => parts[i as int]));
                    assert(decreases_to!(*geom => geom->GeometryCollection_0));
                }
                let ghost before = sums@;
                let value: u64 = planar_length(&parts[i], length, plus);
                sums.push(value);
                proof {
                    assert forall|j: int| 0 <= j < i + 1 implies is_planar_length(
                        *length,
                        *plus,
                        views[j],
                        #[trigger] sums@[j],
                    ) by {
                        if j < i {
                            assert(sums@[j] == before[j]);
                        }
                    }
                }
                i = i + 1;
            }
            let r: u64 = sum_of(&sums, plus);
            proof {
                lemma_collection_view(*parts);
                reveal_with_fuel(are_planar_lengths, 2);
                reveal_with_fuel(is_planar_length, 2);
                assert(are_planar_lengths(*length, *plus, views, sums@));
            }
            r
        },
        _ => number::ZERO,
    }
}

fn polygon_perimeter<L: Fn(&Vec<Coord>) -> u64, P: Fn(u64, u64) -> u64>(
    polygon: &Polygon,
    length: &L,
    plus: &P,
) -> (r: u64)
    requires
        can_measure(*length, *plus),
    ensures
        is_polygon_perimeter(*length, *plus, polygon@, r),
{
    let ring = &polygon.exterior;
    let shell: u64 = length(ring);
    assert(ring@ == polygon@.exterior && length.ensures((ring,), shell));
    assert(is_length(*length, polygon@.exterior, shell));
    let holes: u64 = total_length(&polygon.interiors, length, plus);
    assert(is_total_length(*length, *plus, polygon@.interiors, holes));
    plus(shell, holes)
}

/// The boundary length of the areal parts of a geometry.
pub fn planar_perimeter<L: Fn(&Vec<Coord>) -> u64, P: Fn(u64, u64) -> u64>(
    geom: &Geometry,
    length: &L,
    plus: &P,
) -> (r: u64)
    requires
        can_measure(*length, *plus),
    ensures
        is_planar_perimeter(*length, *plus, geom@, r),
    decreases geom,
{
    match geom {
        Geometry::Polygon(polygon) => polygon_perimeter(polygon, length, plus),
        Geometry::MultiPolygon(polygons) => {
            let ghost views = polygons_view(polygons@);
            let mut sums: Vec<u64> = Vec::new();
            let mut i: usize = 0;
            while i < polygons.len()
                invariant
                    i <= polygons@.len(),
                    views == polygons_view(polygons@),
                    can_measure(*length, *plus),
                    sums@.len() == i,
                    forall|j: int|
                        0 <= j < i ==> is_polygon_perimeter(
                            *length,
                            *plus,
                            views[j],
                            #[trigger] sums@[j],
                        ),
                decreases polygons@.len() - i,
            {
                let value: u64 = polygon_perimeter(&polygons[i], length, plus);
                sums.push(value);
                i = i + 1;
            }
            assert(are_perimeters(*length, *plus, views, sums@));
            let r: u64 = sum_of(&sums, plus);
            assert(is_planar_perimeter(*length, *plus, geom@, r));
            r
        },
        Geometry::Rect(a, b) => {
            let polygon = rect_to_polygon(*a, *b);
            let r: u64 = polygon_perimeter(&polygon, length, plus);
            assert(is_planar_perimeter(*length, *plus, geom@, r));
            r
        },
        Geometry::Triangle(a, b, c) => {
            let polygon = triangle_to_polygon(*a, *b, *c);
            let r: u64 = polygon_perimeter(&polygon, length, plus);
            assert(is_planar_perimeter(*length, *plus, geom@, r));
            r
        },
        Geometry::GeometryCollection(parts) => {
            let ghost views = geometries_view(parts@);
            let mut sums: Vec<u64> = Vec::new();
            let mut i: usize = 0;
            while i < parts.len()
                invariant
                    i <= parts@.len(),
                    *geom == Geometry::GeometryCollection(*parts),
                    views == geometries_view(parts@),
                    can_measure(*length, *plus),
                    sums@.len() == i,
                    forall|j: int|
                        0 <= j < i ==> is_planar_perimeter(
                            *length,
                            *plus,
                            views[j],
                            #[trigger] sums@[j],
                        ),
                decreases parts@.len() - i,
            {
                proof {
                    assert(decreases_to!(*parts => parts[i as int]));
                    assert(decreases_to!(*geom => geom->GeometryCollection_0));
                }
                let ghost before = sums@;
                let value: u64 = planar_perimeter(&parts[i], length, plus);
                sums.push(value);
                proof {
                    assert forall|j: int| 0 <= j < i + 1 implies is_planar_perimeter(
                        *length,
                        *plus,
                        views[j],
                        #[trigger] sums@[j],
                    ) by {
                        if j < i {
                            assert(sums@[j] == before[j]);
                        }
                    }
                }
                i = i + 1;
            }
            let r: u64 = sum_of(&sums, plus);
            proof {
                lemma_collection_view(*parts);
                reveal_with_fuel(are_planar_perimeters, 2);
                reveal_with_fuel(is_planar_perimeter, 2);
                assert(are_planar_perimeters(*length, *plus, views, sums@));
            }
            r
        },
        _ => number::ZERO,
    }
}

/// True when the type alone settles the measure at zero.
pub open spec fn is_always_zero(measure: UnaryMeasure, kind: Kind) -> bool {
    match (measure, kind) {
        (UnaryMeasure::Area, Kind::Point | Kind::MultiPoint | Kind::LineString
        | Kind::MultiLineString) => true,
        (UnaryMeasure::Length, Kind::Point | Kind::MultiPoint | Kind::Polygon
        | Kind::MultiPolygon) => true,
        (UnaryMeasure::Perimeter, Kind::Point | Kind::MultiPoint | Kind::LineString
        | Kind::MultiLineString) => true,
        _ => false,
    }
}

fn always_zero(measure: UnaryMeasure, kind: Kind) -> (r: bool)
    ensures
        r == is_always_zero(measure, kind),
{
    match (measure, kind) {
        (UnaryMeasure::Area, Kind::Point | Kind::MultiPoint | Kind::LineString
        | Kind::MultiLineString) => true,
        (UnaryMeasure::Length, Kind::Point | Kind::MultiPoint | Kind::Polygon
        | Kind::MultiPolygon) => true,
        (UnaryMeasure::Perimeter, Kind::Point | Kind::MultiPoint | Kind::LineString
        | Kind::MultiLineString) => true,
        _ => false,
    }
}

/// True when `out` is the measure of a geometry.
pub open spec fn is_measure<A, L, P>(
    measure: UnaryMeasure,
    area: A,
    length: L,
    plus: P,
    geom: GeometryView,
    out: u64,
) -> bool where
    A: Fn(&Geometry) -> u64,
    L: Fn(&Vec<Coord>) -> u64,
    P: Fn(u64, u64) -> u64,
 {
    match measure {
        UnaryMeasure::Area => exists|g: Geometry| #[trigger] g@ == geom && area.ensures((&g,), out),
        UnaryMeasure::Length => is_planar_length(length, plus, geom, out),
        UnaryMeasure::Perimeter => is_planar_perimeter(length, plus, geom, out),
    }
}

/// What a measurement over one column gives. A row whose type has no such measure is zero without
/// being read.
pub open spec fn are_measured<A, L, P>(
    array: ColumnView,
    measure: UnaryMeasure,
    area: A,
    length: L,
    plus: P,
    r: Result<Vec<Option<u64>>, Error>,
) -> bool where
    A: Fn(&Geometry) -> u64,
    L: Fn(&Vec<Coord>) -> u64,
    P: Fn(u64, u64) -> u64,
 {
    match r {
        Ok(out) => {
            &&& out@.len() == array.rows()
            &&& !array.has_broken(array.rows())
            &&& forall|i: int|
                0 <= i < out@.len() ==> match array.geometry(i) {
                    Some(geom) => #[trigger] out@[i] is Some && if is_always_zero(
                        measure,
                        array.body.kind(),
                    ) {
                        out@[i]->0 == number::ZERO
                    } else {
                        is_measure(measure, area, length, plus, geom, out@[i]->0)
                    },
                    None => out@[i] is None,
                }
        },
        Err(error) => array.has_broken(array.rows()) && error == Error::Undecodable,
    }
}

/// `ST_Area`.
pub fn st_area<A, L, P>(array: &Column, area: &A, length: &L, plus: &P) -> (r: Result<
    Vec<Option<u64>>,
    Error,
>) where A: Fn(&Geometry) -> u64, L: Fn(&Vec<Coord>) -> u64, P: Fn(u64, u64) -> u64
    requires
        array.wf(),
        forall|g: &Geometry| #[trigger] area.requires((g,)),
        can_measure(*length, *plus),
    ensures
        are_measured(array@, UnaryMeasure::Area, *area, *length, *plus, r),
{
    unary_measure(array, UnaryMeasure::Area, area, length, plus)
}

/// `ST_Length`.
pub fn st_length<A, L, P>(array: &Column, area: &A, length: &L, plus: &P) -> (r: Result<
    Vec<Option<u64>>,
    Error,
>) where A: Fn(&Geometry) -> u64, L: Fn(&Vec<Coord>) -> u64, P: Fn(u64, u64) -> u64
    requires
        array.wf(),
        forall|g: &Geometry| #[trigger] area.requires((g,)),
        can_measure(*length, *plus),
    ensures
        are_measured(array@, UnaryMeasure::Length, *area, *length, *plus, r),
{
    unary_measure(array, UnaryMeasure::Length, area, length, plus)
}

/// `ST_Perimeter`.
pub fn st_perimeter<A, L, P>(array: &Column, area: &A, length: &L, plus: &P) -> (r: Result<
    Vec<Option<u64>>,
    Error,
>) where A: Fn(&Geometry) -> u64, L: Fn(&Vec<Coord>) -> u64, P: Fn(u64, u64) -> u64
    requires
        array.wf(),
        forall|g: &Geometry| #[trigger] area.requires((g,)),
        can_measure(*length, *plus),
    ensures
        are_measured(array@, UnaryMeasure::Perimeter, *area, *length, *plus, r),
{
    unary_measure(array, UnaryMeasure::Perimeter, area, length, plus)
}

/// Any measurement over one geometry.
pub fn unary_measure<A, L, P>(
    array: &Column,
    measure: UnaryMeasure,
    area: &A,
    length: &L,
    plus: &P,
) -> (r: Result<Vec<Option<u64>>, Error>) where
    A: Fn(&Geometry) -> u64,
    L: Fn(&Vec<Coord>) -> u64,
    P: Fn(u64, u64) -> u64,

    requires
        array.wf(),
        forall|g: &Geometry| #[trigger] area.requires((g,)),
        can_measure(*length, *plus),
    ensures
        are_measured(array@, measure, *area, *length, *plus, r),
{
    // A point or a multi point has no area, no length and no perimeter. Answer from the schema and
    // never touch a coordinate.
    if always_zero(measure, array.body.kind()) {
        let rows: usize = array.len();
        let mut out: Vec<Option<u64>> = Vec::new();
        let mut i: usize = 0;
        while i < rows
            invariant
                i <= rows,
                array.wf(),
                rows == array.rows(),
                out@.len() == i,
                forall|j: int|
                    0 <= j < i ==> #[trigger] out@[j] == if array.is_null(j) {
                        None
                    } else {
                        Some(number::ZERO)
                    },
            decreases rows - i,
        {
            if array.null_at(i) {
                out.push(None);
            } else {
                out.push(Some(number::ZERO));
            }
            i = i + 1;
        }
        proof {
            assert forall|j: int| 0 <= j < rows implies !#[trigger] array@.is_broken(j) by {}
        }
        return Ok(out);
    }
    let f = |geom: &Geometry| -> (out: Option<u64>)
        ensures
            out is Some && is_measure(measure, *area, *length, *plus, geom@, out->0),
        {
            let value: u64 = match measure {
                UnaryMeasure::Area => {
                    let value: u64 = area(geom);
                    assert(geom@ == geom@ && area.ensures((geom,), value));
                    value
                },
                UnaryMeasure::Length => planar_length(geom, length, plus),
                UnaryMeasure::Perimeter => planar_perimeter(geom, length, plus),
            };
            Some(value)
        };
    map_geometries(array, &f)
}

// --------------------------------------------------------------- two geometries
/// A measurement between two geometries.
#[derive(Debug, Clone, Copy, PartialEq, Eq, Structural, Hash)]
pub enum BinaryMeasure {
    /// `ST_Distance`. Planar shortest distance.
    Distance,
    /// `ST_MaxDistance`. Planar largest distance between any two points.
    MaxDistance,
    /// `ST_HausdorffDistance`.
    Hausdorff,
    /// `ST_FrechetDistance`. Line strings only.
    Frechet,
    /// `ST_DistanceSphere`. Metres on a sphere.
    Sphere,
    /// `ST_DistanceSpheroid`. Metres on the WGS 84 ellipsoid.
    Spheroid,
    /// `ST_Azimuth`. The geodesic bearing from one point to another, in radians.
    Azimuth,
}

impl BinaryMeasure {
    /// The PostGIS function name.
    pub open spec fn name_text(self) -> Seq<char> {
        match self {
            BinaryMeasure::Distance => "ST_Distance"@,
            BinaryMeasure::MaxDistance => "ST_MaxDistance"@,
            BinaryMeasure::Hausdorff => "ST_HausdorffDistance"@,
            BinaryMeasure::Frechet => "ST_FrechetDistance"@,
            BinaryMeasure::Sphere => "ST_DistanceSphere"@,
            BinaryMeasure::Spheroid => "ST_DistanceSpheroid"@,
            BinaryMeasure::Azimuth => "ST_Azimuth"@,
        }
    }

    /// The lowercase SQL name.
    pub open spec fn sql_text(self) -> Seq<char> {
        match self {
            BinaryMeasure::Distance => "st_distance"@,
            BinaryMeasure::MaxDistance => "st_maxdistance"@,
            BinaryMeasure::Hausdorff => "st_hausdorffdistance"@,
            BinaryMeasure::Frechet => "st_frechetdistance"@,
            BinaryMeasure::Sphere => "st_distancesphere"@,
            BinaryMeasure::Spheroid => "st_distancespheroid"@,
            BinaryMeasure::Azimuth => "st_azimuth"@,
        }
    }

    /// The PostGIS function name.
    pub fn function_name(self) -> (r: &'static str)
        ensures
            r@ == self.name_text(),
    {
        match self {
            BinaryMeasure::Distance => "ST_Distance",
            BinaryMeasure::MaxDistance => "ST_MaxDistance",
            BinaryMeasure::Hausdorff => "ST_HausdorffDistance",
            BinaryMeasure::Frechet => "ST_FrechetDistance",
            BinaryMeasure::Sphere => "ST_DistanceSphere",
            BinaryMeasure::Spheroid => "ST_DistanceSpheroid",
            BinaryMeasure::Azimuth => "ST_Azimuth",
        }
    }

    /// The lowercase SQL name.
    pub fn sql_name(self) -> (r: &'static str)
        ensures
            r@ == self.sql_text(),
    {
        match self {
            BinaryMeasure::Distance => "st_distance",
            BinaryMeasure::MaxDistance => "st_maxdistance",
            BinaryMeasure::Hausdorff => "st_hausdorffdistance",
            BinaryMeasure::Frechet => "st_frechetdistance",
            BinaryMeasure::Sphere => "st_distancesphere",
            BinaryMeasure::Spheroid => "st_distancespheroid",
            BinaryMeasure::Azimuth => "st_azimuth",
        }
    }

    /// Every binary measure, for registration.
    pub fn all() -> (r: [BinaryMeasure; 7])
        ensures
            r@ == seq![
                BinaryMeasure::Distance,
                BinaryMeasure::MaxDistance,
                BinaryMeasure::Hausdorff,
                BinaryMeasure::Frechet,
                BinaryMeasure::Sphere,
                BinaryMeasure::Spheroid,
                BinaryMeasure::Azimuth,
            ],
    {
        let r = [
            BinaryMeasure::Distance,
            BinaryMeasure::MaxDistance,
            BinaryMeasure::Hausdorff,
            BinaryMeasure::Frechet,
            BinaryMeasure::Sphere,
            BinaryMeasure::Spheroid,
            BinaryMeasure::Azimuth,
        ];
        assert(r@ =~= seq![
            BinaryMeasure::Distance,
            BinaryMeasure::MaxDistance,
            BinaryMeasure::Hausdorff,
            BinaryMeasure::Frechet,
            BinaryMeasure::Sphere,
            BinaryMeasure::Spheroid,
            BinaryMeasure::Azimuth,
        ]);
        r
    }

    /// True when the measure is defined for the two geometries.
    ///
    /// A Frechet distance needs two line strings. The spherical measures are defined between
    /// points: every other type gives NULL, not a wrong number. Two identical points have no
    /// direction.
    pub open spec fn is_defined(self, left: GeometryView, right: GeometryView) -> bool {
        match self {
            BinaryMeasure::Distance | BinaryMeasure::MaxDistance | BinaryMeasure::Hausdorff => true,
            BinaryMeasure::Frechet => left is LineString && right is LineString,
            BinaryMeasure::Sphere | BinaryMeasure::Spheroid => left is Point && right is Point,
            BinaryMeasure::Azimuth => left is Point && right is Point && !left->Point_0.is_same(
                right->Point_0,
            ),
        }
    }

    /// True when `out` is what the measure gives for two geometries.
    ///
    /// The largest distance is found here, over the positions. Every other number comes from the
    /// closure, which is asked only where the measure is defined.
    pub open spec fn is_evaluated<D, F>(
        self,
        number: D,
        far: F,
        left: GeometryView,
        right: GeometryView,
        out: Option<u64>,
    ) -> bool where
        D: Fn(BinaryMeasure, &Geometry, &Geometry) -> u64,
        F: Fn(Coord, Coord) -> u64,
     {
        if !self.is_defined(left, right) {
            out is None
        } else if self == BinaryMeasure::MaxDistance {
            out is Some && is_max_distance(far, left, right, out->0)
        } else {
            out is Some && is_number(number, self, left, right, out->0)
        }
    }

    /// Compute this measurement for one pair.
    ///
    /// Returns `None` where PostGIS returns NULL.
    pub fn evaluate<D, F>(self, left: &Geometry, right: &Geometry, number: &D, far: &F) -> (r:
        Option<u64>) where
        D: Fn(BinaryMeasure, &Geometry, &Geometry) -> u64,
        F: Fn(Coord, Coord) -> u64,

        requires
            forall|m: BinaryMeasure, a: &Geometry, b: &Geometry| #[trigger]
                number.requires((m, a, b)),
            forall|a: Coord, b: Coord| #[trigger] far.requires((a, b)),
        ensures
            self.is_evaluated(*number, *far, left@, right@, r),
    {
        match self {
            BinaryMeasure::MaxDistance => {
                return Some(max_distance(left, right, far));
            },
            BinaryMeasure::Distance | BinaryMeasure::Hausdorff => {},
            BinaryMeasure::Frechet => match (left, right) {
                (Geometry::LineString(_), Geometry::LineString(_)) => {},
                _ => {
                    return None;
                },
            },
            BinaryMeasure::Sphere | BinaryMeasure::Spheroid => match (left, right) {
                (Geometry::Point(_), Geometry::Point(_)) => {},
                _ => {
                    return None;
                },
            },
            BinaryMeasure::Azimuth => match (left, right) {
                (Geometry::Point(a), Geometry::Point(b)) => {
                    if a.same(b) {
                        return None;
                    }
                },
                _ => {
                    return None;
                },
            },
        }
        let value: u64 = number(self, left, right);
        proof {
            assert(self.is_defined(left@, right@));
            assert(number.ensures((self, left, right), value));
            assert(is_number(*number, self, left@, right@, value));
        }
        Some(value)
    }
}

/// True when the closure gave `out` for the two geometries.
pub open spec fn is_number<D: Fn(BinaryMeasure, &Geometry, &Geometry) -> u64>(
    number: D,
    measure: BinaryMeasure,
    left: GeometryView,
    right: GeometryView,
    out: u64,
) -> bool {
    exists|a: Geometry, b: Geometry|
        {
            &&& #[trigger] a@ == left
            &&& #[trigger] b@ == right
            &&& number.ensures((measure, &a, &b), out)
        }
}

/// The highest of a list of numbers, zero at least.
pub open spec fn peak(values: Seq<u64>) -> u64
    decreases values.len(),
{
    if values.len() == 0 {
        number::ZERO
    } else {
        let before = peak(values.drop_last());
        if number::is_lt(before, values.last()) {
            values.last()
        } else {
            before
        }
    }
}

/// True when `values` are the distances of every position of `left` to every one of `right`.
pub open spec fn are_distances<F: Fn(Coord, Coord) -> u64>(
    far: F,
    left: Seq<Coord>,
    right: Seq<Coord>,
    values: Seq<u64>,
) -> bool {
    &&& values.len() == left.len() * right.len()
    &&& forall|i: int, j: int|
        0 <= i < left.len() && 0 <= j < right.len() ==> far.ensures(
            (left[i], right[j]),
            #[trigger] values[i * right.len() + j],
        )
}

/// True when `out` is the largest distance between the positions of two geometries.
///
/// A geometry without positions has no distance: the result is a NaN.
pub open spec fn is_max_distance<F: Fn(Coord, Coord) -> u64>(
    far: F,
    left: GeometryView,
    right: GeometryView,
    out: u64,
) -> bool {
    let a = coords_of(left);
    let b = coords_of(right);
    if a.len() == 0 || b.len() == 0 {
        out == number::NAN
    } else {
        exists|values: Seq<u64>| #[trigger] are_distances(far, a, b, values) && out == peak(values)
    }
}

/// The largest distance between any point of one geometry and any point of the other.
///
/// A pair of vertices always holds the maximum. The distance function is convex, and a convex
/// function over a polytope has its maximum at a vertex. So a walk over the vertex pairs is exact.
pub fn max_distance<F: Fn(Coord, Coord) -> u64>(left: &Geometry, right: &Geometry, far: &F) -> (r:
    u64)
    requires
        forall|a: Coord, b: Coord| #[trigger] far.requires((a, b)),
    ensures
        is_max_distance(*far, left@, right@, r),
{
    let a = left.coords();
    let b = right.coords();
    if a.len() == 0 || b.len() == 0 {
        return number::NAN;
    }
    let ghost n = b@.len() as int;
    let ghost mut values: Seq<u64> = Seq::empty();
    let mut best: u64 = number::ZERO;
    let mut i: usize = 0;
    while i < a.len()
        invariant
            i <= a@.len(),
            n == b@.len(),
            n > 0,
            forall|a: Coord, b: Coord| #[trigger] far.requires((a, b)),
            best == peak(values),
            are_distances(*far, a@.take(i as int), b@, values),
        decreases a@.len() - i,
    {
        let ghost before = values;
        let mut j: usize = 0;
        while j < b.len()
            invariant
                i < a@.len(),
                j <= b@.len(),
                n == b@.len(),
                n > 0,
                forall|a: Coord, b: Coord| #[trigger] far.requires((a, b)),
                best == peak(values),
                before.len() == i * n,
                values.len() == i * n + j,
                forall|k: int| 0 <= k < before.len() ==> #[trigger] values[k] == before[k],
                forall|k: int|
                    0 <= k < j ==> far.ensures(
                        (a@[i as int], b@[k]),
                        #[trigger] values[i * n + k],
                    ),
            decreases b@.len() - j,
        {
            let distance: u64 = far(a[i], b[j]);
            proof {
                let more = values.push(distance);
                assert(more.drop_last() =~= values);
                assert forall|k: int| 0 <= k < j + 1 implies far.ensures(
                    (a@[i as int], b@[k]),
                    #[trigger] more[i * n + k],
                ) by {
                    if k < j {
                        assert(more[i * n + k] == values[i * n + k]);
                    }
                }
                values = more;
            }
            if number::lt(best, distance) {
                best = distance;
            }
            j = j + 1;
        }
        proof {
            let front = a@.take(i as int);
            let all = a@.take(i + 1);
            assert(values.len() == (i + 1) * n) by (nonlinear_arith)
                requires
                    values.len() == i * n + n,
            ;
            assert forall|p: int, q: int|
                0 <= p < all.len() && 0 <= q < b@.len() implies far.ensures(
                (all[p], b@[q]),
                #[trigger] values[p * b@.len() + q],
            ) by {
                if p < i {
                    assert(far.ensures((front[p], b@[q]), before[p * b@.len() + q]));
                    assert(p * n + q < i * n) by (nonlinear_arith)
                        requires
                            0 <= p < i,
                            0 <= q < n,
                    ;
                    assert(p * n + q >= 0) by (nonlinear_arith)
                        requires
                            0 <= p,
                            0 <= q,
                            n > 0,
                    ;
                    assert(values[p * n + q] == before[p * n + q]);
                } else {
                    assert(values[i * n + q] == values[p * b@.len() + q]);
                }
            }
        }
        i = i + 1;
    }
    proof {
        assert(a@.take(i as int) =~= a@);
        assert(are_distances(*far, coords_of(left@), coords_of(right@), values));
    }
    best
}

/// Any measurement between two columns of the same length. One of them may hold a single row.
pub fn binary_measure<D, F>(
    left: &Column,
    right: &Column,
    measure: BinaryMeasure,
    number: &D,
    far: &F,
) -> (r: Result<Vec<Option<u64>>, Error>) where
    D: Fn(BinaryMeasure, &Geometry, &Geometry) -> u64,
    F: Fn(Coord, Coord) -> u64,

    requires
        left.wf(),
        right.wf(),
        forall|m: BinaryMeasure, a: &Geometry, b: &Geometry| #[trigger] number.requires((m, a, b)),
        forall|a: Coord, b: Coord| #[trigger] far.requires((a, b)),
    ensures
        is_pair_read(left@, right@, measure.name_text(), r),
        r matches Ok(out) ==> forall|i: int|
            0 <= i < out@.len() ==> match (
                left@.geometry(slot(left.rows(), out@.len() as int, i)),
                right@.geometry(slot(right.rows(), out@.len() as int, i)),
            ) {
                (Some(a), Some(b)) => measure.is_evaluated(*number, *far, a, b, #[trigger] out@[i]),
                _ => out@[i] is None,
            },
{
    let len: usize = match broadcast_len(measure.function_name(), left, right) {
        Ok(len) => len,
        Err(error) => {
            return Err(error);
        },
    };
    let mut left_geom = match Operand::new(left, len) {
        Ok(operand) => operand,
        Err(error) => {
            return Err(error);
        },
    };
    let mut right_geom = match Operand::new(right, len) {
        Ok(operand) => operand,
        Err(error) => {
            return Err(error);
        },
    };
    let mut out: Vec<Option<u64>> = Vec::new();
    let mut i: usize = 0;
    while i < len
        invariant
            i <= len,
            left_geom.is_over(*left, len as int),
            right_geom.is_over(*right, len as int),
            forall|m: BinaryMeasure, a: &Geometry, b: &Geometry| #[trigger]
                number.requires((m, a, b)),
            forall|a: Coord, b: Coord| #[trigger] far.requires((a, b)),
            no_pair_broken(left@, right@, len as int, i as int),
            lengths_fit(left.rows(), right.rows(), len as int),
            out@.len() == i,
            forall|j: int|
                0 <= j < i ==> match (
                    left@.geometry(slot(left.rows(), len as int, j)),
                    right@.geometry(slot(right.rows(), len as int, j)),
                ) {
                    (Some(a), Some(b)) => measure.is_evaluated(
                        *number,
                        *far,
                        a,
                        b,
                        #[trigger] out@[j],
                    ),
                    _ => out@[j] is None,
                },
        decreases len - i,
    {
        let lhs = match left_geom.get(i, Ghost(*left), Ghost(len as int)) {
            Ok(value) => value,
            Err(error) => {
                assert(is_pair_broken(left@, right@, len as int, i as int));
                return Err(error);
            },
        };
        let rhs = match right_geom.get(i, Ghost(*right), Ghost(len as int)) {
            Ok(value) => value,
            Err(error) => {
                assert(is_pair_broken(left@, right@, len as int, i as int));
                return Err(error);
            },
        };
        let value: Option<u64> = match (lhs, rhs) {
            (Some(a), Some(b)) => measure.evaluate(a, b, number, far),
            _ => None,
        };
        out.push(value);
        i = i + 1;
    }
    Ok(out)
}

} // verus!
