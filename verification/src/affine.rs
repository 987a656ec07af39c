//! Affine transforms.
//!
//! `ST_Translate`, `ST_Scale`, `ST_Rotate` and `ST_Affine` all reduce to one matrix multiply per
//! coordinate. That is why they share a single kernel. The caller supplies the multiply.
//!
//! # The structure survives, so the offsets do
//!
//! An affine transform moves coordinates. It never changes the ring structure. [`crate::transform`]
//! relies on the same rule. So these functions keep the input geometry type and take over its
//! offset buffers. Only the coordinate buffer is rebuilt.

use vstd::prelude::*;
use crate::accessor::{is_untyped, untyped_kind};
use crate::column::{
    copy_words, is_untyped_kind, lemma_len_nonnegative, lemma_slots, rect_over, Column, ColumnView,
    CoordBuffer, CoordBufferView, DataType, DataTypeView, InterleavedCoordBuffer,
    SeparatedCoordBuffer,
};
use crate::error::Error;
use crate::geometry::{
    geometries_view, lemma_collection_view, lines_view, polygon_over, polygons_view, Coord,
    Geometry, GeometryView, Polygon, PolygonView,
};
use crate::materialize::settle;
use crate::rows::map_geometries;
use crate::transform::{grid, lemma_grid_at, lemma_grid_len, lemma_grid_row, map_coords};

verus! {

/// Which affine transform to apply.
#[derive(Debug, Clone, Copy, PartialEq, Eq, Structural, Hash)]
pub enum Affine {
    /// `ST_Translate(geom, dx, dy)`.
    Translate,
    /// `ST_Scale(geom, xfact, yfact)`, about the origin.
    Scale,
    /// `ST_Rotate(geom, radians)`, about the origin.
    Rotate,
    /// `ST_Affine(geom, a, b, d, e, xoff, yoff)`, the raw matrix.
    Matrix,
}

/// What an affine transform does to a position. The caller multiplies.
#[derive(Debug, Clone, Copy, PartialEq, Eq, Structural)]
pub enum Motion {
    /// Move by an offset.
    Shift { dx: u64, dy: u64 },
    /// Stretch about the origin.
    Stretch { x: u64, y: u64 },
    /// Turn about the origin.
    Turn { radians: u64 },
    /// The two rows of a matrix.
    Rows { a: u64, b: u64, xoff: u64, d: u64, e: u64, yoff: u64 },
}

impl Affine {
    /// The PostGIS function name.
    pub open spec fn name_text(self) -> Seq<char> {
        match self {
            Affine::Translate => "ST_Translate"@,
            Affine::Scale => "ST_Scale"@,
            Affine::Rotate => "ST_Rotate"@,
            Affine::Matrix => "ST_Affine"@,
        }
    }

    /// The lowercase SQL name.
    pub open spec fn sql_text(self) -> Seq<char> {
        match self {
            Affine::Translate => "st_translate"@,
            Affine::Scale => "st_scale"@,
            Affine::Rotate => "st_rotate"@,
            Affine::Matrix => "st_affine"@,
        }
    }

    /// How many numbers follow the geometry argument.
    pub open spec fn parameters(self) -> int {
        match self {
            Affine::Translate | Affine::Scale => 2,
            Affine::Rotate => 1,
            Affine::Matrix => 6,
        }
    }

    /// The PostGIS function name.
    pub fn function_name(self) -> (r: &'static str)
        ensures
            r@ == self.name_text(),
    {
        match self {
            Affine::Translate => "ST_Translate",
            Affine::Scale => "ST_Scale",
            Affine::Rotate => "ST_Rotate",
            Affine::Matrix => "ST_Affine",
        }
    }

    /// The lowercase SQL name.
    pub fn sql_name(self) -> (r: &'static str)
        ensures
            r@ == self.sql_text(),
    {
        match self {
            Affine::Translate => "st_translate",
            Affine::Scale => "st_scale",
            Affine::Rotate => "st_rotate",
            Affine::Matrix => "st_affine",
        }
    }

    /// How many numbers follow the geometry argument.
    pub fn parameter_count(self) -> (r: usize)
        ensures
            r == self.parameters(),
    {
        match self {
            Affine::Translate | Affine::Scale => 2,
            Affine::Rotate => 1,
            Affine::Matrix => 6,
        }
    }

    /// Every affine function, for registration.
    pub fn all() -> (r: [Affine; 4])
        ensures
            r@ == seq![Affine::Translate, Affine::Scale, Affine::Rotate, Affine::Matrix],
    {
        let r = [Affine::Translate, Affine::Scale, Affine::Rotate, Affine::Matrix];
        assert(r@ =~= seq![Affine::Translate, Affine::Scale, Affine::Rotate, Affine::Matrix]);
        r
    }

    /// What the transform does, with each parameter in its place. The raw matrix takes the two
    /// offsets last, and holds them at the end of each row.
    pub open spec fn motion(self, parameters: Seq<u64>) -> Motion {
        match self {
            Affine::Translate => Motion::Shift { dx: parameters[0], dy: parameters[1] },
            Affine::Scale => Motion::Stretch { x: parameters[0], y: parameters[1] },
            Affine::Rotate => Motion::Turn { radians: parameters[0] },
            Affine::Matrix => Motion::Rows {
                a: parameters[0],
                b: parameters[1],
                xoff: parameters[4],
                d: parameters[2],
                e: parameters[3],
                yoff: parameters[5],
            },
        }
    }

    /// Put the parameters of this transform in place.
    ///
    /// The caller has already checked the parameter count.
    pub fn matrix(self, parameters: &Vec<u64>) -> (r: Motion)
        requires
            parameters@.len() >= self.parameters(),
        ensures
            r == self.motion(parameters@),
    {
        match self {
            Affine::Translate => Motion::Shift { dx: parameters[0], dy: parameters[1] },
            Affine::Scale => Motion::Stretch { x: parameters[0], y: parameters[1] },
            Affine::Rotate => Motion::Turn { radians: parameters[0] },
            Affine::Matrix => Motion::Rows {
                a: parameters[0],
                b: parameters[1],
                xoff: parameters[4],
                d: parameters[2],
                e: parameters[3],
                yoff: parameters[5],
            },
        }
    }
}

/// The output type of an affine transform.
///
/// A native column keeps its type exactly, because only the coordinates move. A mixed or
/// serialized column has no single type to keep, so it becomes a mixed geometry column.
pub fn output_type(input: &DataType) -> (r: DataType)
    ensures
        r@ == if is_untyped_kind(input.kind) {
            DataTypeView::mixed(input.metadata@)
        } else {
            input@
        },
{
    if is_untyped(input) {
        DataType::mixed(input.metadata.copy())
    } else {
        input.copy()
    }
}

/// What a kernel produces that keeps the type of a native column.
#[derive(Debug)]
pub enum Output {
    /// A native column, its structure kept.
    Native(Column),
    /// One geometry per row.
    Mixed(Vec<Option<Geometry>>),
}

// --------------------------------------------------------------- coordinate buffers
/// The buffer with other positions. Higher ordinates are carried through unchanged.
pub open spec fn repositioned(coords: CoordBufferView, moved: Seq<Coord>) -> CoordBufferView {
    match coords {
        CoordBufferView::Separated(b, dim) => CoordBufferView::Separated(
            seq![
                Seq::new(moved.len(), |i: int| moved[i].x),
                Seq::new(moved.len(), |i: int| moved[i].y),
                b[2],
                b[3],
            ],
            dim,
        ),
        CoordBufferView::Interleaved(values, dim) => CoordBufferView::Interleaved(
            grid(
                coords.len(),
                dim.count(),
                |i: int, k: int|
                    if k == 0 {
                        moved[i].x
                    } else if k == 1 {
                        moved[i].y
                    } else {
                        values[i * dim.count() + k]
                    },
            ),
            dim,
        ),
    }
}

/// Put other positions into a coordinate buffer. Higher ordinates are carried through unchanged.
pub fn reposition(coords: &CoordBuffer, moved: &Vec<Coord>) -> (r: CoordBuffer)
    requires
        coords@.wf(),
        moved@.len() == coords@.len(),
    ensures
        r@ == repositioned(coords@, moved@),
{
    match coords {
        CoordBuffer::Separated(separated) => {
            let mut xs: Vec<u64> = Vec::new();
            let mut ys: Vec<u64> = Vec::new();
            let mut i: usize = 0;
            while i < moved.len()
                invariant
                    i <= moved@.len(),
                    xs@ == Seq::new(i as nat, |i: int| moved@[i].x),
                    ys@ == Seq::new(i as nat, |i: int| moved@[i].y),
                decreases moved@.len() - i,
            {
                xs.push(moved[i].x);
                ys.push(moved[i].y);
                assert(xs@ =~= Seq::new((i + 1) as nat, |i: int| moved@[i].x));
                assert(ys@ =~= Seq::new((i + 1) as nat, |i: int| moved@[i].y));
                i = i + 1;
            }
            let buffers = [
                xs,
                ys,
                copy_words(&separated.buffers[2]),
                copy_words(&separated.buffers[3]),
            ];
            let r = CoordBuffer::Separated(SeparatedCoordBuffer { buffers, dim: separated.dim });
            assert(r@->Separated_0 =~= repositioned(coords@, moved@)->Separated_0);
            r
        },
        CoordBuffer::Interleaved(interleaved) => {
            let dim = interleaved.dim;
            let stride: usize = dim.size();
            let source = &interleaved.coords;
            let n: usize = coords.len();
            let ghost f = |i: int, k: int|
                if k == 0 {
                    moved@[i].x
                } else if k == 1 {
                    moved@[i].y
                } else {
                    source@[i * dim.count() + k]
                };
            let mut values: Vec<u64> = Vec::new();
            let mut i: usize = 0;
            assert(values@ =~= grid(0, dim.count(), f));
            while i < n
                invariant
                    i <= n,
                    n == source@.len() as int / dim.count(),
                    n == moved@.len(),
                    stride == dim.count(),
                    source@.len() as int % dim.count() == 0,
                    f == (|i: int, k: int|
                        if k == 0 {
                            moved@[i].x
                        } else if k == 1 {
                            moved@[i].y
                        } else {
                            source@[i * dim.count() + k]
                        }),
                    values@ == grid(i as int, dim.count(), f),
                decreases n - i,
            {
                proof {
                    lemma_slots(source@, dim, i as int, 1);
                }
                let total: usize = source.len();
                let base: usize = i * stride;
                let ghost before = values@;
                values.push(moved[i].x);
                values.push(moved[i].y);
                let mut k: usize = 2;
                assert(values@ =~= before + Seq::new(2, |k: int| f(i as int, k)));
                while k < stride
                    invariant
                        2 <= k <= stride,
                        stride == dim.count(),
                        base == i * stride,
                        base + stride <= total,
                        total == source@.len(),
                        f == (|i: int, k: int|
                            if k == 0 {
                                moved@[i].x
                            } else if k == 1 {
                                moved@[i].y
                            } else {
                                source@[i * dim.count() + k]
                            }),
                        values@ == before + Seq::new(k as nat, |k: int| f(i as int, k)),
                    decreases stride - k,
                {
                    values.push(source[base + k]);
                    assert(values@ =~= before + Seq::new(
                        (k + 1) as nat,
                        |k: int| f(i as int, k),
                    ));
                    k = k + 1;
                }
                proof {
                    lemma_grid_row(i as int, dim.count(), f);
                }
                i = i + 1;
            }
            CoordBuffer::Interleaved(InterleavedCoordBuffer { coords: values, dim })
        },
    }
}

/// The positions of a coordinate buffer.
pub fn positions(coords: &CoordBuffer) -> (r: Vec<Coord>)
    requires
        coords@.wf(),
    ensures
        r@ == coords@.run(0, coords@.len()),
{
    let mut out: Vec<Coord> = Vec::new();
    coords.fill(&mut out, 0, coords.len());
    out
}

/// True when each position of `after` is what the closure gave for the one of `before`.
pub open spec fn are_moved<F: Fn(Coord) -> Coord>(
    step: F,
    before: Seq<Coord>,
    after: Seq<Coord>,
) -> bool {
    &&& after.len() == before.len()
    &&& forall|i: int|
        0 <= i < after.len() ==> step.ensures((before[i],), #[trigger] after[i])
}

/// Move every position of a list.
pub fn move_line<F: Fn(Coord) -> Coord>(line: &Vec<Coord>, step: &F) -> (r: Vec<Coord>)
    requires
        forall|c: Coord| #[trigger] step.requires((c,)),
    ensures
        are_moved(*step, line@, r@),
{
    let mut out: Vec<Coord> = Vec::new();
    let mut i: usize = 0;
    while i < line.len()
        invariant
            i <= line@.len(),
            forall|c: Coord| #[trigger] step.requires((c,)),
            out@.len() == i,
            forall|j: int| 0 <= j < i ==> step.ensures((line@[j],), #[trigger] out@[j]),
        decreases line@.len() - i,
    {
        let c = step(line[i]);
        out.push(c);
        i = i + 1;
    }
    out
}

/// Rebuild a coordinate buffer with every position moved.
pub fn apply_matrix<F: Fn(Coord) -> Coord>(coords: &CoordBuffer, step: &F) -> (r: CoordBuffer)
    requires
        coords@.wf(),
        forall|c: Coord| #[trigger] step.requires((c,)),
    ensures
        exists|moved: Seq<Coord>| #[trigger]
            are_moved(*step, coords@.run(0, coords@.len()), moved) && r@ == repositioned(
                coords@,
                moved,
            ),
{
    let before = positions(coords);
    let moved = move_line(&before, step);
    assert(are_moved(*step, coords@.run(0, coords@.len()), moved@));
    proof {
        lemma_len_nonnegative(coords@);
    }
    reposition(coords, &moved)
}

// ------------------------------------------------------------------- geometries
/// True when each path of `after` is the moved path of `before`.
pub open spec fn are_moved_lines<F: Fn(Coord) -> Coord>(
    step: F,
    before: Seq<Seq<Coord>>,
    after: Seq<Seq<Coord>>,
) -> bool {
    &&& after.len() == before.len()
    &&& forall|i: int| 0 <= i < after.len() ==> are_moved(step, before[i], #[trigger] after[i])
}

/// True when `after` is the polygon over the moved rings of `before`.
pub open spec fn is_moved_polygon<F: Fn(Coord) -> Coord>(
    step: F,
    before: PolygonView,
    after: PolygonView,
) -> bool {
    exists|exterior: Seq<Coord>, interiors: Seq<Seq<Coord>>|
        {
            &&& #[trigger] are_moved(step, before.exterior, exterior)
            &&& #[trigger] are_moved_lines(step, before.interiors, interiors)
            &&& after == polygon_over(exterior, interiors)
        }
}

/// True when `after` is the geometry `before` with every position moved, its structure kept.
pub open spec fn is_moved<F: Fn(Coord) -> Coord>(
    step: F,
    before: GeometryView,
    after: GeometryView,
) -> bool
    decreases before,
{
    match (before, after) {
        (GeometryView::Point(a), GeometryView::Point(b)) => step.ensures((a,), b),
        (GeometryView::Line(a, b), GeometryView::Line(c, d)) => step.ensures((a,), c)
            && step.ensures((b,), d),
        (GeometryView::LineString(a), GeometryView::LineString(b)) => are_moved(step, a, b),
        (GeometryView::Polygon(a), GeometryView::Polygon(b)) => is_moved_polygon(step, a, b),
        (GeometryView::MultiPoint(a), GeometryView::MultiPoint(b)) => are_moved(step, a, b),
        (GeometryView::MultiLineString(a), GeometryView::MultiLineString(b)) => are_moved_lines(
            step,
            a,
            b,
        ),
        (GeometryView::MultiPolygon(a), GeometryView::MultiPolygon(b)) => {
            &&& b.len() == a.len()
            &&& forall|i: int| 0 <= i < b.len() ==> is_moved_polygon(step, a[i], #[trigger] b[i])
        },
        (
            GeometryView::GeometryCollection(a),
            GeometryView::GeometryCollection(b),
        ) => are_moved_parts(step, a, b),
        (GeometryView::Rect(a, b), GeometryView::Rect(_, _)) => exists|c: Coord, d: Coord|
            {
                &&& step.ensures((a,), c)
                &&& step.ensures((b,), d)
                &&& after == #[trigger] rect_over(c, d)
            },
        (GeometryView::Triangle(a, b, c), GeometryView::Triangle(d, e, f)) => step.ensures((a,), d)
            && step.ensures((b,), e) && step.ensures((c,), f),
        _ => false,
    }
}

/// True when each part of `after` is the moved part of `before`.
pub open spec fn are_moved_parts<F: Fn(Coord) -> Coord>(
    step: F,
    before: Seq<GeometryView>,
    after: Seq<GeometryView>,
) -> bool
    decreases before,
{
    &&& after.len() == before.len()
    &&& forall|i: int|
        0 <= i < before.len() ==> is_moved(step, before[i], #[trigger] after[i])
}

fn move_lines<F: Fn(Coord) -> Coord>(lines: &Vec<Vec<Coord>>, step: &F) -> (r: Vec<Vec<Coord>>)
    requires
        forall|c: Coord| #[trigger] step.requires((c,)),
    ensures
        are_moved_lines(*step, lines_view(lines@), lines_view(r@)),
{
    let mut out: Vec<Vec<Coord>> = Vec::new();
    let mut i: usize = 0;
    while i < lines.len()
        invariant
            i <= lines@.len(),
            forall|c: Coord| #[trigger] step.requires((c,)),
            out@.len() == i,
            forall|j: int| 0 <= j < i ==> are_moved(*step, lines@[j]@, (#[trigger] out@[j])@),
        decreases lines@.len() - i,
    {
        let line = move_line(&lines[i], step);
        out.push(line);
        i = i + 1;
    }
    proof {
        let a = lines_view(lines@);
        let b = lines_view(out@);
        assert forall|j: int| 0 <= j < b.len() implies are_moved(*step, a[j], #[trigger] b[j]) by {
            assert(are_moved(*step, lines@[j]@, out@[j]@));
        }
    }
    out
}

fn move_polygon<F: Fn(Coord) -> Coord>(polygon: &Polygon, step: &F) -> (r: Polygon)
    requires
        forall|c: Coord| #[trigger] step.requires((c,)),
    ensures
        is_moved_polygon(*step, polygon@, r@),
{
    let exterior = move_line(&polygon.exterior, step);
    let interiors = move_lines(&polygon.interiors, step);
    proof {
        assert(are_moved(*step, polygon@.exterior, exterior@));
        assert(are_moved_lines(*step, polygon@.interiors, lines_view(interiors@)));
    }
    Polygon::new(exterior, interiors)
}

/// Move every position of a geometry. The rings of a polygon are closed again.
pub fn move_geometry<F: Fn(Coord) -> Coord>(geom: &Geometry, step: &F) -> (r: Geometry)
    requires
        forall|c: Coord| #[trigger] step.requires((c,)),
    ensures
        is_moved(*step, geom@, r@),
    decreases geom,
{
    match geom {
        Geometry::Point(a) => Geometry::Point(step(*a)),
        Geometry::Line(a, b) => Geometry::Line(step(*a), step(*b)),
        Geometry::LineString(line) => Geometry::LineString(move_line(line, step)),
        Geometry::Polygon(polygon) => Geometry::Polygon(move_polygon(polygon, step)),
        Geometry::MultiPoint(points) => Geometry::MultiPoint(move_line(points, step)),
        Geometry::MultiLineString(lines) => Geometry::MultiLineString(move_lines(lines, step)),
        Geometry::MultiPolygon(polygons) => {
            let ghost views = polygons_view(polygons@);
            let mut out: Vec<Polygon> = Vec::new();
            let mut i: usize = 0;
            while i < polygons.len()
                invariant
                    i <= polygons@.len(),
                    views == polygons_view(polygons@),
                    forall|c: Coord| #[trigger] step.requires((c,)),
                    out@.len() == i,
                    forall|j: int|
                        0 <= j < i ==> is_moved_polygon(*step, views[j], (#[trigger] out@[j])@),
                decreases polygons@.len() - i,
            {
                let polygon = move_polygon(&polygons[i], step);
                out.push(polygon);
                i = i + 1;
            }
            proof {
                let b = polygons_view(out@);
                assert forall|j: int| 0 <= j < b.len() implies is_moved_polygon(
                    *step,
                    views[j],
                    #[trigger] b[j],
                ) by {
                    assert(is_moved_polygon(*step, views[j], out@[j]@));
                }
            }
            Geometry::MultiPolygon(out)
        },
        Geometry::GeometryCollection(parts) => {
            let ghost views = geometries_view(parts@);
            let mut out: Vec<Geometry> = Vec::new();
            let mut i: usize = 0;
            while i < parts.len()
                invariant
                    i <= parts@.len(),
                    *geom == Geometry::GeometryCollection(*parts),
                    views == geometries_view(parts@),
                    forall|c: Coord| #[trigger] step.requires((c,)),
                    out@.len() == i,
                    forall|j: int|
                        0 <= j < i ==> is_moved(*step, views[j], (#[trigger] out@[j])@),
                decreases parts@.len() - i,
            {
                proof {
                    assert(decreases_to!(*parts => parts[i as int]));
                    assert(decreases_to!(*geom => geom->GeometryCollection_0));
                }
                let part = move_geometry(&parts[i], step);
                out.push(part);
                i = i + 1;
            }
            proof {
                let b = geometries_view(out@);
                lemma_collection_view(*parts);
                lemma_collection_view(out);
                reveal_with_fuel(are_moved_parts, 2);
                assert forall|j: int| 0 <= j < views.len() implies #[trigger] is_moved(
                    *step,
                    views[j],
                    b[j],
                ) by {
                    assert(is_moved(*step, views[j], out@[j]@));
                }
                assert(are_moved_parts(*step, views, b));
                assert(is_moved(*step, geom@, Geometry::GeometryCollection(out)@));
            }
            Geometry::GeometryCollection(out)
        },
        Geometry::Rect(a, b) => {
            let c = step(*a);
            let d = step(*b);
            let r = settle(&Geometry::Rect(c, d));
            proof {
                assert(step.ensures((*a,), c) && step.ensures((*b,), d));
                assert(r@ == rect_over(c, d));
                assert(is_moved(*step, geom@, r@));
            }
            r
        },
        Geometry::Triangle(a, b, c) => Geometry::Triangle(step(*a), step(*b), step(*c)),
    }
}

/// True when `out` is the moved geometry of each row, nothing for a null.
pub open spec fn are_moved_rows<F: Fn(Coord) -> Coord>(
    step: F,
    array: ColumnView,
    out: Seq<Option<Geometry>>,
) -> bool {
    &&& out.len() == array.rows()
    &&& forall|i: int|
        0 <= i < out.len() ==> match array.geometry(i) {
            Some(geom) => #[trigger] out[i] is Some && is_moved(step, geom, out[i]->0@),
            None => out[i] is None,
        }
}

/// Move every coordinate of a column.
///
/// # Two paths
///
/// A native column keeps its geometry type and every offset buffer. Only the coordinate buffer is
/// rebuilt, so a polygon column stays a polygon column.
///
/// A mixed or serialized column holds an unknown type per row. Its coordinates do not sit in one
/// buffer. So it takes a per-row path and becomes a mixed geometry column.
pub fn affine<F: Fn(Coord) -> Coord>(array: &Column, step: &F) -> (r: Result<Output, Error>)
    requires
        array.wf(),
        forall|c: Coord| #[trigger] step.requires((c,)),
    ensures
        if is_untyped_kind(array@.body.kind()) {
            match r {
                Ok(Output::Mixed(out)) => !array@.has_broken(array.rows()) && are_moved_rows(
                    *step,
                    array@,
                    out@,
                ),
                Ok(Output::Native(_)) => false,
                Err(error) => array@.has_broken(array.rows()) && error == Error::Undecodable,
            }
        } else {
            match (array@.body.coords(), r) {
                (Some(coords), Ok(Output::Native(column))) => exists|moved: Seq<Coord>| #[trigger]
                    are_moved(*step, coords.run(0, coords.len()), moved) && column@
                        == array@.with_coords(repositioned(coords, moved)),
                (None, Err(error)) => error is NeedsNativeColumn
                    && error->NeedsNativeColumn_function@ == "an affine transform"@,
                _ => false,
            }
        },
{
    if untyped_kind(array.body.kind()) {
        let f = |geom: &Geometry| -> (out: Option<Geometry>)
            ensures
                out is Some && is_moved(*step, geom@, out->0@),
            { Some(move_geometry(geom, step)) };
        return match map_geometries(array, &f) {
            Ok(out) => Ok(Output::Mixed(out)),
            Err(error) => Err(error),
        };
    }
    let f = |coords: &CoordBuffer| -> (out: Result<CoordBuffer, Error>)
        requires
            coords@.wf(),
        ensures
            out is Ok && exists|moved: Seq<Coord>| #[trigger]
                are_moved(*step, coords@.run(0, coords@.len()), moved) && out->Ok_0@
                    == repositioned(coords@, moved),
        { Ok(apply_matrix(coords, step)) };
    match map_coords("an affine transform", array, &f) {
        Ok(column) => Ok(Output::Native(column)),
        Err(error) => Err(error),
    }
}

// ------------------------------------------------------------------------ laws
/// Other positions keep the length, the layout, the dimension and every higher ordinate.
pub proof fn law_higher_ordinates_are_carried_through(
    coords: CoordBufferView,
    moved: Seq<Coord>,
    i: int,
    k: int,
)
    requires
        coords.wf(),
        moved.len() == coords.len(),
        0 <= i < coords.len(),
        2 <= k < coords.dim().count(),
    ensures
        repositioned(coords, moved).ordinate(i, k) == coords.ordinate(i, k),
{
    match coords {
        CoordBufferView::Separated(b, dim) => {},
        CoordBufferView::Interleaved(values, dim) => {
            let f = |i: int, k: int|
                if k == 0 {
                    moved[i].x
                } else if k == 1 {
                    moved[i].y
                } else {
                    values[i * dim.count() + k]
                };
            lemma_grid_at(coords.len(), dim.count(), f, i, k);
        },
    }
}

/// A repositioned buffer is well formed, as long as before, and has the new positions.
pub proof fn law_the_new_positions_are_read_back(coords: CoordBufferView, moved: Seq<Coord>)
    requires
        coords.wf(),
        moved.len() == coords.len(),
    ensures
        repositioned(coords, moved).wf(),
        repositioned(coords, moved).len() == coords.len(),
        repositioned(coords, moved).dim() == coords.dim(),
        repositioned(coords, moved).coord_type() == coords.coord_type(),
        repositioned(coords, moved).run(0, coords.len()) == moved,
{
    let r = repositioned(coords, moved);
    match coords {
        CoordBufferView::Separated(b, dim) => {
            assert forall|k: int| 0 <= k < dim.count() implies (#[trigger] r->Separated_0[k]).len()
                == r->Separated_0[0].len() by {
                assert(b[k].len() == b[0].len());
            }
            assert(r.run(0, coords.len()) =~= moved);
        },
        CoordBufferView::Interleaved(values, dim) => {
            let f = |i: int, k: int|
                if k == 0 {
                    moved[i].x
                } else if k == 1 {
                    moved[i].y
                } else {
                    values[i * dim.count() + k]
                };
            lemma_grid_len(coords.len(), dim.count(), f);
            assert forall|i: int| 0 <= i < coords.len() implies r.coord(i) == #[trigger] moved[i] by {
                lemma_grid_at(coords.len(), dim.count(), f, i, 0);
                lemma_grid_at(coords.len(), dim.count(), f, i, 1);
            }
            assert(r.run(0, coords.len()) =~= moved);
        },
    }
}

/// A transform reads as many numbers as it takes parameters, and none beyond them.
pub proof fn law_no_number_beyond_is_read(transform: Affine, p: Seq<u64>, q: Seq<u64>)
    requires
        p.len() >= transform.parameters(),
        q.len() >= transform.parameters(),
        p.take(transform.parameters()) == q.take(transform.parameters()),
    ensures
        transform.motion(p) == transform.motion(q),
{
    let a = p.take(transform.parameters());
    let b = q.take(transform.parameters());
    assert(a[0] == p[0] && b[0] == q[0]);
    if transform != Affine::Rotate {
        assert(a[1] == p[1] && b[1] == q[1]);
    }
    if transform == Affine::Matrix {
        assert(a[2] == p[2] && b[2] == q[2]);
        assert(a[3] == p[3] && b[3] == q[3]);
        assert(a[4] == p[4] && b[4] == q[4]);
        assert(a[5] == p[5] && b[5] == q[5]);
    }
}

/// Where a motion carries a position, over exact numbers.
///
/// A turn by an angle is not a rational motion and is left out: `turned` stands for it.
pub open spec fn carried(
    motion: Motion,
    value: spec_fn(u64) -> int,
    turned: spec_fn(u64, int, int) -> (int, int),
    x: int,
    y: int,
) -> (int, int) {
    match motion {
        Motion::Shift { dx, dy } => (x + value(dx), y + value(dy)),
        Motion::Stretch { x: by_x, y: by_y } => (value(by_x) * x, value(by_y) * y),
        Motion::Turn { radians } => turned(radians, x, y),
        Motion::Rows { a, b, xoff, d, e, yoff } => (
            value(a) * x + value(b) * y + value(xoff),
            value(d) * x + value(e) * y + value(yoff),
        ),
    }
}

/// A raw matrix `a, b, d, e, xoff, yoff` moves `(x, y)` to `(a x + b y + xoff, d x + e y + yoff)`. A
/// translation adds its two numbers, a scaling multiplies by them, and a rotation turns by its one.
pub proof fn law_each_parameter_has_its_part(
    parameters: Seq<u64>,
    value: spec_fn(u64) -> int,
    turned: spec_fn(u64, int, int) -> (int, int),
    x: int,
    y: int,
)
    requires
        parameters.len() >= 6,
    ensures
        ({
            let a = value(parameters[0]);
            let b = value(parameters[1]);
            let d = value(parameters[2]);
            let e = value(parameters[3]);
            let xoff = value(parameters[4]);
            let yoff = value(parameters[5]);
            carried(Affine::Matrix.motion(parameters), value, turned, x, y) == (
                a * x + b * y + xoff,
                d * x + e * y + yoff,
            )
        }),
        carried(Affine::Translate.motion(parameters), value, turned, x, y) == (
            x + value(parameters[0]),
            y + value(parameters[1]),
        ),
        carried(Affine::Scale.motion(parameters), value, turned, x, y) == (
            value(parameters[0]) * x,
            value(parameters[1]) * y,
        ),
        carried(Affine::Rotate.motion(parameters), value, turned, x, y) == turned(
            parameters[0],
            x,
            y,
        ),
{
}

/// A translation and a scaling are raw matrices: the first with the offsets alone, the second with
/// the diagonal alone.
pub proof fn law_translation_and_scaling_are_matrices(
    value: spec_fn(u64) -> int,
    turned: spec_fn(u64, int, int) -> (int, int),
    zero: u64,
    one: u64,
    p: u64,
    q: u64,
    x: int,
    y: int,
)
    requires
        value(zero) == 0,
        value(one) == 1,
    ensures
        carried(Affine::Translate.motion(seq![p, q]), value, turned, x, y) == carried(
            Affine::Matrix.motion(seq![one, zero, zero, one, p, q]),
            value,
            turned,
            x,
            y,
        ),
        carried(Affine::Scale.motion(seq![p, q]), value, turned, x, y) == carried(
            Affine::Matrix.motion(seq![p, zero, zero, q, zero, zero]),
            value,
            turned,
            x,
            y,
        ),
{
    assert(value(one) * x == x && value(one) * y == y) by (nonlinear_arith)
        requires
            value(one) == 1,
    ;
    assert(value(zero) * x == 0 && value(zero) * y == 0) by (nonlinear_arith)
        requires
            value(zero) == 0,
    ;
}

} // verus!
