//! Structure edits.
//!
//! These change what a geometry *is*, not where it sits. They promote a geometry to a multi
//! type, add or drop a vertex, round coordinates onto a grid, or split a collection into parts.
//!
//! # `ST_Dump` returns a list of WKB, not a set of geometries
//!
//! In PostGIS, `ST_Dump` returns a set. One input row becomes many output rows. A scalar function
//! cannot return a set. So this returns a list. Call `unnest` to expand the list:
//!
//! ```sql
//! SELECT ST_AsText(unnest(ST_Dump(geom))) AS part FROM shapes
//! ```
//!
//! The parts are WKB, so they stay usable without a cast once the list is expanded. The cost is one
//! encode per part.

use vstd::prelude::*;
use crate::affine::{is_moved, move_geometry};
use crate::column::{Column, ColumnView};
use crate::component::{geometry_view, nth_part};
use crate::error::Error;
use crate::geometry::{
    coords_of, copy_line, copy_polygon, geometries_view, lemma_collection_view, lines_view,
    polygons_view, rect_polygon, rect_to_polygon, triangle_polygon, triangle_to_polygon, Coord,
    Geometry, GeometryView, Polygon,
};
use crate::materialize::GeometryReader;
use crate::number;
use crate::operand::{is_constant, slot, Operand};
use crate::rows::map_geometries;

verus! {

/// A one-argument structure edit that takes no extra parameter.
#[derive(Debug, Clone, Copy, PartialEq, Eq, Structural, Hash)]
pub enum Structure {
    /// `ST_Multi`. Promote a single geometry to its multi form.
    Multi,
    /// `ST_Points`. Every coordinate as one multi point.
    Points,
}

/// The multi form of a geometry. A multi form or a collection stays what it is.
pub open spec fn promoted(geom: GeometryView) -> GeometryView {
    match geom {
        GeometryView::Point(c) => GeometryView::MultiPoint(seq![c]),
        GeometryView::LineString(line) => GeometryView::MultiLineString(seq![line]),
        GeometryView::Polygon(polygon) => GeometryView::MultiPolygon(seq![polygon]),
        GeometryView::Rect(a, b) => GeometryView::MultiPolygon(seq![rect_polygon(a, b)]),
        GeometryView::Triangle(a, b, c) => GeometryView::MultiPolygon(
            seq![triangle_polygon(a, b, c)],
        ),
        GeometryView::Line(a, b) => GeometryView::MultiLineString(seq![seq![a, b]]),
        other => other,
    }
}

impl Structure {
    /// The PostGIS function name.
    pub open spec fn name_text(self) -> Seq<char> {
        match self {
            Structure::Multi => "ST_Multi"@,
            Structure::Points => "ST_Points"@,
        }
    }

    /// The lowercase SQL name.
    pub open spec fn sql_text(self) -> Seq<char> {
        match self {
            Structure::Multi => "st_multi"@,
            Structure::Points => "st_points"@,
        }
    }

    /// What the edit makes of a geometry.
    pub open spec fn edited(self, geom: GeometryView) -> GeometryView {
        match self {
            Structure::Multi => promoted(geom),
            Structure::Points => GeometryView::MultiPoint(coords_of(geom)),
        }
    }

    /// The PostGIS function name.
    pub fn function_name(self) -> (r: &'static str)
        ensures
            r@ == self.name_text(),
    {
        match self {
            Structure::Multi => "ST_Multi",
            Structure::Points => "ST_Points",
        }
    }

    /// The lowercase SQL name.
    pub fn sql_name(self) -> (r: &'static str)
        ensures
            r@ == self.sql_text(),
    {
        match self {
            Structure::Multi => "st_multi",
            Structure::Points => "st_points",
        }
    }

    /// Every structure edit, for registration.
    pub fn all() -> (r: [Structure; 2])
        ensures
            r@ == seq![Structure::Multi, Structure::Points],
    {
        let r = [Structure::Multi, Structure::Points];
        assert(r@ =~= seq![Structure::Multi, Structure::Points]);
        r
    }

    /// Apply this edit to one geometry.
    pub fn apply(self, geom: &Geometry) -> (r: Geometry)
        ensures
            r@ == self.edited(geom@),
    {
        match self {
            Structure::Multi => match geom {
                Geometry::Point(c) => {
                    let r = Geometry::MultiPoint(vec![*c]);
                    assert(r@->MultiPoint_0 =~= seq![*c]);
                    r
                },
                Geometry::LineString(line) => one_line(copy_line(line)),
                Geometry::Polygon(polygon) => one_polygon(copy_polygon(polygon)),
                Geometry::Rect(a, b) => one_polygon(rect_to_polygon(*a, *b)),
                Geometry::Triangle(a, b, c) => one_polygon(triangle_to_polygon(*a, *b, *c)),
                Geometry::Line(a, b) => {
                    let line = vec![*a, *b];
                    assert(line@ =~= seq![*a, *b]);
                    one_line(line)
                },
                // Already a multi form or a collection.
                other => other.copy(),
            },
            Structure::Points => Geometry::MultiPoint(geom.coords()),
        }
    }
}

fn one_line(line: Vec<Coord>) -> (r: Geometry)
    ensures
        r@ == GeometryView::MultiLineString(seq![line@]),
{
    let lines = vec![line];
    assert(lines_view(lines@) =~= seq![line@]);
    Geometry::MultiLineString(lines)
}

fn one_polygon(polygon: Polygon) -> (r: Geometry)
    ensures
        r@ == GeometryView::MultiPolygon(seq![polygon@]),
{
    let polygons = vec![polygon];
    assert(polygons_view(polygons@) =~= seq![polygon@]);
    Geometry::MultiPolygon(polygons)
}

/// True when `out` is a function of each geometry, nothing for a null.
pub open spec fn are_edited(
    array: ColumnView,
    f: spec_fn(GeometryView) -> Option<GeometryView>,
    r: Result<Vec<Option<Geometry>>, Error>,
) -> bool {
    match r {
        Ok(out) => {
            &&& !array.has_broken(array.rows())
            &&& out@.len() == array.rows()
            &&& forall|i: int|
                0 <= i < out@.len() ==> geometry_view(#[trigger] out@[i]) == match array.geometry(i) {
                    Some(geom) => f(geom),
                    None => None,
                }
        },
        Err(error) => array.has_broken(array.rows()) && error == Error::Undecodable,
    }
}

/// Any structure edit over a column.
pub fn structure(array: &Column, edit: Structure) -> (r: Result<Vec<Option<Geometry>>, Error>)
    requires
        array.wf(),
    ensures
        are_edited(array@, |geom: GeometryView| Some(edit.edited(geom)), r),
{
    let f = |geom: &Geometry| -> (out: Option<Geometry>)
        ensures
            geometry_view(out) == Some(edit.edited(geom@)),
        { Some(edit.apply(geom)) };
    map_geometries(array, &f)
}

// ------------------------------------------------------------------------ grid
/// The grid size of a row, where it has a meaning: one value may stand for every row, and a null, a
/// size of zero or less, or the end of the list leaves the row without one.
pub open spec fn grid_at(size: Seq<Option<u64>>, rows: int, i: int) -> Option<u64> {
    let at = slot(size.len() as int, rows, i);
    if at >= size.len() {
        None
    } else {
        match size[at] {
            Some(grid) => if number::is_le(grid, number::ZERO) {
                None
            } else {
                Some(grid)
            },
            None => None,
        }
    }
}

/// True when a row without a grid size was not read, and every other row before `end` was.
pub open spec fn is_snap_broken(array: ColumnView, size: Seq<Option<u64>>, i: int) -> bool {
    grid_at(size, array.rows(), i) is Some && array.is_broken(i)
}

/// True when `out` is the geometry of a row with every coordinate rounded onto the grid.
pub open spec fn is_snapped<G: Fn(Coord) -> Coord, S: Fn(u64) -> G>(
    array: ColumnView,
    size: Seq<Option<u64>>,
    snap: S,
    i: int,
    out: Option<Geometry>,
) -> bool {
    match (grid_at(size, array.rows(), i), array.geometry(i)) {
        (Some(grid), Some(geom)) => exists|step: G| #[trigger]
            snap.ensures((grid,), step) && out is Some && is_moved(step, geom, out->0@),
        _ => out is None,
    }
}

/// `ST_SnapToGrid`. Round every coordinate onto a grid of the given size.
///
/// `snap` gives the rounding for a grid size. A grid of zero or less has no meaning, so its rows
/// are null and are not even read.
///
/// PostGIS also has an origin and per-axis form. This is the single-size version, which is the one
/// used to shrink a geometry before storage or comparison.
pub fn st_snap_to_grid<G: Fn(Coord) -> Coord, S: Fn(u64) -> G>(
    array: &Column,
    size: &Vec<Option<u64>>,
    snap: &S,
) -> (r: Result<Vec<Option<Geometry>>, Error>)
    requires
        array.wf(),
        forall|grid: u64| #[trigger] snap.requires((grid,)),
        forall|grid: u64, step: G, c: Coord|
            #[trigger] snap.ensures((grid,), step) ==> #[trigger] step.requires((c,)),
    ensures
        match r {
            Ok(out) => {
                &&& forall|i: int|
                    0 <= i < array.rows() ==> !#[trigger] is_snap_broken(array@, size@, i)
                &&& out@.len() == array.rows()
                &&& forall|i: int|
                    0 <= i < out@.len() ==> is_snapped(array@, size@, *snap, i, #[trigger] out@[i])
            },
            Err(error) => error == Error::Undecodable && exists|i: int|
                0 <= i < array.rows() && #[trigger] is_snap_broken(array@, size@, i),
        },
{
    let rows: usize = array.len();
    let broadcast = size.len() == 1 && rows != 1;
    let mut reader = GeometryReader::new(array);
    let mut out: Vec<Option<Geometry>> = Vec::new();
    let mut i: usize = 0;
    while i < rows
        invariant
            i <= rows,
            array.wf(),
            rows == array.rows(),
            broadcast == is_constant(size@.len() as int, rows as int),
            reader.source() == *array,
            forall|grid: u64| #[trigger] snap.requires((grid,)),
            forall|grid: u64, step: G, c: Coord|
                #[trigger] snap.ensures((grid,), step) ==> #[trigger] step.requires((c,)),
            out@.len() == i,
            forall|j: int| 0 <= j < i ==> !#[trigger] is_snap_broken(array@, size@, j),
            forall|j: int|
                0 <= j < i ==> is_snapped(array@, size@, *snap, j, #[trigger] out@[j]),
        decreases rows - i,
    {
        let at: usize = if broadcast {
            0
        } else {
            i
        };
        let grid: Option<u64> = if at >= size.len() {
            None
        } else {
            match size[at] {
                // A grid of zero or less would divide by zero.
                Some(grid) => if number::le(grid, number::ZERO) {
                    None
                } else {
                    Some(grid)
                },
                None => None,
            }
        };
        assert(grid == grid_at(size@, rows as int, i as int));
        match grid {
            Some(grid) => match reader.read(i) {
                Ok(Some(geom)) => {
                    let step = snap(grid);
                    assert(snap.ensures((grid,), step));
                    let snapped = move_geometry(geom, &step);
                    out.push(Some(snapped));
                },
                Ok(None) => {
                    out.push(None);
                },
                Err(error) => {
                    assert(is_snap_broken(array@, size@, i as int));
                    return Err(error);
                },
            },
            None => {
                out.push(None);
            },
        }
        i = i + 1;
    }
    Ok(out)
}

// -------------------------------------------------------------------- vertices
/// Which vertex edit to apply to a line string.
#[derive(Debug, Clone, Copy, PartialEq, Eq, Structural, Hash)]
pub enum VertexEdit {
    /// `ST_AddPoint`. Append a point, or insert it at a position.
    Add,
    /// `ST_RemovePoint`. Drop the vertex at a position.
    Remove,
    /// `ST_SetPoint`. Replace the vertex at a position.
    Replace,
}

impl VertexEdit {
    /// The PostGIS function name.
    pub open spec fn name_text(self) -> Seq<char> {
        match self {
            VertexEdit::Add => "ST_AddPoint"@,
            VertexEdit::Remove => "ST_RemovePoint"@,
            VertexEdit::Replace => "ST_SetPoint"@,
        }
    }

    /// The lowercase SQL name.
    pub open spec fn sql_text(self) -> Seq<char> {
        match self {
            VertexEdit::Add => "st_addpoint"@,
            VertexEdit::Remove => "st_removepoint"@,
            VertexEdit::Replace => "st_setpoint"@,
        }
    }

    /// The PostGIS function name.
    pub fn function_name(self) -> (r: &'static str)
        ensures
            r@ == self.name_text(),
    {
        match self {
            VertexEdit::Add => "ST_AddPoint",
            VertexEdit::Remove => "ST_RemovePoint",
            VertexEdit::Replace => "ST_SetPoint",
        }
    }

    /// The lowercase SQL name.
    pub fn sql_name(self) -> (r: &'static str)
        ensures
            r@ == self.sql_text(),
    {
        match self {
            VertexEdit::Add => "st_addpoint",
            VertexEdit::Remove => "st_removepoint",
            VertexEdit::Replace => "st_setpoint",
        }
    }

    /// Every vertex edit, for registration.
    pub fn all() -> (r: [VertexEdit; 3])
        ensures
            r@ == seq![VertexEdit::Add, VertexEdit::Remove, VertexEdit::Replace],
    {
        let r = [VertexEdit::Add, VertexEdit::Remove, VertexEdit::Replace];
        assert(r@ =~= seq![VertexEdit::Add, VertexEdit::Remove, VertexEdit::Replace]);
        r
    }

    /// True when the edit needs a point argument.
    pub fn needs_point(self) -> (r: bool)
        ensures
            r == (self != VertexEdit::Remove),
    {
        match self {
            VertexEdit::Add | VertexEdit::Replace => true,
            VertexEdit::Remove => false,
        }
    }
}

/// The line after an edit, or nothing where the edit has no point or its position lies outside.
///
/// Positions count from zero. An added point without a position goes to the end, and so does one
/// at the position one past the end. A line keeps two vertices.
pub open spec fn edited_line(
    line: Seq<Coord>,
    edit: VertexEdit,
    point: Option<Coord>,
    position: Option<i32>,
) -> Option<Seq<Coord>> {
    match (edit, point, position) {
        (VertexEdit::Add, Some(c), None) => Some(line.push(c)),
        (VertexEdit::Add, Some(c), Some(at)) => if 0 <= at <= line.len() {
            Some(line.insert(at as int, c))
        } else {
            None
        },
        (VertexEdit::Remove, _, Some(at)) => if 0 <= at < line.len() && line.len() > 2 {
            Some(line.remove(at as int))
        } else {
            None
        },
        (VertexEdit::Replace, Some(c), Some(at)) => if 0 <= at < line.len() {
            Some(line.update(at as int, c))
        } else {
            None
        },
        _ => None,
    }
}

/// The view of an optional line.
pub open spec fn line_view(line: Option<Vec<Coord>>) -> Option<Seq<Coord>> {
    match line {
        Some(line) => Some(line@),
        None => None,
    }
}

/// Edit one line.
pub fn apply_vertex_edit(
    line: &Vec<Coord>,
    edit: VertexEdit,
    point: Option<Coord>,
    position: Option<i32>,
) -> (r: Option<Vec<Coord>>)
    ensures
        line_view(r) == edited_line(line@, edit, point, position),
{
    let mut coords = copy_line(line);
    let len: usize = coords.len();
    match edit {
        VertexEdit::Add => match point {
            Some(c) => {
                match position {
                    Some(at) => {
                        // PostGIS allows one past the end, which appends.
                        if at < 0 || at as usize > len {
                            return None;
                        }
                        coords.insert(at as usize, c);
                    },
                    None => {
                        coords.push(c);
                    },
                }
            },
            None => {
                return None;
            },
        },
        VertexEdit::Remove => match position {
            Some(at) => {
                // A line string needs at least two coordinates.
                if at < 0 || at as usize >= len || len <= 2 {
                    return None;
                }
                let _dropped = coords.remove(at as usize);
            },
            None => {
                return None;
            },
        },
        VertexEdit::Replace => match (point, position) {
            (Some(c), Some(at)) => {
                if at < 0 || at as usize >= len {
                    return None;
                }
                coords.set(at as usize, c);
            },
            _ => {
                return None;
            },
        },
    }
    Some(coords)
}

/// The position of a row. One value may stand for every row.
pub open spec fn position_at(position: Option<&Vec<Option<i32>>>, rows: int, i: int) -> Option<i32> {
    match position {
        Some(values) => values@[slot(values@.len() as int, rows, i)],
        None => None,
    }
}

/// The view of an optional column.
pub open spec fn column_view(array: Option<&Column>) -> Option<ColumnView> {
    match array {
        Some(array) => Some(array@),
        None => None,
    }
}

/// What an edit makes of a row. Only a line string can be edited, and only with a point where the
/// call brings a point column.
pub open spec fn edited_row(
    array: ColumnView,
    edit: VertexEdit,
    point: Option<ColumnView>,
    position: Option<&Vec<Option<i32>>>,
    i: int,
) -> Option<GeometryView> {
    let at = position_at(position, array.rows(), i);
    match array.geometry(i) {
        Some(GeometryView::LineString(line)) => match point {
            Some(points) => match points.geometry(slot(points.rows(), array.rows(), i)) {
                Some(GeometryView::Point(c)) => match edited_line(line, edit, Some(c), at) {
                    Some(result) => Some(GeometryView::LineString(result)),
                    None => None,
                },
                _ => None,
            },
            None => match edited_line(line, edit, None, at) {
                Some(result) => Some(GeometryView::LineString(result)),
                None => None,
            },
        },
        _ => None,
    }
}

/// True when an edit meets a value that could not be decoded at row `i`.
///
/// The point of a row is read only where the row is a line string.
pub open spec fn is_edit_broken(array: ColumnView, point: Option<ColumnView>, i: int) -> bool {
    ||| array.is_broken(i)
    ||| {
        &&& array.geometry(i) matches Some(geom) && geom is LineString
        &&& point matches Some(points) && points.is_broken(slot(points.rows(), array.rows(), i))
    }
}

/// True when an edit meets a value that could not be decoded before row `end`. A single point is
/// read first.
pub open spec fn has_edit_broken(array: ColumnView, point: Option<ColumnView>, end: int) -> bool {
    ||| point matches Some(points) && is_constant(points.rows(), array.rows())
        && points.is_broken(0)
    ||| exists|i: int| 0 <= i < end && #[trigger] is_edit_broken(array, point, i)
}

/// `ST_AddPoint`, `ST_RemovePoint` or `ST_SetPoint`.
///
/// The position is zero-based, as PostGIS defines it for these three. A position outside the line
/// gives null. `ST_AddPoint` with a null position appends.
pub fn vertex_edit(
    array: &Column,
    edit: VertexEdit,
    point: Option<&Column>,
    position: Option<&Vec<Option<i32>>>,
) -> (r: Result<Vec<Option<Geometry>>, Error>)
    requires
        array.wf(),
        point matches Some(points) ==> points.wf(),
        position matches Some(values) ==> values@.len() >= array.rows() || is_constant(
            values@.len() as int,
            array.rows(),
        ),
    ensures
        ({
            let fits = point matches Some(points) ==> points.rows() == array.rows()
                || points.rows() == 1;
            match r {
                Ok(out) => {
                    &&& fits
                    &&& !has_edit_broken(array@, column_view(point), array.rows())
                    &&& out@.len() == array.rows()
                    &&& forall|i: int|
                        0 <= i < out@.len() ==> geometry_view(#[trigger] out@[i]) == edited_row(
                            array@,
                            edit,
                            column_view(point),
                            position,
                            i,
                        )
                },
                Err(Error::UnequalLengths { function, left, right }) => {
                    &&& !fits
                    &&& function@ == edit.name_text()
                    &&& left == array.rows()
                    &&& right == point->0.rows()
                },
                Err(Error::Undecodable) => fits && has_edit_broken(
                    array@,
                    column_view(point),
                    array.rows(),
                ),
                Err(_) => false,
            }
        }),
{
    let len: usize = array.len();
    let mut points: Option<Operand> = None;
    if let Some(values) = point {
        let given: usize = values.len();
        if given != len && given != 1 {
            return Err(
                Error::UnequalLengths { function: edit.function_name(), left: len, right: given },
            );
        }
        match Operand::new(values, len) {
            Ok(operand) => {
                points = Some(operand);
            },
            Err(error) => {
                return Err(error);
            },
        }
    }
    let mut lines = GeometryReader::new(array);
    let mut out: Vec<Option<Geometry>> = Vec::new();
    let mut i: usize = 0;
    while i < len
        invariant
            i <= len,
            array.wf(),
            len == array.rows(),
            lines.source() == *array,
            point is Some == points is Some,
            point matches Some(values) ==> values.wf() && points->0.is_over(*values, len as int),
            point matches Some(values) ==> values.rows() == array.rows() || values.rows() == 1,
            position matches Some(values) ==> values@.len() >= array.rows() || is_constant(
                values@.len() as int,
                array.rows(),
            ),
            !has_edit_broken(array@, column_view(point), i as int),
            out@.len() == i,
            forall|j: int|
                0 <= j < i ==> geometry_view(#[trigger] out@[j]) == edited_row(
                    array@,
                    edit,
                    column_view(point),
                    position,
                    j,
                ),
        decreases len - i,
    {
        let at: Option<i32> = match position {
            Some(values) => if values.len() == 1 && len != 1 {
                values[0]
            } else {
                values[i]
            },
            None => None,
        };
        let edited: Option<Geometry> = match lines.read(i) {
            Ok(Some(Geometry::LineString(line))) => {
                let mut allowed = true;
                let mut new_point: Option<Coord> = None;
                if let Some(operand) = &mut points {
                    match operand.get(i, Ghost(*point->0), Ghost(len as int)) {
                        Ok(Some(Geometry::Point(c))) => {
                            new_point = Some(*c);
                        },
                        Ok(_) => {
                            allowed = false;
                        },
                        Err(error) => {
                            assert(is_edit_broken(array@, column_view(point), i as int));
                            return Err(error);
                        },
                    }
                }
                if allowed {
                    match apply_vertex_edit(line, edit, new_point, at) {
                        Some(result) => Some(Geometry::LineString(result)),
                        None => None,
                    }
                } else {
                    None
                }
            },
            // PostGIS restricts these three to line strings.
            Ok(_) => None,
            Err(error) => {
                assert(is_edit_broken(array@, column_view(point), i as int));
                return Err(error);
            },
        };
        out.push(edited);
        i = i + 1;
    }
    Ok(out)
}

// ------------------------------------------------------------------------ dump
/// The parts of a geometry, one level deep, as PostGIS defines the dump.
pub open spec fn exploded(geom: GeometryView) -> Seq<GeometryView> {
    match geom {
        GeometryView::MultiPoint(points) => Seq::new(
            points.len(),
            |k: int| GeometryView::Point(points[k]),
        ),
        GeometryView::MultiLineString(lines) => Seq::new(
            lines.len(),
            |k: int| GeometryView::LineString(lines[k]),
        ),
        GeometryView::MultiPolygon(polygons) => Seq::new(
            polygons.len(),
            |k: int| GeometryView::Polygon(polygons[k]),
        ),
        GeometryView::GeometryCollection(parts) => parts,
        single => seq![single],
    }
}

/// The parts of a geometry, one level deep, as PostGIS defines the dump.
pub fn explode(geom: &Geometry) -> (r: Vec<Geometry>)
    ensures
        geometries_view(r@) == exploded(geom@),
{
    let mut out: Vec<Geometry> = Vec::new();
    let ghost expected = exploded(geom@);
    let mut k: usize = 0;
    match geom {
        Geometry::MultiPoint(points) => {
            while k < points.len()
                invariant
                    k <= points@.len(),
                    *geom == Geometry::MultiPoint(*points),
                    expected == exploded(geom@),
                    out@.len() == k,
                    forall|j: int| 0 <= j < k ==> (#[trigger] out@[j])@ == expected[j],
                decreases points@.len() - k,
            {
                out.push(Geometry::Point(points[k]));
                k = k + 1;
            }
        },
        Geometry::MultiLineString(lines) => {
            while k < lines.len()
                invariant
                    k <= lines@.len(),
                    *geom == Geometry::MultiLineString(*lines),
                    expected == exploded(geom@),
                    out@.len() == k,
                    forall|j: int| 0 <= j < k ==> (#[trigger] out@[j])@ == expected[j],
                decreases lines@.len() - k,
            {
                out.push(Geometry::LineString(copy_line(&lines[k])));
                k = k + 1;
            }
        },
        Geometry::MultiPolygon(polygons) => {
            while k < polygons.len()
                invariant
                    k <= polygons@.len(),
                    *geom == Geometry::MultiPolygon(*polygons),
                    expected == exploded(geom@),
                    out@.len() == k,
                    forall|j: int| 0 <= j < k ==> (#[trigger] out@[j])@ == expected[j],
                decreases polygons@.len() - k,
            {
                out.push(Geometry::Polygon(copy_polygon(&polygons[k])));
                k = k + 1;
            }
        },
        Geometry::GeometryCollection(parts) => {
            proof {
                lemma_collection_view(*parts);
            }
            while k < parts.len()
                invariant
                    k <= parts@.len(),
                    expected.len() == parts@.len(),
                    forall|j: int| 0 <= j < parts@.len() ==> (#[trigger] parts@[j])@ == expected[j],
                    out@.len() == k,
                    forall|j: int| 0 <= j < k ==> (#[trigger] out@[j])@ == expected[j],
                decreases parts@.len() - k,
            {
                out.push(parts[k].copy());
                k = k + 1;
            }
        },
        single => {
            out.push(single.copy());
        },
    }
    assert(geometries_view(out@) =~= expected);
    out
}

/// The dump of a column: the parts of all rows in order, where the parts of each row end, and which
/// rows have a value.
#[derive(Debug)]
pub struct Dump {
    /// The encoded parts.
    pub parts: Vec<Vec<u8>>,
    /// Where the parts of each row start, and where those of the last one end.
    pub offsets: Vec<i32>,
    /// Which rows have a value.
    pub valid: Vec<bool>,
}

/// The parts of the rows `0..end`.
pub open spec fn part_total(array: ColumnView, end: int) -> nat
    decreases end,
{
    if end <= 0 {
        0
    } else {
        part_total(array, end - 1) + match array.geometry(end - 1) {
            Some(geom) => exploded(geom).len(),
            None => 0,
        }
    }
}

/// True when `bytes` is what `write` gave for the geometry.
pub open spec fn is_written<W: Fn(&Geometry) -> Option<Vec<u8>>>(
    write: W,
    geom: GeometryView,
    bytes: Option<Seq<u8>>,
) -> bool {
    exists|value: Geometry, out: Option<Vec<u8>>|
        {
            &&& #[trigger] value@ == geom
            &&& #[trigger] write.ensures((&value,), out)
            &&& bytes == match out {
                Some(out) => Some(out@),
                None => None,
            }
        }
}

/// True when the dump holds the parts of row `i` at their place.
pub open spec fn is_dumped_row<W: Fn(&Geometry) -> Option<Vec<u8>>>(
    array: ColumnView,
    write: W,
    parts: Seq<Vec<u8>>,
    valid: bool,
    i: int,
) -> bool {
    match array.geometry(i) {
        Some(geom) => {
            &&& valid
            &&& forall|k: int|
                0 <= k < exploded(geom).len() ==> is_written(
                    write,
                    #[trigger] exploded(geom)[k],
                    Some(parts[part_total(array, i) + k]@),
                )
        },
        None => !valid,
    }
}

/// True when `dump` is the dump of the rows `0..end`.
pub open spec fn is_dump<W: Fn(&Geometry) -> Option<Vec<u8>>>(
    array: ColumnView,
    write: W,
    dump: Dump,
    end: int,
) -> bool {
    &&& dump.parts@.len() == part_total(array, end)
    &&& dump.offsets@.len() == end + 1
    &&& dump.valid@.len() == end
    &&& forall|i: int| 0 <= i <= end ==> #[trigger] dump.offsets@[i] == part_total(array, i)
    &&& forall|i: int|
        0 <= i < end ==> is_dumped_row(array, write, dump.parts@, #[trigger] dump.valid@[i], i)
}

/// True when `write` gave bytes for the geometry.
pub open spec fn has_bytes<W: Fn(&Geometry) -> Option<Vec<u8>>>(write: W, geom: GeometryView) -> bool {
    exists|bytes: Seq<u8>| #[trigger] is_written(write, geom, Some(bytes))
}

/// True when the first `end` parts of row `i` were encoded.
pub open spec fn are_parts_written<W: Fn(&Geometry) -> Option<Vec<u8>>>(
    array: ColumnView,
    write: W,
    i: int,
    end: int,
) -> bool {
    array.geometry(i) matches Some(geom) ==> forall|k: int|
        0 <= k < end && k < exploded(geom).len() ==> has_bytes(write, #[trigger] exploded(geom)[k])
}

/// True when every part of row `i` was encoded.
pub open spec fn is_row_written<W: Fn(&Geometry) -> Option<Vec<u8>>>(
    array: ColumnView,
    write: W,
    i: int,
) -> bool {
    array.geometry(i) matches Some(geom) ==> are_parts_written(
        array,
        write,
        i,
        exploded(geom).len() as int,
    )
}

/// True when part `k` of row `i` is the first of the row that could not be encoded.
pub open spec fn is_first_unwritten<W: Fn(&Geometry) -> Option<Vec<u8>>>(
    array: ColumnView,
    write: W,
    i: int,
    k: int,
) -> bool {
    &&& array.geometry(i) matches Some(geom) && 0 <= k < exploded(geom).len() && is_written(
        write,
        exploded(geom)[k],
        None,
    )
    &&& are_parts_written(array, write, i, k)
}

/// True when row `i` is the first that fails, with the error that its own value gives: it could not
/// be decoded, a part could not be encoded, or its parts are more than an offset can count.
pub open spec fn is_dump_failure<W: Fn(&Geometry) -> Option<Vec<u8>>>(
    array: ColumnView,
    write: W,
    i: int,
    error: Error,
) -> bool {
    &&& 0 <= i < array.rows()
    &&& !array.has_broken(i)
    &&& forall|j: int| 0 <= j < i ==> #[trigger] is_row_written(array, write, j)
    &&& part_total(array, i) <= i32::MAX
    &&& match error {
        Error::Undecodable => array.is_broken(i),
        Error::External => exists|k: int| #[trigger] is_first_unwritten(array, write, i, k),
        Error::Overflow => {
            &&& !array.is_broken(i)
            &&& is_row_written(array, write, i)
            &&& part_total(array, i + 1) > i32::MAX
        },
        _ => false,
    }
}

proof fn lemma_part_total_grows(array: ColumnView, start: int, end: int)
    requires
        start <= end,
    ensures
        part_total(array, start) <= part_total(array, end),
    decreases end - start,
{
    if start < end {
        lemma_part_total_grows(array, start, end - 1);
    }
}

/// `ST_Dump`. Split every geometry into its parts.
///
/// `write` encodes a part. Returns a list per row. See the module documentation for why this is not
/// a set. The first row that fails decides the error.
pub fn st_dump<W: Fn(&Geometry) -> Option<Vec<u8>>>(array: &Column, write: &W) -> (r: Result<
    Dump,
    Error,
>)
    requires
        array.wf(),
        forall|geom: &Geometry| #[trigger] write.requires((geom,)),
    ensures
        match r {
            Ok(dump) => {
                &&& !array@.has_broken(array.rows())
                &&& part_total(array@, array.rows()) <= i32::MAX
                &&& is_dump(array@, *write, dump, array.rows())
            },
            Err(error) => exists|i: int| #[trigger] is_dump_failure(array@, *write, i, error),
        },
{
    let rows: usize = array.len();
    let mut dump = Dump { parts: Vec::new(), offsets: Vec::new(), valid: Vec::new() };
    dump.offsets.push(0);
    let mut reader = GeometryReader::new(array);
    let mut i: usize = 0;
    while i < rows
        invariant
            i <= rows,
            array.wf(),
            rows == array.rows(),
            reader.source() == *array,
            forall|geom: &Geometry| #[trigger] write.requires((geom,)),
            !array@.has_broken(i as int),
            part_total(array@, i as int) <= i32::MAX,
            is_dump(array@, *write, dump, i as int),
            forall|j: int| 0 <= j < i ==> #[trigger] is_row_written(array@, *write, j),
        decreases rows - i,
    {
        let ghost at = i as int;
        let ghost before = dump;
        let ghost base = part_total(array@, at) as int;
        match reader.read(i) {
            Ok(Some(geom)) => {
                let ghost view = geom@;
                let parts = explode(geom);
                let count: usize = parts.len();
                assert(geometries_view(parts@).len() == exploded(view).len());
                assert(part_total(array@, at + 1) == base + count);
                let mut k: usize = 0;
                while k < count
                    invariant
                        k <= count,
                        count == parts@.len(),
                        0 <= at < array.rows(),
                        !array@.has_broken(at),
                        base <= i32::MAX,
                        forall|j: int| 0 <= j < at ==> #[trigger] is_row_written(array@, *write, j),
                        array@.geometry(at) == Some(view),
                        geometries_view(parts@) == exploded(view),
                        base == part_total(array@, at),
                        forall|geom: &Geometry| #[trigger] write.requires((geom,)),
                        dump.parts@.len() == base + k,
                        dump.parts@.take(base) == before.parts@,
                        dump.offsets == before.offsets,
                        dump.valid == before.valid,
                        forall|j: int|
                            0 <= j < k ==> is_written(
                                *write,
                                #[trigger] exploded(view)[j],
                                Some(dump.parts@[base + j]@),
                            ) && has_bytes(*write, exploded(view)[j]),
                    decreases count - k,
                {
                    let ghost held = dump.parts@;
                    assert(geometries_view(parts@)[k as int] == parts@[k as int]@);
                    let encoded = write(&parts[k]);
                    assert(write.ensures((&parts@[k as int],), encoded));
                    match encoded {
                        Some(bytes) => {
                            assert(is_written(*write, exploded(view)[k as int], Some(bytes@)));
                            dump.parts.push(bytes);
                            assert(dump.parts@.take(base) =~= held.take(base));
                        },
                        None => {
                            assert(is_written(*write, exploded(view)[k as int], None));
                            assert(is_first_unwritten(array@, *write, at, k as int));
                            assert(is_dump_failure(array@, *write, at, Error::External));
                            return Err(Error::External);
                        },
                    }
                    k = k + 1;
                }
                dump.valid.push(true);
            },
            Ok(None) => {
                dump.valid.push(false);
            },
            Err(error) => {
                assert(is_dump_failure(array@, *write, at, error));
                return Err(error);
            },
        }
        assert(is_row_written(array@, *write, at));
        let total: usize = dump.parts.len();
        if total > 0x7fff_ffff {
            assert(is_dump_failure(array@, *write, at, Error::Overflow));
            return Err(Error::Overflow);
        }
        dump.offsets.push(total as i32);
        proof {
            assert forall|j: int| 0 <= j <= at implies is_dumped_row(
                array@,
                *write,
                dump.parts@,
                #[trigger] dump.valid@[j],
                j,
            ) by {
                if j < at {
                    assert(is_dumped_row(array@, *write, before.parts@, before.valid@[j], j));
                    lemma_part_total_grows(array@, j + 1, at);
                    if array@.geometry(j) is Some {
                        let geom = array@.geometry(j)->0;
                        assert forall|k: int| 0 <= k < exploded(geom).len() implies is_written(
                            *write,
                            #[trigger] exploded(geom)[k],
                            Some(dump.parts@[part_total(array@, j) + k]@),
                        ) by {
                            let n = part_total(array@, j) + k;
                            assert(n < base);
                            assert(dump.parts@.take(base)[n] == before.parts@[n]);
                        }
                    }
                }
            }
        }
        i = i + 1;
    }
    Ok(dump)
}

// ------------------------------------------------------------------------ laws
/// Promotion is done once: a multi form or a collection stays what it is.
pub proof fn law_promotion_is_idempotent(geom: GeometryView)
    ensures
        promoted(promoted(geom)) == promoted(geom),
{
}

/// Promotion adds no part: what it gives is made of the geometry itself.
pub proof fn law_a_promoted_geometry_has_one_part(geom: GeometryView)
    requires
        geom is Point || geom is LineString || geom is Polygon,
    ensures
        exploded(promoted(geom)) == seq![geom],
{
    assert(exploded(promoted(geom)) =~= seq![geom]);
}

/// `ST_Dump` lists the parts that `ST_GeometryN` counts to, in that order, and no other.
pub proof fn law_the_dump_lists_every_nth_part(geom: GeometryView, n: i32)
    ensures
        nth_part(geom, Some(n)) == if 1 <= n <= exploded(geom).len() {
            Some(exploded(geom)[n - 1])
        } else {
            None
        },
{
}

/// The parts of a row lie between its two offsets.
pub proof fn law_the_offsets_bound_the_parts<W: Fn(&Geometry) -> Option<Vec<u8>>>(
    array: ColumnView,
    write: W,
    dump: Dump,
    i: int,
)
    requires
        is_dump(array, write, dump, array.rows()),
        0 <= i < array.rows(),
    ensures
        dump.offsets@[0] == 0,
        dump.offsets@[array.rows()] == dump.parts@.len(),
        dump.offsets@[i + 1] - dump.offsets@[i] == match array.geometry(i) {
            Some(geom) => exploded(geom).len() as int,
            None => 0int,
        },
{
    assert(dump.offsets@[i + 1] == part_total(array, i + 1));
}

/// A vertex that was added can be removed again.
pub proof fn law_removing_undoes_adding(line: Seq<Coord>, c: Coord, at: i32)
    requires
        0 <= at <= line.len(),
        line.len() >= 2,
    ensures
        ({
            let longer = edited_line(line, VertexEdit::Add, Some(c), Some(at));
            &&& longer is Some
            &&& edited_line(longer->0, VertexEdit::Remove, None, Some(at)) == Some(line)
        }),
{
    assert(line.insert(at as int, c).remove(at as int) =~= line);
}

/// An added point without a position goes one past the end.
pub proof fn law_no_position_appends(line: Seq<Coord>, c: Coord)
    ensures
        edited_line(line, VertexEdit::Add, Some(c), None) == Some(line.push(c)),
        line.len() <= i32::MAX ==> edited_line(
            line,
            VertexEdit::Add,
            Some(c),
            Some(line.len() as i32),
        ) == Some(line.push(c)),
{
    assert(line.insert(line.len() as int, c) =~= line.push(c));
}

/// A position outside the line gives nothing, whatever the edit.
pub proof fn law_a_position_outside_gives_nothing(
    line: Seq<Coord>,
    edit: VertexEdit,
    point: Option<Coord>,
    at: i32,
)
    requires
        at < 0 || at > line.len() || (at == line.len() && edit != VertexEdit::Add),
    ensures
        edited_line(line, edit, point, Some(at)) is None,
{
}

/// Replacing a vertex keeps the length and every other vertex, and the last one written stays.
pub proof fn law_the_last_replacement_stays(line: Seq<Coord>, a: Coord, b: Coord, at: i32)
    requires
        0 <= at < line.len(),
    ensures
        ({
            let once = edited_line(line, VertexEdit::Replace, Some(a), Some(at));
            &&& once is Some
            &&& once->0.len() == line.len()
            &&& once->0[at as int] == a
            &&& forall|k: int| 0 <= k < line.len() && k != at ==> once->0[k] == line[k]
            &&& edited_line(once->0, VertexEdit::Replace, Some(b), Some(at)) == edited_line(
                line,
                VertexEdit::Replace,
                Some(b),
                Some(at),
            )
        }),
{
    assert(line.update(at as int, a).update(at as int, b) =~= line.update(at as int, b));
}

/// No edit leaves a line with fewer than two vertices that had two.
pub proof fn law_a_line_keeps_two_vertices(
    line: Seq<Coord>,
    edit: VertexEdit,
    point: Option<Coord>,
    position: Option<i32>,
)
    requires
        line.len() >= 2,
    ensures
        edited_line(line, edit, point, position) matches Some(result) ==> result.len() >= 2,
{
}

} // verus!
