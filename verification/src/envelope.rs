//! Bounding box functions.
//!
//! # A box column already holds its bounds
//!
//! A box column stores the lower and the upper corner of each row. So `ST_XMin` over a box column
//! reads one of its lists.
//!
//! | Input | `ST_XMin` |
//! |---|---|
//! | box column | the lower x list |
//! | anything else | one pass to compute boxes, then one new list |
//!
//! `ST_Envelope` builds that box column, and it reuses [`fill_bboxes`], the same pass the predicate
//! prefilter uses.

use vstd::prelude::*;
use crate::bbox::{box_at, fill_bboxes, Bbox};
use crate::builder::{are_boxes, box_column, box_corners};
use crate::column::{Body, BodyView, Column, ColumnView, DataType, DataTypeView, Dimension, Kind};
use crate::error::Error;
use crate::geometry::Coord;
use crate::number;
use crate::operand::{broadcast_len, lengths_fit, side_null, slot};
use crate::predicate::is_boxes_read;

verus! {

/// Which corner ordinate to read.
#[derive(Debug, Clone, Copy, PartialEq, Eq, Structural, Hash)]
pub enum Bound {
    /// `ST_XMin`.
    XMin,
    /// `ST_YMin`.
    YMin,
    /// `ST_ZMin`.
    ZMin,
    /// `ST_XMax`.
    XMax,
    /// `ST_YMax`.
    YMax,
    /// `ST_ZMax`.
    ZMax,
}

impl Bound {
    /// The PostGIS function name.
    pub open spec fn name_text(self) -> Seq<char> {
        match self {
            Bound::XMin => "ST_XMin"@,
            Bound::YMin => "ST_YMin"@,
            Bound::ZMin => "ST_ZMin"@,
            Bound::XMax => "ST_XMax"@,
            Bound::YMax => "ST_YMax"@,
            Bound::ZMax => "ST_ZMax"@,
        }
    }

    /// The lowercase SQL name.
    pub open spec fn sql_text(self) -> Seq<char> {
        match self {
            Bound::XMin => "st_xmin"@,
            Bound::YMin => "st_ymin"@,
            Bound::ZMin => "st_zmin"@,
            Bound::XMax => "st_xmax"@,
            Bound::YMax => "st_ymax"@,
            Bound::ZMax => "st_zmax"@,
        }
    }

    /// True for a bound of the lower corner.
    pub open spec fn of_lower(self) -> bool {
        self == Bound::XMin || self == Bound::YMin || self == Bound::ZMin
    }

    /// Which ordinate of the corner.
    pub open spec fn axis(self) -> int {
        match self {
            Bound::XMin | Bound::XMax => 0,
            Bound::YMin | Bound::YMax => 1,
            Bound::ZMin | Bound::ZMax => 2,
        }
    }

    /// The bound of a box. A box of the plane has no z.
    pub open spec fn of(self, bbox: Bbox) -> u64 {
        match self {
            Bound::XMin => bbox.minx,
            Bound::YMin => bbox.miny,
            Bound::XMax => bbox.maxx,
            Bound::YMax => bbox.maxy,
            Bound::ZMin | Bound::ZMax => number::NAN,
        }
    }

    /// The PostGIS function name.
    pub fn function_name(self) -> (r: &'static str)
        ensures
            r@ == self.name_text(),
    {
        match self {
            Bound::XMin => "ST_XMin",
            Bound::YMin => "ST_YMin",
            Bound::ZMin => "ST_ZMin",
            Bound::XMax => "ST_XMax",
            Bound::YMax => "ST_YMax",
            Bound::ZMax => "ST_ZMax",
        }
    }

    /// The lowercase SQL name.
    pub fn sql_name(self) -> (r: &'static str)
        ensures
            r@ == self.sql_text(),
    {
        match self {
            Bound::XMin => "st_xmin",
            Bound::YMin => "st_ymin",
            Bound::ZMin => "st_zmin",
            Bound::XMax => "st_xmax",
            Bound::YMax => "st_ymax",
            Bound::ZMax => "st_zmax",
        }
    }

    /// Every bound, for registration.
    pub fn all() -> (r: [Bound; 6])
        ensures
            r@ == seq![
                Bound::XMin,
                Bound::YMin,
                Bound::ZMin,
                Bound::XMax,
                Bound::YMax,
                Bound::ZMax,
            ],
    {
        let r = [Bound::XMin, Bound::YMin, Bound::ZMin, Bound::XMax, Bound::YMax, Bound::ZMax];
        assert(r@ =~= seq![
            Bound::XMin,
            Bound::YMin,
            Bound::ZMin,
            Bound::XMax,
            Bound::YMax,
            Bound::ZMax,
        ]);
        r
    }

    /// True when this reads the lower corner.
    pub fn is_lower(self) -> (r: bool)
        ensures
            r == self.of_lower(),
    {
        match self {
            Bound::XMin | Bound::YMin | Bound::ZMin => true,
            _ => false,
        }
    }

    /// Which ordinate inside the corner.
    pub fn ordinate(self) -> (r: usize)
        ensures
            r == self.axis(),
    {
        match self {
            Bound::XMin | Bound::XMax => 0,
            Bound::YMin | Bound::YMax => 1,
            Bound::ZMin | Bound::ZMax => 2,
        }
    }

    /// Read this bound out of a computed box.
    pub fn read(self, bbox: &Bbox) -> (r: u64)
        ensures
            r == self.of(*bbox),
    {
        match self {
            Bound::XMin => bbox.minx,
            Bound::YMin => bbox.miny,
            Bound::XMax => bbox.maxx,
            Bound::YMax => bbox.maxy,
            // The box walker is two-dimensional, so it carries no z.
            Bound::ZMin | Bound::ZMax => number::NAN,
        }
    }
}

/// The bound of a row.
///
/// A box column holds it, unless it has no such ordinate. Any other column has no z bound, and
/// else the bound of the box around its row.
pub open spec fn bound_at(array: ColumnView, which: Bound, i: int) -> Option<u64> {
    match array.body {
        BodyView::Rect { lower, upper } => {
            let corner = if which.of_lower() {
                lower
            } else {
                upper
            };
            if array.is_null(i) || which.axis() >= corner.dim().count() {
                None
            } else {
                Some(corner.ordinate(i, which.axis()))
            }
        },
        _ => if array.is_null(i) || which.axis() == 2 {
            None
        } else {
            Some(which.of(box_at(array, i)))
        },
    }
}

/// Read one corner ordinate of every row's bounding box.
pub fn bound(array: &Column, which: Bound) -> (r: Result<Vec<Option<u64>>, Error>)
    requires
        array.wf(),
    ensures
        match r {
            Ok(out) => {
                &&& array@.has_broken(array.rows()) ==> which.axis() == 2
                &&& out@.len() == array.rows()
                &&& forall|i: int|
                    0 <= i < out@.len() ==> #[trigger] out@[i] == bound_at(array@, which, i)
            },
            Err(error) => {
                &&& which.axis() != 2
                &&& array@.has_broken(array.rows())
                &&& error == Error::Undecodable
            },
        },
{
    let rows: usize = array.len();
    let mut out: Vec<Option<u64>> = Vec::new();
    // Fast path. A box column already stores exactly these numbers.
    if let Body::Rect { lower, upper } = &array.body {
        let corner = if which.is_lower() {
            lower
        } else {
            upper
        };
        let axis: usize = which.ordinate();
        let mut i: usize = 0;
        while i < rows
            invariant
                i <= rows,
                array.wf(),
                rows == array.rows(),
                array.body == (Body::Rect { lower: *lower, upper: *upper }),
                corner == (if which.of_lower() {
                    lower
                } else {
                    upper
                }),
                axis == which.axis(),
                out@.len() == i,
                forall|j: int| 0 <= j < i ==> #[trigger] out@[j] == bound_at(array@, which, j),
            decreases rows - i,
        {
            // A two-dimensional box has no z.
            if array.null_at(i) || axis >= corner.dim.size() {
                out.push(None);
            } else {
                out.push(Some(corner.buffers[axis][i]));
            }
            i = i + 1;
        }
        assert forall|j: int| 0 <= j < rows implies !array@.is_broken(j) by {}
        return Ok(out);
    }
    // A z bound needs a three-dimensional box, which the two-dimensional walker cannot give.

    let flat = match which {
        Bound::ZMin | Bound::ZMax => false,
        _ => true,
    };
    let mut boxes: Vec<Bbox> = Vec::new();
    if flat {
        match fill_bboxes(array, &mut boxes) {
            Ok(()) => {},
            Err(error) => {
                return Err(error);
            },
        }
    }
    let mut i: usize = 0;
    while i < rows
        invariant
            i <= rows,
            array.wf(),
            rows == array.rows(),
            !(array@.body is Rect),
            flat == (which.axis() != 2),
            flat ==> boxes@ == Seq::new(rows as nat, |i: int| box_at(array@, i)),
            out@.len() == i,
            forall|j: int| 0 <= j < i ==> #[trigger] out@[j] == bound_at(array@, which, j),
        decreases rows - i,
    {
        if !flat || array.null_at(i) {
            out.push(None);
        } else {
            out.push(Some(which.read(&boxes[i])));
        }
        i = i + 1;
    }
    Ok(out)
}

/// The type `ST_Envelope` and `ST_Expand` produce.
pub fn box_output_type(input: &DataType) -> (r: DataType)
    ensures
        r@ == DataTypeView::separated(Kind::Rect, Dimension::XY, input@.metadata),
{
    DataType::separated(Kind::Rect, Dimension::XY, input.metadata.copy())
}

/// The corners of a box that a row can hold. A row around nothing has none.
pub open spec fn corners(bbox: Bbox) -> Option<(Coord, Coord)> {
    if bbox.is_void() {
        None
    } else {
        Some((Coord { x: bbox.minx, y: bbox.miny }, Coord { x: bbox.maxx, y: bbox.maxy }))
    }
}

/// The envelope of a row.
pub open spec fn envelope_at(array: ColumnView, i: int) -> Option<(Coord, Coord)> {
    if array.is_null(i) {
        None
    } else {
        corners(box_at(array, i))
    }
}

/// The corners of a box that a row can hold.
fn corners_of(bbox: &Bbox) -> (r: Option<(Coord, Coord)>)
    ensures
        r == corners(*bbox),
{
    if bbox.is_empty() {
        None
    } else {
        Some((Coord { x: bbox.minx, y: bbox.miny }, Coord { x: bbox.maxx, y: bbox.maxy }))
    }
}

/// `ST_Envelope`. The bounding box of every row, as a box column.
///
/// A box column is already its own envelope, so that case is handed straight back.
pub fn st_envelope(array: &Column, output: &DataType) -> (r: Result<Column, Error>)
    requires
        array.wf(),
        output@ == DataTypeView::separated(Kind::Rect, Dimension::XY, output@.metadata),
    ensures
        array@.body is Rect ==> r is Ok && r->Ok_0@ == array@,
        !(array@.body is Rect) ==> match r {
            Ok(out) => {
                &&& !array@.has_broken(array.rows())
                &&& out@.data_type() == output@
                &&& are_boxes(
                    out@,
                    Seq::new(array.rows() as nat, |i: int| envelope_at(array@, i)),
                )
            },
            Err(error) => array@.has_broken(array.rows()) && error == Error::Undecodable,
        },
{
    if let Body::Rect { .. } = &array.body {
        return Ok(array.copy());
    }
    let rows: usize = array.len();
    let mut boxes: Vec<Bbox> = Vec::new();
    match fill_bboxes(array, &mut boxes) {
        Ok(()) => {},
        Err(error) => {
            return Err(error);
        },
    }
    let mut out: Vec<Option<(Coord, Coord)>> = Vec::new();
    let mut i: usize = 0;
    while i < rows
        invariant
            i <= rows,
            array.wf(),
            rows == array.rows(),
            boxes@ == Seq::new(rows as nat, |i: int| box_at(array@, i)),
            out@.len() == i,
            forall|j: int| 0 <= j < i ==> #[trigger] out@[j] == envelope_at(array@, j),
        decreases rows - i,
    {
        if array.null_at(i) {
            out.push(None);
        } else {
            out.push(corners_of(&boxes[i]));
        }
        i = i + 1;
    }
    assert(out@ =~= Seq::new(array.rows() as nat, |i: int| envelope_at(array@, i)));
    Ok(box_column(&out, output.metadata.copy()))
}

/// The distance that a row is expanded by. One value may stand for every row.
pub open spec fn distance_at(distance: Seq<Option<u64>>, rows: int, i: int) -> Option<u64> {
    let at = slot(distance.len() as int, rows, i);
    if at < distance.len() {
        distance[at]
    } else {
        None
    }
}

/// True when `out` is the expanded box of a row.
pub open spec fn is_expanded_row<M: Fn(u64, u64) -> u64, P: Fn(u64, u64) -> u64>(
    array: ColumnView,
    distance: Seq<Option<u64>>,
    minus: M,
    plus: P,
    i: int,
    out: Option<(Coord, Coord)>,
) -> bool {
    if array.is_null(i) {
        out is None
    } else {
        match distance_at(distance, array.rows(), i) {
            Some(d) => exists|bbox: Bbox| #[trigger]
                box_at(array, i).is_expanded(d, minus, plus, bbox) && out == corners(bbox),
            None => out is None,
        }
    }
}

/// `ST_Expand`. Grow every bounding box by a distance on all sides.
///
/// A null distance makes the row null, on top of any null geometry. So does a list of distances
/// that ends early.
pub fn st_expand<M: Fn(u64, u64) -> u64, P: Fn(u64, u64) -> u64>(
    array: &Column,
    distance: &Vec<Option<u64>>,
    output: &DataType,
    minus: &M,
    plus: &P,
) -> (r: Result<Column, Error>)
    requires
        array.wf(),
        output@ == DataTypeView::separated(Kind::Rect, Dimension::XY, output@.metadata),
        forall|a: u64, b: u64| #[trigger] minus.requires((a, b)),
        forall|a: u64, b: u64| #[trigger] plus.requires((a, b)),
    ensures
        match r {
            Ok(out) => {
                &&& !array@.has_broken(array.rows())
                &&& out@.data_type() == output@
                &&& exists|rows: Seq<Option<(Coord, Coord)>>|
                    {
                        &&& #[trigger] are_boxes(out@, rows)
                        &&& forall|i: int|
                            0 <= i < array.rows() ==> is_expanded_row(
                                array@,
                                distance@,
                                *minus,
                                *plus,
                                i,
                                #[trigger] rows[i],
                            )
                        &&& rows.len() == array.rows()
                    }
            },
            Err(error) => array@.has_broken(array.rows()) && error == Error::Undecodable,
        },
{
    let rows: usize = array.len();
    let mut boxes: Vec<Bbox> = Vec::new();
    match fill_bboxes(array, &mut boxes) {
        Ok(()) => {},
        Err(error) => {
            return Err(error);
        },
    }
    let broadcast = distance.len() == 1 && rows != 1;
    let mut out: Vec<Option<(Coord, Coord)>> = Vec::new();
    let mut i: usize = 0;
    while i < rows
        invariant
            i <= rows,
            array.wf(),
            rows == array.rows(),
            broadcast == (distance@.len() == 1 && rows != 1),
            forall|a: u64, b: u64| #[trigger] minus.requires((a, b)),
            forall|a: u64, b: u64| #[trigger] plus.requires((a, b)),
            boxes@ == Seq::new(rows as nat, |i: int| box_at(array@, i)),
            out@.len() == i,
            forall|j: int|
                0 <= j < i ==> is_expanded_row(
                    array@,
                    distance@,
                    *minus,
                    *plus,
                    j,
                    #[trigger] out@[j],
                ),
        decreases rows - i,
    {
        let at: usize = if broadcast {
            0
        } else {
            i
        };
        let by: Option<u64> = if at < distance.len() {
            distance[at]
        } else {
            None
        };
        let row: Option<(Coord, Coord)> = if array.null_at(i) {
            None
        } else {
            match by {
                Some(d) => {
                    let bbox = boxes[i].expand(d, minus, plus);
                    assert(box_at(array@, i as int).is_expanded(d, *minus, *plus, bbox));
                    corners_of(&bbox)
                },
                None => None,
            }
        };
        out.push(row);
        i = i + 1;
    }
    let r = box_column(&out, output.metadata.copy());
    assert(are_boxes(r@, out@));
    Ok(r)
}

/// `ST_BBoxIntersects`, the PostGIS `&&` operator.
///
/// This is the bounding box test on its own, with no exact geometry work at all. It is what every
/// predicate in [`crate::predicate`] runs first, exposed so a query can ask for just that.
pub fn st_bbox_intersects(left: &Column, right: &Column) -> (r: Result<Vec<Option<bool>>, Error>)
    requires
        left.wf(),
        right.wf(),
    ensures
        is_boxes_read(left@, right@, "ST_BBoxIntersects"@, r),
        r matches Ok(out) ==> forall|i: int|
            0 <= i < out@.len() ==> #[trigger] out@[i] == ({
                let a = slot(left.rows(), out@.len() as int, i);
                let b = slot(right.rows(), out@.len() as int, i);
                if left.is_null(a) || right.is_null(b) {
                    None
                } else {
                    Some(box_at(left@, a).meets(box_at(right@, b)))
                }
            }),
{
    let len: usize = match broadcast_len("ST_BBoxIntersects", left, right) {
        Ok(len) => len,
        Err(error) => {
            return Err(error);
        },
    };
    let mut left_boxes: Vec<Bbox> = Vec::new();
    let mut right_boxes: Vec<Bbox> = Vec::new();
    match fill_bboxes(left, &mut left_boxes) {
        Ok(()) => {},
        Err(error) => {
            return Err(error);
        },
    }
    match fill_bboxes(right, &mut right_boxes) {
        Ok(()) => {},
        Err(error) => {
            return Err(error);
        },
    }
    let ghost l = left.rows();
    let ghost r = right.rows();
    let mut out: Vec<Option<bool>> = Vec::new();
    let mut i: usize = 0;
    while i < len
        invariant
            i <= len,
            left.wf(),
            right.wf(),
            l == left.rows(),
            r == right.rows(),
            lengths_fit(l, r, len as int),
            left_boxes@ == Seq::new(l as nat, |i: int| box_at(left@, i)),
            right_boxes@ == Seq::new(r as nat, |i: int| box_at(right@, i)),
            out@.len() == i,
            forall|j: int|
                0 <= j < i ==> #[trigger] out@[j] == ({
                    let a = slot(l, len as int, j);
                    let b = slot(r, len as int, j);
                    if left.is_null(a) || right.is_null(b) {
                        None
                    } else {
                        Some(box_at(left@, a).meets(box_at(right@, b)))
                    }
                }),
        decreases len - i,
    {
        if side_null(left, len, i) || side_null(right, len, i) {
            out.push(None);
        } else {
            let lhs: usize = if left_boxes.len() == 1 && len != 1 {
                0
            } else {
                i
            };
            let rhs: usize = if right_boxes.len() == 1 && len != 1 {
                0
            } else {
                i
            };
            out.push(Some(left_boxes[lhs].intersects(&right_boxes[rhs])));
        }
        i = i + 1;
    }
    Ok(out)
}

// ------------------------------------------------------------------------ laws
/// The bounds of an envelope are the bounds of the row that it is the envelope of.
pub proof fn law_an_envelope_keeps_the_bounds(
    array: ColumnView,
    envelope: ColumnView,
    which: Bound,
    i: int,
)
    requires
        !(array.body is Rect),
        0 <= i < array.rows(),
        are_boxes(envelope, Seq::new(array.rows() as nat, |i: int| envelope_at(array, i))),
        which.axis() != 2,
        !array.is_null(i),
        !box_at(array, i).is_void(),
    ensures
        bound_at(envelope, which, i) == bound_at(array, which, i),
{
    assert(box_corners(envelope, i) == envelope_at(array, i));
}

} // verus!
