//! Two columns side by side.
//!
//! A constant argument arrives as a column of length one. It is built once and lent to every row.

use vstd::prelude::*;
use crate::column::{Column, ColumnView};
use crate::error::Error;
use crate::geometry::{Geometry, GeometryView};
use crate::materialize::GeometryReader;

verus! {

/// The row count of a binary call. One side may hold a single value for every row.
pub open spec fn pair_len(left: int, right: int) -> Option<int> {
    if left == right {
        Some(left)
    } else if left == 1 {
        Some(right)
    } else if right == 1 {
        Some(left)
    } else {
        None
    }
}

/// True when a side of `own` rows holds one value for each of `rows` rows.
pub open spec fn is_constant(own: int, rows: int) -> bool {
    own == 1 && rows != 1
}

/// The row of a side that answers row `i`.
pub open spec fn slot(own: int, rows: int, i: int) -> int {
    if is_constant(own, rows) {
        0
    } else {
        i
    }
}

/// True when two sides make `rows` rows.
pub open spec fn lengths_fit(left: int, right: int, rows: int) -> bool {
    pair_len(left, right) == Some(rows)
}

/// True when a row that is read before row `end` has a value that could not be decoded.
///
/// A constant side is read first, whatever the number of rows.
pub open spec fn has_pair_broken(left: ColumnView, right: ColumnView, rows: int, end: int) -> bool {
    ||| is_constant(left.rows(), rows) && left.is_broken(0)
    ||| is_constant(right.rows(), rows) && right.is_broken(0)
    ||| exists|i: int| 0 <= i < end && #[trigger] is_pair_broken(left, right, rows, i)
}

/// True when one side of a row has a value that could not be decoded.
pub open spec fn is_pair_broken(left: ColumnView, right: ColumnView, rows: int, i: int) -> bool {
    left.is_broken(slot(left.rows(), rows, i)) || right.is_broken(slot(right.rows(), rows, i))
}

/// No row that is read before row `end` has a value that could not be decoded.
pub open spec fn no_pair_broken(left: ColumnView, right: ColumnView, rows: int, end: int) -> bool {
    !has_pair_broken(left, right, rows, end)
}

/// When a kernel over two columns gives a value per row, and when it fails.
pub open spec fn is_pair_read<T>(
    left: ColumnView,
    right: ColumnView,
    function: Seq<char>,
    r: Result<Vec<T>, Error>,
) -> bool {
    match r {
        Ok(out) => {
            &&& lengths_fit(left.rows(), right.rows(), out@.len() as int)
            &&& no_pair_broken(left, right, out@.len() as int, out@.len() as int)
        },
        Err(Error::UnequalLengths { function: name, left: a, right: b }) => {
            &&& pair_len(left.rows(), right.rows()) is None
            &&& name@ == function
            &&& a == left.rows()
            &&& b == right.rows()
        },
        Err(Error::Undecodable) => match pair_len(left.rows(), right.rows()) {
            Some(rows) => has_pair_broken(left, right, rows, rows),
            None => false,
        },
        Err(_) => false,
    }
}

/// The row count of a binary call. One side may hold a single value for every row.
pub fn broadcast_len(function: &'static str, left: &Column, right: &Column) -> (r: Result<
    usize,
    Error,
>)
    requires
        left.wf(),
        right.wf(),
    ensures
        match r {
            Ok(rows) => lengths_fit(left.rows(), right.rows(), rows as int),
            Err(error) => pair_len(left.rows(), right.rows()) is None && error
                == (Error::UnequalLengths {
                function,
                left: left.rows() as usize,
                right: right.rows() as usize,
            }) && error->UnequalLengths_left == left.rows() && error->UnequalLengths_right
                == right.rows(),
        },
{
    let a: usize = left.len();
    let b: usize = right.len();
    if a == b {
        Ok(a)
    } else if a == 1 {
        Ok(b)
    } else if b == 1 {
        Ok(a)
    } else {
        Err(Error::UnequalLengths { function, left: a, right: b })
    }
}

/// True when a side makes a row null.
pub open spec fn is_side_null(array: ColumnView, rows: int, i: int) -> bool {
    if is_constant(array.rows(), rows) {
        array.is_null(0)
    } else if array.rows() == rows {
        array.is_null(i)
    } else {
        false
    }
}

/// True when a side makes a row null.
pub fn side_null(array: &Column, rows: usize, i: usize) -> (r: bool)
    requires
        array.wf(),
        i < rows,
    ensures
        r == is_side_null(array@, rows as int, i as int),
{
    let own: usize = array.len();
    if own == 1 && rows != 1 {
        array.null_at(0)
    } else if own == rows {
        array.null_at(i)
    } else {
        false
    }
}

/// Which rows of a binary call have a value. A constant side that is null makes every row null.
pub fn broadcast_nulls(left: &Column, right: &Column, rows: usize) -> (r: Vec<bool>)
    requires
        left.wf(),
        right.wf(),
    ensures
        r@ == Seq::new(
            rows as nat,
            |i: int|
                !is_side_null(left@, rows as int, i) && !is_side_null(right@, rows as int, i),
        ),
{
    let mut out: Vec<bool> = Vec::new();
    let mut i: usize = 0;
    while i < rows
        invariant
            i <= rows,
            left.wf(),
            right.wf(),
            out@ == Seq::new(
                i as nat,
                |i: int|
                    !is_side_null(left@, rows as int, i) && !is_side_null(right@, rows as int, i),
            ),
        decreases rows - i,
    {
        let valid = !side_null(left, rows, i) && !side_null(right, rows, i);
        out.push(valid);
        assert(out@ =~= Seq::new(
            (i + 1) as nat,
            |i: int|
                !is_side_null(left@, rows as int, i) && !is_side_null(right@, rows as int, i),
        ));
        i = i + 1;
    }
    out
}

/// One side of a binary function, which may be a column or a single broadcast value.
///
/// A column side reuses one geometry across every row.
#[derive(Debug)]
pub struct Operand<'a> {
    reader: GeometryReader<'a>,
    /// `Some` when this side is one value shared by every row.
    constant: Option<Option<Geometry>>,
    rows: usize,
}

impl<'a> Operand<'a> {
    /// The operand reads `rows` rows out of the column.
    pub closed spec fn is_over(self, array: Column, rows: int) -> bool {
        &&& array.wf()
        &&& self.reader.source() == array
        &&& self.rows == rows
        &&& array.rows() == 1 || array.rows() == rows
        &&& match self.constant {
            Some(value) => {
                &&& is_constant(array.rows(), rows)
                &&& !array@.is_broken(0)
                &&& array@.geometry(0) == match value {
                    Some(geom) => Some(geom@),
                    None => None,
                }
            },
            None => array.rows() == rows,
        }
    }

    /// Read a side of a call of `rows` rows.
    pub fn new(array: &'a Column, rows: usize) -> (r: Result<Operand<'a>, Error>)
        requires
            array.wf(),
            array.rows() == 1 || array.rows() == rows,
        ensures
            match r {
                Ok(operand) => operand.is_over(*array, rows as int) && !(is_constant(
                    array.rows(),
                    rows as int,
                ) && array@.is_broken(0)),
                Err(error) => is_constant(array.rows(), rows as int) && array@.is_broken(0)
                    && error == Error::Undecodable,
            },
    {
        let reader = GeometryReader::new(array);
        let constant = if array.len() == 1 && rows != 1 {
            match array.geometry_at(0) {
                Ok(value) => Some(value),
                Err(error) => {
                    return Err(error);
                },
            }
        } else {
            None
        };
        Ok(Operand { reader, constant, rows })
    }

    /// The geometry of one row. The reference is valid until the next call.
    pub fn get(&mut self, index: usize, Ghost(array): Ghost<Column>, Ghost(rows): Ghost<int>) -> (r:
        Result<Option<&Geometry>, Error>)
        requires
            old(self).is_over(array, rows),
            index < rows,
        ensures
            final(self).is_over(array, rows),
            ({
                let at = slot(array.rows(), rows, index as int);
                match r {
                    Ok(Some(geom)) => !array@.is_broken(at) && array@.geometry(at) == Some(geom@),
                    Ok(None) => array.is_null(at) && array@.geometry(at) is None,
                    Err(error) => array@.is_broken(at) && error == Error::Undecodable,
                }
            }),
    {
        match &self.constant {
            Some(value) => match value {
                Some(geom) => Ok(Some(geom)),
                None => Ok(None),
            },
            None => self.reader.read(index),
        }
    }
}

/// True when `out` is what `f` gives for a pair, or nothing where a side has no geometry.
pub open spec fn is_pair_answer<T, F: Fn(&Geometry, &Geometry) -> Option<T>>(
    left: Option<GeometryView>,
    right: Option<GeometryView>,
    f: F,
    out: Option<T>,
) -> bool {
    match (left, right) {
        (Some(a), Some(b)) => exists|lhs: Geometry, rhs: Geometry|
            {
                &&& #[trigger] lhs@ == a
                &&& #[trigger] rhs@ == b
                &&& f.ensures((&lhs, &rhs), out)
            },
        _ => out is None,
    }
}

/// Ask `f` for every pair of geometries.
pub fn map_pairs<T, F: Fn(&Geometry, &Geometry) -> Option<T>>(
    function: &'static str,
    left: &Column,
    right: &Column,
    f: &F,
) -> (r: Result<Vec<Option<T>>, Error>)
    requires
        left.wf(),
        right.wf(),
        forall|a: &Geometry, b: &Geometry| #[trigger] f.requires((a, b)),
    ensures
        is_pair_read(left@, right@, function@, r),
        r matches Ok(out) ==> forall|i: int|
            0 <= i < out@.len() ==> is_pair_answer(
                left@.geometry(slot(left.rows(), out@.len() as int, i)),
                right@.geometry(slot(right.rows(), out@.len() as int, i)),
                *f,
                #[trigger] out@[i],
            ),
{
    let len: usize = match broadcast_len(function, left, right) {
        Ok(len) => len,
        Err(error) => {
            return Err(error);
        },
    };
    let mut left_geom = match Operand::new(left, len) {
        Ok(operand) => operand,
        Err(error) => {
            return Err(error);
        },
    };
    let mut right_geom = match Operand::new(right, len) {
        Ok(operand) => operand,
        Err(error) => {
            return Err(error);
        },
    };
    let mut out: Vec<Option<T>> = Vec::new();
    let mut i: usize = 0;
    while i < len
        invariant
            i <= len,
            left_geom.is_over(*left, len as int),
            right_geom.is_over(*right, len as int),
            forall|a: &Geometry, b: &Geometry| #[trigger] f.requires((a, b)),
            no_pair_broken(left@, right@, len as int, i as int),
            lengths_fit(left.rows(), right.rows(), len as int),
            out@.len() == i,
            forall|j: int|
                0 <= j < i ==> is_pair_answer(
                    left@.geometry(slot(left.rows(), len as int, j)),
                    right@.geometry(slot(right.rows(), len as int, j)),
                    *f,
                    #[trigger] out@[j],
                ),
        decreases len - i,
    {
        let lhs = match left_geom.get(i, Ghost(*left), Ghost(len as int)) {
            Ok(value) => value,
            Err(error) => {
                assert(is_pair_broken(left@, right@, len as int, i as int));
                return Err(error);
            },
        };
        let rhs = match right_geom.get(i, Ghost(*right), Ghost(len as int)) {
            Ok(value) => value,
            Err(error) => {
                assert(is_pair_broken(left@, right@, len as int, i as int));
                return Err(error);
            },
        };
        let answer: Option<T> = match (lhs, rhs) {
            (Some(a), Some(b)) => {
                let answer = f(a, b);
                assert(f.ensures((a, b), answer));
                answer
            },
            _ => None,
        };
        out.push(answer);
        i = i + 1;
    }
    Ok(out)
}

} // verus!
