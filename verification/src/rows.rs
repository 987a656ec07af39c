//! Row by row.
//!
//! Most kernels answer every row on its own: nothing for a null, else what one function of the
//! geometry gives. The loops below are that shape.

use vstd::prelude::*;
use crate::column::{Column, ColumnView};
use crate::error::Error;
use crate::geometry::{Geometry, GeometryView};
use crate::materialize::GeometryReader;

verus! {

/// True when `out` is what `f` gives for each stored value, and nothing for each null.
pub open spec fn are_raw_answers<T, F: Fn(&Geometry) -> Option<T>>(
    array: ColumnView,
    f: F,
    out: Seq<Option<T>>,
) -> bool {
    &&& out.len() == array.rows()
    &&& forall|i: int|
        0 <= i < out.len() ==> is_answer(array.raw(i), f, #[trigger] out[i])
}

/// True when `out` is what `f` gives for each geometry, and nothing for each null.
pub open spec fn are_answers<T, F: Fn(&Geometry) -> Option<T>>(
    array: ColumnView,
    f: F,
    out: Seq<Option<T>>,
) -> bool {
    &&& out.len() == array.rows()
    &&& forall|i: int|
        0 <= i < out.len() ==> is_answer(array.geometry(i), f, #[trigger] out[i])
}

/// True when `out` is what `f` gives for the value, or nothing where there is none.
pub open spec fn is_answer<T, F: Fn(&Geometry) -> Option<T>>(
    value: Option<GeometryView>,
    f: F,
    out: Option<T>,
) -> bool {
    match value {
        Some(view) => exists|geom: Geometry| #[trigger] geom@ == view && f.ensures((&geom,), out),
        None => out is None,
    }
}

/// Ask `f` for every value as it is stored.
pub fn map_raw<T, F: Fn(&Geometry) -> Option<T>>(array: &Column, f: &F) -> (r: Result<
    Vec<Option<T>>,
    Error,
>)
    requires
        array.wf(),
        forall|geom: &Geometry| #[trigger] f.requires((geom,)),
    ensures
        match r {
            Ok(out) => !array@.has_broken(array.rows()) && are_raw_answers(array@, *f, out@),
            Err(error) => array@.has_broken(array.rows()) && error == Error::Undecodable,
        },
{
    let rows: usize = array.len();
    let mut out: Vec<Option<T>> = Vec::new();
    let mut i: usize = 0;
    while i < rows
        invariant
            i <= rows,
            array.wf(),
            rows == array.rows(),
            forall|geom: &Geometry| #[trigger] f.requires((geom,)),
            out@.len() == i,
            forall|j: int|
                0 <= j < i ==> is_answer(array@.raw(j), *f, #[trigger] out@[j])
                    && !array@.is_broken(j),
        decreases rows - i,
    {
        if array.null_at(i) {
            out.push(None);
        } else {
            match array.raw_geometry(i) {
                Some(geom) => {
                    let answer = f(&geom);
                    assert(geom@ == array@.raw(i as int)->0 && f.ensures((&geom,), answer));
                    out.push(answer);
                },
                None => {
                    assert(array@.is_broken(i as int));
                    return Err(Error::Undecodable);
                },
            }
        }
        i = i + 1;
    }
    proof {
        assert forall|j: int| 0 <= j < rows implies !#[trigger] array@.is_broken(j) by {
            assert(is_answer(array@.raw(j), *f, out@[j]));
        }
    }
    Ok(out)
}

/// Ask `f` for every geometry.
pub fn map_geometries<T, F: Fn(&Geometry) -> Option<T>>(array: &Column, f: &F) -> (r: Result<
    Vec<Option<T>>,
    Error,
>)
    requires
        array.wf(),
        forall|geom: &Geometry| #[trigger] f.requires((geom,)),
    ensures
        match r {
            Ok(out) => !array@.has_broken(array.rows()) && are_answers(array@, *f, out@),
            Err(error) => array@.has_broken(array.rows()) && error == Error::Undecodable,
        },
{
    let rows: usize = array.len();
    let mut reader = GeometryReader::new(array);
    let mut out: Vec<Option<T>> = Vec::new();
    let mut i: usize = 0;
    while i < rows
        invariant
            i <= rows,
            array.wf(),
            rows == array.rows(),
            reader.source() == *array,
            forall|geom: &Geometry| #[trigger] f.requires((geom,)),
            out@.len() == i,
            forall|j: int|
                0 <= j < i ==> is_answer(array@.geometry(j), *f, #[trigger] out@[j])
                    && !array@.is_broken(j),
        decreases rows - i,
    {
        match reader.read(i) {
            Ok(Some(geom)) => {
                let answer = f(geom);
                assert(geom@ == array@.geometry(i as int)->0 && f.ensures((geom,), answer));
                out.push(answer);
            },
            Ok(None) => {
                out.push(None);
            },
            Err(error) => {
                assert(array@.is_broken(i as int));
                return Err(error);
            },
        }
        i = i + 1;
    }
    proof {
        assert forall|j: int| 0 <= j < rows implies !#[trigger] array@.is_broken(j) by {
            assert(is_answer(array@.geometry(j), *f, out@[j]));
        }
    }
    Ok(out)
}

} // verus!
