//! Coordinate transforms that keep the geometry structure.
//!
//! `ST_FlipCoordinates`, `ST_Force2D` and `ST_Force3D` change coordinates. They never change the
//! ring structure of a geometry. The offsets stay valid, so the output takes them over.
//!
//! A native column is a coordinate buffer plus offset buffers. A transform rebuilds the column
//! around a new coordinate buffer and keeps the offsets.

use vstd::prelude::*;
use vstd::arithmetic::div_mod::lemma_fundamental_div_mod_converse;
use crate::accessor::Ordinate;
use crate::column::{
    copy_offsets, copy_validity, copy_words, lemma_slots, separated_view, Body, BodyView, Column,
    ColumnView, CoordBuffer, CoordBufferView, DataType, Dimension, InterleavedCoordBuffer,
    SeparatedCoordBuffer,
};
use crate::error::Error;
use crate::materialize::run_of;
use crate::number;

verus! {

// ----------------------------------------------------------------------- grids
/// `n` rows of `w` values, row by row.
pub open spec fn grid(n: int, w: int, f: spec_fn(int, int) -> u64) -> Seq<u64> {
    Seq::new((n * w) as nat, |j: int| f(j / w, j % w))
}

/// One more row of a grid.
pub proof fn lemma_grid_row(n: int, w: int, f: spec_fn(int, int) -> u64)
    requires
        n >= 0,
        w > 0,
    ensures
        grid(n + 1, w, f) == grid(n, w, f) + Seq::new(w as nat, |k: int| f(n, k)),
{
    assert((n + 1) * w == n * w + w) by (nonlinear_arith);
    assert(n * w >= 0) by (nonlinear_arith)
        requires
            n >= 0,
            w > 0,
    ;
    let more = grid(n, w, f) + Seq::new(w as nat, |k: int| f(n, k));
    assert forall|j: int| 0 <= j < (n + 1) * w implies grid(n + 1, w, f)[j] == #[trigger] more[j] by {
        if j >= n * w {
            lemma_fundamental_div_mod_converse(j, w, n, j - n * w);
        }
    }
    assert(grid(n + 1, w, f) =~= more);
}

/// The value in a row and a column of a grid.
pub proof fn lemma_grid_at(n: int, w: int, f: spec_fn(int, int) -> u64, i: int, k: int)
    requires
        0 <= i < n,
        0 <= k < w,
    ensures
        0 <= i * w + k < grid(n, w, f).len(),
        grid(n, w, f).len() == n * w,
        grid(n, w, f)[i * w + k] == f(i, k),
{
    assert(i * w + w <= n * w) by (nonlinear_arith)
        requires
            0 <= i < n,
            0 < w,
    ;
    assert(i * w >= 0) by (nonlinear_arith)
        requires
            i >= 0,
            w > 0,
    ;
    lemma_fundamental_div_mod_converse(i * w + k, w, i, k);
}

/// A grid has as many rows as it was made with.
pub proof fn lemma_grid_len(n: int, w: int, f: spec_fn(int, int) -> u64)
    requires
        n >= 0,
        w > 0,
    ensures
        grid(n, w, f).len() == n * w,
        grid(n, w, f).len() as int / w == n,
        grid(n, w, f).len() as int % w == 0,
{
    assert(n * w >= 0) by (nonlinear_arith)
        requires
            n >= 0,
            w > 0,
    ;
    lemma_fundamental_div_mod_converse(n * w, w, n, 0);
}

// ----------------------------------------------------------------------- flips
/// The slot that a flip reads for a slot: x and y change places.
pub open spec fn flipped_slot(k: int) -> int {
    if k == 0 {
        1
    } else if k == 1 {
        0
    } else {
        k
    }
}

/// The buffer with x and y swapped in every coordinate.
pub open spec fn flipped(coords: CoordBufferView) -> CoordBufferView {
    match coords {
        CoordBufferView::Separated(b, dim) => CoordBufferView::Separated(
            seq![b[1], b[0], b[2], b[3]],
            dim,
        ),
        CoordBufferView::Interleaved(values, dim) => CoordBufferView::Interleaved(
            grid(
                coords.len(),
                dim.count(),
                |i: int, k: int| values[i * dim.count() + flipped_slot(k)],
            ),
            dim,
        ),
    }
}

/// Swap the x and y of every coordinate.
pub fn flip(coords: &CoordBuffer) -> (r: CoordBuffer)
    requires
        coords@.wf(),
    ensures
        r@ == flipped(coords@),
{
    match coords {
        CoordBuffer::Separated(separated) => {
            let buffers = [
                copy_words(&separated.buffers[1]),
                copy_words(&separated.buffers[0]),
                copy_words(&separated.buffers[2]),
                copy_words(&separated.buffers[3]),
            ];
            let r = CoordBuffer::Separated(SeparatedCoordBuffer { buffers, dim: separated.dim });
            assert(r@->Separated_0 =~= flipped(coords@)->Separated_0);
            r
        },
        CoordBuffer::Interleaved(interleaved) => {
            // xyxy in one buffer. Every coordinate must be rewritten.
            let dim = interleaved.dim;
            let stride: usize = dim.size();
            let source = &interleaved.coords;
            let n: usize = coords.len();
            let ghost f = |i: int, k: int| source@[i * dim.count() + flipped_slot(k)];
            let mut values: Vec<u64> = Vec::new();
            let mut i: usize = 0;
            assert(values@ =~= grid(0, dim.count(), f));
            while i < n
                invariant
                    i <= n,
                    n == source@.len() as int / dim.count(),
                    stride == dim.count(),
                    source@.len() as int % dim.count() == 0,
                    f == (|i: int, k: int| source@[i * dim.count() + flipped_slot(k)]),
                    values@ == grid(i as int, dim.count(), f),
                decreases n - i,
            {
                proof {
                    lemma_slots(source@, dim, i as int, 1);
                }
                let total: usize = source.len();
                let base: usize = i * stride;
                let ghost before = values@;
                values.push(source[base + 1]);
                values.push(source[base]);
                let mut k: usize = 2;
                assert(values@ =~= before + Seq::new(2, |k: int| f(i as int, k)));
                while k < stride
                    invariant
                        2 <= k <= stride,
                        stride == dim.count(),
                        base == i * stride,
                        base + stride <= total,
                        total == source@.len(),
                        f == (|i: int, k: int| source@[i * dim.count() + flipped_slot(k)]),
                        values@ == before + Seq::new(k as nat, |k: int| f(i as int, k)),
                    decreases stride - k,
                {
                    values.push(source[base + k]);
                    assert(values@ =~= before + Seq::new(
                        (k + 1) as nat,
                        |k: int| f(i as int, k),
                    ));
                    k = k + 1;
                }
                proof {
                    lemma_grid_row(i as int, dim.count(), f);
                }
                i = i + 1;
            }
            CoordBuffer::Interleaved(InterleavedCoordBuffer { coords: values, dim })
        },
    }
}

// --------------------------------------------------------------------- resizes
/// Which ordinate a slot holds.
pub open spec fn slot_ordinate(dim: Dimension, k: int) -> Ordinate {
    if k == 0 {
        Ordinate::X
    } else if k == 1 {
        Ordinate::Y
    } else if k == 2 && dim != Dimension::XYM {
        Ordinate::Z
    } else {
        Ordinate::M
    }
}

/// The slot of a source coordinate that a slot of a target coordinate keeps.
pub open spec fn kept_slot(source: Dimension, target: Dimension, k: int) -> Option<int> {
    slot_ordinate(target, k).slot(source)
}

/// One ordinate after a change of dimension. A new ordinate takes the value zero.
pub open spec fn resized_ordinate(coords: CoordBufferView, target: Dimension, i: int, k: int) -> u64 {
    match kept_slot(coords.dim(), target, k) {
        Some(s) => coords.ordinate(i, s),
        None => number::ZERO,
    }
}

/// The buffer with another dimension. Each ordinate that the target has too is kept.
pub open spec fn resized(coords: CoordBufferView, target: Dimension) -> CoordBufferView {
    match coords {
        CoordBufferView::Separated(b, source) => CoordBufferView::Separated(
            Seq::new(
                4,
                |k: int|
                    if k < target.count() {
                        match kept_slot(source, target, k) {
                            Some(s) => b[s],
                            None => Seq::new(coords.len() as nat, |i: int| number::ZERO),
                        }
                    } else {
                        Seq::empty()
                    },
            ),
            target,
        ),
        CoordBufferView::Interleaved(values, source) => CoordBufferView::Interleaved(
            grid(
                coords.len(),
                target.count(),
                |i: int, k: int| resized_ordinate(coords, target, i, k),
            ),
            target,
        ),
    }
}

/// The slot of a source coordinate that a slot of a target coordinate keeps.
fn kept(source: Dimension, target: Dimension, k: usize) -> (r: Option<usize>)
    ensures
        match r {
            Some(s) => kept_slot(source, target, k as int) == Some(s as int) && s
                < source.count(),
            None => kept_slot(source, target, k as int) is None,
        },
{
    let ordinate = if k == 0 {
        Ordinate::X
    } else if k == 1 {
        Ordinate::Y
    } else if k == 2 && target != Dimension::XYM {
        Ordinate::Z
    } else {
        Ordinate::M
    };
    ordinate.index_in(source)
}

/// A buffer of zeros.
fn zeros(len: usize) -> (r: Vec<u64>)
    ensures
        r@ == Seq::new(len as nat, |i: int| number::ZERO),
{
    let mut out: Vec<u64> = Vec::new();
    let mut i: usize = 0;
    while i < len
        invariant
            i <= len,
            out@ == Seq::new(i as nat, |i: int| number::ZERO),
        decreases len - i,
    {
        out.push(number::ZERO);
        assert(out@ =~= Seq::new((i + 1) as nat, |i: int| number::ZERO));
        i = i + 1;
    }
    assert(out@ =~= Seq::new(len as nat, |i: int| number::ZERO));
    out
}

/// One buffer of a resized coordinate buffer.
fn resized_buffer(separated: &SeparatedCoordBuffer, target: Dimension, k: usize) -> (r: Vec<u64>)
    requires
        k < 4,
        separated_view(*separated).wf(),
    ensures
        r@ == resized(separated_view(*separated), target)->Separated_0[k as int],
{
    if k < target.size() {
        match kept(separated.dim, target, k) {
            Some(s) => copy_words(&separated.buffers[s]),
            None => zeros(separated.len()),
        }
    } else {
        let empty: Vec<u64> = Vec::new();
        assert(empty@ =~= Seq::<u64>::empty());
        empty
    }
}

/// Change the dimension of a coordinate buffer. A new ordinate takes the value zero.
pub fn resize(coords: &CoordBuffer, target: Dimension) -> (r: CoordBuffer)
    requires
        coords@.wf(),
    ensures
        r@ == resized(coords@, target),
{
    match coords {
        CoordBuffer::Separated(separated) => {
            let buffers = [
                resized_buffer(separated, target, 0),
                resized_buffer(separated, target, 1),
                resized_buffer(separated, target, 2),
                resized_buffer(separated, target, 3),
            ];
            let r = CoordBuffer::Separated(SeparatedCoordBuffer { buffers, dim: target });
            assert(r@->Separated_0 =~= resized(coords@, target)->Separated_0);
            r
        },
        CoordBuffer::Interleaved(interleaved) => {
            let stride: usize = target.size();
            let source = interleaved.dim;
            let n: usize = coords.len();
            let ghost f = |i: int, k: int| resized_ordinate(coords@, target, i, k);
            let mut values: Vec<u64> = Vec::new();
            let mut i: usize = 0;
            assert(values@ =~= grid(0, target.count(), f));
            while i < n
                invariant
                    i <= n,
                    n == coords@.len(),
                    coords@.wf(),
                    coords@.dim() == source,
                    stride == target.count(),
                    f == (|i: int, k: int| resized_ordinate(coords@, target, i, k)),
                    values@ == grid(i as int, target.count(), f),
                decreases n - i,
            {
                let ghost before = values@;
                let mut k: usize = 0;
                assert(values@ =~= before + Seq::new(0, |k: int| f(i as int, k)));
                while k < stride
                    invariant
                        k <= stride,
                        i < n,
                        n == coords@.len(),
                        coords@.wf(),
                        coords@.dim() == source,
                        stride == target.count(),
                        f == (|i: int, k: int| resized_ordinate(coords@, target, i, k)),
                        values@ == before + Seq::new(k as nat, |k: int| f(i as int, k)),
                    decreases stride - k,
                {
                    let value: u64 = match kept(source, target, k) {
                        Some(s) => coords.ordinate(i, s),
                        None => number::ZERO,
                    };
                    values.push(value);
                    assert(values@ =~= before + Seq::new(
                        (k + 1) as nat,
                        |k: int| f(i as int, k),
                    ));
                    k = k + 1;
                }
                proof {
                    lemma_grid_row(i as int, target.count(), f);
                }
                i = i + 1;
            }
            CoordBuffer::Interleaved(InterleavedCoordBuffer { coords: values, dim: target })
        },
    }
}

// --------------------------------------------------------------------- rebuilds
impl BodyView {
    /// The same rows around another coordinate buffer.
    pub open spec fn with_coords(self, new: CoordBufferView) -> BodyView {
        match self {
            BodyView::Point { .. } => BodyView::Point { coords: new },
            BodyView::LineString { geom_offsets, .. } => BodyView::LineString {
                coords: new,
                geom_offsets,
            },
            BodyView::Polygon { geom_offsets, ring_offsets, .. } => BodyView::Polygon {
                coords: new,
                geom_offsets,
                ring_offsets,
            },
            BodyView::MultiPoint { geom_offsets, .. } => BodyView::MultiPoint {
                coords: new,
                geom_offsets,
            },
            BodyView::MultiLineString { geom_offsets, ring_offsets, .. } => {
                BodyView::MultiLineString { coords: new, geom_offsets, ring_offsets }
            },
            BodyView::MultiPolygon { geom_offsets, polygon_offsets, ring_offsets, .. } => {
                BodyView::MultiPolygon { coords: new, geom_offsets, polygon_offsets, ring_offsets }
            },
            other => other,
        }
    }
}

impl ColumnView {
    /// The same column around another coordinate buffer.
    pub open spec fn with_coords(self, new: CoordBufferView) -> ColumnView {
        ColumnView { body: self.body.with_coords(new), ..self }
    }
}

/// Rebuild a column around a new coordinate buffer. Every offset buffer stays.
///
/// The offsets describe the structure, not the position. A coordinate transform leaves them valid.
pub fn map_coords<F: Fn(&CoordBuffer) -> Result<CoordBuffer, Error>>(
    function: &'static str,
    array: &Column,
    transform: &F,
) -> (r: Result<Column, Error>)
    requires
        array.wf(),
        forall|coords: &CoordBuffer| coords@.wf() ==> #[trigger] transform.requires((coords,)),
    ensures
        match array@.body.coords() {
            Some(view) => exists|coords: CoordBuffer, out: Result<CoordBuffer, Error>|
                {
                    &&& coords@ == view
                    &&& #[trigger] transform.ensures((&coords,), out)
                    &&& match (out, r) {
                        (Ok(new), Ok(column)) => column@ == array@.with_coords(new@),
                        (Err(a), Err(b)) => a == b,
                        _ => false,
                    }
                },
            None => r == Err::<Column, Error>(Error::NeedsNativeColumn { function }),
        },
{
    let body = match &array.body {
        Body::Point { coords } => match transform(coords) {
            Ok(new) => Body::Point { coords: new },
            Err(error) => {
                return Err(error);
            },
        },
        Body::LineString { coords, geom_offsets } => match transform(coords) {
            Ok(new) => Body::LineString { coords: new, geom_offsets: copy_offsets(geom_offsets) },
            Err(error) => {
                return Err(error);
            },
        },
        Body::Polygon { coords, geom_offsets, ring_offsets } => match transform(coords) {
            Ok(new) => Body::Polygon {
                coords: new,
                geom_offsets: copy_offsets(geom_offsets),
                ring_offsets: copy_offsets(ring_offsets),
            },
            Err(error) => {
                return Err(error);
            },
        },
        Body::MultiPoint { coords, geom_offsets } => match transform(coords) {
            Ok(new) => Body::MultiPoint { coords: new, geom_offsets: copy_offsets(geom_offsets) },
            Err(error) => {
                return Err(error);
            },
        },
        Body::MultiLineString { coords, geom_offsets, ring_offsets } => match transform(coords) {
            Ok(new) => Body::MultiLineString {
                coords: new,
                geom_offsets: copy_offsets(geom_offsets),
                ring_offsets: copy_offsets(ring_offsets),
            },
            Err(error) => {
                return Err(error);
            },
        },
        Body::MultiPolygon { coords, geom_offsets, polygon_offsets, ring_offsets } => {
            match transform(coords) {
                Ok(new) => Body::MultiPolygon {
                    coords: new,
                    geom_offsets: copy_offsets(geom_offsets),
                    polygon_offsets: copy_offsets(polygon_offsets),
                    ring_offsets: copy_offsets(ring_offsets),
                },
                Err(error) => {
                    return Err(error);
                },
            }
        },
        Body::Rect { .. } => {
            return Err(Error::NeedsNativeColumn { function });
        },
        Body::Rows { .. } => {
            return Err(Error::NeedsNativeColumn { function });
        },
    };
    Ok(
        Column {
            body,
            validity: copy_validity(&array.validity),
            metadata: array.metadata.copy(),
        },
    )
}

/// What a transform of the coordinates alone gives.
pub open spec fn is_rebuilt(
    array: ColumnView,
    function: Seq<char>,
    f: spec_fn(CoordBufferView) -> CoordBufferView,
    r: Result<Column, Error>,
) -> bool {
    match array.body.coords() {
        Some(coords) => r is Ok && r->Ok_0@ == array.with_coords(f(coords)),
        None => r is Err && r->Err_0 is NeedsNativeColumn && r->Err_0->NeedsNativeColumn_function@
            == function,
    }
}

/// `ST_FlipCoordinates`. Swap x and y in every coordinate.
pub fn st_flip_coordinates(array: &Column) -> (r: Result<Column, Error>)
    requires
        array.wf(),
    ensures
        is_rebuilt(
            array@,
            "ST_FlipCoordinates"@,
            |coords: CoordBufferView| flipped(coords),
            r,
        ),
{
    let f = |coords: &CoordBuffer| -> (out: Result<CoordBuffer, Error>)
        requires
            coords@.wf(),
        ensures
            out is Ok && out->Ok_0@ == flipped(coords@),
        { Ok(flip(coords)) };
    map_coords("ST_FlipCoordinates", array, &f)
}

/// What a change of dimension gives: the column itself where it has that dimension already.
pub open spec fn is_forced(
    array: ColumnView,
    function: Seq<char>,
    target: Dimension,
    r: Result<Column, Error>,
) -> bool {
    if array.body.dimension() == Some(target) {
        r is Ok && r->Ok_0@ == array
    } else {
        is_rebuilt(array, function, |coords: CoordBufferView| resized(coords, target), r)
    }
}

fn force_dimension(function: &'static str, array: &Column, target: Dimension) -> (r: Result<
    Column,
    Error,
>)
    requires
        array.wf(),
    ensures
        is_forced(array@, function@, target, r),
{
    match array.body.dimension() {
        None => Err(Error::NeedsNativeColumn { function }),
        Some(source) => {
            if source == target {
                // Nothing to do. Hand back the input untouched.
                return Ok(array.copy());
            }
            let f = |coords: &CoordBuffer| -> (out: Result<CoordBuffer, Error>)
                requires
                    coords@.wf(),
                ensures
                    out is Ok && out->Ok_0@ == resized(coords@, target),
                { Ok(resize(coords, target)) };
            map_coords(function, array, &f)
        },
    }
}

/// `ST_Force2D`. Drop the z and m ordinates.
pub fn st_force_2d(array: &Column) -> (r: Result<Column, Error>)
    requires
        array.wf(),
    ensures
        is_forced(array@, "ST_Force2D"@, Dimension::XY, r),
{
    force_dimension("ST_Force2D", array, Dimension::XY)
}

/// `ST_Force3D`. Add a z ordinate of zero where one is missing.
pub fn st_force_3d(array: &Column) -> (r: Result<Column, Error>)
    requires
        array.wf(),
    ensures
        is_forced(array@, "ST_Force3D"@, Dimension::XYZ, r),
{
    force_dimension("ST_Force3D", array, Dimension::XYZ)
}

/// The type this transform produces from a given input type.
///
/// The planner calls this so the output field carries the right extension metadata.
pub fn flipped_type(input: &DataType) -> (r: DataType)
    ensures
        r@ == input@,
{
    input.copy()
}

/// The type `ST_Force2D` or `ST_Force3D` produces.
pub fn forced_type(input: &DataType, target: Dimension) -> (r: Result<DataType, Error>)
    ensures
        match r {
            Ok(output) => input.dimension is Some && output@ == input@.with_dimension(target),
            Err(error) => input.dimension is None && error is NeedsNativeColumn
                && error->NeedsNativeColumn_function@ == if target == Dimension::XY {
                "ST_Force2D"@
            } else {
                "ST_Force3D"@
            },
        },
{
    if input.dimension.is_none() {
        return Err(
            Error::NeedsNativeColumn {
                function: if target == Dimension::XY {
                    "ST_Force2D"
                } else {
                    "ST_Force3D"
                },
            },
        );
    }
    let mut output = input.copy();
    output.dimension = Some(target);
    Ok(output)
}

// ------------------------------------------------------------------------ laws
/// A flip keeps the layout, the dimension and the number of coordinates, and swaps x and y.
pub proof fn law_a_flip_swaps_x_and_y(coords: CoordBufferView, i: int, k: int)
    requires
        coords.wf(),
        0 <= i < coords.len(),
        0 <= k < coords.dim().count(),
    ensures
        flipped(coords).wf(),
        flipped(coords).len() == coords.len(),
        flipped(coords).dim() == coords.dim(),
        flipped(coords).coord_type() == coords.coord_type(),
        flipped(coords).ordinate(i, k) == coords.ordinate(i, flipped_slot(k)),
{
    lemma_flip_shape(coords);
    match coords {
        CoordBufferView::Separated(b, dim) => {},
        CoordBufferView::Interleaved(values, dim) => {
            let f = |i: int, k: int| values[i * dim.count() + flipped_slot(k)];
            lemma_grid_at(coords.len(), dim.count(), f, i, k);
        },
    }
}

/// A flipped buffer is well formed and as long as before.
pub proof fn lemma_flip_shape(coords: CoordBufferView)
    requires
        coords.wf(),
    ensures
        flipped(coords).wf(),
        flipped(coords).len() == coords.len(),
{
    match coords {
        CoordBufferView::Separated(b, dim) => {
            let r = flipped(coords)->Separated_0;
            assert(b[1].len() == b[0].len());
            assert forall|k: int| 0 <= k < dim.count() implies (#[trigger] r[k]).len()
                == r[0].len() by {
                assert(b[k].len() == b[0].len());
            }
        },
        CoordBufferView::Interleaved(values, dim) => {
            let f = |i: int, k: int| values[i * dim.count() + flipped_slot(k)];
            vstd::arithmetic::div_mod::lemma_div_pos_is_pos(values.len() as int, dim.count());
            lemma_grid_len(coords.len(), dim.count(), f);
        },
    }
}

/// Two flips give the buffer back.
pub proof fn law_two_flips_cancel(coords: CoordBufferView)
    requires
        coords.wf(),
    ensures
        flipped(flipped(coords)) == coords,
{
    lemma_flip_shape(coords);
    match coords {
        CoordBufferView::Separated(b, dim) => {
            assert(flipped(flipped(coords))->Separated_0 =~= b);
        },
        CoordBufferView::Interleaved(values, dim) => {
            let w = dim.count();
            let n = coords.len();
            let once = flipped(coords)->Interleaved_0;
            let f = |i: int, k: int| values[i * w + flipped_slot(k)];
            let g = |i: int, k: int| once[i * w + flipped_slot(k)];
            let twice = flipped(flipped(coords))->Interleaved_0;
            assert(twice == grid(n, w, g));
            vstd::arithmetic::div_mod::lemma_div_pos_is_pos(values.len() as int, w);
            lemma_grid_len(n, w, g);
            if n > 0 {
                lemma_slots(values, dim, 0, 0);
            } else {
                vstd::arithmetic::div_mod::lemma_fundamental_div_mod(values.len() as int, w);
            }
            assert forall|j: int| 0 <= j < values.len() implies twice[j] == #[trigger] values[j] by {
                vstd::arithmetic::div_mod::lemma_fundamental_div_mod(j, w);
                vstd::arithmetic::div_mod::lemma_mod_bound(j, w);
                vstd::arithmetic::div_mod::lemma_div_pos_is_pos(j, w);
                let i = j / w;
                let k = j % w;
                assert(i < n) by (nonlinear_arith)
                    requires
                        j == w * i + k,
                        0 <= k,
                        j < n * w,
                        w > 0,
                ;
                assert(i * w + k == j) by (nonlinear_arith)
                    requires
                        j == w * i + k,
                ;
                lemma_grid_at(n, w, f, i, flipped_slot(k));
            }
            assert(twice =~= values);
        },
    }
}

/// A resized buffer is well formed and as long as before.
proof fn lemma_resize_shape(coords: CoordBufferView, target: Dimension)
    requires
        coords.wf(),
    ensures
        resized(coords, target).wf(),
        resized(coords, target).len() == coords.len(),
        resized(coords, target).dim() == target,
{
    match coords {
        CoordBufferView::Separated(b, dim) => {
            let r = resized(coords, target)->Separated_0;
            assert(kept_slot(dim, target, 0) == Some(0int));
            assert forall|k: int| 0 <= k < target.count() implies (#[trigger] r[k]).len()
                == r[0].len() by {
                match kept_slot(dim, target, k) {
                    Some(s) => {
                        assert(b[s].len() == b[0].len());
                    },
                    None => {},
                }
            }
        },
        CoordBufferView::Interleaved(values, dim) => {
            let f = |i: int, k: int| resized_ordinate(coords, target, i, k);
            vstd::arithmetic::div_mod::lemma_div_pos_is_pos(values.len() as int, dim.count());
            lemma_grid_len(coords.len(), target.count(), f);
        },
    }
}

/// A change of dimension keeps the length, keeps every ordinate that both dimensions have, and
/// writes zero for the others. The layout makes no difference.
pub proof fn law_a_resize_keeps_shared_ordinates(
    coords: CoordBufferView,
    target: Dimension,
    i: int,
    k: int,
)
    requires
        coords.wf(),
        0 <= i < coords.len(),
        0 <= k < target.count(),
    ensures
        resized(coords, target).wf(),
        resized(coords, target).len() == coords.len(),
        resized(coords, target).dim() == target,
        resized(coords, target).ordinate(i, k) == resized_ordinate(coords, target, i, k),
        resized(coords, target).coord(i) == coords.coord(i),
{
    lemma_resize_shape(coords, target);
    match coords {
        CoordBufferView::Separated(b, dim) => {},
        CoordBufferView::Interleaved(values, dim) => {
            let f = |i: int, k: int| resized_ordinate(coords, target, i, k);
            lemma_grid_at(coords.len(), target.count(), f, i, k);
            lemma_grid_at(coords.len(), target.count(), f, i, 0);
            lemma_grid_at(coords.len(), target.count(), f, i, 1);
        },
    }
}

/// `ST_Force2D` after `ST_Force3D` gives a two-dimensional coordinate back.
pub proof fn law_force_2d_undoes_force_3d(coords: CoordBufferView, i: int, k: int)
    requires
        coords.wf(),
        coords.dim() == Dimension::XY,
        0 <= i < coords.len(),
        0 <= k < 2,
    ensures
        ({
            let back = resized(resized(coords, Dimension::XYZ), Dimension::XY);
            &&& back.wf()
            &&& back.len() == coords.len()
            &&& back.dim() == coords.dim()
            &&& back.ordinate(i, k) == coords.ordinate(i, k)
        }),
{
    let up = resized(coords, Dimension::XYZ);
    law_a_resize_keeps_shared_ordinates(coords, Dimension::XYZ, i, k);
    law_a_resize_keeps_shared_ordinates(up, Dimension::XY, i, k);
}

/// A transform of the coordinates keeps the number of rows, every null, and every coordinate run.
pub proof fn law_offsets_survive_a_transform(array: ColumnView, new: CoordBufferView, i: int)
    requires
        array.wf(),
        array.body.coords() is Some,
        new.wf(),
        new.len() == array.body.coords()->0.len(),
    ensures
        array.with_coords(new).wf(),
        array.with_coords(new).rows() == array.rows(),
        array.with_coords(new).is_null(i) == array.is_null(i),
        array.with_coords(new).body.kind() == array.body.kind(),
        run_of(array.with_coords(new).body, i)
            == run_of(array.body, i),
{
}

} // verus!
