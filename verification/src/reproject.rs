//! Reprojection.
//!
//! The caller supplies the conversion between two coordinate reference systems.
//!
//! # One conversion per batch, one call per buffer
//!
//! A conversion is opened once per call and used for every row, because opening it costs far more
//! than one position. And a whole coordinate buffer goes through it at once.
//!
//! # The structure survives, so the offsets do
//!
//! A reprojection moves coordinates. It never changes the ring structure. [`crate::transform`]
//! and [`crate::affine`] rely on the same rule. So the output keeps the input geometry type and
//! reuses every offset buffer. Only the coordinate buffer is rebuilt.

use vstd::prelude::*;
use crate::accessor::{is_untyped, untyped_kind};
use crate::affine::{positions, reposition, repositioned, Output};
use crate::column::{
    is_untyped_kind, Column, ColumnView, CoordBuffer, CoordBufferView, DataType, DataTypeView,
};
use crate::component::geometry_view;
use crate::crs::{
    law_a_stamped_srid_reads_back, srid_in, srid_of, st_set_srid, stamped, with_srid, MetadataView,
};
use crate::decimal::{i32_text, text_of};
use crate::error::Error;
use crate::geometry::{Coord, Geometry, GeometryView};
use crate::materialize::GeometryReader;
use crate::transform::map_coords;

verus! {

/// The metadata of a column after a reprojection.
pub open spec fn restamped(metadata: MetadataView, srid: i32) -> MetadataView {
    MetadataView { crs: stamped(srid), edges: metadata.edges }
}

/// The type `ST_Transform` produces: the input type, restamped with the target SRID.
///
/// A native column keeps its geometry type, because only the coordinates move. A mixed or
/// serialized column has no single type to keep, so it becomes a mixed geometry column.
pub fn output_type(input: &DataType, target_srid: i32) -> (r: DataType)
    ensures
        r@ == if is_untyped_kind(input@.kind) {
            DataTypeView::mixed(restamped(input@.metadata, target_srid))
        } else {
            input@.with_metadata(restamped(input@.metadata, target_srid))
        },
{
    if is_untyped(input) {
        with_srid(&DataType::mixed(input.metadata.copy()), target_srid)
    } else {
        with_srid(input, target_srid)
    }
}

/// The name of a system in the EPSG registry.
pub open spec fn epsg(srid: i32) -> Seq<char> {
    "EPSG:"@ + text_of(srid)
}

/// The name of a system in the EPSG registry.
pub fn epsg_name(srid: i32) -> (r: String)
    ensures
        r@ == epsg(srid),
{
    let mut name = String::new();
    name.append("EPSG:");
    name.append(i32_text(srid).as_str());
    assert(name@ =~= epsg(srid));
    name
}

/// The conversion between two systems, in the two forms that a column needs.
pub struct Conversion<B, W> {
    /// Converts a batch of positions at once.
    pub batch: B,
    /// Converts every position of a geometry.
    pub whole: W,
}

/// True when a conversion can be used.
pub open spec fn can_convert<B, W>(conversion: Conversion<B, W>) -> bool where
    B: Fn(&Vec<Coord>) -> Option<Vec<Coord>>,
    W: Fn(&Geometry) -> Option<Geometry>,
 {
    &&& forall|v: &Vec<Coord>| #[trigger] conversion.batch.requires((v,))
    &&& forall|v: &Vec<Coord>, out: Vec<Coord>| #[trigger]
        conversion.batch.ensures((v,), Some(out)) ==> out@.len() == v@.len()
    &&& forall|g: &Geometry| #[trigger] conversion.whole.requires((g,))
}

/// True when `out` is what the opener gave for two names.
pub open spec fn is_opened<B, W, O: Fn(&String, &String) -> Option<Conversion<B, W>>>(
    open: O,
    from_srid: i32,
    to_srid: i32,
    out: Option<Conversion<B, W>>,
) -> bool {
    exists|a: String, b: String| #[trigger]
        open.ensures((&a, &b), out) && a@ == epsg(from_srid) && b@ == epsg(to_srid)
}

/// Open the conversion between two SRIDs.
///
/// Kept public so a caller can open it once and hand it to [`st_transform_with`] for several
/// batches.
pub fn transformation<B, W, O: Fn(&String, &String) -> Option<Conversion<B, W>>>(
    from_srid: i32,
    to_srid: i32,
    open: &O,
) -> (r: Result<Conversion<B, W>, Error>)
    requires
        forall|a: &String, b: &String| #[trigger] open.requires((a, b)),
    ensures
        if from_srid == 0 {
            r matches Err(error) && error == Error::NoSourceSrid
        } else if to_srid == 0 {
            r matches Err(error) && error == Error::NoTargetSrid
        } else {
            match r {
                Ok(conversion) => is_opened(*open, from_srid, to_srid, Some(conversion)),
                Err(error) => error == Error::External && is_opened(
                    *open,
                    from_srid,
                    to_srid,
                    None,
                ),
            }
        },
{
    if from_srid == 0 {
        return Err(Error::NoSourceSrid);
    }
    if to_srid == 0 {
        return Err(Error::NoTargetSrid);
    }
    let source = epsg_name(from_srid);
    let target = epsg_name(to_srid);
    let found = open(&source, &target);
    assert(open.ensures((&source, &target), found));
    assert(is_opened(*open, from_srid, to_srid, found));
    match found {
        Some(conversion) => Ok(conversion),
        None => Err(Error::External),
    }
}

/// True when `out` is what a batch gave for the positions. No position at all is not handed on.
pub open spec fn is_batch<B: Fn(&Vec<Coord>) -> Option<Vec<Coord>>>(
    batch: B,
    points: Seq<Coord>,
    out: Option<Seq<Coord>>,
) -> bool {
    if points.len() == 0 {
        out == Some(points)
    } else {
        exists|v: Vec<Coord>, found: Option<Vec<Coord>>| #[trigger]
            batch.ensures((&v,), found) && v@ == points && out == match found {
                Some(list) => Some(list@),
                None => None,
            }
    }
}

/// Convert a whole coordinate buffer in one call.
///
/// Higher ordinates are carried through: a horizontal conversion says nothing about z or m.
pub fn reproject_buffer<B: Fn(&Vec<Coord>) -> Option<Vec<Coord>>>(
    coords: &CoordBuffer,
    batch: &B,
) -> (r: Result<CoordBuffer, Error>)
    requires
        coords@.wf(),
        forall|v: &Vec<Coord>| #[trigger] batch.requires((v,)),
        forall|v: &Vec<Coord>, out: Vec<Coord>| #[trigger]
            batch.ensures((v,), Some(out)) ==> out@.len() == v@.len(),
    ensures
        is_reprojected(*batch, coords@, r),
{
    let pairs = positions(coords);
    let moved: Vec<Coord> = if pairs.len() == 0 {
        pairs
    } else {
        let found = batch(&pairs);
        assert(batch.ensures((&pairs,), found));
        match found {
            Some(moved) => {
                assert(is_batch(*batch, pairs@, Some(moved@)));
                moved
            },
            None => {
                assert(is_batch(*batch, pairs@, None));
                return Err(Error::External);
            },
        }
    };
    assert(is_batch(*batch, coords@.run(0, coords@.len()), Some(moved@)));
    Ok(reposition(coords, &moved))
}

/// True when a buffer was converted, or the batch refused it.
pub open spec fn is_reprojected<B: Fn(&Vec<Coord>) -> Option<Vec<Coord>>>(
    batch: B,
    coords: CoordBufferView,
    r: Result<CoordBuffer, Error>,
) -> bool {
    let points = coords.run(0, coords.len());
    match r {
        Ok(out) => exists|moved: Seq<Coord>| #[trigger]
            is_batch(batch, points, Some(moved)) && out@ == repositioned(coords, moved),
        Err(error) => error == Error::External && is_batch(batch, points, None),
    }
}

/// True when `out` is what the conversion gave for a geometry.
pub open spec fn is_converted<W: Fn(&Geometry) -> Option<Geometry>>(
    whole: W,
    geom: GeometryView,
    out: Option<GeometryView>,
) -> bool {
    exists|g: Geometry, found: Option<Geometry>| #[trigger]
        whole.ensures((&g,), found) && g@ == geom && out == geometry_view(found)
}

/// True when the rows of a column were converted one by one, or a row tells why not.
pub open spec fn are_converted<W: Fn(&Geometry) -> Option<Geometry>>(
    whole: W,
    array: ColumnView,
    r: Result<Vec<Option<Geometry>>, Error>,
) -> bool {
    match r {
        Ok(out) => {
            &&& !array.has_broken(array.rows())
            &&& out@.len() == array.rows()
            &&& forall|i: int|
                0 <= i < out@.len() ==> match array.geometry(i) {
                    Some(geom) => #[trigger] out@[i] is Some && is_converted(
                        whole,
                        geom,
                        geometry_view(out@[i]),
                    ),
                    None => out@[i] is None,
                }
        },
        Err(Error::Undecodable) => array.has_broken(array.rows()),
        Err(Error::External) => exists|i: int|
            0 <= i < array.rows() && #[trigger] array.geometry(i) is Some && is_converted(
                whole,
                array.geometry(i)->0,
                None,
            ),
        Err(_) => false,
    }
}

/// Convert every row of a column on its own.
pub fn transform_per_row<W: Fn(&Geometry) -> Option<Geometry>>(array: &Column, whole: &W) -> (r:
    Result<Vec<Option<Geometry>>, Error>)
    requires
        array.wf(),
        forall|g: &Geometry| #[trigger] whole.requires((g,)),
    ensures
        are_converted(*whole, array@, r),
{
    let rows: usize = array.len();
    let mut reader = GeometryReader::new(array);
    let mut out: Vec<Option<Geometry>> = Vec::new();
    let mut i: usize = 0;
    while i < rows
        invariant
            i <= rows,
            array.wf(),
            rows == array.rows(),
            forall|g: &Geometry| #[trigger] whole.requires((g,)),
            reader.source() == *array,
            !array@.has_broken(i as int),
            out@.len() == i,
            forall|j: int|
                0 <= j < i ==> match array@.geometry(j) {
                    Some(geom) => #[trigger] out@[j] is Some && is_converted(
                        *whole,
                        geom,
                        geometry_view(out@[j]),
                    ),
                    None => out@[j] is None,
                },
        decreases rows - i,
    {
        match reader.read(i) {
            Ok(Some(geom)) => {
                let moved = whole(geom);
                assert(whole.ensures((geom,), moved));
                assert(is_converted(*whole, geom@, geometry_view(moved)));
                match moved {
                    Some(moved) => {
                        out.push(Some(moved));
                    },
                    None => {
                        assert(array@.geometry(i as int) is Some);
                        return Err(Error::External);
                    },
                }
            },
            Ok(None) => {
                out.push(None);
            },
            Err(error) => {
                return Err(error);
            },
        }
        i = i + 1;
    }
    Ok(out)
}

/// What a reprojection of a column gives.
///
/// A mixed or serialized column has no single coordinate buffer, so it takes a per-row path. A
/// native column keeps everything but its positions and its SRID. A box column has no single
/// buffer either, and fails.
pub open spec fn is_transformed<B, W>(
    conversion: Conversion<B, W>,
    array: ColumnView,
    to_srid: i32,
    r: Result<Output, Error>,
) -> bool where B: Fn(&Vec<Coord>) -> Option<Vec<Coord>>, W: Fn(&Geometry) -> Option<Geometry> {
    if is_untyped_kind(array.body.kind()) {
        match r {
            Ok(Output::Mixed(out)) => are_converted(
                conversion.whole,
                array,
                Ok::<Vec<Option<Geometry>>, Error>(out),
            ),
            Ok(Output::Native(_)) => false,
            Err(error) => are_converted(
                conversion.whole,
                array,
                Err::<Vec<Option<Geometry>>, Error>(error),
            ),
        }
    } else {
        match array.body.coords() {
            Some(coords) => {
                let points = coords.run(0, coords.len());
                match r {
                    Ok(Output::Native(column)) => exists|moved: Seq<Coord>| #[trigger]
                        is_batch(conversion.batch, points, Some(moved)) && column@
                            == array.with_coords(repositioned(coords, moved)).with_metadata(
                            restamped(array.metadata, to_srid),
                        ),
                    Ok(Output::Mixed(_)) => false,
                    Err(error) => error == Error::External && is_batch(
                        conversion.batch,
                        points,
                        None,
                    ),
                }
            },
            None => r matches Err(Error::NeedsNativeColumn { function }) && function@
                == "ST_Transform"@,
        }
    }
}

/// `ST_Transform` with a conversion the caller already opened.
///
/// The column is restamped with the target SRID. The values have moved, so the old one would lie.
/// See [`output_type`] for the type of a mixed result.
pub fn st_transform_with<B, W>(array: &Column, conversion: &Conversion<B, W>, to_srid: i32) -> (r:
    Result<Output, Error>) where
    B: Fn(&Vec<Coord>) -> Option<Vec<Coord>>,
    W: Fn(&Geometry) -> Option<Geometry>,

    requires
        array.wf(),
        can_convert(*conversion),
    ensures
        is_transformed(*conversion, array@, to_srid, r),
{
    if untyped_kind(array.body.kind()) {
        return match transform_per_row(array, &conversion.whole) {
            Ok(out) => Ok(Output::Mixed(out)),
            Err(error) => Err(error),
        };
    }
    let f = |coords: &CoordBuffer| -> (out: Result<CoordBuffer, Error>)
        requires
            coords@.wf(),
        ensures
            is_reprojected(conversion.batch, coords@, out),
        { reproject_buffer(coords, &conversion.batch) };
    match map_coords("ST_Transform", array, &f) {
        Ok(column) => Ok(Output::Native(st_set_srid(&column, to_srid))),
        Err(error) => Err(error),
    }
}

/// `ST_Transform`. Reproject every coordinate into the target SRID.
///
/// The source SRID comes from the column metadata, so the input must carry one.
pub fn st_transform<B, W, O>(array: &Column, to_srid: i32, open: &O) -> (r: Result<Output, Error>) where
    B: Fn(&Vec<Coord>) -> Option<Vec<Coord>>,
    W: Fn(&Geometry) -> Option<Geometry>,
    O: Fn(&String, &String) -> Option<Conversion<B, W>>,

    requires
        array.wf(),
        forall|a: &String, b: &String| #[trigger] open.requires((a, b)),
        forall|a: &String, b: &String, c: Conversion<B, W>| #[trigger]
            open.ensures((a, b), Some(c)) ==> can_convert(c),
    ensures
        ({
            let from_srid = srid_in(array@.metadata.crs);
            if from_srid == 0 {
                r matches Err(error) && error == Error::NoSourceSrid
            } else if to_srid == 0 {
                r matches Err(error) && error == Error::NoTargetSrid
            } else {
                exists|opened: Option<Conversion<B, W>>| #[trigger]
                    is_opened(*open, from_srid, to_srid, opened) && match opened {
                        Some(conversion) => is_transformed(conversion, array@, to_srid, r),
                        None => r matches Err(error) && error == Error::External,
                    }
            }
        }),
{
    let from_srid: i32 = srid_of(&array.data_type());
    match transformation(from_srid, to_srid, open) {
        Ok(conversion) => {
            let r = st_transform_with(array, &conversion, to_srid);
            assert(is_opened(*open, from_srid, to_srid, Some(conversion)));
            r
        },
        Err(error) => Err(error),
    }
}

// ------------------------------------------------------------------------ laws
/// A reprojected native column carries the target SRID.
pub proof fn law_the_target_srid_is_carried(metadata: MetadataView, to_srid: i32)
    ensures
        srid_in(restamped(metadata, to_srid).crs) == to_srid,
{
    law_a_stamped_srid_reads_back(to_srid);
}

/// A column without coordinates is never handed to the conversion.
pub proof fn law_no_position_needs_no_conversion<B: Fn(&Vec<Coord>) -> Option<Vec<Coord>>>(
    batch: B,
    out: Option<Seq<Coord>>,
)
    ensures
        is_batch(batch, Seq::empty(), out) <==> out == Some(Seq::<Coord>::empty()),
{
}

} // verus!
