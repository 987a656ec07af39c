//! Spatial aggregates.
//!
//! `ST_Extent` never builds a geometry. The whole state is four numbers, and a merge is four
//! comparisons. That keeps the aggregate cheap enough to run over a whole table.
//!
//! `ST_Collect` and the aggregate `ST_Union` hold geometries. Their state crosses from one
//! partition to another as WKB, which is compact and lossless. The caller supplies the encoder and
//! the decoder.

use vstd::prelude::*;
use crate::bbox::{
    bbox_of, box_over, grown, law_growing_keeps_what_it_holds, law_merge_is_associative,
    law_the_inverted_box_is_neutral, outline, Bbox,
};
use crate::column::{Body, Column, ColumnView};
use crate::component::geometry_view;
use crate::edit::is_written;
use crate::error::Error;
use crate::geometry::{
    copy_polygon, copy_polygons, geometries_view, lemma_collection_view, polygons_view,
    rect_polygon, rect_to_polygon, triangle_polygon, triangle_to_polygon, Coord, Geometry,
    GeometryView, Polygon, PolygonView,
};
use crate::materialize::empty_geometry;
use crate::number;

verus! {

/// The state of `ST_Extent` while it runs.
#[derive(Debug, Clone, Copy)]
pub struct Extent(pub Bbox);

/// The box of the stored value of a row.
pub open spec fn value_box(array: ColumnView, i: int) -> Bbox {
    box_over(outline(array.body.raw(i)->0))
}

/// The box `start` merged with the box of each row before `end` that has a value.
pub open spec fn swept(array: ColumnView, start: Bbox, end: int) -> Bbox
    decreases end,
{
    if end <= 0 {
        start
    } else if array.is_null(end - 1) {
        swept(array, start, end - 1)
    } else {
        swept(array, start, end - 1).joined(value_box(array, end - 1))
    }
}

/// Where an update that meets a value that cannot be decoded stops.
pub open spec fn is_first_broken(array: ColumnView, i: int) -> bool {
    0 <= i < array.rows() && array.is_broken(i) && !array.has_broken(i)
}

impl Extent {
    /// A new, empty extent.
    pub fn new() -> (r: Extent)
        ensures
            r.0 == Bbox::blank(),
    {
        Extent(Bbox::empty())
    }

    /// Rebuild the state from four stored values.
    pub fn from_bounds(minx: u64, miny: u64, maxx: u64, maxy: u64) -> (r: Extent)
        ensures
            r.0 == (Bbox { minx, miny, maxx, maxy }),
    {
        Extent(Bbox { minx, miny, maxx, maxy })
    }

    /// The four values that make up the state.
    pub fn bounds(&self) -> (r: Bbox)
        ensures
            r == self.0,
    {
        self.0
    }

    /// Returns true while no geometry has been seen.
    pub fn is_empty(&self) -> (r: bool)
        ensures
            r == self.0.is_void(),
    {
        self.0.is_empty()
    }

    /// The result of the aggregate, or `None` when every input was null or empty.
    pub fn finish(&self) -> (r: Option<Bbox>)
        ensures
            r == if self.0.is_void() {
                None
            } else {
                Some(self.0)
            },
    {
        if self.0.is_empty() {
            None
        } else {
            Some(self.0)
        }
    }

    /// Merge a partial state from another partition.
    pub fn merge(&mut self, other: &Extent)
        ensures
            final(self).0 == old(self).0.joined(other.0),
    {
        self.0.merge(&other.0);
    }

    /// Fold a whole column into the state.
    ///
    /// The rows before one that cannot be decoded are kept.
    pub fn update(&mut self, array: &Column) -> (r: Result<(), Error>)
        requires
            array.wf(),
        ensures
            match r {
                Ok(()) => !array@.has_broken(array.rows()) && final(self).0 == swept(
                    array@,
                    old(self).0,
                    array.rows(),
                ),
                Err(error) => {
                    &&& error == Error::Undecodable
                    &&& exists|i: int| #[trigger]
                        is_first_broken(array@, i) && final(self).0 == swept(
                            array@,
                            old(self).0,
                            i,
                        )
                },
            },
    {
        let rows: usize = array.len();
        let mut i: usize = 0;
        // Fast path. A point column needs a min and a max over two plain lists, and no geometry.
        if let Body::Point { coords } = &array.body {
            while i < rows
                invariant
                    i <= rows,
                    array.wf(),
                    rows == array.rows(),
                    array.body == (Body::Point { coords: *coords }),
                    self.0 == swept(array@, old(self).0, i as int),
                decreases rows - i,
            {
                if !array.null_at(i) {
                    let c = coords.at(i);
                    let ghost before = self.0;
                    self.0.push_xy(c.x, c.y);
                    proof {
                        lemma_one_coordinate(before, c);
                    }
                }
                i = i + 1;
            }
            return Ok(());
        }
        while i < rows
            invariant
                i <= rows,
                array.wf(),
                rows == array.rows(),
                !array@.has_broken(i as int),
                self.0 == swept(array@, old(self).0, i as int),
            decreases rows - i,
        {
            if !array.null_at(i) {
                match array.raw_geometry(i) {
                    Some(geom) => {
                        self.0.merge(&bbox_of(&geom));
                    },
                    None => {
                        assert(is_first_broken(array@, i as int));
                        return Err(Error::Undecodable);
                    },
                }
            }
            i = i + 1;
        }
        Ok(())
    }
}

impl Default for Extent {
    fn default() -> (r: Extent)
        ensures
            r.0 == Bbox::blank(),
    {
        Extent::new()
    }
}

/// Growing by one coordinate is merging with its box.
proof fn lemma_one_coordinate(b: Bbox, c: Coord)
    ensures
        b.joined(Bbox::at(c)) == b.joined(box_over(outline(GeometryView::Point(c)))),
{
    reveal_with_fuel(grown, 2);
    assert(seq![c].drop_last() =~= Seq::<Coord>::empty());
    assert(box_over(seq![c]) == Bbox::blank().joined(Bbox::at(c)));
}

// --------------------------------------------------------------------- collect
/// The state of `ST_Collect` while it runs.
///
/// # Why the state is WKB
///
/// An aggregate hands its partial state to another partition as one value. WKB is compact and
/// lossless, and both sides already read it. So a partial collection crosses as one binary value.
#[derive(Debug)]
pub struct Collect {
    parts: Vec<Geometry>,
}

/// The geometries of the rows before `end`, nulls left out.
pub open spec fn gathered(array: ColumnView, end: int) -> Seq<GeometryView>
    decreases end,
{
    if end <= 0 {
        Seq::empty()
    } else {
        match array.geometry(end - 1) {
            Some(geom) => gathered(array, end - 1).push(geom),
            None => gathered(array, end - 1),
        }
    }
}

/// True when `after` holds the geometries of a column behind those of `before`. The rows before one
/// that cannot be decoded are kept.
pub open spec fn is_gathered(
    array: ColumnView,
    before: Seq<GeometryView>,
    after: Seq<GeometryView>,
    r: Result<(), Error>,
) -> bool {
    match r {
        Ok(()) => !array.has_broken(array.rows()) && after == before + gathered(
            array,
            array.rows(),
        ),
        Err(error) => error == Error::Undecodable && exists|i: int| #[trigger]
            is_first_broken(array, i) && after == before + gathered(array, i),
    }
}

/// Encoded bytes whose layout has been checked, as the `wkb` crate holds them.
#[verifier::external_type_specification]
#[verifier::external_body]
pub struct ExWkb<'a>(wkb::reader::Wkb<'a>);

/// The encoded geometry that some bytes hold. Nothing for bytes that hold none.
pub uninterp spec fn encoded_geometry(bytes: Seq<u8>) -> Option<wkb::reader::Wkb<'static>>;

/// Check the layout of encoded bytes by `wkb::reader::read_wkb`.
///
/// The encoded geometry, or the failure, is a function of the bytes alone. Which bytes are accepted
/// is not stated.
#[verifier::external_body]
fn parse_wkb<'a>(bytes: &'a [u8]) -> (r: Option<wkb::reader::Wkb<'a>>)
    ensures
        r == encoded_geometry(bytes@),
{
    wkb::reader::read_wkb(bytes).ok()
}

/// True when `out` is what `read` gave for the geometry that the bytes hold. Nothing for bytes that
/// hold none.
pub open spec fn is_decoded<R: Fn(&wkb::reader::Wkb<'_>) -> Option<Geometry>>(
    read: R,
    bytes: Seq<u8>,
    out: Option<GeometryView>,
) -> bool {
    match encoded_geometry(bytes) {
        Some(encoded) => exists|value: Option<Geometry>| #[trigger]
            read.ensures((&encoded,), value) && geometry_view(value) == out,
        None => out is None,
    }
}

/// The geometry of an encoding whose layout was checked.
///
/// Bytes that hold no geometry fail, and so does a geometry that `read` cannot take.
pub fn geometry_from_encoded<R: Fn(&wkb::reader::Wkb<'_>) -> Option<Geometry>>(
    encoded: Option<wkb::reader::Wkb<'_>>,
    read: &R,
) -> (r: Result<Geometry, Error>)
    requires
        forall|encoded: &wkb::reader::Wkb<'_>| #[trigger] read.requires((encoded,)),
    ensures
        match (encoded, r) {
            (Some(encoded), Ok(geom)) => exists|value: Option<Geometry>| #[trigger]
                read.ensures((&encoded,), value) && geometry_view(value) == Some(geom@),
            (Some(encoded), Err(error)) => error == Error::External && read.ensures(
                (&encoded,),
                None,
            ),
            (None, r) => r matches Err(error) && error == Error::External,
        },
{
    match encoded {
        Some(encoded) => {
            let found = read(&encoded);
            assert(read.ensures((&encoded,), found));
            match found {
                Some(geom) => Ok(geom),
                None => Err(Error::External),
            }
        },
        None => Err(Error::External),
    }
}

/// Decode one geometry from WKB.
pub fn read_wkb<R: Fn(&wkb::reader::Wkb<'_>) -> Option<Geometry>>(bytes: &[u8], read: &R) -> (r:
    Result<Geometry, Error>)
    requires
        forall|encoded: &wkb::reader::Wkb<'_>| #[trigger] read.requires((encoded,)),
    ensures
        match r {
            Ok(geom) => is_decoded(*read, bytes@, Some(geom@)),
            Err(error) => error == Error::External && is_decoded(*read, bytes@, None),
        },
{
    geometry_from_encoded(parse_wkb(bytes), read)
}

/// The parts that a decoded state holds.
pub open spec fn parts_of(geom: GeometryView) -> Seq<GeometryView> {
    match geom {
        GeometryView::GeometryCollection(parts) => parts,
        other => seq![other],
    }
}

impl View for Collect {
    type V = Seq<GeometryView>;

    closed spec fn view(&self) -> Seq<GeometryView> {
        geometries_view(self.parts@)
    }
}

impl Collect {
    /// A new, empty collection.
    pub fn new() -> (r: Collect)
        ensures
            r@ == Seq::<GeometryView>::empty(),
    {
        let r = Collect { parts: Vec::new() };
        assert(r@ =~= Seq::<GeometryView>::empty());
        r
    }

    /// Returns true while nothing has been collected.
    pub fn is_empty(&self) -> (r: bool)
        ensures
            r == (self@.len() == 0),
    {
        self.parts.len() == 0
    }

    /// Add every geometry of one column.
    ///
    /// The rows before one that cannot be decoded are kept.
    pub fn update(&mut self, array: &Column) -> (r: Result<(), Error>)
        requires
            array.wf(),
        ensures
            is_gathered(array@, old(self)@, final(self)@, r),
    {
        let rows: usize = array.len();
        let mut i: usize = 0;
        assert(self@ + gathered(array@, 0) =~= self@);
        while i < rows
            invariant
                i <= rows,
                array.wf(),
                rows == array.rows(),
                !array@.has_broken(i as int),
                self@ == old(self)@ + gathered(array@, i as int),
            decreases rows - i,
        {
            match array.geometry_at(i) {
                Ok(Some(geom)) => {
                    let ghost before = self@;
                    self.parts.push(geom);
                    assert(self@ =~= before.push(geom@));
                    assert(self@ =~= old(self)@ + gathered(array@, i + 1));
                },
                Ok(None) => {},
                Err(error) => {
                    assert(is_first_broken(array@, i as int));
                    return Err(error);
                },
            }
            i = i + 1;
        }
        Ok(())
    }

    /// Merge a partial state from another partition.
    pub fn merge(&mut self, other: Collect)
        ensures
            final(self)@ == old(self)@ + other@,
    {
        let ghost more = other@;
        let mut parts = other.parts;
        self.parts.append(&mut parts);
        assert(self@ =~= old(self)@ + more);
    }

    /// The collected geometries as one collection, or `None` when nothing was collected.
    pub fn finish(self) -> (r: Option<Geometry>)
        ensures
            geometry_view(r) == if self@.len() == 0 {
                None
            } else {
                Some(GeometryView::GeometryCollection(self@))
            },
    {
        if self.parts.len() == 0 {
            return None;
        }
        proof {
            lemma_collection_view(self.parts);
        }
        Some(Geometry::GeometryCollection(self.parts))
    }

    /// Encode the partial state for transfer between partitions.
    pub fn to_wkb<W: Fn(&Geometry) -> Option<Vec<u8>>>(&self, write: &W) -> (r: Result<
        Vec<u8>,
        Error,
    >)
        requires
            forall|geom: &Geometry| #[trigger] write.requires((geom,)),
        ensures
            match r {
                Ok(bytes) => is_written(
                    *write,
                    GeometryView::GeometryCollection(self@),
                    Some(bytes@),
                ),
                Err(error) => error == Error::External && is_written(
                    *write,
                    GeometryView::GeometryCollection(self@),
                    None,
                ),
            },
    {
        let mut parts: Vec<Geometry> = Vec::new();
        let mut i: usize = 0;
        while i < self.parts.len()
            invariant
                i <= self.parts@.len(),
                parts@.len() == i,
                forall|j: int| 0 <= j < i ==> (#[trigger] parts@[j])@ == self.parts@[j]@,
            decreases self.parts@.len() - i,
        {
            parts.push(self.parts[i].copy());
            i = i + 1;
        }
        proof {
            lemma_collection_view(parts);
            assert(geometries_view(parts@) =~= self@);
        }
        let collection = Geometry::GeometryCollection(parts);
        let encoded = write(&collection);
        assert(write.ensures((&collection,), encoded));
        match encoded {
            Some(bytes) => Ok(bytes),
            None => Err(Error::External),
        }
    }

    /// Decode a partial state produced by [`Self::to_wkb`].
    pub fn from_wkb<R: Fn(&wkb::reader::Wkb<'_>) -> Option<Geometry>>(bytes: &[u8], read: &R) -> (r: Result<
        Collect,
        Error,
    >)
        requires
            forall|encoded: &wkb::reader::Wkb<'_>| #[trigger] read.requires((encoded,)),
        ensures
            match r {
                Ok(state) => exists|geom: GeometryView| #[trigger]
                    is_decoded(*read, bytes@, Some(geom)) && state@ == parts_of(geom),
                Err(error) => error == Error::External && is_decoded(*read, bytes@, None),
            },
    {
        match read_wkb(bytes, read) {
            Ok(geom) => {
                let ghost view = geom@;
                let parts = match geom {
                    Geometry::GeometryCollection(parts) => {
                        proof {
                            lemma_collection_view(parts);
                        }
                        parts
                    },
                    other => {
                        let parts = vec![other];
                        assert(geometries_view(parts@) =~= seq![view]);
                        parts
                    },
                };
                let r = Collect { parts };
                assert(r@ =~= parts_of(view));
                Ok(r)
            },
            Err(error) => Err(error),
        }
    }
}

impl Default for Collect {
    fn default() -> (r: Collect)
        ensures
            r@ == Seq::<GeometryView>::empty(),
    {
        Collect::new()
    }
}

// ----------------------------------------------------------------------- union
/// The polygons of an areal geometry, or `None` when it has no area.
pub open spec fn area_of(geom: GeometryView) -> Option<Seq<PolygonView>> {
    match geom {
        GeometryView::Polygon(polygon) => Some(seq![polygon]),
        GeometryView::MultiPolygon(polygons) => Some(polygons),
        GeometryView::Rect(a, b) => Some(seq![rect_polygon(a, b)]),
        GeometryView::Triangle(a, b, c) => Some(seq![triangle_polygon(a, b, c)]),
        _ => None,
    }
}

/// The view of an optional list of polygons.
pub open spec fn shape_view(shape: Option<Vec<Polygon>>) -> Option<Seq<PolygonView>> {
    match shape {
        Some(polygons) => Some(polygons_view(polygons@)),
        None => None,
    }
}

/// View a geometry as a list of polygons, or `None` when it has no area.
pub fn areal_of(geom: &Geometry) -> (r: Option<Vec<Polygon>>)
    ensures
        shape_view(r) == area_of(geom@),
{
    let r = match geom {
        Geometry::Polygon(polygon) => Some(vec![copy_polygon(polygon)]),
        Geometry::MultiPolygon(polygons) => Some(copy_polygons(polygons)),
        Geometry::Rect(a, b) => Some(vec![rect_to_polygon(*a, *b)]),
        Geometry::Triangle(a, b, c) => Some(vec![triangle_to_polygon(*a, *b, *c)]),
        _ => None,
    };
    if r.is_some() {
        assert(shape_view(r)->0 =~= area_of(geom@)->0);
    }
    r
}

/// The areas of the rows before `end` that have one.
pub open spec fn areas_in(array: ColumnView, end: int) -> Seq<Seq<PolygonView>>
    decreases end,
{
    if end <= 0 {
        Seq::empty()
    } else {
        match array.geometry(end - 1) {
            Some(geom) => match area_of(geom) {
                Some(area) => areas_in(array, end - 1).push(area),
                None => areas_in(array, end - 1),
            },
            None => areas_in(array, end - 1),
        }
    }
}

/// True when `out` is the union of the state and an area. The first area is taken as it is.
pub open spec fn is_absorbed<U: Fn(&Vec<Polygon>, &Vec<Polygon>) -> Vec<Polygon>>(
    union: U,
    state: Option<Seq<PolygonView>>,
    area: Seq<PolygonView>,
    out: Option<Seq<PolygonView>>,
) -> bool {
    match state {
        None => out == Some(area),
        Some(current) => exists|a: Vec<Polygon>, b: Vec<Polygon>, c: Vec<Polygon>|
            {
                &&& #[trigger] union.ensures((&a, &b), c)
                &&& polygons_view(a@) == current
                &&& polygons_view(b@) == area
                &&& out == Some(polygons_view(c@))
            },
    }
}

/// True when `out` is the state after the areas, one after the other.
pub open spec fn is_folded<U: Fn(&Vec<Polygon>, &Vec<Polygon>) -> Vec<Polygon>>(
    union: U,
    start: Option<Seq<PolygonView>>,
    areas: Seq<Seq<PolygonView>>,
    out: Option<Seq<PolygonView>>,
) -> bool
    decreases areas.len(),
{
    if areas.len() == 0 {
        out == start
    } else {
        exists|state: Option<Seq<PolygonView>>|
            is_folded(union, start, areas.drop_last(), state) && #[trigger] is_absorbed(
                union,
                state,
                areas.last(),
                out,
            )
    }
}

/// True when `after` is the union of `before` and the areas of a column. The rows before one that
/// cannot be decoded are kept.
pub open spec fn is_union_of<U: Fn(&Vec<Polygon>, &Vec<Polygon>) -> Vec<Polygon>>(
    union: U,
    array: ColumnView,
    before: Option<Seq<PolygonView>>,
    after: Option<Seq<PolygonView>>,
    r: Result<(), Error>,
) -> bool {
    match r {
        Ok(()) => !array.has_broken(array.rows()) && is_folded(
            union,
            before,
            areas_in(array, array.rows()),
            after,
        ),
        Err(error) => error == Error::Undecodable && exists|i: int| #[trigger]
            is_first_broken(array, i) && is_folded(union, before, areas_in(array, i), after),
    }
}

/// The state of the `ST_Union` aggregate while it runs.
///
/// Every partial result is areal, so the state is one list of polygons and a merge is one boolean
/// union. The aggregate skips non-areal input, as the scalar `ST_Union` does.
#[derive(Debug)]
pub struct UnionAll {
    shape: Option<Vec<Polygon>>,
}

impl View for UnionAll {
    type V = Option<Seq<PolygonView>>;

    closed spec fn view(&self) -> Option<Seq<PolygonView>> {
        shape_view(self.shape)
    }
}

/// The state that a decoded geometry stands for. No polygon at all stands for the empty state.
pub open spec fn shape_of(geom: GeometryView) -> Option<Seq<PolygonView>> {
    match geom {
        GeometryView::MultiPolygon(polygons) => if polygons.len() == 0 {
            None
        } else {
            Some(polygons)
        },
        other => area_of(other),
    }
}

/// The polygons of a state.
pub open spec fn polygons_in(state: Option<Seq<PolygonView>>) -> Seq<PolygonView> {
    match state {
        Some(polygons) => polygons,
        None => Seq::empty(),
    }
}

impl UnionAll {
    /// A new, empty union.
    pub fn new() -> (r: UnionAll)
        ensures
            r@ is None,
    {
        UnionAll { shape: None }
    }

    /// Returns true while nothing has been unioned.
    pub fn is_empty(&self) -> (r: bool)
        ensures
            r == self@ is None,
    {
        self.shape.is_none()
    }

    /// Fold every geometry of one column into the union.
    ///
    /// The rows before one that cannot be decoded are kept.
    pub fn update<U: Fn(&Vec<Polygon>, &Vec<Polygon>) -> Vec<Polygon>>(
        &mut self,
        array: &Column,
        union: &U,
    ) -> (r: Result<(), Error>)
        requires
            array.wf(),
            forall|a: &Vec<Polygon>, b: &Vec<Polygon>| #[trigger] union.requires((a, b)),
        ensures
            is_union_of(*union, array@, old(self)@, final(self)@, r),
    {
        let rows: usize = array.len();
        let mut row = empty_geometry();
        let mut i: usize = 0;
        while i < rows
            invariant
                i <= rows,
                array.wf(),
                rows == array.rows(),
                forall|a: &Vec<Polygon>, b: &Vec<Polygon>| #[trigger] union.requires((a, b)),
                !array@.has_broken(i as int),
                is_folded(*union, old(self)@, areas_in(array@, i as int), self@),
            decreases rows - i,
        {
            match array.fill_geometry(i, &mut row) {
                Ok(true) => {
                    if let Some(areal) = areal_of(&row) {
                        let ghost before = self@;
                        let ghost areas = areas_in(array@, i as int);
                        let ghost area = polygons_view(areal@);
                        self.absorb(areal, union);
                        proof {
                            assert(areas.push(area).drop_last() =~= areas);
                            assert(areas.push(area).last() == area);
                            assert(is_absorbed(*union, before, area, self@));
                        }
                    }
                },
                Ok(false) => {},
                Err(error) => {
                    assert(is_first_broken(array@, i as int));
                    return Err(error);
                },
            }
            i = i + 1;
        }
        Ok(())
    }

    /// Merge a partial state from another partition.
    pub fn merge<U: Fn(&Vec<Polygon>, &Vec<Polygon>) -> Vec<Polygon>>(
        &mut self,
        other: UnionAll,
        union: &U,
    )
        requires
            forall|a: &Vec<Polygon>, b: &Vec<Polygon>| #[trigger] union.requires((a, b)),
        ensures
            match other@ {
                Some(area) => is_absorbed(*union, old(self)@, area, final(self)@),
                None => final(self)@ == old(self)@,
            },
    {
        if let Some(shape) = other.shape {
            self.absorb(shape, union);
        }
    }

    fn absorb<U: Fn(&Vec<Polygon>, &Vec<Polygon>) -> Vec<Polygon>>(
        &mut self,
        other: Vec<Polygon>,
        union: &U,
    )
        requires
            forall|a: &Vec<Polygon>, b: &Vec<Polygon>| #[trigger] union.requires((a, b)),
        ensures
            is_absorbed(*union, old(self)@, polygons_view(other@), final(self)@),
    {
        let joined = match &self.shape {
            Some(current) => {
                let joined = union(current, &other);
                assert(union.ensures((current, &other), joined));
                joined
            },
            None => other,
        };
        self.shape = Some(joined);
    }

    /// The union, or `None` when no areal geometry was seen.
    pub fn finish(self) -> (r: Option<Geometry>)
        ensures
            geometry_view(r) == match self@ {
                Some(polygons) => Some(GeometryView::MultiPolygon(polygons)),
                None => None,
            },
    {
        match self.shape {
            Some(polygons) => Some(Geometry::MultiPolygon(polygons)),
            None => None,
        }
    }

    /// Encode the partial state for transfer between partitions.
    pub fn to_wkb<W: Fn(&Geometry) -> Option<Vec<u8>>>(&self, write: &W) -> (r: Result<
        Vec<u8>,
        Error,
    >)
        requires
            forall|geom: &Geometry| #[trigger] write.requires((geom,)),
        ensures
            match r {
                Ok(bytes) => is_written(
                    *write,
                    GeometryView::MultiPolygon(polygons_in(self@)),
                    Some(bytes@),
                ),
                Err(error) => error == Error::External && is_written(
                    *write,
                    GeometryView::MultiPolygon(polygons_in(self@)),
                    None,
                ),
            },
    {
        let polygons = match &self.shape {
            Some(polygons) => copy_polygons(polygons),
            None => Vec::new(),
        };
        assert(polygons_view(polygons@) =~= polygons_in(self@));
        let shape = Geometry::MultiPolygon(polygons);
        assert(shape@ == GeometryView::MultiPolygon(polygons_in(self@)));
        let encoded = write(&shape);
        assert(write.ensures((&shape,), encoded));
        match encoded {
            Some(bytes) => Ok(bytes),
            None => Err(Error::External),
        }
    }

    /// Decode a partial state produced by [`Self::to_wkb`].
    pub fn from_wkb<R: Fn(&wkb::reader::Wkb<'_>) -> Option<Geometry>>(bytes: &[u8], read: &R) -> (r: Result<
        UnionAll,
        Error,
    >)
        requires
            forall|encoded: &wkb::reader::Wkb<'_>| #[trigger] read.requires((encoded,)),
        ensures
            match r {
                Ok(state) => exists|geom: GeometryView| #[trigger]
                    is_decoded(*read, bytes@, Some(geom)) && state@ == shape_of(geom),
                Err(error) => error == Error::External && is_decoded(*read, bytes@, None),
            },
    {
        match read_wkb(bytes, read) {
            Ok(geom) => {
                let shape = match &geom {
                    Geometry::MultiPolygon(polygons) => if polygons.len() == 0 {
                        None
                    } else {
                        Some(copy_polygons(polygons))
                    },
                    other => areal_of(other),
                };
                assert(shape_view(shape) == shape_of(geom@));
                Ok(UnionAll { shape })
            },
            Err(error) => Err(error),
        }
    }
}

impl Default for UnionAll {
    fn default() -> (r: UnionAll)
        ensures
            r@ is None,
    {
        UnionAll::new()
    }
}

// ---------------------------------------------------------------- accumulators
/// The state after the boxes of the partial states `0..end` are merged into it.
pub open spec fn merged_boxes(start: Bbox, partials: Seq<Bbox>, end: int) -> Bbox
    decreases end,
{
    if end <= 0 {
        start
    } else {
        merged_boxes(start, partials, end - 1).joined(partials[end - 1])
    }
}

impl Extent {
    /// Merge a batch of partial states, each of them four numbers.
    pub fn merge_batch(
        &mut self,
        xmin: &Vec<u64>,
        ymin: &Vec<u64>,
        xmax: &Vec<u64>,
        ymax: &Vec<u64>,
    )
        requires
            ymin@.len() >= xmin@.len(),
            xmax@.len() >= xmin@.len(),
            ymax@.len() >= xmin@.len(),
        ensures
            final(self).0 == merged_boxes(
                old(self).0,
                Seq::new(
                    xmin@.len(),
                    |i: int|
                        Bbox { minx: xmin@[i], miny: ymin@[i], maxx: xmax@[i], maxy: ymax@[i] },
                ),
                xmin@.len() as int,
            ),
    {
        let ghost partials = Seq::new(
            xmin@.len(),
            |i: int| Bbox { minx: xmin@[i], miny: ymin@[i], maxx: xmax@[i], maxy: ymax@[i] },
        );
        let mut i: usize = 0;
        while i < xmin.len()
            invariant
                i <= xmin@.len(),
                ymin@.len() >= xmin@.len(),
                xmax@.len() >= xmin@.len(),
                ymax@.len() >= xmin@.len(),
                partials == Seq::new(
                    xmin@.len(),
                    |i: int|
                        Bbox { minx: xmin@[i], miny: ymin@[i], maxx: xmax@[i], maxy: ymax@[i] },
                ),
                self.0 == merged_boxes(old(self).0, partials, i as int),
            decreases xmin@.len() - i,
        {
            self.merge(&Extent::from_bounds(xmin[i], ymin[i], xmax[i], ymax[i]));
            i = i + 1;
        }
    }
}

/// Which geometry-valued aggregate this is.
#[derive(Debug, Clone, Copy, PartialEq, Eq, Structural, Hash)]
pub enum Gather {
    /// `ST_Collect`. Gather every row into one collection.
    Collect,
    /// `ST_Union`. Merge every areal row into one shape.
    Union,
}

impl Gather {
    /// The SQL name and the PostGIS name.
    ///
    /// # Why the union aggregate is not called `ST_Union`
    ///
    /// PostGIS overloads `ST_Union`: two arguments make it a scalar function, one argument makes
    /// it an aggregate. A query engine that reads the scalar registry first does not try the
    /// aggregate registry after an argument count mismatch. So one name cannot serve both. The
    /// aggregate is `ST_MemUnion`, which PostGIS also defines for exactly this operation.
    pub fn names(self) -> (r: (&'static str, &'static str))
        ensures
            (r.0@, r.1@) == match self {
                Gather::Collect => ("st_collect"@, "ST_Collect"@),
                Gather::Union => ("st_memunion"@, "ST_MemUnion"@),
            },
    {
        match self {
            Gather::Collect => ("st_collect", "ST_Collect"),
            Gather::Union => ("st_memunion", "ST_MemUnion"),
        }
    }
}

/// True when `out` holds the parts of the partial states `0..end` behind those of `start`. A null
/// partial state is skipped.
pub open spec fn are_collected<R: Fn(&wkb::reader::Wkb<'_>) -> Option<Geometry>>(
    read: R,
    start: Seq<GeometryView>,
    partials: Seq<Option<Vec<u8>>>,
    end: int,
    out: Seq<GeometryView>,
) -> bool
    decreases end,
{
    if end <= 0 {
        out == start
    } else {
        match partials[end - 1] {
            Some(bytes) => exists|front: Seq<GeometryView>, geom: GeometryView|
                are_collected(read, start, partials, end - 1, front) && #[trigger] is_appended(
                    read,
                    front,
                    bytes@,
                    geom,
                    out,
                ),
            None => are_collected(read, start, partials, end - 1, out),
        }
    }
}

/// True when `out` is `front` with the parts of a decoded state behind it.
pub open spec fn is_appended<R: Fn(&wkb::reader::Wkb<'_>) -> Option<Geometry>>(
    read: R,
    front: Seq<GeometryView>,
    bytes: Seq<u8>,
    geom: GeometryView,
    out: Seq<GeometryView>,
) -> bool {
    &&& is_decoded(read, bytes, Some(geom))
    &&& out == front + parts_of(geom)
}

impl Collect {
    /// Merge a batch of encoded partial states.
    ///
    /// The states before one that cannot be decoded are kept.
    pub fn merge_batch<R: Fn(&wkb::reader::Wkb<'_>) -> Option<Geometry>>(
        &mut self,
        partials: &Vec<Option<Vec<u8>>>,
        read: &R,
    ) -> (r: Result<(), Error>)
        requires
            forall|encoded: &wkb::reader::Wkb<'_>| #[trigger] read.requires((encoded,)),
        ensures
            is_collected_batch(*read, partials@, old(self)@, final(self)@, r),
    {
        let mut i: usize = 0;
        while i < partials.len()
            invariant
                i <= partials@.len(),
                forall|encoded: &wkb::reader::Wkb<'_>| #[trigger] read.requires((encoded,)),
                are_collected(*read, old(self)@, partials@, i as int, self@),
            decreases partials@.len() - i,
        {
            if let Some(bytes) = &partials[i] {
                let ghost front = self@;
                match Collect::from_wkb(bytes.as_slice(), read) {
                    Ok(other) => {
                        proof {
                            let geom = choose|geom: GeometryView| #[trigger]
                                is_decoded(*read, bytes@, Some(geom)) && other@ == parts_of(geom);
                            assert(is_appended(
                                *read,
                                front,
                                bytes@,
                                geom,
                                front + parts_of(geom),
                            ));
                        }
                        self.merge(other);
                    },
                    Err(error) => {
                        assert(is_undecoded(*read, partials@[i as int]));
                        return Err(error);
                    },
                }
            }
            i = i + 1;
        }
        Ok(())
    }
}

/// True when `after` holds the partial states behind `before`. The states before one that cannot be
/// decoded are kept.
pub open spec fn is_collected_batch<R: Fn(&wkb::reader::Wkb<'_>) -> Option<Geometry>>(
    read: R,
    partials: Seq<Option<Vec<u8>>>,
    before: Seq<GeometryView>,
    after: Seq<GeometryView>,
    r: Result<(), Error>,
) -> bool {
    match r {
        Ok(()) => are_collected(read, before, partials, partials.len() as int, after),
        Err(error) => error == Error::External && exists|i: int|
            0 <= i < partials.len() && #[trigger] is_undecoded(read, partials[i])
                && are_collected(read, before, partials, i, after),
    }
}

/// True when `after` is the union of `before` and the partial states. The states before one that
/// cannot be decoded are kept.
pub open spec fn is_union_batch<
    R: Fn(&wkb::reader::Wkb<'_>) -> Option<Geometry>,
    U: Fn(&Vec<Polygon>, &Vec<Polygon>) -> Vec<Polygon>,
>(
    read: R,
    union: U,
    partials: Seq<Option<Vec<u8>>>,
    before: Option<Seq<PolygonView>>,
    after: Option<Seq<PolygonView>>,
    r: Result<(), Error>,
) -> bool {
    match r {
        Ok(()) => are_unioned(read, union, before, partials, partials.len() as int, after),
        Err(error) => error == Error::External && exists|i: int|
            0 <= i < partials.len() && #[trigger] is_undecoded(read, partials[i]) && are_unioned(
                read,
                union,
                before,
                partials,
                i,
                after,
            ),
    }
}

/// True when a partial state could not be decoded.
pub open spec fn is_undecoded<R: Fn(&wkb::reader::Wkb<'_>) -> Option<Geometry>>(
    read: R,
    partial: Option<Vec<u8>>,
) -> bool {
    partial matches Some(bytes) && is_decoded(read, bytes@, None)
}

/// True when `out` is the union of `start` and the partial states `0..end`. A null partial state
/// is skipped.
pub open spec fn are_unioned<
    R: Fn(&wkb::reader::Wkb<'_>) -> Option<Geometry>,
    U: Fn(&Vec<Polygon>, &Vec<Polygon>) -> Vec<Polygon>,
>(
    read: R,
    union: U,
    start: Option<Seq<PolygonView>>,
    partials: Seq<Option<Vec<u8>>>,
    end: int,
    out: Option<Seq<PolygonView>>,
) -> bool
    decreases end,
{
    if end <= 0 {
        out == start
    } else {
        match partials[end - 1] {
            Some(bytes) => exists|front: Option<Seq<PolygonView>>, geom: GeometryView|
                are_unioned(read, union, start, partials, end - 1, front)
                    && #[trigger] is_union_step(read, union, front, bytes@, geom, out),
            None => are_unioned(read, union, start, partials, end - 1, out),
        }
    }
}

/// True when `out` is the union of `front` and a decoded state.
pub open spec fn is_union_step<
    R: Fn(&wkb::reader::Wkb<'_>) -> Option<Geometry>,
    U: Fn(&Vec<Polygon>, &Vec<Polygon>) -> Vec<Polygon>,
>(
    read: R,
    union: U,
    front: Option<Seq<PolygonView>>,
    bytes: Seq<u8>,
    geom: GeometryView,
    out: Option<Seq<PolygonView>>,
) -> bool {
    &&& is_decoded(read, bytes, Some(geom))
    &&& match shape_of(geom) {
        Some(area) => is_absorbed(union, front, area, out),
        None => out == front,
    }
}

impl UnionAll {
    /// Merge a batch of encoded partial states.
    ///
    /// The states before one that cannot be decoded are kept.
    pub fn merge_batch<
        R: Fn(&wkb::reader::Wkb<'_>) -> Option<Geometry>,
        U: Fn(&Vec<Polygon>, &Vec<Polygon>) -> Vec<Polygon>,
    >(&mut self, partials: &Vec<Option<Vec<u8>>>, read: &R, union: &U) -> (r: Result<(), Error>)
        requires
            forall|encoded: &wkb::reader::Wkb<'_>| #[trigger] read.requires((encoded,)),
            forall|a: &Vec<Polygon>, b: &Vec<Polygon>| #[trigger] union.requires((a, b)),
        ensures
            is_union_batch(*read, *union, partials@, old(self)@, final(self)@, r),
    {
        let mut i: usize = 0;
        while i < partials.len()
            invariant
                i <= partials@.len(),
                forall|encoded: &wkb::reader::Wkb<'_>| #[trigger] read.requires((encoded,)),
                forall|a: &Vec<Polygon>, b: &Vec<Polygon>| #[trigger] union.requires((a, b)),
                are_unioned(*read, *union, old(self)@, partials@, i as int, self@),
            decreases partials@.len() - i,
        {
            if let Some(bytes) = &partials[i] {
                let ghost front = self@;
                match UnionAll::from_wkb(bytes.as_slice(), read) {
                    Ok(other) => {
                        let ghost shape = other@;
                        self.merge(other, union);
                        proof {
                            let geom = choose|geom: GeometryView| #[trigger]
                                is_decoded(*read, bytes@, Some(geom)) && shape == shape_of(geom);
                            assert(is_union_step(*read, *union, front, bytes@, geom, self@));
                        }
                    },
                    Err(error) => {
                        assert(is_undecoded(*read, partials@[i as int]));
                        return Err(error);
                    },
                }
            }
            i = i + 1;
        }
        Ok(())
    }
}

/// The state of `ST_Collect` or of `ST_MemUnion`, whichever it was made for.
#[derive(Debug)]
pub struct GatherAccumulator {
    gather: Gather,
    collect: Collect,
    union: UnionAll,
}

impl GatherAccumulator {
    /// Which aggregate this is.
    pub closed spec fn kind(self) -> Gather {
        self.gather
    }

    /// What was collected.
    pub closed spec fn collected(self) -> Seq<GeometryView> {
        self.collect@
    }

    /// The union so far.
    pub closed spec fn unioned(self) -> Option<Seq<PolygonView>> {
        self.union@
    }

    /// A new, empty state.
    pub fn new(gather: Gather) -> (r: GatherAccumulator)
        ensures
            r.kind() == gather,
            r.collected() == Seq::<GeometryView>::empty(),
            r.unioned() is None,
    {
        GatherAccumulator { gather, collect: Collect::new(), union: UnionAll::new() }
    }

    /// Fold a batch into the state.
    pub fn update_batch<U: Fn(&Vec<Polygon>, &Vec<Polygon>) -> Vec<Polygon>>(
        &mut self,
        array: &Column,
        union: &U,
    ) -> (r: Result<(), Error>)
        requires
            array.wf(),
            forall|a: &Vec<Polygon>, b: &Vec<Polygon>| #[trigger] union.requires((a, b)),
        ensures
            final(self).kind() == old(self).kind(),
            match old(self).kind() {
                Gather::Collect => final(self).unioned() == old(self).unioned() && is_gathered(
                    array@,
                    old(self).collected(),
                    final(self).collected(),
                    r,
                ),
                Gather::Union => final(self).collected() == old(self).collected() && is_union_of(
                    *union,
                    array@,
                    old(self).unioned(),
                    final(self).unioned(),
                    r,
                ),
            },
    {
        match self.gather {
            Gather::Collect => self.collect.update(array),
            Gather::Union => self.union.update(array, union),
        }
    }

    /// Encode the partial state for transfer between partitions.
    pub fn state<W: Fn(&Geometry) -> Option<Vec<u8>>>(&self, write: &W) -> (r: Result<
        Vec<u8>,
        Error,
    >)
        requires
            forall|geom: &Geometry| #[trigger] write.requires((geom,)),
        ensures
            ({
                let value = match self.kind() {
                    Gather::Collect => GeometryView::GeometryCollection(self.collected()),
                    Gather::Union => GeometryView::MultiPolygon(polygons_in(self.unioned())),
                };
                match r {
                    Ok(bytes) => is_written(*write, value, Some(bytes@)),
                    Err(error) => error == Error::External && is_written(*write, value, None),
                }
            }),
    {
        match self.gather {
            Gather::Collect => self.collect.to_wkb(write),
            Gather::Union => self.union.to_wkb(write),
        }
    }

    /// Merge a batch of encoded partial states.
    pub fn merge_batch<
        R: Fn(&wkb::reader::Wkb<'_>) -> Option<Geometry>,
        U: Fn(&Vec<Polygon>, &Vec<Polygon>) -> Vec<Polygon>,
    >(&mut self, partials: &Vec<Option<Vec<u8>>>, read: &R, union: &U) -> (r: Result<(), Error>)
        requires
            forall|encoded: &wkb::reader::Wkb<'_>| #[trigger] read.requires((encoded,)),
            forall|a: &Vec<Polygon>, b: &Vec<Polygon>| #[trigger] union.requires((a, b)),
        ensures
            final(self).kind() == old(self).kind(),
            match old(self).kind() {
                Gather::Collect => final(self).unioned() == old(self).unioned()
                    && is_collected_batch(
                    *read,
                    partials@,
                    old(self).collected(),
                    final(self).collected(),
                    r,
                ),
                Gather::Union => final(self).collected() == old(self).collected() && is_union_batch(
                    *read,
                    *union,
                    partials@,
                    old(self).unioned(),
                    final(self).unioned(),
                    r,
                ),
            },
    {
        match self.gather {
            Gather::Collect => self.collect.merge_batch(partials, read),
            Gather::Union => self.union.merge_batch(partials, read, union),
        }
    }

    /// The finished value. The state starts over.
    pub fn finished(&mut self) -> (r: Option<Geometry>)
        ensures
            final(self).kind() == old(self).kind(),
            match old(self).kind() {
                Gather::Collect => {
                    &&& final(self).collected() == Seq::<GeometryView>::empty()
                    &&& final(self).unioned() == old(self).unioned()
                    &&& geometry_view(r) == if old(self).collected().len() == 0 {
                        None
                    } else {
                        Some(GeometryView::GeometryCollection(old(self).collected()))
                    }
                },
                Gather::Union => {
                    &&& final(self).unioned() is None
                    &&& final(self).collected() == old(self).collected()
                    &&& geometry_view(r) == match old(self).unioned() {
                        Some(polygons) => Some(GeometryView::MultiPolygon(polygons)),
                        None => None,
                    }
                },
            },
    {
        match self.gather {
            Gather::Collect => {
                let mut state = Collect::new();
                std::mem::swap(&mut state, &mut self.collect);
                state.finish()
            },
            Gather::Union => {
                let mut state = UnionAll::new();
                std::mem::swap(&mut state, &mut self.union);
                state.finish()
            },
        }
    }
}

// ------------------------------------------------------------------------ laws
/// The boxes that `ST_Extent` merges hold no NaN.
proof fn lemma_swept_numeric(array: ColumnView, end: int)
    ensures
        swept(array, Bbox::blank(), end).is_numeric(),
    decreases end,
{
    let nowhere = Coord { x: number::NAN, y: number::NAN };
    if end > 0 {
        lemma_swept_numeric(array, end - 1);
        law_growing_keeps_what_it_holds(
            Bbox::blank(),
            outline(array.body.raw(end - 1)->0),
            nowhere,
        );
    }
}

/// A sweep from a state is the merge of the state with a sweep from nothing.
pub proof fn law_a_sweep_starts_from_any_state(array: ColumnView, start: Bbox, end: int)
    requires
        start.is_numeric(),
    ensures
        swept(array, start, end) == start.joined(swept(array, Bbox::blank(), end)),
    decreases end,
{
    if end <= 0 {
        law_the_inverted_box_is_neutral(start);
    } else {
        law_a_sweep_starts_from_any_state(array, start, end - 1);
        if !array.is_null(end - 1) {
            let front = swept(array, Bbox::blank(), end - 1);
            lemma_swept_numeric(array, end - 1);
            law_growing_keeps_what_it_holds(
                Bbox::blank(),
                outline(array.body.raw(end - 1)->0),
                Coord { x: number::NAN, y: number::NAN },
            );
            law_merge_is_associative(start, front, value_box(array, end - 1));
        }
    }
}

/// True when the rows of `both` are those of `left` and then those of `right`.
pub open spec fn are_joined(left: ColumnView, right: ColumnView, both: ColumnView) -> bool {
    let n = left.rows();
    &&& n >= 0
    &&& right.rows() >= 0
    &&& both.rows() == n + right.rows()
    &&& forall|i: int|
        0 <= i < n ==> both.is_null(i) == left.is_null(i) && #[trigger] both.raw(i) == left.raw(i)
    &&& forall|i: int|
        n <= i < both.rows() ==> both.is_null(i) == right.is_null(i - n) && #[trigger] both.raw(i)
            == right.raw(i - n)
}

/// The extent of two partitions, merged, is the extent of one pass over both.
pub proof fn law_extents_merge_to_a_single_pass(
    left: ColumnView,
    right: ColumnView,
    both: ColumnView,
)
    requires
        are_joined(left, right, both),
    ensures
        swept(left, Bbox::blank(), left.rows()).joined(swept(right, Bbox::blank(), right.rows()))
            == swept(both, Bbox::blank(), both.rows()),
{
    let n = left.rows();
    lemma_swept_prefix(left, right, both, n);
    lemma_swept_suffix(left, right, both, right.rows());
    lemma_swept_numeric(left, n);
    law_a_sweep_starts_from_any_state(right, swept(left, Bbox::blank(), n), right.rows());
}

proof fn lemma_swept_prefix(left: ColumnView, right: ColumnView, both: ColumnView, end: int)
    requires
        are_joined(left, right, both),
        0 <= end <= left.rows(),
    ensures
        swept(both, Bbox::blank(), end) == swept(left, Bbox::blank(), end),
    decreases end,
{
    if end > 0 {
        lemma_swept_prefix(left, right, both, end - 1);
        assert(both.raw(end - 1) == left.raw(end - 1));
    }
}

proof fn lemma_swept_suffix(left: ColumnView, right: ColumnView, both: ColumnView, end: int)
    requires
        are_joined(left, right, both),
        0 <= end <= right.rows(),
    ensures
        swept(both, Bbox::blank(), left.rows() + end) == swept(
            right,
            swept(left, Bbox::blank(), left.rows()),
            end,
        ),
    decreases end,
{
    if end <= 0 {
        lemma_swept_prefix(left, right, both, left.rows());
    } else {
        lemma_swept_suffix(left, right, both, end - 1);
        assert(both.raw(left.rows() + end - 1) == right.raw(end - 1));
    }
}

/// The state of `ST_Extent` survives the trip through its four numbers.
pub proof fn law_four_numbers_rebuild_an_extent(extent: Extent)
    ensures
        (Bbox {
            minx: extent.0.minx,
            miny: extent.0.miny,
            maxx: extent.0.maxx,
            maxy: extent.0.maxy,
        }) == extent.0,
{
}

/// A column of nulls leaves the extent as it was.
pub proof fn law_nulls_leave_an_extent_alone(array: ColumnView, start: Bbox, end: int)
    requires
        forall|i: int| 0 <= i < end ==> #[trigger] array.is_null(i),
    ensures
        swept(array, start, end) == start,
    decreases end,
{
    if end > 0 {
        law_nulls_leave_an_extent_alone(array, start, end - 1);
    }
}

/// The collections of two partitions, merged, are what one pass over both collects.
pub proof fn law_collections_merge_to_a_single_pass(
    left: ColumnView,
    right: ColumnView,
    both: ColumnView,
)
    requires
        are_joined(left, right, both),
    ensures
        gathered(left, left.rows()) + gathered(right, right.rows()) == gathered(both, both.rows()),
{
    lemma_gathered_suffix(left, right, both, right.rows());
}

proof fn lemma_gathered_prefix(left: ColumnView, right: ColumnView, both: ColumnView, end: int)
    requires
        are_joined(left, right, both),
        0 <= end <= left.rows(),
    ensures
        gathered(both, end) == gathered(left, end),
    decreases end,
{
    if end > 0 {
        lemma_gathered_prefix(left, right, both, end - 1);
        assert(both.raw(end - 1) == left.raw(end - 1));
    }
}

proof fn lemma_gathered_suffix(left: ColumnView, right: ColumnView, both: ColumnView, end: int)
    requires
        are_joined(left, right, both),
        0 <= end <= right.rows(),
    ensures
        gathered(both, left.rows() + end) == gathered(left, left.rows()) + gathered(right, end),
    decreases end,
{
    let head = gathered(left, left.rows());
    if end <= 0 {
        lemma_gathered_prefix(left, right, both, left.rows());
        assert(head + gathered(right, end) =~= head);
    } else {
        lemma_gathered_suffix(left, right, both, end - 1);
        assert(both.raw(left.rows() + end - 1) == right.raw(end - 1));
        if right.geometry(end - 1) is Some {
            let geom = right.geometry(end - 1)->0;
            assert(head + gathered(right, end - 1).push(geom) =~= (head + gathered(
                right,
                end - 1,
            )).push(geom));
        }
    }
}

/// A collection survives the trip through its encoding, where the decoder gives back what the
/// encoder was given.
pub proof fn law_a_collection_survives_its_encoding<
    W: Fn(&Geometry) -> Option<Vec<u8>>,
    R: Fn(&wkb::reader::Wkb<'_>) -> Option<Geometry>,
>(state: Seq<GeometryView>, write: W, read: R, bytes: Seq<u8>, decoded: GeometryView)
    requires
        is_written(write, GeometryView::GeometryCollection(state), Some(bytes)),
        is_decoded(read, bytes, Some(decoded)),
        is_inverse(write, read),
    ensures
        parts_of(decoded) == state,
{
}

/// True when decoding gives back what was encoded.
pub open spec fn is_inverse<
    W: Fn(&Geometry) -> Option<Vec<u8>>,
    R: Fn(&wkb::reader::Wkb<'_>) -> Option<Geometry>,
>(write: W, read: R) -> bool {
    forall|geom: GeometryView, bytes: Seq<u8>, out: Option<GeometryView>|
        #[trigger] is_written(write, geom, Some(bytes)) && #[trigger] is_decoded(read, bytes, out)
            ==> out == Some(geom)
}

/// A union survives the trip through its encoding, where the decoder gives back what the encoder
/// was given. A union with no polygon left comes back as the empty state.
pub proof fn law_a_union_survives_its_encoding<
    W: Fn(&Geometry) -> Option<Vec<u8>>,
    R: Fn(&wkb::reader::Wkb<'_>) -> Option<Geometry>,
>(state: Option<Seq<PolygonView>>, write: W, read: R, bytes: Seq<u8>, decoded: GeometryView)
    requires
        is_written(write, GeometryView::MultiPolygon(polygons_in(state)), Some(bytes)),
        is_decoded(read, bytes, Some(decoded)),
        is_inverse(write, read),
    ensures
        polygons_in(state).len() > 0 ==> shape_of(decoded) == state,
        polygons_in(state).len() == 0 ==> shape_of(decoded) is None,
{
}

/// True when the caller's union is the operation `op` on the polygons alone.
pub open spec fn is_operation<U: Fn(&Vec<Polygon>, &Vec<Polygon>) -> Vec<Polygon>>(
    union: U,
    op: spec_fn(Seq<PolygonView>, Seq<PolygonView>) -> Seq<PolygonView>,
) -> bool {
    forall|a: &Vec<Polygon>, b: &Vec<Polygon>, c: Vec<Polygon>| #[trigger]
        union.ensures((a, b), c) ==> polygons_view(c@) == op(polygons_view(a@), polygons_view(b@))
}

/// The union of two states.
pub open spec fn combined(
    op: spec_fn(Seq<PolygonView>, Seq<PolygonView>) -> Seq<PolygonView>,
    a: Option<Seq<PolygonView>>,
    b: Option<Seq<PolygonView>>,
) -> Option<Seq<PolygonView>> {
    match (a, b) {
        (Some(a), Some(b)) => Some(op(a, b)),
        (Some(a), None) => Some(a),
        (None, b) => b,
    }
}

proof fn lemma_folds_combine<U: Fn(&Vec<Polygon>, &Vec<Polygon>) -> Vec<Polygon>>(
    union: U,
    op: spec_fn(Seq<PolygonView>, Seq<PolygonView>) -> Seq<PolygonView>,
    start: Option<Seq<PolygonView>>,
    areas: Seq<Seq<PolygonView>>,
    alone: Option<Seq<PolygonView>>,
    after: Option<Seq<PolygonView>>,
)
    requires
        is_operation(union, op),
        forall|a: Seq<PolygonView>, b: Seq<PolygonView>, c: Seq<PolygonView>| #[trigger]
            op(op(a, b), c) == op(a, op(b, c)),
        is_folded(union, None, areas, alone),
        is_folded(union, start, areas, after),
    ensures
        after == combined(op, start, alone),
    decreases areas.len(),
{
    if areas.len() > 0 {
        let front = areas.drop_last();
        let last = areas.last();
        let x = choose|state: Option<Seq<PolygonView>>|
            is_folded(union, None, front, state) && #[trigger] is_absorbed(union, state, last, alone);
        let y = choose|state: Option<Seq<PolygonView>>|
            is_folded(union, start, front, state) && #[trigger] is_absorbed(
                union,
                state,
                last,
                after,
            );
        lemma_folds_combine(union, op, start, front, x, y);
        assert(alone == combined(op, x, Some(last)));
        assert(after == combined(op, y, Some(last)));
        if start is Some && x is Some {
            assert(op(op(start->0, x->0), last) == op(start->0, op(x->0, last)));
        }
    }
}

/// The unions of two partitions, merged, are the union of one pass over both, where the union is an
/// operation that does not mind its grouping.
pub proof fn law_unions_merge_to_a_single_pass<
    U: Fn(&Vec<Polygon>, &Vec<Polygon>) -> Vec<Polygon>,
>(
    union: U,
    op: spec_fn(Seq<PolygonView>, Seq<PolygonView>) -> Seq<PolygonView>,
    first: Seq<Seq<PolygonView>>,
    second: Seq<Seq<PolygonView>>,
    left: Option<Seq<PolygonView>>,
    right: Option<Seq<PolygonView>>,
    merged: Option<Seq<PolygonView>>,
    single: Option<Seq<PolygonView>>,
)
    requires
        is_operation(union, op),
        forall|a: Seq<PolygonView>, b: Seq<PolygonView>, c: Seq<PolygonView>| #[trigger]
            op(op(a, b), c) == op(a, op(b, c)),
        is_folded(union, None, first, left),
        is_folded(union, None, second, right),
        match right {
            Some(area) => is_absorbed(union, left, area, merged),
            None => merged == left,
        },
        is_folded(union, None, first + second, single),
    ensures
        merged == single,
{
    lemma_fold_splits(union, op, first, second, left, single);
    lemma_folds_combine(union, op, left, second, right, single);
    assert(merged == combined(op, left, right));
}

/// A fold over two lists is a fold over the second, from where the first one ends.
proof fn lemma_fold_splits<U: Fn(&Vec<Polygon>, &Vec<Polygon>) -> Vec<Polygon>>(
    union: U,
    op: spec_fn(Seq<PolygonView>, Seq<PolygonView>) -> Seq<PolygonView>,
    first: Seq<Seq<PolygonView>>,
    second: Seq<Seq<PolygonView>>,
    left: Option<Seq<PolygonView>>,
    single: Option<Seq<PolygonView>>,
)
    requires
        is_operation(union, op),
        is_folded(union, None, first, left),
        is_folded(union, None, first + second, single),
    ensures
        is_folded(union, left, second, single),
    decreases second.len(),
{
    if second.len() == 0 {
        assert(first + second =~= first);
        lemma_fold_is_unique(union, op, None, first, left, single);
    } else {
        assert((first + second).drop_last() =~= first + second.drop_last());
        let state = choose|state: Option<Seq<PolygonView>>|
            is_folded(union, None, (first + second).drop_last(), state) && #[trigger] is_absorbed(
                union,
                state,
                (first + second).last(),
                single,
            );
        lemma_fold_splits(union, op, first, second.drop_last(), left, state);
        assert(is_absorbed(union, state, second.last(), single));
    }
}

proof fn lemma_fold_is_unique<U: Fn(&Vec<Polygon>, &Vec<Polygon>) -> Vec<Polygon>>(
    union: U,
    op: spec_fn(Seq<PolygonView>, Seq<PolygonView>) -> Seq<PolygonView>,
    start: Option<Seq<PolygonView>>,
    areas: Seq<Seq<PolygonView>>,
    a: Option<Seq<PolygonView>>,
    b: Option<Seq<PolygonView>>,
)
    requires
        is_operation(union, op),
        is_folded(union, start, areas, a),
        is_folded(union, start, areas, b),
    ensures
        a == b,
    decreases areas.len(),
{
    if areas.len() > 0 {
        let x = choose|state: Option<Seq<PolygonView>>|
            is_folded(union, start, areas.drop_last(), state) && #[trigger] is_absorbed(
                union,
                state,
                areas.last(),
                a,
            );
        let y = choose|state: Option<Seq<PolygonView>>|
            is_folded(union, start, areas.drop_last(), state) && #[trigger] is_absorbed(
                union,
                state,
                areas.last(),
                b,
            );
        lemma_fold_is_unique(union, op, start, areas.drop_last(), x, y);
    }
}

/// The areas of two columns one after the other are those of the first and then those of the
/// second.
pub proof fn law_the_areas_of_joined_columns(left: ColumnView, right: ColumnView, both: ColumnView)
    requires
        are_joined(left, right, both),
    ensures
        areas_in(both, both.rows()) == areas_in(left, left.rows()) + areas_in(right, right.rows()),
{
    lemma_areas_suffix(left, right, both, right.rows());
}

proof fn lemma_areas_prefix(left: ColumnView, right: ColumnView, both: ColumnView, end: int)
    requires
        are_joined(left, right, both),
        0 <= end <= left.rows(),
    ensures
        areas_in(both, end) == areas_in(left, end),
    decreases end,
{
    if end > 0 {
        lemma_areas_prefix(left, right, both, end - 1);
        assert(both.raw(end - 1) == left.raw(end - 1));
    }
}

proof fn lemma_areas_suffix(left: ColumnView, right: ColumnView, both: ColumnView, end: int)
    requires
        are_joined(left, right, both),
        0 <= end <= right.rows(),
    ensures
        areas_in(both, left.rows() + end) == areas_in(left, left.rows()) + areas_in(right, end),
    decreases end,
{
    let head = areas_in(left, left.rows());
    if end <= 0 {
        lemma_areas_prefix(left, right, both, left.rows());
        assert(head + areas_in(right, end) =~= head);
    } else {
        lemma_areas_suffix(left, right, both, end - 1);
        assert(both.raw(left.rows() + end - 1) == right.raw(end - 1));
        if right.geometry(end - 1) is Some && area_of(right.geometry(end - 1)->0) is Some {
            let area = area_of(right.geometry(end - 1)->0)->0;
            assert(head + areas_in(right, end - 1).push(area) =~= (head + areas_in(
                right,
                end - 1,
            )).push(area));
        }
    }
}

} // verus!
