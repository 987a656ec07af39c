//! Geometry values.
//!
//! A geometry holds its coordinates in the plane. Higher ordinates stay in the columns of
//! [`crate::column`]: no operation on a single geometry reads them.
//!
//! Each type has a view without `Vec`. The views are what contracts speak of.

use vstd::prelude::*;
use crate::lists::{append_copies, lemma_flatten_all, lemma_flatten_none, lemma_flatten_step};
use crate::number;

verus! {

/// A position in the plane. Each ordinate is a bit pattern, see [`crate::number`].
///
/// A position whose two ordinates are both NaN stands for an empty point.
#[derive(Debug, Clone, Copy, PartialEq, Eq, Structural, Hash)]
pub struct Coord {
    /// The x ordinate.
    pub x: u64,
    /// The y ordinate.
    pub y: u64,
}

/// A shell and its holes.
#[derive(Debug, PartialEq, Eq)]
pub struct Polygon {
    /// The shell.
    pub exterior: Vec<Coord>,
    /// The holes.
    pub interiors: Vec<Vec<Coord>>,
}

/// Any geometry.
#[derive(Debug, PartialEq, Eq)]
pub enum Geometry {
    /// One position.
    Point(Coord),
    /// One segment, from the first position to the second.
    Line(Coord, Coord),
    /// A path.
    LineString(Vec<Coord>),
    /// An area.
    Polygon(Polygon),
    /// Several positions.
    MultiPoint(Vec<Coord>),
    /// Several paths.
    MultiLineString(Vec<Vec<Coord>>),
    /// Several areas.
    MultiPolygon(Vec<Polygon>),
    /// Several geometries of any type.
    GeometryCollection(Vec<Geometry>),
    /// A box, by its lower and its upper corner.
    Rect(Coord, Coord),
    /// A triangle.
    Triangle(Coord, Coord, Coord),
}

/// The view of a [`Polygon`].
#[verifier::ext_equal]
pub struct PolygonView {
    /// The shell.
    pub exterior: Seq<Coord>,
    /// The holes.
    pub interiors: Seq<Seq<Coord>>,
}

/// The view of a [`Geometry`].
#[verifier::ext_equal]
pub enum GeometryView {
    /// One position.
    Point(Coord),
    /// One segment.
    Line(Coord, Coord),
    /// A path.
    LineString(Seq<Coord>),
    /// An area.
    Polygon(PolygonView),
    /// Several positions.
    MultiPoint(Seq<Coord>),
    /// Several paths.
    MultiLineString(Seq<Seq<Coord>>),
    /// Several areas.
    MultiPolygon(Seq<PolygonView>),
    /// Several geometries.
    GeometryCollection(Seq<GeometryView>),
    /// A box.
    Rect(Coord, Coord),
    /// A triangle.
    Triangle(Coord, Coord, Coord),
}

/// The views of a list of paths.
pub open spec fn lines_view(lines: Seq<Vec<Coord>>) -> Seq<Seq<Coord>> {
    Seq::new(lines.len(), |i: int| lines[i]@)
}

/// The views of a list of areas.
pub open spec fn polygons_view(polygons: Seq<Polygon>) -> Seq<PolygonView> {
    Seq::new(polygons.len(), |i: int| polygons[i]@)
}

/// The views of a list of geometries.
pub open spec fn geometries_view(parts: Seq<Geometry>) -> Seq<GeometryView> {
    Seq::new(parts.len(), |i: int| parts[i]@)
}

impl View for Polygon {
    type V = PolygonView;

    open spec fn view(&self) -> PolygonView {
        PolygonView { exterior: self.exterior@, interiors: lines_view(self.interiors@) }
    }
}

impl View for Geometry {
    type V = GeometryView;

    open spec fn view(&self) -> GeometryView
        decreases self,
    {
        match self {
            Geometry::Point(c) => GeometryView::Point(*c),
            Geometry::Line(a, b) => GeometryView::Line(*a, *b),
            Geometry::LineString(l) => GeometryView::LineString(l@),
            Geometry::Polygon(p) => GeometryView::Polygon(p@),
            Geometry::MultiPoint(l) => GeometryView::MultiPoint(l@),
            Geometry::MultiLineString(l) => GeometryView::MultiLineString(lines_view(l@)),
            Geometry::MultiPolygon(l) => GeometryView::MultiPolygon(polygons_view(l@)),
            Geometry::GeometryCollection(l) => GeometryView::GeometryCollection(
                Seq::new(
                    l@.len(),
                    |i: int|
                        if 0 <= i < l@.len() {
                            l@[i].view()
                        } else {
                            arbitrary()
                        },
                ),
            ),
            Geometry::Rect(a, b) => GeometryView::Rect(*a, *b),
            Geometry::Triangle(a, b, c) => GeometryView::Triangle(*a, *b, *c),
        }
    }
}

/// A collection's view lists the views of its parts.
pub proof fn lemma_collection_view(parts: Vec<Geometry>)
    ensures
        Geometry::GeometryCollection(parts)@ == GeometryView::GeometryCollection(
            geometries_view(parts@),
        ),
{
    reveal_with_fuel(<Geometry as View>::view, 2);
    assert(Geometry::GeometryCollection(parts)@->GeometryCollection_0 =~= geometries_view(parts@));
}

// ------------------------------------------------------------------- positions
impl Coord {
    /// Equality of the two positions as numbers.
    pub open spec fn is_same(self, other: Coord) -> bool {
        number::is_eq(self.x, other.x) && number::is_eq(self.y, other.y)
    }

    /// True for the position of an empty point.
    pub open spec fn is_blank(self) -> bool {
        number::is_nan(self.x) && number::is_nan(self.y)
    }

    /// Equality of the two positions as numbers.
    pub fn same(&self, other: &Coord) -> (r: bool)
        ensures
            r == self.is_same(*other),
    {
        number::eq(self.x, other.x) && number::eq(self.y, other.y)
    }

    /// True for the position of an empty point.
    pub fn blank(&self) -> (r: bool)
        ensures
            r == self.is_blank(),
    {
        number::nan(self.x) && number::nan(self.y)
    }
}

// ----------------------------------------------------------------------- rings
/// True when a path ends where it starts. A path without coordinates counts as closed.
pub open spec fn is_closed_path(line: Seq<Coord>) -> bool {
    line.len() == 0 || line[0].is_same(line.last())
}

/// The path, with its first coordinate repeated at the end unless it is closed already.
pub open spec fn closing(line: Seq<Coord>) -> Seq<Coord> {
    if is_closed_path(line) {
        line
    } else {
        line.push(line[0])
    }
}

/// A polygon over a shell and holes, each of them closed.
pub open spec fn polygon_over(exterior: Seq<Coord>, interiors: Seq<Seq<Coord>>) -> PolygonView {
    PolygonView {
        exterior: closing(exterior),
        interiors: Seq::new(interiors.len(), |i: int| closing(interiors[i])),
    }
}

/// The corners of a box, counter clockwise from the lower right one.
pub open spec fn rect_corners(min: Coord, max: Coord) -> Seq<Coord> {
    seq![
        Coord { x: max.x, y: min.y },
        max,
        Coord { x: min.x, y: max.y },
        min,
    ]
}

/// The polygon that covers a box.
pub open spec fn rect_polygon(min: Coord, max: Coord) -> PolygonView {
    polygon_over(
        rect_corners(min, max).push(Coord { x: max.x, y: min.y }),
        Seq::empty(),
    )
}

/// The polygon that covers a triangle.
pub open spec fn triangle_polygon(a: Coord, b: Coord, c: Coord) -> PolygonView {
    polygon_over(seq![a, b, c, a], Seq::empty())
}

/// True when a path ends where it starts. A path without coordinates counts as closed.
pub fn path_is_closed(line: &Vec<Coord>) -> (r: bool)
    ensures
        r == is_closed_path(line@),
{
    let n: usize = line.len();
    n == 0 || line[0].same(&line[n - 1])
}

/// Close a path in place.
pub fn close(line: &mut Vec<Coord>)
    ensures
        final(line)@ == closing(old(line)@),
{
    if !path_is_closed(line) {
        let first = line[0];
        line.push(first);
    }
}

impl Polygon {
    /// Build a polygon. Every ring that is still open is closed.
    pub fn new(exterior: Vec<Coord>, interiors: Vec<Vec<Coord>>) -> (r: Polygon)
        ensures
            r@ == polygon_over(exterior@, lines_view(interiors@)),
    {
        let mut shell = exterior;
        close(&mut shell);
        let mut holes: Vec<Vec<Coord>> = Vec::new();
        let mut rest = interiors;
        let n: usize = rest.len();
        let ghost source = lines_view(rest@);
        // Take the holes from the back, so each one is moved and none is copied.
        let mut back: Vec<Vec<Coord>> = Vec::new();
        while rest.len() > 0
            invariant
                rest@.len() + back@.len() == n,
                source.len() == n,
                forall|i: int| 0 <= i < rest@.len() ==> #[trigger] rest@[i]@ == source[i],
                forall|i: int|
                    0 <= i < back@.len() ==> #[trigger] back@[i]@ == closing(source[n - 1 - i]),
            decreases rest@.len(),
        {
            let ghost before = rest@;
            let last = rest.pop();
            match last {
                Some(ring) => {
                    let mut hole = ring;
                    assert(hole@ == before[before.len() - 1]@);
                    close(&mut hole);
                    back.push(hole);
                },
                None => {},
            }
        }
        while back.len() > 0
            invariant
                holes@.len() + back@.len() == n,
                source.len() == n,
                forall|i: int|
                    0 <= i < back@.len() ==> #[trigger] back@[i]@ == closing(source[n - 1 - i]),
                forall|i: int|
                    0 <= i < holes@.len() ==> #[trigger] holes@[i]@ == closing(source[i]),
            decreases back@.len(),
        {
            let ghost before = back@;
            let last = back.pop();
            match last {
                Some(hole) => {
                    assert(hole@ == before[before.len() - 1]@);
                    holes.push(hole);
                },
                None => {},
            }
        }
        let r = Polygon { exterior: shell, interiors: holes };
        proof {
            assert(r@.interiors =~= polygon_over(exterior@, source).interiors);
        }
        r
    }
}

/// The polygon that covers a box.
pub fn rect_to_polygon(min: Coord, max: Coord) -> (r: Polygon)
    ensures
        r@ == rect_polygon(min, max),
{
    let mut ring: Vec<Coord> = Vec::new();
    ring.push(Coord { x: max.x, y: min.y });
    ring.push(max);
    ring.push(Coord { x: min.x, y: max.y });
    ring.push(min);
    ring.push(Coord { x: max.x, y: min.y });
    assert(ring@ =~= rect_corners(min, max).push(Coord { x: max.x, y: min.y }));
    let none: Vec<Vec<Coord>> = Vec::new();
    assert(lines_view(none@) =~= Seq::<Seq<Coord>>::empty());
    Polygon::new(ring, none)
}

/// The polygon that covers a triangle.
pub fn triangle_to_polygon(a: Coord, b: Coord, c: Coord) -> (r: Polygon)
    ensures
        r@ == triangle_polygon(a, b, c),
{
    let mut ring: Vec<Coord> = Vec::new();
    ring.push(a);
    ring.push(b);
    ring.push(c);
    ring.push(a);
    assert(ring@ =~= seq![a, b, c, a]);
    let none: Vec<Vec<Coord>> = Vec::new();
    assert(lines_view(none@) =~= Seq::<Seq<Coord>>::empty());
    Polygon::new(ring, none)
}

// ---------------------------------------------------------------------- copies
/// A copy of a path.
pub fn copy_line(line: &Vec<Coord>) -> (r: Vec<Coord>)
    ensures
        r@ == line@,
{
    let r = line.clone();
    assert(r@ =~= line@);
    r
}

/// A copy of a list of paths.
pub fn copy_lines(lines: &Vec<Vec<Coord>>) -> (r: Vec<Vec<Coord>>)
    ensures
        lines_view(r@) == lines_view(lines@),
{
    let mut r: Vec<Vec<Coord>> = Vec::new();
    for i in 0..lines.len()
        invariant
            r@.len() == i,
            forall|j: int| 0 <= j < i ==> #[trigger] r@[j]@ == lines@[j]@,
    {
        r.push(copy_line(&lines[i]));
    }
    assert(lines_view(r@) =~= lines_view(lines@));
    r
}

/// A copy of a polygon.
pub fn copy_polygon(polygon: &Polygon) -> (r: Polygon)
    ensures
        r@ == polygon@,
{
    Polygon { exterior: copy_line(&polygon.exterior), interiors: copy_lines(&polygon.interiors) }
}

/// A copy of a list of polygons.
pub fn copy_polygons(polygons: &Vec<Polygon>) -> (r: Vec<Polygon>)
    ensures
        polygons_view(r@) == polygons_view(polygons@),
{
    let mut r: Vec<Polygon> = Vec::new();
    for i in 0..polygons.len()
        invariant
            r@.len() == i,
            forall|j: int| 0 <= j < i ==> #[trigger] r@[j]@ == polygons@[j]@,
    {
        r.push(copy_polygon(&polygons[i]));
    }
    assert(polygons_view(r@) =~= polygons_view(polygons@));
    r
}

impl Geometry {
    /// A copy of this geometry.
    pub fn copy(&self) -> (r: Geometry)
        ensures
            r@ == self@,
        decreases self,
    {
        match self {
            Geometry::Point(c) => Geometry::Point(*c),
            Geometry::Line(a, b) => Geometry::Line(*a, *b),
            Geometry::LineString(l) => Geometry::LineString(copy_line(l)),
            Geometry::Polygon(p) => Geometry::Polygon(copy_polygon(p)),
            Geometry::MultiPoint(l) => Geometry::MultiPoint(copy_line(l)),
            Geometry::MultiLineString(l) => Geometry::MultiLineString(copy_lines(l)),
            Geometry::MultiPolygon(l) => Geometry::MultiPolygon(copy_polygons(l)),
            Geometry::GeometryCollection(l) => {
                let mut parts: Vec<Geometry> = Vec::new();
                for i in 0..l.len()
                    invariant
                        parts@.len() == i,
                        forall|j: int| 0 <= j < i ==> #[trigger] parts@[j]@ == l@[j]@,
                        *self == Geometry::GeometryCollection(*l),
                {
                    proof {
                        assert(decreases_to!(*l => l[i as int]));
                        assert(decreases_to!(*self => self->GeometryCollection_0));
                    }
                    let part = l[i].copy();
                    parts.push(part);
                }
                proof {
                    lemma_collection_view(parts);
                    lemma_collection_view(*l);
                    assert(geometries_view(parts@) =~= geometries_view(l@));
                }
                Geometry::GeometryCollection(parts)
            },
            Geometry::Rect(a, b) => Geometry::Rect(*a, *b),
            Geometry::Triangle(a, b, c) => Geometry::Triangle(*a, *b, *c),
        }
    }
}

// ---------------------------------------------------------------- coordinates
/// Every coordinate of a polygon, the shell first.
pub open spec fn polygon_coords(polygon: PolygonView) -> Seq<Coord> {
    polygon.exterior + polygon.interiors.flatten()
}

/// Every coordinate of a geometry, in the order of its parts.
///
/// A box gives its four corners and a triangle its three.
pub open spec fn coords_of(geom: GeometryView) -> Seq<Coord>
    decreases geom,
{
    match geom {
        GeometryView::Point(c) => seq![c],
        GeometryView::Line(a, b) => seq![a, b],
        GeometryView::LineString(line) => line,
        GeometryView::Polygon(polygon) => polygon_coords(polygon),
        GeometryView::MultiPoint(points) => points,
        GeometryView::MultiLineString(lines) => lines.flatten(),
        GeometryView::MultiPolygon(polygons) => Seq::new(
            polygons.len(),
            |i: int| polygon_coords(polygons[i]),
        ).flatten(),
        GeometryView::GeometryCollection(parts) => part_coords(parts).flatten(),
        GeometryView::Rect(min, max) => rect_corners(min, max),
        GeometryView::Triangle(a, b, c) => seq![a, b, c],
    }
}

/// The coordinates of each part of a collection.
pub open spec fn part_coords(parts: Seq<GeometryView>) -> Seq<Seq<Coord>>
    decreases parts,
{
    Seq::new(
        parts.len(),
        |i: int|
            if 0 <= i < parts.len() {
                coords_of(parts[i])
            } else {
                Seq::empty()
            },
    )
}

/// Append the coordinates of a list of paths.
fn push_lines(out: &mut Vec<Coord>, lines: &Vec<Vec<Coord>>)
    ensures
        final(out)@ == old(out)@ + lines_view(lines@).flatten(),
{
    let ghost lists = lines_view(lines@);
    proof {
        lemma_flatten_none(lists);
        assert(out@ =~= old(out)@ + lists.take(0).flatten());
    }
    for i in 0..lines.len()
        invariant
            lists == lines_view(lines@),
            out@ == old(out)@ + lists.take(i as int).flatten(),
    {
        append_copies(out, &lines[i]);
        proof {
            lemma_flatten_step(lists, i as int);
            assert(out@ =~= old(out)@ + lists.take(i + 1).flatten());
        }
    }
    proof {
        lemma_flatten_all(lists);
    }
}

/// Append the coordinates of a polygon.
fn push_polygon(out: &mut Vec<Coord>, polygon: &Polygon)
    ensures
        final(out)@ == old(out)@ + polygon_coords(polygon@),
{
    append_copies(out, &polygon.exterior);
    push_lines(out, &polygon.interiors);
    assert(out@ =~= old(out)@ + polygon_coords(polygon@));
}

/// Append every coordinate of a geometry.
fn push_coords(out: &mut Vec<Coord>, geom: &Geometry)
    ensures
        final(out)@ == old(out)@ + coords_of(geom@),
    decreases geom,
{
    match geom {
        Geometry::Point(c) => {
            out.push(*c);
            assert(out@ =~= old(out)@ + coords_of(geom@));
        },
        Geometry::Line(a, b) => {
            out.push(*a);
            out.push(*b);
            assert(out@ =~= old(out)@ + coords_of(geom@));
        },
        Geometry::LineString(line) => append_copies(out, line),
        Geometry::Polygon(polygon) => push_polygon(out, polygon),
        Geometry::MultiPoint(points) => append_copies(out, points),
        Geometry::MultiLineString(lines) => push_lines(out, lines),
        Geometry::MultiPolygon(polygons) => {
            let ghost views = polygons_view(polygons@);
            let ghost lists = Seq::new(views.len(), |i: int| polygon_coords(views[i]));
            proof {
                lemma_flatten_none(lists);
                assert(out@ =~= old(out)@ + lists.take(0).flatten());
            }
            for i in 0..polygons.len()
                invariant
                    views == polygons_view(polygons@),
                    lists == Seq::new(views.len(), |i: int| polygon_coords(views[i])),
                    out@ == old(out)@ + lists.take(i as int).flatten(),
            {
                push_polygon(out, &polygons[i]);
                proof {
                    lemma_flatten_step(lists, i as int);
                    assert(out@ =~= old(out)@ + lists.take(i + 1).flatten());
                }
            }
            proof {
                lemma_flatten_all(lists);
            }
        },
        Geometry::GeometryCollection(parts) => {
            let ghost views = geometries_view(parts@);
            let ghost lists = part_coords(views);
            proof {
                lemma_flatten_none(lists);
                assert(out@ =~= old(out)@ + lists.take(0).flatten());
            }
            for i in 0..parts.len()
                invariant
                    *geom == Geometry::GeometryCollection(*parts),
                    views == geometries_view(parts@),
                    lists == part_coords(views),
                    out@ == old(out)@ + lists.take(i as int).flatten(),
            {
                proof {
                    assert(decreases_to!(*parts => parts[i as int]));
                    assert(decreases_to!(*geom => geom->GeometryCollection_0));
                }
                push_coords(out, &parts[i]);
                proof {
                    reveal_with_fuel(part_coords, 2);
                    lemma_flatten_step(lists, i as int);
                    assert(out@ =~= old(out)@ + lists.take(i + 1).flatten());
                }
            }
            proof {
                lemma_flatten_all(lists);
                lemma_collection_view(*parts);
            }
        },
        Geometry::Rect(min, max) => {
            out.push(Coord { x: max.x, y: min.y });
            out.push(*max);
            out.push(Coord { x: min.x, y: max.y });
            out.push(*min);
            assert(out@ =~= old(out)@ + coords_of(geom@));
        },
        Geometry::Triangle(a, b, c) => {
            out.push(*a);
            out.push(*b);
            out.push(*c);
            assert(out@ =~= old(out)@ + coords_of(geom@));
        },
    }
}

impl Geometry {
    /// Every coordinate of this geometry, in the order of its parts.
    pub fn coords(&self) -> (r: Vec<Coord>)
        ensures
            r@ == coords_of(self@),
    {
        let mut out: Vec<Coord> = Vec::new();
        push_coords(&mut out, self);
        assert(out@ =~= coords_of(self@));
        out
    }
}

} // verus!
