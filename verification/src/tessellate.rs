//! Tessellation functions.
//!
//! `ST_DelaunayTriangles`, `ST_VoronoiPolygons` and `ST_VoronoiLines` each turn one geometry into
//! many, so they return a collection per row rather than a geometry per row.
//!
//! # Where the vertices come from
//!
//! All three read only the vertices of the input. A polygon and the multi point of its corners
//! give the same triangulation, which is what PostGIS does too.

use vstd::prelude::*;
use crate::column::Column;
use crate::component::geometry_view;
use crate::error::Error;
use crate::geometry::{
    coords_of, copy_polygon, geometries_view, lemma_collection_view, lines_view, polygons_view,
    triangle_polygon, triangle_to_polygon, Coord, Geometry, GeometryView, Polygon, PolygonView,
};
use crate::rows::map_geometries;

verus! {

/// Which tessellation to build.
#[derive(Debug, Clone, Copy, PartialEq, Eq, Structural, Hash)]
pub enum Tessellation {
    /// `ST_DelaunayTriangles`. A collection of triangles over the input vertices.
    Delaunay,
    /// `ST_VoronoiPolygons`. A collection of cells, one per input vertex.
    VoronoiPolygons,
    /// `ST_VoronoiLines`. The cell boundaries as one multi line string.
    VoronoiLines,
}

/// The algorithms that the caller supplies. Each of them may find nothing to build.
pub struct TessellationTools<T, C, E> {
    /// The triangles over a list of positions.
    pub triangles: T,
    /// The cell around each position.
    pub cells: C,
    /// The edges between the cells.
    pub edges: E,
}

/// True when the algorithms can be asked.
pub open spec fn can_tessellate<T, C, E>(tools: TessellationTools<T, C, E>) -> bool where
    T: Fn(&Vec<Coord>) -> Option<Vec<(Coord, Coord, Coord)>>,
    C: Fn(&Vec<Coord>) -> Option<Vec<Polygon>>,
    E: Fn(&Vec<Coord>) -> Option<Vec<(Coord, Coord)>>,
 {
    &&& forall|v: &Vec<Coord>| #[trigger] tools.triangles.requires((v,))
    &&& forall|v: &Vec<Coord>| #[trigger] tools.cells.requires((v,))
    &&& forall|v: &Vec<Coord>| #[trigger] tools.edges.requires((v,))
}

/// True when three vertices lie at three different positions.
pub open spec fn has_three(vertices: Seq<Coord>) -> bool {
    exists|i: int, j: int, k: int| #[trigger] are_three(vertices, i, j, k)
}

/// True when the three vertices lie at three different positions.
pub open spec fn are_three(vertices: Seq<Coord>, i: int, j: int, k: int) -> bool {
    &&& 0 <= i < j < k < vertices.len()
    &&& !vertices[i].is_same(vertices[j])
    &&& !vertices[i].is_same(vertices[k])
    &&& !vertices[j].is_same(vertices[k])
}

/// The triangles as a collection of polygons.
pub open spec fn triangle_parts(triangles: Seq<(Coord, Coord, Coord)>) -> Seq<GeometryView> {
    Seq::new(
        triangles.len(),
        |i: int|
            GeometryView::Polygon(
                triangle_polygon(triangles[i].0, triangles[i].1, triangles[i].2),
            ),
    )
}

/// The cells as a collection of polygons.
pub open spec fn cell_parts(cells: Seq<PolygonView>) -> Seq<GeometryView> {
    Seq::new(cells.len(), |i: int| GeometryView::Polygon(cells[i]))
}

/// The edges as lines of two vertices.
pub open spec fn edge_lines(edges: Seq<(Coord, Coord)>) -> Seq<Seq<Coord>> {
    Seq::new(edges.len(), |i: int| seq![edges[i].0, edges[i].1])
}

/// True when at least three vertices lie at different positions.
pub fn three_distinct(vertices: &Vec<Coord>) -> (r: bool)
    ensures
        r == has_three(vertices@),
{
    let n: usize = vertices.len();
    if n < 3 {
        return false;
    }
    let first = vertices[0];
    let mut j: usize = 1;
    while j < n && vertices[j].same(&first)
        invariant
            1 <= j <= n,
            n == vertices@.len(),
            first == vertices@[0],
            forall|i: int| 1 <= i < j ==> (#[trigger] vertices@[i]).is_same(first),
        decreases n - j,
    {
        j = j + 1;
    }
    if j == n {
        assert forall|a: int, b: int, c: int| !#[trigger] are_three(vertices@, a, b, c) by {
            if are_three(vertices@, a, b, c) {
                assert(vertices@[b].is_same(first));
                assert(vertices@[c].is_same(first));
            }
        }
        return false;
    }
    let second = vertices[j];
    let mut k: usize = j + 1;
    while k < n && (vertices[k].same(&first) || vertices[k].same(&second))
        invariant
            1 <= j < k <= n,
            n == vertices@.len(),
            first == vertices@[0],
            second == vertices@[j as int],
            !second.is_same(first),
            forall|i: int| 1 <= i < j ==> (#[trigger] vertices@[i]).is_same(first),
            forall|i: int|
                j < i < k ==> (#[trigger] vertices@[i]).is_same(first) || vertices@[i].is_same(
                    second,
                ),
        decreases n - k,
    {
        k = k + 1;
    }
    if k == n {
        assert forall|a: int, b: int, c: int| !#[trigger] are_three(vertices@, a, b, c) by {
            if are_three(vertices@, a, b, c) {
                assert(a == 0 || a == j || vertices@[a].is_same(first) || vertices@[a].is_same(
                    second,
                ));
                assert(b == j || vertices@[b].is_same(first) || vertices@[b].is_same(second));
                assert(c == j || vertices@[c].is_same(first) || vertices@[c].is_same(second));
            }
        }
        return false;
    }
    assert(are_three(vertices@, 0, j as int, k as int));
    true
}

impl Tessellation {
    /// The PostGIS function name.
    pub open spec fn name_text(self) -> Seq<char> {
        match self {
            Tessellation::Delaunay => "ST_DelaunayTriangles"@,
            Tessellation::VoronoiPolygons => "ST_VoronoiPolygons"@,
            Tessellation::VoronoiLines => "ST_VoronoiLines"@,
        }
    }

    /// The lowercase SQL name.
    pub open spec fn sql_text(self) -> Seq<char> {
        match self {
            Tessellation::Delaunay => "st_delaunaytriangles"@,
            Tessellation::VoronoiPolygons => "st_voronoipolygons"@,
            Tessellation::VoronoiLines => "st_voronoilines"@,
        }
    }

    /// The PostGIS function name.
    pub fn function_name(self) -> (r: &'static str)
        ensures
            r@ == self.name_text(),
    {
        match self {
            Tessellation::Delaunay => "ST_DelaunayTriangles",
            Tessellation::VoronoiPolygons => "ST_VoronoiPolygons",
            Tessellation::VoronoiLines => "ST_VoronoiLines",
        }
    }

    /// The lowercase SQL name.
    pub fn sql_name(self) -> (r: &'static str)
        ensures
            r@ == self.sql_text(),
    {
        match self {
            Tessellation::Delaunay => "st_delaunaytriangles",
            Tessellation::VoronoiPolygons => "st_voronoipolygons",
            Tessellation::VoronoiLines => "st_voronoilines",
        }
    }

    /// Every tessellation, for registration.
    pub fn all() -> (r: [Tessellation; 3])
        ensures
            r@ == seq![
                Tessellation::Delaunay,
                Tessellation::VoronoiPolygons,
                Tessellation::VoronoiLines,
            ],
    {
        let r = [
            Tessellation::Delaunay,
            Tessellation::VoronoiPolygons,
            Tessellation::VoronoiLines,
        ];
        assert(r@ =~= seq![
            Tessellation::Delaunay,
            Tessellation::VoronoiPolygons,
            Tessellation::VoronoiLines,
        ]);
        r
    }

    /// True when `out` is the tessellation of a geometry: nothing where it has too few different
    /// vertices, or where the algorithm finds nothing to build.
    pub open spec fn is_applied<T, C, E>(
        self,
        tools: TessellationTools<T, C, E>,
        geom: GeometryView,
        out: Option<GeometryView>,
    ) -> bool where
        T: Fn(&Vec<Coord>) -> Option<Vec<(Coord, Coord, Coord)>>,
        C: Fn(&Vec<Coord>) -> Option<Vec<Polygon>>,
        E: Fn(&Vec<Coord>) -> Option<Vec<(Coord, Coord)>>,
     {
        let vertices = coords_of(geom);
        if !has_three(vertices) {
            out is None
        } else {
            match self {
                Tessellation::Delaunay => exists|
                    v: Vec<Coord>,
                    found: Option<Vec<(Coord, Coord, Coord)>>,
                |
                    {
                        &&& #[trigger] tools.triangles.ensures((&v,), found)
                        &&& v@ == vertices
                        &&& out == match found {
                            Some(triangles) => Some(
                                GeometryView::GeometryCollection(triangle_parts(triangles@)),
                            ),
                            None => None,
                        }
                    },
                Tessellation::VoronoiPolygons => exists|
                    v: Vec<Coord>,
                    found: Option<Vec<Polygon>>,
                |
                    {
                        &&& #[trigger] tools.cells.ensures((&v,), found)
                        &&& v@ == vertices
                        &&& out == match found {
                            Some(cells) => Some(
                                GeometryView::GeometryCollection(
                                    cell_parts(polygons_view(cells@)),
                                ),
                            ),
                            None => None,
                        }
                    },
                Tessellation::VoronoiLines => exists|
                    v: Vec<Coord>,
                    found: Option<Vec<(Coord, Coord)>>,
                |
                    {
                        &&& #[trigger] tools.edges.ensures((&v,), found)
                        &&& v@ == vertices
                        &&& out == match found {
                            Some(edges) => Some(
                                GeometryView::MultiLineString(edge_lines(edges@)),
                            ),
                            None => None,
                        }
                    },
            }
        }
    }

    /// Build the tessellation of one geometry.
    ///
    /// Returns `None` when the input has too few distinct vertices to tessellate, which PostGIS
    /// also reports as an empty result rather than an error.
    pub fn apply<T, C, E>(self, geom: &Geometry, tools: &TessellationTools<T, C, E>) -> (r: Option<
        Geometry,
    >) where
        T: Fn(&Vec<Coord>) -> Option<Vec<(Coord, Coord, Coord)>>,
        C: Fn(&Vec<Coord>) -> Option<Vec<Polygon>>,
        E: Fn(&Vec<Coord>) -> Option<Vec<(Coord, Coord)>>,

        requires
            can_tessellate(*tools),
        ensures
            self.is_applied(*tools, geom@, geometry_view(r)),
    {
        // Every algorithm works from the vertex set.
        let vertices = geom.coords();
        if !three_distinct(&vertices) {
            return None;
        }
        match self {
            Tessellation::Delaunay => {
                let triangles = &tools.triangles;
                let found = triangles(&vertices);
                assert(triangles.ensures((&vertices,), found));
                match found {
                    Some(list) => Some(triangle_collection(&list)),
                    None => None,
                }
            },
            Tessellation::VoronoiPolygons => {
                let cells = &tools.cells;
                let found = cells(&vertices);
                assert(cells.ensures((&vertices,), found));
                match found {
                    Some(list) => Some(cell_collection(list)),
                    None => None,
                }
            },
            Tessellation::VoronoiLines => {
                let edges = &tools.edges;
                let found = edges(&vertices);
                assert(edges.ensures((&vertices,), found));
                match found {
                    Some(list) => Some(edge_line_strings(&list)),
                    None => None,
                }
            },
        }
    }
}

fn triangle_collection(triangles: &Vec<(Coord, Coord, Coord)>) -> (r: Geometry)
    ensures
        r@ == GeometryView::GeometryCollection(triangle_parts(triangles@)),
{
    let mut parts: Vec<Geometry> = Vec::new();
    let mut i: usize = 0;
    while i < triangles.len()
        invariant
            i <= triangles@.len(),
            parts@.len() == i,
            forall|j: int|
                0 <= j < i ==> (#[trigger] parts@[j])@ == triangle_parts(triangles@)[j],
        decreases triangles@.len() - i,
    {
        let (a, b, c) = triangles[i];
        parts.push(Geometry::Polygon(triangle_to_polygon(a, b, c)));
        i = i + 1;
    }
    proof {
        lemma_collection_view(parts);
        assert(geometries_view(parts@) =~= triangle_parts(triangles@));
    }
    Geometry::GeometryCollection(parts)
}

fn cell_collection(cells: Vec<Polygon>) -> (r: Geometry)
    ensures
        r@ == GeometryView::GeometryCollection(cell_parts(polygons_view(cells@))),
{
    let mut parts: Vec<Geometry> = Vec::new();
    let mut i: usize = 0;
    while i < cells.len()
        invariant
            i <= cells@.len(),
            parts@.len() == i,
            forall|j: int|
                0 <= j < i ==> (#[trigger] parts@[j])@ == GeometryView::Polygon(cells@[j]@),
        decreases cells@.len() - i,
    {
        parts.push(Geometry::Polygon(copy_polygon(&cells[i])));
        i = i + 1;
    }
    proof {
        lemma_collection_view(parts);
        assert(geometries_view(parts@) =~= cell_parts(polygons_view(cells@)));
    }
    Geometry::GeometryCollection(parts)
}

fn edge_line_strings(edges: &Vec<(Coord, Coord)>) -> (r: Geometry)
    ensures
        r@ == GeometryView::MultiLineString(edge_lines(edges@)),
{
    let mut lines: Vec<Vec<Coord>> = Vec::new();
    let mut i: usize = 0;
    while i < edges.len()
        invariant
            i <= edges@.len(),
            lines@.len() == i,
            forall|j: int| 0 <= j < i ==> (#[trigger] lines@[j])@ == edge_lines(edges@)[j],
        decreases edges@.len() - i,
    {
        let (a, b) = edges[i];
        let line = vec![a, b];
        assert(line@ =~= edge_lines(edges@)[i as int]);
        lines.push(line);
        i = i + 1;
    }
    assert(lines_view(lines@) =~= edge_lines(edges@));
    Geometry::MultiLineString(lines)
}

/// Any tessellation over a column.
pub fn tessellate<T, C, E>(
    array: &Column,
    kind: Tessellation,
    tools: &TessellationTools<T, C, E>,
) -> (r: Result<Vec<Option<Geometry>>, Error>) where
    T: Fn(&Vec<Coord>) -> Option<Vec<(Coord, Coord, Coord)>>,
    C: Fn(&Vec<Coord>) -> Option<Vec<Polygon>>,
    E: Fn(&Vec<Coord>) -> Option<Vec<(Coord, Coord)>>,

    requires
        array.wf(),
        can_tessellate(*tools),
    ensures
        match r {
            Ok(out) => {
                &&& !array@.has_broken(array.rows())
                &&& out@.len() == array.rows()
                &&& forall|i: int|
                    0 <= i < out@.len() ==> match array@.geometry(i) {
                        Some(geom) => kind.is_applied(
                            *tools,
                            geom,
                            geometry_view(#[trigger] out@[i]),
                        ),
                        None => out@[i] is None,
                    }
            },
            Err(error) => array@.has_broken(array.rows()) && error == Error::Undecodable,
        },
{
    let f = |geom: &Geometry| -> (out: Option<Geometry>)
        ensures
            kind.is_applied(*tools, geom@, geometry_view(out)),
        { kind.apply(geom, tools) };
    map_geometries(array, &f)
}

// ------------------------------------------------------------------------ laws
/// Only the vertices matter: geometries with the same vertices tessellate the same way.
pub proof fn law_only_the_vertices_matter<T, C, E>(
    tools: TessellationTools<T, C, E>,
    kind: Tessellation,
    a: GeometryView,
    b: GeometryView,
    out: Option<GeometryView>,
) where
    T: Fn(&Vec<Coord>) -> Option<Vec<(Coord, Coord, Coord)>>,
    C: Fn(&Vec<Coord>) -> Option<Vec<Polygon>>,
    E: Fn(&Vec<Coord>) -> Option<Vec<(Coord, Coord)>>,

    requires
        coords_of(a) == coords_of(b),
    ensures
        kind.is_applied(tools, a, out) == kind.is_applied(tools, b, out),
{
}

/// Fewer than three vertices cannot be tessellated.
pub proof fn law_two_vertices_give_nothing<T, C, E>(
    tools: TessellationTools<T, C, E>,
    kind: Tessellation,
    geom: GeometryView,
    out: Option<GeometryView>,
) where
    T: Fn(&Vec<Coord>) -> Option<Vec<(Coord, Coord, Coord)>>,
    C: Fn(&Vec<Coord>) -> Option<Vec<Polygon>>,
    E: Fn(&Vec<Coord>) -> Option<Vec<(Coord, Coord)>>,

    requires
        coords_of(geom).len() < 3,
        kind.is_applied(tools, geom, out),
    ensures
        out is None,
{
    assert forall|i: int, j: int, k: int| !#[trigger] are_three(coords_of(geom), i, j, k) by {}
}

} // verus!
