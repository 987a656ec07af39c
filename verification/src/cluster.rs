//! Cluster functions.
//!
//! `ST_ClusterKMeans` and `ST_ClusterDBSCAN` assign a cluster id to every row. Each one reads
//! *all* the rows together. PostGIS makes them window functions for that reason. So does this
//! crate.
//!
//! Both read the representative point of each geometry, which is its centroid. PostGIS clusters on
//! the whole geometry for DBSCAN, so a row whose extent is much larger than `eps` may land in a
//! different cluster here.

use vstd::prelude::*;
use crate::call::{constant_number, constant_usize, first_of};
use crate::column::{Column, ColumnView};
use crate::error::Error;
use crate::geometry::{Coord, Geometry, GeometryView};
use crate::number;
use crate::rows::map_geometries;

verus! {

/// Which cluster algorithm to run.
#[derive(Debug, Clone, Copy, PartialEq, Eq, Structural, Hash)]
pub enum Cluster {
    /// `ST_ClusterKMeans(geom, k)`.
    KMeans,
    /// `ST_ClusterDBSCAN(geom, eps, minpoints)`.
    Dbscan,
}

impl Cluster {
    /// The PostGIS function name.
    pub open spec fn name_text(self) -> Seq<char> {
        match self {
            Cluster::KMeans => "ST_ClusterKMeans"@,
            Cluster::Dbscan => "ST_ClusterDBSCAN"@,
        }
    }

    /// The lowercase SQL name.
    pub open spec fn sql_text(self) -> Seq<char> {
        match self {
            Cluster::KMeans => "st_clusterkmeans"@,
            Cluster::Dbscan => "st_clusterdbscan"@,
        }
    }

    /// The PostGIS function name.
    pub fn function_name(self) -> (r: &'static str)
        ensures
            r@ == self.name_text(),
    {
        match self {
            Cluster::KMeans => "ST_ClusterKMeans",
            Cluster::Dbscan => "ST_ClusterDBSCAN",
        }
    }

    /// The lowercase SQL name.
    pub fn sql_name(self) -> (r: &'static str)
        ensures
            r@ == self.sql_text(),
    {
        match self {
            Cluster::KMeans => "st_clusterkmeans",
            Cluster::Dbscan => "st_clusterdbscan",
        }
    }

    /// How many numbers follow the geometry argument.
    pub fn parameter_count(self) -> (r: usize)
        ensures
            r == match self {
                Cluster::KMeans => 1,
                Cluster::Dbscan => 2int,
            },
    {
        match self {
            Cluster::KMeans => 1,
            Cluster::Dbscan => 2,
        }
    }

    /// Every cluster function, for registration.
    pub fn all() -> (r: [Cluster; 2])
        ensures
            r@ == seq![
                Cluster::KMeans,
                Cluster::Dbscan,
            ],
    {
        let r = [
            Cluster::KMeans,
            Cluster::Dbscan,
        ];
        assert(r@ =~= seq![
            Cluster::KMeans,
            Cluster::Dbscan,
        ]);
        r
    }
}

/// Fixed so a query is reproducible.
pub const KMEANS_SEED: u64 = 0x5EED;

/// True when `c` is the centroid of a geometry.
pub open spec fn is_centroid<C: Fn(&Geometry) -> Option<Coord>>(
    centroid: C,
    geom: GeometryView,
    c: Option<Coord>,
) -> bool {
    exists|g: Geometry| #[trigger] g@ == geom && centroid.ensures((&g,), c)
}

/// True when `points` has the centroid of each row. A null has none.
pub open spec fn are_centroids<C: Fn(&Geometry) -> Option<Coord>>(
    array: ColumnView,
    centroid: C,
    points: Seq<Option<Coord>>,
) -> bool {
    &&& points.len() == array.rows()
    &&& forall|i: int|
        0 <= i < points.len() ==> match array.geometry(i) {
            Some(geom) => is_centroid(centroid, geom, #[trigger] points[i]),
            None => points[i] is None,
        }
}

/// The points of the rows before `end` that have one.
pub open spec fn taking_part(points: Seq<Option<Coord>>, end: int) -> Seq<Coord>
    decreases end,
{
    if end <= 0 {
        Seq::empty()
    } else {
        match points[end - 1] {
            Some(c) => taking_part(points, end - 1).push(c),
            None => taking_part(points, end - 1),
        }
    }
}

/// The id of each row: that of its point in the assignment, nothing for a row without a point.
pub open spec fn labels(points: Seq<Option<Coord>>, assignment: Seq<Option<usize>>) -> Seq<Option<i32>> {
    Seq::new(
        points.len(),
        |i: int|
            match points[i] {
                Some(_) => match assignment[taking_part(points, i).len() as int] {
                    Some(id) => Some(id as i32),
                    None => None,
                },
                None => None,
            },
    )
}

/// The points that take part, and where the point of each row sits in that list.
///
/// A row with no point is absent from the first list and `None` in the second.
#[derive(Debug)]
pub struct ClusterInput {
    /// The points that take part.
    pub points: Vec<Coord>,
    /// Where the point of each row sits.
    pub slots: Vec<Option<usize>>,
}

/// True when the input lists the points that take part, and their rows.
pub open spec fn is_input(points: Seq<Option<Coord>>, input: ClusterInput) -> bool {
    &&& input.points@ == taking_part(points, points.len() as int)
    &&& input.slots@.len() == points.len()
    &&& forall|i: int|
        0 <= i < points.len() ==> match points[i] {
            Some(_) => #[trigger] input.slots@[i] is Some && input.slots@[i]->0 == taking_part(
                points,
                i,
            ).len(),
            None => input.slots@[i] is None,
        }
}

/// The representative point of every row, and which rows had one.
///
/// A null or empty geometry has no point. It takes no part, and its cluster id is null.
pub fn representative_points<C: Fn(&Geometry) -> Option<Coord>>(array: &Column, centroid: &C) -> (r:
    Result<ClusterInput, Error>)
    requires
        array.wf(),
        forall|g: &Geometry| #[trigger] centroid.requires((g,)),
    ensures
        match r {
            Ok(input) => !array@.has_broken(array.rows()) && exists|points: Seq<Option<Coord>>|
                #[trigger]
                are_centroids(array@, *centroid, points) && is_input(points, input),
            Err(error) => array@.has_broken(array.rows()) && error == Error::Undecodable,
        },
{
    let f = |geom: &Geometry| -> (out: Option<Coord>)
        ensures
            is_centroid(*centroid, geom@, out),
        { centroid_of(geom, centroid) };
    let found: Vec<Option<Coord>> = match map_geometries(array, &f) {
        Ok(found) => found,
        Err(error) => {
            return Err(error);
        },
    };
    let mut points: Vec<Coord> = Vec::new();
    let mut slots: Vec<Option<usize>> = Vec::new();
    let mut i: usize = 0;
    while i < found.len()
        invariant
            i <= found@.len(),
            points@ == taking_part(found@, i as int),
            slots@.len() == i,
            forall|j: int|
                0 <= j < i ==> match found@[j] {
                    Some(_) => #[trigger] slots@[j] is Some && slots@[j]->0 == taking_part(
                        found@,
                        j,
                    ).len(),
                    None => slots@[j] is None,
                },
        decreases found@.len() - i,
    {
        match found[i] {
            Some(c) => {
                slots.push(Some(points.len()));
                points.push(c);
            },
            None => {
                slots.push(None);
            },
        }
        i = i + 1;
    }
    assert(are_centroids(array@, *centroid, found@));
    Ok(ClusterInput { points, slots })
}

fn centroid_of<C: Fn(&Geometry) -> Option<Coord>>(geom: &Geometry, centroid: &C) -> (r: Option<Coord>)
    requires
        forall|g: &Geometry| #[trigger] centroid.requires((g,)),
    ensures
        is_centroid(*centroid, geom@, r),
{
    let r = centroid(geom);
    assert(centroid.ensures((geom,), r));
    r
}

proof fn lemma_taking_part_grows(points: Seq<Option<Coord>>, start: int, end: int)
    requires
        0 <= start <= end <= points.len(),
    ensures
        taking_part(points, start).len() <= taking_part(points, end).len(),
        start < end && points[start] is Some ==> taking_part(points, start).len() < taking_part(
            points,
            end,
        ).len(),
    decreases end - start,
{
    if start < end {
        lemma_taking_part_grows(points, start, end - 1);
    }
}

/// Give each row the id of its point.
fn label(
    input: &ClusterInput,
    assignment: &Vec<Option<usize>>,
    Ghost(points): Ghost<Seq<Option<Coord>>>,
) -> (r: Vec<Option<i32>>)
    requires
        is_input(points, *input),
        assignment@.len() == input.points@.len(),
    ensures
        r@ == labels(points, assignment@),
{
    let mut out: Vec<Option<i32>> = Vec::new();
    let mut i: usize = 0;
    while i < input.slots.len()
        invariant
            i <= input.slots@.len(),
            is_input(points, *input),
            assignment@.len() == input.points@.len(),
            out@.len() == i,
            forall|j: int| 0 <= j < i ==> #[trigger] out@[j] == labels(points, assignment@)[j],
        decreases input.slots@.len() - i,
    {
        proof {
            lemma_taking_part_grows(points, i as int, points.len() as int);
            assert(input.slots@[i as int] is Some == points[i as int] is Some);
        }
        let id: Option<i32> = match input.slots[i] {
            Some(at) => match assignment[at] {
                Some(id) => Some(wrapped(id)),
                None => None,
            },
            None => None,
        };
        out.push(id);
        i = i + 1;
    }
    assert(out@ =~= labels(points, assignment@));
    out
}

#[verifier::truncate]
fn wrapped(id: usize) -> (r: i32)
    ensures
        r == id as i32,
{
    id as i32
}

/// True when the assignment was computed for the points.
pub open spec fn is_partition<K: Fn(&Vec<Coord>, usize, u64) -> Option<Vec<usize>>>(
    kmeans: K,
    points: Seq<Coord>,
    k: usize,
    assignment: Option<Seq<usize>>,
) -> bool {
    exists|v: Vec<Coord>, found: Option<Vec<usize>>|
        {
            &&& #[trigger] kmeans.ensures((&v, k, KMEANS_SEED), found)
            &&& v@ == points
            &&& assignment == match found {
                Some(list) => Some(list@),
                None => None,
            }
        }
}

/// Each id of an assignment.
pub open spec fn each(assignment: Seq<usize>) -> Seq<Option<usize>> {
    Seq::new(assignment.len(), |i: int| Some(assignment[i]))
}

/// What a partition into `k` clusters gives.
pub open spec fn is_kmeans<C, K>(
    array: ColumnView,
    k: usize,
    centroid: C,
    kmeans: K,
    r: Result<Vec<Option<i32>>, Error>,
) -> bool where
    C: Fn(&Geometry) -> Option<Coord>,
    K: Fn(&Vec<Coord>, usize, u64) -> Option<Vec<usize>>,
 {
    match r {
        Ok(out) => {
            &&& !array.has_broken(array.rows())
            &&& exists|points: Seq<Option<Coord>>, assignment: Seq<usize>|
                {
                    let taking = taking_part(points, points.len() as int);
                    &&& #[trigger] are_centroids(array, centroid, points)
                    &&& 1 <= k <= taking.len()
                    &&& is_partition(kmeans, taking, k, Some(assignment))
                    &&& out@ == #[trigger] labels(points, each(assignment))
                }
        },
        Err(Error::ClusterCount { k: asked, geometries }) => {
            &&& asked == k
            &&& exists|points: Seq<Option<Coord>>| #[trigger]
                are_centroids(array, centroid, points) && geometries == taking_part(
                    points,
                    points.len() as int,
                ).len() && (k == 0 || k > geometries)
        },
        Err(Error::External) => exists|points: Seq<Option<Coord>>| #[trigger]
            are_centroids(array, centroid, points) && is_partition(
                kmeans,
                taking_part(points, points.len() as int),
                k,
                None,
            ),
        Err(Error::Undecodable) => array.has_broken(array.rows()),
        Err(_) => false,
    }
}

/// `ST_ClusterKMeans`. Partition the rows into `k` clusters.
///
/// A fixed seed is used, so the same input always gives the same assignment. PostGIS makes no such
/// promise, but a query that is not reproducible is worse than one that is.
pub fn st_cluster_kmeans<C, K>(array: &Column, k: usize, centroid: &C, kmeans: &K) -> (r: Result<
    Vec<Option<i32>>,
    Error,
>) where
    C: Fn(&Geometry) -> Option<Coord>,
    K: Fn(&Vec<Coord>, usize, u64) -> Option<Vec<usize>>,

    requires
        array.wf(),
        forall|g: &Geometry| #[trigger] centroid.requires((g,)),
        forall|v: &Vec<Coord>, n: usize, s: u64|
            1 <= n <= v@.len() ==> #[trigger] kmeans.requires((v, n, s)),
        forall|v: &Vec<Coord>, n: usize, s: u64, list: Vec<usize>| #[trigger]
            kmeans.ensures((v, n, s), Some(list)) ==> list@.len() == v@.len(),
    ensures
        is_kmeans(array@, k, *centroid, *kmeans, r),
{
    let input = match representative_points(array, centroid) {
        Ok(input) => input,
        Err(error) => {
            return Err(error);
        },
    };
    let ghost points = choose|points: Seq<Option<Coord>>| #[trigger]
        are_centroids(array@, *centroid, points) && is_input(points, input);
    let geometries: usize = input.points.len();
    if k == 0 || k > geometries {
        return Err(Error::ClusterCount { k, geometries });
    }
    let found = kmeans(&input.points, k, KMEANS_SEED);
    assert(kmeans.ensures((&input.points, k, KMEANS_SEED), found));
    match found {
        Some(list) => {
            let mut assignment: Vec<Option<usize>> = Vec::new();
            let mut i: usize = 0;
            while i < list.len()
                invariant
                    i <= list@.len(),
                    assignment@.len() == i,
                    forall|j: int| 0 <= j < i ==> #[trigger] assignment@[j] == Some(list@[j]),
                decreases list@.len() - i,
            {
                assignment.push(Some(list[i]));
                i = i + 1;
            }
            assert(assignment@ =~= each(list@));
            assert(is_partition(*kmeans, input.points@, k, Some(list@)));
            Ok(label(&input, &assignment, Ghost(points)))
        },
        None => {
            assert(is_partition(*kmeans, input.points@, k, None));
            Err(Error::External)
        },
    }
}

/// True when the assignment was computed for the points.
pub open spec fn is_labelling<D: Fn(&Vec<Coord>, u64, usize) -> Vec<Option<usize>>>(
    dbscan: D,
    points: Seq<Coord>,
    epsilon: u64,
    min_points: usize,
    assignment: Seq<Option<usize>>,
) -> bool {
    exists|v: Vec<Coord>, found: Vec<Option<usize>>|
        {
            &&& #[trigger] dbscan.ensures((&v, epsilon, min_points), found)
            &&& v@ == points
            &&& assignment == found@
        }
}

/// True for a radius that is a positive, finite number.
pub open spec fn is_radius(epsilon: u64) -> bool {
    number::is_lt(number::ZERO, epsilon) && number::is_lt(epsilon, number::INFINITY)
}

/// What a labelling by density gives.
pub open spec fn is_dbscan<C, D>(
    array: ColumnView,
    epsilon: u64,
    min_points: usize,
    centroid: C,
    dbscan: D,
    r: Result<Vec<Option<i32>>, Error>,
) -> bool where
    C: Fn(&Geometry) -> Option<Coord>,
    D: Fn(&Vec<Coord>, u64, usize) -> Vec<Option<usize>>,
 {
    match r {
        Ok(out) => {
            &&& is_radius(epsilon)
            &&& !array.has_broken(array.rows())
            &&& exists|points: Seq<Option<Coord>>, assignment: Seq<Option<usize>>|
                {
                    &&& #[trigger] are_centroids(array, centroid, points)
                    &&& is_labelling(
                        dbscan,
                        taking_part(points, points.len() as int),
                        epsilon,
                        min_points,
                        assignment,
                    )
                    &&& out@ == #[trigger] labels(points, assignment)
                }
        },
        Err(Error::ClusterRadius) => !is_radius(epsilon),
        Err(Error::Undecodable) => is_radius(epsilon) && array.has_broken(array.rows()),
        Err(_) => false,
    }
}

/// `ST_ClusterDBSCAN`. Label the rows by density.
///
/// A row that belongs to no cluster is noise, and its id is null, as in PostGIS.
pub fn st_cluster_dbscan<C, D>(
    array: &Column,
    epsilon: u64,
    min_points: usize,
    centroid: &C,
    dbscan: &D,
) -> (r: Result<Vec<Option<i32>>, Error>) where
    C: Fn(&Geometry) -> Option<Coord>,
    D: Fn(&Vec<Coord>, u64, usize) -> Vec<Option<usize>>,

    requires
        array.wf(),
        forall|g: &Geometry| #[trigger] centroid.requires((g,)),
        forall|v: &Vec<Coord>, e: u64, n: usize|
            is_radius(e) ==> #[trigger] dbscan.requires((v, e, n)),
        forall|v: &Vec<Coord>, e: u64, n: usize, list: Vec<Option<usize>>| #[trigger]
            dbscan.ensures((v, e, n), list) ==> list@.len() == v@.len(),
    ensures
        is_dbscan(array@, epsilon, min_points, *centroid, *dbscan, r),
{
    if !(number::lt(number::ZERO, epsilon) && number::lt(epsilon, number::INFINITY)) {
        return Err(Error::ClusterRadius);
    }
    let input = match representative_points(array, centroid) {
        Ok(input) => input,
        Err(error) => {
            return Err(error);
        },
    };
    let ghost points = choose|points: Seq<Option<Coord>>| #[trigger]
        are_centroids(array@, *centroid, points) && is_input(points, input);
    let assignment = dbscan(&input.points, epsilon, min_points);
    assert(dbscan.ensures((&input.points, epsilon, min_points), assignment));
    assert(is_labelling(*dbscan, input.points@, epsilon, min_points, assignment@));
    Ok(label(&input, &assignment, Ghost(points)))
}

// ------------------------------------------------------------------- partition
/// The values of a parameter of a window call, where it has one.
pub open spec fn parameter_values(parameters: Seq<Vec<Option<u64>>>, i: int) -> Option<u64> {
    if i < parameters.len() && parameters[i]@.len() > 0 {
        parameters[i]@[0]
    } else {
        None
    }
}

fn parameter(parameters: &Vec<Vec<Option<u64>>>, i: usize) -> (r: Option<&Vec<Option<u64>>>)
    ensures
        first_of(r) == parameter_values(parameters@, i as int),
{
    if i < parameters.len() {
        Some(&parameters[i])
    } else {
        None
    }
}

/// The count that a number is read as. One too large reads as the largest.
pub open spec fn counted(bits: u64) -> Option<usize> {
    match number::whole(bits) {
        Some(n) => Some(
            if n <= usize::MAX {
                n as usize
            } else {
                usize::MAX
            },
        ),
        None => None,
    }
}

/// True when `r` is what a clustering with the given parameters gives.
pub open spec fn is_clustered<C, K, D>(
    cluster: Cluster,
    array: ColumnView,
    parameters: Seq<Vec<Option<u64>>>,
    centroid: C,
    kmeans: K,
    dbscan: D,
    r: Result<Vec<Option<i32>>, Error>,
) -> bool where
    C: Fn(&Geometry) -> Option<Coord>,
    K: Fn(&Vec<Coord>, usize, u64) -> Option<Vec<usize>>,
    D: Fn(&Vec<Coord>, u64, usize) -> Vec<Option<usize>>,
 {
    match cluster {
        Cluster::KMeans => match parameter_values(parameters, 0) {
            None => is_missing(r, cluster.name_text(), "k"@),
            Some(bits) => match counted(bits) {
                None => is_no_count(r, cluster.name_text(), "k"@),
                Some(k) => is_kmeans(array, k, centroid, kmeans, r),
            },
        },
        Cluster::Dbscan => match parameter_values(parameters, 0) {
            None => is_missing(r, cluster.name_text(), "eps"@),
            Some(epsilon) => match parameter_values(parameters, 1) {
                None => is_missing(r, cluster.name_text(), "minpoints"@),
                Some(bits) => match counted(bits) {
                    None => is_no_count(r, cluster.name_text(), "minpoints"@),
                    Some(min_points) => is_dbscan(array, epsilon, min_points, centroid, dbscan, r),
                },
            },
        },
    }
}

/// True when the call failed for want of a parameter.
pub open spec fn is_missing<T>(r: Result<T, Error>, function: Seq<char>, name: Seq<char>) -> bool {
    r matches Err(Error::MissingParameter { function: f, name: n }) && f@ == function && n@ == name
}

/// True when the call failed for a parameter that is no count.
pub open spec fn is_no_count<T>(r: Result<T, Error>, function: Seq<char>, name: Seq<char>) -> bool {
    r matches Err(Error::NotACount { function: f, name: n }) && f@ == function && n@ == name
}

/// Cluster a whole partition.
///
/// `parameters` holds the numbers that follow the geometry argument. They are constant over the
/// partition, so row zero gives them.
pub fn evaluate_all<C, K, D>(
    cluster: Cluster,
    array: &Column,
    parameters: &Vec<Vec<Option<u64>>>,
    num_rows: usize,
    centroid: &C,
    kmeans: &K,
    dbscan: &D,
) -> (r: Result<Vec<Option<i32>>, Error>) where
    C: Fn(&Geometry) -> Option<Coord>,
    K: Fn(&Vec<Coord>, usize, u64) -> Option<Vec<usize>>,
    D: Fn(&Vec<Coord>, u64, usize) -> Vec<Option<usize>>,

    requires
        array.wf(),
        forall|g: &Geometry| #[trigger] centroid.requires((g,)),
        forall|v: &Vec<Coord>, n: usize, s: u64|
            1 <= n <= v@.len() ==> #[trigger] kmeans.requires((v, n, s)),
        forall|v: &Vec<Coord>, n: usize, s: u64, list: Vec<usize>| #[trigger]
            kmeans.ensures((v, n, s), Some(list)) ==> list@.len() == v@.len(),
        forall|v: &Vec<Coord>, e: u64, n: usize|
            is_radius(e) ==> #[trigger] dbscan.requires((v, e, n)),
        forall|v: &Vec<Coord>, e: u64, n: usize, list: Vec<Option<usize>>| #[trigger]
            dbscan.ensures((v, e, n), list) ==> list@.len() == v@.len(),
    ensures
        match r {
            Err(Error::RowCount { function, given, rows }) => {
                &&& function@ == cluster.name_text()
                &&& given == array.rows()
                &&& rows == num_rows
                &&& given != rows
                &&& exists|ids: Vec<Option<i32>>| #[trigger]
                    is_clustered(
                        cluster,
                        array@,
                        parameters@,
                        *centroid,
                        *kmeans,
                        *dbscan,
                        Ok::<Vec<Option<i32>>, Error>(ids),
                    )
            },
            Ok(ids) => ids@.len() == num_rows && is_clustered(
                cluster,
                array@,
                parameters@,
                *centroid,
                *kmeans,
                *dbscan,
                r,
            ),
            Err(_) => is_clustered(
                cluster,
                array@,
                parameters@,
                *centroid,
                *kmeans,
                *dbscan,
                r,
            ),
        },
{
    let name = cluster.function_name();
    let clustered: Result<Vec<Option<i32>>, Error> = match cluster {
        Cluster::KMeans => match constant_usize(name, "k", parameter(parameters, 0)) {
            Ok(k) => st_cluster_kmeans(array, k, centroid, kmeans),
            Err(error) => Err(error),
        },
        Cluster::Dbscan => match constant_number(name, "eps", parameter(parameters, 0)) {
            Ok(epsilon) => match constant_usize(name, "minpoints", parameter(parameters, 1)) {
                Ok(min_points) => st_cluster_dbscan(array, epsilon, min_points, centroid, dbscan),
                Err(error) => Err(error),
            },
            Err(error) => Err(error),
        },
    };
    assert(is_clustered(
        cluster,
        array@,
        parameters@,
        *centroid,
        *kmeans,
        *dbscan,
        clustered,
    ));
    match clustered {
        Ok(ids) => {
            let given: usize = ids.len();
            if given != num_rows {
                return Err(Error::RowCount { function: name, given, rows: num_rows });
            }
            Ok(ids)
        },
        Err(error) => Err(error),
    }
}

// ------------------------------------------------------------------------ laws
/// A row without a point has no cluster, and the points of two rows take different places in the
/// order of the rows.
pub proof fn law_rows_keep_their_order(points: Seq<Option<Coord>>, i: int, j: int)
    requires
        0 <= i < j < points.len(),
        points[i] is Some,
        points[j] is Some,
    ensures
        taking_part(points, i).len() < taking_part(points, j).len(),
        taking_part(points, points.len() as int).len() > taking_part(points, j).len(),
{
    lemma_taking_part_grows(points, i, j);
    lemma_taking_part_grows(points, j, points.len() as int);
}

/// The point of a row is the one its id was computed for.
pub proof fn law_a_row_gets_the_id_of_its_point(points: Seq<Option<Coord>>, i: int)
    requires
        0 <= i < points.len(),
        points[i] is Some,
    ensures
        ({
            let at = taking_part(points, i).len() as int;
            &&& at < taking_part(points, points.len() as int).len()
            &&& taking_part(points, points.len() as int)[at] == points[i]->0
        }),
{
    lemma_taking_part_grows(points, i, points.len() as int);
    lemma_taking_part_at(points, i, points.len() as int);
}

proof fn lemma_taking_part_at(points: Seq<Option<Coord>>, i: int, end: int)
    requires
        0 <= i < end <= points.len(),
        points[i] is Some,
    ensures
        taking_part(points, i).len() < taking_part(points, end).len(),
        taking_part(points, end)[taking_part(points, i).len() as int] == points[i]->0,
    decreases end,
{
    if i < end - 1 {
        lemma_taking_part_at(points, i, end - 1);
    }
}

} // verus!
