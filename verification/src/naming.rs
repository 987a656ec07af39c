//! What the functions are called.
//!
//! A function has the name that PostGIS gives it, and the same name in lower case for SQL.

use vstd::prelude::*;
use crate::affine::Affine;
use crate::cluster::Cluster;
use crate::edit::{Structure, VertexEdit};
use crate::envelope::Bound;
use crate::measure::{BinaryMeasure, UnaryMeasure};
use crate::predicate::Predicate;
use crate::process::{Overlay, Shape, Sized};
use crate::tessellate::Tessellation;

verus! {

/// True when the second character is the first in lower case.
pub open spec fn is_lower_of(name: char, lower: char) -> bool {
    if 'A' <= name <= 'Z' {
        lower as int == name as int + 32
    } else {
        lower == name
    }
}

/// True when the first `end` characters of the second text are those of the first in lower case.
pub open spec fn are_lower_of(name: Seq<char>, lower: Seq<char>, end: nat) -> bool
    decreases end,
{
    end == 0 || (is_lower_of(name[end - 1], lower[end - 1]) && are_lower_of(
        name,
        lower,
        (end - 1) as nat,
    ))
}

/// True when the second text is the first in lower case.
pub open spec fn is_lowered(name: Seq<char>, lower: Seq<char>) -> bool {
    name.len() == lower.len() && are_lower_of(name, lower, name.len())
}

/// The SQL name of an affine transform is its name in lower case.
pub proof fn law_the_names_of_affine_agree(transform: Affine)
    ensures
        is_lowered(transform.name_text(), transform.sql_text()),
{
    reveal_with_fuel(are_lower_of, 13);
    match transform {
        Affine::Translate => {
            reveal_strlit("ST_Translate");
            reveal_strlit("st_translate");
        },
        Affine::Scale => {
            reveal_strlit("ST_Scale");
            reveal_strlit("st_scale");
        },
        Affine::Rotate => {
            reveal_strlit("ST_Rotate");
            reveal_strlit("st_rotate");
        },
        Affine::Matrix => {
            reveal_strlit("ST_Affine");
            reveal_strlit("st_affine");
        },
    }
}

/// The SQL name of a clustering is its name in lower case.
pub proof fn law_the_names_of_cluster_agree(cluster: Cluster)
    ensures
        is_lowered(cluster.name_text(), cluster.sql_text()),
{
    reveal_with_fuel(are_lower_of, 17);
    match cluster {
        Cluster::KMeans => {
            reveal_strlit("ST_ClusterKMeans");
            reveal_strlit("st_clusterkmeans");
        },
        Cluster::Dbscan => {
            reveal_strlit("ST_ClusterDBSCAN");
            reveal_strlit("st_clusterdbscan");
        },
    }
}

/// The SQL name of a structural edit is its name in lower case.
pub proof fn law_the_names_of_structure_agree(edit: Structure)
    ensures
        is_lowered(edit.name_text(), edit.sql_text()),
{
    reveal_with_fuel(are_lower_of, 10);
    match edit {
        Structure::Multi => {
            reveal_strlit("ST_Multi");
            reveal_strlit("st_multi");
        },
        Structure::Points => {
            reveal_strlit("ST_Points");
            reveal_strlit("st_points");
        },
    }
}

/// The SQL name of a vertex edit is its name in lower case.
pub proof fn law_the_names_of_vertex_edit_agree(edit: VertexEdit)
    ensures
        is_lowered(edit.name_text(), edit.sql_text()),
{
    reveal_with_fuel(are_lower_of, 15);
    match edit {
        VertexEdit::Add => {
            reveal_strlit("ST_AddPoint");
            reveal_strlit("st_addpoint");
        },
        VertexEdit::Remove => {
            reveal_strlit("ST_RemovePoint");
            reveal_strlit("st_removepoint");
        },
        VertexEdit::Replace => {
            reveal_strlit("ST_SetPoint");
            reveal_strlit("st_setpoint");
        },
    }
}

/// The SQL name of a bound is its name in lower case.
pub proof fn law_the_names_of_bound_agree(bound: Bound)
    ensures
        is_lowered(bound.name_text(), bound.sql_text()),
{
    reveal_with_fuel(are_lower_of, 8);
    match bound {
        Bound::XMin => {
            reveal_strlit("ST_XMin");
            reveal_strlit("st_xmin");
        },
        Bound::YMin => {
            reveal_strlit("ST_YMin");
            reveal_strlit("st_ymin");
        },
        Bound::ZMin => {
            reveal_strlit("ST_ZMin");
            reveal_strlit("st_zmin");
        },
        Bound::XMax => {
            reveal_strlit("ST_XMax");
            reveal_strlit("st_xmax");
        },
        Bound::YMax => {
            reveal_strlit("ST_YMax");
            reveal_strlit("st_ymax");
        },
        Bound::ZMax => {
            reveal_strlit("ST_ZMax");
            reveal_strlit("st_zmax");
        },
    }
}

/// The SQL name of a measure is its name in lower case.
pub proof fn law_the_names_of_unary_measure_agree(measure: UnaryMeasure)
    ensures
        is_lowered(measure.name_text(), measure.sql_text()),
{
    reveal_with_fuel(are_lower_of, 13);
    match measure {
        UnaryMeasure::Area => {
            reveal_strlit("ST_Area");
            reveal_strlit("st_area");
        },
        UnaryMeasure::Length => {
            reveal_strlit("ST_Length");
            reveal_strlit("st_length");
        },
        UnaryMeasure::Perimeter => {
            reveal_strlit("ST_Perimeter");
            reveal_strlit("st_perimeter");
        },
    }
}

/// The SQL name of a binary measure is its name in lower case.
pub proof fn law_the_names_of_binary_measure_agree(measure: BinaryMeasure)
    ensures
        is_lowered(measure.name_text(), measure.sql_text()),
{
    reveal_with_fuel(are_lower_of, 21);
    match measure {
        BinaryMeasure::Distance => {
            reveal_strlit("ST_Distance");
            reveal_strlit("st_distance");
        },
        BinaryMeasure::MaxDistance => {
            reveal_strlit("ST_MaxDistance");
            reveal_strlit("st_maxdistance");
        },
        BinaryMeasure::Hausdorff => {
            reveal_strlit("ST_HausdorffDistance");
            reveal_strlit("st_hausdorffdistance");
        },
        BinaryMeasure::Frechet => {
            reveal_strlit("ST_FrechetDistance");
            reveal_strlit("st_frechetdistance");
        },
        BinaryMeasure::Sphere => {
            reveal_strlit("ST_DistanceSphere");
            reveal_strlit("st_distancesphere");
        },
        BinaryMeasure::Spheroid => {
            reveal_strlit("ST_DistanceSpheroid");
            reveal_strlit("st_distancespheroid");
        },
        BinaryMeasure::Azimuth => {
            reveal_strlit("ST_Azimuth");
            reveal_strlit("st_azimuth");
        },
    }
}

/// The SQL name of a predicate is its name in lower case.
pub proof fn law_the_names_of_predicate_agree(predicate: Predicate)
    ensures
        is_lowered(predicate.name_text(), predicate.sql_text()),
{
    reveal_with_fuel(are_lower_of, 20);
    match predicate {
        Predicate::Intersects => {
            reveal_strlit("ST_Intersects");
            reveal_strlit("st_intersects");
        },
        Predicate::Disjoint => {
            reveal_strlit("ST_Disjoint");
            reveal_strlit("st_disjoint");
        },
        Predicate::Contains => {
            reveal_strlit("ST_Contains");
            reveal_strlit("st_contains");
        },
        Predicate::ContainsProperly => {
            reveal_strlit("ST_ContainsProperly");
            reveal_strlit("st_containsproperly");
        },
        Predicate::Within => {
            reveal_strlit("ST_Within");
            reveal_strlit("st_within");
        },
        Predicate::Covers => {
            reveal_strlit("ST_Covers");
            reveal_strlit("st_covers");
        },
        Predicate::CoveredBy => {
            reveal_strlit("ST_CoveredBy");
            reveal_strlit("st_coveredby");
        },
        Predicate::Touches => {
            reveal_strlit("ST_Touches");
            reveal_strlit("st_touches");
        },
        Predicate::Crosses => {
            reveal_strlit("ST_Crosses");
            reveal_strlit("st_crosses");
        },
        Predicate::Overlaps => {
            reveal_strlit("ST_Overlaps");
            reveal_strlit("st_overlaps");
        },
        Predicate::Equals => {
            reveal_strlit("ST_Equals");
            reveal_strlit("st_equals");
        },
    }
}

/// The SQL name of an overlay is its name in lower case.
pub proof fn law_the_names_of_overlay_agree(operation: Overlay)
    ensures
        is_lowered(operation.name_text(), operation.sql_text()),
{
    reveal_with_fuel(are_lower_of, 17);
    match operation {
        Overlay::Union => {
            reveal_strlit("ST_Union");
            reveal_strlit("st_union");
        },
        Overlay::Intersection => {
            reveal_strlit("ST_Intersection");
            reveal_strlit("st_intersection");
        },
        Overlay::Difference => {
            reveal_strlit("ST_Difference");
            reveal_strlit("st_difference");
        },
        Overlay::SymDifference => {
            reveal_strlit("ST_SymDifference");
            reveal_strlit("st_symdifference");
        },
    }
}

/// The SQL name of a shape is its name in lower case.
pub proof fn law_the_names_of_shape_agree(shape: Shape)
    ensures
        is_lowered(shape.name_text(), shape.sql_text()),
{
    reveal_with_fuel(are_lower_of, 24);
    match shape {
        Shape::ConvexHull => {
            reveal_strlit("ST_ConvexHull");
            reveal_strlit("st_convexhull");
        },
        Shape::OrientedEnvelope => {
            reveal_strlit("ST_OrientedEnvelope");
            reveal_strlit("st_orientedenvelope");
        },
        Shape::Boundary => {
            reveal_strlit("ST_Boundary");
            reveal_strlit("st_boundary");
        },
        Shape::Centroid => {
            reveal_strlit("ST_Centroid");
            reveal_strlit("st_centroid");
        },
        Shape::PointOnSurface => {
            reveal_strlit("ST_PointOnSurface");
            reveal_strlit("st_pointonsurface");
        },
        Shape::MakeValid => {
            reveal_strlit("ST_MakeValid");
            reveal_strlit("st_makevalid");
        },
        Shape::RemoveRepeatedPoints => {
            reveal_strlit("ST_RemoveRepeatedPoints");
            reveal_strlit("st_removerepeatedpoints");
        },
        Shape::Reverse => {
            reveal_strlit("ST_Reverse");
            reveal_strlit("st_reverse");
        },
        Shape::ForceCcw => {
            reveal_strlit("ST_ForcePolygonCCW");
            reveal_strlit("st_forcepolygonccw");
        },
        Shape::ForceCw => {
            reveal_strlit("ST_ForcePolygonCW");
            reveal_strlit("st_forcepolygoncw");
        },
    }
}

/// The SQL name of a sized transform is its name in lower case.
pub proof fn law_the_names_of_sized_agree(sized: Sized)
    ensures
        is_lowered(sized.name_text(), sized.sql_text()),
{
    reveal_with_fuel(are_lower_of, 20);
    match sized {
        Sized::Buffer => {
            reveal_strlit("ST_Buffer");
            reveal_strlit("st_buffer");
        },
        Sized::Simplify => {
            reveal_strlit("ST_Simplify");
            reveal_strlit("st_simplify");
        },
        Sized::SimplifyVw => {
            reveal_strlit("ST_SimplifyVW");
            reveal_strlit("st_simplifyvw");
        },
        Sized::Segmentize => {
            reveal_strlit("ST_Segmentize");
            reveal_strlit("st_segmentize");
        },
        Sized::ConcaveHull => {
            reveal_strlit("ST_ConcaveHull");
            reveal_strlit("st_concavehull");
        },
        Sized::Chaikin => {
            reveal_strlit("ST_ChaikinSmoothing");
            reveal_strlit("st_chaikinsmoothing");
        },
    }
}

/// The SQL name of a tessellation is its name in lower case.
pub proof fn law_the_names_of_tessellation_agree(which: Tessellation)
    ensures
        is_lowered(which.name_text(), which.sql_text()),
{
    reveal_with_fuel(are_lower_of, 21);
    match which {
        Tessellation::Delaunay => {
            reveal_strlit("ST_DelaunayTriangles");
            reveal_strlit("st_delaunaytriangles");
        },
        Tessellation::VoronoiPolygons => {
            reveal_strlit("ST_VoronoiPolygons");
            reveal_strlit("st_voronoipolygons");
        },
        Tessellation::VoronoiLines => {
            reveal_strlit("ST_VoronoiLines");
            reveal_strlit("st_voronoilines");
        },
    }
}

} // verus!
