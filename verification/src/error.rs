//! What can go wrong.

use vstd::prelude::*;
use crate::column::{Dimension, Kind};

verus! {

/// Why a kernel refused its input.
#[derive(Debug, Clone, Copy, PartialEq, Eq)]
pub enum Error {
    /// A row holds a value that could not be decoded.
    Undecodable,
    /// The column has no coordinate buffer of a known dimension.
    NeedsNativeColumn {
        /// The function that was called.
        function: &'static str,
    },
    /// The column holds something else than points.
    NeedsPoints {
        /// The function that was called.
        function: &'static str,
        /// What the column holds.
        got: Kind,
    },
    /// The column holds something else than line strings.
    NeedsLineStrings {
        /// What the column holds.
        got: Kind,
    },
    /// One of two columns holds something else than points.
    NeedsTwoPoints,
    /// Columns that are read side by side differ in length.
    UnequalColumns {
        /// The function that was called.
        function: &'static str,
    },
    /// Two columns differ in length, and neither has one row.
    UnequalLengths {
        /// The function that was called.
        function: &'static str,
        /// The rows of the first column.
        left: usize,
        /// The rows of the second column.
        right: usize,
    },
    /// A parameter is neither one constant nor one value per row.
    ParameterCount {
        /// The function that was called.
        function: &'static str,
        /// The values of the parameter.
        given: usize,
        /// The rows of the column.
        rows: usize,
    },
    /// The distance or the azimuth of a projection is neither one constant nor one value per row.
    ProjectCount {
        /// Which of the two.
        name: &'static str,
        /// The values of the parameter.
        given: usize,
        /// The rows of the column.
        rows: usize,
    },
    /// A DE-9IM pattern is not nine characters long.
    PatternLength {
        /// The length of the pattern.
        len: usize,
    },
    /// A DE-9IM pattern holds a character that means nothing.
    PatternCharacter {
        /// The character.
        found: char,
    },
    /// A cluster count is zero, or higher than the number of geometries.
    ClusterCount {
        /// The cluster count.
        k: usize,
        /// The number of geometries.
        geometries: usize,
    },
    /// A cluster radius is not a positive number.
    ClusterRadius,
    /// A column to transform carries no SRID.
    NoSourceSrid,
    /// A transform has no SRID to go to.
    NoTargetSrid,
    /// The target SRID of a transform is null.
    NullTargetSrid,
    /// Two arguments carry different coordinate reference systems.
    MixedSystems {
        /// The function that was called.
        function: &'static str,
    },
    /// An argument must be a constant.
    NeedsConstant {
        /// The function that was called.
        function: &'static str,
        /// Which argument, counted from one.
        argument: usize,
    },
    /// A parameter that holds for a whole partition is missing or null.
    MissingParameter {
        /// The function that was called.
        function: &'static str,
        /// The parameter.
        name: &'static str,
    },
    /// A window function gave another number of values than its partition has rows.
    RowCount {
        /// The function that was called.
        function: &'static str,
        /// The values that were given.
        given: usize,
        /// The rows of the partition.
        rows: usize,
    },
    /// A parameter that is a count is negative or not whole.
    NotACount {
        /// The function that was called.
        function: &'static str,
        /// The parameter.
        name: &'static str,
    },
    /// A geohash precision is out of range.
    GeoHashPrecision {
        /// The precision.
        precision: i32,
    },
    /// A value has other ordinates than the column that it is written to.
    WrongDimension {
        /// What the value has.
        dimension: Dimension,
    },
    /// A column would hold more vertices than its offsets can count.
    Overflow,
    /// A computation of the caller failed.
    External,
}

impl Error {
    /// What the user is told.
    pub open spec fn advice_text(self) -> Seq<char> {
        match self {
            Error::Undecodable => "a value of the column cannot be decoded"@,
            Error::NeedsNativeColumn { .. } => {
                "needs a native GeoArrow array with a known dimension. Cast a WKB, WKT or mixed geometry column first."@
            },
            Error::NeedsPoints { .. } => "requires a point argument"@,
            Error::NeedsLineStrings { .. } => "ST_MakePolygon needs a line string argument"@,
            Error::NeedsTwoPoints => "ST_MakeLine needs two point arguments"@,
            Error::UnequalColumns { .. } => "needs columns of the same length"@,
            Error::UnequalLengths { .. } => {
                "needs two arrays of the same length, or one of length one"@
            },
            Error::ParameterCount { .. } => "needs one parameter per row or a single constant"@,
            Error::ProjectCount { .. } => "ST_Project needs one value per row or a single constant"@,
            Error::PatternLength { .. } => "a DE-9IM pattern is exactly nine characters"@,
            Error::PatternCharacter { .. } => "invalid DE-9IM specification character"@,
            Error::ClusterCount { .. } => {
                "ST_ClusterKMeans needs k between 1 and the number of geometries"@
            },
            Error::ClusterRadius => "ST_ClusterDBSCAN needs a positive eps"@,
            Error::NoSourceSrid => {
                "ST_Transform needs a source SRID on the input column. Stamp one with ST_SetSRID."@
            },
            Error::NoTargetSrid => "ST_Transform needs a target SRID other than zero"@,
            Error::NullTargetSrid => "ST_Transform needs a non-null target SRID"@,
            Error::MixedSystems { .. } => "cannot mix coordinate reference systems"@,
            Error::NeedsConstant { .. } => "must be a constant integer"@,
            Error::MissingParameter { .. } => "needs a non-null parameter"@,
            Error::RowCount { .. } => "gave another number of ids than the partition has rows"@,
            Error::NotACount { .. } => "needs a whole non-negative parameter"@,
            Error::GeoHashPrecision { .. } => "ST_GeoHash precision must be between 1 and 20"@,
            Error::WrongDimension { .. } => "a value does not have the dimension of the column"@,
            Error::Overflow => "a column holds too many vertices"@,
            Error::External => "an external computation failed"@,
        }
    }

    /// What the user is told.
    pub fn advice(&self) -> (r: &'static str)
        ensures
            r@ == self.advice_text(),
    {
        match self {
            Error::Undecodable => "a value of the column cannot be decoded",
            Error::NeedsNativeColumn { .. } => {
                "needs a native GeoArrow array with a known dimension. Cast a WKB, WKT or mixed geometry column first."
            },
            Error::NeedsPoints { .. } => "requires a point argument",
            Error::NeedsLineStrings { .. } => "ST_MakePolygon needs a line string argument",
            Error::NeedsTwoPoints => "ST_MakeLine needs two point arguments",
            Error::UnequalColumns { .. } => "needs columns of the same length",
            Error::UnequalLengths { .. } => {
                "needs two arrays of the same length, or one of length one"
            },
            Error::ParameterCount { .. } => "needs one parameter per row or a single constant",
            Error::ProjectCount { .. } => "ST_Project needs one value per row or a single constant",
            Error::PatternLength { .. } => "a DE-9IM pattern is exactly nine characters",
            Error::PatternCharacter { .. } => "invalid DE-9IM specification character",
            Error::ClusterCount { .. } => {
                "ST_ClusterKMeans needs k between 1 and the number of geometries"
            },
            Error::ClusterRadius => "ST_ClusterDBSCAN needs a positive eps",
            Error::NoSourceSrid => {
                "ST_Transform needs a source SRID on the input column. Stamp one with ST_SetSRID."
            },
            Error::NoTargetSrid => "ST_Transform needs a target SRID other than zero",
            Error::NullTargetSrid => "ST_Transform needs a non-null target SRID",
            Error::MixedSystems { .. } => "cannot mix coordinate reference systems",
            Error::NeedsConstant { .. } => "must be a constant integer",
            Error::MissingParameter { .. } => "needs a non-null parameter",
            Error::RowCount { .. } => "gave another number of ids than the partition has rows",
            Error::NotACount { .. } => "needs a whole non-negative parameter",
            Error::GeoHashPrecision { .. } => "ST_GeoHash precision must be between 1 and 20",
            Error::WrongDimension { .. } => "a value does not have the dimension of the column",
            Error::Overflow => "a column holds too many vertices",
            Error::External => "an external computation failed",
        }
    }
}

} // verus!
