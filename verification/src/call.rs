//! The rules of a call.
//!
//! A query engine hands a function its arguments, each one a column or a constant, and asks for the
//! type of the result before it reads a row. What each function makes of its arguments is decided
//! here: which of them must be constant, which constants mean something, which column types are
//! refused at plan time, and the names a function is known by.

use vstd::prelude::*;
use crate::accessor::{is_untyped, Ordinate};
use crate::column::{is_untyped_kind, DataType, DataTypeView, Dimension, Kind};
use crate::component::{geometry_output_type, line_string_output_type, point_output_type, LineEnd};
use crate::constructor::point_type;
use crate::crs::{no_metadata, Metadata};
use crate::edit::VertexEdit;
use crate::error::Error;
use crate::io::parsed_type;
use crate::linear;
use crate::number;

verus! {

// ------------------------------------------------------------------- arguments
/// A constant argument.
#[derive(Debug)]
pub enum Constant {
    /// A 32 bit integer, or a null of that type.
    Int32(Option<i32>),
    /// A 64 bit integer, or a null of that type.
    Int64(Option<i64>),
    /// A number, or a null of that type.
    Float64(Option<u64>),
    /// A text, or a null of that type.
    Utf8(Option<String>),
    /// A null without a type.
    Null,
    /// Anything else.
    Other,
}

/// An argument of a call.
#[derive(Debug)]
pub enum Argument {
    /// One value per row.
    Column,
    /// One value for every row.
    Scalar(Constant),
}

/// The integer, where it fits.
pub open spec fn fitted(value: Option<i64>) -> Option<i32> {
    match value {
        Some(n) => if i32::MIN <= n <= i32::MAX {
            Some(n as i32)
        } else {
            None
        },
        None => None,
    }
}

/// The integer, where it fits.
fn fit(value: Option<i64>) -> (r: Option<i32>)
    ensures
        r == fitted(value),
{
    match value {
        Some(n) => if -0x8000_0000 <= n && n <= 0x7fff_ffff {
            Some(n as i32)
        } else {
            None
        },
        None => None,
    }
}

/// What a constant is worth as an integer: nothing for a constant of another type, and a null for a
/// null or an integer that does not fit.
pub open spec fn integer_of(constant: Constant) -> Option<Option<i32>> {
    match constant {
        Constant::Int32(value) => Some(value),
        Constant::Int64(value) => Some(fitted(value)),
        Constant::Null => Some(None),
        _ => None,
    }
}

impl Constant {
    /// Read an integer.
    pub fn integer(&self) -> (r: Option<Option<i32>>)
        ensures
            r == integer_of(*self),
    {
        match self {
            Constant::Int32(value) => Some(*value),
            Constant::Int64(value) => Some(fit(*value)),
            Constant::Null => Some(None),
            _ => None,
        }
    }
}

/// Read a constant integer argument at plan time.
///
/// Returns `None` when the argument is a column rather than a constant, or no integer.
pub fn constant_i32(arguments: &Vec<Option<Constant>>, position: usize) -> (r: Option<Option<i32>>)
    ensures
        r == if position < arguments@.len() {
            match arguments@[position as int] {
                Some(constant) => integer_of(constant),
                None => None,
            }
        } else {
            None
        },
{
    if position >= arguments.len() {
        return None;
    }
    match &arguments[position] {
        Some(constant) => constant.integer(),
        None => None,
    }
}

/// Read an integer argument at run time. The argument must be a constant.
pub fn require_constant_i32(function: &'static str, argument: usize, value: &Argument) -> (r: Result<
    Option<i32>,
    Error,
>)
    requires
        argument < usize::MAX,
    ensures
        match *value {
            Argument::Scalar(constant) => match integer_of(constant) {
                Some(n) => r matches Ok(got) && got == n,
                None => r == Err::<Option<i32>, Error>(
                    Error::NeedsConstant { function, argument: (argument + 1) as usize },
                ),
            },
            Argument::Column => r == Err::<Option<i32>, Error>(
                Error::NeedsConstant { function, argument: (argument + 1) as usize },
            ),
        },
{
    match value {
        Argument::Scalar(constant) => match constant.integer() {
            Some(n) => Ok(n),
            None => Err(Error::NeedsConstant { function, argument: argument + 1 }),
        },
        Argument::Column => Err(Error::NeedsConstant { function, argument: argument + 1 }),
    }
}

/// Returns true when every argument is a constant.
pub fn all_scalar(arguments: &Vec<Argument>) -> (r: bool)
    ensures
        r == forall|i: int| 0 <= i < arguments@.len() ==> #[trigger] arguments@[i] is Scalar,
{
    let mut i: usize = 0;
    while i < arguments.len()
        invariant
            i <= arguments@.len(),
            forall|j: int| 0 <= j < i ==> #[trigger] arguments@[j] is Scalar,
        decreases arguments@.len() - i,
    {
        match &arguments[i] {
            Argument::Scalar(_) => {},
            Argument::Column => {
                assert(!(arguments@[i as int] is Scalar));
                return false;
            },
        }
        i = i + 1;
    }
    true
}

/// True when a result becomes a constant: every input was one, and it has one row.
pub fn collapses(scalar_input: bool, rows: usize) -> (r: bool)
    ensures
        r == (scalar_input && rows == 1),
{
    scalar_input && rows == 1
}

/// How many values an argument is read as. A constant stays one value.
pub fn parameter_rows(value: &Argument, rows: usize) -> (r: usize)
    ensures
        r == if value is Scalar {
            1
        } else {
            rows
        },
{
    match value {
        Argument::Scalar(_) => 1,
        Argument::Column => rows,
    }
}

/// Reject two arguments that carry different coordinate reference systems.
///
/// PostGIS raises `Operation on mixed SRID geometries`. This does the same, at plan time.
pub fn check_same_crs(function: &'static str, left: &DataType, right: &DataType) -> (r: Result<
    Metadata,
    Error,
>)
    ensures
        match r {
            Ok(metadata) => left@.metadata.crs == right@.metadata.crs && metadata@
                == left@.metadata,
            Err(error) => left@.metadata.crs != right@.metadata.crs && error
                == (Error::MixedSystems { function }),
        },
{
    if left.metadata.crs.same(&right.metadata.crs) {
        Ok(left.metadata.copy())
    } else {
        Err(Error::MixedSystems { function })
    }
}

// ------------------------------------------------------------- constant targets
/// The constant of an argument at plan time, as an integer.
pub open spec fn planned_integer(arguments: Seq<Option<Constant>>, position: int) -> Option<
    Option<i32>,
> {
    if position < arguments.len() {
        match arguments[position] {
            Some(constant) => integer_of(constant),
            None => None,
        }
    } else {
        None
    }
}

/// The SRID that `ST_SetSRID` stamps. A null clears the system.
///
/// The system is stored once per column, so it cannot vary by row.
pub fn set_srid_target(arguments: &Vec<Option<Constant>>) -> (r: Result<i32, Error>)
    ensures
        match planned_integer(arguments@, 1) {
            Some(Some(srid)) => r == Ok::<i32, Error>(srid),
            Some(None) => r == Ok::<i32, Error>(0),
            None => r matches Err(Error::NeedsConstant { function, argument }) && function@
                == "ST_SetSRID"@ && argument == 2,
        },
{
    match constant_i32(arguments, 1) {
        Some(Some(srid)) => Ok(srid),
        Some(None) => Ok(0),
        None => Err(Error::NeedsConstant { function: "ST_SetSRID", argument: 2 }),
    }
}

/// The SRID that `ST_Transform` goes to. It changes the type of the column, as it does for
/// `ST_SetSRID`, and it must not be null.
pub fn transform_target(arguments: &Vec<Option<Constant>>) -> (r: Result<i32, Error>)
    ensures
        match planned_integer(arguments@, 1) {
            Some(Some(srid)) => r == Ok::<i32, Error>(srid),
            Some(None) => r == Err::<i32, Error>(Error::NullTargetSrid),
            None => r matches Err(Error::NeedsConstant { function, argument }) && function@
                == "ST_Transform"@ && argument == 2,
        },
{
    match constant_i32(arguments, 1) {
        Some(Some(srid)) => Ok(srid),
        Some(None) => Err(Error::NullTargetSrid),
        None => Err(Error::NeedsConstant { function: "ST_Transform", argument: 2 }),
    }
}

/// The default precision of `ST_GeoHash`. PostGIS uses the same one.
pub const DEFAULT_PRECISION: i32 = 20;

/// The precision that an argument asks for. None at all, and a null, stand for the default.
pub open spec fn asked_precision(value: Option<&Argument>) -> Option<i32> {
    match value {
        Some(Argument::Scalar(constant)) => match integer_of(*constant) {
            Some(Some(precision)) => Some(precision),
            Some(None) => Some(DEFAULT_PRECISION),
            None => None,
        },
        Some(Argument::Column) => None,
        None => Some(DEFAULT_PRECISION),
    }
}

/// The precision of `ST_GeoHash`, from 1 to 20.
pub fn geohash_precision(value: Option<&Argument>) -> (r: Result<usize, Error>)
    ensures
        match asked_precision(value) {
            Some(precision) => if 1 <= precision <= 20 {
                r == Ok::<usize, Error>(precision as usize)
            } else {
                r == Err::<usize, Error>(Error::GeoHashPrecision { precision })
            },
            None => r matches Err(Error::NeedsConstant { function, argument }) && function@
                == "ST_GeoHash"@ && argument == 2,
        },
{
    let precision: i32 = match value {
        Some(argument) => match require_constant_i32("ST_GeoHash", 1, argument) {
            Ok(Some(precision)) => precision,
            Ok(None) => DEFAULT_PRECISION,
            Err(error) => {
                return Err(error);
            },
        },
        None => DEFAULT_PRECISION,
    };
    if 1 <= precision && precision <= 20 {
        Ok(precision as usize)
    } else {
        Err(Error::GeoHashPrecision { precision })
    }
}

/// The radius of a distance predicate.
#[derive(Debug, Clone, Copy, PartialEq, Eq)]
pub enum Radius {
    /// A number.
    Number(u64),
    /// An integer, to be widened.
    Integer(i64),
    /// None: every row is null.
    Missing,
}

/// What a constant is worth as a radius.
pub open spec fn radius_of(value: Argument) -> Option<Radius> {
    match value {
        Argument::Scalar(Constant::Float64(Some(number))) => Some(Radius::Number(number)),
        Argument::Scalar(Constant::Int64(Some(n))) => Some(Radius::Integer(n)),
        Argument::Scalar(Constant::Float64(None)) => Some(Radius::Missing),
        Argument::Scalar(Constant::Null) => Some(Radius::Missing),
        _ => None,
    }
}

/// The radius of `ST_DWithin` and `ST_DFullyWithin`.
///
/// The radius grows the bounding box of one side, so it must be one value for the batch.
pub fn distance_radius(fully: bool, value: &Argument) -> (r: Result<Radius, Error>)
    ensures
        match radius_of(*value) {
            Some(radius) => r == Ok::<Radius, Error>(radius),
            None => r matches Err(Error::NeedsConstant { function, argument }) && function@
                == distance_names(fully).1 && argument == 3,
        },
{
    match value {
        Argument::Scalar(Constant::Float64(Some(number))) => Ok(Radius::Number(*number)),
        Argument::Scalar(Constant::Int64(Some(n))) => Ok(Radius::Integer(*n)),
        Argument::Scalar(Constant::Float64(None)) => Ok(Radius::Missing),
        Argument::Scalar(Constant::Null) => Ok(Radius::Missing),
        _ => Err(Error::NeedsConstant { function: distance_predicate_names(fully).1, argument: 3 }),
    }
}

/// What a call of `ST_Relate` asks for.
#[derive(Debug)]
pub enum Relation {
    /// The matrix as text.
    Matrix,
    /// Whether the matrix fits a pattern.
    Pattern(String),
    /// None: every row is null.
    Missing,
}

/// Read the optional pattern of `ST_Relate`. It must be a constant text.
pub fn relation(value: Option<&Argument>) -> (r: Result<Relation, Error>)
    ensures
        match value {
            None => r matches Ok(relation) && relation is Matrix,
            Some(Argument::Scalar(Constant::Utf8(Some(pattern)))) => r matches Ok(
                Relation::Pattern(text),
            ) && text@ == pattern@,
            Some(Argument::Scalar(Constant::Utf8(None))) => r matches Ok(relation)
                && relation is Missing,
            Some(Argument::Scalar(Constant::Null)) => r matches Ok(relation)
                && relation is Missing,
            Some(_) => r matches Err(Error::NeedsConstant { function, argument }) && function@
                == "ST_Relate"@ && argument == 3,
        },
{
    match value {
        None => Ok(Relation::Matrix),
        Some(Argument::Scalar(Constant::Utf8(Some(pattern)))) => {
            let text = pattern.clone();
            Ok(Relation::Pattern(text))
        },
        Some(Argument::Scalar(Constant::Utf8(None))) => Ok(Relation::Missing),
        Some(Argument::Scalar(Constant::Null)) => Ok(Relation::Missing),
        Some(_) => Err(Error::NeedsConstant { function: "ST_Relate", argument: 3 }),
    }
}

/// True when `ST_Relate` gives a boolean. Without a pattern it gives the matrix as text.
pub fn relate_gives_boolean(arguments: usize) -> (r: bool)
    ensures
        r == (arguments >= 3),
{
    arguments >= 3
}

/// The rows of a call, where a call on constants alone has one.
pub fn row_count(number_rows: usize) -> (r: usize)
    ensures
        r == if number_rows == 0 {
            1
        } else {
            number_rows
        },
{
    if number_rows == 0 {
        1
    } else {
        number_rows
    }
}

// --------------------------------------------------------------------- windows
/// A parameter of a window function: it holds for the whole partition, so row zero gives it.
pub open spec fn first_of(values: Option<&Vec<Option<u64>>>) -> Option<u64> {
    match values {
        Some(values) => if values@.len() > 0 {
            values@[0]
        } else {
            None
        },
        None => None,
    }
}

/// Read a parameter that must be the same for the whole partition.
pub fn constant_number(
    function: &'static str,
    name: &'static str,
    values: Option<&Vec<Option<u64>>>,
) -> (r: Result<u64, Error>)
    ensures
        match first_of(values) {
            Some(value) => r == Ok::<u64, Error>(value),
            None => r == Err::<u64, Error>(Error::MissingParameter { function, name }),
        },
{
    match values {
        Some(values) => if values.len() > 0 {
            match values[0] {
                Some(value) => Ok(value),
                None => Err(Error::MissingParameter { function, name }),
            }
        } else {
            Err(Error::MissingParameter { function, name })
        },
        None => Err(Error::MissingParameter { function, name }),
    }
}

/// Read a parameter that is a count. A count too large reads as the largest.
pub fn constant_usize(
    function: &'static str,
    name: &'static str,
    values: Option<&Vec<Option<u64>>>,
) -> (r: Result<usize, Error>)
    ensures
        match first_of(values) {
            Some(value) => match number::whole(value) {
                Some(n) => r matches Ok(got) && got == if n <= usize::MAX {
                    n as int
                } else {
                    usize::MAX as int
                },
                None => r == Err::<usize, Error>(Error::NotACount { function, name }),
            },
            None => r == Err::<usize, Error>(Error::MissingParameter { function, name }),
        },
{
    match constant_number(function, name, values) {
        Ok(value) => match number::count(value) {
            Some(n) => Ok(n),
            None => Err(Error::NotACount { function, name }),
        },
        Err(error) => Err(error),
    }
}

// ------------------------------------------------------------- argument places
/// Which argument holds the point.
pub open spec fn point_place(edit: VertexEdit) -> Option<usize> {
    match edit {
        VertexEdit::Add => Some(1usize),
        VertexEdit::Replace => Some(2usize),
        VertexEdit::Remove => None,
    }
}

/// Which argument holds the position.
pub open spec fn position_place(edit: VertexEdit) -> usize {
    match edit {
        VertexEdit::Add => 2,
        VertexEdit::Remove | VertexEdit::Replace => 1,
    }
}

/// Which argument holds the point, for the edits that take one.
///
/// The argument order follows PostGIS, and it is not the same for all three:
/// `ST_AddPoint(line, point [, position])`, `ST_RemovePoint(line, position)` and
/// `ST_SetPoint(line, position, point)`.
pub fn point_argument(edit: VertexEdit) -> (r: Option<usize>)
    ensures
        r == point_place(edit),
{
    match edit {
        VertexEdit::Add => Some(1),
        VertexEdit::Replace => Some(2),
        VertexEdit::Remove => None,
    }
}

/// Which argument holds the position.
pub fn position_argument(edit: VertexEdit) -> (r: usize)
    ensures
        r == position_place(edit),
{
    match edit {
        VertexEdit::Add => 2,
        VertexEdit::Remove | VertexEdit::Replace => 1,
    }
}

/// The fewest and the most arguments of an edit. `ST_AddPoint` takes an optional position, the
/// other two require one.
pub fn argument_counts(edit: VertexEdit) -> (r: (usize, usize))
    ensures
        r == match edit {
            VertexEdit::Add => (2usize, 3usize),
            VertexEdit::Remove => (2, 2),
            VertexEdit::Replace => (3, 3),
        },
{
    match edit {
        VertexEdit::Add => (2, 3),
        VertexEdit::Remove => (2, 2),
        VertexEdit::Replace => (3, 3),
    }
}

/// The type of `ST_MakePoint`. Two arguments give XY, three give XYZ.
pub fn make_point_type(arguments: usize) -> (r: DataType)
    ensures
        r@ == DataTypeView::separated(
            Kind::Point,
            if arguments >= 3 {
                Dimension::XYZ
            } else {
                Dimension::XY
            },
            no_metadata(),
        ),
{
    let dim = if arguments >= 3 {
        Dimension::XYZ
    } else {
        Dimension::XY
    };
    point_type(dim, Metadata::default())
}

/// True when `ST_MakePolygon` takes a column.
///
/// A mixed or serialized column carries an unknown type per row, so it is accepted and checked row
/// by row. Only a wrong *static* type is a plan-time error.
pub fn accepts_make_polygon(input: &DataType) -> (r: bool)
    ensures
        r == (is_untyped_kind(input@.kind) || input@.kind == Kind::LineString),
{
    is_untyped(input) || input.kind == Kind::LineString
}

/// True when `ST_MakeLine` takes two columns.
pub fn accepts_make_line(start: &DataType, end: &DataType) -> (r: bool)
    ensures
        r == (start@.kind == Kind::Point && end@.kind == Kind::Point),
{
    start.kind == Kind::Point && end.kind == Kind::Point
}

// ----------------------------------------------------------------------- names
/// The SQL name and the PostGIS name of a function.
pub open spec fn pair(names: (&'static str, &'static str)) -> (Seq<char>, Seq<char>) {
    (names.0@, names.1@)
}

/// The SQL name of an ordinate function.
pub fn ordinate_sql_name(ordinate: Ordinate) -> (r: &'static str)
    ensures
        r@ == match ordinate {
            Ordinate::X => "st_x"@,
            Ordinate::Y => "st_y"@,
            Ordinate::Z => "st_z"@,
            Ordinate::M => "st_m"@,
        },
{
    match ordinate {
        Ordinate::X => "st_x",
        Ordinate::Y => "st_y",
        Ordinate::Z => "st_z",
        Ordinate::M => "st_m",
    }
}

/// The names of the function that reads one end of a line.
pub fn line_end_names(end: LineEnd) -> (r: (&'static str, &'static str))
    ensures
        pair(r) == match end {
            LineEnd::Start => ("st_startpoint"@, "ST_StartPoint"@),
            LineEnd::End => ("st_endpoint"@, "ST_EndPoint"@),
        },
{
    match end {
        LineEnd::Start => ("st_startpoint", "ST_StartPoint"),
        LineEnd::End => ("st_endpoint", "ST_EndPoint"),
    }
}

/// The names of a distance predicate.
pub open spec fn distance_names(fully: bool) -> (Seq<char>, Seq<char>) {
    if fully {
        ("st_dfullywithin"@, "ST_DFullyWithin"@)
    } else {
        ("st_dwithin"@, "ST_DWithin"@)
    }
}

/// The names of a distance predicate. `fully` selects `ST_DFullyWithin` over `ST_DWithin`.
pub fn distance_predicate_names(fully: bool) -> (r: (&'static str, &'static str))
    ensures
        pair(r) == distance_names(fully),
{
    if fully {
        ("st_dfullywithin", "ST_DFullyWithin")
    } else {
        ("st_dwithin", "ST_DWithin")
    }
}

/// The names of a nearest function. `line` selects `ST_ShortestLine` over `ST_ClosestPoint`.
pub fn nearest_names(line: bool) -> (r: (&'static str, &'static str))
    ensures
        pair(r) == if line {
            ("st_shortestline"@, "ST_ShortestLine"@)
        } else {
            ("st_closestpoint"@, "ST_ClosestPoint"@)
        },
{
    if line {
        ("st_shortestline", "ST_ShortestLine")
    } else {
        ("st_closestpoint", "ST_ClosestPoint")
    }
}

/// The output type of a nearest function.
pub fn nearest_output_type(line: bool, input: &DataType) -> (r: DataType)
    ensures
        r@ == DataTypeView::separated(
            if line {
                Kind::LineString
            } else {
                Kind::Point
            },
            Dimension::XY,
            input@.metadata,
        ),
{
    if line {
        linear::line_output_type(input)
    } else {
        linear::point_output_type(input)
    }
}

/// The names of a validity function. `reason` selects `ST_IsValidReason` over `ST_IsValid`.
pub fn validity_names(reason: bool) -> (r: (&'static str, &'static str))
    ensures
        pair(r) == if reason {
            ("st_isvalidreason"@, "ST_IsValidReason"@)
        } else {
            ("st_isvalid"@, "ST_IsValid"@)
        },
{
    if reason {
        ("st_isvalidreason", "ST_IsValidReason")
    } else {
        ("st_isvalid", "ST_IsValid")
    }
}

/// Which indexed component to pull out.
#[derive(Debug, Clone, Copy, PartialEq, Eq, Structural, Hash)]
pub enum IndexedComponent {
    /// `ST_PointN`.
    PointN,
    /// `ST_InteriorRingN`.
    InteriorRingN,
    /// `ST_GeometryN`.
    GeometryN,
}

impl IndexedComponent {
    /// The SQL name and the PostGIS name.
    pub fn names(self) -> (r: (&'static str, &'static str))
        ensures
            pair(r) == match self {
                IndexedComponent::PointN => ("st_pointn"@, "ST_PointN"@),
                IndexedComponent::InteriorRingN => ("st_interiorringn"@, "ST_InteriorRingN"@),
                IndexedComponent::GeometryN => ("st_geometryn"@, "ST_GeometryN"@),
            },
    {
        match self {
            IndexedComponent::PointN => ("st_pointn", "ST_PointN"),
            IndexedComponent::InteriorRingN => ("st_interiorringn", "ST_InteriorRingN"),
            IndexedComponent::GeometryN => ("st_geometryn", "ST_GeometryN"),
        }
    }

    /// The output type.
    pub fn output_type(self, input: &DataType) -> (r: DataType)
        ensures
            r@ == match self {
                IndexedComponent::PointN => DataTypeView::separated(
                    Kind::Point,
                    input@.dimension_or_xy(),
                    input@.metadata,
                ),
                IndexedComponent::InteriorRingN => DataTypeView::separated(
                    Kind::LineString,
                    input@.dimension_or_xy(),
                    input@.metadata,
                ),
                IndexedComponent::GeometryN => DataTypeView::mixed(input@.metadata),
            },
    {
        match self {
            IndexedComponent::PointN => point_output_type(input),
            IndexedComponent::InteriorRingN => line_string_output_type(input),
            IndexedComponent::GeometryN => geometry_output_type(input),
        }
    }
}

/// Which text or binary format a parser reads.
#[derive(Debug, Clone, Copy, PartialEq, Eq, Structural, Hash)]
pub enum ParseFormat {
    /// Well-Known Text.
    Wkt,
    /// Well-Known Binary. Also accepts the extended form.
    Wkb,
    /// GeoJSON.
    GeoJson,
    /// A geohash string, decoded to the centre of its cell.
    GeoHash,
}

impl ParseFormat {
    /// The SQL name and the PostGIS name.
    pub fn names(self) -> (r: (&'static str, &'static str))
        ensures
            pair(r) == match self {
                ParseFormat::Wkt => ("st_geomfromtext"@, "ST_GeomFromText"@),
                ParseFormat::Wkb => ("st_geomfromwkb"@, "ST_GeomFromWKB"@),
                ParseFormat::GeoJson => ("st_geomfromgeojson"@, "ST_GeomFromGeoJSON"@),
                ParseFormat::GeoHash => ("st_pointfromgeohash"@, "ST_PointFromGeoHash"@),
            },
    {
        match self {
            ParseFormat::Wkt => ("st_geomfromtext", "ST_GeomFromText"),
            ParseFormat::Wkb => ("st_geomfromwkb", "ST_GeomFromWKB"),
            ParseFormat::GeoJson => ("st_geomfromgeojson", "ST_GeomFromGeoJSON"),
            ParseFormat::GeoHash => ("st_pointfromgeohash", "ST_PointFromGeoHash"),
        }
    }

    /// True when the parser reads bytes. The others read text.
    pub fn reads_bytes(self) -> (r: bool)
        ensures
            r == (self == ParseFormat::Wkb),
    {
        match self {
            ParseFormat::Wkb => true,
            _ => false,
        }
    }

    /// The output type. A geohash is always a point, anything else can be any geometry.
    pub fn output_type(self) -> (r: DataType)
        ensures
            r@ == if self == ParseFormat::GeoHash {
                DataTypeView::separated(Kind::Point, Dimension::XY, no_metadata())
            } else {
                DataTypeView::mixed(no_metadata())
            },
    {
        match self {
            ParseFormat::GeoHash => point_type(Dimension::XY, Metadata::default()),
            _ => parsed_type(Metadata::default()),
        }
    }
}

// ------------------------------------------------------------------------ laws
/// An integer that fits is read as itself, whatever the width it came in.
pub proof fn law_the_width_of_an_integer_does_not_matter(n: i32)
    ensures
        integer_of(Constant::Int32(Some(n))) == integer_of(Constant::Int64(Some(n as i64))),
{
}

/// The point and the position of an edit are different arguments, and neither is the line.
pub proof fn law_the_arguments_of_an_edit_are_apart(edit: VertexEdit)
    ensures
        position_place(edit) != 0,
        point_place(edit) matches Some(at) ==> at != 0 && at != position_place(edit),
{
}

} // verus!
