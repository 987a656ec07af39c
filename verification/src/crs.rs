//! `ST_SRID` and `ST_SetSRID`.
//!
//! # A real difference from PostGIS
//!
//! PostGIS stores an SRID inside every geometry value, so one column can hold rows in different
//! coordinate reference systems. GeoArrow stores the CRS once, in the field metadata of the whole
//! column.
//!
//! Two consequences follow, and both are visible to the user:
//!
//! 1. `ST_SRID` returns the same value for every row. It reads the schema, not the data.
//! 2. `ST_SetSRID` changes the type of the column, so its second argument must be a constant. A
//!    per-row SRID cannot be represented and is rejected at plan time rather than silently
//!    dropped.
//!
//! The column layout is the better one for an analytic engine, and it is what GeoParquet writes.

use vstd::prelude::*;
use crate::column::{Column, DataType, DataTypeView};
use crate::decimal;

verus! {

// ------------------------------------------------------------------ the values
/// A JSON number: its text, and its value where that is a whole number of 64 bits.
#[derive(Debug)]
pub struct JsonNumber {
    /// The number as JSON writes it.
    pub text: String,
    /// The number, where it is a signed 64 bit one.
    pub integer: Option<i64>,
}

/// A JSON value, the form in which a column describes its coordinate reference system.
#[derive(Debug)]
pub enum Json {
    /// `null`.
    Null,
    /// `true` or `false`.
    Bool(bool),
    /// A number.
    Number(JsonNumber),
    /// A string.
    Text(String),
    /// A list.
    Array(Vec<Json>),
    /// An object, its entries in the order of their keys.
    Object(Vec<(String, Json)>),
}

/// The view of a [`Json`] value.
#[verifier::ext_equal]
pub enum JsonView {
    /// `null`.
    Null,
    /// `true` or `false`.
    Bool(bool),
    /// A number.
    Number(Seq<char>, Option<i64>),
    /// A string.
    Text(Seq<char>),
    /// A list.
    Array(Seq<JsonView>),
    /// An object.
    Object(Seq<(Seq<char>, JsonView)>),
}

impl View for Json {
    type V = JsonView;

    open spec fn view(&self) -> JsonView
        decreases self,
    {
        match self {
            Json::Null => JsonView::Null,
            Json::Bool(value) => JsonView::Bool(*value),
            Json::Number(number) => JsonView::Number(number.text@, number.integer),
            Json::Text(text) => JsonView::Text(text@),
            Json::Array(items) => JsonView::Array(
                Seq::new(
                    items@.len(),
                    |i: int|
                        if 0 <= i < items@.len() {
                            items@[i].view()
                        } else {
                            JsonView::Null
                        },
                ),
            ),
            Json::Object(entries) => JsonView::Object(
                Seq::new(
                    entries@.len(),
                    |i: int|
                        if 0 <= i < entries@.len() {
                            (entries@[i].0@, entries@[i].1.view())
                        } else {
                            (Seq::empty(), JsonView::Null)
                        },
                ),
            ),
        }
    }
}

/// What the value of a coordinate reference system means.
#[derive(Debug, Clone, Copy, PartialEq, Eq, Structural, Hash)]
pub enum CrsType {
    /// A PROJJSON object.
    Projjson,
    /// A WKT2:2019 description.
    Wkt2_2019,
    /// An authority and a code, for example `EPSG:4326`.
    AuthorityCode,
    /// A number that only the producer knows.
    Srid,
}

/// The coordinate reference system of a column.
#[derive(Debug)]
pub struct Crs {
    /// The description.
    pub value: Option<Json>,
    /// What the description means.
    pub crs_type: Option<CrsType>,
}

/// The view of a [`Crs`].
#[verifier::ext_equal]
pub struct CrsView {
    /// The description.
    pub value: Option<JsonView>,
    /// What the description means.
    pub crs_type: Option<CrsType>,
}

impl View for Crs {
    type V = CrsView;

    open spec fn view(&self) -> CrsView {
        CrsView {
            value: match self.value {
                Some(value) => Some(value@),
                None => None,
            },
            crs_type: self.crs_type,
        }
    }
}

/// How the edges between two vertices run.
#[derive(Debug, Clone, Copy, PartialEq, Eq, Structural, Hash)]
pub enum Edges {
    /// By the formula of Thomas and Andoyer.
    Andoyer,
    /// By the formula of Karney.
    Karney,
    /// Along a sphere.
    Spherical,
    /// By the formula of Thomas.
    Thomas,
    /// By the formula of Vincenty.
    Vincenty,
}

/// What a column says of its coordinates.
#[derive(Debug)]
pub struct Metadata {
    /// The coordinate reference system.
    pub crs: Crs,
    /// How the edges run. Straight lines where it is `None`.
    pub edges: Option<Edges>,
}

/// The view of a [`Metadata`].
#[verifier::ext_equal]
pub struct MetadataView {
    /// The coordinate reference system.
    pub crs: CrsView,
    /// How the edges run.
    pub edges: Option<Edges>,
}

impl View for Metadata {
    type V = MetadataView;

    open spec fn view(&self) -> MetadataView {
        MetadataView { crs: self.crs@, edges: self.edges }
    }
}

/// The metadata of a column that says nothing of its coordinates.
pub open spec fn no_metadata() -> MetadataView {
    MetadataView { crs: no_crs(), edges: None }
}

/// No coordinate reference system.
pub open spec fn no_crs() -> CrsView {
    CrsView { value: None, crs_type: None }
}

impl Default for Crs {
    fn default() -> (r: Crs)
        ensures
            r@ == no_crs(),
    {
        Crs { value: None, crs_type: None }
    }
}

impl Default for Metadata {
    fn default() -> (r: Metadata)
        ensures
            r@ == no_metadata(),
    {
        Metadata { crs: Crs::default(), edges: None }
    }
}

impl Json {
    /// A copy of this value.
    pub fn copy(&self) -> (r: Json)
        ensures
            r@ == self@,
        decreases self,
    {
        match self {
            Json::Null => Json::Null,
            Json::Bool(value) => Json::Bool(*value),
            Json::Number(number) => Json::Number(
                JsonNumber { text: number.text.clone(), integer: number.integer },
            ),
            Json::Text(text) => Json::Text(text.clone()),
            Json::Array(items) => {
                let mut out: Vec<Json> = Vec::new();
                let mut i: usize = 0;
                while i < items.len()
                    invariant
                        i <= items@.len(),
                        *self == Json::Array(*items),
                        out@.len() == i,
                        forall|j: int| 0 <= j < i ==> #[trigger] out@[j]@ == items@[j]@,
                    decreases items@.len() - i,
                {
                    proof {
                        assert(decreases_to!(*items => items[i as int]));
                        assert(decreases_to!(*self => self->Array_0));
                    }
                    out.push(items[i].copy());
                    i = i + 1;
                }
                proof {
                    reveal_with_fuel(<Json as View>::view, 2);
                    let copied = Json::Array(out)@->Array_0;
                    assert forall|j: int| 0 <= j < out@.len() implies copied[j]
                        == #[trigger] self@->Array_0[j] by {
                        assert(out@[j]@ == items@[j]@);
                    }
                    assert(copied =~= self@->Array_0);
                }
                Json::Array(out)
            },
            Json::Object(entries) => {
                let mut out: Vec<(String, Json)> = Vec::new();
                let mut i: usize = 0;
                while i < entries.len()
                    invariant
                        i <= entries@.len(),
                        *self == Json::Object(*entries),
                        out@.len() == i,
                        forall|j: int|
                            0 <= j < i ==> (#[trigger] out@[j]).0@ == entries@[j].0@
                                && out@[j].1@ == entries@[j].1@,
                    decreases entries@.len() - i,
                {
                    proof {
                        assert(decreases_to!(*entries => entries[i as int]));
                        assert(decreases_to!(*self => self->Object_0));
                    }
                    let key = entries[i].0.clone();
                    let value = entries[i].1.copy();
                    out.push((key, value));
                    i = i + 1;
                }
                proof {
                    reveal_with_fuel(<Json as View>::view, 2);
                    assert(Json::Object(out)@->Object_0 =~= self@->Object_0);
                }
                Json::Object(out)
            },
        }
    }

    /// True when the two values are the same.
    pub fn same(&self, other: &Json) -> (r: bool)
        ensures
            r == (self@ == other@),
        decreases self,
    {
        match (self, other) {
            (Json::Null, Json::Null) => true,
            (Json::Bool(a), Json::Bool(b)) => *a == *b,
            (Json::Number(a), Json::Number(b)) => a.text == b.text && match (
                a.integer,
                b.integer,
            ) {
                (Some(x), Some(y)) => x == y,
                (None, None) => true,
                _ => false,
            },
            (Json::Text(a), Json::Text(b)) => *a == *b,
            (Json::Array(a), Json::Array(b)) => {
                proof {
                    reveal_with_fuel(<Json as View>::view, 2);
                }
                let n: usize = a.len();
                if n != b.len() {
                    assert(self@->Array_0.len() != other@->Array_0.len());
                    return false;
                }
                let mut i: usize = 0;
                while i < n
                    invariant
                        i <= n,
                        n == a@.len() == b@.len(),
                        *self == Json::Array(*a),
                        *other == Json::Array(*b),
                        forall|j: int| 0 <= j < i ==> #[trigger] a@[j]@ == b@[j]@,
                    decreases n - i,
                {
                    proof {
                        assert(decreases_to!(*a => a[i as int]));
                        assert(decreases_to!(*self => self->Array_0));
                    }
                    if !a[i].same(&b[i]) {
                        proof {
                            reveal_with_fuel(<Json as View>::view, 2);
                            assert(self@->Array_0[i as int] != other@->Array_0[i as int]);
                        }
                        return false;
                    }
                    i = i + 1;
                }
                proof {
                    reveal_with_fuel(<Json as View>::view, 2);
                    assert forall|j: int| 0 <= j < n implies self@->Array_0[j]
                        == #[trigger] other@->Array_0[j] by {
                        assert(a@[j]@ == b@[j]@);
                    }
                    assert(self@->Array_0 =~= other@->Array_0);
                }
                true
            },
            (Json::Object(a), Json::Object(b)) => {
                proof {
                    reveal_with_fuel(<Json as View>::view, 2);
                }
                let n: usize = a.len();
                if n != b.len() {
                    assert(self@->Object_0.len() != other@->Object_0.len());
                    return false;
                }
                let mut i: usize = 0;
                while i < n
                    invariant
                        i <= n,
                        n == a@.len() == b@.len(),
                        *self == Json::Object(*a),
                        *other == Json::Object(*b),
                        forall|j: int|
                            0 <= j < i ==> (#[trigger] a@[j]).0@ == b@[j].0@ && a@[j].1@
                                == b@[j].1@,
                    decreases n - i,
                {
                    proof {
                        assert(decreases_to!(*a => a[i as int]));
                        assert(decreases_to!(*self => self->Object_0));
                    }
                    if a[i].0 != b[i].0 || !a[i].1.same(&b[i].1) {
                        proof {
                            reveal_with_fuel(<Json as View>::view, 2);
                            assert(self@->Object_0[i as int] != other@->Object_0[i as int]);
                        }
                        return false;
                    }
                    i = i + 1;
                }
                proof {
                    assert(self@->Object_0 =~= other@->Object_0);
                }
                true
            },
            _ => false,
        }
    }
}

impl Crs {
    /// A copy of this value.
    pub fn copy(&self) -> (r: Crs)
        ensures
            r@ == self@,
    {
        Crs {
            value: match &self.value {
                Some(value) => Some(value.copy()),
                None => None,
            },
            crs_type: self.crs_type,
        }
    }

    /// True when the two systems are described in the same way.
    pub fn same(&self, other: &Crs) -> (r: bool)
        ensures
            r == (self@ == other@),
    {
        let types = match (self.crs_type, other.crs_type) {
            (Some(a), Some(b)) => a == b,
            (None, None) => true,
            _ => false,
        };
        types && match (&self.value, &other.value) {
            (Some(a), Some(b)) => a.same(b),
            (None, None) => true,
            _ => false,
        }
    }

    /// A system that only the producer's number names.
    pub fn from_srid(text: String) -> (r: Crs)
        ensures
            r@ == (CrsView {
                value: Some(JsonView::Text(text@)),
                crs_type: Some(CrsType::Srid),
            }),
    {
        Crs { value: Some(Json::Text(text)), crs_type: Some(CrsType::Srid) }
    }
}

impl Metadata {
    /// A copy of this value.
    pub fn copy(&self) -> (r: Metadata)
        ensures
            r@ == self@,
    {
        Metadata { crs: self.crs.copy(), edges: self.edges }
    }
}

// -------------------------------------------------------------------- the SRID
/// The entry of an object under a key. Other values have none.
pub open spec fn entry(value: JsonView, key: Seq<char>) -> Option<JsonView> {
    match value {
        JsonView::Object(entries) => lookup(entries, key),
        _ => None,
    }
}

/// The first entry under a key.
pub open spec fn lookup(entries: Seq<(Seq<char>, JsonView)>, key: Seq<char>) -> Option<JsonView>
    decreases entries.len(),
{
    if entries.len() == 0 {
        None
    } else if entries[0].0 == key {
        Some(entries[0].1)
    } else {
        lookup(entries.skip(1), key)
    }
}

/// The text of a string or of a number.
pub open spec fn scalar_text(value: JsonView) -> Option<Seq<char>> {
    match value {
        JsonView::Text(text) => Some(text),
        JsonView::Number(text, _) => Some(text),
        _ => None,
    }
}

/// What follows the last colon of a text.
pub open spec fn after_colon(text: Seq<char>) -> Option<Seq<char>>
    decreases text.len(),
{
    if text.len() == 0 {
        None
    } else if text.last() == ':' {
        Some(Seq::empty())
    } else {
        match after_colon(text.drop_last()) {
            Some(tail) => Some(tail.push(text.last())),
            None => None,
        }
    }
}

/// The code that a JSON value holds: a whole number in range, or a string that reads as one.
pub open spec fn code_value(code: JsonView) -> Option<i32> {
    match code {
        JsonView::Number(_, Some(n)) => if i32::MIN <= n <= i32::MAX {
            Some(n as i32)
        } else {
            None
        },
        JsonView::Text(text) => decimal::parsed(text),
        _ => None,
    }
}

/// The SRID that a coordinate reference system names, where it names one.
pub open spec fn named_srid(crs: CrsView) -> Option<i32> {
    match (crs.value, crs.crs_type) {
        // Stored as the bare number, which is what a database driver writes.
        (Some(value), Some(CrsType::Srid)) => match scalar_text(value) {
            Some(text) => decimal::parsed(text),
            None => None,
        },
        // Stored as `AUTHORITY:CODE`, for example `EPSG:4326`.
        (Some(value), Some(CrsType::AuthorityCode)) => match scalar_text(value) {
            Some(text) => match after_colon(text) {
                Some(code) => decimal::parsed(code),
                None => None,
            },
            None => None,
        },
        // PROJJSON carries the code under `id.code`.
        (Some(value), Some(CrsType::Projjson)) => match entry(value, "id"@) {
            Some(id) => match entry(id, "code"@) {
                Some(code) => code_value(code),
                None => None,
            },
            None => None,
        },
        // A full WKT2 description has no cheap code to read.
        _ => None,
    }
}

/// The SRID of a coordinate reference system, or zero when it names none.
pub open spec fn srid_in(crs: CrsView) -> i32 {
    match named_srid(crs) {
        Some(srid) => srid,
        None => 0,
    }
}

/// The system that `ST_SetSRID` stamps on a column.
pub open spec fn stamped(srid: i32) -> CrsView {
    if srid == 0 {
        no_crs()
    } else {
        CrsView {
            value: Some(JsonView::Text(decimal::text_of(srid))),
            crs_type: Some(CrsType::Srid),
        }
    }
}

impl Json {
    /// The entry of an object under a key. Other values have none.
    pub fn get(&self, key: &str) -> (r: Option<&Json>)
        ensures
            match r {
                Some(value) => entry(self@, key@) == Some(value@),
                None => entry(self@, key@) is None,
            },
    {
        match self {
            Json::Object(entries) => {
                let wanted = key.to_owned();
                let ghost all = self@->Object_0;
                proof {
                    reveal_with_fuel(<Json as View>::view, 2);
                    assert(all.skip(0) =~= all);
                }
                let mut i: usize = 0;
                while i < entries.len()
                    invariant
                        i <= entries@.len(),
                        *self == Json::Object(*entries),
                        all == self@->Object_0,
                        all.len() == entries@.len(),
                        wanted@ == key@,
                        lookup(all, key@) == lookup(all.skip(i as int), key@),
                    decreases entries@.len() - i,
                {
                    proof {
                        reveal_with_fuel(<Json as View>::view, 2);
                        assert(all[i as int] == (entries@[i as int].0@, entries@[i as int].1@));
                        assert(all.skip(i as int)[0] == all[i as int]);
                        assert(all.skip(i as int).skip(1) =~= all.skip(i + 1));
                    }
                    if entries[i].0 == wanted {
                        return Some(&entries[i].1);
                    }
                    i = i + 1;
                }
                None
            },
            _ => None,
        }
    }

    /// The text of a string or of a number.
    fn scalar_string(&self) -> (r: Option<String>)
        ensures
            match r {
                Some(text) => scalar_text(self@) == Some(text@),
                None => scalar_text(self@) is None,
            },
    {
        match self {
            Json::Text(text) => Some(text.clone()),
            Json::Number(number) => Some(number.text.clone()),
            _ => None,
        }
    }

    /// The code that this value holds.
    fn code(&self) -> (r: Option<i32>)
        ensures
            r == code_value(self@),
    {
        match self {
            Json::Number(number) => match number.integer {
                Some(n) => if n >= i32::MIN as i64 && n <= i32::MAX as i64 {
                    Some(n as i32)
                } else {
                    None
                },
                None => None,
            },
            Json::Text(text) => decimal::parse_i32(text.as_str()),
            _ => None,
        }
    }
}

/// No colon in a text, nothing behind one.
proof fn lemma_no_colon(text: Seq<char>)
    requires
        forall|i: int| 0 <= i < text.len() ==> #[trigger] text[i] != ':',
    ensures
        after_colon(text) is None,
    decreases text.len(),
{
    if text.len() > 0 {
        assert(text.last() == text[text.len() - 1]);
        assert forall|i: int| 0 <= i < text.drop_last().len() implies #[trigger] text.drop_last()[i]
            != ':' by {
            assert(text[i] != ':');
        }
        lemma_no_colon(text.drop_last());
    }
}

/// The text behind a colon that no other follows.
proof fn lemma_last_colon(text: Seq<char>, at: int)
    requires
        0 <= at < text.len(),
        text[at] == ':',
        forall|i: int| at < i < text.len() ==> #[trigger] text[i] != ':',
    ensures
        after_colon(text) == Some(text.skip(at + 1)),
    decreases text.len(),
{
    if at == text.len() - 1 {
        assert(text.skip(at + 1) =~= Seq::<char>::empty());
    } else {
        let front = text.drop_last();
        assert(text.last() == text[text.len() - 1]);
        assert forall|i: int| at < i < front.len() implies #[trigger] front[i] != ':' by {
            assert(text[i] != ':');
        }
        lemma_last_colon(front, at);
        assert(front.skip(at + 1).push(text.last()) =~= text.skip(at + 1));
    }
}

/// Read the number behind the last colon.
fn code_after_colon(text: &str) -> (r: Option<i32>)
    ensures
        r == match after_colon(text@) {
            Some(code) => decimal::parsed(code),
            None => None,
        },
{
    let total: usize = text.unicode_len();
    let mut i: usize = total;
    while i > 0
        invariant
            i <= total,
            total == text@.len(),
            forall|j: int| i <= j < total ==> #[trigger] text@[j] != ':',
        decreases i,
    {
        let c: char = text.get_char(i - 1);
        if c == ':' {
            proof {
                lemma_last_colon(text@, i - 1);
                assert(text@.skip(i as int) =~= text@.subrange(i as int, total as int));
            }
            return decimal::parse_i32(text.substring_char(i, total));
        }
        i = i - 1;
    }
    proof {
        lemma_no_colon(text@);
    }
    None
}

impl Crs {
    /// The SRID that this system names, or zero when it names none.
    pub fn srid(&self) -> (r: i32)
        ensures
            r == srid_in(self@),
    {
        let named: Option<i32> = match (&self.value, self.crs_type) {
            (Some(value), Some(CrsType::Srid)) => match value.scalar_string() {
                Some(text) => decimal::parse_i32(text.as_str()),
                None => None,
            },
            (Some(value), Some(CrsType::AuthorityCode)) => match value.scalar_string() {
                Some(text) => code_after_colon(text.as_str()),
                None => None,
            },
            (Some(value), Some(CrsType::Projjson)) => match value.get("id") {
                Some(id) => match id.get("code") {
                    Some(code) => code.code(),
                    None => None,
                },
                None => None,
            },
            _ => None,
        };
        match named {
            Some(srid) => srid,
            None => 0,
        }
    }
}

/// The SRID of a column, or zero when it carries no coordinate reference system.
///
/// Zero is what PostGIS reports for an unknown SRID.
pub fn srid_of(data_type: &DataType) -> (r: i32)
    ensures
        r == srid_in(data_type.metadata@.crs),
{
    data_type.metadata.crs.srid()
}

/// The system that an SRID stands for. Zero means no SRID, so it clears the system.
fn srid_crs(srid: i32) -> (r: Crs)
    ensures
        r@ == stamped(srid),
{
    if srid == 0 {
        Crs::default()
    } else {
        Crs::from_srid(decimal::i32_text(srid))
    }
}

/// The same type with a different SRID.
pub fn with_srid(data_type: &DataType, srid: i32) -> (r: DataType)
    ensures
        r@ == data_type@.with_metadata(
            MetadataView { crs: stamped(srid), edges: data_type.metadata@.edges },
        ),
{
    DataType {
        kind: data_type.kind,
        dimension: data_type.dimension,
        coord_type: data_type.coord_type,
        metadata: Metadata { crs: srid_crs(srid), edges: data_type.metadata.edges },
    }
}

/// `ST_SRID`. One value per row, all the same, read from the column metadata.
pub fn st_srid(array: &Column) -> (r: Vec<Option<i32>>)
    requires
        array.wf(),
    ensures
        r@.len() == array.rows(),
        forall|i: int|
            0 <= i < r@.len() ==> #[trigger] r@[i] == if array.is_null(i) {
                None
            } else {
                Some(srid_in(array.metadata@.crs))
            },
{
    let srid: i32 = array.metadata.crs.srid();
    let rows: usize = array.len();
    let mut out: Vec<Option<i32>> = Vec::new();
    let mut i: usize = 0;
    while i < rows
        invariant
            i <= rows,
            array.wf(),
            rows == array.rows(),
            srid == srid_in(array.metadata@.crs),
            out@.len() == i,
            forall|j: int|
                0 <= j < i ==> #[trigger] out@[j] == if array.is_null(j) {
                    None
                } else {
                    Some(srid)
                },
        decreases rows - i,
    {
        out.push(
            if array.null_at(i) {
                None
            } else {
                Some(srid)
            },
        );
        i = i + 1;
    }
    out
}

/// `ST_SetSRID`. Restamp the column metadata. The values are untouched.
pub fn st_set_srid(array: &Column, srid: i32) -> (r: Column)
    ensures
        r@ == array@.with_metadata(
            MetadataView { crs: stamped(srid), edges: array.metadata@.edges },
        ),
{
    let mut r = array.copy();
    r.metadata = Metadata { crs: srid_crs(srid), edges: array.metadata.edges };
    r
}

// ------------------------------------------------------------------------ laws
/// A stamped SRID reads back, and zero clears it.
pub proof fn law_a_stamped_srid_reads_back(srid: i32)
    ensures
        srid_in(stamped(srid)) == srid,
{
    if srid != 0 {
        decimal::law_a_number_reads_back(srid);
    }
}

/// A column without a coordinate reference system reports zero.
pub proof fn law_no_system_reports_zero(crs_type: Option<CrsType>)
    ensures
        srid_in(CrsView { value: None, crs_type }) == 0,
{
}

/// The second of two stamps wins.
pub proof fn law_the_last_stamp_wins(data_type: DataTypeView, first: i32, second: i32)
    ensures
        data_type.with_metadata(
            MetadataView { crs: stamped(first), edges: data_type.metadata.edges },
        ).with_metadata(
            MetadataView { crs: stamped(second), edges: data_type.metadata.edges },
        ) == data_type.with_metadata(
            MetadataView { crs: stamped(second), edges: data_type.metadata.edges },
        ),
{
}

} // verus!
