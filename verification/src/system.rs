//! What the codes of reference systems, the numbers in them and the parameters of calls mean.

use vstd::prelude::*;
use crate::affine::{law_the_new_positions_are_read_back, repositioned, Output};
use crate::call::{
    asked_precision, integer_of, point_place, position_place, radius_of, Argument, Constant, Radius,
};
use crate::cluster::{
    are_centroids, counted, each, is_centroid, is_dbscan, is_kmeans, is_labelling, is_partition,
    labels, law_a_row_gets_the_id_of_its_point, taking_part, KMEANS_SEED,
};
use crate::column::{is_untyped_kind, Column, ColumnView};
use crate::crs::{after_colon, entry, named_srid, srid_in, CrsType, CrsView, JsonView};
use crate::decimal::{digit_char, digits_of, digits_value, law_a_number_reads_back, parsed, text_of};
use crate::edit::VertexEdit;
use crate::error::Error;
use crate::geometry::{Coord, Geometry, GeometryView};
use crate::number;
use crate::number::{doubled, halved};
use crate::reproject::{
    epsg, is_batch, is_opened, is_transformed, law_the_target_srid_is_carried, restamped,
    Conversion,
};

verus! {

// --------------------------------------------------------------------- numbers
/// A digit behind a number makes it ten times as large and adds itself.
pub proof fn law_digits_weigh_by_tens(n: nat, digit: nat, c: char)
    requires
        digit < 10,
        c as int == '0' as int + digit,
    ensures
        n > 0 ==> digits_of(10 * n + digit) == digits_of(n).push(c),
        digits_of(digit) == seq![c],
        digits_value(digits_of(n).push(c)) == Some((10 * n + digit) as nat),
{
    assert(digit_char(digit as int) == c);
    if n > 0 {
        assert((10 * n + digit) / 10 == n && (10 * n + digit) % 10 == digit);
    }
    lemma_value_of(n);
    assert(digits_of(n).push(c).drop_last() =~= digits_of(n));
}

proof fn lemma_value_of(n: nat)
    ensures
        digits_value(digits_of(n)) == Some(n),
        digits_of(n).len() > 0,
        forall|k: int|
            0 <= k < digits_of(n).len() ==> '0' <= #[trigger] digits_of(n)[k] <= '9',
    decreases n,
{
    let text = digits_of(n);
    if n >= 10 {
        lemma_value_of(n / 10);
        assert(text.drop_last() =~= digits_of(n / 10));
        assert forall|k: int| 0 <= k < text.len() implies '0' <= #[trigger] text[k] <= '9' by {
            if k < text.len() - 1 {
                assert(text[k] == digits_of(n / 10)[k]);
            }
        }
    } else {
        assert(text.drop_last() =~= Seq::<char>::empty());
        assert(digits_value(text.drop_last()) == Some(0nat));
    }
}

/// A sign before digits keeps or turns the number, and only digits may follow it.
pub proof fn law_a_sign_turns_a_number(n: nat, letters: Seq<char>, k: int)
    ensures
        n <= i32::MAX ==> parsed(digits_of(n)) == Some(n as i32),
        n <= i32::MAX ==> parsed(seq!['+'] + digits_of(n)) == Some(n as i32),
        n <= i32::MAX ==> parsed(seq!['-'] + digits_of(n)) == Some(-(n as int) as i32),
        n > i32::MAX ==> parsed(digits_of(n)) is None,
        0 < k < letters.len() && !('0' <= letters[k] <= '9') ==> parsed(letters) is None,
        letters.len() > 0 && letters[0] != '+' && letters[0] != '-' && !('0' <= letters[0] <= '9')
            ==> parsed(letters) is None,
        parsed(Seq::empty()) is None,
        parsed(seq!['-']) is None,
{
    let digits = digits_of(n);
    lemma_value_of(n);
    assert('0' <= digits[0] <= '9');
    assert((seq!['+'] + digits).skip(1) =~= digits);
    assert((seq!['-'] + digits).skip(1) =~= digits);
    assert(seq!['-'].skip(1) =~= Seq::<char>::empty());
    if 0 < k < letters.len() && !('0' <= letters[k] <= '9') {
        lemma_a_letter_is_no_digit(letters, k);
        lemma_a_letter_is_no_digit(letters.skip(1), k - 1);
    }
    if letters.len() > 0 && !('0' <= letters[0] <= '9') {
        lemma_a_letter_is_no_digit(letters, 0);
    }
}

proof fn lemma_a_letter_is_no_digit(text: Seq<char>, k: int)
    requires
        0 <= k < text.len(),
        !('0' <= text[k] <= '9'),
    ensures
        digits_value(text) is None,
    decreases text.len(),
{
    if k < text.len() - 1 {
        lemma_a_letter_is_no_digit(text.drop_last(), k);
    }
}

// ---------------------------------------------------------------------- counts
proof fn lemma_doubled_twice(n: nat, a: int, b: int)
    requires
        a >= 0,
        b >= 0,
    ensures
        doubled(doubled(n, a), b) == doubled(n, a + b),
    decreases a,
{
    if a > 0 {
        lemma_doubled_twice(2 * n, a - 1, b);
    }
}

proof fn lemma_halved_doubles(n: nat, k: int, half: nat)
    requires
        k >= 0,
        halved(n, k) == Some(half),
    ensures
        doubled(half, k) == n,
    decreases k,
{
    if k > 0 {
        lemma_halved_doubles(n / 2, k - 1, half);
        lemma_doubled_twice(half, k - 1, 1);
        reveal_with_fuel(doubled, 2);
        assert(doubled(n / 2, 1) == 2 * (n / 2));
    }
}

proof fn lemma_doubled_halves(n: nat, k: int)
    requires
        k >= 0,
    ensures
        halved(doubled(n, k), k) == Some(n),
    decreases k,
{
    if k > 0 {
        lemma_doubled_twice(n, k - 1, 1);
        reveal_with_fuel(doubled, 2);
        let less = doubled(n, k - 1);
        assert(doubled(n, k) == 2 * less);
        assert((2 * less) % 2 == 0 && (2 * less) / 2 == less);
        lemma_doubled_halves(n, k - 1);
    }
}

proof fn lemma_doubled_is_one_to_one(a: nat, b: nat, k: int)
    requires
        k >= 0,
        doubled(a, k) == doubled(b, k),
    ensures
        a == b,
{
    lemma_doubled_halves(a, k);
    lemma_doubled_halves(b, k);
}

/// A number is read as a count exactly when it is that whole number: as many times one as the count
/// says. One is the least positive number, doubled 1074 times.
pub proof fn law_a_count_is_the_number_itself(bits: u64, n: nat)
    requires
        number::is_finite(bits),
    ensures
        number::whole(bits) == Some(n) <==> number::units(bits) == doubled(n, 1074),
{
    let e = number::exponent(bits);
    let sig = number::significand(bits) as nat;
    let size = number::magnitude(bits);
    assert(0 <= e < 0x7ff && size >= 0);
    assert(number::steps(size) == if e <= 0 {
        sig
    } else {
        doubled(sig, e - 1)
    });
    assert(number::steps(0) == 0);
    lemma_doubled_size(n, 1074);
    if number::place(bits) < 0 {
        lemma_steps_positive(sig, e);
    } else {
        assert(number::units(bits) == number::steps(size)) by {
            if bits >= number::SIGN {
                assert(size == 0);
            }
        }
        let scale = number::scale(bits);
        if scale >= 0 {
            lemma_doubled_twice(sig, scale, 1074);
            if number::units(bits) == doubled(n, 1074) {
                lemma_doubled_is_one_to_one(n, doubled(sig, scale), 1074);
            }
        } else {
            let rest = if e <= 0 {
                0
            } else {
                e - 1
            };
            assert(-scale + rest == 1074);
            if number::whole(bits) == Some(n) {
                lemma_halved_doubles(sig, -scale, n);
                lemma_doubled_twice(n, -scale, rest);
            }
            if number::units(bits) == doubled(n, 1074) {
                lemma_doubled_twice(n, -scale, rest);
                lemma_doubled_is_one_to_one(sig, doubled(n, -scale), rest);
                lemma_doubled_halves(n, -scale);
            }
        }
    }
}

proof fn lemma_doubled_size(n: nat, k: int)
    ensures
        doubled(n, k) >= n,
    decreases k,
{
    if k > 0 {
        lemma_doubled_size(2 * n, k - 1);
    }
}

proof fn lemma_steps_positive(sig: nat, e: int)
    requires
        sig > 0,
    ensures
        doubled(sig, e - 1) > 0,
{
    lemma_doubled_size(sig, e - 1);
}

/// A count too large for the machine is the largest there is, and every other count is itself.
pub proof fn law_a_count_is_cut_off(bits: u64)
    ensures
        counted(bits) is Some == number::whole(bits) is Some,
        number::whole(bits) matches Some(n) ==> counted(bits)->0 == if n <= usize::MAX {
            n as int
        } else {
            usize::MAX as int
        },
{
}

// --------------------------------------------------------------------- systems
proof fn lemma_after_colon(front: Seq<char>, tail: Seq<char>)
    requires
        !tail.contains(':'),
    ensures
        after_colon(front.push(':') + tail) == Some(tail),
    decreases tail.len(),
{
    let text = front.push(':') + tail;
    if tail.len() == 0 {
        assert(text =~= front.push(':'));
        assert(tail =~= Seq::empty());
    } else {
        let rest = tail.drop_last();
        assert(!rest.contains(':')) by {
            if rest.contains(':') {
                let k = choose|k: int| 0 <= k < rest.len() && rest[k] == ':';
                assert(tail[k] == ':');
            }
        }
        assert(tail[tail.len() - 1] != ':');
        lemma_after_colon(front, rest);
        assert(text.drop_last() =~= front.push(':') + rest);
        assert(rest.push(tail.last()) =~= tail);
    }
}

proof fn lemma_no_colon(n: i32)
    ensures
        !text_of(n).contains(':'),
{
    let size = if n < 0 {
        (-(n as int)) as nat
    } else {
        n as nat
    };
    lemma_value_of(size);
    let digits = digits_of(size);
    if text_of(n).contains(':') {
        let k = choose|k: int| 0 <= k < text_of(n).len() && text_of(n)[k] == ':';
        if n < 0 {
            assert(k > 0);
            assert('0' <= digits[k - 1] <= '9');
        } else {
            assert('0' <= digits[k] <= '9');
        }
    }
}

/// The system that a text of an authority and a code stands for.
pub open spec fn authority_code(text: Seq<char>) -> CrsView {
    CrsView { value: Some(JsonView::Text(text)), crs_type: Some(CrsType::AuthorityCode) }
}

/// The SRID of a system is the code behind its authority, whatever the authority is called.
pub proof fn law_the_code_follows_the_authority(authority: Seq<char>, n: i32)
    ensures
        named_srid(authority_code(authority.push(':') + text_of(n))) == Some(n),
        srid_in(authority_code(authority.push(':') + text_of(n))) == n,
        named_srid(authority_code(epsg(n))) == Some(n),
{
    lemma_no_colon(n);
    lemma_after_colon(authority, text_of(n));
    law_a_number_reads_back(n);
    reveal_strlit("EPSG:");
    let four = seq!['E', 'P', 'S', 'G'];
    lemma_after_colon(four, text_of(n));
    assert(epsg(n) =~= four.push(':') + text_of(n));
}

/// A text without a colon names no code.
pub proof fn law_no_colon_names_no_code(text: Seq<char>)
    requires
        !text.contains(':'),
    ensures
        named_srid(authority_code(text)) is None,
    decreases text.len(),
{
    lemma_no_tail(text);
}

proof fn lemma_no_tail(text: Seq<char>)
    requires
        !text.contains(':'),
    ensures
        after_colon(text) is None,
    decreases text.len(),
{
    if text.len() > 0 {
        let rest = text.drop_last();
        assert(text[text.len() - 1] != ':');
        assert(!rest.contains(':')) by {
            if rest.contains(':') {
                let k = choose|k: int| 0 <= k < rest.len() && rest[k] == ':';
                assert(text[k] == ':');
            }
        }
        lemma_no_tail(rest);
    }
}

/// An object gives the first value under a key, whatever stands before and behind it.
pub proof fn law_the_first_entry_is_found(
    front: Seq<(Seq<char>, JsonView)>,
    key: Seq<char>,
    value: JsonView,
    rest: Seq<(Seq<char>, JsonView)>,
)
    requires
        forall|k: int| 0 <= k < front.len() ==> (#[trigger] front[k]).0 != key,
    ensures
        entry(JsonView::Object(front.push((key, value)) + rest), key) == Some(value),
    decreases front.len(),
{
    let all = front.push((key, value)) + rest;
    if front.len() > 0 {
        let fewer = front.skip(1);
        assert(front[0].0 != key);
        assert forall|k: int| 0 <= k < fewer.len() implies (#[trigger] fewer[k]).0 != key by {
            assert(fewer[k] == front[k + 1]);
        }
        law_the_first_entry_is_found(fewer, key, value, rest);
        assert(all.skip(1) =~= fewer.push((key, value)) + rest);
    }
}

/// A description names the code of its identifier, as a number or as the text of one.
pub proof fn law_a_description_names_its_code(
    description: JsonView,
    id: JsonView,
    code: JsonView,
    n: i32,
)
    requires
        entry(description, "id"@) == Some(id),
        entry(id, "code"@) == Some(code),
        code == JsonView::Text(text_of(n)) || (code matches JsonView::Number(_, Some(m)) && m == n),
    ensures
        named_srid(described(description)) == Some(n),
{
    law_a_number_reads_back(n);
}

/// The system that a description stands for.
pub open spec fn described(description: JsonView) -> CrsView {
    CrsView { value: Some(description), crs_type: Some(CrsType::Projjson) }
}

/// A conversion is opened from the first system to the second.
pub proof fn law_a_conversion_goes_one_way<B, W, O: Fn(&String, &String) -> Option<
    Conversion<B, W>,
>>(
    open: O,
    way: spec_fn(Seq<char>, Seq<char>) -> Option<Conversion<B, W>>,
    from_srid: i32,
    to_srid: i32,
    out: Option<Conversion<B, W>>,
)
    requires
        forall|a: &String, b: &String, found: Option<Conversion<B, W>>| #[trigger]
            open.ensures((a, b), found) ==> found == way(a@, b@),
        is_opened(open, from_srid, to_srid, out),
    ensures
        exists|from: Seq<char>, to: Seq<char>|
            {
                &&& out == #[trigger] way(from, to)
                &&& named_srid(authority_code(from)) == Some(from_srid)
                &&& named_srid(authority_code(to)) == Some(to_srid)
            },
{
    law_the_code_follows_the_authority(Seq::empty(), from_srid);
    law_the_code_follows_the_authority(Seq::empty(), to_srid);
    assert(out == way(epsg(from_srid), epsg(to_srid)));
}

/// A reprojected native column has each position converted, in its place, and nothing else of its
/// rows changed.
pub proof fn law_a_reprojection_converts_every_position<B, W>(
    conversion: Conversion<B, W>,
    convert: spec_fn(Seq<Coord>) -> Option<Seq<Coord>>,
    array: ColumnView,
    to_srid: i32,
    column: Column,
) where B: Fn(&Vec<Coord>) -> Option<Vec<Coord>>, W: Fn(&Geometry) -> Option<Geometry>
    requires
        array.wf(),
        array.body.coords() is Some,
        !is_untyped_kind(array.body.kind()),
        forall|v: &Vec<Coord>, found: Option<Vec<Coord>>| #[trigger]
            conversion.batch.ensures((v,), found) ==> convert(v@) == match found {
                Some(list) => Some(list@),
                None => None,
            },
        forall|points: Seq<Coord>| (#[trigger] convert(points)) is Some ==> convert(points)->0.len()
            == points.len(),
        convert(Seq::empty()) == Some(Seq::<Coord>::empty()),
        is_transformed(conversion, array, to_srid, Ok::<Output, Error>(Output::Native(column))),
    ensures
        ({
            let before = array.body.coords()->0;
            let after = column@.body.coords()->0;
            &&& column@.body.coords() is Some
            &&& after.len() == before.len()
            &&& after.dim() == before.dim()
            &&& convert(before.run(0, before.len())) == Some(after.run(0, after.len()))
            &&& column@.body.kind() == array.body.kind()
            &&& srid_in(column@.metadata.crs) == to_srid
        }),
{
    let before = array.body.coords()->0;
    let points = before.run(0, before.len());
    let moved = choose|moved: Seq<Coord>| #[trigger]
        is_batch(conversion.batch, points, Some(moved)) && column@ == array.with_coords(
            repositioned(before, moved),
        ).with_metadata(restamped(array.metadata, to_srid));
    if points.len() == 0 {
        assert(points =~= Seq::empty());
    }
    assert(convert(points) == Some(moved));
    law_the_new_positions_are_read_back(before, moved);
    law_the_target_srid_is_carried(array.metadata, to_srid);
}

// ----------------------------------------------------------------------- calls
/// An integer is read as itself where it fits, and a null as a null. Nothing else is an integer.
pub proof fn law_an_integer_is_read_as_itself(n: i64)
    ensures
        i32::MIN <= n <= i32::MAX ==> integer_of(Constant::Int64(Some(n))) == Some(Some(n as i32)),
        !(i32::MIN <= n <= i32::MAX) ==> integer_of(Constant::Int64(Some(n))) == Some(None::<i32>),
        integer_of(Constant::Int64(None)) == integer_of(Constant::Null),
        integer_of(Constant::Int32(None)) == integer_of(Constant::Null),
        integer_of(Constant::Null) == Some(None::<i32>),
{
}

/// A precision that is left out is that of a null, and one that is given is taken.
pub proof fn law_a_precision_left_out_is_the_default(n: i32)
    ensures
        asked_precision(Some(&Argument::Scalar(Constant::Null))) == asked_precision(None),
        asked_precision(None) is Some,
        asked_precision(Some(&Argument::Scalar(Constant::Int32(Some(n))))) == Some(n),
        asked_precision(Some(&Argument::Scalar(Constant::Int64(Some(n as i64))))) == Some(n),
        asked_precision(Some(&Argument::Column)) is None,
{
}

/// A radius is the number of its argument. A null is no radius, and a column gives none.
pub proof fn law_a_radius_is_the_number_given(bits: u64, n: i64)
    ensures
        radius_of(Argument::Scalar(Constant::Float64(Some(bits)))) == Some(Radius::Number(bits)),
        radius_of(Argument::Scalar(Constant::Int64(Some(n)))) == Some(Radius::Integer(n)),
        radius_of(Argument::Scalar(Constant::Float64(None))) == radius_of(
            Argument::Scalar(Constant::Null),
        ),
        radius_of(Argument::Scalar(Constant::Null)) == Some(Radius::Missing),
        radius_of(Argument::Column) is None,
{
}

/// The position of a removal and of a replacement is the same argument, right behind the line. An
/// addition has its point there, since its position may be left out.
pub proof fn law_what_may_be_left_out_comes_last()
    ensures
        position_place(VertexEdit::Remove) == position_place(VertexEdit::Replace),
        point_place(VertexEdit::Add) == Some(position_place(VertexEdit::Remove)),
        point_place(VertexEdit::Replace) == Some(position_place(VertexEdit::Add)),
        point_place(VertexEdit::Remove) is None,
        position_place(VertexEdit::Remove) == 1,
{
}

// -------------------------------------------------------------------- clusters
/// The centre of each row, nothing for a row without a geometry.
pub open spec fn centres(
    array: ColumnView,
    centre: spec_fn(GeometryView) -> Option<Coord>,
) -> Seq<Option<Coord>> {
    Seq::new(
        array.rows() as nat,
        |i: int|
            match array.geometry(i) {
                Some(geom) => centre(geom),
                None => None,
            },
    )
}

proof fn lemma_centres<C: Fn(&Geometry) -> Option<Coord>>(
    array: ColumnView,
    centroid: C,
    centre: spec_fn(GeometryView) -> Option<Coord>,
    points: Seq<Option<Coord>>,
)
    requires
        array.rows() >= 0,
        forall|g: &Geometry, c: Option<Coord>| #[trigger]
            centroid.ensures((g,), c) ==> c == centre(g@),
        are_centroids(array, centroid, points),
    ensures
        points == centres(array, centre),
{
    assert forall|i: int| 0 <= i < points.len() implies points[i] == centres(array, centre)[i] by {
        let geom = array.geometry(i);
        if geom is Some {
            assert(is_centroid(centroid, geom->0, points[i]));
        }
    }
    assert(points =~= centres(array, centre));
}

/// A row is labelled with the cluster that the algorithm gave its centre, for the radius and the
/// least number of points of the call. The radius is a positive number.
pub proof fn law_a_row_has_the_cluster_of_its_centre<C, D>(
    array: ColumnView,
    epsilon: u64,
    min_points: usize,
    centroid: C,
    dbscan: D,
    centre: spec_fn(GeometryView) -> Option<Coord>,
    label: spec_fn(Seq<Coord>, u64, usize) -> Seq<Option<usize>>,
    out: Vec<Option<i32>>,
) where
    C: Fn(&Geometry) -> Option<Coord>,
    D: Fn(&Vec<Coord>, u64, usize) -> Vec<Option<usize>>,

    requires
        array.rows() >= 0,
        forall|g: &Geometry, c: Option<Coord>| #[trigger]
            centroid.ensures((g,), c) ==> c == centre(g@),
        forall|v: &Vec<Coord>, e: u64, m: usize, found: Vec<Option<usize>>| #[trigger]
            dbscan.ensures((v, e, m), found) ==> found@ == label(v@, e, m),
        is_dbscan(
            array,
            epsilon,
            min_points,
            centroid,
            dbscan,
            Ok::<Vec<Option<i32>>, Error>(out),
        ),
    ensures
        !number::is_nan(epsilon),
        0 < number::place(epsilon) < number::place(number::INFINITY),
        ({
            let points = centres(array, centre);
            out@ == labels(
                points,
                label(taking_part(points, points.len() as int), epsilon, min_points),
            )
        }),
{
    let (points, assignment) = choose|points: Seq<Option<Coord>>, assignment: Seq<Option<usize>>|
        {
            &&& #[trigger] are_centroids(array, centroid, points)
            &&& is_labelling(
                dbscan,
                taking_part(points, points.len() as int),
                epsilon,
                min_points,
                assignment,
            )
            &&& out@ == #[trigger] labels(points, assignment)
        };
    lemma_centres(array, centroid, centre, points);
}

/// A row is labelled with the cluster that the algorithm gave its centre, out of as many as the call
/// asks for. There are no more clusters than centres, and one at least.
pub proof fn law_a_row_has_one_of_the_clusters<C, K>(
    array: ColumnView,
    k: usize,
    centroid: C,
    kmeans: K,
    centre: spec_fn(GeometryView) -> Option<Coord>,
    part: spec_fn(Seq<Coord>, usize, u64) -> Option<Seq<usize>>,
    out: Vec<Option<i32>>,
) where
    C: Fn(&Geometry) -> Option<Coord>,
    K: Fn(&Vec<Coord>, usize, u64) -> Option<Vec<usize>>,

    requires
        array.rows() >= 0,
        forall|g: &Geometry, c: Option<Coord>| #[trigger]
            centroid.ensures((g,), c) ==> c == centre(g@),
        forall|v: &Vec<Coord>, n: usize, seed: u64, found: Option<Vec<usize>>| #[trigger]
            kmeans.ensures((v, n, seed), found) ==> part(v@, n, seed) == match found {
                Some(list) => Some(list@),
                None => None,
            },
        is_kmeans(array, k, centroid, kmeans, Ok::<Vec<Option<i32>>, Error>(out)),
    ensures
        ({
            let points = centres(array, centre);
            let taking = taking_part(points, points.len() as int);
            &&& 1 <= k <= taking.len()
            &&& part(taking, k, KMEANS_SEED) matches Some(found) && out@ == labels(
                points,
                each(found),
            )
        }),
{
    let (points, assignment) = choose|points: Seq<Option<Coord>>, assignment: Seq<usize>|
        {
            let taking = taking_part(points, points.len() as int);
            &&& #[trigger] are_centroids(array, centroid, points)
            &&& 1 <= k <= taking.len()
            &&& is_partition(kmeans, taking, k, Some(assignment))
            &&& out@ == #[trigger] labels(points, each(assignment))
        };
    lemma_centres(array, centroid, centre, points);
}

/// A row with a point has the id that was given to that point, and a row without one has none.
pub proof fn law_an_id_is_that_of_the_point(
    points: Seq<Option<Coord>>,
    assignment: Seq<Option<usize>>,
    i: int,
)
    requires
        0 <= i < points.len(),
        assignment.len() == taking_part(points, points.len() as int).len(),
        forall|k: int|
            0 <= k < assignment.len() ==> ((#[trigger] assignment[k]) matches Some(id) ==> id
                <= i32::MAX),
    ensures
        labels(points, assignment).len() == points.len(),
        points[i] is None ==> labels(points, assignment)[i] is None,
        points[i] matches Some(c) ==> exists|k: int|
            {
                &&& 0 <= k < assignment.len()
                &&& taking_part(points, points.len() as int)[k] == c
                &&& k == taking_part(points, i).len()
                &&& match #[trigger] assignment[k] {
                    Some(id) => labels(points, assignment)[i] is Some && labels(
                        points,
                        assignment,
                    )[i]->0 == id,
                    None => labels(points, assignment)[i] is None,
                }
            },
{
    if points[i] is Some {
        law_a_row_gets_the_id_of_its_point(points, i);
        let k = taking_part(points, i).len() as int;
        assert(assignment[k] matches Some(id) ==> id <= i32::MAX);
    }
}

/// A number of clusters is refused exactly when it is zero or more than there are centres.
pub proof fn law_a_bad_number_of_clusters_is_refused<C, K>(
    array: ColumnView,
    k: usize,
    centroid: C,
    kmeans: K,
    centre: spec_fn(GeometryView) -> Option<Coord>,
    asked: usize,
    geometries: usize,
) where
    C: Fn(&Geometry) -> Option<Coord>,
    K: Fn(&Vec<Coord>, usize, u64) -> Option<Vec<usize>>,

    requires
        array.rows() >= 0,
        forall|g: &Geometry, c: Option<Coord>| #[trigger]
            centroid.ensures((g,), c) ==> c == centre(g@),
        is_kmeans(
            array,
            k,
            centroid,
            kmeans,
            Err::<Vec<Option<i32>>, Error>(Error::ClusterCount { k: asked, geometries }),
        ),
    ensures
        ({
            let points = centres(array, centre);
            let taking = taking_part(points, points.len() as int);
            &&& asked == k
            &&& geometries == taking.len()
            &&& !(1 <= k <= taking.len())
        }),
{
    let points = choose|points: Seq<Option<Coord>>| #[trigger]
        are_centroids(array, centroid, points) && geometries == taking_part(
            points,
            points.len() as int,
        ).len() && (k == 0 || k > geometries);
    lemma_centres(array, centroid, centre, points);
}

} // verus!
