//! What the relations of two geometries mean.
//!
//! A geometry puts every position of the plane inside it, on its boundary or outside of it. Two
//! geometries therefore put every position in one of nine classes, and the matrix says which of the
//! classes are empty. The laws below read each relation as a statement about positions.

use vstd::prelude::*;
use crate::agreement::are_steady;
use crate::error::Error;
use crate::geometry::{Coord, Geometry, GeometryView};
use crate::matrix::{matrix_text, pattern_verdict, rank_of, Dimensions, IntersectionMatrix};
use crate::operand::is_pair_answer;
use crate::predicate::{
    is_direct, is_pattern_answer, is_related, is_relation_text, Direct, Exact, Predicate, Side,
};
use crate::ring::{CoordPos, Orientation};

verus! {

// ------------------------------------------------------------------- positions
/// True when a position lies in the given part of each geometry.
pub open spec fn is_at(
    left: spec_fn(int) -> CoordPos,
    right: spec_fn(int) -> CoordPos,
    p: int,
    a: CoordPos,
    b: CoordPos,
) -> bool {
    left(p) == a && right(p) == b
}

/// True when some position lies in the given part of each geometry.
pub open spec fn share(
    left: spec_fn(int) -> CoordPos,
    right: spec_fn(int) -> CoordPos,
    a: CoordPos,
    b: CoordPos,
) -> bool {
    exists|p: int| #[trigger] is_at(left, right, p, a, b)
}

/// True when the matrix describes two geometries: a cell is empty exactly when no position lies in
/// its two parts. The rows are the parts of the first geometry, the columns those of the second.
pub open spec fn describes(
    matrix: IntersectionMatrix,
    left: spec_fn(int) -> CoordPos,
    right: spec_fn(int) -> CoordPos,
) -> bool {
    let full = |k: int| matrix.cells@[k] != Dimensions::Empty;
    &&& full(0) == share(left, right, CoordPos::Inside, CoordPos::Inside)
    &&& full(1) == share(left, right, CoordPos::Inside, CoordPos::OnBoundary)
    &&& full(2) == share(left, right, CoordPos::Inside, CoordPos::Outside)
    &&& full(3) == share(left, right, CoordPos::OnBoundary, CoordPos::Inside)
    &&& full(4) == share(left, right, CoordPos::OnBoundary, CoordPos::OnBoundary)
    &&& full(5) == share(left, right, CoordPos::OnBoundary, CoordPos::Outside)
    &&& full(6) == share(left, right, CoordPos::Outside, CoordPos::Inside)
    &&& full(7) == share(left, right, CoordPos::Outside, CoordPos::OnBoundary)
    &&& full(8) == share(left, right, CoordPos::Outside, CoordPos::Outside)
}

/// True when a position belongs to a geometry: it is inside or on the boundary.
pub open spec fn belongs(geom: spec_fn(int) -> CoordPos, p: int) -> bool {
    geom(p) != CoordPos::Outside
}

/// True when every position of the first geometry belongs to the second.
pub open spec fn lies_in(first: spec_fn(int) -> CoordPos, second: spec_fn(int) -> CoordPos) -> bool {
    forall|p: int| #[trigger] belongs(first, p) ==> belongs(second, p)
}

/// True when a position belongs to both geometries.
pub open spec fn have_common(
    first: spec_fn(int) -> CoordPos,
    second: spec_fn(int) -> CoordPos,
) -> bool {
    exists|p: int| #[trigger] belongs(first, p) && belongs(second, p)
}

/// True when a position is inside both geometries.
pub open spec fn have_common_inside(
    first: spec_fn(int) -> CoordPos,
    second: spec_fn(int) -> CoordPos,
) -> bool {
    exists|p: int| #[trigger] first(p) == CoordPos::Inside && second(p) == CoordPos::Inside
}

/// True when a position is inside the first geometry and outside the second.
pub open spec fn reaches_out(
    first: spec_fn(int) -> CoordPos,
    second: spec_fn(int) -> CoordPos,
) -> bool {
    exists|p: int| #[trigger] first(p) == CoordPos::Inside && second(p) == CoordPos::Outside
}

/// The number of a dimension: 0 for points, 1 for lines, 2 for areas, less for nothing at all.
pub open spec fn degree(d: Dimensions) -> int {
    match d {
        Dimensions::Empty => -1,
        Dimensions::ZeroDimensional => 0,
        Dimensions::OneDimensional => 1,
        Dimensions::TwoDimensional => 2,
    }
}

/// True when a dimension is the highest of three.
pub open spec fn is_highest(d: Dimensions, a: Dimensions, b: Dimensions, c: Dimensions) -> bool {
    &&& d == a || d == b || d == c
    &&& degree(d) >= degree(a) && degree(d) >= degree(b) && degree(d) >= degree(c)
}

/// True when the insides of the two geometries have the given dimensions, as the matrix shows them.
pub open spec fn have_dimensions(matrix: IntersectionMatrix, a: Dimensions, b: Dimensions) -> bool {
    &&& is_highest(a, matrix.cells@[0], matrix.cells@[1], matrix.cells@[2])
    &&& is_highest(b, matrix.cells@[0], matrix.cells@[3], matrix.cells@[6])
}

/// What a predicate says of two geometries, position by position.
///
/// `a` and `b` are their dimensions, and `common` is that of what their insides have in common.
pub open spec fn holds(
    predicate: Predicate,
    left: spec_fn(int) -> CoordPos,
    right: spec_fn(int) -> CoordPos,
    a: Dimensions,
    b: Dimensions,
    common: Dimensions,
) -> bool {
    match predicate {
        Predicate::Intersects => have_common(left, right),
        Predicate::Disjoint => !have_common(left, right),
        Predicate::Contains => lies_in(right, left) && have_common_inside(left, right),
        Predicate::ContainsProperly => have_common_inside(left, right) && forall|p: int|
            #[trigger] belongs(right, p) ==> left(p) == CoordPos::Inside,
        Predicate::Within => lies_in(left, right) && have_common_inside(left, right),
        Predicate::Covers => lies_in(right, left) && have_common(left, right),
        Predicate::CoveredBy => lies_in(left, right) && have_common(left, right),
        Predicate::Touches => have_common(left, right) && !have_common_inside(left, right),
        Predicate::Crosses => if degree(a) < degree(b) {
            have_common_inside(left, right) && reaches_out(left, right)
        } else if degree(b) < degree(a) {
            have_common_inside(left, right) && reaches_out(right, left)
        } else {
            a == Dimensions::OneDimensional && common == Dimensions::ZeroDimensional
        },
        Predicate::Overlaps => {
            &&& a == b
            &&& have_common_inside(left, right)
            &&& reaches_out(left, right)
            &&& reaches_out(right, left)
            &&& a == Dimensions::OneDimensional ==> common == Dimensions::OneDimensional
        },
        Predicate::Equals => {
            &&& lies_in(left, right)
            &&& lies_in(right, left)
            &&& have_common_inside(left, right) || forall|p: int| !#[trigger] belongs(left, p)
        },
    }
}

/// Each part that a geometry shares with another, spelled out.
proof fn lemma_shares(left: spec_fn(int) -> CoordPos, right: spec_fn(int) -> CoordPos)
    ensures
        have_common(left, right) == (share(left, right, CoordPos::Inside, CoordPos::Inside)
            || share(left, right, CoordPos::Inside, CoordPos::OnBoundary) || share(
            left,
            right,
            CoordPos::OnBoundary,
            CoordPos::Inside,
        ) || share(left, right, CoordPos::OnBoundary, CoordPos::OnBoundary)),
        have_common_inside(left, right) == share(left, right, CoordPos::Inside, CoordPos::Inside),
        reaches_out(left, right) == share(left, right, CoordPos::Inside, CoordPos::Outside),
        reaches_out(right, left) == share(left, right, CoordPos::Outside, CoordPos::Inside),
        lies_in(left, right) == (!share(left, right, CoordPos::Inside, CoordPos::Outside) && !share(
            left,
            right,
            CoordPos::OnBoundary,
            CoordPos::Outside,
        )),
        lies_in(right, left) == (!share(left, right, CoordPos::Outside, CoordPos::Inside) && !share(
            left,
            right,
            CoordPos::Outside,
            CoordPos::OnBoundary,
        )),
{
    assert forall|p: int, a: CoordPos, b: CoordPos| #[trigger]
        is_at(left, right, p, a, b) implies share(left, right, a, b) by {}
    assert forall|p: int| is_at(left, right, p, #[trigger] left(p), right(p)) by {}
    if have_common(left, right) {
        let p = choose|p: int| #[trigger] belongs(left, p) && belongs(right, p);
        assert(is_at(left, right, p, left(p), right(p)));
    }
    if share(left, right, CoordPos::Inside, CoordPos::Inside) {
        let p = choose|p: int| #[trigger]
            is_at(left, right, p, CoordPos::Inside, CoordPos::Inside);
        assert(belongs(left, p) && belongs(right, p));
        assert(left(p) == CoordPos::Inside);
    }
    if share(left, right, CoordPos::Inside, CoordPos::OnBoundary) {
        let p = choose|p: int| #[trigger]
            is_at(left, right, p, CoordPos::Inside, CoordPos::OnBoundary);
        assert(belongs(left, p) && belongs(right, p));
    }
    if share(left, right, CoordPos::OnBoundary, CoordPos::Inside) {
        let p = choose|p: int| #[trigger]
            is_at(left, right, p, CoordPos::OnBoundary, CoordPos::Inside);
        assert(belongs(left, p) && belongs(right, p));
    }
    if share(left, right, CoordPos::OnBoundary, CoordPos::OnBoundary) {
        let p = choose|p: int| #[trigger]
            is_at(left, right, p, CoordPos::OnBoundary, CoordPos::OnBoundary);
        assert(belongs(left, p) && belongs(right, p));
    }
    if share(left, right, CoordPos::Inside, CoordPos::Outside) {
        let p = choose|p: int| #[trigger]
            is_at(left, right, p, CoordPos::Inside, CoordPos::Outside);
        assert(left(p) == CoordPos::Inside);
        assert(belongs(left, p) && !belongs(right, p));
    }
    if share(left, right, CoordPos::OnBoundary, CoordPos::Outside) {
        let p = choose|p: int| #[trigger]
            is_at(left, right, p, CoordPos::OnBoundary, CoordPos::Outside);
        assert(belongs(left, p) && !belongs(right, p));
    }
    if share(left, right, CoordPos::Outside, CoordPos::Inside) {
        let p = choose|p: int| #[trigger]
            is_at(left, right, p, CoordPos::Outside, CoordPos::Inside);
        assert(right(p) == CoordPos::Inside);
        assert(belongs(right, p) && !belongs(left, p));
    }
    if share(left, right, CoordPos::Outside, CoordPos::OnBoundary) {
        let p = choose|p: int| #[trigger]
            is_at(left, right, p, CoordPos::Outside, CoordPos::OnBoundary);
        assert(belongs(right, p) && !belongs(left, p));
    }
    if have_common_inside(left, right) {
        let p = choose|p: int| #[trigger]
            left(p) == CoordPos::Inside && right(p) == CoordPos::Inside;
        assert(is_at(left, right, p, CoordPos::Inside, CoordPos::Inside));
    }
    if reaches_out(left, right) {
        let p = choose|p: int| #[trigger]
            left(p) == CoordPos::Inside && right(p) == CoordPos::Outside;
        assert(is_at(left, right, p, CoordPos::Inside, CoordPos::Outside));
    }
    if reaches_out(right, left) {
        let p = choose|p: int| #[trigger]
            right(p) == CoordPos::Inside && left(p) == CoordPos::Outside;
        assert(is_at(left, right, p, CoordPos::Outside, CoordPos::Inside));
    }
    if !lies_in(left, right) {
        let p = choose|p: int| #[trigger] belongs(left, p) && !belongs(right, p);
        assert(is_at(left, right, p, left(p), right(p)));
    }
    if !lies_in(right, left) {
        let p = choose|p: int| #[trigger] belongs(right, p) && !belongs(left, p);
        assert(is_at(left, right, p, left(p), right(p)));
    }
}

// ------------------------------------------------------------------------ laws
/// A predicate holds of a matrix exactly when it holds of the positions that the matrix describes.
///
/// The plane is never filled, so the two outsides always share an area.
pub proof fn law_a_predicate_speaks_of_positions(
    predicate: Predicate,
    matrix: IntersectionMatrix,
    left: spec_fn(int) -> CoordPos,
    right: spec_fn(int) -> CoordPos,
    a: Dimensions,
    b: Dimensions,
)
    requires
        describes(matrix, left, right),
        have_dimensions(matrix, a, b),
        matrix.cells@[8] == Dimensions::TwoDimensional,
    ensures
        predicate.reads(matrix) == holds(predicate, left, right, a, b, matrix.cells@[0]),
{
    lemma_shares(left, right);
    assert(degree(matrix.left_dimension()) == degree(a));
    assert(degree(matrix.right_dimension()) == degree(b));
    if predicate == Predicate::ContainsProperly {
        lemma_properly(left, right);
    }
    if predicate == Predicate::Equals {
        lemma_nothing(left, right);
        if matrix.cells@[0] == Dimensions::Empty && lies_in(left, right) && lies_in(right, left)
            && (forall|p: int| !#[trigger] belongs(left, p)) {
            assert(matrix.cells@ =~= seq![
                Dimensions::Empty,
                Dimensions::Empty,
                Dimensions::Empty,
                Dimensions::Empty,
                Dimensions::Empty,
                Dimensions::Empty,
                Dimensions::Empty,
                Dimensions::Empty,
                Dimensions::TwoDimensional,
            ]);
        }
    }
}

/// What lies inside another geometry, spelled out.
proof fn lemma_properly(left: spec_fn(int) -> CoordPos, right: spec_fn(int) -> CoordPos)
    ensures
        (forall|p: int| #[trigger] belongs(right, p) ==> left(p) == CoordPos::Inside) == (!share(
            left,
            right,
            CoordPos::OnBoundary,
            CoordPos::Inside,
        ) && !share(left, right, CoordPos::OnBoundary, CoordPos::OnBoundary) && !share(
            left,
            right,
            CoordPos::Outside,
            CoordPos::Inside,
        ) && !share(left, right, CoordPos::Outside, CoordPos::OnBoundary)),
{
    assert forall|p: int, a: CoordPos, b: CoordPos| #[trigger]
        is_at(left, right, p, a, b) && b != CoordPos::Outside && a != CoordPos::Inside implies !(
    forall|p: int| #[trigger] belongs(right, p) ==> left(p) == CoordPos::Inside) by {
        assert(belongs(right, p));
    }
    if !(forall|p: int| #[trigger] belongs(right, p) ==> left(p) == CoordPos::Inside) {
        let p = choose|p: int| #[trigger] belongs(right, p) && left(p) != CoordPos::Inside;
        assert(is_at(left, right, p, left(p), right(p)));
        assert(share(left, right, left(p), right(p)));
    }
}

/// A geometry without a position shares nothing.
proof fn lemma_nothing(left: spec_fn(int) -> CoordPos, right: spec_fn(int) -> CoordPos)
    ensures
        (forall|p: int| !#[trigger] belongs(left, p)) == (!share(
            left,
            right,
            CoordPos::Inside,
            CoordPos::Inside,
        ) && !share(left, right, CoordPos::Inside, CoordPos::OnBoundary) && !share(
            left,
            right,
            CoordPos::Inside,
            CoordPos::Outside,
        ) && !share(left, right, CoordPos::OnBoundary, CoordPos::Inside) && !share(
            left,
            right,
            CoordPos::OnBoundary,
            CoordPos::OnBoundary,
        ) && !share(left, right, CoordPos::OnBoundary, CoordPos::Outside)),
{
    assert forall|p: int, a: CoordPos, b: CoordPos| #[trigger]
        is_at(left, right, p, a, b) && a != CoordPos::Outside implies !(forall|p: int|
        !#[trigger] belongs(left, p)) by {
        assert(belongs(left, p));
    }
    if !(forall|p: int| !#[trigger] belongs(left, p)) {
        let p = choose|p: int| #[trigger] belongs(left, p);
        assert(is_at(left, right, p, left(p), right(p)));
        assert(share(left, right, left(p), right(p)));
    }
}

/// The cell of two parts is empty exactly when no position lies in both.
pub proof fn law_a_cell_is_the_share_of_two_parts(
    matrix: IntersectionMatrix,
    left: spec_fn(int) -> CoordPos,
    right: spec_fn(int) -> CoordPos,
    a: CoordPos,
    b: CoordPos,
)
    requires
        describes(matrix, left, right),
    ensures
        (matrix.cell(3 * rank_of(a) + rank_of(b)) != Dimensions::Empty) == share(left, right, a, b),
        (matrix_text(matrix)[3 * rank_of(a) + rank_of(b)] == 'F') == !share(left, right, a, b),
{
}

/// The text of a matrix tells each cell: the digit of its dimension, or an `F`.
pub proof fn law_the_text_gives_the_dimensions(matrix: IntersectionMatrix, k: int)
    requires
        0 <= k < 9,
    ensures
        matrix_text(matrix).len() == 9,
        degree(matrix.cells@[k]) >= 0 ==> matrix_text(matrix)[k] as int == '0' as int + degree(
            matrix.cells@[k],
        ),
        degree(matrix.cells@[k]) < 0 ==> matrix_text(matrix)[k] == 'F',
{
}

/// True when a character of a pattern fits a character of the text of a matrix.
pub open spec fn fits(pattern: char, text: char) -> bool {
    ||| pattern == '*'
    ||| (pattern == 'T' || pattern == 't') && text != 'F'
    ||| (pattern == 'F' || pattern == 'f') && text == 'F'
    ||| pattern == text
}

/// True for a character that a pattern may hold.
pub open spec fn is_pattern_character(c: char) -> bool {
    c == '*' || c == 'T' || c == 't' || c == 'F' || c == 'f' || c == '0' || c == '1' || c == '2'
}

/// True when a matrix fits a pattern of nine characters.
pub open spec fn is_fitting(matrix: IntersectionMatrix, pattern: Seq<char>) -> bool {
    pattern_verdict(matrix, pattern, 0) == Ok::<bool, Error>(true)
}

/// A matrix fits a pattern exactly when each character of its text fits that of the pattern.
pub proof fn law_a_pattern_is_read_against_the_text(matrix: IntersectionMatrix, pattern: Seq<char>)
    requires
        pattern.len() == 9,
        forall|k: int| 0 <= k < 9 ==> is_pattern_character(#[trigger] pattern[k]),
    ensures
        pattern_verdict(matrix, pattern, 0) == Ok::<bool, Error>(
            forall|k: int| 0 <= k < 9 ==> fits(pattern[k], #[trigger] matrix_text(matrix)[k]),
        ),
{
    lemma_pattern_from(matrix, pattern, 0);
}

proof fn lemma_pattern_from(matrix: IntersectionMatrix, pattern: Seq<char>, from: int)
    requires
        pattern.len() == 9,
        0 <= from <= 9,
        forall|k: int| 0 <= k < 9 ==> is_pattern_character(#[trigger] pattern[k]),
    ensures
        pattern_verdict(matrix, pattern, from) == Ok::<bool, Error>(
            forall|k: int| from <= k < 9 ==> fits(pattern[k], #[trigger] matrix_text(matrix)[k]),
        ),
    decreases 9 - from,
{
    if from < 9 {
        lemma_pattern_from(matrix, pattern, from + 1);
        assert(is_pattern_character(pattern[from]));
        let here = fits(pattern[from], matrix_text(matrix)[from]);
        assert(here == (forall|k: int|
            from <= k < from + 1 ==> fits(pattern[k], #[trigger] matrix_text(matrix)[k])));
        assert((forall|k: int|
            from <= k < 9 ==> fits(pattern[k], #[trigger] matrix_text(matrix)[k])) == (here && forall|
            k: int,
        |
            from + 1 <= k < 9 ==> fits(pattern[k], #[trigger] matrix_text(matrix)[k])));
    }
}

/// A character that no pattern may hold is refused, where the matrix fits every character before it.
/// So is a pattern that ends early.
pub proof fn law_a_bad_pattern_is_refused(matrix: IntersectionMatrix, pattern: Seq<char>, at: int)
    requires
        0 <= at < 9,
        at <= pattern.len(),
        forall|k: int|
            0 <= k < at ==> is_pattern_character(#[trigger] pattern[k]) && fits(
                pattern[k],
                matrix_text(matrix)[k],
            ),
    ensures
        at < pattern.len() && !is_pattern_character(pattern[at]) ==> pattern_verdict(
            matrix,
            pattern,
            0,
        ) == Err::<bool, Error>(Error::PatternCharacter { found: pattern[at] }),
        at == pattern.len() ==> pattern_verdict(matrix, pattern, 0) is Err,
{
    lemma_bad_from(matrix, pattern, 0, at);
}

proof fn lemma_bad_from(matrix: IntersectionMatrix, pattern: Seq<char>, from: int, at: int)
    requires
        0 <= from <= at < 9,
        at <= pattern.len(),
        forall|k: int|
            0 <= k < at ==> is_pattern_character(#[trigger] pattern[k]) && fits(
                pattern[k],
                matrix_text(matrix)[k],
            ),
    ensures
        at < pattern.len() && !is_pattern_character(pattern[at]) ==> pattern_verdict(
            matrix,
            pattern,
            from,
        ) == Err::<bool, Error>(Error::PatternCharacter { found: pattern[at] }),
        at == pattern.len() ==> pattern_verdict(matrix, pattern, from) is Err,
    decreases at - from,
{
    if from < at {
        lemma_bad_from(matrix, pattern, from + 1, at);
        assert(is_pattern_character(pattern[from]));
    }
}

/// Each relation is one of the patterns that the standard gives for it.
pub proof fn law_relations_are_patterns(matrix: IntersectionMatrix, a: Dimensions, b: Dimensions)
    requires
        have_dimensions(matrix, a, b),
    ensures
        Predicate::Disjoint.reads(matrix) == is_fitting(
            matrix,
            seq!['F', 'F', '*', 'F', 'F', '*', '*', '*', '*'],
        ),
        Predicate::Intersects.reads(matrix) == !Predicate::Disjoint.reads(matrix),
        Predicate::Within.reads(matrix) == is_fitting(
            matrix,
            seq!['T', '*', 'F', '*', '*', 'F', '*', '*', '*'],
        ),
        Predicate::Contains.reads(matrix) == is_fitting(
            matrix,
            seq!['T', '*', '*', '*', '*', '*', 'F', 'F', '*'],
        ),
        Predicate::ContainsProperly.reads(matrix) == is_fitting(
            matrix,
            seq!['T', '*', '*', 'F', 'F', '*', 'F', 'F', '*'],
        ),
        Predicate::Covers.reads(matrix) == (is_fitting(
            matrix,
            seq!['T', '*', '*', '*', '*', '*', 'F', 'F', '*'],
        ) || is_fitting(matrix, seq!['*', 'T', '*', '*', '*', '*', 'F', 'F', '*']) || is_fitting(
            matrix,
            seq!['*', '*', '*', 'T', '*', '*', 'F', 'F', '*'],
        ) || is_fitting(matrix, seq!['*', '*', '*', '*', 'T', '*', 'F', 'F', '*'])),
        Predicate::CoveredBy.reads(matrix) == (is_fitting(
            matrix,
            seq!['T', '*', 'F', '*', '*', 'F', '*', '*', '*'],
        ) || is_fitting(matrix, seq!['*', 'T', 'F', '*', '*', 'F', '*', '*', '*']) || is_fitting(
            matrix,
            seq!['*', '*', 'F', 'T', '*', 'F', '*', '*', '*'],
        ) || is_fitting(matrix, seq!['*', '*', 'F', '*', 'T', 'F', '*', '*', '*'])),
        Predicate::Touches.reads(matrix) == (is_fitting(
            matrix,
            seq!['F', 'T', '*', '*', '*', '*', '*', '*', '*'],
        ) || is_fitting(matrix, seq!['F', '*', '*', 'T', '*', '*', '*', '*', '*']) || is_fitting(
            matrix,
            seq!['F', '*', '*', '*', 'T', '*', '*', '*', '*'],
        )),
        degree(a) < degree(b) ==> Predicate::Crosses.reads(matrix) == is_fitting(
            matrix,
            seq!['T', '*', 'T', '*', '*', '*', '*', '*', '*'],
        ),
        degree(b) < degree(a) ==> Predicate::Crosses.reads(matrix) == is_fitting(
            matrix,
            seq!['T', '*', '*', '*', '*', '*', 'T', '*', '*'],
        ),
        a == Dimensions::OneDimensional && b == a ==> Predicate::Crosses.reads(matrix)
            == is_fitting(matrix, seq!['0', '*', '*', '*', '*', '*', '*', '*', '*']),
        a == b && a != Dimensions::OneDimensional ==> !Predicate::Crosses.reads(matrix),
        a == b && a == Dimensions::OneDimensional ==> Predicate::Overlaps.reads(matrix)
            == is_fitting(matrix, seq!['1', '*', 'T', '*', '*', '*', 'T', '*', '*']),
        a == b && a != Dimensions::OneDimensional ==> Predicate::Overlaps.reads(matrix)
            == is_fitting(matrix, seq!['T', '*', 'T', '*', '*', '*', 'T', '*', '*']),
        a != b ==> !Predicate::Overlaps.reads(matrix),
        matrix.cells@[0] != Dimensions::Empty ==> Predicate::Equals.reads(matrix) == is_fitting(
            matrix,
            seq!['T', '*', 'F', '*', '*', 'F', 'F', 'F', '*'],
        ),
{
    reveal_with_fuel(pattern_verdict, 10);
    assert(degree(matrix.left_dimension()) == degree(a));
    assert(degree(matrix.right_dimension()) == degree(b));
}

/// A pair that crosses is neither within nor contains, and does not touch, overlap or equal.
///
/// A boundary has a lower dimension than the inside that it bounds.
pub proof fn law_what_crosses_is_not_within(matrix: IntersectionMatrix, a: Dimensions, b: Dimensions)
    requires
        have_dimensions(matrix, a, b),
        degree(matrix.cells@[1]) < degree(b),
        degree(matrix.cells@[3]) < degree(a),
        Predicate::Crosses.reads(matrix),
    ensures
        !Predicate::Within.reads(matrix),
        !Predicate::Contains.reads(matrix),
        !Predicate::Touches.reads(matrix),
        !Predicate::Overlaps.reads(matrix),
        !Predicate::Equals.reads(matrix),
        Predicate::Intersects.reads(matrix),
{
    assert(degree(matrix.left_dimension()) == degree(a));
    assert(degree(matrix.right_dimension()) == degree(b));
}

/// The exact test of a predicate says of two geometries what the predicate says of their positions,
/// where the direct tests and the matrix do.
pub proof fn law_a_test_speaks_of_positions<D, R, C, O>(
    exact: Exact<D, R, C, O>,
    direct: spec_fn(Direct, GeometryView, GeometryView) -> bool,
    relate: spec_fn(GeometryView, GeometryView) -> IntersectionMatrix,
    places: spec_fn(GeometryView) -> spec_fn(int) -> CoordPos,
    predicate: Predicate,
    left: GeometryView,
    right: GeometryView,
    a: Dimensions,
    b: Dimensions,
    out: bool,
) where
    D: Fn(Direct, &Geometry, &Geometry) -> bool,
    R: Fn(&Geometry, &Geometry, bool) -> IntersectionMatrix,
    C: Fn(u64, u64, u64, usize) -> usize,
    O: Fn(Coord, Coord, Coord) -> Orientation,

    requires
        are_steady(exact, direct, relate, left, right),
        describes(relate(left, right), places(left), places(right)),
        have_dimensions(relate(left, right), a, b),
        relate(left, right).cells@[8] == Dimensions::TwoDimensional,
        are_true(direct, places, left, right),
        are_true(direct, places, right, left),
        predicate.is_evaluated(exact, left, right, out),
    ensures
        out == holds(
            predicate,
            places(left),
            places(right),
            a,
            b,
            relate(left, right).cells@[0],
        ),
{
    law_a_predicate_speaks_of_positions(
        predicate,
        relate(left, right),
        places(left),
        places(right),
        a,
        b,
    );
    lemma_shares(places(left), places(right));
    lemma_shares(places(right), places(left));
    lemma_turned(places(left), places(right));
}

/// Having a position in common goes both ways.
proof fn lemma_turned(left: spec_fn(int) -> CoordPos, right: spec_fn(int) -> CoordPos)
    ensures
        have_common(left, right) == have_common(right, left),
        have_common_inside(left, right) == have_common_inside(right, left),
{
    if have_common(left, right) {
        let p = choose|p: int| #[trigger] belongs(left, p) && belongs(right, p);
        assert(belongs(right, p));
    }
    if have_common(right, left) {
        let p = choose|p: int| #[trigger] belongs(right, p) && belongs(left, p);
        assert(belongs(left, p));
    }
    if have_common_inside(left, right) {
        let p = choose|p: int| #[trigger]
            left(p) == CoordPos::Inside && right(p) == CoordPos::Inside;
        assert(right(p) == CoordPos::Inside);
    }
    if have_common_inside(right, left) {
        let p = choose|p: int| #[trigger]
            right(p) == CoordPos::Inside && left(p) == CoordPos::Inside;
        assert(left(p) == CoordPos::Inside);
    }
}

/// True when the direct tests of two geometries speak of their positions.
pub open spec fn are_true(
    direct: spec_fn(Direct, GeometryView, GeometryView) -> bool,
    places: spec_fn(GeometryView) -> spec_fn(int) -> CoordPos,
    left: GeometryView,
    right: GeometryView,
) -> bool {
    let (a, b) = (places(left), places(right));
    &&& direct(Direct::Intersects, left, right) == have_common(a, b)
    &&& direct(Direct::Contains, left, right) == (lies_in(b, a) && have_common_inside(a, b))
    &&& direct(Direct::ContainsProperly, left, right) == (have_common_inside(a, b) && forall|p: int|
        #[trigger] belongs(b, p) ==> a(p) == CoordPos::Inside)
    &&& direct(Direct::Covers, left, right) == (lies_in(b, a) && have_common(a, b))
}

/// True when a geometry is one point.
pub open spec fn is_one_point(geom: spec_fn(int) -> CoordPos, at: int) -> bool {
    forall|p: int| #[trigger] geom(p) == if p == at {
        CoordPos::Inside
    } else {
        CoordPos::Outside
    }
}

/// The rule for a point against an area reads the place of the point as the predicate does, on
/// whichever side the area stands.
pub proof fn law_the_rule_for_a_point_is_the_predicate(
    predicate: Predicate,
    area: spec_fn(int) -> CoordPos,
    point: spec_fn(int) -> CoordPos,
    at: int,
    a: Dimensions,
    b: Dimensions,
    common: Dimensions,
)
    requires
        is_one_point(point, at),
    ensures
        predicate.rule(Side::Left) matches Some(rule) ==> rule.reads(area(at)) == holds(
            predicate,
            area,
            point,
            a,
            b,
            common,
        ),
        predicate.rule(Side::Right) matches Some(rule) ==> rule.reads(area(at)) == holds(
            predicate,
            point,
            area,
            b,
            a,
            common,
        ),
{
    assert(point(at) == CoordPos::Inside);
    assert(belongs(point, at));
    assert(have_common(area, point) == belongs(area, at)) by {
        if have_common(area, point) {
            let p = choose|p: int| #[trigger] belongs(area, p) && belongs(point, p);
            assert(point(p) != CoordPos::Outside);
        }
        if belongs(area, at) {
            assert(belongs(area, at) && belongs(point, at));
        }
    }
    assert(have_common_inside(area, point) == (area(at) == CoordPos::Inside)) by {
        if have_common_inside(area, point) {
            let p = choose|p: int| #[trigger]
                area(p) == CoordPos::Inside && point(p) == CoordPos::Inside;
            assert(point(p) == CoordPos::Inside);
        }
    }
    lemma_turned(area, point);
    assert(lies_in(point, area) == belongs(area, at)) by {
        assert forall|p: int| #[trigger] belongs(point, p) implies p == at by {
            assert(point(p) != CoordPos::Outside);
        }
    }
    assert((forall|p: int| #[trigger] belongs(point, p) ==> area(p) == CoordPos::Inside) == (area(
        at,
    ) == CoordPos::Inside)) by {
        assert forall|p: int| #[trigger] belongs(point, p) implies p == at by {
            assert(point(p) != CoordPos::Outside);
        }
    }
}

/// The exact tests and the matrix are asked of the first geometry and the second, in this order.
pub proof fn law_the_exact_tests_keep_their_sides<D, R>(
    direct: D,
    relate: R,
    test_of: spec_fn(Direct, GeometryView, GeometryView) -> bool,
    matrix_of: spec_fn(GeometryView, GeometryView) -> IntersectionMatrix,
    test: Direct,
    left: GeometryView,
    right: GeometryView,
    prepared: bool,
    out: bool,
    matrix: IntersectionMatrix,
    text: Seq<char>,
) where
    D: Fn(Direct, &Geometry, &Geometry) -> bool,
    R: Fn(&Geometry, &Geometry, bool) -> IntersectionMatrix,

    requires
        forall|t: Direct, a: &Geometry, b: &Geometry, found: bool| #[trigger]
            direct.ensures((t, a, b), found) ==> found == test_of(t, a@, b@),
        forall|a: &Geometry, b: &Geometry, p: bool, found: IntersectionMatrix| #[trigger]
            relate.ensures((a, b, p), found) ==> found == matrix_of(a@, b@),
        is_direct(direct, test, left, right, out),
        is_related(relate, left, right, prepared, matrix),
        is_relation_text(relate, left, right, text),
    ensures
        out == test_of(test, left, right),
        matrix == matrix_of(left, right),
        text == matrix_text(matrix_of(left, right)),
{
}

/// A pattern is held against the matrix of the first geometry and the second. A pair without one of
/// them has no answer.
pub proof fn law_a_pattern_is_held_against_the_pair<
    R: Fn(&Geometry, &Geometry, bool) -> IntersectionMatrix,
>(
    relate: R,
    matrix_of: spec_fn(GeometryView, GeometryView) -> IntersectionMatrix,
    left: Option<GeometryView>,
    right: Option<GeometryView>,
    pattern: Seq<char>,
    out: Option<bool>,
)
    requires
        forall|a: &Geometry, b: &Geometry, p: bool, found: IntersectionMatrix| #[trigger]
            relate.ensures((a, b, p), found) ==> found == matrix_of(a@, b@),
        pattern.len() == 9,
        forall|k: int| 0 <= k < 9 ==> is_pattern_character(#[trigger] pattern[k]),
        is_pattern_answer(relate, left, right, pattern, out),
    ensures
        match (left, right) {
            (Some(a), Some(b)) => out == Some(
                forall|k: int|
                    0 <= k < 9 ==> fits(pattern[k], #[trigger] matrix_text(matrix_of(a, b))[k]),
            ),
            _ => out is None,
        },
{
    if let (Some(a), Some(b)) = (left, right) {
        law_a_pattern_is_read_against_the_text(matrix_of(a, b), pattern);
        let matrix = choose|m: IntersectionMatrix| #[trigger]
            is_related(relate, a, b, false, m) && out is Some && pattern_verdict(m, pattern, 0)
                == Ok::<bool, Error>(out->0);
        assert(matrix == matrix_of(a, b));
    }
}

/// A pair is answered by what the function gives for the first geometry and the second. A pair
/// without one of them has no answer.
pub proof fn law_a_pair_keeps_its_sides<T, F: Fn(&Geometry, &Geometry) -> Option<T>>(
    f: F,
    answer_of: spec_fn(GeometryView, GeometryView) -> Option<T>,
    left: Option<GeometryView>,
    right: Option<GeometryView>,
    out: Option<T>,
)
    requires
        forall|a: &Geometry, b: &Geometry, found: Option<T>| #[trigger]
            f.ensures((a, b), found) ==> found == answer_of(a@, b@),
        is_pair_answer(left, right, f, out),
    ensures
        out == match (left, right) {
            (Some(a), Some(b)) => answer_of(a, b),
            _ => None,
        },
{
}

} // verus!
