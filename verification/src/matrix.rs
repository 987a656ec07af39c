//! The DE-9IM matrix.
//!
//! The matrix says how the interior, the boundary and the exterior of two geometries meet: each
//! of its nine cells holds the dimension of one of the nine intersections. Every named relation is
//! a pattern of those cells.

use vstd::prelude::*;
use crate::error::Error;
use crate::ring::CoordPos;

verus! {

/// The dimension of an intersection.
#[derive(Debug, Clone, Copy, PartialEq, Eq, Structural, Hash)]
pub enum Dimensions {
    /// There is none.
    Empty,
    /// Points.
    ZeroDimensional,
    /// Lines.
    OneDimensional,
    /// Areas.
    TwoDimensional,
}

impl Dimensions {
    /// The place of a dimension in their order.
    pub open spec fn rank(self) -> int {
        match self {
            Dimensions::Empty => 0,
            Dimensions::ZeroDimensional => 1,
            Dimensions::OneDimensional => 2,
            Dimensions::TwoDimensional => 3,
        }
    }

    /// The character of a dimension.
    pub open spec fn letter(self) -> char {
        match self {
            Dimensions::Empty => 'F',
            Dimensions::ZeroDimensional => '0',
            Dimensions::OneDimensional => '1',
            Dimensions::TwoDimensional => '2',
        }
    }

    /// The higher of two dimensions.
    pub open spec fn higher(self, other: Dimensions) -> Dimensions {
        if self.rank() < other.rank() {
            other
        } else {
            self
        }
    }

    fn number(self) -> (r: u8)
        ensures
            r == self.rank(),
    {
        match self {
            Dimensions::Empty => 0,
            Dimensions::ZeroDimensional => 1,
            Dimensions::OneDimensional => 2,
            Dimensions::TwoDimensional => 3,
        }
    }

    fn max(self, other: Dimensions) -> (r: Dimensions)
        ensures
            r == self.higher(other),
    {
        if self.number() < other.number() {
            other
        } else {
            self
        }
    }
}

/// A DE-9IM matrix, row by row: the interior, the boundary and the exterior of the first geometry
/// against those of the second.
#[derive(Debug, Clone, Copy, PartialEq, Eq)]
pub struct IntersectionMatrix {
    /// The nine cells.
    pub cells: [Dimensions; 9],
}

/// The place of a position in a row or a column.
pub open spec fn rank_of(pos: CoordPos) -> int {
    match pos {
        CoordPos::Inside => 0,
        CoordPos::OnBoundary => 1,
        CoordPos::Outside => 2,
    }
}

impl IntersectionMatrix {
    /// One of the nine cells, by its number.
    pub open spec fn cell(self, k: int) -> Dimensions {
        self.cells@[k]
    }

    /// True when the two parts meet.
    pub open spec fn has(self, k: int) -> bool {
        self.cells@[k] != Dimensions::Empty
    }

    /// The dimension of the first geometry, as far as the matrix shows it.
    pub open spec fn left_dimension(self) -> Dimensions {
        self.cell(0).higher(self.cell(1)).higher(self.cell(2))
    }

    /// The dimension of the second geometry, as far as the matrix shows it.
    pub open spec fn right_dimension(self) -> Dimensions {
        self.cell(0).higher(self.cell(3)).higher(self.cell(6))
    }

    /// `FF*FF****`: no point in common.
    pub open spec fn says_disjoint(self) -> bool {
        !self.has(0) && !self.has(1) && !self.has(3) && !self.has(4)
    }

    /// `T*F**F***`: the first lies in the second, and their interiors meet.
    pub open spec fn says_within(self) -> bool {
        self.has(0) && !self.has(2) && !self.has(5)
    }

    /// `T*****FF*`: the second lies in the first, and their interiors meet.
    pub open spec fn says_contains(self) -> bool {
        self.has(0) && !self.has(6) && !self.has(7)
    }

    /// `T**FF*FF*`: the second lies in the interior of the first.
    pub open spec fn says_contains_properly(self) -> bool {
        self.has(0) && !self.has(3) && !self.has(4) && !self.has(6) && !self.has(7)
    }

    /// The second lies in the first, and they have a point in common.
    pub open spec fn says_covers(self) -> bool {
        !self.says_disjoint() && !self.has(6) && !self.has(7)
    }

    /// The first lies in the second, and they have a point in common.
    pub open spec fn says_covered_by(self) -> bool {
        !self.says_disjoint() && !self.has(2) && !self.has(5)
    }

    /// They have a point in common, but their interiors have none.
    pub open spec fn says_touches(self) -> bool {
        !self.has(0) && (self.has(1) || self.has(3) || self.has(4))
    }

    /// Their interiors meet, in less than one of them, and neither holds the other.
    pub open spec fn says_crosses(self) -> bool {
        let a = self.left_dimension();
        let b = self.right_dimension();
        if a.rank() < b.rank() {
            self.has(0) && self.has(2)
        } else if a.rank() > b.rank() {
            self.has(0) && self.has(6)
        } else {
            a == Dimensions::OneDimensional && self.cell(0) == Dimensions::ZeroDimensional
        }
    }

    /// They have the same dimension, share some of it, and each has some of its own.
    pub open spec fn says_overlaps(self) -> bool {
        let a = self.left_dimension();
        &&& a == self.right_dimension()
        &&& a != Dimensions::Empty
        &&& self.has(0)
        &&& self.has(2)
        &&& self.has(6)
        &&& a == Dimensions::OneDimensional ==> self.cell(0) == Dimensions::OneDimensional
    }

    /// Neither has a point outside the other. Two empty geometries are equal too: nothing meets
    /// but the two exteriors.
    pub open spec fn says_equal(self) -> bool {
        ||| self.cells@ == seq![
            Dimensions::Empty,
            Dimensions::Empty,
            Dimensions::Empty,
            Dimensions::Empty,
            Dimensions::Empty,
            Dimensions::Empty,
            Dimensions::Empty,
            Dimensions::Empty,
            Dimensions::TwoDimensional,
        ]
        ||| self.has(0) && !self.has(2) && !self.has(5) && !self.has(6) && !self.has(7)
    }

    fn meets(&self, k: usize) -> (r: bool)
        requires
            k < 9,
        ensures
            r == self.has(k as int),
    {
        self.cells[k] != Dimensions::Empty
    }

    /// The cell of two positions.
    pub fn get(&self, lhs: CoordPos, rhs: CoordPos) -> (r: Dimensions)
        ensures
            r == self.cell(3 * rank_of(lhs) + rank_of(rhs)),
    {
        let row: usize = match lhs {
            CoordPos::Inside => 0,
            CoordPos::OnBoundary => 1,
            CoordPos::Outside => 2,
        };
        let col: usize = match rhs {
            CoordPos::Inside => 0,
            CoordPos::OnBoundary => 1,
            CoordPos::Outside => 2,
        };
        self.cells[3 * row + col]
    }

    /// True when the two geometries have no point in common.
    pub fn is_disjoint(&self) -> (r: bool)
        ensures
            r == self.says_disjoint(),
    {
        !self.meets(0) && !self.meets(1) && !self.meets(3) && !self.meets(4)
    }

    /// True when the two geometries have a point in common.
    pub fn is_intersects(&self) -> (r: bool)
        ensures
            r == !self.says_disjoint(),
    {
        !self.is_disjoint()
    }

    /// True when the first lies in the second.
    pub fn is_within(&self) -> (r: bool)
        ensures
            r == self.says_within(),
    {
        self.meets(0) && !self.meets(2) && !self.meets(5)
    }

    /// True when the second lies in the first.
    pub fn is_contains(&self) -> (r: bool)
        ensures
            r == self.says_contains(),
    {
        self.meets(0) && !self.meets(6) && !self.meets(7)
    }

    /// True when the second lies in the interior of the first.
    pub fn is_contains_properly(&self) -> (r: bool)
        ensures
            r == self.says_contains_properly(),
    {
        self.meets(0) && !self.meets(3) && !self.meets(4) && !self.meets(6) && !self.meets(7)
    }

    /// True when every point of the second is a point of the first.
    pub fn is_covers(&self) -> (r: bool)
        ensures
            r == self.says_covers(),
    {
        !self.is_disjoint() && !self.meets(6) && !self.meets(7)
    }

    /// True when every point of the first is a point of the second.
    pub fn is_coveredby(&self) -> (r: bool)
        ensures
            r == self.says_covered_by(),
    {
        !self.is_disjoint() && !self.meets(2) && !self.meets(5)
    }

    /// True when they meet in boundary points alone.
    pub fn is_touches(&self) -> (r: bool)
        ensures
            r == self.says_touches(),
    {
        !self.meets(0) && (self.meets(1) || self.meets(3) || self.meets(4))
    }

    /// True when they cross.
    pub fn is_crosses(&self) -> (r: bool)
        ensures
            r == self.says_crosses(),
    {
        let a = self.cells[0].max(self.cells[1]).max(self.cells[2]);
        let b = self.cells[0].max(self.cells[3]).max(self.cells[6]);
        if a.number() < b.number() {
            self.meets(0) && self.meets(2)
        } else if a.number() > b.number() {
            self.meets(0) && self.meets(6)
        } else {
            a == Dimensions::OneDimensional && self.cells[0] == Dimensions::ZeroDimensional
        }
    }

    /// True when they overlap.
    pub fn is_overlaps(&self) -> (r: bool)
        ensures
            r == self.says_overlaps(),
    {
        let a = self.cells[0].max(self.cells[1]).max(self.cells[2]);
        let b = self.cells[0].max(self.cells[3]).max(self.cells[6]);
        a == b && a != Dimensions::Empty && self.meets(0) && self.meets(2) && self.meets(6) && (a
            != Dimensions::OneDimensional || self.cells[0] == Dimensions::OneDimensional)
    }

    /// True when the two geometries are topologically equal.
    pub fn is_equal_topo(&self) -> (r: bool)
        ensures
            r == self.says_equal(),
    {
        let mut empty = self.cells[8] == Dimensions::TwoDimensional;
        let mut k: usize = 0;
        while k < 8
            invariant
                k <= 8,
                empty == (self.cells@[8] == Dimensions::TwoDimensional && forall|j: int|
                    0 <= j < k ==> #[trigger] self.cells@[j] == Dimensions::Empty),
            decreases 8 - k,
        {
            if self.cells[k] != Dimensions::Empty {
                empty = false;
            }
            k = k + 1;
        }
        if empty {
            assert(self.cells@ =~= seq![
                Dimensions::Empty,
                Dimensions::Empty,
                Dimensions::Empty,
                Dimensions::Empty,
                Dimensions::Empty,
                Dimensions::Empty,
                Dimensions::Empty,
                Dimensions::Empty,
                Dimensions::TwoDimensional,
            ]);
            return true;
        }
        self.meets(0) && !self.meets(2) && !self.meets(5) && !self.meets(6) && !self.meets(7)
    }
}

// -------------------------------------------------------------------- patterns
/// What one character of a pattern says of a cell. `None` where it says nothing.
pub open spec fn admits(c: char, cell: Dimensions) -> Option<bool> {
    if c == '*' {
        Some(true)
    } else if c == 't' || c == 'T' {
        Some(cell != Dimensions::Empty)
    } else if c == 'f' || c == 'F' {
        Some(cell == Dimensions::Empty)
    } else if c == '0' {
        Some(cell == Dimensions::ZeroDimensional)
    } else if c == '1' {
        Some(cell == Dimensions::OneDimensional)
    } else if c == '2' {
        Some(cell == Dimensions::TwoDimensional)
    } else {
        None
    }
}

/// What a pattern says of a matrix, from cell `k` on.
///
/// The first cell that does not fit settles the answer, so a bad character behind it goes unseen.
pub open spec fn pattern_verdict(matrix: IntersectionMatrix, pattern: Seq<char>, k: int) -> Result<
    bool,
    Error,
>
    decreases 9 - k,
{
    if k >= 9 {
        Ok(true)
    } else if k >= pattern.len() {
        Err(Error::PatternLength { len: pattern.len() as usize })
    } else {
        match admits(pattern[k], matrix.cell(k)) {
            Some(true) => pattern_verdict(matrix, pattern, k + 1),
            Some(false) => Ok(false),
            None => Err(Error::PatternCharacter { found: pattern[k] }),
        }
    }
}

fn admitted(c: char, cell: Dimensions) -> (r: Option<bool>)
    ensures
        r == admits(c, cell),
{
    if c == '*' {
        Some(true)
    } else if c == 't' || c == 'T' {
        Some(cell != Dimensions::Empty)
    } else if c == 'f' || c == 'F' {
        Some(cell == Dimensions::Empty)
    } else if c == '0' {
        Some(cell == Dimensions::ZeroDimensional)
    } else if c == '1' {
        Some(cell == Dimensions::OneDimensional)
    } else if c == '2' {
        Some(cell == Dimensions::TwoDimensional)
    } else {
        None
    }
}

/// The text of a matrix: its nine cells.
pub open spec fn matrix_text(matrix: IntersectionMatrix) -> Seq<char> {
    Seq::new(9, |k: int| matrix.cell(k).letter())
}

impl IntersectionMatrix {
    /// True when the matrix fits a pattern of nine characters.
    ///
    /// The length is counted in bytes. A pattern of another length is an error.
    pub fn matches(&self, pattern: &str) -> (r: Result<bool, Error>)
        ensures
            if pattern.len() != 9 {
                r == Err::<bool, Error>(Error::PatternLength { len: pattern.len() })
            } else {
                r == pattern_verdict(*self, pattern@, 0)
            },
    {
        let bytes: usize = pattern.len();
        if bytes != 9 {
            return Err(Error::PatternLength { len: bytes });
        }
        let total: usize = pattern.unicode_len();
        let mut k: usize = 0;
        while k < 9
            invariant
                k <= 9,
                pattern.len() == 9,
                total == pattern@.len(),
                pattern_verdict(*self, pattern@, 0) == pattern_verdict(*self, pattern@, k as int),
            decreases 9 - k,
        {
            if k >= total {
                return Err(Error::PatternLength { len: total });
            }
            let c: char = pattern.get_char(k);
            match admitted(c, self.cells[k]) {
                Some(true) => {},
                Some(false) => {
                    return Ok(false);
                },
                None => {
                    return Err(Error::PatternCharacter { found: c });
                },
            }
            k = k + 1;
        }
        Ok(true)
    }

    /// The nine characters of the matrix.
    pub fn text(&self) -> (r: String)
        ensures
            r@ == matrix_text(*self),
    {
        let mut out = String::new();
        let mut k: usize = 0;
        assert(out@ =~= matrix_text(*self).take(0));
        while k < 9
            invariant
                k <= 9,
                out@ == matrix_text(*self).take(k as int),
            decreases 9 - k,
        {
            proof {
                reveal_strlit("F");
                reveal_strlit("0");
                reveal_strlit("1");
                reveal_strlit("2");
            }
            out.append(
                match self.cells[k] {
                    Dimensions::Empty => "F",
                    Dimensions::ZeroDimensional => "0",
                    Dimensions::OneDimensional => "1",
                    Dimensions::TwoDimensional => "2",
                },
            );
            assert(out@ =~= matrix_text(*self).take(k + 1));
            k = k + 1;
        }
        assert(matrix_text(*self).take(9) =~= matrix_text(*self));
        out
    }
}

// ------------------------------------------------------------------------ laws
/// The matrix of the two geometries the other way round.
pub open spec fn is_transposed(a: IntersectionMatrix, b: IntersectionMatrix) -> bool {
    &&& a.cell(0) == b.cell(0)
    &&& a.cell(1) == b.cell(3)
    &&& a.cell(2) == b.cell(6)
    &&& a.cell(3) == b.cell(1)
    &&& a.cell(4) == b.cell(4)
    &&& a.cell(5) == b.cell(7)
    &&& a.cell(6) == b.cell(2)
    &&& a.cell(7) == b.cell(5)
    &&& a.cell(8) == b.cell(8)
}

/// A swap of the two geometries keeps each symmetric relation, and turns each one-way relation
/// into its converse.
pub proof fn law_a_swap_turns_relations_round(a: IntersectionMatrix, b: IntersectionMatrix)
    requires
        is_transposed(a, b),
    ensures
        a.says_disjoint() == b.says_disjoint(),
        a.says_touches() == b.says_touches(),
        a.says_crosses() == b.says_crosses(),
        a.says_overlaps() == b.says_overlaps(),
        a.says_equal() == b.says_equal(),
        a.says_contains() == b.says_within(),
        a.says_covers() == b.says_covered_by(),
{
    let blank = seq![
        Dimensions::Empty,
        Dimensions::Empty,
        Dimensions::Empty,
        Dimensions::Empty,
        Dimensions::Empty,
        Dimensions::Empty,
        Dimensions::Empty,
        Dimensions::Empty,
        Dimensions::TwoDimensional,
    ];
    if a.cells@ == blank {
        assert(b.cells@ =~= blank);
    }
    if b.cells@ == blank {
        assert(a.cells@ =~= blank);
    }
}

/// A matrix fits its own text.
pub proof fn law_a_matrix_fits_its_own_text(matrix: IntersectionMatrix, k: int)
    requires
        0 <= k <= 9,
    ensures
        pattern_verdict(matrix, matrix_text(matrix), k) == Ok::<bool, Error>(true),
    decreases 9 - k,
{
    if k < 9 {
        law_a_matrix_fits_its_own_text(matrix, k + 1);
    }
}

} // verus!
