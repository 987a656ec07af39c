//! Ordinates as IEEE 754 bit patterns.
//!
//! An ordinate is a binary64 number. The library never computes with one: it moves ordinates
//! around and compares them. Both work on the bit pattern, so an ordinate is held as the `u64`
//! that `to_bits` gives. The comparisons below are the IEEE ones: a NaN compares to nothing, and
//! the two zeros are equal.

use vstd::prelude::*;

verus! {

/// The sign bit.
pub const SIGN: u64 = 0x8000_0000_0000_0000;

/// Positive infinity.
pub const INFINITY: u64 = 0x7ff0_0000_0000_0000;

/// Negative infinity.
pub const NEG_INFINITY: u64 = 0xfff0_0000_0000_0000;

/// Positive zero.
pub const ZERO: u64 = 0;

/// One.
pub const ONE: u64 = 0x3ff0_0000_0000_0000;

/// A quiet NaN.
pub const NAN: u64 = 0x7ff8_0000_0000_0000;

/// The pattern without its sign bit.
pub open spec fn magnitude(bits: u64) -> int {
    if bits >= SIGN {
        bits - SIGN
    } else {
        bits as int
    }
}

/// True for the patterns that stand for no number.
pub open spec fn is_nan(bits: u64) -> bool {
    magnitude(bits) > INFINITY
}

/// The place of a number on the line. Equal numbers share a place, so the two zeros do.
pub open spec fn place(bits: u64) -> int {
    if bits >= SIGN {
        -magnitude(bits)
    } else {
        magnitude(bits)
    }
}

/// `a < b`.
pub open spec fn is_lt(a: u64, b: u64) -> bool {
    !is_nan(a) && !is_nan(b) && place(a) < place(b)
}

/// `a <= b`.
pub open spec fn is_le(a: u64, b: u64) -> bool {
    !is_nan(a) && !is_nan(b) && place(a) <= place(b)
}

/// `a == b`.
pub open spec fn is_eq(a: u64, b: u64) -> bool {
    !is_nan(a) && !is_nan(b) && place(a) == place(b)
}

/// True when the pattern stands for no number.
pub fn nan(bits: u64) -> (r: bool)
    ensures
        r == is_nan(bits),
{
    if bits >= SIGN {
        bits - SIGN > INFINITY
    } else {
        bits > INFINITY
    }
}

/// The place of a number on the line, as an integer.
fn key(bits: u64) -> (r: i128)
    ensures
        r == place(bits),
{
    if bits >= SIGN {
        -((bits - SIGN) as i128)
    } else {
        bits as i128
    }
}

/// `a < b`.
pub fn lt(a: u64, b: u64) -> (r: bool)
    ensures
        r == is_lt(a, b),
{
    !nan(a) && !nan(b) && key(a) < key(b)
}

/// `a <= b`.
pub fn le(a: u64, b: u64) -> (r: bool)
    ensures
        r == is_le(a, b),
{
    !nan(a) && !nan(b) && key(a) <= key(b)
}

/// `a == b`.
pub fn eq(a: u64, b: u64) -> (r: bool)
    ensures
        r == is_eq(a, b),
{
    !nan(a) && !nan(b) && key(a) == key(b)
}

// --------------------------------------------------------------- whole numbers
/// The weight of the exponent field: its lowest bit.
pub const EXPONENT: u64 = 0x0010_0000_0000_0000;

/// The exponent field of a pattern.
pub open spec fn exponent(bits: u64) -> int {
    magnitude(bits) / EXPONENT as int
}

/// The significand as a whole number. It has a leading one unless the exponent field is zero.
pub open spec fn significand(bits: u64) -> int {
    magnitude(bits) % EXPONENT as int + if exponent(bits) > 0 {
        EXPONENT as int
    } else {
        0
    }
}

/// How often the significand is doubled for the value. Where it is negative, how often it is
/// halved.
pub open spec fn scale(bits: u64) -> int {
    if exponent(bits) > 0 {
        exponent(bits) - 1075
    } else {
        -1074
    }
}

/// The number, doubled `k` times.
pub open spec fn doubled(n: nat, k: int) -> nat
    decreases k,
{
    if k <= 0 {
        n
    } else {
        doubled(2 * n, k - 1)
    }
}

/// The number, halved `k` times, where no halving leaves a remainder.
pub open spec fn halved(n: nat, k: int) -> Option<nat>
    decreases k,
{
    if k <= 0 {
        Some(n)
    } else if n % 2 == 0 {
        halved(n / 2, k - 1)
    } else {
        None
    }
}

/// The whole number that a pattern stands for, if it stands for one that is not negative.
pub open spec fn whole(bits: u64) -> Option<nat> {
    if exponent(bits) >= 0x7ff || place(bits) < 0 {
        None
    } else if scale(bits) >= 0 {
        Some(doubled(significand(bits) as nat, scale(bits)))
    } else {
        halved(significand(bits) as nat, -scale(bits))
    }
}

proof fn lemma_doubled_grows(n: nat, k: int)
    ensures
        doubled(n, k) >= n,
    decreases k,
{
    if k > 0 {
        lemma_doubled_grows(2 * n, k - 1);
    }
}

proof fn lemma_nothing_halved(k: int)
    ensures
        halved(0, k) == Some(0nat),
    decreases k,
{
    if k > 0 {
        lemma_nothing_halved(k - 1);
    }
}

/// Read a whole number that is not negative. One that is too large reads as the largest.
pub fn count(bits: u64) -> (r: Option<usize>)
    ensures
        match (r, whole(bits)) {
            (Some(n), Some(value)) => n == if value <= usize::MAX {
                value as int
            } else {
                usize::MAX as int
            },
            (None, None) => true,
            _ => false,
        },
{
    let negative = bits >= SIGN;
    let rest: u64 = if negative {
        bits - SIGN
    } else {
        bits
    };
    let field: u64 = rest / EXPONENT;
    let low: u64 = rest % EXPONENT;
    let start: u64 = if field > 0 {
        low + EXPONENT
    } else {
        low
    };
    assert(field as int == exponent(bits));
    assert(start as int == significand(bits));
    if field >= 0x7ff || (negative && rest > 0) {
        return None;
    }
    let mut value: u64 = start;
    if field >= 1075 {
        let mut left: u64 = field - 1075;
        while left > 0
            invariant
                doubled(significand(bits) as nat, scale(bits)) == doubled(value as nat, left as int),
                whole(bits) == Some(doubled(significand(bits) as nat, scale(bits))),
            decreases left,
        {
            if value > 0x7fff_ffff_ffff_ffff {
                proof {
                    lemma_doubled_grows(2 * (value as nat), left - 1);
                }
                return Some(usize::MAX);
            }
            value = 2 * value;
            left = left - 1;
        }
    } else {
        let mut left: u64 = if field > 0 {
            1075 - field
        } else {
            1074
        };
        while left > 0
            invariant
                halved(significand(bits) as nat, -scale(bits)) == halved(value as nat, left as int),
                whole(bits) == halved(significand(bits) as nat, -scale(bits)),
            decreases left,
        {
            if value == 0 {
                proof {
                    lemma_nothing_halved(left as int);
                }
                return Some(0);
            }
            if value % 2 != 0 {
                return None;
            }
            value = value / 2;
            left = left - 1;
        }
    }
    if value > usize::MAX as u64 {
        Some(usize::MAX)
    } else {
        Some(value as usize)
    }
}

// ----------------------------------------------------------------------- units
/// True for a pattern that stands for a number other than an infinity.
pub open spec fn is_finite(bits: u64) -> bool {
    magnitude(bits) < INFINITY
}

/// How many times the least positive number a magnitude is. Every finite number is a whole multiple
/// of it.
pub open spec fn steps(size: int) -> nat {
    let field = size / EXPONENT as int;
    let low = (size % EXPONENT as int) as nat;
    if field <= 0 {
        low
    } else {
        doubled(low + EXPONENT as nat, field - 1)
    }
}

/// A finite number as a whole multiple of the least positive one.
pub open spec fn units(bits: u64) -> int {
    if bits >= SIGN {
        -steps(magnitude(bits))
    } else {
        steps(magnitude(bits)) as int
    }
}

proof fn lemma_doubled_order(a: nat, b: nat, k: int)
    requires
        a < b,
    ensures
        doubled(a, k) < doubled(b, k),
    decreases k,
{
    if k > 0 {
        lemma_doubled_order(2 * a, 2 * b, k - 1);
    }
}

proof fn lemma_doubled_longer(a: nat, j: int, k: int)
    requires
        0 <= j <= k,
    ensures
        doubled(a, j) <= doubled(a, k),
    decreases k,
{
    if j > 0 {
        lemma_doubled_longer(2 * a, j - 1, k - 1);
    } else {
        lemma_doubled_grows(a, k);
    }
}

proof fn lemma_steps_order(a: int, b: int)
    requires
        0 <= a < b,
    ensures
        steps(a) < steps(b),
{
    let unit = EXPONENT as int;
    let fa = a / unit;
    let fb = b / unit;
    let la = (a % unit) as nat;
    let lb = (b % unit) as nat;
    assert(fa <= fb) by (nonlinear_arith)
        requires
            0 <= a < b,
            fa == a / unit,
            fb == b / unit,
            unit == 0x0010_0000_0000_0000,
    ;
    if fa == fb {
        assert(la < lb);
        if fa > 0 {
            lemma_doubled_order(la + EXPONENT as nat, lb + EXPONENT as nat, fa - 1);
        }
    } else if fa <= 0 {
        lemma_doubled_grows(lb + EXPONENT as nat, fb - 1);
    } else {
        // Twice the leading one is more than any significand, and it is doubled at least as often.
        lemma_doubled_order(la + EXPONENT as nat, 2 * (EXPONENT as nat), fa - 1);
        assert(doubled(2 * (EXPONENT as nat), fa - 1) == doubled(EXPONENT as nat, fa));
        lemma_doubled_longer(EXPONENT as nat, fa, fb - 1);
        if lb > 0 {
            lemma_doubled_order(EXPONENT as nat, lb + EXPONENT as nat, fb - 1);
        }
    }
}

/// Units keep the order of finite numbers.
pub proof fn lemma_units_order(a: u64, b: u64)
    requires
        is_finite(a),
        is_finite(b),
    ensures
        is_le(a, b) <==> units(a) <= units(b),
        is_lt(a, b) <==> units(a) < units(b),
{
    assert(steps(0) == 0);
    let ma = magnitude(a);
    let mb = magnitude(b);
    if 0 < ma {
        lemma_steps_order(0, ma);
    }
    if 0 < mb {
        lemma_steps_order(0, mb);
    }
    if ma < mb {
        lemma_steps_order(ma, mb);
    }
    if mb < ma {
        lemma_steps_order(mb, ma);
    }
}

} // verus!
