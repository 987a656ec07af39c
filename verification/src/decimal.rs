//! Whole numbers in decimal text.

use vstd::prelude::*;

verus! {

/// The digit that a character stands for.
pub open spec fn digit_value(c: char) -> Option<nat> {
    if '0' <= c <= '9' {
        Some((c as int - '0' as int) as nat)
    } else {
        None
    }
}

/// The value of a run of digits. A run without digits is zero.
pub open spec fn digits_value(text: Seq<char>) -> Option<nat>
    decreases text.len(),
{
    if text.len() == 0 {
        Some(0)
    } else {
        match (digits_value(text.drop_last()), digit_value(text.last())) {
            (Some(front), Some(digit)) => Some(front * 10 + digit),
            _ => None,
        }
    }
}

/// The number that a text stands for: an optional sign and at least one digit, in range.
pub open spec fn parsed(text: Seq<char>) -> Option<i32> {
    if text.len() == 0 {
        None
    } else {
        let signed = text[0] == '-' || text[0] == '+';
        let digits = if signed {
            text.skip(1)
        } else {
            text
        };
        match digits_value(digits) {
            Some(value) => {
                let number = if text[0] == '-' {
                    -(value as int)
                } else {
                    value as int
                };
                if digits.len() > 0 && i32::MIN <= number <= i32::MAX {
                    Some(number as i32)
                } else {
                    None
                }
            },
            None => None,
        }
    }
}

/// The character of a digit.
pub open spec fn digit_char(digit: int) -> char {
    if digit == 0 {
        '0'
    } else if digit == 1 {
        '1'
    } else if digit == 2 {
        '2'
    } else if digit == 3 {
        '3'
    } else if digit == 4 {
        '4'
    } else if digit == 5 {
        '5'
    } else if digit == 6 {
        '6'
    } else if digit == 7 {
        '7'
    } else if digit == 8 {
        '8'
    } else {
        '9'
    }
}

/// The digits of a number, without leading zeros.
pub open spec fn digits_of(value: nat) -> Seq<char>
    decreases value,
{
    if value < 10 {
        seq![digit_char(value as int)]
    } else {
        digits_of(value / 10).push(digit_char((value % 10) as int))
    }
}

/// The text of a number.
pub open spec fn text_of(number: i32) -> Seq<char> {
    if number < 0 {
        seq!['-'] + digits_of((-(number as int)) as nat)
    } else {
        digits_of(number as nat)
    }
}

/// A longer run of digits is worth at least as much.
proof fn lemma_digits_grow(text: Seq<char>, n: int)
    requires
        0 <= n <= text.len(),
        digits_value(text) is Some,
    ensures
        digits_value(text.take(n)) is Some,
        digits_value(text.take(n))->0 <= digits_value(text)->0,
    decreases text.len(),
{
    if n == text.len() {
        assert(text.take(n) =~= text);
    } else {
        lemma_digits_grow(text.drop_last(), n);
        assert(text.drop_last().take(n) =~= text.take(n));
    }
}

/// A run that holds something else than digits has no value.
proof fn lemma_digits_none(text: Seq<char>, n: int)
    requires
        0 <= n <= text.len(),
        digits_value(text.take(n)) is None,
    ensures
        digits_value(text) is None,
    decreases text.len(),
{
    if n == text.len() {
        assert(text.take(n) =~= text);
    } else {
        assert(text.drop_last().take(n) =~= text.take(n));
        lemma_digits_none(text.drop_last(), n);
    }
}

/// Read a number. Nothing but an optional sign and digits is accepted, and the number must fit.
pub fn parse_i32(text: &str) -> (r: Option<i32>)
    ensures
        r == parsed(text@),
{
    let total: usize = text.unicode_len();
    if total == 0 {
        return None;
    }
    let first: char = text.get_char(0);
    let negative = first == '-';
    let start: usize = if negative || first == '+' {
        1
    } else {
        0
    };
    let ghost digits = text@.skip(start as int);
    proof {
        if start == 0 {
            assert(digits =~= text@);
        }
    }
    if start == total {
        assert(digits.len() == 0);
        return None;
    }
    let mut value: i64 = 0;
    let mut i: usize = start;
    assert(digits.take(0).len() == 0);
    while i < total
        invariant
            start <= i <= total,
            total == text@.len(),
            start <= 1,
            digits == text@.skip(start as int),
            0 <= value <= 0x8000_0000,
            digits_value(digits.take(i - start)) == Some(value as nat),
            start == if text@[0] == '-' || text@[0] == '+' {
                1int
            } else {
                0int
            },
            text@.len() > start,
            start == 0 ==> digits == text@,
        decreases total - i,
    {
        let c: char = text.get_char(i);
        proof {
            assert(digits.take(i + 1 - start).drop_last() =~= digits.take(i - start));
            assert(digits.take(i + 1 - start).last() == c);
        }
        if c < '0' || c > '9' {
            proof {
                assert(digits_value(digits.take(i + 1 - start)) is None);
                lemma_digits_none(digits, i + 1 - start);
            }
            return None;
        }
        let digit: i64 = (c as u32 - '0' as u32) as i64;
        value = value * 10 + digit;
        if value > 0x8000_0000 {
            proof {
                if digits_value(digits) is Some {
                    lemma_digits_grow(digits, i + 1 - start);
                }
            }
            return None;
        }
        i = i + 1;
    }
    assert(digits.take(total - start) =~= digits);
    let number: i64 = if negative {
        -value
    } else {
        value
    };
    if number > 0x7fff_ffff {
        return None;
    }
    Some(number as i32)
}

/// The text of one digit.
fn digit_text(digit: u32) -> (r: &'static str)
    requires
        digit < 10,
    ensures
        r@ == seq![digit_char(digit as int)],
{
    proof {
        reveal_strlit("0");
        reveal_strlit("1");
        reveal_strlit("2");
        reveal_strlit("3");
        reveal_strlit("4");
        reveal_strlit("5");
        reveal_strlit("6");
        reveal_strlit("7");
        reveal_strlit("8");
        reveal_strlit("9");
    }
    let r: &'static str = match digit {
        0 => "0",
        1 => "1",
        2 => "2",
        3 => "3",
        4 => "4",
        5 => "5",
        6 => "6",
        7 => "7",
        8 => "8",
        _ => "9",
    };
    assert(r@ =~= seq![digit_char(digit as int)]);
    r
}

/// Append the digits of a number.
fn push_digits(out: &mut String, value: u32)
    ensures
        final(out)@ == old(out)@ + digits_of(value as nat),
    decreases value,
{
    if value >= 10 {
        push_digits(out, value / 10);
    }
    out.append(digit_text(value % 10));
    assert(out@ =~= old(out)@ + digits_of(value as nat));
}

/// The text of a number.
pub fn i32_text(number: i32) -> (r: String)
    ensures
        r@ == text_of(number),
{
    let mut out = String::new();
    if number < 0 {
        out.append("-");
        proof {
            reveal_strlit("-");
        }
        push_digits(&mut out, (-(number as i64)) as u32);
    } else {
        push_digits(&mut out, number as u32);
    }
    assert(out@ =~= text_of(number));
    out
}

/// The digits of a number have its value.
proof fn lemma_digits_round_trip(value: nat)
    ensures
        digits_value(digits_of(value)) == Some(value),
        digits_of(value).len() > 0,
        digits_of(value)[0] != '-',
        digits_of(value)[0] != '+',
    decreases value,
{
    let text = digits_of(value);
    if value >= 10 {
        lemma_digits_round_trip(value / 10);
        assert(text.drop_last() =~= digits_of(value / 10));
    } else {
        assert(text.drop_last() =~= Seq::<char>::empty());
        assert(digits_value(text.drop_last()) == Some(0nat));
    }
}

/// Reading the text of a number gives the number back.
pub proof fn law_a_number_reads_back(number: i32)
    ensures
        parsed(text_of(number)) == Some(number),
{
    if number < 0 {
        let value = (-(number as int)) as nat;
        lemma_digits_round_trip(value);
        assert(text_of(number).skip(1) =~= digits_of(value));
    } else {
        lemma_digits_round_trip(number as nat);
    }
}

} // verus!
