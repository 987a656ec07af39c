//! What the bytes of an encoded geometry mean.

use vstd::prelude::*;
use crate::column::Dimension;
use crate::io::{has_srid, word, word_at, EWKB_SRID_FLAG};
use crate::layout::{
    has_number, is_deep, is_deep_from, ordinates_of, part_walk, word_in, MAX_BRACKETS, OPEN,
};

verus! {

// ----------------------------------------------------------------------- words
/// The value of four bytes, the lowest one first.
pub open spec fn value_of(a: u8, b: u8, c: u8, d: u8) -> int {
    a + 0x100 * b + 0x1_0000 * c + 0x100_0000 * d
}

/// Each byte of a word weighs 256 times the one before it.
pub proof fn law_a_word_is_the_value_of_its_bytes(a: u8, b: u8, c: u8, d: u8)
    ensures
        word(a, b, c, d) == value_of(a, b, c, d),
{
    assert(((a as u32) | ((b as u32) << 8u32) | ((c as u32) << 16u32) | ((d as u32) << 24u32)) == (
    a as u32) + 0x100u32 * (b as u32) + 0x1_0000u32 * (c as u32) + 0x100_0000u32 * (d as u32))
        by (bit_vector);
}

/// A word of one byte order, its bytes turned round, is the word of the other.
pub proof fn law_the_byte_order_turns_a_word_round(bytes: Seq<u8>, turned: Seq<u8>, at: int)
    requires
        0 <= at,
        at + 4 <= bytes.len(),
        turned.len() == bytes.len(),
        forall|k: int| 0 <= k < 4 ==> #[trigger] turned[at + k] == bytes[at + 3 - k],
    ensures
        word_at(turned, at, false) == word_at(bytes, at, true),
        word_at(bytes, at, true) == value_of(
            bytes[at],
            bytes[at + 1],
            bytes[at + 2],
            bytes[at + 3],
        ),
{
    law_a_word_is_the_value_of_its_bytes(bytes[at], bytes[at + 1], bytes[at + 2], bytes[at + 3]);
    assert(turned[at + 0] == bytes[at + 3]);
    assert(turned[at + 1] == bytes[at + 2]);
    assert(turned[at + 2] == bytes[at + 1]);
    assert(turned[at + 3] == bytes[at]);
}

/// The SRID stands behind the type word, in the byte order that the first byte names: one for the
/// lowest byte first, zero for the highest.
pub proof fn law_the_srid_follows_the_type_word(wkb: Seq<u8>, srid: i32, out: Seq<u8>)
    requires
        wkb.len() >= 5,
        srid >= 0,
        has_srid(wkb, srid, out),
    ensures
        wkb[0] == 1 ==> value_of(out[5], out[6], out[7], out[8]) == srid,
        wkb[0] == 0 ==> value_of(out[8], out[7], out[6], out[5]) == srid,
        out[0] == wkb[0],
        forall|k: int| 5 <= k < wkb.len() ==> out[k + 4] == #[trigger] wkb[k],
{
    law_a_word_is_the_value_of_its_bytes(out[5], out[6], out[7], out[8]);
    law_a_word_is_the_value_of_its_bytes(out[8], out[7], out[6], out[5]);
    assert forall|k: int| 5 <= k < wkb.len() implies out[k + 4] == #[trigger] wkb[k] by {
        assert(out.skip(9)[k - 5] == wkb.skip(5)[k - 5]);
    }
}

// ------------------------------------------------------------------------ types
/// A type word names its ordinates by its thousands: none for the plane, one for z, two for m, and
/// three for both.
pub proof fn law_the_thousands_name_the_ordinates(kind: u32)
    requires
        1 <= kind <= 7,
    ensures
        ordinates_of(kind) == Dimension::XY,
        ordinates_of((1000 + kind) as u32) == Dimension::XYZ,
        ordinates_of((2000 + kind) as u32) == Dimension::XYM,
        ordinates_of((3000 + kind) as u32) == Dimension::XYZM,
{
    assert(kind <= 7 ==> {
        &&& kind & 0x8000_0000u32 == 0 && kind & 0x4000_0000u32 == 0
        &&& (1000u32 + kind) as u32 & 0x8000_0000u32 == 0 && (1000u32 + kind) as u32 & 0x4000_0000u32
            == 0
        &&& (2000u32 + kind) as u32 & 0x8000_0000u32 == 0 && (2000u32 + kind) as u32 & 0x4000_0000u32
            == 0
        &&& (3000u32 + kind) as u32 & 0x8000_0000u32 == 0 && (3000u32 + kind) as u32 & 0x4000_0000u32
            == 0
    }) by (bit_vector);
}

/// A type word names its ordinates by its flags too: the highest bit for z, the next one for m.
pub proof fn law_the_flags_name_the_ordinates(kind: u32)
    requires
        1 <= kind <= 7,
    ensures
        ordinates_of(kind | 0x8000_0000u32) == Dimension::XYZ,
        ordinates_of(kind | 0x4000_0000u32) == Dimension::XYM,
        ordinates_of(kind | 0xC000_0000u32) == Dimension::XYZM,
{
    assert(kind <= 7 ==> {
        &&& (kind | 0x8000_0000u32) & 0x8000_0000u32 == 0x8000_0000u32
        &&& (kind | 0x8000_0000u32) & 0x4000_0000u32 == 0
        &&& (kind | 0x4000_0000u32) & 0x4000_0000u32 == 0x4000_0000u32
        &&& (kind | 0x4000_0000u32) & 0x8000_0000u32 == 0
        &&& (kind | 0xC000_0000u32) & 0x8000_0000u32 == 0x8000_0000u32
        &&& (kind | 0xC000_0000u32) & 0x4000_0000u32 == 0x4000_0000u32
    }) by (bit_vector);
}

/// True when a geometry of a kind starts at a byte, without an SRID.
pub open spec fn starts(bytes: Seq<u8>, at: int, kind: u32, dim: Dimension) -> bool {
    &&& 0 <= at < bytes.len()
    &&& bytes[at] <= 1
    &&& word_in(bytes, at + 1, bytes[at] == 1) matches Some(code) && {
        &&& code & 7 == kind
        &&& code & EWKB_SRID_FLAG != EWKB_SRID_FLAG
        &&& ordinates_of(code) == dim
    }
}

/// A point takes five bytes and eight for each ordinate. It has a coordinate as soon as one of them
/// is a number.
pub proof fn law_a_point_takes_its_ordinates(bytes: Seq<u8>, at: int, dim: Dimension)
    requires
        starts(bytes, at, 1, dim),
        bytes.len() <= usize::MAX,
    ensures
        part_walk(bytes, at) is Some == (at + 5 + 8 * dim.count() <= bytes.len()),
        part_walk(bytes, at) matches Some(part) ==> {
            &&& part.end == at + 5 + 8 * dim.count()
            &&& part.dim == dim
            &&& part.found == has_number(bytes, at + 5, bytes[at] == 1, dim.count())
            &&& part.entries == 2
        },
{
}

/// A line string takes nine bytes and eight for each ordinate of each vertex. It has a coordinate
/// unless it has no vertex.
pub proof fn law_a_line_takes_its_vertices(bytes: Seq<u8>, at: int, dim: Dimension, n: u32)
    requires
        starts(bytes, at, 2, dim),
        word_in(bytes, at + 5, bytes[at] == 1) == Some(n),
        bytes.len() <= usize::MAX,
    ensures
        part_walk(bytes, at) is Some == (at + 9 + n * (8 * dim.count()) <= bytes.len()),
        part_walk(bytes, at) matches Some(part) ==> {
            &&& part.end == at + 9 + n * (8 * dim.count())
            &&& part.dim == dim
            &&& part.found == (n > 0)
            &&& part.entries == n + 2
        },
{
    assert(n * (8 * dim.count()) >= n) by (nonlinear_arith)
        requires
            dim.count() >= 1,
            n >= 0,
    ;
}

/// A polygon or a list of nothing takes nine bytes and has no coordinate. No list is nested.
pub proof fn law_nothing_takes_nine_bytes(bytes: Seq<u8>, at: int, dim: Dimension, kind: u32)
    requires
        starts(bytes, at, kind, dim),
        word_in(bytes, at + 5, bytes[at] == 1) == Some(0u32),
        bytes.len() <= usize::MAX,
    ensures
        2 <= kind <= 6 ==> part_walk(bytes, at) is Some,
        2 <= kind <= 6 ==> part_walk(bytes, at)->0.end == at + 9,
        2 <= kind <= 6 ==> !part_walk(bytes, at)->0.found,
        kind == 7 || kind == 0 ==> part_walk(bytes, at) is None,
{
    assert(0 * (8 * dim.count()) == 0) by (nonlinear_arith);
}

// ---------------------------------------------------------------------- nesting
/// How many brackets a text opens from a byte on.
pub open spec fn opened(text: Seq<u8>, at: int) -> int
    decreases text.len() - at,
{
    if at < 0 || at >= text.len() {
        0
    } else {
        opened(text, at + 1) + if text[at] == OPEN {
            1int
        } else {
            0
        }
    }
}

proof fn lemma_deep_needs_brackets(text: Seq<u8>, at: int, open: int)
    requires
        is_deep_from(text, at, open),
        0 <= at,
    ensures
        open + opened(text, at) > MAX_BRACKETS,
    decreases text.len() - at,
{
    if at < text.len() {
        lemma_opened(text, at + 1);
        if text[at] == OPEN {
            if open < MAX_BRACKETS {
                lemma_deep_needs_brackets(text, at + 1, open + 1);
            }
        } else if text[at] == crate::layout::CLOSE {
            lemma_deep_needs_brackets(text, at + 1, open - 1);
        } else {
            lemma_deep_needs_brackets(text, at + 1, open);
        }
    }
}

proof fn lemma_opened(text: Seq<u8>, at: int)
    ensures
        opened(text, at) >= 0,
    decreases text.len() - at,
{
    if 0 <= at < text.len() {
        lemma_opened(text, at + 1);
    }
}

/// A text that opens no more than four brackets holds no nested collection.
pub proof fn law_few_brackets_are_not_deep(text: Seq<u8>)
    requires
        opened(text, 0) <= 4,
    ensures
        !is_deep(text),
{
    if is_deep(text) {
        lemma_deep_needs_brackets(text, 0, 0);
    }
}

/// A text that opens five brackets one in the other is deep, whatever stands behind them.
pub proof fn law_five_brackets_are_deep(text: Seq<u8>)
    requires
        text.len() >= 5,
        forall|k: int| 0 <= k < 5 ==> #[trigger] text[k] == OPEN,
    ensures
        is_deep(text),
{
    reveal_with_fuel(is_deep_from, 6);
    assert(text[0] == OPEN && text[1] == OPEN && text[2] == OPEN && text[3] == OPEN && text[4]
        == OPEN);
}

} // verus!
