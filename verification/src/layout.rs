//! The layout of encoded geometries.
//!
//! A mixed column takes most values of Well-Known Text and Well-Known Binary, but not all: a
//! collection may hold no collection, its parts must agree on their ordinates, and a multi polygon
//! may hold no empty polygon. The walks below tell before a value is handed on.
//!
//! Well-Known Binary is read as the extended format writes it too: a type word with flags for z, m
//! and an SRID, and the SRID behind it.

use vstd::prelude::*;
use crate::column::Dimension;
use crate::io::{read_word, word_at, EWKB_SRID_FLAG};

verus! {

// ------------------------------------------------------------------------ text
/// How many brackets can be open at once in the text of a geometry: those of a collection, a multi
/// polygon, a polygon and a ring.
pub const MAX_BRACKETS: u32 = 4;

/// The byte of an opening bracket.
pub const OPEN: u8 = 0x28;

/// The byte of a closing bracket.
pub const CLOSE: u8 = 0x29;

/// The byte of a letter in lower case, whatever its case was.
pub open spec fn lowered(byte: u8) -> int {
    if 0x41 <= byte <= 0x5a {
        byte + 0x20
    } else {
        byte as int
    }
}

fn lower(byte: u8) -> (r: u8)
    ensures
        r == lowered(byte),
{
    if 0x41 <= byte && byte <= 0x5a {
        byte + 0x20
    } else {
        byte
    }
}

/// True when the word `EMPTY` ends at a byte. No other word of the format ends with its last three
/// letters.
pub open spec fn ends_empty(text: Seq<u8>, at: int) -> bool {
    &&& at >= 2
    &&& lowered(text[at - 2]) == 0x70
    &&& lowered(text[at - 1]) == 0x74
    &&& lowered(text[at]) == 0x79
}

/// True when the geometry that goes on at a byte opens more brackets than a geometry without a
/// nested collection can. It ends with its last bracket, or with the word `EMPTY` before the first.
pub open spec fn is_deep_from(text: Seq<u8>, at: int, open: int) -> bool
    decreases text.len() - at,
{
    if at < 0 || at >= text.len() {
        false
    } else if text[at] == OPEN {
        open >= MAX_BRACKETS || is_deep_from(text, at + 1, open + 1)
    } else if text[at] == CLOSE {
        open > 1 && is_deep_from(text, at + 1, open - 1)
    } else if open == 0 && ends_empty(text, at) {
        false
    } else {
        is_deep_from(text, at + 1, open)
    }
}

/// True when the geometry of a text opens more brackets than one without a nested collection can.
pub open spec fn is_deep(text: Seq<u8>) -> bool {
    is_deep_from(text, 0, 0)
}

/// Returns true when the geometry of a text opens more brackets than one without a nested
/// collection can.
pub fn nests_deep(text: &[u8]) -> (r: bool)
    ensures
        r == is_deep(text@),
{
    let mut open: u32 = 0;
    let mut at: usize = 0;
    while at < text.len()
        invariant
            at <= text@.len(),
            open <= MAX_BRACKETS,
            is_deep(text@) == is_deep_from(text@, at as int, open as int),
        decreases text@.len() - at,
    {
        let byte: u8 = text[at];
        if byte == OPEN {
            if open >= MAX_BRACKETS {
                return true;
            }
            open = open + 1;
        } else if byte == CLOSE {
            if open <= 1 {
                return false;
            }
            open = open - 1;
        } else if open == 0 && at >= 2 && lower(text[at - 2]) == 0x70 && lower(text[at - 1]) == 0x74
            && lower(byte) == 0x79 {
            return false;
        }
        at = at + 1;
    }
    false
}

// ---------------------------------------------------------------------- binary
/// Flag set in the WKB type word when the coordinates have a z ordinate.
pub const EWKB_Z_FLAG: u32 = 0x8000_0000;

/// Flag set in the WKB type word when the coordinates have a measure.
pub const EWKB_M_FLAG: u32 = 0x4000_0000;

/// The word that starts at a byte, where the value is long enough.
pub open spec fn word_in(bytes: Seq<u8>, at: int, little: bool) -> Option<u32> {
    if 0 <= at && at + 4 <= bytes.len() {
        Some(word_at(bytes, at, little))
    } else {
        None
    }
}

/// The word that starts at a byte, where the value is long enough.
fn word_of(bytes: &[u8], at: usize, little: bool) -> (r: Option<u32>)
    requires
        at <= bytes@.len(),
    ensures
        r == word_in(bytes@, at as int, little),
{
    if bytes.len() - at < 4 {
        None
    } else {
        Some(read_word(bytes, at, little))
    }
}

/// The ordinates that a type word names: by its thousands, or by its flags.
pub open spec fn ordinates_of(code: u32) -> Dimension {
    let z = code & EWKB_Z_FLAG == EWKB_Z_FLAG;
    let m = code & EWKB_M_FLAG == EWKB_M_FLAG;
    if z && m {
        Dimension::XYZM
    } else if z {
        Dimension::XYZ
    } else if m {
        Dimension::XYM
    } else if code / 1000 == 1 {
        Dimension::XYZ
    } else if code / 1000 == 2 {
        Dimension::XYM
    } else if code / 1000 == 3 {
        Dimension::XYZM
    } else {
        Dimension::XY
    }
}

fn ordinates(code: u32) -> (r: Dimension)
    ensures
        r == ordinates_of(code),
{
    let z = code & EWKB_Z_FLAG == EWKB_Z_FLAG;
    let m = code & EWKB_M_FLAG == EWKB_M_FLAG;
    if z && m {
        Dimension::XYZM
    } else if z {
        Dimension::XYZ
    } else if m {
        Dimension::XYM
    } else {
        match code / 1000 {
            1 => Dimension::XYZ,
            2 => Dimension::XYM,
            3 => Dimension::XYZM,
            _ => Dimension::XY,
        }
    }
}

/// Where the content of a geometry starts: behind its byte order, its type word and its SRID.
pub open spec fn content_at(bytes: Seq<u8>, at: int, little: bool) -> Option<int> {
    match word_in(bytes, at + 1, little) {
        Some(code) => if code & EWKB_SRID_FLAG == EWKB_SRID_FLAG {
            if at + 9 <= bytes.len() {
                Some(at + 9)
            } else {
                None
            }
        } else {
            Some(at + 5)
        },
        None => None,
    }
}

fn content(bytes: &[u8], at: usize, little: bool) -> (r: Option<usize>)
    requires
        at <= bytes@.len(),
    ensures
        match (r, content_at(bytes@, at as int, little)) {
            (Some(a), Some(b)) => a == b && a <= bytes@.len(),
            (None, None) => true,
            _ => false,
        },
{
    if at == bytes.len() {
        return None;
    }
    match word_of(bytes, at + 1, little) {
        Some(code) => if code & EWKB_SRID_FLAG == EWKB_SRID_FLAG {
            if bytes.len() - at < 9 {
                None
            } else {
                Some(at + 9)
            }
        } else {
            Some(at + 5)
        },
        None => None,
    }
}

/// What a walk over a part of a value found: where the part ends, whether it has a coordinate, and
/// how many entries it takes in the buffers of a column.
#[derive(Debug, Clone, Copy, PartialEq, Eq, Structural)]
pub struct Walk {
    /// Where the part ends.
    pub end: usize,
    /// Whether the part has a coordinate.
    pub found: bool,
    /// How many coordinates and lists it has.
    pub entries: usize,
}

/// The end of a part that has a coordinate or not, where the value is long enough.
pub open spec fn walk_to(bytes: Seq<u8>, end: int, found: bool, entries: int) -> Option<Walk> {
    if 0 <= end <= bytes.len() && end <= usize::MAX {
        Some(Walk { end: end as usize, found, entries: entries as usize })
    } else {
        None
    }
}

/// A count, and as many entries of `width` bytes.
pub open spec fn run_walk(bytes: Seq<u8>, at: int, little: bool, width: int) -> Option<Walk> {
    match word_in(bytes, at, little) {
        Some(count) => walk_to(bytes, at + 4 + count * width, count > 0, count + 1),
        None => None,
    }
}

fn walk_run(bytes: &[u8], at: usize, little: bool, width: usize) -> (r: Option<Walk>)
    requires
        at <= bytes@.len(),
        16 <= width <= 40,
    ensures
        r == run_walk(bytes@, at as int, little, width as int),
        r matches Some(walk) ==> walk.end <= bytes@.len() && at + walk.entries <= walk.end,
{
    match word_of(bytes, at, little) {
        Some(count) => {
            let size: u64 = {
                assert(count * width <= 0xffff_ffff * 40) by (nonlinear_arith)
                    requires
                        0 <= count <= 0xffff_ffff,
                        0 <= width <= 40,
                ;
                (count as u64) * (width as u64)
            };
            if ((bytes.len() - at - 4) as u64) < size {
                None
            } else {
                assert(count <= count * width) by (nonlinear_arith)
                    requires
                        0 <= count,
                        16 <= width,
                ;
                let entries: usize = count as usize + 1;
                Some(Walk { end: at + 4 + size as usize, found: count > 0, entries })
            }
        },
        None => None,
    }
}

/// The walk over `count` rings.
pub open spec fn rings_walk(
    bytes: Seq<u8>,
    at: int,
    little: bool,
    width: int,
    count: int,
    found: bool,
    entries: int,
) -> Option<Walk>
    decreases count,
{
    if count <= 0 {
        walk_to(bytes, at, found, entries)
    } else {
        match run_walk(bytes, at, little, width) {
            Some(walk) => rings_walk(
                bytes,
                walk.end as int,
                little,
                width,
                count - 1,
                found || walk.found,
                entries + walk.entries,
            ),
            None => None,
        }
    }
}

fn walk_rings(bytes: &[u8], start: usize, little: bool, width: usize, count: u32) -> (r: Option<
    Walk,
>)
    requires
        start <= bytes@.len(),
        16 <= width <= 40,
    ensures
        r == rings_walk(bytes@, start as int, little, width as int, count as int, false, 0),
        r matches Some(walk) ==> walk.end <= bytes@.len() && start + walk.entries <= walk.end,
{
    let mut at: usize = start;
    let mut found = false;
    let mut entries: usize = 0;
    let mut left: u32 = count;
    while left > 0
        invariant
            at <= bytes@.len(),
            16 <= width <= 40,
            start + entries <= at,
            rings_walk(bytes@, start as int, little, width as int, count as int, false, 0)
                == rings_walk(
                bytes@,
                at as int,
                little,
                width as int,
                left as int,
                found,
                entries as int,
            ),
        decreases left,
    {
        match walk_run(bytes, at, little, width) {
            Some(walk) => {
                at = walk.end;
                found = found || walk.found;
                entries = entries + walk.entries;
            },
            None => {
                return None;
            },
        }
        left = left - 1;
    }
    Some(Walk { end: at, found, entries })
}

/// The walk over a polygon. Nothing for one without a ring, where `full` asks for one.
pub open spec fn polygon_walk(
    bytes: Seq<u8>,
    at: int,
    little: bool,
    width: int,
    full: bool,
) -> Option<Walk> {
    match content_at(bytes, at, little) {
        Some(start) => match word_in(bytes, start, little) {
            Some(count) => if full && count == 0 {
                None
            } else {
                match rings_walk(bytes, start + 4, little, width, count as int, false, 0) {
                    Some(walk) => walk_to(bytes, walk.end as int, walk.found, walk.entries + 1),
                    None => None,
                }
            },
            None => None,
        },
        None => None,
    }
}

fn walk_polygon(bytes: &[u8], at: usize, little: bool, width: usize, full: bool) -> (r: Option<Walk>)
    requires
        at <= bytes@.len(),
        16 <= width <= 40,
    ensures
        r == polygon_walk(bytes@, at as int, little, width as int, full),
        r matches Some(walk) ==> walk.end <= bytes@.len() && at + 5 + walk.entries <= walk.end,
{
    let total: usize = bytes.len();
    match content(bytes, at, little) {
        Some(start) => match word_of(bytes, start, little) {
            Some(count) => if full && count == 0 {
                None
            } else {
                assert(start + 4 <= total);
                match walk_rings(bytes, start + 4, little, width, count) {
                    Some(walk) => Some(
                        Walk { end: walk.end, found: walk.found, entries: walk.entries + 1 },
                    ),
                    None => None,
                }
            },
            None => None,
        },
        None => None,
    }
}

/// The walk over a line string.
pub open spec fn line_walk(bytes: Seq<u8>, at: int, little: bool, width: int) -> Option<Walk> {
    match content_at(bytes, at, little) {
        Some(start) => run_walk(bytes, start, little, width),
        None => None,
    }
}

fn walk_line(bytes: &[u8], at: usize, little: bool, width: usize) -> (r: Option<Walk>)
    requires
        at <= bytes@.len(),
        16 <= width <= 40,
    ensures
        r == line_walk(bytes@, at as int, little, width as int),
        r matches Some(walk) ==> walk.end <= bytes@.len() && at + 5 + walk.entries <= walk.end,
{
    match content(bytes, at, little) {
        Some(start) => walk_run(bytes, start, little, width),
        None => None,
    }
}

/// The walk over `count` line strings, or polygons that each have a ring.
pub open spec fn members_walk(
    bytes: Seq<u8>,
    at: int,
    little: bool,
    width: int,
    polygons: bool,
    count: int,
    found: bool,
    entries: int,
) -> Option<Walk>
    decreases count,
{
    if count <= 0 {
        walk_to(bytes, at, found, entries)
    } else {
        let member = if polygons {
            polygon_walk(bytes, at, little, width, true)
        } else {
            line_walk(bytes, at, little, width)
        };
        match member {
            Some(walk) => members_walk(
                bytes,
                walk.end as int,
                little,
                width,
                polygons,
                count - 1,
                found || walk.found,
                entries + walk.entries,
            ),
            None => None,
        }
    }
}

fn walk_members(
    bytes: &[u8],
    start: usize,
    little: bool,
    width: usize,
    polygons: bool,
    count: u32,
) -> (r: Option<Walk>)
    requires
        start <= bytes@.len(),
        16 <= width <= 40,
    ensures
        r == members_walk(
            bytes@,
            start as int,
            little,
            width as int,
            polygons,
            count as int,
            false,
            0,
        ),
        r matches Some(walk) ==> walk.end <= bytes@.len() && start + walk.entries <= walk.end,
{
    let mut at: usize = start;
    let mut found = false;
    let mut entries: usize = 0;
    let mut left: u32 = count;
    while left > 0
        invariant
            at <= bytes@.len(),
            16 <= width <= 40,
            start + entries <= at,
            members_walk(
                bytes@,
                start as int,
                little,
                width as int,
                polygons,
                count as int,
                false,
                0,
            ) == members_walk(
                bytes@,
                at as int,
                little,
                width as int,
                polygons,
                left as int,
                found,
                entries as int,
            ),
        decreases left,
    {
        let member = if polygons {
            walk_polygon(bytes, at, little, width, true)
        } else {
            walk_line(bytes, at, little, width)
        };
        match member {
            Some(walk) => {
                at = walk.end;
                found = found || walk.found;
                entries = entries + walk.entries;
            },
            None => {
                return None;
            },
        }
        left = left - 1;
    }
    Some(Walk { end: at, found, entries })
}

/// True when the number that starts at a byte is not a number.
pub open spec fn is_nan_at(bytes: Seq<u8>, at: int, little: bool) -> bool {
    let high = word_at(bytes, if little { at + 4 } else { at }, little) & 0x7fff_ffff;
    let low = word_at(bytes, if little { at } else { at + 4 }, little);
    high > 0x7ff0_0000 || (high == 0x7ff0_0000 && low != 0)
}

/// True when one of `count` numbers from a byte on is a number.
pub open spec fn has_number(bytes: Seq<u8>, at: int, little: bool, count: int) -> bool
    decreases count,
{
    count > 0 && (!is_nan_at(bytes, at, little) || has_number(bytes, at + 8, little, count - 1))
}

fn holds_number(bytes: &[u8], at: usize, little: bool, count: usize) -> (r: bool)
    requires
        at + 8 * count <= bytes@.len(),
    ensures
        r == has_number(bytes@, at as int, little, count as int),
    decreases count,
{
    let total: usize = bytes.len();
    if count == 0 {
        return false;
    }
    assert(at + 8 <= total);
    let first: u32 = read_word(bytes, at, little);
    let second: u32 = read_word(bytes, at + 4, little);
    let (high, low): (u32, u32) = if little {
        (second & 0x7fff_ffff, first)
    } else {
        (first & 0x7fff_ffff, second)
    };
    if !(high > 0x7ff0_0000 || (high == 0x7ff0_0000 && low != 0)) {
        return true;
    }
    holds_number(bytes, at + 8, little, count - 1)
}

/// The walk over a point. A point without a number has no coordinate.
pub open spec fn point_walk(bytes: Seq<u8>, at: int, little: bool, dim: Dimension) -> Option<Walk> {
    match content_at(bytes, at, little) {
        Some(start) => walk_to(
            bytes,
            start + 8 * dim.count(),
            has_number(bytes, start, little, dim.count()),
            1,
        ),
        None => None,
    }
}

fn walk_point(bytes: &[u8], at: usize, little: bool, dim: Dimension) -> (r: Option<Walk>)
    requires
        at <= bytes@.len(),
    ensures
        r == point_walk(bytes@, at as int, little, dim),
        r matches Some(walk) ==> walk.end <= bytes@.len() && at + walk.entries <= walk.end,
{
    match content(bytes, at, little) {
        Some(start) => {
            let size: usize = 8 * dim.size();
            if bytes.len() - start < size {
                None
            } else {
                let found = holds_number(bytes, start, little, dim.size());
                Some(Walk { end: start + size, found, entries: 1 })
            }
        },
        None => None,
    }
}

/// The walk over `count` points of a multi point, each `step` bytes after the one before it. The
/// last of them ends with its step.
pub open spec fn points_walk(
    bytes: Seq<u8>,
    at: int,
    little: bool,
    dim: Dimension,
    step: int,
    count: int,
    found: bool,
    entries: int,
) -> Option<Walk>
    decreases count,
{
    if count <= 0 {
        walk_to(bytes, at, found, entries)
    } else {
        match point_walk(bytes, at, little, dim) {
            Some(walk) => if count > 1 || walk.end == at + step {
                points_walk(
                    bytes,
                    at + step,
                    little,
                    dim,
                    step,
                    count - 1,
                    found || walk.found,
                    entries + 1,
                )
            } else {
                None
            },
            None => None,
        }
    }
}

fn walk_points(bytes: &[u8], start: usize, little: bool, dim: Dimension, count: u32) -> (r: Option<
    Walk,
>)
    requires
        start <= bytes@.len(),
    ensures
        r == points_walk(
            bytes@,
            start as int,
            little,
            dim,
            5 + 8 * dim.count(),
            count as int,
            false,
            0,
        ),
        r matches Some(walk) ==> walk.end <= bytes@.len() && start + walk.entries <= walk.end,
{
    let step: usize = 5 + 8 * dim.size();
    let mut at: usize = start;
    let mut found = false;
    let mut entries: usize = 0;
    let mut left: u32 = count;
    while left > 0
        invariant
            at <= bytes@.len(),
            step == 5 + 8 * dim.count(),
            start + entries <= at,
            points_walk(
                bytes@,
                start as int,
                little,
                dim,
                step as int,
                count as int,
                false,
                0,
            ) == points_walk(
                bytes@,
                at as int,
                little,
                dim,
                step as int,
                left as int,
                found,
                entries as int,
            ),
        decreases left,
    {
        match walk_point(bytes, at, little, dim) {
            Some(walk) => {
                if left == 1 && walk.end - at != step {
                    return None;
                }
                at = at + step;
                found = found || walk.found;
                entries = entries + 1;
            },
            None => {
                return None;
            },
        }
        left = left - 1;
    }
    Some(Walk { end: at, found, entries })
}

/// What a walk over a geometry found, and which ordinates its coordinates have.
#[derive(Debug, Clone, Copy, PartialEq, Eq, Structural)]
pub struct Part {
    /// Where the geometry ends.
    pub end: usize,
    /// Whether it has a coordinate.
    pub found: bool,
    /// Which ordinates its coordinates have.
    pub dim: Dimension,
    /// How many coordinates and lists it has, and one for itself.
    pub entries: usize,
}

/// The walk over a geometry that is no collection.
pub open spec fn part_walk(bytes: Seq<u8>, at: int) -> Option<Part> {
    if at < 0 || at >= bytes.len() || bytes[at] > 1 {
        None
    } else {
        let little = bytes[at] == 1;
        match (word_in(bytes, at + 1, little), content_at(bytes, at, little)) {
            (Some(code), Some(start)) => {
                let dim = ordinates_of(code);
                let width = 8 * dim.count();
                let count = word_in(bytes, start, little);
                let kind = code & 7;
                let walk = if kind == 1 {
                    point_walk(bytes, at, little, dim)
                } else if kind == 2 {
                    line_walk(bytes, at, little, width)
                } else if kind == 3 {
                    polygon_walk(bytes, at, little, width, false)
                } else if kind == 4 && count is Some {
                    points_walk(
                        bytes,
                        start + 4,
                        little,
                        dim,
                        5 + width,
                        count->0 as int,
                        false,
                        0,
                    )
                } else if (kind == 5 || kind == 6) && count is Some {
                    members_walk(
                        bytes,
                        start + 4,
                        little,
                        width,
                        kind == 6,
                        count->0 as int,
                        false,
                        0,
                    )
                } else {
                    None
                };
                match walk {
                    Some(walk) => Some(
                        Part {
                            end: walk.end,
                            found: walk.found,
                            dim,
                            entries: (walk.entries + 1) as usize,
                        },
                    ),
                    None => None,
                }
            },
            _ => None,
        }
    }
}

fn walk_part(bytes: &[u8], at: usize) -> (r: Option<Part>)
    requires
        at <= bytes@.len(),
    ensures
        r == part_walk(bytes@, at as int),
        r matches Some(part) ==> part.end <= bytes@.len() && at + part.entries <= part.end,
{
    if at == bytes.len() || bytes[at] > 1 {
        return None;
    }
    let little = bytes[at] == 1;
    let code: u32 = match word_of(bytes, at + 1, little) {
        Some(code) => code,
        None => {
            return None;
        },
    };
    let start: usize = match content(bytes, at, little) {
        Some(start) => start,
        None => {
            return None;
        },
    };
    let dim = ordinates(code);
    let width: usize = 8 * dim.size();
    let count = word_of(bytes, start, little);
    let kind: u32 = code & 7;
    let walk = if kind == 1 {
        walk_point(bytes, at, little, dim)
    } else if kind == 2 {
        walk_line(bytes, at, little, width)
    } else if kind == 3 {
        walk_polygon(bytes, at, little, width, false)
    } else {
        match count {
            Some(count) => if kind == 4 {
                walk_points(bytes, start + 4, little, dim, count)
            } else if kind == 5 || kind == 6 {
                walk_members(bytes, start + 4, little, width, kind == 6, count)
            } else {
                None
            },
            None => None,
        }
    };
    match walk {
        Some(walk) => Some(
            Part { end: walk.end, found: walk.found, dim, entries: walk.entries + 1 },
        ),
        None => None,
    }
}

/// The entries of `count` geometries that follow one another, and of those before them. Nothing where
/// one of them is a collection. Where `dim` is given, each of them that has a coordinate has these
/// ordinates.
pub open spec fn parts_walk(
    bytes: Seq<u8>,
    at: int,
    dim: Option<Dimension>,
    count: int,
    entries: int,
) -> Option<nat>
    decreases count,
{
    if count <= 0 {
        Some(entries as nat)
    } else {
        match part_walk(bytes, at) {
            Some(part) => if part.found && dim is Some && dim != Some(part.dim) {
                None
            } else {
                parts_walk(bytes, part.end as int, dim, count - 1, entries + part.entries)
            },
            None => None,
        }
    }
}

/// How many entries an encoded value takes in the buffers of a mixed column: its coordinates, its
/// lists and its parts. Nothing for a value that such a column cannot take.
///
/// It takes a geometry of one type, or a collection of such. The parts of a collection have its
/// ordinates, except of one with a single part, which stands for the part.
pub open spec fn entries_of(bytes: Seq<u8>) -> Option<nat> {
    if part_walk(bytes, 0) is Some {
        Some(part_walk(bytes, 0)->0.entries as nat)
    } else if bytes.len() == 0 || bytes[0] > 1 {
        None
    } else {
        let little = bytes[0] == 1;
        match (word_in(bytes, 1, little), content_at(bytes, 0, little)) {
            (Some(code), Some(start)) => {
                let count = word_in(bytes, start, little);
                let dim = if count == Some(1u32) {
                    None
                } else {
                    Some(ordinates_of(code))
                };
                if code & 7 == 7 && count is Some {
                    parts_walk(bytes, start + 4, dim, count->0 as int, 0)
                } else {
                    None
                }
            },
            _ => None,
        }
    }
}

/// True when a mixed column can take an encoded value.
pub open spec fn is_takeable(bytes: Seq<u8>) -> bool {
    entries_of(bytes) is Some
}

/// How many entries an encoded value takes in the buffers of a mixed column. Nothing for a value
/// that such a column cannot take.
pub fn entries(bytes: &[u8]) -> (r: Option<usize>)
    ensures
        match (r, entries_of(bytes@)) {
            (Some(a), Some(b)) => a == b && a <= bytes@.len(),
            (None, None) => true,
            _ => false,
        },
{
    if let Some(part) = walk_part(bytes, 0) {
        return Some(part.entries);
    }
    if bytes.len() == 0 || bytes[0] > 1 {
        return None;
    }
    let little = bytes[0] == 1;
    let code: u32 = match word_of(bytes, 1, little) {
        Some(code) => code,
        None => {
            return None;
        },
    };
    let start: usize = match content(bytes, 0, little) {
        Some(start) => start,
        None => {
            return None;
        },
    };
    let count: u32 = match word_of(bytes, start, little) {
        Some(count) => count,
        None => {
            return None;
        },
    };
    if code & 7 != 7 {
        return None;
    }
    let dim: Option<Dimension> = if count == 1 {
        None
    } else {
        Some(ordinates(code))
    };
    let mut at: usize = start + 4;
    let mut found: usize = 0;
    let mut left: u32 = count;
    while left > 0
        invariant
            at <= bytes@.len(),
            found <= at,
            entries_of(bytes@) == parts_walk(
                bytes@,
                at as int,
                dim,
                left as int,
                found as int,
            ),
        decreases left,
    {
        match walk_part(bytes, at) {
            Some(part) => {
                if part.found {
                    if let Some(dim) = dim {
                        if dim != part.dim {
                            return None;
                        }
                    }
                }
                at = part.end;
                found = found + part.entries;
            },
            None => {
                return None;
            },
        }
        left = left - 1;
    }
    Some(found)
}

/// Returns true when a mixed column can take an encoded value.
pub fn takes(bytes: &[u8]) -> (r: bool)
    ensures
        r == is_takeable(bytes@),
{
    entries(bytes).is_some()
}

} // verus!
