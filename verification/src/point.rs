//! Board coordinates and their algebraic notation (`"h8"`).

use vstd::prelude::*;
use crate::text::{chars_of, decimal, is_digit, lemma_decimal, lemma_trim_identity, parse_unsigned, parse_unsigned_from, push_char, push_decimal, trim, trim_chars};

verus! {

/// The largest board edge this engine supports.
pub const MAX_SIZE: u8 = 19;

/// A board intersection, addressed by zero-based column (`x`) and row (`y`).
///
/// The origin `(0, 0)` is the bottom-left corner: columns run `a..`
/// left-to-right and rows run `1..` bottom-to-top.
#[derive(Debug, Clone, Copy, PartialEq, Eq, Hash, Structural)]
pub struct Point {
    /// Zero-based column index, increasing left to right.
    pub x: u8,
    /// Zero-based row index, increasing bottom to top.
    pub y: u8,
}

/// The point `(x + dx, y + dy)` when both coordinates lie in `0..MAX_SIZE`.
pub open spec fn offset_point(p: Point, dx: int, dy: int) -> Option<Point> {
    let x = p.x + dx;
    let y = p.y + dy;
    if 0 <= x < MAX_SIZE && 0 <= y < MAX_SIZE {
        Some(Point { x: x as u8, y: y as u8 })
    } else {
        None
    }
}

/// The column of a letter: `a`/`A` is 0, ..., `z`/`Z` is 25.
pub open spec fn letter_index(c: char) -> Option<u8> {
    if 'a' <= c && c <= 'z' {
        Some((c as int - 'a' as int) as u8)
    } else if 'A' <= c && c <= 'Z' {
        Some((c as int - 'A' as int) as u8)
    } else {
        None
    }
}

/// What [`Point::parse`] gives for a string: after trimming whitespace, a
/// column letter (either case) followed by a 1-based row number as
/// `str::parse::<u32>` reads it, whose 0-based value fits in a `u8`.
pub open spec fn parse_point(s: Seq<char>) -> Option<Point> {
    let t = trim(s);
    if t.len() == 0 {
        None
    } else {
        match letter_index(t[0]) {
            None => None,
            Some(x) => match parse_unsigned(t.skip(1), u32::MAX as nat) {
                None => None,
                Some(row) => if row == 0 || row > 256 {
                    None
                } else {
                    Some(Point { x, y: (row - 1) as u8 })
                },
            },
        }
    }
}

/// The algebraic notation of a point: the column letter (`a` for column 0)
/// followed by the 1-based row number.
pub open spec fn point_text(p: Point) -> Seq<char> {
    seq![((p.x + 'a' as int) as u32) as char] + decimal((p.y + 1) as nat)
}

impl Point {
    /// Construct a point from its column (`x`) and row (`y`) indices.
    pub fn new(x: u8, y: u8) -> (p: Point)
        ensures
            p.x == x,
            p.y == y,
    {
        Point { x, y }
    }

    /// Offset this point by `(dx, dy)`, returning `None` if it would leave the
    /// coordinate space `0..MAX_SIZE` (including underflow below zero).
    pub fn offset(self, dx: i8, dy: i8) -> (r: Option<Point>)
        ensures
            r == offset_point(self, dx as int, dy as int),
    {
        let x: i16 = (self.x as i16) + dx as i16;
        let y: i16 = (self.y as i16) + dy as i16;
        if 0 <= x && x < MAX_SIZE as i16 && 0 <= y && y < MAX_SIZE as i16 {
            Some(Point::new(x as u8, y as u8))
        } else {
            None
        }
    }

    /// Parse algebraic coordinates such as `"h8"` or `"A1"`.
    ///
    /// Columns are letters `a..` (case-insensitive); rows are 1-based numbers.
    /// This is the inverse of [`Point::to_string`].
    pub fn parse(s: &str) -> (r: Option<Point>)
        ensures
            r == parse_point(s@),
    {
        let all = chars_of(s);
        Point::parse_chars(&all)
    }

    /// [`Point::parse`] on the characters of a string.
    pub fn parse_chars(all: &Vec<char>) -> (r: Option<Point>)
        ensures
            r == parse_point(all@),
    {
        let t = trim_chars(all);
        if t.len() == 0 {
            return None;
        }
        let c = t[0];
        let x: u8 = if 'a' <= c && c <= 'z' {
            ((c as u32) - 97) as u8
        } else if 'A' <= c && c <= 'Z' {
            ((c as u32) - 65) as u8
        } else {
            return None;
        };
        match parse_unsigned_from(&t, 1, u32::MAX) {
            None => None,
            Some(row) => {
                if row == 0 || row > 256 {
                    None
                } else {
                    Some(Point::new(x, (row - 1) as u8))
                }
            },
        }
    }

    /// The point in algebraic notation, e.g. `"h8"`: the inverse of
    /// [`Point::parse`]. Column letters past `z` continue through the
    /// following code points.
    pub fn to_string(&self) -> (s: String)
        requires
            self.x + 97 < 256,
        ensures
            s@ == point_text(*self),
    {
        let mut s = String::new();
        let b: u8 = 97u8 + self.x;
        push_char(&mut s, b as char);
        push_decimal(&mut s, self.y as u32 + 1);
        assert(s@ =~= point_text(*self));
        s
    }
}

/// Formatting a point and parsing the text back gives the same point, for
/// every point whose column has a letter (`a` to `z`).
pub proof fn lemma_point_text_round_trip(p: Point)
    requires
        p.x < 26,
    ensures
        parse_point(point_text(p)) == Some(p),
{
    let n = (p.y + 1) as nat;
    lemma_decimal(n);
    let t = point_text(p);
    let d = decimal(n);
    assert(is_digit(d[d.len() - 1]));
    assert(t.last() == d[d.len() - 1]);
    lemma_trim_identity(t);
    assert(t.skip(1) =~= d);
    assert(is_digit(d[0]));
}

} // verus!
