//! Cell coordinates and inclusive rectangles.

use vstd::prelude::*;
use vstd::string::*;
use std::ops::Range;
use crate::values::ArraySize;
use crate::text::{spec_column_name, signed_decimal, column_name, signed_decimal_string};

verus! {

/// Side length of a quadrant, the unit in which cells are grouped for rendering.
pub const QUADRANT_SIZE: i64 = 16;

/// Cell position `(x, y)`: `x` is the column, `y` is the row.
#[derive(Debug, Clone, Copy, PartialEq, Eq, Hash, PartialOrd, Ord, Structural)]
pub struct Pos {
    pub x: i64,
    pub y: i64,
}

/// Rectangular region of cells; both corners are included.
#[derive(Debug, Clone, Copy, PartialEq, Eq, Hash, PartialOrd, Ord, Structural)]
pub struct Rect {
    /// Upper-left corner.
    pub min: Pos,
    /// Lower-right corner.
    pub max: Pos,
}

/// The quadrant of a coordinate: the coordinate divided by the quadrant
/// size, rounded towards negative infinity.
pub open spec fn quadrant_of(a: int) -> int {
    a / (QUADRANT_SIZE as int)
}

impl Pos {
    /// The cell at column 0, row 0.
    pub fn origin() -> (p: Pos)
        ensures
            p == (Pos { x: 0, y: 0 }),
    {
        Pos { x: 0, y: 0 }
    }

    /// Returns which quadrant the cell position is in: each coordinate divided
    /// by the quadrant size, rounded towards negative infinity.
    pub fn quadrant(self) -> (q: (i64, i64))
        ensures
            q.0 == quadrant_of(self.x as int),
            q.1 == quadrant_of(self.y as int),
    {
        (quadrant_index(self.x), quadrant_index(self.y))
    }

    /// Returns an A1-style reference to the cell position: the name of the
    /// column followed by the number of the row.
    pub fn a1_string(self) -> (r: String)
        ensures
            r@ == spec_column_name(self.x as int) + signed_decimal(self.y as int),
    {
        let mut r: String = column_name(self.x);
        r.append(signed_decimal_string(self.y).as_str());
        r
    }

    /// The position with the given column and row.
    pub fn from_pair(pos: (i64, i64)) -> (p: Pos)
        ensures
            p == (Pos { x: pos.0, y: pos.1 }),
    {
        Pos { x: pos.0, y: pos.1 }
    }
}

/// The quadrant of a coordinate.
fn quadrant_index(a: i64) -> (q: i64)
    ensures
        q == quadrant_of(a as int),
{
    if a >= 0 {
        a / QUADRANT_SIZE
    } else {
        // below zero the quotient of the mirrored coordinate is mirrored back
        let mirrored: i64 = -(a + 1);
        -(mirrored / QUADRANT_SIZE) - 1
    }
}

impl Rect {
    /// The number of columns `min.x ..= max.x` holds, as an integer.
    pub open spec fn spec_width(self) -> int {
        self.max.x - self.min.x + 1
    }

    /// The number of rows `min.y ..= max.y` holds, as an integer.
    pub open spec fn spec_height(self) -> int {
        self.max.y - self.min.y + 1
    }

    /// Whether `pos` lies inside the rectangle, corners included.
    pub open spec fn spec_contains(self, pos: Pos) -> bool {
        self.min.x <= pos.x <= self.max.x && self.min.y <= pos.y <= self.max.y
    }

    /// Constructs the smallest rectangle that holds both positions.
    pub fn new_span(pos1: Pos, pos2: Pos) -> (r: Rect)
        ensures
            r.min.x == if pos1.x <= pos2.x { pos1.x } else { pos2.x },
            r.min.y == if pos1.y <= pos2.y { pos1.y } else { pos2.y },
            r.max.x == if pos1.x <= pos2.x { pos2.x } else { pos1.x },
            r.max.y == if pos1.y <= pos2.y { pos2.y } else { pos1.y },
    {
        Rect {
            min: Pos {
                x: if pos1.x <= pos2.x { pos1.x } else { pos2.x },
                y: if pos1.y <= pos2.y { pos1.y } else { pos2.y },
            },
            max: Pos {
                x: if pos1.x <= pos2.x { pos2.x } else { pos1.x },
                y: if pos1.y <= pos2.y { pos2.y } else { pos1.y },
            },
        }
    }

    /// Constructs a new rectangle containing only a single cell.
    pub fn single_pos(pos: Pos) -> (r: Rect)
        ensures
            r == (Rect { min: pos, max: pos }),
    {
        Rect { min: pos, max: pos }
    }

    /// Extends the rectangle enough to include a cell.
    pub fn extend_to(&mut self, pos: Pos)
        ensures
            final(self).min.x == if old(self).min.x <= pos.x { old(self).min.x } else { pos.x },
            final(self).min.y == if old(self).min.y <= pos.y { old(self).min.y } else { pos.y },
            final(self).max.x == if old(self).max.x >= pos.x { old(self).max.x } else { pos.x },
            final(self).max.y == if old(self).max.y >= pos.y { old(self).max.y } else { pos.y },
    {
        if pos.x < self.min.x {
            self.min.x = pos.x;
        }
        if pos.y < self.min.y {
            self.min.y = pos.y;
        }
        if pos.x > self.max.x {
            self.max.x = pos.x;
        }
        if pos.y > self.max.y {
            self.max.y = pos.y;
        }
    }

    /// Constructs a rectangle from an X range and a Y range, each without its
    /// end.
    pub fn from_ranges(xs: Range<i64>, ys: Range<i64>) -> (r: Rect)
        requires
            xs.end > i64::MIN,
            ys.end > i64::MIN,
        ensures
            r.min == (Pos { x: xs.start, y: ys.start }),
            r.max == (Pos { x: (xs.end - 1) as i64, y: (ys.end - 1) as i64 }),
    {
        Rect {
            min: Pos { x: xs.start, y: ys.start },
            max: Pos { x: xs.end - 1, y: ys.end - 1 },
        }
    }

    /// The size of the rectangle, which must hold a cell and must not be
    /// wider or higher than a `u32` can say.
    pub fn size(self) -> (s: ArraySize)
        requires
            1 <= self.spec_width() <= u32::MAX,
            1 <= self.spec_height() <= u32::MAX,
        ensures
            s.wf(),
            s.w == self.spec_width(),
            s.h == self.spec_height(),
    {
        let w: i128 = self.max.x as i128 - self.min.x as i128 + 1;
        let h: i128 = self.max.y as i128 - self.min.y as i128 + 1;
        ArraySize { w: w as u32, h: h as u32 }
    }

    /// Returns the range of X values in the rectangle.
    pub fn x_range(self) -> (r: Range<i64>)
        requires
            self.max.x < i64::MAX,
        ensures
            r.start == self.min.x,
            r.end == self.max.x + 1,
    {
        self.min.x..self.max.x + 1
    }

    /// Returns the range of Y values in the rectangle.
    pub fn y_range(self) -> (r: Range<i64>)
        requires
            self.max.y < i64::MAX,
        ensures
            r.start == self.min.y,
            r.end == self.max.y + 1,
    {
        self.min.y..self.max.y + 1
    }

    /// Returns whether a position is contained within the rectangle.
    pub fn contains(self, pos: Pos) -> (b: bool)
        ensures
            b == self.spec_contains(pos),
    {
        self.min.x <= pos.x && pos.x <= self.max.x && self.min.y <= pos.y && pos.y <= self.max.y
    }

    /// Returns the width of the region, which must not be wider than a `u32`
    /// can say.
    pub fn width(&self) -> (w: u32)
        requires
            0 <= self.spec_width() <= u32::MAX,
        ensures
            w == self.spec_width(),
    {
        let w: i128 = self.max.x as i128 - self.min.x as i128 + 1;
        w as u32
    }

    /// Returns the height of the region, which must not be higher than a
    /// `u32` can say.
    pub fn height(&self) -> (h: u32)
        requires
            0 <= self.spec_height() <= u32::MAX,
        ensures
            h == self.spec_height(),
    {
        let h: i128 = self.max.y as i128 - self.min.y as i128 + 1;
        h as u32
    }

    /// Returns the width of the region, or `None` when the rectangle is empty
    /// (`max.x < min.x`) or wider than a `u32` can say.
    pub fn checked_width(&self) -> (w: Option<u32>)
        ensures
            w is Some <==> 1 <= self.spec_width() <= u32::MAX,
            w is Some ==> w->Some_0 == self.spec_width(),
    {
        span_len(self.min.x, self.max.x)
    }

    /// Returns the height of the region, or `None` when the rectangle is
    /// empty (`max.y < min.y`) or higher than a `u32` can say.
    pub fn checked_height(&self) -> (h: Option<u32>)
        ensures
            h is Some <==> 1 <= self.spec_height() <= u32::MAX,
            h is Some ==> h->Some_0 == self.spec_height(),
    {
        span_len(self.min.y, self.max.y)
    }
}

/// Number of integers in `lo ..= hi`, where it is positive and fits a `u32`.
fn span_len(lo: i64, hi: i64) -> (n: Option<u32>)
    ensures
        n is Some <==> 1 <= hi - lo + 1 <= u32::MAX,
        n is Some ==> n->Some_0 == hi - lo + 1,
{
    if hi < lo {
        return None;
    }
    let d: i128 = hi as i128 - lo as i128 + 1;
    if d > u32::MAX as i128 {
        None
    } else {
        Some(d as u32)
    }
}

} // verus!
