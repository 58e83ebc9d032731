//! Rectangles of pixels.

use vstd::prelude::*;

verus! {

/// The size of a window or a surface in pixels.
#[derive(Clone, Copy, Debug, PartialEq, Eq, Structural, Default)]
pub struct Dims {
    pub w: u32,
    pub h: u32,
}

/// A rectangle of pixels: the column and the row of its top left corner, the
/// number of its columns and the number of its rows.
#[derive(Clone, Copy, Debug, PartialEq, Eq, Structural, Default)]
pub struct Rect {
    pub x: u32,
    pub y: u32,
    pub w: u32,
    pub h: u32,
}

/// `a + b`, or the largest number of 32 bits where that is less.
pub open spec fn capped(a: int, b: int) -> int {
    if a + b > u32::MAX {
        u32::MAX as int
    } else {
        a + b
    }
}

impl Rect {
    /// Column after the right edge. A rectangle does not reach beyond the
    /// last column that 32 bits can number.
    pub open spec fn right(self) -> int {
        capped(self.x as int, self.w as int)
    }

    /// Row after the bottom edge. A rectangle does not reach beyond the last
    /// row that 32 bits can number.
    pub open spec fn bottom(self) -> int {
        capped(self.y as int, self.h as int)
    }

    /// Whether the pixel in column `px` of row `py` lies in the rectangle.
    pub open spec fn contains(self, px: int, py: int) -> bool {
        self.x <= px < self.right() && self.y <= py < self.bottom()
    }

    /// Whether the rectangle has no pixel.
    pub open spec fn is_empty(self) -> bool {
        self.right() <= self.x || self.bottom() <= self.y
    }

    /// The rectangle moved `dx` columns to the right and `dy` rows down, as
    /// far as 32 bits can number its corner.
    pub open spec fn moved(self, dx: int, dy: int) -> Rect {
        Rect {
            x: capped(self.x as int, dx) as u32,
            y: capped(self.y as int, dy) as u32,
            w: self.w,
            h: self.h,
        }
    }

    /// The pixels that lie in both rectangles. Where there are none, the
    /// rectangle at the origin without columns and rows.
    pub open spec fn intersection(self, other: Rect) -> Rect {
        let x = if self.x > other.x {
            self.x
        } else {
            other.x
        };
        let y = if self.y > other.y {
            self.y
        } else {
            other.y
        };
        let x2 = if self.right() < other.right() {
            self.right()
        } else {
            other.right()
        };
        let y2 = if self.bottom() < other.bottom() {
            self.bottom()
        } else {
            other.bottom()
        };
        if x2 <= x || y2 <= y {
            Rect { x: 0, y: 0, w: 0, h: 0 }
        } else {
            Rect { x, y, w: (x2 - x) as u32, h: (y2 - y) as u32 }
        }
    }

    /// The part of this rectangle that `other` covers, where `other` is
    /// given relative to this rectangle's top left corner.
    pub open spec fn part(self, other: Rect) -> Rect {
        self.intersection(other.moved(self.x as int, self.y as int))
    }

    /// The rectangle of `w` columns and `h` rows with the top left corner in
    /// column `x` of row `y`.
    pub fn new(x: u32, y: u32, w: u32, h: u32) -> (r: Rect)
        ensures
            r == (Rect { x, y, w, h }),
    {
        Rect { x, y, w, h }
    }

    /// Column of the left edge.
    pub fn x(&self) -> (r: u32)
        ensures
            r == self.x,
    {
        self.x
    }

    /// Row of the top edge.
    pub fn y(&self) -> (r: u32)
        ensures
            r == self.y,
    {
        self.y
    }

    /// Number of columns.
    pub fn width(&self) -> (r: u32)
        ensures
            r == self.w,
    {
        self.w
    }

    /// Number of rows.
    pub fn height(&self) -> (r: u32)
        ensures
            r == self.h,
    {
        self.h
    }

    /// Column after the right edge.
    pub fn x2(&self) -> (r: u32)
        ensures
            r == self.right(),
    {
        if self.w > u32::MAX - self.x {
            u32::MAX
        } else {
            self.x + self.w
        }
    }

    /// Row after the bottom edge.
    pub fn y2(&self) -> (r: u32)
        ensures
            r == self.bottom(),
    {
        if self.h > u32::MAX - self.y {
            u32::MAX
        } else {
            self.y + self.h
        }
    }

    /// The pixels that lie in both rectangles. Where there are none, the
    /// rectangle at the origin without columns and rows.
    pub fn intersect(&self, other: &Rect) -> (r: Rect)
        ensures
            r == self.intersection(*other),
            forall|px: int, py: int|
                #[trigger] r.contains(px, py) <==> self.contains(px, py) && other.contains(px, py),
            r.is_empty() ==> r == (Rect { x: 0, y: 0, w: 0, h: 0 }),
            r.x + r.w == r.right(),
            r.y + r.h == r.bottom(),
    {
        let x = if self.x > other.x {
            self.x
        } else {
            other.x
        };
        let y = if self.y > other.y {
            self.y
        } else {
            other.y
        };
        let x2 = if self.x2() < other.x2() {
            self.x2()
        } else {
            other.x2()
        };
        let y2 = if self.y2() < other.y2() {
            self.y2()
        } else {
            other.y2()
        };
        if x2 <= x || y2 <= y {
            Rect { x: 0, y: 0, w: 0, h: 0 }
        } else {
            Rect { x, y, w: x2 - x, h: y2 - y }
        }
    }

    /// Moves the rectangle `dx` columns to the right and `dy` rows down, as
    /// far as 32 bits can number its corner.
    pub fn offset(&self, dx: u32, dy: u32) -> (r: Rect)
        ensures
            r == self.moved(dx as int, dy as int),
    {
        let x = if dx > u32::MAX - self.x {
            u32::MAX
        } else {
            self.x + dx
        };
        let y = if dy > u32::MAX - self.y {
            u32::MAX
        } else {
            self.y + dy
        };
        Rect { x, y, w: self.w, h: self.h }
    }

    /// The part of this rectangle that `other` covers, where `other` is
    /// given relative to this rectangle's top left corner.
    pub fn relative(&self, other: &Rect) -> (r: Rect)
        ensures
            r == self.part(*other),
            forall|px: int, py: int|
                #[trigger] r.contains(px, py) <==> self.contains(px, py) && other.moved(
                    self.x as int,
                    self.y as int,
                ).contains(px, py),
            r.is_empty() ==> r == (Rect { x: 0, y: 0, w: 0, h: 0 }),
            r.x + r.w == r.right(),
            r.y + r.h == r.bottom(),
    {
        self.intersect(&other.offset(self.x, self.y))
    }
}

} // verus!
