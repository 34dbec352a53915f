//! Rectangles in logical coordinates.

use vstd::prelude::*;

verus! {

/// A rectangle in compositor space, given by its upper left corner and its size.
#[derive(Clone, Copy, Debug, PartialEq, Eq, Structural)]
pub struct LogicalRect {
    pub x: i32,
    pub y: i32,
    pub width: i32,
    pub height: i32,
}

impl LogicalRect {
    /// The first column to the right of the rectangle.
    pub open spec fn right(self) -> int {
        self.x + self.width
    }

    /// The first row below the rectangle.
    pub open spec fn bottom(self) -> int {
        self.y + self.height
    }

    /// The pixel at column `px` and row `py` lies in the rectangle.
    pub open spec fn contains(self, px: int, py: int) -> bool {
        self.x <= px < self.right() && self.y <= py < self.bottom()
    }

    /// No pixel lies in the rectangle.
    pub open spec fn is_void(self) -> bool {
        self.width <= 0 || self.height <= 0
    }

    /// The far edges can be written as coordinates.
    pub open spec fn edges_fit(self) -> bool {
        i32::MIN <= self.right() <= i32::MAX && i32::MIN <= self.bottom() <= i32::MAX
    }

    /// The rectangle moved by a distance.
    pub open spec fn moved(self, dx: int, dy: int) -> LogicalRect {
        LogicalRect { x: (self.x + dx) as i32, y: (self.y + dy) as i32, ..self }
    }

    /// The corner of the moved rectangle can be written.
    pub open spec fn moves(self, dx: int, dy: int) -> bool {
        i32::MIN <= self.x + dx <= i32::MAX && i32::MIN <= self.y + dy <= i32::MAX
    }

    /// The rectangle as seen from the corner of another one.
    pub open spec fn relative_to(self, origin: LogicalRect) -> LogicalRect {
        self.moved(-origin.x, -origin.y)
    }

    /// Moves the rectangle.
    pub fn translate(self, dx: i32, dy: i32) -> (rect: LogicalRect)
        requires
            self.moves(dx as int, dy as int),
        ensures
            rect == self.moved(dx as int, dy as int),
    {
        LogicalRect { x: self.x + dx, y: self.y + dy, width: self.width, height: self.height }
    }

    /// The rectangle in coordinates whose origin is the corner of another one.
    pub fn localize(self, origin: LogicalRect) -> (rect: LogicalRect)
        requires
            self.moves(-origin.x, -origin.y),
        ensures
            rect == self.relative_to(origin),
    {
        LogicalRect {
            x: self.x - origin.x,
            y: self.y - origin.y,
            width: self.width,
            height: self.height,
        }
    }

    /// The rectangle with the given corner and size.
    pub fn new(x: i32, y: i32, width: i32, height: i32) -> (rect: LogicalRect)
        ensures
            rect == (LogicalRect { x, y, width, height }),
    {
        LogicalRect { x, y, width, height }
    }
}

/// A rectangle in physical pixels of an output.
#[derive(Clone, Copy, Debug, PartialEq, Eq, Structural)]
pub struct PhysicalRect {
    pub x: i32,
    pub y: i32,
    pub width: i32,
    pub height: i32,
}

impl PhysicalRect {
    /// The first column to the right of the rectangle.
    pub open spec fn right(self) -> int {
        self.x + self.width
    }

    /// The first row below the rectangle.
    pub open spec fn bottom(self) -> int {
        self.y + self.height
    }

    /// The pixel at column `px` and row `py` lies in the rectangle.
    pub open spec fn contains(self, px: int, py: int) -> bool {
        self.x <= px < self.right() && self.y <= py < self.bottom()
    }

    /// No pixel lies in the rectangle.
    pub open spec fn is_void(self) -> bool {
        self.width <= 0 || self.height <= 0
    }

    /// The far edges can be written as coordinates.
    pub open spec fn edges_fit(self) -> bool {
        i32::MIN <= self.right() <= i32::MAX && i32::MIN <= self.bottom() <= i32::MAX
    }

    /// The rectangle with the given corner and size.
    pub fn new(x: i32, y: i32, width: i32, height: i32) -> (rect: PhysicalRect)
        ensures
            rect == (PhysicalRect { x, y, width, height }),
    {
        PhysicalRect { x, y, width, height }
    }

    /// Moves the rectangle.
    pub fn translate(self, dx: i32, dy: i32) -> (rect: PhysicalRect)
        requires
            i32::MIN <= self.x + dx <= i32::MAX,
            i32::MIN <= self.y + dy <= i32::MAX,
        ensures
            rect == (PhysicalRect { x: (self.x + dx) as i32, y: (self.y + dy) as i32, ..self }),
    {
        PhysicalRect { x: self.x + dx, y: self.y + dy, width: self.width, height: self.height }
    }
}

/// The larger of two coordinates.
pub open spec fn larger(a: int, b: int) -> int {
    if a >= b {
        a
    } else {
        b
    }
}

/// The smaller of two coordinates.
pub open spec fn smaller(a: int, b: int) -> int {
    if a <= b {
        a
    } else {
        b
    }
}

/// The coordinate nearest to a number.
pub open spec fn saturated(n: int) -> int {
    if n > i32::MAX {
        i32::MAX as int
    } else if n < i32::MIN {
        i32::MIN as int
    } else {
        n
    }
}

/// The sum of two coordinates, cut off at the largest and the smallest one.
pub fn saturating_sum(a: i32, b: i32) -> (sum: i32)
    ensures
        sum == saturated(a + b),
{
    let wide: i64 = a as i64 + b as i64;
    if wide > i32::MAX as i64 {
        i32::MAX
    } else if wide < i32::MIN as i64 {
        i32::MIN
    } else {
        wide as i32
    }
}

/// The larger of two coordinates.
pub fn max_i32(a: i32, b: i32) -> (m: i32)
    ensures
        m == larger(a as int, b as int),
{
    if a >= b {
        a
    } else {
        b
    }
}

/// The smaller of two coordinates.
pub fn min_i32(a: i32, b: i32) -> (m: i32)
    ensures
        m == smaller(a as int, b as int),
{
    if a <= b {
        a
    } else {
        b
    }
}

/// A rectangle that is moved covers the pixels that it covered before, each moved by the same distance, and
/// moving it back gives the rectangle that it was.
pub proof fn law_moving_moves_every_pixel(rect: LogicalRect, dx: int, dy: int, px: int, py: int)
    requires
        rect.moves(dx, dy),
    ensures
        rect.moved(dx, dy).contains(px + dx, py + dy) == rect.contains(px, py),
        rect.moved(dx, dy).moved(-dx, -dy) == rect,
        rect.moved(dx, dy).width == rect.width && rect.moved(dx, dy).height == rect.height,
{
}

/// As seen from the corner of another rectangle, a rectangle covers the pixels that lie as far from that
/// corner as those that it covers.
pub proof fn law_pixels_seen_from_a_corner(rect: LogicalRect, origin: LogicalRect, px: int, py: int)
    requires
        rect.moves(-origin.x, -origin.y),
    ensures
        rect.relative_to(origin).contains(px - origin.x, py - origin.y) == rect.contains(px, py),
        rect.relative_to(origin).moved(origin.x as int, origin.y as int) == rect,
        rect == origin ==> rect.relative_to(origin).x == 0 && rect.relative_to(origin).y == 0,
{
}

/// A rectangle without pixels covers none, and every other one covers its corner, and none at its far edges.
pub proof fn law_void_rectangles_cover_nothing(rect: LogicalRect, px: int, py: int)
    ensures
        rect.is_void() ==> !rect.contains(px, py),
        !rect.is_void() ==> rect.contains(rect.x as int, rect.y as int),
        !rect.contains(rect.x + rect.width, py) && !rect.contains(px, rect.y + rect.height),
{
}

/// The larger and the smaller of two numbers are the two numbers, in their order.
pub proof fn law_larger_and_smaller(a: int, b: int)
    ensures
        smaller(a, b) <= a <= larger(a, b),
        smaller(a, b) <= b <= larger(a, b),
        smaller(a, b) + larger(a, b) == a + b,
        smaller(a, b) == a || smaller(a, b) == b,
{
}

/// A number that is a coordinate stays as it is, and no coordinate lies nearer to another number than the
/// one that it is cut off at.
pub proof fn law_saturated_is_nearest(n: int, other: i32)
    ensures
        i32::MIN <= saturated(n) <= i32::MAX,
        i32::MIN <= n <= i32::MAX ==> saturated(n) == n,
        n > i32::MAX ==> other <= saturated(n),
        n < i32::MIN ==> saturated(n) <= other,
{
}

} // verus!
