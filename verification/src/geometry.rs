//! Rectangles on the screen, in whole pixels.
use vstd::prelude::*;

verus! {

/// A rectangle by its edges, as the automation interface reports it.
#[derive(Debug, Clone, Copy, PartialEq, Eq)]
pub struct WinRect {
    pub left: i32,
    pub top: i32,
    pub right: i32,
    pub bottom: i32,
}

/// A rectangle by its upper left corner and its extent.
#[derive(Debug, Clone, Copy, PartialEq, Eq)]
pub struct Rect {
    pub x: i32,
    pub y: i32,
    pub width: i32,
    pub height: i32,
}

/// A point by twice its coordinates, so that half pixels are whole numbers.
#[derive(Debug, Clone, Copy, PartialEq, Eq)]
pub struct DoubledPoint {
    pub x: i32,
    pub y: i32,
}

/// The number is one that an `i32` can hold.
pub open spec fn fits_i32(n: int) -> bool {
    i32::MIN <= n <= i32::MAX
}

impl WinRect {
    /// Both extents can be computed without overflow.
    pub open spec fn measurable(self) -> bool {
        &&& fits_i32(self.right - self.left)
        &&& fits_i32(self.bottom - self.top)
    }

    /// Both sums of opposite edges can be computed without overflow.
    pub open spec fn centred(self) -> bool {
        &&& fits_i32(self.left + self.right)
        &&& fits_i32(self.top + self.bottom)
    }

    /// The rectangle by corner and extent.
    pub open spec fn spec_bounds(self) -> Rect {
        Rect {
            x: self.left,
            y: self.top,
            width: (self.right - self.left) as i32,
            height: (self.bottom - self.top) as i32,
        }
    }

    /// Twice the centre of the rectangle.
    pub open spec fn spec_center(self) -> DoubledPoint {
        DoubledPoint { x: (self.left + self.right) as i32, y: (self.top + self.bottom) as i32 }
    }

    /// Whether `bounds` can be computed.
    pub fn is_measurable(&self) -> (r: bool)
        ensures
            r == self.measurable(),
    {
        let width: i64 = self.right as i64 - self.left as i64;
        let height: i64 = self.bottom as i64 - self.top as i64;
        -0x8000_0000 <= width && width <= 0x7FFF_FFFF && -0x8000_0000 <= height && height
            <= 0x7FFF_FFFF
    }

    /// Whether `center` can be computed.
    pub fn is_centred(&self) -> (r: bool)
        ensures
            r == self.centred(),
    {
        let x: i64 = self.left as i64 + self.right as i64;
        let y: i64 = self.top as i64 + self.bottom as i64;
        -0x8000_0000 <= x && x <= 0x7FFF_FFFF && -0x8000_0000 <= y && y <= 0x7FFF_FFFF
    }

    /// The rectangle by corner and extent.
    pub fn bounds(&self) -> (r: Rect)
        requires
            self.measurable(),
        ensures
            r == self.spec_bounds(),
            r.width == self.right - self.left,
            r.height == self.bottom - self.top,
    {
        Rect {
            x: self.left,
            y: self.top,
            width: self.right - self.left,
            height: self.bottom - self.top,
        }
    }

    /// Twice the centre of the rectangle.
    pub fn center(&self) -> (p: DoubledPoint)
        requires
            self.centred(),
        ensures
            p == self.spec_center(),
            p.x == self.left + self.right,
            p.y == self.top + self.bottom,
    {
        DoubledPoint { x: self.left + self.right, y: self.top + self.bottom }
    }
}

/// A rectangle by corner and extent covers what the rectangle by its edges does: it begins at
/// the left and upper edge and reaches to the right and lower one.
pub proof fn law_bounds_reach_the_edges(r: WinRect)
    requires
        r.measurable(),
    ensures
        r.spec_bounds().x == r.left,
        r.spec_bounds().y == r.top,
        r.spec_bounds().x + r.spec_bounds().width == r.right,
        r.spec_bounds().y + r.spec_bounds().height == r.bottom,
{
}

/// The centre lies as far from one edge as from the opposite one.
pub proof fn law_center_is_halfway(r: WinRect)
    requires
        r.centred(),
    ensures
        r.spec_center().x - 2 * r.left == 2 * r.right - r.spec_center().x,
        r.spec_center().y - 2 * r.top == 2 * r.bottom - r.spec_center().y,
{
}

/// A rectangle can be measured, or its centre found, exactly where the numbers are small
/// enough for 32 bits.
pub proof fn law_rectangles_that_overflow(r: WinRect)
    ensures
        r.measurable() <==> -0x8000_0000 <= r.right - r.left <= 0x7FFF_FFFF && -0x8000_0000
            <= r.bottom - r.top <= 0x7FFF_FFFF,
        r.centred() <==> -0x8000_0000 <= r.left + r.right <= 0x7FFF_FFFF && -0x8000_0000 <= r.top
            + r.bottom <= 0x7FFF_FFFF,
{
}

} // verus!
