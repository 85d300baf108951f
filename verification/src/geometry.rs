//! Geometry primitives: points, sizes and rectangles.
//!
//! A [`Rectangle`] is stored as its two corners, both inclusive, so a
//! well-formed rectangle always covers at least one pixel.

use vstd::prelude::*;

verus! {

/// A position on the pixel grid.
#[derive(Clone, Copy, Debug, PartialEq, Eq, Structural)]
pub struct Point {
    /// Horizontal coordinate, growing to the right.
    pub x: i32,
    /// Vertical coordinate, growing downwards.
    pub y: i32,
}

impl Point {
    /// Creates a point from its coordinates.
    pub fn new(x: i32, y: i32) -> (r: Point)
        ensures
            r == (Point { x, y }),
    {
        Point { x, y }
    }

    /// The origin, `(0, 0)`.
    pub fn zero() -> (r: Point)
        ensures
            r == (Point { x: 0i32, y: 0i32 }),
    {
        Point { x: 0, y: 0 }
    }
}

/// An extent in pixels.
#[derive(Clone, Copy, Debug, PartialEq, Eq, Structural)]
pub struct Size {
    /// Horizontal extent.
    pub width: u32,
    /// Vertical extent.
    pub height: u32,
}

impl Size {
    /// Creates a size from width and height.
    pub fn new(width: u32, height: u32) -> (r: Size)
        ensures
            r == (Size { width, height }),
    {
        Size { width, height }
    }
}

/// An axis-aligned rectangle given by its top-left and bottom-right corners.
///
/// Both corners lie inside the rectangle, so a well-formed rectangle is never
/// empty: its width and height are at least one pixel.
#[derive(Clone, Copy, Debug, PartialEq, Eq, Structural)]
pub struct Rectangle {
    /// The corner with the smallest coordinates (once well-formed).
    pub top_left: Point,
    /// The corner with the largest coordinates (once well-formed).
    pub bottom_right: Point,
}

/// Saturating addition of a signed offset to a coordinate.
pub open spec fn spec_saturating_add(a: i32, b: i32) -> i32 {
    if a + b > i32::MAX {
        i32::MAX
    } else if a + b < i32::MIN {
        i32::MIN
    } else {
        (a + b) as i32
    }
}

/// The rectangle moved by an offset, clamped at the coordinate range.
pub open spec fn spec_translate(r: Rectangle, by: Point) -> Rectangle {
    Rectangle {
        top_left: Point {
            x: spec_saturating_add(r.top_left.x, by.x),
            y: spec_saturating_add(r.top_left.y, by.y),
        },
        bottom_right: Point {
            x: spec_saturating_add(r.bottom_right.x, by.x),
            y: spec_saturating_add(r.bottom_right.y, by.y),
        },
    }
}

/// The width of a well-formed rectangle, as a mathematical integer.
pub open spec fn spec_width(r: Rectangle) -> int {
    r.bottom_right.x - r.top_left.x + 1
}

/// The height of a well-formed rectangle, as a mathematical integer.
pub open spec fn spec_height(r: Rectangle) -> int {
    r.bottom_right.y - r.top_left.y + 1
}

impl Rectangle {
    /// Both corners are ordered: the rectangle covers at least one pixel.
    pub open spec fn well_formed(self) -> bool {
        self.top_left.x <= self.bottom_right.x && self.top_left.y <= self.bottom_right.y
    }

    /// Creates a rectangle from two corner points, in any order.
    pub fn with_corners(corner_1: Point, corner_2: Point) -> (r: Rectangle)
        ensures
            r == (Rectangle { top_left: corner_1, bottom_right: corner_2 }),
    {
        Rectangle { top_left: corner_1, bottom_right: corner_2 }
    }

    /// Whether a point lies inside the rectangle.
    pub fn contains(&self, p: Point) -> (r: bool)
        ensures
            r == (self.top_left.x <= p.x <= self.bottom_right.x && self.top_left.y <= p.y
                <= self.bottom_right.y),
    {
        self.top_left.x <= p.x && p.x <= self.bottom_right.x && self.top_left.y <= p.y && p.y
            <= self.bottom_right.y
    }

    /// Moves the rectangle by the given offset, clamping each coordinate to
    /// the representable range instead of wrapping.
    pub fn translate(&self, by: Point) -> (r: Rectangle)
        ensures
            r == spec_translate(*self, by),
            r.top_left.x == spec_saturating_add(self.top_left.x, by.x),
            r.top_left.y == spec_saturating_add(self.top_left.y, by.y),
            r.bottom_right.x == spec_saturating_add(self.bottom_right.x, by.x),
            r.bottom_right.y == spec_saturating_add(self.bottom_right.y, by.y),
    {
        Rectangle {
            top_left: Point {
                x: saturating_add_i32(self.top_left.x, by.x),
                y: saturating_add_i32(self.top_left.y, by.y),
            },
            bottom_right: Point {
                x: saturating_add_i32(self.bottom_right.x, by.x),
                y: saturating_add_i32(self.bottom_right.y, by.y),
            },
        }
    }
}

/// Saturating `i32` addition.
pub fn saturating_add_i32(a: i32, b: i32) -> (r: i32)
    ensures
        r == spec_saturating_add(a, b),
{
    let wide: i64 = a as i64 + b as i64;
    if wide > i32::MAX as i64 {
        i32::MAX
    } else if wide < i32::MIN as i64 {
        i32::MIN
    } else {
        wide as i32
    }
}

/// The corners sorted so that the rectangle is well-formed.
pub open spec fn spec_into_well_formed(r: Rectangle) -> Rectangle {
    Rectangle {
        top_left: Point {
            x: if r.top_left.x <= r.bottom_right.x {
                r.top_left.x
            } else {
                r.bottom_right.x
            },
            y: if r.top_left.y <= r.bottom_right.y {
                r.top_left.y
            } else {
                r.bottom_right.y
            },
        },
        bottom_right: Point {
            x: if r.top_left.x <= r.bottom_right.x {
                r.bottom_right.x
            } else {
                r.top_left.x
            },
            y: if r.top_left.y <= r.bottom_right.y {
                r.bottom_right.y
            } else {
                r.top_left.y
            },
        },
    }
}

/// Helper methods the engine needs on rectangles.
pub trait RectExt {
    /// Returns the size of a rectangle whose corners are inclusive.
    fn size(self) -> Size;

    /// Sorts the corner coordinates so that the result is well-formed.
    fn into_well_formed(self) -> Rectangle;
}

impl RectExt for Rectangle {
    fn size(self) -> (r: Size)
        ensures
            r.width == (if spec_width(self) > u32::MAX {
                u32::MAX as int
            } else if spec_width(self) < 0 {
                0
            } else {
                spec_width(self)
            }),
            r.height == (if spec_height(self) > u32::MAX {
                u32::MAX as int
            } else if spec_height(self) < 0 {
                0
            } else {
                spec_height(self)
            }),
            self.well_formed() && spec_width(self) <= u32::MAX && spec_height(self) <= u32::MAX
                ==> r.width == spec_width(self) && r.height == spec_height(self),
    {
        let w: i64 = self.bottom_right.x as i64 - self.top_left.x as i64 + 1;
        let h: i64 = self.bottom_right.y as i64 - self.top_left.y as i64 + 1;
        let width: u32 = if w > u32::MAX as i64 {
            u32::MAX
        } else if w < 0 {
            0
        } else {
            w as u32
        };
        let height: u32 = if h > u32::MAX as i64 {
            u32::MAX
        } else if h < 0 {
            0
        } else {
            h as u32
        };
        Size { width, height }
    }

    fn into_well_formed(self) -> (r: Rectangle)
        ensures
            r.well_formed(),
            r == spec_into_well_formed(self),
            r.top_left.x == if self.top_left.x <= self.bottom_right.x {
                self.top_left.x
            } else {
                self.bottom_right.x
            },
            r.top_left.y == if self.top_left.y <= self.bottom_right.y {
                self.top_left.y
            } else {
                self.bottom_right.y
            },
            r.bottom_right.x == if self.top_left.x <= self.bottom_right.x {
                self.bottom_right.x
            } else {
                self.top_left.x
            },
            r.bottom_right.y == if self.top_left.y <= self.bottom_right.y {
                self.bottom_right.y
            } else {
                self.top_left.y
            },
    {
        let min_x = if self.top_left.x <= self.bottom_right.x {
            self.top_left.x
        } else {
            self.bottom_right.x
        };
        let min_y = if self.top_left.y <= self.bottom_right.y {
            self.top_left.y
        } else {
            self.bottom_right.y
        };
        let max_x = if self.top_left.x <= self.bottom_right.x {
            self.bottom_right.x
        } else {
            self.top_left.x
        };
        let max_y = if self.top_left.y <= self.bottom_right.y {
            self.bottom_right.y
        } else {
            self.top_left.y
        };
        Rectangle {
            top_left: Point { x: min_x, y: min_y },
            bottom_right: Point { x: max_x, y: max_y },
        }
    }
}

} // verus!
