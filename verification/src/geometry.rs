//! Points, sizes and rectangles in whole pixels. Operations saturate at the ends of
//! the coordinate range.

use crate::binary_float::{clamp_i32, product, quotient, Binary64, Rounding};
use vstd::prelude::*;

verus! {

/// A point.
#[derive(Clone, Copy, PartialEq, Eq, Structural, Debug)]
pub struct Point {
    pub x: i32,
    pub y: i32,
}

/// A width and a height.
#[derive(Clone, Copy, PartialEq, Eq, Structural, Debug)]
pub struct Size {
    pub w: i32,
    pub h: i32,
}

/// A rectangle, by its top-left corner and its dimensions.
#[derive(Clone, Copy, PartialEq, Eq, Structural, Debug)]
pub struct Rectangle {
    pub loc: Point,
    pub size: Size,
}

/// A scale factor for each axis.
#[derive(Clone, Copy, PartialEq, Eq, Structural, Debug)]
pub struct Scale {
    pub x: Binary64,
    pub y: Binary64,
}

/// The ways in which a plane can be turned and mirrored.
#[derive(Clone, Copy, PartialEq, Eq, Structural, Debug)]
pub enum Transform {
    Normal,
    Rotated90,
    Rotated180,
    Rotated270,
    Flipped,
    Flipped90,
    Flipped180,
    Flipped270,
}

fn saturate(x: i64) -> (r: i32)
    ensures
        r == clamp_i32(x as int),
{
    if x < i32::MIN as i64 {
        i32::MIN
    } else if x > i32::MAX as i64 {
        i32::MAX
    } else {
        x as i32
    }
}

impl Size {
    /// The size in physical pixels, rounded to the nearest ones.
    pub open spec fn physical(self, scale: Scale) -> Size {
        Size {
            w: product(self.w as int, scale.x.value(), Rounding::Nearest),
            h: product(self.h as int, scale.y.value(), Rounding::Nearest),
        }
    }

    /// The size in physical pixels, rounded to the nearest ones.
    pub fn to_physical_precise_round(self, scale: Scale) -> (r: Size)
        ensures
            r == self.physical(scale),
    {
        Size {
            w: scale.x.scale_i32(self.w, Rounding::Nearest),
            h: scale.y.scale_i32(self.h, Rounding::Nearest),
        }
    }

    /// The size divided by `scale`, cut down to whole pixels.
    pub open spec fn divided(self, scale: Binary64) -> Size {
        Size {
            w: quotient(self.w as int, scale.value()),
            h: quotient(self.h as int, scale.value()),
        }
    }

    /// The size divided by `scale`, cut down to whole pixels.
    pub fn divide(self, scale: Binary64) -> (r: Size)
        ensures
            r == self.divided(scale),
    {
        Size { w: scale.divide_i32(self.w), h: scale.divide_i32(self.h) }
    }
}

impl Rectangle {
    /// The rectangle with the given corner and dimensions.
    pub fn new(loc: Point, size: Size) -> (r: Rectangle)
        ensures
            r == (Rectangle { loc, size }),
    {
        Rectangle { loc, size }
    }

    /// The rectangle of the given size at the origin.
    pub fn from_size(size: Size) -> (r: Rectangle)
        ensures
            r == (Rectangle { loc: Point { x: 0, y: 0 }, size }),
    {
        Rectangle { loc: Point { x: 0, y: 0 }, size }
    }

    /// The rectangle scaled up, corner and dimensions each taken up to whole pixels.
    pub open spec fn upscaled(self, scale: Binary64) -> Rectangle {
        Rectangle {
            loc: Point {
                x: product(self.loc.x as int, scale.value(), Rounding::Ceil),
                y: product(self.loc.y as int, scale.value(), Rounding::Ceil),
            },
            size: Size {
                w: product(self.size.w as int, scale.value(), Rounding::Ceil),
                h: product(self.size.h as int, scale.value(), Rounding::Ceil),
            },
        }
    }

    /// The rectangle scaled up, corner and dimensions each taken up to whole pixels.
    pub fn upscale_ceil(self, scale: Binary64) -> (r: Rectangle)
        ensures
            r == self.upscaled(scale),
    {
        Rectangle {
            loc: Point {
                x: scale.scale_i32(self.loc.x, Rounding::Ceil),
                y: scale.scale_i32(self.loc.y, Rounding::Ceil),
            },
            size: Size {
                w: scale.scale_i32(self.size.w, Rounding::Ceil),
                h: scale.scale_i32(self.size.h, Rounding::Ceil),
            },
        }
    }

    /// The rectangle moved out by `by` on every side.
    pub open spec fn grown(self, by: i32) -> Rectangle {
        Rectangle {
            loc: Point { x: clamp_i32(self.loc.x - by), y: clamp_i32(self.loc.y - by) },
            size: Size {
                w: clamp_i32(self.size.w + clamp_i32(2 * by)),
                h: clamp_i32(self.size.h + clamp_i32(2 * by)),
            },
        }
    }

    /// The rectangle moved out by `by` on every side.
    pub fn grow(self, by: i32) -> (r: Rectangle)
        ensures
            r == self.grown(by),
    {
        let twice: i32 = saturate(2 * (by as i64));
        Rectangle {
            loc: Point {
                x: saturate(self.loc.x as i64 - by as i64),
                y: saturate(self.loc.y as i64 - by as i64),
            },
            size: Size {
                w: saturate(self.size.w as i64 + twice as i64),
                h: saturate(self.size.h as i64 + twice as i64),
            },
        }
    }
}

} // verus!
