//! Border geometry for containers: the colors and the rectangle
//! computations behind the four border sides. This module computes where
//! each border side lies, from a container's outer geometry and the view's
//! inner geometry; turning those rectangles into pixels is the
//! presentation layer's business and happens elsewhere.

use vstd::prelude::*;

use crate::containers::Geometry;
use crate::containers::Point;
use crate::containers::Size;

verus! {

/// A border color, one channel per field.
#[derive(Debug, Clone, Copy, PartialEq, Eq, Structural)]
pub struct Color {
    pub red: u32,
    pub green: u32,
    pub blue: u32,
}

impl Color {
    /// Makes a color from its three channels.
    pub fn new(red: u32, green: u32, blue: u32) -> (c: Color)
        ensures
            c.red == red,
            c.green == green,
            c.blue == blue,
    {
        Color { red, green, blue }
    }
}

/// The row stride, in bytes, of a 32-bit-per-pixel image buffer of the
/// given width.
pub open spec fn spec_stride(width: u32) -> u32 {
    ((((32 * width + 7) / 8 + 4)) as u32) & (!4u32)
}

/// Calculates the stride for 32-bit ARGB encoded buffers.
pub fn calculate_stride(width: u32) -> (stride: u32)
    requires
        32 * width + 7 <= u32::MAX as int,
    ensures
        stride == spec_stride(width),
{
    (32 * width + 7) / 8 + 4 & !4
}

/// Grows a geometry by a border's thickness on every side: the size gains
/// the thickness and the origin backs up by half of it, so the border
/// surrounds the original rectangle.
pub fn expand_geometry(geometry: Geometry, thickness: u32) -> (r: Geometry)
    requires
        geometry.size.w + thickness <= u32::MAX as int,
        geometry.size.h + thickness <= u32::MAX as int,
        i32::MIN as int <= geometry.origin.x - thickness as int / 2,
        i32::MIN as int <= geometry.origin.y - thickness as int / 2,
        thickness as int / 2 <= i32::MAX as int,
    ensures
        r.size.w == geometry.size.w + thickness,
        r.size.h == geometry.size.h + thickness,
        r.origin.x == geometry.origin.x - thickness as int / 2,
        r.origin.y == geometry.origin.y - thickness as int / 2,
{
    let half = (thickness / 2) as i32;
    Geometry {
        origin: Point { x: geometry.origin.x - half, y: geometry.origin.y - half },
        size: Size { w: geometry.size.w + thickness, h: geometry.size.h + thickness },
    }
}

/// The rectangle a top border fills: the strip between the outer
/// geometry's top edge and the view's top edge, when it has positive
/// height.
pub fn top_border_rect(geometry: Geometry, view_g: Geometry) -> (r: Option<Geometry>)
    requires
        i32::MIN as int <= view_g.origin.y - geometry.origin.y <= i32::MAX as int,
    ensures
        ({
            let height = view_g.origin.y - geometry.origin.y;
            if height > 0 {
                r == Some(
                    Geometry {
                        origin: geometry.origin,
                        size: Size { w: geometry.size.w, h: height as u32 },
                    },
                )
            } else {
                r is None
            }
        }),
{
    let height = view_g.origin.y - geometry.origin.y;
    if height > 0 {
        Some(
            Geometry {
                origin: geometry.origin,
                size: Size { w: geometry.size.w, h: height as u32 },
            },
        )
    } else {
        None
    }
}

/// The rectangle a bottom border fills: the strip between the view's
/// bottom edge and the outer geometry's bottom edge, when it has positive
/// height.
pub fn bottom_border_rect(geometry: Geometry, view_g: Geometry) -> (r: Option<Geometry>)
    requires
        0 <= view_g.origin.y - geometry.origin.y,
        (view_g.origin.y - geometry.origin.y) + view_g.size.h <= geometry.size.h,
        view_g.origin.y + view_g.size.h <= i32::MAX as int,
    ensures
        ({
            let height = geometry.size.h - (view_g.origin.y - geometry.origin.y)
                - view_g.size.h;
            if height > 0 {
                r == Some(
                    Geometry {
                        origin: Point {
                            x: geometry.origin.x,
                            y: ((view_g.origin.y + view_g.size.h) as i32),
                        },
                        size: Size { w: geometry.size.w, h: height as u32 },
                    },
                )
            } else {
                r is None
            }
        }),
{
    let top_border_height = (view_g.origin.y as i64 - geometry.origin.y as i64) as u32;
    let height = geometry.size.h - (top_border_height + view_g.size.h);
    if height > 0 {
        Some(
            Geometry {
                origin: Point {
                    x: geometry.origin.x,
                    y: ((view_g.origin.y as i64 + view_g.size.h as i64) as i32),
                },
                size: Size { w: geometry.size.w, h: height },
            },
        )
    } else {
        None
    }
}

/// The rectangle a right border fills: the strip between the view's right
/// edge and the outer geometry's right edge, when it has positive width.
pub fn right_border_rect(geometry: Geometry, view_g: Geometry) -> (r: Option<Geometry>)
    requires
        0 <= view_g.origin.x - geometry.origin.x,
        (view_g.origin.x - geometry.origin.x) + view_g.size.w <= geometry.size.w,
        view_g.origin.x + view_g.size.w <= i32::MAX as int,
    ensures
        ({
            let width = geometry.size.w - view_g.size.w - (view_g.origin.x
                - geometry.origin.x);
            if width > 0 {
                r == Some(
                    Geometry {
                        origin: Point {
                            x: ((view_g.origin.x + view_g.size.w) as i32),
                            y: geometry.origin.y,
                        },
                        size: Size { w: width as u32, h: geometry.size.h },
                    },
                )
            } else {
                r is None
            }
        }),
{
    let left_border_width = (view_g.origin.x as i64 - geometry.origin.x as i64) as u32;
    let width = geometry.size.w - view_g.size.w - left_border_width;
    if width > 0 {
        Some(
            Geometry {
                origin: Point {
                    x: ((view_g.origin.x as i64 + view_g.size.w as i64) as i32),
                    y: geometry.origin.y,
                },
                size: Size { w: width, h: geometry.size.h },
            },
        )
    } else {
        None
    }
}

/// The rectangle a left border fills: the strip between the outer
/// geometry's left edge and the view's left edge, when it has positive
/// width.
pub fn left_border_rect(geometry: Geometry, view_g: Geometry) -> (r: Option<Geometry>)
    requires
        i32::MIN as int <= view_g.origin.x - geometry.origin.x <= i32::MAX as int,
    ensures
        ({
            let width = view_g.origin.x - geometry.origin.x;
            if width > 0 {
                r == Some(
                    Geometry {
                        origin: geometry.origin,
                        size: Size { w: width as u32, h: geometry.size.h },
                    },
                )
            } else {
                r is None
            }
        }),
{
    let width = view_g.origin.x - geometry.origin.x;
    if width > 0 {
        Some(
            Geometry {
                origin: geometry.origin,
                size: Size { w: width as u32, h: geometry.size.h },
            },
        )
    } else {
        None
    }
}

} // verus!
