//! The emitted element: an axis-aligned rectangle with a style and
//! independently configurable per-side margins.

use vstd::prelude::*;

use crate::style::ShapeStyle;

verus! {

/// The mathematical image of a rectangle: its two corners in unbounded
/// coordinates, its style, and its margins as (top, bottom, left, right).
pub ghost struct RectModel {
    pub c0: (int, int),
    pub c1: (int, int),
    pub style: ShapeStyle,
    pub margin: (u32, u32, u32, u32),
}

/// An axis-aligned rectangle, given by two corners in (category, amount)
/// space (or (amount, category) space for horizontal bars), painted with a
/// style, squeezed by per-side margins.
#[derive(Clone, Copy, PartialEq, Eq, Debug)]
pub struct Rectangle {
    pub corner0: (i64, i64),
    pub corner1: (i64, i64),
    pub style: ShapeStyle,
    pub margin_top: u32,
    pub margin_bottom: u32,
    pub margin_left: u32,
    pub margin_right: u32,
}

impl View for Rectangle {
    type V = RectModel;

    open spec fn view(&self) -> RectModel {
        RectModel {
            c0: (self.corner0.0 as int, self.corner0.1 as int),
            c1: (self.corner1.0 as int, self.corner1.1 as int),
            style: self.style,
            margin: (self.margin_top, self.margin_bottom, self.margin_left, self.margin_right),
        }
    }
}

impl Rectangle {
    /// A rectangle spanning the two corners, with no margins yet.
    pub fn new(corner0: (i64, i64), corner1: (i64, i64), style: ShapeStyle) -> (r: Self)
        ensures
            r@ == (RectModel {
                c0: (corner0.0 as int, corner0.1 as int),
                c1: (corner1.0 as int, corner1.1 as int),
                style: style,
                margin: (0u32, 0u32, 0u32, 0u32),
            }),
    {
        Rectangle {
            corner0,
            corner1,
            style,
            margin_top: 0,
            margin_bottom: 0,
            margin_left: 0,
            margin_right: 0,
        }
    }

    /// Replaces the four margins, leaving corners and style as they were.
    pub fn set_margin(&mut self, top: u32, bottom: u32, left: u32, right: u32)
        ensures
            final(self)@ == (RectModel { margin: (top, bottom, left, right), ..old(self)@ }),
    {
        self.margin_top = top;
        self.margin_bottom = bottom;
        self.margin_left = left;
        self.margin_right = right;
    }
}

} // verus!
