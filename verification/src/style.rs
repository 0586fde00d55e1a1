//! Styles for emitted rectangles, and the injectable style / baseline policies.

use vstd::prelude::*;

verus! {

/// How a rectangle is painted: an RGB colour, an opacity (0 transparent,
/// 255 opaque), whether the interior is filled, and a stroke width.
#[derive(Clone, Copy, PartialEq, Eq, Debug)]
pub struct ShapeStyle {
    pub color: (u8, u8, u8),
    pub alpha: u8,
    pub filled: bool,
    pub stroke_width: u32,
}

/// The default style of a bar: opaque green, filled.
pub open spec fn default_fill() -> ShapeStyle {
    ShapeStyle { color: (0u8, 255u8, 0u8), alpha: 255u8, filled: true, stroke_width: 1u32 }
}

/// The style of the placeholder emitted for a category with no stacked items:
/// fully transparent.
pub open spec fn transparent_fill() -> ShapeStyle {
    ShapeStyle { color: (0u8, 0u8, 0u8), alpha: 0u8, filled: true, stroke_width: 1u32 }
}

/// Runtime counterpart of [`default_fill`].
pub fn make_default_fill() -> (s: ShapeStyle)
    ensures
        s == default_fill(),
{
    ShapeStyle { color: (0u8, 255u8, 0u8), alpha: 255u8, filled: true, stroke_width: 1u32 }
}

/// Runtime counterpart of [`transparent_fill`].
pub fn make_transparent_fill() -> (s: ShapeStyle)
    ensures
        s == transparent_fill(),
{
    ShapeStyle { color: (0u8, 0u8, 0u8), alpha: 0u8, filled: true, stroke_width: 1u32 }
}

/// A style rule evaluated once per emitted segment, on the segment's
/// category, identity and (pre-accumulation) amount.
pub trait StyleFn {
    /// The value the rule denotes.
    spec fn style_spec(&self, x: i64, id: u64, amount: i64) -> ShapeStyle;

    /// Evaluates the rule.
    fn style_at(&self, x: i64, id: u64, amount: i64) -> (s: ShapeStyle)
        ensures
            s == self.style_spec(x, id, amount),
    ;
}

/// A bare style is the rule that ignores its arguments.
impl StyleFn for ShapeStyle {
    open spec fn style_spec(&self, x: i64, id: u64, amount: i64) -> ShapeStyle {
        *self
    }

    fn style_at(&self, x: i64, id: u64, amount: i64) -> (s: ShapeStyle) {
        *self
    }
}

/// A style rule that colours each segment by its identity, cycling through a
/// palette; an empty palette falls back to one fixed style.
pub struct IdentityPalette {
    pub styles: Vec<ShapeStyle>,
    pub fallback: ShapeStyle,
}

impl StyleFn for IdentityPalette {
    open spec fn style_spec(&self, x: i64, id: u64, amount: i64) -> ShapeStyle {
        if self.styles@.len() == 0 {
            self.fallback
        } else {
            self.styles@[id as int % self.styles@.len() as int]
        }
    }

    fn style_at(&self, x: i64, id: u64, amount: i64) -> (s: ShapeStyle) {
        if self.styles.len() == 0 {
            self.fallback
        } else {
            let idx: usize = (id % (self.styles.len() as u64)) as usize;
            self.styles[idx]
        }
    }
}

/// A baseline rule: the value a category's stack starts accumulating from.
pub trait BaselineFn {
    /// The value the rule denotes.
    spec fn baseline_spec(&self, x: i64) -> i64;

    /// Evaluates the rule.
    fn baseline_at(&self, x: i64) -> (b: i64)
        ensures
            b == self.baseline_spec(x),
    ;
}

/// A bare amount is the rule that gives every category the same baseline.
impl BaselineFn for i64 {
    open spec fn baseline_spec(&self, x: i64) -> i64 {
        *self
    }

    fn baseline_at(&self, x: i64) -> (b: i64) {
        *self
    }
}

/// The style policy a series carries: either one constant style for every
/// segment, or an injected per-segment rule.
pub enum StylePolicy<S> {
    Constant(ShapeStyle),
    Func(S),
}

impl<S: StyleFn> StylePolicy<S> {
    /// The style the policy gives a segment.
    pub open spec fn at(self, x: i64, id: u64, amount: i64) -> ShapeStyle {
        match self {
            StylePolicy::Constant(s) => s,
            StylePolicy::Func(f) => f.style_spec(x, id, amount),
        }
    }

    /// Evaluates the policy on a segment.
    pub fn eval(&self, x: i64, id: u64, amount: i64) -> (s: ShapeStyle)
        ensures
            s == self.at(x, id, amount),
    {
        match self {
            StylePolicy::Constant(s) => *s,
            StylePolicy::Func(f) => f.style_at(x, id, amount),
        }
    }
}

/// The baseline policy a series carries: either one constant baseline, or an
/// injected per-category rule.
pub enum BaselinePolicy<B> {
    Constant(i64),
    Func(B),
}

impl<B: BaselineFn> BaselinePolicy<B> {
    /// The baseline the policy gives a category.
    pub open spec fn at(self, x: i64) -> i64 {
        match self {
            BaselinePolicy::Constant(b) => b,
            BaselinePolicy::Func(f) => f.baseline_spec(x),
        }
    }

    /// Evaluates the policy on a category.
    pub fn eval(&self, x: i64) -> (b: i64)
        ensures
            b == self.at(x),
    {
        match self {
            BaselinePolicy::Constant(b) => *b,
            BaselinePolicy::Func(f) => f.baseline_at(x),
        }
    }
}

} // verus!
