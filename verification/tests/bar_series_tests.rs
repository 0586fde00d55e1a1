use bar_series::style::{make_default_fill, IdentityPalette};
use bar_series::{BarSeries, Horizontal, Rectangle, ShapeStyle, Vertical};

fn green() -> ShapeStyle {
    make_default_fill()
}

fn pull_all(series: &mut BarSeries<ShapeStyle, i64, Vertical>) -> Vec<Rectangle> {
    let mut out = Vec::new();
    while let Some(r) = series.next() {
        out.push(r);
    }
    out
}

#[test]
fn vertical_stacked_example() {
    // Two stacked items under one category, then a category with none.
    let data: Vec<(i64, Vec<(u64, i64)>)> = vec![(10, vec![(1, 2), (2, 3)]), (11, vec![])];
    let mut s = BarSeries::<ShapeStyle, i64, Vertical>::new(data, 5, green());

    let r1 = s.next().unwrap();
    assert_eq!(r1.corner0, (10, 2));
    assert_eq!(r1.corner1, (11, 0));
    assert_eq!(
        (r1.margin_top, r1.margin_bottom, r1.margin_left, r1.margin_right),
        (0, 0, 5, 5)
    );
    assert_eq!(r1.style, green());

    let r2 = s.next().unwrap();
    assert_eq!(r2.corner0, (10, 5));
    assert_eq!(r2.corner1, (11, 2));
    assert_eq!(
        (r2.margin_top, r2.margin_bottom, r2.margin_left, r2.margin_right),
        (0, 0, 5, 5)
    );

    let r3 = s.next().unwrap();
    assert_eq!(r3.corner0, (11, 0));
    assert_eq!(r3.corner1, (11, 0));
    assert_eq!(
        (r3.margin_top, r3.margin_bottom, r3.margin_left, r3.margin_right),
        (0, 0, 0, 0)
    );
    assert_eq!(r3.style.alpha, 0);

    assert!(s.next().is_none());
    assert!(s.next().is_none());
}

#[test]
fn aggregation_merges_equal_categories() {
    // Two entries share category 7; their item lists concatenate in
    // encounter order. Entries of other categories stay separate.
    let data: Vec<(i64, Vec<(u64, i64)>)> =
        vec![(7, vec![(1, 1), (2, 2)]), (8, vec![(3, 5)]), (7, vec![(4, 9)])];
    let mut s = BarSeries::<ShapeStyle, i64, Vertical>::new(data, 5, green());
    let rects = pull_all(&mut s);

    let of7: Vec<&Rectangle> = rects.iter().filter(|r| r.corner0.0 == 7).collect();
    assert_eq!(of7.len(), 3);
    assert_eq!(of7[0].corner0, (7, 1));
    assert_eq!(of7[0].corner1, (8, 0));
    assert_eq!(of7[1].corner0, (7, 3));
    assert_eq!(of7[1].corner1, (8, 1));
    assert_eq!(of7[2].corner0, (7, 12));
    assert_eq!(of7[2].corner1, (8, 3));

    let of8: Vec<&Rectangle> = rects.iter().filter(|r| r.corner0.0 == 8).collect();
    assert_eq!(of8.len(), 1);
    assert_eq!(of8[0].corner0, (8, 5));
    assert_eq!(of8[0].corner1, (9, 0));

    assert_eq!(rects.len(), 4);
}

#[test]
fn stack_accumulation_with_baseline() {
    // Baseline 10, amounts 3 then 4: edges (10, 13) and (13, 17).
    let data: Vec<(i64, Vec<(u64, i64)>)> = vec![(0, vec![(1, 3), (2, 4)])];
    let mut s = BarSeries::<ShapeStyle, i64, Vertical>::new(data, 5, green()).baseline(10);

    let r1 = s.next().unwrap();
    assert_eq!(r1.corner0, (0, 13));
    assert_eq!(r1.corner1, (1, 10));
    let r2 = s.next().unwrap();
    assert_eq!(r2.corner0, (0, 17));
    assert_eq!(r2.corner1, (1, 13));
    assert!(s.next().is_none());
}

#[test]
fn empty_category_placeholder() {
    // A category with an empty stacked list yields exactly one transparent
    // zero-extent rectangle, even under a non-zero baseline and margin.
    let data: Vec<(i64, Vec<(u64, i64)>)> = vec![(3, vec![])];
    let mut s = BarSeries::<ShapeStyle, i64, Vertical>::new(data, 9, green()).baseline(42);

    let r = s.next().unwrap();
    assert_eq!(r.corner0, (3, 0));
    assert_eq!(r.corner1, (3, 0));
    assert_eq!(r.style.alpha, 0);
    assert_eq!(
        (r.margin_top, r.margin_bottom, r.margin_left, r.margin_right),
        (0, 0, 0, 0)
    );
    assert!(s.next().is_none());
}

#[test]
fn horizontal_truncates_to_first() {
    // In horizontal mode a stacked list of length 2 yields exactly one
    // rectangle, built from the first item alone.
    let data: Vec<(i64, Vec<(u64, i64)>)> = vec![(5, vec![(1, 4), (2, 6)])];
    let mut s = BarSeries::<ShapeStyle, i64, Horizontal>::horizontal()
        .margin(5)
        .style(green())
        .data(data);

    let r = s.next().unwrap();
    assert_eq!(r.corner0, (4, 5));
    assert_eq!(r.corner1, (0, 6));
    assert_eq!(
        (r.margin_top, r.margin_bottom, r.margin_left, r.margin_right),
        (5, 5, 0, 0)
    );
    assert!(s.next().is_none());
}

#[test]
fn horizontal_empty_category_emits_nothing() {
    // A category with no items yields nothing for its pull in horizontal
    // mode (no placeholder); later categories still emit.
    let data: Vec<(i64, Vec<(u64, i64)>)> = vec![(1, vec![]), (2, vec![(7, 4)])];
    let mut s = BarSeries::<ShapeStyle, i64, Horizontal>::horizontal().data(data);

    assert!(s.next().is_none());
    let r = s.next().unwrap();
    assert_eq!(r.corner0, (4, 2));
    assert_eq!(r.corner1, (0, 3));
    assert!(s.next().is_none());
    assert!(s.next().is_none());
}

#[test]
fn empty_input_immediately_exhausted() {
    let mut s = BarSeries::<ShapeStyle, i64, Vertical>::new(Vec::new(), 5, green());
    assert!(s.next().is_none());
    assert!(s.next().is_none());

    let mut v = BarSeries::<ShapeStyle, i64, Vertical>::vertical();
    assert!(v.next().is_none());
}

#[test]
fn margin_builder_changes_category_axis_sides() {
    let data: Vec<(i64, Vec<(u64, i64)>)> = vec![(0, vec![(1, 1)])];
    let mut s = BarSeries::<ShapeStyle, i64, Vertical>::new(data, 5, green()).margin(7);
    let r = s.next().unwrap();
    assert_eq!(
        (r.margin_top, r.margin_bottom, r.margin_left, r.margin_right),
        (0, 0, 7, 7)
    );
}

#[test]
fn style_builder_sets_constant_style() {
    let red = ShapeStyle { color: (255, 0, 0), alpha: 255, filled: true, stroke_width: 1 };
    let data: Vec<(i64, Vec<(u64, i64)>)> = vec![(0, vec![(1, 1), (2, 2)])];
    let mut s = BarSeries::<ShapeStyle, i64, Vertical>::new(data, 5, green()).style(red);
    assert_eq!(s.next().unwrap().style, red);
    assert_eq!(s.next().unwrap().style, red);
}

#[test]
fn style_func_colours_by_identity() {
    let s0 = ShapeStyle { color: (10, 0, 0), alpha: 255, filled: true, stroke_width: 1 };
    let s1 = ShapeStyle { color: (0, 10, 0), alpha: 255, filled: true, stroke_width: 1 };
    let s2 = ShapeStyle { color: (0, 0, 10), alpha: 255, filled: true, stroke_width: 1 };
    let palette = IdentityPalette { styles: vec![s0, s1, s2], fallback: green() };
    let data: Vec<(i64, Vec<(u64, i64)>)> = vec![(0, vec![(0, 1), (2, 1), (4, 1)])];
    let mut s = BarSeries::<IdentityPalette, i64, Vertical>::vertical()
        .style_func(palette)
        .data(data);
    assert_eq!(s.next().unwrap().style, s0);
    assert_eq!(s.next().unwrap().style, s2);
    // Identity 4 wraps around the palette of three.
    assert_eq!(s.next().unwrap().style, s1);
}

#[test]
fn baseline_func_rule_applies() {
    let data: Vec<(i64, Vec<(u64, i64)>)> = vec![(2, vec![(1, 6)])];
    let mut s = BarSeries::<ShapeStyle, i64, Vertical>::new(data, 5, green()).baseline_func(4i64);
    let r = s.next().unwrap();
    assert_eq!(r.corner0, (2, 10));
    assert_eq!(r.corner1, (3, 4));
}

#[test]
fn negative_amounts_hang_below_baseline() {
    let data: Vec<(i64, Vec<(u64, i64)>)> = vec![(0, vec![(1, -3)])];
    let mut s = BarSeries::<ShapeStyle, i64, Vertical>::new(data, 5, green());
    let r = s.next().unwrap();
    assert_eq!(r.corner0, (0, -3));
    assert_eq!(r.corner1, (1, 0));
}

#[test]
fn data_builder_replaces_earlier_data() {
    let first: Vec<(i64, Vec<(u64, i64)>)> = vec![(0, vec![(1, 1)])];
    let second: Vec<(i64, Vec<(u64, i64)>)> = vec![(9, vec![(1, 8)])];
    let mut s = BarSeries::<ShapeStyle, i64, Vertical>::new(first, 5, green()).data(second);
    let r = s.next().unwrap();
    assert_eq!(r.corner0, (9, 8));
    assert_eq!(r.corner1, (10, 0));
    assert!(s.next().is_none());
}
