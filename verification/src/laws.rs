//! The library's laws: proved statements about aggregation and emission that
//! relate several of the public definitions.

use vstd::prelude::*;

use crate::rect::RectModel;
use crate::series::{
    aggregate, group_rects, has_key, horiz_rect, items_for, lemma_merge_entry_absent,
    lemma_merge_entry_found, merge_entry, placeholder_rect, rects_from, stack_rects, sum_amounts,
    StackItem,
};
use crate::style::{BaselineFn, BaselinePolicy, StyleFn, StylePolicy};

verus! {

/// A sequence with no entry of category `x` contributes no items for `x`.
proof fn lemma_items_for_absent(input: Seq<(i64, Seq<StackItem>)>, x: i64)
    requires
        !has_key(input, x),
    ensures
        items_for(input, x) == Seq::<StackItem>::empty(),
    decreases input.len(),
{
    if input.len() > 0 {
        assert(input.last().0 != x);
        assert(!has_key(input.drop_last(), x));
        lemma_items_for_absent(input.drop_last(), x);
    }
}

/// Aggregation merge: aggregation yields one group per distinct category of
/// the input, and the group of a category holds exactly the concatenation,
/// in encounter order, of the item lists of all input entries carrying that
/// category.
pub proof fn lemma_aggregate_merge(input: Seq<(i64, Seq<StackItem>)>)
    ensures
        forall|i: int, j: int|
            0 <= i < j < aggregate(input).len() ==> aggregate(input)[i].0 != aggregate(
                input,
            )[j].0,
        forall|i: int|
            0 <= i < aggregate(input).len() ==> (#[trigger] aggregate(input)[i]).1 == items_for(
                input,
                aggregate(input)[i].0,
            ),
        forall|x: i64| has_key(aggregate(input), x) <==> has_key(input, x),
    decreases input.len(),
{
    let agg = aggregate(input);
    if input.len() == 0 {
        assert forall|x: i64| has_key(agg, x) <==> has_key(input, x) by {
            assert(!has_key(agg, x));
            assert(!has_key(input, x));
        };
    } else {
        let dl = input.drop_last();
        let xl = input.last().0;
        let il = input.last().1;
        lemma_aggregate_merge(dl);
        let prev = aggregate(dl);
        assert(agg == merge_entry(prev, xl, il));
        assert forall|x: i64| x != xl implies items_for(input, x) == items_for(dl, x) by {};
        assert(items_for(input, xl) == items_for(dl, xl) + il);
        assert forall|x: i64| has_key(input, x) implies (has_key(dl, x) || x == xl) by {
            let w = choose|w: int| 0 <= w < input.len() && input[w].0 == x;
            if w < input.len() - 1 {
                assert(dl[w].0 == x);
            }
        };
        assert forall|x: i64| has_key(dl, x) implies has_key(input, x) by {
            let w = choose|w: int| 0 <= w < dl.len() && dl[w].0 == x;
            assert(input[w].0 == x);
        };
        assert(has_key(input, xl)) by {
            assert(input[input.len() - 1].0 == xl);
        };
        if has_key(prev, xl) {
            let j = choose|j: int| 0 <= j < prev.len() && prev[j].0 == xl;
            assert forall|i: int| 0 <= i < j implies prev[i].0 != xl by {};
            lemma_merge_entry_found(prev, xl, il, j);
            assert(agg == prev.update(j, (xl, prev[j].1 + il)));
            assert(prev[j].1 == items_for(dl, xl));
            assert forall|i: int| 0 <= i < agg.len() implies (#[trigger] agg[i]).1 == items_for(
                input,
                agg[i].0,
            ) by {
                if i == j {
                    assert(agg[i] == (xl, prev[j].1 + il));
                } else {
                    assert(agg[i] == prev[i]);
                    assert(prev[i].0 != xl);
                }
            };
            assert forall|x: i64| has_key(agg, x) implies has_key(input, x) by {
                let w = choose|w: int| 0 <= w < agg.len() && agg[w].0 == x;
                assert(prev[w].0 == x);
            };
            assert forall|x: i64| has_key(input, x) implies has_key(agg, x) by {
                if x == xl {
                    assert(agg[j].0 == xl);
                } else {
                    let w = choose|w: int| 0 <= w < prev.len() && prev[w].0 == x;
                    assert(agg[w].0 == x);
                }
            };
        } else {
            assert forall|i: int| 0 <= i < prev.len() implies prev[i].0 != xl by {};
            lemma_merge_entry_absent(prev, xl, il);
            assert(agg == prev.push((xl, il)));
            assert(!has_key(dl, xl));
            lemma_items_for_absent(dl, xl);
            assert(items_for(input, xl) =~= il);
            assert forall|i: int| 0 <= i < agg.len() implies (#[trigger] agg[i]).1 == items_for(
                input,
                agg[i].0,
            ) by {
                if i < prev.len() {
                    assert(agg[i] == prev[i]);
                    assert(prev[i].0 != xl);
                } else {
                    assert(agg[i] == (xl, il));
                }
            };
            assert forall|x: i64| has_key(agg, x) implies has_key(input, x) by {
                let w = choose|w: int| 0 <= w < agg.len() && agg[w].0 == x;
                if w < prev.len() {
                    assert(prev[w].0 == x);
                }
            };
            assert forall|x: i64| has_key(input, x) implies has_key(agg, x) by {
                if x == xl {
                    assert(agg[prev.len() as int].0 == xl);
                } else {
                    let w = choose|w: int| 0 <= w < prev.len() && prev[w].0 == x;
                    assert(agg[w].0 == x);
                }
            };
        }
    }
}

/// The exact shape of every segment a stack emits from position `k` with
/// running top `base`: the `j`-th remaining segment spans the category slot
/// and the value interval between consecutive partial sums of the amounts.
pub proof fn lemma_stack_rects_shape<S: StyleFn>(
    sty: StylePolicy<S>,
    m: u32,
    x: i64,
    items: Seq<StackItem>,
    k: int,
    base: int,
)
    requires
        0 <= k <= items.len(),
    ensures
        stack_rects(sty, m, x, items, k, base).len() == items.len() - k,
        forall|j: int|
            0 <= j < items.len() - k ==> #[trigger] stack_rects(sty, m, x, items, k, base)[j]
                == (RectModel {
                c0: (x as int, base + sum_amounts(items, k + j + 1) - sum_amounts(items, k)),
                c1: (x as int + 1, base + sum_amounts(items, k + j) - sum_amounts(items, k)),
                style: sty.at(x, items[k + j].0, items[k + j].1),
                margin: (0u32, 0u32, m, m),
            }),
    decreases items.len() - k,
{
    if k < items.len() {
        lemma_stack_rects_shape(sty, m, x, items, k + 1, base + items[k].1);
        let rec = stack_rects(sty, m, x, items, k + 1, base + items[k].1);
        let whole = stack_rects(sty, m, x, items, k, base);
        assert(sum_amounts(items, k + 1) == sum_amounts(items, k) + items[k].1);
        assert forall|j: int|
            0 <= j < items.len() - k implies #[trigger] whole[j] == (RectModel {
                c0: (x as int, base + sum_amounts(items, k + j + 1) - sum_amounts(items, k)),
                c1: (x as int + 1, base + sum_amounts(items, k + j) - sum_amounts(items, k)),
                style: sty.at(x, items[k + j].0, items[k + j].1),
                margin: (0u32, 0u32, m, m),
            }) by {
            if j == 0 {
                assert(sum_amounts(items, k + 1) == sum_amounts(items, k) + items[k].1);
            } else {
                assert(whole[j] == rec[j - 1]);
                assert(sum_amounts(items, k + 1 + (j - 1)) == sum_amounts(items, k + j));
                assert(sum_amounts(items, k + 1 + (j - 1) + 1) == sum_amounts(items, k + j + 1));
            }
        };
    }
}

/// Stack height accumulation: with baseline `base` and amounts `a1 .. an`,
/// the emitted segments' (low, high) value edges are `(base, base + a1)`,
/// `(base + a1, base + a1 + a2)`, and so on — each segment's low edge equals
/// the previous segment's high edge, and the last high edge is `base` plus
/// the sum of all amounts.
pub proof fn lemma_stack_heights<S: StyleFn>(
    sty: StylePolicy<S>,
    m: u32,
    x: i64,
    items: Seq<StackItem>,
    base: int,
)
    ensures
        stack_rects(sty, m, x, items, 0, base).len() == items.len(),
        forall|j: int|
            0 <= j < items.len() ==> (#[trigger] stack_rects(sty, m, x, items, 0, base)[j]).c1.1
                == base + sum_amounts(items, j),
        forall|j: int|
            0 <= j < items.len() ==> (#[trigger] stack_rects(sty, m, x, items, 0, base)[j]).c0.1
                == base + sum_amounts(items, j + 1),
        forall|j: int|
            1 <= j < items.len() ==> (#[trigger] stack_rects(sty, m, x, items, 0, base)[j]).c1.1
                == stack_rects(sty, m, x, items, 0, base)[j - 1].c0.1,
        items.len() > 0 ==> stack_rects(sty, m, x, items, 0, base).last().c0.1 == base
            + sum_amounts(items, items.len() as int),
{
    lemma_stack_rects_shape(sty, m, x, items, 0, base);
    assert(sum_amounts(items, 0) == 0);
}

/// Empty-category placeholder: a category present with no stacked items
/// emits exactly one rectangle in vertical orientation — fully transparent,
/// with zero extent on both axes and no margins — never a styled bar.
pub proof fn lemma_empty_group_placeholder<S: StyleFn, B: BaselineFn>(
    sty: StylePolicy<S>,
    bl: BaselinePolicy<B>,
    m: u32,
    x: i64,
)
    ensures
        group_rects(sty, bl, m, x, Seq::<StackItem>::empty()) == seq![placeholder_rect(x)],
        placeholder_rect(x).style.alpha == 0,
        placeholder_rect(x).c0.1 == placeholder_rect(x).c1.1,
        placeholder_rect(x).c0.0 == placeholder_rect(x).c1.0,
        placeholder_rect(x).margin == (0u32, 0u32, 0u32, 0u32),
{
}

/// Margin directionality, vertical half: every rectangle a vertical series
/// emits carries zero margin on the value-axis (top and bottom) sides, and
/// on the category-axis sides either the configured margin (a bar segment)
/// or none (the placeholder).
pub proof fn lemma_vertical_margins<S: StyleFn, B: BaselineFn>(
    sty: StylePolicy<S>,
    bl: BaselinePolicy<B>,
    m: u32,
    gs: Seq<(i64, Seq<StackItem>)>,
    i: int,
)
    ensures
        forall|j: int|
            0 <= j < rects_from(sty, bl, m, gs, i).len() ==> {
                let r = #[trigger] rects_from(sty, bl, m, gs, i)[j];
                r.margin.0 == 0 && r.margin.1 == 0 && (r.margin == (0u32, 0u32, m, m) || r.margin
                    == (0u32, 0u32, 0u32, 0u32))
            },
    decreases gs.len() - i,
{
    if 0 <= i < gs.len() {
        lemma_vertical_margins(sty, bl, m, gs, i + 1);
        let g = group_rects(sty, bl, m, gs[i].0, gs[i].1);
        let rest = rects_from(sty, bl, m, gs, i + 1);
        assert(rects_from(sty, bl, m, gs, i) == g + rest);
        if gs[i].1.len() > 0 {
            lemma_stack_rects_shape(sty, m, gs[i].0, gs[i].1, 0, bl.at(gs[i].0) as int);
        }
        assert forall|j: int|
            0 <= j < rects_from(sty, bl, m, gs, i).len() implies {
                let r = #[trigger] rects_from(sty, bl, m, gs, i)[j];
                r.margin.0 == 0 && r.margin.1 == 0 && (r.margin == (0u32, 0u32, m, m) || r.margin
                    == (0u32, 0u32, 0u32, 0u32))
            } by {
            if j < g.len() {
                assert(rects_from(sty, bl, m, gs, i)[j] == g[j]);
            } else {
                assert(rects_from(sty, bl, m, gs, i)[j] == rest[j - g.len()]);
            }
        };
    }
}

/// Margin directionality, horizontal half: every rectangle a horizontal
/// series emits carries the configured margin on the category-axis (top and
/// bottom) sides and none on the value-axis sides.
pub proof fn lemma_horizontal_margins<S: StyleFn, B: BaselineFn>(
    sty: StylePolicy<S>,
    bl: BaselinePolicy<B>,
    m: u32,
    y: i64,
    first: StackItem,
)
    ensures
        horiz_rect(sty, bl, m, y, first).margin == (m, m, 0u32, 0u32),
{
}

} // verus!
