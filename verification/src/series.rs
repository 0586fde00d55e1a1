//! The bar series: aggregates (category, stacked items) entries and emits,
//! one pull at a time, the rectangles of a bar chart.
//!
//! Categories are discretely-steppable values, held as `i64` (the successor
//! of `x` is `x + 1`); a stacked item is an opaque identity (`u64`) with an
//! accumulable amount (`i64`).

use core::marker::PhantomData;

use vstd::prelude::*;

use crate::rect::{RectModel, Rectangle};
use crate::style::{
    default_fill, make_default_fill, make_transparent_fill, transparent_fill, BaselineFn,
    BaselinePolicy, ShapeStyle, StyleFn, StylePolicy,
};

verus! {

/// One stacked contribution within a category: (identity, amount).
pub type StackItem = (u64, i64);

/// The mathematical image of a list of grouped entries: each `Vec` of items
/// becomes a `Seq`.
pub open spec fn groups_view(v: Seq<(i64, Vec<StackItem>)>) -> Seq<(i64, Seq<StackItem>)> {
    v.map_values(|g: (i64, Vec<StackItem>)| (g.0, g.1@))
}

/// Merges one entry into an aggregated list: appends its items to the group
/// with the same category, or adds a new group at the end.
pub open spec fn merge_entry(
    gs: Seq<(i64, Seq<StackItem>)>,
    x: i64,
    items: Seq<StackItem>,
) -> Seq<(i64, Seq<StackItem>)>
    decreases gs.len(),
{
    if gs.len() == 0 {
        seq![(x, items)]
    } else if gs[0].0 == x {
        seq![(gs[0].0, gs[0].1 + items)] + gs.drop_first()
    } else {
        seq![gs[0]] + merge_entry(gs.drop_first(), x, items)
    }
}

/// Aggregation of raw grouped entries: entries sharing a category are merged
/// into one group, in encounter order.
pub open spec fn aggregate(input: Seq<(i64, Seq<StackItem>)>) -> Seq<(i64, Seq<StackItem>)>
    decreases input.len(),
{
    if input.len() == 0 {
        Seq::empty()
    } else {
        merge_entry(aggregate(input.drop_last()), input.last().0, input.last().1)
    }
}

/// Whether some entry of `s` carries the category `x`.
pub open spec fn has_key(s: Seq<(i64, Seq<StackItem>)>, x: i64) -> bool {
    exists|i: int| 0 <= i < s.len() && s[i].0 == x
}

/// All items that entries of category `x` contribute, in encounter order.
pub open spec fn items_for(input: Seq<(i64, Seq<StackItem>)>, x: i64) -> Seq<StackItem>
    decreases input.len(),
{
    if input.len() == 0 {
        Seq::empty()
    } else if input.last().0 == x {
        items_for(input.drop_last(), x) + input.last().1
    } else {
        items_for(input.drop_last(), x)
    }
}

/// Effect of `merge_entry` when `x` already has a group, at its unique index.
pub proof fn lemma_merge_entry_found(
    gs: Seq<(i64, Seq<StackItem>)>,
    x: i64,
    items: Seq<StackItem>,
    j: int,
)
    requires
        0 <= j < gs.len(),
        gs[j].0 == x,
        forall|i: int| 0 <= i < j ==> gs[i].0 != x,
    ensures
        merge_entry(gs, x, items) == gs.update(j, (x, gs[j].1 + items)),
    decreases j,
{
    if j == 0 {
        assert(merge_entry(gs, x, items) =~= gs.update(0, (x, gs[0].1 + items)));
    } else {
        lemma_merge_entry_found(gs.drop_first(), x, items, j - 1);
        assert(merge_entry(gs, x, items) =~= gs.update(j, (x, gs[j].1 + items)));
    }
}

/// Effect of `merge_entry` when no group carries `x`.
pub proof fn lemma_merge_entry_absent(gs: Seq<(i64, Seq<StackItem>)>, x: i64, items: Seq<StackItem>)
    requires
        forall|i: int| 0 <= i < gs.len() ==> gs[i].0 != x,
    ensures
        merge_entry(gs, x, items) == gs.push((x, items)),
    decreases gs.len(),
{
    if gs.len() == 0 {
        assert(merge_entry(gs, x, items) =~= gs.push((x, items)));
    } else {
        lemma_merge_entry_absent(gs.drop_first(), x, items);
        assert(merge_entry(gs, x, items) =~= gs.push((x, items)));
    }
}

/// Appends every item of `items` to the group of category `x`, or starts a
/// new group.
#[verifier::loop_isolation(false)]
fn merge_group(out: &mut Vec<(i64, Vec<StackItem>)>, x: i64, items: Vec<StackItem>)
    ensures
        groups_view(final(out)@) == merge_entry(groups_view(old(out)@), x, items@),
{
    let ghost gs = groups_view(old(out)@);
    let mut j: usize = 0;
    while j < out.len()
        invariant
            j <= out@.len(),
            out@ == old(out)@,
            forall|i: int| 0 <= i < j ==> gs[i].0 != x,
        decreases out@.len() - j,
    {
        if out[j].0 == x {
            proof {
                assert(gs[j as int] == (out@[j as int].0, out@[j as int].1@));
            }
            let ghost prev = out@;
            let mut entry = out.remove(j);
            let ghost entry0 = entry;
            let mut k: usize = 0;
            while k < items.len()
                invariant
                    k <= items@.len(),
                    entry.0 == entry0.0,
                    entry.1@ == entry0.1@ + items@.take(k as int),
                decreases items@.len() - k,
            {
                entry.1.push(items[k]);
                proof {
                    assert(entry.1@ =~= entry0.1@ + items@.take(k as int + 1));
                }
                k = k + 1;
            }
            proof {
                assert(entry.1@ =~= entry0.1@ + items@);
            }
            out.insert(j, entry);
            proof {
                lemma_merge_entry_found(gs, x, items@, j as int);
                let target = gs.update(j as int, (x, gs[j as int].1 + items@));
                assert forall|i: int| 0 <= i < groups_view(out@).len() implies groups_view(
                    out@,
                )[i] == target[i] by {
                    assert(groups_view(out@)[i] == (out@[i].0, out@[i].1@));
                    if i != j {
                        assert(out@[i] == prev[i]);
                        assert(gs[i] == (prev[i].0, prev[i].1@));
                    }
                };
                assert(groups_view(out@) =~= target);
            }
            return ;
        }
        j = j + 1;
    }
    let ghost prev = out@;
    out.push((x, items));
    proof {
        lemma_merge_entry_absent(gs, x, items@);
        let target = gs.push((x, items@));
        assert forall|i: int| 0 <= i < groups_view(out@).len() implies groups_view(out@)[i]
            == target[i] by {
            assert(groups_view(out@)[i] == (out@[i].0, out@[i].1@));
            if i < prev.len() {
                assert(out@[i] == prev[i]);
                assert(gs[i] == (prev[i].0, prev[i].1@));
            }
        };
        assert(groups_view(out@) =~= target);
    }
}

/// Aggregates raw entries: one group per distinct category, each holding the
/// concatenation of the items of its entries, in encounter order.
#[verifier::loop_isolation(false)]
fn aggregate_groups(input: Vec<(i64, Vec<StackItem>)>) -> (out: Vec<(i64, Vec<StackItem>)>)
    ensures
        groups_view(out@) == aggregate(groups_view(input@)),
{
    let ghost orig = groups_view(input@);
    let mut rest = input;
    let mut out: Vec<(i64, Vec<StackItem>)> = Vec::new();
    proof {
        assert(groups_view(out@) =~= aggregate(orig.take(0)));
        assert(groups_view(rest@) =~= orig.skip(0));
    }
    while rest.len() > 0
        invariant
            rest@.len() <= orig.len(),
            groups_view(rest@) == orig.skip(orig.len() - rest@.len()),
            groups_view(out@) == aggregate(orig.take(orig.len() - rest@.len())),
        decreases rest@.len(),
    {
        let ghost k = orig.len() - rest@.len();
        let ghost prev = rest@;
        let (x, items) = rest.remove(0);
        proof {
            assert(groups_view(prev)[0] == (prev[0].0, prev[0].1@));
            assert(groups_view(prev)[0] == orig.skip(k)[0]);
            assert((x, items@) == orig[k]);
            assert forall|i: int| 0 <= i < groups_view(rest@).len() implies groups_view(rest@)[i]
                == orig.skip(k + 1)[i] by {
                assert(groups_view(rest@)[i] == (rest@[i].0, rest@[i].1@));
                assert(rest@[i] == prev[i + 1]);
                assert(groups_view(prev)[i + 1] == (prev[i + 1].0, prev[i + 1].1@));
                assert(groups_view(prev)[i + 1] == orig.skip(k)[i + 1]);
            };
            assert(groups_view(rest@) =~= orig.skip(k + 1));
        }
        merge_group(&mut out, x, items);
        proof {
            assert(orig.take(k + 1).drop_last() =~= orig.take(k));
            assert(orig.take(k + 1).last() == orig[k]);
            assert(groups_view(out@) == merge_entry(aggregate(orig.take(k)), x, items@));
            assert(groups_view(out@) == aggregate(orig.take(k + 1)));
        }
    }
    proof {
        assert(orig.take(orig.len() as int) =~= orig);
        assert(groups_view(input@) == orig);
    }
    out
}

/// The sum of the first `k` amounts of `items`.
pub open spec fn sum_amounts(items: Seq<StackItem>, k: int) -> int
    decreases k,
{
    if k <= 0 {
        0
    } else {
        sum_amounts(items, k - 1) + items[k - 1].1
    }
}

/// The segments a vertical stack still emits, one per item of `items[k..]`:
/// each spans the category slot `[x, x + 1)` and the value interval from the
/// running top `base` to `base` plus its own amount, with the margin on the
/// category-axis sides only.
pub open spec fn stack_rects<S: StyleFn>(
    sty: StylePolicy<S>,
    m: u32,
    x: i64,
    items: Seq<StackItem>,
    k: int,
    base: int,
) -> Seq<RectModel>
    decreases items.len() - k,
{
    if k < 0 || k >= items.len() {
        Seq::empty()
    } else {
        seq![
            (RectModel {
                c0: (x as int, base + items[k].1),
                c1: (x as int + 1, base),
                style: sty.at(x, items[k].0, items[k].1),
                margin: (0u32, 0u32, m, m),
            }),
        ] + stack_rects(sty, m, x, items, k + 1, base + items[k].1)
    }
}

/// The placeholder a category with no stacked items emits in vertical
/// orientation: zero extent at the category's slot and the zero amount,
/// fully transparent, with no margins.
pub open spec fn placeholder_rect(x: i64) -> RectModel {
    RectModel {
        c0: (x as int, 0),
        c1: (x as int, 0),
        style: transparent_fill(),
        margin: (0u32, 0u32, 0u32, 0u32),
    }
}

/// Everything one category's group emits in vertical orientation.
pub open spec fn group_rects<S: StyleFn, B: BaselineFn>(
    sty: StylePolicy<S>,
    bl: BaselinePolicy<B>,
    m: u32,
    x: i64,
    items: Seq<StackItem>,
) -> Seq<RectModel> {
    if items.len() == 0 {
        seq![placeholder_rect(x)]
    } else {
        stack_rects(sty, m, x, items, 0, bl.at(x) as int)
    }
}

/// Everything the groups from index `i` on emit in vertical orientation.
pub open spec fn rects_from<S: StyleFn, B: BaselineFn>(
    sty: StylePolicy<S>,
    bl: BaselinePolicy<B>,
    m: u32,
    gs: Seq<(i64, Seq<StackItem>)>,
    i: int,
) -> Seq<RectModel>
    decreases gs.len() - i,
{
    if i < 0 || i >= gs.len() {
        Seq::empty()
    } else {
        group_rects(sty, bl, m, gs[i].0, gs[i].1) + rects_from(sty, bl, m, gs, i + 1)
    }
}

/// Every accumulated edge of `items[k..]`, reached from the running top
/// `base`, fits in the amount type.
pub open spec fn stack_fits(items: Seq<StackItem>, k: int, base: int) -> bool {
    forall|j: int|
        k <= j <= items.len() ==> i64::MIN <= base + #[trigger] sum_amounts(items, j)
            - sum_amounts(items, k) <= i64::MAX
}

/// A group the vertical emitter can process: its category has a successor
/// within the domain, and every edge of its stack fits.
pub open spec fn group_fits<B: BaselineFn>(bl: BaselinePolicy<B>, g: (i64, Seq<StackItem>)) -> bool {
    g.0 < i64::MAX && (g.1.len() > 0 ==> stack_fits(g.1, 0, bl.at(g.0) as int))
}

/// The one rectangle a category emits in horizontal orientation: built from
/// the first stacked item only, spanning the value interval from that item's
/// amount back to the baseline and the category slot `[y, y + 1)`, with the
/// margin on the category-axis (top and bottom) sides.
pub open spec fn horiz_rect<S: StyleFn, B: BaselineFn>(
    sty: StylePolicy<S>,
    bl: BaselinePolicy<B>,
    m: u32,
    y: i64,
    first: StackItem,
) -> RectModel {
    RectModel {
        c0: (first.1 as int, y as int),
        c1: (bl.at(y) as int, y as int + 1),
        style: sty.at(y, first.0, first.1),
        margin: (m, m, 0u32, 0u32),
    }
}

/// Marks an orientation of the series.
pub trait BarSeriesType {

}

/// Bars rise from the category axis along the value axis.
#[derive(Debug)]
pub struct Vertical;

/// Bars extend along the value axis beside the category axis.
#[derive(Debug)]
pub struct Horizontal;

impl BarSeriesType for Vertical {

}

impl BarSeriesType for Horizontal {

}

/// The series that aggregates data into a bar chart and yields one rectangle
/// per pull.
pub struct BarSeries<S, B, Tag: BarSeriesType> {
    style: StylePolicy<S>,
    margin: u32,
    groups: Vec<(i64, Vec<StackItem>)>,
    pos: usize,
    sub_pos: usize,
    sub_info: Option<(i64, i64)>,
    baseline: BaselinePolicy<B>,
    _tag: PhantomData<Tag>,
}

impl<S, B, Tag: BarSeriesType> BarSeries<S, B, Tag> {
    /// The style policy in force.
    pub closed spec fn spec_style(self) -> StylePolicy<S> {
        self.style
    }

    /// The baseline policy in force.
    pub closed spec fn spec_baseline(self) -> BaselinePolicy<B> {
        self.baseline
    }

    /// The configured margin magnitude.
    pub closed spec fn spec_margin(self) -> u32 {
        self.margin
    }

    /// The aggregated groups, one per distinct category.
    pub closed spec fn spec_groups(self) -> Seq<(i64, Seq<StackItem>)> {
        groups_view(self.groups@)
    }

    /// How many groups have already been entered.
    pub closed spec fn spec_pos(self) -> int {
        self.pos as int
    }

    /// The pending stack, if the series is mid-category: the category, the
    /// accumulated top so far, and the index of the next item to emit within
    /// the current group.
    pub closed spec fn spec_stack(self) -> Option<(i64, i64, int)> {
        match self.sub_info {
            Some(p) => Some((p.0, p.1, self.sub_pos as int)),
            None => None,
        }
    }

    /// A series with no data: default style, margin 5, zero baseline.
    fn empty() -> (r: Self)
        ensures
            r.spec_style() == StylePolicy::<S>::Constant(default_fill()),
            r.spec_baseline() == BaselinePolicy::<B>::Constant(0i64),
            r.spec_margin() == 5,
            r.spec_groups() == Seq::<(i64, Seq<StackItem>)>::empty(),
            r.spec_pos() == 0,
            r.spec_stack() is None,
    {
        let r = BarSeries {
            style: StylePolicy::Constant(make_default_fill()),
            margin: 5,
            groups: Vec::new(),
            pos: 0,
            sub_pos: 0,
            sub_info: None,
            baseline: BaselinePolicy::Constant(0i64),
            _tag: PhantomData,
        };
        proof {
            assert(r.spec_groups() =~= Seq::<(i64, Seq<StackItem>)>::empty());
        }
        r
    }

    /// Sets one constant style for every bar.
    pub fn style(self, style: ShapeStyle) -> (r: Self)
        ensures
            r.spec_style() == StylePolicy::<S>::Constant(style),
            r.spec_baseline() == self.spec_baseline(),
            r.spec_margin() == self.spec_margin(),
            r.spec_groups() == self.spec_groups(),
            r.spec_pos() == self.spec_pos(),
            r.spec_stack() == self.spec_stack(),
    {
        BarSeries { style: StylePolicy::Constant(style), ..self }
    }

    /// Sets a per-segment style rule.
    pub fn style_func(self, style_func: S) -> (r: Self)
        ensures
            r.spec_style() == StylePolicy::<S>::Func(style_func),
            r.spec_baseline() == self.spec_baseline(),
            r.spec_margin() == self.spec_margin(),
            r.spec_groups() == self.spec_groups(),
            r.spec_pos() == self.spec_pos(),
            r.spec_stack() == self.spec_stack(),
    {
        BarSeries { style: StylePolicy::Func(style_func), ..self }
    }

    /// Sets one constant baseline for every category.
    pub fn baseline(self, baseline: i64) -> (r: Self)
        ensures
            r.spec_baseline() == BaselinePolicy::<B>::Constant(baseline),
            r.spec_style() == self.spec_style(),
            r.spec_margin() == self.spec_margin(),
            r.spec_groups() == self.spec_groups(),
            r.spec_pos() == self.spec_pos(),
            r.spec_stack() == self.spec_stack(),
    {
        BarSeries { baseline: BaselinePolicy::Constant(baseline), ..self }
    }

    /// Sets a per-category baseline rule.
    pub fn baseline_func(self, func: B) -> (r: Self)
        ensures
            r.spec_baseline() == BaselinePolicy::<B>::Func(func),
            r.spec_style() == self.spec_style(),
            r.spec_margin() == self.spec_margin(),
            r.spec_groups() == self.spec_groups(),
            r.spec_pos() == self.spec_pos(),
            r.spec_stack() == self.spec_stack(),
    {
        BarSeries { baseline: BaselinePolicy::Func(func), ..self }
    }

    /// Sets the margin magnitude applied on the category-axis sides of each
    /// bar.
    pub fn margin(self, value: u32) -> (r: Self)
        ensures
            r.spec_margin() == value,
            r.spec_style() == self.spec_style(),
            r.spec_baseline() == self.spec_baseline(),
            r.spec_groups() == self.spec_groups(),
            r.spec_pos() == self.spec_pos(),
            r.spec_stack() == self.spec_stack(),
    {
        BarSeries { margin: value, ..self }
    }

    /// Replaces the data with the aggregation of `input`; emission restarts
    /// from the first group.
    pub fn data(self, input: Vec<(i64, Vec<StackItem>)>) -> (r: Self)
        ensures
            r.spec_groups() == aggregate(groups_view(input@)),
            r.spec_pos() == 0,
            r.spec_stack() is None,
            r.spec_style() == self.spec_style(),
            r.spec_baseline() == self.spec_baseline(),
            r.spec_margin() == self.spec_margin(),
    {
        let groups = aggregate_groups(input);
        BarSeries { groups, pos: 0, sub_pos: 0, sub_info: None, ..self }
    }
}

impl<S: StyleFn, B: BaselineFn> BarSeries<S, B, Vertical> {
    /// Well-formed for vertical emission: the groups not yet entered can be
    /// processed, and a pending stack points into the group it was started
    /// on, with edges that fit.
    pub open spec fn wf(self) -> bool {
        &&& 0 <= self.spec_pos() <= self.spec_groups().len()
        &&& forall|i: int|
            self.spec_pos() <= i < self.spec_groups().len() ==> group_fits(
                self.spec_baseline(),
                #[trigger] self.spec_groups()[i],
            )
        &&& match self.spec_stack() {
            Some((x, base, k)) => {
                &&& 1 <= self.spec_pos() <= self.spec_groups().len()
                &&& x == self.spec_groups()[self.spec_pos() - 1].0
                &&& x < i64::MAX
                &&& 0 <= k < self.spec_groups()[self.spec_pos() - 1].1.len()
                &&& stack_fits(self.spec_groups()[self.spec_pos() - 1].1, k, base as int)
            },
            None => true,
        }
    }

    /// The rectangles the future pulls of a vertical series yield, in order:
    /// what is left of the pending stack, then everything the groups not yet
    /// entered emit.
    pub open spec fn remaining(self) -> Seq<RectModel> {
        (match self.spec_stack() {
            Some((x, base, k)) => stack_rects(
                self.spec_style(),
                self.spec_margin(),
                x,
                self.spec_groups()[self.spec_pos() - 1].1,
                k,
                base as int,
            ),
            None => Seq::empty(),
        }) + rects_from(
            self.spec_style(),
            self.spec_baseline(),
            self.spec_margin(),
            self.spec_groups(),
            self.spec_pos(),
        )
    }
}

impl<S: StyleFn, B: BaselineFn> BarSeries<S, B, Horizontal> {
    /// Well-formed for horizontal emission: every category not yet entered
    /// has a successor within the domain.
    pub open spec fn wf_h(self) -> bool {
        &&& 0 <= self.spec_pos() <= self.spec_groups().len()
        &&& forall|i: int|
            self.spec_pos() <= i < self.spec_groups().len() ==> (
            #[trigger] self.spec_groups()[i]).0 < i64::MAX
    }

    /// One pull of the horizontal emitter. Each pull consumes one group:
    /// a group with stacked items yields exactly one rectangle, built from
    /// the first item alone (the rest are dropped); a group with none yields
    /// nothing for that pull. Once the groups are consumed, every further
    /// pull signals exhaustion.
    pub fn next(&mut self) -> (r: Option<Rectangle>)
        requires
            old(self).wf_h(),
        ensures
            final(self).wf_h(),
            final(self).spec_style() == old(self).spec_style(),
            final(self).spec_baseline() == old(self).spec_baseline(),
            final(self).spec_margin() == old(self).spec_margin(),
            final(self).spec_groups() == old(self).spec_groups(),
            final(self).spec_stack() == old(self).spec_stack(),
            old(self).spec_pos() == old(self).spec_groups().len() ==> r is None
                && final(self).spec_pos() == old(self).spec_pos(),
            old(self).spec_pos() < old(self).spec_groups().len() ==> {
                let g = old(self).spec_groups()[old(self).spec_pos()];
                &&& final(self).spec_pos() == old(self).spec_pos() + 1
                &&& (g.1.len() == 0 <==> r is None)
                &&& g.1.len() > 0 ==> r->Some_0@ == horiz_rect(
                    old(self).spec_style(),
                    old(self).spec_baseline(),
                    old(self).spec_margin(),
                    g.0,
                    g.1[0],
                )
            },
    {
        if self.pos < self.groups.len() {
            let idx = self.pos;
            let y = self.groups[idx].0;
            proof {
                assert(self.spec_groups()[idx as int] == (
                    self.groups@[idx as int].0,
                    self.groups@[idx as int].1@,
                ));
            }
            self.pos = idx + 1;
            if self.groups[idx].1.len() > 0 {
                let base = self.baseline.eval(y);
                let (data_id, x_coord) = self.groups[idx].1[0];
                let style = self.style.eval(y, data_id, x_coord);
                let mut rect = Rectangle::new((x_coord, y), (base, y + 1), style);
                rect.set_margin(self.margin, self.margin, 0, 0);
                Some(rect)
            } else {
                None
            }
        } else {
            None
        }
    }
}

impl<S: StyleFn, B: BaselineFn> BarSeries<S, B, Vertical> {
    /// One pull of the vertical emitter: yields the first of the remaining
    /// rectangles and drops it from the model, or signals exhaustion; an
    /// exhausted series stays exhausted.
    pub fn next(&mut self) -> (r: Option<Rectangle>)
        requires
            old(self).wf(),
        ensures
            final(self).wf(),
            final(self).spec_style() == old(self).spec_style(),
            final(self).spec_baseline() == old(self).spec_baseline(),
            final(self).spec_margin() == old(self).spec_margin(),
            final(self).spec_groups() == old(self).spec_groups(),
            old(self).remaining().len() == 0 ==> r is None && final(self).remaining()
                == Seq::<RectModel>::empty(),
            old(self).remaining().len() > 0 ==> r is Some && r->Some_0@ == old(
                self,
            ).remaining()[0] && final(self).remaining() == old(self).remaining().drop_first(),
    {
        if let Some((x, base)) = self.sub_info {
            let idx = self.pos - 1;
            let k = self.sub_pos;
            let ghost items = self.spec_groups()[idx as int].1;
            proof {
                assert(self.spec_groups()[idx as int] == (
                    self.groups@[idx as int].0,
                    self.groups@[idx as int].1@,
                ));
                assert(sum_amounts(items, k + 1) == sum_amounts(items, k as int) + items[
                    k as int].1);
            }
            let (data_id, amount) = self.groups[idx].1[k];
            let top = base + amount;
            let style = self.style.eval(x, data_id, amount);
            let mut rect = Rectangle::new((x, top), (x + 1, base), style);
            rect.set_margin(0, 0, self.margin, self.margin);
            let len = self.groups[idx].1.len();
            assert(k < len);
            self.sub_pos = k + 1;
            if self.sub_pos < len {
                self.sub_info = Some((x, top));
            } else {
                self.sub_info = None;
            }
            proof {
                let sty = old(self).spec_style();
                let bl = old(self).spec_baseline();
                let m = old(self).spec_margin();
                let gs = old(self).spec_groups();
                let pos = old(self).spec_pos();
                let tail = rects_from(sty, bl, m, gs, pos);
                let head = stack_rects(sty, m, x, items, k as int, base as int);
                assert(head == seq![(rect@)] + stack_rects(
                    sty,
                    m,
                    x,
                    items,
                    k + 1,
                    base as int + items[k as int].1,
                ));
                assert forall|j: int| k + 1 <= j <= items.len() implies i64::MIN <= top as int
                    + #[trigger] sum_amounts(items, j) - sum_amounts(items, k + 1) <= i64::MAX by {
                    assert(top as int + sum_amounts(items, j) - sum_amounts(items, k + 1)
                        == base as int + sum_amounts(items, j) - sum_amounts(items, k as int));
                };
                assert(stack_fits(items, k + 1, top as int));
                assert(old(self).remaining() =~= seq![(rect@)] + (stack_rects(
                    sty,
                    m,
                    x,
                    items,
                    k + 1,
                    top as int,
                ) + tail));
                assert(final(self).remaining() =~= stack_rects(sty, m, x, items, k + 1, top as int)
                    + tail);
                assert(final(self).remaining() =~= old(self).remaining().drop_first());
            }
            return Some(rect);
        }
        if self.pos < self.groups.len() {
            let idx = self.pos;
            let x = self.groups[idx].0;
            let y_len = self.groups[idx].1.len();
            let ghost items = self.spec_groups()[idx as int].1;
            proof {
                assert(self.spec_groups()[idx as int] == (
                    self.groups@[idx as int].0,
                    self.groups@[idx as int].1@,
                ));
                assert(group_fits(old(self).spec_baseline(), old(self).spec_groups()[idx as int]));
            }
            self.pos = idx + 1;
            let ghost sty = old(self).spec_style();
            let ghost bl = old(self).spec_baseline();
            let ghost m = old(self).spec_margin();
            let ghost gs = old(self).spec_groups();
            let ghost tail = rects_from(sty, bl, m, gs, idx as int + 1);
            proof {
                assert(rects_from(sty, bl, m, gs, idx as int) == group_rects(
                    sty,
                    bl,
                    m,
                    gs[idx as int].0,
                    gs[idx as int].1,
                ) + tail);
                assert(old(self).remaining() =~= group_rects(sty, bl, m, x, items) + tail);
            }
            if y_len > 0 {
                let base = self.baseline.eval(x);
                proof {
                    assert(stack_fits(items, 0, base as int));
                    assert(sum_amounts(items, 0) == 0);
                    assert(sum_amounts(items, 1) == items[0].1);
                }
                let (data_id, amount) = self.groups[idx].1[0];
                let top = base + amount;
                let style = self.style.eval(x, data_id, amount);
                let mut rect = Rectangle::new((x, top), (x + 1, base), style);
                rect.set_margin(0, 0, self.margin, self.margin);
                if y_len > 1 {
                    self.sub_info = Some((x, top));
                    self.sub_pos = 1;
                } else {
                    self.sub_info = None;
                }
                proof {
                    assert(group_rects(sty, bl, m, x, items) == stack_rects(
                        sty,
                        m,
                        x,
                        items,
                        0,
                        base as int,
                    ));
                    assert(stack_rects(sty, m, x, items, 0, base as int) == seq![(rect@)]
                        + stack_rects(sty, m, x, items, 1, base as int + items[0].1));
                    assert forall|j: int| 1 <= j <= items.len() implies i64::MIN <= top as int
                        + #[trigger] sum_amounts(items, j) - sum_amounts(items, 1) <= i64::MAX by {
                        assert(top as int + sum_amounts(items, j) - sum_amounts(items, 1)
                            == base as int + sum_amounts(items, j) - sum_amounts(items, 0));
                    };
                    assert(stack_fits(items, 1, top as int));
                    assert(old(self).remaining() =~= seq![(rect@)] + (stack_rects(
                        sty,
                        m,
                        x,
                        items,
                        1,
                        top as int,
                    ) + tail));
                    if items.len() > 1 {
                        assert(final(self).remaining() =~= stack_rects(
                            sty,
                            m,
                            x,
                            items,
                            1,
                            top as int,
                        ) + tail);
                    } else {
                        assert(stack_rects(sty, m, x, items, 1, top as int)
                            == Seq::<RectModel>::empty());
                        assert(final(self).remaining() =~= tail);
                        assert(final(self).remaining() =~= stack_rects(
                            sty,
                            m,
                            x,
                            items,
                            1,
                            top as int,
                        ) + tail);
                    }
                    assert(final(self).remaining() =~= old(self).remaining().drop_first());
                }
                Some(rect)
            } else {
                let mut rect = Rectangle::new((x, 0), (x, 0), make_transparent_fill());
                rect.set_margin(0, 0, 0, 0);
                self.sub_info = None;
                proof {
                    assert(group_rects(sty, bl, m, x, items) == seq![placeholder_rect(x)]);
                    assert(rect@ == placeholder_rect(x));
                    assert(old(self).remaining() =~= seq![(rect@)] + tail);
                    assert(final(self).remaining() =~= tail);
                    assert(final(self).remaining() =~= old(self).remaining().drop_first());
                }
                Some(rect)
            }
        } else {
            proof {
                assert(old(self).remaining() =~= Seq::<RectModel>::empty());
                assert(final(self).remaining() =~= Seq::<RectModel>::empty());
            }
            None
        }
    }
}

impl<S, B> BarSeries<S, B, Vertical> {
    /// A new vertical series over the aggregation of `data`, with the given
    /// margin and one constant style; the baseline is zero.
    pub fn new(data: Vec<(i64, Vec<StackItem>)>, margin: u32, style: ShapeStyle) -> (r: Self)
        ensures
            r.spec_groups() == aggregate(groups_view(data@)),
            r.spec_pos() == 0,
            r.spec_stack() is None,
            r.spec_style() == StylePolicy::<S>::Constant(style),
            r.spec_baseline() == BaselinePolicy::<B>::Constant(0i64),
            r.spec_margin() == margin,
    {
        Self::empty().margin(margin).style(style).data(data)
    }

    /// An empty vertical series, to be filled by the builder calls.
    pub fn vertical() -> (r: Self)
        ensures
            r.spec_style() == StylePolicy::<S>::Constant(default_fill()),
            r.spec_baseline() == BaselinePolicy::<B>::Constant(0i64),
            r.spec_margin() == 5,
            r.spec_groups() == Seq::<(i64, Seq<StackItem>)>::empty(),
            r.spec_pos() == 0,
            r.spec_stack() is None,
    {
        Self::empty()
    }
}

impl<S, B> BarSeries<S, B, Horizontal> {
    /// An empty horizontal series, to be filled by the builder calls.
    pub fn horizontal() -> (r: Self)
        ensures
            r.spec_style() == StylePolicy::<S>::Constant(default_fill()),
            r.spec_baseline() == BaselinePolicy::<B>::Constant(0i64),
            r.spec_margin() == 5,
            r.spec_groups() == Seq::<(i64, Seq<StackItem>)>::empty(),
            r.spec_pos() == 0,
            r.spec_stack() is None,
    {
        Self::empty()
    }
}

} // verus!
