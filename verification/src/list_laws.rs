//! What is picked out of a list, and the greatest of one.
use vstd::prelude::*;

use crate::can::CanIdentifier;
use crate::can_builder::{buses_spec, identifier_from};
use crate::canopen_inspector::{tpdo_kinds, tpdo_total};
use crate::clock::TIME_STEPS;
use crate::export::dialog::without_item;
use crate::export::drawing::widest_spec;
use crate::export::figure::{covering_step, is_open, long_runs, still_open, widest_of};
use crate::export::ExportItem;
use crate::media_view::{bucket_above, bucket_below, bucket_time};
use crate::model::SourceId;
use crate::panes::{has_series, PlotSpec, Plots};
use crate::sidebar::targets_spec;
use crate::tank::Tanks;

verus! {

broadcast use vstd::seq_lib::group_seq_properties;

proof fn lemma_pushed<T>(s: Seq<T>, last: T, x: T)
    ensures
        s.push(last).contains(x) <==> s.contains(x) || x == last,
{
    if s.contains(x) {
        assert(s.push(last)[s.index_of(x)] == x);
    }
    assert(s.push(last)[s.len() as int] == last);
    if s.push(last).contains(x) {
        let i = s.push(last).index_of(x);
        if i < s.len() {
            assert(s[i] == x);
        }
    }
}

/// A series can be added to the graphs that do not show it, and only to those.
pub proof fn a_target_does_not_show_the_series(
    list: Seq<PlotSpec>,
    source: SourceId,
    series: Seq<char>,
    n: nat,
    i: usize,
)
    requires
        n <= list.len(),
        n <= usize::MAX,
    ensures
        targets_spec(list, source, series, n).contains(i) <==> i < n && !has_series(
            list[i as int].entries@,
            source,
            series,
        ),
    decreases n,
{
    if n > 0 {
        a_target_does_not_show_the_series(list, source, series, (n - 1) as nat, i);
        lemma_pushed(targets_spec(list, source, series, (n - 1) as nat), (n - 1) as usize, i);
    }
}

/// What is exported is what was chosen and is still open.
pub proof fn what_is_closed_is_not_exported(
    ids: Seq<ExportItem>,
    plots: Plots,
    tanks: Tanks,
    n: nat,
    item: ExportItem,
)
    requires
        n <= ids.len(),
    ensures
        still_open(ids, plots, tanks, n).contains(item) <==> ids.take(n as int).contains(item)
            && is_open(item, plots, tanks),
    decreases n,
{
    if n > 0 {
        let before = (n - 1) as nat;
        what_is_closed_is_not_exported(ids, plots, tanks, before, item);
        lemma_pushed(still_open(ids, plots, tanks, before), ids[n - 1], item);
        assert(ids.take(n as int) =~= ids.take(before as int).push(ids[n - 1]));
        lemma_pushed(ids.take(before as int), ids[n - 1], item);
    }
}

/// Taking an item off a selection takes off that one alone.
pub proof fn only_the_item_is_taken_off(items: Seq<ExportItem>, item: ExportItem, other: ExportItem)
    ensures
        without_item(items, item).contains(other) <==> items.contains(other) && other != item,
    decreases items.len(),
{
    if items.len() > 0 {
        let front = items.drop_last();
        only_the_item_is_taken_off(front, item, other);
        lemma_pushed(without_item(front, item), items.last(), other);
        assert(items =~= front.push(items.last()));
        lemma_pushed(front, items.last(), other);
    }
}

/// A bus is offered if an identifier was heard on it, and once.
pub proof fn a_bus_is_offered_once(identifiers: Seq<CanIdentifier>, n: nat, bus: u8)
    requires
        n <= identifiers.len(),
    ensures
        buses_spec(identifiers, n).contains(bus) <==> exists|i: int|
            0 <= i < n && (#[trigger] identifiers[i]).bus == bus,
        buses_spec(identifiers, n).no_duplicates(),
    decreases n,
{
    if n > 0 {
        let before = (n - 1) as nat;
        a_bus_is_offered_once(identifiers, before, bus);
        lemma_pushed(buses_spec(identifiers, before), identifiers[n - 1].bus, bus);
        if exists|i: int| 0 <= i < n && (#[trigger] identifiers[i]).bus == bus {
            let i = choose|i: int| 0 <= i < n && (#[trigger] identifiers[i]).bus == bus;
            if i < n - 1 {
                assert(identifiers[i].bus == bus);
            }
        }
        if identifiers[n - 1].bus == bus {
            assert(identifiers[n - 1].bus == bus);
        }
    }
}

/// An identifier is found by its number, the first of several.
pub proof fn an_identifier_is_found_by_its_number(
    identifiers: Seq<CanIdentifier>,
    id: u32,
    from: int,
)
    requires
        0 <= from <= identifiers.len(),
    ensures
        match identifier_from(identifiers, id, from) {
            Some(i) => from <= i < identifiers.len() && identifiers[i].id == id && forall|k: int|
                from <= k < i ==> (#[trigger] identifiers[k]).id != id,
            None => forall|k: int|
                from <= k < identifiers.len() ==> (#[trigger] identifiers[k]).id != id,
        },
    decreases identifiers.len() - from,
{
    if from < identifiers.len() && identifiers[from].id != id {
        an_identifier_is_found_by_its_number(identifiers, id, from + 1);
    }
}

/// The widest of some needs is one of them or the least there is room for, and no need is wider.
pub proof fn no_need_is_wider(base: int, needs: Seq<i64>, i: int)
    ensures
        widest_of(base, needs) >= base,
        0 <= i < needs.len() ==> widest_of(base, needs) >= needs[i],
        widest_of(base, needs) == base || exists|k: int|
            0 <= k < needs.len() && #[trigger] needs[k] == widest_of(base, needs),
    decreases needs.len(),
{
    if needs.len() > 0 {
        let front = needs.drop_last();
        no_need_is_wider(base, front, i);
        assert(needs[needs.len() - 1] == needs.last());
        if i < front.len() && 0 <= i {
            assert(front[i] == needs[i]);
        }
        if needs.last() <= widest_of(base, front) && widest_of(base, front) != base {
            let k = choose|k: int|
                0 <= k < front.len() && #[trigger] front[k] == widest_of(base, front);
            assert(needs[k] == front[k]);
        }
    }
}

/// The widest of some widths is one of them, and none is wider.
pub proof fn no_width_is_wider(widths: Seq<u32>, i: int)
    ensures
        0 <= i < widths.len() ==> widest_spec(widths) >= widths[i],
        widths.len() > 0 ==> exists|k: int|
            0 <= k < widths.len() && #[trigger] widths[k] == widest_spec(widths),
    decreases widths.len(),
{
    if widths.len() > 0 {
        let front = widths.drop_last();
        no_width_is_wider(front, i);
        assert(widths[widths.len() - 1] == widths.last());
        if i < front.len() && 0 <= i {
            assert(front[i] == widths[i]);
        }
        if widths.last() <= widest_spec(front) && front.len() > 0 {
            let k = choose|k: int|
                0 <= k < front.len() && #[trigger] front[k] == widest_spec(front);
            assert(widths[k] == front[k]);
        }
    }
}

/// A stretch can be shaded if it is of two heights or more: from its first to its last.
pub proof fn a_stretch_of_one_is_not_shaded(
    runs: Seq<(usize, usize)>,
    n: nat,
    start: usize,
    last: usize,
)
    requires
        n <= runs.len(),
        last < usize::MAX,
        forall|k: int| 0 <= k < n ==> (#[trigger] runs[k]).0 < runs[k].1,
    ensures
        long_runs(runs, n).contains((start, last)) <==> start < last && exists|k: int|
            0 <= k < n && #[trigger] runs[k] == (start, (last + 1) as usize),
    decreases n,
{
    if n > 0 {
        let before = (n - 1) as nat;
        a_stretch_of_one_is_not_shaded(runs, before, start, last);
        let (s, e) = runs[n - 1];
        lemma_pushed(long_runs(runs, before), (s, (e - 1) as usize), (start, last));
        if start < last && exists|k: int|
            0 <= k < n && #[trigger] runs[k] == (start, (last + 1) as usize) {
            let k = choose|k: int|
                0 <= k < n && #[trigger] runs[k] == (start, (last + 1) as usize);
            if k < n - 1 {
                assert(runs[k] == (start, (last + 1) as usize));
            }
        }
        if s == start && e == last + 1 {
            assert(runs[n - 1] == (start, (last + 1) as usize));
        }
    }
}

/// Every broadcast is counted, whichever kind it is of.
pub proof fn one_more_broadcast_counts(frames: Seq<usize>, n: nat, k: int, more: usize)
    requires
        n <= frames.len(),
        0 <= k < n,
        frames[k] <= more,
    ensures
        tpdo_total(frames.update(k, more), n) - tpdo_total(frames, n) == more - frames[k],
    decreases n,
{
    let after = frames.update(k, more);
    if k == n - 1 {
        lemma_same_total(frames, after, (n - 1) as nat);
    } else {
        one_more_broadcast_counts(frames, (n - 1) as nat, k, more);
        assert(after[n - 1] == frames[n - 1]);
    }
}

proof fn lemma_same_total(a: Seq<usize>, b: Seq<usize>, n: nat)
    requires
        n <= a.len(),
        n <= b.len(),
        forall|k: int| 0 <= k < n ==> a[k] == #[trigger] b[k],
    ensures
        tpdo_total(a, n) == tpdo_total(b, n),
    decreases n,
{
    if n > 0 {
        lemma_same_total(a, b, (n - 1) as nat);
        assert(a[n - 1] == b[n - 1]);
    }
}

/// The kinds that are named are as many as were heard.
pub proof fn a_silent_kind_is_not_named(frames: Seq<usize>, n: nat)
    requires
        n <= frames.len(),
    ensures
        tpdo_kinds(frames, n).len() <= n,
        (forall|k: int| 0 <= k < n ==> #[trigger] frames[k] == 0) ==> tpdo_kinds(frames, n).len()
            == 0,
        (forall|k: int| 0 <= k < n ==> #[trigger] frames[k] > 0) ==> tpdo_kinds(frames, n).len()
            == n,
    decreases n,
{
    if n > 0 {
        a_silent_kind_is_not_named(frames, (n - 1) as nat);
        if forall|k: int| 0 <= k < n ==> #[trigger] frames[k] == 0 {
            assert(frames[n - 1] == 0);
        }
        if forall|k: int| 0 <= k < n ==> #[trigger] frames[k] > 0 {
            assert(frames[n - 1] > 0);
        }
    }
}

/// The step between ticks is the finest with which no more of them than wanted cover a span.
pub proof fn no_finer_step_covers(span: int, wanted: int, from: int, k: int)
    requires
        0 <= from <= 25,
    ensures
        ({
            let i = covering_step(span, wanted, from);
            &&& from <= i <= 25
            &&& i < 25 ==> TIME_STEPS@[i] * wanted >= span
            &&& from <= k < i ==> TIME_STEPS@[k] * wanted < span
        }),
    decreases 25 - from,
{
    if from < 25 && TIME_STEPS@[from] * wanted < span {
        no_finer_step_covers(span, wanted, from + 1, k);
    }
}

/// No bucket of a waveform that reaches into the view is left out of it.
pub proof fn a_bucket_in_view_is_drawn(
    view_start: i64,
    view_end: i64,
    base: i64,
    duration: i64,
    n: int,
    i: int,
)
    requires
        duration > 0,
        0 <= i < n,
        bucket_time(base, duration, n, i + 1) > view_start,
        bucket_time(base, duration, n, i) < view_end,
    ensures
        bucket_below(view_start - base, duration as int, n) <= i,
        i < bucket_above(view_end - base, duration as int, n),
{
    let d = duration as int;
    let (d0, d1) = (view_start - base, view_end - base);
    let lo = bucket_below(d0, d, n);
    if d0 > 0 && lo > i {
        let q = d0 * n / d;
        vstd::arithmetic::div_mod::lemma_fundamental_div_mod(d0 * n, d);
        vstd::arithmetic::div_mod::lemma_mod_bound(d0 * n, d);
        assert(q >= i + 1);
        assert((i + 1) * d <= d0 * n) by (nonlinear_arith)
            requires
                d * q <= d0 * n,
                i + 1 <= q,
                d > 0,
        ;
        assert((i + 1) * d / n <= d0) by (nonlinear_arith)
            requires
                (i + 1) * d <= d0 * n,
                n > 0,
        ;
    }
    let hi = bucket_above(d1, d, n);
    if i >= hi {
        let up = if d1 <= 0 {
            0
        } else {
            (d1 * n + d - 1) / d
        };
        assert(i >= up + 1);
        if d1 > 0 {
            vstd::arithmetic::div_mod::lemma_fundamental_div_mod(d1 * n + d - 1, d);
            vstd::arithmetic::div_mod::lemma_mod_bound(d1 * n + d - 1, d);
            assert(i * d >= d1 * n) by (nonlinear_arith)
                requires
                    d * up >= d1 * n + d - 1 - (d - 1),
                    i >= up,
                    d > 0,
            ;
            assert(i * d / n >= d1) by (nonlinear_arith)
                requires
                    i * d >= d1 * n,
                    n > 0,
            ;
        } else {
            assert(i * d / n >= 0) by (nonlinear_arith)
                requires
                    i >= 0,
                    d > 0,
                    n > 0,
            ;
        }
    }
}

} // verus!
