//! What a request to the workspace leaves alone, and what it brings about.
use vstd::prelude::*;

use crate::model::SourceId;
use crate::panes::{
    empty_ids, has_series, is_entry, without, Pane, PlotAxis, PlotId, PlotSpec, Plots,
};
use crate::session_laws::{
    an_empty_graph_has_no_entries, only_the_closed_graph_goes, only_what_was_named_is_taken_out,
};
use crate::workspace::{
    with_pane, without_pane, without_plot_panes, without_plots, PendingAction, Workspace,
};

verus! {

broadcast use vstd::seq_lib::group_seq_properties;

/// Closing a pane leaves the others, and it leaves none of that one.
pub proof fn only_the_closed_pane_goes(panes: Seq<Pane>, pane: Pane, p: Pane)
    ensures
        without_pane(panes, pane).contains(p) <==> panes.contains(p) && p != pane,
    decreases panes.len(),
{
    if panes.len() > 0 {
        let front = panes.drop_last();
        only_the_closed_pane_goes(front, pane, p);
        let last = panes.last();
        assert(panes.contains(p) <==> front.contains(p) || p == last) by {
            if front.contains(p) {
                assert(panes[front.index_of(p)] == p);
            }
            if panes.contains(p) {
                let i = panes.index_of(p);
                if i < front.len() {
                    assert(front[i] == p);
                }
            }
            if p == last {
                assert(panes[front.len() as int] == p);
            }
        }
        let rest = without_pane(front, pane);
        assert(rest.push(last).contains(p) <==> rest.contains(p) || p == last) by {
            if rest.contains(p) {
                assert(rest.push(last)[rest.index_of(p)] == p);
            }
            assert(rest.push(last)[rest.len() as int] == last);
        }
    }
}

/// Opening a pane shows it beside those that were there, and once only.
pub proof fn an_opened_pane_is_beside_the_others(panes: Seq<Pane>, pane: Pane, p: Pane)
    ensures
        with_pane(panes, pane).contains(p) <==> panes.contains(p) || p == pane,
        panes.contains(pane) ==> with_pane(panes, pane).len() == panes.len(),
        with_pane(panes, pane).take(panes.len() as int) == panes,
{
    if !panes.contains(pane) {
        if panes.contains(p) {
            assert(panes.push(pane)[panes.index_of(p)] == p);
        }
        assert(panes.push(pane)[panes.len() as int] == pane);
    }
    assert(with_pane(panes, pane).take(panes.len() as int) =~= panes);
}

/// The panes of closed graphs go, and no others.
pub proof fn only_the_panes_of_closed_graphs_go(panes: Seq<Pane>, ids: Seq<PlotId>, p: Pane)
    ensures
        without_plot_panes(panes, ids).contains(p) <==> panes.contains(p) && !(p matches Pane::Plot(
            id,
        ) && ids.contains(id)),
    decreases ids.len(),
{
    if ids.len() > 0 {
        let front = ids.drop_last();
        only_the_panes_of_closed_graphs_go(panes, front, p);
        let less = without_plot_panes(panes, front);
        only_the_closed_pane_goes(less, Pane::Plot(ids.last()), p);
        if let Pane::Plot(id) = p {
            assert(ids.contains(id) <==> front.contains(id) || id == ids.last()) by {
                if front.contains(id) {
                    assert(ids[front.index_of(id)] == id);
                }
                if ids.contains(id) {
                    let i = ids.index_of(id);
                    if i < front.len() {
                        assert(front[i] == id);
                    }
                }
                if id == ids.last() {
                    assert(ids[front.len() as int] == id);
                }
            }
        }
    }
}

/// The graphs of the ids go, and no others.
pub proof fn only_the_closed_graphs_go(list: Seq<PlotSpec>, ids: Seq<PlotId>, p: PlotSpec)
    ensures
        without_plots(list, ids).contains(p) <==> list.contains(p) && !ids.contains(p.id),
    decreases ids.len(),
{
    if ids.len() > 0 {
        let front = ids.drop_last();
        only_the_closed_graphs_go(list, front, p);
        only_the_closed_graph_goes(without_plots(list, front), ids.last(), p);
        assert(ids.contains(p.id) <==> front.contains(p.id) || p.id == ids.last()) by {
            if front.contains(p.id) {
                assert(ids[front.index_of(p.id)] == p.id);
            }
            if ids.contains(p.id) {
                let i = ids.index_of(p.id);
                if i < front.len() {
                    assert(front[i] == p.id);
                }
            }
            if p.id == ids.last() {
                assert(ids[front.len() as int] == p.id);
            }
        }
    }
}

proof fn lemma_the_rest_is_shown(
    before: Plots,
    left: Seq<PlotSpec>,
    after: Plots,
    source: SourceId,
    series: Option<Seq<char>>,
    other: SourceId,
    name: Seq<char>,
)
    requires
        before.wf(),
        Plots::is_without(left, before.list@, source, series),
        after.list@ == without_plots(left, empty_ids(left)),
        other != source || (series matches Some(gone) && gone != name),
        before.shows_spec(other, name),
    ensures
        after.shows_spec(other, name),
{
    let i = choose|i: int|
        0 <= i < before.list@.len() && has_series(
            (#[trigger] before.list@[i]).entries@,
            other,
            name,
        );
    let entries = before.list@[i].entries@;
    let j = choose|j: int| 0 <= j < entries.len() && is_entry(#[trigger] entries[j], other, name);
    let e = entries[j];
    only_what_was_named_is_taken_out(entries, source, series, e);
    assert(entries.contains(e));
    let kept = left[i].entries@;
    assert(kept == without(entries, source, series));
    let k = kept.index_of(e);
    assert(is_entry(kept[k], other, name));
    assert(has_series(kept, other, name));
    let p = left[i];
    assert(p.id == before.list@[i].id);
    an_empty_graph_has_no_entries(left, p.id);
    if empty_ids(left).contains(p.id) {
        let m = choose|m: int|
            0 <= m < left.len() && (#[trigger] left[m]).id == p.id && left[m].entries@.len() == 0;
        assert(left[m].id == before.list@[m].id);
        assert(m == i);
    }
    only_the_closed_graphs_go(left, empty_ids(left), p);
    assert(left.contains(p));
    let n = after.list@.index_of(p);
    assert(after.list@[n] == p);
    assert(has_series(after.list@[n].entries@, other, name));
}

/// Hiding a series takes it out of the graphs, and every other series that was shown still is.
pub proof fn hiding_a_series_leaves_the_others(
    before: Workspace,
    after: Workspace,
    source: SourceId,
    series: String,
    other: SourceId,
    name: Seq<char>,
)
    requires
        before.wf(),
        Workspace::applied(before, after, PendingAction::HideSeries(source, series)),
        other != source || name != series@,
        before.plots.shows_spec(other, name),
    ensures
        after.plots.shows_spec(other, name),
        !after.plots.shows_spec(source, series@),
        after.project == before.project,
{
    let left = choose|left: Seq<PlotSpec>|
        {
            &&& #[trigger] Plots::is_without(left, before.plots.list@, source, Some(series@))
            &&& after.plots.list@ == without_plots(left, empty_ids(left))
            &&& after.panes@ == without_plot_panes(before.panes@, empty_ids(left))
        };
    lemma_the_rest_is_shown(
        before.plots,
        left,
        after.plots,
        source,
        Some(series@),
        other,
        name,
    );
}

/// Removing a source takes it out of the project and out of the graphs; every other source, and
/// every series of another that was shown, stays.
pub proof fn removing_a_source_leaves_the_others(
    before: Workspace,
    after: Workspace,
    id: SourceId,
    other: SourceId,
    name: Seq<char>,
)
    requires
        before.wf(),
        Workspace::applied(before, after, PendingAction::RemoveSource(id)),
        other != id,
        before.plots.shows_spec(other, name),
    ensures
        after.plots.shows_spec(other, name),
        !after.plots.shows_spec(id, name),
        after.project.sources@.len() <= before.project.sources@.len() <= after.project.sources@.len()
            + 1,
{
    let left = choose|left: Seq<PlotSpec>|
        {
            &&& #[trigger] Plots::is_without(left, before.plots.list@, id, None)
            &&& after.plots.list@ == without_plots(left, empty_ids(left))
            &&& after.panes@ == without_plot_panes(
                without_pane(without_pane(before.panes@, Pane::Video(id)), Pane::Audio(id)),
                empty_ids(left),
            )
        };
    lemma_the_rest_is_shown(before.plots, left, after.plots, id, None, other, name);
    if after.plots.shows_spec(id, name) {
        let i = choose|i: int|
            0 <= i < after.plots.list@.len() && has_series(
                (#[trigger] after.plots.list@[i]).entries@,
                id,
                name,
            );
        assert(has_series(after.plots.list@[i].entries@, id, name));
    }
    crate::plot_laws::a_source_is_found_by_its_id(before.project.sources@, id, 0);
}

/// A new graph is of the series it was opened on alone, against the left axis, and its pane is
/// there; the other graphs and panes are as they were.
pub proof fn a_new_graph_is_of_its_series(
    before: Workspace,
    after: Workspace,
    source: SourceId,
    series: String,
    p: Pane,
)
    requires
        Workspace::applied(before, after, PendingAction::NewPlot(source, series)),
    ensures
        ({
            let n = before.plots.list@.len() as int;
            let new = after.plots.list@[n];
            &&& after.plots.list@.len() == n + 1
            &&& forall|k: int|
                0 <= k < n ==> #[trigger] after.plots.list@[k] == before.plots.list@[k]
            &&& new.entries@.len() == 1
            &&& new.entries@[0].source == source
            &&& new.entries@[0].series@ == series@
            &&& new.entries@[0].axis == PlotAxis::Left
            &&& after.panes@.contains(Pane::Plot(new.id))
            &&& before.panes@.contains(p) ==> after.panes@.contains(p)
            &&& after.project == before.project
        }),
{
    let n = before.plots.list@.len() as int;
    assert forall|k: int| 0 <= k < n implies #[trigger] after.plots.list@[k]
        == before.plots.list@[k] by {
        assert(after.plots.list@.drop_last()[k] == before.plots.list@[k]);
    }
    let new = after.plots.list@[n];
    an_opened_pane_is_beside_the_others(before.panes@, Pane::Plot(new.id), p);
    an_opened_pane_is_beside_the_others(before.panes@, Pane::Plot(new.id), Pane::Plot(new.id));
}

} // verus!
