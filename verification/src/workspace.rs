//! What is loaded and what is open: the sources, the graphs and panes on them, and what the
//! sidebar's and the keyboard's requests do to these.
use vstd::prelude::*;

use crate::colors::{color_for_index, PALETTE};
use crate::model::{
    log_range, moved, range_fits, LogSource, Project, Source, SourceId, SourceKind,
};
use crate::panes::{
    empty_ids, has_series, without_plot, Pane, PlotAxis, PlotId, PlotSpec, Plots,
};
use crate::plot_view::{lemma_series_fits, series_from};
use crate::series::TimeSeries;
use crate::tank::Tanks;
use crate::text::{
    chars_of, lex_less, lex_lt, lex_lt_asymmetric, lex_lt_total, lex_lt_transitive, same,
};
use crate::vapor::Vapors;

verus! {

broadcast use vstd::seq_lib::group_seq_properties;

/// Sidebar interactions can't touch the panes while they are being listed, so they're queued up
/// and applied afterwards.
pub enum PendingAction {
    AddPane(Pane),
    RemovePane(Pane),
    NewPlot(SourceId, String),
    AddToPlot(PlotId, SourceId, String, PlotAxis),
    HideSeries(SourceId, String),
    RemoveSource(SourceId),
    NewVaporPane,
    NewTankPane,
}

/// What a change of the sources asks of the timeline.
#[derive(Clone, Copy, PartialEq, Eq, Structural, Debug)]
pub enum TimelineChange {
    Keep,
    /// Show exactly this.
    Reset(i64, i64),
    /// Show this too.
    Widen(i64, i64),
    /// Come back inside this.
    Clamp(i64, i64),
    /// Nothing is left to show.
    Blank,
}

pub struct Workspace {
    pub project: Project,
    pub plots: Plots,
    pub vapors: Vapors,
    pub tanks: Tanks,
    /// The open panes, in the order they were opened.
    pub panes: Vec<Pane>,
    pub status: Option<String>,
}

/// Panes with one more, unless it is there.
pub open spec fn with_pane(panes: Seq<Pane>, pane: Pane) -> Seq<Pane> {
    if panes.contains(pane) {
        panes
    } else {
        panes.push(pane)
    }
}

/// Panes without one.
pub open spec fn without_pane(panes: Seq<Pane>, pane: Pane) -> Seq<Pane>
    decreases panes.len(),
{
    if panes.len() == 0 {
        Seq::empty()
    } else {
        let rest = without_pane(panes.drop_last(), pane);
        if panes.last() == pane {
            rest
        } else {
            rest.push(panes.last())
        }
    }
}

/// Panes without those of some graphs.
pub open spec fn without_plot_panes(panes: Seq<Pane>, ids: Seq<PlotId>) -> Seq<Pane>
    decreases ids.len(),
{
    if ids.len() == 0 {
        panes
    } else {
        without_pane(without_plot_panes(panes, ids.drop_last()), Pane::Plot(ids.last()))
    }
}

/// Graphs without some.
pub open spec fn without_plots(list: Seq<PlotSpec>, ids: Seq<PlotId>) -> Seq<PlotSpec>
    decreases ids.len(),
{
    if ids.len() == 0 {
        list
    } else {
        without_plot(without_plots(list, ids.drop_last()), ids.last())
    }
}

proof fn lemma_without_pane(panes: Seq<Pane>, pane: Pane)
    ensures
        forall|p: Pane| #[trigger]
            without_pane(panes, pane).contains(p) <==> panes.contains(p) && p != pane,
    decreases panes.len(),
{
    if panes.len() > 0 {
        let front = panes.drop_last();
        lemma_without_pane(front, pane);
        let rest = without_pane(front, pane);
        assert(panes =~= front.push(panes.last()));
        assert forall|p: Pane| #[trigger] without_pane(panes, pane).contains(p) <==> panes.contains(
            p,
        ) && p != pane by {
            assert(panes.contains(p) <==> front.contains(p) || p == panes.last());
            assert(rest.contains(p) <==> front.contains(p) && p != pane);
            if panes.last() != pane {
                assert(rest.push(panes.last()).contains(p) <==> rest.contains(p) || p
                    == panes.last());
            }
        }
    }
}

proof fn lemma_without_plot_is_part(list: Seq<PlotSpec>, id: PlotId)
    ensures
        forall|p: PlotSpec| #[trigger]
            without_plot(list, id).contains(p) <==> list.contains(p) && p.id != id,
    decreases list.len(),
{
    if list.len() > 0 {
        let front = list.drop_last();
        lemma_without_plot_is_part(front, id);
        let rest = without_plot(front, id);
        assert(list =~= front.push(list.last()));
        assert forall|p: PlotSpec| #[trigger] without_plot(list, id).contains(p) <==> list.contains(
            p,
        ) && p.id != id by {
            assert(list.contains(p) <==> front.contains(p) || p == list.last());
            assert(rest.contains(p) <==> front.contains(p) && p.id != id);
            if list.last().id != id {
                assert(rest.push(list.last()).contains(p) <==> rest.contains(p) || p == list.last());
            }
        }
    }
}

proof fn lemma_without_plots_is_part(list: Seq<PlotSpec>, ids: Seq<PlotId>)
    ensures
        forall|p: PlotSpec| #[trigger]
            without_plots(list, ids).contains(p) <==> list.contains(p) && !ids.contains(p.id),
    decreases ids.len(),
{
    if ids.len() > 0 {
        let front = ids.drop_last();
        lemma_without_plots_is_part(list, front);
        lemma_without_plot_is_part(without_plots(list, front), ids.last());
        assert(ids =~= front.push(ids.last()));
    }
}

/// Whether something is open that shows a source.
pub open spec fn shows_source(w: Workspace, id: SourceId) -> bool {
    ||| w.panes@.contains(Pane::Video(id))
    ||| w.panes@.contains(Pane::Audio(id))
    ||| exists|i: int, series: Seq<char>|
        0 <= i < w.plots.list@.len() && #[trigger] has_series(
            w.plots.list@[i].entries@,
            id,
            series,
        )
}

fn find_pane(panes: &Vec<Pane>, pane: Pane) -> (r: Option<usize>)
    ensures
        match r {
            Some(i) => i < panes@.len() && panes@[i as int] == pane,
            None => !panes@.contains(pane),
        },
{
    let mut i: usize = 0;
    while i < panes.len()
        invariant
            i <= panes@.len(),
            forall|k: int| 0 <= k < i ==> #[trigger] panes@[k] != pane,
        decreases panes@.len() - i,
    {
        if panes[i] == pane {
            return Some(i);
        }
        i += 1;
    }
    None
}

impl Workspace {
    pub open spec fn wf(self) -> bool {
        &&& self.project.wf()
        &&& self.plots.wf()
        &&& self.vapors.wf()
        &&& self.tanks.wf()
        &&& self.panes@.no_duplicates()
    }

    pub fn new() -> (r: Self)
        ensures
            r.wf(),
            r.project.sources@.len() == 0,
            r.project.next_id == 0,
            r.plots.list@.len() == 0 && r.plots.next_id == 0,
            r.vapors.list@.len() == 0 && r.vapors.next_id == 0,
            r.tanks.list@.len() == 0 && r.tanks.next_id == 0,
            r.panes@.len() == 0,
            r.status is None,
    {
        Workspace {
            project: Project::new(),
            plots: Plots::new(),
            vapors: Vapors::new(),
            tanks: Tanks::new(),
            panes: Vec::new(),
            status: None,
        }
    }

    /// Opens a pane, unless it is open.
    pub fn add_pane(&mut self, pane: Pane)
        requires
            old(self).wf(),
        ensures
            final(self).wf(),
            final(self).panes@ == with_pane(old(self).panes@, pane),
            *final(self) == (Workspace { panes: final(self).panes, ..*old(self) }),
    {
        if find_pane(&self.panes, pane).is_none() {
            self.panes.push(pane);
        }
    }

    fn drop_pane(&mut self, pane: Pane)
        requires
            old(self).wf(),
        ensures
            final(self).wf(),
            final(self).panes@ == without_pane(old(self).panes@, pane),
            *final(self) == (Workspace { panes: final(self).panes, ..*old(self) }),
    {
        let ghost before = self.panes@;
        let mut out: Vec<Pane> = Vec::new();
        let mut i: usize = 0;
        assert(before.take(0) =~= Seq::<Pane>::empty());
        while i < self.panes.len()
            invariant
                i <= before.len(),
                *self == *old(self),
                before == self.panes@,
                before.no_duplicates(),
                out@ == without_pane(before.take(i as int), pane),
                out@.no_duplicates(),
            decreases before.len() - i,
        {
            assert(before.take(i + 1).drop_last() =~= before.take(i as int));
            if self.panes[i] != pane {
                proof {
                    lemma_without_pane(before.take(i as int), pane);
                    if out@.contains(before[i as int]) {
                        let k = before.take(i as int).index_of(before[i as int]);
                        assert(before[k] == before[i as int]);
                    }
                }
                out.push(self.panes[i]);
            }
            i += 1;
        }
        assert(before.take(before.len() as int) =~= before);
        self.panes = out;
    }

    /// Whether `after` is `before` without a pane, and without what it showed where that is the
    /// pane's own.
    pub open spec fn removed_pane(before: Workspace, after: Workspace, pane: Pane) -> bool {
        &&& after.panes@ == without_pane(before.panes@, pane)
        &&& after.project == before.project
        &&& after.status == before.status
        &&& match pane {
            Pane::Plot(id) => {
                &&& after.plots.list@ == without_plot(before.plots.list@, id)
                &&& after.plots.next_id == before.plots.next_id
            },
            _ => after.plots == before.plots,
        }
        &&& match pane {
            Pane::Vapor(id) => Vapors::closed(before.vapors, after.vapors, id),
            _ => after.vapors == before.vapors,
        }
        &&& match pane {
            Pane::Tank(id) => Tanks::closed(before.tanks, after.tanks, id),
            _ => after.tanks == before.tanks,
        }
    }

    /// Closes a pane, and what it showed with it where that is the pane's own.
    pub fn remove_pane(&mut self, pane: Pane)
        requires
            old(self).wf(),
        ensures
            final(self).wf(),
            Self::removed_pane(*old(self), *final(self), pane),
    {
        self.drop_pane(pane);
        match pane {
            Pane::Plot(id) => self.plots.close(id),
            Pane::Vapor(id) => self.vapors.close(id),
            Pane::Tank(id) => self.tanks.close(id),
            _ => {},
        }
    }

    /// Closes graphs that were left empty.
    fn close_plots(&mut self, ids: &Vec<PlotId>)
        requires
            old(self).wf(),
        ensures
            final(self).wf(),
            final(self).panes@ == without_plot_panes(old(self).panes@, ids@),
            final(self).plots.list@ == without_plots(old(self).plots.list@, ids@),
            final(self).plots.next_id == old(self).plots.next_id,
            final(self).project == old(self).project,
            final(self).vapors == old(self).vapors,
            final(self).tanks == old(self).tanks,
            final(self).status == old(self).status,
    {
        let mut i: usize = 0;
        assert(ids@.take(0) =~= Seq::<PlotId>::empty());
        while i < ids.len()
            invariant
                i <= ids@.len(),
                self.wf(),
                self.panes@ == without_plot_panes(old(self).panes@, ids@.take(i as int)),
                self.plots.list@ == without_plots(old(self).plots.list@, ids@.take(i as int)),
                self.plots.next_id == old(self).plots.next_id,
                self.project == old(self).project,
                self.vapors == old(self).vapors,
                self.tanks == old(self).tanks,
                self.status == old(self).status,
            decreases ids@.len() - i,
        {
            assert(ids@.take(i + 1).drop_last() =~= ids@.take(i as int));
            self.remove_pane(Pane::Plot(ids[i]));
            i += 1;
        }
        assert(ids@.take(ids@.len() as int) =~= ids@);
    }

    /// Whether `after` is `before` with a new graph on a series, and its pane.
    pub open spec fn opened_plot(
        before: Workspace,
        after: Workspace,
        source: SourceId,
        series: Seq<char>,
    ) -> bool {
        &&& Plots::created(before.plots, after.plots, source, series)
        &&& after.panes@ == with_pane(before.panes@, Pane::Plot(before.plots.next_id))
        &&& after == (Workspace { plots: after.plots, panes: after.panes, ..before })
    }

    /// Opens a new graph on a series.
    pub fn new_plot(&mut self, source: SourceId, series: &str) -> (id: PlotId)
        requires
            old(self).wf(),
            old(self).plots.next_id < u64::MAX,
        ensures
            final(self).wf(),
            id == old(self).plots.next_id,
            Self::opened_plot(*old(self), *final(self), source, series@),
    {
        let id = self.plots.create(source, series.to_owned());
        self.add_pane(Pane::Plot(id));
        id
    }

    /// Whether `after` is `before` with a series taken out of every graph, and without the graphs
    /// that leaves empty.
    pub open spec fn hid_series(
        before: Workspace,
        after: Workspace,
        source: SourceId,
        series: Seq<char>,
    ) -> bool {
        &&& exists|left: Seq<PlotSpec>|
            {
                &&& #[trigger] Plots::is_without(left, before.plots.list@, source, Some(series))
                &&& after.plots.list@ == without_plots(left, empty_ids(left))
                &&& after.panes@ == without_plot_panes(before.panes@, empty_ids(left))
            }
        &&& !after.plots.shows_spec(source, series)
        &&& after.plots.next_id == before.plots.next_id
        &&& after == (Workspace { plots: after.plots, panes: after.panes, ..before })
    }

    /// Takes a series out of every graph, and closes the graphs that leaves empty.
    pub fn hide_series(&mut self, source: SourceId, series: &str)
        requires
            old(self).wf(),
        ensures
            final(self).wf(),
            Self::hid_series(*old(self), *final(self), source, series@),
    {
        let ids = self.plots.remove_series(source, series);
        let ghost left = self.plots;
        self.close_plots(&ids);
        proof {
            crate::panes::a_removed_series_is_not_shown(
                old(self).plots.list@,
                left,
                source,
                series@,
            );
            lemma_without_plots_is_part(left.list@, ids@);
            if self.plots.shows_spec(source, series@) {
                let i = choose|i: int|
                    0 <= i < self.plots.list@.len() && has_series(
                        (#[trigger] self.plots.list@[i]).entries@,
                        source,
                        series@,
                    );
                assert(self.plots.list@.contains(self.plots.list@[i]));
                let k = left.list@.index_of(self.plots.list@[i]);
                assert(has_series(left.list@[k].entries@, source, series@));
            }
            assert(Plots::is_without(left.list@, old(self).plots.list@, source, Some(series@)));
        }
    }

    /// Whether `after` is `before` without a source: nothing shows it, the graphs that leaves
    /// empty are gone, and the phase and tank panes that were pointed at it have forgotten it.
    pub open spec fn removed_source(before: Workspace, after: Workspace, id: SourceId) -> bool {
        &&& !shows_source(after, id)
        &&& after.project.find_spec(id) is None
        &&& after.project.sources@ == match before.project.find_spec(id) {
            Some(i) => before.project.sources@.remove(i),
            None => before.project.sources@,
        }
        &&& after.project.next_id == before.project.next_id
        &&& exists|left: Seq<PlotSpec>|
            {
                &&& #[trigger] Plots::is_without(left, before.plots.list@, id, None)
                &&& after.plots.list@ == without_plots(left, empty_ids(left))
                &&& after.panes@ == without_plot_panes(
                    without_pane(without_pane(before.panes@, Pane::Video(id)), Pane::Audio(id)),
                    empty_ids(left),
                )
            }
        &&& after.plots.next_id == before.plots.next_id
        &&& Vapors::forgot(before.vapors, after.vapors, id)
        &&& Tanks::forgot(before.tanks, after.tanks, id)
        &&& match before.project.find_spec(id) {
            Some(i) => after.status is Some && after.status.unwrap()@ == "Removed "@
                + before.project.sources@[i].name@,
            None => after.status == before.status,
        }
    }

    /// Unloads a source and everything that was showing it. A phase or tank pane outlives the
    /// log it was pointed at: it can be pointed at another one.
    pub fn remove_source(&mut self, id: SourceId) -> (r: TimelineChange)
        requires
            old(self).wf(),
        ensures
            final(self).wf(),
            Self::removed_source(*old(self), *final(self), id),
            r == match final(self).project.range() {
                Some((lo, hi)) => TimelineChange::Clamp(lo as i64, hi as i64),
                None => TimelineChange::Blank,
            },
    {
        self.remove_pane(Pane::Video(id));
        self.remove_pane(Pane::Audio(id));
        let ids = self.plots.remove_source(id);
        let ghost left = self.plots;
        let ghost panes = self.panes@;
        self.close_plots(&ids);
        proof {
            lemma_without_plots_is_part(left.list@, ids@);
            lemma_source_is_hidden(
                old(self).panes@,
                self.panes@,
                ids@,
                id,
            );
            assert(Plots::is_without(left.list@, old(self).plots.list@, id, None));
            assert forall|i: int, series: Seq<char>|
                0 <= i < self.plots.list@.len() implies !#[trigger] has_series(
                self.plots.list@[i].entries@,
                id,
                series,
            ) by {
                assert(self.plots.list@.contains(self.plots.list@[i]));
                let k = left.list@.index_of(self.plots.list@[i]);
                crate::panes::a_removed_source_is_not_shown(
                    old(self).plots.list@,
                    left,
                    id,
                    series,
                );
                if has_series(self.plots.list@[i].entries@, id, series) {
                    assert(has_series(left.list@[k].entries@, id, series));
                    assert(left.shows_spec(id, series));
                }
            }
        }
        self.vapors.forget_source(id);
        self.tanks.forget_source(id);
        match self.project.find(id) {
            Some(i) => {
                let ghost before = self.project.sources@;
                let gone = self.project.sources.remove(i);
                let mut text = "Removed ".to_owned();
                text.append(gone.name.as_str());
                self.status = Some(text);
                proof {
                    lemma_without_source(before, self.project.sources@, i as int, id);
                }
            },
            None => {},
        }
        match self.project.time_bounds() {
            Some((lo, hi)) => TimelineChange::Clamp(lo, hi),
            None => TimelineChange::Blank,
        }
    }

    /// Adds an imported source. Media panes are immediately useful, so they are shown right
    /// away; log series start hidden, since a single log can carry hundreds of fields.
    pub fn add_source(&mut self, path: &str, name: &str, kind: SourceKind) -> (r: TimelineChange)
        requires
            old(self).wf(),
            old(self).project.next_id < u64::MAX,
            kind_wf(kind),
        ensures
            final(self).wf(),
            final(self).project.next_id == old(self).project.next_id + 1,
            final(self).project.sources@.len() == old(self).project.sources@.len() + 1,
            final(self).project.sources@.drop_last() == old(self).project.sources@,
            ({
                let id = old(self).project.next_id;
                let s = final(self).project.sources@.last();
                &&& s.id == id && s.name@ == name@ && s.path@ == path@ && s.offset == 0
                    && s.enabled && s.kind == kind
                &&& (s.color.r, s.color.g, s.color.b) == PALETTE@[old(
                    self,
                ).project.sources@.len() as int % 8]
                &&& final(self).panes@ == match kind {
                    SourceKind::Video(_) => with_pane(old(self).panes@, Pane::Video(id)),
                    SourceKind::Audio(_) => with_pane(old(self).panes@, Pane::Audio(id)),
                    SourceKind::Log(_) => old(self).panes@,
                }
            }),
            final(self).plots == old(self).plots,
            final(self).vapors == old(self).vapors,
            final(self).tanks == old(self).tanks,
            final(self).status is Some && final(self).status.unwrap()@ == "Imported "@ + name@,
            r == match final(self).project.range() {
                Some((lo, hi)) => if old(self).project.sources@.len() == 0 {
                    TimelineChange::Reset(lo as i64, hi as i64)
                } else {
                    TimelineChange::Widen(lo as i64, hi as i64)
                },
                None => TimelineChange::Keep,
            },
    {
        let ghost before = self.project.sources@;
        let place = self.project.sources.len();
        let id = self.project.alloc_id();
        let pane = match &kind {
            SourceKind::Video(_) => Some(Pane::Video(id)),
            SourceKind::Audio(_) => Some(Pane::Audio(id)),
            SourceKind::Log(_) => None,
        };
        let source = Source {
            id,
            name: name.to_owned(),
            path: path.to_owned(),
            offset: 0,
            color: color_for_index(place),
            enabled: true,
            kind,
        };
        assert(source.wf());
        self.project.sources.push(source);
        proof {
            assert(self.project.sources@.drop_last() =~= before);
            assert forall|i: int, j: int| 0 <= i < j < self.project.sources@.len() implies (
            #[trigger] self.project.sources@[i]).id != (#[trigger] self.project.sources@[j]).id by {
                assert(before[i] == self.project.sources@[i]);
                if j < before.len() {
                    assert(before[j] == self.project.sources@[j]);
                }
            }
        }
        if let Some(pane) = pane {
            self.add_pane(pane);
        }
        let mut text = "Imported ".to_owned();
        text.append(name);
        self.status = Some(text);
        match self.project.time_bounds() {
            Some((lo, hi)) => {
                if place == 0 {
                    TimelineChange::Reset(lo, hi)
                } else {
                    TimelineChange::Widen(lo, hi)
                }
            },
            None => TimelineChange::Keep,
        }
    }

    /// What a request does to the workspace.
    pub open spec fn applied(before: Workspace, after: Workspace, action: PendingAction) -> bool {
        match action {
            PendingAction::AddPane(pane) => after.panes@ == with_pane(before.panes@, pane)
                && after == (Workspace { panes: after.panes, ..before }),
            PendingAction::RemovePane(pane) => Self::removed_pane(before, after, pane),
            PendingAction::NewPlot(source, series) => Self::opened_plot(
                before,
                after,
                source,
                series@,
            ),
            PendingAction::AddToPlot(plot, source, series, axis) => {
                &&& Plots::added(before.plots, after.plots, plot, source, series@, axis)
                &&& after.panes@ == with_pane(before.panes@, Pane::Plot(plot))
                &&& after == (Workspace { plots: after.plots, panes: after.panes, ..before })
            },
            PendingAction::HideSeries(source, series) => Self::hid_series(
                before,
                after,
                source,
                series@,
            ),
            PendingAction::RemoveSource(id) => Self::removed_source(before, after, id),
            PendingAction::NewVaporPane => {
                &&& Vapors::created(before.vapors, after.vapors, before.project)
                &&& after.panes@ == with_pane(before.panes@, Pane::Vapor(before.vapors.next_id))
                &&& after == (Workspace { vapors: after.vapors, panes: after.panes, ..before })
            },
            PendingAction::NewTankPane => {
                &&& Tanks::created(before.tanks, after.tanks, before.project)
                &&& after.panes@ == with_pane(before.panes@, Pane::Tank(before.tanks.next_id))
                &&& after == (Workspace { tanks: after.tanks, panes: after.panes, ..before })
            },
        }
    }

    /// Does what the sidebar asked for. A graph may exist without a pane if its tab was closed;
    /// adding to it opens one.
    pub fn apply(&mut self, action: PendingAction) -> (r: TimelineChange)
        requires
            old(self).wf(),
            old(self).plots.next_id < u64::MAX,
            old(self).vapors.next_id < u64::MAX,
            old(self).tanks.next_id < u64::MAX,
            action matches PendingAction::AddToPlot(plot, _, _, _) ==> match old(
                self,
            ).plots.find_spec(plot) {
                Some(i) => old(self).plots.list@[i].color_cursor < usize::MAX,
                None => true,
            },
        ensures
            final(self).wf(),
            Workspace::applied(*old(self), *final(self), action),
            r == match action {
                PendingAction::RemoveSource(_) => match final(self).project.range() {
                    Some((lo, hi)) => TimelineChange::Clamp(lo as i64, hi as i64),
                    None => TimelineChange::Blank,
                },
                _ => TimelineChange::Keep,
            },
    {
        match action {
            PendingAction::AddPane(pane) => self.add_pane(pane),
            PendingAction::RemovePane(pane) => self.remove_pane(pane),
            PendingAction::NewPlot(source, series) => {
                let _ = self.new_plot(source, series.as_str());
            },
            PendingAction::AddToPlot(plot, source, series, axis) => {
                self.plots.add(plot, source, series, axis);
                self.add_pane(Pane::Plot(plot));
            },
            PendingAction::HideSeries(source, series) => {
                self.hide_series(source, series.as_str());
            },
            PendingAction::RemoveSource(source) => {
                return self.remove_source(source);
            },
            PendingAction::NewVaporPane => {
                let id = self.vapors.create(&self.project);
                self.add_pane(Pane::Vapor(id));
            },
            PendingAction::NewTankPane => {
                let id = self.tanks.create(&self.project);
                self.add_pane(Pane::Tank(id));
            },
        }
        TimelineChange::Keep
    }
}

proof fn lemma_source_is_hidden(before: Seq<Pane>, after: Seq<Pane>, ids: Seq<PlotId>, id: SourceId)
    requires
        after == without_plot_panes(
            without_pane(without_pane(before, Pane::Video(id)), Pane::Audio(id)),
            ids,
        ),
    ensures
        !after.contains(Pane::Video(id)),
        !after.contains(Pane::Audio(id)),
{
    let one = without_pane(before, Pane::Video(id));
    let two = without_pane(one, Pane::Audio(id));
    lemma_without_pane(before, Pane::Video(id));
    lemma_without_pane(one, Pane::Audio(id));
    lemma_without_plot_panes(two, ids);
}

proof fn lemma_without_plot_panes(panes: Seq<Pane>, ids: Seq<PlotId>)
    ensures
        forall|p: Pane| #[trigger] without_plot_panes(panes, ids).contains(p) ==> panes.contains(p),
    decreases ids.len(),
{
    if ids.len() > 0 {
        lemma_without_plot_panes(panes, ids.drop_last());
        lemma_without_pane(without_plot_panes(panes, ids.drop_last()), Pane::Plot(ids.last()));
    }
}

proof fn lemma_without_source(before: Seq<Source>, after: Seq<Source>, i: int, id: SourceId)
    requires
        0 <= i < before.len(),
        after == before.remove(i),
        before[i].id == id,
        forall|a: int, b: int|
            0 <= a < b < before.len() ==> (#[trigger] before[a]).id != (#[trigger] before[b]).id,
    ensures
        crate::model::position_of(after, id, 0) is None,
        forall|a: int| 0 <= a < after.len() ==> before.contains(#[trigger] after[a]),
        forall|a: int, b: int|
            0 <= a < b < after.len() ==> (#[trigger] after[a]).id != (#[trigger] after[b]).id,
{
    assert forall|a: int| 0 <= a < after.len() implies before.contains(#[trigger] after[a])
        && after[a].id != id by {
        let x = if a < i {
            a
        } else {
            a + 1
        };
        assert(after[a] == before[x]);
    }
    assert forall|a: int, b: int| 0 <= a < b < after.len() implies (#[trigger] after[a]).id != (
    #[trigger] after[b]).id by {
        let x = if a < i {
            a
        } else {
            a + 1
        };
        let y = if b < i {
            b
        } else {
            b + 1
        };
        assert(after[a] == before[x] && after[b] == before[y]);
    }
    lemma_nowhere(after, id, 0);
}

proof fn lemma_nowhere(sources: Seq<Source>, id: SourceId, from: int)
    requires
        0 <= from,
        forall|k: int| 0 <= k < sources.len() ==> (#[trigger] sources[k]).id != id,
    ensures
        crate::model::position_of(sources, id, from) is None,
    decreases sources.len() - from,
{
    if from < sources.len() {
        assert(sources[from].id != id);
        lemma_nowhere(sources, id, from + 1);
    }
}

/// Whether an import can be a source: its series in order, and its ends instants.
pub open spec fn kind_wf(kind: SourceKind) -> bool {
    match kind {
        SourceKind::Log(log) => range_fits(log_range(log.series@)) && forall|i: int|
            0 <= i < log.series@.len() ==> (#[trigger] log.series@[i]).wf(),
        SourceKind::Video(v) => i64::MIN <= v.start_utc + v.duration <= i64::MAX,
        SourceKind::Audio(a) => i64::MIN <= a.start_utc + a.duration <= i64::MAX,
    }
}

/// Whether series come in the order of their names.
pub open spec fn by_name(series: Seq<TimeSeries>) -> bool {
    forall|i: int, j: int|
        0 <= i < j < series.len() ==> !lex_lt(
            (#[trigger] series[j]).name@,
            (#[trigger] series[i]).name@,
        )
}

/// Those of some series that have a name, as they stand.
pub open spec fn of_name(series: Seq<TimeSeries>, name: Seq<char>) -> Seq<TimeSeries> {
    series.filter(|s: TimeSeries| s.name@ == name)
}

proof fn lemma_none_of_name(series: Seq<TimeSeries>, name: Seq<char>)
    requires
        forall|i: int| 0 <= i < series.len() ==> (#[trigger] series[i]).name@ != name,
    ensures
        of_name(series, name) == Seq::<TimeSeries>::empty(),
    decreases series.len(),
{
    reveal(Seq::filter);
    if series.len() > 0 {
        let rest = series.drop_last();
        assert forall|i: int| 0 <= i < rest.len() implies (#[trigger] rest[i]).name@ != name by {
            assert(rest[i] == series[i]);
        }
        lemma_none_of_name(rest, name);
        assert(series.last() == series[series.len() - 1]);
    }
}

/// A series put in front of others that come after it by name is behind those of its own.
proof fn lemma_inserted(series: Seq<TimeSeries>, at: int, s: TimeSeries, name: Seq<char>)
    requires
        0 <= at <= series.len(),
        forall|k: int| at <= k < series.len() ==> lex_lt(s.name@, (#[trigger] series[k]).name@),
    ensures
        of_name(series.insert(at, s), name) == of_name(series, name) + of_name(seq![s], name),
{
    let (front, back) = (series.take(at), series.skip(at));
    let pred = |x: TimeSeries| x.name@ == name;
    assert(series =~= front + back);
    assert(series.insert(at, s) =~= (front + seq![s]) + back);
    Seq::filter_distributes_over_add(front, back, pred);
    Seq::filter_distributes_over_add(front, seq![s], pred);
    Seq::filter_distributes_over_add(front + seq![s], back, pred);
    if s.name@ == name {
        assert forall|i: int| 0 <= i < back.len() implies (#[trigger] back[i]).name@ != name by {
            assert(back[i] == series[at + i]);
            lex_lt_asymmetric(s.name@, series[at + i].name@);
        }
        lemma_none_of_name(back, name);
        assert(of_name(series, name) =~= of_name(front, name));
        assert(of_name(series.insert(at, s), name) =~= of_name(front, name) + of_name(
            seq![s],
            name,
        ));
    } else {
        assert forall|i: int| 0 <= i < seq![s].len() implies (#[trigger] seq![s][i]).name@
            != name by {}
        lemma_none_of_name(seq![s], name);
        assert(of_name(series.insert(at, s), name) =~= of_name(front, name) + of_name(back, name));
        assert(of_name(series, name) + of_name(seq![s], name) =~= of_name(series, name));
    }
}

/// Puts a series where it belongs among others in the order of their names.
fn insert_by_name(list: &mut Vec<TimeSeries>, s: TimeSeries)
    requires
        by_name(old(list)@),
    ensures
        by_name(final(list)@),
        exists|at: int|
            0 <= at <= old(list)@.len() && final(list)@ == #[trigger] old(list)@.insert(at, s),
        forall|name: Seq<char>| #[trigger]
            of_name(final(list)@, name) == of_name(old(list)@, name) + of_name(seq![s], name),
{
    let ghost before = list@;
    let name = chars_of(s.name.as_str());
    let mut at: usize = list.len();
    let mut before_it = true;
    while at > 0 && before_it
        invariant
            at <= list@.len(),
            list@ == before,
            by_name(before),
            name@ == s.name@,
            forall|k: int| at <= k < before.len() ==> lex_lt(s.name@, (#[trigger] before[k]).name@),
            !before_it ==> at > 0 && !lex_lt(s.name@, before[at - 1].name@),
        decreases at + if before_it { 1int } else { 0int },
    {
        let other = chars_of(list[at - 1].name.as_str());
        before_it = lex_less(&name, &other);
        if before_it {
            at -= 1;
        }
    }
    list.insert(at, s);
    proof {
        let after = before.insert(at as int, s);
        assert(list@ == after);
        assert forall|name: Seq<char>| #[trigger] of_name(after, name) == of_name(before, name)
            + of_name(seq![s], name) by {
            lemma_inserted(before, at as int, s, name);
        }
        assert forall|i: int, j: int| 0 <= i < j < after.len() implies !lex_lt(
            (#[trigger] after[j]).name@,
            (#[trigger] after[i]).name@,
        ) by {
            let x = if i < at {
                i
            } else {
                i - 1
            };
            let y = if j < at {
                j
            } else {
                j - 1
            };
            if i == at {
                assert(after[j] == before[j - 1]);
                lex_lt_asymmetric(s.name@, before[j - 1].name@);
            } else if j == at {
                assert(after[i] == before[i]);
                if i < at - 1 && lex_lt(s.name@, before[i].name@) {
                    lemma_not_before(s.name@, before[i].name@, before[at - 1].name@);
                }
            } else {
                assert(after[i] == before[x] && after[j] == before[y]);
            }
        }
    }
}

proof fn lemma_not_before(a: Seq<char>, b: Seq<char>, c: Seq<char>)
    requires
        lex_lt(a, b),
        !lex_lt(c, b),
    ensures
        lex_lt(a, c),
{
    lex_lt_total(b, c);
    if lex_lt(b, c) {
        lex_lt_transitive(a, b, c);
    }
}

/// A list put in the order of its names, those of one name as they stood.
fn sorted_by_name(list: Vec<TimeSeries>) -> (r: Vec<TimeSeries>)
    ensures
        by_name(r@),
        r@.to_multiset() == list@.to_multiset(),
        forall|name: Seq<char>| #[trigger] of_name(r@, name) == of_name(list@, name),
{
    let ghost all = list@;
    let mut rest = list;
    let mut out: Vec<TimeSeries> = Vec::new();
    proof {
        assert(Seq::<TimeSeries>::empty() + all =~= all);
        all.to_multiset_ensures();
        assert forall|name: Seq<char>| #[trigger] of_name(out@, name) + of_name(rest@, name)
            == of_name(all, name) by {
            lemma_none_of_name(out@, name);
            assert(of_name(out@, name) + of_name(rest@, name) =~= of_name(all, name));
        }
    }
    while rest.len() > 0
        invariant
            by_name(out@),
            forall|name: Seq<char>| #[trigger]
                of_name(out@, name) + of_name(rest@, name) == of_name(all, name),
            out@.to_multiset().add(rest@.to_multiset()) =~= all.to_multiset(),
        decreases rest@.len(),
    {
        let ghost before = rest@;
        let ghost had = out@;
        let s = rest.remove(0);
        let ghost moved_one = s;
        insert_by_name(&mut out, s);
        proof {
            let at = choose|at: int|
                0 <= at <= had.len() && out@ == #[trigger] had.insert(at, moved_one);
            had.to_multiset_ensures();
            before.to_multiset_ensures();
            assert(out@.to_multiset() =~= had.to_multiset().insert(moved_one)) by {
                had.insert_ensures(at, moved_one);
                lemma_insert_multiset(had, at, moved_one);
            }
            assert(rest@.to_multiset() =~= before.to_multiset().remove(moved_one));
            assert(before.to_multiset().count(moved_one) > 0) by {
                assert(before.contains(before[0]));
            }
            let now = (out@, rest@);
            assert forall|name: Seq<char>| #[trigger] of_name(now.0, name) + of_name(now.1, name)
                == of_name(all, name) by {
                let pred = |x: TimeSeries| x.name@ == name;
                assert(before =~= seq![moved_one] + now.1);
                Seq::filter_distributes_over_add(seq![moved_one], now.1, pred);
                assert(of_name(now.0, name) == of_name(had, name) + of_name(
                    seq![moved_one],
                    name,
                ));
                assert(of_name(had, name) + of_name(before, name) == of_name(all, name));
                assert(of_name(now.0, name) + of_name(now.1, name) =~= of_name(had, name)
                    + of_name(before, name));
            }
        }
    }
    proof {
        assert(rest@ =~= Seq::<TimeSeries>::empty());
        assert forall|name: Seq<char>| #[trigger] of_name(out@, name) == of_name(all, name) by {
            lemma_none_of_name(rest@, name);
            assert(of_name(out@, name) + of_name(rest@, name) == of_name(all, name));
            assert(of_name(out@, name) + of_name(rest@, name) =~= of_name(out@, name));
        }
        rest@.to_multiset_ensures();
        assert(rest@.to_multiset().len() == 0);
        assert(out@.to_multiset() =~= all.to_multiset());
    }
    out
}

proof fn lemma_insert_multiset(s: Seq<TimeSeries>, at: int, x: TimeSeries)
    requires
        0 <= at <= s.len(),
    ensures
        s.insert(at, x).to_multiset() =~= s.to_multiset().insert(x),
{
    let r = s.insert(at, x);
    r.to_multiset_ensures();
    assert(r.remove(at) =~= s);
    assert(r[at] == x);
    assert(r.remove(at).to_multiset() =~= r.to_multiset().remove(r[at]));
    assert(r.contains(r[at]));
    assert(r.to_multiset().count(x) > 0);
    assert(r.to_multiset() =~= r.to_multiset().remove(x).insert(x));
}

/// Whether every series of a list, moved by an offset, stays within what an instant can hold.
pub open spec fn all_fit(series: Seq<TimeSeries>, offset: i64) -> bool {
    forall|i: int| 0 <= i < series.len() ==> (#[trigger] series[i]).wf() && series[i].fits(offset)
}

proof fn lemma_all_fit(series: Seq<TimeSeries>, offset: i64)
    requires
        all_fit(series, offset),
    ensures
        range_fits(log_range(series)),
        range_fits(moved(log_range(series), offset as int)),
    decreases series.len(),
{
    if series.len() > 0 {
        let front = series.drop_last();
        assert forall|i: int| 0 <= i < front.len() implies (#[trigger] front[i]).wf()
            && front[i].fits(offset) by {
            assert(front[i] == series[i]);
        }
        lemma_all_fit(front, offset);
        assert(series.last() == series[series.len() - 1]);
        let last = series.last();
        if last.samples().len() > 0 {
            assert(last.samples()[0].0 <= last.samples()[last.samples().len() - 1].0);
        }
    }
}

/// What adding a series does to a log's list: it takes the place of one of its name, or joins
/// the list, which is put in the order of names, those of one name as they stood.
pub open spec fn joined_list(
    before: Seq<TimeSeries>,
    after: Seq<TimeSeries>,
    s: TimeSeries,
) -> bool {
    match series_from(before, s.name@, 0) {
        Some(k) => after == before.update(k, s),
        None => {
            &&& by_name(after)
            &&& after.to_multiset() == before.push(s).to_multiset()
            &&& forall|name: Seq<char>| #[trigger]
                of_name(after, name) == of_name(before.push(s), name)
        },
    }
}

/// Adds a series to a log's list, or replaces the one of its name in place: re-adding under the
/// same name is the user refining a signal, and the graph already showing it picks the change
/// up. A new one joins the list in the order of names, so the grouping by message still holds.
pub fn add_series(list: Vec<TimeSeries>, s: TimeSeries) -> (r: Vec<TimeSeries>)
    ensures
        joined_list(list@, r@, s),
{
    let mut out = list;
    let mut k: usize = 0;
    while k < out.len()
        invariant
            k <= out@.len(),
            out@ == list@,
            series_from(list@, s.name@, 0) == series_from(list@, s.name@, k as int),
        decreases out@.len() - k,
    {
        if same(out[k].name.as_str(), s.name.as_str()) {
            out.set(k, s);
            return out;
        }
        k += 1;
    }
    out.push(s);
    sorted_by_name(out)
}

/// A series that was added is found by its name.
pub proof fn an_added_series_is_there(
    before: Seq<TimeSeries>,
    after: Seq<TimeSeries>,
    s: TimeSeries,
)
    requires
        joined_list(before, after, s),
    ensures
        after.contains(s),
{
    match series_from(before, s.name@, 0) {
        Some(k) => {
            lemma_series_from(before, s.name@, 0);
            assert(after[k] == s);
        },
        None => {
            before.push(s).to_multiset_ensures();
            after.to_multiset_ensures();
            assert(before.push(s)[before.len() as int] == s);
            assert(before.push(s).contains(s));
            assert(after.to_multiset().count(s) > 0);
        },
    }
}

proof fn lemma_series_from(series: Seq<TimeSeries>, name: Seq<char>, from: int)
    requires
        0 <= from,
        series_from(series, name, from) is Some,
    ensures
        from <= series_from(series, name, from).unwrap() < series.len(),
    decreases series.len() - from,
{
    if from < series.len() && series[from].name@ != name {
        lemma_series_from(series, name, from + 1);
    }
}

impl Workspace {
    /// Adds a series to a log source. Nothing is added where there is no such log, or where the
    /// series would leave the timeline.
    pub fn add_series(&mut self, id: SourceId, s: TimeSeries) -> (added: bool)
        requires
            old(self).wf(),
            s.wf(),
        ensures
            final(self).wf(),
            !added ==> *final(self) == *old(self),
            added == match old(self).project.find_spec(id) {
                Some(i) => old(self).project.sources@[i].kind is Log && s.fits(
                    old(self).project.sources@[i].offset,
                ),
                None => false,
            },
            added ==> ({
                let i = old(self).project.find_spec(id).unwrap();
                let before = old(self).project.sources@[i];
                let after = final(self).project.sources@[i];
                &&& joined_list(before.kind->Log_0.series@, after.kind->Log_0.series@, s)
                &&& after.kind is Log
                &&& after.kind->Log_0.can == before.kind->Log_0.can
                &&& after.kind->Log_0.format == before.kind->Log_0.format
                &&& after.id == before.id && after.name == before.name && after.path == before.path
                &&& after.offset == before.offset && after.color == before.color && after.enabled
                    == before.enabled
                &&& final(self).project.sources@.len() == old(self).project.sources@.len()
                &&& forall|k: int|
                    0 <= k < old(self).project.sources@.len() && k != i ==>
                        #[trigger] final(self).project.sources@[k]
                        == old(self).project.sources@[k]
                &&& final(self).project.next_id == old(self).project.next_id
                &&& final(self).plots == old(self).plots
                &&& final(self).vapors == old(self).vapors
                &&& final(self).tanks == old(self).tanks
                &&& final(self).panes == old(self).panes
                &&& final(self).status == old(self).status
            }),
    {
        let i = match self.project.find(id) {
            Some(i) => i,
            None => return false,
        };
        let ghost sources = self.project.sources@;
        let offset = self.project.sources[i].offset;
        let fits = match s.time_bounds() {
            Some((lo, hi)) => {
                let a: i128 = lo as i128 + offset as i128;
                let b: i128 = hi as i128 + offset as i128;
                i64::MIN as i128 <= a && b <= i64::MAX as i128
            },
            None => true,
        };
        if !fits {
            return false;
        }
        let is_log = match &self.project.sources[i].kind {
            SourceKind::Log(_) => true,
            _ => false,
        };
        if !is_log {
            return false;
        }
        let ghost target = sources[i as int];
        let source = self.project.sources.remove(i);
        let Source { id, name, path, offset, color, enabled, kind } = source;
        let kind = match kind {
            SourceKind::Log(log) => {
                let LogSource { series, format, can } = log;
                let ghost had = series@;
                let ghost new = s;
                let series = add_series(series, s);
                proof {
                    lemma_still_fit(target, had, series@, new);
                }
                SourceKind::Log(LogSource { series, format, can })
            },
            other => other,
        };
        self.project.sources.insert(i, Source { id, name, path, offset, color, enabled, kind });
        proof {
            let after = self.project.sources@;
            assert(after =~= sources.update(i as int, after[i as int]));
            assert forall|a: int, b: int| 0 <= a < b < after.len() implies (
            #[trigger] after[a]).id != (#[trigger] after[b]).id by {
                assert(sources[a].id != sources[b].id);
            }
            assert forall|a: int| 0 <= a < after.len() implies (#[trigger] after[a]).wf()
                && after[a].id < self.project.next_id by {
                assert(sources[a].wf() && sources[a].id < self.project.next_id);
            }
        }
        true
    }
}

proof fn lemma_still_fit(
    source: Source,
    before: Seq<TimeSeries>,
    after: Seq<TimeSeries>,
    s: TimeSeries,
)
    requires
        source.wf(),
        source.kind matches SourceKind::Log(log) && log.series@ == before,
        s.wf(),
        s.fits(source.offset),
        joined_list(before, after, s),
    ensures
        all_fit(after, source.offset),
        range_fits(log_range(after)),
        range_fits(moved(log_range(after), source.offset as int)),
{
    assert forall|i: int| 0 <= i < after.len() implies (#[trigger] after[i]).wf()
        && after[i].fits(source.offset) by {
        let x = after[i];
        match series_from(before, s.name@, 0) {
            Some(k) => {
                lemma_series_from(before, s.name@, 0);
                if i != k {
                    assert(before.contains(before[i]));
                    lemma_series_fits(source, x);
                }
            },
            None => {
                after.to_multiset_ensures();
                before.push(s).to_multiset_ensures();
                assert(after.contains(x));
                assert(before.push(s).to_multiset().count(x) > 0);
                assert(before.push(s).contains(x));
                let k = before.push(s).index_of(x);
                assert(before.push(s)[k] == x);
                if k < before.len() {
                    assert(before[k] == x);
                    assert(before.contains(x));
                    lemma_series_fits(source, x);
                }
            },
        }
    }
    lemma_all_fit(after, source.offset);
}

} // verus!
