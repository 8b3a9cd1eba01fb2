//! What a preview is a picture of, so that it is drawn again when something it depends on has
//! changed, and only then.
use vstd::prelude::*;

use crate::colors::Rgb;
use crate::double::Double;
use crate::export::dialog::{among, ExportDialog};
use crate::export::{ExportItem, ExportSettings};
use crate::model::{Project, SourceId};
use crate::panes::{PlotAxis, PlotEntry, Plots};
use crate::picker::SeriesRef;
use crate::plot_view::{find_series, series_at, series_of};
use crate::tank::sensors::SensorUnit;
use crate::tank::Tanks;
use crate::text::same;

verus! {

broadcast use vstd::seq_lib::group_seq_properties;

/// What a panel is drawn like.
#[derive(Clone, Copy, PartialEq, Eq, Structural, Debug)]
pub struct PanelKey {
    pub item: ExportItem,
    /// Of a graph: whether its series are normalized, and the range that a box zoom pinned.
    pub normalize: bool,
    pub pinned: bool,
    pub lo: Double,
    pub hi: Double,
    /// Of a tank: the unit, the ends of the ramp, the grid, the blocks and how long a sample holds.
    pub unit: SensorUnit,
    pub lo_c: i64,
    pub hi_c: i64,
    pub grid: bool,
    pub blocks: bool,
    pub hold: i64,
}

/// What a series is drawn like. A series can grow, which changes the picture without changing any
/// setting, so its length is part of that.
#[derive(Clone, Copy, PartialEq, Eq, Structural, Debug)]
pub struct SeriesKey {
    pub panel: usize,
    /// The source, where one is picked, and whether it is loaded.
    pub picked: bool,
    pub source: SourceId,
    pub loaded: bool,
    pub offset: i64,
    /// Whether the source has the series, and how many samples it has.
    pub found: bool,
    pub samples: usize,
    pub color: Rgb,
    pub axis: PlotAxis,
    pub value_offset: Double,
}

/// Everything a preview is a picture of.
pub struct PreviewKey {
    pub settings: ExportSettings,
    pub range: (i64, i64),
    pub cursor: i64,
    /// The panels, with the titles of the graphs among them.
    pub panels: Vec<(PanelKey, String)>,
    /// The series of all panels, with their names.
    pub series: Vec<(SeriesKey, String)>,
}

/// Everything a preview is a picture of, as contracts speak of it.
#[verifier::ext_equal]
pub struct PreviewState {
    pub settings: ExportSettings,
    pub range: (i64, i64),
    pub cursor: i64,
    pub panels: Seq<(PanelKey, Seq<char>)>,
    pub series: Seq<(SeriesKey, Seq<char>)>,
}

/// Keys with their names, as contracts speak of them.
pub open spec fn named<K>(keys: Seq<(K, String)>) -> Seq<(K, Seq<char>)> {
    keys.map_values(|k: (K, String)| (k.0, k.1@))
}

impl View for PreviewKey {
    type V = PreviewState;

    open spec fn view(&self) -> PreviewState {
        PreviewState {
            settings: self.settings,
            range: self.range,
            cursor: self.cursor,
            panels: named(self.panels@),
            series: named(self.series@),
        }
    }
}

/// What a panel is drawn like, and its title where it is a graph. A tank's title is made of the
/// names of its series.
pub open spec fn panel_spec(item: ExportItem, plots: Plots, tanks: Tanks) -> (PanelKey, Seq<char>) {
    let blank = PanelKey {
        item,
        normalize: false,
        pinned: false,
        lo: Double { bits: 0 },
        hi: Double { bits: 0 },
        unit: SensorUnit::Celsius,
        lo_c: 0,
        hi_c: 0,
        grid: false,
        blocks: false,
        hold: 0,
    };
    match item {
        ExportItem::Plot(id) => match plots.find_spec(id) {
            Some(i) => {
                let plot = plots.list@[i];
                (
                    match plot.y_manual {
                        Some((lo, hi)) => PanelKey {
                            normalize: plot.normalize,
                            pinned: true,
                            lo,
                            hi,
                            ..blank
                        },
                        None => PanelKey { normalize: plot.normalize, ..blank },
                    },
                    plot.title_spec(),
                )
            },
            None => (blank, Seq::empty()),
        },
        ExportItem::Tank(id) => match tanks.find_spec(id) {
            Some(i) => {
                let tank = tanks.list@[i];
                (
                    PanelKey {
                        unit: tank.unit,
                        lo_c: tank.lo_c,
                        hi_c: tank.hi_c,
                        grid: tank.grid,
                        blocks: tank.blocks,
                        hold: tank.hold,
                        ..blank
                    },
                    Seq::empty(),
                )
            },
            None => (blank, Seq::empty()),
        },
    }
}

/// What a series of a source is drawn like.
pub open spec fn drawn_like(
    project: Project,
    panel: usize,
    source: SourceId,
    name: Seq<char>,
    color: Rgb,
    axis: PlotAxis,
    value_offset: Double,
) -> SeriesKey {
    let blank = SeriesKey {
        panel,
        picked: true,
        source,
        loaded: false,
        offset: 0,
        found: false,
        samples: 0,
        color,
        axis,
        value_offset,
    };
    match project.find_spec(source) {
        Some(i) => {
            let s = project.sources@[i];
            let known = SeriesKey { loaded: true, offset: s.offset, ..blank };
            match series_of(s, name) {
                Some(k) => SeriesKey {
                    found: true,
                    samples: series_at(s, k).raw@.len() as usize,
                    ..known
                },
                None => known,
            }
        },
        None => blank,
    }
}

/// What an entry of a graph is drawn like.
pub open spec fn entry_key(project: Project, panel: usize, e: PlotEntry) -> (SeriesKey, Seq<char>) {
    (
        drawn_like(project, panel, e.source, e.series@, e.color, e.axis, e.value_offset),
        e.series@,
    )
}

/// What a height of a tank is drawn like.
pub open spec fn height_key(project: Project, panel: usize, r: Option<SeriesRef>) -> (
    SeriesKey,
    Seq<char>,
) {
    let (color, axis, none) = (Rgb { r: 0, g: 0, b: 0 }, PlotAxis::Left, Double { bits: 0 });
    match r {
        Some(r) => (drawn_like(project, panel, r.source, r.series@, color, axis, none), r.series@),
        None => (
            SeriesKey {
                panel,
                picked: false,
                source: 0,
                loaded: false,
                offset: 0,
                found: false,
                samples: 0,
                color,
                axis,
                value_offset: none,
            },
            Seq::empty(),
        ),
    }
}

/// What the series of a panel are drawn like.
pub open spec fn panel_series(
    item: ExportItem,
    panel: usize,
    project: Project,
    plots: Plots,
    tanks: Tanks,
) -> Seq<(SeriesKey, Seq<char>)> {
    match item {
        ExportItem::Plot(id) => match plots.find_spec(id) {
            Some(i) => plots.list@[i].entries@.map_values(
                |e: PlotEntry| entry_key(project, panel, e),
            ),
            None => Seq::empty(),
        },
        ExportItem::Tank(id) => match tanks.find_spec(id) {
            Some(i) => tanks.list@[i].sensors@.map_values(
                |r: Option<SeriesRef>| height_key(project, panel, r),
            ),
            None => Seq::empty(),
        },
    }
}

/// What the series of the first `n` panels are drawn like.
pub open spec fn all_series(
    items: Seq<ExportItem>,
    n: nat,
    project: Project,
    plots: Plots,
    tanks: Tanks,
) -> Seq<(SeriesKey, Seq<char>)>
    decreases n,
{
    if n == 0 {
        Seq::empty()
    } else {
        all_series(items, (n - 1) as nat, project, plots, tanks) + panel_series(
            items[n - 1],
            (n - 1) as usize,
            project,
            plots,
            tanks,
        )
    }
}

fn drawn(
    project: &Project,
    panel: usize,
    source: SourceId,
    name: &str,
    color: Rgb,
    axis: PlotAxis,
    value_offset: Double,
) -> (r: SeriesKey)
    ensures
        r == drawn_like(*project, panel, source, name@, color, axis, value_offset),
{
    let mut key = SeriesKey {
        panel,
        picked: true,
        source,
        loaded: false,
        offset: 0,
        found: false,
        samples: 0,
        color,
        axis,
        value_offset,
    };
    if let Some(i) = project.find(source) {
        let s = &project.sources[i];
        key.loaded = true;
        key.offset = s.offset;
        if let Some(series) = find_series(s, name) {
            key.found = true;
            key.samples = series.raw.len();
        }
    }
    key
}

fn panel_key(item: ExportItem, plots: &Plots, tanks: &Tanks) -> (r: (PanelKey, String))
    ensures
        (r.0, r.1@) == panel_spec(item, *plots, *tanks),
{
    let mut key = PanelKey {
        item,
        normalize: false,
        pinned: false,
        lo: Double { bits: 0 },
        hi: Double { bits: 0 },
        unit: SensorUnit::Celsius,
        lo_c: 0,
        hi_c: 0,
        grid: false,
        blocks: false,
        hold: 0,
    };
    let mut title = String::new();
    match item {
        ExportItem::Plot(id) => {
            if let Some(plot) = plots.get(id) {
                key.normalize = plot.normalize;
                if let Some((lo, hi)) = plot.y_manual {
                    key.pinned = true;
                    key.lo = lo;
                    key.hi = hi;
                }
                title = plot.title();
            }
        },
        ExportItem::Tank(id) => {
            if let Some(tank) = tanks.get(id) {
                key.unit = tank.unit;
                key.lo_c = tank.lo_c;
                key.hi_c = tank.hi_c;
                key.grid = tank.grid;
                key.blocks = tank.blocks;
                key.hold = tank.hold;
            }
        },
    }
    assert(title@ =~= panel_spec(item, *plots, *tanks).1);
    (key, title)
}

fn push_series(
    out: &mut Vec<(SeriesKey, String)>,
    item: ExportItem,
    panel: usize,
    project: &Project,
    plots: &Plots,
    tanks: &Tanks,
)
    ensures
        named(final(out)@) == named(old(out)@) + panel_series(
            item,
            panel,
            *project,
            *plots,
            *tanks,
        ),
{
    let ghost before = named(out@);
    let ghost all = panel_series(item, panel, *project, *plots, *tanks);
    assert(before + all.take(0) =~= before);
    match item {
        ExportItem::Plot(id) => {
            if let Some(plot) = plots.get(id) {
                let mut k: usize = 0;
                while k < plot.entries.len()
                    invariant
                        k <= plot.entries@.len(),
                        all == plot.entries@.map_values(
                            |e: PlotEntry| entry_key(*project, panel, e),
                        ),
                        named(out@) == before + all.take(k as int),
                    decreases plot.entries@.len() - k,
                {
                    let e = &plot.entries[k];
                    let name = e.series.as_str();
                    let key = drawn(project, panel, e.source, name, e.color, e.axis, e.value_offset);
                    let ghost had = out@;
                    out.push((key, name.to_owned()));
                    proof {
                        assert(all[k as int] == entry_key(*project, panel, *e));
                        assert(all.take(k + 1) =~= all.take(k as int).push(all[k as int]));
                        assert(named(out@) =~= named(had).push(all[k as int]));
                    }
                    k += 1;
                }
                assert(all.take(k as int) =~= all);
            }
        },
        ExportItem::Tank(id) => {
            if let Some(tank) = tanks.get(id) {
                let mut k: usize = 0;
                let (color, none) = (Rgb { r: 0, g: 0, b: 0 }, Double { bits: 0 });
                while k < tank.sensors.len()
                    invariant
                        k <= tank.sensors@.len(),
                        color == (Rgb { r: 0, g: 0, b: 0 }),
                        none == (Double { bits: 0 }),
                        all == tank.sensors@.map_values(
                            |r: Option<SeriesRef>| height_key(*project, panel, r),
                        ),
                        named(out@) == before + all.take(k as int),
                    decreases tank.sensors@.len() - k,
                {
                    let ghost had = out@;
                    match &tank.sensors[k] {
                        Some(r) => {
                            let name = r.series.as_str();
                            let axis = PlotAxis::Left;
                            let key = drawn(project, panel, r.source, name, color, axis, none);
                            out.push((key, name.to_owned()));
                        },
                        None => {
                            let key = SeriesKey {
                                panel,
                                picked: false,
                                source: 0,
                                loaded: false,
                                offset: 0,
                                found: false,
                                samples: 0,
                                color,
                                axis: PlotAxis::Left,
                                value_offset: none,
                            };
                            out.push((key, String::new()));
                        },
                    }
                    proof {
                        let r = tank.sensors@[k as int];
                        assert(all[k as int] == height_key(*project, panel, r));
                        assert(out@.last().1@ =~= height_key(*project, panel, r).1);
                        assert(all.take(k + 1) =~= all.take(k as int).push(all[k as int]));
                        assert(named(out@) =~= named(had).push(all[k as int]));
                    }
                    k += 1;
                }
                assert(all.take(k as int) =~= all);
            }
        },
    }
    assert(named(out@) =~= before + all);
}

impl ExportDialog {
    /// Everything a preview is a picture of.
    pub open spec fn preview_spec(
        self,
        project: Project,
        plots: Plots,
        tanks: Tanks,
        visible: Seq<ExportItem>,
        range: (i64, i64),
        cursor: i64,
    ) -> PreviewState {
        let items = among(visible, self.selected@);
        PreviewState {
            settings: self.settings,
            range,
            cursor,
            panels: items.map_values(|item: ExportItem| panel_spec(item, plots, tanks)),
            series: all_series(items, items.len(), project, plots, tanks),
        }
    }

    /// Everything a preview is a picture of.
    pub fn preview_key(
        &self,
        project: &Project,
        plots: &Plots,
        tanks: &Tanks,
        visible: &Vec<ExportItem>,
        range: (i64, i64),
        cursor: i64,
    ) -> (r: PreviewKey)
        ensures
            r@ == self.preview_spec(*project, *plots, *tanks, visible@, range, cursor),
    {
        let items = self.ordered_selection(visible);
        let ghost goal = items@.map_values(|item: ExportItem| panel_spec(item, *plots, *tanks));
        let mut panels: Vec<(PanelKey, String)> = Vec::new();
        let mut series: Vec<(SeriesKey, String)> = Vec::new();
        let mut n: usize = 0;
        assert(named(panels@) =~= goal.take(0));
        assert(named(series@) =~= all_series(items@, 0, *project, *plots, *tanks));
        while n < items.len()
            invariant
                n <= items@.len(),
                goal == items@.map_values(|item: ExportItem| panel_spec(item, *plots, *tanks)),
                named(panels@) == goal.take(n as int),
                named(series@) == all_series(items@, n as nat, *project, *plots, *tanks),
            decreases items@.len() - n,
        {
            let panel = panel_key(items[n], plots, tanks);
            let ghost had = panels@;
            let ghost added = (panel.0, panel.1@);
            panels.push(panel);
            proof {
                assert(goal[n as int] == added);
                assert(goal.take(n + 1) =~= goal.take(n as int).push(added));
                assert(named(panels@) =~= named(had).push(added));
            }
            push_series(&mut series, items[n], n, project, plots, tanks);
            n += 1;
        }
        assert(goal.take(n as int) =~= goal);
        PreviewKey { settings: self.settings, range, cursor, panels, series }
    }
}

impl PreviewKey {
    /// Whether two previews are pictures of the same: one need not be drawn again in place of the
    /// other.
    pub fn same_as(&self, other: &PreviewKey) -> (r: bool)
        ensures
            r <==> self@ == other@,
    {
        if self.settings != other.settings || self.cursor != other.cursor || self.range.0
            != other.range.0 || self.range.1 != other.range.1 || self.panels.len()
            != other.panels.len() || self.series.len() != other.series.len() {
            proof {
                assert(self@.panels.len() == self.panels@.len());
                assert(other@.panels.len() == other.panels@.len());
                assert(self@.series.len() == self.series@.len());
                assert(other@.series.len() == other.series@.len());
            }
            return false;
        }
        let mut i: usize = 0;
        while i < self.panels.len()
            invariant
                i <= self.panels@.len() == other.panels@.len(),
                forall|k: int| 0 <= k < i ==> #[trigger] self@.panels[k] == other@.panels[k],
            decreases self.panels@.len() - i,
        {
            let (a, b) = (&self.panels[i], &other.panels[i]);
            proof {
                assert(self@.panels[i as int] == (a.0, a.1@));
                assert(other@.panels[i as int] == (b.0, b.1@));
            }
            if a.0 != b.0 || !same(a.1.as_str(), b.1.as_str()) {
                return false;
            }
            i += 1;
        }
        let mut j: usize = 0;
        while j < self.series.len()
            invariant
                j <= self.series@.len() == other.series@.len(),
                forall|k: int| 0 <= k < j ==> #[trigger] self@.series[k] == other@.series[k],
            decreases self.series@.len() - j,
        {
            let (a, b) = (&self.series[j], &other.series[j]);
            proof {
                assert(self@.series[j as int] == (a.0, a.1@));
                assert(other@.series[j as int] == (b.0, b.1@));
            }
            if a.0 != b.0 || !same(a.1.as_str(), b.1.as_str()) {
                return false;
            }
            j += 1;
        }
        assert(self@.panels =~= other@.panels);
        assert(self@.series =~= other@.series);
        true
    }
}

} // verus!
