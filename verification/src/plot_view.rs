//! What a graph pane draws: the series it resolves to, their labels, slices and value ranges,
//! and which of them its two axes are fitted to.
use vstd::prelude::*;

use crate::colors::Rgb;
use crate::double::Double;
use crate::model::{log_range, series_range, Project, Source, SourceKind};
use crate::panes::{PlotAxis, PlotEntry, PlotSpec};
use crate::series::{Reading, Sample, TimeSeries};
use crate::text::{copy_opt, join, joined, opt_view, same, texts_of};

verus! {

broadcast use vstd::seq_lib::group_seq_properties;

/// How many points a graph is worth drawing with.
pub const TARGET_PLOT_POINTS: usize = 2000;

/// Everything a graph needs about one of its series.
pub struct PreparedSeries {
    /// What the line is of, without the axis it is read against.
    pub base: String,
    pub label: String,
    pub color: Rgb,
    pub unit: Option<String>,
    pub axis: PlotAxis,
    /// What is to be added to every value before it is drawn. The points, the bounds and the
    /// reading are those of the series itself.
    pub value_offset: Double,
    pub points: Vec<Sample>,
    /// Value range over the visible window, before any normalization.
    pub bounds: Option<(Double, Double)>,
    pub at_cursor: Option<Reading>,
}

/// The position of the first series of a name, from `from` on.
pub open spec fn series_from(series: Seq<TimeSeries>, name: Seq<char>, from: int) -> Option<int>
    decreases series.len() - from,
{
    if from < 0 || from >= series.len() {
        None
    } else if series[from].name@ == name {
        Some(from)
    } else {
        series_from(series, name, from + 1)
    }
}

/// The position of a source's series, if it is a log that has it.
pub open spec fn series_of(source: Source, name: Seq<char>) -> Option<int> {
    match source.kind {
        SourceKind::Log(log) => series_from(log.series@, name, 0),
        _ => None,
    }
}

/// The series at a position of a log.
pub open spec fn series_at(source: Source, i: int) -> TimeSeries {
    match source.kind {
        SourceKind::Log(log) => log.series@[i],
        _ => arbitrary(),
    }
}

/// Finds a source's series by name.
pub fn find_series<'a>(source: &'a Source, name: &str) -> (r: Option<&'a TimeSeries>)
    ensures
        match r {
            Some(s) => series_of(*source, name@) is Some && *s == series_at(
                *source,
                series_of(*source, name@).unwrap(),
            ) && s.name@ == name@ && (source.kind matches SourceKind::Log(log)
                && log.series@.contains(*s)),
            None => series_of(*source, name@) is None,
        },
{
    match &source.kind {
        SourceKind::Log(log) => {
            let mut i: usize = 0;
            while i < log.series.len()
                invariant
                    i <= log.series@.len(),
                    source.kind == SourceKind::Log(*log),
                    series_from(log.series@, name@, 0) == series_from(
                        log.series@,
                        name@,
                        i as int,
                    ),
                decreases log.series@.len() - i,
            {
                if same(log.series[i].name.as_str(), name) {
                    assert(log.series@.contains(log.series@[i as int]));
                    return Some(&log.series[i]);
                }
                i += 1;
            }
            None
        },
        _ => None,
    }
}

/// Whether a graph draws from more than one source: then each line has to say which.
pub open spec fn from_several_sources(entries: Seq<PlotEntry>) -> bool {
    exists|i: int, j: int|
        0 <= i < entries.len() && j == i + 1 && j < entries.len() && (
        #[trigger] entries[i]).source != (#[trigger] entries[j]).source
}

/// What an entry's line is of: its series, and the source where there are several.
pub open spec fn base_label(entry: PlotEntry, source: Source, several: bool) -> Seq<char> {
    if several {
        entry.series@ + " ["@ + source.name@ + "]"@
    } else {
        entry.series@
    }
}

/// The legend's label of an entry. Which axis a line is read against has to be visible on the
/// line itself; the numbers on the two sides are otherwise unattributable.
pub open spec fn label_spec(entry: PlotEntry, source: Source, several: bool) -> Seq<char> {
    let base = base_label(entry, source, several);
    if entry.axis == PlotAxis::Right {
        base + " (R)"@
    } else {
        base
    }
}

/// Where an entry leads: the position of its source, and that of the series in it.
pub open spec fn resolved(project: Project, entry: PlotEntry) -> Option<(int, int)> {
    match project.find_spec(entry.source) {
        Some(i) => match series_of(project.sources@[i], entry.series@) {
            Some(k) => Some((i, k)),
            None => None,
        },
        None => None,
    }
}

/// The first `n` entries that lead anywhere.
pub open spec fn drawn(project: Project, entries: Seq<PlotEntry>, n: nat) -> Seq<int>
    decreases n,
{
    if n == 0 {
        Seq::empty()
    } else {
        let rest = drawn(project, entries, (n - 1) as nat);
        if resolved(project, entries[n - 1]) is Some {
            rest.push(n - 1)
        } else {
            rest
        }
    }
}

/// The window and the playhead that a graph is prepared for.
#[derive(Clone, Copy, PartialEq, Eq, Structural, Debug)]
pub struct Viewport {
    pub start: i64,
    pub end: i64,
    pub cursor: i64,
    /// How many points to ask each series for.
    pub points: usize,
}

/// Whether a prepared series is that of an entry.
pub open spec fn is_prepared(
    p: PreparedSeries,
    project: Project,
    entry: PlotEntry,
    several: bool,
    view: Viewport,
) -> bool {
    match resolved(project, entry) {
        Some((i, k)) => {
            let source = project.sources@[i];
            let series = series_at(source, k);
            let t0 = view.start - source.offset;
            let t1 = view.end - source.offset;
            &&& p.base@ == base_label(entry, source, several)
            &&& p.label@ == label_spec(entry, source, several)
            &&& p.color == entry.color
            &&& p.axis == entry.axis
            &&& p.value_offset == entry.value_offset
            &&& opt_view(p.unit) == opt_view(series.unit)
            &&& p.points@ == TimeSeries::moved(
                TimeSeries::covered(
                    series.level_for(
                        series.levels().len(),
                        t0,
                        t1,
                        view.points as int,
                    ),
                    t0,
                    t1,
                ),
                source.offset,
            )
            &&& p.bounds is Some <==> TimeSeries::covering(series.samples(), t0, t1) > 0
                && TimeSeries::has_bounds(series.bounded(t0, t1))
            &&& p.bounds matches Some((lo, hi)) ==> lo.finite() && hi.finite()
                && TimeSeries::bounds_values(series.bounded(t0, t1), lo, hi)
            &&& p.at_cursor == series.reading_spec(view.cursor - source.offset)
        },
        None => false,
    }
}

/// A series of a source, moved by its offset, stays within what an instant can hold.
pub proof fn lemma_series_fits(source: Source, series: TimeSeries)
    requires
        source.wf(),
        source.kind matches SourceKind::Log(log) && log.series@.contains(series),
    ensures
        series.wf(),
        series.fits(source.offset),
{
    match source.kind {
        SourceKind::Log(log) => {
            let k = log.series@.index_of(series);
            assert(log.series@[k] == series);
            if series_range(series) is Some {
                lemma_within_log(log.series@, k);
            }
        },
        _ => {},
    }
}

proof fn lemma_within_log(series: Seq<TimeSeries>, k: int)
    requires
        0 <= k < series.len(),
        series_range(series[k]) is Some,
    ensures
        log_range(series) is Some,
        log_range(series).unwrap().0 <= series_range(series[k]).unwrap().0,
        series_range(series[k]).unwrap().1 <= log_range(series).unwrap().1,
    decreases series.len(),
{
    if k < series.len() - 1 {
        lemma_within_log(series.drop_last(), k);
    }
}

fn several_sources(entries: &Vec<PlotEntry>) -> (r: bool)
    ensures
        r == from_several_sources(entries@),
{
    let mut i: usize = 1;
    while i < entries.len()
        invariant
            1 <= i,
            i <= entries@.len() || entries@.len() == 0,
            forall|a: int, b: int|
                0 <= a && b == a + 1 && b < i && b < entries@.len() ==> (
                #[trigger] entries@[a]).source == (#[trigger] entries@[b]).source,
        decreases entries@.len() - i,
    {
        if entries[i - 1].source != entries[i].source {
            assert(entries@[i - 1].source != entries@[i as int].source);
            return true;
        }
        i += 1;
    }
    false
}

fn base(entry: &PlotEntry, source: &Source, several: bool) -> (r: String)
    ensures
        r@ == base_label(*entry, *source, several),
{
    let mut out = entry.series.clone();
    if several {
        out.append(" [");
        out.append(source.name.as_str());
        out.append("]");
    }
    out
}

fn label(entry: &PlotEntry, source: &Source, several: bool) -> (r: String)
    ensures
        r@ == label_spec(*entry, *source, several),
{
    let mut out = base(entry, source, several);
    if entry.axis == PlotAxis::Right {
        out.append(" (R)");
    }
    out
}

/// Resolves the series of a graph and cuts them to the visible window. An entry whose source
/// or series is gone is left out.
pub fn prepare(project: &Project, plot: &PlotSpec, view: Viewport) -> (r: Vec<PreparedSeries>)
    requires
        project.wf(),
    ensures
        r@.len() == drawn(*project, plot.entries@, plot.entries@.len()).len(),
        forall|k: int|
            0 <= k < r@.len() ==> is_prepared(
                #[trigger] r@[k],
                *project,
                plot.entries@[drawn(*project, plot.entries@, plot.entries@.len())[k]],
                from_several_sources(plot.entries@),
                view,
            ),
{
    let several = several_sources(&plot.entries);
    let mut out: Vec<PreparedSeries> = Vec::new();
    let mut n: usize = 0;
    while n < plot.entries.len()
        invariant
            n <= plot.entries@.len(),
            project.wf(),
            several == from_several_sources(plot.entries@),
            out@.len() == drawn(*project, plot.entries@, n as nat).len(),
            forall|k: int|
                0 <= k < out@.len() ==> is_prepared(
                    #[trigger] out@[k],
                    *project,
                    plot.entries@[drawn(*project, plot.entries@, n as nat)[k]],
                    several,
                    view,
                ),
        decreases plot.entries@.len() - n,
    {
        let entry = &plot.entries[n];
        let ghost rest = drawn(*project, plot.entries@, n as nat);
        if let Some(source) = project.source(entry.source) {
            if let Some(series) = find_series(source, entry.series.as_str()) {
                proof {
                    lemma_found(*project, entry.source);
                    lemma_series_fits(*source, *series);
                }
                out.push(
                    PreparedSeries {
                        base: base(entry, source, several),
                        label: label(entry, source, several),
                        color: entry.color,
                        unit: copy_opt(&series.unit),
                        axis: entry.axis,
                        value_offset: entry.value_offset,
                        points: series.slice_for_range(
                            view.start,
                            view.end,
                            source.offset,
                            view.points,
                        ),
                        bounds: series.value_bounds_in_range(view.start, view.end, source.offset),
                        at_cursor: series.value_at(view.cursor, source.offset),
                    },
                );
            }
        }
        n += 1;
    }
    out
}

/// A source that is found is one of the project's.
pub proof fn lemma_found(project: Project, id: u64)
    requires
        project.wf(),
        project.find_spec(id) is Some,
    ensures
        0 <= project.find_spec(id).unwrap() < project.sources@.len(),
        project.sources@[project.find_spec(id).unwrap()].wf(),
{
    lemma_found_in_range(project.sources@, id, 0);
}

proof fn lemma_found_in_range(sources: Seq<Source>, id: u64, from: int)
    requires
        0 <= from,
        crate::model::position_of(sources, id, from) is Some,
    ensures
        from <= crate::model::position_of(sources, id, from).unwrap() < sources.len(),
    decreases sources.len() - from,
{
    if from < sources.len() && sources[from].id != id {
        lemma_found_in_range(sources, id, from + 1);
    }
}

/// The distinct units of the first `n` series on an axis, in the order they appear.
pub open spec fn units_on(series: Seq<PreparedSeries>, axis: PlotAxis, n: nat) -> Seq<Seq<char>>
    decreases n,
{
    if n == 0 {
        Seq::empty()
    } else {
        let rest = units_on(series, axis, (n - 1) as nat);
        match opt_view(series[n - 1].unit) {
            Some(unit) => if series[n - 1].axis == axis && !rest.contains(unit) {
                rest.push(unit)
            } else {
                rest
            },
            None => rest,
        }
    }
}

fn holds_text(texts: &Vec<String>, text: &str) -> (r: bool)
    ensures
        r == texts_of(texts@).contains(text@),
{
    let mut i: usize = 0;
    let ghost views = texts_of(texts@);
    while i < texts.len()
        invariant
            i <= texts@.len(),
            views == texts_of(texts@),
            forall|k: int| 0 <= k < i ==> #[trigger] views[k] != text@,
        decreases texts@.len() - i,
    {
        assert(views[i as int] == texts@[i as int]@);
        if same(texts[i].as_str(), text) {
            return true;
        }
        i += 1;
    }
    false
}

/// The distinct units among the series on an axis, in the order they appear.
pub fn unit_label(series: &Vec<PreparedSeries>, axis: PlotAxis) -> (r: String)
    ensures
        r@ == joined(units_on(series@, axis, series@.len()), " / "@),
{
    let mut units: Vec<String> = Vec::new();
    let mut n: usize = 0;
    assert(texts_of(units@) =~= Seq::<Seq<char>>::empty());
    while n < series.len()
        invariant
            n <= series@.len(),
            texts_of(units@) == units_on(series@, axis, n as nat),
        decreases series@.len() - n,
    {
        if series[n].axis == axis {
            if let Some(unit) = &series[n].unit {
                if !holds_text(&units, unit.as_str()) {
                    let ghost before = units@;
                    units.push(unit.clone());
                    assert(texts_of(units@) =~= texts_of(before).push(unit@));
                }
            }
        }
        n += 1;
    }
    join(&units, " / ")
}

/// The value ranges of the first `n` series on an axis, joined.
pub open spec fn values_on(
    series: Seq<PreparedSeries>,
    axis: PlotAxis,
    n: nat,
) -> Option<(Double, Double)>
    decreases n,
{
    if n == 0 {
        None
    } else {
        let rest = values_on(series, axis, (n - 1) as nat);
        if series[n - 1].axis != axis {
            rest
        } else {
            match (rest, series[n - 1].bounds) {
                (Some((a, b)), Some((lo, hi))) => Some(
                    (
                        if lo.lt(a) {
                            lo
                        } else {
                            a
                        },
                        if b.lt(hi) {
                            hi
                        } else {
                            b
                        },
                    ),
                ),
                (None, own) => own,
                (rest, None) => rest,
            }
        }
    }
}

/// The union of what the series on an axis cover in the visible window, if they cover anything.
pub fn axis_values(series: &Vec<PreparedSeries>, axis: PlotAxis) -> (r: Option<(Double, Double)>)
    ensures
        r == values_on(series@, axis, series@.len()),
{
    let mut r: Option<(Double, Double)> = None;
    let mut n: usize = 0;
    while n < series.len()
        invariant
            n <= series@.len(),
            r == values_on(series@, axis, n as nat),
        decreases series@.len() - n,
    {
        if series[n].axis == axis {
            r =
            match (r, series[n].bounds) {
                (Some((a, b)), Some((lo, hi))) => Some(
                    (
                        if lo.less(a) {
                            lo
                        } else {
                            a
                        },
                        if b.less(hi) {
                            hi
                        } else {
                            b
                        },
                    ),
                ),
                (None, own) => own,
                (rest, None) => rest,
            };
        }
        n += 1;
    }
    r
}

/// What a value range is fitted to.
#[derive(Clone, Copy, PartialEq, Eq, Structural, Debug)]
pub enum Fit {
    /// Nothing to fit to: zero to one.
    Unit,
    /// Zero to one with a little room, for normalized series.
    Normalized,
    /// Values, to which headroom is added.
    Values(Double, Double),
    /// A range the user picked, taken as it is.
    Manual(Double, Double),
}

/// The axes of a graph.
pub struct Axes {
    /// What the plot's own coordinates are fitted to while nobody zooms.
    pub auto_fit: Fit,
    /// What the visible range is: the manual one where there is one.
    pub shown: Fit,
    /// What the right-hand axis is fitted to, mapped into the plot's coordinates.
    pub right: Fit,
    pub has_right: bool,
    pub left_label: String,
    pub right_label: String,
}

/// Whether any series is on the right.
pub open spec fn any_right(series: Seq<PreparedSeries>) -> bool {
    exists|i: int| 0 <= i < series.len() && (#[trigger] series[i]).axis == PlotAxis::Right
}

/// What a graph's own coordinates are fitted to. With nothing on the left, right-axis series
/// keep their own numbers rather than being mapped into a range that isn't there.
pub open spec fn auto_fit_spec(series: Seq<PreparedSeries>, normalize: bool) -> Fit {
    let left = values_on(series, PlotAxis::Left, series.len());
    let right = values_on(series, PlotAxis::Right, series.len());
    if normalize {
        Fit::Normalized
    } else if left is Some {
        Fit::Values(left.unwrap().0, left.unwrap().1)
    } else if right is Some {
        Fit::Values(right.unwrap().0, right.unwrap().1)
    } else {
        Fit::Unit
    }
}

/// Chooses the axes of a graph. Each covers the union of its own series' visible range; a
/// series on the right is then mapped into the left axis' range for drawing, so a thrust curve
/// and a pressure can share a graph without either being flattened into a straight line.
pub fn axes(series: &Vec<PreparedSeries>, normalize: bool, manual: Option<(Double, Double)>) -> (r:
    Axes)
    ensures
        r.auto_fit == auto_fit_spec(series@, normalize),
        r.shown == match manual {
            Some((lo, hi)) => if normalize {
                Fit::Normalized
            } else {
                Fit::Manual(lo, hi)
            },
            None => auto_fit_spec(series@, normalize),
        },
        r.right == match values_on(series@, PlotAxis::Right, series@.len()) {
            Some((lo, hi)) => Fit::Values(lo, hi),
            None => auto_fit_spec(series@, normalize),
        },
        r.has_right == (any_right(series@) && !normalize),
        r.left_label@ == if normalize {
            "normalized"@
        } else {
            joined(units_on(series@, PlotAxis::Left, series@.len()), " / "@)
        },
        r.right_label@ == joined(units_on(series@, PlotAxis::Right, series@.len()), " / "@),
{
    let left = axis_values(series, PlotAxis::Left);
    let right = axis_values(series, PlotAxis::Right);
    let auto_fit = if normalize {
        Fit::Normalized
    } else {
        match left {
            Some((lo, hi)) => Fit::Values(lo, hi),
            None => match right {
                Some((lo, hi)) => Fit::Values(lo, hi),
                None => Fit::Unit,
            },
        }
    };
    let shown = match manual {
        Some((lo, hi)) => if normalize {
            auto_fit
        } else {
            Fit::Manual(lo, hi)
        },
        None => auto_fit,
    };
    let mut on_right = false;
    let mut i: usize = 0;
    while i < series.len()
        invariant
            i <= series@.len(),
            on_right == (exists|k: int|
                0 <= k < i && (#[trigger] series@[k]).axis == PlotAxis::Right),
        decreases series@.len() - i,
    {
        if series[i].axis == PlotAxis::Right {
            assert(series@[i as int].axis == PlotAxis::Right);
            on_right = true;
        }
        i += 1;
    }
    Axes {
        auto_fit,
        shown,
        right: match right {
            Some((lo, hi)) => Fit::Values(lo, hi),
            None => auto_fit,
        },
        has_right: on_right && !normalize,
        left_label: if normalize {
            "normalized".to_owned()
        } else {
            unit_label(series, PlotAxis::Left)
        },
        right_label: unit_label(series, PlotAxis::Right),
    }
}

/// How a series' values become heights in the plot.
#[derive(Clone, Copy, PartialEq, Eq, Structural, Debug)]
pub enum Drawing {
    AsIs,
    /// Through the map from the right-hand axis to the plot's own coordinates.
    Mapped,
    /// Over its own visible range.
    Normalized(Double, Double),
    /// A flat series has no range to normalize against; it is parked in the middle.
    Middle,
}

/// How a series is drawn.
pub fn drawing(series: &PreparedSeries, normalize: bool) -> (r: Drawing)
    ensures
        r == if normalize {
            match series.bounds {
                Some((lo, hi)) => if lo.lt(hi) {
                    Drawing::Normalized(lo, hi)
                } else {
                    Drawing::Middle
                },
                None => Drawing::Middle,
            }
        } else if series.axis == PlotAxis::Right {
            Drawing::Mapped
        } else {
            Drawing::AsIs
        },
{
    if normalize {
        match series.bounds {
            Some((lo, hi)) => if lo.less(hi) {
                Drawing::Normalized(lo, hi)
            } else {
                Drawing::Middle
            },
            None => Drawing::Middle,
        }
    } else if series.axis == PlotAxis::Right {
        Drawing::Mapped
    } else {
        Drawing::AsIs
    }
}

/// The first series of a label, from `from` on.
pub open spec fn labelled_from(series: Seq<PreparedSeries>, label: Seq<char>, from: int) -> Option<
    int,
>
    decreases series.len() - from,
{
    if from < 0 || from >= series.len() {
        None
    } else if series[from].label@ == label {
        Some(from)
    } else {
        labelled_from(series, label, from + 1)
    }
}

/// The series that a hovered line belongs to, which says how to read its height back.
pub fn hovered(series: &Vec<PreparedSeries>, label: &str) -> (r: Option<usize>)
    ensures
        match r {
            Some(i) => labelled_from(series@, label@, 0) == Some(i as int) && i < series@.len(),
            None => labelled_from(series@, label@, 0) is None,
        },
{
    let mut i: usize = 0;
    while i < series.len()
        invariant
            i <= series@.len(),
            labelled_from(series@, label@, 0) == labelled_from(series@, label@, i as int),
        decreases series@.len() - i,
    {
        if same(series[i].label.as_str(), label) {
            return Some(i);
        }
        i += 1;
    }
    None
}

} // verus!
