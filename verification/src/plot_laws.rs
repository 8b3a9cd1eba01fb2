//! What a graph's lines are of, and what a correction does to them.
use vstd::prelude::*;

use crate::correction::{is_corrected, is_correction};
use crate::double::Double;
use crate::model::{position_of, Project, Source, SourceKind};
use crate::panes::PlotEntry;
use crate::plot_view::{
    is_prepared, lemma_series_fits, resolved, series_at, series_from, PreparedSeries, Viewport,
};
use crate::series::{
    in_time_order, lod_spec, points_of_a_level_are_samples, range_spec, Reading, Sample, TimeSeries,
};
use crate::series_laws::{
    a_level_is_detailed_enough, a_sample_reads_as_itself, an_instant_parts_the_samples,
};

verus! {

broadcast use vstd::seq_lib::group_seq_properties;

/// The first source of an id is the one that is found.
pub proof fn a_source_is_found_by_its_id(sources: Seq<Source>, id: u64, from: int)
    requires
        0 <= from <= sources.len(),
    ensures
        match position_of(sources, id, from) {
            Some(i) => from <= i < sources.len() && sources[i].id == id && forall|k: int|
                from <= k < i ==> (#[trigger] sources[k]).id != id,
            None => forall|k: int| from <= k < sources.len() ==> (#[trigger] sources[k]).id != id,
        },
    decreases sources.len() - from,
{
    if from < sources.len() && sources[from].id != id {
        a_source_is_found_by_its_id(sources, id, from + 1);
    }
}

/// The first series of a name is the one that is found.
pub proof fn a_series_is_found_by_its_name(series: Seq<TimeSeries>, name: Seq<char>, from: int)
    requires
        0 <= from <= series.len(),
    ensures
        match series_from(series, name, from) {
            Some(i) => from <= i < series.len() && series[i].name@ == name && forall|k: int|
                from <= k < i ==> (#[trigger] series[k]).name@ != name,
            None => forall|k: int|
                from <= k < series.len() ==> (#[trigger] series[k]).name@ != name,
        },
    decreases series.len() - from,
{
    if from < series.len() && series[from].name@ != name {
        a_series_is_found_by_its_name(series, name, from + 1);
    }
}

/// An entry leads to the source of its id, and in it to the series of its name.
pub proof fn an_entry_leads_to_what_it_names(project: Project, entry: PlotEntry)
    requires
        resolved(project, entry) is Some,
    ensures
        ({
            let (i, k) = resolved(project, entry).unwrap();
            &&& 0 <= i < project.sources@.len()
            &&& project.sources@[i].id == entry.source
            &&& project.sources@[i].kind matches SourceKind::Log(log) && 0 <= k < log.series@.len()
                && log.series@[k].name@ == entry.series@ && series_at(project.sources@[i], k)
                == log.series@[k]
        }),
{
    a_source_is_found_by_its_id(project.sources@, entry.source, 0);
    let (i, k) = resolved(project, entry).unwrap();
    match project.sources@[i].kind {
        SourceKind::Log(log) => {
            a_series_is_found_by_its_name(log.series@, entry.series@, 0);
        },
        _ => {},
    }
}

proof fn lemma_level_is_samples(s: TimeSeries, t0: int, t1: int, target: int, point: Sample)
    requires
        s.wf(),
        s.level_for(s.levels().len(), t0, t1, target).contains(point),
    ensures
        s.samples().contains(point),
{
    a_level_is_detailed_enough(s, t0, t1, target);
    let level = s.level_for(s.levels().len(), t0, t1, target);
    if level != s.samples() {
        let l = choose|l: int| 0 <= l < s.levels().len() && level == #[trigger] s.levels()[l];
        assert(level == lod_spec(s.samples(), l as nat));
        let k = level.index_of(point);
        points_of_a_level_are_samples(s.samples(), l as nat, k);
    }
}

proof fn lemma_slice_is_part(points: Seq<Sample>, t0: int, t1: int, j: int)
    requires
        in_time_order(points),
        0 <= j < TimeSeries::covered(points, t0, t1).len(),
    ensures
        points.contains(TimeSeries::covered(points, t0, t1)[j]),
{
    an_instant_parts_the_samples(points, t0);
    an_instant_parts_the_samples(points, t1 + 1);
    let (lo, hi) = range_spec(points, t0, t1);
    assert(0 <= lo <= hi <= points.len());
    assert(TimeSeries::covered(points, t0, t1)[j] == points[lo + j]);
}

/// A line is drawn through samples of its series, put onto the timeline by the offset of their
/// source: every point is one of them, with its value unchanged. It has the colour, the axis and
/// the correction of its entry.
pub proof fn a_line_goes_through_its_samples(
    p: PreparedSeries,
    project: Project,
    entry: PlotEntry,
    several: bool,
    view: Viewport,
    j: int,
)
    requires
        project.wf(),
        is_prepared(p, project, entry, several, view),
        0 <= j < p.points@.len(),
    ensures
        p.color == entry.color && p.axis == entry.axis && p.value_offset == entry.value_offset,
        ({
            let (i, k) = resolved(project, entry).unwrap();
            let source = project.sources@[i];
            let samples = series_at(source, k).samples();
            exists|n: int|
                {
                    &&& 0 <= n < samples.len()
                    &&& p.points@[j].0 == (#[trigger] samples[n]).0 + source.offset
                    &&& p.points@[j].1 == samples[n].1
                }
        }),
{
    an_entry_leads_to_what_it_names(project, entry);
    let (i, k) = resolved(project, entry).unwrap();
    let source = project.sources@[i];
    let series = series_at(source, k);
    match source.kind {
        SourceKind::Log(log) => {
            assert(log.series@[k] == series);
            assert(source.wf());
            lemma_series_fits(source, series);
        },
        _ => {},
    }
    let t0 = view.start - source.offset;
    let t1 = view.end - source.offset;
    let level = series.level_for(series.levels().len(), t0, t1, view.points as int);
    let slice = TimeSeries::covered(level, t0, t1);
    a_level_is_detailed_enough(series, t0, t1, view.points as int);
    assert(in_time_order(level));
    lemma_slice_is_part(level, t0, t1, j);
    let point = slice[j];
    lemma_level_is_samples(series, t0, t1, view.points as int, point);
    let samples = series.samples();
    let n = samples.index_of(point);
    assert(samples[n] == point);
    assert(samples[0].0 <= samples[n].0 <= samples[samples.len() - 1].0);
    assert(p.points@[j].0 == samples[n].0 + source.offset);
}

/// Where the playhead is at a sample, what is read off the line is that sample.
pub proof fn the_playhead_reads_a_sample(
    p: PreparedSeries,
    project: Project,
    entry: PlotEntry,
    several: bool,
    view: Viewport,
    n: int,
)
    requires
        project.wf(),
        is_prepared(p, project, entry, several, view),
        ({
            let (i, k) = resolved(project, entry).unwrap();
            let source = project.sources@[i];
            let samples = series_at(source, k).samples();
            &&& 0 <= n < samples.len()
            &&& n > 0 ==> samples[n - 1].0 < samples[n].0
            &&& view.cursor == samples[n].0 + source.offset
        }),
    ensures
        ({
            let (i, k) = resolved(project, entry).unwrap();
            let samples = series_at(project.sources@[i], k).samples();
            match p.at_cursor {
                None => false,
                Some(Reading::Held(v)) => v == samples[n].1,
                Some(Reading::Between { after, at, of, .. }) => after == samples[n].1 && at == of,
            }
        }),
{
    an_entry_leads_to_what_it_names(project, entry);
    let (i, k) = resolved(project, entry).unwrap();
    let source = project.sources@[i];
    let series = series_at(source, k);
    match source.kind {
        SourceKind::Log(log) => {
            assert(log.series@[k] == series);
            assert(source.wf());
            lemma_series_fits(source, series);
        },
        _ => {},
    }
    a_sample_reads_as_itself(series, n);
}

/// A correction adds the number it is of to every value of a line, to both ends of its range and
/// to what is read off it at the playhead, whatever adding two numbers gives.
pub proof fn a_correction_adds_to_every_value<
    S: Fn(Double, Double) -> Double,
    W: Fn(Double) -> String,
>(
    p: PreparedSeries,
    c: PreparedSeries,
    sum: S,
    words: W,
    total: spec_fn(Double, Double) -> Double,
    i: int,
)
    requires
        is_corrected(c, p, sum, words),
        is_correction(p.value_offset),
        forall|a: Double, b: Double, r: Double|
            #![trigger call_ensures(sum, (a, b), r)]
            call_ensures(sum, (a, b), r) ==> r == total(a, b),
        0 <= i < p.points@.len(),
    ensures
        c.points@[i] == (p.points@[i].0, total(p.points@[i].1, p.value_offset)),
        match p.bounds {
            Some((lo, hi)) => c.bounds == Some(
                (total(lo, p.value_offset), total(hi, p.value_offset)),
            ),
            None => c.bounds is None,
        },
        match p.at_cursor {
            Some(Reading::Held(v)) => c.at_cursor == Some(Reading::Held(total(v, p.value_offset))),
            Some(Reading::Between { before, after, at, of }) => c.at_cursor == Some(
                Reading::Between {
                    before: total(before, p.value_offset),
                    after: total(after, p.value_offset),
                    at,
                    of,
                },
            ),
            None => c.at_cursor is None,
        },
{
    assert(c.points@[i].0 == p.points@[i].0);
}

} // verus!
