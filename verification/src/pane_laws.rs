//! What the panes show of the sources and their series.
use vstd::prelude::*;

use crate::model::{log_range, master_range, series_range, Project, Source, SourceKind};
use crate::panes::{PlotAxis, PlotEntry};
use crate::picker::target;
use crate::plot_view::{drawn, resolved, units_on, values_on, PreparedSeries};
use crate::series::{in_time_order, Sample, TimeSeries};
use crate::tank::picture::{held, reached};
use crate::text::opt_view;
use crate::vapor::{inside, moved_series, pairs_spec, prepared_spec, slice_of, VaporSpec};

verus! {

broadcast use vstd::seq_lib::group_seq_properties;

/// A source stands on the master timeline as much later as its offset says: a log's samples at
/// their own times, a recording from its start on.
pub proof fn an_offset_moves_a_source(s: Source, local: int)
    ensures
        s.master(local) == local + s.offset + match s.kind {
            SourceKind::Log(_) => 0,
            SourceKind::Video(v) => v.start_utc as int,
            SourceKind::Audio(a) => a.start_utc as int,
        },
        s.local(s.master(local)) == local,
{
}

/// The timeline begins with the earliest source and ends with the latest: no end of it is beyond
/// all of them. It is empty only where all of them are.
pub proof fn the_timeline_ends_with_its_sources(sources: Seq<Source>, n: nat)
    requires
        n <= sources.len(),
    ensures
        match master_range(sources, n) {
            Some((lo, hi)) => {
                &&& exists|i: int|
                    0 <= i < n && (#[trigger] sources[i]).range() is Some && sources[i].range().unwrap().0
                        + sources[i].offset == lo
                &&& exists|i: int|
                    0 <= i < n && (#[trigger] sources[i]).range() is Some && sources[i].range().unwrap().1
                        + sources[i].offset == hi
            },
            None => forall|i: int| 0 <= i < n ==> (#[trigger] sources[i]).range() is None,
        },
    decreases n,
{
    if n > 0 {
        the_timeline_ends_with_its_sources(sources, (n - 1) as nat);
        let last = sources[n - 1];
        if last.range() is Some {
            let own = (last.range().unwrap().0 + last.offset, last.range().unwrap().1 + last.offset);
            assert(sources[n - 1].range().unwrap().0 + sources[n - 1].offset == own.0);
        }
    }
}

/// A log's range holds the samples of each of its series, and ends with one of them.
pub proof fn a_log_spans_its_series(series: Seq<TimeSeries>, i: int)
    requires
        0 <= i < series.len(),
        series[i].samples().len() > 0,
    ensures
        log_range(series) matches Some((lo, hi)) && lo <= series[i].samples()[0].0
            && series[i].samples()[series[i].samples().len() - 1].0 <= hi,
        exists|k: int|
            0 <= k < series.len() && (#[trigger] series[k]).samples().len() > 0
                && series[k].samples()[0].0 == log_range(series).unwrap().0,
        exists|k: int|
            0 <= k < series.len() && (#[trigger] series[k]).samples().len() > 0
                && series[k].samples()[series[k].samples().len() - 1].0 == log_range(series).unwrap().1,
    decreases series.len(),
{
    let front = series.drop_last();
    let last = series[series.len() - 1];
    assert(series.last() == last);
    if log_range(front) is Some {
        lemma_log_has_samples(front);
        let k = choose|k: int| 0 <= k < front.len() && (#[trigger] front[k]).samples().len() > 0;
        if i < front.len() {
            assert(front[i] == series[i]);
            a_log_spans_its_series(front, i);
        } else {
            a_log_spans_its_series(front, k);
        }
        let a = choose|k: int|
            0 <= k < front.len() && (#[trigger] front[k]).samples().len() > 0
                && front[k].samples()[0].0 == log_range(front).unwrap().0;
        let b = choose|k: int|
            0 <= k < front.len() && (#[trigger] front[k]).samples().len() > 0
                && front[k].samples()[front[k].samples().len() - 1].0 == log_range(front).unwrap().1;
        assert(series[a] == front[a] && series[b] == front[b]);
        if last.samples().len() > 0 {
            assert(series_range(last) == Some(
                (last.samples()[0].0 as int, last.samples().last().0 as int),
            ));
        }
    } else {
        if i < front.len() {
            assert(front[i] == series[i]);
            a_log_spans_its_series(front, i);
        }
        assert(i == series.len() - 1);
        assert(last.samples().last() == last.samples()[last.samples().len() - 1]);
    }
}

proof fn lemma_log_has_samples(series: Seq<TimeSeries>)
    requires
        log_range(series) is Some,
    ensures
        exists|k: int| 0 <= k < series.len() && (#[trigger] series[k]).samples().len() > 0,
    decreases series.len(),
{
    if series.len() > 0 {
        let front = series.drop_last();
        if log_range(front) is Some {
            lemma_log_has_samples(front);
            let k = choose|k: int|
                0 <= k < front.len() && (#[trigger] front[k]).samples().len() > 0;
            assert(series[k] == front[k]);
        } else {
            assert(series[series.len() - 1].samples().len() > 0);
        }
    }
}

/// A pair is a measurement of the one series and what the other was at that very instant; every
/// measurement that the other series covers is in one, and they stay in order.
pub proof fn a_pair_is_of_one_instant(
    base: Seq<Sample>,
    other: TimeSeries,
    offset: i64,
    n: nat,
    k: int,
)
    requires
        n <= base.len(),
        0 <= k < n,
    ensures
        ({
            let pairs = pairs_spec(base, other, offset, n);
            &&& pairs.len() <= n
            &&& inside(other, offset, base[k].0 as int) ==> exists|i: int|
                {
                    &&& 0 <= i < pairs.len()
                    &&& (#[trigger] pairs[i]).t == base[k].0
                    &&& pairs[i].value == base[k].1
                    &&& Some(pairs[i].other) == other.reading_spec(base[k].0 - offset)
                }
        }),
    decreases n,
{
    let front = pairs_spec(base, other, offset, (n - 1) as nat);
    let pairs = pairs_spec(base, other, offset, n);
    if n > 1 {
        a_pair_is_of_one_instant(
            base,
            other,
            offset,
            (n - 1) as nat,
            if k < n - 1 {
                k
            } else {
                0
            },
        );
    }
    if inside(other, offset, base[k].0 as int) {
        assert(other.samples().len() > 0);
        if k < n - 1 {
            let i = choose|i: int|
                {
                    &&& 0 <= i < front.len()
                    &&& (#[trigger] front[i]).t == base[k].0
                    &&& front[i].value == base[k].1
                    &&& Some(front[i].other) == other.reading_spec(base[k].0 - offset)
                };
            assert(pairs[i] == front[i]);
        } else {
            assert(pairs[pairs.len() - 1].t == base[k].0);
        }
    }
}

/// The series with more samples in the window is the one whose measurements are paired up, the
/// temperature where they have as many.
pub proof fn the_denser_series_is_paired_up(
    t: (TimeSeries, i64),
    p: (TimeSeries, i64),
    window: (i64, i64),
)
    ensures
        match prepared_spec(t, p, window) {
            Ok((by_temperature, pairs)) => {
                let (ts, ps) = (slice_of(t.0, t.1, window), slice_of(p.0, p.1, window));
                &&& by_temperature ==> ts.len() >= ps.len() && pairs == pairs_spec(
                    ts,
                    p.0,
                    p.1,
                    ts.len(),
                )
                &&& !by_temperature ==> ts.len() < ps.len() && pairs == pairs_spec(
                    ps,
                    t.0,
                    t.1,
                    ps.len(),
                )
                &&& pairs.len() > 0
            },
            Err(_) => true,
        },
{
}

/// The readout at the playhead is what the temperature's series reads and what the pressure's
/// does, in that order, where both cover the instant.
pub proof fn the_readout_is_of_both(spec: VaporSpec, project: Project, t: int)
    ensures
        spec.readings_spec(project, t) matches Some((a, b)) ==> {
            let (ts, to) = moved_series(project, target(project, spec.temperature->0)->0);
            let (ps, po) = moved_series(project, target(project, spec.pressure->0)->0);
            &&& Some(a) == ts.reading_spec(t - to)
            &&& Some(b) == ps.reading_spec(t - po)
            &&& inside(ts, to, t) && inside(ps, po, t)
        },
{
    if let Some((a, b)) = spec.readings_spec(project, t) {
        let (ts, to) = moved_series(project, target(project, spec.temperature->0)->0);
        let (ps, po) = moved_series(project, target(project, spec.pressure->0)->0);
        assert(ts.samples().len() > 0 && ps.samples().len() > 0);
        assert(ts.reading_spec(t - to) is Some);
        assert(ps.reading_spec(t - po) is Some);
    }
}

proof fn lemma_reached_all(points: Seq<Sample>, t: int, from: int, k: int)
    requires
        in_time_order(points),
        0 <= from <= k < points.len(),
        points[k].0 <= t,
        k + 1 < points.len() ==> points[k + 1].0 > t,
    ensures
        reached(points, t, from) == k + 1,
    decreases k - from,
{
    assert(points[from].0 <= points[k].0);
    if from < k {
        lemma_reached_all(points, t, from + 1, k);
    } else {
        assert(reached(points, t, from + 1) == k + 1);
    }
}

/// A height of a tank shows its sensor's last sample by then, where that is recent enough and a
/// number: a dropout is a hole.
pub proof fn a_height_holds_its_last_sample(points: Seq<Sample>, t: int, hold: int, k: int)
    requires
        in_time_order(points),
        0 <= k < points.len(),
        points[k].0 <= t,
        k + 1 < points.len() ==> points[k + 1].0 > t,
    ensures
        held(points, t, hold) == if t - points[k].0 <= hold && !points[k].1.nan() {
            Some(points[k].1)
        } else {
            None
        },
{
    lemma_reached_all(points, t, 0, k);
}

/// Nothing is shown before a sensor's first sample.
pub proof fn a_height_is_empty_before_its_first_sample(points: Seq<Sample>, t: int, hold: int)
    requires
        points.len() > 0 ==> points[0].0 > t,
    ensures
        held(points, t, hold) is None,
{
}

/// An axis takes in the range of every series on it, and no more than theirs: its ends are ends of
/// theirs. Series on the other axis do not count.
pub proof fn an_axis_takes_in_its_series(
    series: Seq<PreparedSeries>,
    axis: PlotAxis,
    n: nat,
    k: int,
)
    requires
        n <= series.len(),
        0 <= k < n,
        forall|i: int|
            0 <= i < n ==> ((#[trigger] series[i]).bounds matches Some((lo, hi)) ==> lo.finite()
                && hi.finite()),
    ensures
        match values_on(series, axis, n) {
            Some((a, b)) => {
                &&& a.finite() && b.finite()
                &&& series[k].axis == axis && series[k].bounds is Some
                    ==> !series[k].bounds.unwrap().0.lt(a) && !b.lt(series[k].bounds.unwrap().1)
                &&& exists|i: int|
                    0 <= i < n && (#[trigger] series[i]).axis == axis && series[i].bounds is Some
                        && series[i].bounds.unwrap().0 == a
                &&& exists|i: int|
                    0 <= i < n && (#[trigger] series[i]).axis == axis && series[i].bounds is Some
                        && series[i].bounds.unwrap().1 == b
            },
            None => series[k].axis == axis ==> series[k].bounds is None,
        },
    decreases n,
{
    let last = series[n - 1];
    if n > 1 {
        an_axis_takes_in_its_series(
            series,
            axis,
            (n - 1) as nat,
            if k < n - 1 {
                k
            } else {
                0
            },
        );
    } else {
        assert(values_on(series, axis, 0) is None);
    }
    if last.axis == axis && last.bounds is Some {
        assert(series[n - 1].bounds.unwrap().0 == last.bounds.unwrap().0);
    }
}

/// The units on an axis are those of its series, each once.
pub proof fn units_are_named_once(series: Seq<PreparedSeries>, axis: PlotAxis, n: nat, k: int)
    requires
        n <= series.len(),
        0 <= k < n,
    ensures
        ({
            let units = units_on(series, axis, n);
            &&& units.no_duplicates()
            &&& series[k].axis == axis && series[k].unit is Some ==> units.contains(
                opt_view(series[k].unit)->0,
            )
            &&& forall|u: int|
                0 <= u < units.len() ==> exists|i: int|
                    0 <= i < n && (#[trigger] series[i]).axis == axis && opt_view(series[i].unit)
                        == Some(#[trigger] units[u])
        }),
    decreases n,
{
    let units = units_on(series, axis, n);
    let rest = units_on(series, axis, (n - 1) as nat);
    let last = series[n - 1];
    if n > 1 {
        units_are_named_once(
            series,
            axis,
            (n - 1) as nat,
            if k < n - 1 {
                k
            } else {
                0
            },
        );
    }
    assert forall|u: int| 0 <= u < units.len() implies exists|i: int|
        0 <= i < n && (#[trigger] series[i]).axis == axis && opt_view(series[i].unit) == Some(
            #[trigger] units[u],
        ) by {
        if u < rest.len() {
            assert(units[u] == rest[u]);
            let i = choose|i: int|
                0 <= i < n - 1 && (#[trigger] series[i]).axis == axis && opt_view(series[i].unit)
                    == Some(rest[u]);
            assert(series[i].axis == axis);
        } else {
            assert(series[n - 1].axis == axis);
        }
    }
    if series[k].axis == axis && series[k].unit is Some {
        let unit = opt_view(series[k].unit)->0;
        if rest.contains(unit) {
            let u = rest.index_of(unit);
            assert(units[u] == unit);
        } else {
            assert(units[units.len() - 1] == unit);
        }
    }
}

/// A graph draws the entries that lead to a series, each once and in their order.
pub proof fn a_graph_draws_what_is_there(
    project: Project,
    entries: Seq<PlotEntry>,
    n: nat,
    k: int,
)
    requires
        n <= entries.len(),
        0 <= k < n,
    ensures
        ({
            let shown = drawn(project, entries, n);
            &&& shown.contains(k) <==> resolved(project, entries[k]) is Some
            &&& forall|i: int, j: int|
                0 <= i < j < shown.len() ==> #[trigger] shown[i] < #[trigger] shown[j]
            &&& forall|i: int| 0 <= i < shown.len() ==> 0 <= #[trigger] shown[i] < n
        }),
    decreases n,
{
    let shown = drawn(project, entries, n);
    let rest = drawn(project, entries, (n - 1) as nat);
    if n > 1 {
        a_graph_draws_what_is_there(
            project,
            entries,
            (n - 1) as nat,
            if k < n - 1 {
                k
            } else {
                0
            },
        );
    }
    if k < n - 1 {
        if rest.contains(k) {
            let i = rest.index_of(k);
            assert(shown[i] == k);
        }
        if shown.contains(k) {
            let i = shown.index_of(k);
            assert(i < rest.len() ==> rest[i] == k);
        }
    } else {
        if resolved(project, entries[k]) is Some {
            assert(shown[shown.len() - 1] == k);
        }
        if shown.contains(k) {
            let i = shown.index_of(k);
            if i < rest.len() {
                assert(rest[i] == k);
            }
        }
    }
}

} // verus!
