//! What reading a series gives back of its samples.
use vstd::prelude::*;

use crate::double::Double;
use crate::series::{count_before, in_time_order, range_spec, Reading, Sample, TimeSeries};

verus! {

broadcast use vstd::seq_lib::group_seq_properties;

/// In a list in time order, the number of samples before an instant parts it: those in front are
/// before the instant, the others at or after it.
pub proof fn an_instant_parts_the_samples(points: Seq<Sample>, t: int)
    requires
        in_time_order(points),
    ensures
        count_before(points, t) <= points.len(),
        forall|i: int|
            0 <= i < points.len() ==> ((#[trigger] points[i]).0 < t <==> i < count_before(
                points,
                t,
            )),
    decreases points.len(),
{
    if points.len() > 0 {
        let front = points.drop_last();
        let last = points[points.len() - 1];
        assert forall|i: int, j: int| 0 <= i <= j < front.len() implies (#[trigger] front[i]).0 <= (
        #[trigger] front[j]).0 by {
            assert(points[i].0 <= points[j].0);
        }
        an_instant_parts_the_samples(front, t);
        assert forall|i: int| 0 <= i < points.len() implies ((#[trigger] points[i]).0 < t <==> i
            < count_before(points, t)) by {
            if i < front.len() {
                assert(front[i] == points[i]);
                assert(points[i].0 <= last.0);
                if last.0 < t {
                    let k = front.len() - 1;
                    assert(front[k] == points[k] && points[k].0 <= last.0);
                    assert(k < count_before(front, t));
                }
            } else if front.len() > 0 && last.0 < t {
                assert(front[front.len() - 1] == points[front.len() - 1]);
                assert(points[front.len() - 1].0 <= last.0);
            }
        }
    }
}

/// A reading between two samples is between neighbours: the one last before the instant and the
/// one next at or after it, and it knows how far into the time between them the instant is.
/// Outside its ends a series holds its first or its last value.
pub proof fn a_reading_is_on_the_line(s: TimeSeries, t: int)
    requires
        s.wf(),
    ensures
        ({
            let points = s.samples();
            let last = points[points.len() - 1];
            match s.reading_spec(t) {
                None => points.len() == 0,
                Some(Reading::Held(v)) => {
                    &&& points.len() > 0
                    &&& t <= points[0].0 || last.0 < t
                    &&& t <= points[0].0 ==> v == points[0].1
                    &&& last.0 < t ==> v == last.1
                },
                Some(Reading::Between { before, after, at, of }) => exists|i: int|
                    {
                        &&& 0 <= i < points.len() - 1
                        &&& (#[trigger] points[i]).0 < t <= points[i + 1].0
                        &&& before == points[i].1
                        &&& after == points[i + 1].1
                        &&& at == t - points[i].0
                        &&& of == points[i + 1].0 - points[i].0
                    },
            }
        }),
{
    let points = s.samples();
    an_instant_parts_the_samples(points, t);
    let i = count_before(points, t) as int;
    if 0 < i < points.len() {
        assert(points[i - 1].0 < t && t <= points[i].0);
        assert(points[i - 1].0 < t <= points[i - 1 + 1].0);
    }
}

/// An instant at which a series has one sample reads that sample: the line ends on it.
pub proof fn a_sample_reads_as_itself(s: TimeSeries, i: int)
    requires
        s.wf(),
        0 <= i < s.samples().len(),
        i > 0 ==> s.samples()[i - 1].0 < s.samples()[i].0,
    ensures
        match s.reading_spec(s.samples()[i].0 as int) {
            None => false,
            Some(Reading::Held(v)) => i == 0 && v == s.samples()[0].1,
            Some(Reading::Between { after, at, of, .. }) => i > 0 && after == s.samples()[i].1
                && at == of,
        },
{
    let points = s.samples();
    let t = points[i].0 as int;
    an_instant_parts_the_samples(points, t);
    if i > 0 {
        assert(points[i - 1].0 < t);
    }
    assert(count_before(points, t) == i) by {
        assert(!(points[i].0 < t));
        if i > 0 {
            assert(i - 1 < count_before(points, t));
        }
    }
}

/// The last sample by an instant is at or before it, and every later one is after it. There is
/// none only where every sample is after it.
pub proof fn the_last_by_an_instant(s: TimeSeries, t: int)
    requires
        s.wf(),
    ensures
        match s.last_by(t) {
            Some(p) => exists|i: int|
                {
                    &&& 0 <= i < s.samples().len()
                    &&& #[trigger] s.samples()[i] == p
                    &&& p.0 <= t
                    &&& forall|k: int|
                        i < k < s.samples().len() ==> (#[trigger] s.samples()[k]).0 > t
                },
            None => forall|k: int| 0 <= k < s.samples().len() ==> (#[trigger] s.samples()[k]).0 > t,
        },
{
    let points = s.samples();
    an_instant_parts_the_samples(points, t + 1);
    let n = count_before(points, t + 1) as int;
    if n > 0 {
        assert(points[n - 1] == s.last_by(t)->0);
        assert(points[n - 1].0 < t + 1);
    }
}

/// A slice holds what a range calls for and little more: every sample in the range, in order and
/// with nothing left out between them, and at most one beyond it at either end.
pub proof fn a_slice_covers_its_range(points: Seq<Sample>, t0: int, t1: int)
    requires
        in_time_order(points),
        t0 <= t1,
    ensures
        ({
            let slice = TimeSeries::covered(points, t0, t1);
            &&& exists|lo: int|
                0 <= lo <= lo + slice.len() <= points.len() && slice == #[trigger] points.subrange(
                    lo,
                    lo + slice.len(),
                )
            &&& forall|i: int|
                0 <= i < points.len() && t0 <= (#[trigger] points[i]).0 <= t1 ==> slice.contains(
                    points[i],
                )
            &&& forall|j: int| 0 < j < slice.len() - 1 ==> t0 <= (#[trigger] slice[j]).0 <= t1
        }),
{
    an_instant_parts_the_samples(points, t0);
    an_instant_parts_the_samples(points, t1 + 1);
    let (lo, hi) = range_spec(points, t0, t1);
    let (before, upto) = (count_before(points, t0) as int, count_before(points, t1 + 1) as int);
    assert(before <= upto) by {
        if before > upto {
            assert(points[before - 1].0 < t0);
        }
    }
    let slice = TimeSeries::covered(points, t0, t1);
    assert(slice =~= points.subrange(lo, lo + slice.len()));
    assert forall|i: int| 0 <= i < points.len() && t0 <= (#[trigger] points[i]).0
        <= t1 implies slice.contains(points[i]) by {
        assert(slice[i - lo] == points[i]);
    }
    assert forall|j: int| 0 < j < slice.len() - 1 implies t0 <= (#[trigger] slice[j]).0 <= t1 by {
        assert(slice[j] == points[lo + j]);
    }
}

/// What a slice is drawn from is detailed enough and no more detailed than that: a level with as
/// many points in the range as were asked for while every coarser one has fewer, or the samples
/// where no level has them.
pub proof fn a_level_is_detailed_enough(s: TimeSeries, t0: int, t1: int, target: int)
    ensures
        ({
            let levels = s.levels();
            let level = s.level_for(levels.len(), t0, t1, target);
            ||| level == s.samples() && forall|l: int|
                0 <= l < levels.len() ==> TimeSeries::covering(#[trigger] levels[l], t0, t1)
                    < target
            ||| exists|l: int|
                {
                    &&& 0 <= l < levels.len()
                    &&& level == #[trigger] levels[l]
                    &&& TimeSeries::covering(level, t0, t1) >= target
                    &&& forall|m: int|
                        l < m < levels.len() ==> TimeSeries::covering(#[trigger] levels[m], t0, t1)
                            < target
                }
        }),
{
    lemma_level(s, s.levels().len(), t0, t1, target);
}

proof fn lemma_level(s: TimeSeries, n: nat, t0: int, t1: int, target: int)
    requires
        n <= s.levels().len(),
    ensures
        ({
            let levels = s.levels();
            let level = s.level_for(n, t0, t1, target);
            ||| level == s.samples() && forall|l: int|
                0 <= l < n ==> TimeSeries::covering(#[trigger] levels[l], t0, t1) < target
            ||| exists|l: int|
                {
                    &&& 0 <= l < n
                    &&& level == #[trigger] levels[l]
                    &&& TimeSeries::covering(level, t0, t1) >= target
                    &&& forall|m: int|
                        l < m < n ==> TimeSeries::covering(#[trigger] levels[m], t0, t1) < target
                }
        }),
    decreases n,
{
    if n > 0 {
        let levels = s.levels();
        if TimeSeries::covering(levels[n - 1], t0, t1) < target {
            lemma_level(s, (n - 1) as nat, t0, t1, target);
        } else {
            assert(s.level_for(n, t0, t1, target) == levels[n - 1]);
        }
    }
}

/// Moving samples by an offset moves their instants by it and keeps their values.
pub proof fn an_offset_moves_the_instants(points: Seq<Sample>, offset: i64, i: int)
    requires
        0 <= i < points.len(),
        i64::MIN <= points[i].0 + offset <= i64::MAX,
    ensures
        TimeSeries::moved(points, offset).len() == points.len(),
        TimeSeries::moved(points, offset)[i].0 - points[i].0 == offset,
        TimeSeries::moved(points, offset)[i].1 == points[i].1,
{
}

/// The bounds of some points are two of their values, with none of the others below the one or
/// above the other.
pub proof fn bounds_enclose_the_values(points: Seq<Sample>, lo: Double, hi: Double, i: int)
    requires
        TimeSeries::bounds_values(points, lo, hi),
        0 <= i < points.len(),
    ensures
        !points[i].1.lt(lo),
        !hi.lt(points[i].1),
        exists|k: int| 0 <= k < points.len() && (#[trigger] points[k]).1 == lo,
        exists|k: int| 0 <= k < points.len() && (#[trigger] points[k]).1 == hi,
{
}

} // verus!
