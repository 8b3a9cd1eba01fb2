//! Corrections of the sensors in a graph: a number added to every value of a line, and named on
//! its label.
//!
//! Adding two values and writing one out are handed in, so that a line is moved by whatever
//! arithmetic its values are measured in.
use vstd::prelude::*;

use crate::double::Double;
use crate::panes::PlotAxis;
use crate::plot_view::PreparedSeries;
use crate::series::{Reading, Sample};
use crate::text::opt_view;

verus! {

/// Whether adding a number changes anything: it is finite, and not zero.
pub open spec fn is_correction(offset: Double) -> bool {
    offset.finite() && offset.magnitude() != 0
}

/// A label that names a correction, and the unit it is in.
pub open spec fn corrected_label(
    base: Seq<char>,
    number: Seq<char>,
    unit: Option<Seq<char>>,
) -> Seq<char> {
    base + " ("@ + number + match unit {
        Some(unit) => " "@ + unit,
        None => Seq::empty(),
    } + ")"@
}

/// `pressure (+10 bar)`: a corrected line has to carry its correction into the report, where
/// nobody can open a menu to find out about it.
pub fn label_with_offset(base: &str, number: &str, unit: &Option<String>) -> (r: String)
    ensures
        r@ == corrected_label(base@, number@, opt_view(*unit)),
{
    let mut out = base.to_owned();
    out.append(" (");
    out.append(number);
    if let Some(unit) = unit {
        out.append(" ");
        out.append(unit.as_str());
    }
    out.append(")");
    assert(out@ =~= corrected_label(base@, number@, opt_view(*unit)));
    out
}

/// Whether samples are others with a number added to their values.
pub open spec fn are_moved<S: Fn(Double, Double) -> Double>(
    to: Seq<Sample>,
    from: Seq<Sample>,
    by: Double,
    sum: S,
) -> bool {
    &&& to.len() == from.len()
    &&& forall|i: int|
        0 <= i < from.len() ==> (#[trigger] to[i]).0 == from[i].0 && call_ensures(
            sum,
            (from[i].1, by),
            to[i].1,
        )
}

/// Whether a value range is another with a number added to it.
pub open spec fn is_moved_range<S: Fn(Double, Double) -> Double>(
    to: Option<(Double, Double)>,
    from: Option<(Double, Double)>,
    by: Double,
    sum: S,
) -> bool {
    match (from, to) {
        (Some(from), Some(to)) => call_ensures(sum, (from.0, by), to.0) && call_ensures(
            sum,
            (from.1, by),
            to.1,
        ),
        (None, None) => true,
        _ => false,
    }
}

/// Whether a reading is another with a number added to it.
pub open spec fn is_moved_reading<S: Fn(Double, Double) -> Double>(
    to: Option<Reading>,
    from: Option<Reading>,
    by: Double,
    sum: S,
) -> bool {
    match (from, to) {
        (Some(Reading::Held(a)), Some(Reading::Held(b))) => call_ensures(sum, (a, by), b),
        (
            Some(Reading::Between { before, after, at, of }),
            Some(Reading::Between { before: before_to, after: after_to, at: at_to, of: of_to }),
        ) => at == at_to && of == of_to && call_ensures(sum, (before, by), before_to)
            && call_ensures(sum, (after, by), after_to),
        (None, None) => true,
        _ => false,
    }
}

/// Whether a series is another, corrected as it asks for: its points, its range and its reading
/// moved, and the correction named on it. One that asks for nothing is as it was.
pub open spec fn is_corrected<S: Fn(Double, Double) -> Double, W: Fn(Double) -> String>(
    c: PreparedSeries,
    p: PreparedSeries,
    sum: S,
    words: W,
) -> bool {
    let by = p.value_offset;
    if !is_correction(by) {
        c == p
    } else {
        &&& exists|number: String| #[trigger]
            call_ensures(words, (by,), number) && c.base@ == corrected_label(
                p.base@,
                number@,
                opt_view(p.unit),
            )
        &&& c.label@ == match p.axis {
            PlotAxis::Left => c.base@,
            PlotAxis::Right => c.base@ + " (R)"@,
        }
        &&& c.color == p.color
        &&& c.unit == p.unit
        &&& c.axis == p.axis
        &&& c.value_offset == (Double { bits: 0 })
        &&& are_moved(c.points@, p.points@, by, sum)
        &&& is_moved_range(c.bounds, p.bounds, by, sum)
        &&& is_moved_reading(c.at_cursor, p.at_cursor, by, sum)
    }
}

/// Makes the correction that a series asks for.
pub fn corrected<S: Fn(Double, Double) -> Double, W: Fn(Double) -> String>(
    p: PreparedSeries,
    sum: &S,
    words: &W,
) -> (r: PreparedSeries)
    requires
        forall|a: Double, b: Double| call_requires(*sum, (a, b)),
        forall|v: Double| call_requires(*words, (v,)),
    ensures
        is_corrected(r, p, *sum, *words),
{
    let by = p.value_offset;
    if !by.is_finite() || (by.bits == 0 || by.bits == 0x8000_0000_0000_0000) {
        return p;
    }
    let PreparedSeries {
        base,
        label: _,
        color,
        unit,
        axis,
        value_offset: _,
        points: given,
        bounds,
        at_cursor,
    } = p;
    let number = words(by);
    let base = label_with_offset(base.as_str(), number.as_str(), &unit);
    let mut label = base.as_str().to_owned();
    match axis {
        PlotAxis::Left => {},
        PlotAxis::Right => label.append(" (R)"),
    }
    let mut points: Vec<Sample> = Vec::new();
    let mut i: usize = 0;
    while i < given.len()
        invariant
            i <= given@.len(),
            forall|a: Double, b: Double| call_requires(*sum, (a, b)),
            are_moved(points@, given@.take(i as int), by, *sum),
        decreases given@.len() - i,
    {
        let (t, v) = given[i];
        points.push((t, sum(v, by)));
        i += 1;
    }
    assert(given@.take(i as int) =~= given@);
    let bounds = match bounds {
        Some((lo, hi)) => Some((sum(lo, by), sum(hi, by))),
        None => None,
    };
    let at_cursor = match at_cursor {
        Some(Reading::Held(v)) => Some(Reading::Held(sum(v, by))),
        Some(Reading::Between { before, after, at, of }) => Some(
            Reading::Between { before: sum(before, by), after: sum(after, by), at, of },
        ),
        None => None,
    };
    PreparedSeries {
        base,
        label,
        color,
        unit,
        axis,
        value_offset: Double { bits: 0 },
        points,
        bounds,
        at_cursor,
    }
}

/// Makes the corrections that the series of a graph ask for.
pub fn correct_all<S: Fn(Double, Double) -> Double, W: Fn(Double) -> String>(
    prepared: Vec<PreparedSeries>,
    sum: &S,
    words: &W,
) -> (r: Vec<PreparedSeries>)
    requires
        forall|a: Double, b: Double| call_requires(*sum, (a, b)),
        forall|v: Double| call_requires(*words, (v,)),
    ensures
        r@.len() == prepared@.len(),
        forall|k: int|
            0 <= k < r@.len() ==> is_corrected(#[trigger] r@[k], prepared@[k], *sum, *words),
{
    let ghost all = prepared@;
    let mut left = prepared;
    let mut out: Vec<PreparedSeries> = Vec::new();
    while left.len() > 0
        invariant
            left@.len() + out@.len() == all.len(),
            left@ == all.skip(out@.len() as int),
            forall|a: Double, b: Double| call_requires(*sum, (a, b)),
            forall|v: Double| call_requires(*words, (v,)),
            forall|k: int|
                0 <= k < out@.len() ==> is_corrected(#[trigger] out@[k], all[k], *sum, *words),
        decreases left@.len(),
    {
        let p = left.remove(0);
        assert(p == all[out@.len() as int]);
        out.push(corrected(p, sum, words));
        assert(left@ =~= all.skip(out@.len() as int));
    }
    out
}

/// A correction is made once: a corrected series asks for nothing more, so correcting it again
/// leaves it as it is.
pub proof fn a_correction_is_made_once<
    S: Fn(Double, Double) -> Double,
    W: Fn(Double) -> String,
>(p: PreparedSeries, once: PreparedSeries, twice: PreparedSeries, sum: S, words: W)
    requires
        is_corrected(once, p, sum, words),
        is_corrected(twice, once, sum, words),
    ensures
        twice == once,
{
}

/// A correction moves a line up or down and not along the timeline: its points are at the
/// instants they were at.
pub proof fn a_correction_keeps_the_instants<
    S: Fn(Double, Double) -> Double,
    W: Fn(Double) -> String,
>(p: PreparedSeries, c: PreparedSeries, sum: S, words: W, i: int)
    requires
        is_corrected(c, p, sum, words),
        0 <= i < p.points@.len(),
    ensures
        c.points@.len() == p.points@.len(),
        c.points@[i].0 == p.points@[i].0,
{
}

} // verus!
