//! Instants written out as a clock reads them, and the steps a clock's axis is ruled in.
use vstd::prelude::*;

use crate::double::half_even;
use crate::text::{dec_padded, opt_view, push_dec_padded, push_quotient, quotient};

verus! {

/// Grid steps a clock actually uses, in microseconds. Subdividing by powers of ten puts lines
/// at 100- and 1000-second intervals: numbers nobody reads a clock in, and coarse enough that
/// a ten-minute window ends up with a single labelled tick.
pub const TIME_STEPS: [i64; 25] = [
    1_000,
    5_000,
    10_000,
    50_000,
    100_000,
    250_000,
    500_000,
    1_000_000,
    2_000_000,
    5_000_000,
    10_000_000,
    15_000_000,
    30_000_000,
    60_000_000,
    120_000_000,
    300_000_000,
    600_000_000,
    900_000_000,
    1_800_000_000,
    3_600_000_000,
    7_200_000_000,
    10_800_000_000,
    21_600_000_000,
    43_200_000_000,
    86_400_000_000,
];

/// The place on the ladder of the first step that is not below `base`, the last for one that
/// is longer than all.
pub open spec fn step_index(base: i64, from: int) -> int
    decreases 24 - from,
{
    if from >= 24 || TIME_STEPS@[from] >= base {
        from
    } else {
        step_index(base, from + 1)
    }
}

/// A place on the ladder, no further than its end.
pub open spec fn on_ladder(i: int) -> int {
    if i < 24 {
        i
    } else {
        24
    }
}

/// The first step that is not below `base`.
fn find_step(base: i64) -> (i: usize)
    ensures
        i == step_index(base, 0),
        i <= 24,
{
    let mut i: usize = 0;
    while i < 24 && TIME_STEPS[i] < base
        invariant
            i <= 24,
            step_index(base, 0) == step_index(base, i as int),
        decreases 24 - i,
    {
        i += 1;
    }
    i
}

/// Grid line spacing for a time axis: the three step sizes that a plot draws at different
/// thicknesses, chosen off the clock ladder.
pub fn time_grid_steps(base_step: i64) -> (r: [i64; 3])
    ensures
        r@ == seq![
            TIME_STEPS@[step_index(base_step, 0)],
            TIME_STEPS@[on_ladder(step_index(base_step, 0) + 2)],
            TIME_STEPS@[on_ladder(step_index(base_step, 0) + 4)],
        ],
{
    let finest = find_step(base_step);
    let second: usize = if finest + 2 < 24 {
        finest + 2
    } else {
        24
    };
    let third: usize = if finest + 4 < 24 {
        finest + 4
    } else {
        24
    };
    let r = [TIME_STEPS[finest], TIME_STEPS[second], TIME_STEPS[third]];
    assert(r@ =~= seq![
        TIME_STEPS@[step_index(base_step, 0)],
        TIME_STEPS@[on_ladder(step_index(base_step, 0) + 2)],
        TIME_STEPS@[on_ladder(step_index(base_step, 0) + 4)],
    ]);
    r
}

/// Whether the ladder goes up from `from` on.
spec fn goes_up(from: int) -> bool
    decreases 24 - from,
{
    from >= 24 || (TIME_STEPS@[from] < TIME_STEPS@[from + 1] && goes_up(from + 1))
}

proof fn lemma_ladder(from: int, i: int, j: int)
    requires
        0 <= from <= i <= j <= 24,
        goes_up(from),
    ensures
        TIME_STEPS@[i] <= TIME_STEPS@[j],
        i < j ==> TIME_STEPS@[i] < TIME_STEPS@[j],
    decreases 24 - from,
{
    if i > from {
        lemma_ladder(from + 1, i, j);
    } else if j > i {
        lemma_ladder(from + 1, i + 1, j);
    }
}

/// The steps are listed from the shortest to the longest.
pub proof fn the_ladder_goes_up(i: int, j: int)
    requires
        0 <= i < j <= 24,
    ensures
        TIME_STEPS@[i] < TIME_STEPS@[j],
{
    assert(goes_up(0)) by {
        reveal_with_fuel(goes_up, 26);
    }
    lemma_ladder(0, i, j);
}

proof fn lemma_step_index(base: i64, from: int)
    requires
        0 <= from <= 24,
    ensures
        from <= step_index(base, from) <= 24,
        step_index(base, from) < 24 ==> TIME_STEPS@[step_index(base, from)] >= base,
        forall|k: int| from <= k < step_index(base, from) ==> TIME_STEPS@[k] < base,
    decreases 24 - from,
{
    if from < 24 && TIME_STEPS@[from] < base {
        lemma_step_index(base, from + 1);
    }
}

/// The finest grid step is the least one of the ladder that is not below the base, where the
/// ladder has one.
pub proof fn the_finest_step_is_the_least(base: i64, i: int)
    requires
        0 <= i <= 24,
        TIME_STEPS@[i] >= base,
    ensures
        base <= TIME_STEPS@[step_index(base, 0)] <= TIME_STEPS@[i],
{
    lemma_step_index(base, 0);
    if i > step_index(base, 0) {
        the_ladder_goes_up(step_index(base, 0), i);
    }
}

/// The date and the time of day of a number of seconds since 1970, as chrono writes it by a
/// pattern. `None` outside the years that chrono knows.
pub uninterp spec fn utc_text(seconds: int, pattern: Seq<char>) -> Option<Seq<char>>;

/// Hours and minutes of a number of seconds.
pub open spec fn hours_minutes(seconds: int) -> Seq<char> {
    dec_padded((seconds % 86_400 / 3_600) as nat, 2) + ":"@ + dec_padded(
        (seconds % 3_600 / 60) as nat,
        2,
    )
}

/// Hours, minutes and seconds of a number of seconds.
pub open spec fn hours_minutes_seconds(seconds: int) -> Seq<char> {
    hours_minutes(seconds) + ":"@ + dec_padded((seconds % 60) as nat, 2)
}

/// The patterns in use: date and time, date alone, and the time of day at two precisions.
pub open spec fn is_pattern(p: Seq<char>) -> bool {
    p == "%Y-%m-%d %H:%M:%S"@ || p == "%Y-%m-%d"@ || p == "%H:%M"@ || p == "%H:%M:%S"@
}

/// `chrono::DateTime::from_timestamp` and `DateTime::format`: the UTC date and time of a number
/// of seconds since 1970, written out by a pattern.
///
/// What a date looks like is left to the name [`utc_text`]. Of the time of day it claims what
/// chrono documents: `%H`, `%M` and `%S` are the hour, the minute and the second in two digits,
/// and days are 86400 seconds.
#[verifier::external_body]
fn format_timestamp(seconds: i64, pattern: &str) -> (r: Option<String>)
    requires
        is_pattern(pattern@),
    ensures
        opt_view(r) == utc_text(seconds as int, pattern@),
        r is Some && pattern@ == "%H:%M"@ ==> r.unwrap()@ == hours_minutes(seconds as int),
        r is Some && pattern@ == "%H:%M:%S"@ ==> r.unwrap()@ == hours_minutes_seconds(
            seconds as int,
        ),
{
    chrono::DateTime::from_timestamp(seconds, 0).map(|dt| dt.format(pattern).to_string())
}

/// The whole seconds of an instant, rounded down.
pub open spec fn whole_seconds(t: int) -> int {
    t / 1_000_000
}

fn seconds_of(t: i64) -> (r: i64)
    ensures
        r == whole_seconds(t as int),
{
    if t >= 0 {
        t / 1_000_000
    } else {
        // Towards the past: -1 microsecond is in the second before.
        -1 - (-1 - t) / 1_000_000
    }
}

/// The microseconds of an instant past its whole second.
pub open spec fn past_second(t: int) -> int {
    t % 1_000_000
}

fn micros_of(t: i64) -> (r: i64)
    ensures
        r == past_second(t as int),
{
    if t >= 0 {
        t % 1_000_000
    } else {
        999_999 - (-1 - t) % 1_000_000
    }
}

/// Microseconds in milliseconds, to the nearest, halves up.
pub open spec fn to_millis(us: int) -> int {
    (us + 500) / 1000
}

/// An instant's nearest millisecond, as its whole second and the milliseconds past that.
fn millis_of(t: i64) -> (r: (i64, i64))
    ensures
        r.0 == to_millis(t as int) / 1000,
        r.1 == to_millis(t as int) % 1000,
{
    let millis: i64 = (micros_of(t) + 500) / 1000;
    if millis == 1000 {
        (seconds_of(t) + 1, 0)
    } else {
        (seconds_of(t), millis)
    }
}

/// An instant that no calendar has, in seconds.
pub open spec fn bare_seconds(t: int) -> Seq<char> {
    quotient(t, 1000, 3)
}

fn push_bare_seconds(out: &mut String, t: i64)
    ensures
        final(out)@ == old(out)@ + bare_seconds(t as int),
{
    push_quotient(out, t as i128, 1000, 3);
}

/// An instant with its date and time already written out: milliseconds joined on.
pub open spec fn utc_label_spec(stamp: Option<Seq<char>>, t: int) -> Seq<char> {
    match stamp {
        Some(s) => s + "."@ + dec_padded((past_second(t) / 1000) as nat, 3) + "Z"@,
        None => bare_seconds(t),
    }
}

/// Joins the milliseconds on to the date and time of an instant. An instant without a date is
/// bare seconds.
pub fn utc_label(stamp: Option<String>, t: i64) -> (r: String)
    ensures
        r@ == utc_label_spec(opt_view(stamp), t as int),
{
    match stamp {
        Some(s) => {
            let mut out = s;
            out.append(".");
            let millis: i64 = micros_of(t) / 1000;
            push_dec_padded(&mut out, millis as u64, 3);
            out.append("Z");
            out
        },
        None => {
            let mut out = String::new();
            push_bare_seconds(&mut out, t);
            out
        },
    }
}

/// `2026-08-08 17:41:58.250Z`.
pub fn format_utc(t: i64) -> (r: String)
    ensures
        r@ == utc_label_spec(
            utc_text(whole_seconds(t as int), "%Y-%m-%d %H:%M:%S"@),
            t as int,
        ),
{
    utc_label(format_timestamp(seconds_of(t), "%Y-%m-%d %H:%M:%S"), t)
}

/// The date of an instant, or nothing outside the calendar.
pub fn date_label(t: i64) -> (r: String)
    ensures
        r@ == match utc_text(whole_seconds(t as int), "%Y-%m-%d"@) {
            Some(date) => date,
            None => Seq::<char>::empty(),
        },
{
    match format_timestamp(seconds_of(t), "%Y-%m-%d") {
        Some(date) => date,
        None => String::new(),
    }
}

/// The pattern for an axis ruled in steps of `step`.
pub open spec fn axis_pattern(step: i64) -> Seq<char> {
    if step >= 3_600_000_000 {
        "%H:%M"@
    } else {
        "%H:%M:%S"@
    }
}

/// The second that a tick's clock shows: its own, or that of its nearest millisecond where the
/// step resolves those.
pub open spec fn axis_seconds(t: int, step: i64) -> int {
    if step >= 1_000_000 {
        whole_seconds(t)
    } else {
        to_millis(t) / 1000
    }
}

/// A tick label: the clock time at the precision that the step resolves.
pub open spec fn axis_label_spec(t: int, step: i64) -> Seq<char> {
    if step >= 3_600_000_000 {
        hours_minutes(axis_seconds(t, step))
    } else if step >= 1_000_000 {
        hours_minutes_seconds(axis_seconds(t, step))
    } else {
        hours_minutes_seconds(axis_seconds(t, step)) + "."@ + dec_padded(
            (to_millis(t) % 1000) as nat,
            3,
        )
    }
}

/// What is written at a tick of a time axis: its clock time, or bare seconds for an instant that
/// no calendar has.
pub open spec fn axis_text(t: i64, step: i64) -> Seq<char> {
    if utc_text(axis_seconds(t as int, step), axis_pattern(step)) is Some {
        axis_label_spec(t as int, step)
    } else {
        bare_seconds(t as int)
    }
}

/// Tick label for a plot's time axis. The axis carries absolute UTC time, which as a raw
/// number says nothing; what a reader wants is the clock time, at whatever precision the
/// current zoom level resolves.
pub fn format_axis_time(t: i64, step: i64) -> (r: String)
    ensures
        r@ == axis_text(t, step),
{
    let (seconds, millis): (i64, i64) = if step >= 1_000_000 {
        (seconds_of(t), 0)
    } else {
        millis_of(t)
    };
    let text = if step >= 3_600_000_000 {
        format_timestamp(seconds, "%H:%M")
    } else {
        format_timestamp(seconds, "%H:%M:%S")
    };
    match text {
        Some(clock) => {
            let mut out = clock;
            if step < 1_000_000 {
                out.append(".");
                push_dec_padded(&mut out, millis as u64, 3);
            }
            proof {
                lemma_patterns_differ();
            }
            out
        },
        None => {
            let mut out = String::new();
            push_bare_seconds(&mut out, t);
            out
        },
    }
}

proof fn lemma_patterns_differ()
    ensures
        "%H:%M"@ != "%H:%M:%S"@,
{
    reveal_strlit("%H:%M");
    reveal_strlit("%H:%M:%S");
    assert("%H:%M"@.len() == 5 && "%H:%M:%S"@.len() == 8);
}

/// A span in milliseconds, to the nearest, halves the even one. A negative span is none.
pub open spec fn span_millis(span: int) -> int {
    if span > 0 {
        half_even(span, 1000)
    } else {
        0
    }
}

/// A span as hours, minutes and seconds of its nearest millisecond, hours only where there are
/// any.
pub open spec fn duration_spec(span: int) -> Seq<char> {
    let millis = span_millis(span);
    let tail = dec_padded((millis / 60_000 % 60) as nat, 2) + ":"@ + dec_padded(
        (millis / 1000 % 60) as nat,
        2,
    ) + "."@ + dec_padded((millis % 1000) as nat, 3);
    if millis / 3_600_000 > 0 {
        dec_padded((millis / 3_600_000) as nat, 2) + ":"@ + tail
    } else {
        tail
    }
}

/// `01:02:03.250`; a negative span is none.
pub fn format_duration(span: i64) -> (r: String)
    ensures
        r@ == duration_spec(span as int),
{
    let s: i64 = if span > 0 {
        span
    } else {
        0
    };
    let millis: i64 = if s % 1000 > 500 || (s % 1000 == 500 && s / 1000 % 2 == 1) {
        s / 1000 + 1
    } else {
        s / 1000
    };
    let hours: i64 = millis / 3_600_000;
    let mut out = String::new();
    if hours > 0 {
        push_dec_padded(&mut out, hours as u64, 2);
        out.append(":");
    }
    push_dec_padded(&mut out, (millis / 60_000 % 60) as u64, 2);
    out.append(":");
    push_dec_padded(&mut out, (millis / 1000 % 60) as u64, 2);
    out.append(".");
    push_dec_padded(&mut out, (millis % 1000) as u64, 3);
    assert(out@ =~= duration_spec(span as int));
    out
}

} // verus!
