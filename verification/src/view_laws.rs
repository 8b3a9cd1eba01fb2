//! What the lists, labels and readouts of the windows say.
use vstd::prelude::*;

use crate::canopen_inspector::{passes, passing, SdoFilter};
use crate::can::canopen::sdo::SdoTransfer;
use crate::clock::{
    axis_label_spec, duration_spec, hours_minutes, hours_minutes_seconds, past_second, span_millis,
    to_millis, whole_seconds,
};
use crate::double::Double;
use crate::media_view::{bucket_time, outline_spec};
use crate::series::TimeSeries;
use crate::sidebar::{group_spec, matches_filter, matching_spec};
use crate::text::{dec_padded, pow10};
use crate::text_laws::{
    a_half_goes_to_the_even, a_padded_number_reads_back, a_separator_parts, is_digit, lacks,
    nothing_parts, parts, read_digits, the_last_is_the_last,
};
use crate::units::TempUnit;

verus! {

broadcast use vstd::seq_lib::group_seq_properties;

proof fn lemma_signs()
    ensures
        ":"@ == seq![':'],
        "."@ == seq!['.'],
        pow10(2) == 100,
        pow10(3) == 1000,
{
    reveal_strlit(":");
    reveal_strlit(".");
    assert(":"@ =~= seq![':']);
    assert("."@ =~= seq!['.']);
    reveal_with_fuel(pow10, 4);
}

proof fn lemma_digits_lack(n: nat, width: nat)
    ensures
        lacks(dec_padded(n, width), ':'),
        lacks(dec_padded(n, width), '.'),
{
    a_padded_number_reads_back(n, width);
    assert forall|i: int| 0 <= i < dec_padded(n, width).len() implies #[trigger] dec_padded(
        n,
        width,
    )[i] != ':' && dec_padded(n, width)[i] != '.' by {
        assert(is_digit(dec_padded(n, width)[i]));
    }
}

/// A clock time reads back as the time of day: hours, minutes and seconds, two digits each, make
/// up the second of the day.
pub proof fn a_clock_time_reads_back(seconds: int)
    ensures
        ({
            let p = parts(hours_minutes_seconds(seconds), ':');
            &&& p.len() == 3
            &&& p[0].len() == 2 && p[1].len() == 2 && p[2].len() == 2
            &&& 0 <= read_digits(p[0]) < 24
            &&& 0 <= read_digits(p[1]) < 60
            &&& 0 <= read_digits(p[2]) < 60
            &&& 3600 * read_digits(p[0]) + 60 * read_digits(p[1]) + read_digits(p[2]) == seconds
                % 86_400
        }),
{
    lemma_signs();
    let (h, m, s) = (seconds % 86_400 / 3_600, seconds % 3_600 / 60, seconds % 60);
    a_padded_number_reads_back(h as nat, 2);
    a_padded_number_reads_back(m as nat, 2);
    a_padded_number_reads_back(s as nat, 2);
    lemma_digits_lack(h as nat, 2);
    lemma_digits_lack(m as nat, 2);
    lemma_digits_lack(s as nat, 2);
    let (a, b, c) = (dec_padded(h as nat, 2), dec_padded(m as nat, 2), dec_padded(s as nat, 2));
    assert(hours_minutes(seconds) =~= a.push(':') + b);
    assert(hours_minutes_seconds(seconds) =~= (a.push(':') + b).push(':') + c);
    a_separator_parts(a.push(':') + b, ':', c);
    a_separator_parts(a, ':', b);
    nothing_parts(a, ':');
}

/// A span reads back as its nearest millisecond: hours where there are any, minutes and seconds
/// below sixty, and thousandths.
pub proof fn a_duration_reads_back(span: int)
    ensures
        ({
            let p = parts(duration_spec(span), ':');
            let n = p.len() as int;
            let seconds = parts(p[n - 1], '.');
            let hours = if n == 3 {
                read_digits(p[0])
            } else {
                0
            };
            let millis = 1000 * (3600 * hours + 60 * read_digits(p[n - 2]) + read_digits(
                seconds[0],
            )) + read_digits(seconds[1]);
            &&& n == 2 || n == 3
            &&& seconds.len() == 2 && seconds[1].len() == 3
            &&& 0 <= read_digits(p[n - 2]) < 60 && 0 <= read_digits(seconds[0]) < 60
            &&& millis == span_millis(span)
            &&& span >= 0 ==> -1000 <= 2 * (span - 1000 * millis) <= 1000
            &&& span < 0 ==> millis == 0
        }),
{
    lemma_signs();
    a_half_goes_to_the_even(span, 1000);
    let all = span_millis(span);
    assert(all >= 0);
    let (h, m, s, f) = (all / 3_600_000, all / 60_000 % 60, all / 1000 % 60, all % 1000);
    assert(1000 * (3600 * h + 60 * m + s) + f == all) by {
        assert(all / 60_000 / 60 == all / 3_600_000);
        assert(all / 1000 / 60 == all / 60_000);
    }
    a_padded_number_reads_back(h as nat, 2);
    a_padded_number_reads_back(m as nat, 2);
    a_padded_number_reads_back(s as nat, 2);
    a_padded_number_reads_back(f as nat, 3);
    lemma_digits_lack(h as nat, 2);
    lemma_digits_lack(m as nat, 2);
    lemma_digits_lack(s as nat, 2);
    lemma_digits_lack(f as nat, 3);
    let (a, b, c, d) = (
        dec_padded(h as nat, 2),
        dec_padded(m as nat, 2),
        dec_padded(s as nat, 2),
        dec_padded(f as nat, 3),
    );
    let tail = c.push('.') + d;
    assert(lacks(tail, ':'));
    a_separator_parts(c, '.', d);
    nothing_parts(c, '.');
    nothing_parts(b, ':');
    a_separator_parts(b, ':', tail);
    if h > 0 {
        assert(duration_spec(span) =~= (a.push(':') + b).push(':') + tail);
        nothing_parts(a, ':');
        a_separator_parts(a, ':', b);
        a_separator_parts(a.push(':') + b, ':', tail);
    } else {
        assert(duration_spec(span) =~= b.push(':') + tail);
    }
}

/// An instant is its whole second and what is past it, and its nearest millisecond is no further
/// than half of one away.
pub proof fn an_instant_is_taken_apart(t: int)
    ensures
        t == 1_000_000 * whole_seconds(t) + past_second(t),
        0 <= past_second(t) < 1_000_000,
        -500 < t - 1000 * to_millis(t) + 1 && t - 1000 * to_millis(t) < 500,
{
}

/// A tick's label is the clock's at the precision of the step: to the minute for steps of an hour
/// and more, to the second for steps of a second and more, and to the nearest millisecond below.
pub proof fn a_label_is_as_precise_as_its_step(t: int, step: i64)
    ensures
        step >= 3_600_000_000 ==> axis_label_spec(t, step) == hours_minutes(t / 1_000_000),
        1_000_000 <= step < 3_600_000_000 ==> axis_label_spec(t, step) == hours_minutes_seconds(
            t / 1_000_000,
        ),
        step < 1_000_000 ==> exists|ms: int|
            0 <= ms < 1000 && -500 <= t - 1000 * (1000 * ((t + 500) / 1_000_000) + ms)
                <= 500 && axis_label_spec(t, step) == #[trigger] (hours_minutes_seconds(
                (t + 500) / 1_000_000,
            ) + "."@ + dec_padded(ms as nat, 3)),
{
    if step < 1_000_000 {
        let n = to_millis(t);
        let ms = n % 1000;
        assert(n / 1000 == (t + 500) / 1_000_000);
        assert(axis_label_spec(t, step) == hours_minutes_seconds((t + 500) / 1_000_000) + "."@
            + dec_padded(ms as nat, 3));
    }
}

/// The scales of temperature stand to each other as they should: what is so many degrees Celsius
/// is nine fifths of that and 32 Fahrenheit, and 273.15 more in kelvin; and a kelvin is what it is.
pub proof fn the_scales_meet(c: int, parts: int)
    ensures
        TempUnit::Fahrenheit.kelvin(9 * c + 160 * parts, 5 * parts) == TempUnit::Celsius.kelvin(
            5 * c,
            5 * parts,
        ),
        TempUnit::Kelvin.kelvin(100 * c + 27_315 * parts, 100 * parts) == TempUnit::Celsius.kelvin(
            100 * c,
            100 * parts,
        ),
        TempUnit::Kelvin.kelvin(c, parts) == 1800 * c,
{
    assert(180int / 18 == 10 && 180int / 10 == 18);
    assert(TempUnit::Fahrenheit.scale_spec() == (3200int, 18int, 27_315int));
    assert(TempUnit::Celsius.scale_spec() == (0int, 10int, 27_315int));
    assert(TempUnit::Kelvin.scale_spec() == (0int, 10int, 0int));
    let (x, p) = (9 * c + 160 * parts, 5 * parts);
    assert(TempUnit::Fahrenheit.kelvin(x, p) == (100 * x - 3200 * p) * 10 + 18 * 27_315 * p);
    let (y, q) = (100 * c + 27_315 * parts, 100 * parts);
    assert(TempUnit::Kelvin.kelvin(y, q) == (100 * y - 0 * q) * 18 + 18 * 0 * q);
    assert(TempUnit::Kelvin.kelvin(c, parts) == (100 * c - 0 * parts) * 18 + 18 * 0 * parts);
    assert(TempUnit::Celsius.kelvin(100 * c, q) == (100 * (100 * c) - 0 * q) * 18 + 18 * 27_315 * q);
    assert(TempUnit::Celsius.kelvin(5 * c, p) == (100 * (5 * c) - 0 * p) * 18 + 18 * 27_315 * p);
}

proof fn lemma_outline_len(
    peaks: Seq<(Double, Double)>,
    base: i64,
    duration: i64,
    lo: int,
    hi: int,
)
    requires
        lo <= hi,
    ensures
        outline_spec(peaks, base, duration, lo, hi).len() == 2 * (hi - lo),
    decreases hi - lo,
{
    if lo < hi {
        lemma_outline_len(peaks, base, duration, lo, hi - 1);
    }
}

/// A waveform's outline has the trough and the crest of each bucket in view, at the bucket's time,
/// one bucket after the other.
pub proof fn an_outline_has_every_bucket(
    peaks: Seq<(Double, Double)>,
    base: i64,
    duration: i64,
    lo: int,
    hi: int,
    k: int,
)
    requires
        0 <= lo <= k < hi <= peaks.len(),
    ensures
        ({
            let line = outline_spec(peaks, base, duration, lo, hi);
            let t = bucket_time(base, duration, peaks.len() as int, k) as i64;
            &&& line.len() == 2 * (hi - lo)
            &&& line[2 * (k - lo)] == (t, peaks[k].0)
            &&& line[2 * (k - lo) + 1] == (t, peaks[k].1)
        }),
    decreases hi - lo,
{
    lemma_outline_len(peaks, base, duration, lo, hi - 1);
    if k < hi - 1 {
        an_outline_has_every_bucket(peaks, base, duration, lo, hi - 1, k);
    }
}

/// The buckets of a waveform lie evenly along its recording, from its start to its end.
pub proof fn buckets_lie_along_the_recording(base: i64, duration: i64, n: int, i: int, j: int)
    requires
        0 < n,
        0 <= duration,
        0 <= i <= j <= n,
    ensures
        bucket_time(base, duration, n, 0) == base,
        bucket_time(base, duration, n, n) == base + duration,
        bucket_time(base, duration, n, i) <= bucket_time(base, duration, n, j),
{
    assert(0 * duration == 0);
    vstd::arithmetic::div_mod::lemma_div_basics(n);
    assert(n * duration == duration * n) by (nonlinear_arith);
    vstd::arithmetic::div_mod::lemma_div_multiples_vanish(duration as int, n);
    assert(i * duration <= j * duration) by (nonlinear_arith)
        requires
            i <= j,
            0 <= duration,
    ;
    vstd::arithmetic::div_mod::lemma_div_is_ordered(i * duration, j * duration, n);
}

/// A list that is filtered has what passes and nothing else, in the order it stood.
pub proof fn a_filtered_list_is_in_order(
    series: Seq<TimeSeries>,
    filter: Seq<char>,
    n: nat,
    k: int,
)
    requires
        n <= series.len() <= usize::MAX,
        0 <= k < n,
    ensures
        ({
            let rows = matching_spec(series, filter, n);
            &&& rows.contains(k as usize) <==> matches_filter(series[k].name@, filter)
            &&& forall|i: int, j: int|
                0 <= i < j < rows.len() ==> #[trigger] rows[i] < #[trigger] rows[j]
            &&& forall|i: int| 0 <= i < rows.len() ==> (#[trigger] rows[i]) < n
        }),
    decreases n,
{
    let rows = matching_spec(series, filter, n);
    let rest = matching_spec(series, filter, (n - 1) as nat);
    if n > 1 {
        a_filtered_list_is_in_order(
            series,
            filter,
            (n - 1) as nat,
            if k < n - 1 {
                k
            } else {
                0
            },
        );
    }
    if rest.contains(k as usize) {
        let i = rest.index_of(k as usize);
        assert(rows[i] == k);
    }
    if rows.contains(k as usize) {
        let i = rows.index_of(k as usize);
        if i < rest.len() {
            assert(rest[i] == k);
        }
    }
    if k == n - 1 && matches_filter(series[k].name@, filter) {
        assert(rows[rows.len() - 1] == k);
    }
}

/// A list of transfers that is filtered has what passes and nothing else, in the order it stood.
pub proof fn filtered_transfers_are_in_order(
    transfers: Seq<SdoTransfer>,
    filter: SdoFilter,
    n: nat,
    k: int,
)
    requires
        n <= transfers.len() <= usize::MAX,
        0 <= k < n,
    ensures
        ({
            let rows = passing(transfers, filter, n);
            &&& rows.contains(k as usize) <==> passes(transfers[k], filter)
            &&& forall|i: int, j: int|
                0 <= i < j < rows.len() ==> #[trigger] rows[i] < #[trigger] rows[j]
            &&& forall|i: int| 0 <= i < rows.len() ==> (#[trigger] rows[i]) < n
        }),
    decreases n,
{
    let rows = passing(transfers, filter, n);
    let rest = passing(transfers, filter, (n - 1) as nat);
    if n > 1 {
        filtered_transfers_are_in_order(
            transfers,
            filter,
            (n - 1) as nat,
            if k < n - 1 {
                k
            } else {
                0
            },
        );
    }
    if rest.contains(k as usize) {
        let i = rest.index_of(k as usize);
        assert(rows[i] == k);
    }
    if rows.contains(k as usize) {
        let i = rows.index_of(k as usize);
        if i < rest.len() {
            assert(rest[i] == k);
        }
    }
    if k == n - 1 && passes(transfers[k], filter) {
        assert(rows[rows.len() - 1] == k);
    }
}

/// A filter of nothing lets everything pass; one of a node lets only that node's transfers pass,
/// and one of aborts only aborts.
pub proof fn a_filter_holds_back_the_rest(t: SdoTransfer, filter: SdoFilter)
    ensures
        passes(t, filter) && filter.node is Some ==> filter.node.unwrap().bus == t.bus
            && filter.node.unwrap().node == t.node,
        passes(t, filter) && filter.aborts_only ==> t.kind is Abort,
        filter.node is None && !filter.aborts_only && crate::text::trimmed(filter.text@).len() == 0
            && crate::text::lowercased(crate::text::trimmed(filter.text@)).len() == 0 ==> passes(
            t,
            filter,
        ),
{
}

/// The message of a series is what stands in front of the last dot of its name: with it and the
/// rest, which has no dot, the name is whole again.
pub proof fn a_name_is_its_message_and_its_field(name: Seq<char>)
    ensures
        match group_spec(name) {
            Some(message) => {
                let field = name.skip(message.len() + 1int);
                lacks(field, '.') && name == message.push('.') + field
            },
            None => lacks(name, '.'),
        },
{
    the_last_is_the_last(name, '.');
    let dot = crate::text::last_of(name, '.');
    if dot >= 0 {
        let field = name.skip(dot + 1);
        assert forall|i: int| 0 <= i < field.len() implies #[trigger] field[i] != '.' by {
            assert(field[i] == name[dot + 1 + i]);
        }
        let message = name.take(dot);
        assert(group_spec(name) == Some(message));
        assert(name =~= message.push('.') + field);
        assert(message.len() == dot);
    } else {
        assert(lacks(name, '.'));
    }
}

} // verus!
