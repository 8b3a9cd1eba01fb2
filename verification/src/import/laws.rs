//! What a recording's name and rows say.
use vstd::prelude::*;

use crate::double::Double;
use crate::import::audio::{
    crest, least, peaks_from, the_waveform_encloses_its_samples, trough,
};
use crate::import::probe::video_from;
use crate::import::sqlite_log::{is_pivot, sensor_points, Row, SensorSeries};
use crate::import::start_time::{
    days_before_month, days_in_month, digits_spec, is_date_time, is_leap, number, past_date_sep,
    past_time_sep, seconds_since_1970, stamp_from, stamp_spec,
};
use crate::text::{dec_padded, pow10};
use crate::text_laws::{a_padded_number_reads_back, is_digit, read_digits};

verus! {

broadcast use vstd::seq_lib::group_seq_properties;

proof fn lemma_number(s: Seq<char>)
    ensures
        number(s) == read_digits(s),
    decreases s.len(),
{
    if s.len() > 0 {
        lemma_number(s.drop_last());
    }
}

/// Digits that stand at a place of a text are read there.
proof fn lemma_digits_at(s: Seq<char>, p: int, n: nat, v: nat)
    requires
        0 <= p,
        0 < n,
        v < pow10(n),
        p + n <= s.len(),
        s.subrange(p, p + n) == dec_padded(v, n),
    ensures
        digits_spec(s, p, n as int) == Some(v as int),
        forall|i: int| p <= i < p + n ==> is_digit(#[trigger] s[i]),
{
    a_padded_number_reads_back(v, n);
    let part = s.subrange(p, p + n);
    lemma_number(part);
    assert forall|i: int| p <= i < p + n implies is_digit(#[trigger] s[i]) by {
        assert(part[i - p] == s[i]);
    }
    assert forall|i: int| p <= i < p + n implies crate::import::start_time::is_digit(
        #[trigger] s[i],
    ) by {
        assert(is_digit(s[i]));
    }
}

proof fn lemma_pows()
    ensures
        pow10(2) == 100,
        pow10(4) == 10_000,
{
    reveal_with_fuel(pow10, 5);
}

/// A date and a time in a file's name are read as that instant: written as `20260808_174158`, or
/// with separators between their parts as `2026-08-08T17:41:58`, at the start of a name whose rest
/// does not go on with a digit.
pub proof fn a_stamp_is_read(
    y: nat,
    mo: nat,
    d: nat,
    h: nat,
    mi: nat,
    s: nat,
    spaced: bool,
    rest: Seq<char>,
)
    requires
        1970 <= y <= 2200,
        is_date_time(y as int, mo as int, d as int, h as int, mi as int, s as int),
        rest.len() > 0 ==> !is_digit(rest[0]),
    ensures
        ({
            let date = if spaced {
                dec_padded(y, 4) + seq!['-'] + dec_padded(mo, 2) + seq!['-'] + dec_padded(d, 2)
            } else {
                dec_padded(y, 4) + dec_padded(mo, 2) + dec_padded(d, 2)
            };
            let time = if spaced {
                dec_padded(h, 2) + seq![':'] + dec_padded(mi, 2) + seq![':'] + dec_padded(s, 2)
            } else {
                dec_padded(h, 2) + dec_padded(mi, 2) + dec_padded(s, 2)
            };
            let between = if spaced {
                'T'
            } else {
                '_'
            };
            let name = date + seq![between] + time + rest;
            let t = seconds_since_1970(y as int, mo as int, d as int, h as int, mi as int, s as int);
            stamp_spec(name, 0) == Some(t) && stamp_from(name, 0) == Some(t)
        }),
{
    lemma_pows();
    a_padded_number_reads_back(y, 4);
    a_padded_number_reads_back(mo, 2);
    a_padded_number_reads_back(d, 2);
    a_padded_number_reads_back(h, 2);
    a_padded_number_reads_back(mi, 2);
    a_padded_number_reads_back(s, 2);
    let (a, b, c) = (dec_padded(y, 4), dec_padded(mo, 2), dec_padded(d, 2));
    let (e, f, g) = (dec_padded(h, 2), dec_padded(mi, 2), dec_padded(s, 2));
    if spaced {
        let name = a + seq!['-'] + b + seq!['-'] + c + seq!['T'] + (e + seq![':'] + f + seq![':']
            + g) + rest;
        assert(name.subrange(0, 4) =~= a);
        assert(name.subrange(5, 7) =~= b);
        assert(name.subrange(8, 10) =~= c);
        assert(name.subrange(11, 13) =~= e);
        assert(name.subrange(14, 16) =~= f);
        assert(name.subrange(17, 19) =~= g);
        assert(name[4] == '-' && name[7] == '-' && name[10] == 'T' && name[13] == ':' && name[16]
            == ':');
        assert(rest.len() > 0 ==> name[19] == rest[0]);
        lemma_digits_at(name, 0, 4, y);
        lemma_digits_at(name, 5, 2, mo);
        lemma_digits_at(name, 8, 2, d);
        lemma_digits_at(name, 11, 2, h);
        lemma_digits_at(name, 14, 2, mi);
        lemma_digits_at(name, 17, 2, s);
        assert(past_date_sep(name, 4) == 5 && past_date_sep(name, 7) == 8);
        assert(past_time_sep(name, 13) == 14 && past_time_sep(name, 16) == 17);
        assert(stamp_spec(name, 0) is Some);
    } else {
        let name = a + b + c + seq!['_'] + (e + f + g) + rest;
        assert(name.subrange(0, 4) =~= a);
        assert(name.subrange(4, 6) =~= b);
        assert(name.subrange(6, 8) =~= c);
        assert(name.subrange(9, 11) =~= e);
        assert(name.subrange(11, 13) =~= f);
        assert(name.subrange(13, 15) =~= g);
        assert(name[8] == '_');
        assert(rest.len() > 0 ==> name[15] == rest[0]);
        lemma_digits_at(name, 0, 4, y);
        lemma_digits_at(name, 4, 2, mo);
        lemma_digits_at(name, 6, 2, d);
        lemma_digits_at(name, 9, 2, h);
        lemma_digits_at(name, 11, 2, mi);
        lemma_digits_at(name, 13, 2, s);
        assert(is_digit(name[4]) && is_digit(name[6]) && is_digit(name[11]) && is_digit(name[13]));
        assert(past_date_sep(name, 4) == 4 && past_date_sep(name, 6) == 6);
        assert(past_time_sep(name, 11) == 11 && past_time_sep(name, 13) == 13);
        assert(stamp_spec(name, 0) is Some);
    }
}

/// The calendar has no gaps: the first of a month is the day after the last of the one before it,
/// and the first of a year the day after the last of the one before it.
pub proof fn days_follow_each_other(y: int, mo: int)
    requires
        1970 <= y,
        1 <= mo <= 12,
    ensures
        ({
            let last = seconds_since_1970(y, mo, days_in_month(y, mo), 0, 0, 0);
            let next = if mo == 12 {
                seconds_since_1970(y + 1, 1, 1, 0, 0, 0)
            } else {
                seconds_since_1970(y, mo + 1, 1, 0, 0, 0)
            };
            next == last + 86_400
        }),
{
    reveal_with_fuel(days_before_month, 13);
}

/// The epoch is its own start, and a day's seconds, minutes and hours count as a clock's do.
pub proof fn a_clock_counts_to_a_day(y: int, mo: int, d: int, h: int, mi: int, s: int)
    ensures
        seconds_since_1970(1970, 1, 1, 0, 0, 0) == 0,
        seconds_since_1970(y, mo, d, h, mi, s + 1) == seconds_since_1970(y, mo, d, h, mi, s) + 1,
        seconds_since_1970(y, mo, d, h, mi, 60) == seconds_since_1970(y, mo, d, h, mi + 1, 0),
        seconds_since_1970(y, mo, d, h, 60, 0) == seconds_since_1970(y, mo, d, h + 1, 0, 0),
        seconds_since_1970(y, mo, d, 24, 0, 0) == seconds_since_1970(y, mo, d + 1, 0, 0, 0),
{
}

/// The calendar comes round in four hundred years.
pub proof fn the_calendar_comes_round(y: int, mo: int)
    ensures
        days_in_month(y + 400, mo) == days_in_month(y, mo),
        is_leap(2000) && !is_leap(1900) && !is_leap(2100) && is_leap(2024) && !is_leap(2023),
{
    assert((y + 400) % 4 == y % 4 && (y + 400) % 100 == y % 100 && (y + 400) % 400 == y % 400);
}

/// A row is one more sample of its sensor, behind those before it, and of no other.
pub proof fn a_row_is_a_sample(rows: Seq<Row>, row: Row, sensor: Seq<char>)
    ensures
        ({
            let (before, after) = (sensor_points(rows, sensor), sensor_points(
                rows.push(row),
                sensor,
            ));
            if sensor == row.sensor@ {
                after.len() == before.len() + 1 && after.drop_last() == before && after.last().0
                    == row.t_utc && after.last().1 == row.value
            } else {
                after == before
            }
        }),
{
    assert(rows.push(row).drop_last() =~= rows);
    if sensor == row.sensor@ {
        assert(sensor_points(rows.push(row), sensor).drop_last() =~= sensor_points(rows, sensor));
    }
}

proof fn lemma_sample_there(rows: Seq<Row>, k: int)
    requires
        0 <= k < rows.len(),
    ensures
        sensor_points(rows, rows[k].sensor@).contains((rows[k].t_utc, rows[k].value)),
    decreases rows.len(),
{
    let sensor = rows[k].sensor@;
    let all = sensor_points(rows, sensor);
    let front = rows.drop_last();
    if k == rows.len() - 1 {
        assert(rows.last() == rows[k]);
        assert(all[all.len() - 1] == (rows[k].t_utc, rows[k].value));
    } else {
        lemma_sample_there(front, k);
        assert(front[k] == rows[k]);
        let rest = sensor_points(front, sensor);
        let i = rest.index_of((rows[k].t_utc, rows[k].value));
        assert(all[i] == rest[i]);
    }
}

/// Every row of a log is in the series of its sensor.
pub proof fn every_row_is_in_its_series(out: Seq<SensorSeries>, rows: Seq<Row>, k: int)
    requires
        is_pivot(out, rows),
        0 <= k < rows.len(),
    ensures
        exists|i: int|
            0 <= i < out.len() && (#[trigger] out[i]).name@ == rows[k].sensor@
                && out[i].points@.contains((rows[k].t_utc, rows[k].value)),
{
    lemma_sample_there(rows, k);
    let i = choose|i: int| 0 <= i < out.len() && (#[trigger] out[i]).name@ == rows[k].sensor@;
    assert(out[i].points@ == sensor_points(rows, out[i].name@));
}

/// A waveform has a bucket for every so many samples, and a sample is within the bucket that its
/// place says: no lower than its trough and no higher than its crest.
pub proof fn a_sample_is_in_its_bucket(samples: Seq<Double>, size: int, from: int, i: int)
    requires
        size > 0,
        0 <= from <= i < samples.len(),
    ensures
        ({
            let peaks = peaks_from(samples, size, from);
            let k = (i - from) / size;
            &&& 0 <= k < peaks.len()
            &&& !samples[i].lt(peaks[k].0)
            &&& !peaks[k].1.lt(samples[i])
        }),
    decreases samples.len() - from,
{
    let to = least(from + size, samples.len() as int);
    let peaks = peaks_from(samples, size, from);
    let rest = peaks_from(samples, size, to);
    let k = (i - from) / size;
    vstd::arithmetic::div_mod::lemma_fundamental_div_mod(i - from, size);
    vstd::arithmetic::div_mod::lemma_mod_bound(i - from, size);
    if i < to {
        assert(k == 0) by (nonlinear_arith)
            requires
                0 <= i - from < size,
                k == (i - from) / size,
        ;
        the_waveform_encloses_its_samples(samples, from, to, i);
        assert(peaks[0] == (trough(samples, from, to), crest(samples, from, to)));
    } else {
        assert(to == from + size);
        a_sample_is_in_its_bucket(samples, size, to, i);
        vstd::arithmetic::div_mod::lemma_div_plus_one(i - to, size);
        assert((i - from) / size == (i - to) / size + 1);
        assert(peaks[k] == rest[k - 1]);
    }
}

/// The picture of a recording is its first stream that is one.
pub proof fn the_first_video_stream_is_the_picture(kinds: Seq<Option<Seq<char>>>, from: int)
    requires
        0 <= from <= kinds.len(),
    ensures
        match video_from(kinds, from) {
            Some(i) => from <= i < kinds.len() && kinds[i] == Some("video"@) && forall|k: int|
                from <= k < i ==> #[trigger] kinds[k] != Some("video"@),
            None => forall|k: int|
                from <= k < kinds.len() ==> #[trigger] kinds[k] != Some("video"@),
        },
    decreases kinds.len() - from,
{
    if from < kinds.len() && kinds[from] != Some("video"@) {
        the_first_video_stream_is_the_picture(kinds, from + 1);
    }
}

} // verus!
