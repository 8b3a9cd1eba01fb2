//! Working out when a video or audio recording *started* in absolute UTC, which is what places
//! it on the master timeline next to the log.
//!
//! Container metadata is the only authoritative answer, and plenty of recordings don't carry
//! it. Falling straight through to the file's modification time is usually wrong by however
//! long the file sat around before being copied. The recording time is very often right there
//! in the file name instead (`video_abc_2026-08-08T17:41:58.webm`), so that comes first.
use vstd::prelude::*;

use crate::text::{chars_of, pow10};

verus! {

broadcast use vstd::seq_lib::group_seq_properties;

/// Where a source's start came from, so that the reader can be told how much to trust it.
#[derive(Clone, Copy, PartialEq, Eq, Structural, Debug)]
pub enum StartTimeSource {
    /// The container's `creation_time` tag: authoritative.
    Metadata,
    /// A timestamp parsed out of the file name, assumed to be UTC.
    FileName,
    /// Last resort: when the file was last written.
    FileMtime,
}

impl StartTimeSource {
    pub fn is_guess(self) -> (r: bool)
        ensures
            r == (self != StartTimeSource::Metadata),
    {
        self != StartTimeSource::Metadata
    }

    pub fn describe(self) -> (r: &'static str)
        ensures
            r@ == match self {
                StartTimeSource::Metadata => "container metadata"@,
                StartTimeSource::FileName => "the file name, read as UTC"@,
                StartTimeSource::FileMtime => "the file's modification time"@,
            },
    {
        match self {
            StartTimeSource::Metadata => "container metadata",
            StartTimeSource::FileName => "the file name, read as UTC",
            StartTimeSource::FileMtime => "the file's modification time",
        }
    }
}

/// The microseconds since 1970 that a text means by RFC 3339, `None` where it means none.
pub uninterp spec fn rfc3339_micros(text: Seq<char>) -> Option<i64>;

/// `chrono::DateTime::parse_from_rfc3339` and `timestamp_micros`: the instant that a text means
/// by RFC 3339. The grammar is left to the name [`rfc3339_micros`].
#[verifier::external_body]
fn parse_rfc3339(s: &str) -> (r: Option<i64>)
    ensures
        r == rfc3339_micros(s@),
{
    chrono::DateTime::parse_from_rfc3339(s).ok().map(|dt| dt.timestamp_micros())
}

/// The instant of an ISO 8601 date and time with its zone.
pub fn parse_iso8601(s: &str) -> (r: Option<i64>)
    ensures
        r == rfc3339_micros(s@),
{
    parse_rfc3339(s)
}

/// Whether a year has a 29th of February.
pub open spec fn is_leap(year: int) -> bool {
    year % 4 == 0 && (year % 100 != 0 || year % 400 == 0)
}

/// The days of a month.
pub open spec fn days_in_month(year: int, month: int) -> int {
    if month == 2 {
        if is_leap(year) {
            29
        } else {
            28
        }
    } else if month == 4 || month == 6 || month == 9 || month == 11 {
        30
    } else {
        31
    }
}

/// The days from the start of a year to the start of a month.
pub open spec fn days_before_month(year: int, month: int) -> int
    decreases month,
{
    if month <= 1 {
        0
    } else {
        days_before_month(year, month - 1) + days_in_month(year, month - 1)
    }
}

/// The days from the start of 1970 to the start of a later year.
pub open spec fn days_before_year(year: int) -> int
    decreases year,
{
    if year <= 1970 {
        0
    } else {
        days_before_year(year - 1) + if is_leap(year - 1) {
            366int
        } else {
            365int
        }
    }
}

/// Whether a date is one of the calendar and a time one of the clock.
pub open spec fn is_date_time(y: int, mo: int, d: int, h: int, mi: int, s: int) -> bool {
    &&& 1 <= mo <= 12
    &&& 1 <= d <= days_in_month(y, mo)
    &&& 0 <= h < 24
    &&& 0 <= mi < 60
    &&& 0 <= s < 60
}

/// The seconds from the start of 1970 to a date and time.
pub open spec fn seconds_since_1970(y: int, mo: int, d: int, h: int, mi: int, s: int) -> int {
    86_400 * (days_before_year(y) + days_before_month(y, mo) + d - 1) + 3600 * h + 60 * mi + s
}

/// `chrono::NaiveDate::from_ymd_opt` and `and_hms_opt`, read as UTC: the seconds since 1970 of a
/// date and time of the Gregorian calendar. `None` for a date that does not exist and a time
/// that no clock shows.
#[verifier::external_body]
fn utc_seconds(year: i32, month: u32, day: u32, hour: u32, minute: u32, second: u32) -> (r: Option<
    i64,
>)
    requires
        1970 <= year <= 2200,
    ensures
        r is Some <==> is_date_time(
            year as int,
            month as int,
            day as int,
            hour as int,
            minute as int,
            second as int,
        ),
        r is Some ==> r.unwrap() == seconds_since_1970(
            year as int,
            month as int,
            day as int,
            hour as int,
            minute as int,
            second as int,
        ),
{
    let date = chrono::NaiveDate::from_ymd_opt(year, month, day)?;
    Some(date.and_hms_opt(hour, minute, second)?.and_utc().timestamp())
}

/// Whether a character is one of the ten digits.
pub open spec fn is_digit(c: char) -> bool {
    '0' <= c && c <= '9'
}

/// The number that digits write.
pub open spec fn number(s: Seq<char>) -> int
    decreases s.len(),
{
    if s.len() == 0 {
        0
    } else {
        10 * number(s.drop_last()) + (s.last() as int - '0' as int)
    }
}

/// The number of exactly the `n` digits from `p` on, `None` where they are not all digits.
pub open spec fn digits_spec(s: Seq<char>, p: int, n: int) -> Option<int> {
    if p + n <= s.len() && forall|i: int| p <= i < p + n ==> is_digit(#[trigger] s[i]) {
        Some(number(s.subrange(p, p + n)))
    } else {
        None
    }
}

/// What may stand between the parts of a date.
pub open spec fn is_date_sep(c: char) -> bool {
    c == '-' || c == '_' || c == '.'
}

/// What may stand between the parts of a time.
pub open spec fn is_time_sep(c: char) -> bool {
    c == ':' || c == '-' || c == '_' || c == '.'
}

/// What stands between date and time: `T` (ISO), or any of the usual fillers.
pub open spec fn is_date_time_sep(c: char) -> bool {
    c == 'T' || c == 't' || c == '_' || c == '-' || c == ' ' || c == '.'
}

/// Past a separator of a date, where there is one.
pub open spec fn past_date_sep(s: Seq<char>, p: int) -> int {
    if 0 <= p < s.len() && is_date_sep(s[p]) {
        p + 1
    } else {
        p
    }
}

/// Past a separator of a time, where there is one.
pub open spec fn past_time_sep(s: Seq<char>, p: int) -> int {
    if 0 <= p < s.len() && is_time_sep(s[p]) {
        p + 1
    } else {
        p
    }
}

/// The date and time that a stamp at `p` writes: a year of 1970 to 2200, month and day, a
/// separator, then hour, minute and second, with optional separators inside both halves. No
/// digit may follow, which would mean that some longer number was mis-split.
pub open spec fn stamp_spec(s: Seq<char>, p: int) -> Option<int> {
    let p_month = past_date_sep(s, p + 4);
    let p_day = past_date_sep(s, p_month + 2);
    let p_sep = p_day + 2;
    let p_hour = p_sep + 1;
    let p_minute = past_time_sep(s, p_hour + 2);
    let p_second = past_time_sep(s, p_minute + 2);
    let p_end = p_second + 2;
    match (
        digits_spec(s, p, 4),
        digits_spec(s, p_month, 2),
        digits_spec(s, p_day, 2),
        digits_spec(s, p_hour, 2),
        digits_spec(s, p_minute, 2),
        digits_spec(s, p_second, 2),
    ) {
        (Some(y), Some(mo), Some(d), Some(h), Some(mi), Some(sec)) => if 1970 <= y <= 2200
            && is_date_time_sep(s[p_sep]) && !(p_end < s.len() && is_digit(s[p_end]))
            && is_date_time(y, mo, d, h, mi, sec) {
            Some(seconds_since_1970(y, mo, d, h, mi, sec))
        } else {
            None
        },
        _ => None,
    }
}

/// The first stamp that starts at `from` or later.
pub open spec fn stamp_from(s: Seq<char>, from: int) -> Option<int>
    decreases s.len() - from,
{
    if from < 0 || from >= s.len() {
        None
    } else {
        match stamp_spec(s, from) {
            Some(t) => Some(t),
            None => stamp_from(s, from + 1),
        }
    }
}

fn digit_value(c: char) -> (r: Option<u32>)
    ensures
        match r {
            Some(v) => is_digit(c) && v == c as int - '0' as int && v <= 9,
            None => !is_digit(c),
        },
{
    if '0' <= c && c <= '9' {
        Some(c as u32 - 48)
    } else {
        None
    }
}

/// Reads exactly `n` digits at a place and moves past them. Where they are not all digits, the
/// place stays.
pub fn digits(s: &Vec<char>, p: &mut usize, n: usize) -> (r: Option<u32>)
    requires
        n <= 9,
    ensures
        match r {
            Some(v) => digits_spec(s@, *old(p) as int, n as int) == Some(v as int) && v < pow10(
                n as nat,
            ) && *final(p) == *old(p) + n && *final(p) <= s@.len(),
            None => digits_spec(s@, *old(p) as int, n as int) is None && *final(p) == *old(p),
        },
{
    let from: usize = *p;
    let len: usize = s.len();
    if from > len || len - from < n {
        return None;
    }
    let mut v: u32 = 0;
    let mut i: usize = 0;
    assert(s@.subrange(from as int, from as int) =~= Seq::<char>::empty());
    while i < n
        invariant
            i <= n <= 9,
            *p == from,
            from + n <= s@.len() == len,
            forall|k: int| from <= k < from + i ==> is_digit(#[trigger] s@[k]),
            v == number(s@.subrange(from as int, from + i)),
            v < pow10(i as nat),
        decreases n - i,
    {
        proof {
            assert(s@.subrange(from as int, from + i + 1).drop_last() =~= s@.subrange(
                from as int,
                from + i,
            ));
            reveal_with_fuel(pow10, 10);
        }
        match digit_value(s[from + i]) {
            Some(d) => {
                v = 10 * v + d;
            },
            None => {
                assert(!is_digit(s@[from + i]));
                return None;
            },
        }
        i += 1;
    }
    *p = from + n;
    Some(v)
}

fn skip_date_sep(s: &Vec<char>, p: usize) -> (r: usize)
    requires
        p <= s@.len(),
    ensures
        r == past_date_sep(s@, p as int),
        r <= s@.len(),
{
    if p < s.len() && (s[p] == '-' || s[p] == '_' || s[p] == '.') {
        p + 1
    } else {
        p
    }
}

fn skip_time_sep(s: &Vec<char>, p: usize) -> (r: usize)
    requires
        p <= s@.len(),
    ensures
        r == past_time_sep(s@, p as int),
        r <= s@.len(),
{
    if p < s.len() && (s[p] == ':' || s[p] == '-' || s[p] == '_' || s[p] == '.') {
        p + 1
    } else {
        p
    }
}

/// The seconds since 1970 that a stamp at a place writes.
fn parse_stamp_at(s: &Vec<char>, p: usize) -> (r: Option<i64>)
    requires
        p <= s@.len(),
    ensures
        match r {
            Some(t) => stamp_spec(s@, p as int) == Some(t as int),
            None => stamp_spec(s@, p as int) is None,
        },
{
    let len: usize = s.len();
    let mut at: usize = p;
    let year = match digits(s, &mut at, 4) {
        Some(v) => v,
        None => return None,
    };
    if !(1970 <= year && year <= 2200) {
        return None;
    }
    at = skip_date_sep(s, at);
    let month = match digits(s, &mut at, 2) {
        Some(v) => v,
        None => return None,
    };
    at = skip_date_sep(s, at);
    let day = match digits(s, &mut at, 2) {
        Some(v) => v,
        None => return None,
    };
    if at >= len {
        return None;
    }
    let c = s[at];
    if !(c == 'T' || c == 't' || c == '_' || c == '-' || c == ' ' || c == '.') {
        return None;
    }
    at += 1;
    let hour = match digits(s, &mut at, 2) {
        Some(v) => v,
        None => return None,
    };
    at = skip_time_sep(s, at);
    let minute = match digits(s, &mut at, 2) {
        Some(v) => v,
        None => return None,
    };
    at = skip_time_sep(s, at);
    let second = match digits(s, &mut at, 2) {
        Some(v) => v,
        None => return None,
    };
    if at < len {
        if digit_value(s[at]).is_some() {
            return None;
        }
    }
    utc_seconds(year as i32, month, day, hour, minute, second)
}

proof fn lemma_seconds_bounded(y: int, mo: int, d: int, h: int, mi: int, s: int)
    requires
        1970 <= y <= 2200,
        is_date_time(y, mo, d, h, mi, s),
    ensures
        0 <= seconds_since_1970(y, mo, d, h, mi, s) < 8_000_000_000,
{
    lemma_days_bounded(y);
    lemma_month_bounded(y, mo);
}

proof fn lemma_days_bounded(y: int)
    requires
        1970 <= y <= 2200,
    ensures
        0 <= days_before_year(y) <= 366 * (y - 1970),
    decreases y,
{
    if y > 1970 {
        lemma_days_bounded(y - 1);
    }
}

proof fn lemma_month_bounded(y: int, mo: int)
    requires
        1 <= mo <= 12,
    ensures
        0 <= days_before_month(y, mo) <= 31 * (mo - 1),
    decreases mo,
{
    if mo > 1 {
        lemma_month_bounded(y, mo - 1);
    }
}

/// Finds the first date-and-time stamp anywhere in a file name, in microseconds since 1970.
///
/// Deliberately loose about separators, because every recorder writes them differently
/// (`2026-08-08T17:41:58`, `2026-08-08_17-41-58`, `20260808_174158`). Without an explicit `Z`
/// the stamp is read as UTC: there is nothing in a file name to say otherwise, and the caller
/// marks the result as a guess so a wrong timezone is a slider nudge away from fixed.
pub fn parse_file_name(name: &str) -> (r: Option<i64>)
    ensures
        match r {
            Some(t) => stamp_from(name@, 0) is Some && t == 1_000_000 * stamp_from(
                name@,
                0,
            ).unwrap(),
            None => stamp_from(name@, 0) is None,
        },
{
    let chars = chars_of(name);
    let mut i: usize = 0;
    while i < chars.len()
        invariant
            i <= chars@.len(),
            chars@ == name@,
            stamp_from(name@, 0) == stamp_from(name@, i as int),
        decreases chars@.len() - i,
    {
        if let Some(t) = parse_stamp_at(&chars, i) {
            proof {
                lemma_stamp_bounded(name@, i as int);
            }
            return Some(1_000_000 * t);
        }
        i += 1;
    }
    None
}

proof fn lemma_stamp_bounded(s: Seq<char>, p: int)
    requires
        stamp_spec(s, p) is Some,
    ensures
        0 <= stamp_spec(s, p).unwrap() < 8_000_000_000,
{
    let p_month = past_date_sep(s, p + 4);
    let p_day = past_date_sep(s, p_month + 2);
    let p_hour = p_day + 3;
    let p_minute = past_time_sep(s, p_hour + 2);
    let p_second = past_time_sep(s, p_minute + 2);
    lemma_seconds_bounded(
        digits_spec(s, p, 4).unwrap(),
        digits_spec(s, p_month, 2).unwrap(),
        digits_spec(s, p_day, 2).unwrap(),
        digits_spec(s, p_hour, 2).unwrap(),
        digits_spec(s, p_minute, 2).unwrap(),
        digits_spec(s, p_second, 2).unwrap(),
    );
}

/// The best of what is known of a recording's start: the container's word, else the file
/// name's, else when the file was last written, else 1970.
pub fn best_start(metadata: Option<i64>, file_name: Option<i64>, mtime: Option<i64>) -> (r: (
    i64,
    StartTimeSource,
))
    ensures
        r == match (metadata, file_name, mtime) {
            (Some(t), _, _) => (t, StartTimeSource::Metadata),
            (None, Some(t), _) => (t, StartTimeSource::FileName),
            (None, None, Some(t)) => (t, StartTimeSource::FileMtime),
            (None, None, None) => (0i64, StartTimeSource::FileMtime),
        },
        metadata is Some <==> r.1 == StartTimeSource::Metadata,
{
    match metadata {
        Some(t) => (t, StartTimeSource::Metadata),
        None => match file_name {
            Some(t) => (t, StartTimeSource::FileName),
            None => match mtime {
                Some(t) => (t, StartTimeSource::FileMtime),
                None => (0, StartTimeSource::FileMtime),
            },
        },
    }
}

/// What a container's `creation_time` tag means, if there is one and it means anything.
pub open spec fn tagged(creation_time: Option<&str>) -> Option<i64> {
    match creation_time {
        Some(s) => rfc3339_micros(s@),
        None => None,
    }
}

/// Best available start time for a file of the given name, last written at `mtime`, given the
/// container's `creation_time` tag if it had one.
pub fn resolve(file_name: &str, creation_time: Option<&str>, mtime: Option<i64>) -> (r: (
    i64,
    StartTimeSource,
))
    ensures
        match (tagged(creation_time), stamp_from(file_name@, 0)) {
            (Some(t), _) => r == (t, StartTimeSource::Metadata),
            (None, Some(t)) => r.0 == 1_000_000 * t && r.1 == StartTimeSource::FileName,
            (None, None) => r.1 == StartTimeSource::FileMtime && r.0 == match mtime {
                Some(t) => t,
                None => 0,
            },
        },
{
    let metadata = match creation_time {
        Some(s) => parse_iso8601(s),
        None => None,
    };
    best_start(metadata, parse_file_name(file_name), mtime)
}

} // verus!
