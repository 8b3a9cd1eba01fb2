//! Which series line a tank's wall: how a reading of one is to be taken, how much one looks like
//! a wall temperature, and the rows that numbered series make.
use vstd::prelude::*;

use crate::model::{Project, SourceId, SourceKind};
use crate::order::{is_stable_order, picked, stable_order};
use crate::picker::SeriesRef;
use crate::series::TimeSeries;
use crate::text::{
    chars_of, contains, dec, holds, lex_less, lex_lt, lex_lt_asymmetric, lex_lt_total,
    lex_lt_transitive, lowercase, lowercased, opt_view, push_dec, same, text_of, trim, trimmed,
};
use crate::units::{plain, TempUnit};

verus! {

broadcast use vstd::seq_lib::group_seq_properties;

/// Sensors lining the tank wall, bottom first: the first is the bottom of the tank and the last
/// the top.
pub const TANK_SENSORS: usize = 10;

/// How to read a number off a picked series.
///
/// Three of these are the units a series can declare. The other is a sensor slot heard before
/// its board announced what it measures: bare counts, which for those boards are hundredths of
/// a degree. Reading them as °C would put an ordinary tank at 2000 °C.
#[derive(Clone, Copy, PartialEq, Eq, Structural, Debug)]
pub enum SensorUnit {
    Celsius,
    /// Raw counts, a hundredth of a degree each.
    CentiCelsius,
    Kelvin,
    Fahrenheit,
}

/// Whether a series declares no unit at all: none, an empty one, or that it is raw.
pub open spec fn unitless(unit: Option<Seq<char>>) -> bool {
    match unit {
        None => true,
        Some(u) => trimmed(u).len() == 0 || plain(u) == "counts"@ || plain(u) == "raw"@,
    }
}

/// Whether a series declares no unit at all.
pub fn is_unitless(unit: Option<&str>) -> (r: bool)
    ensures
        r == unitless(
            match unit {
                Some(u) => Some(u@),
                None => None,
            },
        ),
{
    match unit {
        None => true,
        Some(u) => {
            let bare = trim(u);
            if bare.as_str().is_empty() {
                return true;
            }
            let low = lowercase(bare.as_str());
            same(low.as_str(), "counts") || same(low.as_str(), "raw")
        },
    }
}

impl SensorUnit {
    /// Every unit a pane offers.
    pub fn all() -> (r: [SensorUnit; 4])
        ensures
            r@ == seq![
                SensorUnit::Celsius,
                SensorUnit::CentiCelsius,
                SensorUnit::Kelvin,
                SensorUnit::Fahrenheit,
            ],
    {
        let r = [
            SensorUnit::Celsius,
            SensorUnit::CentiCelsius,
            SensorUnit::Kelvin,
            SensorUnit::Fahrenheit,
        ];
        assert(r@ =~= seq![
            SensorUnit::Celsius,
            SensorUnit::CentiCelsius,
            SensorUnit::Kelvin,
            SensorUnit::Fahrenheit,
        ]);
        r
    }

    pub fn label(self) -> (r: &'static str)
        ensures
            r@ == match self {
                SensorUnit::Celsius => "°C"@,
                SensorUnit::CentiCelsius => "c°C"@,
                SensorUnit::Kelvin => "K"@,
                SensorUnit::Fahrenheit => "°F"@,
            },
    {
        match self {
            SensorUnit::Celsius => "°C",
            SensorUnit::CentiCelsius => "c°C",
            SensorUnit::Kelvin => "K",
            SensorUnit::Fahrenheit => "°F",
        }
    }

    /// How a reading becomes °C: the reading that is 0 °C, in hundredths, and how many units
    /// make a degree, in tenths.
    pub fn scale(self) -> (r: (i32, u16))
        ensures
            r == match self {
                SensorUnit::Celsius => (0i32, 10u16),
                SensorUnit::CentiCelsius => (0i32, 1000u16),
                SensorUnit::Kelvin => (27315i32, 10u16),
                SensorUnit::Fahrenheit => (3200i32, 18u16),
            },
    {
        match self {
            SensorUnit::Celsius => (0, 10),
            SensorUnit::CentiCelsius => (0, 1000),
            SensorUnit::Kelvin => (27315, 10),
            SensorUnit::Fahrenheit => (3200, 18),
        }
    }

    /// What a series declaring a unit is in: the declared one where it is a temperature, and
    /// hundredths of a degree where it declares nothing, since that is the unannounced sensor
    /// slot rather than a genuinely unitless number.
    pub open spec fn declared(unit: Option<Seq<char>>) -> Option<SensorUnit> {
        if unitless(unit) {
            Some(SensorUnit::CentiCelsius)
        } else {
            match TempUnit::declared(unit) {
                Some(TempUnit::Celsius) => Some(SensorUnit::Celsius),
                Some(TempUnit::Kelvin) => Some(SensorUnit::Kelvin),
                Some(TempUnit::Fahrenheit) => Some(SensorUnit::Fahrenheit),
                None => None,
            }
        }
    }

    /// What a series declaring a unit is in.
    pub fn from_series_unit(unit: Option<&str>) -> (r: Option<SensorUnit>)
        ensures
            r == SensorUnit::declared(
                match unit {
                    Some(u) => Some(u@),
                    None => None,
                },
            ),
    {
        if is_unitless(unit) {
            return Some(SensorUnit::CentiCelsius);
        }
        match TempUnit::from_series_unit(unit) {
            Some(TempUnit::Celsius) => Some(SensorUnit::Celsius),
            Some(TempUnit::Kelvin) => Some(SensorUnit::Kelvin),
            Some(TempUnit::Fahrenheit) => Some(SensorUnit::Fahrenheit),
            None => None,
        }
    }
}

/// Units that are certainly not a temperature. A slot declaring pressure is not a wall sensor at
/// any price: painting a bar reading as a temperature is the mistake a tank pane can make that
/// still looks like a plausible tank.
pub open spec fn not_a_temperature(name: Seq<char>) -> bool {
    ||| name == "bar"@
    ||| name == "mbar"@
    ||| name == "kpa"@
    ||| name == "hpa"@
    ||| name == "pa"@
    ||| name == "psi"@
    ||| name == "n"@
    ||| name == "kg"@
    ||| name == "v"@
    ||| name == "a"@
    ||| name == "%"@
}

fn names_something_else(name: &str) -> (r: bool)
    ensures
        r == not_a_temperature(name@),
{
    same(name, "bar") || same(name, "mbar") || same(name, "kpa") || same(name, "hpa") || same(
        name,
        "pa",
    ) || same(name, "psi") || same(name, "n") || same(name, "kg") || same(name, "v") || same(
        name,
        "a",
    ) || same(name, "%")
}

/// How much a series looks like one of the temperatures up a tank wall. A declared temperature
/// unit is evidence, a name containing "temp" is a guess, and a series declaring nothing is a
/// weak candidate: worth offering, never worth preferring over a series that says what it is.
pub open spec fn sensor_score_spec(s: TimeSeries) -> u8 {
    let unit = opt_view(s.unit);
    let by_unit = TempUnit::declared(unit) is Some;
    let by_name = holds(lowercased(s.name@), "temp"@);
    if unit is Some && not_a_temperature(plain(unit.unwrap())) {
        0
    } else if by_unit && by_name {
        4
    } else if by_unit {
        3
    } else if by_name {
        2
    } else if unitless(unit) {
        1
    } else {
        0
    }
}

/// How much a series looks like one of the temperatures up a tank wall.
pub fn sensor_score(s: &TimeSeries) -> (r: u8)
    ensures
        r == sensor_score_spec(*s),
        r <= 4,
{
    let unit: Option<&str> = match &s.unit {
        Some(u) => Some(u.as_str()),
        None => None,
    };
    if let Some(u) = unit {
        let bare = trim(u);
        let low = lowercase(bare.as_str());
        if names_something_else(low.as_str()) {
            return 0;
        }
    }
    let by_unit = TempUnit::from_series_unit(unit).is_some();
    let name = lowercase(s.name.as_str());
    let by_name = contains(name.as_str(), "temp");
    if by_unit && by_name {
        4
    } else if by_unit {
        3
    } else if by_name {
        2
    } else if is_unitless(unit) {
        1
    } else {
        0
    }
}

/// Whether a character is one of the ten digits.
pub open spec fn is_digit(c: char) -> bool {
    '0' <= c <= '9'
}

/// How much of a name stands before the digits that it ends in.
pub open spec fn stem_len(name: Seq<char>) -> nat
    decreases name.len(),
{
    if name.len() > 0 && is_digit(name.last()) {
        stem_len(name.drop_last())
    } else {
        name.len()
    }
}

/// The number that digits write.
pub open spec fn number(digits: Seq<char>) -> nat
    decreases digits.len(),
{
    if digits.len() == 0 {
        0
    } else {
        10 * number(digits.drop_last()) + (digits.last() as nat - '0' as nat) as nat
    }
}

/// What a name shares with its siblings, and the number that orders them: none where the name
/// does not end in a number, is one, or ends in one too large to hold.
pub open spec fn indexed_spec(name: Seq<char>) -> Option<(Seq<char>, nat)> {
    let n = stem_len(name) as int;
    let value = number(name.skip(n));
    if n == 0 || n == name.len() || value > u32::MAX {
        None
    } else {
        Some((name.take(n), value))
    }
}

proof fn lemma_stem_len(name: Seq<char>)
    ensures
        stem_len(name) <= name.len(),
        forall|i: int| stem_len(name) <= i < name.len() ==> is_digit(#[trigger] name[i]),
    decreases name.len(),
{
    if name.len() > 0 && is_digit(name.last()) {
        lemma_stem_len(name.drop_last());
        assert forall|i: int| stem_len(name) <= i < name.len() implies is_digit(
            #[trigger] name[i],
        ) by {
            if i < name.len() - 1 {
                assert(name.drop_last()[i] == name[i]);
            }
        }
    }
}

proof fn lemma_number_grows(digits: Seq<char>, n: int)
    requires
        0 <= n <= digits.len(),
    ensures
        number(digits.take(n)) <= number(digits),
    decreases digits.len() - n,
{
    if n < digits.len() {
        lemma_number_grows(digits, n + 1);
        assert(digits.take(n + 1).drop_last() =~= digits.take(n));
    } else {
        assert(digits.take(n) =~= digits);
    }
}

fn parse_number(chars: &Vec<char>, from: usize) -> (r: Option<u32>)
    requires
        from <= chars@.len(),
        forall|i: int| from <= i < chars@.len() ==> is_digit(#[trigger] chars@[i]),
    ensures
        match r {
            Some(n) => n == number(chars@.skip(from as int)),
            None => number(chars@.skip(from as int)) > u32::MAX,
        },
{
    let ghost digits = chars@.skip(from as int);
    let mut value: u64 = 0;
    let mut i: usize = from;
    assert(digits.take(0) =~= Seq::<char>::empty());
    while i < chars.len()
        invariant
            from <= i <= chars@.len(),
            digits == chars@.skip(from as int),
            forall|k: int| from <= k < chars@.len() ==> is_digit(#[trigger] chars@[k]),
            value == number(digits.take(i - from)),
            value <= u32::MAX,
        decreases chars@.len() - i,
    {
        proof {
            assert(digits.take(i + 1 - from).drop_last() =~= digits.take(i - from));
            assert(digits.take(i + 1 - from).last() == chars@[i as int]);
        }
        let d: u64 = chars[i] as u64 - '0' as u64;
        value = value * 10 + d;
        i += 1;
        if value > u32::MAX as u64 {
            proof {
                lemma_number_grows(digits, i - from);
            }
            return None;
        }
    }
    assert(digits.take(chars@.len() - from) =~= digits);
    Some(value as u32)
}

/// Splits a series name into what it shares with its siblings and the number that orders them.
pub fn indexed(name: &str) -> (r: Option<(String, u32)>)
    ensures
        match r {
            Some((stem, n)) => indexed_spec(name@) == Some((stem@, n as nat)),
            None => indexed_spec(name@) is None,
        },
{
    let chars = chars_of(name);
    let mut n: usize = chars.len();
    assert(chars@.take(n as int) =~= chars@);
    while n > 0 && '0' <= chars[n - 1] && chars[n - 1] <= '9'
        invariant
            n <= chars@.len(),
            stem_len(chars@) == stem_len(chars@.take(n as int)),
        decreases n,
    {
        assert(chars@.take(n as int).drop_last() =~= chars@.take(n - 1));
        n -= 1;
    }
    proof {
        lemma_stem_len(chars@);
        assert(n == stem_len(chars@));
    }
    if n == 0 || n == chars.len() {
        return None;
    }
    match parse_number(&chars, n) {
        Some(value) => {
            let stem = text_of(&chars, 0, n);
            assert(stem@ =~= name@.take(n as int));
            Some((stem, value))
        },
        None => None,
    }
}

/// A run of series that differ only by a trailing number, which is what a row of sensors looks
/// like: `CAN_SENSOR[6].slot0` through `slot9` from the IO boards, `tank_temp_1` to `tank_temp_10`
/// from a sensor database.
pub struct SensorGroup {
    pub source: SourceId,
    /// Everything the members share, up to and including the last non-digit.
    pub stem: String,
    /// Trailing number and series name, in ascending numeric order.
    pub members: Vec<(u32, String)>,
    /// Sum of how much each member looks like a temperature.
    pub score: u128,
}

/// Members, as contracts speak of them.
pub open spec fn member_views(members: Seq<(u32, String)>) -> Seq<(u32, Seq<char>)> {
    members.map_values(|m: (u32, String)| (m.0, m.1@))
}

/// The last of the first `n` members that has a number.
pub open spec fn last_numbered(members: Seq<(u32, Seq<char>)>, index: int, n: nat) -> Option<
    Seq<char>,
>
    decreases n,
{
    if n == 0 {
        None
    } else if members[n - 1].0 == index {
        Some(members[n - 1].1)
    } else {
        last_numbered(members, index, (n - 1) as nat)
    }
}

impl SensorGroup {
    pub open spec fn views(self) -> Seq<(u32, Seq<char>)> {
        member_views(self.members@)
    }

    /// The first member has the lowest number.
    pub open spec fn wf(self) -> bool {
        forall|i: int| 0 <= i < self.views().len() ==> self.views()[0].0 <= (
        #[trigger] self.views()[i]).0
    }

    /// The name that the row gives to a height.
    pub open spec fn assigned(self, height: int) -> Option<Seq<char>> {
        if self.views().len() == 0 {
            None
        } else {
            last_numbered(self.views(), self.views()[0].0 + height, self.views().len())
        }
    }

    /// The ten heights this group fills, bottom first.
    ///
    /// The *number* in the name is the height, offset so the lowest-numbered member is the
    /// bottom of the tank. A number the row skips is a height left blank: a disconnected probe
    /// is a hole in the picture, and packing the ones that did report down into it would move
    /// every sensor above it to a height it was never at.
    pub fn assign(&self) -> (r: Vec<Option<SeriesRef>>)
        requires
            self.wf(),
        ensures
            r@.len() == TANK_SENSORS,
            forall|h: int|
                0 <= h < TANK_SENSORS ==> match #[trigger] r@[h] {
                    Some(s) => s.source == self.source && self.assigned(h) == Some(s.series@),
                    None => self.assigned(h) is None,
                },
    {
        let mut out: Vec<Option<SeriesRef>> = Vec::new();
        let mut h: usize = 0;
        while h < TANK_SENSORS
            invariant
                h <= TANK_SENSORS,
                out@.len() == h,
                self.wf(),
                forall|k: int|
                    0 <= k < h ==> match #[trigger] out@[k] {
                        Some(s) => s.source == self.source && self.assigned(k) == Some(s.series@),
                        None => self.assigned(k) is None,
                    },
            decreases TANK_SENSORS - h,
        {
            let mut n: usize = self.members.len();
            let mut found: Option<SeriesRef> = None;
            while n > 0 && found.is_none()
                invariant
                    n <= self.members@.len(),
                    h < TANK_SENSORS,
                    self.wf(),
                    match found {
                        Some(s) => s.source == self.source && self.assigned(h as int) == Some(
                            s.series@,
                        ),
                        None => self.views().len() == 0 || self.assigned(h as int)
                            == last_numbered(
                            self.views(),
                            self.views()[0].0 + h,
                            n as nat,
                        ),
                    },
                decreases n,
            {
                assert(self.views()[n - 1] == (self.members@[n - 1].0, self.members@[n - 1].1@));
                assert(self.views()[0].0 == self.members@[0].0);
                let base: u64 = self.members[0].0 as u64;
                if self.members[n - 1].0 as u64 == base + h as u64 {
                    found = Some(
                        SeriesRef {
                            source: self.source,
                            series: self.members[n - 1].1.as_str().to_owned(),
                        },
                    );
                }
                n -= 1;
            }
            out.push(found);
            h += 1;
        }
        out
    }

    /// How many of the lowest `n` heights this group would fill.
    pub open spec fn filled(self, n: nat) -> nat
        decreases n,
    {
        if n == 0 {
            0
        } else {
            self.filled((n - 1) as nat) + if self.assigned(n - 1) is Some {
                1nat
            } else {
                0nat
            }
        }
    }

    /// How many of the ten heights this group would fill.
    pub open spec fn fill_spec(self) -> nat {
        self.filled(TANK_SENSORS as nat)
    }

    /// How many of the ten heights this group would fill, which is what makes it a better or
    /// worse candidate than another row, since members past the tenth height are dropped either
    /// way, and so is all but one of several at one height.
    pub fn fill(&self) -> (r: usize)
        requires
            self.wf(),
        ensures
            r == self.fill_spec(),
    {
        let heights = self.assign();
        let mut h: usize = 0;
        let mut n: usize = 0;
        while h < TANK_SENSORS
            invariant
                h <= TANK_SENSORS,
                n <= h,
                n == self.filled(h as nat),
                heights@.len() == TANK_SENSORS,
                forall|k: int|
                    0 <= k < TANK_SENSORS ==> ((#[trigger] heights@[k]) is Some <==> self.assigned(k)
                        is Some),
            decreases TANK_SENSORS - h,
        {
            if heights[h].is_some() {
                n += 1;
            }
            h += 1;
        }
        n
    }

    /// What a menu calls the row.
    pub fn label(&self) -> (r: String)
        requires
            self.wf(),
        ensures
            r@ == self.stem@ + "…  ("@ + dec(self.fill_spec()) + " of 10 heights)"@,
    {
        let mut out = self.stem.as_str().to_owned();
        out.append("…  (");
        push_dec(&mut out, self.fill() as u64);
        out.append(" of 10 heights)");
        out
    }
}

/// The series of the source at a position: those of a log, and none otherwise.
pub open spec fn log_series(project: Project, i: int) -> Seq<TimeSeries> {
    match project.sources@[i].kind {
        SourceKind::Log(log) => log.series@,
        _ => Seq::empty(),
    }
}

/// Whether a series may be one of a row of sensors.
pub open spec fn is_sensor(s: TimeSeries) -> bool {
    sensor_score_spec(s) > 0 && indexed_spec(s.name@) is Some
}

/// Whether a series is one of the row of a stem.
pub open spec fn in_row(s: TimeSeries, stem: Seq<char>) -> bool {
    is_sensor(s) && indexed_spec(s.name@).unwrap().0 == stem
}

/// The row of a stem among the first `n` series, in the order in which they stand.
pub open spec fn row_spec(series: Seq<TimeSeries>, stem: Seq<char>, n: nat) -> Seq<
    (u32, Seq<char>),
>
    decreases n,
{
    if n == 0 {
        Seq::empty()
    } else {
        let rest = row_spec(series, stem, (n - 1) as nat);
        let s = series[n - 1];
        if in_row(s, stem) {
            rest.push((indexed_spec(s.name@).unwrap().1 as u32, s.name@))
        } else {
            rest
        }
    }
}

/// How much the row of a stem among the first `n` series looks like temperatures.
pub open spec fn row_score(series: Seq<TimeSeries>, stem: Seq<char>, n: nat) -> nat
    decreases n,
{
    if n == 0 {
        0
    } else {
        row_score(series, stem, (n - 1) as nat) + if in_row(series[n - 1], stem) {
            sensor_score_spec(series[n - 1]) as nat
        } else {
            0nat
        }
    }
}

/// The numbers of a row.
pub open spec fn row_numbers(row: Seq<(u32, Seq<char>)>) -> Seq<i64> {
    row.map_values(|m: (u32, Seq<char>)| m.0 as i64)
}

/// Whether members are a row put in the order of its numbers.
pub open spec fn is_arranged(row: Seq<(u32, Seq<char>)>, members: Seq<(u32, Seq<char>)>) -> bool {
    exists|order: Seq<usize>| #[trigger]
        is_stable_order(row_numbers(row), order) && members == picked(row, order)
}

/// Whether a group is the row of its stem in the source at a position.
pub open spec fn is_group(project: Project, i: int, g: SensorGroup) -> bool {
    let series = log_series(project, i);
    let row = row_spec(series, g.stem@, series.len());
    &&& 0 <= i < project.sources@.len()
    &&& g.source == project.sources@[i].id
    &&& row.len() > 0
    &&& is_arranged(row, g.views())
    &&& g.score == row_score(series, g.stem@, series.len())
}

/// What is known of a series that may be one of a row.
struct Mark {
    stem: String,
    index: u32,
    score: u8,
}

spec fn is_mark(m: Option<Mark>, s: TimeSeries) -> bool {
    match m {
        Some(m) => is_sensor(s) && indexed_spec(s.name@) == Some((m.stem@, m.index as nat))
            && m.score == sensor_score_spec(s) && m.score <= 4,
        None => !is_sensor(s),
    }
}

fn mark(s: &TimeSeries) -> (m: Option<Mark>)
    ensures
        is_mark(m, *s),
{
    let score = sensor_score(s);
    if score == 0 {
        return None;
    }
    match indexed(s.name.as_str()) {
        Some((stem, index)) => Some(Mark { stem, index, score }),
        None => None,
    }
}

fn mark_all(series: &Vec<TimeSeries>) -> (r: Vec<Option<Mark>>)
    ensures
        r@.len() == series@.len(),
        forall|k: int| 0 <= k < series@.len() ==> is_mark(#[trigger] r@[k], series@[k]),
{
    let mut out: Vec<Option<Mark>> = Vec::new();
    let mut k: usize = 0;
    while k < series.len()
        invariant
            k <= series@.len(),
            out@.len() == k,
            forall|i: int| 0 <= i < k ==> is_mark(#[trigger] out@[i], series@[i]),
        decreases series@.len() - k,
    {
        out.push(mark(&series[k]));
        k += 1;
    }
    out
}

/// The row of a stem, and how much it looks like temperatures.
fn row(series: &Vec<TimeSeries>, marks: &Vec<Option<Mark>>, stem: &str) -> (r: (
    Vec<(u32, String)>,
    u128,
))
    requires
        marks@.len() == series@.len(),
        forall|k: int| 0 <= k < series@.len() ==> is_mark(#[trigger] marks@[k], series@[k]),
    ensures
        member_views(r.0@) == row_spec(series@, stem@, series@.len()),
        r.1 == row_score(series@, stem@, series@.len()),
{
    let mut members: Vec<(u32, String)> = Vec::new();
    let mut score: u128 = 0;
    let mut k: usize = 0;
    assert(member_views(members@) =~= Seq::<(u32, Seq<char>)>::empty());
    let total: usize = series.len();
    while k < total
        invariant
            k <= total == series@.len(),
            marks@.len() == series@.len(),
            forall|i: int| 0 <= i < series@.len() ==> is_mark(#[trigger] marks@[i], series@[i]),
            member_views(members@) == row_spec(series@, stem@, k as nat),
            score == row_score(series@, stem@, k as nat),
            score <= 4 * k,
        decreases total - k,
    {
        assert(is_mark(marks@[k as int], series@[k as int]));
        if let Some(m) = &marks[k] {
            if same(m.stem.as_str(), stem) {
                let ghost before = members@;
                members.push((m.index, series[k].name.as_str().to_owned()));
                score = score + m.score as u128;
                proof {
                    assert(member_views(members@) =~= member_views(before).push(
                        (m.index, series@[k as int].name@),
                    ));
                }
            }
        }
        k += 1;
    }
    (members, score)
}

/// A row in the order of its numbers.
fn arranged(members: &Vec<(u32, String)>) -> (r: Vec<(u32, String)>)
    ensures
        is_arranged(member_views(members@), member_views(r@)),
        r@.len() == members@.len(),
{
    let mut keys: Vec<i64> = Vec::new();
    let mut i: usize = 0;
    while i < members.len()
        invariant
            i <= members@.len(),
            keys@.len() == i,
            forall|k: int| 0 <= k < i ==> #[trigger] keys@[k] == members@[k].0,
        decreases members@.len() - i,
    {
        keys.push(members[i].0 as i64);
        i += 1;
    }
    let ghost row = member_views(members@);
    assert(keys@ =~= row_numbers(row));
    let order = stable_order(&keys);
    let mut out: Vec<(u32, String)> = Vec::new();
    let mut j: usize = 0;
    while j < order.len()
        invariant
            j <= order@.len() == members@.len(),
            row == member_views(members@),
            keys@ == row_numbers(row),
            is_stable_order(keys@, order@),
            out@.len() == j,
            forall|k: int|
                0 <= k < j ==> (#[trigger] out@[k]).0 == row[order@[k] as int].0 && out@[k].1@
                    == row[order@[k] as int].1,
        decreases order@.len() - j,
    {
        let at = order[j];
        assert(at < members@.len());
        assert(row[at as int] == (members@[at as int].0, members@[at as int].1@));
        out.push((members[at].0, members[at].1.as_str().to_owned()));
        j += 1;
    }
    assert(member_views(out@) =~= picked(row, order@));
    out
}

proof fn lemma_arranged_starts_lowest(row: Seq<(u32, Seq<char>)>, members: Seq<(u32, Seq<char>)>)
    requires
        is_arranged(row, members),
    ensures
        members.len() == row.len(),
        forall|i: int| 0 <= i < members.len() ==> members[0].0 <= (#[trigger] members[i]).0,
{
    let order = choose|order: Seq<usize>| #[trigger]
        is_stable_order(row_numbers(row), order) && members == picked(row, order);
    assert forall|i: int| 0 <= i < members.len() implies members[0].0 <= (
    #[trigger] members[i]).0 by {
        if i > 0 {
            assert(members[0] == row[order[0] as int]);
            assert(members[i] == row[order[i] as int]);
            assert(row_numbers(row)[order[0] as int] <= row_numbers(row)[order[i] as int]);
        }
    }
}

/// Whether one group is a better guess than another: more of the heights filled, then more like
/// temperatures, then the earlier name.
pub open spec fn better(a: SensorGroup, b: SensorGroup) -> bool {
    ||| a.fill_spec() > b.fill_spec()
    ||| a.fill_spec() == b.fill_spec() && a.score > b.score
    ||| a.fill_spec() == b.fill_spec() && a.score == b.score && lex_lt(a.stem@, b.stem@)
}

/// Whether groups come best first.
pub open spec fn best_first(groups: Seq<SensorGroup>) -> bool {
    forall|r: int, s: int|
        0 <= r < s < groups.len() ==> !better(#[trigger] groups[s], #[trigger] groups[r])
}

/// Whether a group is among those listed.
pub open spec fn listed(groups: Seq<SensorGroup>, source: SourceId, stem: Seq<char>) -> bool {
    exists|r: int|
        0 <= r < groups.len() && (#[trigger] groups[r]).source == source && groups[r].stem@ == stem
}

/// Whether a group is the row of its stem in some source.
pub open spec fn is_row(project: Project, g: SensorGroup) -> bool {
    exists|i: int| #[trigger] is_group(project, i, g)
}

/// Whether groups are rows of a project, none of them twice.
pub open spec fn are_rows(project: Project, groups: Seq<SensorGroup>) -> bool {
    &&& forall|r: int| 0 <= r < groups.len() ==> is_row(project, #[trigger] groups[r])
    &&& forall|r: int, s: int|
        0 <= r < s < groups.len() ==> (#[trigger] groups[r]).source != (
        #[trigger] groups[s]).source || groups[r].stem@ != groups[s].stem@
}

/// Whether groups are all the rows of numbered sensors of a project, best first.
pub open spec fn are_groups(project: Project, groups: Seq<SensorGroup>) -> bool {
    &&& are_rows(project, groups)
    &&& best_first(groups)
    &&& forall|i: int, k: int|
        0 <= i < project.sources@.len() && 0 <= k < log_series(project, i).len() && is_sensor(
            #[trigger] log_series(project, i)[k],
        ) ==> listed(
            groups,
            project.sources@[i].id,
            indexed_spec(log_series(project, i)[k].name@).unwrap().0,
        )
}

proof fn lemma_row_is_ordered(project: Project, g: SensorGroup)
    requires
        is_row(project, g),
    ensures
        g.wf(),
{
    let i = choose|i: int| #[trigger] is_group(project, i, g);
    let series = log_series(project, i);
    lemma_arranged_starts_lowest(row_spec(series, g.stem@, series.len()), g.views());
}

proof fn lemma_not_better_is_transitive(a: SensorGroup, b: SensorGroup, c: SensorGroup)
    requires
        !better(b, a),
        !better(c, b),
    ensures
        !better(c, a),
{
    if lex_lt(c.stem@, a.stem@) {
        lex_lt_total(b.stem@, a.stem@);
        lex_lt_total(c.stem@, b.stem@);
        if lex_lt(a.stem@, b.stem@) {
            lex_lt_transitive(c.stem@, a.stem@, b.stem@);
        }
    }
}

proof fn lemma_not_better_both_ways(a: SensorGroup, b: SensorGroup)
    requires
        better(a, b),
    ensures
        !better(b, a),
{
    if lex_lt(a.stem@, b.stem@) {
        lex_lt_asymmetric(a.stem@, b.stem@);
    }
}

fn is_better(a: &SensorGroup, b: &SensorGroup) -> (r: bool)
    requires
        a.wf(),
        b.wf(),
    ensures
        r == better(*a, *b),
{
    let x = a.fill();
    let y = b.fill();
    if x != y {
        return x > y;
    }
    if a.score != b.score {
        return a.score > b.score;
    }
    let s = chars_of(a.stem.as_str());
    let t = chars_of(b.stem.as_str());
    lex_less(&s, &t)
}

/// Puts a group where it belongs among others.
fn insert_group(groups: &mut Vec<SensorGroup>, g: SensorGroup) -> (at: usize)
    requires
        best_first(old(groups)@),
        forall|r: int| 0 <= r < old(groups)@.len() ==> (#[trigger] old(groups)@[r]).wf(),
        g.wf(),
    ensures
        at <= old(groups)@.len(),
        final(groups)@ == old(groups)@.insert(at as int, g),
        best_first(final(groups)@),
{
    let ghost before = groups@;
    let mut at: usize = 0;
    while at < groups.len() && !is_better(&g, &groups[at])
        invariant
            at <= groups@.len(),
            groups@ == before,
            g.wf(),
            forall|r: int| 0 <= r < groups@.len() ==> (#[trigger] groups@[r]).wf(),
            forall|r: int| 0 <= r < at ==> !better(g, #[trigger] groups@[r]),
        decreases groups@.len() - at,
    {
        at += 1;
    }
    groups.insert(at, g);
    proof {
        let after = before.insert(at as int, g);
        assert(groups@ == after);
        assert forall|r: int, s: int| 0 <= r < s < after.len() implies !better(
            #[trigger] after[s],
            #[trigger] after[r],
        ) by {
            let x = if r <= at {
                r
            } else {
                r - 1
            };
            let y = if s < at {
                s
            } else {
                s - 1
            };
            if r == at {
                assert(after[s] == before[s - 1]);
                assert(better(g, before[at as int]));
                lemma_not_better_both_ways(g, before[at as int]);
                if s - 1 > at {
                    lemma_not_better_is_transitive(g, before[at as int], before[s - 1]);
                }
            } else if s == at {
                assert(after[r] == before[r]);
            } else {
                assert(after[r] == before[x]);
                assert(after[s] == before[y]);
                assert(x < y);
            }
        }
    }
    at
}

fn is_listed(groups: &Vec<SensorGroup>, source: SourceId, stem: &str) -> (b: bool)
    ensures
        b == listed(groups@, source, stem@),
{
    let mut r: usize = 0;
    while r < groups.len()
        invariant
            r <= groups@.len(),
            forall|k: int|
                0 <= k < r ==> (#[trigger] groups@[k]).source != source || groups@[k].stem@ != stem@,
        decreases groups@.len() - r,
    {
        if groups[r].source == source && same(groups[r].stem.as_str(), stem) {
            return true;
        }
        r += 1;
    }
    false
}

proof fn lemma_insert_row(project: Project, before: Seq<SensorGroup>, at: int, g: SensorGroup)
    requires
        are_rows(project, before),
        is_row(project, g),
        !listed(before, g.source, g.stem@),
        0 <= at <= before.len(),
    ensures
        are_rows(project, before.insert(at, g)),
        listed(before.insert(at, g), g.source, g.stem@),
        forall|source: SourceId, stem: Seq<char>|
            listed(before, source, stem) ==> #[trigger] listed(
                before.insert(at, g),
                source,
                stem,
            ),
{
    let after = before.insert(at, g);
    assert(after[at] == g);
    assert forall|r: int| 0 <= r < after.len() implies is_row(project, #[trigger] after[r]) by {
        if r < at {
            assert(after[r] == before[r]);
        } else if r > at {
            assert(after[r] == before[r - 1]);
        }
    }
    assert forall|r: int, s: int| 0 <= r < s < after.len() implies (#[trigger] after[r]).source != (
    #[trigger] after[s]).source || after[r].stem@ != after[s].stem@ by {
        let x = if r < at {
            r
        } else {
            r - 1
        };
        let y = if s < at {
            s
        } else {
            s - 1
        };
        if r != at {
            assert(after[r] == before[x]);
        }
        if s != at {
            assert(after[s] == before[y]);
        }
    }
    assert forall|source: SourceId, stem: Seq<char>| listed(before, source, stem) implies
        #[trigger] listed(after, source, stem) by {
        let r = choose|r: int|
            0 <= r < before.len() && (#[trigger] before[r]).source == source && before[r].stem@
                == stem;
        let x = if r < at {
            r
        } else {
            r + 1
        };
        assert(after[x] == before[r]);
    }
}

proof fn lemma_row_holds(series: Seq<TimeSeries>, stem: Seq<char>, n: nat, k: int)
    requires
        0 <= k < n,
        in_row(series[k], stem),
    ensures
        row_spec(series, stem, n).len() > 0,
    decreases n,
{
    if k < n - 1 {
        lemma_row_holds(series, stem, (n - 1) as nat, k);
    }
}

/// The rows that the first series of one source make, beside those already found.
fn add_rows(project: &Project, i: usize, groups: &mut Vec<SensorGroup>)
    requires
        i < project.sources@.len(),
        are_rows(*project, old(groups)@),
        best_first(old(groups)@),
    ensures
        are_rows(*project, final(groups)@),
        best_first(final(groups)@),
        forall|source: SourceId, stem: Seq<char>|
            listed(old(groups)@, source, stem) ==> #[trigger] listed(
                final(groups)@,
                source,
                stem,
            ),
        forall|k: int|
            0 <= k < log_series(*project, i as int).len() && is_sensor(
                #[trigger] log_series(*project, i as int)[k],
            ) ==> listed(
                final(groups)@,
                project.sources@[i as int].id,
                indexed_spec(log_series(*project, i as int)[k].name@).unwrap().0,
            ),
{
    let source = &project.sources[i];
    let log = match &source.kind {
        SourceKind::Log(log) => log,
        _ => return,
    };
    let marks = mark_all(&log.series);
    let ghost before = groups@;
    let ghost series = log.series@;
    let mut k: usize = 0;
    while k < log.series.len()
        invariant
            k <= series.len(),
            i < project.sources@.len(),
            source == project.sources@[i as int],
            source.kind == SourceKind::Log(*log),
            series == log.series@,
            marks@.len() == series.len(),
            forall|j: int| 0 <= j < series.len() ==> is_mark(#[trigger] marks@[j], series[j]),
            are_rows(*project, groups@),
            best_first(groups@),
            forall|id: SourceId, stem: Seq<char>|
                listed(before, id, stem) ==> #[trigger] listed(groups@, id, stem),
            forall|j: int|
                0 <= j < k && is_sensor(#[trigger] series[j]) ==> listed(
                    groups@,
                    source.id,
                    indexed_spec(series[j].name@).unwrap().0,
                ),
        decreases series.len() - k,
    {
        assert(is_mark(marks@[k as int], series[k as int]));
        if let Some(m) = &marks[k] {
            if !is_listed(groups, source.id, m.stem.as_str()) {
                let (members, score) = row(&log.series, &marks, m.stem.as_str());
                let members = arranged(&members);
                let g = SensorGroup {
                    source: source.id,
                    stem: m.stem.as_str().to_owned(),
                    members,
                    score,
                };
                let ghost earlier = groups@;
                proof {
                    lemma_row_holds(series, g.stem@, series.len(), k as int);
                    assert(log_series(*project, i as int) == series);
                    assert(is_group(*project, i as int, g));
                    lemma_row_is_ordered(*project, g);
                    assert forall|r: int| 0 <= r < groups@.len() implies (
                    #[trigger] groups@[r]).wf() by {
                        lemma_row_is_ordered(*project, groups@[r]);
                    }
                }
                let ghost put = g;
                let at = insert_group(groups, g);
                proof {
                    lemma_insert_row(*project, earlier, at as int, put);
                }
            }
        }
        k += 1;
    }
}

/// Every run of numbered temperature-like series in the project, best first: by the heights it
/// would fill, then by how strongly it looks like temperatures, then by name. So the list is
/// stable from one frame to the next and the first entry is what a pane opens on.
pub fn sensor_groups(project: &Project) -> (r: Vec<SensorGroup>)
    ensures
        are_groups(*project, r@),
        forall|k: int| 0 <= k < r@.len() ==> (#[trigger] r@[k]).wf(),
{
    let mut groups: Vec<SensorGroup> = Vec::new();
    let mut i: usize = 0;
    while i < project.sources.len()
        invariant
            i <= project.sources@.len(),
            are_rows(*project, groups@),
            best_first(groups@),
            forall|a: int, k: int|
                0 <= a < i && 0 <= k < log_series(*project, a).len() && is_sensor(
                    #[trigger] log_series(*project, a)[k],
                ) ==> listed(
                    groups@,
                    project.sources@[a].id,
                    indexed_spec(log_series(*project, a)[k].name@).unwrap().0,
                ),
        decreases project.sources@.len() - i,
    {
        add_rows(project, i, &mut groups);
        i += 1;
    }
    proof {
        assert forall|k: int| 0 <= k < groups@.len() implies (#[trigger] groups@[k]).wf() by {
            lemma_row_is_ordered(*project, groups@[k]);
        }
    }
    groups
}

/// A row that is not of temperatures is not offered: no member of a group declares a unit of
/// something else.
pub proof fn nothing_else_is_offered(project: Project, i: int, g: SensorGroup, m: int)
    requires
        is_group(project, i, g),
        0 <= m < g.views().len(),
    ensures
        exists|k: int|
            0 <= k < log_series(project, i).len() && (#[trigger] log_series(project, i)[k]).name@
                == g.views()[m].1 && sensor_score_spec(log_series(project, i)[k]) > 0,
{
    let series = log_series(project, i);
    let row = row_spec(series, g.stem@, series.len());
    let order = choose|order: Seq<usize>| #[trigger]
        is_stable_order(row_numbers(row), order) && g.views() == picked(row, order);
    assert(g.views()[m] == row[order[m] as int]);
    lemma_row_is_of_sensors(series, g.stem@, series.len(), order[m] as int);
}

proof fn lemma_row_is_of_sensors(series: Seq<TimeSeries>, stem: Seq<char>, n: nat, m: int)
    requires
        n <= series.len(),
        0 <= m < row_spec(series, stem, n).len(),
    ensures
        exists|k: int|
            0 <= k < n && (#[trigger] series[k]).name@ == row_spec(series, stem, n)[m].1
                && in_row(series[k], stem),
    decreases n,
{
    let rest = row_spec(series, stem, (n - 1) as nat);
    if m < rest.len() {
        lemma_row_is_of_sensors(series, stem, (n - 1) as nat, m);
        let k = choose|k: int|
            0 <= k < n - 1 && (#[trigger] series[k]).name@ == rest[m].1 && in_row(series[k], stem);
        assert(series[k].name@ == rest[m].1);
    } else {
        assert(series[n - 1].name@ == row_spec(series, stem, n)[m].1);
    }
}

/// A number that a row skips is a height left blank, and one that it has is the height of the
/// member with that number, counted from the lowest.
pub proof fn the_number_is_the_height(g: SensorGroup, height: int)
    requires
        g.views().len() > 0,
    ensures
        g.assigned(height) is None <==> forall|m: int|
            0 <= m < g.views().len() ==> (#[trigger] g.views()[m]).0 != g.views()[0].0 + height,
        g.assigned(height) is Some ==> exists|m: int|
            0 <= m < g.views().len() && (#[trigger] g.views()[m]).0 == g.views()[0].0 + height
                && g.assigned(height) == Some(g.views()[m].1),
{
    lemma_last_numbered(g.views(), g.views()[0].0 + height, g.views().len());
}

proof fn lemma_last_numbered(members: Seq<(u32, Seq<char>)>, index: int, n: nat)
    requires
        n <= members.len(),
    ensures
        last_numbered(members, index, n) is None <==> forall|m: int|
            0 <= m < n ==> (#[trigger] members[m]).0 != index,
        last_numbered(members, index, n) is Some ==> exists|m: int|
            0 <= m < n && (#[trigger] members[m]).0 == index && last_numbered(members, index, n)
                == Some(members[m].1),
    decreases n,
{
    if n > 0 {
        lemma_last_numbered(members, index, (n - 1) as nat);
        if members[n - 1].0 != index && last_numbered(members, index, n) is Some {
            let m = choose|m: int|
                0 <= m < n - 1 && (#[trigger] members[m]).0 == index && last_numbered(
                    members,
                    index,
                    (n - 1) as nat,
                ) == Some(members[m].1);
            assert(members[m].0 == index);
        }
    }
}

} // verus!
