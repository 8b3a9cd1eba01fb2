//! The nitrous oxide phase pane: which temperature it pairs with which pressure, and what of the
//! pairs can be held against the saturation curve.
use vstd::prelude::*;

use crate::colors::Rgb;
use crate::double::Double;
use crate::model::{Project, SourceId};
use crate::n2o::Phase;
pub use crate::picker::{guess_series, shared_group, SeriesRef};
use crate::picker::{
    follow, is_best, is_best_pair, is_pair, is_series, ref_to, ref_view, score_at,
    shared_group_spec, target, target_series,
};
use crate::series::{Reading, Sample, TimeSeries};
use crate::text::{dec, opt_view, push_dec};
pub use crate::units::{PressureUnit, TempUnit};

verus! {

broadcast use vstd::seq_lib::group_seq_properties;

pub type VaporId = u64;

/// Same order of magnitude as a graph pane's budget; the state trace is one line plus its zones.
pub const TARGET_POINTS: usize = 1500;

/// The colours of the phases.
pub fn phase_color(phase: Phase) -> (c: Rgb)
    ensures
        (c.r, c.g, c.b) == match phase {
            Phase::Liquid => (0x4Cu8, 0x9Au8, 0xFFu8),
            Phase::Saturated => (0x4Cu8, 0xD9u8, 0x7Bu8),
            Phase::Vapor => (0xFFu8, 0x8Au8, 0x3Du8),
            Phase::Supercritical => (0xB0u8, 0x7Bu8, 0xFFu8),
            Phase::BelowTriple => (0x99u8, 0x99u8, 0x99u8),
        },
{
    match phase {
        Phase::Liquid => Rgb { r: 0x4C, g: 0x9A, b: 0xFF },
        Phase::Saturated => Rgb { r: 0x4C, g: 0xD9, b: 0x7B },
        Phase::Vapor => Rgb { r: 0xFF, g: 0x8A, b: 0x3D },
        Phase::Supercritical => Rgb { r: 0xB0, g: 0x7B, b: 0xFF },
        Phase::BelowTriple => Rgb { r: 0x99, g: 0x99, b: 0x99 },
    }
}

#[derive(Clone, Copy, PartialEq, Eq, Structural, Debug)]
pub enum VaporMode {
    /// Distance from the curve, against time: shares the master timeline.
    State,
    /// Pressure against temperature: the curve itself, with the run drawn on it. With nothing
    /// selected this is just the curve.
    Curve,
}

pub struct VaporSpec {
    pub id: VaporId,
    pub temperature: Option<SeriesRef>,
    pub pressure: Option<SeriesRef>,
    pub t_unit: TempUnit,
    pub p_unit: PressureUnit,
    /// The pressure series reads against ambient, so ambient has to be added back before it can
    /// be compared with a vapour pressure. Getting this wrong moves every point by a bar, which
    /// at tank pressures is about the width of the saturated band; so it is a switch, not an
    /// assumption.
    pub gauge: bool,
    /// Half-width of the "call it saturated" band, as a percentage of the vapour pressure.
    pub band_percent: Double,
    pub mode: VaporMode,
    /// Bounds of the curve view, once the user has panned or zoomed it. The curve's axes are
    /// temperature and pressure, so unlike every other pane here it does not follow the master
    /// timeline and has to keep its own.
    pub curve_view: Option<(Double, Double, Double, Double)>,
    pub t_filter: String,
    pub p_filter: String,
}

/// Whether a reference is to a source.
pub open spec fn refers_to(r: Option<SeriesRef>, source: SourceId) -> bool {
    match r {
        Some(r) => r.source == source,
        None => false,
    }
}

fn is_of(r: &Option<SeriesRef>, source: SourceId) -> (b: bool)
    ensures
        b == refers_to(*r, source),
{
    match r {
        Some(r) => r.source == source,
        None => false,
    }
}

/// The unit that the series of a reference declares.
pub open spec fn declared_unit(project: Project, r: SeriesRef) -> Option<Seq<char>> {
    match target(project, r) {
        Some(at) => opt_view(target_series(project, at).unit),
        None => None,
    }
}

fn temperature_unit(project: &Project, r: &SeriesRef) -> (u: Option<TempUnit>)
    requires
        project.wf(),
    ensures
        u == TempUnit::declared(declared_unit(*project, *r)),
{
    match follow(project, r) {
        Some((s, _)) => match &s.unit {
            Some(unit) => TempUnit::from_series_unit(Some(unit.as_str())),
            None => None,
        },
        None => None,
    }
}

fn pressure_unit(project: &Project, r: &SeriesRef) -> (u: Option<PressureUnit>)
    requires
        project.wf(),
    ensures
        u == PressureUnit::declared(declared_unit(*project, *r)),
{
    match follow(project, r) {
        Some((s, _)) => match &s.unit {
            Some(unit) => PressureUnit::from_series_unit(Some(unit.as_str())),
            None => None,
        },
        None => None,
    }
}

/// Why there is nothing to draw.
#[derive(Clone, Copy, PartialEq, Eq, Structural, Debug)]
pub enum Problem {
    Unpicked,
    Gone,
    NoSamples,
    NoOverlap,
}

impl Problem {
    pub fn message(self) -> (r: &'static str)
        ensures
            r@ == match self {
                Problem::Unpicked => "Pick a temperature and a pressure series above."@,
                Problem::Gone => "One of the series is no longer loaded."@,
                Problem::NoSamples => "Neither series has samples in this time window."@,
                Problem::NoOverlap => "The two series do not overlap in this time window."@,
            },
    {
        match self {
            Problem::Unpicked => "Pick a temperature and a pressure series above.",
            Problem::Gone => "One of the series is no longer loaded.",
            Problem::NoSamples => "Neither series has samples in this time window.",
            Problem::NoOverlap => "The two series do not overlap in this time window.",
        }
    }
}

/// One measurement of the denser series, and what the other one was then.
#[derive(Clone, Copy, PartialEq, Eq, Structural, Debug)]
pub struct Pair {
    pub t: i64,
    pub value: Double,
    pub other: Reading,
}

/// The two series of a pane, paired up.
pub struct Pairs {
    /// Whether the measurements are temperatures and the other series the pressure.
    pub temperature_is_base: bool,
    pub pairs: Vec<Pair>,
}

/// The slice of a series that a pane pairs up.
pub open spec fn slice_of(s: TimeSeries, offset: i64, window: (i64, i64)) -> Seq<Sample> {
    let t0 = window.0 - offset;
    let t1 = window.1 - offset;
    TimeSeries::moved(
        TimeSeries::covered(s.level_for(s.levels().len(), t0, t1, TARGET_POINTS as int), t0, t1),
        offset,
    )
}

/// Whether an instant lies within a series, ends included.
pub open spec fn inside(s: TimeSeries, offset: i64, t: int) -> bool {
    match s.time_bounds_spec() {
        Some((lo, hi)) => lo + offset <= t <= hi + offset,
        None => false,
    }
}

/// The first `n` measurements, each with what the other series was then. Where the other series
/// has not started, or has ended, there is no pair to be made: holding its first or last value
/// would invent a phase out of nothing.
pub open spec fn pairs_spec(base: Seq<Sample>, other: TimeSeries, offset: i64, n: nat) -> Seq<Pair>
    decreases n,
{
    if n == 0 {
        Seq::empty()
    } else {
        let rest = pairs_spec(base, other, offset, (n - 1) as nat);
        let p = base[n - 1];
        if inside(other, offset, p.0 as int) {
            rest.push(
                Pair {
                    t: p.0,
                    value: p.1,
                    other: other.reading_spec(p.0 - offset).unwrap(),
                },
            )
        } else {
            rest
        }
    }
}

/// Every pair lies where both series do.
pub proof fn nothing_is_paired_beyond_the_other_series(
    base: Seq<Sample>,
    other: TimeSeries,
    offset: i64,
    n: nat,
    i: int,
)
    requires
        0 <= i < pairs_spec(base, other, offset, n).len(),
    ensures
        inside(other, offset, pairs_spec(base, other, offset, n)[i].t as int),
    decreases n,
{
    if n > 0 {
        let rest = pairs_spec(base, other, offset, (n - 1) as nat);
        if i < rest.len() {
            nothing_is_paired_beyond_the_other_series(base, other, offset, (n - 1) as nat, i);
        }
    }
}

fn is_inside(s: &TimeSeries, offset: i64, t: i64) -> (r: bool)
    requires
        s.fits(offset),
    ensures
        r == inside(*s, offset, t as int),
{
    match s.time_bounds() {
        Some((lo, hi)) => {
            let a: i128 = lo as i128 + offset as i128;
            let b: i128 = hi as i128 + offset as i128;
            a <= t as i128 && t as i128 <= b
        },
        None => false,
    }
}

fn pair_up(base: &Vec<Sample>, other: &TimeSeries, offset: i64) -> (r: Vec<Pair>)
    requires
        other.wf(),
        other.fits(offset),
    ensures
        r@ == pairs_spec(base@, *other, offset, base@.len()),
{
    let mut out: Vec<Pair> = Vec::new();
    let mut n: usize = 0;
    while n < base.len()
        invariant
            n <= base@.len(),
            other.wf(),
            other.fits(offset),
            out@ == pairs_spec(base@, *other, offset, n as nat),
        decreases base@.len() - n,
    {
        let (t, value) = base[n];
        if is_inside(other, offset, t) {
            if let Some(reading) = other.value_at(t, offset) {
                out.push(Pair { t, value, other: reading });
            }
        }
        n += 1;
    }
    out
}

/// What [`VaporSpec::prepare`] pairs up, once both series are there.
pub open spec fn prepared_spec(
    t: (TimeSeries, i64),
    p: (TimeSeries, i64),
    window: (i64, i64),
) -> Result<(bool, Seq<Pair>), Problem> {
    let t_points = slice_of(t.0, t.1, window);
    let p_points = slice_of(p.0, p.1, window);
    if t_points.len() == 0 || p_points.len() == 0 {
        Err(Problem::NoSamples)
    } else {
        let by_temperature = t_points.len() >= p_points.len();
        let pairs = if by_temperature {
            pairs_spec(t_points, p.0, p.1, t_points.len())
        } else {
            pairs_spec(p_points, t.0, t.1, p_points.len())
        };
        if pairs.len() == 0 {
            Err(Problem::NoOverlap)
        } else {
            Ok((by_temperature, pairs))
        }
    }
}

/// The result of pairing up, as contracts speak of it.
pub open spec fn pairs_view(r: Result<Pairs, Problem>) -> Result<(bool, Seq<Pair>), Problem> {
    match r {
        Ok(p) => Ok((p.temperature_is_base, p.pairs@)),
        Err(e) => Err(e),
    }
}

/// The series of a target and its source's offset.
pub open spec fn moved_series(project: Project, at: (int, int)) -> (TimeSeries, i64) {
    (target_series(project, at), project.sources@[at.0].offset)
}

/// Standard atmosphere in pascals, added to a gauge reading to get an absolute one.
pub const AMBIENT_PA: u32 = 101_325;

impl VaporSpec {
    /// What a reading of the pressure series is below the absolute pressure, in pascals.
    pub fn ambient(&self) -> (r: u32)
        ensures
            r == if self.gauge {
                AMBIENT_PA
            } else {
                0
            },
    {
        if self.gauge {
            AMBIENT_PA
        } else {
            0
        }
    }

    /// What [`VaporSpec::title`] returns.
    pub open spec fn title_spec(self) -> Seq<char> {
        match (self.temperature, self.pressure) {
            (Some(t), Some(p)) => match shared_group_spec(t.series@, p.series@) {
                Some(group) => "N₂O · "@ + group,
                None => "N₂O phase"@,
            },
            _ => "N₂O vapour pressure"@,
        }
    }

    /// The pane's name: after what the two series have in common.
    pub fn title(&self) -> (r: String)
        ensures
            r@ == self.title_spec(),
    {
        match (&self.temperature, &self.pressure) {
            (Some(t), Some(p)) => match shared_group(t.series.as_str(), p.series.as_str()) {
                Some(group) => {
                    let mut out = "N₂O · ".to_owned();
                    out.append(group.as_str());
                    out
                },
                None => "N₂O phase".to_owned(),
            },
            _ => "N₂O vapour pressure".to_owned(),
        }
    }

    /// Whether this pane draws anything belonging to a source.
    pub fn uses(&self, source: SourceId) -> (r: bool)
        ensures
            r == (refers_to(self.temperature, source) || refers_to(self.pressure, source)),
    {
        is_of(&self.temperature, source) || is_of(&self.pressure, source)
    }

    /// Whether two panes agree in everything but what they point at.
    pub open spec fn same_settings(self, other: VaporSpec) -> bool {
        &&& self.id == other.id
        &&& self.t_unit == other.t_unit
        &&& self.p_unit == other.p_unit
        &&& self.gauge == other.gauge
        &&& self.band_percent == other.band_percent
        &&& self.mode == other.mode
        &&& self.curve_view == other.curve_view
        &&& self.t_filter == other.t_filter
        &&& self.p_filter == other.p_filter
    }

    /// Whether a pane is another without what it was pointed at of a source.
    pub open spec fn without_source(self, before: VaporSpec, source: SourceId) -> bool {
        &&& self.same_settings(before)
        &&& ref_view(self.temperature) == if refers_to(before.temperature, source) {
            None
        } else {
            ref_view(before.temperature)
        }
        &&& ref_view(self.pressure) == if refers_to(before.pressure, source) {
            None
        } else {
            ref_view(before.pressure)
        }
    }

    /// Forgets series from a source that is being unloaded. The pane stays: the curve is still
    /// worth looking at, and the user can point it at another log.
    pub fn forget_source(&mut self, source: SourceId)
        ensures
            final(self).without_source(*old(self), source),
    {
        if is_of(&self.temperature, source) {
            self.temperature = None;
        }
        if is_of(&self.pressure, source) {
            self.pressure = None;
        }
    }

    /// Points the pane at another temperature. A newly picked series brings its own declared
    /// unit with it, which is nearly always the right one.
    pub fn pick_temperature(&mut self, project: &Project, r: SeriesRef)
        requires
            project.wf(),
        ensures
            final(self).temperature == Some(r),
            final(self).t_unit == match TempUnit::declared(declared_unit(*project, r)) {
                Some(unit) => unit,
                None => old(self).t_unit,
            },
            *final(self) == (VaporSpec {
                temperature: final(self).temperature,
                t_unit: final(self).t_unit,
                ..*old(self)
            }),
    {
        if let Some(unit) = temperature_unit(project, &r) {
            self.t_unit = unit;
        }
        self.temperature = Some(r);
    }

    /// Points the pane at another pressure.
    pub fn pick_pressure(&mut self, project: &Project, r: SeriesRef)
        requires
            project.wf(),
        ensures
            final(self).pressure == Some(r),
            final(self).p_unit == match PressureUnit::declared(declared_unit(*project, r)) {
                Some(unit) => unit,
                None => old(self).p_unit,
            },
            *final(self) == (VaporSpec {
                pressure: final(self).pressure,
                p_unit: final(self).p_unit,
                ..*old(self)
            }),
    {
        if let Some(unit) = pressure_unit(project, &r) {
            self.p_unit = unit;
        }
        self.pressure = Some(r);
    }

    /// Pairs the two series up over a window.
    ///
    /// The two are logged independently, at their own rates, so one of them has to be
    /// interpolated onto the other's timestamps. The denser one in this window wins, since
    /// interpolating the sparse one loses less.
    pub fn prepare(&self, project: &Project, window: (i64, i64)) -> (r: Result<Pairs, Problem>)
        requires
            project.wf(),
        ensures
            pairs_view(r) == match (self.temperature, self.pressure) {
                (Some(t), Some(p)) => match (target(*project, t), target(*project, p)) {
                    (Some(t_at), Some(p_at)) => prepared_spec(
                        moved_series(*project, t_at),
                        moved_series(*project, p_at),
                        window,
                    ),
                    _ => Err(Problem::Gone),
                },
                _ => Err(Problem::Unpicked),
            },
    {
        let (t_ref, p_ref) = match (&self.temperature, &self.pressure) {
            (Some(t), Some(p)) => (t, p),
            _ => return Err(Problem::Unpicked),
        };
        let (t_series, t_offset) = match follow(project, t_ref) {
            Some(found) => found,
            None => return Err(Problem::Gone),
        };
        let (p_series, p_offset) = match follow(project, p_ref) {
            Some(found) => found,
            None => return Err(Problem::Gone),
        };
        let t_points = t_series.slice_for_range(window.0, window.1, t_offset, TARGET_POINTS);
        let p_points = p_series.slice_for_range(window.0, window.1, p_offset, TARGET_POINTS);
        if t_points.len() == 0 || p_points.len() == 0 {
            return Err(Problem::NoSamples);
        }
        let temperature_is_base = t_points.len() >= p_points.len();
        let pairs = if temperature_is_base {
            pair_up(&t_points, p_series, p_offset)
        } else {
            pair_up(&p_points, t_series, t_offset)
        };
        if pairs.len() == 0 {
            return Err(Problem::NoOverlap);
        }
        Ok(Pairs { temperature_is_base, pairs })
    }

    /// The two readings at one instant, for the readout that follows the playhead.
    pub open spec fn readings_spec(self, project: Project, t: int) -> Option<(Reading, Reading)> {
        match (self.temperature, self.pressure) {
            (Some(tr), Some(pr)) => match (target(project, tr), target(project, pr)) {
                (Some(t_at), Some(p_at)) => {
                    let (ts, to) = moved_series(project, t_at);
                    let (ps, po) = moved_series(project, p_at);
                    if inside(ts, to, t) && inside(ps, po, t) {
                        Some(
                            (ts.reading_spec(t - to).unwrap(), ps.reading_spec(t - po).unwrap()),
                        )
                    } else {
                        None
                    }
                },
                _ => None,
            },
            _ => None,
        }
    }

    /// The two readings at one instant, where both series cover it.
    pub fn readings_at(&self, project: &Project, t: i64) -> (r: Option<(Reading, Reading)>)
        requires
            project.wf(),
        ensures
            r == self.readings_spec(*project, t as int),
    {
        let (t_ref, p_ref) = match (&self.temperature, &self.pressure) {
            (Some(t), Some(p)) => (t, p),
            _ => return None,
        };
        let (t_series, t_offset) = match follow(project, t_ref) {
            Some(found) => found,
            None => return None,
        };
        let (p_series, p_offset) = match follow(project, p_ref) {
            Some(found) => found,
            None => return None,
        };
        if !is_inside(t_series, t_offset, t) || !is_inside(p_series, p_offset, t) {
            return None;
        }
        match (t_series.value_at(t, t_offset), p_series.value_at(t, p_offset)) {
            (Some(a), Some(b)) => Some((a, b)),
            _ => None,
        }
    }
}

/// Every phase pane the user has opened, and the only place their ids are minted.
pub struct Vapors {
    pub list: Vec<VaporSpec>,
    pub next_id: VaporId,
}

/// The position of the pane of an id, from `from` on.
pub open spec fn vapor_from(list: Seq<VaporSpec>, id: VaporId, from: int) -> Option<int>
    decreases list.len() - from,
{
    if from < 0 || from >= list.len() {
        None
    } else if list[from].id == id {
        Some(from)
    } else {
        vapor_from(list, id, from + 1)
    }
}

/// Whether a pane points where a guess pointed.
pub open spec fn points_at_guess(spec: VaporSpec, project: Project) -> bool {
    &&& forall|i: int, t: int, p: int| #[trigger]
        is_best_pair(project, i, t, p) ==> ref_view(spec.temperature) == Some(ref_to(project, i, t))
            && ref_view(spec.pressure) == Some(ref_to(project, i, p))
    &&& (forall|a: int, b: int, c: int| !#[trigger] is_pair(project, a, b, c)) ==> {
        &&& forall|i: int, k: int| #[trigger]
            is_best(project, i, k, true) ==> ref_view(spec.temperature) == Some(
                ref_to(project, i, k),
            )
        &&& forall|i: int, k: int| #[trigger]
            is_best(project, i, k, false) ==> ref_view(spec.pressure) == Some(ref_to(project, i, k))
        &&& (forall|i: int, k: int| #[trigger]
            is_series(project, i, k) ==> score_at(project, i, k, true) == 0) ==> spec.temperature
            is None
        &&& (forall|i: int, k: int| #[trigger]
            is_series(project, i, k) ==> score_at(project, i, k, false) == 0) ==> spec.pressure
            is None
    }
}

impl Default for Vapors {
    fn default() -> (r: Self)
        ensures
            r.wf(),
            r.list@.len() == 0,
            r.next_id == 0,
    {
        Vapors::new()
    }
}

impl Vapors {
    /// Panes under ids of their own, each given out before.
    pub open spec fn wf(self) -> bool {
        &&& forall|i: int| 0 <= i < self.list@.len() ==> (#[trigger] self.list@[i]).id < self.next_id
        &&& forall|i: int, j: int|
            0 <= i < j < self.list@.len() ==> (#[trigger] self.list@[i]).id != (
            #[trigger] self.list@[j]).id
    }

    pub fn new() -> (r: Self)
        ensures
            r.wf(),
            r.list@.len() == 0,
            r.next_id == 0,
    {
        Vapors { list: Vec::new(), next_id: 0 }
    }

    /// The position of the pane of an id.
    pub open spec fn find_spec(self, id: VaporId) -> Option<int> {
        vapor_from(self.list@, id, 0)
    }

    /// The position of the pane of an id.
    pub fn find(&self, id: VaporId) -> (r: Option<usize>)
        ensures
            match r {
                Some(i) => self.find_spec(id) == Some(i as int) && i < self.list@.len()
                    && self.list@[i as int].id == id,
                None => self.find_spec(id) is None && forall|k: int|
                    0 <= k < self.list@.len() ==> (#[trigger] self.list@[k]).id != id,
            },
    {
        let mut i: usize = 0;
        while i < self.list.len()
            invariant
                i <= self.list@.len(),
                self.find_spec(id) == vapor_from(self.list@, id, i as int),
                forall|k: int| 0 <= k < i ==> (#[trigger] self.list@[k]).id != id,
            decreases self.list@.len() - i,
        {
            if self.list[i].id == id {
                return Some(i);
            }
            i += 1;
        }
        None
    }

    /// The pane of an id.
    pub fn get(&self, id: VaporId) -> (r: Option<&VaporSpec>)
        ensures
            match r {
                Some(p) => self.find_spec(id) is Some && *p
                    == self.list@[self.find_spec(id).unwrap()],
                None => self.find_spec(id) is None,
            },
    {
        match self.find(id) {
            Some(i) => Some(&self.list[i]),
            None => None,
        }
    }

    /// The pane of an id, to be changed in place. The others stay.
    pub fn get_mut(&mut self, id: VaporId) -> (r: Option<&mut VaporSpec>)
        ensures
            match r {
                Some(p) => {
                    &&& old(self).find_spec(id) is Some
                    &&& *p == old(self).list@[old(self).find_spec(id).unwrap()]
                    &&& final(self).list@ == old(self).list@.update(
                        old(self).find_spec(id).unwrap(),
                        *final(p),
                    )
                    &&& final(self).next_id == old(self).next_id
                },
                None => old(self).find_spec(id) is None && *final(self) == *old(self),
            },
    {
        match self.find(id) {
            Some(i) => Some(&mut self.list[i]),
            None => None,
        }
    }

    /// Whether `after` is `before` with a new pane, pointed at the most likely pair of series.
    pub open spec fn created(before: Vapors, after: Vapors, project: Project) -> bool {
        let spec = after.list@.last();
        &&& after.next_id == before.next_id + 1
        &&& after.list@.len() == before.list@.len() + 1
        &&& after.list@.drop_last() == before.list@
        &&& spec.id == before.next_id
        &&& points_at_guess(spec, project)
        &&& spec.t_unit == match spec.temperature {
            Some(r) => match TempUnit::declared(declared_unit(project, r)) {
                Some(unit) => unit,
                None => TempUnit::Celsius,
            },
            None => TempUnit::Celsius,
        }
        &&& spec.p_unit == match spec.pressure {
            Some(r) => match PressureUnit::declared(declared_unit(project, r)) {
                Some(unit) => unit,
                None => PressureUnit::Bar,
            },
            None => PressureUnit::Bar,
        }
        &&& !spec.gauge
        &&& spec.band_percent == crate::double::nearest_to(2)
        &&& spec.mode == if spec.temperature is Some && spec.pressure is Some {
            VaporMode::State
        } else {
            VaporMode::Curve
        }
        &&& spec.curve_view is None
        &&& spec.t_filter@.len() == 0
        &&& spec.p_filter@.len() == 0
    }

    /// Whether `after` is `before` without a pane.
    pub open spec fn closed(before: Vapors, after: Vapors, id: VaporId) -> bool {
        &&& after.next_id == before.next_id
        &&& after.find_spec(id) is None
        &&& after.list@ == match before.find_spec(id) {
            Some(i) => before.list@.remove(i),
            None => before.list@,
        }
    }

    /// Whether `after` is `before` with a source forgotten in every pane.
    pub open spec fn forgot(before: Vapors, after: Vapors, source: SourceId) -> bool {
        &&& after.next_id == before.next_id
        &&& after.list@.len() == before.list@.len()
        &&& forall|i: int|
            0 <= i < before.list@.len() ==> (#[trigger] after.list@[i]).without_source(
                before.list@[i],
                source,
            )
    }

    /// Opens a pane, pointed at the most likely pair of series in the project, in the units
    /// that they declare. With nothing to compare, the curve on its own is the whole point of
    /// opening the pane, so that is what it opens on.
    pub fn create(&mut self, project: &Project) -> (id: VaporId)
        requires
            old(self).wf(),
            old(self).next_id < u64::MAX,
            project.wf(),
        ensures
            final(self).wf(),
            id == old(self).next_id,
            Self::created(*old(self), *final(self), *project),
    {
        let id = self.next_id;
        self.next_id = id + 1;
        let ghost before = self.list@;
        let (temperature, pressure) = guess_series(project);
        let t_unit = match &temperature {
            Some(r) => match temperature_unit(project, r) {
                Some(unit) => unit,
                None => TempUnit::Celsius,
            },
            None => TempUnit::Celsius,
        };
        let p_unit = match &pressure {
            Some(r) => match pressure_unit(project, r) {
                Some(unit) => unit,
                None => PressureUnit::Bar,
            },
            None => PressureUnit::Bar,
        };
        let mode = if temperature.is_some() && pressure.is_some() {
            VaporMode::State
        } else {
            VaporMode::Curve
        };
        self.list.push(
            VaporSpec {
                id,
                temperature,
                pressure,
                t_unit,
                p_unit,
                gauge: false,
                band_percent: Double::from_int(2),
                mode,
                curve_view: None,
                t_filter: String::new(),
                p_filter: String::new(),
            },
        );
        proof {
            assert(self.list@.drop_last() =~= before);
            assert forall|i: int, j: int| 0 <= i < j < self.list@.len() implies (
            #[trigger] self.list@[i]).id != (#[trigger] self.list@[j]).id by {
                assert(before[i] == self.list@[i]);
                if j < before.len() {
                    assert(before[j] == self.list@[j]);
                }
            }
        }
        id
    }

    /// Closes a pane. Closing one that is gone already changes nothing.
    pub fn close(&mut self, id: VaporId)
        requires
            old(self).wf(),
        ensures
            final(self).wf(),
            Self::closed(*old(self), *final(self), id),
    {
        let ghost before = self.list@;
        match self.find(id) {
            Some(i) => {
                let _ = self.list.remove(i);
                proof {
                    assert(self.list@ =~= before.remove(i as int));
                    assert forall|a: int| 0 <= a < self.list@.len() implies (
                    #[trigger] self.list@[a]).id < self.next_id && self.list@[a].id != id by {
                        let x = if a < i {
                            a
                        } else {
                            a + 1
                        };
                        assert(self.list@[a] == before[x]);
                    }
                    assert forall|a: int, b: int| 0 <= a < b < self.list@.len() implies (
                    #[trigger] self.list@[a]).id != (#[trigger] self.list@[b]).id by {
                        let x = if a < i {
                            a
                        } else {
                            a + 1
                        };
                        let y = if b < i {
                            b
                        } else {
                            b + 1
                        };
                        assert(self.list@[a] == before[x] && self.list@[b] == before[y]);
                    }
                    lemma_not_there(self.list@, id, 0);
                }
            },
            None => {},
        }
    }

    /// Forgets a source in every pane.
    pub fn forget_source(&mut self, source: SourceId)
        requires
            old(self).wf(),
        ensures
            final(self).wf(),
            Self::forgot(*old(self), *final(self), source),
    {
        let ghost before = self.list@;
        let ghost next = self.next_id;
        let mut i: usize = 0;
        while i < self.list.len()
            invariant
                i <= self.list@.len() == before.len(),
                self.next_id == next,
                forall|k: int| i <= k < before.len() ==> #[trigger] self.list@[k] == before[k],
                forall|k: int|
                    0 <= k < i ==> (#[trigger] self.list@[k]).without_source(before[k], source),
            decreases self.list@.len() - i,
        {
            let spec = &mut self.list[i];
            spec.forget_source(source);
            i += 1;
        }
        proof {
            assert forall|k: int| 0 <= k < self.list@.len() implies (
            #[trigger] self.list@[k]).id < self.next_id by {
                assert(before[k].id < next);
            }
            assert forall|a: int, b: int| 0 <= a < b < self.list@.len() implies (
            #[trigger] self.list@[a]).id != (#[trigger] self.list@[b]).id by {
                assert(self.list@[a].id == before[a].id);
                assert(self.list@[b].id == before[b].id);
            }
        }
    }
}

proof fn lemma_not_there(list: Seq<VaporSpec>, id: VaporId, from: int)
    requires
        0 <= from,
        forall|k: int| 0 <= k < list.len() ==> (#[trigger] list[k]).id != id,
    ensures
        vapor_from(list, id, from) is None,
    decreases list.len() - from,
{
    if from < list.len() {
        assert(list[from].id != id);
        lemma_not_there(list, id, from + 1);
    }
}

/// Whether `runs` are the stretches of a list that hold: each from its start to before its end,
/// all of it, and as far as it goes.
pub open spec fn are_runs(holds: Seq<bool>, runs: Seq<(usize, usize)>) -> bool {
    &&& forall|r: int|
        0 <= r < runs.len() ==> (#[trigger] runs[r]).0 < runs[r].1 <= holds.len() && (runs[r].1
            == holds.len() || !holds[runs[r].1 as int]) && (runs[r].0 == 0 || !holds[runs[r].0
            - 1])
    &&& forall|r: int, i: int|
        0 <= r < runs.len() && (#[trigger] runs[r]).0 <= i < runs[r].1 ==> #[trigger] holds[i]
    &&& forall|r: int, s: int|
        0 <= r < s < runs.len() ==> (#[trigger] runs[r]).1 < (#[trigger] runs[s]).0
    &&& forall|i: int|
        0 <= i < holds.len() && #[trigger] holds[i] ==> exists|r: int|
            0 <= r < runs.len() && (#[trigger] runs[r]).0 <= i < runs[r].1
}

/// Where a stretch that begins at `from` ends.
pub open spec fn run_end(holds: Seq<bool>, from: int) -> int
    decreases holds.len() - from,
{
    if 0 <= from < holds.len() && holds[from] {
        run_end(holds, from + 1)
    } else {
        from
    }
}

/// The stretches of a list that hold, from `from` on.
pub open spec fn runs_of(holds: Seq<bool>, from: int) -> Seq<(usize, usize)>
    decreases holds.len() - from,
{
    let end = run_end(holds, from);
    if from < 0 || from >= holds.len() {
        Seq::empty()
    } else if from < end <= holds.len() {
        seq![(from as usize, end as usize)] + runs_of(holds, end)
    } else {
        runs_of(holds, from + 1)
    }
}

proof fn lemma_run_end(holds: Seq<bool>, from: int, end: int)
    requires
        0 <= from <= end <= holds.len(),
        forall|i: int| from <= i < end ==> #[trigger] holds[i],
        end == holds.len() || !holds[end],
    ensures
        run_end(holds, from) == end,
    decreases end - from,
{
    if from < end {
        assert(holds[from]);
        lemma_run_end(holds, from + 1, end);
    }
}

proof fn lemma_runs(holds: Seq<bool>, runs: Seq<(usize, usize)>, k: int, from: int)
    requires
        are_runs(holds, runs),
        0 <= k <= runs.len(),
        0 <= from <= holds.len(),
        k > 0 ==> runs[k - 1].1 <= from,
        k < runs.len() ==> from <= runs[k].0,
    ensures
        runs.skip(k) == runs_of(holds, from),
    decreases holds.len() - from,
{
    if from == holds.len() {
        assert(runs.skip(k) =~= Seq::empty());
    } else if !holds[from] {
        if k < runs.len() && runs[k].0 == from {
            assert(holds[runs[k].0 as int]);
        }
        lemma_runs(holds, runs, k, from + 1);
    } else {
        let r = choose|r: int| 0 <= r < runs.len() && (#[trigger] runs[r]).0 <= from < runs[r].1;
        if r < k {
            if r < k - 1 {
                assert(runs[r].1 < runs[k - 1].0);
            }
        } else if r > k {
            assert(runs[k].1 < runs[r].0);
        }
        assert(r == k);
        assert forall|i: int| from <= i < runs[k].1 implies #[trigger] holds[i] by {
            assert(runs[k].0 <= i < runs[k].1);
        }
        lemma_run_end(holds, from, runs[k].1 as int);
        if k + 1 < runs.len() {
            assert(runs[k].1 < runs[k + 1].0);
        }
        lemma_runs(holds, runs, k + 1, runs[k].1 as int);
        assert(runs.skip(k) =~= seq![runs[k]] + runs.skip(k + 1));
    }
}

/// A list has one list of stretches.
pub proof fn there_is_one_list_of_runs(holds: Seq<bool>, runs: Seq<(usize, usize)>)
    requires
        are_runs(holds, runs),
    ensures
        runs == runs_of(holds, 0),
{
    lemma_runs(holds, runs, 0, 0);
    assert(runs.skip(0) =~= runs);
}

/// The contiguous stretches of samples that have a vapour pressure to be measured against. Above
/// the critical temperature there is none, and the zones have to stop rather than be drawn
/// through a gap that means something else.
pub fn runs(on_curve: &Vec<bool>) -> (r: Vec<(usize, usize)>)
    ensures
        are_runs(on_curve@, r@),
{
    let mut out: Vec<(usize, usize)> = Vec::new();
    let mut i: usize = 0;
    let ghost h = on_curve@;
    while i < on_curve.len()
        invariant
            i <= h.len(),
            h == on_curve@,
            i == 0 || i == h.len() || !h[i as int] || !h[i - 1],
            forall|r: int|
                0 <= r < out@.len() ==> (#[trigger] out@[r]).0 < out@[r].1 <= h.len() && out@[r].1
                    <= i && (out@[r].1 == h.len() || !h[out@[r].1 as int]) && (out@[r].0 == 0
                    || !h[out@[r].0 - 1]),
            forall|r: int, k: int|
                0 <= r < out@.len() && (#[trigger] out@[r]).0 <= k < out@[r].1 ==> #[trigger] h[k],
            forall|r: int, s: int|
                0 <= r < s < out@.len() ==> (#[trigger] out@[r]).1 < (#[trigger] out@[s]).0,
            forall|k: int|
                0 <= k < i && #[trigger] h[k] ==> exists|r: int|
                    0 <= r < out@.len() && (#[trigger] out@[r]).0 <= k < out@[r].1,
        decreases h.len() - i,
    {
        if !on_curve[i] {
            i += 1;
        } else {
            let start = i;
            while i < on_curve.len() && on_curve[i]
                invariant
                    start <= i <= h.len(),
                    h == on_curve@,
                    forall|k: int| start <= k < i ==> #[trigger] h[k],
                decreases h.len() - i,
            {
                i += 1;
            }
            let ghost before = out@;
            out.push((start, i));
            proof {
                assert forall|k: int| 0 <= k < i && #[trigger] h[k] implies exists|r: int|
                    0 <= r < out@.len() && (#[trigger] out@[r]).0 <= k < out@[r].1 by {
                    if k < start {
                        let r = choose|r: int|
                            0 <= r < before.len() && (#[trigger] before[r]).0 <= k < before[r].1;
                        assert(out@[r] == before[r]);
                    } else {
                        assert(out@[before.len() as int] == (start, i));
                    }
                }
                assert forall|r: int, s: int| 0 <= r < s < out@.len() implies (
                #[trigger] out@[r]).1 < (#[trigger] out@[s]).0 by {
                    assert(before[r] == out@[r]);
                    if s < before.len() {
                        assert(before[s] == out@[s]);
                    } else if before[r].1 == start {
                        assert(h[start as int]);
                    }
                }
            }
        }
    }
    out
}

/// How many samples are off the curve.
pub open spec fn off_curve(holds: Seq<bool>) -> nat
    decreases holds.len(),
{
    if holds.len() == 0 {
        0
    } else {
        off_curve(holds.drop_last()) + if holds.last() {
            0nat
        } else {
            1nat
        }
    }
}

/// What a pane says of samples that the curve does not reach.
pub fn off_curve_note(on_curve: &Vec<bool>) -> (r: Option<String>)
    ensures
        match r {
            Some(note) => off_curve(on_curve@) > 0 && note@ == dec(off_curve(on_curve@)) + " of "@
                + dec(on_curve@.len())
                + " samples are outside the two-phase range (above the critical temperature, or below the triple point)"@,
            None => off_curve(on_curve@) == 0,
        },
{
    let mut n: usize = 0;
    let mut i: usize = 0;
    assert(on_curve@.take(0) =~= Seq::<bool>::empty());
    while i < on_curve.len()
        invariant
            i <= on_curve@.len(),
            n == off_curve(on_curve@.take(i as int)),
            n <= i,
        decreases on_curve@.len() - i,
    {
        assert(on_curve@.take(i + 1).drop_last() =~= on_curve@.take(i as int));
        if !on_curve[i] {
            n += 1;
        }
        i += 1;
    }
    assert(on_curve@.take(on_curve@.len() as int) =~= on_curve@);
    if n == 0 {
        return None;
    }
    let mut out = String::new();
    push_dec(&mut out, n as u64);
    out.append(" of ");
    push_dec(&mut out, on_curve.len() as u64);
    out.append(
        " samples are outside the two-phase range (above the critical temperature, or below the triple point)",
    );
    Some(out)
}

/// How far apart two instants are.
pub open spec fn distance(a: i64, b: i64) -> int {
    if a <= b {
        b - a
    } else {
        a - b
    }
}

/// The sample that the playhead is nearest to; of several equally near, the first.
pub fn at_playhead(times: &Vec<i64>, t: i64) -> (r: Option<usize>)
    ensures
        match r {
            Some(i) => {
                &&& i < times@.len()
                &&& forall|k: int|
                    0 <= k < times@.len() ==> distance(times@[i as int], t) <= distance(
                        #[trigger] times@[k],
                        t,
                    )
                &&& forall|k: int|
                    0 <= k < i ==> distance(times@[i as int], t) < distance(
                        #[trigger] times@[k],
                        t,
                    )
            },
            None => times@.len() == 0,
        },
{
    if times.len() == 0 {
        return None;
    }
    let mut best: usize = 0;
    let mut i: usize = 1;
    while i < times.len()
        invariant
            best < i <= times@.len(),
            forall|k: int|
                0 <= k < i ==> distance(times@[best as int], t) <= distance(
                    #[trigger] times@[k],
                    t,
                ),
            forall|k: int|
                0 <= k < best ==> distance(times@[best as int], t) < distance(
                    #[trigger] times@[k],
                    t,
                ),
        decreases times@.len() - i,
    {
        if apart(times[i], t) < apart(times[best], t) {
            best = i;
        }
        i += 1;
    }
    Some(best)
}

fn apart(a: i64, b: i64) -> (r: i128)
    ensures
        r == distance(a, b),
{
    if a <= b {
        b as i128 - a as i128
    } else {
        a as i128 - b as i128
    }
}

/// The sample nearest an instant, for a hover that has to answer for the whole trace. The times
/// are in order; of two equally near, the earlier. Of several samples at that time it is the
/// one next to the instant: the last of those before it, the first of those at or after it.
pub fn nearest(times: &Vec<i64>, t: i64) -> (r: Option<usize>)
    requires
        forall|i: int, j: int| 0 <= i <= j < times@.len() ==> times@[i] <= times@[j],
    ensures
        match r {
            Some(i) => i < times@.len() && (forall|k: int|
                0 <= k < times@.len() ==> distance(times@[i as int], t) <= distance(
                    #[trigger] times@[k],
                    t,
                )) && (forall|k: int|
                0 <= k < times@.len() && distance(#[trigger] times@[k], t) == distance(
                    times@[i as int],
                    t,
                ) ==> times@[i as int] <= times@[k]) && (times@[i as int] < t ==> forall|k: int|
                i < k < times@.len() ==> t <= #[trigger] times@[k]) && (t <= times@[i as int]
                ==> forall|k: int| 0 <= k < i ==> #[trigger] times@[k] < t),
            None => times@.len() == 0,
        },
{
    let mut lo: usize = 0;
    let mut hi: usize = times.len();
    while lo < hi
        invariant
            lo <= hi <= times@.len(),
            forall|i: int, j: int| 0 <= i <= j < times@.len() ==> times@[i] <= times@[j],
            forall|i: int| 0 <= i < lo ==> #[trigger] times@[i] < t,
            forall|i: int| hi <= i < times@.len() ==> #[trigger] times@[i] >= t,
        decreases hi - lo,
    {
        let mid: usize = lo + (hi - lo) / 2;
        if times[mid] < t {
            lo = mid + 1;
        } else {
            hi = mid;
        }
    }
    if times.len() == 0 {
        return None;
    }
    if lo == 0 {
        return Some(0);
    }
    if lo == times.len() {
        return Some(lo - 1);
    }
    let back: i128 = t as i128 - times[lo - 1] as i128;
    let ahead: i128 = times[lo] as i128 - t as i128;
    if back <= ahead {
        Some(lo - 1)
    } else {
        Some(lo)
    }
}

} // verus!
