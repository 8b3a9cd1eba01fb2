//! An imported experiment: every data source the user has loaded, and where each stands on the
//! master timeline. Instants and spans are microseconds.
use vstd::prelude::*;

use crate::can::CanFrames;
use crate::colors::Rgb;
use crate::double::Double;
use crate::import::start_time::StartTimeSource;
use crate::series::TimeSeries;
use crate::timeline::instant;

verus! {

broadcast use vstd::seq_lib::group_seq_properties;

pub type SourceId = u64;

pub struct LogSource {
    pub series: Vec<TimeSeries>,
    pub format: LogFormat,
    /// Raw CAN traffic the log carried, kept alongside the series decoded from it so further
    /// signals can be pulled out without re-importing.
    pub can: CanFrames,
}

#[derive(Clone, Copy, PartialEq, Eq, Structural, Debug)]
pub enum LogFormat {
    Tlog,
    SqliteLog,
}

pub struct VideoSource {
    pub duration: i64,
    pub fps: Double,
    pub width: u32,
    pub height: u32,
    /// Best-guess UTC time of the first frame.
    pub start_utc: i64,
    pub start_utc_source: StartTimeSource,
}

pub struct AudioSource {
    pub duration: i64,
    pub start_utc: i64,
    pub start_utc_source: StartTimeSource,
    /// Extremes for waveform display, evenly spaced across `duration`.
    pub waveform_peaks: Vec<(Double, Double)>,
}

pub enum SourceKind {
    Log(LogSource),
    Video(VideoSource),
    Audio(AudioSource),
}

pub struct Source {
    pub id: SourceId,
    pub name: String,
    pub path: String,
    /// User-adjustable correction added to this source's raw UTC timestamps so it lines up
    /// with the other sources on the master timeline.
    pub offset: i64,
    pub color: Rgb,
    pub enabled: bool,
    pub kind: SourceKind,
}

/// The least range that holds two, either of which may be none.
pub open spec fn hull(a: Option<(int, int)>, b: Option<(int, int)>) -> Option<(int, int)> {
    match (a, b) {
        (Some((a0, a1)), Some((b0, b1))) => Some(
            (
                if a0 <= b0 {
                    a0
                } else {
                    b0
                },
                if a1 >= b1 {
                    a1
                } else {
                    b1
                },
            ),
        ),
        (Some(a), None) => Some(a),
        (None, b) => b,
    }
}

/// The range of a series' samples.
pub open spec fn series_range(s: TimeSeries) -> Option<(int, int)> {
    match s.time_bounds_spec() {
        Some((lo, hi)) => Some((lo as int, hi as int)),
        None => None,
    }
}

/// The range of the samples of all series.
pub open spec fn log_range(series: Seq<TimeSeries>) -> Option<(int, int)>
    decreases series.len(),
{
    if series.len() == 0 {
        None
    } else {
        hull(log_range(series.drop_last()), series_range(series.last()))
    }
}

/// Whether a range can be held.
pub open spec fn range_fits(r: Option<(int, int)>) -> bool {
    match r {
        Some((lo, hi)) => instant(lo) && instant(hi),
        None => true,
    }
}

/// A range moved by an offset.
pub open spec fn moved(r: Option<(int, int)>, offset: int) -> Option<(int, int)> {
    match r {
        Some((lo, hi)) => Some((lo + offset, hi + offset)),
        None => None,
    }
}

/// A range as contracts speak of it.
pub open spec fn range_view(r: Option<(i64, i64)>) -> Option<(int, int)> {
    match r {
        Some((lo, hi)) => Some((lo as int, hi as int)),
        None => None,
    }
}

fn join(a: Option<(i64, i64)>, b: Option<(i64, i64)>) -> (r: Option<(i64, i64)>)
    ensures
        range_view(r) == hull(range_view(a), range_view(b)),
{
    match (a, b) {
        (Some((a0, a1)), Some((b0, b1))) => Some(
            (
                if a0 <= b0 {
                    a0
                } else {
                    b0
                },
                if a1 >= b1 {
                    a1
                } else {
                    b1
                },
            ),
        ),
        (Some(a), None) => Some(a),
        (None, b) => b,
    }
}

impl Source {
    /// Where the source's own clock starts: logs run on UTC, recordings from their start.
    pub open spec fn base_spec(self) -> int {
        match self.kind {
            SourceKind::Log(_) => 0,
            SourceKind::Video(v) => v.start_utc as int,
            SourceKind::Audio(a) => a.start_utc as int,
        }
    }

    fn base(&self) -> (r: i64)
        ensures
            r == self.base_spec(),
    {
        match &self.kind {
            SourceKind::Log(_) => 0,
            SourceKind::Video(v) => v.start_utc,
            SourceKind::Audio(a) => a.start_utc,
        }
    }

    /// The range the source covers in absolute UTC, before its offset is applied.
    pub open spec fn range(self) -> Option<(int, int)> {
        match self.kind {
            SourceKind::Log(log) => log_range(log.series@),
            SourceKind::Video(v) => Some((v.start_utc as int, v.start_utc + v.duration)),
            SourceKind::Audio(a) => Some((a.start_utc as int, a.start_utc + a.duration)),
        }
    }

    /// Series in order, and a range that can be held, before and after the offset.
    pub open spec fn wf(self) -> bool {
        &&& range_fits(self.range())
        &&& range_fits(moved(self.range(), self.offset as int))
        &&& match self.kind {
            SourceKind::Log(log) => forall|i: int|
                0 <= i < log.series@.len() ==> (#[trigger] log.series@[i]).wf(),
            _ => true,
        }
    }

    /// Bounds in absolute UTC (before the offset is applied), consistent across source kinds:
    /// log timestamps are already absolute, while video and audio run on a local clock from
    /// zero and need their start added in to land on the same timeline.
    pub fn time_bounds(&self) -> (r: Option<(i64, i64)>)
        requires
            self.wf(),
        ensures
            range_view(r) == self.range(),
    {
        match &self.kind {
            SourceKind::Log(log) => {
                let mut r: Option<(i64, i64)> = None;
                let mut i: usize = 0;
                assert(log.series@.take(0) =~= Seq::<TimeSeries>::empty());
                while i < log.series.len()
                    invariant
                        i <= log.series@.len(),
                        range_view(r) == log_range(log.series@.take(i as int)),
                    decreases log.series@.len() - i,
                {
                    assert(log.series@.take(i + 1).drop_last() =~= log.series@.take(i as int));
                    r = join(r, log.series[i].time_bounds());
                    i += 1;
                }
                assert(log.series@.take(log.series@.len() as int) =~= log.series@);
                r
            },
            SourceKind::Video(v) => Some((v.start_utc, v.start_utc + v.duration)),
            SourceKind::Audio(a) => Some((a.start_utc, a.start_utc + a.duration)),
        }
    }

    /// Moves the source on the master timeline, unless part of it would leave what an instant
    /// can hold.
    pub fn set_offset(&mut self, offset: i64) -> (moved_there: bool)
        requires
            old(self).wf(),
        ensures
            final(self).wf(),
            moved_there == range_fits(moved(old(self).range(), offset as int)),
            *final(self) == if moved_there {
                Source { offset, ..*old(self) }
            } else {
                *old(self)
            },
    {
        let fits = match self.time_bounds() {
            Some((lo, hi)) => {
                let a: i128 = lo as i128 + offset as i128;
                let b: i128 = hi as i128 + offset as i128;
                i64::MIN as i128 <= a && a <= i64::MAX as i128 && i64::MIN as i128 <= b && b
                    <= i64::MAX as i128
            },
            None => true,
        };
        if fits {
            self.offset = offset;
        }
        fits
    }

    /// An instant of the master timeline on the source's own clock.
    pub open spec fn local(self, master: int) -> int {
        master - self.offset - self.base_spec()
    }

    /// An instant of the source's own clock on the master timeline.
    pub open spec fn master(self, local: int) -> int {
        local + self.offset + self.base_spec()
    }

    /// Converts an instant of the master timeline into this source's own local clock: raw UTC
    /// for logs, or time from the start for video and audio. `None` where it cannot be held.
    pub fn to_local_time(&self, master_time: i64) -> (r: Option<i64>)
        ensures
            match r {
                Some(t) => t == self.local(master_time as int),
                None => !instant(self.local(master_time as int)),
            },
    {
        let t: i128 = master_time as i128 - self.offset as i128 - self.base() as i128;
        if i64::MIN as i128 <= t && t <= i64::MAX as i128 {
            Some(t as i64)
        } else {
            None
        }
    }

    /// Inverse of [`Self::to_local_time`].
    pub fn to_master_time(&self, local_time: i64) -> (r: Option<i64>)
        ensures
            match r {
                Some(t) => t == self.master(local_time as int),
                None => !instant(self.master(local_time as int)),
            },
    {
        let t: i128 = local_time as i128 + self.offset as i128 + self.base() as i128;
        if i64::MIN as i128 <= t && t <= i64::MAX as i128 {
            Some(t as i64)
        } else {
            None
        }
    }

    /// The tag that says what kind of source this is.
    pub fn kind_tag(&self) -> (r: &'static str)
        ensures
            r@ == match self.kind {
                SourceKind::Log(log) => match log.format {
                    LogFormat::Tlog => "tlog"@,
                    LogFormat::SqliteLog => "sqlite"@,
                },
                SourceKind::Video(_) => "video"@,
                SourceKind::Audio(_) => "audio"@,
            },
    {
        match &self.kind {
            SourceKind::Log(log) => match log.format {
                LogFormat::Tlog => "tlog",
                LogFormat::SqliteLog => "sqlite",
            },
            SourceKind::Video(_) => "video",
            SourceKind::Audio(_) => "audio",
        }
    }
}

/// Going to the source's clock and back, or the other way round, ends where it started.
pub proof fn the_two_clocks_are_inverse(s: Source, t: int)
    ensures
        s.master(s.local(t)) == t,
        s.local(s.master(t)) == t,
{
}

/// A whole imported experiment: every data source the user has loaded.
pub struct Project {
    pub sources: Vec<Source>,
    pub next_id: SourceId,
}

/// The range that the first `n` sources cover on the master timeline.
pub open spec fn master_range(sources: Seq<Source>, n: nat) -> Option<(int, int)>
    decreases n,
{
    if n == 0 {
        None
    } else {
        hull(
            master_range(sources, (n - 1) as nat),
            moved(sources[n - 1].range(), sources[n - 1].offset as int),
        )
    }
}

/// The position of the first source of an id, from `from` on.
pub open spec fn position_of(sources: Seq<Source>, id: SourceId, from: int) -> Option<int>
    decreases sources.len() - from,
{
    if from < 0 || from >= sources.len() {
        None
    } else if sources[from].id == id {
        Some(from)
    } else {
        position_of(sources, id, from + 1)
    }
}

impl Default for Project {
    fn default() -> (r: Self)
        ensures
            r.wf(),
            r.sources@.len() == 0,
            r.next_id == 0,
    {
        Project::new()
    }
}

impl Project {
    /// Every source in order, with an id of its own that was given out before.
    pub open spec fn wf(self) -> bool {
        &&& forall|i: int| 0 <= i < self.sources@.len() ==> (#[trigger] self.sources@[i]).wf()
        &&& forall|i: int|
            0 <= i < self.sources@.len() ==> (#[trigger] self.sources@[i]).id < self.next_id
        &&& forall|i: int, j: int|
            0 <= i < j < self.sources@.len() ==> (#[trigger] self.sources@[i]).id != (
            #[trigger] self.sources@[j]).id
    }

    pub fn new() -> (r: Self)
        ensures
            r.wf(),
            r.sources@.len() == 0,
            r.next_id == 0,
    {
        Project { sources: Vec::new(), next_id: 0 }
    }

    /// An id that no source has had.
    pub fn alloc_id(&mut self) -> (id: SourceId)
        requires
            old(self).wf(),
            old(self).next_id < u64::MAX,
        ensures
            id == old(self).next_id,
            final(self).next_id == old(self).next_id + 1,
            final(self).sources == old(self).sources,
            final(self).wf(),
            forall|i: int|
                0 <= i < old(self).sources@.len() ==> (#[trigger] old(self).sources@[i]).id != id,
    {
        let id = self.next_id;
        self.next_id = id + 1;
        id
    }

    /// The position of the source of an id.
    pub open spec fn find_spec(self, id: SourceId) -> Option<int> {
        position_of(self.sources@, id, 0)
    }

    /// The position of the source of an id.
    pub fn find(&self, id: SourceId) -> (r: Option<usize>)
        ensures
            match r {
                Some(i) => self.find_spec(id) == Some(i as int) && i < self.sources@.len()
                    && self.sources@[i as int].id == id,
                None => self.find_spec(id) is None && forall|k: int|
                    0 <= k < self.sources@.len() ==> (#[trigger] self.sources@[k]).id != id,
            },
    {
        let mut i: usize = 0;
        while i < self.sources.len()
            invariant
                i <= self.sources@.len(),
                self.find_spec(id) == position_of(self.sources@, id, i as int),
                forall|k: int| 0 <= k < i ==> (#[trigger] self.sources@[k]).id != id,
            decreases self.sources@.len() - i,
        {
            if self.sources[i].id == id {
                return Some(i);
            }
            i += 1;
        }
        None
    }

    /// The source of an id.
    pub fn source(&self, id: SourceId) -> (r: Option<&Source>)
        ensures
            match r {
                Some(s) => self.find_spec(id) is Some && *s
                    == self.sources@[self.find_spec(id).unwrap()],
                None => self.find_spec(id) is None,
            },
    {
        match self.find(id) {
            Some(i) => Some(&self.sources[i]),
            None => None,
        }
    }

    /// The range that every source together covers on the master timeline.
    pub open spec fn range(self) -> Option<(int, int)> {
        master_range(self.sources@, self.sources@.len())
    }

    /// Master timeline bounds across every loaded source (regardless of the `enabled` toggle,
    /// so hiding a source doesn't reshuffle the scrubber range), with each source's offset
    /// applied.
    pub fn time_bounds(&self) -> (r: Option<(i64, i64)>)
        requires
            self.wf(),
        ensures
            range_view(r) == self.range(),
    {
        let mut r: Option<(i64, i64)> = None;
        let mut i: usize = 0;
        while i < self.sources.len()
            invariant
                i <= self.sources@.len(),
                self.wf(),
                range_view(r) == master_range(self.sources@, i as nat),
            decreases self.sources@.len() - i,
        {
            let s = &self.sources[i];
            assert(s.wf());
            let bounds = match s.time_bounds() {
                Some((lo, hi)) => Some((lo + s.offset, hi + s.offset)),
                None => None,
            };
            r = join(r, bounds);
            i += 1;
        }
        r
    }
}

/// The master timeline covers every source: each one's range, moved by its offset, lies within
/// the whole.
pub proof fn the_timeline_covers_every_source(sources: Seq<Source>, n: nat, i: int)
    requires
        0 <= i < n <= sources.len(),
        sources[i].range() is Some,
    ensures
        master_range(sources, n) is Some,
        master_range(sources, n).unwrap().0 <= sources[i].range().unwrap().0 + sources[i].offset,
        sources[i].range().unwrap().1 + sources[i].offset <= master_range(sources, n).unwrap().1,
    decreases n,
{
    if i < n - 1 {
        the_timeline_covers_every_source(sources, (n - 1) as nat, i);
    }
}

/// Hiding a source leaves the timeline as it is.
pub proof fn hiding_keeps_the_timeline(sources: Seq<Source>, i: int, enabled: bool, n: nat)
    requires
        0 <= i < sources.len(),
        n <= sources.len(),
    ensures
        master_range(sources.update(i, Source { enabled, ..sources[i] }), n) == master_range(
            sources,
            n,
        ),
    decreases n,
{
    if n > 0 {
        hiding_keeps_the_timeline(sources, i, enabled, (n - 1) as nat);
    }
}

} // verus!
