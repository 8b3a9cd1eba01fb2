//! What video and audio panes show: whether the playhead is on the recording, how its start was
//! guessed, and which part of its waveform is in view. Times are microseconds.
use vstd::prelude::*;

use crate::clock::{format_utc, utc_label_spec, utc_text, whole_seconds};
use crate::double::Double;
use crate::import::start_time::StartTimeSource;
use crate::model::{Project, SourceId};
use crate::panes::{Pane, Plots};
use crate::tank::{share_stem, without_marks, TankId, Tanks};
use crate::text::{contains, holds};
use crate::vapor::Vapors;

verus! {

broadcast use vstd::seq_lib::group_seq_properties;

/// Where the playhead stands against a recording.
#[derive(Clone, Copy, PartialEq, Eq, Structural, Debug)]
pub enum Place {
    Before,
    During,
    After,
}

/// Where an instant of a recording's own clock stands against it.
pub open spec fn place_spec(local: i64, duration: i64) -> Place {
    if local < 0 {
        Place::Before
    } else if local <= duration {
        Place::During
    } else {
        Place::After
    }
}

/// Where an instant of a recording's own clock stands against it. A short clip inside a long
/// experiment is normal, and holding the last frame on screen while the graphs run on would
/// read as if the video were still playing.
pub fn place(local: i64, duration: i64) -> (r: Place)
    ensures
        r == place_spec(local, duration),
{
    if local < 0 {
        Place::Before
    } else if local <= duration {
        Place::During
    } else {
        Place::After
    }
}

impl Place {
    /// What a pane says in place of a picture.
    pub fn label(self) -> (r: &'static str)
        ensures
            r@ == match self {
                Place::Before => "before this recording"@,
                Place::During => ""@,
                Place::After => "after this recording"@,
            },
    {
        match self {
            Place::Before => "before this recording",
            Place::During => "",
            Place::After => "after this recording",
        }
    }
}

/// What a pane says of a guessed start.
pub open spec fn guess_text(from: Seq<char>, at: Seq<char>) -> Seq<char> {
    "⚠ start time guessed from "@ + from + " ("@ + at
        + ") -- adjust the offset in the source list if needed"@
}

/// What a pane says of a recording whose start was guessed at `start`, as long as the user has
/// not moved it.
pub fn start_note(offset: i64, start: i64, how: StartTimeSource) -> (r: Option<String>)
    ensures
        match r {
            Some(note) => offset == 0 && how != StartTimeSource::Metadata && note@ == guess_text(
                if how == StartTimeSource::FileName {
                    "the file name, read as UTC"@
                } else {
                    "the file's modification time"@
                },
                utc_label_spec(
                    utc_text(whole_seconds(start as int), "%Y-%m-%d %H:%M:%S"@),
                    start as int,
                ),
            ),
            None => offset != 0 || how == StartTimeSource::Metadata,
        },
{
    if offset != 0 || !how.is_guess() {
        return None;
    }
    let mut out = "⚠ start time guessed from ".to_owned();
    out.append(how.describe());
    out.append(" (");
    let at = format_utc(start);
    out.append(at.as_str());
    out.append(") -- adjust the offset in the source list if needed");
    Some(out)
}

/// Whether a decoder's complaint is that it was built without a codec, which is not obvious
/// from its wording: distributions ship builds with whole codecs removed.
pub fn lacks_a_codec(error: &str) -> (r: bool)
    ensures
        r == holds(error@, "no decoder found"@),
{
    contains(error, "no decoder found")
}

/// Whether an audio player should be running: while the timeline plays, and only on the
/// recording itself.
pub fn should_play(timeline_playing: bool, local: i64, duration: i64) -> (r: bool)
    ensures
        r == (timeline_playing && place_spec(local, duration) == Place::During),
{
    timeline_playing && 0 <= local && local <= duration
}

/// The bucket that a distance into a recording falls into, rounded down, of `n` buckets.
pub open spec fn bucket_below(d: int, duration: int, n: int) -> int {
    if d <= 0 {
        0
    } else if d * n / duration < n {
        d * n / duration
    } else {
        n
    }
}

/// The bucket past the one that a distance falls into, rounded up, of `n` buckets.
pub open spec fn bucket_above(d: int, duration: int, n: int) -> int {
    let up = if d <= 0 {
        0
    } else {
        (d * n + duration - 1) / duration
    };
    if up + 1 < n {
        up + 1
    } else {
        n
    }
}

/// The buckets of a waveform that are in view, for a recording that starts at `base` on the
/// master timeline.
pub fn visible_buckets(view_start: i64, view_end: i64, base: i64, duration: i64, n: usize) -> (r: (
    usize,
    usize,
))
    requires
        duration > 0,
        n > 0,
    ensures
        r.0 == bucket_below(view_start - base, duration as int, n as int),
        r.1 == bucket_above(view_end - base, duration as int, n as int),
        r.0 <= n,
        r.1 <= n,
{
    let d0: i128 = view_start as i128 - base as i128;
    let d1: i128 = view_end as i128 - base as i128;
    let lo: usize = if d0 <= 0 {
        0
    } else {
        proof {
            lemma_product(d0 as int, n as int, duration as int);
        }
        let q: u128 = d0 as u128 * n as u128 / duration as u128;
        if q < n as u128 {
            q as usize
        } else {
            n
        }
    };
    let up: u128 = if d1 <= 0 {
        0
    } else {
        proof {
            lemma_product(d1 as int, n as int, duration as int);
        }
        (d1 as u128 * n as u128 + (duration as u128 - 1)) / duration as u128
    };
    let hi: usize = if up < n as u128 && up + 1 < n as u128 {
        (up + 1) as usize
    } else {
        n
    };
    (lo, hi)
}

proof fn lemma_product(d: int, n: int, duration: int)
    requires
        0 < d <= 0xFFFF_FFFF_FFFF_FFFF,
        0 < n <= 0xFFFF_FFFF_FFFF_FFFF,
        0 < duration <= 0x7FFF_FFFF_FFFF_FFFF,
    ensures
        0 < d * n <= 0xFFFF_FFFF_FFFF_FFFF * 0xFFFF_FFFF_FFFF_FFFF,
        0 <= d * n / duration <= d * n,
        0 <= (d * n + duration - 1) / duration <= d * n + duration - 1,
{
    assert(0 < d * n <= 0xFFFF_FFFF_FFFF_FFFF * 0xFFFF_FFFF_FFFF_FFFF) by (nonlinear_arith)
        requires
            0 < d <= 0xFFFF_FFFF_FFFF_FFFF,
            0 < n <= 0xFFFF_FFFF_FFFF_FFFF,
    ;
    let p = d * n;
    assert(0 <= p / duration <= p) by (nonlinear_arith)
        requires
            0 < p,
            0 < duration,
    ;
    assert(0 <= (p + duration - 1) / duration <= p + duration - 1) by (nonlinear_arith)
        requires
            0 < p,
            0 < duration,
    ;
}

/// When a bucket of a waveform starts, on the master timeline.
pub open spec fn bucket_time(base: i64, duration: i64, n: int, i: int) -> int {
    base + i * duration / n
}

/// The extremes of the buckets from `lo` to before `hi`, each bucket's two at its start.
pub open spec fn outline_spec(
    peaks: Seq<(Double, Double)>,
    base: i64,
    duration: i64,
    lo: int,
    hi: int,
) -> Seq<(i64, Double)>
    decreases hi - lo,
{
    if hi <= lo {
        Seq::empty()
    } else {
        let t = bucket_time(base, duration, peaks.len() as int, hi - 1) as i64;
        outline_spec(peaks, base, duration, lo, hi - 1) + seq![
            (t, peaks[hi - 1].0),
            (t, peaks[hi - 1].1),
        ]
    }
}

/// The outline of the part of a waveform that is in view.
pub fn outline(
    peaks: &Vec<(Double, Double)>,
    base: i64,
    duration: i64,
    lo: usize,
    hi: usize,
) -> (r: Vec<(i64, Double)>)
    requires
        duration > 0,
        base + duration <= i64::MAX,
        hi <= peaks@.len(),
    ensures
        r@ == outline_spec(peaks@, base, duration, lo as int, hi as int),
{
    let mut out: Vec<(i64, Double)> = Vec::new();
    let n: usize = peaks.len();
    if lo >= hi {
        return out;
    }
    let mut i: usize = lo;
    while i < hi
        invariant
            lo <= i <= hi <= n == peaks@.len(),
            duration > 0,
            base + duration <= i64::MAX,
            out@ == outline_spec(peaks@, base, duration, lo as int, i as int),
        decreases hi - i,
    {
        proof {
            lemma_bucket_time(duration as int, n as int, i as int);
        }
        let along: i128 = i as i128 * duration as i128 / n as i128;
        let t: i64 = (base as i128 + along) as i64;
        out.push((t, peaks[i].0));
        out.push((t, peaks[i].1));
        i += 1;
    }
    out
}

proof fn lemma_bucket_time(duration: int, n: int, i: int)
    requires
        0 < duration <= 0x7FFF_FFFF_FFFF_FFFF,
        0 <= i < n <= 0xFFFF_FFFF_FFFF_FFFF,
    ensures
        0 <= i * duration <= 0xFFFF_FFFF_FFFF_FFFF * 0x7FFF_FFFF_FFFF_FFFF,
        0 <= i * duration / n <= duration,
{
    assert(0 <= i * duration <= 0xFFFF_FFFF_FFFF_FFFF * 0x7FFF_FFFF_FFFF_FFFF)
        by (nonlinear_arith)
        requires
            0 < duration <= 0x7FFF_FFFF_FFFF_FFFF,
            0 <= i <= 0xFFFF_FFFF_FFFF_FFFF,
    ;
    assert(0 <= i * duration / n <= duration) by (nonlinear_arith)
        requires
            0 < duration,
            0 <= i < n,
    ;
}

/// The name of a source, or a question mark.
pub open spec fn source_name_spec(project: Project, id: SourceId) -> Seq<char> {
    match project.find_spec(id) {
        Some(i) => project.sources@[i].name@,
        None => "?"@,
    }
}

/// Whether a text is the title of a tank pane's tab: after its row, where it shows one.
pub open spec fn is_tank_title(tanks: Tanks, id: TankId, text: Seq<char>) -> bool {
    match tanks.find_spec(id) {
        Some(i) => {
            let sensors = tanks.list@[i].sensors@;
            &&& forall|stem: Seq<char>| #[trigger]
                share_stem(sensors, stem) ==> text == "Tank · "@ + without_marks(stem)
            &&& (forall|stem: Seq<char>| !#[trigger] share_stem(sensors, stem)) ==> text
                == "Tank level"@
        },
        None => text == "Tank level"@,
    }
}

/// The title of a pane's tab.
pub fn tab_title(
    project: &Project,
    plots: &Plots,
    vapors: &Vapors,
    tanks: &Tanks,
    pane: Pane,
) -> (r: String)
    ensures
        match pane {
            Pane::Plot(id) => r@ == match plots.find_spec(id) {
                Some(i) => plots.list@[i].title_spec(),
                None => "plot"@,
            },
            Pane::Video(id) => r@ == "🎬 "@ + source_name_spec(*project, id),
            Pane::Audio(id) => r@ == "🔊 "@ + source_name_spec(*project, id),
            Pane::Vapor(id) => r@ == match vapors.find_spec(id) {
                Some(i) => vapors.list@[i].title_spec(),
                None => "N₂O phase"@,
            },
            Pane::Tank(id) => is_tank_title(*tanks, id, r@),
        },
{
    match pane {
        Pane::Plot(id) => match plots.get(id) {
            Some(plot) => plot.title(),
            None => "plot".to_owned(),
        },
        Pane::Video(id) => {
            let mut out = "🎬 ".to_owned();
            let name = source_name(project, id);
            out.append(name.as_str());
            out
        },
        Pane::Audio(id) => {
            let mut out = "🔊 ".to_owned();
            let name = source_name(project, id);
            out.append(name.as_str());
            out
        },
        Pane::Vapor(id) => match vapors.get(id) {
            Some(vapor) => vapor.title(),
            None => "N₂O phase".to_owned(),
        },
        Pane::Tank(id) => match tanks.get(id) {
            Some(tank) => tank.title(),
            None => "Tank level".to_owned(),
        },
    }
}

fn source_name(project: &Project, id: SourceId) -> (r: String)
    ensures
        r@ == source_name_spec(*project, id),
{
    match project.source(id) {
        Some(s) => s.name.clone(),
        None => "?".to_owned(),
    }
}

} // verus!
