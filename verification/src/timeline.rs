//! The master timeline: what instant every graph, video and audio panel shows, and how the
//! clock is written on their axes. Instants and spans are microseconds.
use vstd::prelude::*;

pub use crate::clock::{
    format_axis_time, format_duration, format_utc, time_grid_steps, TIME_STEPS,
};


verus! {

/// Narrowest visible window. Zooming past a millisecond says nothing about data logged at a
/// few hundred hertz, and a window that reaches zero width can't be zoomed back out.
pub const MIN_VIEW_SPAN: i64 = 1000;

/// Playback speeds offered in the toolbar, and stepped through with ↑/↓, in hundredths of real
/// time.
pub const SPEEDS: [u32; 7] = [10, 25, 50, 100, 200, 400, 800];

/// Master synchronization state shared by every panel: log graphs, video and audio all read
/// from this to know "when" they are.
pub struct Timeline {
    /// Currently visible time window in the linked graphs. Panning or zooming any graph
    /// updates this, and every other panel picks it up on the next frame.
    pub view_start: i64,
    pub view_end: i64,
    /// The playhead: what instant videos and audio show and graphs mark with a line.
    pub cursor: i64,
    pub playing: bool,
    /// Hundredths of real time.
    pub speed: u32,
    /// Drag-to-zoom mode: while on, dragging inside any graph selects a rectangle to zoom into
    /// instead of panning.
    pub box_zoom: bool,
}

/// Whether an instant can be held.
pub open spec fn instant(t: int) -> bool {
    i64::MIN <= t <= i64::MAX
}

/// The window that stands for a start and an end: the two in order, widened about the middle
/// where they are too close.
pub open spec fn window(start: int, end: int) -> (int, int) {
    let (a, b) = if start <= end {
        (start, end)
    } else {
        (end, start)
    };
    if b - a < MIN_VIEW_SPAN {
        let centre = (a + b) / 2;
        (centre - MIN_VIEW_SPAN / 2, centre + MIN_VIEW_SPAN / 2)
    } else {
        (a, b)
    }
}

/// Whether both ends of a window can be held.
pub open spec fn instants(w: (int, int)) -> bool {
    instant(w.0) && instant(w.1)
}

/// A distance times `num / den`, rounded towards nothing.
pub open spec fn scaled(d: int, num: int, den: int) -> int {
    if d >= 0 {
        d * num / den
    } else {
        -((-d) * num / den)
    }
}

/// An instant, pulled into a range.
pub open spec fn clamped(t: int, bounds: Option<(i64, i64)>) -> int {
    match bounds {
        Some((lo, hi)) => if t < lo {
            lo as int
        } else if t > hi {
            hi as int
        } else {
            t
        },
        None => t,
    }
}

/// Whether a range is the right way round.
pub open spec fn ordered(bounds: Option<(i64, i64)>) -> bool {
    match bounds {
        Some((lo, hi)) => lo <= hi,
        None => true,
    }
}

fn clamp(t: i128, bounds: Option<(i64, i64)>) -> (r: i64)
    requires
        instant(clamped(t as int, bounds)),
    ensures
        r == clamped(t as int, bounds),
{
    match bounds {
        Some((lo, hi)) => if t < lo as i128 {
            lo
        } else if t > hi as i128 {
            hi
        } else {
            t as i64
        },
        None => t as i64,
    }
}

fn scale(d: i128, num: u32, den: u32) -> (r: i128)
    requires
        den > 0,
        -0x2_0000_0000_0000_0000 <= d <= 0x2_0000_0000_0000_0000,
    ensures
        r == scaled(d as int, num as int, den as int),
{
    let m: i128 = if d >= 0 {
        d
    } else {
        -d
    };
    proof {
        assert(0 <= m * num <= 0x2_0000_0000_0000_0000 * 0x1_0000_0000) by (nonlinear_arith)
            requires
                0 <= m <= 0x2_0000_0000_0000_0000,
                0 <= num <= 0x1_0000_0000,
        ;
        assert(0 <= m * num / (den as int) <= m * num) by (nonlinear_arith)
            requires
                0 <= m * num,
                den >= 1,
        ;
    }
    let q: i128 = m * num as i128 / den as i128;
    if d >= 0 {
        q
    } else {
        -q
    }
}

impl Timeline {
    /// The visible window.
    pub open spec fn view_window(self) -> (int, int) {
        (self.view_start as int, self.view_end as int)
    }

    pub fn new(bounds: (i64, i64)) -> (r: Self)
        ensures
            r.view_window() == (bounds.0 as int, bounds.1 as int),
            r.cursor == bounds.0,
            !r.playing,
            r.speed == 100,
            !r.box_zoom,
    {
        Timeline {
            view_start: bounds.0,
            view_end: bounds.1,
            cursor: bounds.0,
            playing: false,
            speed: 100,
            box_zoom: false,
        }
    }

    /// Where the playhead is after playing for `dt`.
    pub open spec fn played(self, dt: u32) -> int {
        self.cursor + dt * self.speed / 100
    }

    /// Plays for `dt` microseconds of real time. Reaching the end stops there.
    pub fn tick(&mut self, dt: u32, bounds: Option<(i64, i64)>)
        requires
            bounds is None ==> instant(old(self).played(dt)),
        ensures
            final(self).view_window() == old(self).view_window(),
            final(self).speed == old(self).speed,
            final(self).box_zoom == old(self).box_zoom,
            !old(self).playing ==> *final(self) == *old(self),
            old(self).playing ==> match bounds {
                Some((_, hi)) => if old(self).played(dt) >= hi {
                    final(self).cursor == hi && !final(self).playing
                } else {
                    final(self).cursor == old(self).played(dt) && final(self).playing
                },
                None => final(self).cursor == old(self).played(dt) && final(self).playing,
            },
    {
        if !self.playing {
            return;
        }
        proof {
            assert(0 <= dt * self.speed <= 0xFFFF_FFFF * 0xFFFF_FFFF) by (nonlinear_arith)
                requires
                    0 <= dt <= 0xFFFF_FFFF,
                    0 <= self.speed <= 0xFFFF_FFFF,
            ;
        }
        let run: u64 = dt as u64 * self.speed as u64 / 100;
        let cursor: i128 = self.cursor as i128 + run as i128;
        match bounds {
            Some((_, hi)) => {
                if cursor >= hi as i128 {
                    self.cursor = hi;
                    self.playing = false;
                } else {
                    self.cursor = cursor as i64;
                }
            },
            None => {
                self.cursor = cursor as i64;
            },
        }
    }

    /// Moves the playhead, no further than the data goes.
    pub fn seek(&mut self, t: i64, bounds: Option<(i64, i64)>)
        requires
            ordered(bounds),
        ensures
            *final(self) == (Timeline { cursor: clamped(t as int, bounds) as i64, ..*old(self) }),
    {
        self.cursor = clamp(t as i128, bounds);
    }

    /// Moves the playhead by so much, no further than the data goes.
    pub fn step(&mut self, delta: i64, bounds: Option<(i64, i64)>)
        requires
            ordered(bounds),
            instant(clamped(old(self).cursor + delta, bounds)),
        ensures
            *final(self) == (Timeline {
                cursor: clamped(old(self).cursor + delta, bounds) as i64,
                ..*old(self)
            }),
    {
        self.cursor = clamp(self.cursor as i128 + delta as i128, bounds);
    }

    /// Frames the timeline on `bounds` (the first import, or the last one being removed) while
    /// leaving playback settings (speed, box zoom mode) as the user set them.
    pub fn reset_to(&mut self, bounds: (i64, i64))
        requires
            instants(window(bounds.0 as int, bounds.1 as int)),
        ensures
            final(self).view_window() == window(bounds.0 as int, bounds.1 as int),
            final(self).cursor == bounds.0,
            !final(self).playing,
            final(self).speed == old(self).speed,
            final(self).box_zoom == old(self).box_zoom,
    {
        self.set_view(bounds.0, bounds.1);
        self.cursor = bounds.0;
        self.playing = false;
    }

    pub fn view_span(&self) -> (r: i128)
        ensures
            r == self.view_end - self.view_start,
    {
        self.view_end as i128 - self.view_start as i128
    }

    /// Sets the visible window, refusing a degenerate or inverted one.
    pub fn set_view(&mut self, start: i64, end: i64)
        requires
            instants(window(start as int, end as int)),
        ensures
            final(self).view_window() == window(start as int, end as int),
            final(self).cursor == old(self).cursor,
            final(self).playing == old(self).playing,
            final(self).speed == old(self).speed,
            final(self).box_zoom == old(self).box_zoom,
    {
        self.set_window(start as i128, end as i128);
    }

    fn set_window(&mut self, start: i128, end: i128)
        requires
            -0x4_0000_0000_0000_0000_0000_0000 <= start <= 0x4_0000_0000_0000_0000_0000_0000,
            -0x4_0000_0000_0000_0000_0000_0000 <= end <= 0x4_0000_0000_0000_0000_0000_0000,
            instants(window(start as int, end as int)),
        ensures
            final(self).view_window() == window(start as int, end as int),
            final(self).cursor == old(self).cursor,
            final(self).playing == old(self).playing,
            final(self).speed == old(self).speed,
            final(self).box_zoom == old(self).box_zoom,
    {
        let (a, b) = if start <= end {
            (start, end)
        } else {
            (end, start)
        };
        if b - a < MIN_VIEW_SPAN as i128 {
            // The middle is half the distance past the earlier one.
            let centre: i128 = a + (b - a) / 2;
            self.view_start = (centre - 500) as i64;
            self.view_end = (centre + 500) as i64;
        } else {
            self.view_start = a as i64;
            self.view_end = b as i64;
        }
    }

    /// The window scaled about an instant.
    pub open spec fn zoomed(self, num: u32, den: u32, centre: i64) -> (int, int) {
        window(
            centre + scaled(self.view_start - centre, num as int, den as int),
            centre + scaled(self.view_end - centre, num as int, den as int),
        )
    }

    /// Scales the visible window by `num / den` about `centre`. Below one zooms in.
    pub fn zoom_view(&mut self, num: u32, den: u32, centre: i64)
        requires
            den > 0,
            instants(old(self).zoomed(num, den, centre)),
        ensures
            final(self).view_window() == old(self).zoomed(num, den, centre),
            final(self).cursor == old(self).cursor,
            final(self).playing == old(self).playing,
            final(self).speed == old(self).speed,
            final(self).box_zoom == old(self).box_zoom,
    {
        let before: i128 = self.view_start as i128 - centre as i128;
        let after: i128 = self.view_end as i128 - centre as i128;
        let b = scale(before, num, den);
        let a = scale(after, num, den);
        proof {
            lemma_scaled_bounded(before as int, num as int, den as int);
            lemma_scaled_bounded(after as int, num as int, den as int);
        }
        self.set_window(centre as i128 + b, centre as i128 + a);
    }

    /// Back to showing everything that is loaded.
    pub fn reset_view(&mut self, bounds: Option<(i64, i64)>)
        requires
            match bounds {
                Some((lo, hi)) => instants(window(lo as int, hi as int)),
                None => true,
            },
        ensures
            final(self).view_window() == match bounds {
                Some((lo, hi)) => window(lo as int, hi as int),
                None => old(self).view_window(),
            },
            final(self).cursor == old(self).cursor,
            final(self).playing == old(self).playing,
            final(self).speed == old(self).speed,
            final(self).box_zoom == old(self).box_zoom,
    {
        if let Some((lo, hi)) = bounds {
            self.set_view(lo, hi);
        }
    }

    /// Whether a plot came back with another window than it was given: within a microsecond is
    /// the same one.
    pub open spec fn moved_to(self, x0: i64, x1: i64) -> bool {
        ||| x0 - self.view_start > 1
        ||| self.view_start - x0 > 1
        ||| x1 - self.view_end > 1
        ||| self.view_end - x1 > 1
    }

    /// Adopts the range a plot pane came back with (a pan, a scroll zoom or a box selection)
    /// and a click on it as a seek. Every pane on the time axis goes through this, which is
    /// what keeps them in step.
    pub fn follow_plot(
        &mut self,
        x0: i64,
        x1: i64,
        clicked: Option<i64>,
        bounds: Option<(i64, i64)>,
    )
        requires
            old(self).moved_to(x0, x1) ==> instants(window(x0 as int, x1 as int)),
            ordered(bounds),
        ensures
            final(self).view_window() == if old(self).moved_to(x0, x1) {
                window(x0 as int, x1 as int)
            } else {
                old(self).view_window()
            },
            match clicked {
                Some(t) => final(self).cursor == clamped(t as int, bounds)
                    && !final(self).playing,
                None => final(self).cursor == old(self).cursor && final(self).playing
                    == old(self).playing,
            },
            final(self).speed == old(self).speed,
            final(self).box_zoom == old(self).box_zoom,
    {
        let d0: i128 = x0 as i128 - self.view_start as i128;
        let d1: i128 = x1 as i128 - self.view_end as i128;
        if d0 > 1 || d0 < -1 || d1 > 1 || d1 < -1 {
            self.set_view(x0, x1);
        }
        if let Some(t) = clicked {
            self.seek(t, bounds);
            self.playing = false;
        }
    }

    /// The window after the data shrank to a range: all of it where the old window shows none
    /// of it or more than all of it, and the part inside otherwise.
    pub open spec fn pulled_back(self, lo: i64, hi: i64) -> (int, int) {
        if self.view_end <= lo || self.view_start >= hi || self.view_end - self.view_start > hi
            - lo {
            window(lo as int, hi as int)
        } else {
            window(
                if self.view_start > lo {
                    self.view_start as int
                } else {
                    lo as int
                },
                if self.view_end < hi {
                    self.view_end as int
                } else {
                    hi as int
                },
            )
        }
    }

    /// Pulls the window and the playhead back inside `bounds`, for when a source is removed
    /// and the timeline shrinks out from under them.
    pub fn clamp_to(&mut self, bounds: Option<(i64, i64)>)
        requires
            ordered(bounds),
            match bounds {
                Some((lo, hi)) => instants(old(self).pulled_back(lo, hi)),
                None => true,
            },
        ensures
            final(self).view_window() == match bounds {
                Some((lo, hi)) => old(self).pulled_back(lo, hi),
                None => old(self).view_window(),
            },
            final(self).cursor == clamped(old(self).cursor as int, bounds),
            final(self).playing == old(self).playing,
            final(self).speed == old(self).speed,
            final(self).box_zoom == old(self).box_zoom,
    {
        if let Some((lo, hi)) = bounds {
            self.cursor = clamp(self.cursor as i128, bounds);
            // A window that no longer overlaps the remaining data would leave every graph
            // blank with no hint of where the data went.
            if self.view_end <= lo || self.view_start >= hi || self.view_span() > hi as i128
                - lo as i128 {
                self.set_view(lo, hi);
            } else {
                let start: i64 = if self.view_start > lo {
                    self.view_start
                } else {
                    lo
                };
                let end: i64 = if self.view_end < hi {
                    self.view_end
                } else {
                    hi
                };
                self.set_view(start, end);
            }
        }
    }

    /// Widens the window to take in a range, for when a source joins the others.
    pub fn widen_to(&mut self, bounds: (i64, i64))
        ensures
            final(self).view_start == if bounds.0 < old(self).view_start {
                bounds.0
            } else {
                old(self).view_start
            },
            final(self).view_end == if bounds.1 > old(self).view_end {
                bounds.1
            } else {
                old(self).view_end
            },
            final(self).cursor == old(self).cursor,
            final(self).playing == old(self).playing,
            final(self).speed == old(self).speed,
            final(self).box_zoom == old(self).box_zoom,
    {
        if bounds.0 < self.view_start {
            self.view_start = bounds.0;
        }
        if bounds.1 > self.view_end {
            self.view_end = bounds.1;
        }
    }
}

proof fn lemma_scaled_bounded(d: int, num: int, den: int)
    requires
        -0x2_0000_0000_0000_0000 <= d <= 0x2_0000_0000_0000_0000,
        0 <= num <= 0xFFFF_FFFF,
        den > 0,
    ensures
        -0x3_0000_0000_0000_0000_0000_0000 <= scaled(d, num, den)
            <= 0x3_0000_0000_0000_0000_0000_0000,
{
    let m = if d >= 0 {
        d
    } else {
        -d
    };
    assert(0 <= m * num <= 0x3_0000_0000_0000_0000_0000_0000) by (nonlinear_arith)
        requires
            0 <= m <= 0x2_0000_0000_0000_0000,
            0 <= num <= 0xFFFF_FFFF,
    ;
    assert(0 <= m * num / den <= m * num) by (nonlinear_arith)
        requires
            0 <= m * num,
            den >= 1,
    ;
}

/// However it is set, the window never collapses: it is at least a millisecond wide.
pub proof fn the_window_never_collapses(start: int, end: int)
    ensures
        window(start, end).1 - window(start, end).0 >= MIN_VIEW_SPAN,
{
}

/// A selection dragged right to left is the same as one dragged left to right.
pub proof fn direction_does_not_matter(start: int, end: int)
    ensures
        window(start, end) == window(end, start),
{
}

/// A window that is wide enough and the right way round is kept as it is.
pub proof fn a_good_window_is_kept(start: int, end: int)
    requires
        end - start >= MIN_VIEW_SPAN,
    ensures
        window(start, end) == (start, end),
{
}

/// Zooming about an instant inside the window keeps it inside.
pub proof fn zooming_keeps_the_centre_inside(t: Timeline, num: u32, den: u32, centre: i64)
    requires
        den > 0,
        t.view_start <= centre <= t.view_end,
    ensures
        t.zoomed(num, den, centre).0 <= centre <= t.zoomed(num, den, centre).1,
{
    let before = t.view_start - centre;
    let after = t.view_end - centre;
    assert((-before) * num / (den as int) >= 0) by (nonlinear_arith)
        requires
            -before >= 0,
            num >= 0,
            den > 0,
    ;
    assert(after * num / (den as int) >= 0) by (nonlinear_arith)
        requires
            after >= 0,
            num >= 0,
            den > 0,
    ;
}

/// Halving the window about an instant and doubling it again restores it, where both halves
/// are whole and the halved window is wide enough.
pub proof fn zooming_out_undoes_zooming_in(t: Timeline, half: Timeline, centre: i64)
    requires
        (t.view_start - centre) % 2 == 0,
        (t.view_end - centre) % 2 == 0,
        t.view_end - t.view_start >= 2 * MIN_VIEW_SPAN,
        half.view_window() == t.zoomed(1, 2, centre),
    ensures
        half.zoomed(2, 1, centre) == t.view_window(),
{
    let before = t.view_start - centre;
    let after = t.view_end - centre;
    assert(scaled(before, 1, 2) * 2 == before);
    assert(scaled(after, 1, 2) * 2 == after);
    assert(half.view_start - centre == scaled(before, 1, 2));
    assert(half.view_end - centre == scaled(after, 1, 2));
    assert(scaled(half.view_start - centre, 2, 1) == before);
    assert(scaled(half.view_end - centre, 2, 1) == after);
}

/// A plot that comes back with the window it was given changes nothing.
pub proof fn an_unmoved_plot_changes_nothing(t: Timeline)
    ensures
        !t.moved_to(t.view_start, t.view_end),
{
}

/// Losing a source leaves the window inside the remaining data, where that is a millisecond
/// or longer, and the window showed at least a millisecond of it.
pub proof fn the_view_is_pulled_back_in_range(t: Timeline, lo: i64, hi: i64)
    requires
        hi - lo >= MIN_VIEW_SPAN,
        t.view_end - lo >= MIN_VIEW_SPAN || t.view_end <= lo,
        hi - t.view_start >= MIN_VIEW_SPAN || t.view_start >= hi,
        t.view_end - t.view_start >= MIN_VIEW_SPAN,
    ensures
        lo <= t.pulled_back(lo, hi).0 < t.pulled_back(lo, hi).1 <= hi,
{
}

/// A window inside the remaining data is left alone.
pub proof fn a_view_inside_is_left_alone(t: Timeline, lo: i64, hi: i64)
    requires
        lo <= t.view_start,
        t.view_end <= hi,
        t.view_end - t.view_start >= MIN_VIEW_SPAN,
    ensures
        t.pulled_back(lo, hi) == t.view_window(),
{
}

/// What the transport bar asks for.
#[derive(Clone, Copy, PartialEq, Eq, Structural, Debug)]
pub enum Transport {
    JumpToStart,
    StepBack,
    PlayPause,
    StepForward,
    JumpToEnd,
    BoxZoom,
    ZoomToFit,
    Speed(u32),
    /// A click or drag on the scrubber, `at` of the `of` parts of its width.
    Scrub { at: u32, of: u32 },
}

/// Where on the data a place on the scrubber is. A place past the end is the end.
pub open spec fn scrubbed(lo: i64, hi: i64, at: u32, of: u32) -> int {
    let part = if at < of {
        at
    } else {
        of
    };
    lo + (hi - lo) * part / (of as int)
}

/// The distance a step button moves the playhead.
pub const STEP: i64 = 1_000_000;

impl Timeline {
    /// The timeline after the transport bar asked for something.
    pub open spec fn transported(self, command: Transport, bounds: Option<(i64, i64)>) -> Timeline {
        match command {
            Transport::JumpToStart => match bounds {
                Some((lo, _)) => Timeline { cursor: lo, ..self },
                None => self,
            },
            Transport::StepBack => Timeline {
                cursor: clamped(self.cursor - STEP, bounds) as i64,
                ..self
            },
            Transport::PlayPause => Timeline { playing: !self.playing, ..self },
            Transport::StepForward => Timeline {
                cursor: clamped(self.cursor + STEP, bounds) as i64,
                ..self
            },
            Transport::JumpToEnd => match bounds {
                Some((_, hi)) => Timeline { cursor: hi, ..self },
                None => self,
            },
            Transport::BoxZoom => Timeline { box_zoom: !self.box_zoom, ..self },
            Transport::ZoomToFit => match bounds {
                Some((lo, hi)) => Timeline {
                    view_start: window(lo as int, hi as int).0 as i64,
                    view_end: window(lo as int, hi as int).1 as i64,
                    ..self
                },
                None => self,
            },
            Transport::Speed(speed) => Timeline { speed, ..self },
            Transport::Scrub { at, of } => match bounds {
                Some((lo, hi)) => if lo < hi && of > 0 {
                    Timeline { cursor: scrubbed(lo, hi, at, of) as i64, playing: false, ..self }
                } else {
                    self
                },
                None => self,
            },
        }
    }

    /// Does what the transport bar asked for. Returns `true` if that changed the playhead or
    /// the visible range.
    pub fn transport(&mut self, command: Transport, bounds: Option<(i64, i64)>) -> (changed: bool)
        requires
            ordered(bounds),
            instant(clamped(old(self).cursor - STEP, bounds)),
            instant(clamped(old(self).cursor + STEP, bounds)),
            match bounds {
                Some((lo, hi)) => instants(window(lo as int, hi as int)),
                None => true,
            },
        ensures
            *final(self) == old(self).transported(command, bounds),
            changed == match command {
                Transport::StepBack | Transport::StepForward | Transport::ZoomToFit => true,
                Transport::JumpToStart | Transport::JumpToEnd => bounds is Some,
                Transport::Scrub { at: _, of } => of > 0 && match bounds {
                    Some((lo, hi)) => lo < hi,
                    None => false,
                },
                _ => false,
            },
    {
        match command {
            Transport::JumpToStart => match bounds {
                Some((lo, _)) => {
                    self.seek(lo, bounds);
                    true
                },
                None => false,
            },
            Transport::StepBack => {
                self.step(-STEP, bounds);
                true
            },
            Transport::PlayPause => {
                self.playing = !self.playing;
                false
            },
            Transport::StepForward => {
                self.step(STEP, bounds);
                true
            },
            Transport::JumpToEnd => match bounds {
                Some((_, hi)) => {
                    self.seek(hi, bounds);
                    true
                },
                None => false,
            },
            Transport::BoxZoom => {
                self.box_zoom = !self.box_zoom;
                false
            },
            Transport::ZoomToFit => {
                self.reset_view(bounds);
                true
            },
            Transport::Speed(speed) => {
                self.speed = speed;
                false
            },
            Transport::Scrub { at, of } => match bounds {
                Some((lo, hi)) => {
                    if lo < hi && of > 0 {
                        let part: u32 = if at < of {
                            at
                        } else {
                            of
                        };
                        let span: i128 = hi as i128 - lo as i128;
                        proof {
                            lemma_part_of(span as int, part as int, of as int);
                        }
                        let along: i128 = span * part as i128 / of as i128;
                        self.seek((lo as i128 + along) as i64, bounds);
                        self.playing = false;
                        true
                    } else {
                        false
                    }
                },
                None => false,
            },
        }
    }
}

proof fn lemma_part_of(span: int, part: int, of: int)
    requires
        0 <= span <= 0xFFFF_FFFF_FFFF_FFFF,
        0 <= part <= of <= 0xFFFF_FFFF,
        of > 0,
    ensures
        0 <= span * part <= 0xFFFF_FFFF_FFFF_FFFF * 0xFFFF_FFFF,
        0 <= span * part / of <= span,
{
    assert(0 <= span * part <= 0xFFFF_FFFF_FFFF_FFFF * 0xFFFF_FFFF) by (nonlinear_arith)
        requires
            0 <= span <= 0xFFFF_FFFF_FFFF_FFFF,
            0 <= part <= 0xFFFF_FFFF,
    ;
    assert(0 <= span * part / of <= span) by (nonlinear_arith)
        requires
            0 <= span,
            0 <= part <= of,
            of > 0,
    ;
}

/// Scrubbing stays on the data, and reaches both ends.
pub proof fn scrubbing_covers_the_data(lo: i64, hi: i64, at: u32, of: u32)
    requires
        lo <= hi,
        of > 0,
    ensures
        lo <= scrubbed(lo, hi, at, of) <= hi,
        at == 0 ==> scrubbed(lo, hi, at, of) == lo,
        at >= of ==> scrubbed(lo, hi, at, of) == hi,
{
    let part = if at < of {
        at
    } else {
        of
    };
    lemma_part_of(hi - lo, part as int, of as int);
    if at >= of {
        assert((hi - lo) * of / (of as int) == hi - lo) by (nonlinear_arith)
            requires
                of > 0,
        ;
    }
    if at == 0 {
        assert((hi - lo) * 0 / (of as int) == 0) by (nonlinear_arith)
            requires
                of > 0,
        ;
    }
}

/// Where a speed stands on the ladder, the middle for one that is not on it.
pub open spec fn speed_index(speed: u32) -> int {
    if exists|i: int| 0 <= i < 7 && SPEEDS@[i] == speed {
        choose|i: int| 0 <= i < 7 && SPEEDS@[i] == speed
    } else {
        3
    }
}

/// The next playback speed up the ladder, or down; the ends stay.
pub open spec fn next_speed_spec(current: u32, up: bool) -> u32 {
    SPEEDS@[if up {
        if speed_index(current) < 6 {
            speed_index(current) + 1
        } else {
            6
        }
    } else {
        if speed_index(current) > 0 {
            speed_index(current) - 1
        } else {
            0
        }
    }]
}

/// The next playback speed up the ladder, or down; the ends stay.
pub fn next_speed(current: u32, up: bool) -> (r: u32)
    ensures
        r == next_speed_spec(current, up),
{
    let mut index: usize = 3;
    let mut i: usize = 0;
    let mut found = false;
    while i < 7
        invariant
            i <= 7,
            found ==> index < 7 && SPEEDS@[index as int] == current,
            !found ==> index == 3 && forall|k: int| 0 <= k < i ==> SPEEDS@[k] != current,
        decreases 7 - i,
    {
        if SPEEDS[i] == current {
            index = i;
            found = true;
        }
        i += 1;
    }
    proof {
        if found {
            assert(SPEEDS@[index as int] == current);
            let k = speed_index(current);
            assert(0 <= k < 7 && SPEEDS@[k] == current);
            assert(k == index);
        }
    }
    if up {
        SPEEDS[if index < 6 {
            index + 1
        } else {
            6
        }]
    } else {
        SPEEDS[if index > 0 {
            index - 1
        } else {
            0
        }]
    }
}

} // verus!
