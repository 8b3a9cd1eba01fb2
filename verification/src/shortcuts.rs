//! Transport controls on the keyboard, so reviewing a run doesn't mean hunting for a toolbar
//! button between every step.
use vstd::prelude::*;

use crate::timeline::{
    clamped, instant, instants, next_speed, next_speed_spec, ordered, window, Timeline,
};

verus! {

/// The keys that do something.
#[derive(Clone, Copy, PartialEq, Eq, Structural, Debug)]
pub enum Key {
    Space,
    ArrowLeft,
    ArrowRight,
    ArrowUp,
    ArrowDown,
    Home,
    End,
    Plus,
    Equals,
    Minus,
    R,
    B,
}

/// What else was held down.
#[derive(Clone, Copy, PartialEq, Eq, Structural, Debug)]
pub struct Modifiers {
    pub shift: bool,
    pub alt: bool,
    pub ctrl: bool,
    pub command: bool,
}

impl Modifiers {
    pub open spec fn none(self) -> bool {
        !self.shift && !self.alt && !self.ctrl && !self.command
    }
}

/// What a key asks for.
#[derive(Clone, Copy, PartialEq, Eq, Structural, Debug)]
pub enum Command {
    PlayPause,
    /// Move the playhead by so many microseconds, and stop playing.
    Step(i64),
    JumpToStart,
    JumpToEnd,
    Faster,
    Slower,
    /// Zoom about the playhead: it is what the user is looking at, and it keeps the moment of
    /// interest on screen however far in they go.
    ZoomIn,
    ZoomOut,
    /// Show everything, and forget every pinned value range.
    ResetView,
    BoxZoom,
}

/// How far an arrow moves the playhead: shift for a coarse step, alt for a fine one, which is the
/// same gesture at three scales rather than three keys.
pub open spec fn step_spec(held: Modifiers) -> i64 {
    if held.shift {
        10_000_000
    } else if held.alt {
        100_000
    } else {
        1_000_000
    }
}

/// What a key asks for. A held arrow scrubs; a held toggle does not flicker.
pub fn command(key: Key, repeat: bool, held: Modifiers) -> (r: Option<Command>)
    ensures
        r == match key {
            Key::Space => if repeat {
                None
            } else {
                Some(Command::PlayPause)
            },
            Key::R => if repeat || !held.none() {
                None
            } else {
                Some(Command::ResetView)
            },
            Key::B => if repeat || !held.none() {
                None
            } else {
                Some(Command::BoxZoom)
            },
            Key::ArrowLeft => Some(Command::Step((0 - step_spec(held)) as i64)),
            Key::ArrowRight => Some(Command::Step(step_spec(held))),
            Key::ArrowUp => Some(Command::Faster),
            Key::ArrowDown => Some(Command::Slower),
            Key::Home => Some(Command::JumpToStart),
            Key::End => Some(Command::JumpToEnd),
            Key::Plus => Some(Command::ZoomIn),
            Key::Equals => Some(Command::ZoomIn),
            Key::Minus => Some(Command::ZoomOut),
        },
{
    let step: i64 = if held.shift {
        10_000_000
    } else if held.alt {
        100_000
    } else {
        1_000_000
    };
    let bare = !held.shift && !held.alt && !held.ctrl && !held.command;
    match key {
        Key::Space => if repeat {
            None
        } else {
            Some(Command::PlayPause)
        },
        Key::R => if repeat || !bare {
            None
        } else {
            Some(Command::ResetView)
        },
        Key::B => if repeat || !bare {
            None
        } else {
            Some(Command::BoxZoom)
        },
        Key::ArrowLeft => Some(Command::Step(-step)),
        Key::ArrowRight => Some(Command::Step(step)),
        Key::ArrowUp => Some(Command::Faster),
        Key::ArrowDown => Some(Command::Slower),
        Key::Home => Some(Command::JumpToStart),
        Key::End => Some(Command::JumpToEnd),
        Key::Plus => Some(Command::ZoomIn),
        Key::Equals => Some(Command::ZoomIn),
        Key::Minus => Some(Command::ZoomOut),
    }
}

/// The timeline after a key asked for something.
pub open spec fn obeyed(t: Timeline, command: Command, bounds: Option<(i64, i64)>) -> Timeline {
    let shown = |w: (int, int)|
        Timeline { view_start: w.0 as i64, view_end: w.1 as i64, ..t };
    match command {
        Command::PlayPause => Timeline { playing: !t.playing, ..t },
        Command::Step(delta) => Timeline {
            cursor: clamped(t.cursor + delta, bounds) as i64,
            playing: false,
            ..t
        },
        Command::JumpToStart => Timeline {
            cursor: match bounds {
                Some((lo, _)) => lo,
                None => 0,
            },
            ..t
        },
        Command::JumpToEnd => Timeline {
            cursor: match bounds {
                Some((_, hi)) => hi,
                None => 0,
            },
            ..t
        },
        Command::Faster => Timeline { speed: next_speed_spec(t.speed, true), ..t },
        Command::Slower => Timeline { speed: next_speed_spec(t.speed, false), ..t },
        Command::ZoomIn => shown(t.zoomed(1, 2, t.cursor)),
        Command::ZoomOut => shown(t.zoomed(2, 1, t.cursor)),
        Command::ResetView => match bounds {
            Some((lo, hi)) => shown(window(lo as int, hi as int)),
            None => t,
        },
        Command::BoxZoom => Timeline { box_zoom: !t.box_zoom, ..t },
    }
}

/// Does what a key asked for. Returns `true` where every pinned value range is to be forgotten
/// too.
pub fn obey(timeline: &mut Timeline, command: Command, bounds: Option<(i64, i64)>) -> (forget: bool)
    requires
        ordered(bounds),
        match bounds {
            Some((lo, hi)) => instants(window(lo as int, hi as int)),
            None => true,
        },
        match command {
            Command::Step(delta) => instant(clamped(old(timeline).cursor + delta, bounds)),
            Command::ZoomIn => instants(old(timeline).zoomed(1, 2, old(timeline).cursor)),
            Command::ZoomOut => instants(old(timeline).zoomed(2, 1, old(timeline).cursor)),
            _ => true,
        },
    ensures
        *final(timeline) == obeyed(*old(timeline), command, bounds),
        forget == (command == Command::ResetView),
{
    let cursor: i64 = timeline.cursor;
    match command {
        Command::PlayPause => {
            timeline.playing = !timeline.playing;
        },
        Command::Step(delta) => {
            timeline.step(delta, bounds);
            timeline.playing = false;
        },
        Command::JumpToStart => {
            let start: i64 = match bounds {
                Some((lo, _)) => lo,
                None => 0,
            };
            timeline.seek(start, bounds);
        },
        Command::JumpToEnd => {
            let end: i64 = match bounds {
                Some((_, hi)) => hi,
                None => 0,
            };
            timeline.seek(end, bounds);
        },
        Command::Faster => {
            timeline.speed = next_speed(timeline.speed, true);
        },
        Command::Slower => {
            timeline.speed = next_speed(timeline.speed, false);
        },
        Command::ZoomIn => {
            timeline.zoom_view(1, 2, cursor);
        },
        Command::ZoomOut => {
            timeline.zoom_view(2, 1, cursor);
        },
        Command::ResetView => {
            timeline.reset_view(bounds);
        },
        Command::BoxZoom => {
            timeline.box_zoom = !timeline.box_zoom;
        },
    }
    matches!(command, Command::ResetView)
}

/// However far in or out a key zooms, the playhead stays in the window.
pub proof fn a_zoom_keeps_the_playhead_in_view(t: Timeline, bounds: Option<(i64, i64)>)
    requires
        t.view_start <= t.cursor <= t.view_end,
        instants(t.zoomed(1, 2, t.cursor)),
        instants(t.zoomed(2, 1, t.cursor)),
    ensures
        ({
            let near = obeyed(t, Command::ZoomIn, bounds);
            near.view_start <= t.cursor <= near.view_end
        }),
        ({
            let far = obeyed(t, Command::ZoomOut, bounds);
            far.view_start <= t.cursor <= far.view_end
        }),
{
}

} // verus!
