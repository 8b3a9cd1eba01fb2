//! Keeping sound and pictures in step with the playhead: what to ask of the player and of the
//! decoder, and when. Times are microseconds on the recording's own clock.
use vstd::prelude::*;

verus! {

/// How far a playing recording may drift before it is pulled back.
pub const MAX_DRIFT: i64 = 300_000;

/// How far the playhead may be scrubbed before a paused recording follows.
pub const MAX_SCRUB: i64 = 50_000;

/// What an audio player was last told.
#[derive(Clone, Copy, PartialEq, Eq, Structural, Debug)]
pub struct AudioSync {
    pub last_playing: bool,
    pub last_synced_at: i64,
}

/// What to tell an audio player: where to go, and then whether to play.
#[derive(Clone, Copy, PartialEq, Eq, Structural, Debug)]
pub struct AudioCommand {
    pub seek: Option<i64>,
    pub play: Option<bool>,
}

/// Whether two instants are more than so far apart.
pub open spec fn apart(a: i64, b: i64, limit: i64) -> bool {
    a - b > limit || b - a > limit
}

fn is_apart(a: i64, b: i64, limit: i64) -> (r: bool)
    ensures
        r == apart(a, b, limit),
{
    let d: i128 = a as i128 - b as i128;
    d > limit as i128 || -d > limit as i128
}

impl AudioSync {
    pub fn new() -> (r: Self)
        ensures
            !r.last_playing,
            r.last_synced_at == 0,
    {
        AudioSync { last_playing: false, last_synced_at: 0 }
    }

    /// Where the player is to go, if anywhere: to the playhead when playback starts or stops,
    /// when a playing recording has drifted, and when a paused one was scrubbed.
    pub open spec fn seek_spec(self, target: i64, playing: bool, actual: i64) -> Option<i64> {
        let at = if target > 0 {
            target
        } else {
            0
        };
        if playing != self.last_playing || (playing && apart(actual, at, MAX_DRIFT)) || (!playing
            && apart(at, self.last_synced_at, MAX_SCRUB)) {
            Some(at)
        } else {
            None
        }
    }

    /// Called once per frame with the playhead on this recording's clock, whether the timeline
    /// is playing, and where the player actually is.
    pub fn sync(&mut self, target: i64, playing: bool, actual: i64) -> (r: AudioCommand)
        ensures
            r.seek == old(self).seek_spec(target, playing, actual),
            r.play == if playing != old(self).last_playing {
                Some(playing)
            } else {
                None
            },
            final(self).last_playing == playing,
            final(self).last_synced_at == match r.seek {
                Some(at) => at,
                None => old(self).last_synced_at,
            },
    {
        let at: i64 = if target > 0 {
            target
        } else {
            0
        };
        let turned = playing != self.last_playing;
        let off = if playing {
            is_apart(actual, at, MAX_DRIFT)
        } else {
            // Paused, but the user may have scrubbed: keep the decoder positioned so that
            // playback resumes from the right spot.
            is_apart(at, self.last_synced_at, MAX_SCRUB)
        };
        self.last_playing = playing;
        let seek = if turned || off {
            self.last_synced_at = at;
            Some(at)
        } else {
            None
        };
        AudioCommand {
            seek,
            play: if turned {
                Some(playing)
            } else {
                None
            },
        }
    }
}

/// A recording that was just synchronized, and is where it was sent, is left alone.
pub proof fn a_synchronized_player_is_left_alone(s: AudioSync, target: i64, playing: bool)
    requires
        s.last_playing == playing,
        target >= 0,
        s.last_synced_at == target,
    ensures
        s.seek_spec(target, playing, target) is None,
{
}

/// The frame that a decoder was last asked for.
#[derive(Clone, Copy, PartialEq, Eq, Structural, Debug)]
pub struct FrameRequests {
    pub last: Option<i64>,
}

impl FrameRequests {
    pub fn new() -> (r: Self)
        ensures
            r.last is None,
    {
        FrameRequests { last: None }
    }

    /// Whether the frame at `t` has to be asked for: not where the last one asked for was the
    /// same.
    pub fn request(&mut self, t: i64) -> (send: bool)
        ensures
            send == (old(self).last != Some(t)),
            final(self).last == Some(t),
    {
        let send = match self.last {
            Some(last) => last != t,
            None => true,
        };
        self.last = Some(t);
        send
    }
}

/// The frame to decode out of the waiting requests: only the most recent one, and none where
/// that is the one that was served last.
pub fn next_frame(first: i64, waiting: &Vec<i64>, served: Option<i64>) -> (r: Option<i64>)
    ensures
        ({
            let newest = if waiting@.len() == 0 {
                first
            } else {
                waiting@.last()
            };
            r == if served == Some(newest) {
                None
            } else {
                Some(newest)
            }
        }),
{
    let newest: i64 = if waiting.len() == 0 {
        first
    } else {
        waiting[waiting.len() - 1]
    };
    let same = match served {
        Some(s) => s == newest,
        None => false,
    };
    if same {
        None
    } else {
        Some(newest)
    }
}

} // verus!
