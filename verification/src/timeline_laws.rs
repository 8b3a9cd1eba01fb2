//! How the playhead and the visible window move.
use vstd::prelude::*;

use crate::timeline::{
    clamped, next_speed_spec, scaled, speed_index, window, Timeline, Transport, SPEEDS,
};

verus! {

/// An instant pulled into a range is in it, is the instant itself where that is in it, and is the
/// nearer end otherwise.
pub proof fn pulling_in_goes_no_further_than_needed(t: int, lo: i64, hi: i64)
    requires
        lo <= hi,
    ensures
        lo <= clamped(t, Some((lo, hi))) <= hi,
        lo <= t <= hi ==> clamped(t, Some((lo, hi))) == t,
        t < lo ==> clamped(t, Some((lo, hi))) == lo,
        t > hi ==> clamped(t, Some((lo, hi))) == hi,
        clamped(t, None) == t,
{
}

/// Playing moves the playhead on by the time that passed, times the speed, to the microsecond; at
/// full speed by the time itself.
pub proof fn playing_takes_its_time(t: Timeline, dt: u32)
    ensures
        t.played(dt) >= t.cursor,
        100 * (t.played(dt) - t.cursor) <= dt * t.speed < 100 * (t.played(dt) - t.cursor) + 100,
        t.speed == 100 ==> t.played(dt) == t.cursor + dt,
        t.speed == 200 ==> t.played(dt) == t.cursor + 2 * dt,
{
    let n = dt * t.speed;
    assert(n >= 0) by (nonlinear_arith)
        requires
            n == dt * t.speed,
            dt >= 0,
            t.speed >= 0,
    ;
}

/// A distance is scaled to the nearest number that is not beyond it, on the side it was on.
pub proof fn a_distance_is_scaled(d: int, num: int, den: int)
    requires
        0 < den,
        0 <= num,
    ensures
        d >= 0 ==> 0 <= scaled(d, num, den) && den * scaled(d, num, den) <= d * num < den * scaled(
            d,
            num,
            den,
        ) + den,
        scaled(-d, num, den) == -scaled(d, num, den),
        num == den ==> scaled(d, num, den) == d,
{
    let m = if d >= 0 {
        d
    } else {
        -d
    };
    let n = m * num;
    assert(n >= 0) by (nonlinear_arith)
        requires
            n == m * num,
            m >= 0,
            num >= 0,
    ;
    vstd::arithmetic::div_mod::lemma_fundamental_div_mod(n, den);
    vstd::arithmetic::div_mod::lemma_mod_bound(n, den);
    let q = n / den;
    assert(q >= 0) by (nonlinear_arith)
        requires
            n == den * q + n % den,
            0 <= n % den < den,
            n >= 0,
            den > 0,
    ;
    if num == den {
        assert(m * den == den * m) by (nonlinear_arith);
        vstd::arithmetic::div_mod::lemma_div_multiples_vanish(m, den);
    }
    if d == 0 {
        assert(0 * num == 0);
        assert(0int / den == 0) by (nonlinear_arith)
            requires
                den > 0,
        ;
    }
}

/// A zoom by one is the window as it was, where that is wide enough; and whatever it is by, both
/// ends move towards the centre or away from it together.
pub proof fn a_zoom_scales_about_its_centre(t: Timeline, num: u32, den: u32, centre: i64)
    requires
        den > 0,
        t.view_start <= centre <= t.view_end,
        t.view_end - t.view_start >= 1000,
    ensures
        num == den ==> t.zoomed(num, den, centre) == t.view_window(),
        ({
            let (a, b) = t.zoomed(num, den, centre);
            num <= den ==> t.view_start <= a && b <= t.view_end || b - a == 1000
        }),
        ({
            let (a, b) = t.zoomed(num, den, centre);
            num >= den ==> a <= t.view_start && t.view_end <= b
        }),
{
    let (p, q) = (centre - t.view_start, t.view_end - centre);
    a_distance_is_scaled(p, num as int, den as int);
    a_distance_is_scaled(q, num as int, den as int);
    let (x, y) = (scaled(p, num as int, den as int), scaled(q, num as int, den as int));
    assert(scaled(t.view_start - centre, num as int, den as int) == -x);
    assert(num <= den ==> x <= p && y <= q) by (nonlinear_arith)
        requires
            den * x <= p * num,
            den * y <= q * num,
            p >= 0,
            q >= 0,
            den > 0,
    ;
    assert(num >= den ==> x >= p && y >= q) by (nonlinear_arith)
        requires
            p * num < den * x + den,
            q * num < den * y + den,
            p >= 0,
            q >= 0,
            den > 0,
    ;
    assert(x >= 0 && y >= 0);
}

/// A step forward and a step back end where they began, away from the ends of the data, and the
/// two switches undo themselves. Jumping goes to the ends.
pub proof fn the_transport_undoes_itself(t: Timeline, lo: i64, hi: i64)
    requires
        lo <= t.cursor - 1_000_000,
        t.cursor + 1_000_000 <= hi,
    ensures
        ({
            let range = Some((lo, hi));
            let forward = t.transported(Transport::StepForward, range);
            let back = t.transported(Transport::StepBack, range);
            &&& forward.cursor == t.cursor + 1_000_000
            &&& back.cursor == t.cursor - 1_000_000
            &&& forward.transported(Transport::StepBack, range) == t
            &&& back.transported(Transport::StepForward, range) == t
            &&& t.transported(Transport::PlayPause, range).playing != t.playing
            &&& t.transported(Transport::PlayPause, range).transported(
                Transport::PlayPause,
                range,
            ) == t
            &&& t.transported(Transport::BoxZoom, range).box_zoom != t.box_zoom
            &&& t.transported(Transport::BoxZoom, range).transported(Transport::BoxZoom, range) == t
            &&& t.transported(Transport::JumpToStart, range).cursor == lo
            &&& t.transported(Transport::JumpToEnd, range).cursor == hi
        }),
{
}

/// Faster is faster and slower is slower, a notch of the ladder at a time: the two undo each other
/// between its ends, and its ends stay.
pub proof fn speeds_go_up_and_down(i: int)
    requires
        0 <= i < 7,
    ensures
        next_speed_spec(SPEEDS@[i], true) >= SPEEDS@[i],
        next_speed_spec(SPEEDS@[i], false) <= SPEEDS@[i],
        i < 6 ==> next_speed_spec(SPEEDS@[i], true) == SPEEDS@[i + 1] && next_speed_spec(
            next_speed_spec(SPEEDS@[i], true),
            false,
        ) == SPEEDS@[i],
        i > 0 ==> next_speed_spec(SPEEDS@[i], false) == SPEEDS@[i - 1],
{
    lemma_speed(i);
    if i < 6 {
        lemma_speed(i + 1);
    }
}

proof fn lemma_speed(i: int)
    requires
        0 <= i < 7,
    ensures
        speed_index(SPEEDS@[i]) == i,
{
    let k = speed_index(SPEEDS@[i]);
    assert(SPEEDS@[i] == SPEEDS@[i]);
    assert(0 <= k < 7 && SPEEDS@[k] == SPEEDS@[i]);
}

/// A window is what was asked for, whichever end was given first, where that is wide enough; a
/// narrower one is a millisecond about its middle.
pub proof fn a_window_is_what_was_asked_for(a: int, b: int)
    ensures
        window(a, b) == window(b, a),
        a + 1000 <= b ==> window(a, b) == (a, b),
        a <= b < a + 1000 ==> window(a, b).1 - window(a, b).0 == 1000 && window(a, b).0 <= a && b
            <= window(a, b).1 + 1,
{
}

} // verus!
