//! How a value axis is divided: how many numbers there is room for, which step of the ladder they
//! are apart, and at what precision they are written.
use vstd::prelude::*;

use crate::double::{nearest_to, Double};

verus! {

/// Whether an axis can show a range of values: finite, and not empty.
pub fn is_drawable_values(range: (Double, Double)) -> (r: bool)
    ensures
        r <==> range.0.finite() && range.1.finite() && range.0.lt(range.1),
{
    range.0.is_finite() && range.1.is_finite() && range.0.less(range.1)
}

/// How many steps to divide an axis into, given its height and the room a number takes, both in
/// hundredths of a unit. A number takes a unit at least. `None` where there is no height.
pub open spec fn wanted_spec(height: int, spacing: int) -> Option<int> {
    let room = if spacing < 100 {
        100
    } else {
        spacing
    };
    if height <= 0 {
        None
    } else if height < room {
        Some(1)
    } else {
        Some(height / room)
    }
}

/// How many steps to divide an axis into.
pub fn ticks_wanted(height: i64, spacing: i64) -> (r: Option<i64>)
    ensures
        match r {
            Some(n) => wanted_spec(height as int, spacing as int) == Some(n as int),
            None => wanted_spec(height as int, spacing as int) is None,
        },
{
    let room: i64 = if spacing < 100 {
        100
    } else {
        spacing
    };
    if height <= 0 {
        None
    } else if height < room {
        Some(1)
    } else {
        Some(height / room)
    }
}

/// A taller axis has no fewer steps.
pub proof fn ticks_thin_out_with_the_height(short: int, tall: int, spacing: int)
    requires
        0 < short <= tall,
    ensures
        1 <= wanted_spec(short, spacing).unwrap() <= wanted_spec(tall, spacing).unwrap(),
{
    let room = if spacing < 100 {
        100
    } else {
        spacing
    };
    vstd::arithmetic::div_mod::lemma_div_is_ordered(short, tall, room);
    if tall >= room {
        vstd::arithmetic::div_mod::lemma_div_is_ordered(room, tall, room);
        vstd::arithmetic::div_mod::lemma_div_by_self(room);
    }
    if short >= room {
        vstd::arithmetic::div_mod::lemma_div_is_ordered(room, short, room);
    }
}

/// Whether a number is a whole one or below it.
pub open spec fn at_most(v: Double, n: int) -> bool {
    !v.nan() && !nearest_to(n).lt(v)
}

/// The first of 1, 2 and 5 that a number does not pass, and 10 where it passes all of them.
pub open spec fn factor_spec(normalized: Double) -> u8 {
    if at_most(normalized, 1) {
        1
    } else if at_most(normalized, 2) {
        2
    } else if at_most(normalized, 5) {
        5
    } else {
        10
    }
}

fn reaches(n: i64, v: Double) -> (r: bool)
    ensures
        r == at_most(v, n as int),
{
    !v.is_nan() && !Double::from_int(n).less(v)
}

/// The step of the ladder for a length, once the length is divided by its power of ten.
pub fn step_factor(normalized: Double) -> (r: u8)
    ensures
        r == factor_spec(normalized),
{
    if reaches(1, normalized) {
        1
    } else if reaches(2, normalized) {
        2
    } else if reaches(5, normalized) {
        5
    } else {
        10
    }
}

/// A step is at or above the length it is for.
pub proof fn a_step_covers_its_length(normalized: Double)
    requires
        at_most(normalized, 10),
    ensures
        at_most(normalized, factor_spec(normalized) as int),
{
}

/// How many decimals the numbers of an axis have, given their step and its power of ten: as many
/// as the step resolves, up to six.
pub open spec fn decimals_spec(positive: bool, exponent: int) -> int {
    if !positive {
        3
    } else if exponent >= 0 {
        0
    } else if exponent <= -6 {
        6
    } else {
        -exponent
    }
}

/// How many decimals the numbers of an axis have.
pub fn decimals(step: Double, exponent: i32) -> (r: u8)
    ensures
        r == decimals_spec(nearest_to(0).lt(step), exponent as int),
{
    if !Double::from_int(0).less(step) {
        3
    } else if exponent >= 0 {
        0
    } else if exponent <= -6 {
        6
    } else {
        (-exponent) as u8
    }
}

} // verus!
