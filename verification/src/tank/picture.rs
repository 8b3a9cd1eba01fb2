//! What a tank pane paints: the grid of held samples, the regions that stand for them, the
//! room there is to draw in, and the ramp of colours.
use vstd::prelude::*;

use crate::clock::{format_utc, utc_label_spec, utc_text, whole_seconds};
use crate::colors::Rgb;
use crate::double::Double;
use crate::model::Project;
use crate::picker::{follow, target, SeriesRef};
use crate::series::{Sample, TimeSeries};
use crate::tank::sensors::TANK_SENSORS;
use crate::tank::TankSpec;
use crate::text::{dec, push_dec};
use crate::vapor::moved_series;

verus! {

broadcast use vstd::seq_lib::group_seq_properties;

/// Blue through a neutral middle to red, a quarter of the ramp apart. Diverging rather than a
/// single hue ramp on purpose: the eye reads the crossing point, so a layer boundary in the tank
/// shows up as an edge instead of as a slow shade change.
pub const RAMP: [(u8, u8, u8); 5] = [
    (0x0A, 0x2C, 0xB4),
    (0x4E, 0x92, 0xD8),
    (0xE6, 0xE4, 0xDC),
    (0xEC, 0x8C, 0x38),
    (0xD8, 0x14, 0x18),
];

/// How warm a stop of the ramp looks: red minus blue.
pub open spec fn warmth(stop: int) -> int {
    RAMP@[stop].0 - RAMP@[stop].2
}

/// Warmth climbs all the way along the ramp, from one stop to a later one and on the line
/// between two neighbours. Lightness cannot: a diverging map is bright in the middle by
/// construction. So warmth is the only thing carrying the ordering.
pub proof fn the_ramp_never_cools(stop: int, n: int, m: int, of: int)
    requires
        0 <= stop < 4,
        0 <= n <= m <= of,
    ensures
        forall|i: int, j: int| 0 <= i <= j < 5 ==> #[trigger] warmth(i) <= #[trigger] warmth(j),
        warmth(stop) * (of - n) + warmth(stop + 1) * n <= warmth(stop) * (of - m) + warmth(stop + 1)
            * m,
{
    assert(warmth(0) < warmth(1) < warmth(2) < warmth(3) < warmth(4));
    let a = warmth(stop);
    let b = warmth(stop + 1);
    assert(a <= b);
    assert(a * (of - n) + b * n <= a * (of - m) + b * m) by (nonlinear_arith)
        requires
            a <= b,
            n <= m,
    ;
}

/// A stop of the ramp.
pub fn ramp_stop(stop: usize) -> (c: Rgb)
    requires
        stop < 5,
    ensures
        (c.r, c.g, c.b) == RAMP@[stop as int],
{
    let (r, g, b) = RAMP[stop];
    Rgb { r, g, b }
}

/// Where a temperature lands on the ramp: the stop below it, and how far it is on the way to the
/// next one, as a part and the whole. Past the ends it stays at the end.
pub open spec fn along(c: int, lo: int, hi: int) -> (int, int, int) {
    if c <= lo {
        (0, 0, 1)
    } else if c >= hi {
        (3, 1, 1)
    } else {
        let stop = 4 * (c - lo) / (hi - lo);
        (stop, 4 * (c - lo) - stop * (hi - lo), hi - lo)
    }
}

/// The shade a part of the way from one to another, to the nearest.
pub open spec fn mixed(a: int, b: int, part: int, of: int) -> int {
    (2 * (a * (of - part) + b * part) + of) / (2 * of)
}

/// The colour of a temperature between the ends of the scale.
pub open spec fn heat_spec(c: int, lo: int, hi: int) -> (int, int, int) {
    let (stop, part, of) = along(c, lo, hi);
    let below = RAMP@[stop];
    let above = RAMP@[stop + 1];
    (
        mixed(below.0 as int, above.0 as int, part, of),
        mixed(below.1 as int, above.1 as int, part, of),
        mixed(below.2 as int, above.2 as int, part, of),
    )
}

proof fn lemma_mixed(a: int, b: int, part: int, of: int)
    requires
        0 <= a <= 255,
        0 <= b <= 255,
        0 <= part <= of,
        of > 0,
    ensures
        0 <= a * (of - part) + b * part <= 255 * of,
        0 <= mixed(a, b, part, of) <= 255,
{
    let sum = a * (of - part) + b * part;
    assert(0 <= sum <= 255 * of) by (nonlinear_arith)
        requires
            0 <= a <= 255,
            0 <= b <= 255,
            0 <= part <= of,
            sum == a * (of - part) + b * part,
    ;
    assert(0 <= (2 * sum + of) / (2 * of) <= 255) by (nonlinear_arith)
        requires
            0 <= sum <= 255 * of,
            of > 0,
    ;
}

fn mix(a: u8, b: u8, part: i128, of: i128) -> (r: u8)
    requires
        0 <= part <= of,
        0 < of < 0x1_0000_0000_0000_0000,
    ensures
        r == mixed(a as int, b as int, part as int, of as int),
{
    proof {
        lemma_mixed(a as int, b as int, part as int, of as int);
        assert(0 <= a * (of - part) <= 255 * of) by (nonlinear_arith)
            requires
                0 <= a <= 255,
                0 <= part <= of,
        ;
        assert(0 <= b * part <= 255 * of) by (nonlinear_arith)
            requires
                0 <= b <= 255,
                0 <= part <= of,
        ;
    }
    let sum: i128 = a as i128 * (of - part) + b as i128 * part;
    ((2 * sum + of) / (2 * of)) as u8
}

/// The colour of a temperature between the ends of the scale, all in thousandths of a degree.
/// Readings out of range keep the end colour rather than wrapping, so a disconnected probe is
/// simply the coldest blue.
pub fn heat_colour(c: i64, lo: i64, hi: i64) -> (r: Rgb)
    ensures
        (r.r as int, r.g as int, r.b as int) == heat_spec(c as int, lo as int, hi as int),
{
    let (stop, part, of): (usize, i128, i128) = if c <= lo {
        (0, 0, 1)
    } else if c >= hi {
        (3, 1, 1)
    } else {
        let over: i128 = c as i128 - lo as i128;
        let span: i128 = hi as i128 - lo as i128;
        let stop: i128 = 4 * over / span;
        proof {
            let q = 4 * over / span as int;
            assert(0 <= q < 4 && 0 <= 4 * over - q * span < span) by (nonlinear_arith)
                requires
                    0 < over < span,
                    q == 4 * over / span as int,
            ;
        }
        (stop as usize, 4 * over - stop * span, span)
    };
    let (below, above) = (ramp_stop(stop), ramp_stop(stop + 1));
    Rgb {
        r: mix(below.r, above.r, part, of),
        g: mix(below.g, above.g, part, of),
        b: mix(below.b, above.b, part, of),
    }
}

/// The ends of the scale have the ends of the ramp, and so has all that is past them.
pub proof fn the_ends_keep_their_colour(c: int, lo: int, hi: int)
    requires
        lo < hi,
    ensures
        c <= lo ==> heat_spec(c, lo, hi) == heat_spec(lo, lo, hi) && heat_spec(c, lo, hi) == (
            RAMP@[0].0 as int,
            RAMP@[0].1 as int,
            RAMP@[0].2 as int,
        ),
        c >= hi ==> heat_spec(c, lo, hi) == heat_spec(hi, lo, hi) && heat_spec(c, lo, hi) == (
            RAMP@[4].0 as int,
            RAMP@[4].1 as int,
            RAMP@[4].2 as int,
        ),
{
    assert forall|a: int, b: int| #[trigger] mixed(a, b, 0, 1) == a by {}
    assert forall|a: int, b: int| #[trigger] mixed(a, b, 1, 1) == b by {}
}

/// The picture as numbers: moments across the visible window, each holding one reading per
/// sensor, bottom sensor first, in the unit of the series. None where that sensor had said
/// nothing recently enough to stand for that moment.
///
/// The first column is the left edge of the window and the last the right.
pub struct Field {
    pub cols: usize,
    pub cells: Vec<Option<Double>>,
}

impl Field {
    pub open spec fn wf(self) -> bool {
        &&& self.cols >= 2
        &&& self.cells@.len() == self.cols * TANK_SENSORS
    }

    /// The reading of a sensor in a column.
    pub open spec fn cell(self, col: int, sensor: int) -> Option<Double> {
        self.cells@[col * TANK_SENSORS + sensor]
    }

    /// The reading of a sensor in a column.
    pub fn at(&self, col: usize, sensor: usize) -> (r: Option<Double>)
        requires
            self.wf(),
            col < self.cols,
            sensor < TANK_SENSORS,
        ensures
            r == self.cell(col as int, sensor as int),
    {
        let n: usize = self.cells.len();
        assert(col * TANK_SENSORS + sensor < n);
        self.cells[col * TANK_SENSORS + sensor]
    }

    /// Whether nothing at all landed in the window: series that are gone, or a window the log
    /// does not cover.
    pub fn is_empty(&self) -> (r: bool)
        ensures
            r == forall|i: int| 0 <= i < self.cells@.len() ==> #[trigger] self.cells@[i] is None,
    {
        let mut i: usize = 0;
        while i < self.cells.len()
            invariant
                i <= self.cells@.len(),
                forall|k: int| 0 <= k < i ==> #[trigger] self.cells@[k] is None,
            decreases self.cells@.len() - i,
        {
            if self.cells[i].is_some() {
                return false;
            }
            i += 1;
        }
        true
    }
}

/// The moment of a column.
pub open spec fn moment(window: (i64, i64), cols: int, col: int) -> int {
    window.0 + ((window.1 - window.0) * col) / (cols - 1)
}

proof fn lemma_moment(window: (i64, i64), cols: int, col: int)
    requires
        window.0 <= window.1,
        2 <= cols,
        0 <= col < cols,
    ensures
        window.0 <= moment(window, cols, col) <= window.1,
        moment(window, cols, 0) == window.0,
        moment(window, cols, cols - 1) == window.1,
        0 <= (window.1 - window.0) * col,
        col + 1 < cols ==> moment(window, cols, col) <= moment(window, cols, col + 1),
{
    let span = window.1 - window.0;
    let d = cols - 1;
    assert(0 <= span * col <= span * d) by (nonlinear_arith)
        requires
            0 <= span,
            0 <= col <= d,
    ;
    vstd::arithmetic::div_mod::lemma_div_is_ordered(0, span * col, d);
    vstd::arithmetic::div_mod::lemma_div_is_ordered(span * col, span * d, d);
    vstd::arithmetic::div_mod::lemma_div_by_multiple(span, d);
    vstd::arithmetic::div_mod::lemma_basic_div(0, d);
    assert(span * 0 == 0);
    if col + 1 < cols {
        assert(span * col <= span * (col + 1)) by (nonlinear_arith)
            requires
                0 <= span,
        ;
        vstd::arithmetic::div_mod::lemma_div_is_ordered(span * col, span * (col + 1), d);
    }
}

/// The columns go from the left edge of the window to the right, never back.
pub proof fn the_columns_span_the_window(window: (i64, i64), cols: int, col: int)
    requires
        window.0 <= window.1,
        2 <= cols,
        0 <= col < cols,
    ensures
        moment(window, cols, 0) == window.0,
        moment(window, cols, cols - 1) == window.1,
        window.0 <= moment(window, cols, col) <= window.1,
        col + 1 < cols ==> moment(window, cols, col) <= moment(window, cols, col + 1),
{
    lemma_moment(window, cols, col);
}

fn moment_of(window: (i64, i64), cols: usize, col: usize) -> (t: i64)
    requires
        window.0 <= window.1,
        2 <= cols,
        col < cols,
    ensures
        t == moment(window, cols as int, col as int),
{
    proof {
        lemma_moment(window, cols as int, col as int);
        let span = window.1 - window.0;
        assert(span * col <= 0xFFFF_FFFF_FFFF_FFFF * 0xFFFF_FFFF_FFFF_FFFF) by (nonlinear_arith)
            requires
                0 <= span <= 0xFFFF_FFFF_FFFF_FFFF,
                0 <= col <= 0xFFFF_FFFF_FFFF_FFFF,
        ;
    }
    let span: u128 = (window.1 as i128 - window.0 as i128) as u128;
    let ahead: u128 = (span * col as u128) / ((cols - 1) as u128);
    (window.0 as i128 + ahead as i128) as i64
}

/// How long a sample stands for in a grid. A column cannot resolve a gap narrower than itself,
/// and zoomed out the slice is coarser than the log is, so a fixed hold would hollow the strip
/// out at exactly the zoom where the whole run is on screen. It grows with the column instead.
pub open spec fn grown_hold(hold: i64, window: (i64, i64), cols: int) -> int {
    let step = (window.1 - window.0 + cols - 2) / (cols - 1);
    if hold >= step {
        hold as int
    } else {
        step
    }
}

/// How many points from `from` on are reached by an instant, before the first that is after it.
pub open spec fn reached(points: Seq<Sample>, t: int, from: int) -> int
    decreases points.len() - from,
{
    if 0 <= from < points.len() && points[from].0 <= t {
        reached(points, t, from + 1)
    } else {
        from
    }
}

/// What stands for an instant: the last point reached, where it is recent enough and a number.
pub open spec fn held(points: Seq<Sample>, t: int, hold: int) -> Option<Double> {
    let i = reached(points, t, 0);
    if i > 0 && t - points[i - 1].0 <= hold && !points[i - 1].1.nan() {
        Some(points[i - 1].1)
    } else {
        None
    }
}

proof fn lemma_reached(points: Seq<Sample>, t: int, from: int, i: int)
    requires
        0 <= from <= i <= points.len(),
        forall|k: int| from <= k < i ==> (#[trigger] points[k]).0 <= t,
        i == points.len() || points[i].0 > t,
    ensures
        reached(points, t, from) == i,
    decreases i - from,
{
    if from < i {
        assert(points[from].0 <= t);
        lemma_reached(points, t, from + 1, i);
    }
}

/// A point that an instant reaches is reached by every later one, and what stands for an instant
/// was known by then.
pub proof fn nothing_is_filled_in_ahead_of_time(points: Seq<Sample>, t: int, hold: int)
    requires
        held(points, t, hold) is Some,
    ensures
        exists|k: int|
            0 <= k < points.len() && (#[trigger] points[k]).0 <= t && t - points[k].0 <= hold
                && held(points, t, hold) == Some(points[k].1),
{
    lemma_reached_is_before(points, t, 0);
    let i = reached(points, t, 0);
    assert(points[i - 1].0 <= t);
}

proof fn lemma_reached_is_before(points: Seq<Sample>, t: int, from: int)
    requires
        0 <= from <= points.len(),
    ensures
        from <= reached(points, t, from) <= points.len(),
        forall|k: int| from <= k < reached(points, t, from) ==> (#[trigger] points[k]).0 <= t,
    decreases points.len() - from,
{
    if from < points.len() && points[from].0 <= t {
        lemma_reached_is_before(points, t, from + 1);
    }
}

/// One sensor's readings over the columns.
fn strip(points: &Vec<Sample>, window: (i64, i64), cols: usize, hold: i128) -> (r: Vec<
    Option<Double>,
>)
    requires
        window.0 <= window.1,
        2 <= cols,
    ensures
        r@.len() == cols,
        forall|c: int|
            0 <= c < cols ==> #[trigger] r@[c] == held(
                points@,
                moment(window, cols as int, c),
                hold as int,
            ),
{
    let mut out: Vec<Option<Double>> = Vec::new();
    let mut i: usize = 0;
    let mut col: usize = 0;
    while col < cols
        invariant
            window.0 <= window.1,
            2 <= cols,
            col <= cols,
            out@.len() == col,
            i <= points@.len(),
            forall|k: int|
                0 <= k < i ==> col > 0 && (#[trigger] points@[k]).0 <= moment(
                    window,
                    cols as int,
                    col - 1,
                ),
            forall|c: int|
                0 <= c < col ==> #[trigger] out@[c] == held(
                    points@,
                    moment(window, cols as int, c),
                    hold as int,
                ),
        decreases cols - col,
    {
        let t = moment_of(window, cols, col);
        proof {
            if col > 0 {
                lemma_moment(window, cols as int, col - 1);
            }
        }
        while i < points.len() && points[i].0 <= t
            invariant
                i <= points@.len(),
                forall|k: int| 0 <= k < i ==> (#[trigger] points@[k]).0 <= t,
            decreases points@.len() - i,
        {
            i += 1;
        }
        proof {
            lemma_reached(points@, t as int, 0, i as int);
        }
        if i > 0 && t as i128 - points[i - 1].0 as i128 <= hold && !points[i - 1].1.is_nan() {
            out.push(Some(points[i - 1].1));
        } else {
            out.push(None);
        }
        col += 1;
    }
    out
}

/// The first instant that a grid looks at: reaching back one hold means the first column can
/// still be filled by a sample from just before the window.
pub open spec fn reach_back(start: i64, hold: int) -> i64 {
    if start - hold < i64::MIN {
        i64::MIN
    } else {
        (start - hold) as i64
    }
}

/// The points of a series that a grid is made of.
pub open spec fn grid_points(
    s: TimeSeries,
    offset: i64,
    window: (i64, i64),
    cols: int,
    hold: int,
) -> Seq<Sample> {
    let t0 = reach_back(window.0, hold) - offset;
    let t1 = window.1 - offset;
    TimeSeries::moved(
        TimeSeries::covered(s.level_for(s.levels().len(), t0, t1, cols * 4), t0, t1),
        offset,
    )
}

/// What a height reads in a column.
pub open spec fn cell_spec(
    sensor: Option<SeriesRef>,
    project: Project,
    window: (i64, i64),
    cols: int,
    hold: i64,
    col: int,
) -> Option<Double> {
    match sensor {
        Some(r) => match target(project, r) {
            Some(at) => {
                let (s, offset) = moved_series(project, at);
                let longest = grown_hold(hold, window, cols);
                held(
                    grid_points(s, offset, window, cols, longest),
                    moment(window, cols, col),
                    longest,
                )
            },
            None => None,
        },
        None => None,
    }
}

/// What a height reads at an instant.
pub open spec fn reading_spec(
    sensor: Option<SeriesRef>,
    project: Project,
    t: int,
    hold: i64,
) -> Option<Double> {
    match sensor {
        Some(r) => match target(project, r) {
            Some(at) => {
                let (s, offset) = moved_series(project, at);
                match s.last_by(t - offset) {
                    Some(p) => if t - (p.0 + offset) <= hold {
                        Some(p.1)
                    } else {
                        None
                    },
                    None => None,
                }
            },
            None => None,
        },
        None => None,
    }
}

impl TankSpec {
    fn strip_of(&self, project: &Project, window: (i64, i64), cols: usize, sensor: usize) -> (r:
        Vec<Option<Double>>)
        requires
            self.wf(),
            project.wf(),
            window.0 <= window.1,
            2 <= cols,
            cols * TANK_SENSORS <= usize::MAX,
            sensor < TANK_SENSORS,
        ensures
            r@.len() == cols,
            forall|c: int|
                0 <= c < cols ==> #[trigger] r@[c] == cell_spec(
                    self.sensors@[sensor as int],
                    *project,
                    window,
                    cols as int,
                    self.hold,
                    c,
                ),
    {
        let span: i128 = window.1 as i128 - window.0 as i128;
        let step: i128 = (span + (cols - 2) as i128) / ((cols - 1) as i128);
        proof {
            let d = cols - 1;
            vstd::arithmetic::div_mod::lemma_div_nonincreasing(span + cols - 2, d as int);
            vstd::arithmetic::div_mod::lemma_div_pos_is_pos(span + cols - 2, d as int);
        }
        let hold: i128 = if self.hold as i128 >= step {
            self.hold as i128
        } else {
            step
        };
        assert(hold == grown_hold(self.hold, window, cols as int));
        if let Some(r) = &self.sensors[sensor] {
            if let Some((series, offset)) = follow(project, r) {
                let back: i128 = window.0 as i128 - hold;
                let from: i64 = if back < i64::MIN as i128 {
                    i64::MIN
                } else if back > i64::MAX as i128 {
                    i64::MAX
                } else {
                    back as i64
                };
                let points = series.slice_for_range(from, window.1, offset, cols * 4);
                return strip(&points, window, cols, hold);
            }
        }
        let mut out: Vec<Option<Double>> = Vec::new();
        let mut c: usize = 0;
        while c < cols
            invariant
                c <= cols,
                out@.len() == c,
                forall|k: int| 0 <= k < c ==> #[trigger] out@[k] is None,
            decreases cols - c,
        {
            out.push(None);
            c += 1;
        }
        out
    }

    /// Walks each sensor's samples in the window into the column grid.
    ///
    /// A column takes the last sample at or before its moment, which is what makes the picture
    /// a record of what was known at that time rather than an interpolation across a dropout.
    pub fn sample(&self, project: &Project, window: (i64, i64), cols: usize) -> (r: Field)
        requires
            self.wf(),
            0 <= self.hold,
            project.wf(),
            window.0 <= window.1,
            cols * TANK_SENSORS <= usize::MAX,
        ensures
            r.wf(),
            r.cols == if cols < 2 {
                2
            } else {
                cols
            },
            forall|c: int, h: int|
                0 <= c < r.cols && 0 <= h < TANK_SENSORS ==> #[trigger] r.cell(c, h) == cell_spec(
                    self.sensors@[h],
                    *project,
                    window,
                    r.cols as int,
                    self.hold,
                    c,
                ),
    {
        let cols: usize = if cols < 2 {
            2
        } else {
            cols
        };
        let mut strips: Vec<Vec<Option<Double>>> = Vec::new();
        let mut h: usize = 0;
        while h < TANK_SENSORS
            invariant
                h <= TANK_SENSORS,
                self.wf(),
                0 <= self.hold,
                project.wf(),
                window.0 <= window.1,
                2 <= cols,
                cols * TANK_SENSORS <= usize::MAX,
                strips@.len() == h,
                forall|k: int| 0 <= k < h ==> (#[trigger] strips@[k])@.len() == cols,
                forall|k: int, c: int|
                    0 <= k < h && 0 <= c < cols ==> #[trigger] strips@[k]@[c] == cell_spec(
                        self.sensors@[k],
                        *project,
                        window,
                        cols as int,
                        self.hold,
                        c,
                    ),
            decreases TANK_SENSORS - h,
        {
            let one = self.strip_of(project, window, cols, h);
            strips.push(one);
            h += 1;
        }
        let mut cells: Vec<Option<Double>> = Vec::new();
        let mut c: usize = 0;
        while c < cols
            invariant
                c <= cols,
                cols * TANK_SENSORS <= usize::MAX,
                strips@.len() == TANK_SENSORS,
                forall|k: int| 0 <= k < TANK_SENSORS ==> (#[trigger] strips@[k])@.len() == cols,
                cells@.len() == c * TANK_SENSORS,
                forall|a: int, k: int|
                    0 <= a < c && 0 <= k < TANK_SENSORS ==> #[trigger] strips@[k]@[a]
                        == cells@[a * TANK_SENSORS + k],
            decreases cols - c,
        {
            let mut k: usize = 0;
            while k < TANK_SENSORS
                invariant
                    k <= TANK_SENSORS,
                    c < cols,
                    strips@.len() == TANK_SENSORS,
                    forall|k: int|
                        0 <= k < TANK_SENSORS ==> (#[trigger] strips@[k])@.len() == cols,
                    cells@.len() == c * TANK_SENSORS + k,
                    forall|a: int, b: int|
                        0 <= a < c && 0 <= b < TANK_SENSORS ==> #[trigger] strips@[b]@[a]
                            == cells@[a * TANK_SENSORS + b],
                    forall|b: int|
                        0 <= b < k ==> (#[trigger] strips@[b])@[c as int] == cells@[c
                            * TANK_SENSORS + b],
                decreases TANK_SENSORS - k,
            {
                cells.push(strips[k][c]);
                k += 1;
            }
            c += 1;
        }
        let r = Field { cols, cells };
        proof {
            assert forall|c: int, h: int| 0 <= c < r.cols && 0 <= h < TANK_SENSORS implies
                #[trigger] r.cell(c, h) == cell_spec(
                self.sensors@[h],
                *project,
                window,
                r.cols as int,
                self.hold,
                c,
            ) by {
                assert(strips@[h]@[c] == r.cell(c, h));
            }
        }
        r
    }

    /// What each sensor read at the playhead, in the unit of its series. None where the series
    /// has nothing recent enough to answer with: holding a value across a dropout would report
    /// a temperature nobody measured.
    pub fn readings_at(&self, project: &Project, t: i64) -> (r: Vec<Option<Double>>)
        requires
            self.wf(),
            project.wf(),
        ensures
            r@.len() == TANK_SENSORS,
            forall|h: int|
                0 <= h < TANK_SENSORS ==> #[trigger] r@[h] == reading_spec(
                    self.sensors@[h],
                    *project,
                    t as int,
                    self.hold,
                ),
    {
        let mut out: Vec<Option<Double>> = Vec::new();
        let mut h: usize = 0;
        while h < TANK_SENSORS
            invariant
                h <= TANK_SENSORS,
                self.wf(),
                project.wf(),
                out@.len() == h,
                forall|k: int|
                    0 <= k < h ==> #[trigger] out@[k] == reading_spec(
                        self.sensors@[k],
                        *project,
                        t as int,
                        self.hold,
                    ),
            decreases TANK_SENSORS - h,
        {
            let mut reading: Option<Double> = None;
            if let Some(r) = &self.sensors[h] {
                if let Some((series, offset)) = follow(project, r) {
                    if let Some((at, value)) = series.last_at_or_before(t, offset) {
                        if t as i128 - at as i128 <= self.hold as i128 {
                            reading = Some(value);
                        }
                    }
                }
            }
            out.push(reading);
            h += 1;
        }
        out
    }
}

/// What the line of numbers under a pane's settings has to say.
#[derive(Clone, Copy, PartialEq, Eq, Structural, Debug)]
pub enum Summary {
    /// "Pick a row of temperature sensors above."
    Unpicked,
    /// "no reading at the playhead"
    NoReading,
    /// Readings, and how many heights have none.
    Readings { blank: usize },
}

/// How many of the first `n` heights have a reading.
pub open spec fn present(readings: Seq<Option<Double>>, n: nat) -> nat
    decreases n,
{
    if n == 0 {
        0
    } else {
        present(readings, (n - 1) as nat) + if readings[n - 1] is Some {
            1nat
        } else {
            0nat
        }
    }
}

impl Summary {
    /// What there is to say of ten readings, of heights of which `picked` are picked.
    pub fn of(readings: &Vec<Option<Double>>, picked: usize) -> (r: Summary)
        ensures
            r == if present(readings@, readings@.len()) > 0 {
                Summary::Readings {
                    blank: (readings@.len() - present(readings@, readings@.len())) as usize,
                }
            } else if picked == 0 {
                Summary::Unpicked
            } else {
                Summary::NoReading
            },
    {
        let mut n: usize = 0;
        let mut h: usize = 0;
        while h < readings.len()
            invariant
                h <= readings@.len(),
                n <= h,
                n == present(readings@, h as nat),
            decreases readings@.len() - h,
        {
            if readings[h].is_some() {
                n += 1;
            }
            h += 1;
        }
        if n > 0 {
            Summary::Readings { blank: readings.len() - n }
        } else if picked == 0 {
            Summary::Unpicked
        } else {
            Summary::NoReading
        }
    }

    /// The note that a summary adds to the numbers, if it does.
    pub fn note(self) -> (r: Option<String>)
        ensures
            match self {
                Summary::Unpicked => r is Some && r.unwrap()@
                    == "Pick a row of temperature sensors above."@,
                Summary::NoReading => r is Some && r.unwrap()@ == "no reading at the playhead"@,
                Summary::Readings { blank } => if blank > 0 {
                    r is Some && r.unwrap()@ == dec(blank as nat)
                        + " of 10 heights have no reading here"@
                } else {
                    r is None
                },
            },
    {
        match self {
            Summary::Unpicked => Some("Pick a row of temperature sensors above.".to_owned()),
            Summary::NoReading => Some("no reading at the playhead".to_owned()),
            Summary::Readings { blank } => {
                if blank == 0 {
                    return None;
                }
                let mut out = String::new();
                push_dec(&mut out, blank as u64);
                out.append(" of 10 heights have no reading here");
                Some(out)
            },
        }
    }
}

/// Where a sensor sits, in eighteenths of the way up: the first at the bottom, the last at the
/// top.
pub open spec fn sensor_height(sensor: int) -> int {
    2 * sensor
}

/// The height one sensor owns when the picture is drawn as blocks, in eighteenths of the way up:
/// half way to each neighbour, and out to the wall at the two ends. The upper edge first.
///
/// Half way is the only division that needs no assumption about the fluid.
pub fn sensor_band(sensor: usize) -> (r: (u8, u8))
    requires
        sensor < TANK_SENSORS,
    ensures
        r.0 == if sensor + 1 == TANK_SENSORS {
            18
        } else {
            2 * sensor + 1
        },
        r.1 == if sensor == 0 {
            0
        } else {
            2 * sensor - 1
        },
{
    let s: u8 = sensor as u8;
    (
        if sensor + 1 == TANK_SENSORS {
            18
        } else {
            2 * s + 1
        },
        if sensor == 0 {
            0
        } else {
            2 * s - 1
        },
    )
}

/// The band of a sensor, as laws speak of it.
pub open spec fn band(sensor: int) -> (int, int) {
    (
        if sensor + 1 == TANK_SENSORS {
            18
        } else {
            2 * sensor + 1
        },
        if sensor == 0 {
            0
        } else {
            2 * sensor - 1
        },
    )
}

/// Every point in the tank belongs to exactly one sensor: the bands meet without overlap or
/// seam, the two end sensors reach the walls, each band has some height, and each sensor is in
/// its own.
pub proof fn the_bands_tile_the_tank(sensor: int)
    requires
        0 <= sensor < TANK_SENSORS,
    ensures
        band(0).1 == 0,
        band(TANK_SENSORS - 1).0 == 18,
        sensor + 1 < TANK_SENSORS ==> band(sensor + 1).1 == band(sensor).0,
        band(sensor).1 < band(sensor).0,
        band(sensor).1 <= sensor_height(sensor) <= band(sensor).0,
{
}

/// The same division along the time axis, in halves of a column's step from the left edge: a
/// sample stands for the strip from half way back to the one before it to half way on to the one
/// after. The first and last columns therefore reach the edges of the window.
pub fn column_cell(col: usize, cols: usize) -> (r: (u128, u128))
    requires
        2 <= cols,
        col < cols,
    ensures
        (r.0 as int, r.1 as int) == column(col as int, cols as int),
{
    let c: u128 = col as u128;
    (
        if col == 0 {
            0
        } else {
            2 * c - 1
        },
        if col + 1 == cols {
            2 * c
        } else {
            2 * c + 1
        },
    )
}

/// The strip of a column, in halves of a step.
pub open spec fn column(col: int, cols: int) -> (int, int) {
    (
        if col == 0 {
            0
        } else {
            2 * col - 1
        },
        if col + 1 == cols {
            2 * col
        } else {
            2 * col + 1
        },
    )
}

/// The columns tile the window, and the two end columns reach its edges.
pub proof fn the_columns_tile_the_window(col: int, cols: int)
    requires
        2 <= cols,
        0 <= col < cols,
    ensures
        column(0, cols).0 == 0,
        column(cols - 1, cols).1 == 2 * (cols - 1),
        col + 1 < cols ==> column(col + 1, cols).0 == column(col, cols).1,
        column(col, cols).0 < column(col, cols).1,
        column(col, cols).0 <= 2 * col <= column(col, cols).1,
{
}

/// The lines of the grid, in eighteenths of the way up. In blocks mode the line belongs on the
/// seam between two sensors' regions, not through the middle of one.
pub fn grid_lines(blocks: bool) -> (r: Vec<u8>)
    ensures
        blocks ==> r@.len() == TANK_SENSORS - 1 && forall|i: int|
            0 <= i < r@.len() ==> #[trigger] r@[i] == band(i + 1).1,
        !blocks ==> r@.len() == TANK_SENSORS && forall|i: int|
            0 <= i < r@.len() ==> #[trigger] r@[i] == sensor_height(i),
{
    let mut out: Vec<u8> = Vec::new();
    if blocks {
        let mut s: usize = 1;
        while s < TANK_SENSORS
            invariant
                1 <= s <= TANK_SENSORS,
                out@.len() == s - 1,
                forall|i: int| 0 <= i < out@.len() ==> #[trigger] out@[i] == band(i + 1).1,
            decreases TANK_SENSORS - s,
        {
            let (_, lower) = sensor_band(s);
            out.push(lower);
            s += 1;
        }
    } else {
        let mut s: usize = 0;
        while s < TANK_SENSORS
            invariant
                s <= TANK_SENSORS,
                out@.len() == s,
                forall|i: int| 0 <= i < out@.len() ==> #[trigger] out@[i] == sensor_height(i),
            decreases TANK_SENSORS - s,
        {
            out.push(2 * s as u8);
            s += 1;
        }
    }
    out
}

/// Whether the cell above and right of a sensor's moment has readings at all four corners. Half
/// a cell would be a shape the data does not support.
pub open spec fn whole_cell(field: Field, col: int, sensor: int) -> bool {
    &&& field.cell(col, sensor) is Some
    &&& field.cell(col + 1, sensor) is Some
    &&& field.cell(col, sensor + 1) is Some
    &&& field.cell(col + 1, sensor + 1) is Some
}

/// The two triangles of a cell, by the numbers of its corners.
pub open spec fn cell_triangles(col: int, sensor: int) -> Seq<u32> {
    let a = (col * TANK_SENSORS + sensor) as u32;
    let b = ((col + 1) * TANK_SENSORS + sensor) as u32;
    let c = ((col + 1) * TANK_SENSORS + sensor + 1) as u32;
    let d = (col * TANK_SENSORS + sensor + 1) as u32;
    seq![a, b, c, a, c, d]
}

/// The triangles of the first cells, a column at a time and up each.
pub open spec fn triangles_spec(field: Field, col: int, sensors: int) -> Seq<u32>
    decreases col, sensors,
{
    if sensors > 0 {
        let rest = triangles_spec(field, col, sensors - 1);
        if whole_cell(field, col, sensors - 1) {
            rest + cell_triangles(col, sensors - 1)
        } else {
            rest
        }
    } else if col > 0 {
        triangles_spec(field, col - 1, TANK_SENSORS - 1)
    } else {
        Seq::empty()
    }
}

/// The temperature field as one mesh with a vertex at every sensor and moment, as the numbers of
/// its triangles' corners: the shading between sensors is interpolation. A moment in which a
/// sensor said nothing is a hole in the mesh rather than a triangle of some colour.
pub fn heat_mesh(field: &Field) -> (r: Vec<u32>)
    requires
        field.wf(),
        field.cols * TANK_SENSORS <= u32::MAX,
    ensures
        r@ == triangles_spec(*field, field.cols - 1, 0),
{
    let mut out: Vec<u32> = Vec::new();
    let mut col: usize = 0;
    while col < field.cols - 1
        invariant
            field.wf(),
            field.cols * TANK_SENSORS <= u32::MAX,
            col <= field.cols - 1,
            out@ == triangles_spec(*field, col as int, 0),
        decreases field.cols - col,
    {
        let mut sensor: usize = 0;
        while sensor < TANK_SENSORS - 1
            invariant
                field.wf(),
                field.cols * TANK_SENSORS <= u32::MAX,
                col < field.cols - 1,
                sensor <= TANK_SENSORS - 1,
                out@ == triangles_spec(*field, col as int, sensor as int),
            decreases TANK_SENSORS - sensor,
        {
            if field.at(col, sensor).is_some() && field.at(col + 1, sensor).is_some() && field.at(
                col,
                sensor + 1,
            ).is_some() && field.at(col + 1, sensor + 1).is_some() {
                let ghost before = out@;
                let a: u32 = (col * TANK_SENSORS + sensor) as u32;
                let b: u32 = ((col + 1) * TANK_SENSORS + sensor) as u32;
                let c: u32 = ((col + 1) * TANK_SENSORS + sensor + 1) as u32;
                let d: u32 = (col * TANK_SENSORS + sensor + 1) as u32;
                out.push(a);
                out.push(b);
                out.push(c);
                out.push(a);
                out.push(c);
                out.push(d);
                assert(out@ =~= before + cell_triangles(col as int, sensor as int));
            }
            sensor += 1;
        }
        col += 1;
    }
    out
}

/// The readings of the first cells, a column at a time and up each.
pub open spec fn blocks_spec(field: Field, col: int, sensors: int) -> Seq<(usize, usize)>
    decreases col, sensors,
{
    if sensors > 0 {
        let rest = blocks_spec(field, col, sensors - 1);
        if field.cell(col, sensors - 1) is Some {
            rest.push((col as usize, (sensors - 1) as usize))
        } else {
            rest
        }
    } else if col > 0 {
        blocks_spec(field, col - 1, TANK_SENSORS as int)
    } else {
        Seq::empty()
    }
}

/// The field with no interpolation at all: the columns and sensors that get one flat rectangle
/// each. It gives up the smoothness to make each region exactly one number.
pub fn heat_blocks(field: &Field) -> (r: Vec<(usize, usize)>)
    requires
        field.wf(),
    ensures
        r@ == blocks_spec(*field, field.cols as int, 0),
{
    let mut out: Vec<(usize, usize)> = Vec::new();
    let mut col: usize = 0;
    while col < field.cols
        invariant
            field.wf(),
            col <= field.cols,
            out@ == blocks_spec(*field, col as int, 0),
        decreases field.cols - col,
    {
        let mut sensor: usize = 0;
        while sensor < TANK_SENSORS
            invariant
                field.wf(),
                col < field.cols,
                sensor <= TANK_SENSORS,
                out@ == blocks_spec(*field, col as int, sensor as int),
            decreases TANK_SENSORS - sensor,
        {
            if field.at(col, sensor).is_some() {
                out.push((col, sensor));
            }
            sensor += 1;
        }
        col += 1;
    }
    out
}

/// A rectangle of the screen, in thousandths of a point.
#[derive(Clone, Copy, PartialEq, Eq, Structural, Debug)]
pub struct Area {
    pub left: i32,
    pub top: i32,
    pub right: i32,
    pub bottom: i32,
}

impl Area {
    pub open spec fn wide(self) -> int {
        self.right - self.left
    }

    pub open spec fn high(self) -> int {
        self.bottom - self.top
    }
}

/// Room for the sensor names down the left of the cylinder.
pub const GUTTER_W: i64 = 26_000;

/// Room for the ten numbers beside it.
pub const READOUT_W: i64 = 116_000;

/// Room for the colour bar and its labels.
pub const LEGEND_W: i64 = 64_000;

/// Room for the time axis under it.
pub const AXIS_H: i64 = 20_000;

/// The least width and height of the data area.
pub const MIN_BODY: i64 = 40_000;

/// Where the cylinder sits inside the pane.
#[derive(Clone, Copy, PartialEq, Eq, Structural, Debug)]
pub struct Layout {
    /// The data area: height against time, undistorted.
    pub body: Area,
    /// Height of the dished ends, which live outside the body so the vessel shape is drawn
    /// around the picture rather than through it.
    pub cap_h: i32,
}

/// The width left for the body.
pub open spec fn body_width(pane: Area) -> int {
    pane.wide() - GUTTER_W - READOUT_W - LEGEND_W
}

/// The height of the dished ends over a body: six hundredths of its width, within bounds.
pub open spec fn cap_height(width: int) -> int {
    let cap = width * 6 / 100;
    if cap < 8_000 {
        8_000
    } else if cap > 22_000 {
        22_000
    } else {
        cap
    }
}

/// The layout of a pane, refused when what is left after the fixed gutters is too small to draw
/// in: the alternative is a negative width and a divide by zero somewhere further down.
pub fn layout(pane: Area) -> (r: Option<Layout>)
    ensures
        match r {
            Some(l) => {
                &&& body_width(pane) >= MIN_BODY
                &&& l.cap_h == cap_height(body_width(pane))
                &&& l.body.left == pane.left + GUTTER_W
                &&& l.body.right == pane.right - READOUT_W - LEGEND_W
                &&& l.body.top == pane.top + l.cap_h
                &&& l.body.bottom == pane.bottom - AXIS_H - l.cap_h
                &&& l.body.high() >= MIN_BODY
                &&& l.body.wide() >= MIN_BODY
            },
            None => body_width(pane) < MIN_BODY || pane.high() - AXIS_H - 2 * cap_height(
                body_width(pane),
            ) < MIN_BODY,
        },
{
    let left: i64 = pane.left as i64 + GUTTER_W;
    let right: i64 = pane.right as i64 - READOUT_W - LEGEND_W;
    let width: i64 = right - left;
    if width < MIN_BODY {
        return None;
    }
    let cap: i64 = width * 6 / 100;
    let cap: i64 = if cap < 8_000 {
        8_000
    } else if cap > 22_000 {
        22_000
    } else {
        cap
    };
    let top: i64 = pane.top as i64 + cap;
    let bottom: i64 = pane.bottom as i64 - AXIS_H - cap;
    if bottom - top < MIN_BODY {
        return None;
    }
    Some(
        Layout {
            body: Area {
                left: left as i32,
                top: top as i32,
                right: right as i32,
                bottom: bottom as i32,
            },
            cap_h: cap as i32,
        },
    )
}

/// How many columns a body gets: roughly one every two points, which is finer than anything the
/// eye takes off a strip.
pub fn column_count(body: Area) -> (r: usize)
    requires
        body.left <= body.right,
    ensures
        r == if body.wide() / 2000 < 2 {
            2
        } else if body.wide() / 2000 > 480 {
            480
        } else {
            body.wide() / 2000
        },
{
    let n: i64 = (body.right as i64 - body.left as i64) / 2000;
    if n < 2 {
        2
    } else if n > 480 {
        480
    } else {
        n as usize
    }
}

/// The nearest of `last + 1` evenly spaced marks over a span to a distance along it; of two
/// equally near, the farther. Distances beyond either end go to the end's mark.
pub open spec fn nearest_mark(distance: int, span: int, last: int) -> int {
    if distance <= 0 {
        0
    } else if distance >= span {
        last
    } else {
        (2 * distance * last + span) / (2 * span)
    }
}

/// The nearest mark is no farther off than any other.
pub proof fn no_mark_is_nearer(distance: int, span: int, last: int, other: int)
    requires
        0 < distance < span,
        0 < last,
        0 <= other <= last,
    ensures
        0 <= nearest_mark(distance, span, last) <= last,
        ({
            let n = nearest_mark(distance, span, last);
            let d = distance * last;
            let off = if d >= n * span {
                d - n * span
            } else {
                n * span - d
            };
            let other_off = if d >= other * span {
                d - other * span
            } else {
                other * span - d
            };
            off <= other_off
        }),
{
    let n = nearest_mark(distance, span, last);
    let d = distance * last;
    let x = 2 * distance * last + span;
    assert(x == 2 * d + span) by (nonlinear_arith)
        requires
            x == 2 * distance * last + span,
            d == distance * last,
    ;
    vstd::arithmetic::div_mod::lemma_fundamental_div_mod(x, 2 * span);
    vstd::arithmetic::div_mod::lemma_mod_bound(x, 2 * span);
    let m = x % (2 * span);
    assert(2 * d + span == 2 * (n * span) + m) by (nonlinear_arith)
        requires
            x == 2 * d + span,
            x == (2 * span) * n + m,
    ;
    assert(-span <= 2 * (d - n * span) < span);
    assert(0 < d < span * last) by (nonlinear_arith)
        requires
            0 < distance < span,
            0 < last,
            d == distance * last,
    ;
    assert(0 <= n <= last) by (nonlinear_arith)
        requires
            -span <= 2 * (d - n * span) < span,
            0 < d < span * last,
            0 < span,
    ;
    if other < n {
        assert(other * span <= n * span - span) by (nonlinear_arith)
            requires
                other < n,
                0 < span,
        ;
    } else if other > n {
        assert(other * span >= n * span + span) by (nonlinear_arith)
            requires
                other > n,
                0 < span,
        ;
    }
}

fn mark_near(distance: i64, span: i64, last: usize) -> (r: usize)
    requires
        0 < span <= 0x1_0000_0000,
        -0x2_0000_0000 <= distance <= 0x2_0000_0000,
        0 < last <= 480,
    ensures
        r == nearest_mark(distance as int, span as int, last as int),
        r <= last,
{
    if distance <= 0 {
        return 0;
    }
    if distance >= span {
        return last;
    }
    proof {
        no_mark_is_nearer(distance as int, span as int, last as int, 0);
        assert(2 * distance * last <= 0x4_0000_0000 * 480) by (nonlinear_arith)
            requires
                0 < distance <= 0x2_0000_0000,
                0 < last <= 480,
        ;
    }
    ((2 * distance * last as i64 + span) / (2 * span)) as usize
}

impl Layout {
    /// Which sensor's height a point is nearest, for the hover readout.
    pub fn sensor_at(&self, y: i32) -> (r: usize)
        requires
            self.body.top < self.body.bottom,
        ensures
            r == nearest_mark(self.body.bottom - y, self.body.high(), TANK_SENSORS - 1),
            r < TANK_SENSORS,
    {
        mark_near(
            self.body.bottom as i64 - y as i64,
            self.body.bottom as i64 - self.body.top as i64,
            TANK_SENSORS - 1,
        )
    }

    /// Which column a point is nearest.
    pub fn column_at(&self, x: i32, cols: usize) -> (r: usize)
        requires
            self.body.left < self.body.right,
            2 <= cols <= 480,
        ensures
            r == nearest_mark(x - self.body.left, self.body.wide(), cols - 1),
            r < cols,
    {
        mark_near(
            x as i64 - self.body.left as i64,
            self.body.right as i64 - self.body.left as i64,
            cols - 1,
        )
    }
}

/// The instants of the time axis: the window's ends, and its quarters between. The window is the
/// master one, so these read like the graphs' axes.
pub fn axis_ticks(window: (i64, i64)) -> (r: Vec<i64>)
    requires
        window.0 <= window.1,
    ensures
        r@.len() == 5,
        forall|i: int| 0 <= i < 5 ==> #[trigger] r@[i] == moment(window, 5, i),
{
    let mut out: Vec<i64> = Vec::new();
    let mut i: usize = 0;
    while i < 5
        invariant
            window.0 <= window.1,
            i <= 5,
            out@.len() == i,
            forall|k: int| 0 <= k < i ==> #[trigger] out@[k] == moment(window, 5, k),
        decreases 5 - i,
    {
        out.push(moment_of(window, 5, i));
        i += 1;
    }
    out
}

/// What hovering over the picture says: which sensor, what it read, and when.
pub fn hover_text(sensor: usize, reading: Option<&str>, t: i64) -> (r: String)
    ensures
        r@ == "s"@ + dec(sensor as nat) + "  "@ + match reading {
            Some(text) => text@,
            None => "no reading"@,
        } + "\n"@ + utc_label_spec(
            utc_text(whole_seconds(t as int), "%Y-%m-%d %H:%M:%S"@),
            t as int,
        ),
{
    let mut out = "s".to_owned();
    push_dec(&mut out, sensor as u64);
    out.append("  ");
    match reading {
        Some(text) => {
            out.append(text);
        },
        None => {
            out.append("no reading");
        },
    }
    out.append("\n");
    let at = format_utc(t);
    out.append(at.as_str());
    out
}

} // verus!
