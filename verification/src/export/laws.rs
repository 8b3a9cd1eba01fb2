//! Where the parts of a figure are, and how large.
use vstd::prelude::*;

use crate::export::drawing::{
    boxed, critical_spec, entry_spec, evenly_spec, has_critical, height_spec, levels, names_spec,
    playhead_spec, side_spec, solid, stripes_spec, time_ticks_spec, uprights, value_ticks_spec,
    vessel_spec, Shape, Style, Tick, MIN_WALL,
};
use crate::export::figure::{
    first_multiple, legend_area, panel_height_spec, plot_spec, tick_count, Metrics, Series,
    MAX_TICKS, MIN_PLOT_SIDE,
};
use crate::export::page::{lefts, rights, sides_spec, strokes, Needs};
use crate::export::png::{be32, per_metre_spec};
use crate::export::svg::{baseline_spec, opacity_hundredths, Align, Frame};
use crate::export::{pixels_of_mm, rounded, units_of_mm, units_of_points};
use crate::colors::Rgb;
use crate::list_laws::no_need_is_wider;
use crate::tank::picture::{along, band, column, heat_spec, mixed, RAMP};
use crate::tank::CRITICAL_C;
use crate::text::dec;

verus! {

broadcast use vstd::seq_lib::group_seq_properties;

/// A quotient is rounded to the nearest whole number: it is no further than a half from it.
pub proof fn rounding_is_to_the_nearest(n: int, d: int)
    requires
        d > 0,
    ensures
        -d < 2 * (n - d * rounded(n, d)) + 1,
        2 * (n - d * rounded(n, d)) < d,
{
    vstd::arithmetic::div_mod::lemma_fundamental_div_mod(2 * n + d, 2 * d);
    vstd::arithmetic::div_mod::lemma_mod_bound(2 * n + d, 2 * d);
    let q = rounded(n, d);
    assert(2 * d * q == 2 * (d * q)) by (nonlinear_arith);
}

/// An inch of a page, 25.4 mm, is 96 units of a figure and as many pixels as there are dots to the
/// inch; and 72 points are one too.
pub proof fn an_inch_is_an_inch(inches: int, dpi: int)
    requires
        0 < inches,
        0 < dpi,
        inches * dpi <= u32::MAX,
    ensures
        units_of_mm(2540 * inches) == 9600 * inches,
        units_of_points(7200 * inches) == 9600 * inches,
        pixels_of_mm(2540 * inches, 100 * dpi) == inches * dpi,
{
    rounding_is_to_the_nearest(2540 * inches * 480, 127);
    rounding_is_to_the_nearest(7200 * inches * 4, 3);
    let n = (2540 * inches) * (100 * dpi);
    assert(n == 254_000 * (inches * dpi)) by (nonlinear_arith)
        requires
            n == (2540 * inches) * (100 * dpi),
    ;
    assert(inches * dpi >= 1) by (nonlinear_arith)
        requires
            inches >= 1,
            dpi >= 1,
    ;
    rounding_is_to_the_nearest(n, 254_000);
}

/// Dots per inch are as many per 25.4 mm, to the nearest whole number per metre, as far as a file
/// can say.
pub proof fn dots_per_metre(dpi: u32)
    requires
        100 <= dpi <= 100_000_000,
    ensures
        -128 <= 100 * dpi - 254 * per_metre_spec(dpi as int) <= 128,
{
    rounding_is_to_the_nearest(dpi * 3_937_007_874, 10_000_000_000);
}

/// A number in four bytes, the highest first, reads back.
pub proof fn four_bytes_read_back(n: u32)
    ensures
        be32(n).len() == 4,
        ((be32(n)[0] * 256 + be32(n)[1]) * 256 + be32(n)[2]) * 256 + be32(n)[3] == n,
{
    assert(n / 0x100_0000 % 256 == n / 0x100_0000 && n % 0x100_0000 / 0x1_0000 == n / 0x1_0000 % 256
        && n % 0x1_0000 / 256 == n / 256 % 256) by (bit_vector);
    assert((((n / 0x100_0000) * 256 + n / 0x1_0000 % 256) * 256 + n / 256 % 256) * 256 + n % 256
        == n) by (bit_vector);
}

/// How opaque a colour is is written to the nearest hundredth.
pub proof fn an_opacity_is_to_the_nearest(alpha: u8)
    ensures
        0 <= opacity_hundredths(alpha) <= 100,
        -255 <= 2 * (255 * opacity_hundredths(alpha) - 100 * alpha) <= 255,
        opacity_hundredths(0) == 0,
        opacity_hundredths(255) == 100,
{
}

/// A line of text stands where it was asked for: its box, which reaches from `ascent` above the
/// baseline on down, has its top, its middle or its foot there.
pub proof fn a_text_stands_where_it_was_asked_for(y: int, ascent: int, height: int)
    requires
        0 <= height,
    ensures
        baseline_spec(y, Align::Min, ascent, height) - ascent == y,
        baseline_spec(y, Align::Max, ascent, height) - ascent + height == y,
        0 <= 2 * (baseline_spec(y, Align::Center, ascent, height) - ascent) + height - 2 * y <= 1,
{
}

/// The grid has a line from top to bottom at each tick of the time axis, and one from side to side
/// at each tick of the value axis.
pub proof fn the_grid_is_at_the_ticks(plot: Frame, style: Style, ticks: Seq<Tick>, n: nat, k: int)
    requires
        n <= ticks.len(),
        0 <= k < n,
    ensures
        uprights(plot, style, ticks, n).len() == n,
        uprights(plot, style, ticks, n)[k] matches Shape::Line(points, _, _) && points == seq![
            (ticks[k].at as int, plot.top as int),
            (ticks[k].at as int, plot.bottom as int),
        ],
        levels(plot, style, ticks, n).len() == n,
        levels(plot, style, ticks, n)[k] matches Shape::Line(points, _, _) && points == seq![
            (plot.left as int, ticks[k].at as int),
            (plot.right as int, ticks[k].at as int),
        ],
    decreases n,
{
    if n > 1 {
        the_grid_is_at_the_ticks(
            plot,
            style,
            ticks,
            (n - 1) as nat,
            if k < n - 1 {
                k
            } else {
                0
            },
        );
    } else {
        assert(uprights(plot, style, ticks, 0).len() == 0);
        assert(levels(plot, style, ticks, 0).len() == 0);
    }
}

/// A value axis has a mark at the height of each tick, from the plot outwards, and further out at
/// the same height what is written there.
pub proof fn a_value_is_written_at_its_tick(
    plot: Frame,
    m: Metrics,
    style: Style,
    ticks: Seq<Tick>,
    right: bool,
    n: nat,
    k: int,
)
    requires
        m.wf(),
        n <= ticks.len(),
        0 <= k < n,
    ensures
        ({
            let all = value_ticks_spec(plot, m, style, ticks, right, n);
            let y = ticks[k].at as int;
            let (edge, end) = if right {
                (plot.right as int, plot.right + m.tick_len)
            } else {
                (plot.left as int, plot.left - m.tick_len)
            };
            &&& all.len() == 2 * n
            &&& all[2 * k] matches Shape::Line(points, _, _) && points == seq![(edge, y), (end, y)]
            &&& all[2 * k + 1] matches Shape::Words(at, across, down, text, _, _) && at.1 == y
                && text == ticks[k].label@ && down == Align::Center && if right {
                at.0 >= end && across == Align::Min
            } else {
                at.0 <= end && across == Align::Max
            }
        }),
    decreases n,
{
    if n > 1 {
        a_value_is_written_at_its_tick(
            plot,
            m,
            style,
            ticks,
            right,
            (n - 1) as nat,
            if k < n - 1 {
                k
            } else {
                0
            },
        );
    } else {
        assert(value_ticks_spec(plot, m, style, ticks, right, 0).len() == 0);
    }
}

/// The time axis has a mark below the plot at each tick, and below that, centred on it, what is
/// written there.
pub proof fn a_time_is_written_at_its_tick(
    plot: Frame,
    m: Metrics,
    style: Style,
    time: Seq<Tick>,
    n: nat,
    k: int,
)
    requires
        m.wf(),
        n <= time.len(),
        0 <= k < n,
    ensures
        ({
            let all = time_ticks_spec(plot, m, style, time, n);
            let x = time[k].at as int;
            let end = plot.bottom + m.tick_len;
            &&& all.len() == 2 * n
            &&& all[2 * k] matches Shape::Line(points, _, _) && points == seq![
                (x, plot.bottom as int),
                (x, end),
            ]
            &&& all[2 * k + 1] matches Shape::Words(at, across, down, text, _, _) && at.0 == x
                && at.1 >= end && text == time[k].label@ && across == Align::Center && down
                == Align::Min
        }),
    decreases n,
{
    if n > 1 {
        a_time_is_written_at_its_tick(
            plot,
            m,
            style,
            time,
            (n - 1) as nat,
            if k < n - 1 {
                k
            } else {
                0
            },
        );
    } else {
        assert(time_ticks_spec(plot, m, style, time, 0).len() == 0);
    }
}

/// A legend in a box names its series one below the other, each beside a sample of its line.
pub proof fn a_boxed_legend_names_its_series(
    area: (int, int, int, int),
    m: Metrics,
    style: Style,
    series: Seq<Series>,
    n: nat,
    k: int,
)
    requires
        m.wf(),
        n <= series.len(),
        0 <= k < n,
    ensures
        ({
            let all = boxed(area, m, style, series, n);
            let y = area.1 + m.gap / 2 + k * m.line_h + m.line_h / 2;
            &&& all.len() == 2 * n
            &&& all[2 * k] matches Shape::Line(points, ink, _) && ink == solid(series[k].color)
                && points.len() == 2 && points[0] == (area.0 + m.gap / 2, y) && points[1].1 == y
            &&& all[2 * k + 1] matches Shape::Words(at, _, down, text, _, _) && at.1 == y && text
                == series[k].label@ && down == Align::Center && at.0 >= area.0 + m.gap / 2
        }),
    decreases n,
{
    if n > 1 {
        a_boxed_legend_names_its_series(
            area,
            m,
            style,
            series,
            (n - 1) as nat,
            if k < n - 1 {
                k
            } else {
                0
            },
        );
    } else {
        assert(boxed(area, m, style, series, 0).len() == 0);
    }
    let front = boxed(area, m, style, series, (n - 1) as nat);
    let here = entry_spec(
        series[n - 1],
        area.0 + m.gap * 5 / 10,
        area.1 + m.gap * 5 / 10 + (n - 1) * m.line_h,
        m,
        style,
    );
    assert(m.gap * 5 / 10 == m.gap / 2);
    assert(boxed(area, m, style, series, n) == front + here);
    if k == n - 1 {
        assert((front + here)[2 * k] == here[0]);
        assert((front + here)[2 * k + 1] == here[1]);
    } else {
        assert((front + here)[2 * k] == front[2 * k]);
        assert((front + here)[2 * k + 1] == front[2 * k + 1]);
    }
}

/// A legend's box is in the corner it was asked for, as wide as its widest entry and as high as
/// its lines, with room around them, and no larger than the plot.
pub proof fn a_legend_is_in_its_corner(
    plot: Frame,
    m: Metrics,
    widest: int,
    entries: int,
    right: bool,
)
    requires
        m.wf(),
        0 <= widest,
        0 < entries,
    ensures
        legend_area(plot, m, widest, entries, right) matches Some((left, top, end, foot)) ==> {
            &&& top == plot.top + m.gap
            &&& right ==> end == plot.right - m.gap
            &&& !right ==> left == plot.left + m.gap
            &&& widest <= end - left <= widest + m.gap
            &&& entries * m.line_h <= foot - top <= entries * m.line_h + m.gap
            &&& end - left <= plot.right - plot.left
            &&& foot - top <= plot.bottom - plot.top
        },
{
}

/// A height of a tank's wall is as far up as its part of the wall: the first sensor at the foot,
/// the last at the top, and each above the one before it.
pub proof fn heights_go_up(body: Frame, a: int, b: int)
    requires
        body.top <= body.bottom,
        0 <= a <= b <= 18,
    ensures
        height_spec(body, 0) == body.bottom,
        height_spec(body, 18) == body.top,
        height_spec(body, b) <= height_spec(body, a),
        body.top <= height_spec(body, a) <= body.bottom,
        18 * (body.bottom - height_spec(body, a)) <= (body.bottom - body.top) * a < 18 * (
        body.bottom - height_spec(body, a)) + 18,
{
    let h = body.bottom - body.top;
    assert(h * a <= h * b && 0 <= h * a && h * b <= h * 18) by (nonlinear_arith)
        requires
            0 <= h,
            0 <= a <= b <= 18,
    ;
    assert(body.high() == h);
}

/// The sensors of a tank are named at their heights, from the lowest up.
pub proof fn a_sensor_is_named_at_its_height(
    body: Frame,
    m: Metrics,
    style: Style,
    n: nat,
    k: int,
)
    requires
        m.wf(),
        0 <= k < n,
    ensures
        names_spec(body, m, style, n).len() == n,
        names_spec(body, m, style, n)[k] matches Shape::Words(at, across, down, text, _, _)
            && at.0 <= body.left && at.1 == height_spec(body, 2 * k) && text == "s"@ + dec(
            k as nat,
        ) && across == Align::Max && down == Align::Center,
    decreases n,
{
    if n > 1 {
        a_sensor_is_named_at_its_height(
            body,
            m,
            style,
            (n - 1) as nat,
            if k < n - 1 {
                k
            } else {
                0
            },
        );
    } else {
        assert(names_spec(body, m, style, 0).len() == 0);
    }
}

/// A place along a wall is as far along as its part of the columns: the first begins at the left
/// edge and the last ends at the right one.
pub proof fn columns_go_along(body: Frame, cols: int, a: int, b: int)
    requires
        body.left <= body.right,
        2 <= cols,
        0 <= a <= b <= 2 * (cols - 1),
    ensures
        side_spec(body, cols, 0) == body.left,
        side_spec(body, cols, 2 * (cols - 1)) == body.right,
        side_spec(body, cols, a) <= side_spec(body, cols, b),
        body.left <= side_spec(body, cols, a) <= body.right,
        column(0, cols).0 == 0,
        column(cols - 1, cols).1 == 2 * (cols - 1),
{
    let (w, d) = (body.right - body.left, 2 * (cols - 1));
    assert(body.wide() == w);
    assert(0 <= w * a <= w * b && w * b <= w * d) by (nonlinear_arith)
        requires
            0 <= w,
            0 <= a <= b <= d,
    ;
    vstd::arithmetic::div_mod::lemma_div_is_ordered(w * a, w * b, d);
    vstd::arithmetic::div_mod::lemma_div_is_ordered(w * b, w * d, d);
    vstd::arithmetic::div_mod::lemma_div_is_ordered(0, w * a, d);
    vstd::arithmetic::div_mod::lemma_div_multiples_vanish(w, d);
    assert(w * d == d * w) by (nonlinear_arith);
    vstd::arithmetic::div_mod::lemma_div_basics(d);
    assert(w * 0 == 0);
}

/// A sensor's stripe is a cell of its colour over the columns it is of, and over the heights that
/// are nearer to that sensor than to another.
pub proof fn a_stripe_is_a_cell(
    body: Frame,
    cols: int,
    sensor: int,
    stripes: Seq<(usize, usize, Rgb)>,
    n: nat,
    k: int,
)
    requires
        n <= stripes.len(),
        0 <= k < n,
    ensures
        stripes_spec(body, cols, sensor, stripes, n).len() == n,
        stripes_spec(body, cols, sensor, stripes, n)[k] matches Shape::Cell(place, ink) && ink
            == solid(stripes[k].2) && place.0 == side_spec(
            body,
            cols,
            column(stripes[k].0 as int, cols).0,
        ) && place.2 == side_spec(body, cols, column(stripes[k].1 - 1, cols).1) && place.1
            == height_spec(body, band(sensor).0) && place.3 == height_spec(body, band(sensor).1),
    decreases n,
{
    if n > 1 {
        a_stripe_is_a_cell(
            body,
            cols,
            sensor,
            stripes,
            (n - 1) as nat,
            if k < n - 1 {
                k
            } else {
                0
            },
        );
    } else {
        assert(stripes_spec(body, cols, sensor, stripes, 0).len() == 0);
    }
}

/// Colours down a box go from its top to its foot: the first at its very top, the last at its very
/// foot, and none above the one before it.
pub proof fn colours_go_down(colours: Seq<Rgb>, i: int, j: int)
    requires
        2 <= colours.len(),
        0 <= i <= j < colours.len(),
    ensures
        evenly_spec(colours).len() == colours.len(),
        evenly_spec(colours)[i].1 == solid(colours[i]),
        evenly_spec(colours)[0].0 == 0,
        evenly_spec(colours)[colours.len() - 1].0 == 100,
        evenly_spec(colours)[i].0 <= evenly_spec(colours)[j].0 <= 100,
{
    let last = colours.len() - 1;
    vstd::arithmetic::div_mod::lemma_div_is_ordered(100 * i, 100 * j, last);
    vstd::arithmetic::div_mod::lemma_div_is_ordered(100 * j, 100 * last, last);
    vstd::arithmetic::div_mod::lemma_div_is_ordered(0, 100 * i, last);
    vstd::arithmetic::div_mod::lemma_div_multiples_vanish(100, last);
    assert(100 * last == last * 100) by (nonlinear_arith);
    vstd::arithmetic::div_mod::lemma_div_basics(last);
}

/// The critical point is marked on a scale as far up as its temperature is between the ends.
pub proof fn the_critical_point_is_on_its_scale(body: Frame, lo: i64, hi: i64)
    requires
        body.top <= body.bottom,
        lo < hi,
    ensures
        has_critical(lo, hi) <==> lo <= CRITICAL_C <= hi,
        has_critical(lo, hi) ==> {
            let up = body.bottom - critical_spec(body, lo, hi);
            &&& 0 <= up <= body.bottom - body.top
            &&& up * (hi - lo) <= (body.bottom - body.top) * (CRITICAL_C - lo) < (up + 1) * (hi
                - lo)
        },
{
    if has_critical(lo, hi) {
        let (h, above, span) = (body.bottom - body.top, CRITICAL_C - lo, hi - lo);
        let n = h * above;
        assert(body.high() == h);
        vstd::arithmetic::div_mod::lemma_fundamental_div_mod(n, span);
        vstd::arithmetic::div_mod::lemma_mod_bound(n, span);
        let up = n / span;
        assert(0 <= n && n <= h * span) by (nonlinear_arith)
            requires
                n == h * above,
                0 <= h,
                0 <= above <= span,
        ;
        assert(0 <= up <= h && up * span <= n < (up + 1) * span) by (nonlinear_arith)
            requires
                n == span * up + n % span,
                0 <= n % span < span,
                0 <= n <= h * span,
                span > 0,
        ;
    }
}

/// The playhead is a line down a plot, only where the figure marks it and it is in the window.
pub proof fn the_playhead_is_a_line_down(
    f: Frame,
    style: Style,
    cursor: Option<i64>,
    range: (i64, i64),
    x: int,
)
    ensures
        ({
            let all = playhead_spec(f, style, cursor, range, x);
            let shown = style.cursor && cursor is Some && range.0 <= cursor.unwrap() && cursor.unwrap()
                <= range.1;
            &&& all.len() == if shown {
                1nat
            } else {
                0nat
            }
            &&& shown ==> (all[0] matches Shape::Line(points, _, _) && points == seq![
                (x, f.top as int),
                (x, f.bottom as int),
            ])
        }),
{
}

/// A tank's wall is its plot without room above and below for the ends, as much of the one as of
/// the other.
pub proof fn a_wall_is_in_the_middle(plot: Frame, m: Metrics)
    requires
        m.wf(),
        plot.left <= plot.right,
        plot.top <= plot.bottom,
    ensures
        vessel_spec(plot, m) matches Some(body) ==> {
            &&& body.left == plot.left && body.right == plot.right
            &&& body.top - plot.top == plot.bottom - body.bottom
            &&& plot.top <= body.top && 5 * (body.top - plot.top) <= plot.bottom - plot.top
            &&& body.bottom - body.top >= MIN_WALL
        },
{
}

/// A panel's plot is between the sides of its page, below the panel's title and, where there is
/// room, above its legend; the panels of a page are one height and follow each other down it.
pub proof fn a_plot_is_in_its_panel(
    content: Frame,
    sides: (i32, i32),
    m: Metrics,
    panel_h: int,
    i: int,
    legend_h: int,
)
    requires
        m.wf(),
        0 <= legend_h,
        0 <= i,
    ensures
        ({
            let (left, top, right, bottom) = plot_spec(content, sides, m, panel_h, i, legend_h);
            let panel = content.top + i * (panel_h + 2 * m.gap);
            &&& left == sides.0 && right == sides.1
            &&& top == panel + m.title_block
            &&& bottom >= top + MIN_PLOT_SIDE
            &&& bottom == panel + panel_h - legend_h || bottom == top + MIN_PLOT_SIDE
            &&& panel_h - legend_h - m.title_block >= MIN_PLOT_SIDE ==> bottom + legend_h == panel
                + panel_h
        }),
{
}

/// The panels of a page share what its time axis and the gaps between them leave: together they
/// take no more than that where they are not at their least.
pub proof fn panels_share_the_page(content: Frame, m: Metrics, n: int)
    requires
        m.wf(),
        n > 0,
        panel_height_spec(content, m, n) > MIN_PLOT_SIDE,
    ensures
        ({
            let h = panel_height_spec(content, m, n);
            let room = content.bottom - content.top - m.x_axis_block - 2 * m.gap * (n - 1);
            n * h <= room < n * (h + 1)
        }),
{
    let room = content.bottom - content.top - m.x_axis_block - 2 * m.gap * (n - 1);
    assert(content.high() == content.bottom - content.top);
    vstd::arithmetic::div_mod::lemma_fundamental_div_mod(room, n);
    vstd::arithmetic::div_mod::lemma_mod_bound(room, n);
    let h = room / n;
    assert(n * h <= room < n * (h + 1)) by (nonlinear_arith)
        requires
            room == n * h + room % n,
            0 <= room % n < n,
    ;
}

/// The ticks of a window are in it: the first is the first multiple of the step that is not before
/// it, and as many follow as there is room for, up to a limit.
pub proof fn ticks_fill_the_window(range: (i64, i64), step: int)
    requires
        range.0 < range.1,
        0 < step,
    ensures
        ({
            let first = first_multiple(range.0 as int, step) * step;
            let n = tick_count(range, step);
            &&& range.0 <= first < range.0 + step
            &&& 0 < n ==> first + (n - 1) * step <= range.1
            &&& n < MAX_TICKS ==> range.1 < first + n * step
        }),
{
    let t = range.0 as int;
    vstd::arithmetic::div_mod::lemma_fundamental_div_mod(t + step - 1, step);
    vstd::arithmetic::div_mod::lemma_mod_bound(t + step - 1, step);
    vstd::arithmetic::div_mod::lemma_fundamental_div_mod(range.1 as int, step);
    vstd::arithmetic::div_mod::lemma_mod_bound(range.1 as int, step);
    let (f, last) = (first_multiple(t, step), range.1 as int / step);
    let n = tick_count(range, step);
    let r = (t + step - 1) % step;
    let e = range.1 as int % step;
    assert(f * step == t + step - 1 - r && last * step == range.1 - e) by (nonlinear_arith)
        requires
            t + step - 1 == step * f + r,
            range.1 == step * last + e,
    ;
    assert(0 < n ==> f * step + (n - 1) * step <= last * step) by (nonlinear_arith)
        requires
            n <= last - f + 1 || n <= 0,
            step > 0,
    ;
    assert(n >= last - f + 1 ==> (last + 1) * step <= f * step + n * step) by (nonlinear_arith)
        requires
            step > 0,
    ;
    assert((last + 1) * step == last * step + step) by (nonlinear_arith);
}

/// A stroke of a line goes through the places of its stretch of points, in order and in the
/// line's colour.
pub proof fn a_stroke_goes_through_its_points(
    places: Seq<(i64, i64)>,
    runs: Seq<(usize, usize)>,
    color: Rgb,
    width: int,
    n: nat,
    k: int,
    i: int,
)
    requires
        n <= runs.len(),
        0 <= k < n,
        runs[k].0 <= i < runs[k].1 <= places.len(),
    ensures
        ({
            let all = strokes(places, runs, color, width, n);
            &&& all.len() == n
            &&& all[k] matches Shape::Line(points, ink, w) && ink == solid(color) && w == width
                && points.len() == runs[k].1 - runs[k].0 && points[i - runs[k].0] == (
                places[i].0 as int,
                places[i].1 as int,
            )
        }),
    decreases n,
{
    if k < n - 1 {
        a_stroke_goes_through_its_points(places, runs, color, width, (n - 1) as nat, k, i);
    } else {
        lemma_strokes_len(places, runs, color, width, (n - 1) as nat);
    }
}

proof fn lemma_strokes_len(
    places: Seq<(i64, i64)>,
    runs: Seq<(usize, usize)>,
    color: Rgb,
    width: int,
    n: nat,
)
    ensures
        strokes(places, runs, color, width, n).len() == n,
    decreases n,
{
    if n > 0 {
        lemma_strokes_len(places, runs, color, width, (n - 1) as nat);
    }
}

/// The ends of a temperature scale have the ends of the ramp for their colours, and its middle has
/// the middle.
pub proof fn a_scale_runs_along_the_ramp(lo: int, half: int)
    requires
        0 < half,
    ensures
        ({
            let hi = lo + 2 * half;
            &&& heat_spec(lo, lo, hi) == (RAMP@[0].0 as int, RAMP@[0].1 as int, RAMP@[0].2 as int)
            &&& heat_spec(hi, lo, hi) == (RAMP@[4].0 as int, RAMP@[4].1 as int, RAMP@[4].2 as int)
            &&& heat_spec(lo + half, lo, hi) == (
                RAMP@[2].0 as int,
                RAMP@[2].1 as int,
                RAMP@[2].2 as int,
            )
        }),
{
    assert(4 * half / (2 * half) == 2) by (nonlinear_arith)
        requires
            half > 0,
    ;
    let (of, hi) = (2 * half, lo + 2 * half);
    assert(along(lo, lo, hi) == (0int, 0int, 1int));
    assert(along(hi, lo, hi) == (3int, 1int, 1int));
    let c = lo + half;
    assert(4 * (c - lo) == 4 * half && hi - lo == 2 * half);
    assert(4 * (c - lo) / (hi - lo) == 2);
    assert(along(c, lo, hi) == (2int, 4 * (c - lo) - 2 * (hi - lo), hi - lo));
    let channel = |i: int, stop: int|
        if i == 0 {
            RAMP@[stop].0 as int
        } else if i == 1 {
            RAMP@[stop].1 as int
        } else {
            RAMP@[stop].2 as int
        };
    assert forall|i: int| 0 <= i < 3 implies mixed(#[trigger] channel(i, 2), channel(i, 3), 0, of)
        == channel(i, 2) && mixed(channel(i, 0), channel(i, 1), 0, 1) == channel(i, 0) && mixed(
        channel(i, 3),
        channel(i, 4),
        1,
        1,
    ) == channel(i, 4) by {
        lemma_mixed_end(channel(i, 2), channel(i, 3), of);
        lemma_mixed_end(channel(i, 0), channel(i, 1), 1);
        lemma_mixed_end(channel(i, 3), channel(i, 4), 1);
    }
    assert(channel(0, 2) == RAMP@[2].0 && channel(1, 2) == RAMP@[2].1 && channel(2, 2)
        == RAMP@[2].2);
}

proof fn lemma_mixed_end(a: int, b: int, of: int)
    requires
        of > 0,
    ensures
        mixed(a, b, 0, of) == a,
        mixed(a, b, of, of) == b,
{
    assert((2 * (b * of) + of) / (2 * of) == b) by (nonlinear_arith)
        requires
            of > 0,
    ;
    assert(a * (of - of) + b * of == b * of) by (nonlinear_arith);
    assert((2 * (a * of) + of) / (2 * of) == a) by (nonlinear_arith)
        requires
            of > 0,
    ;
    assert(a * (of - 0) + b * 0 == a * of) by (nonlinear_arith);
}

proof fn lemma_lefts(needs: Seq<Needs>, n: nat, i: int)
    requires
        0 <= i < n <= needs.len(),
    ensures
        lefts(needs, n).len() == n,
        lefts(needs, n)[i] == needs[i].left,
    decreases n,
{
    if i < n - 1 {
        lemma_lefts(needs, (n - 1) as nat, i);
    } else if n > 1 {
        lemma_lefts(needs, (n - 1) as nat, 0);
    } else {
        assert(lefts(needs, 0) =~= Seq::empty());
    }
}

proof fn lemma_rights(needs: Seq<Needs>, n: nat, i: int)
    requires
        0 <= i < n <= needs.len(),
        needs[i].right is Some,
    ensures
        rights(needs, n).contains(needs[i].right.unwrap()),
    decreases n,
{
    let own = needs[i].right.unwrap();
    let before = rights(needs, (n - 1) as nat);
    if i < n - 1 {
        lemma_rights(needs, (n - 1) as nat, i);
        let k = before.index_of(own);
        if let Some(right) = needs[n - 1].right {
            assert(before.push(right)[k] == own);
        }
    } else {
        assert(before.push(own)[before.len() as int] == own);
    }
}

/// The plots of a page leave room at their sides for what stands there: for every panel's own
/// axis on the left and on the right. Where that would leave too little to draw in, a gap is left.
pub proof fn the_sides_leave_room_for_the_axes(area: Frame, m: Metrics, needs: Seq<Needs>, i: int)
    requires
        0 <= i < needs.len(),
        sides_spec(area, m, needs) is Some,
    ensures
        ({
            let (left, right) = sides_spec(area, m, needs).unwrap();
            &&& right - left >= MIN_PLOT_SIDE
            &&& left - area.left == m.gap && area.right - right == m.gap || {
                &&& left - area.left >= needs[i].left
                &&& left - area.left >= m.half_time_label
                &&& area.right - right >= m.half_time_label
                &&& needs[i].right matches Some(own) ==> area.right - right >= own
            }
        }),
{
    lemma_lefts(needs, needs.len(), i);
    no_need_is_wider(m.half_time_label as int, lefts(needs, needs.len()), i);
    let all = rights(needs, needs.len());
    no_need_is_wider(m.half_time_label as int, all, 0);
    if let Some(own) = needs[i].right {
        lemma_rights(needs, needs.len(), i);
        no_need_is_wider(m.half_time_label as int, all, all.index_of(own));
    }
}

} // verus!
