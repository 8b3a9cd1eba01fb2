//! The exported graph itself: what a figure is made of, and where its parts go.
//!
//! Coordinates are hundredths of a figure unit, y down. One layout, one set of ticks, one legend,
//! whatever the file is written as.
use vstd::prelude::*;

use crate::clock::{date_label, utc_text, whole_seconds, TIME_STEPS};
use crate::colors::Rgb;
use crate::correction::{correct_all, is_corrected};
use crate::double::Double;
use crate::export::drawing::Place;
use crate::export::svg::Frame;
use crate::export::{ExportItem, ExportSettings};
use crate::model::Project;
use crate::panes::{PlotAxis, PlotEntry, PlotSpec, Plots};
use crate::plot_view::{
    auto_fit_spec, axes, drawn, from_several_sources, is_prepared, prepare, units_on,
    values_on, Fit, PreparedSeries, Viewport,
};
use crate::series::Sample;
use crate::tank::picture::{cell_spec, Field};
use crate::tank::sensors::TANK_SENSORS;
use crate::tank::{TankSpec, Tanks};
use crate::text::{joined, same};
use crate::vapor::{are_runs, runs, runs_of, there_is_one_list_of_runs};

verus! {

broadcast use vstd::seq_lib::group_seq_properties;

/// Smallest panel worth drawing into. Below this the margins alone would exceed the panel and
/// the plot would come out inside out.
pub const MIN_PLOT_SIDE: i64 = 2_400;

/// Room to leave for a text that measures so much: a little more. An SVG's text is drawn by the
/// viewer, in a font that cannot be measured here.
pub fn text_room(measured: u32) -> (r: i64)
    ensures
        r == measured * 106 / 100 + 100,
{
    measured as i64 * 106 / 100 + 100
}

/// The handful of sizes every part of the layout is expressed in.
#[derive(Clone, Copy, PartialEq, Eq, Structural, Debug)]
pub struct Metrics {
    pub font: i64,
    pub gap: i64,
    pub tick_len: i64,
    pub line_h: i64,
    pub title_font: i64,
    pub title_block: i64,
    /// Tick marks, tick labels, then the date the clock times belong to.
    pub x_axis_block: i64,
    pub half_time_label: i64,
}

impl Metrics {
    /// Sizes that a layout can be worked out in.
    pub open spec fn wf(self) -> bool {
        &&& 0 <= self.font <= 0x1_0000_0000
        &&& 0 <= self.gap <= 0x1_0000_0000
        &&& 0 <= self.tick_len <= 0x1_0000_0000
        &&& 0 <= self.line_h <= 0x1_0000_0000
        &&& 0 <= self.title_font <= 0x2_0000_0000
        &&& 0 <= self.title_block <= 0x3_0000_0000
        &&& 0 <= self.x_axis_block <= 0x8_0000_0000
        &&& 0 <= self.half_time_label <= 0x4_0000_0000
    }

    /// The sizes that follow from the text's: its own, the height of a line of it and of a
    /// title's, and the room of a time label.
    pub fn new(font: u32, line_h: u32, title_h: u32, time_label: u32, has_title: bool) -> (r: Self)
        ensures
            r.wf(),
            r.font == font,
            r.gap == if font / 2 < 200 {
                200
            } else {
                (font / 2) as int
            },
            r.tick_len == if font * 35 / 100 < 150 {
                150
            } else {
                font * 35 / 100
            },
            r.line_h == line_h,
            r.title_font == font * 11 / 10,
            r.title_block == if has_title {
                title_h + r.gap * 8 / 10
            } else {
                0
            },
            r.x_axis_block == r.tick_len + r.gap * 4 / 10 + line_h + r.gap * 3 / 10 + line_h,
            r.half_time_label == (time_label * 106 / 100 + 100) / 2,
    {
        let gap: i64 = if font / 2 < 200 {
            200
        } else {
            (font / 2) as i64
        };
        let tick: i64 = font as i64 * 35 / 100;
        let tick_len: i64 = if tick < 150 {
            150
        } else {
            tick
        };
        Metrics {
            font: font as i64,
            gap,
            tick_len,
            line_h: line_h as i64,
            title_font: font as i64 * 11 / 10,
            title_block: if has_title {
                title_h as i64 + gap * 8 / 10
            } else {
                0
            },
            x_axis_block: tick_len + gap * 4 / 10 + line_h as i64 + gap * 3 / 10 + line_h as i64,
            half_time_label: text_room(time_label) / 2,
        }
    }

    /// Room a value axis needs: its tick labels, the marks, and the rotated unit label outside
    /// them.
    pub fn axis_margin(&self, widest: u32, labelled: bool) -> (r: i64)
        requires
            self.wf(),
        ensures
            r == self.tick_len + self.gap * 4 / 10 + widest + self.gap * 4 / 10 + if labelled {
                self.line_h + self.gap * 4 / 10
            } else {
                0
            },
    {
        self.tick_len + self.gap * 4 / 10 + widest as i64 + self.gap * 4 / 10 + if labelled {
            self.line_h + self.gap * 4 / 10
        } else {
            0
        }
    }

    /// Room the sensor names down the left of a tank need.
    pub fn tank_left_margin(&self, name: u32) -> (r: i64)
        requires
            self.wf(),
        ensures
            r == name + self.gap,
    {
        name as i64 + self.gap
    }

    /// Room the colour bar and its two labels need on the right of a tank.
    pub fn tank_right_margin(&self, widest: u32) -> (r: i64)
        requires
            self.wf(),
        ensures
            r == self.gap + self.font * 11 / 10 + self.gap / 2 + widest,
    {
        self.gap + self.font * 11 / 10 + self.gap / 2 + widest as i64
    }

    /// One entry's width in a legend: colour sample, gap, label.
    pub fn legend_entry_width(&self, label: u32) -> (r: i64)
        requires
            self.wf(),
        ensures
            r == self.font * 16 / 10 + self.gap / 2 + (label * 106 / 100 + 100),
    {
        self.font * 16 / 10 + self.gap / 2 + text_room(label)
    }
}

/// What is left of a figure inside its padding, if it is worth drawing into.
pub fn content(width: u32, height: u32, padding: u32) -> (r: Option<Frame>)
    requires
        width <= i32::MAX,
        height <= i32::MAX,
        padding <= i32::MAX,
    ensures
        match r {
            Some(f) => f.left == padding && f.top == padding && f.right == width - padding
                && f.bottom == height - padding && f.wide() >= MIN_PLOT_SIDE && f.high()
                >= MIN_PLOT_SIDE,
            None => width - 2 * padding < MIN_PLOT_SIDE || height - 2 * padding < MIN_PLOT_SIDE,
        },
{
    let f = Frame {
        left: padding as i32,
        top: padding as i32,
        right: (width as i64 - padding as i64) as i32,
        bottom: (height as i64 - padding as i64) as i32,
    };
    if f.width() < MIN_PLOT_SIDE || f.height() < MIN_PLOT_SIDE {
        None
    } else {
        Some(f)
    }
}

/// The height of each of `n` stacked panels: they share what the time axis and the gaps leave.
pub open spec fn panel_height_spec(content: Frame, m: Metrics, n: int) -> int {
    let h = (content.high() - m.x_axis_block - 2 * m.gap * (n - 1)) / n;
    if h < MIN_PLOT_SIDE {
        MIN_PLOT_SIDE as int
    } else {
        h
    }
}

/// The height of each of `n` stacked panels.
pub fn panel_height(content: &Frame, m: &Metrics, n: usize) -> (r: i64)
    requires
        m.wf(),
        0 < n,
    ensures
        r == panel_height_spec(*content, *m, n as int),
        MIN_PLOT_SIDE <= r <= 0x1_0000_0000,
{
    proof {
        assert(0 <= 2 * m.gap * (n - 1) <= 0x2_0000_0000 * 0xFFFF_FFFF_FFFF_FFFF)
            by (nonlinear_arith)
            requires
                0 <= m.gap <= 0x1_0000_0000,
                0 < n <= 0xFFFF_FFFF_FFFF_FFFF,
        ;
    }
    let gaps: i128 = 2 * m.gap as i128 * (n - 1) as i128;
    let left: i128 = content.height() as i128 - m.x_axis_block as i128 - gaps;
    if left < 0 {
        proof {
            vstd::arithmetic::div_mod::lemma_fundamental_div_mod(left as int, n as int);
            vstd::arithmetic::div_mod::lemma_mod_bound(left as int, n as int);
            let q = left as int / n as int;
            assert(q < 0) by (nonlinear_arith)
                requires
                    left == n * q + left as int % n as int,
                    0 <= left as int % n as int,
                    left < 0,
                    n > 0,
            ;
        }
        return MIN_PLOT_SIDE;
    }
    proof {
        vstd::arithmetic::div_mod::lemma_div_nonincreasing(left as int, n as int);
    }
    let h: i128 = left / n as i128;
    if h < MIN_PLOT_SIDE as i128 {
        MIN_PLOT_SIDE
    } else {
        h as i64
    }
}

/// The sides that every panel shares, or the stack would be a set of graphs that merely happen
/// to be near each other. A figure too narrow for its own axis labels keeps the graph and loses
/// the numbers, rather than drawing a rectangle inside out; one too narrow for that has none.
pub fn plot_sides(content: &Frame, left: i64, right: i64, gap: i64) -> (r: Option<(i32, i32)>)
    requires
        0 <= left <= 0x100_0000_0000,
        0 <= right <= 0x100_0000_0000,
        0 <= gap <= 0x1_0000_0000,
    ensures
        ({
            let fits = content.wide() - left - right >= MIN_PLOT_SIDE;
            let (l, r_) = if fits {
                (left as int, right as int)
            } else {
                (gap as int, gap as int)
            };
            match r {
                Some((a, b)) => a == content.left + l && b == content.right - r_ && b - a
                    >= MIN_PLOT_SIDE,
                None => content.wide() - l - r_ < MIN_PLOT_SIDE,
            }
        }),
{
    let wide = content.width();
    let (l, r) = if wide - left - right < MIN_PLOT_SIDE {
        (gap, gap)
    } else {
        (left, right)
    };
    if wide - l - r < MIN_PLOT_SIDE {
        return None;
    }
    Some(((content.left as i64 + l) as i32, (content.right as i64 - r) as i32))
}

/// The top of the `i`th panel of a stack.
pub open spec fn panel_top(content: Frame, m: Metrics, panel_h: int, i: int) -> int {
    content.top + i * (panel_h + 2 * m.gap)
}

/// Where a panel's plot is, below its title and above its legend.
pub open spec fn plot_spec(
    content: Frame,
    sides: (i32, i32),
    m: Metrics,
    panel_h: int,
    i: int,
    legend_h: int,
) -> (int, int, int, int) {
    let top = panel_top(content, m, panel_h, i);
    let plot_top = top + m.title_block;
    let bottom = top + panel_h - legend_h;
    (
        sides.0 as int,
        plot_top,
        sides.1 as int,
        if bottom < plot_top + MIN_PLOT_SIDE {
            plot_top + MIN_PLOT_SIDE
        } else {
            bottom
        },
    )
}

/// Where a panel's plot is.
pub fn plot_rect(
    content: &Frame,
    sides: (i32, i32),
    m: &Metrics,
    panel_h: i64,
    i: usize,
    legend_h: i64,
) -> (r: Frame)
    requires
        m.wf(),
        0 <= panel_h <= 0x1_0000_0000,
        0 <= legend_h <= 0x1_0000_0000,
        i <= 0xFFFF_FFFF,
        i32::MIN <= panel_top(*content, *m, panel_h as int, i as int) + m.title_block + panel_h
            + MIN_PLOT_SIDE <= i32::MAX,
        i32::MIN <= panel_top(*content, *m, panel_h as int, i as int),
    ensures
        (r.left as int, r.top as int, r.right as int, r.bottom as int) == plot_spec(
            *content,
            sides,
            *m,
            panel_h as int,
            i as int,
            legend_h as int,
        ),
{
    let each: i128 = panel_h as i128 + 2 * m.gap as i128;
    proof {
        assert(0 <= i * each <= 0xFFFF_FFFF * 0x4_0000_0000) by (nonlinear_arith)
            requires
                0 <= i <= 0xFFFF_FFFF,
                0 <= each <= 0x4_0000_0000,
        ;
    }
    let top: i128 = content.top as i128 + i as i128 * each;
    let plot_top: i128 = top + m.title_block as i128;
    let bottom: i128 = top + panel_h as i128 - legend_h as i128;
    let bottom: i128 = if bottom < plot_top + MIN_PLOT_SIDE as i128 {
        plot_top + MIN_PLOT_SIDE as i128
    } else {
        bottom
    };
    Frame { left: sides.0, top: plot_top as i32, right: sides.1, bottom: bottom as i32 }
}

/// Stacked panels do not run into each other, however tall their legends: a plot ends above the
/// next panel's top, where there is room for a plot under the title.
pub proof fn stacked_panels_stay_apart(
    content: Frame,
    sides: (i32, i32),
    m: Metrics,
    panel_h: int,
    i: int,
    legend_h: int,
)
    requires
        m.wf(),
        0 <= legend_h,
        m.title_block + MIN_PLOT_SIDE <= panel_h,
    ensures
        plot_spec(content, sides, m, panel_h, i, legend_h).3 + 2 * m.gap <= panel_top(
            content,
            m,
            panel_h,
            i + 1,
        ),
        plot_spec(content, sides, m, panel_h, i, legend_h).1 < plot_spec(
            content,
            sides,
            m,
            panel_h,
            i,
            legend_h,
        ).3,
{
    let each = panel_h + 2 * m.gap;
    assert((i + 1) * each == i * each + each) by (nonlinear_arith);
}

/// The widest of some needs, and of one that is always there.
pub open spec fn widest_of(base: int, needs: Seq<i64>) -> int
    decreases needs.len(),
{
    if needs.len() == 0 {
        base
    } else {
        let before = widest_of(base, needs.drop_last());
        if needs.last() > before {
            needs.last() as int
        } else {
            before
        }
    }
}

/// The margin a stack shares on one side: what its neediest panel asks for, and room for half a
/// time label in any case, since the first and the last of them stick out.
pub fn margin(m: &Metrics, needs: &Vec<i64>) -> (r: i64)
    ensures
        r == widest_of(m.half_time_label as int, needs@),
        m.half_time_label <= r,
        forall|i: int| 0 <= i < needs@.len() ==> #[trigger] needs@[i] <= r,
        r == m.half_time_label || needs@.contains(r),
{
    let mut widest: i64 = m.half_time_label;
    let mut i: usize = 0;
    let total: usize = needs.len();
    while i < total
        invariant
            i <= total == needs@.len(),
            widest == widest_of(m.half_time_label as int, needs@.take(i as int)),
            m.half_time_label <= widest,
            forall|j: int| 0 <= j < i ==> #[trigger] needs@[j] <= widest,
            widest == m.half_time_label || exists|j: int| 0 <= j < i && needs@[j] == widest,
        decreases total - i,
    {
        assert(needs@.take(i as int + 1).drop_last() =~= needs@.take(i as int));
        assert(needs@.take(i as int + 1).last() == needs@[i as int]);
        if needs[i] > widest {
            widest = needs[i];
        }
        i += 1;
    }
    assert(needs@.take(total as int) =~= needs@);
    widest
}

/// The height of a legend below its graph: its rows, and a little air.
pub open spec fn legend_below_spec(m: Metrics, rows: int) -> int {
    if rows == 0 {
        0
    } else {
        m.gap * 6 / 10 + rows * m.line_h
    }
}

/// The height of a legend of so many rows below its graph, if it is one a page can have.
pub fn legend_below_height(m: &Metrics, rows: usize) -> (r: Option<i64>)
    requires
        m.wf(),
    ensures
        match r {
            Some(h) => h == legend_below_spec(*m, rows as int) && 0 <= h <= 0x1_0000_0000,
            None => legend_below_spec(*m, rows as int) > 0x1_0000_0000,
        },
{
    if rows == 0 {
        return Some(0);
    }
    proof {
        assert(0 <= rows * m.line_h <= 0xFFFF_FFFF_FFFF_FFFF * 0x1_0000_0000) by (nonlinear_arith)
            requires
                0 <= rows <= 0xFFFF_FFFF_FFFF_FFFF,
                0 <= m.line_h <= 0x1_0000_0000,
        ;
    }
    let h: i128 = m.gap as i128 * 6 / 10 + rows as i128 * m.line_h as i128;
    if h > 0x1_0000_0000 {
        None
    } else {
        Some(h as i64)
    }
}

/// Where the plots of a stack are, given the heights of the legends below them.
pub open spec fn stack_spec(
    content: Frame,
    sides: (i32, i32),
    m: Metrics,
    legends: Seq<i64>,
    i: int,
) -> (int, int, int, int) {
    plot_spec(
        content,
        sides,
        m,
        panel_height_spec(content, m, legends.len() as int),
        i,
        legends[i] as int,
    )
}

/// Whether the `i`th panel of a stack of `n` can be put on a page at all.
pub open spec fn on_page(content: Frame, m: Metrics, n: int, i: int) -> bool {
    let panel_h = panel_height_spec(content, m, n);
    panel_top(content, m, panel_h, i) + m.title_block + panel_h + MIN_PLOT_SIDE <= i32::MAX
}

/// Where the plots of a stack are. The panels stack, each of the same height, and only the
/// bottom one carries the time axis, which is what makes them comparable at a glance. A stack
/// that runs off the end of every page has none.
pub fn stack(content: &Frame, sides: (i32, i32), m: &Metrics, legends: &Vec<i64>) -> (r: Option<
    Vec<Frame>,
>)
    requires
        m.wf(),
        forall|i: int|
            0 <= i < legends@.len() ==> 0 <= #[trigger] legends@[i] <= 0x1_0000_0000,
    ensures
        match r {
            Some(plots) => {
                &&& plots@.len() == legends@.len()
                &&& forall|i: int|
                    0 <= i < plots@.len() ==> (
                        (#[trigger] plots@[i]).left as int,
                        plots@[i].top as int,
                        plots@[i].right as int,
                        plots@[i].bottom as int,
                    ) == stack_spec(*content, sides, *m, legends@, i)
            },
            None => exists|i: int|
                0 <= i < legends@.len() && !#[trigger] on_page(
                    *content,
                    *m,
                    legends@.len() as int,
                    i,
                ),
        },
{
    let n: usize = legends.len();
    let mut plots: Vec<Frame> = Vec::new();
    if n == 0 {
        return Some(plots);
    }
    let panel_h = panel_height(content, m, n);
    let each: i128 = panel_h as i128 + 2 * m.gap as i128;
    let mut i: usize = 0;
    while i < n
        invariant
            i <= n == legends@.len(),
            m.wf(),
            panel_h == panel_height_spec(*content, *m, n as int),
            MIN_PLOT_SIDE <= panel_h <= 0x1_0000_0000,
            each == panel_h + 2 * m.gap,
            plots@.len() == i,
            forall|j: int|
                0 <= j < legends@.len() ==> 0 <= #[trigger] legends@[j] <= 0x1_0000_0000,
            forall|j: int|
                0 <= j < i ==> (
                    (#[trigger] plots@[j]).left as int,
                    plots@[j].top as int,
                    plots@[j].right as int,
                    plots@[j].bottom as int,
                ) == stack_spec(*content, sides, *m, legends@, j),
        decreases n - i,
    {
        proof {
            assert(0 <= i * each <= 0xFFFF_FFFF_FFFF_FFFF * 0x4_0000_0000) by (nonlinear_arith)
                requires
                    0 <= i <= 0xFFFF_FFFF_FFFF_FFFF,
                    0 <= each <= 0x4_0000_0000,
            ;
        }
        let top: i128 = content.top as i128 + i as i128 * each;
        let foot: i128 = top + m.title_block as i128 + panel_h as i128 + MIN_PLOT_SIDE as i128;
        if foot > i32::MAX as i128 {
            assert(!on_page(*content, *m, n as int, i as int));
            return None;
        }
        proof {
            assert(i <= 0xFFFF_FFFF) by (nonlinear_arith)
                requires
                    i * each <= 0xFFFF_FFFF,
                    each >= 1,
            ;
        }
        let plot = plot_rect(content, sides, m, panel_h, i, legends[i]);
        plots.push(plot);
        i += 1;
    }
    Some(plots)
}

/// The plots of a stack are as wide as each other and one below the other, so an instant is at
/// the same place in all of them.
pub proof fn stacked_plots_share_their_sides(
    content: Frame,
    sides: (i32, i32),
    m: Metrics,
    legends: Seq<i64>,
    i: int,
    j: int,
)
    requires
        m.wf(),
        0 <= i < j < legends.len(),
        0 <= legends[i],
        m.title_block + MIN_PLOT_SIDE <= panel_height_spec(content, m, legends.len() as int),
    ensures
        stack_spec(content, sides, m, legends, i).0 == stack_spec(content, sides, m, legends, j).0,
        stack_spec(content, sides, m, legends, i).2 == stack_spec(content, sides, m, legends, j).2,
        stack_spec(content, sides, m, legends, i).3 <= stack_spec(content, sides, m, legends, j).1,
{
    let panel_h = panel_height_spec(content, m, legends.len() as int);
    let each = panel_h + 2 * m.gap;
    stacked_panels_stay_apart(content, sides, m, panel_h, i, legends[i] as int);
    assert((i + 1) * each <= j * each) by (nonlinear_arith)
        requires
            i + 1 <= j,
            each >= 0,
    ;
}

/// How far the entries from `a` up to `b` of a legend reach, with the space behind each.
pub open spec fn advance(widths: Seq<u32>, spacing: u32, a: int, b: int) -> int
    decreases b - a,
{
    if a >= b {
        0
    } else {
        advance(widths, spacing, a, b - 1) + widths[b - 1] + spacing
    }
}

/// Whether the entries from `a` up to `b` fit beside each other: all but the first end within the
/// width.
pub open spec fn row_fits(widths: Seq<u32>, spacing: u32, width: u32, a: int, b: int) -> bool {
    forall|j: int| a < j < b ==> advance(widths, spacing, a, j) + #[trigger] widths[j] <= width
}

/// Whether rows are a legend's entries wrapped to a width: all of them, in order, each row as
/// long as it can be, and none empty.
pub open spec fn are_legend_rows(
    widths: Seq<u32>,
    spacing: u32,
    width: u32,
    rows: Seq<(usize, usize)>,
) -> bool {
    &&& widths.len() == 0 <==> rows.len() == 0
    &&& rows.len() > 0 ==> rows[0].0 == 0 && rows.last().1 == widths.len()
    &&& forall|r: int| 0 <= r < rows.len() ==> (#[trigger] rows[r]).0 < rows[r].1 <= widths.len()
    &&& forall|r: int, s: int|
        0 <= r && s == r + 1 && s < rows.len() ==> (#[trigger] rows[s]).0 == (
        #[trigger] rows[r]).1
    &&& forall|r: int|
        0 <= r < rows.len() ==> row_fits(
            widths,
            spacing,
            width,
            (#[trigger] rows[r]).0 as int,
            rows[r].1 as int,
        )
    &&& forall|r: int|
        0 <= r < rows.len() && (#[trigger] rows[r]).1 < widths.len() ==> advance(
            widths,
            spacing,
            rows[r].0 as int,
            rows[r].1 as int,
        ) + widths[rows[r].1 as int] > width
}

/// Where a row that begins at `from` ends, its entries up to `i` being in it.
pub open spec fn row_end(widths: Seq<u32>, spacing: u32, width: u32, from: int, i: int) -> int
    decreases widths.len() - i,
{
    if 0 <= i < widths.len() && (i == from || advance(widths, spacing, from, i) + widths[i]
        <= width) {
        row_end(widths, spacing, width, from, i + 1)
    } else {
        i
    }
}

/// The rows of the entries from `from` on.
pub open spec fn rows_from(widths: Seq<u32>, spacing: u32, width: u32, from: int) -> Seq<
    (usize, usize),
>
    decreases widths.len() - from,
{
    let end = row_end(widths, spacing, width, from, from);
    if 0 <= from < end <= widths.len() {
        seq![(from as usize, end as usize)] + rows_from(widths, spacing, width, end)
    } else {
        Seq::empty()
    }
}

proof fn lemma_row_end(widths: Seq<u32>, spacing: u32, width: u32, from: int, end: int, i: int)
    requires
        0 <= from <= i <= end <= widths.len(),
        from < end,
        row_fits(widths, spacing, width, from, end),
        end < widths.len() ==> advance(widths, spacing, from, end) + widths[end] > width,
    ensures
        row_end(widths, spacing, width, from, i) == end,
    decreases end - i,
{
    if i < end {
        if from < i {
            assert(advance(widths, spacing, from, i) + widths[i] <= width);
        }
        lemma_row_end(widths, spacing, width, from, end, i + 1);
    }
}

proof fn lemma_rows(
    widths: Seq<u32>,
    spacing: u32,
    width: u32,
    rows: Seq<(usize, usize)>,
    k: int,
    from: int,
)
    requires
        are_legend_rows(widths, spacing, width, rows),
        0 <= k <= rows.len(),
        k < rows.len() ==> from == rows[k].0,
        k == rows.len() ==> from == widths.len(),
    ensures
        rows.skip(k) == rows_from(widths, spacing, width, from),
    decreases rows.len() - k,
{
    if k < rows.len() {
        let end = rows[k].1 as int;
        assert(row_fits(widths, spacing, width, from, end));
        lemma_row_end(widths, spacing, width, from, end, from);
        if k + 1 < rows.len() {
            assert(rows[k + 1].0 == rows[k].1);
        }
        lemma_rows(widths, spacing, width, rows, k + 1, end);
        assert(rows.skip(k) =~= seq![rows[k]] + rows.skip(k + 1));
    } else {
        assert(rows.skip(k) =~= Seq::empty());
    }
}

/// A legend's entries can be wrapped into rows in one way.
pub proof fn there_is_one_way_to_wrap(
    widths: Seq<u32>,
    spacing: u32,
    width: u32,
    rows: Seq<(usize, usize)>,
)
    requires
        are_legend_rows(widths, spacing, width, rows),
    ensures
        rows == rows_from(widths, spacing, width, 0),
{
    lemma_rows(widths, spacing, width, rows, 0, 0);
    assert(rows.skip(0) =~= rows);
}

/// Legend entries wrapped into rows no wider than a width, as the first of each and one past
/// its last.
pub fn legend_rows(widths: &Vec<u32>, spacing: u32, width: u32) -> (r: Vec<(usize, usize)>)
    ensures
        are_legend_rows(widths@, spacing, width, r@),
{
    let mut rows: Vec<(usize, usize)> = Vec::new();
    let mut start: usize = 0;
    let mut x: u128 = 0;
    let mut i: usize = 0;
    let ghost w = widths@;
    let total: usize = widths.len();
    while i < total
        invariant
            start <= i <= total == w.len(),
            w == widths@,
            i == start ==> i == 0,
            x == advance(w, spacing, start as int, i as int),
            x <= (i - start) * 0x1_FFFF_FFFF,
            rows@.len() == 0 ==> start == 0,
            rows@.len() > 0 ==> rows@[0].0 == 0 && rows@.last().1 == start,
            forall|r: int|
                0 <= r < rows@.len() ==> (#[trigger] rows@[r]).0 < rows@[r].1 <= w.len(),
            forall|r: int, s: int|
                0 <= r && s == r + 1 && s < rows@.len() ==> (#[trigger] rows@[s]).0 == (
                #[trigger] rows@[r]).1,
            forall|r: int|
                0 <= r < rows@.len() ==> row_fits(
                    w,
                    spacing,
                    width,
                    (#[trigger] rows@[r]).0 as int,
                    rows@[r].1 as int,
                ),
            forall|r: int|
                0 <= r < rows@.len() && (#[trigger] rows@[r]).1 < w.len() ==> advance(
                    w,
                    spacing,
                    rows@[r].0 as int,
                    rows@[r].1 as int,
                ) + w[rows@[r].1 as int] > width,
            row_fits(w, spacing, width, start as int, i as int),
        decreases total - i,
    {
        proof {
            assert((i - start) * 0x1_FFFF_FFFF <= 0xFFFF_FFFF_FFFF_FFFF * 0x1_FFFF_FFFF);
        }
        if i > start && x + widths[i] as u128 > width as u128 {
            let ghost before = rows@;
            rows.push((start, i));
            proof {
                assert forall|r: int, s: int| 0 <= r && s == r + 1 && s < rows@.len() implies (
                #[trigger] rows@[s]).0 == (#[trigger] rows@[r]).1 by {
                    if s == before.len() {
                        assert(rows@[r] == before.last());
                    }
                }
            }
            start = i;
            x = 0;
        }
        assert(advance(w, spacing, i as int, i as int) == 0);
        x = x + widths[i] as u128 + spacing as u128;
        i += 1;
    }
    if start < i {
        let ghost before = rows@;
        rows.push((start, i));
        proof {
            assert forall|r: int, s: int| 0 <= r && s == r + 1 && s < rows@.len() implies (
            #[trigger] rows@[s]).0 == (#[trigger] rows@[r]).1 by {
                if s == before.len() {
                    assert(rows@[r] == before.last());
                }
            }
        }
    }
    rows
}

/// The box of a legend inside a plot, from its left edge to its bottom one, in the top left or
/// the top right. There is none where it would be bigger than the plot.
pub open spec fn legend_area(plot: Frame, m: Metrics, widest: int, entries: int, right: bool) -> Option<
    (int, int, int, int),
> {
    let inner = m.gap / 2;
    let w = widest + 2 * inner;
    let h = entries * m.line_h + 2 * inner;
    let left = if right {
        plot.right - m.gap - w
    } else {
        plot.left + m.gap
    };
    if entries == 0 || w > plot.wide() || h > plot.high() {
        None
    } else {
        Some((left, plot.top + m.gap, left + w, plot.top + m.gap + h))
    }
}

/// Where a legend goes inside a plot, in its top left or its top right, unless it is bigger than
/// the plot: such a one would hide the data it names.
pub fn legend_inside(plot: &Frame, m: &Metrics, widest: u32, entries: usize, right: bool) -> (r:
    Option<Place>)
    requires
        m.wf(),
    ensures
        match r {
            Some(f) => Some(f@) == legend_area(*plot, *m, widest as int, entries as int, right),
            None => legend_area(*plot, *m, widest as int, entries as int, right) is None,
        },
{
    if entries == 0 {
        return None;
    }
    let inner: i64 = m.gap / 2;
    let w: i64 = widest as i64 + 2 * inner;
    proof {
        assert(0 <= entries * m.line_h <= 0xFFFF_FFFF_FFFF_FFFF * 0x1_0000_0000)
            by (nonlinear_arith)
            requires
                0 <= entries <= 0xFFFF_FFFF_FFFF_FFFF,
                0 <= m.line_h <= 0x1_0000_0000,
        ;
    }
    let h: i128 = entries as i128 * m.line_h as i128 + 2 * inner as i128;
    if w > plot.width() || h > plot.height() as i128 {
        return None;
    }
    let left: i64 = if right {
        plot.right as i64 - m.gap - w
    } else {
        plot.left as i64 + m.gap
    };
    let top: i64 = plot.top as i64 + m.gap;
    Some(Place { left, top, right: left + w, bottom: top + h as i64 })
}

/// One axis' worth of ticks.
pub struct Ticks {
    pub step: i128,
    pub at: Vec<i64>,
}

/// The most ticks an axis gets.
pub const MAX_TICKS: usize = 500;

/// A day, in microseconds.
pub const DAY: i64 = 86_400_000_000;

/// The place on the ladder of the first step of which `wanted` cover a span, the ladder's length
/// where none does.
pub open spec fn covering_step(span: int, wanted: int, from: int) -> int
    decreases 25 - from,
{
    if from >= 25 || TIME_STEPS@[from] * wanted >= span {
        from
    } else {
        covering_step(span, wanted, from + 1)
    }
}

/// The spacing of the ticks of a span, of which about so many are wanted: the first step of the
/// clock's ladder that is long enough, or a whole number of days.
pub open spec fn tick_step(span: int, wanted: int) -> int {
    let i = covering_step(span, wanted, 0);
    if i < 25 {
        TIME_STEPS@[i] as int
    } else {
        ((span + wanted * DAY - 1) / (wanted * DAY)) * DAY
    }
}

/// The first multiple of a step that is not before an instant.
pub open spec fn first_multiple(t: int, step: int) -> int {
    (t + step - 1) / step
}

/// How many ticks there are in a range.
pub open spec fn tick_count(range: (i64, i64), step: int) -> int {
    let n = range.1 as int / step - first_multiple(range.0 as int, step) + 1;
    if n < 0 {
        0
    } else if n > MAX_TICKS {
        MAX_TICKS as int
    } else {
        n
    }
}

proof fn lemma_covering_step(span: int, wanted: int, from: int)
    requires
        0 <= from <= 25,
    ensures
        from <= covering_step(span, wanted, from) <= 25,
        covering_step(span, wanted, from) < 25 ==> TIME_STEPS@[covering_step(span, wanted, from)]
            * wanted >= span,
        forall|k: int|
            from <= k < covering_step(span, wanted, from) ==> #[trigger] TIME_STEPS@[k] * wanted
                < span,
    decreases 25 - from,
{
    if from < 25 && TIME_STEPS@[from] * wanted < span {
        lemma_covering_step(span, wanted, from + 1);
    }
}

fn step_for(span: u64, wanted: u32) -> (r: i128)
    requires
        0 < wanted,
    ensures
        r == tick_step(span as int, wanted as int),
        0 < r,
{
    let mut i: usize = 0;
    while i < 25
        invariant
            i <= 25,
            0 < wanted,
            covering_step(span as int, wanted as int, 0) == covering_step(
                span as int,
                wanted as int,
                i as int,
            ),
        decreases 25 - i,
    {
        let step = TIME_STEPS[i];
        assert(0 < step <= DAY) by {
            lemma_steps_are_positive(i as int);
        }
        assert(0 <= step * wanted <= DAY * 0xFFFF_FFFF) by (nonlinear_arith)
            requires
                0 < step <= DAY,
                0 <= wanted <= 0xFFFF_FFFF,
        ;
        if step as i128 * wanted as i128 >= span as i128 {
            return step as i128;
        }
        i += 1;
    }
    let days: u128 = wanted as u128 * DAY as u128;
    let n: u128 = (span as u128 + days - 1) / days;
    proof {
        let q = n as int;
        lemma_covering_step(span as int, wanted as int, 0);
        assert(TIME_STEPS@[24] * wanted < span);
        lemma_steps_are_positive(24);
        assert(span > days);
        vstd::arithmetic::div_mod::lemma_fundamental_div_mod(span + days - 1, days as int);
        vstd::arithmetic::div_mod::lemma_mod_bound(span + days - 1, days as int);
        let rem = (span + days - 1) % (days as int);
        assert(1 <= q && q * DAY <= span + DAY) by (nonlinear_arith)
            requires
                span + days - 1 == days * q + rem,
                0 <= rem < days,
                days == wanted * DAY,
                wanted >= 1,
                span > days,
        ;
    }
    (n * DAY as u128) as i128
}

proof fn lemma_steps_are_positive(i: int)
    requires
        0 <= i < 25,
    ensures
        0 < TIME_STEPS@[i] <= DAY,
        TIME_STEPS@[24] == DAY,
{
    if i > 0 {
        crate::clock::the_ladder_goes_up(0, i);
    }
    if i < 24 {
        crate::clock::the_ladder_goes_up(i, 24);
    }
}

/// Ticks for the time axis, on the same clock ladder the app's graphs use, so an exported figure
/// is tick for tick the graph it was exported from. There is one at each multiple of the step
/// in the range, up to a limit, so that no step can spin here forever; a range with nothing in
/// it has none, and a step of one second.
pub fn time_ticks(range: (i64, i64), wanted: u32) -> (r: Ticks)
    ensures
        range.0 >= range.1 ==> r.step == 1_000_000 && r.at@.len() == 0,
        range.0 < range.1 ==> ({
            let step = tick_step(
                range.1 - range.0,
                if wanted == 0 {
                    1
                } else {
                    wanted as int
                },
            );
            &&& r.step == step
            &&& r.at@.len() == tick_count(range, step)
            &&& forall|i: int|
                0 <= i < r.at@.len() ==> #[trigger] r.at@[i] == (first_multiple(
                    range.0 as int,
                    step,
                ) + i) * step
        }),
{
    if range.0 >= range.1 {
        return Ticks { step: 1_000_000, at: Vec::new() };
    }
    let wanted: u32 = if wanted == 0 {
        1
    } else {
        wanted
    };
    let span: u64 = (range.1 as i128 - range.0 as i128) as u64;
    let step = step_for(span, wanted);
    let ghost first = first_multiple(range.0 as int, step as int);
    proof {
        lemma_step_is_bounded(span as int, wanted as int);
        vstd::arithmetic::div_mod::lemma_fundamental_div_mod(range.0 + step - 1, step as int);
        vstd::arithmetic::div_mod::lemma_mod_bound(range.0 + step - 1, step as int);
        let rem = (range.0 + step - 1) % (step as int);
        assert(range.0 <= first * step < range.0 + step) by (nonlinear_arith)
            requires
                range.0 + step - 1 == step * first + rem,
                0 <= rem < step,
        ;
        assert(-0x8000_0000_0000_0000 <= first <= 0x8000_0000_0000_0000) by (nonlinear_arith)
            requires
                range.0 <= first * step < range.0 + step,
                step >= 1,
                -0x8000_0000_0000_0000 <= range.0 <= 0x7FFF_FFFF_FFFF_FFFF,
        ;
    }
    let mut at: Vec<i64> = Vec::new();
    let ghost last = range.1 as int / step as int;
    proof {
        vstd::arithmetic::div_mod::lemma_fundamental_div_mod(range.1 as int, step as int);
        vstd::arithmetic::div_mod::lemma_mod_bound(range.1 as int, step as int);
    }
    let mut t: i128 = first_after(range.0, step);
    while at.len() < MAX_TICKS && t <= range.1 as i128
        invariant
            at@.len() <= MAX_TICKS,
            1 <= step <= 0x4_0000_0000_0000_0000,
            range.0 < range.1,
            first == first_multiple(range.0 as int, step as int),
            last == range.1 as int / step as int,
            range.1 as int == step * last + range.1 as int % step as int,
            0 <= (range.1 as int % step as int),
            (range.1 as int % step as int) < step,
            range.0 <= first * step,
            t == (first + at@.len()) * step,
            range.0 <= t,
            t <= 0x8_0000_0000_0000_0000,
            at@.len() > 0 ==> first + at@.len() - 1 <= last,
            forall|i: int|
                0 <= i < at@.len() ==> #[trigger] at@[i] == (first + i) * step,
        decreases MAX_TICKS - at@.len(),
    {
        proof {
            let k = first + at@.len();
            let rem = range.1 as int % step as int;
            assert(k <= last) by (nonlinear_arith)
                requires
                    k * step <= range.1,
                    range.1 == step * last + rem,
                    rem < step,
                    step >= 1,
            ;
            assert((k + 1) * step == k * step + step) by (nonlinear_arith);
        }
        at.push(t as i64);
        t = t + step;
    }
    proof {
        let k = first + at@.len();
        let rem = range.1 as int % step as int;
        if t > range.1 {
            assert(k > last) by (nonlinear_arith)
                requires
                    k * step > range.1,
                    range.1 == step * last + rem,
                    0 <= rem,
                    step >= 1,
            ;
        }
    }
    Ticks { step, at }
}

fn first_after(t: i64, step: i128) -> (r: i128)
    requires
        1 <= step <= 0x4_0000_0000_0000_0000,
    ensures
        r == first_multiple(t as int, step as int) * step,
        t <= r < t + step,
{
    let x: i128 = t as i128;
    let rem: i128 = floor_rem(x, step);
    proof {
        let q = (x - rem) / (step as int);
        vstd::arithmetic::div_mod::lemma_fundamental_div_mod(t as int, step as int);
        vstd::arithmetic::div_mod::lemma_mod_bound(t as int, step as int);
        let d = t as int / step as int;
        let m = t as int % step as int;
        assert(t == step * d + m);
        let f = first_multiple(t as int, step as int);
        vstd::arithmetic::div_mod::lemma_fundamental_div_mod(t + step - 1, step as int);
        vstd::arithmetic::div_mod::lemma_mod_bound(t + step - 1, step as int);
        let r2 = (t + step - 1) % (step as int);
        if m == 0 {
            assert(f == d) by (nonlinear_arith)
                requires
                    t == step * d,
                    t + step - 1 == step * f + r2,
                    0 <= r2 < step,
            ;
            assert(f * step == t) by (nonlinear_arith)
                requires
                    f == d,
                    t == step * d,
            ;
        } else {
            assert(f == d + 1) by (nonlinear_arith)
                requires
                    t == step * d + m,
                    0 < m < step,
                    t + step - 1 == step * f + r2,
                    0 <= r2 < step,
            ;
            assert(f * step == t - m + step) by (nonlinear_arith)
                requires
                    f == d + 1,
                    t == step * d + m,
            ;
        }
    }
    if rem == 0 {
        x
    } else {
        x - rem + step
    }
}

fn floor_rem(x: i128, step: i128) -> (r: i128)
    requires
        1 <= step <= 0x4_0000_0000_0000_0000,
        -0x8000_0000_0000_0000 <= x <= 0x7FFF_FFFF_FFFF_FFFF,
    ensures
        r == x as int % step as int,
        0 <= r < step,
{
    match x.checked_rem_euclid(step) {
        Some(r) => r,
        None => 0,
    }
}

proof fn lemma_step_is_bounded(span: int, wanted: int)
    requires
        0 < span <= 0xFFFF_FFFF_FFFF_FFFF,
        1 <= wanted,
    ensures
        1 <= tick_step(span, wanted) <= 0x4_0000_0000_0000_0000,
{
    let i = covering_step(span, wanted, 0);
    lemma_covering_step(span, wanted, 0);
    if i < 25 {
        lemma_steps_are_positive(i);
    } else {
        let days = wanted * DAY;
        let q = (span + days - 1) / days;
        assert(days >= DAY) by (nonlinear_arith)
            requires
                days == wanted * DAY,
                wanted >= 1,
        ;
        vstd::arithmetic::div_mod::lemma_fundamental_div_mod(span + days - 1, days);
        vstd::arithmetic::div_mod::lemma_mod_bound(span + days - 1, days);
        let rem = (span + days - 1) % days;
        assert(TIME_STEPS@[24] * wanted < span);
        lemma_steps_are_positive(24);
        assert(wanted * DAY == DAY * wanted) by (nonlinear_arith);
        assert(1 <= q && q * DAY <= span + DAY) by (nonlinear_arith)
            requires
                span + days - 1 == days * q + rem,
                0 <= rem < days,
                days == wanted * DAY,
                wanted >= 1,
                span > days,
        ;
        assert(q * DAY >= DAY) by (nonlinear_arith)
            requires
                q >= 1,
        ;
    }
}

/// Every tick is on the clock, inside the range, and in order.
pub proof fn ticks_sit_on_the_clock(range: (i64, i64), step: int, i: int)
    requires
        range.0 < range.1,
        1 <= step,
        0 <= i < tick_count(range, step),
    ensures
        ({
            let t = (first_multiple(range.0 as int, step) + i) * step;
            &&& t % step == 0
            &&& range.0 <= t <= range.1
        }),
{
    let first = first_multiple(range.0 as int, step);
    let k = first + i;
    let t = k * step;
    vstd::arithmetic::div_mod::lemma_mod_multiples_basic(k, step);
    vstd::arithmetic::div_mod::lemma_fundamental_div_mod(range.0 + step - 1, step);
    vstd::arithmetic::div_mod::lemma_mod_bound(range.0 + step - 1, step);
    vstd::arithmetic::div_mod::lemma_fundamental_div_mod(range.1 as int, step);
    vstd::arithmetic::div_mod::lemma_mod_bound(range.1 as int, step);
    let last = range.1 as int / step;
    let r1 = (range.0 + step - 1) % step;
    let r2 = range.1 as int % step;
    assert(range.0 <= t <= range.1) by (nonlinear_arith)
        requires
            t == k * step,
            first <= k <= last,
            range.0 + step - 1 == step * first + r1,
            0 <= r1 < step,
            range.1 == step * last + r2,
            0 <= r2,
            1 <= step,
    ;
}

/// The date, or both dates when a window crosses midnight: tick labels are clock times, and
/// without the date they name an instant that comes round once a day.
pub open spec fn dates_spec(a: Seq<char>, b: Seq<char>) -> Seq<char> {
    if a.len() == 0 {
        Seq::empty()
    } else if a == b {
        a + " (UTC)"@
    } else {
        a + " to "@ + b + " (UTC)"@
    }
}

/// The label of a window between two dates.
pub fn dates(a: &str, b: &str) -> (r: String)
    ensures
        r@ == dates_spec(a@, b@),
{
    if a.is_empty() {
        return String::new();
    }
    let mut out = a.to_owned();
    if !same(a, b) {
        out.append(" to ");
        out.append(b);
    }
    out.append(" (UTC)");
    out
}

/// The date of an instant, as a window's label has it.
pub open spec fn day_spec(t: i64) -> Seq<char> {
    match utc_text(whole_seconds(t as int), "%Y-%m-%d"@) {
        Some(date) => date,
        None => Seq::<char>::empty(),
    }
}

/// The label of a window's dates.
pub fn range_dates(range: (i64, i64)) -> (r: String)
    ensures
        r@ == dates_spec(day_spec(range.0), day_spec(range.1)),
{
    let a = date_label(range.0);
    let b = date_label(range.1);
    dates(a.as_str(), b.as_str())
}

/// Which points of a series can be drawn.
pub open spec fn drawable(points: Seq<Sample>) -> Seq<bool> {
    points.map_values(|p: Sample| p.1.finite())
}

/// The stretches of a line. A gap in the data is a gap in the line: a run ends wherever a sample
/// is missing rather than being bridged across it.
pub fn line_runs(points: &Vec<Sample>) -> (r: Vec<(usize, usize)>)
    ensures
        are_runs(drawable(points@), r@),
{
    let mut flags: Vec<bool> = Vec::new();
    let mut i: usize = 0;
    while i < points.len()
        invariant
            i <= points@.len(),
            flags@.len() == i,
            forall|k: int| 0 <= k < i ==> #[trigger] flags@[k] == points@[k].1.finite(),
        decreases points@.len() - i,
    {
        flags.push(points[i].1.is_finite());
        i += 1;
    }
    assert(flags@ =~= drawable(points@));
    runs(&flags)
}

/// Which sensors of a column said something.
pub open spec fn heard(field: Field, col: int) -> Seq<bool> {
    Seq::new(TANK_SENSORS as nat, |s: int| field.cell(col, s) is Some)
}

/// Of the first `n` stretches those of more than one sensor, as first and last.
pub open spec fn long_runs(runs: Seq<(usize, usize)>, n: nat) -> Seq<(usize, usize)>
    decreases n,
{
    if n == 0 {
        Seq::empty()
    } else {
        let rest = long_runs(runs, (n - 1) as nat);
        let (start, end) = runs[n - 1];
        if start + 1 < end {
            rest.push((start, (end - 1) as usize))
        } else {
            rest
        }
    }
}

/// The stretches of a column that can be shaded.
pub open spec fn shaded_spec(field: Field, col: int) -> Seq<(usize, usize)> {
    let all = runs_of(heard(field, col), 0);
    long_runs(all, all.len())
}

/// The stretches of a column that can be shaded, as first and last sensor: a column is broken
/// wherever a sensor said nothing, and a lone sensor with holes either side shades against
/// nothing.
pub fn shaded_runs(field: &Field, col: usize) -> (r: Vec<(usize, usize)>)
    requires
        field.wf(),
        col < field.cols,
    ensures
        r@ == shaded_spec(*field, col as int),
        forall|k: int|
            0 <= k < r@.len() ==> (#[trigger] r@[k]).0 < r@[k].1 < TANK_SENSORS && (r@[k].1 + 1
                == TANK_SENSORS || field.cell(col as int, r@[k].1 + 1) is None) && (r@[k].0 == 0
                || field.cell(col as int, r@[k].0 - 1) is None) && forall|s: int|
                r@[k].0 <= s <= r@[k].1 ==> #[trigger] field.cell(col as int, s) is Some,
        forall|s: int|
            0 <= s < TANK_SENSORS - 1 && #[trigger] field.cell(col as int, s) is Some && field.cell(
                col as int,
                s + 1,
            ) is Some ==> exists|k: int|
                0 <= k < r@.len() && (#[trigger] r@[k]).0 <= s < r@[k].1,
{
    let mut flags: Vec<bool> = Vec::new();
    let mut s: usize = 0;
    while s < TANK_SENSORS
        invariant
            s <= TANK_SENSORS,
            field.wf(),
            col < field.cols,
            flags@.len() == s,
            forall|k: int|
                0 <= k < s ==> #[trigger] flags@[k] == (field.cell(col as int, k) is Some),
        decreases TANK_SENSORS - s,
    {
        flags.push(field.at(col, s).is_some());
        s += 1;
    }
    let all = runs(&flags);
    proof {
        assert(flags@ =~= heard(*field, col as int));
        there_is_one_list_of_runs(flags@, all@);
    }
    let mut out: Vec<(usize, usize)> = Vec::new();
    let mut i: usize = 0;
    while i < all.len()
        invariant
            i <= all@.len(),
            are_runs(flags@, all@),
            out@ == long_runs(all@, i as nat),
            flags@.len() == TANK_SENSORS,
            forall|k: int|
                0 <= k < TANK_SENSORS ==> #[trigger] flags@[k] == (field.cell(col as int, k)
                    is Some),
            forall|k: int|
                0 <= k < out@.len() ==> (#[trigger] out@[k]).0 < out@[k].1 < TANK_SENSORS && (
                out@[k].1 + 1 == TANK_SENSORS || !flags@[out@[k].1 + 1]) && (out@[k].0 == 0
                    || !flags@[out@[k].0 - 1]) && forall|s: int|
                    out@[k].0 <= s <= out@[k].1 ==> #[trigger] flags@[s],
            forall|j: int|
                0 <= j < i && (#[trigger] all@[j]).0 + 1 < all@[j].1 ==> exists|k: int|
                    0 <= k < out@.len() && (#[trigger] out@[k]).0 == all@[j].0 && out@[k].1 + 1
                        == all@[j].1,
        decreases all@.len() - i,
    {
        let (start, end) = all[i];
        let ghost before = out@;
        assert(all@[i as int].0 < all@[i as int].1);
        if start + 1 < end {
            out.push((start, end - 1));
            proof {
                assert(out@[before.len() as int] == (start, (end - 1) as usize));
                assert forall|s: int| start <= s <= end - 1 implies #[trigger] flags@[s] by {
                    assert(all@[i as int].0 <= s < all@[i as int].1);
                }
            }
        }
        proof {
            assert forall|j: int| 0 <= j < i + 1 && (#[trigger] all@[j]).0 + 1 < all@[j].1 implies
                exists|k: int|
                0 <= k < out@.len() && (#[trigger] out@[k]).0 == all@[j].0 && out@[k].1 + 1
                    == all@[j].1 by {
                if j < i {
                    let k = choose|k: int|
                        0 <= k < before.len() && (#[trigger] before[k]).0 == all@[j].0
                            && before[k].1 + 1 == all@[j].1;
                    assert(out@[k] == before[k]);
                } else {
                    assert(out@[before.len() as int] == (start, (end - 1) as usize));
                }
            }
        }
        i += 1;
    }
    proof {
        assert forall|s: int|
            0 <= s < TANK_SENSORS - 1 && #[trigger] field.cell(col as int, s) is Some && field.cell(
                col as int,
                s + 1,
            ) is Some implies exists|k: int|
            0 <= k < out@.len() && (#[trigger] out@[k]).0 <= s < out@[k].1 by {
            assert(flags@[s] && flags@[s + 1]);
            let j = choose|j: int|
                0 <= j < all@.len() && (#[trigger] all@[j]).0 <= s < all@[j].1;
            assert(all@[j].1 != s + 1);
            let k = choose|k: int|
                0 <= k < out@.len() && (#[trigger] out@[k]).0 == all@[j].0 && out@[k].1 + 1
                    == all@[j].1;
            assert(out@[k].0 <= s < out@[k].1);
        }
        assert forall|k: int| 0 <= k < out@.len() implies (#[trigger] out@[k]).0 < out@[k].1
            < TANK_SENSORS && (out@[k].1 + 1 == TANK_SENSORS || field.cell(
            col as int,
            out@[k].1 + 1,
        ) is None) && (out@[k].0 == 0 || field.cell(col as int, out@[k].0 - 1) is None) && forall|
            s: int,
        | out@[k].0 <= s <= out@[k].1 ==> #[trigger] field.cell(col as int, s) is Some by {
            if out@[k].1 + 1 < TANK_SENSORS {
                assert(!flags@[out@[k].1 + 1]);
            }
            if out@[k].0 > 0 {
                assert(!flags@[out@[k].0 - 1]);
            }
            assert forall|s: int| out@[k].0 <= s <= out@[k].1 implies #[trigger] field.cell(
                col as int,
                s,
            ) is Some by {
                assert(flags@[s]);
            }
        }
    }
    out
}

/// Whether stretches of columns are those of one colour: in order, none overlapping, each of one
/// colour throughout, and all that have one.
pub open spec fn are_stripes(
    colours: Seq<Option<Rgb>>,
    stripes: Seq<(usize, usize, Rgb)>,
) -> bool {
    &&& forall|k: int|
        0 <= k < stripes.len() ==> (#[trigger] stripes[k]).0 < stripes[k].1 <= colours.len()
    &&& forall|k: int, c: int|
        0 <= k < stripes.len() && (#[trigger] stripes[k]).0 <= c < stripes[k].1
            ==> #[trigger] colours[c] == Some(stripes[k].2)
    &&& forall|k: int, l: int|
        0 <= k < l < stripes.len() ==> (#[trigger] stripes[k]).1 <= (#[trigger] stripes[l]).0
    &&& forall|k: int, l: int|
        0 <= k && l == k + 1 && l < stripes.len() && (#[trigger] stripes[k]).1 == (
        #[trigger] stripes[l]).0 ==> stripes[k].2 != stripes[l].2
    &&& forall|c: int|
        0 <= c < colours.len() && #[trigger] colours[c] is Some ==> exists|k: int|
            0 <= k < stripes.len() && (#[trigger] stripes[k]).0 <= c < stripes[k].1
}

/// Where a stripe of a colour that begins at `from` ends.
pub open spec fn stripe_end(colours: Seq<Option<Rgb>>, color: Rgb, from: int) -> int
    decreases colours.len() - from,
{
    if 0 <= from < colours.len() && colours[from] == Some(color) {
        stripe_end(colours, color, from + 1)
    } else {
        from
    }
}

/// The stripes of the columns from `from` on.
pub open spec fn stripes_of(colours: Seq<Option<Rgb>>, from: int) -> Seq<(usize, usize, Rgb)>
    decreases colours.len() - from,
{
    if from < 0 || from >= colours.len() {
        Seq::empty()
    } else if colours[from] is None {
        stripes_of(colours, from + 1)
    } else {
        let color = colours[from].unwrap();
        let end = stripe_end(colours, color, from);
        if from < end <= colours.len() {
            seq![(from as usize, end as usize, color)] + stripes_of(colours, end)
        } else {
            Seq::empty()
        }
    }
}

proof fn lemma_stripe_end(colours: Seq<Option<Rgb>>, color: Rgb, from: int, end: int)
    requires
        0 <= from <= end <= colours.len(),
        forall|i: int| from <= i < end ==> #[trigger] colours[i] == Some(color),
        end == colours.len() || colours[end] != Some(color),
    ensures
        stripe_end(colours, color, from) == end,
    decreases end - from,
{
    if from < end {
        assert(colours[from] == Some(color));
        lemma_stripe_end(colours, color, from + 1, end);
    }
}

/// A column with a colour begins a stripe, where the stripes so far end before it.
proof fn lemma_next_stripe(
    colours: Seq<Option<Rgb>>,
    stripes: Seq<(usize, usize, Rgb)>,
    k: int,
    from: int,
)
    requires
        are_stripes(colours, stripes),
        0 <= k <= stripes.len(),
        0 <= from < colours.len(),
        colours[from] is Some,
        k > 0 ==> stripes[k - 1].1 <= from,
        k < stripes.len() ==> from <= stripes[k].0,
    ensures
        k < stripes.len(),
        stripes[k].0 == from,
        colours[from] == Some(stripes[k].2),
{
    let r = choose|r: int|
        0 <= r < stripes.len() && (#[trigger] stripes[r]).0 <= from < stripes[r].1;
    if r < k - 1 {
        assert(stripes[r].1 <= stripes[k - 1].0);
    } else if r > k {
        assert(stripes[k].1 <= stripes[r].0);
    }
    assert(r == k);
    assert(stripes[k].0 <= from < stripes[k].1);
}

proof fn lemma_stripes(
    colours: Seq<Option<Rgb>>,
    stripes: Seq<(usize, usize, Rgb)>,
    k: int,
    from: int,
)
    requires
        are_stripes(colours, stripes),
        0 <= k <= stripes.len(),
        0 <= from <= colours.len(),
        k > 0 ==> stripes[k - 1].1 <= from,
        k < stripes.len() ==> from <= stripes[k].0,
    ensures
        stripes.skip(k) == stripes_of(colours, from),
    decreases colours.len() - from,
{
    if from == colours.len() {
        assert(stripes.skip(k) =~= Seq::empty());
    } else if colours[from] is None {
        if k < stripes.len() && stripes[k].0 == from {
            assert(colours[stripes[k].0 as int] == Some(stripes[k].2));
        }
        lemma_stripes(colours, stripes, k, from + 1);
    } else {
        lemma_next_stripe(colours, stripes, k, from);
        let end = stripes[k].1 as int;
        let color = stripes[k].2;
        assert forall|i: int| from <= i < end implies #[trigger] colours[i] == Some(color) by {
            assert(stripes[k].0 <= i < stripes[k].1);
        }
        if k + 1 < stripes.len() {
            assert(stripes[k].1 <= stripes[k + 1].0);
        }
        if end < colours.len() && colours[end] == Some(color) {
            lemma_next_stripe(colours, stripes, k + 1, end);
            assert(stripes[k].1 == stripes[k + 1].0);
        }
        assert(colours[from] == Some(color));
        lemma_stripe_end(colours, color, from, end);
        lemma_stripes(colours, stripes, k + 1, end);
        assert(stripes.skip(k) =~= seq![stripes[k]] + stripes.skip(k + 1));
    }
}

/// The colours of some columns have one list of stripes.
pub proof fn there_is_one_list_of_stripes(
    colours: Seq<Option<Rgb>>,
    stripes: Seq<(usize, usize, Rgb)>,
)
    requires
        are_stripes(colours, stripes),
    ensures
        stripes == stripes_of(colours, 0),
{
    lemma_stripes(colours, stripes, 0, 0);
    assert(stripes.skip(0) =~= stripes);
}

/// Columns that came out the same colour, merged into one stripe each: which is most of them,
/// and the difference between a readable file and one with ten thousand rectangles in it.
pub fn stripes(colours: &Vec<Option<Rgb>>) -> (r: Vec<(usize, usize, Rgb)>)
    ensures
        are_stripes(colours@, r@),
{
    let mut out: Vec<(usize, usize, Rgb)> = Vec::new();
    let mut c: usize = 0;
    let ghost all = colours@;
    while c < colours.len()
        invariant
            c <= all.len(),
            all == colours@,
            are_stripes(all.take(c as int), out@),
        decreases all.len() - c,
    {
        let ghost before = out@;
        let ghost seen = all.take(c as int);
        let ghost now = all.take(c + 1);
        proof {
            assert forall|i: int| 0 <= i < c implies #[trigger] now[i] == seen[i] by {}
            assert(now[c as int] == all[c as int]);
        }
        match colours[c] {
            Some(colour) => {
                let n = out.len();
                let joins = n > 0 && out[n - 1].1 == c && out[n - 1].2 == colour;
                if joins {
                    let (start, _, held) = out[n - 1];
                    out.set(n - 1, (start, c + 1, held));
                } else {
                    out.push((c, c + 1, colour));
                }
                proof {
                    lemma_stripes_grow(seen, now, before, out@, c as int, colour, joins);
                }
            },
            None => {
                proof {
                    lemma_stripes_skip(seen, now, before, c as int);
                }
            },
        }
        c += 1;
    }
    assert(all.take(all.len() as int) =~= all);
    out
}

proof fn lemma_stripes_skip(
    seen: Seq<Option<Rgb>>,
    now: Seq<Option<Rgb>>,
    stripes: Seq<(usize, usize, Rgb)>,
    c: int,
)
    requires
        are_stripes(seen, stripes),
        seen.len() == c,
        now.len() == c + 1,
        forall|i: int| 0 <= i < c ==> #[trigger] now[i] == seen[i],
        now[c] is None,
    ensures
        are_stripes(now, stripes),
{
    assert forall|k: int, i: int|
        0 <= k < stripes.len() && (#[trigger] stripes[k]).0 <= i < stripes[k].1 implies
        #[trigger] now[i] == Some(stripes[k].2) by {
        assert(seen[i] == now[i]);
    }
    assert forall|i: int| 0 <= i < now.len() && #[trigger] now[i] is Some implies exists|k: int|
        0 <= k < stripes.len() && (#[trigger] stripes[k]).0 <= i < stripes[k].1 by {
        assert(i < c);
        assert(seen[i] is Some);
    }
}

proof fn lemma_stripes_grow(
    seen: Seq<Option<Rgb>>,
    now: Seq<Option<Rgb>>,
    before: Seq<(usize, usize, Rgb)>,
    after: Seq<(usize, usize, Rgb)>,
    c: int,
    colour: Rgb,
    joins: bool,
)
    requires
        are_stripes(seen, before),
        seen.len() == c,
        now.len() == c + 1,
        c < usize::MAX,
        forall|i: int| 0 <= i < c ==> #[trigger] now[i] == seen[i],
        now[c] == Some(colour),
        joins == (before.len() > 0 && before.last().1 == c && before.last().2 == colour),
        after == if joins {
            before.update(before.len() - 1, (before.last().0, (c + 1) as usize, colour))
        } else {
            before.push((c as usize, (c + 1) as usize, colour))
        },
    ensures
        are_stripes(now, after),
{
    let last = after.len() - 1;
    assert(after[last].1 == c + 1 && after[last].2 == colour);
    assert forall|k: int| 0 <= k < last implies #[trigger] after[k] == before[k] by {}
    assert forall|k: int, i: int|
        0 <= k < after.len() && (#[trigger] after[k]).0 <= i < after[k].1 implies #[trigger] now[i]
        == Some(after[k].2) by {
        if i < c {
            assert(seen[i] == now[i]);
            if k == last {
                assert(joins);
                assert(before[last].0 <= i < before[last].1);
            } else {
                assert(before[k].0 <= i < before[k].1);
            }
        } else if k < last {
            assert(before[k].1 <= c);
        }
    }
    assert forall|k: int, l: int| 0 <= k < l < after.len() implies (#[trigger] after[k]).1 <= (
    #[trigger] after[l]).0 by {
        if l == last && !joins {
            assert(before[k].1 <= c);
        } else if l == last {
            assert(before[k].1 <= before[last].0);
        } else {
            assert(before[k].1 <= before[l].0);
        }
    }
    assert forall|k: int, l: int|
        0 <= k && l == k + 1 && l < after.len() && (#[trigger] after[k]).1 == (
        #[trigger] after[l]).0 implies after[k].2 != after[l].2 by {
        if l < last || joins {
            assert(before[k].1 == before[l].0);
        } else {
            assert(before[k] == before.last());
        }
    }
    assert forall|i: int| 0 <= i < now.len() && #[trigger] now[i] is Some implies exists|k: int|
        0 <= k < after.len() && (#[trigger] after[k]).0 <= i < after[k].1 by {
        if i == c {
            assert(after[last].0 <= c < after[last].1);
        } else {
            assert(seen[i] is Some);
            let k = choose|k: int|
                0 <= k < before.len() && (#[trigger] before[k]).0 <= i < before[k].1;
            assert(after[k].0 <= i < after[k].1);
        }
    }
}

/// How one series of a figure is scaled before it is drawn.
#[derive(Clone, Copy, PartialEq, Eq, Structural, Debug)]
pub enum Scaling {
    AsIs,
    /// Onto zero to one over its own range.
    Onto(Double, Double),
    /// A flat series has no range to divide by and sits in the middle rather than at infinity.
    Middle,
}

/// One series in an exported panel.
pub struct Series {
    pub label: String,
    pub color: Rgb,
    pub right_axis: bool,
    pub points: Vec<Sample>,
    pub scaling: Scaling,
}

/// Any number of series against one or two value axes.
pub struct Graph {
    pub series: Vec<Series>,
    /// What the left axis would be fitted to, were nothing pinned.
    pub auto_left: Fit,
    pub left: Fit,
    /// None when nothing is drawn against a second axis.
    pub right: Option<Fit>,
    pub left_label: String,
    pub right_label: String,
}

/// How a prepared series is scaled.
pub open spec fn scaling_spec(bounds: Option<(Double, Double)>, normalize: bool) -> Scaling {
    if !normalize {
        Scaling::AsIs
    } else {
        match bounds {
            Some((lo, hi)) => if lo.lt(hi) {
                Scaling::Onto(lo, hi)
            } else {
                Scaling::Middle
            },
            None => Scaling::Middle,
        }
    }
}

/// Whether a figure's series is a prepared one. Which axis a line is read against has to be on
/// the line itself; the numbers on the two sides are otherwise unattributable.
pub open spec fn is_series(s: Series, p: PreparedSeries, has_right: bool, normalize: bool) -> bool {
    &&& s.right_axis == (has_right && p.axis == PlotAxis::Right)
    &&& s.label@ == if s.right_axis {
        p.base@ + " (R)"@
    } else {
        p.base@
    }
    &&& s.color == p.color
    &&& s.points@ == p.points@
    &&& s.scaling == scaling_spec(p.bounds, normalize)
}

/// The value range that a graph pins, if it is to be kept and one anything can be drawn in.
pub open spec fn pinned(plot: PlotSpec, auto_fit_y: bool) -> Option<(Double, Double)> {
    if auto_fit_y || plot.normalize {
        None
    } else {
        plot.y_manual
    }
}

/// Whether a graph is drawn from prepared series as a plot has it.
pub open spec fn is_graph(
    g: Graph,
    series: Seq<PreparedSeries>,
    plot: PlotSpec,
    auto_fit_y: bool,
) -> bool {
    let right = values_on(series, PlotAxis::Right, series.len());
    let has_right = right is Some && !plot.normalize;
    &&& g.series@.len() == series.len()
    &&& forall|i: int|
        0 <= i < series.len() ==> is_series(
            #[trigger] g.series@[i],
            series[i],
            has_right,
            plot.normalize,
        )
    &&& g.auto_left == auto_fit_spec(series, plot.normalize)
    &&& g.left == match pinned(plot, auto_fit_y) {
        Some((lo, hi)) => if lo.finite() && hi.finite() && lo.lt(hi) {
            Fit::Manual(lo, hi)
        } else {
            Fit::Unit
        },
        None => g.auto_left,
    }
    &&& g.right == if has_right {
        Some(Fit::Values(right.unwrap().0, right.unwrap().1))
    } else {
        None
    }
    &&& g.left_label@ == if plot.normalize {
        "normalized"@
    } else {
        joined(units_on(series, PlotAxis::Left, series.len()), " / "@)
    }
    &&& g.right_label@ == joined(units_on(series, PlotAxis::Right, series.len()), " / "@)
}

/// A graph of prepared series. The axes are the ones the pane on screen would have, over the
/// exported window; a range pinned by a box zoom is kept unless a fit is asked for.
pub fn graph_of(prepared: &Vec<PreparedSeries>, plot: &PlotSpec, auto_fit_y: bool) -> (g: Graph)
    ensures
        is_graph(g, prepared@, *plot, auto_fit_y),
{
    let a = axes(prepared, plot.normalize, None);
    let right = crate::plot_view::axis_values(prepared, PlotAxis::Right);
    let has_right = right.is_some() && !plot.normalize;
    let left = if auto_fit_y || plot.normalize {
        a.auto_fit
    } else {
        match plot.y_manual {
            Some((lo, hi)) => if lo.is_finite() && hi.is_finite() && lo.less(hi) {
                Fit::Manual(lo, hi)
            } else {
                Fit::Unit
            },
            None => a.auto_fit,
        }
    };
    let mut series: Vec<Series> = Vec::new();
    let mut i: usize = 0;
    while i < prepared.len()
        invariant
            i <= prepared@.len(),
            series@.len() == i,
            forall|k: int|
                0 <= k < i ==> is_series(
                    #[trigger] series@[k],
                    prepared@[k],
                    has_right,
                    plot.normalize,
                ),
        decreases prepared@.len() - i,
    {
        let p = &prepared[i];
        let on_right = has_right && p.axis == PlotAxis::Right;
        let mut label = p.base.as_str().to_owned();
        if on_right {
            label.append(" (R)");
        }
        let scaling = if !plot.normalize {
            Scaling::AsIs
        } else {
            match p.bounds {
                Some((lo, hi)) => if lo.less(hi) {
                    Scaling::Onto(lo, hi)
                } else {
                    Scaling::Middle
                },
                None => Scaling::Middle,
            }
        };
        series.push(
            Series {
                label,
                color: p.color,
                right_axis: on_right,
                points: copy_points(&p.points),
                scaling,
            },
        );
        i += 1;
    }
    Graph {
        series,
        auto_left: a.auto_fit,
        left,
        right: if has_right {
            match right {
                Some((lo, hi)) => Some(Fit::Values(lo, hi)),
                None => None,
            }
        } else {
            None
        },
        left_label: a.left_label,
        right_label: a.right_label,
    }
}

fn copy_points(points: &Vec<Sample>) -> (r: Vec<Sample>)
    ensures
        r@ == points@,
{
    let mut out: Vec<Sample> = Vec::new();
    let mut i: usize = 0;
    while i < points.len()
        invariant
            i <= points@.len(),
            out@ == points@.take(i as int),
        decreases points@.len() - i,
    {
        out.push(points[i]);
        i += 1;
    }
    assert(out@ =~= points@);
    out
}

/// The tank wall as its pane draws it: the pane's own sampling, ramp and modes.
pub struct Tank {
    pub field: Field,
    pub lo_c: i64,
    pub hi_c: i64,
    pub blocks: bool,
    pub grid: bool,
    pub unit: crate::tank::sensors::SensorUnit,
}

pub enum Content {
    Graph(Graph),
    Tank(Tank),
}

/// One pane in the figure. A figure with several stacks them on a shared time axis, which is the
/// whole reason for exporting more than one at once.
pub struct Panel {
    pub title: String,
    pub content: Content,
}

/// Everything that is drawn in one file.
pub struct Figure {
    pub panels: Vec<Panel>,
    pub range: (i64, i64),
    /// The playhead, if it is to be marked and falls inside the range.
    pub cursor: Option<i64>,
}

/// How many points to ask each series of a figure for: about two per figure unit.
pub open spec fn target_points(width: int) -> int {
    let n = width / 50;
    if n < 500 {
        500
    } else if n > 20_000 {
        20_000
    } else {
        n
    }
}

/// How many points to ask each series of a figure of a width for.
pub fn points_for(width: u64) -> (r: usize)
    ensures
        r == target_points(width as int),
{
    let wanted: u64 = width / 50;
    if wanted < 500 {
        500
    } else if wanted > 20_000 {
        20_000
    } else {
        wanted as usize
    }
}

/// How many columns a tank's strip gets: about one per two figure units.
pub open spec fn strip_columns(width: int) -> int {
    let n = width / 200;
    if n < 2 {
        2
    } else if n > 400 {
        400
    } else {
        n
    }
}

/// Whether a series is what is drawn of an entry: what was measured, corrected as the entry asks
/// for.
pub open spec fn is_drawn<S: Fn(Double, Double) -> Double, W: Fn(Double) -> String>(
    series: PreparedSeries,
    project: Project,
    entry: PlotEntry,
    several: bool,
    view: Viewport,
    sum: S,
    words: W,
) -> bool {
    exists|p: PreparedSeries| #[trigger]
        is_prepared(p, project, entry, several, view) && is_corrected(series, p, sum, words)
}

/// Whether a panel is that of a graph.
pub open spec fn is_graph_panel<S: Fn(Double, Double) -> Double, W: Fn(Double) -> String>(
    panel: Panel,
    project: Project,
    plot: PlotSpec,
    range: (i64, i64),
    width: int,
    auto_fit_y: bool,
    sum: S,
    words: W,
) -> bool {
    let view = Viewport {
        start: range.0,
        end: range.1,
        cursor: range.0,
        points: target_points(width) as usize,
    };
    let shown = drawn(project, plot.entries@, plot.entries@.len());
    &&& panel.title@ == plot.title_spec()
    &&& panel.content matches Content::Graph(g) && exists|series: Seq<PreparedSeries>|
        {
            &&& #[trigger] is_graph(g, series, plot, auto_fit_y)
            &&& series.len() == shown.len()
            &&& forall|k: int|
                0 <= k < series.len() ==> is_drawn(
                    #[trigger] series[k],
                    project,
                    plot.entries@[shown[k]],
                    from_several_sources(plot.entries@),
                    view,
                    sum,
                    words,
                )
        }
}

/// A graph as a panel of a figure. A sensor that is corrected in the graph is corrected in the
/// figure of it, its axis with it, and its label says so. Adding a correction to a value and
/// writing one out are handed in.
pub fn build_graph_panel<S: Fn(Double, Double) -> Double, W: Fn(Double) -> String>(
    project: &Project,
    plot: &PlotSpec,
    range: (i64, i64),
    width: u64,
    auto_fit_y: bool,
    sum: &S,
    words: &W,
) -> (r: Panel)
    requires
        project.wf(),
        forall|a: Double, b: Double| call_requires(*sum, (a, b)),
        forall|v: Double| call_requires(*words, (v,)),
    ensures
        is_graph_panel(r, *project, *plot, range, width as int, auto_fit_y, *sum, *words),
{
    let view = Viewport {
        start: range.0,
        end: range.1,
        cursor: range.0,
        points: points_for(width),
    };
    let prepared = prepare(project, plot, view);
    let ghost raw = prepared@;
    let series = correct_all(prepared, sum, words);
    let g = graph_of(&series, plot, auto_fit_y);
    proof {
        let shown = drawn(*project, plot.entries@, plot.entries@.len());
        assert forall|k: int| 0 <= k < series@.len() implies is_drawn(
            #[trigger] series@[k],
            *project,
            plot.entries@[shown[k]],
            from_several_sources(plot.entries@),
            view,
            *sum,
            *words,
        ) by {
            assert(is_corrected(series@[k], raw[k], *sum, *words));
        }
    }
    assert(is_graph(g, series@, *plot, auto_fit_y));
    Panel { title: plot.title(), content: Content::Graph(g) }
}

/// Whether a panel is that of a tank.
pub open spec fn is_tank_panel(
    panel: Panel,
    project: Project,
    spec: TankSpec,
    range: (i64, i64),
    width: int,
) -> bool {
    panel.content matches Content::Tank(t) && {
        &&& t.lo_c == spec.lo_c && t.hi_c == spec.hi_c
        &&& t.blocks == spec.blocks && t.grid == spec.grid && t.unit == spec.unit
        &&& t.field.wf()
        &&& t.field.cols == strip_columns(width)
        &&& forall|c: int, h: int|
            0 <= c < t.field.cols && 0 <= h < TANK_SENSORS ==> #[trigger] t.field.cell(c, h)
                == cell_spec(
                spec.sensors@[h],
                project,
                range,
                t.field.cols as int,
                spec.hold,
                c,
            )
    }
}

/// A tank as a panel of a figure.
pub fn build_tank_panel(project: &Project, spec: &TankSpec, range: (i64, i64), width: u64) -> (r:
    Panel)
    requires
        project.wf(),
        spec.wf(),
        0 <= spec.hold,
        range.0 <= range.1,
    ensures
        is_tank_panel(r, *project, *spec, range, width as int),
        forall|stem: Seq<char>| #[trigger]
            crate::tank::share_stem(spec.sensors@, stem) ==> r.title@ == "Tank · "@
                + crate::tank::without_marks(stem),
{
    let wanted: u64 = width / 200;
    let cols: usize = if wanted < 2 {
        2
    } else if wanted > 400 {
        400
    } else {
        wanted as usize
    };
    Panel {
        title: spec.title(),
        content: Content::Tank(
            Tank {
                field: spec.sample(project, range, cols),
                lo_c: spec.lo_c,
                hi_c: spec.hi_c,
                blocks: spec.blocks,
                grid: spec.grid,
                unit: spec.unit,
            },
        ),
    }
}

/// Whether a pane is still there.
pub open spec fn is_open(item: ExportItem, plots: Plots, tanks: Tanks) -> bool {
    match item {
        ExportItem::Plot(id) => plots.find_spec(id) is Some,
        ExportItem::Tank(id) => tanks.find_spec(id) is Some,
    }
}

/// The first `n` panes that are still there.
pub open spec fn still_open(ids: Seq<ExportItem>, plots: Plots, tanks: Tanks, n: nat) -> Seq<
    ExportItem,
>
    decreases n,
{
    if n == 0 {
        Seq::empty()
    } else {
        let rest = still_open(ids, plots, tanks, (n - 1) as nat);
        if is_open(ids[n - 1], plots, tanks) {
            rest.push(ids[n - 1])
        } else {
            rest
        }
    }
}

/// Whether a panel is that of a pane.
pub open spec fn is_panel<S: Fn(Double, Double) -> Double, W: Fn(Double) -> String>(
    panel: Panel,
    item: ExportItem,
    project: Project,
    plots: Plots,
    tanks: Tanks,
    range: (i64, i64),
    width: int,
    auto_fit_y: bool,
    sum: S,
    words: W,
) -> bool {
    match item {
        ExportItem::Plot(id) => match plots.find_spec(id) {
            Some(i) => is_graph_panel(
                panel,
                project,
                plots.list@[i],
                range,
                width,
                auto_fit_y,
                sum,
                words,
            ),
            None => false,
        },
        ExportItem::Tank(id) => match tanks.find_spec(id) {
            Some(i) => is_tank_panel(panel, project, tanks.list@[i], range, width),
            None => false,
        },
    }
}

/// Turns the app's panes into a figure, in the order asked for. A pane that is gone is left out;
/// one whose series are gone is an empty panel. Adding a correction to a value and writing one
/// out are handed in.
pub fn build_figure<S: Fn(Double, Double) -> Double, W: Fn(Double) -> String>(
    project: &Project,
    plots: &Plots,
    tanks: &Tanks,
    ids: &Vec<ExportItem>,
    range: (i64, i64),
    cursor: Option<i64>,
    settings: &ExportSettings,
    width: u64,
    sum: &S,
    words: &W,
) -> (r: Figure)
    requires
        forall|a: Double, b: Double| call_requires(*sum, (a, b)),
        forall|v: Double| call_requires(*words, (v,)),
        project.wf(),
        tanks.wf(),
        forall|i: int| 0 <= i < tanks.list@.len() ==> 0 <= (#[trigger] tanks.list@[i]).hold,
        range.0 <= range.1,
    ensures
        r.range == range,
        r.cursor == cursor,
        r.panels@.len() == still_open(ids@, *plots, *tanks, ids@.len()).len(),
        forall|k: int|
            0 <= k < r.panels@.len() ==> is_panel(
                #[trigger] r.panels@[k],
                still_open(ids@, *plots, *tanks, ids@.len())[k],
                *project,
                *plots,
                *tanks,
                range,
                width as int,
                settings.auto_fit_y,
                *sum,
                *words,
            ),
{
    let mut panels: Vec<Panel> = Vec::new();
    let mut n: usize = 0;
    while n < ids.len()
        invariant
            n <= ids@.len(),
            forall|a: Double, b: Double| call_requires(*sum, (a, b)),
            forall|v: Double| call_requires(*words, (v,)),
            project.wf(),
            tanks.wf(),
            forall|i: int| 0 <= i < tanks.list@.len() ==> 0 <= (#[trigger] tanks.list@[i]).hold,
            range.0 <= range.1,
            panels@.len() == still_open(ids@, *plots, *tanks, n as nat).len(),
            forall|k: int|
                0 <= k < panels@.len() ==> is_panel(
                    #[trigger] panels@[k],
                    still_open(ids@, *plots, *tanks, n as nat)[k],
                    *project,
                    *plots,
                    *tanks,
                    range,
                    width as int,
                    settings.auto_fit_y,
                    *sum,
                    *words,
                ),
        decreases ids@.len() - n,
    {
        let ghost before = panels@;
        let ghost rest = still_open(ids@, *plots, *tanks, n as nat);
        match ids[n] {
            ExportItem::Plot(id) => {
                if let Some(plot) = plots.get(id) {
                    let fit = settings.auto_fit_y;
                    panels.push(build_graph_panel(project, plot, range, width, fit, sum, words));
                }
            },
            ExportItem::Tank(id) => {
                if let Some(i) = tanks.find(id) {
                    let tank = &tanks.list[i];
                    panels.push(build_tank_panel(project, tank, range, width));
                }
            },
        }
        proof {
            let now = still_open(ids@, *plots, *tanks, n as nat + 1);
            assert forall|k: int| 0 <= k < panels@.len() implies is_panel(
                #[trigger] panels@[k],
                now[k],
                *project,
                *plots,
                *tanks,
                range,
                width as int,
                settings.auto_fit_y,
                *sum,
                *words,
            ) by {
                if k < before.len() {
                    assert(panels@[k] == before[k]);
                    assert(now[k] == rest[k]);
                }
            }
        }
        n += 1;
    }
    Figure { panels, range, cursor }
}

} // verus!
