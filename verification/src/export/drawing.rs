//! What a figure is drawn with: lines, boxes and words, in the order they go on the page.
//!
//! A list of pieces knows nothing of the file it ends up in, so a vector file and a bitmap of the
//! same figure agree with each other. Where a value or an instant falls is handed in; what is put
//! around it is worked out here. Coordinates are hundredths of a figure unit, y down.
use vstd::prelude::*;

use crate::colors::Rgb;
use crate::export::figure::{
    advance, are_legend_rows, legend_area, legend_inside, row_fits, Metrics, Series,
};
use crate::export::svg::{Align, Frame, Ink};
use crate::export::{LegendPos, Palette};
use crate::tank::picture::{band, column, column_cell, grid_lines, sensor_band, sensor_height};
use crate::tank::sensors::TANK_SENSORS;
use crate::tank::CRITICAL_C;
use crate::text::{dec, push_dec, push_quotient, quotient};

verus! {

broadcast use vstd::seq_lib::group_seq_properties;

/// Everything about a figure that is a matter of taste rather than of data.
#[derive(Clone, Copy, PartialEq, Eq, Structural, Debug)]
pub struct Style {
    pub palette: Palette,
    /// Body text size.
    pub font: u64,
    pub line_width: u64,
    pub padding: u64,
    pub grid: bool,
    pub legend: LegendPos,
    pub titles: bool,
    pub cursor: bool,
}

impl Style {
    pub open spec fn wf(self) -> bool {
        self.font <= 0x2_0000_0000 && self.line_width <= 0x2_0000_0000
    }

    /// Tenths of the line width, but no hairline.
    pub open spec fn part(self, tenths: int) -> int {
        if self.line_width * tenths / 10 < 50 {
            50
        } else {
            self.line_width * tenths / 10
        }
    }

    /// Tenths of the line width, but no hairline.
    pub fn thickness(&self, tenths: u64) -> (r: u64)
        requires
            self.wf(),
            tenths <= 10,
        ensures
            r == self.part(tenths as int),
    {
        proof {
            assert(0 <= self.line_width * tenths <= 0x2_0000_0000 * 10) by (nonlinear_arith)
                requires
                    0 <= self.line_width <= 0x2_0000_0000,
                    0 <= tenths <= 10,
            ;
        }
        let w: u64 = self.line_width * tenths / 10;
        if w < 50 {
            50
        } else {
            w
        }
    }
}

/// A rectangle of the page.
#[derive(Clone, Copy, PartialEq, Eq, Structural, Debug)]
pub struct Place {
    pub left: i64,
    pub top: i64,
    pub right: i64,
    pub bottom: i64,
}

impl View for Place {
    type V = (int, int, int, int);

    open spec fn view(&self) -> (int, int, int, int) {
        (self.left as int, self.top as int, self.right as int, self.bottom as int)
    }
}

/// One thing to draw.
pub enum Piece {
    Fill(Place, Ink),
    Outline(Place, Ink, u64),
    /// An open line through some points.
    Line(Vec<(i64, i64)>, Ink, u64),
    /// One cell of a grid of them, with crisp edges: two cells sharing a soft one would let the
    /// page show through the seam.
    Cell(Place, Ink),
    /// A box shaded from its top to its bottom, with stops in hundredths of the way down.
    Gradient(Place, Vec<(u8, Ink)>),
    /// One line of text, and which of its edges are at the place.
    Words((i64, i64), Align, Align, String, u64, Ink),
    /// One line of text centred on a place, reading bottom to top.
    Turned((i64, i64), String, u64, Ink),
    /// Confines what follows to a rectangle, or lifts the restriction.
    Clip(Option<Place>),
}

/// What a piece is.
pub enum Shape {
    Fill((int, int, int, int), Ink),
    Outline((int, int, int, int), Ink, int),
    Line(Seq<(int, int)>, Ink, int),
    Cell((int, int, int, int), Ink),
    Gradient((int, int, int, int), Seq<(u8, Ink)>),
    Words((int, int), Align, Align, Seq<char>, int, Ink),
    Turned((int, int), Seq<char>, int, Ink),
    Clip(Option<(int, int, int, int)>),
}

pub open spec fn points_of(points: Seq<(i64, i64)>) -> Seq<(int, int)> {
    points.map_values(|p: (i64, i64)| (p.0 as int, p.1 as int))
}

impl View for Piece {
    type V = Shape;

    open spec fn view(&self) -> Shape {
        match *self {
            Piece::Fill(place, ink) => Shape::Fill(place@, ink),
            Piece::Outline(place, ink, width) => Shape::Outline(place@, ink, width as int),
            Piece::Line(points, ink, width) => Shape::Line(points_of(points@), ink, width as int),
            Piece::Cell(place, ink) => Shape::Cell(place@, ink),
            Piece::Gradient(place, stops) => Shape::Gradient(place@, stops@),
            Piece::Words(at, across, down, text, size, ink) => Shape::Words(
                (at.0 as int, at.1 as int),
                across,
                down,
                text@,
                size as int,
                ink,
            ),
            Piece::Turned(at, text, size, ink) => Shape::Turned(
                (at.0 as int, at.1 as int),
                text@,
                size as int,
                ink,
            ),
            Piece::Clip(place) => Shape::Clip(
                match place {
                    Some(p) => Some(p@),
                    None => None,
                },
            ),
        }
    }
}

/// What some pieces are, in order.
pub open spec fn shapes(pieces: Seq<Piece>) -> Seq<Shape> {
    pieces.map_values(|p: Piece| p@)
}

/// A colour, opaque.
pub open spec fn solid(color: Rgb) -> Ink {
    Ink { color, alpha: 255 }
}

fn ink(color: Rgb) -> (r: Ink)
    ensures
        r == solid(color),
{
    Ink { color, alpha: 255 }
}

/// A colour at some opacity, or nothing where there is none.
pub open spec fn veil_spec(color: Option<Rgb>, alpha: u8) -> Ink {
    match color {
        Some(color) => Ink { color, alpha },
        None => Ink { color: Rgb { r: 0, g: 0, b: 0 }, alpha: 0 },
    }
}

/// A colour at some opacity, or nothing where there is none.
pub fn veil(color: Option<Rgb>, alpha: u8) -> (r: Ink)
    ensures
        r == veil_spec(color, alpha),
{
    match color {
        Some(color) => Ink { color, alpha },
        None => Ink { color: Rgb { r: 0, g: 0, b: 0 }, alpha: 0 },
    }
}

/// The place of a frame.
pub fn place_of(f: &Frame) -> (r: Place)
    ensures
        r@ == frame_place(*f),
{
    Place { left: f.left as i64, top: f.top as i64, right: f.right as i64, bottom: f.bottom as i64 }
}

pub open spec fn frame_place(f: Frame) -> (int, int, int, int) {
    (f.left as int, f.top as int, f.right as int, f.bottom as int)
}

/// Whether a frame is not inside out.
pub open spec fn upright(f: Frame) -> bool {
    f.left <= f.right && f.top <= f.bottom
}

fn put(out: &mut Vec<Piece>, piece: Piece)
    ensures
        shapes(final(out)@) == shapes(old(out)@).push(piece@),
{
    out.push(piece);
    assert(shapes(out@) =~= shapes(old(out)@).push(piece@));
}

/// Puts a straight line.
fn rule(out: &mut Vec<Piece>, a: (i64, i64), b: (i64, i64), ink: Ink, width: u64)
    ensures
        shapes(final(out)@) == shapes(old(out)@).push(
            straight(a.0 as int, a.1 as int, b.0 as int, b.1 as int, ink, width as int),
        ),
{
    let points: Vec<(i64, i64)> = vec![a, b];
    assert(points_of(points@) =~= seq![
        (a.0 as int, a.1 as int),
        (b.0 as int, b.1 as int),
    ]);
    put(out, Piece::Line(points, ink, width));
}

/// A straight line.
pub open spec fn straight(x0: int, y0: int, x1: int, y1: int, ink: Ink, width: int) -> Shape {
    Shape::Line(seq![(x0, y0), (x1, y1)], ink, width)
}

/// A tick of an axis: where it is along it, and what is written there.
pub struct Tick {
    pub at: i64,
    pub label: String,
}

/// The lines of the time axis' ticks, from top to bottom of a plot.
pub open spec fn uprights(plot: Frame, style: Style, time: Seq<Tick>, n: nat) -> Seq<Shape>
    decreases n,
{
    if n == 0 {
        Seq::empty()
    } else {
        uprights(plot, style, time, (n - 1) as nat).push(
            straight(
                time[n - 1].at as int,
                plot.top as int,
                time[n - 1].at as int,
                plot.bottom as int,
                solid(style.palette.grid),
                style.part(5),
            ),
        )
    }
}

/// The lines of a value axis' ticks, from side to side of a plot.
pub open spec fn levels(plot: Frame, style: Style, values: Seq<Tick>, n: nat) -> Seq<Shape>
    decreases n,
{
    if n == 0 {
        Seq::empty()
    } else {
        levels(plot, style, values, (n - 1) as nat).push(
            straight(
                plot.left as int,
                values[n - 1].at as int,
                plot.right as int,
                values[n - 1].at as int,
                solid(style.palette.grid),
                style.part(5),
            ),
        )
    }
}

/// What is behind the lines of a graph: its ground, and the grid on it.
pub open spec fn backdrop_spec(
    plot: Frame,
    style: Style,
    time: Seq<Tick>,
    values: Seq<Tick>,
) -> Seq<Shape> {
    let ground = seq![Shape::Fill(frame_place(plot), veil_spec(style.palette.plot_bg, 255))];
    let lines = if style.grid {
        uprights(plot, style, time, time.len()) + levels(plot, style, values, values.len())
    } else {
        Seq::empty()
    };
    (ground + lines).push(Shape::Clip(Some(frame_place(plot))))
}

/// What is behind the lines of a graph. What follows is confined to the plot.
pub fn backdrop(plot: &Frame, style: &Style, time: &Vec<Tick>, values: &Vec<Tick>) -> (r: Vec<Piece>)
    requires
        style.wf(),
    ensures
        shapes(r@) == backdrop_spec(*plot, *style, time@, values@),
{
    let mut out: Vec<Piece> = Vec::new();
    put(&mut out, Piece::Fill(place_of(plot), veil(style.palette.plot_bg, 255)));
    let ghost ground = shapes(out@);
    assert(ground =~= seq![
        Shape::Fill(frame_place(*plot), veil_spec(style.palette.plot_bg, 255)),
    ]);
    if style.grid {
        let width = style.thickness(5);
        let mut i: usize = 0;
        while i < time.len()
            invariant
                i <= time@.len(),
                width == style.part(5),
                shapes(out@) == ground + uprights(*plot, *style, time@, i as nat),
            decreases time@.len() - i,
        {
            let x: i64 = time[i].at;
            let (a, b) = ((x, plot.top as i64), (x, plot.bottom as i64));
            rule(&mut out, a, b, ink(style.palette.grid), width);
            i += 1;
            assert(shapes(out@) =~= ground + uprights(*plot, *style, time@, i as nat));
        }
        let ghost upright = shapes(out@);
        let mut j: usize = 0;
        while j < values.len()
            invariant
                j <= values@.len(),
                width == style.part(5),
                shapes(out@) == upright + levels(*plot, *style, values@, j as nat),
            decreases values@.len() - j,
        {
            let y: i64 = values[j].at;
            let (a, b) = ((plot.left as i64, y), (plot.right as i64, y));
            rule(&mut out, a, b, ink(style.palette.grid), width);
            j += 1;
            assert(shapes(out@) =~= upright + levels(*plot, *style, values@, j as nat));
        }
        assert(shapes(out@) =~= ground + (uprights(*plot, *style, time@, time@.len()) + levels(
            *plot,
            *style,
            values@,
            values@.len(),
        )));
    } else {
        assert(shapes(out@) =~= ground + Seq::<Shape>::empty());
    }
    put(&mut out, Piece::Clip(Some(place_of(plot))));
    out
}

/// The marks of a value axis' first `n` ticks, and what is written at them.
pub open spec fn value_ticks_spec(
    plot: Frame,
    m: Metrics,
    style: Style,
    ticks: Seq<Tick>,
    right: bool,
    n: nat,
) -> Seq<Shape>
    decreases n,
{
    if n == 0 {
        Seq::empty()
    } else {
        let y = ticks[n - 1].at as int;
        let words = m.tick_len + m.gap * 4 / 10;
        let (x0, x1, x2) = if right {
            (plot.right as int, plot.right + m.tick_len, plot.right + words)
        } else {
            (plot.left as int, plot.left - m.tick_len, plot.left - words)
        };
        value_ticks_spec(plot, m, style, ticks, right, (n - 1) as nat).push(
            straight(x0, y, x1, y, solid(style.palette.frame), style.part(6)),
        ).push(
            Shape::Words(
                (x2, y),
                if right {
                    Align::Min
                } else {
                    Align::Max
                },
                Align::Center,
                ticks[n - 1].label@,
                style.font as int,
                solid(style.palette.text),
            ),
        )
    }
}

/// A value axis: its ticks, and its label turned on its side, outside the widest of them.
pub open spec fn value_axis_spec(
    plot: Frame,
    m: Metrics,
    style: Style,
    ticks: Seq<Tick>,
    widest: int,
    label: Seq<char>,
    right: bool,
) -> Seq<Shape> {
    let marks = value_ticks_spec(plot, m, style, ticks, right, ticks.len());
    let out = m.tick_len + m.gap * 8 / 10 + widest + m.line_h / 2;
    if label.len() == 0 {
        marks
    } else {
        marks.push(
            Shape::Turned(
                (
                    if right {
                        plot.right + out
                    } else {
                        plot.left - out
                    },
                    plot.top + plot.high() / 2,
                ),
                label,
                style.font as int,
                solid(style.palette.weak_text),
            ),
        )
    }
}

/// A value axis on one side of a plot.
pub fn draw_value_axis(
    plot: &Frame,
    m: &Metrics,
    style: &Style,
    ticks: &Vec<Tick>,
    widest: u32,
    label: &str,
    right: bool,
) -> (r: Vec<Piece>)
    requires
        m.wf(),
        style.wf(),
        upright(*plot),
    ensures
        shapes(r@) == value_axis_spec(*plot, *m, *style, ticks@, widest as int, label@, right),
{
    let mut out: Vec<Piece> = Vec::new();
    assert(shapes(out@) =~= Seq::empty());
    let width = style.thickness(6);
    let words: i64 = m.tick_len + m.gap * 4 / 10;
    let (edge, tick, text): (i64, i64, i64) = if right {
        (plot.right as i64, plot.right as i64 + m.tick_len, plot.right as i64 + words)
    } else {
        (plot.left as i64, plot.left as i64 - m.tick_len, plot.left as i64 - words)
    };
    let across = if right {
        Align::Min
    } else {
        Align::Max
    };
    let mut i: usize = 0;
    while i < ticks.len()
        invariant
            i <= ticks@.len(),
            width == style.part(6),
            edge == if right {
                plot.right
            } else {
                plot.left
            },
            tick == if right {
                plot.right + m.tick_len
            } else {
                plot.left - m.tick_len
            },
            text == if right {
                plot.right + (m.tick_len + m.gap * 4 / 10)
            } else {
                plot.left - (m.tick_len + m.gap * 4 / 10)
            },
            across == if right {
                Align::Min
            } else {
                Align::Max
            },
            shapes(out@) == value_ticks_spec(*plot, *m, *style, ticks@, right, i as nat),
        decreases ticks@.len() - i,
    {
        let y: i64 = ticks[i].at;
        rule(&mut out, (edge, y), (tick, y), ink(style.palette.frame), width);
        let label = ticks[i].label.as_str().to_owned();
        let color = ink(style.palette.text);
        put(&mut out, Piece::Words((text, y), across, Align::Center, label, style.font, color));
        i += 1;
    }
    if !label.is_empty() {
        let far: i64 = m.tick_len + m.gap * 8 / 10 + widest as i64 + m.line_h / 2;
        let x: i64 = if right {
            plot.right as i64 + far
        } else {
            plot.left as i64 - far
        };
        let y: i64 = plot.top as i64 + plot.height() / 2;
        let color = ink(style.palette.weak_text);
        put(&mut out, Piece::Turned((x, y), label.to_owned(), style.font, color));
    }
    out
}

/// The marks of the time axis' first `n` ticks, and what is written at them.
pub open spec fn time_ticks_spec(
    plot: Frame,
    m: Metrics,
    style: Style,
    time: Seq<Tick>,
    n: nat,
) -> Seq<Shape>
    decreases n,
{
    if n == 0 {
        Seq::empty()
    } else {
        let x = time[n - 1].at as int;
        let foot = plot.bottom + m.tick_len;
        time_ticks_spec(plot, m, style, time, (n - 1) as nat).push(
            straight(
                x,
                plot.bottom as int,
                x,
                foot,
                solid(style.palette.frame),
                style.part(6),
            ),
        ).push(
            Shape::Words(
                (x, foot + m.gap * 4 / 10),
                Align::Center,
                Align::Min,
                time[n - 1].label@,
                style.font as int,
                solid(style.palette.text),
            ),
        )
    }
}

/// The time axis: its ticks, and below them the dates that the clock times belong to.
pub open spec fn time_axis_spec(
    plot: Frame,
    m: Metrics,
    style: Style,
    time: Seq<Tick>,
    dates: Seq<char>,
) -> Seq<Shape> {
    time_ticks_spec(plot, m, style, time, time.len()).push(
        Shape::Words(
            (
                plot.left + plot.wide() / 2,
                plot.bottom + m.tick_len + m.gap * 7 / 10 + m.line_h,
            ),
            Align::Center,
            Align::Min,
            dates,
            style.font as int,
            solid(style.palette.weak_text),
        ),
    )
}

/// The time axis below a plot. It belongs to the stack, not to a panel, so there is one under
/// the last.
pub fn draw_time_axis(plot: &Frame, m: &Metrics, style: &Style, time: &Vec<Tick>, dates: &str) -> (r:
    Vec<Piece>)
    requires
        m.wf(),
        style.wf(),
        upright(*plot),
    ensures
        shapes(r@) == time_axis_spec(*plot, *m, *style, time@, dates@),
{
    let mut out: Vec<Piece> = Vec::new();
    assert(shapes(out@) =~= Seq::empty());
    let width = style.thickness(6);
    let foot: i64 = plot.bottom as i64 + m.tick_len;
    let words: i64 = foot + m.gap * 4 / 10;
    let mut i: usize = 0;
    while i < time.len()
        invariant
            i <= time@.len(),
            width == style.part(6),
            foot == plot.bottom + m.tick_len,
            words == plot.bottom + m.tick_len + m.gap * 4 / 10,
            shapes(out@) == time_ticks_spec(*plot, *m, *style, time@, i as nat),
        decreases time@.len() - i,
    {
        let x: i64 = time[i].at;
        rule(&mut out, (x, plot.bottom as i64), (x, foot), ink(style.palette.frame), width);
        let label = time[i].label.as_str().to_owned();
        let color = ink(style.palette.text);
        put(
            &mut out,
            Piece::Words((x, words), Align::Center, Align::Min, label, style.font, color),
        );
        i += 1;
    }
    let at: (i64, i64) = (plot.left as i64 + plot.width() / 2, foot + m.gap * 7 / 10 + m.line_h);
    let color = ink(style.palette.weak_text);
    put(
        &mut out,
        Piece::Words(at, Align::Center, Align::Min, dates.to_owned(), style.font, color),
    );
    out
}

/// One entry of a legend: a sample of the line, and its label.
pub open spec fn entry_spec(entry: Series, x: int, y: int, m: Metrics, style: Style) -> Seq<Shape> {
    let middle = y + m.line_h / 2;
    let end = x + style.font * 16 / 10;
    seq![
        straight(x, middle, end, middle, solid(entry.color), style.line_width as int),
        Shape::Words(
            (end + m.gap * 5 / 10, middle),
            Align::Min,
            Align::Center,
            entry.label@,
            style.font as int,
            solid(style.palette.text),
        ),
    ]
}

fn draw_legend_entry(out: &mut Vec<Piece>, entry: &Series, x: i64, y: i64, m: &Metrics, style: &Style)
    requires
        m.wf(),
        style.wf(),
        -0x10_0000_0000 <= x <= 0x10_0000_0000,
        -0x10_0000_0000 <= y <= 0x2000_0000_0000_0000,
    ensures
        shapes(final(out)@) == shapes(old(out)@) + entry_spec(
            *entry,
            x as int,
            y as int,
            *m,
            *style,
        ),
{
    let ghost before = shapes(out@);
    let middle: i64 = y + m.line_h / 2;
    let end: i64 = x + (style.font * 16 / 10) as i64;
    rule(out, (x, middle), (end, middle), ink(entry.color), style.line_width);
    let at: (i64, i64) = (end + m.gap * 5 / 10, middle);
    let label = entry.label.as_str().to_owned();
    let color = ink(style.palette.text);
    put(out, Piece::Words(at, Align::Min, Align::Center, label, style.font, color));
    assert(shapes(out@) =~= before + entry_spec(*entry, x as int, y as int, *m, *style));
}

/// The first `n` entries of a legend in a box, one below the other.
pub open spec fn boxed(
    area: (int, int, int, int),
    m: Metrics,
    style: Style,
    entries: Seq<Series>,
    n: nat,
) -> Seq<Shape>
    decreases n,
{
    if n == 0 {
        Seq::empty()
    } else {
        let inner = m.gap * 5 / 10;
        boxed(area, m, style, entries, (n - 1) as nat) + entry_spec(
            entries[n - 1],
            area.0 + inner,
            area.1 + inner + (n - 1) * m.line_h,
            m,
            style,
        )
    }
}

/// A legend in a box inside a plot.
pub open spec fn legend_box_spec(
    area: (int, int, int, int),
    m: Metrics,
    style: Style,
    entries: Seq<Series>,
) -> Seq<Shape> {
    seq![
        Shape::Fill(area, veil_spec(style.palette.plot_bg, 217)),
        Shape::Outline(area, solid(style.palette.grid), style.part(5)),
    ] + boxed(area, m, style, entries, entries.len())
}

/// The widest of some entries.
pub open spec fn widest_spec(widths: Seq<u32>) -> u32
    decreases widths.len(),
{
    if widths.len() == 0 {
        0
    } else {
        let rest = widest_spec(widths.drop_last());
        if widths.last() > rest {
            widths.last()
        } else {
            rest
        }
    }
}

fn widest(widths: &Vec<u32>) -> (r: u32)
    ensures
        r == widest_spec(widths@),
{
    let mut r: u32 = 0;
    let mut i: usize = 0;
    assert(widths@.take(0) =~= Seq::<u32>::empty());
    while i < widths.len()
        invariant
            i <= widths@.len(),
            r == widest_spec(widths@.take(i as int)),
        decreases widths@.len() - i,
    {
        assert(widths@.take(i + 1).drop_last() =~= widths@.take(i as int));
        if widths[i] > r {
            r = widths[i];
        }
        i += 1;
    }
    assert(widths@.take(i as int) =~= widths@);
    r
}

/// A legend inside a plot, where there is room for its box.
pub open spec fn legend_inside_spec(
    plot: Frame,
    m: Metrics,
    style: Style,
    entries: Seq<Series>,
    widths: Seq<u32>,
    right: bool,
) -> Seq<Shape> {
    match legend_area(plot, m, widest_spec(widths) as int, entries.len() as int, right) {
        Some(area) => legend_box_spec(area, m, style, entries),
        None => Seq::empty(),
    }
}

/// A legend in a box inside a plot, which is where it costs no room. One bigger than the plot
/// would hide the data it names, and is left out.
pub fn draw_legend_inside(
    plot: &Frame,
    m: &Metrics,
    style: &Style,
    entries: &Vec<Series>,
    widths: &Vec<u32>,
    right: bool,
) -> (r: Vec<Piece>)
    requires
        m.wf(),
        style.wf(),
    ensures
        shapes(r@) == legend_inside_spec(*plot, *m, *style, entries@, widths@, right),
{
    let mut out: Vec<Piece> = Vec::new();
    assert(shapes(out@) =~= Seq::empty());
    let area = match legend_inside(plot, m, widest(widths), entries.len(), right) {
        Some(area) => area,
        None => return out,
    };
    put(&mut out, Piece::Fill(area, veil(style.palette.plot_bg, 217)));
    let edge = ink(style.palette.grid);
    put(&mut out, Piece::Outline(area, edge, style.thickness(5)));
    let ghost ground = shapes(out@);
    assert(ground =~= seq![
        Shape::Fill(area@, veil_spec(style.palette.plot_bg, 217)),
        Shape::Outline(area@, solid(style.palette.grid), style.part(5)),
    ]);
    let inner: i64 = m.gap * 5 / 10;
    let x: i64 = area.left + inner;
    let mut y: i64 = area.top + inner;
    let mut i: usize = 0;
    assert(shapes(out@) =~= ground + boxed(area@, *m, *style, entries@, 0));
    while i < entries.len()
        invariant
            i <= entries@.len(),
            m.wf(),
            style.wf(),
            inner == m.gap * 5 / 10,
            -0x8_0000_0000 <= area.left <= 0x8_0000_0000,
            -0x8_0000_0000 <= area.top <= 0x8_0000_0000,
            x == area.left + inner,
            y == area.top + inner + i * m.line_h,
            entries@.len() * m.line_h <= 0xFFFF_FFFF,
            shapes(out@) == ground + boxed(area@, *m, *style, entries@, i as nat),
        decreases entries@.len() - i,
    {
        proof {
            assert(0 <= i * m.line_h <= entries@.len() * m.line_h && (i + 1) * m.line_h == i
                * m.line_h + m.line_h && (i + 1) * m.line_h <= entries@.len() * m.line_h)
                by (nonlinear_arith)
                requires
                    0 <= i < entries@.len(),
                    0 <= m.line_h,
            ;
        }
        draw_legend_entry(&mut out, &entries[i], x, y, m, style);
        y += m.line_h;
        i += 1;
        assert(shapes(out@) =~= ground + boxed(area@, *m, *style, entries@, i as nat));
    }
    out
}

/// The entries of a row of a legend, from one up to another.
pub open spec fn row_spec(
    plot: Frame,
    m: Metrics,
    style: Style,
    entries: Seq<Series>,
    widths: Seq<u32>,
    spacing: u32,
    y: int,
    from: int,
    to: int,
) -> Seq<Shape>
    decreases to - from,
{
    if from >= to {
        Seq::empty()
    } else {
        row_spec(plot, m, style, entries, widths, spacing, y, from, to - 1) + entry_spec(
            entries[to - 1],
            plot.left + advance(widths, spacing, from, to - 1),
            y,
            m,
            style,
        )
    }
}

/// The first `n` rows of a legend below a plot, the first of them `below` it.
pub open spec fn rows_spec(
    plot: Frame,
    m: Metrics,
    style: Style,
    entries: Seq<Series>,
    widths: Seq<u32>,
    spacing: u32,
    rows: Seq<(usize, usize)>,
    below: int,
    n: nat,
) -> Seq<Shape>
    decreases n,
{
    if n == 0 {
        Seq::empty()
    } else {
        rows_spec(
            plot,
            m,
            style,
            entries,
            widths,
            spacing,
            rows,
            below,
            (n - 1) as nat,
        ) + row_spec(
            plot,
            m,
            style,
            entries,
            widths,
            spacing,
            plot.bottom + below + m.gap * 6 / 10 + (n - 1) * m.line_h,
            rows[n - 1].0 as int,
            rows[n - 1].1 as int,
        )
    }
}

proof fn lemma_advance_grows(widths: Seq<u32>, spacing: u32, a: int, b: int)
    ensures
        0 <= advance(widths, spacing, a, b),
    decreases b - a,
{
    if a < b {
        lemma_advance_grows(widths, spacing, a, b - 1);
    }
}

/// A legend below a plot, wrapped into rows. On the bottom panel of a stack the time axis is
/// between the plot and its legend.
pub fn draw_legend_below(
    plot: &Frame,
    m: &Metrics,
    style: &Style,
    entries: &Vec<Series>,
    widths: &Vec<u32>,
    spacing: u32,
    width: u32,
    rows: &Vec<(usize, usize)>,
    below: i64,
) -> (r: Vec<Piece>)
    requires
        m.wf(),
        style.wf(),
        entries@.len() == widths@.len(),
        are_legend_rows(widths@, spacing, width, rows@),
        rows@.len() * m.line_h <= 0x1000_0000_0000_0000,
        0 <= below <= 0x8_0000_0000,
    ensures
        shapes(r@) == rows_spec(
            *plot,
            *m,
            *style,
            entries@,
            widths@,
            spacing,
            rows@,
            below as int,
            rows@.len(),
        ),
{
    let mut out: Vec<Piece> = Vec::new();
    assert(shapes(out@) =~= Seq::empty());
    let mut y: i64 = plot.bottom as i64 + below + m.gap * 6 / 10;
    let mut r: usize = 0;
    while r < rows.len()
        invariant
            r <= rows@.len(),
            m.wf(),
            style.wf(),
            entries@.len() == widths@.len(),
            are_legend_rows(widths@, spacing, width, rows@),
            rows@.len() * m.line_h <= 0x1000_0000_0000_0000,
            0 <= below <= 0x8_0000_0000,
            y == plot.bottom + below + m.gap * 6 / 10 + r * m.line_h,
            shapes(out@) == rows_spec(
                *plot,
                *m,
                *style,
                entries@,
                widths@,
                spacing,
                rows@,
                below as int,
                r as nat,
            ),
        decreases rows@.len() - r,
    {
        proof {
            assert(0 <= r * m.line_h <= rows@.len() * m.line_h && (r + 1) * m.line_h == r
                * m.line_h + m.line_h && (r + 1) * m.line_h <= rows@.len() * m.line_h)
                by (nonlinear_arith)
                requires
                    0 <= r < rows@.len(),
                    0 <= m.line_h,
            ;
        }
        let ghost above = shapes(out@);
        let (from, to) = rows[r];
        let mut x: i64 = plot.left as i64;
        let mut i: usize = from;
        assert(shapes(out@) =~= above + Seq::empty());
        while i < to
            invariant
                r < rows@.len(),
                (from, to) == rows@[r as int],
                from <= i <= to <= entries@.len() == widths@.len(),
                m.wf(),
                style.wf(),
                are_legend_rows(widths@, spacing, width, rows@),
                -0x10_0000_0000 <= y <= 0x2000_0000_0000_0000,
                x == plot.left + advance(widths@, spacing, from as int, i as int),
                shapes(out@) == above + row_spec(
                    *plot,
                    *m,
                    *style,
                    entries@,
                    widths@,
                    spacing,
                    y as int,
                    from as int,
                    i as int,
                ),
            decreases to - i,
        {
            proof {
                lemma_advance_grows(widths@, spacing, from as int, i as int);
                assert(row_fits(widths@, spacing, width, from as int, to as int));
            }
            draw_legend_entry(&mut out, &entries[i], x, y, m, style);
            x += widths[i] as i64 + spacing as i64;
            i += 1;
            assert(shapes(out@) =~= above + row_spec(
                *plot,
                *m,
                *style,
                entries@,
                widths@,
                spacing,
                y as int,
                from as int,
                i as int,
            ));
        }
        y += m.line_h;
        r += 1;
    }
    out
}

/// How far a vessel's dished ends reach into its plot.
pub open spec fn cap_spec(plot: Frame, m: Metrics) -> int {
    let wanted = plot.wide() * 6 / 100;
    let least = m.line_h * 4 / 10;
    let most = m.line_h * 14 / 10;
    let fitting = plot.high() / 5;
    let cap = if wanted < least {
        least
    } else if wanted > most {
        most
    } else {
        wanted
    };
    if cap > fitting {
        fitting
    } else {
        cap
    }
}

/// Smallest wall worth drawing.
pub const MIN_WALL: i64 = 1_200;

/// The wall of a tank in its plot, where it is high enough for one.
pub open spec fn vessel_spec(plot: Frame, m: Metrics) -> Option<Frame> {
    let cap = cap_spec(plot, m);
    if plot.high() - 2 * cap < MIN_WALL {
        None
    } else {
        Some(Frame { top: (plot.top + cap) as i32, bottom: (plot.bottom - cap) as i32, ..plot })
    }
}

/// The wall of a tank in its plot, and how far the dished ends reach beyond it. They are inside
/// the plot rather than outside it, so the strip lines up with the graphs above it.
pub fn vessel(plot: &Frame, m: &Metrics) -> (r: Option<(Frame, i32)>)
    requires
        m.wf(),
        upright(*plot),
    ensures
        match r {
            Some((body, cap)) => {
                &&& cap == cap_spec(*plot, *m)
                &&& body == (Frame {
                    top: (plot.top + cap) as i32,
                    bottom: (plot.bottom - cap) as i32,
                    ..*plot
                })
                &&& body.top == plot.top + cap && body.bottom == plot.bottom - cap
                &&& body.high() >= MIN_WALL
                &&& upright(body)
            },
            None => plot.high() - 2 * cap_spec(*plot, *m) < MIN_WALL,
        },
        (match r {
            Some((body, _)) => Some(body),
            None => None,
        }) == vessel_spec(*plot, *m),
{
    let wanted: i64 = plot.width() * 6 / 100;
    let least: i64 = m.line_h * 4 / 10;
    let most: i64 = m.line_h * 14 / 10;
    let fitting: i64 = plot.height() / 5;
    let cap: i64 = if wanted < least {
        least
    } else if wanted > most {
        most
    } else {
        wanted
    };
    let cap: i64 = if cap > fitting {
        fitting
    } else {
        cap
    };
    if plot.height() - 2 * cap < MIN_WALL {
        return None;
    }
    let body = Frame {
        left: plot.left,
        top: (plot.top as i64 + cap) as i32,
        right: plot.right,
        bottom: (plot.bottom as i64 - cap) as i32,
    };
    Some((body, cap as i32))
}

/// A height, given in eighteenths of the way up a wall.
pub open spec fn height_spec(body: Frame, part: int) -> int {
    body.bottom - body.high() * part / 18
}

/// A height, given in eighteenths of the way up a wall.
pub fn height_at(body: &Frame, part: u8) -> (r: i64)
    requires
        upright(*body),
    ensures
        r == height_spec(*body, part as int),
{
    proof {
        assert(0 <= body.high() * part <= 0xFFFF_FFFF * 255) by (nonlinear_arith)
            requires
                0 <= body.high() <= 0xFFFF_FFFF,
                0 <= part <= 255,
        ;
    }
    body.bottom as i64 - body.height() * part as i64 / 18
}

/// A place along a wall of columns, given in halves of a column's step.
pub open spec fn side_spec(body: Frame, cols: int, half: int) -> int {
    body.left + body.wide() * half / (2 * (cols - 1))
}

/// A place along a wall of columns, given in halves of a column's step.
pub fn side_at(body: &Frame, cols: usize, half: u128) -> (r: i64)
    requires
        upright(*body),
        2 <= cols,
        half <= 2 * (cols - 1),
    ensures
        r == side_spec(*body, cols as int, half as int),
        body.left <= r <= body.right,
{
    let whole: u128 = 2 * (cols as u128 - 1);
    proof {
        assert(0 <= body.wide() * half <= 0xFFFF_FFFF * 0x2_0000_0000_0000_0000)
            by (nonlinear_arith)
            requires
                0 <= body.wide() <= 0xFFFF_FFFF,
                0 <= half <= 0x2_0000_0000_0000_0000,
        ;
        assert(0 <= body.wide() * half / (whole as int) <= body.wide()) by (nonlinear_arith)
            requires
                0 <= body.wide(),
                0 <= half <= whole,
                whole >= 1,
        ;
    }
    let along: u128 = body.width() as u128 * half / whole;
    body.left as i64 + along as i64
}

/// The first `n` of a sensor's stripes: each one flat rectangle, over the columns it is of and
/// the height the sensor owns.
pub open spec fn stripes_spec(
    body: Frame,
    cols: int,
    sensor: int,
    stripes: Seq<(usize, usize, Rgb)>,
    n: nat,
) -> Seq<Shape>
    decreases n,
{
    if n == 0 {
        Seq::empty()
    } else {
        let (from, to, color) = stripes[n - 1];
        stripes_spec(body, cols, sensor, stripes, (n - 1) as nat).push(
            Shape::Cell(
                (
                    side_spec(body, cols, column(from as int, cols).0),
                    height_spec(body, band(sensor).0),
                    side_spec(body, cols, column(to - 1, cols).1),
                    height_spec(body, band(sensor).1),
                ),
                solid(color),
            ),
        )
    }
}

/// A sensor's stripes as pieces.
pub fn draw_tank_blocks(
    body: &Frame,
    cols: usize,
    sensor: usize,
    stripes: &Vec<(usize, usize, Rgb)>,
) -> (r: Vec<Piece>)
    requires
        upright(*body),
        2 <= cols,
        sensor < TANK_SENSORS,
        forall|k: int|
            0 <= k < stripes@.len() ==> (#[trigger] stripes@[k]).0 < stripes@[k].1 <= cols,
    ensures
        shapes(r@) == stripes_spec(*body, cols as int, sensor as int, stripes@, stripes@.len()),
{
    let mut out: Vec<Piece> = Vec::new();
    assert(shapes(out@) =~= Seq::empty());
    let (upper, lower) = sensor_band(sensor);
    let (top, bottom) = (height_at(body, upper), height_at(body, lower));
    let mut k: usize = 0;
    while k < stripes.len()
        invariant
            k <= stripes@.len(),
            upright(*body),
            2 <= cols,
            top == height_spec(*body, band(sensor as int).0),
            bottom == height_spec(*body, band(sensor as int).1),
            forall|j: int|
                0 <= j < stripes@.len() ==> (#[trigger] stripes@[j]).0 < stripes@[j].1 <= cols,
            shapes(out@) == stripes_spec(*body, cols as int, sensor as int, stripes@, k as nat),
        decreases stripes@.len() - k,
    {
        let (from, to, color) = stripes[k];
        assert((from, to, color) == stripes@[k as int]);
        let (first, _) = column_cell(from, cols);
        let (_, last) = column_cell(to - 1, cols);
        let place = Place {
            left: side_at(body, cols, first),
            top,
            right: side_at(body, cols, last),
            bottom,
        };
        put(&mut out, Piece::Cell(place, ink(color)));
        k += 1;
    }
    out
}

/// Two stripes that follow each other leave no seam between them.
pub proof fn stripes_meet(body: Frame, cols: int, meet: int)
    requires
        2 <= cols,
        0 < meet < cols,
    ensures
        side_spec(body, cols, column(meet - 1, cols).1) == side_spec(
            body,
            cols,
            column(meet, cols).0,
        ),
{
}

/// Colours spread evenly down a box, the first at its top and the last at its foot.
pub open spec fn evenly_spec(colours: Seq<Rgb>) -> Seq<(u8, Ink)> {
    Seq::new(
        colours.len(),
        |i: int| ((100 * i / (colours.len() - 1)) as u8, solid(colours[i])),
    )
}

/// Colours spread evenly down a box.
pub fn evenly(colours: &Vec<Rgb>) -> (r: Vec<(u8, Ink)>)
    requires
        2 <= colours@.len() <= 0xFFFF_FFFF,
    ensures
        r@ == evenly_spec(colours@),
{
    let mut out: Vec<(u8, Ink)> = Vec::new();
    let last: u64 = colours.len() as u64 - 1;
    let mut i: usize = 0;
    while i < colours.len()
        invariant
            i <= colours@.len() <= 0xFFFF_FFFF,
            last == colours@.len() - 1 >= 1,
            out@.len() == i,
            forall|j: int| 0 <= j < i ==> #[trigger] out@[j] == evenly_spec(colours@)[j],
        decreases colours@.len() - i,
    {
        proof {
            assert(0 <= 100 * i / (last as int) <= 100) by (nonlinear_arith)
                requires
                    0 <= i <= last,
                    last >= 1,
            ;
        }
        let at: u64 = 100 * i as u64 / last;
        out.push((at as u8, ink(colours[i])));
        i += 1;
    }
    assert(out@ =~= evenly_spec(colours@));
    out
}

/// A run of a column, shaded between its sensors: from the height of the last down to the
/// first's.
pub fn draw_tank_shading(
    body: &Frame,
    cols: usize,
    col: usize,
    run: (usize, usize),
    stops: Vec<(u8, Ink)>,
) -> (r: Piece)
    requires
        upright(*body),
        2 <= cols,
        col < cols,
        run.0 <= run.1 < TANK_SENSORS,
    ensures
        r@ == Shape::Gradient(
            (
                side_spec(*body, cols as int, column(col as int, cols as int).0),
                height_spec(*body, sensor_height(run.1 as int)),
                side_spec(*body, cols as int, column(col as int, cols as int).1),
                height_spec(*body, sensor_height(run.0 as int)),
            ),
            stops@,
        ),
{
    let (from, to) = column_cell(col, cols);
    let place = Place {
        left: side_at(body, cols, from),
        top: height_at(body, 2 * run.1 as u8),
        right: side_at(body, cols, to),
        bottom: height_at(body, 2 * run.0 as u8),
    };
    Piece::Gradient(place, stops)
}

/// The first `n` sensors' names beside a wall, at their heights.
pub open spec fn names_spec(body: Frame, m: Metrics, style: Style, n: nat) -> Seq<Shape>
    decreases n,
{
    if n == 0 {
        Seq::empty()
    } else {
        names_spec(body, m, style, (n - 1) as nat).push(
            Shape::Words(
                (body.left - m.gap * 4 / 10, height_spec(body, sensor_height(n - 1))),
                Align::Max,
                Align::Center,
                "s"@ + dec((n - 1) as nat),
                style.font as int,
                solid(style.palette.weak_text),
            ),
        )
    }
}

/// The first `n` lines across a wall.
pub open spec fn across_spec(body: Frame, style: Style, blocks: bool, n: nat) -> Seq<Shape>
    decreases n,
{
    if n == 0 {
        Seq::empty()
    } else {
        let part = if blocks {
            band(n as int).1
        } else {
            sensor_height(n - 1)
        };
        across_spec(body, style, blocks, (n - 1) as nat).push(
            straight(
                body.left as int,
                height_spec(body, part),
                body.right as int,
                height_spec(body, part),
                solid(style.palette.grid),
                style.part(6) * 8 / 10,
            ),
        )
    }
}

/// What goes over a tank's wall: the grid, where both the pane and the figure ask for one, the
/// edge, and the sensors' names against the heights they stand for.
pub open spec fn wall_spec(
    body: Frame,
    m: Metrics,
    style: Style,
    grid: bool,
    blocks: bool,
) -> Seq<Shape> {
    let lines = if blocks {
        (TANK_SENSORS - 1) as nat
    } else {
        TANK_SENSORS as nat
    };
    let across = if grid && style.grid {
        across_spec(body, style, blocks, lines)
    } else {
        Seq::empty()
    };
    across.push(
        Shape::Outline(frame_place(body), solid(style.palette.frame), style.part(6)),
    ) + names_spec(body, m, style, TANK_SENSORS as nat)
}

/// What goes over a tank's wall.
pub fn wall(body: &Frame, m: &Metrics, style: &Style, grid: bool, blocks: bool) -> (r: Vec<Piece>)
    requires
        m.wf(),
        style.wf(),
        upright(*body),
    ensures
        shapes(r@) == wall_spec(*body, *m, *style, grid, blocks),
{
    let mut out: Vec<Piece> = Vec::new();
    assert(shapes(out@) =~= Seq::empty());
    let edge = style.thickness(6);
    if grid && style.grid {
        proof {
            assert(0 <= edge <= 0x2_0000_0000) by {
                assert(style.line_width * 6 / 10 <= 0x2_0000_0000);
            }
        }
        let width: u64 = edge * 8 / 10;
        let heights = grid_lines(blocks);
        let mut i: usize = 0;
        while i < heights.len()
            invariant
                i <= heights@.len(),
                upright(*body),
                width == style.part(6) * 8 / 10,
                blocks ==> heights@.len() == TANK_SENSORS - 1 && forall|j: int|
                    0 <= j < heights@.len() ==> #[trigger] heights@[j] == band(j + 1).1,
                !blocks ==> heights@.len() == TANK_SENSORS && forall|j: int|
                    0 <= j < heights@.len() ==> #[trigger] heights@[j] == sensor_height(j),
                shapes(out@) == across_spec(*body, *style, blocks, i as nat),
            decreases heights@.len() - i,
        {
            let y = height_at(body, heights[i]);
            let (a, b) = ((body.left as i64, y), (body.right as i64, y));
            rule(&mut out, a, b, ink(style.palette.grid), width);
            i += 1;
        }
    }
    put(&mut out, Piece::Outline(place_of(body), ink(style.palette.frame), edge));
    let ghost framed = shapes(out@);
    assert(shapes(out@) =~= framed + names_spec(*body, *m, *style, 0));
    let x: i64 = body.left as i64 - m.gap * 4 / 10;
    let mut s: usize = 0;
    while s < TANK_SENSORS
        invariant
            s <= TANK_SENSORS,
            upright(*body),
            x == body.left - m.gap * 4 / 10,
            shapes(out@) == framed + names_spec(*body, *m, *style, s as nat),
        decreases TANK_SENSORS - s,
    {
        let mut name = "s".to_owned();
        push_dec(&mut name, s as u64);
        let y = height_at(body, 2 * s as u8);
        let color = ink(style.palette.weak_text);
        put(&mut out, Piece::Words((x, y), Align::Max, Align::Center, name, style.font, color));
        s += 1;
        assert(shapes(out@) =~= framed + names_spec(*body, *m, *style, s as nat));
    }
    out
}

/// Whether the critical point is on a scale, in thousandths of a degree.
pub open spec fn has_critical(lo: i64, hi: i64) -> bool {
    lo < hi && lo <= CRITICAL_C <= hi
}

/// How high up a scale the critical point is.
pub open spec fn critical_spec(body: Frame, lo: i64, hi: i64) -> int {
    body.bottom - body.high() * (CRITICAL_C - lo) / (hi - lo)
}

/// The height of the critical point on a scale beside a wall, if it is on it: the one
/// temperature there that is a physical boundary rather than a preference.
pub fn critical_height(body: &Frame, lo: i64, hi: i64) -> (r: Option<i64>)
    requires
        upright(*body),
    ensures
        match r {
            Some(y) => has_critical(lo, hi) && y == critical_spec(*body, lo, hi) && body.top <= y
                <= body.bottom,
            None => !has_critical(lo, hi),
        },
{
    if lo >= hi || CRITICAL_C < lo || hi < CRITICAL_C {
        return None;
    }
    let above: i128 = CRITICAL_C as i128 - lo as i128;
    let span: i128 = hi as i128 - lo as i128;
    proof {
        assert(0 <= body.high() * above <= 0xFFFF_FFFF * 0x1_0000_0000_0000_0000)
            by (nonlinear_arith)
            requires
                0 <= body.high() <= 0xFFFF_FFFF,
                0 <= above <= 0x1_0000_0000_0000_0000,
        ;
        assert(0 <= body.high() * above / (span as int) <= body.high()) by (nonlinear_arith)
            requires
                0 <= body.high(),
                0 <= above <= span,
                span >= 1,
        ;
    }
    let up: i128 = body.height() as i128 * above / span;
    Some(body.bottom as i64 - up as i64)
}

/// A temperature at an end of a scale, in whole degrees.
pub open spec fn scale_label_spec(c: int) -> Seq<char> {
    quotient(c, 1000, 0) + " °C"@
}

/// A temperature at an end of a scale.
pub fn scale_label(c: i64) -> (r: String)
    ensures
        r@ == scale_label_spec(c as int),
{
    let mut out = String::new();
    push_quotient(&mut out, c as i128, 1000, 0);
    out.append(" °C");
    assert(out@ =~= scale_label_spec(c as int));
    out
}

/// The colour bar beside a wall, `left` being its left edge.
pub open spec fn scale_spec(
    body: Frame,
    left: int,
    m: Metrics,
    style: Style,
    stops: Seq<(u8, Ink)>,
    hot: Seq<char>,
    cold: Seq<char>,
    critical: Option<i64>,
) -> Seq<Shape> {
    let right = left + style.font * 11 / 10;
    let x = right + m.gap * 5 / 10;
    let font = style.font as int;
    let text = solid(style.palette.text);
    let bar = (left, body.top as int, right, body.bottom as int);
    let scale = seq![
        Shape::Gradient(bar, stops),
        Shape::Outline(bar, solid(style.palette.frame), style.part(5)),
        Shape::Words((x, body.top as int), Align::Min, Align::Min, hot, font, text),
        Shape::Words((x, body.bottom as int), Align::Min, Align::Max, cold, font, text),
    ];
    match critical {
        None => scale,
        Some(y) => {
            let out = m.gap * 3 / 10;
            let marked = scale.push(
                straight(left - out, y as int, right + out, y as int, text, style.part(8)),
            );
            if y - body.top > m.line_h * 15 / 10 && body.bottom - y > m.line_h * 15 / 10 {
                marked.push(
                    Shape::Words((x, y as int), Align::Min, Align::Center, "Tc"@, font, text),
                )
            } else {
                marked
            }
        },
    }
}

/// The colour bar right of a tank's plot: what makes the picture a measurement rather than a
/// pattern, so it is not optional the way a legend is. The critical point is marked where it is
/// on the scale, and named where its name is not printed over one of the end labels.
pub fn draw_tank_scale(
    plot: &Frame,
    body: &Frame,
    m: &Metrics,
    style: &Style,
    stops: Vec<(u8, Ink)>,
    hot: &str,
    cold: &str,
    critical: Option<i64>,
) -> (r: Vec<Piece>)
    requires
        m.wf(),
        style.wf(),
        critical matches Some(y) ==> body.top <= y <= body.bottom,
    ensures
        shapes(r@) == scale_spec(
            *body,
            plot.right + m.gap,
            *m,
            *style,
            stops@,
            hot@,
            cold@,
            critical,
        ),
{
    let left: i64 = plot.right as i64 + m.gap;
    let right: i64 = left + (style.font * 11 / 10) as i64;
    let x: i64 = right + m.gap * 5 / 10;
    let (top, bottom) = (body.top as i64, body.bottom as i64);
    let bar = Place { left, top, right, bottom };
    let (font, text) = (style.font, ink(style.palette.text));
    let mut out: Vec<Piece> = Vec::new();
    put(&mut out, Piece::Gradient(bar, stops));
    put(&mut out, Piece::Outline(bar, ink(style.palette.frame), style.thickness(5)));
    put(&mut out, Piece::Words((x, top), Align::Min, Align::Min, hot.to_owned(), font, text));
    put(&mut out, Piece::Words((x, bottom), Align::Min, Align::Max, cold.to_owned(), font, text));
    assert(shapes(out@) =~= scale_spec(
        *body,
        left as int,
        *m,
        *style,
        stops@,
        hot@,
        cold@,
        None,
    ));
    if let Some(y) = critical {
        let far: i64 = m.gap * 3 / 10;
        rule(&mut out, (left - far, y), (right + far, y), text, style.thickness(8));
        let room: i64 = m.line_h * 15 / 10;
        if y - top > room && bottom - y > room {
            let name = "Tc".to_owned();
            put(&mut out, Piece::Words((x, y), Align::Min, Align::Center, name, font, text));
        }
    }
    out
}

/// What goes around a graph once its lines are drawn: the edge of the plot. What follows is no
/// longer confined to it.
pub fn surround(plot: &Frame, style: &Style) -> (r: Vec<Piece>)
    requires
        style.wf(),
    ensures
        shapes(r@) == seq![
            Shape::Clip(None),
            Shape::Outline(frame_place(*plot), solid(style.palette.frame), style.part(6)),
        ],
{
    let mut out: Vec<Piece> = Vec::new();
    put(&mut out, Piece::Clip(None));
    put(&mut out, Piece::Outline(place_of(plot), ink(style.palette.frame), style.thickness(6)));
    assert(shapes(out@) =~= seq![
        Shape::Clip(None),
        Shape::Outline(frame_place(*plot), solid(style.palette.frame), style.part(6)),
    ]);
    out
}

/// What is behind a tank's wall. Everything with no reading keeps it, so a dropout is a hole in
/// the picture rather than a temperature nobody measured. What follows is confined to the wall.
pub fn wall_ground(body: &Frame, style: &Style) -> (r: Vec<Piece>)
    ensures
        shapes(r@) == seq![
            Shape::Fill(frame_place(*body), veil_spec(style.palette.hole, 255)),
            Shape::Clip(Some(frame_place(*body))),
        ],
{
    let mut out: Vec<Piece> = Vec::new();
    put(&mut out, Piece::Fill(place_of(body), veil(style.palette.hole, 255)));
    put(&mut out, Piece::Clip(Some(place_of(body))));
    assert(shapes(out@) =~= seq![
        Shape::Fill(frame_place(*body), veil_spec(style.palette.hole, 255)),
        Shape::Clip(Some(frame_place(*body))),
    ]);
    out
}

/// The playhead, where the figure marks it and it falls inside the window: a line down a frame.
pub open spec fn playhead_spec(
    f: Frame,
    style: Style,
    cursor: Option<i64>,
    range: (i64, i64),
    x: int,
) -> Seq<Shape> {
    if style.cursor && (cursor matches Some(t) && range.0 <= t <= range.1) {
        seq![
            straight(
                x,
                f.top as int,
                x,
                f.bottom as int,
                solid(style.palette.cursor),
                style.line_width as int,
            ),
        ]
    } else {
        Seq::empty()
    }
}

/// The playhead, where the figure marks it and it falls inside the window.
pub fn playhead(
    f: &Frame,
    style: &Style,
    cursor: Option<i64>,
    range: (i64, i64),
    x: i64,
) -> (r: Vec<Piece>)
    ensures
        shapes(r@) == playhead_spec(*f, *style, cursor, range, x as int),
{
    let mut out: Vec<Piece> = Vec::new();
    let inside = match cursor {
        Some(t) => range.0 <= t && t <= range.1,
        None => false,
    };
    if style.cursor && inside {
        let (a, b) = ((x, f.top as i64), (x, f.bottom as i64));
        rule(&mut out, a, b, ink(style.palette.cursor), style.line_width);
    }
    assert(shapes(out@) =~= playhead_spec(*f, *style, cursor, range, x as int));
    out
}

/// A panel's title above its plot, where titles are drawn and it has one.
pub open spec fn title_spec(plot: Frame, m: Metrics, style: Style, text: Seq<char>) -> Seq<Shape> {
    if style.titles && text.len() > 0 {
        seq![
            Shape::Words(
                (plot.left as int, plot.top - m.title_block),
                Align::Min,
                Align::Min,
                text,
                m.title_font as int,
                solid(style.palette.text),
            ),
        ]
    } else {
        Seq::empty()
    }
}

/// A panel's title above its plot, where titles are drawn and it has one.
pub fn title(plot: &Frame, m: &Metrics, style: &Style, text: &str) -> (r: Vec<Piece>)
    requires
        m.wf(),
    ensures
        shapes(r@) == title_spec(*plot, *m, *style, text@),
{
    let mut out: Vec<Piece> = Vec::new();
    if style.titles && !text.is_empty() {
        let at: (i64, i64) = (plot.left as i64, plot.top as i64 - m.title_block);
        let (font, color) = (m.title_font as u64, ink(style.palette.text));
        put(&mut out, Piece::Words(at, Align::Min, Align::Min, text.to_owned(), font, color));
    }
    assert(shapes(out@) =~= title_spec(*plot, *m, *style, text@));
    out
}

/// The room that a legend's rows reserve for an entry holds it: the label begins behind the
/// sample, and what it measures ends before the room does.
pub proof fn an_entry_stays_in_its_room(
    entry: Series,
    x: int,
    y: int,
    m: Metrics,
    style: Style,
    measured: int,
)
    requires
        m.wf(),
        m.font == style.font,
        0 <= measured,
    ensures
        entry_spec(entry, x, y, m, style)[1] matches Shape::Words(at, _, _, _, _, _) && x
            + style.font * 16 / 10 <= at.0 && at.0 + measured <= x + (m.font * 16 / 10 + m.gap / 2
            + (measured * 106 / 100 + 100)),
{
}

} // verus!
