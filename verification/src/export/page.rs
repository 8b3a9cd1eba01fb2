//! A figure as one list of pieces: what is drawn of each of its panels, and in which order.
//!
//! Text is measured and values are placed where the page is drawn; what they come to is handed
//! in as marks, one for each panel.
use vstd::prelude::*;

use crate::clock::{axis_text, format_axis_time};
use crate::colors::Rgb;
use crate::export::drawing::{
    backdrop, backdrop_spec, critical_height, critical_spec, draw_legend_below,
    draw_legend_inside, draw_tank_blocks, draw_tank_scale, draw_tank_shading, draw_time_axis,
    draw_value_axis, evenly, evenly_spec, frame_place, has_critical, height_spec,
    legend_inside_spec, place_of, playhead, playhead_spec, points_of, rows_spec, scale_label,
    scale_label_spec, scale_spec, shapes, side_spec, solid, stripes_spec, surround,
    time_axis_spec, title, title_spec, upright, value_axis_spec, veil, veil_spec, vessel,
    vessel_spec, wall, wall_ground, wall_spec, Piece, Shape, Style, Tick,
};
use crate::export::figure::{
    are_stripes, dates_spec, day_spec, drawable, legend_below_height, legend_below_spec,
    legend_rows, line_runs, margin, on_page, panel_height_spec, plot_sides, plot_spec,
    range_dates, rows_from, shaded_runs, shaded_spec, stack, stack_spec, stripes, stripes_of,
    there_is_one_list_of_stripes, there_is_one_way_to_wrap, widest_of, Content, Figure, Graph,
    Metrics, Panel, Series, Tank, Ticks, MIN_PLOT_SIDE,
};
use crate::export::svg::{Frame, Ink};
use crate::export::LegendPos;
use crate::tank::picture::{column, sensor_height};
use crate::tank::sensors::TANK_SENSORS;
use crate::vapor::{are_runs, runs_of, there_is_one_list_of_runs};

verus! {

broadcast use vstd::seq_lib::group_seq_properties;

/// What was measured and placed of a graph.
pub struct GraphMarks {
    /// The ticks of its axes, and the widest label of each.
    pub left: Vec<Tick>,
    pub right: Option<Vec<Tick>>,
    pub left_widest: u32,
    pub right_widest: u32,
    /// The widths of the legend's entries.
    pub entries: Vec<u32>,
    /// For each series, where its points are.
    pub lines: Vec<Vec<(i64, i64)>>,
}

/// What was placed and coloured of a tank.
pub struct TankMarks {
    /// For each sensor, the colours of the columns that have a reading.
    pub colours: Vec<Vec<Option<Rgb>>>,
    /// The dished ends, the upper one first.
    pub ends: (Vec<(i64, i64)>, Vec<(i64, i64)>),
    /// The colours of the scale, from its hot end down.
    pub scale: Vec<Rgb>,
}

/// What was measured of a panel.
pub enum Marks {
    Graph(GraphMarks),
    Tank(TankMarks),
}

/// The most series that a graph's legend is laid out for.
pub const MAX_ENTRIES: usize = 0x1000_0000;

/// Whether marks are those of a graph: one for each of its series, and for each of its points.
pub open spec fn graph_fits(graph: Graph, marks: GraphMarks) -> bool {
    &&& graph.series@.len() <= MAX_ENTRIES
    &&& marks.entries@.len() == graph.series@.len()
    &&& marks.lines@.len() == graph.series@.len()
    &&& forall|i: int|
        0 <= i < graph.series@.len() ==> (#[trigger] marks.lines@[i])@.len()
            == graph.series@[i].points@.len()
    &&& marks.right is Some ==> graph.right is Some
}

/// Whether the colours of a sensor's columns are those of its readings.
pub open spec fn colours_fit(tank: Tank, colours: Seq<Option<Rgb>>, sensor: int) -> bool {
    &&& colours.len() == tank.field.cols
    &&& forall|c: int|
        0 <= c < colours.len() ==> (#[trigger] colours[c] is Some) == (tank.field.cell(c, sensor)
            is Some)
}

/// Whether marks are those of a tank: a colour for each of its readings.
pub open spec fn tank_fits(tank: Tank, marks: TankMarks) -> bool {
    &&& tank.field.wf()
    &&& marks.colours@.len() == TANK_SENSORS
    &&& forall|s: int|
        0 <= s < TANK_SENSORS ==> colours_fit(tank, (#[trigger] marks.colours@[s])@, s)
    &&& 2 <= marks.scale@.len() <= 0xFFFF_FFFF
}

/// Whether marks are those of a panel.
pub open spec fn panel_fits(panel: Panel, marks: Marks) -> bool {
    match (panel.content, marks) {
        (Content::Graph(graph), Marks::Graph(marks)) => graph_fits(graph, marks),
        (Content::Tank(tank), Marks::Tank(marks)) => tank_fits(tank, marks),
        _ => false,
    }
}

/// Whether there are marks and a plot for each panel of a figure.
pub open spec fn figure_fits(figure: Figure, plots: Seq<Frame>, marks: Seq<Marks>) -> bool {
    &&& plots.len() == figure.panels@.len()
    &&& marks.len() == figure.panels@.len()
    &&& forall|i: int| 0 <= i < plots.len() ==> upright(#[trigger] plots[i])
    &&& forall|i: int| 0 <= i < marks.len() ==> panel_fits(figure.panels@[i], #[trigger] marks[i])
}

fn fits_graph(graph: &Graph, marks: &GraphMarks) -> (r: bool)
    ensures
        r == graph_fits(*graph, *marks),
{
    let n = graph.series.len();
    if n > MAX_ENTRIES || marks.entries.len() != n || marks.lines.len() != n {
        return false;
    }
    if marks.right.is_some() && graph.right.is_none() {
        return false;
    }
    let mut i: usize = 0;
    while i < n
        invariant
            i <= n == graph.series@.len() == marks.lines@.len(),
            forall|k: int|
                0 <= k < i ==> (#[trigger] marks.lines@[k])@.len()
                    == graph.series@[k].points@.len(),
        decreases n - i,
    {
        if marks.lines[i].len() != graph.series[i].points.len() {
            assert(marks.lines@[i as int]@.len() != graph.series@[i as int].points@.len());
            return false;
        }
        i += 1;
    }
    true
}

fn fits_colours(tank: &Tank, colours: &Vec<Option<Rgb>>, sensor: usize) -> (r: bool)
    requires
        tank.field.wf(),
        sensor < TANK_SENSORS,
    ensures
        r == colours_fit(*tank, colours@, sensor as int),
{
    if colours.len() != tank.field.cols {
        return false;
    }
    let mut c: usize = 0;
    while c < colours.len()
        invariant
            tank.field.wf(),
            sensor < TANK_SENSORS,
            c <= colours@.len() == tank.field.cols,
            forall|k: int|
                0 <= k < c ==> (#[trigger] colours@[k] is Some) == (tank.field.cell(
                    k,
                    sensor as int,
                ) is Some),
        decreases colours@.len() - c,
    {
        if colours[c].is_some() != tank.field.at(c, sensor).is_some() {
            assert((colours@[c as int] is Some) != (tank.field.cell(c as int, sensor as int)
                is Some));
            return false;
        }
        c += 1;
    }
    true
}

fn fits_tank(tank: &Tank, marks: &TankMarks) -> (r: bool)
    ensures
        r == tank_fits(*tank, *marks),
{
    let (cols, cells) = (tank.field.cols, tank.field.cells.len());
    if cols < 2 || cells / TANK_SENSORS != cols || cells % TANK_SENSORS != 0 {
        return false;
    }
    assert(tank.field.wf());
    let stops = marks.scale.len();
    if marks.colours.len() != TANK_SENSORS || stops < 2 || stops > 0xFFFF_FFFF {
        return false;
    }
    let mut s: usize = 0;
    while s < TANK_SENSORS
        invariant
            tank.field.wf(),
            s <= TANK_SENSORS == marks.colours@.len(),
            forall|k: int|
                0 <= k < s ==> colours_fit(*tank, (#[trigger] marks.colours@[k])@, k),
        decreases TANK_SENSORS - s,
    {
        if !fits_colours(tank, &marks.colours[s], s) {
            assert(!colours_fit(*tank, marks.colours@[s as int]@, s as int));
            return false;
        }
        s += 1;
    }
    true
}

/// Whether there are marks and a plot for each panel of a figure.
pub fn fits(figure: &Figure, plots: &Vec<Frame>, marks: &Vec<Marks>) -> (r: bool)
    ensures
        r == figure_fits(*figure, plots@, marks@),
{
    let n = figure.panels.len();
    if plots.len() != n || marks.len() != n {
        return false;
    }
    let mut i: usize = 0;
    while i < n
        invariant
            i <= n == figure.panels@.len() == plots@.len() == marks@.len(),
            forall|k: int| 0 <= k < i ==> upright(#[trigger] plots@[k]),
            forall|k: int| 0 <= k < i ==> panel_fits(figure.panels@[k], #[trigger] marks@[k]),
        decreases n - i,
    {
        let plot = &plots[i];
        let here = match (&figure.panels[i].content, &marks[i]) {
            (Content::Graph(graph), Marks::Graph(marks)) => fits_graph(graph, marks),
            (Content::Tank(tank), Marks::Tank(marks)) => fits_tank(tank, marks),
            _ => false,
        };
        assert(here == panel_fits(figure.panels@[i as int], marks@[i as int]));
        if !here || plot.left > plot.right || plot.top > plot.bottom {
            assert(!here || !upright(plots@[i as int]));
            return false;
        }
        i += 1;
    }
    true
}

/// The first `n` stretches of a line.
pub open spec fn strokes(
    places: Seq<(i64, i64)>,
    runs: Seq<(usize, usize)>,
    color: Rgb,
    width: int,
    n: nat,
) -> Seq<Shape>
    decreases n,
{
    if n == 0 {
        Seq::empty()
    } else {
        let (from, to) = runs[n - 1];
        strokes(places, runs, color, width, (n - 1) as nat).push(
            Shape::Line(
                points_of(places.subrange(from as int, to as int)),
                solid(color),
                width,
            ),
        )
    }
}

/// The line of a series. A gap in the data is a gap in the line: a stroke ends wherever a sample
/// is missing rather than being bridged across it.
pub open spec fn line_spec(series: Series, places: Seq<(i64, i64)>, style: Style) -> Seq<Shape> {
    let runs = runs_of(drawable(series.points@), 0);
    strokes(places, runs, series.color, style.line_width as int, runs.len())
}

/// The lines of the first `n` series of a graph.
pub open spec fn lines_spec(
    series: Seq<Series>,
    lines: Seq<Vec<(i64, i64)>>,
    style: Style,
    n: nat,
) -> Seq<Shape>
    decreases n,
{
    if n == 0 {
        Seq::empty()
    } else {
        lines_spec(series, lines, style, (n - 1) as nat) + line_spec(
            series[n - 1],
            lines[n - 1]@,
            style,
        )
    }
}

/// What was placed along the timeline that the panels of a page share.
pub struct TimeMarks {
    /// Where the playhead is along a plot.
    pub cursor_at: i64,
    /// The ticks of the time axis.
    pub ticks: Vec<Tick>,
}

/// The step of some ticks, as far as an instant goes.
pub open spec fn step_of(ticks: Ticks) -> i64 {
    if ticks.step > i64::MAX {
        i64::MAX
    } else if ticks.step < 0 {
        0
    } else {
        ticks.step as i64
    }
}

/// The ticks of the time axis, each at its place and with its clock time written at it.
pub fn time_marks(ticks: &Ticks, places: &Vec<i64>) -> (r: Vec<Tick>)
    requires
        places@.len() == ticks.at@.len(),
    ensures
        r@.len() == ticks.at@.len(),
        forall|i: int|
            0 <= i < r@.len() ==> (#[trigger] r@[i]).at == places@[i] && r@[i].label@ == axis_text(
                ticks.at@[i],
                step_of(*ticks),
            ),
{
    let step: i64 = if ticks.step > i64::MAX as i128 {
        i64::MAX
    } else if ticks.step < 0 {
        0
    } else {
        ticks.step as i64
    };
    let mut out: Vec<Tick> = Vec::new();
    let mut i: usize = 0;
    while i < places.len()
        invariant
            i <= places@.len() == ticks.at@.len(),
            step == step_of(*ticks),
            out@.len() == i,
            forall|k: int|
                0 <= k < i ==> (#[trigger] out@[k]).at == places@[k] && out@[k].label@
                    == axis_text(ticks.at@[k], step),
        decreases places@.len() - i,
    {
        out.push(Tick { at: places[i], label: format_axis_time(ticks.at[i], step) });
        i += 1;
    }
    out
}

/// A graph: what is behind its lines, the lines, the playhead over them, and around them the
/// edge of the plot and the value axes.
pub open spec fn graph_spec(
    graph: Graph,
    marks: GraphMarks,
    figure: Figure,
    time: TimeMarks,
    m: Metrics,
    style: Style,
    plot: Frame,
) -> Seq<Shape> {
    let right = match marks.right {
        Some(ticks) => value_axis_spec(
            plot,
            m,
            style,
            ticks@,
            marks.right_widest as int,
            graph.right_label@,
            true,
        ),
        None => Seq::empty(),
    };
    backdrop_spec(plot, style, time.ticks@, marks.left@) + lines_spec(
        graph.series@,
        marks.lines@,
        style,
        graph.series@.len(),
    ) + playhead_spec(plot, style, figure.cursor, figure.range, time.cursor_at as int) + seq![
        Shape::Clip(None),
        Shape::Outline(frame_place(plot), solid(style.palette.frame), style.part(6)),
    ] + value_axis_spec(
        plot,
        m,
        style,
        marks.left@,
        marks.left_widest as int,
        graph.left_label@,
        false,
    ) + right
}

/// The space between two entries of a legend's row.
pub open spec fn entry_gap(m: Metrics) -> int {
    if m.gap * 15 / 10 > 0xFFFF_FFFF {
        0xFFFF_FFFF
    } else {
        m.gap * 15 / 10
    }
}

fn gap_of(m: &Metrics) -> (r: u32)
    requires
        m.wf(),
    ensures
        r == entry_gap(*m),
{
    let wide: i64 = m.gap * 15 / 10;
    if wide > 0xFFFF_FFFF {
        0xFFFF_FFFF
    } else {
        wide as u32
    }
}

/// A graph's legend, where the page has it. Below the last panel of a page it goes under the
/// time axis.
pub open spec fn legend_spec(
    graph: Graph,
    marks: GraphMarks,
    m: Metrics,
    style: Style,
    plot: Frame,
    last: bool,
) -> Seq<Shape> {
    let (series, widths) = (graph.series@, marks.entries@);
    match style.legend {
        LegendPos::Off => Seq::empty(),
        LegendPos::TopLeft => legend_inside_spec(plot, m, style, series, widths, false),
        LegendPos::TopRight => legend_inside_spec(plot, m, style, series, widths, true),
        LegendPos::Below => {
            let gap = entry_gap(m) as u32;
            let rows = rows_from(widths, gap, plot.wide() as u32, 0);
            let below = if last {
                m.x_axis_block as int
            } else {
                0
            };
            rows_spec(plot, m, style, series, widths, gap, rows, below, rows.len())
        },
    }
}

/// What a panel asks for around its plot: room on its left and, where it has anything there, on
/// its right, and the widths of its legend's entries.
pub struct Needs {
    pub left: i64,
    pub right: Option<i64>,
    pub entries: Vec<u32>,
}

/// What the first `n` panels ask for on their left.
pub open spec fn lefts(needs: Seq<Needs>, n: nat) -> Seq<i64>
    decreases n,
{
    if n == 0 {
        Seq::empty()
    } else {
        lefts(needs, (n - 1) as nat).push(needs[n - 1].left)
    }
}

/// What those of the first `n` panels ask for on their right that have anything there.
pub open spec fn rights(needs: Seq<Needs>, n: nat) -> Seq<i64>
    decreases n,
{
    if n == 0 {
        Seq::empty()
    } else {
        match needs[n - 1].right {
            Some(right) => rights(needs, (n - 1) as nat).push(right),
            None => rights(needs, (n - 1) as nat),
        }
    }
}

/// The sides that the plots of a page share: its margins are what the neediest panel asks for.
/// A page too narrow for its own axis labels loses them before it loses the plots.
pub open spec fn sides_spec(area: Frame, m: Metrics, needs: Seq<Needs>) -> Option<(int, int)> {
    let left = widest_of(m.half_time_label as int, lefts(needs, needs.len()));
    let right = widest_of(m.half_time_label as int, rights(needs, needs.len()));
    if area.wide() - left - right >= MIN_PLOT_SIDE {
        Some((area.left + left, area.right - right))
    } else if area.wide() - 2 * m.gap >= MIN_PLOT_SIDE {
        Some((area.left + m.gap, area.right - m.gap))
    } else {
        None
    }
}

/// The height that a panel leaves for a legend below its plot.
pub open spec fn legend_height(m: Metrics, style: Style, needs: Needs, width: int) -> int {
    if style.legend == LegendPos::Below {
        legend_below_spec(
            m,
            rows_from(needs.entries@, entry_gap(m) as u32, width as u32, 0).len() as int,
        )
    } else {
        0
    }
}

/// Where the plot of the `i`th panel of a page is.
pub open spec fn arranged(
    area: Frame,
    m: Metrics,
    style: Style,
    needs: Seq<Needs>,
    sides: (int, int),
    i: int,
) -> (int, int, int, int) {
    plot_spec(
        area,
        (sides.0 as i32, sides.1 as i32),
        m,
        panel_height_spec(area, m, needs.len() as int),
        i,
        legend_height(m, style, needs[i], sides.1 - sides.0),
    )
}

fn shared_sides(area: &Frame, m: &Metrics, needs: &Vec<Needs>) -> (r: Option<(i32, i32)>)
    requires
        m.wf(),
    ensures
        match r {
            Some((a, b)) => sides_spec(*area, *m, needs@) == Some((a as int, b as int)) && b - a
                >= MIN_PLOT_SIDE,
            None => sides_spec(*area, *m, needs@) is None,
        },
{
    let (mut left, mut right): (Vec<i64>, Vec<i64>) = (Vec::new(), Vec::new());
    let mut i: usize = 0;
    while i < needs.len()
        invariant
            i <= needs@.len(),
            left@ == lefts(needs@, i as nat),
            right@ == rights(needs@, i as nat),
        decreases needs@.len() - i,
    {
        left.push(needs[i].left);
        if let Some(room) = needs[i].right {
            right.push(room);
        }
        i += 1;
    }
    let (left, right): (i64, i64) = (margin(m, &left), margin(m, &right));
    // Beyond any page, a margin takes all of it however wide it is.
    let most: i64 = 0x100_0000_0000;
    let left: i64 = if left > most {
        most
    } else {
        left
    };
    let right: i64 = if right > most {
        most
    } else {
        right
    };
    plot_sides(area, left, right, m.gap)
}

/// Where the plots of a page are. Every panel shares one pair of sides, or the stack would be a
/// set of graphs that merely happen to be near each other. There are none where the page is too
/// narrow for a plot, or the stack runs off the end of every page.
pub fn arrange(area: &Frame, m: &Metrics, style: &Style, needs: &Vec<Needs>) -> (r: Option<
    Vec<Frame>,
>)
    requires
        m.wf(),
    ensures
        match r {
            Some(plots) => {
                &&& plots@.len() == needs@.len()
                &&& sides_spec(*area, *m, needs@) matches Some(sides) && forall|i: int|
                    0 <= i < plots@.len() ==> upright(#[trigger] plots@[i]) && frame_place(
                        plots@[i],
                    ) == arranged(*area, *m, *style, needs@, sides, i)
            },
            None => sides_spec(*area, *m, needs@) is None || exists|i: int|
                0 <= i < needs@.len() && !#[trigger] on_page(*area, *m, needs@.len() as int, i),
        },
{
    let sides = match shared_sides(area, m, needs) {
        Some(sides) => sides,
        None => return None,
    };
    let width: u32 = (sides.1 as i64 - sides.0 as i64) as u32;
    let gap = gap_of(m);
    let mut heights: Vec<i64> = Vec::new();
    let mut i: usize = 0;
    while i < needs.len()
        invariant
            i <= needs@.len(),
            m.wf(),
            gap == entry_gap(*m),
            width == sides.1 - sides.0,
            heights@.len() == i,
            forall|k: int|
                0 <= k < i ==> 0 <= #[trigger] heights@[k] <= 0x1_0000_0000 && ({
                    let h = legend_height(*m, *style, needs@[k], sides.1 - sides.0);
                    heights@[k] == h || (heights@[k] == 0x1_0000_0000 && h > 0x1_0000_0000)
                }),
        decreases needs@.len() - i,
    {
        let height: i64 = if style.legend == LegendPos::Below {
            let rows = legend_rows(&needs[i].entries, gap, width);
            proof {
                there_is_one_way_to_wrap(needs@[i as int].entries@, gap, width, rows@);
            }
            match legend_below_height(m, rows.len()) {
                Some(h) => h,
                None => 0x1_0000_0000,
            }
        } else {
            0
        };
        heights.push(height);
        i += 1;
    }
    let r = stack(area, sides, m, &heights);
    proof {
        if r is Some {
            let plots = r.unwrap();
            assert forall|k: int| 0 <= k < plots@.len() implies upright(#[trigger] plots@[k])
                && frame_place(plots@[k]) == arranged(
                *area,
                *m,
                *style,
                needs@,
                (sides.0 as int, sides.1 as int),
                k,
            ) by {
                assert(0 <= heights@[k] <= 0x1_0000_0000);
                lemma_panel_height(*area, *m, needs@.len() as int);
                assert(frame_place(plots@[k]) == stack_spec(*area, sides, *m, heights@, k));
            }
        }
    }
    r
}

/// A panel is no higher than a page.
proof fn lemma_panel_height(area: Frame, m: Metrics, n: int)
    requires
        m.wf(),
        0 < n,
    ensures
        MIN_PLOT_SIDE <= panel_height_spec(area, m, n) <= 0x1_0000_0000,
{
    let gaps = 2 * m.gap * (n - 1);
    let left = area.high() - m.x_axis_block - gaps;
    assert(gaps >= 0) by (nonlinear_arith)
        requires
            gaps == 2 * m.gap * (n - 1),
            m.gap >= 0,
            n >= 1,
    ;
    assert(left / n <= 0x1_0000_0000) by (nonlinear_arith)
        requires
            left <= 0x1_0000_0000,
            n >= 1,
    ;
}

/// The stripes of a tank's first `n` sensors.
pub open spec fn blocks_spec(body: Frame, cols: int, colours: Seq<Vec<Option<Rgb>>>, n: nat) -> Seq<
    Shape,
>
    decreases n,
{
    if n == 0 {
        Seq::empty()
    } else {
        let stripes = stripes_of(colours[n - 1]@, 0);
        blocks_spec(body, cols, colours, (n - 1) as nat) + stripes_spec(
            body,
            cols,
            n - 1,
            stripes,
            stripes.len(),
        )
    }
}

/// The colours of a stretch of a column, from its last sensor down to its first.
pub open spec fn down(colours: Seq<Vec<Option<Rgb>>>, col: int, run: (usize, usize)) -> Seq<Rgb> {
    Seq::new((run.1 - run.0 + 1) as nat, |i: int| colours[run.1 - i]@[col].unwrap())
}

/// The first `n` stretches of a column, shaded between their sensors.
pub open spec fn column_spec(
    body: Frame,
    cols: int,
    col: int,
    runs: Seq<(usize, usize)>,
    colours: Seq<Vec<Option<Rgb>>>,
    n: nat,
) -> Seq<Shape>
    decreases n,
{
    if n == 0 {
        Seq::empty()
    } else {
        let run = runs[n - 1];
        column_spec(body, cols, col, runs, colours, (n - 1) as nat).push(
            Shape::Gradient(
                (
                    side_spec(body, cols, column(col, cols).0),
                    height_spec(body, sensor_height(run.1 as int)),
                    side_spec(body, cols, column(col, cols).1),
                    height_spec(body, sensor_height(run.0 as int)),
                ),
                evenly_spec(down(colours, col, run)),
            ),
        )
    }
}

/// The first `n` columns of a tank, shaded.
pub open spec fn shading_spec(
    body: Frame,
    tank: Tank,
    colours: Seq<Vec<Option<Rgb>>>,
    n: nat,
) -> Seq<Shape>
    decreases n,
{
    if n == 0 {
        Seq::empty()
    } else {
        let runs = shaded_spec(tank.field, n - 1);
        shading_spec(body, tank, colours, (n - 1) as nat) + column_spec(
            body,
            tank.field.cols as int,
            n - 1,
            runs,
            colours,
            runs.len(),
        )
    }
}

/// The dished ends, which are what make the strip read as a vessel seen from the side rather
/// than as a bare heat map.
pub open spec fn ends_spec(marks: TankMarks, style: Style) -> Seq<Shape> {
    seq![
        Shape::Line(points_of(marks.ends.0@), solid(style.palette.frame), style.part(6)),
        Shape::Line(points_of(marks.ends.1@), solid(style.palette.frame), style.part(6)),
    ]
}

/// A tank, where its plot is high enough for a wall: what is behind it, what its sensors read,
/// the playhead over them, the ends and the wall, and the scale beside it.
pub open spec fn tank_spec(
    tank: Tank,
    marks: TankMarks,
    figure: Figure,
    time: TimeMarks,
    m: Metrics,
    style: Style,
    plot: Frame,
) -> Seq<Shape> {
    match vessel_spec(plot, m) {
        None => Seq::empty(),
        Some(body) => {
            let read = if tank.blocks {
                blocks_spec(
                    body,
                    tank.field.cols as int,
                    marks.colours@,
                    TANK_SENSORS as nat,
                )
            } else {
                shading_spec(body, tank, marks.colours@, tank.field.cols as nat)
            };
            let critical = if has_critical(tank.lo_c, tank.hi_c) {
                Some(critical_spec(body, tank.lo_c, tank.hi_c) as i64)
            } else {
                None
            };
            seq![
                Shape::Fill(frame_place(body), veil_spec(style.palette.hole, 255)),
                Shape::Clip(Some(frame_place(body))),
            ] + read + playhead_spec(
                body,
                style,
                figure.cursor,
                figure.range,
                time.cursor_at as int,
            ) + seq![Shape::Clip(None)] + ends_spec(marks, style) + wall_spec(
                body,
                m,
                style,
                tank.grid,
                tank.blocks,
            ) + scale_spec(
                body,
                plot.right + m.gap,
                m,
                style,
                evenly_spec(marks.scale@),
                scale_label_spec(tank.hi_c as int),
                scale_label_spec(tank.lo_c as int),
                critical,
            )
        },
    }
}

/// A panel: its title, what is in it, and its legend, which would be unreadable under the lines
/// exactly where the graph is busiest. A tank has no legend of its own: the scale beside it is
/// the legend. The time axis belongs to the page, not to a panel, so it is drawn once, under
/// the last one.
pub open spec fn panel_spec(
    panel: Panel,
    marks: Marks,
    figure: Figure,
    time: TimeMarks,
    m: Metrics,
    style: Style,
    plot: Frame,
    last: bool,
) -> Seq<Shape> {
    let inside = match (panel.content, marks) {
        (Content::Graph(graph), Marks::Graph(marks)) => graph_spec(
            graph,
            marks,
            figure,
            time,
            m,
            style,
            plot,
        ) + legend_spec(graph, marks, m, style, plot, last),
        (Content::Tank(tank), Marks::Tank(marks)) => tank_spec(
            tank,
            marks,
            figure,
            time,
            m,
            style,
            plot,
        ),
        _ => Seq::empty(),
    };
    let axis = if last {
        time_axis_spec(
            plot,
            m,
            style,
            time.ticks@,
            dates_spec(day_spec(figure.range.0), day_spec(figure.range.1)),
        )
    } else {
        Seq::empty()
    };
    title_spec(plot, m, style, panel.title@) + inside + axis
}

/// The first `n` panels of a page.
pub open spec fn panels_spec(
    marks: Seq<Marks>,
    figure: Figure,
    time: TimeMarks,
    m: Metrics,
    style: Style,
    plots: Seq<Frame>,
    n: nat,
) -> Seq<Shape>
    decreases n,
{
    if n == 0 {
        Seq::empty()
    } else {
        panels_spec(marks, figure, time, m, style, plots, (n - 1) as nat) + panel_spec(
            figure.panels@[n - 1],
            marks[n - 1],
            figure,
            time,
            m,
            style,
            plots[n - 1],
            n == figure.panels@.len(),
        )
    }
}

/// What is behind a whole page.
pub open spec fn ground_spec(whole: Frame, style: Style) -> Shape {
    Shape::Fill(frame_place(whole), veil_spec(style.palette.bg, 255))
}

/// What is behind a whole page. A page with no room for its panels is this alone.
pub fn ground(whole: &Frame, style: &Style) -> (r: Piece)
    ensures
        r@ == ground_spec(*whole, *style),
{
    Piece::Fill(place_of(whole), veil(style.palette.bg, 255))
}

/// Puts some pieces after others.
fn follow(out: &mut Vec<Piece>, more: Vec<Piece>)
    ensures
        shapes(final(out)@) == shapes(old(out)@) + shapes(more@),
{
    let ghost before = out@;
    let mut rest = more;
    out.append(&mut rest);
    assert(shapes(out@) =~= shapes(before) + shapes(more@));
}

fn draw_line(series: &Series, places: &Vec<(i64, i64)>, style: &Style) -> (r: Vec<Piece>)
    requires
        places@.len() == series.points@.len(),
    ensures
        shapes(r@) == line_spec(*series, places@, *style),
{
    let mut out: Vec<Piece> = Vec::new();
    assert(shapes(out@) =~= Seq::empty());
    let runs = line_runs(&series.points);
    proof {
        there_is_one_list_of_runs(drawable(series.points@), runs@);
    }
    let mut k: usize = 0;
    while k < runs.len()
        invariant
            k <= runs@.len(),
            are_runs(drawable(series.points@), runs@),
            places@.len() == series.points@.len(),
            shapes(out@) == strokes(
                places@,
                runs@,
                series.color,
                style.line_width as int,
                k as nat,
            ),
        decreases runs@.len() - k,
    {
        let (from, to) = runs[k];
        assert(runs@[k as int] == (from, to));
        let mut stroke: Vec<(i64, i64)> = Vec::new();
        let mut i: usize = from;
        while i < to
            invariant
                from <= i <= to <= places@.len(),
                stroke@ == places@.subrange(from as int, i as int),
            decreases to - i,
        {
            stroke.push(places[i]);
            i += 1;
            assert(stroke@ =~= places@.subrange(from as int, i as int));
        }
        let before = Ghost(shapes(out@));
        out.push(Piece::Line(stroke, Ink { color: series.color, alpha: 255 }, style.line_width));
        assert(shapes(out@) =~= before@.push(out@.last()@));
        k += 1;
    }
    out
}

fn draw_graph(
    graph: &Graph,
    marks: &GraphMarks,
    figure: &Figure,
    time: &TimeMarks,
    m: &Metrics,
    style: &Style,
    plot: &Frame,
) -> (r: Vec<Piece>)
    requires
        m.wf(),
        style.wf(),
        upright(*plot),
        graph_fits(*graph, *marks),
    ensures
        shapes(r@) == graph_spec(*graph, *marks, *figure, *time, *m, *style, *plot),
{
    let mut out = backdrop(plot, style, &time.ticks, &marks.left);
    let ghost behind = shapes(out@);
    assert(behind =~= behind + lines_spec(graph.series@, marks.lines@, *style, 0));
    let mut i: usize = 0;
    while i < graph.series.len()
        invariant
            i <= graph.series@.len(),
            graph_fits(*graph, *marks),
            shapes(out@) == behind + lines_spec(graph.series@, marks.lines@, *style, i as nat),
        decreases graph.series@.len() - i,
    {
        let line = draw_line(&graph.series[i], &marks.lines[i], style);
        follow(&mut out, line);
        i += 1;
        assert(shapes(out@) =~= behind + lines_spec(
            graph.series@,
            marks.lines@,
            *style,
            i as nat,
        ));
    }
    follow(&mut out, playhead(plot, style, figure.cursor, figure.range, time.cursor_at));
    follow(&mut out, surround(plot, style));
    let label = graph.left_label.as_str();
    follow(
        &mut out,
        draw_value_axis(plot, m, style, &marks.left, marks.left_widest, label, false),
    );
    if let Some(ticks) = &marks.right {
        let label = graph.right_label.as_str();
        follow(&mut out, draw_value_axis(plot, m, style, ticks, marks.right_widest, label, true));
    }
    assert(shapes(out@) =~= graph_spec(*graph, *marks, *figure, *time, *m, *style, *plot));
    out
}

proof fn lemma_rows_are_few(widths: Seq<u32>, spacing: u32, width: u32, from: int)
    requires
        0 <= from <= widths.len(),
    ensures
        rows_from(widths, spacing, width, from).len() <= widths.len() - from,
    decreases widths.len() - from,
{
    let end = crate::export::figure::row_end(widths, spacing, width, from, from);
    if from < end <= widths.len() {
        lemma_rows_are_few(widths, spacing, width, end);
    }
}

fn draw_legend(
    graph: &Graph,
    marks: &GraphMarks,
    m: &Metrics,
    style: &Style,
    plot: &Frame,
    last: bool,
) -> (r: Vec<Piece>)
    requires
        m.wf(),
        style.wf(),
        upright(*plot),
        graph_fits(*graph, *marks),
    ensures
        shapes(r@) == legend_spec(*graph, *marks, *m, *style, *plot, last),
{
    let (series, widths) = (&graph.series, &marks.entries);
    match style.legend {
        LegendPos::Off => {
            let out: Vec<Piece> = Vec::new();
            assert(shapes(out@) =~= Seq::empty());
            out
        },
        LegendPos::TopLeft => draw_legend_inside(plot, m, style, series, widths, false),
        LegendPos::TopRight => draw_legend_inside(plot, m, style, series, widths, true),
        LegendPos::Below => {
            let gap = gap_of(m);
            let width: u32 = plot.width() as u32;
            let rows = legend_rows(widths, gap, width);
            let below: i64 = if last {
                m.x_axis_block
            } else {
                0
            };
            proof {
                there_is_one_way_to_wrap(widths@, gap, width, rows@);
                lemma_rows_are_few(widths@, gap, width, 0);
                assert(rows@.len() * m.line_h <= 0x1000_0000 * 0x1_0000_0000) by (nonlinear_arith)
                    requires
                        0 <= rows@.len() <= 0x1000_0000,
                        0 <= m.line_h <= 0x1_0000_0000,
                ;
            }
            draw_legend_below(plot, m, style, series, widths, gap, width, &rows, below)
        },
    }
}

fn draw_blocks(body: &Frame, cols: usize, colours: &Vec<Vec<Option<Rgb>>>) -> (r: Vec<Piece>)
    requires
        upright(*body),
        2 <= cols,
        colours@.len() == TANK_SENSORS,
        forall|s: int| 0 <= s < TANK_SENSORS ==> (#[trigger] colours@[s])@.len() == cols,
    ensures
        shapes(r@) == blocks_spec(*body, cols as int, colours@, TANK_SENSORS as nat),
{
    let mut out: Vec<Piece> = Vec::new();
    assert(shapes(out@) =~= Seq::empty());
    let mut s: usize = 0;
    while s < TANK_SENSORS
        invariant
            s <= TANK_SENSORS == colours@.len(),
            upright(*body),
            2 <= cols,
            forall|k: int| 0 <= k < TANK_SENSORS ==> (#[trigger] colours@[k])@.len() == cols,
            shapes(out@) == blocks_spec(*body, cols as int, colours@, s as nat),
        decreases TANK_SENSORS - s,
    {
        let found = stripes(&colours[s]);
        proof {
            there_is_one_list_of_stripes(colours@[s as int]@, found@);
            assert(are_stripes(colours@[s as int]@, found@));
        }
        follow(&mut out, draw_tank_blocks(body, cols, s, &found));
        s += 1;
    }
    out
}

fn draw_column(
    body: &Frame,
    tank: &Tank,
    col: usize,
    marks: &TankMarks,
) -> (r: Vec<Piece>)
    requires
        upright(*body),
        tank_fits(*tank, *marks),
        col < tank.field.cols,
    ensures
        ({
            let runs = shaded_spec(tank.field, col as int);
            shapes(r@) == column_spec(
                *body,
                tank.field.cols as int,
                col as int,
                runs,
                marks.colours@,
                runs.len(),
            )
        }),
{
    let cols = tank.field.cols;
    let runs = shaded_runs(&tank.field, col);
    let mut out: Vec<Piece> = Vec::new();
    assert(shapes(out@) =~= Seq::empty());
    let mut k: usize = 0;
    while k < runs.len()
        invariant
            k <= runs@.len(),
            upright(*body),
            tank_fits(*tank, *marks),
            col < cols == tank.field.cols,
            forall|j: int|
                0 <= j < runs@.len() ==> (#[trigger] runs@[j]).0 < runs@[j].1 < TANK_SENSORS
                    && forall|s: int|
                    runs@[j].0 <= s <= runs@[j].1 ==> #[trigger] tank.field.cell(col as int, s)
                        is Some,
            shapes(out@) == column_spec(
                *body,
                cols as int,
                col as int,
                runs@,
                marks.colours@,
                k as nat,
            ),
        decreases runs@.len() - k,
    {
        let run = runs[k];
        assert(runs@[k as int] == run);
        let ghost wanted = down(marks.colours@, col as int, run);
        let mut found: Vec<Rgb> = Vec::new();
        let mut s: usize = run.1 + 1;
        while s > run.0
            invariant
                run.0 <= s <= run.1 + 1 <= TANK_SENSORS,
                tank_fits(*tank, *marks),
                col < tank.field.cols,
                forall|j: int|
                    run.0 <= j <= run.1 ==> #[trigger] tank.field.cell(col as int, j) is Some,
                wanted == down(marks.colours@, col as int, run),
                found@ == wanted.take(run.1 + 1 - s),
            decreases s,
        {
            s -= 1;
            assert(tank.field.cell(col as int, s as int) is Some);
            assert(colours_fit(*tank, marks.colours@[s as int]@, s as int));
            assert(marks.colours@[s as int]@[col as int] is Some);
            if let Some(color) = marks.colours[s][col] {
                found.push(color);
            }
            assert(found@ =~= wanted.take(run.1 + 1 - s));
        }
        assert(found@ =~= wanted);
        let before = Ghost(shapes(out@));
        out.push(draw_tank_shading(body, cols, col, run, evenly(&found)));
        assert(shapes(out@) =~= before@.push(out@.last()@));
        k += 1;
    }
    out
}

fn draw_shading(body: &Frame, tank: &Tank, marks: &TankMarks) -> (r: Vec<Piece>)
    requires
        upright(*body),
        tank_fits(*tank, *marks),
    ensures
        shapes(r@) == shading_spec(*body, *tank, marks.colours@, tank.field.cols as nat),
{
    let mut out: Vec<Piece> = Vec::new();
    assert(shapes(out@) =~= Seq::empty());
    let mut col: usize = 0;
    while col < tank.field.cols
        invariant
            col <= tank.field.cols,
            upright(*body),
            tank_fits(*tank, *marks),
            shapes(out@) == shading_spec(*body, *tank, marks.colours@, col as nat),
        decreases tank.field.cols - col,
    {
        follow(&mut out, draw_column(body, tank, col, marks));
        col += 1;
    }
    out
}

fn copy_places(places: &Vec<(i64, i64)>) -> (r: Vec<(i64, i64)>)
    ensures
        r@ == places@,
{
    let mut out: Vec<(i64, i64)> = Vec::new();
    let mut i: usize = 0;
    while i < places.len()
        invariant
            i <= places@.len(),
            out@ == places@.take(i as int),
        decreases places@.len() - i,
    {
        out.push(places[i]);
        i += 1;
    }
    assert(out@ =~= places@);
    out
}

fn draw_ends(marks: &TankMarks, style: &Style) -> (r: Vec<Piece>)
    requires
        style.wf(),
    ensures
        shapes(r@) == ends_spec(*marks, *style),
{
    let color = Ink { color: style.palette.frame, alpha: 255 };
    let width = style.thickness(6);
    let out = vec![
        Piece::Line(copy_places(&marks.ends.0), color, width),
        Piece::Line(copy_places(&marks.ends.1), color, width),
    ];
    assert(shapes(out@) =~= ends_spec(*marks, *style));
    out
}

fn draw_tank(
    tank: &Tank,
    marks: &TankMarks,
    figure: &Figure,
    time: &TimeMarks,
    m: &Metrics,
    style: &Style,
    plot: &Frame,
) -> (r: Vec<Piece>)
    requires
        m.wf(),
        style.wf(),
        upright(*plot),
        tank_fits(*tank, *marks),
    ensures
        shapes(r@) == tank_spec(*tank, *marks, *figure, *time, *m, *style, *plot),
{
    let mut out: Vec<Piece> = Vec::new();
    assert(shapes(out@) =~= Seq::empty());
    if let Some((body, _)) = vessel(plot, m) {
        let body = &body;
        follow(&mut out, wall_ground(body, style));
        if tank.blocks {
            proof {
                assert forall|s: int| 0 <= s < TANK_SENSORS implies (
                #[trigger] marks.colours@[s])@.len() == tank.field.cols by {
                    assert(colours_fit(*tank, marks.colours@[s]@, s));
                }
            }
            follow(&mut out, draw_blocks(body, tank.field.cols, &marks.colours));
        } else {
            follow(&mut out, draw_shading(body, tank, marks));
        }
        follow(&mut out, playhead(body, style, figure.cursor, figure.range, time.cursor_at));
        let open = vec![Piece::Clip(None)];
        assert(shapes(open@) =~= seq![Shape::Clip(None)]);
        follow(&mut out, open);
        follow(&mut out, draw_ends(marks, style));
        follow(&mut out, wall(body, m, style, tank.grid, tank.blocks));
        let (hot, cold) = (scale_label(tank.hi_c), scale_label(tank.lo_c));
        let (hot, cold) = (hot.as_str(), cold.as_str());
        let critical = critical_height(body, tank.lo_c, tank.hi_c);
        let stops = evenly(&marks.scale);
        follow(&mut out, draw_tank_scale(plot, body, m, style, stops, hot, cold, critical));
        assert(shapes(out@) =~= tank_spec(*tank, *marks, *figure, *time, *m, *style, *plot));
    }
    out
}

fn draw_panel(
    panel: &Panel,
    marks: &Marks,
    figure: &Figure,
    time: &TimeMarks,
    m: &Metrics,
    style: &Style,
    plot: &Frame,
    last: bool,
) -> (r: Vec<Piece>)
    requires
        m.wf(),
        style.wf(),
        upright(*plot),
        panel_fits(*panel, *marks),
    ensures
        shapes(r@) == panel_spec(*panel, *marks, *figure, *time, *m, *style, *plot, last),
{
    let mut out = title(plot, m, style, panel.title.as_str());
    match (&panel.content, marks) {
        (Content::Graph(graph), Marks::Graph(marks)) => {
            follow(&mut out, draw_graph(graph, marks, figure, time, m, style, plot));
            follow(&mut out, draw_legend(graph, marks, m, style, plot, last));
        },
        (Content::Tank(tank), Marks::Tank(marks)) => {
            follow(&mut out, draw_tank(tank, marks, figure, time, m, style, plot));
        },
        _ => {},
    }
    if last {
        let dates = range_dates(figure.range);
        follow(&mut out, draw_time_axis(plot, m, style, &time.ticks, dates.as_str()));
    }
    assert(shapes(out@) =~= panel_spec(*panel, *marks, *figure, *time, *m, *style, *plot, last));
    out
}

/// The pieces of a figure, in the order they are drawn in: the ground of the page, then panel by
/// panel.
pub fn page(
    whole: &Frame,
    figure: &Figure,
    style: &Style,
    m: &Metrics,
    plots: &Vec<Frame>,
    marks: &Vec<Marks>,
    time: &TimeMarks,
) -> (r: Vec<Piece>)
    requires
        m.wf(),
        style.wf(),
        figure_fits(*figure, plots@, marks@),
    ensures
        shapes(r@) == seq![ground_spec(*whole, *style)] + panels_spec(
            marks@,
            *figure,
            *time,
            *m,
            *style,
            plots@,
            figure.panels@.len(),
        ),
{
    let mut out = vec![ground(whole, style)];
    let ghost ground = shapes(out@);
    assert(ground =~= seq![ground_spec(*whole, *style)]);
    let n = figure.panels.len();
    let mut i: usize = 0;
    assert(ground =~= ground + Seq::empty());
    while i < n
        invariant
            i <= n == figure.panels@.len(),
            m.wf(),
            style.wf(),
            figure_fits(*figure, plots@, marks@),
            shapes(out@) == ground + panels_spec(
                marks@,
                *figure,
                *time,
                *m,
                *style,
                plots@,
                i as nat,
            ),
        decreases n - i,
    {
        let last = i + 1 == n;
        assert(panel_fits(figure.panels@[i as int], marks@[i as int]));
        assert(upright(plots@[i as int]));
        let panel = &figure.panels[i];
        follow(&mut out, draw_panel(panel, &marks[i], figure, time, m, style, &plots[i], last));
        i += 1;
        assert(shapes(out@) =~= ground + panels_spec(
            marks@,
            *figure,
            *time,
            *m,
            *style,
            plots@,
            i as nat,
        ));
    }
    out
}

/// The time axis is the last thing on a page, under its last panel.
pub proof fn a_page_ends_with_its_time_axis(
    marks: Seq<Marks>,
    figure: Figure,
    time: TimeMarks,
    m: Metrics,
    style: Style,
    plots: Seq<Frame>,
)
    requires
        figure.panels@.len() > 0,
    ensures
        ({
            let n = figure.panels@.len();
            let all = panels_spec(marks, figure, time, m, style, plots, n);
            let dates = dates_spec(day_spec(figure.range.0), day_spec(figure.range.1));
            let axis = time_axis_spec(plots[n - 1], m, style, time.ticks@, dates);
            axis.len() <= all.len() && all.skip(all.len() - axis.len()) == axis
        }),
{
    let n = figure.panels@.len();
    let all = panels_spec(marks, figure, time, m, style, plots, n);
    let dates = dates_spec(day_spec(figure.range.0), day_spec(figure.range.1));
    let axis = time_axis_spec(plots[n - 1], m, style, time.ticks@, dates);
    let last = panel_spec(
        figure.panels@[n - 1],
        marks[n - 1],
        figure,
        time,
        m,
        style,
        plots[n - 1],
        true,
    );
    assert(last.skip(last.len() - axis.len()) =~= axis);
    assert(all.skip(all.len() - axis.len()) =~= axis);
}

} // verus!
