//! What is drawn of a figure, and in which order.

use rapid_analyzer::colors::Rgb;
use rapid_analyzer::correction::label_with_offset;
use rapid_analyzer::double::Double;
use rapid_analyzer::export::drawing::{scale_label, vessel, Piece, Place, Style, Tick};
use rapid_analyzer::export::figure::{
    content, time_ticks, Content, Figure, Graph, Metrics, Panel, Scaling, Series, Tank,
};
use rapid_analyzer::export::page::{
    arrange, fits, ground, page, time_marks, GraphMarks, Marks, Needs, TankMarks, TimeMarks,
};
use rapid_analyzer::export::svg::Frame;
use rapid_analyzer::export::{ExportSettings, LegendPos};
use rapid_analyzer::plot_view::Fit;
use rapid_analyzer::tank::{Field, SensorUnit, TANK_SENSORS};

const RED: Rgb = Rgb { r: 255, g: 0, b: 0 };

const BLUE: Rgb = Rgb { r: 0, g: 0, b: 255 };

const WHOLE: Frame = Frame { left: 0, top: 0, right: 60_000, bottom: 68_000 };

fn d(v: f64) -> Double {
    Double { bits: v.to_bits() }
}

fn style() -> Style {
    ExportSettings::default().style()
}

fn metrics() -> Metrics {
    Metrics::new(1_000, 1_200, 1_500, 4_000, true)
}

fn tick(at: i64, label: &str) -> Tick {
    Tick { at, label: label.to_string() }
}

fn line(piece: &Piece) -> Vec<(i64, i64)> {
    match piece {
        Piece::Line(points, _, _) => points.clone(),
        _ => panic!("not a line"),
    }
}

fn said(pieces: &[Piece]) -> Vec<String> {
    let words = |piece: &Piece| match piece {
        Piece::Words(_, _, _, text, _, _) | Piece::Turned(_, text, _, _) => Some(text.clone()),
        _ => None,
    };
    pieces.iter().filter_map(words).collect()
}

/// A panel with one line of five samples, the third of them missing.
fn graph_panel(title: &str) -> Panel {
    let values = [1.0, 2.0, f64::NAN, 3.0, 4.0];
    let points = (0..5).map(|i| (i, d(values[i as usize]))).collect();
    let series = vec![Series {
        label: "pressure".to_string(),
        color: RED,
        right_axis: false,
        points,
        scaling: Scaling::AsIs,
    }];
    Panel {
        title: title.to_string(),
        content: Content::Graph(Graph {
            series,
            auto_left: Fit::Values(d(1.0), d(4.0)),
            left: Fit::Values(d(1.0), d(4.0)),
            right: Some(Fit::Unit),
            left_label: "bar".to_string(),
            right_label: "N".to_string(),
        }),
    }
}

fn graph_marks(right: bool) -> Marks {
    Marks::Graph(GraphMarks {
        left: vec![tick(9_000, "2.0")],
        right: if right { Some(vec![tick(9_500, "0.5")]) } else { None },
        left_widest: 1_000,
        right_widest: 1_000,
        entries: vec![4_000],
        lines: vec![(0..5).map(|i| (10_000 + i, 5_000 + i)).collect()],
    })
}

/// A tank of three columns. Sensor 4 is dead.
fn tank_panel(blocks: bool) -> Panel {
    let reading = |i: usize| if i % TANK_SENSORS == 4 { None } else { Some(d(20.0)) };
    Panel {
        title: "Tank".to_string(),
        content: Content::Tank(Tank {
            field: Field { cols: 3, cells: (0..3 * TANK_SENSORS).map(reading).collect() },
            lo_c: -20_000,
            hi_c: 30_000,
            blocks,
            grid: true,
            unit: SensorUnit::Celsius,
        }),
    }
}

fn tank_marks() -> Marks {
    let live = vec![Some(RED), Some(RED), Some(BLUE)];
    let colours = |s: usize| if s == 4 { vec![None; 3] } else { live.clone() };
    Marks::Tank(TankMarks {
        colours: (0..TANK_SENSORS).map(colours).collect(),
        ends: (vec![(1, 1), (2, 2)], vec![(3, 3), (4, 4)]),
        scale: vec![RED, BLUE],
    })
}

fn plots(n: usize) -> Vec<Frame> {
    let needs = (0..n).map(|_| Needs { left: 4_000, right: Some(3_000), entries: vec![4_000] });
    let area = content(60_000, 68_000, 1_000).unwrap();
    arrange(&area, &metrics(), &style(), &needs.collect()).unwrap()
}

fn drawn(panels: Vec<Panel>, marks: Vec<Marks>, style: &Style) -> Vec<Piece> {
    let figure = Figure { panels, range: (0, 4_000_000), cursor: Some(2_000_000) };
    let plots = plots(figure.panels.len());
    assert!(fits(&figure, &plots, &marks));
    let time = TimeMarks { cursor_at: 20_000, ticks: vec![tick(15_000, "00:00:01")] };
    page(&WHOLE, &figure, style, &metrics(), &plots, &marks, &time)
}

#[test]
fn a_graph_is_drawn_from_its_ground_up() {
    let pieces = drawn(vec![graph_panel("PV")], vec![graph_marks(true)], &style());
    let whole = Place { left: 0, top: 0, right: 60_000, bottom: 68_000 };
    assert!(matches!(&pieces[0], Piece::Fill(p, _) if *p == whole));
    let title = "PV".to_string();
    let ticks = ["2.0", "bar", "0.5", "N"].map(String::from);
    let axis = ["00:00:01", "1970-01-01 (UTC)"].map(String::from);
    let mut expected = vec![title];
    expected.extend(ticks);
    expected.push("pressure".to_string());
    expected.extend(axis);
    assert_eq!(said(&pieces), expected, "title, axes, legend, and the time axis last");

    // The ground, its grid, and inside its edges the line, broken where a sample is missing.
    let confined = pieces.iter().position(|p| matches!(p, Piece::Clip(Some(_)))).unwrap();
    assert_eq!(line(&pieces[confined + 1]), vec![(10_000, 5_000), (10_001, 5_001)]);
    assert_eq!(line(&pieces[confined + 2]), vec![(10_003, 5_003), (10_004, 5_004)]);
    assert!(matches!(pieces[confined + 3], Piece::Clip(None)), "no playhead unless asked for");
    assert!(matches!(pieces[confined + 4], Piece::Outline(..)));

    let marked = Style { cursor: true, ..style() };
    let pieces = drawn(vec![graph_panel("PV")], vec![graph_marks(true)], &marked);
    assert_eq!(line(&pieces[confined + 3])[0].0, 20_000, "over the lines");
}

#[test]
fn the_settings_say_what_goes_with_a_graph() {
    let said_with = |style: Style, right: bool| {
        said(&drawn(vec![graph_panel("PV")], vec![graph_marks(right)], &style))
    };
    let bare = Style { titles: false, legend: LegendPos::Off, ..style() };
    assert_eq!(said_with(bare, false), ["2.0", "bar", "00:00:01", "1970-01-01 (UTC)"]);

    // Below the last panel the legend goes under the time axis, drawn before it.
    let below = Style { legend: LegendPos::Below, ..style() };
    let pieces = drawn(vec![graph_panel("")], vec![graph_marks(false)], &below);
    let named = pieces.iter().find_map(|p| match p {
        Piece::Words(at, _, _, text, _, _) if text == "pressure" => Some(*at),
        _ => None,
    });
    let m = metrics();
    let foot = i64::from(plots(1)[0].bottom);
    assert_eq!(named.unwrap().1, foot + m.x_axis_block + m.gap * 6 / 10 + m.line_h / 2);
}

#[test]
fn the_time_axis_is_under_the_last_panel_alone() {
    let panels = vec![graph_panel("a"), tank_panel(true)];
    let pieces = drawn(panels, vec![graph_marks(false), tank_marks()], &style());
    let said = said(&pieces);
    assert_eq!(said.iter().filter(|s| *s == "00:00:01").count(), 1);
    assert_eq!(said[said.len() - 2..], ["00:00:01", "1970-01-01 (UTC)"]);
    let (pressure, tank) = (
        said.iter().position(|s| s == "pressure").unwrap(),
        said.iter().position(|s| s == "Tank").unwrap(),
    );
    assert!(pressure < tank, "panel by panel");
}

#[test]
fn a_tank_is_drawn_in_blocks_or_shaded() {
    let blocks = drawn(vec![tank_panel(true)], vec![tank_marks()], &style());
    let cells = blocks.iter().filter(|p| matches!(p, Piece::Cell(..))).count();
    assert_eq!(cells, 18, "nine live sensors, two stripes each");
    let shaded = drawn(vec![tank_panel(false)], vec![tank_marks()], &style());
    let gradients = shaded.iter().filter(|p| matches!(p, Piece::Gradient(..))).count();
    assert_eq!(gradients, 7, "two stretches of each of three columns, and the scale");
    assert!(said(&shaded).contains(&"30 °C".to_string()));
    assert!(said(&shaded).contains(&"-20 °C".to_string()));
    let ends: Vec<_> = shaded
        .iter()
        .filter(|p| matches!(p, Piece::Line(points, _, _) if points.len() == 2 && points[0].0 < 5))
        .map(line)
        .collect();
    assert_eq!(ends, vec![vec![(1, 1), (2, 2)], vec![(3, 3), (4, 4)]]);

    // A plot too low for a wall shows no tank, and still carries the time axis.
    let figure = Figure { panels: vec![tank_panel(true)], range: (0, 4_000_000), cursor: None };
    let low = vec![Frame { left: 5_000, top: 5_000, right: 40_000, bottom: 6_000 }];
    assert!(vessel(&low[0], &metrics()).is_none());
    let marks = vec![tank_marks()];
    let time = TimeMarks { cursor_at: 0, ticks: Vec::new() };
    let pieces = page(&WHOLE, &figure, &style(), &metrics(), &low, &marks, &time);
    assert_eq!(said(&pieces), ["Tank", "1970-01-01 (UTC)"]);
}

#[test]
fn marks_that_are_not_the_figures_are_told_apart() {
    let figure = Figure { panels: vec![graph_panel("a")], range: (0, 1), cursor: None };
    assert!(fits(&figure, &plots(1), &vec![graph_marks(true)]));
    assert!(!fits(&figure, &plots(1), &vec![tank_marks()]));
    assert!(!fits(&figure, &plots(1), &vec![]));
    assert!(!fits(&figure, &plots(2), &vec![graph_marks(true)]));
    let upside_down = vec![Frame { left: 0, top: 10, right: 10, bottom: 0 }];
    assert!(!fits(&figure, &upside_down, &vec![graph_marks(true)]));
    let Marks::Graph(mut marks) = graph_marks(true) else { panic!("not a graph") };
    marks.lines[0].pop();
    assert!(!fits(&figure, &plots(1), &vec![Marks::Graph(marks)]));
    assert!(matches!(ground(&WHOLE, &style()), Piece::Fill(p, _) if p.right == 60_000));
}

#[test]
fn panels_share_their_sides() {
    let (m, s) = (metrics(), style());
    let area = content(60_000, 68_000, 1_000).unwrap();
    let needs = |left, right| Needs { left, right, entries: vec![4_000; 20] };
    let list = vec![needs(4_000, None), needs(6_000, Some(2_500))];
    let plots = arrange(&area, &m, &s, &list).unwrap();
    assert_eq!((plots[0].left, plots[0].right), (7_000, 56_500));
    assert_eq!((plots[1].left, plots[1].right), (7_000, 56_500));
    // A legend below its plot takes its rows off it.
    let below = arrange(&area, &m, &Style { legend: LegendPos::Below, ..s }, &list).unwrap();
    assert_eq!(below[0].top, plots[0].top);
    assert_eq!(i64::from(plots[0].bottom - below[0].bottom), m.gap * 6 / 10 + 2 * m.line_h);
    // A page too narrow for its labels loses them, and one too narrow for a plot has none.
    let greedy = vec![needs(i64::MAX, Some(i64::MAX))];
    let squeezed = arrange(&area, &m, &s, &greedy).unwrap();
    assert_eq!((squeezed[0].left, squeezed[0].right), (1_500, 58_500));
    let slip = Frame { right: 2_000, ..area };
    assert!(arrange(&slip, &m, &s, &greedy).is_none());
}

#[test]
fn ticks_say_their_clock_time() {
    let ticks = time_ticks((0, 4_000_000), 4);
    assert_eq!(ticks.step, 1_000_000);
    let marks = time_marks(&ticks, &vec![10, 20, 30, 40, 50]);
    assert_eq!((marks[1].at, marks[1].label.as_str()), (20, "00:00:01"));
    assert_eq!(scale_label(-20_000), "-20 °C");
    assert_eq!(scale_label(1_500), "2 °C");
    assert_eq!(scale_label(2_500), "2 °C", "halves to the even one");
    assert_eq!(label_with_offset("p", "+10", &Some("bar".to_string())), "p (+10 bar)");
    assert_eq!(label_with_offset("p", "-1", &None), "p (-1)");
}
