use rapid_analyzer::colors::Rgb;
use rapid_analyzer::export::drawing::{
    backdrop, critical_height, draw_legend_below, draw_legend_inside, draw_tank_blocks,
    draw_tank_scale, draw_tank_shading, draw_time_axis, draw_value_axis, evenly, height_at,
    playhead, side_at, surround, title, veil, vessel, wall, wall_ground, Piece, Place, Style,
    Tick,
};
use rapid_analyzer::export::figure::{legend_rows, stripes, Metrics, Scaling, Series};
use rapid_analyzer::export::svg::{Align, Frame, Ink};
use rapid_analyzer::export::ExportSettings;

const PLOT: Frame = Frame { left: 5_000, top: 2_000, right: 45_000, bottom: 22_000 };

const RED: Rgb = Rgb { r: 255, g: 0, b: 0 };

const BLUE: Rgb = Rgb { r: 0, g: 0, b: 255 };

fn style() -> Style {
    ExportSettings::default().style()
}

fn metrics() -> Metrics {
    Metrics::new(1_000, 1_200, 1_500, 4_000, true)
}

fn tick(at: i64, label: &str) -> Tick {
    Tick { at, label: label.to_string() }
}

fn solid(color: Rgb) -> Ink {
    Ink { color, alpha: 255 }
}

fn line(piece: &Piece) -> Vec<(i64, i64)> {
    match piece {
        Piece::Line(points, _, _) => points.clone(),
        _ => panic!("not a line"),
    }
}

fn words(piece: &Piece) -> ((i64, i64), String) {
    match piece {
        Piece::Words(at, _, _, text, _, _) => (*at, text.clone()),
        Piece::Turned(at, text, _, _) => (*at, text.clone()),
        _ => panic!("not words"),
    }
}

fn place(piece: &Piece) -> Place {
    match piece {
        Piece::Fill(p, _) | Piece::Outline(p, _, _) | Piece::Cell(p, _) => *p,
        Piece::Gradient(p, _) => *p,
        _ => panic!("not a box"),
    }
}

fn entry(color: Rgb, label: &str) -> Series {
    Series {
        label: label.to_string(),
        color,
        right_axis: false,
        points: Vec::new(),
        scaling: Scaling::AsIs,
    }
}

fn entries() -> Vec<Series> {
    vec![entry(RED, "a"), entry(BLUE, "b"), entry(RED, "c")]
}

#[test]
fn the_grid_is_behind_the_lines() {
    let s = style();
    assert_eq!((s.font, s.line_width), (1_200, 133), "nine points, and one");
    let time = vec![tick(10_000, "t")];
    let values = vec![tick(4_000, "1"), tick(8_000, "2")];
    let pieces = backdrop(&PLOT, &s, &time, &values);
    assert_eq!(pieces.len(), 5);
    assert_eq!(place(&pieces[0]), Place { left: 5_000, top: 2_000, right: 45_000, bottom: 22_000 });
    assert_eq!(line(&pieces[1]), vec![(10_000, 2_000), (10_000, 22_000)]);
    assert_eq!(line(&pieces[2]), vec![(5_000, 4_000), (45_000, 4_000)]);
    assert_eq!(line(&pieces[3]), vec![(5_000, 8_000), (45_000, 8_000)]);
    assert!(matches!(pieces[4], Piece::Clip(Some(_))));
    let bare = Style { grid: false, ..s };
    assert_eq!(backdrop(&PLOT, &bare, &time, &values).len(), 2);
    let edge = surround(&PLOT, &s);
    assert!(matches!(edge[0], Piece::Clip(None)));
    assert!(matches!(edge[1], Piece::Outline(_, _, 79)));
}

#[test]
fn an_axis_writes_at_its_ticks_and_its_label_outside_them() {
    let (m, s) = (metrics(), style());
    let ticks = vec![tick(4_000, "1.0")];
    let left = draw_value_axis(&PLOT, &m, &s, &ticks, 2_000, "bar", false);
    assert_eq!(line(&left[0]), vec![(5_000, 4_000), (4_650, 4_000)]);
    assert_eq!(words(&left[1]), ((4_450, 4_000), "1.0".to_string()));
    assert_eq!(words(&left[2]), ((1_650, 12_000), "bar".to_string()));
    let right = draw_value_axis(&PLOT, &m, &s, &ticks, 2_000, "", true);
    assert_eq!(right.len(), 2, "no label, no words for it");
    assert_eq!(line(&right[0]), vec![(45_000, 4_000), (45_350, 4_000)]);

    let time = draw_time_axis(&PLOT, &m, &s, &vec![tick(9_000, "12:00")], "2026-08-08 (UTC)");
    assert_eq!(line(&time[0]), vec![(9_000, 22_000), (9_000, 22_350)]);
    assert_eq!(words(&time[1]), ((9_000, 22_550), "12:00".to_string()));
    assert_eq!(words(&time[2]), ((25_000, 23_900), "2026-08-08 (UTC)".to_string()));
    let named = title(&PLOT, &m, &s, "PV");
    assert_eq!(words(&named[0]), ((5_000, 100), "PV".to_string()));
    assert!(title(&PLOT, &m, &s, "").is_empty());
    assert!(title(&PLOT, &m, &Style { titles: false, ..s }, "PV").is_empty());
}

#[test]
fn a_legend_lists_its_series() {
    let (m, s) = (metrics(), style());
    let inside = draw_legend_inside(&PLOT, &m, &s, &entries(), &vec![9_500, 400, 400], false);
    assert_eq!(inside.len(), 8);
    assert!(matches!(inside[0], Piece::Fill(_, Ink { alpha: 217, .. })));
    assert_eq!(place(&inside[0]), Place { left: 5_500, top: 2_500, right: 15_500, bottom: 6_600 });
    assert_eq!(line(&inside[2]), vec![(5_750, 3_350), (7_670, 3_350)]);
    assert_eq!(words(&inside[3]), ((7_920, 3_350), "a".to_string()));
    assert_eq!(line(&inside[6]), vec![(5_750, 5_750), (7_670, 5_750)], "two lines further down");
    let right = draw_legend_inside(&PLOT, &m, &s, &entries(), &vec![9_500, 400, 400], true);
    assert_eq!((place(&right[0]).left, place(&right[0]).right), (34_500, 44_500));
    let wide = vec![39_600, 400, 400];
    assert!(draw_legend_inside(&PLOT, &m, &s, &entries(), &wide, true).is_empty());

    let widths = vec![400, 400, 400];
    let rows = legend_rows(&widths, 50, 1_000);
    let below = draw_legend_below(&PLOT, &m, &s, &entries(), &widths, 50, 1_000, &rows, 3_100);
    assert_eq!(below.len(), 6);
    assert_eq!(line(&below[0])[0], (5_000, 26_000));
    assert_eq!(line(&below[2])[0], (5_450, 26_000));
    assert_eq!(line(&below[4])[0], (5_000, 27_200), "wrapped");
}

#[test]
fn a_tank_fills_its_plot() {
    let (m, s) = (metrics(), style());
    let (body, cap) = vessel(&PLOT, &m).unwrap();
    assert_eq!(cap, 1_680);
    assert_eq!((body.top, body.bottom), (3_680, 20_320));
    assert!(vessel(&Frame { bottom: 3_000, ..PLOT }, &m).is_none());
    assert_eq!(height_at(&body, 0), 20_320);
    assert_eq!(height_at(&body, 18), 3_680);
    assert_eq!((side_at(&body, 5, 0), side_at(&body, 5, 8)), (5_000, 45_000));
    assert!(matches!(wall_ground(&body, &s)[1], Piece::Clip(Some(_))));

    let found = stripes(&vec![Some(RED), Some(RED), Some(BLUE), None, None]);
    let cells = draw_tank_blocks(&body, 5, 0, &found);
    assert_eq!(cells.len(), 2);
    assert_eq!((place(&cells[0]).left, place(&cells[0]).right), (5_000, 20_000));
    assert_eq!((place(&cells[1]).left, place(&cells[1]).right), (20_000, 30_000), "no seam");
    assert_eq!(place(&cells[0]).bottom, 20_320, "the lowest reaches the wall");

    let stops = evenly(&vec![RED, BLUE, RED]);
    assert_eq!(stops, vec![(0, solid(RED)), (50, solid(BLUE)), (100, solid(RED))]);
    let column = draw_tank_shading(&body, 5, 4, (0, 9), stops);
    assert_eq!(place(&column), Place { left: 40_000, top: 3_680, right: 45_000, bottom: 20_320 });

    assert_eq!(wall(&body, &m, &s, true, false).len(), 21, "ten lines, an edge, ten names");
    assert_eq!(wall(&body, &m, &s, true, true).len(), 20);
    let plain = wall(&body, &m, &s, false, true);
    assert_eq!(words(&plain[10]), ((4_800, 3_680), "s9".to_string()));
}

#[test]
fn the_colour_bar_marks_the_critical_point() {
    let (m, s) = (metrics(), style());
    let (body, _) = vessel(&PLOT, &m).unwrap();
    let y = critical_height(&body, -20_000, 40_000).unwrap();
    assert_eq!(y, 20_320 - 16_640 * 56_370 / 60_000);
    assert_eq!(critical_height(&body, -20_000, 30_000), None);
    assert_eq!(critical_height(&body, 40_000, 40_000), None);
    let stops = || evenly(&vec![RED, BLUE]);
    let near = draw_tank_scale(&PLOT, &body, &m, &s, stops(), "40 °C", "-20 °C", Some(y));
    assert_eq!(near.len(), 5, "its name would be over the hot end's");
    assert_eq!((place(&near[0]).left, place(&near[0]).right), (45_500, 46_820));
    assert_eq!(words(&near[2]), ((47_070, 3_680), "40 °C".to_string()));
    let clear = draw_tank_scale(&PLOT, &body, &m, &s, stops(), "60 °C", "-20 °C", Some(9_000));
    assert_eq!(words(&clear[5]), ((47_070, 9_000), "Tc".to_string()));
    assert_eq!(draw_tank_scale(&PLOT, &body, &m, &s, stops(), "30 °C", "0 °C", None).len(), 4);
}

#[test]
fn the_playhead_is_drawn_where_it_is_asked_for() {
    let marked = Style { cursor: true, ..style() };
    let pieces = playhead(&PLOT, &marked, Some(5), (0, 10), 25_000);
    assert_eq!(pieces.len(), 1);
    assert_eq!(line(&pieces[0]), vec![(25_000, 2_000), (25_000, 22_000)]);
    assert!(playhead(&PLOT, &marked, Some(11), (0, 10), 0).is_empty());
    assert!(playhead(&PLOT, &marked, None, (0, 10), 0).is_empty());
    assert!(playhead(&PLOT, &style(), Some(5), (0, 10), 0).is_empty());
    assert_eq!(veil(None, 255).alpha, 0);
    assert_eq!(veil(Some(RED), 200), Ink { color: RED, alpha: 200 });
}
