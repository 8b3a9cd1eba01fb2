use rapid_analyzer::can::CanFrames;
use rapid_analyzer::colors::Rgb;
use rapid_analyzer::double::Double;
use rapid_analyzer::export::dialog::{preview_scale, range_note, suggested_name, ExportDialog};
use rapid_analyzer::export::figure::{
    build_figure, content, dates, legend_below_height, legend_inside, legend_rows, line_runs,
    margin, panel_height, plot_rect, plot_sides, range_dates, shaded_runs, stack, stripes,
    time_ticks, Content, Figure, Graph, Metrics, Scaling,
};
use rapid_analyzer::export::svg::Frame;
use rapid_analyzer::export::value_axis::{is_drawable_values, ticks_wanted};
use rapid_analyzer::export::{
    export, is_drawable_range, mm_to_pixels, mm_to_units, numbered, points_to_units,
    sanitize_file_name, ExportError, ExportFormat, ExportItem, ExportSettings, ExportTheme,
    LegendPos, RangeMode,
};
use rapid_analyzer::model::{LogFormat, LogSource, Project, Source, SourceKind};
use rapid_analyzer::panes::{PlotAxis, Plots};
use rapid_analyzer::plot_view::Fit;
use rapid_analyzer::series::{Sample, TimeSeries};
use rapid_analyzer::tank::{Field, Tanks, TANK_SENSORS};
use rapid_analyzer::timeline::Timeline;

const S: i64 = 1_000_000;

/// A width of 600 units.
const WIDTH: u64 = 60_000;

fn d(v: f64) -> Double {
    Double { bits: v.to_bits() }
}

fn v(x: Double) -> f64 {
    f64::from_bits(x.bits)
}

fn sum(a: Double, b: Double) -> Double {
    d(v(a) + v(b))
}

fn signed(x: Double) -> String {
    format!("{:+}", v(x))
}

fn log(project: &mut Project, series: Vec<TimeSeries>) {
    let id = project.alloc_id();
    project.sources.push(Source {
        id,
        name: "run.tlog".to_string(),
        path: "run.tlog".to_string(),
        offset: 0,
        color: Rgb { r: 255, g: 255, b: 255 },
        enabled: true,
        kind: SourceKind::Log(LogSource {
            series,
            format: LogFormat::Tlog,
            can: CanFrames::default(),
        }),
    });
}

fn points(n: i64, step: i64, value: impl Fn(f64) -> f64) -> Vec<Sample> {
    (0..n).map(|i| (i * step, d(value(i as f64)))).collect()
}

/// A pressure in bar and a thrust in newtons: two series that only share a graph because they
/// are on separate axes.
fn project() -> Project {
    let mut project = Project::new();
    log(
        &mut project,
        vec![
            TimeSeries::from_points(
                "PRESSURE_VESSEL[1].pressure1",
                points(500, 100_000, |i| 40.0 + (i * 0.01).sin() * 5.0),
            )
            .with_unit(Some("bar".to_string())),
            TimeSeries::from_points(
                "THRUST.force",
                points(500, 100_000, |i| (i * 0.02).cos() * 7500.0),
            )
            .with_unit(Some("N".to_string())),
        ],
    );
    project
}

fn two_plots(project: &Project) -> (Plots, Vec<ExportItem>) {
    let source = project.sources[0].id;
    let mut plots = Plots::default();
    let a = plots.create(source, "PRESSURE_VESSEL[1].pressure1".to_string());
    plots.add(a, source, "THRUST.force".to_string(), PlotAxis::Right);
    let b = plots.create(source, "THRUST.force".to_string());
    (plots, vec![ExportItem::Plot(a), ExportItem::Plot(b)])
}

/// A tank whose ten heights are one row of sensor slots, warming over the run so the strip has
/// something in it.
fn project_with_a_tank() -> Project {
    let mut project = Project::new();
    let series: Vec<TimeSeries> = (0..TANK_SENSORS)
        .map(|sensor| {
            let wall = points(200, 250_000, |i| -10.0 + sensor as f64 * 4.0 + i * 0.05);
            TimeSeries::from_points(&format!("CAN_SENSOR[6].slot{sensor}"), wall)
                .with_unit(Some("°C".to_string()))
        })
        .collect();
    log(&mut project, series);
    project
}

fn figure_of(
    project: &Project,
    plots: &Plots,
    tanks: &Tanks,
    ids: Vec<ExportItem>,
    settings: &ExportSettings,
) -> Figure {
    let range = (0, 50 * S);
    build_figure(project, plots, tanks, &ids, range, None, settings, WIDTH, &sum, &signed)
}

fn graph_in(figure: &Figure, panel: usize) -> &Graph {
    match &figure.panels[panel].content {
        Content::Graph(graph) => graph,
        Content::Tank(_) => panic!("panel {panel} is a tank, not a graph"),
    }
}

/// The values an axis has to show.
fn values(fit: Fit) -> (f64, f64) {
    match fit {
        Fit::Values(lo, hi) | Fit::Manual(lo, hi) => (v(lo), v(hi)),
        other => panic!("{other:?} shows no values"),
    }
}

#[test]
fn a_graph_with_two_axes_becomes_a_panel_with_two_axes() {
    let project = project();
    let (plots, ids) = two_plots(&project);
    let figure = figure_of(
        &project,
        &plots,
        &Tanks::default(),
        ids[..1].to_vec(),
        &ExportSettings::default(),
    );
    let graph = graph_in(&figure, 0);
    assert_eq!(graph.left_label, "bar");
    assert_eq!(graph.right_label, "N");
    let right = values(graph.right.expect("a right axis"));
    // Each axis covers its own series, in its own units: the export draws two axes rather than
    // squeezing one into the other. Headroom comes on top.
    assert!(right.0 < -7490.0 && right.1 > 7490.0, "{right:?}");
    let left = values(graph.left);
    assert!(left.0 > 30.0 && left.1 < 50.0, "{left:?}");
    assert!(graph.series.iter().any(|s| s.right_axis && s.label.ends_with("(R)")));
}

#[test]
fn normalizing_puts_every_series_on_one_axis() {
    let project = project();
    let (mut plots, ids) = two_plots(&project);
    plots.list[0].normalize = true;
    let figure = figure_of(
        &project,
        &plots,
        &Tanks::default(),
        ids[..1].to_vec(),
        &ExportSettings::default(),
    );
    let graph = graph_in(&figure, 0);
    assert_eq!(graph.left_label, "normalized");
    assert!(graph.right.is_none(), "nothing has its own axis when normalized");
    assert!(graph.series.iter().all(|s| !s.right_axis));
    for series in &graph.series {
        let Scaling::Onto(lo, hi) = series.scaling else {
            panic!("{} is not rescaled", series.label);
        };
        assert!(
            series
                .points
                .iter()
                .all(|p| (-0.01..=1.01).contains(&((v(p.1) - v(lo)) / (v(hi) - v(lo))))),
            "{} left the 0..1 range",
            series.label
        );
    }
}

/// A box zoom pins the value range; the exported figure is meant to be the graph on screen, so
/// it keeps that range, and carries the right axis along with it, as the pane does.
#[test]
fn a_pinned_value_range_is_kept_unless_the_user_asks_for_a_fit() {
    let project = project();
    let (mut plots, ids) = two_plots(&project);
    plots.list[0].y_manual = Some((d(39.0), d(41.0)));
    let kept = figure_of(
        &project,
        &plots,
        &Tanks::default(),
        ids[..1].to_vec(),
        &ExportSettings::default(),
    );
    assert_eq!(values(graph_in(&kept, 0).left), (39.0, 41.0));
    let right = values(graph_in(&kept, 0).right.expect("a right axis"));
    assert!(right.1 - right.0 > 0.0);

    let fitted = figure_of(
        &project,
        &plots,
        &Tanks::default(),
        ids[..1].to_vec(),
        &ExportSettings { auto_fit_y: true, ..Default::default() },
    );
    let left = values(graph_in(&fitted, 0).left);
    assert_ne!(left, (39.0, 41.0));
    assert!(left.0 < 36.0, "{left:?}");
}

#[test]
fn one_file_per_graph_is_one_batch_per_graph() {
    let project = project();
    let (_, ids) = two_plots(&project);
    let settings = ExportSettings { separate_files: true, ..Default::default() };
    let batches = export(&ids, (0, 50 * S), &settings).ok().unwrap();
    assert_eq!(batches.len(), 2);
    assert_eq!((batches[0].number, batches[1].number), (Some(1), Some(2)));
    assert_eq!(batches[1].ids, vec![ids[1]]);
    let together = export(&ids, (0, 50 * S), &ExportSettings::default()).ok().unwrap();
    assert_eq!(together.len(), 1);
    assert_eq!((together[0].number, together[0].ids.len()), (None, 2));
}

/// Every one of these is a division by an empty range somewhere below.
#[test]
fn nothing_to_draw_is_refused() {
    let settings = ExportSettings::default();
    let refused = export(&vec![], (0, S), &settings);
    assert_eq!(refused.err(), Some(ExportError::NoGraphs));
    let ids = vec![ExportItem::Plot(0)];
    assert_eq!(export(&ids, (50 * S, 0), &settings).err(), Some(ExportError::EmptyRange));
    assert_eq!(export(&ids, (5, 5), &settings).err(), Some(ExportError::EmptyRange));
    assert!(!ExportError::NoGraphs.message().is_empty());
    assert!(is_drawable_range((0, 1)) && !is_drawable_range((1, 1)));
}

/// The tank pane's whole point is the picture, so the test is that the picture comes out: a
/// field with the stratification in it.
#[test]
fn a_tank_panel_carries_the_strip_it_draws() {
    let project = project_with_a_tank();
    let plots = Plots::default();
    let mut tanks = Tanks::default();
    let id = tanks.create(&project);
    let figure = figure_of(
        &project,
        &plots,
        &tanks,
        vec![ExportItem::Tank(id)],
        &ExportSettings::default(),
    );
    let Content::Tank(tank) = &figure.panels[0].content else {
        panic!("a tank pane exports a tank");
    };
    assert!(figure.panels[0].title.starts_with("Tank"));
    assert!(!tank.field.is_empty(), "nothing landed in the window");
    assert!(tank.field.cols > 2);
    // Bottom cold, top warm: the wall as the log has it, and the thing the picture exists to
    // show.
    let middle = tank.field.cols / 2;
    let top = v(tank.field.at(middle, TANK_SENSORS - 1).unwrap());
    let bottom = v(tank.field.at(middle, 0).unwrap());
    assert!(top > bottom + 20.0, "{bottom} .. {top}");
    // One run from the lowest sensor to the highest.
    assert_eq!(shaded_runs(&tank.field, middle), vec![(0, TANK_SENSORS - 1)]);
}

/// A graph whose source was unloaded, and one whose series is gone: the exporter drops what it
/// cannot find rather than inventing it.
#[test]
fn a_graph_naming_a_series_that_is_gone_exports_an_empty_panel() {
    let project = project();
    let mut plots = Plots::default();
    let id = ExportItem::Plot(plots.create(99, "NOT_IMPORTED.field".to_string()));
    let figure = figure_of(
        &project,
        &plots,
        &Tanks::default(),
        vec![id],
        &ExportSettings::default(),
    );
    assert_eq!(figure.panels.len(), 1);
    let graph = graph_in(&figure, 0);
    assert!(graph.series.is_empty());
    assert_eq!(graph.left, Fit::Unit, "still a usable axis");
}

#[test]
fn a_figure_is_as_big_as_it_was_asked_to_be() {
    let settings = ExportSettings {
        width_mm: 160_00,
        height_mm: 90_00,
        dpi: 300_00,
        ..Default::default()
    };
    // 160 mm at 300 dpi.
    assert_eq!(settings.size_pixels(1), (1890, 1063));
    // Two stacked graphs are twice as tall, and no wider.
    assert_eq!(settings.size_pixels(2), (1890, 2126));
    // ... and the same figure in units, which is what the SVG viewBox is.
    let units = settings.size_units(1);
    assert!((units.0 as f64 / 100.0 - 604.72).abs() < 0.01, "{units:?}");
    assert_eq!(settings.size_mm(2), (160_00, 180_00));
    assert_eq!((mm_to_units(25_40), points_to_units(72_00)), (96_00, 96_00));
    assert_eq!(mm_to_pixels(25_40, 300_00), 300);
}

#[test]
fn a_file_name_survives_a_series_name() {
    assert_eq!(
        sanitize_file_name("PRESSURE_VESSEL[1]: pressure1 / temp"),
        "PRESSURE_VESSEL_1_pressure1_temp"
    );
    assert_eq!(sanitize_file_name("../../etc/passwd"), "etc_passwd");
    assert_eq!(sanitize_file_name(""), "figure");
    assert_eq!(sanitize_file_name("///"), "figure");
    assert!(sanitize_file_name(&"x".repeat(200)).len() <= 60);
    assert_eq!(suggested_name("a/b", ExportFormat::Svg), "a_b.svg");
}

#[test]
fn one_file_per_graph_numbers_them() {
    assert_eq!(numbered(Some("run"), 2, ExportFormat::Svg), "run-2.svg");
    assert_eq!(numbered(Some("run"), 1, ExportFormat::Png), "run-1.png");
    assert_eq!(numbered(None, 1, ExportFormat::Png), "figure-1.png");
}

#[test]
fn the_custom_range_is_measured_from_the_start_of_the_data() {
    let settings = ExportSettings {
        range: RangeMode::Custom,
        custom_from: 10 * S,
        custom_to: 20 * S,
        ..Default::default()
    };
    let mut timeline = Timeline::new((1000 * S, 2000 * S));
    timeline.set_view(1100 * S, 1200 * S);
    let bounds = Some((1000 * S, 2000 * S));
    assert_eq!(settings.resolve_range(&timeline, bounds), Some((1010 * S, 1020 * S)));

    let view = ExportSettings { range: RangeMode::View, ..settings };
    assert_eq!(view.resolve_range(&timeline, bounds), Some((1100 * S, 1200 * S)));

    let all = ExportSettings { range: RangeMode::All, ..settings };
    assert_eq!(all.resolve_range(&timeline, bounds), Some((1000 * S, 2000 * S)));
    // With nothing loaded there is no "everything"; fall back to the view.
    assert_eq!(all.resolve_range(&timeline, None), Some((1100 * S, 1200 * S)));

    // A custom range taken over from the view is the view.
    let mut taken = settings;
    taken.use_view(&timeline, bounds);
    assert_eq!(taken.resolve_range(&timeline, bounds), Some((1100 * S, 1200 * S)));
}

#[test]
fn opening_the_dialog_starts_from_what_is_on_screen() {
    let mut plots = Plots::default();
    let a = ExportItem::Plot(plots.create(0, "PV[1].pressure".to_string()));
    let b = ExportItem::Plot(plots.create(0, "PV[1].pressure".to_string()));
    let mut dialog = ExportDialog::default();
    dialog.open(&vec![a, b]);
    assert!(dialog.is_open());
    assert_eq!(dialog.selected.len(), 2);

    // A graph whose pane is closed drops out of the selection rather than being exported from
    // memory.
    dialog.retain_visible(&vec![a]);
    assert_eq!(dialog.ordered_selection(&vec![a]), vec![a]);
}

#[test]
fn the_dialog_keeps_the_order_of_the_screen() {
    let (a, b, t) = (ExportItem::Plot(1), ExportItem::Plot(2), ExportItem::Tank(7));
    let visible = vec![a, t, b];
    let mut dialog = ExportDialog::default();
    dialog.select(b, true);
    dialog.select(a, true);
    assert_eq!(dialog.ordered_selection(&visible), vec![a, b]);
    dialog.select(b, false);
    assert_eq!(dialog.ordered_selection(&visible), vec![a]);
    dialog.select_all(&visible);
    assert_eq!(dialog.ordered_selection(&visible), visible);
    assert_eq!(dialog.panels_per_file(), 3);
    dialog.settings.separate_files = true;
    assert_eq!(dialog.panels_per_file(), 1);
    assert!(dialog.ready((0, 1)) && !dialog.ready((1, 0)));
    assert!(dialog.count_note(3).contains('3'));
    assert!(dialog.size_note().contains("mm"));
    let said = dialog.wrote(2, "/tmp");
    assert!(said.contains('2') && said.contains("/tmp"), "{said}");
    dialog.failed("disk full");
    assert_eq!(dialog.error.as_deref(), Some("Export failed: disk full"));
    assert!(range_note((0, 5 * S)).is_ok());
    assert!(range_note((5 * S, 0)).is_err());
}

/// A sensor corrected in a graph is corrected in the figure of it -- and the figure says so,
/// because whoever reads the report was not there when the correction was typed in.
#[test]
fn a_calibration_offset_moves_the_axis_and_is_named_in_the_legend() {
    let project = project();
    let (mut plots, ids) = two_plots(&project);
    let settings = ExportSettings::default();
    let tanks = Tanks::default();
    let raw = figure_of(&project, &plots, &tanks, vec![ids[0]], &settings);
    let raw_axis = values(graph_in(&raw, 0).left);
    let raw_right = graph_in(&raw, 0).right;

    let ExportItem::Plot(id) = ids[0] else { panic!("not a graph") };
    plots.get_mut(id).unwrap().entries[0].value_offset = d(10.0);
    let corrected = figure_of(&project, &plots, &tanks, vec![ids[0]], &settings);
    let graph = graph_in(&corrected, 0);
    // The left axis is the pressure's; it moves with the correction, and the thrust on the right
    // axis does not.
    let left = values(graph.left);
    assert!((left.0 - raw_axis.0 - 10.0).abs() < 1e-9, "{left:?} vs {raw_axis:?}");
    assert!((left.1 - raw_axis.1 - 10.0).abs() < 1e-9, "{left:?} vs {raw_axis:?}");
    assert_eq!(graph.right, raw_right);

    let pressure = &graph.series[0];
    assert!(pressure.label.ends_with("(+10 bar)"), "{}", pressure.label);
    assert!(pressure.points.iter().all(|p| v(p.1) > 34.0), "every sample moved up");
    let before = &graph_in(&raw, 0).series[0];
    assert_eq!(pressure.points.len(), before.points.len());
    for (moved, at) in pressure.points.iter().zip(&before.points) {
        assert_eq!((moved.0, v(moved.1)), (at.0, v(at.1) + 10.0));
    }
    assert_eq!(graph.series[1].label, "THRUST.force (R)", "not corrected, not named");
}

#[test]
fn the_figure_carries_the_series_and_its_unit() {
    let mut project = Project::new();
    log(
        &mut project,
        vec![TimeSeries::from_points(
            "PV[1].pressure",
            points(200, 100_000, |i| (i * 0.05).sin() * 10.0 + 40.0),
        )
        .with_unit(Some("bar".to_string()))],
    );
    let mut plots = Plots::default();
    let source = project.sources[0].id;
    let id = plots.create(source, "PV[1].pressure".to_string());
    plots.add(id, source, "PV[1].pressure".to_string(), PlotAxis::Left);
    let figure = build_figure(
        &project,
        &plots,
        &Tanks::default(),
        &vec![ExportItem::Plot(id)],
        (0, 20 * S),
        None,
        &ExportSettings::default(),
        WIDTH,
        &sum,
        &signed,
    );
    assert_eq!(figure.panels.len(), 1);
    let graph = graph_in(&figure, 0);
    assert_eq!(graph.series.len(), 1);
    assert_eq!(graph.left_label, "bar");
    assert!(graph.right.is_none());
    assert!(!graph.series[0].points.is_empty());
    // The axis covers the data; headroom comes on top.
    let left = values(graph.left);
    assert!(left.0 < 30.1 && left.1 > 49.9, "{left:?}");
}

/// Every one of these reaches a division or a loop bound downstream.
#[test]
fn degenerate_ranges_produce_no_ticks_rather_than_a_hang() {
    // No values to divide, or no height to divide them over.
    assert!(!is_drawable_values((d(5.0), d(5.0))));
    assert!(!is_drawable_values((d(f64::NAN), d(1.0))));
    assert!(!is_drawable_values((d(0.0), d(f64::INFINITY))));
    assert!(is_drawable_values((d(0.0), d(1.0))));
    assert_eq!(ticks_wanted(0, 30_00), None);
    assert_eq!(ticks_wanted(300_00, 30_00), Some(10));
    assert!(time_ticks((10 * S, 0), 5).at.is_empty());
    assert_eq!(time_ticks((10 * S, 0), 5).step, 1_000_000);
    assert!(time_ticks((i64::MIN, i64::MAX), 5).at.len() <= 500);
    assert!(time_ticks((5, 5), 5).at.is_empty());
}

#[test]
fn time_ticks_sit_on_the_clock() {
    // A five-minute window.
    let ticks = time_ticks((1_786_000_000 * S, 1_786_000_300 * S), 10);
    assert!(ticks.at.len() >= 4, "{:?}", ticks.at.len());
    assert!(
        ticks.at.iter().all(|t| *t as i128 % ticks.step == 0),
        "every tick is a whole number of steps"
    );
    assert_eq!(ticks.step, 30 * S as i128);
}

#[test]
fn the_date_says_when_the_window_crossed_midnight() {
    let one_day = 86_400 * S;
    assert_eq!(range_dates((0, 3600 * S)), "1970-01-01 (UTC)");
    assert_eq!(range_dates((0, one_day + 10 * S)), "1970-01-01 to 1970-01-02 (UTC)");
    assert_eq!(dates("a", "a"), "a (UTC)");
}

#[test]
fn lines_are_broken_where_nothing_was_measured() {
    let nan = d(f64::NAN);
    let pts = vec![(0, d(1.0)), (1, d(2.0)), (2, nan), (3, d(3.0)), (4, d(4.0))];
    assert_eq!(line_runs(&pts), vec![(0, 2), (3, 5)]);
    let field = Field { cols: 2, cells: vec![None; 2 * TANK_SENSORS] };
    assert!(shaded_runs(&field, 1).is_empty());
    let (red, blue) = (Rgb { r: 255, g: 0, b: 0 }, Rgb { r: 0, g: 0, b: 255 });
    assert_eq!(
        stripes(&vec![Some(red), Some(red), None, Some(blue)]),
        vec![(0, 2, red), (3, 4, blue)]
    );
}

#[test]
fn a_stack_shares_its_sides_and_leaves_room_for_its_legends() {
    let m = Metrics::new(1_000, 1_200, 1_500, 4_000, true);
    assert_eq!(margin(&m, &vec![]), 2_170, "half a time label");
    assert_eq!(margin(&m, &vec![1_000, 5_000, 3_000]), 5_000);
    assert_eq!(legend_below_height(&m, 0), Some(0));
    assert_eq!(legend_below_height(&m, 2), Some(2_700));
    assert_eq!(legend_below_height(&m, 10_000_000), None);

    let page = content(60_000, 68_000, 1_000).unwrap();
    let plots = stack(&page, (6_000, 57_000), &m, &vec![2_700, 0]).unwrap();
    assert_eq!(
        plots,
        vec![
            Frame { left: 6_000, top: 2_900, right: 57_000, bottom: 29_250 },
            Frame { left: 6_000, top: 34_850, right: 57_000, bottom: 63_900 },
        ]
    );
    assert_eq!(stack(&page, (6_000, 57_000), &m, &vec![]), Some(vec![]));
    assert!(stack(&page, (6_000, 57_000), &m, &vec![0; 1_000_000]).is_none());
}

#[test]
fn panels_are_stacked_inside_the_page() {
    let m = Metrics::new(1_000, 1_200, 1_500, 4_000, true);
    let page = content(60_000, 68_000, 1_000).unwrap();
    assert_eq!((page.left, page.top, page.right, page.bottom), (1_000, 1_000, 59_000, 67_000));
    assert!(content(1_000, 1_000, 600).is_none());
    let h = panel_height(&page, &m, 2);
    let sides = plot_sides(&page, m.axis_margin(3_000, true), 1_000, m.gap).unwrap();
    let first = plot_rect(&page, sides, &m, h, 0, 0);
    let second = plot_rect(&page, sides, &m, h, 1, 0);
    assert!(page.top <= first.top && first.bottom < second.top && second.bottom <= page.bottom);
    assert_eq!((first.left, first.right), (second.left, second.right));
    // A page too narrow for a plot has none.
    let slip = Frame { left: 0, top: 0, right: 2_000, bottom: 68_000 };
    assert!(plot_sides(&slip, 500, 500, 100).is_none());
    // A legend that fits is put into the corner asked for.
    let boxed = legend_inside(&first, &m, 8_000, 2, true).unwrap();
    assert!(boxed.left > i64::from(first.left) && boxed.right <= i64::from(first.right));
    assert!(boxed.bottom <= i64::from(first.bottom));
    assert!(legend_inside(&first, &m, 80_000, 2, true).is_none());
    // Entries wrap where the row is full.
    assert_eq!(legend_rows(&vec![400, 400, 400], 50, 1_000), vec![(0, 2), (2, 3)]);
}

#[test]
fn settings_pick_the_palette() {
    let settings = ExportSettings::default();
    assert_eq!(settings.format, ExportFormat::Svg);
    assert!(settings.style().palette.bg.is_some());
    let dark = ExportSettings { theme: ExportTheme::Dark, transparent: true, ..settings };
    assert!(dark.style().palette.bg.is_none());
    assert_ne!(dark.style().palette.text, settings.style().palette.text);
    assert_eq!(ExportFormat::Png.extension(), "png");
    assert!(!LegendPos::Below.label().is_empty());
    let mut plots = Plots::default();
    let id = plots.create(0, "a.b".to_string());
    assert_eq!(ExportItem::Plot(id).title(&plots, &Tanks::default()), "a.b");
}

#[test]
fn a_preview_is_as_large_as_it_may_be() {
    assert_eq!(preview_scale((60_000, 30_000)), (42_000, 60_000), "as wide as it may be");
    assert_eq!(preview_scale((60_000, 90_000)), (50_000, 90_000), "as high as it may be");
    assert_eq!(preview_scale((0, 0)), (42_000, 100));
}

#[test]
fn the_preview_is_only_redrawn_when_something_changed() {
    let mut project = project();
    let mut plots = Plots::default();
    let source = project.sources[0].id;
    let id = plots.create(source, "PV[1].pressure".to_string());
    let tanks = Tanks::default();
    let visible = vec![ExportItem::Plot(id)];
    let mut dialog = ExportDialog::default();
    dialog.open(&visible);

    let key = dialog.preview_key(&project, &plots, &tanks, &visible, (0, 20 * S), 0);
    let again = dialog.preview_key(&project, &plots, &tanks, &visible, (0, 20 * S), 0);
    assert!(key.same_as(&again), "nothing changed");
    let window = dialog.preview_key(&project, &plots, &tanks, &visible, (0, 10 * S), 0);
    assert!(!key.same_as(&window), "a different window");
    let moved = dialog.preview_key(&project, &plots, &tanks, &visible, (0, 20 * S), S);
    assert!(!key.same_as(&moved), "a different playhead");
    dialog.settings.font_pt += 100;
    let setting = dialog.preview_key(&project, &plots, &tanks, &visible, (0, 20 * S), 0);
    assert!(!key.same_as(&setting), "a different setting");
    dialog.settings.font_pt -= 100;

    // A series can move, grow or change its axis without any setting changing.
    project.sources[0].offset = S;
    let offset = dialog.preview_key(&project, &plots, &tanks, &visible, (0, 20 * S), 0);
    assert!(!key.same_as(&offset), "a different offset");
    project.sources[0].offset = 0;
    plots.list[0].flip(0);
    let axis = dialog.preview_key(&project, &plots, &tanks, &visible, (0, 20 * S), 0);
    assert!(!key.same_as(&axis), "a different axis");
    plots.list[0].flip(0);
    plots.list[0].y_manual = Some((d(0.0), d(1.0)));
    let pinned = dialog.preview_key(&project, &plots, &tanks, &visible, (0, 20 * S), 0);
    assert!(!key.same_as(&pinned), "a different range");
    plots.list[0].reset_range();
    let back = dialog.preview_key(&project, &plots, &tanks, &visible, (0, 20 * S), 0);
    assert!(key.same_as(&back), "back where it was");
}

#[test]
fn a_preview_of_a_tank_follows_its_settings() {
    let project = project_with_a_tank();
    let plots = Plots::default();
    let mut tanks = Tanks::default();
    let id = tanks.create(&project);
    let visible = vec![ExportItem::Tank(id)];
    let mut dialog = ExportDialog::default();
    dialog.open(&visible);
    let key = dialog.preview_key(&project, &plots, &tanks, &visible, (0, 20 * S), 0);
    assert_eq!(key.series.len(), TANK_SENSORS);
    tanks.list[0].hi_c += 1000;
    let warmer = dialog.preview_key(&project, &plots, &tanks, &visible, (0, 20 * S), 0);
    assert!(!key.same_as(&warmer));
}
