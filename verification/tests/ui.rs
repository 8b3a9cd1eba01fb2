use rapid_analyzer::can::{CanFrame, CanFrames, FieldKind, RawValue, SignalSpec};
use rapid_analyzer::can_builder::CanBuilder;
use rapid_analyzer::colors::Rgb;
use rapid_analyzer::correction::correct_all;
use rapid_analyzer::double::Double;
use rapid_analyzer::export::dialog::ExportDialog;
use rapid_analyzer::export::figure::{build_figure, Content, Figure};
use rapid_analyzer::export::{mm_to_units, ExportItem, ExportSettings};
use rapid_analyzer::model::{LogFormat, LogSource, Project, Source, SourceKind};
use rapid_analyzer::panes::{PlotAxis, Plots};
use rapid_analyzer::plot_view::{
    axes, drawing, prepare, Drawing, Fit, PreparedSeries, Viewport, TARGET_PLOT_POINTS,
};
use rapid_analyzer::series::{Reading, TimeSeries};
use rapid_analyzer::tank::{column_count, heat_mesh, layout, Area, Tanks, TANK_SENSORS};
use rapid_analyzer::timeline::{Timeline, Transport};
use rapid_analyzer::vapor::{Problem, VaporMode, Vapors};

const S: i64 = 1_000_000;

fn d(v: f64) -> Double {
    Double { bits: v.to_bits() }
}

fn figure_of(
    project: &Project,
    plots: &Plots,
    tanks: &Tanks,
    ids: &Vec<ExportItem>,
    range: (i64, i64),
    cursor: Option<i64>,
    settings: &ExportSettings,
    width: u64,
) -> Figure {
    let sum = |a: Double, b: Double| d(f64::from_bits(a.bits) + f64::from_bits(b.bits));
    let signed = |v: Double| format!("{:+}", f64::from_bits(v.bits));
    build_figure(project, plots, tanks, ids, range, cursor, settings, width, &sum, &signed)
}

fn series(name: &str, unit: &str, points: Vec<(f64, f64)>) -> TimeSeries {
    let points = points.into_iter().map(|(t, v)| ((t * 1e6).round() as i64, d(v))).collect();
    TimeSeries::from_points(name, points).with_unit(Some(unit.to_string()))
}

fn project_of(name: &str, series: Vec<TimeSeries>, can: CanFrames) -> Project {
    let mut project = Project::new();
    let id = project.alloc_id();
    project.sources.push(Source {
        id,
        name: name.to_string(),
        path: name.to_string(),
        offset: 0,
        color: Rgb { r: 255, g: 255, b: 255 },
        enabled: true,
        kind: SourceKind::Log(LogSource { series, format: LogFormat::Tlog, can }),
    });
    project
}

/// Two series on wildly different scales: a pressure in bar, and a thrust in newtons that would
/// flatten it on a shared axis.
fn project_with_two_scales() -> Project {
    let at = |i: i32| f64::from(i) * 0.1;
    let pressure = (0..500).map(|i| (at(i), 40.0 + (f64::from(i) * 0.01).sin() * 5.0)).collect();
    let thrust = (0..500).map(|i| (at(i), (f64::from(i) * 0.02).cos() * 7500.0)).collect();
    let list = vec![
        series("PRESSURE_VESSEL[1].pressure1", "bar", pressure),
        series("THRUST.force", "N", thrust),
    ];
    project_of("run.tlog", list, can_frames())
}

fn can_frames() -> CanFrames {
    let mut frames = CanFrames::default();
    for i in 0..200u32 {
        let t_utc = i64::from(i) * S / 10;
        // A frame of node 5, and one of a node that the protocol knows nothing about.
        let data = [0x00, 0x80, 0x98, 0x08, 0x00, 0x00, 0xD0, 0x07];
        frames.push(CanFrame { t_utc, id: 0x245, bus: 1, len: 8, data });
        let data = [i as u8, (i >> 8) as u8, 0, 0, 0, 0, 0, 0];
        frames.push(CanFrame { t_utc, id: 0x18A, bus: 1, len: 8, data });
    }
    frames
}

/// A tank whose pressure is walked down through its own vapour pressure, and which is then warmed
/// past the critical temperature.
fn project_with_a_nitrous_tank() -> Project {
    let at = |i: i32| f64::from(i) * 0.5;
    let warm = |t: f64| if t < 250.0 { 20.0 } else { 20.0 + (t - 250.0) * 0.5 };
    let bar = |t: f64| if t < 250.0 { 60.0 - t * 0.08 } else { 70.0 };
    let pressure = (0..600).map(|i| (at(i), bar(at(i)))).collect();
    let temperature = (0..600).map(|i| (at(i), warm(at(i)))).collect();
    let list = vec![
        series("PRESSURE_VESSEL[1].pressure1", "bar", pressure),
        series("PRESSURE_VESSEL[1].temperature1", "°C", temperature),
    ];
    project_of("tank.tlog", list, CanFrames::default())
}

/// Ten sensors off one IO board. Sensor 4 is dead, and sensor 7 drops out half way through.
fn project_with_a_tank_wall() -> Project {
    let mut list = Vec::new();
    for sensor in (0..TANK_SENSORS).filter(|s| *s != 4) {
        let points = (0..400)
            .map(|i| f64::from(i) * 0.5)
            .filter(|t| !(sensor == 7 && *t > 100.0))
            .map(|t| (t, -15.0 + sensor as f64 * 6.0 + t * 0.02))
            .collect();
        list.push(series(&format!("CAN_SENSOR[6].slot{sensor}"), "°C", points));
    }
    project_of("tank.tlog", list, CanFrames::default())
}

fn shown(project: &Project, plots: &Plots, id: u64, t: &Timeline) -> Vec<PreparedSeries> {
    let view = Viewport {
        start: t.view_start,
        end: t.view_end,
        cursor: t.cursor,
        points: TARGET_PLOT_POINTS,
    };
    prepare(project, plots.get(id).unwrap(), view)
}

#[test]
fn a_graph_with_a_series_on_each_axis_draws() {
    let project = project_with_two_scales();
    let source = project.sources[0].id;
    let mut plots = Plots::default();
    let id = plots.create(source, "PRESSURE_VESSEL[1].pressure1".to_string());
    plots.add(id, source, "THRUST.force".to_string(), PlotAxis::Right);
    let timeline = Timeline::new(project.time_bounds().unwrap());
    let prepared = shown(&project, &plots, id, &timeline);
    let a = axes(&prepared, false, None);
    assert!(a.has_right);
    assert_eq!((a.left_label.as_str(), a.right_label.as_str()), ("bar", "N"));
    assert_eq!(drawing(&prepared[0], false), Drawing::AsIs);
    assert_eq!(drawing(&prepared[1], false), Drawing::Mapped);

    // What a box zoom leaves behind is what is shown.
    plots.get_mut(id).unwrap().y_manual = Some((d(39.0), d(41.0)));
    let manual = plots.get(id).unwrap().y_manual;
    assert_eq!(axes(&prepared, false, manual).shown, Fit::Manual(d(39.0), d(41.0)));
}

#[test]
fn a_graph_draws_with_everything_on_the_right_axis() {
    let project = project_with_two_scales();
    let source = project.sources[0].id;
    let mut plots = Plots::default();
    let id = plots.create(source, "THRUST.force".to_string());
    plots.get_mut(id).unwrap().entries[0].axis = PlotAxis::Right;
    let timeline = Timeline::new(project.time_bounds().unwrap());
    let prepared = shown(&project, &plots, id, &timeline);
    let a = axes(&prepared, false, None);
    assert_eq!(a.auto_fit, a.right, "with nothing on the left, the right one is the coordinates");
}

#[test]
fn a_graph_whose_window_holds_no_samples_still_draws() {
    let project = project_with_two_scales();
    let source = project.sources[0].id;
    let mut plots = Plots::default();
    let id = plots.create(source, "PRESSURE_VESSEL[1].pressure1".to_string());
    plots.add(id, source, "THRUST.force".to_string(), PlotAxis::Right);
    let mut timeline = Timeline::new((0, 50 * S));
    timeline.set_view(1_000_000 * S, 1_000_010 * S);
    let prepared = shown(&project, &plots, id, &timeline);
    // What is left is the sample beside the window, and a flat range around it.
    assert!(prepared.iter().all(|p| p.points.len() == 1));
    assert!(matches!(axes(&prepared, false, None).shown, Fit::Values(lo, hi) if lo == hi));
    assert!(prepared.iter().all(|p| drawing(p, true) == Drawing::Middle));
}

#[test]
fn a_graph_naming_a_series_that_is_gone_draws_a_message_rather_than_panicking() {
    let project = project_with_two_scales();
    let mut plots = Plots::default();
    let id = plots.create(project.sources[0].id, "NOT_IMPORTED.field".to_string());
    let prepared = shown(&project, &plots, id, &Timeline::new((0, 50 * S)));
    assert!(prepared.is_empty());
    assert_eq!(axes(&prepared, false, None).shown, Fit::Unit);
}

#[test]
fn the_timeline_bar_draws_in_both_zoom_modes() {
    let project = project_with_two_scales();
    let bounds = project.time_bounds();
    let mut timeline = Timeline::new(bounds.unwrap());
    for box_zoom in [true, false] {
        assert!(!timeline.transport(Transport::BoxZoom, bounds));
        assert_eq!(timeline.box_zoom, box_zoom);
    }
    // With nothing loaded there is no range to jump in.
    assert!(!timeline.transport(Transport::JumpToEnd, None));
}

#[test]
fn the_can_signal_picker_draws_and_previews_a_signal() {
    let project = project_with_two_scales();
    let SourceKind::Log(log) = &project.sources[0].kind else {
        panic!("log source");
    };
    let builder = CanBuilder::new(project.sources[0].id, &log.can);
    assert_eq!(builder.source(), project.sources[0].id);
    assert_eq!(builder.identifiers.len(), 2);
    assert_eq!(log.can.extract(&builder.spec).points.len(), 200);
}

#[test]
fn a_hand_specified_signal_becomes_a_plottable_series() {
    let project = project_with_two_scales();
    let SourceKind::Log(log) = &project.sources[0].kind else {
        panic!("log source");
    };
    // The unknown identifier, read as a little-endian counter and scaled to kilo-counts.
    let spec = SignalSpec {
        id: 0x18A,
        offset: 0,
        kind: FieldKind::U16,
        scale: d(0.001),
        unit: "k".to_string(),
        name: "counter".to_string(),
        ..Default::default()
    };
    let field = log.can.extract(&spec);
    let scaled = |raw: RawValue| match raw {
        RawValue::Int(n) => n as f64 * f64::from_bits(spec.scale.bits),
        RawValue::Float(_) => panic!("a counter is no float"),
    };
    let points = field.points.iter().map(|(t, raw)| (*t, d(scaled(*raw)))).collect();
    let series = TimeSeries::from_points(&field.name, points).with_unit(field.unit.clone());
    assert_eq!(series.name, "counter");
    assert_eq!(series.len(), 200);
    assert_eq!(series.unit.as_deref(), Some("k"));
    let value = |t: i64| match series.value_at(t, 0).unwrap() {
        Reading::Held(v) => f64::from_bits(v.bits),
        Reading::Between { before, after, at, of } => {
            let (a, b) = (f64::from_bits(before.bits), f64::from_bits(after.bits));
            a + (b - a) * (at as f64 / of as f64)
        }
    };
    assert_eq!(value(0), 0.0);
    assert!((value(19_900_000) - 0.199).abs() < 1e-9);
}

#[test]
fn the_phase_pane_draws_a_run_through_every_zone() {
    let project = project_with_a_nitrous_tank();
    let mut vapors = Vapors::default();
    let id = vapors.create(&project);
    let spec = vapors.get(id).expect("the pane exists");
    assert_eq!(
        spec.temperature.as_ref().map(|r| r.series.as_str()),
        Some("PRESSURE_VESSEL[1].temperature1")
    );
    assert_eq!(
        spec.pressure.as_ref().map(|r| r.series.as_str()),
        Some("PRESSURE_VESSEL[1].pressure1")
    );
    assert!(spec.readings_at(&project, 120 * S).is_some());
    assert!(!spec.prepare(&project, (0, 300 * S)).unwrap().pairs.is_empty());
    vapors.get_mut(id).unwrap().mode = VaporMode::Curve;
    assert_eq!(vapors.get(id).unwrap().mode, VaporMode::Curve);
}

#[test]
fn the_phase_pane_draws_the_bare_curve_with_nothing_selected() {
    let project = Project::new();
    let mut vapors = Vapors::default();
    let id = vapors.create(&project);
    let spec = vapors.get(id).unwrap();
    assert!(spec.temperature.is_none() && spec.pressure.is_none());
    assert_eq!(spec.mode, VaporMode::Curve);
    assert_eq!(spec.prepare(&project, (0, S)).err(), Some(Problem::Unpicked));
}

#[test]
fn the_phase_pane_survives_a_window_with_no_overlapping_samples() {
    let project = project_with_a_nitrous_tank();
    let mut vapors = Vapors::default();
    let id = vapors.create(&project);
    let far = (1_000_000 * S, 1_000_010 * S);
    let prepared = vapors.get(id).unwrap().prepare(&project, far).unwrap();
    assert_eq!(prepared.pairs.len(), 1, "the sample beside the window");
}

#[test]
fn the_tank_pane_draws_a_stratified_wall() {
    let project = project_with_a_tank_wall();
    let mut tanks = Tanks::default();
    let id = tanks.create(&project);
    let spec = tanks.get(id).expect("the pane exists");
    assert_eq!(spec.picked(), TANK_SENSORS - 1, "the dead probe stays blank");
    assert!(spec.sensors[4].is_none());
    assert_eq!(spec.title(), "Tank · CAN_SENSOR[6].slot");
    let readings = spec.readings_at(&project, 120 * S);
    assert!(readings[0].is_some() && readings[4].is_none() && readings[7].is_none());
    assert!(!heat_mesh(&spec.sample(&project, (0, 90 * S), 40)).is_empty());

    tanks.get_mut(id).unwrap().blocks = true;
    tanks.get_mut(id).unwrap().open_sensor_pickers();
    assert!(tanks.get(id).unwrap().blocks && tanks.get(id).unwrap().sensors_open);
}

#[test]
fn the_tank_pane_draws_with_nothing_to_show() {
    let project = Project::new();
    let mut tanks = Tanks::default();
    let id = tanks.create(&project);
    assert_eq!(tanks.get(id).unwrap().picked(), 0);
    assert!(tanks.get(id).unwrap().sample(&project, (0, S), 2).is_empty());

    let project = project_with_a_tank_wall();
    let mut tanks = Tanks::default();
    let id = tanks.create(&project);
    let far = (1_000_000 * S, 1_000_010 * S);
    let field = tanks.get(id).unwrap().sample(&project, far, 40);
    assert!(field.is_empty() && heat_mesh(&field).is_empty());
}

#[test]
fn the_tank_pane_survives_every_pane_size() {
    let project = project_with_a_tank_wall();
    let mut tanks = Tanks::default();
    let id = tanks.create(&project);
    let mut drawn = 0;
    for (w, h) in [(1400, 900), (560, 380), (200, 120), (60, 400), (400, 40)] {
        let pane = Area { left: 0, top: 0, right: w * 1_000, bottom: h * 1_000 };
        let Some(found) = layout(pane) else {
            continue;
        };
        drawn += 1;
        let cols = column_count(found.body);
        let field = tanks.get(id).unwrap().sample(&project, (0, 120 * S), cols);
        assert_eq!(field.cols, cols);
        assert!(found.column_at(found.body.right, cols) == cols - 1);
        assert_eq!(found.sensor_at(found.body.top), TANK_SENSORS - 1);
    }
    assert_eq!(drawn, 2, "the others have no room for a wall");
}

#[test]
fn two_tank_panes_do_not_collide() {
    let project = project_with_a_tank_wall();
    let mut tanks = Tanks::default();
    let first = tanks.create(&project);
    let second = tanks.create(&project);
    assert_ne!(first, second);
    tanks.get_mut(first).unwrap().open_sensor_pickers();
    assert!(tanks.get(first).unwrap().sensors_open);
    assert!(!tanks.get(second).unwrap().sensors_open);
}

#[test]
fn the_export_window_draws_and_previews_the_figure() {
    let project = project_with_two_scales();
    let source = project.sources[0].id;
    let mut plots = Plots::default();
    let a = plots.create(source, "PRESSURE_VESSEL[1].pressure1".to_string());
    plots.add(a, source, "THRUST.force".to_string(), PlotAxis::Right);
    let b = plots.create(source, "THRUST.force".to_string());
    let items = vec![ExportItem::Plot(a), ExportItem::Plot(b)];
    let mut dialog = ExportDialog::default();
    dialog.open(&items);
    assert!(dialog.is_open());
    let ids = dialog.ordered_selection(&items);
    let range = project.time_bounds().unwrap();
    let width = mm_to_units(dialog.settings.width_mm);
    let tanks = Tanks::default();
    let cursor = Some(12 * S);
    let figure =
        figure_of(&project, &plots, &tanks, &ids, range, cursor, &dialog.settings, width);
    assert_eq!(figure.panels.len(), 2);

    // With the graphs closed under it there is nothing to export.
    dialog.retain_visible(&Vec::new());
    assert!(!dialog.ready(range));
}

#[test]
fn the_export_window_previews_a_tank_pane() {
    let mut project = project_with_a_tank_wall();
    let plots = Plots::default();
    let mut tanks = Tanks::default();
    let tank = tanks.create(&project);
    let items = vec![ExportItem::Tank(tank)];
    let mut dialog = ExportDialog::default();
    dialog.open(&items);
    let range = project.time_bounds().unwrap();
    let ids = dialog.ordered_selection(&items);
    let settings = dialog.settings;
    let width = mm_to_units(settings.width_mm);
    for blocks in [false, true] {
        tanks.get_mut(tank).unwrap().blocks = blocks;
        let figure = figure_of(&project, &plots, &tanks, &ids, range, None, &settings, width);
        let Content::Tank(drawn) = &figure.panels[0].content else {
            panic!("a tank pane exports a tank");
        };
        assert_eq!(drawn.blocks, blocks);
        assert!(!drawn.field.is_empty());
    }

    // With the log it was reading gone, there is a vessel with nothing in it.
    project.sources.clear();
    tanks.get_mut(tank).unwrap().forget_source(0);
    let figure = figure_of(&project, &plots, &tanks, &ids, range, None, &settings, width);
    let Content::Tank(drawn) = &figure.panels[0].content else {
        panic!("a tank pane exports a tank");
    };
    assert!(drawn.field.is_empty());
}

#[test]
fn the_export_window_survives_a_range_with_no_data_in_it() {
    let project = project_with_two_scales();
    let source = project.sources[0].id;
    let mut plots = Plots::default();
    let id = plots.create(source, "PRESSURE_VESSEL[1].pressure1".to_string());
    let mut timeline = Timeline::new((0, 50 * S));
    timeline.set_view(1_000_000 * S, 1_000_010 * S);
    let items = vec![ExportItem::Plot(id)];
    let mut dialog = ExportDialog::default();
    dialog.open(&items);
    let range = dialog.settings.resolve_range(&timeline, project.time_bounds()).unwrap();
    assert!(dialog.ready(range));
    let (tanks, settings) = (Tanks::default(), dialog.settings);
    let figure = figure_of(&project, &plots, &tanks, &items, range, None, &settings, 60_000);
    let Content::Graph(graph) = &figure.panels[0].content else {
        panic!("a graph exports a graph");
    };
    assert!(matches!(graph.left, Fit::Values(lo, hi) if lo == hi), "a flat line's range");
}

/// A graph with a miscalibrated sensor corrected in it: the line, its axis and its name all move
/// together, and the pane draws.
#[test]
fn a_graph_with_a_corrected_sensor_draws() {
    let project = project_with_two_scales();
    let source = project.sources[0].id;
    let mut plots = Plots::default();
    let id = plots.create(source, "PRESSURE_VESSEL[1].pressure1".to_string());
    plots.add(id, source, "THRUST.force".to_string(), PlotAxis::Right);
    plots.get_mut(id).unwrap().entries[0].value_offset = d(10.0);
    plots.get_mut(id).unwrap().entries[1].value_offset = d(-250.0);
    let mut timeline = Timeline::new(project.time_bounds().unwrap());
    timeline.cursor = 12 * S;

    let sum = |a: Double, b: Double| d(f64::from_bits(a.bits) + f64::from_bits(b.bits));
    let signed = |v: Double| format!("{:+}", f64::from_bits(v.bits));
    let raw = shown(&project, &plots, id, &timeline);
    let moved = correct_all(shown(&project, &plots, id, &timeline), &sum, &signed);
    assert_eq!(moved.len(), 2);
    assert!(moved[0].label.ends_with(" (+10 bar)"), "{}", moved[0].label);
    assert!(moved[1].label.ends_with(" (-250 N) (R)"), "{}", moved[1].label);
    for (m, r, by) in [(&moved[0], &raw[0], 10.0), (&moved[1], &raw[1], -250.0)] {
        let value = |v: Double| f64::from_bits(v.bits);
        let (lo, hi) = r.bounds.unwrap();
        assert_eq!(m.bounds, Some((d(value(lo) + by), d(value(hi) + by))));
        assert_eq!(m.value_offset, d(0.0));
        assert_eq!(value(m.points[0].1), value(r.points[0].1) + by);
        match (m.at_cursor.unwrap(), r.at_cursor.unwrap()) {
            (Reading::Held(a), Reading::Held(b)) => assert_eq!(value(a), value(b) + by),
            (
                Reading::Between { before: a, at, .. },
                Reading::Between { before: b, at: was, .. },
            ) => assert_eq!((value(a), at), (value(b) + by, was)),
            _ => panic!("the reading changed its kind"),
        }
    }
    // Once corrected there is nothing left to correct.
    let label = moved[0].label.clone();
    let again = correct_all(moved, &sum, &signed);
    assert_eq!(again[0].label, label);

    // ... and normalized, where the correction cancels out of the shape but must not divide by
    // anything different.
    for s in &again {
        let (lo, hi) = s.bounds.unwrap();
        assert_eq!(drawing(s, true), Drawing::Normalized(lo, hi));
    }
}
