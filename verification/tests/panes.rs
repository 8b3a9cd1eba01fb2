use rapid_analyzer::can::CanFrames;
use rapid_analyzer::colors::{color_for_index, Rgb};
use rapid_analyzer::double::Double;
use rapid_analyzer::model::{LogFormat, LogSource, Project, Source, SourceKind};
use rapid_analyzer::panes::{auto_title, short_label, PlotAxis, PlotEntry, Plots};
use rapid_analyzer::plot_view::{
    axes, axis_values, drawing, find_series, hovered, prepare, unit_label, Drawing, Fit, Viewport,
};
use rapid_analyzer::series::TimeSeries;

const WHITE: Rgb = Rgb { r: 255, g: 255, b: 255 };

fn d(v: f64) -> Double {
    Double { bits: v.to_bits() }
}

fn entries(names: &[&str]) -> Vec<PlotEntry> {
    names
        .iter()
        .map(|n| PlotEntry {
            source: 0,
            series: n.to_string(),
            color: WHITE,
            axis: PlotAxis::Left,
            value_offset: d(0.0),
        })
        .collect()
}

#[test]
fn titles_factor_out_what_the_series_share() {
    assert_eq!(
        auto_title(&entries(&["PRESSURE_VESSEL[1].pressure1", "PRESSURE_VESSEL[1].temperature1"])),
        "PRESSURE_VESSEL[1]: pressure1 / temperature1"
    );
    assert_eq!(auto_title(&entries(&["VALVE[MAIN].state"])), "VALVE[MAIN].state");
}

#[test]
fn titles_fall_back_to_the_full_names_when_nothing_is_shared() {
    assert_eq!(
        auto_title(&entries(&["VALVE[MAIN].state", "ATTITUDE.roll"])),
        "VALVE[MAIN].state / ATTITUDE.roll"
    );
}

#[test]
fn removing_the_last_series_reports_the_plot_as_empty() {
    let mut plots = Plots::default();
    let id = plots.create(0, "a".to_string());
    plots.add(id, 0, "b".to_string(), PlotAxis::Left);
    assert!(plots.remove_series(0, "a").is_empty());
    assert_eq!(plots.remove_series(0, "b"), vec![id]);
}

#[test]
fn a_series_is_only_added_once_per_plot() {
    let mut plots = Plots::default();
    let id = plots.create(0, "a".to_string());
    plots.add(id, 0, "a".to_string(), PlotAxis::Left);
    assert_eq!(plots.get(id).unwrap().entries.len(), 1);
    // ... but the same series in a second plot is fine.
    let other = plots.create(0, "a".to_string());
    assert!(plots.get(other).unwrap().contains(0, "a"));
}

#[test]
fn dropping_a_source_leaves_the_other_sources_series_alone() {
    let mut plots = Plots::default();
    let id = plots.create(0, "a".to_string());
    plots.add(id, 1, "a".to_string(), PlotAxis::Right);
    assert!(plots.remove_source(0).is_empty(), "the plot still has source 1's series");
    assert_eq!(plots.get(id).unwrap().entries.len(), 1);
    assert_eq!(plots.remove_source(1), vec![id]);
}

#[test]
fn series_are_coloured_in_turn() {
    let mut plots = Plots::default();
    let id = plots.create(0, "a".to_string());
    plots.add(id, 0, "b".to_string(), PlotAxis::Right);
    let plot = plots.get(id).unwrap();
    assert_eq!(plot.entries[0].color, color_for_index(0));
    assert_eq!(plot.entries[1].color, color_for_index(1));
    assert_eq!(plot.entries[1].value_offset, d(0.0));
    assert_eq!(color_for_index(8), color_for_index(0));
    assert!(plots.shows(0, "b") && !plots.shows(1, "b"));
}

#[test]
fn flipping_correcting_and_dropping_an_entry() {
    let mut plots = Plots::default();
    let id = plots.create(0, "a".to_string());
    plots.add(id, 0, "b".to_string(), PlotAxis::Left);
    let at = plots.find(id).unwrap();
    plots.list[at].y_manual = Some((d(0.0), d(1.0)));
    plots.list[at].flip(1);
    assert_eq!(plots.list[at].entries[1].axis, PlotAxis::Right);
    // A range picked before the flip would just clip what moved.
    assert_eq!(plots.list[at].y_manual, None);
    plots.list[at].correct(0, d(10.0));
    assert_eq!(plots.list[at].entries[0].value_offset, d(10.0));
    plots.list[at].adopt_range(Some((d(1.0), d(2.0))));
    assert_eq!(plots.list[at].y_manual, Some((d(1.0), d(2.0))));
    plots.clear_manual_ranges();
    assert_eq!(plots.list[at].y_manual, None);
    assert!(!plots.list[at].drop_entry(0));
    assert!(plots.list[at].drop_entry(0));
    plots.close(id);
    assert!(plots.get(id).is_none());
    assert_eq!(PlotAxis::Left.flipped(), PlotAxis::Right);
    assert!(PlotAxis::Left.label() != PlotAxis::Right.label());
}

#[test]
fn a_renamed_graph_keeps_its_name() {
    let mut plots = Plots::default();
    let id = plots.create(0, "a".to_string());
    let at = plots.find(id).unwrap();
    assert_eq!(plots.list[at].title(), "a");
    plots.list[at].custom_title = "Chamber".to_string();
    assert_eq!(plots.list[at].title(), "Chamber");
    assert_eq!(short_label("short"), "short");
}

fn project() -> Project {
    let mut project = Project::new();
    let id = project.alloc_id();
    let series = |name: &str, unit: &str, k: f64| {
        let points = (0..100).map(|i| (i * 1_000_000, d(k * i as f64))).collect();
        TimeSeries::from_points(name, points).with_unit(Some(unit.to_string()))
    };
    project.sources.push(Source {
        id,
        name: "run.tlog".to_string(),
        path: "run.tlog".to_string(),
        offset: 0,
        color: WHITE,
        enabled: true,
        kind: SourceKind::Log(LogSource {
            series: vec![series("p", "bar", 1.0), series("t", "°C", 10.0)],
            format: LogFormat::Tlog,
            can: CanFrames::default(),
        }),
    });
    project
}

fn view() -> Viewport {
    Viewport { start: 0, end: 99_000_000, cursor: 5_000_000, points: 2000 }
}

#[test]
fn a_graph_is_prepared_for_its_window() {
    let project = project();
    let mut plots = Plots::default();
    let id = plots.create(0, "p".to_string());
    plots.add(id, 0, "t".to_string(), PlotAxis::Right);
    plots.add(id, 0, "gone".to_string(), PlotAxis::Left);
    let prepared = prepare(&project, plots.get(id).unwrap(), view());
    // What leads nowhere is left out.
    assert_eq!(prepared.len(), 2);
    assert_eq!(prepared[1].label, "t (R)");
    assert_eq!(prepared[0].points.len(), 100);
    assert_eq!(prepared[0].bounds, Some((d(0.0), d(99.0))));
    assert_eq!(unit_label(&prepared, PlotAxis::Left), "bar");
    assert_eq!(axis_values(&prepared, PlotAxis::Right), Some((d(0.0), d(990.0))));
    assert_eq!(hovered(&prepared, "t (R)"), Some(1));
    assert_eq!(hovered(&prepared, "x"), None);
    let a = axes(&prepared, false, None);
    assert_eq!(a.auto_fit, Fit::Values(d(0.0), d(99.0)));
    assert_eq!((a.has_right, a.right_label.as_str()), (true, "°C"));
    assert_eq!(drawing(&prepared[0], false), Drawing::AsIs);
    assert_eq!(drawing(&prepared[1], false), Drawing::Mapped);
    assert_eq!(drawing(&prepared[1], true), Drawing::Normalized(d(0.0), d(990.0)));
    assert_eq!(axes(&prepared, true, None).auto_fit, Fit::Normalized);
    let manual = axes(&prepared, false, Some((d(1.0), d(2.0))));
    assert_eq!(manual.shown, Fit::Manual(d(1.0), d(2.0)));
    assert!(find_series(&project.sources[0], "t").is_some());
    assert!(find_series(&project.sources[0], "x").is_none());
}

#[test]
fn an_empty_graph_still_has_an_axis() {
    let a = axes(&vec![], false, None);
    assert_eq!((a.auto_fit, a.has_right), (Fit::Unit, false));
}

#[test]
fn a_graph_is_changed_in_place() {
    let mut plots = Plots::new();
    let a = plots.create(0, "PV[1].pressure".to_string());
    let b = plots.create(0, "PV[2].pressure".to_string());
    assert!(plots.get_mut(7).is_none());
    plots.get_mut(b).unwrap().normalize = true;
    assert!(!plots.get(a).unwrap().normalize);
    assert!(plots.get(b).unwrap().normalize);
}
