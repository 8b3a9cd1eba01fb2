use rapid_analyzer::can::CanFrames;
use rapid_analyzer::double::Double;
use rapid_analyzer::model::{AudioSource, LogFormat, LogSource, SourceKind, VideoSource};
use rapid_analyzer::import::start_time::StartTimeSource;
use rapid_analyzer::media_view::tab_title;
use rapid_analyzer::panes::{Pane, PlotAxis};
use rapid_analyzer::series::TimeSeries;
use rapid_analyzer::vapor::SeriesRef;
use rapid_analyzer::workspace::{add_series, PendingAction, TimelineChange, Workspace};

const S: i64 = 1_000_000;

fn d(v: f64) -> Double {
    Double { bits: v.to_bits() }
}

fn series(name: &str, from: i64, to: i64) -> TimeSeries {
    TimeSeries::from_points(name, vec![(from, d(0.0)), (to, d(1.0))])
}

fn log(names: &[&str], from: i64, to: i64) -> SourceKind {
    SourceKind::Log(LogSource {
        series: names.iter().map(|n| series(n, from, to)).collect(),
        format: LogFormat::Tlog,
        can: CanFrames::default(),
    })
}

fn video(start: i64, duration: i64) -> SourceKind {
    SourceKind::Video(VideoSource {
        duration,
        fps: d(25.0),
        width: 640,
        height: 480,
        start_utc: start,
        start_utc_source: StartTimeSource::Metadata,
    })
}

fn audio(start: i64, duration: i64) -> SourceKind {
    SourceKind::Audio(AudioSource {
        duration,
        start_utc: start,
        start_utc_source: StartTimeSource::FileName,
        waveform_peaks: vec![],
    })
}

fn names(list: &[TimeSeries]) -> Vec<&str> {
    list.iter().map(|s| s.name.as_str()).collect()
}

#[test]
fn the_first_source_sets_the_timeline_and_later_ones_widen_it() {
    let mut w = Workspace::new();
    let first = w.add_source("/x/run.tlog", "run.tlog", log(&["a"], 0, 10 * S));
    assert_eq!(first, TimelineChange::Reset(0, 10 * S));
    let second = w.add_source("/x/v.mp4", "v.mp4", video(5 * S, 20 * S));
    assert_eq!(second, TimelineChange::Widen(0, 25 * S));
    // A recording opens in a pane of its own; a log waits to be asked for.
    let id = w.project.sources[1].id;
    assert_eq!(w.panes, vec![Pane::Video(id)]);
    assert!(w.status.is_some());
}

#[test]
fn panes_come_and_go() {
    let mut w = Workspace::new();
    w.add_source("run.tlog", "run.tlog", log(&["a", "b"], 0, 10 * S));
    let source = w.project.sources[0].id;
    let plot = w.new_plot(source, "a");
    assert_eq!(w.panes, vec![Pane::Plot(plot)]);
    assert_eq!(
        w.apply(PendingAction::AddToPlot(plot, source, "b".to_string(), PlotAxis::Right)),
        TimelineChange::Keep
    );
    assert_eq!(w.plots.get(plot).unwrap().entries.len(), 2);
    w.apply(PendingAction::NewVaporPane);
    w.apply(PendingAction::NewTankPane);
    assert_eq!(w.panes.len(), 3);
    assert_eq!(
        tab_title(&w.project, &w.plots, &w.vapors, &w.tanks, Pane::Plot(plot)),
        "a / b"
    );
    // Hiding every series of a graph closes it.
    w.hide_series(source, "a");
    assert_eq!(w.panes.len(), 3);
    w.hide_series(source, "b");
    assert!(!w.panes.contains(&Pane::Plot(plot)));
    // A pane is there only once.
    let vapor = w.panes[0];
    w.add_pane(vapor);
    assert_eq!(w.panes.len(), 2);
    w.remove_pane(vapor);
    assert!(!w.panes.contains(&vapor));
}

#[test]
fn a_removed_source_is_shown_nowhere() {
    let mut w = Workspace::new();
    w.add_source("run.tlog", "run.tlog", log(&["a"], 0, 10 * S));
    w.add_source("a.mp3", "a.mp3", audio(0, 4 * S));
    let (run, song) = (w.project.sources[0].id, w.project.sources[1].id);
    w.new_plot(run, "a");
    assert_eq!(w.remove_source(run), TimelineChange::Clamp(0, 4 * S));
    assert_eq!(w.panes, vec![Pane::Audio(song)]);
    assert!(w.plots.list.is_empty());
    assert_eq!(w.remove_source(song), TimelineChange::Blank);
    assert!(w.panes.is_empty() && w.project.sources.is_empty());
}

#[test]
fn a_signal_added_twice_is_replaced_in_place() {
    let list = add_series(vec![series("b", 0, 1), series("d", 0, 1)], series("c", 0, 1));
    assert_eq!(names(&list), ["b", "c", "d"]);
    let list = add_series(list, series("c", 5, 9));
    assert_eq!(names(&list), ["b", "c", "d"]);
    assert_eq!(list[1].time_bounds(), Some((5, 9)));
    // Those of one name stay as they stood.
    let list = vec![series("d", 3, 4), series("b", 0, 1), series("b", 1, 2)];
    let list = add_series(list, series("c", 0, 1));
    let spans: Vec<_> = list.iter().map(|s| s.time_bounds().unwrap()).collect();
    assert_eq!(names(&list), ["b", "b", "c", "d"]);
    assert_eq!(spans, [(0, 1), (1, 2), (0, 1), (3, 4)]);

    let mut w = Workspace::new();
    w.add_source("run.tlog", "run.tlog", log(&["b"], 0, 10 * S));
    w.add_source("v.mp4", "v.mp4", video(0, S));
    let (run, clip) = (w.project.sources[0].id, w.project.sources[1].id);
    assert!(w.add_series(run, series("a", 0, 1)));
    let SourceKind::Log(log) = &w.project.sources[0].kind else {
        panic!("still a log");
    };
    assert_eq!(names(&log.series), ["a", "b"]);
    // A recording has no series, and neither has what is not there.
    assert!(!w.add_series(clip, series("a", 0, 1)));
    assert!(!w.add_series(99, series("a", 0, 1)));
}

/// A request does what it says to what it names, and nothing else.
#[test]
fn requests_are_obeyed() {
    let mut w = Workspace::new();
    w.add_source("/x/run.tlog", "run.tlog", log(&["a", "b"], 0, 10 * S));
    let id = w.project.sources[0].id;
    w.apply(PendingAction::NewPlot(id, "a".to_string()));
    w.apply(PendingAction::NewPlot(id, "a".to_string()));
    let (first, second) = (w.plots.list[0].id, w.plots.list[1].id);
    assert_eq!(w.plots.list[1].entries[0].axis, PlotAxis::Left);

    w.apply(PendingAction::AddToPlot(second, id, "b".to_string(), PlotAxis::Right));
    assert_eq!(w.plots.list[0].entries.len(), 1);
    assert_eq!(w.plots.list[1].entries[1].axis, PlotAxis::Right);
    assert_eq!(w.plots.list[1].entries[1].series, "b");

    // Hiding a series closes the graphs that leaves empty, and no other pane.
    w.apply(PendingAction::HideSeries(id, "a".to_string()));
    assert_eq!(w.panes, vec![Pane::Plot(second)]);
    assert!(w.plots.get(first).is_none());
    assert_eq!(w.plots.list[0].entries.len(), 1);

    w.apply(PendingAction::NewVaporPane);
    w.apply(PendingAction::NewTankPane);
    assert_eq!(w.panes.len(), 3);
    w.vapors.list[0].temperature =
        Some(SeriesRef { source: id, series: "a".to_string() });
    w.tanks.list[0].sensors[4] = Some(SeriesRef { source: id, series: "b".to_string() });

    // The panes that were pointed at a source outlive it, and forget it.
    w.apply(PendingAction::RemoveSource(id));
    assert!(w.vapors.list[0].temperature.is_none());
    assert!(w.tanks.list[0].sensors.iter().all(Option::is_none));
    assert_eq!(w.panes.len(), 2);
    let tank = w.tanks.list[0].id;
    w.apply(PendingAction::RemovePane(Pane::Tank(tank)));
    assert!(w.tanks.list.is_empty());
    assert_eq!(w.vapors.list.len(), 1);
}
