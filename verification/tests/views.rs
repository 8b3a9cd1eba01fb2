use rapid_analyzer::can::canopen::history::CanOpenLog;
use rapid_analyzer::can::canopen::log::NodeKey;
use rapid_analyzer::can::{CanFrame, CanFrames, FieldKind};
use rapid_analyzer::can_builder::{max_offset, samples_note, unit_suffix, CanBuilder};
use rapid_analyzer::canopen_inspector::{
    dropped_off, entry_text, filter_transfers, heartbeat_text, missing_text, nmt_text, node_label,
    object_key, row_at, sdo_row, sdo_text, tpdo_text, traffic, CanOpenInspector, SdoFilter, Tab,
};
use rapid_analyzer::double::Double;
use rapid_analyzer::import::start_time::StartTimeSource;
use rapid_analyzer::media_view::{
    lacks_a_codec, outline, place, should_play, start_note, visible_buckets, Place,
};
use rapid_analyzer::panes::Plots;
use rapid_analyzer::playback::{next_frame, AudioSync, FrameRequests};
use rapid_analyzer::series::TimeSeries;
use rapid_analyzer::shortcuts::{command, obey, Command, Key, Modifiers};
use rapid_analyzer::sidebar::{
    audio_box, frames_note, group_header, group_of, groups, import_failed, list_header, matching,
    row_hover, row_label, row_text, targets, video_box,
};
use rapid_analyzer::model::{AudioSource, VideoSource};
use rapid_analyzer::timeline::Timeline;

const S: i64 = 1_000_000;

const NONE: Modifiers = Modifiers { shift: false, alt: false, ctrl: false, command: false };

fn d(v: f64) -> Double {
    Double { bits: v.to_bits() }
}

fn named(name: &str) -> TimeSeries {
    TimeSeries::from_points(name, vec![])
}

fn frame(t: i64, id: u32, data: [u8; 8]) -> CanFrame {
    CanFrame { t_utc: t, id, bus: 1, len: 8, data }
}

fn frames(list: Vec<CanFrame>) -> CanFrames {
    CanFrames { all: list }
}

#[test]
fn the_sidebar_groups_series_by_message() {
    assert_eq!(group_of("CAN_HCO[5].out1").as_deref(), Some("CAN_HCO[5]"));
    assert_eq!(group_of("bare"), None);
    let list = vec![named("A.x"), named("A.y"), named("B.z"), named("bare")];
    let rows = matching(&list, "");
    assert_eq!(rows, vec![0, 1, 2, 3]);
    let found: Vec<(Option<String>, usize, usize)> =
        groups(&list, &rows).into_iter().map(|g| (g.name, g.from, g.to)).collect();
    assert_eq!(
        found,
        vec![
            (Some("A".to_string()), 0, 2),
            (Some("B".to_string()), 2, 3),
            (None, 3, 4),
        ]
    );
    // The filter is typed in lower case and finds whatever the case.
    assert_eq!(matching(&list, "a.y"), vec![1]);
    assert!(matching(&list, "nothing").is_empty());
    assert_eq!(row_label("A.x", &Some("A".to_string())), "x");
    assert_eq!(row_label("bare", &None), "bare");
    assert!(row_text("x", &Some("bar".to_string())).contains("bar"));
    assert!(row_hover(&list[0]).contains("A.x"));
    assert!(list_header(13).0.contains("13"));
    assert!(group_header("A", 2).contains('2'));
}

#[test]
fn a_series_is_offered_the_graphs_it_is_not_in() {
    let mut plots = Plots::default();
    plots.create(0, "a".to_string());
    plots.create(0, "b".to_string());
    assert_eq!(targets(&plots, 0, "a"), vec![1]);
    assert_eq!(targets(&plots, 7, "a"), vec![0, 1]);
}

#[test]
fn the_sidebar_describes_recordings() {
    let v = VideoSource {
        duration: 12_340_000,
        fps: d(25.0),
        width: 640,
        height: 480,
        start_utc: 0,
        start_utc_source: StartTimeSource::Metadata,
    };
    let text = video_box(&v, "25.00");
    assert!(text.contains("640") && text.contains("25.00") && text.contains("12.3s"), "{text}");
    let a = AudioSource {
        duration: 90 * S,
        start_utc: 0,
        start_utc_source: StartTimeSource::FileMtime,
        waveform_peaks: vec![],
    };
    assert!(audio_box(&a).contains("90.0s"), "{}", audio_box(&a));
    assert!(frames_note(12).contains("12"));
    assert!(import_failed("/x/y", "no such file").contains("no such file"));
}

#[test]
fn keys_drive_the_timeline() {
    assert_eq!(command(Key::Space, false, NONE), Some(Command::PlayPause));
    assert_eq!(command(Key::ArrowRight, true, NONE), Some(Command::Step(S)));
    assert_eq!(
        command(Key::ArrowLeft, false, Modifiers { shift: true, ..NONE }),
        Some(Command::Step(-10 * S))
    );
    assert_eq!(
        command(Key::ArrowRight, false, Modifiers { alt: true, ..NONE }),
        Some(Command::Step(100_000))
    );
    assert_eq!(command(Key::Home, false, NONE), Some(Command::JumpToStart));
    assert_eq!(command(Key::ArrowUp, false, NONE), Some(Command::Faster));
    assert_eq!(command(Key::Minus, false, NONE), Some(Command::ZoomOut));
    // Copying is not box zooming.
    assert_eq!(command(Key::B, false, Modifiers { ctrl: true, ..NONE }), None);
}

#[test]
fn a_recording_is_placed_on_the_timeline() {
    assert_eq!(place(-1, 10), Place::Before);
    assert_eq!(place(10, 10), Place::During);
    assert_eq!(place(11, 10), Place::After);
    assert!(should_play(true, 5, 10) && !should_play(true, 11, 10) && !should_play(false, 5, 10));
    assert_eq!(start_note(0, 0, StartTimeSource::Metadata), None);
    let note = start_note(0, 0, StartTimeSource::FileName).unwrap();
    assert!(note.contains("the file name"), "{note}");
    assert!(!lacks_a_codec("no such file"));
}

#[test]
fn a_waveform_is_cut_to_the_view() {
    let peaks = vec![(d(-1.0), d(1.0)), (d(-2.0), d(2.0)), (d(-3.0), d(3.0)), (d(-4.0), d(4.0))];
    assert_eq!(visible_buckets(0, 4 * S, 0, 4 * S, 4), (0, 4));
    assert_eq!(visible_buckets(-9 * S, -8 * S, 0, 4 * S, 4).0, 0);
    let line = outline(&peaks, 10 * S, 4 * S, 1, 3);
    assert_eq!(
        line,
        vec![
            (11 * S, d(-2.0)),
            (11 * S, d(2.0)),
            (12 * S, d(-3.0)),
            (12 * S, d(3.0)),
        ]
    );
}

#[test]
fn sound_follows_the_playhead_without_stuttering() {
    let mut sync = AudioSync::new();
    let start = sync.sync(5 * S, true, 0);
    assert_eq!((start.seek, start.play), (Some(5 * S), Some(true)));
    // A little drift is left alone, a lot of it is not.
    assert_eq!(sync.sync(5 * S, true, 5 * S - 200_000).seek, None);
    assert_eq!(sync.sync(5 * S, true, 4 * S).seek, Some(5 * S));
    let stop = sync.sync(5 * S, false, 5 * S);
    assert_eq!(stop.play, Some(false));
    // Scrubbing while paused seeks.
    assert_eq!(sync.sync(7 * S, false, 5 * S).seek, Some(7 * S));
    assert_eq!(sync.sync(-3, false, 0).seek, Some(0));
}

#[test]
fn frames_are_asked_for_once_and_only_the_latest_is_decoded() {
    let mut requests = FrameRequests::new();
    assert!(requests.request(5 * S));
    assert!(!requests.request(5 * S));
    assert!(requests.request(6 * S));
    assert_eq!(next_frame(1, &vec![2, 3], None), Some(3));
    assert_eq!(next_frame(1, &vec![], None), Some(1));
    assert_eq!(next_frame(1, &vec![], Some(1)), None);
}

#[test]
fn the_signal_builder_keeps_its_field_inside_the_payload() {
    let log = frames(vec![frame(0, 0x243, [0; 8]), CanFrame { bus: 2, ..frame(0, 0x100, [0; 8]) }]);
    let mut builder = CanBuilder::new(3, &log);
    assert_eq!(builder.source(), 3);
    assert_eq!(builder.buses(), vec![1, 2]);
    assert!(builder.selected().contains("0x243"), "{}", builder.selected());
    builder.spec.offset = 7;
    builder.choose_kind(FieldKind::U32);
    assert_eq!(builder.spec.kind, FieldKind::U32);
    assert!(builder.spec.offset <= max_offset(FieldKind::U32));
    assert_eq!(max_offset(FieldKind::U16), 6);
    assert!(unit_suffix(" V ").contains('V'));
    assert!(samples_note(3).contains('3'));
    assert_eq!(log.extract(&builder.spec).points.len(), 1);
}

fn inspected() -> CanOpenInspector {
    let mut beats: Vec<CanFrame> = [0, 1, 2, 6]
        .into_iter()
        .map(|t| CanFrame { len: 1, ..frame(t * S, 0x705, [5, 0, 0, 0, 0, 0, 0, 0]) })
        .collect();
    beats.push(frame(7 * S, 0x605, [0x2B, 0x10, 0x20, 0x01, 0xE8, 0x03, 0, 0]));
    beats.push(frame(7 * S + 2_000, 0x585, [0x60, 0x10, 0x20, 0x01, 0, 0, 0, 0]));
    beats.push(frame(8 * S, 0x585, [0x80, 0x20, 0x20, 0x01, 0x21, 0x00, 0x00, 0x08]));
    CanOpenInspector::new(1, &frames(beats))
}

#[test]
fn the_inspector_reads_the_bus() {
    let inspector = inspected();
    let node = NodeKey { bus: 1, node: 5 };
    assert_eq!((inspector.source(), inspector.node), (1, Some(node)));
    let info = &inspector.log().nodes[0];
    assert_eq!(node_label(info.key, false), "node 5");
    assert_eq!(node_label(info.key, true), "bus 1 node 5");
    assert!(nmt_text(info.nmt_state).contains("operational"));
    assert_eq!(heartbeat_text(info), "4 × 2000 ms");
    assert!(!dropped_off(info));
    assert_eq!(tpdo_text(info).0, 0);
    assert!(!sdo_text(info).is_empty());
    let key = object_key(node, 0x2010, 1);
    let track = inspector.log().objects.get(key.code());
    assert_eq!(traffic(track), "1 w");
    assert_eq!(traffic(None), "");
    assert!(!missing_text(None, 0).is_empty());
    assert!(!entry_text(None, 3).is_empty());
}

#[test]
fn the_inspector_filters_transfers() {
    let inspector = inspected();
    let all = &inspector.log().transfers;
    let filter = |text: &str, aborts_only: bool| SdoFilter {
        node: None,
        text: text.to_string(),
        aborts_only,
    };
    assert_eq!(filter_transfers(all, &filter("", false)), vec![0, 1, 2]);
    assert_eq!(filter_transfers(all, &filter("", true)), vec![2]);
    assert_eq!(filter_transfers(all, &filter(" COMMANDED ", false)), vec![0, 1]);
    let other = SdoFilter { node: Some(NodeKey { bus: 1, node: 6 }), ..filter("", false) };
    assert!(filter_transfers(all, &other).is_empty());
    let rows = vec![0, 1, 2];
    assert_eq!(row_at(all, &rows, 7 * S + 3_000), Some(1));
    assert_eq!(row_at(all, &rows, 0), None);
    let row = sdo_row(&all[1], false);
    assert_eq!((row[0].as_str(), row[1].as_str(), row[5].as_str()), ("node 5", "←", "2.0 ms"));
}

#[test]
fn the_inspector_lists_what_was_seen_or_everything() {
    let mut inspector = inspected();
    let node = NodeKey { bus: 1, node: 5 };
    let seen = inspector.dictionary_rows(node);
    assert!(seen.contains(&(0x2010, 1)) && !seen.contains(&(0x1017, 0)));
    inspector.show_every_object(true);
    let every = inspector.dictionary_rows(node);
    assert!(every.contains(&(0x1017, 0)) && every.contains(&(0x2010, 1)));
    assert!(every.windows(2).all(|w| w[0] < w[1]));
    inspector.open_tab(Tab::Sdo);
    assert_eq!(inspector.tab, Tab::Sdo);
    inspector.open_dictionary(node);
    assert_eq!(inspector.tab, Tab::Dictionary);
}

#[test]
fn keys_move_the_timeline() {
    let bounds = Some((0, 60_000_000));
    let mut t = Timeline::new((0, 60_000_000));
    assert!(!obey(&mut t, Command::PlayPause, bounds));
    assert!(t.playing);
    obey(&mut t, Command::Step(10_000_000), bounds);
    assert_eq!((t.cursor, t.playing), (10_000_000, false));
    obey(&mut t, Command::ZoomIn, bounds);
    assert_eq!((t.view_start, t.view_end), (5_000_000, 35_000_000));
    obey(&mut t, Command::ZoomOut, bounds);
    assert_eq!((t.view_start, t.view_end), (0, 60_000_000));
    obey(&mut t, Command::Step(-20_000_000), bounds);
    assert_eq!(t.cursor, 0, "no further than the data goes");
    obey(&mut t, Command::JumpToEnd, bounds);
    assert_eq!(t.cursor, 60_000_000);
    obey(&mut t, Command::JumpToStart, bounds);
    assert_eq!(t.cursor, 0);
    obey(&mut t, Command::Faster, bounds);
    assert_eq!(t.speed, 200);
    obey(&mut t, Command::Slower, bounds);
    assert_eq!(t.speed, 100);
    obey(&mut t, Command::BoxZoom, bounds);
    assert!(t.box_zoom);
    t.set_view(1_000_000, 2_000_000);
    assert!(obey(&mut t, Command::ResetView, bounds), "pinned ranges are forgotten");
    assert_eq!((t.view_start, t.view_end), (0, 60_000_000));
    obey(&mut t, Command::JumpToEnd, None);
    assert_eq!(t.cursor, 0);
}

/// Frames are kept in the order they arrived in, which a clock that jumped back makes one that
/// goes back: spans have a sign.
#[test]
fn heartbeats_of_a_clock_that_jumped_back_keep_their_sign() {
    let log = CanOpenLog::build(&[
        frame(2 * S, 0x705, [5, 0, 0, 0, 0, 0, 0, 0]),
        frame(0, 0x705, [5, 0, 0, 0, 0, 0, 0, 0]),
    ]);
    let info = &log.nodes[0];
    assert_eq!(heartbeat_text(info), "2 × -2000 ms");
    assert!(dropped_off(info));
    let answered = CanOpenLog::build(&[
        frame(S, 0x605, [0x40, 0x10, 0x20, 0x01, 0, 0, 0, 0]),
        frame(0, 0x585, [0x4B, 0x10, 0x20, 0x01, 0xF4, 0x01, 0, 0]),
    ]);
    assert_eq!(sdo_row(&answered.transfers[1], false).last().unwrap(), "-1000.0 ms");
}

/// Halves go to the even digit.
#[test]
fn halves_are_rounded_to_even() {
    let log = CanOpenLog::build(&[
        frame(0, 0x705, [5, 0, 0, 0, 0, 0, 0, 0]),
        frame(62_500, 0x705, [5, 0, 0, 0, 0, 0, 0, 0]),
    ]);
    assert_eq!(heartbeat_text(&log.nodes[0]), "2 × 62 ms");
    let later = CanOpenLog::build(&[
        frame(0, 0x705, [5, 0, 0, 0, 0, 0, 0, 0]),
        frame(63_500, 0x705, [5, 0, 0, 0, 0, 0, 0, 0]),
    ]);
    assert_eq!(heartbeat_text(&later.nodes[0]), "2 × 64 ms");
    let answered = CanOpenLog::build(&[
        frame(0, 0x605, [0x40, 0x10, 0x20, 0x01, 0, 0, 0, 0]),
        frame(1_250, 0x585, [0x4B, 0x10, 0x20, 0x01, 0xF4, 0x01, 0, 0]),
    ]);
    assert_eq!(sdo_row(&answered.transfers[1], false).last().unwrap(), "1.2 ms");
    let a = AudioSource {
        duration: -250_000,
        start_utc: 0,
        start_utc_source: StartTimeSource::FileName,
        waveform_peaks: vec![],
    };
    assert_eq!(audio_box(&a), "audio panel (-0.2s)");
}
