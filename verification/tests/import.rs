use rapid_analyzer::double::Double;
use rapid_analyzer::import::audio::{waveform, WAVEFORM_BUCKETS};
use rapid_analyzer::import::probe::{
    best_duration, first_video, probe_audio, probe_video, split_rate, ProbeError,
};
use rapid_analyzer::import::sqlite_log::{pivot, Row};
use rapid_analyzer::import::video::{frame_from, FrameError};
use rapid_analyzer::import::{detect, kind_of, sniff, FileKind, Sniffed};
use rapid_analyzer::picker::{
    best_pair, best_series, candidate_label, candidates, limit_note, score, short_name, PICKER_LIMIT,
};
use rapid_analyzer::can::CanFrames;
use rapid_analyzer::colors::Rgb;
use rapid_analyzer::model::{LogFormat, LogSource, Project, Source, SourceKind};
use rapid_analyzer::series::TimeSeries;

fn d(v: f64) -> Double {
    Double { bits: v.to_bits() }
}

#[test]
fn a_file_is_taken_by_its_extension() {
    assert_eq!(kind_of("mp4"), FileKind::Video);
    assert_eq!(kind_of("opus"), FileKind::Audio);
    assert_eq!(kind_of("tlog"), FileKind::Tlog);
    assert_eq!(kind_of(""), FileKind::Unnamed);
    // Whatever its case.
    assert_eq!(detect("WEBM"), FileKind::Video);
    assert_eq!(detect("Tlog"), FileKind::Tlog);
}

#[test]
fn content_says_what_a_name_does_not() {
    assert_eq!(sniff(b"SQLite format 3\0 and more"), Sniffed::Sqlite);
    assert_eq!(sniff(b"SQLite"), Sniffed::Unknown);
    assert_eq!(sniff(&[0, 0, 0, 0, 0, 0, 0, 0, 0xFD]), Sniffed::Tlog);
    assert_eq!(sniff(&[0, 0, 0, 0, 0, 0, 0, 0, 0xFE, 1]), Sniffed::Tlog);
    assert_eq!(sniff(&[0xFD; 8]), Sniffed::Unknown);
}

#[test]
fn rows_become_one_series_per_sensor() {
    let row = |t: i64, sensor: &str, value: f64| Row {
        t_utc: t,
        sensor: sensor.to_string(),
        value: d(value),
    };
    let out = pivot(&vec![row(1, "b", 1.0), row(2, "a", 2.0), row(3, "b", 3.0)]).unwrap();
    let names: Vec<&str> = out.iter().map(|s| s.name.as_str()).collect();
    assert_eq!(names, ["a", "b"]);
    assert_eq!(out[1].points, vec![(1, d(1.0)), (3, d(3.0))]);
    assert!(pivot(&vec![]).is_none());
}

#[test]
fn a_waveform_encloses_its_samples() {
    let samples: Vec<Double> = (0..WAVEFORM_BUCKETS * 2)
        .map(|i| d(if i % 2 == 0 { i as f64 } else { -(i as f64) }))
        .collect();
    let peaks = waveform(&samples);
    assert_eq!(peaks.len(), WAVEFORM_BUCKETS);
    assert_eq!(peaks[3], (d(-7.0), d(6.0)));
    assert!(waveform(&vec![]).is_empty());
}

#[test]
fn a_probe_reads_what_the_prober_wrote() {
    let json = br#"{"streams": [{"codec_type": "audio"},
        {"codec_type": "video", "width": 640, "height": 480, "r_frame_rate": "30000/1001"}],
        "format": {"duration": "12.5", "tags": {"creation_time": "2026-08-08T17:41:58Z"}}}"#;
    let video = probe_video(json).ok().unwrap();
    assert_eq!((video.width, video.height), (640, 480));
    assert_eq!(video.frame_rate, "30000/1001");
    assert_eq!(video.duration.as_deref(), Some("12.5"));
    assert_eq!(video.creation_time.as_deref(), Some("2026-08-08T17:41:58Z"));
    let audio = probe_audio(json).ok().unwrap();
    assert_eq!(audio.duration.as_deref(), Some("12.5"));
    assert_eq!(probe_video(b"{\"streams\": []}").err(), Some(ProbeError::NoVideoStream));
    assert_eq!(probe_video(b"not json").err(), Some(ProbeError::NotJson));
    assert_eq!(probe_audio(b"not json").err(), Some(ProbeError::NotJson));
    assert!(!ProbeError::NotJson.message().is_empty());
}

#[test]
fn parts_of_a_probe() {
    let kinds = vec![None, Some("audio".to_string()), Some("video".to_string())];
    assert_eq!(first_video(&kinds), Some(2));
    assert_eq!(first_video(&vec![]), None);
    assert_eq!(split_rate("30000/1001"), Some(("30000".to_string(), "1001".to_string())));
    assert_eq!(split_rate("25"), None);
    assert_eq!(best_duration(Some(7), Some(9)), 7);
    assert_eq!(best_duration(None, Some(9)), 9);
    assert_eq!(best_duration(None, None), 0);
}

#[test]
fn a_frame_is_decoded_from_what_the_decoder_wrote() {
    let mut png = std::io::Cursor::new(Vec::new());
    image::RgbaImage::from_raw(2, 1, vec![255, 0, 0, 255, 0, 0, 255, 255])
        .unwrap()
        .write_to(&mut png, image::ImageFormat::Png)
        .unwrap();
    let bytes = png.into_inner();
    let frame = frame_from(true, &bytes).ok().unwrap();
    assert_eq!((frame.width, frame.height), (2, 1));
    assert_eq!(frame.rgba, [255, 0, 0, 255, 0, 0, 255, 255]);
    assert_eq!(frame_from(false, &bytes).err(), Some(FrameError::NoFrame));
    assert_eq!(frame_from(true, &[]).err(), Some(FrameError::NoFrame));
    assert_eq!(frame_from(true, b"junk").err(), Some(FrameError::Undecodable));
}

fn project(list: &[(&str, &str)]) -> Project {
    let mut project = Project::new();
    let id = project.alloc_id();
    project.sources.push(Source {
        id,
        name: "run.tlog".to_string(),
        path: "run.tlog".to_string(),
        offset: 0,
        color: Rgb { r: 255, g: 255, b: 255 },
        enabled: true,
        kind: SourceKind::Log(LogSource {
            series: list
                .iter()
                .map(|(n, u)| {
                    TimeSeries::from_points(n, vec![(0, d(1.0))]).with_unit(Some(u.to_string()))
                })
                .collect(),
            format: LogFormat::Tlog,
            can: CanFrames::default(),
        }),
    });
    project
}

#[test]
fn the_picker_prefers_what_says_what_it_is() {
    let project = project(&[
        ("A.pressure1", "bar"),
        ("B.speed", "m/s"),
        ("B.temperature", "°C"),
        ("A.temperature1", "°C"),
    ]);
    assert_eq!(best_series(&project, true).map(|at| at.1), Some(2));
    // A pair that shares its message wins over the first of each.
    assert_eq!(best_pair(&project), Some((0, 3, 0)));
    let SourceKind::Log(log) = &project.sources[0].kind else {
        panic!("a log");
    };
    assert!(score(&log.series[2], true) > score(&log.series[1], true));
    assert_eq!(score(&log.series[1], true), 0);
    let found = candidates(&project, true, "b.");
    assert!(found.iter().all(|at| at.1 == 1 || at.1 == 2), "{found:?}");
    // Loaded twice, each series is listed twice: equal ones as they stand in the project.
    let mut twice = Project::new();
    for _ in 0..2 {
        let id = twice.alloc_id();
        let names = ["B.t", "A.t"];
        let unit = Some("degC".to_string());
        twice.sources.push(Source {
            id,
            name: "run.tlog".to_string(),
            path: "run.tlog".to_string(),
            offset: 0,
            color: Rgb { r: 0, g: 0, b: 0 },
            enabled: true,
            kind: SourceKind::Log(LogSource {
                series: names
                    .iter()
                    .map(|n| TimeSeries::from_points(n, vec![(0, d(1.0))]).with_unit(unit.clone()))
                    .collect(),
                format: LogFormat::Tlog,
                can: CanFrames::default(),
            }),
        });
    }
    assert_eq!(candidates(&twice, true, ""), [(0, 1), (1, 1), (0, 0), (1, 0)]);
    assert!(candidate_label(&project, (0, 2), true).contains("run.tlog"));
    assert!(!candidate_label(&project, (0, 2), false).contains("run.tlog"));
}

#[test]
fn long_names_and_long_lists_are_cut() {
    assert_eq!(short_name("short"), "short");
    let long = "x".repeat(40);
    assert_eq!(short_name(&long).chars().count(), 28);
    assert!(short_name(&long).starts_with('…'));
    assert_eq!(limit_note(PICKER_LIMIT), None);
    assert!(limit_note(PICKER_LIMIT + 1).is_some());
}
