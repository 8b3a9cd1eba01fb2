use rapid_analyzer::import::start_time::{
    best_start, digits, parse_file_name, parse_iso8601, resolve, StartTimeSource,
};

fn utc(s: &str) -> i64 {
    parse_iso8601(s).unwrap()
}

#[test]
fn reads_the_example_media_names() {
    // These have to land on the telemetry log's own start time, or the video and the graphs
    // never line up out of the box.
    let expected = utc("2026-08-08T17:41:58Z");
    assert_eq!(parse_file_name("video_abc_2026-08-08T17:41:58.webm"), Some(expected));
    assert_eq!(parse_file_name("audio_xyz_2026-08-08T17:41:58.ogx"), Some(expected));
    assert_eq!(parse_file_name("2026-08-08T17:41:58Z-04.tlog"), Some(expected));
}

#[test]
fn accepts_the_usual_separator_styles() {
    let expected = utc("2026-07-27T14:08:36Z");
    for name in [
        "telemetry_2026-07-27_14-08-36",
        "20260727_140836.mp4",
        "VID 2026.07.27 14.08.36.mov",
    ] {
        assert_eq!(parse_file_name(name), Some(expected), "{name}");
    }
}

#[test]
fn ignores_names_without_a_timestamp() {
    assert_eq!(parse_file_name("hotfire.mp4"), None);
    assert_eq!(parse_file_name("clip_00012345678.mp4"), None);
    // A date on its own says nothing about when recording started.
    assert_eq!(parse_file_name("2026-08-08.mp4"), None);
    // Impossible date: keep looking rather than inventing a time.
    assert_eq!(parse_file_name("2026-13-40T99:99:99.mp4"), None);
}

#[test]
fn a_timestamp_is_read_in_utc() {
    assert_eq!(utc("1970-01-01T00:00:01Z"), 1_000_000);
    assert_eq!(utc("2026-08-08T19:41:58+02:00"), utc("2026-08-08T17:41:58Z"));
    assert_eq!(parse_iso8601("yesterday"), None);
    assert_eq!(parse_file_name("2000-02-29T00:00:00"), parse_iso8601("2000-02-29T00:00:00Z"));
    // Years that no recording was made in are some other number.
    assert_eq!(parse_file_name("1969-12-31T23:59:59"), None);
    assert_eq!(parse_file_name("2201-01-01T00:00:00"), None);
}

#[test]
fn what_the_file_says_of_itself_comes_first() {
    assert_eq!(best_start(Some(1), Some(2), Some(3)), (1, StartTimeSource::Metadata));
    assert_eq!(best_start(None, Some(2), Some(3)), (2, StartTimeSource::FileName));
    assert_eq!(best_start(None, None, Some(3)), (3, StartTimeSource::FileMtime));
    assert_eq!(best_start(None, None, None), (0, StartTimeSource::FileMtime));
    assert!(StartTimeSource::FileMtime.is_guess());
    assert!(!StartTimeSource::Metadata.is_guess());
}

#[test]
fn a_start_is_resolved_from_everything_known() {
    let named = "video_2026-08-08T17:41:58.webm";
    assert_eq!(
        resolve(named, Some("2026-01-01T00:00:00Z"), Some(5)),
        (utc("2026-01-01T00:00:00Z"), StartTimeSource::Metadata)
    );
    assert_eq!(
        resolve(named, Some("garbled"), Some(5)),
        (utc("2026-08-08T17:41:58Z"), StartTimeSource::FileName)
    );
    assert_eq!(resolve("clip.webm", None, Some(5)), (5, StartTimeSource::FileMtime));
}

#[test]
fn digits_are_read_and_passed() {
    let s: Vec<char> = "ab123456789x".chars().collect();
    let mut p = 2;
    assert_eq!(digits(&s, &mut p, 9), Some(123_456_789));
    assert_eq!(p, 11);
    // Where they are not all digits, or the text ends, the place stays.
    let mut p = 9;
    assert_eq!(digits(&s, &mut p, 3), None);
    assert_eq!(p, 9);
    let mut p = 40;
    assert_eq!(digits(&s, &mut p, 1), None);
    assert_eq!(p, 40);
}
