use rapid_analyzer::timeline::{
    format_axis_time, format_duration, format_utc, next_speed, time_grid_steps, Timeline, Transport,
    MIN_VIEW_SPAN, TIME_STEPS,
};
use rapid_analyzer::clock::{date_label, utc_label};

const S: i64 = 1_000_000;

#[test]
fn zooming_keeps_the_centre_where_it_was() {
    let mut t = Timeline::new((0, 100 * S));
    t.zoom_view(1, 2, 50 * S);
    assert_eq!((t.view_start, t.view_end), (25 * S, 75 * S));
    t.zoom_view(2, 1, 50 * S);
    assert_eq!((t.view_start, t.view_end), (0, 100 * S));
}

#[test]
fn the_window_never_collapses_to_nothing() {
    let mut t = Timeline::new((0, 100 * S));
    for _ in 0..100 {
        t.zoom_view(1, 10, 50 * S);
    }
    assert!(t.view_span() >= MIN_VIEW_SPAN as i128, "span collapsed to {}", t.view_span());
    // ... and is still zoomable back out.
    t.zoom_view(2, 1, 50 * S);
    assert!(t.view_span() > MIN_VIEW_SPAN as i128);
}

#[test]
fn a_box_selection_dragged_right_to_left_still_zooms() {
    let mut t = Timeline::new((0, 100 * S));
    t.set_view(70 * S, 30 * S);
    assert_eq!((t.view_start, t.view_end), (30 * S, 70 * S));
}

#[test]
fn losing_a_source_pulls_the_view_and_playhead_back_in_range() {
    let mut t = Timeline::new((0, 100 * S));
    t.set_view(80 * S, 100 * S);
    t.cursor = 90 * S;
    // The source covering everything past t=50 is gone.
    t.clamp_to(Some((0, 50 * S)));
    assert_eq!(t.cursor, 50 * S);
    assert!(t.view_start >= 0 && t.view_end <= 50 * S, "{}..{}", t.view_start, t.view_end);
    assert!(t.view_span() > 0);
}

#[test]
fn a_view_inside_the_remaining_range_is_left_alone() {
    let mut t = Timeline::new((0, 100 * S));
    t.set_view(10 * S, 20 * S);
    t.clamp_to(Some((0, 50 * S)));
    assert_eq!((t.view_start, t.view_end), (10 * S, 20 * S));
}

#[test]
fn playback_moves_the_playhead_and_stops_at_the_end() {
    let mut t = Timeline::new((0, 10 * S));
    t.tick(500_000, Some((0, 10 * S)));
    assert_eq!(t.cursor, 0, "nothing moves while paused");
    t.playing = true;
    t.speed = 200;
    t.tick(500_000, Some((0, 10 * S)));
    assert_eq!(t.cursor, S);
    t.cursor = 10 * S - 1;
    t.tick(500_000, Some((0, 10 * S)));
    assert_eq!(t.cursor, 10 * S);
    assert!(!t.playing);
}

#[test]
fn seeking_and_stepping_stay_on_the_data() {
    let mut t = Timeline::new((0, 10 * S));
    t.seek(99 * S, Some((0, 10 * S)));
    assert_eq!(t.cursor, 10 * S);
    t.step(-3 * S, Some((0, 10 * S)));
    assert_eq!(t.cursor, 7 * S);
    t.step(-30 * S, Some((0, 10 * S)));
    assert_eq!(t.cursor, 0);
}

#[test]
fn the_transport_bar() {
    let bounds = Some((0, 10 * S));
    let mut t = Timeline::new((0, 10 * S));
    assert!(t.transport(Transport::JumpToEnd, bounds));
    assert_eq!(t.cursor, 10 * S);
    t.transport(Transport::StepBack, bounds);
    assert_eq!(t.cursor, 9 * S);
    t.transport(Transport::PlayPause, bounds);
    assert!(t.playing);
    assert!(t.transport(Transport::Scrub { at: 1, of: 4 }, bounds));
    assert_eq!((t.cursor, t.playing), (2_500_000, false));
    assert!(t.transport(Transport::Scrub { at: 9, of: 4 }, bounds));
    assert_eq!(t.cursor, 10 * S);
    t.transport(Transport::BoxZoom, bounds);
    assert!(t.box_zoom);
    t.transport(Transport::Speed(400), bounds);
    assert_eq!(t.speed, 400);
    t.set_view(S, 2 * S);
    assert!(t.transport(Transport::ZoomToFit, bounds));
    assert_eq!((t.view_start, t.view_end), (0, 10 * S));
    assert!(!t.transport(Transport::JumpToStart, None));
    assert_eq!(t.cursor, 10 * S);
}

#[test]
fn speeds_climb_the_ladder_and_stay_at_its_ends() {
    assert_eq!(next_speed(100, true), 200);
    assert_eq!(next_speed(100, false), 50);
    assert_eq!(next_speed(800, true), 800);
    assert_eq!(next_speed(10, false), 10);
    // One that is not on the ladder counts as real time.
    assert_eq!(next_speed(123, true), 200);
}

#[test]
fn a_new_source_widens_the_view_only_where_it_showed_everything() {
    let mut t = Timeline::new((0, 10 * S));
    t.widen_to((-5 * S, 20 * S));
    assert!(t.view_start <= 0 && t.view_end >= 10 * S);
    t.reset_to((0, 4 * S));
    assert_eq!((t.view_start, t.view_end, t.cursor), (0, 4 * S, 0));
}

#[test]
fn a_graph_that_was_not_moved_changes_nothing() {
    let mut t = Timeline::new((0, 10 * S));
    t.follow_plot(0, 10 * S, None, Some((0, 10 * S)));
    assert_eq!((t.view_start, t.view_end, t.cursor), (0, 10 * S, 0));
    t.follow_plot(2 * S, 4 * S, Some(3 * S), Some((0, 10 * S)));
    assert_eq!((t.view_start, t.view_end, t.cursor), (2 * S, 4 * S, 3 * S));
}

#[test]
fn grid_steps_come_off_the_clock() {
    assert_eq!(time_grid_steps(1), [1_000, 10_000, 100_000]);
    assert_eq!(time_grid_steps(7 * S), [10 * S, 30 * S, 120 * S]);
    assert_eq!(time_grid_steps(i64::MAX), [86_400 * S, 86_400 * S, 86_400 * S]);
    assert!(TIME_STEPS.windows(2).all(|w| w[0] < w[1]));
}

#[test]
fn the_clock_is_written_at_the_precision_of_the_axis() {
    // 2026-08-08 17:41:58.250 UTC.
    let t = 1_786_210_918_250_000;
    assert_eq!(format_utc(t), "2026-08-08 17:41:58.250Z");
    assert_eq!(date_label(t), "2026-08-08");
    assert_eq!(format_axis_time(t, 3_600 * S), "17:41");
    assert_eq!(format_axis_time(t, S), "17:41:58");
    assert_eq!(format_axis_time(t, 50_000), "17:41:58.250");
    assert_eq!(format_axis_time(-1, S), "23:59:59");
    // The nearest millisecond may be in the next second.
    assert_eq!(format_axis_time(1_999_600, 50_000), "00:00:02.000");
    assert_eq!(format_axis_time(-1, 1_000), "00:00:00.000");
    assert_eq!(format_utc(-250_000), "1969-12-31 23:59:59.750Z");
}

#[test]
fn an_instant_off_the_calendar_is_written_in_seconds() {
    assert_eq!(utc_label(None, 1_500_000), "1.500");
    assert_eq!(format_utc(i64::MAX), "9223372036854.776");
    assert_eq!(date_label(i64::MAX), "");
}

#[test]
fn durations_have_hours_only_where_there_are_any() {
    assert_eq!(format_duration(3_723_250_000), "01:02:03.250");
    assert_eq!(format_duration(63 * S), "01:03.000");
    assert_eq!(format_duration(-5), "00:00.000");
    assert_eq!(format_duration(62_500), "00:00.062");
    assert_eq!(format_duration(63_500), "00:00.064");
    // Rounding carries into the minute and the hour.
    assert_eq!(format_duration(59_999_600), "01:00.000");
    assert_eq!(format_duration(3_599_999_600), "01:00:00.000");
}
