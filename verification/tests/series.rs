use rapid_analyzer::double::Double;
use rapid_analyzer::series::{partition_point, range_indices, Reading, Sample, TimeSeries};

fn d(v: f64) -> Double {
    Double { bits: v.to_bits() }
}

fn v(x: Double) -> f64 {
    f64::from_bits(x.bits)
}

fn secs(s: i64) -> i64 {
    s * 1_000_000
}

fn reading(r: Reading) -> f64 {
    match r {
        Reading::Held(x) => v(x),
        Reading::Between { before, after, at, of } => {
            v(before) + (v(after) - v(before)) * (at as f64 / of as f64)
        }
    }
}

#[test]
fn slice_matches_raw_when_small() {
    let pts: Vec<Sample> = (0..100).map(|i| (secs(i), d((i as f64).sin()))).collect();
    let ts = TimeSeries::from_points("x", pts.clone());
    let sliced = ts.slice_for_range(0, secs(99), 0, 10_000);
    assert_eq!(sliced.len(), pts.len());
}

#[test]
fn decimates_large_series() {
    let pts: Vec<Sample> = (0..1_000_000).map(|i| (i * 10_000, d((i as f64).sin()))).collect();
    let ts = TimeSeries::from_points("big", pts);
    let sliced = ts.slice_for_range(0, secs(10_000), 0, 2000);
    assert!(sliced.len() < 20_000, "expected decimation, got {}", sliced.len());
    assert!(!sliced.is_empty());
}

#[test]
fn offset_shifts_range() {
    let pts: Vec<Sample> = (0..100).map(|i| (secs(i), d(i as f64))).collect();
    let ts = TimeSeries::from_points("x", pts);
    let sliced = ts.slice_for_range(secs(10), secs(20), secs(10), 1000);
    // The range queried is [0, 10], shifted back by the offset.
    assert!(sliced.iter().all(|p| p.0 >= secs(9) && p.0 <= secs(21)));
    assert_eq!(sliced[0], (secs(10), d(0.0)));
}

#[test]
fn a_reading_lies_on_the_line_between_its_neighbours() {
    let ts = TimeSeries::from_points("x", vec![(0, d(10.0)), (secs(4), d(20.0))]);
    assert_eq!(ts.value_at(secs(1), 0).map(reading), Some(12.5));
    // Moved along with its source.
    assert_eq!(ts.value_at(secs(11), secs(10)).map(reading), Some(12.5));
    // Held before the first sample and past the last.
    assert_eq!(ts.value_at(-5, 0).map(reading), Some(10.0));
    assert_eq!(ts.value_at(secs(9), 0).map(reading), Some(20.0));
    assert_eq!(TimeSeries::from_points("x", vec![]).value_at(0, 0), None);
}

#[test]
fn the_last_sample_by_an_instant() {
    let ts = TimeSeries::from_points("x", vec![(0, d(1.0)), (secs(4), d(2.0))]);
    assert_eq!(ts.last_at_or_before(secs(3), 0), Some((0, d(1.0))));
    assert_eq!(ts.last_at_or_before(secs(4), 0), Some((secs(4), d(2.0))));
    assert_eq!(ts.last_at_or_before(-1, 0), None);
    assert_eq!(ts.last_at_or_before(secs(3), secs(3)), Some((secs(3), d(1.0))));
}

#[test]
fn samples_that_arrive_out_of_order_are_sorted_and_keep_their_order_otherwise() {
    let ts = TimeSeries::from_points("x", vec![(3, d(3.0)), (1, d(1.0)), (3, d(4.0)), (2, d(2.0))]);
    let values: Vec<f64> = ts.raw.iter().map(|p| v(p.1)).collect();
    assert_eq!(values, [1.0, 2.0, 3.0, 4.0]);
    assert_eq!(ts.time_bounds(), Some((1, 3)));
    assert_eq!(ts.len(), 4);
    assert!(!ts.is_empty());
    assert_eq!(ts.sample(1), (2, d(2.0)));
    assert_eq!(ts.unit, None);
    let ts = ts.with_unit(Some("bar".to_string()));
    assert_eq!(ts.unit.as_deref(), Some("bar"));
}

#[test]
fn value_bounds_are_those_of_the_window() {
    let ts = TimeSeries::from_points(
        "x",
        vec![(0, d(-3.0)), (secs(1), d(5.0)), (secs(2), d(f64::NAN)), (secs(3), d(1.0))],
    );
    assert_eq!(
        ts.value_bounds_in_range(0, secs(3), 0).map(|(lo, hi)| (v(lo), v(hi))),
        Some((-3.0, 5.0))
    );
    assert_eq!(TimeSeries::from_points("x", vec![]).value_bounds_in_range(0, 1, 0), None);
}

#[test]
fn a_partition_point_splits_by_time() {
    let pts = vec![(0, d(0.0)), (10, d(0.0)), (10, d(1.0)), (20, d(0.0))];
    assert_eq!(partition_point(&pts, 10), 1);
    assert_eq!(partition_point(&pts, 11), 3);
    assert_eq!(partition_point(&pts, 21), 4);
    // One sample past each end of the window, so lines run to its edges.
    assert_eq!(range_indices(&pts, 5, 12), (0, 4));
}

#[test]
fn a_slice_over_everything_is_the_raw_samples() {
    let pts: Vec<Sample> =
        (0..20_000).rev().map(|i| (secs(i / 2), d((i as f64).sin()))).collect();
    let ts = TimeSeries::from_points("x", pts.clone());
    assert!(!ts.lods.is_empty());
    let mut sorted = pts;
    sorted.sort_by_key(|p| p.0);
    assert_eq!(ts.slice_for_range(i64::MIN, i64::MAX, 0, usize::MAX), sorted);
    assert_eq!((ts.name.as_str(), ts.unit.is_none(), ts.len()), ("x", true, sorted.len()));
}
