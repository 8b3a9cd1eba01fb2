//! How a value axis is divided.

use rapid_analyzer::double::Double;
use rapid_analyzer::export::value_axis::{decimals, is_drawable_values, step_factor, ticks_wanted};

fn d(v: f64) -> Double {
    Double { bits: v.to_bits() }
}

fn nice_step(raw: f64) -> f64 {
    let magnitude = 10f64.powf(raw.log10().floor());
    f64::from(step_factor(d(raw / magnitude))) * magnitude
}

/// The multiples of the step that a range holds.
fn value_ticks((lo, hi): (f64, f64), height: i64, spacing: i64) -> (f64, Vec<f64>) {
    let (true, Some(wanted)) = (is_drawable_values((d(lo), d(hi))), ticks_wanted(height, spacing))
    else {
        return (1.0, Vec::new());
    };
    let step = nice_step((hi - lo) / wanted as f64);
    let (first, last) = ((lo / step).ceil() as i64, (hi / step).floor() as i64);
    (step, (first..=last).map(|i| i as f64 * step).collect())
}

fn format_axis_value(v: f64, step: f64) -> String {
    let decimals = usize::from(decimals(d(step), step.log10().floor() as i32));
    format!("{v:.decimals$}")
}

#[test]
fn value_ticks_land_on_round_numbers() {
    let (step, ticks) = value_ticks((0.0, 10.0), 30_000, 3_000);
    assert_eq!(step, 1.0);
    assert_eq!(ticks.first(), Some(&0.0));
    assert_eq!(ticks.last(), Some(&10.0));
    assert!(ticks.iter().all(|v| (v.round() - v).abs() < 1e-9));
}

#[test]
fn value_ticks_thin_out_as_the_axis_gets_shorter() {
    let tall = value_ticks((0.0, 100.0), 60_000, 3_000).1.len();
    let short = value_ticks((0.0, 100.0), 9_000, 3_000).1.len();
    assert!(tall > short, "{tall} vs {short}");
    assert!(short >= 2, "an axis always needs a couple of numbers, got {short}");
}

#[test]
fn degenerate_values_produce_no_ticks() {
    assert!(value_ticks((5.0, 5.0), 30_000, 3_000).1.is_empty());
    assert!(value_ticks((f64::NAN, 1.0), 30_000, 3_000).1.is_empty());
    assert!(value_ticks((0.0, f64::INFINITY), 30_000, 3_000).1.is_empty());
    assert!(value_ticks((0.0, 1.0), 0, 3_000).1.is_empty());
}

#[test]
fn a_nice_step_is_a_one_two_or_five() {
    for raw in [0.0012, 0.03, 0.4, 3.0, 7.0, 12.0, 900.0] {
        let step = nice_step(raw);
        assert!(step >= raw, "{step} < {raw}");
        let normalized = step / 10f64.powf(step.log10().floor());
        assert!(
            (normalized - 1.0).abs() < 1e-9
                || (normalized - 2.0).abs() < 1e-9
                || (normalized - 5.0).abs() < 1e-9,
            "{step} normalizes to {normalized}"
        );
    }
}

#[test]
fn the_ladder_has_four_rungs() {
    assert_eq!(step_factor(d(1.0)), 1);
    assert_eq!(step_factor(d(1.000_001)), 2);
    assert_eq!(step_factor(d(2.0)), 2);
    assert_eq!(step_factor(d(5.0)), 5);
    assert_eq!(step_factor(d(5.5)), 10);
    assert_eq!(step_factor(d(f64::NAN)), 10);
}

#[test]
fn an_axis_without_height_has_no_steps() {
    assert_eq!(ticks_wanted(0, 3_000), None);
    assert_eq!(ticks_wanted(-1, 3_000), None);
    assert_eq!(ticks_wanted(2_999, 3_000), Some(1));
    assert_eq!(ticks_wanted(9_000, 3_000), Some(3));
    assert_eq!(ticks_wanted(500, 0), Some(5));
}

#[test]
fn axis_tick_labels_follow_the_tick_spacing() {
    assert_eq!(format_axis_value(1234.5678, 100.0), "1235");
    assert_eq!(format_axis_value(1.2345678, 0.05), "1.23");
    assert_eq!(format_axis_value(1.2345678, 0.001), "1.235");
    assert_eq!(decimals(d(0.0), 0), 3);
    assert_eq!(decimals(d(1e-9), -9), 6);
}
