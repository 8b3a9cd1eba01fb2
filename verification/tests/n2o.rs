use rapid_analyzer::double::Double;
use rapid_analyzer::n2o::{
    phase, upper_row, Phase, CRITICAL_P, CRITICAL_T, SATURATION, TRIPLE_P, TRIPLE_T,
};

/// Billionths of a kelvin.
const K: i64 = 1_000_000_000;

/// What the table counts in, as a search takes it.
const UNIT: i64 = 1_000_000;

fn d(v: f64) -> Double {
    Double { bits: v.to_bits() }
}

#[test]
fn the_table_is_strictly_increasing_in_both_columns() {
    for pair in SATURATION.windows(2) {
        assert!(pair[1].0 > pair[0].0, "temperature not increasing at {pair:?}");
        assert!(pair[1].1 > pair[0].1, "pressure not increasing at {pair:?}");
    }
    assert_eq!(SATURATION[0], (TRIPLE_T, TRIPLE_P));
    assert_eq!(SATURATION[SATURATION.len() - 1], (CRITICAL_T, CRITICAL_P));
}

#[test]
fn there_is_no_saturation_state_outside_the_two_phase_range() {
    assert_eq!(upper_row(310_000 * UNIT, false), None);
    assert_eq!(upper_row(150_000 * UNIT, false), None);
    assert_eq!(upper_row(80_000_000 * UNIT, true), None);
    assert_eq!(upper_row(500_000 * UNIT, true), None);
    // The ends of the range are in it.
    assert!(upper_row(TRIPLE_T * UNIT, false).is_some());
    assert_eq!(upper_row(CRITICAL_T * UNIT, false), Some(SATURATION.len() - 1));
    assert_eq!(upper_row(CRITICAL_P * UNIT, true), Some(SATURATION.len() - 1));
}

#[test]
fn a_value_lies_between_its_two_rows() {
    let row = upper_row(293_500 * UNIT, false).unwrap();
    assert!(SATURATION[row - 1].0 <= 293_500 && 293_500 <= SATURATION[row].0);
    let row = upper_row(50_526_000 * UNIT, true).unwrap();
    assert!(SATURATION[row - 1].1 <= 50_526_000 && 50_526_000 <= SATURATION[row].1);
}

/// The vapour pressure at 20 °C is about 5052.6 kPa; a reading 1 % low, which any real
/// transducer can be, is still on the curve.
#[test]
fn a_tank_at_equilibrium_reads_as_saturated_despite_sensor_error() {
    let psat = 5052.6;
    let limit = d(psat * 0.02);
    let t = 293_150_000_000;
    assert_eq!(phase(t, Some((d(psat * 0.99 - psat), limit))), Phase::Saturated);
    assert_eq!(phase(t, Some((d(0.0), limit))), Phase::Saturated);
}

#[test]
fn pressurising_above_the_curve_reads_as_liquid_and_venting_below_it_as_vapour() {
    let psat = 5052.6;
    let limit = d(psat * 0.02);
    let t = 293_150_000_000;
    assert_eq!(phase(t, Some((d(psat * 1.2 - psat), limit))), Phase::Liquid);
    assert_eq!(phase(t, Some((d(psat * 0.8 - psat), limit))), Phase::Vapor);
}

#[test]
fn past_the_critical_temperature_there_is_no_phase_to_report() {
    assert_eq!(phase(320 * K, None), Phase::Supercritical);
    assert_eq!(phase(170 * K, Some((d(0.0), d(2.0)))), Phase::BelowTriple);
}
