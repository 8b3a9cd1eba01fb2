use rapid_analyzer::can::CanFrames;
use rapid_analyzer::colors::Rgb;
use rapid_analyzer::double::Double;
use rapid_analyzer::model::{LogFormat, LogSource, Project, Source, SourceKind};
use rapid_analyzer::n2o::Phase;
use rapid_analyzer::series::{Reading, Sample, TimeSeries};
use rapid_analyzer::vapor::{
    at_playhead, nearest, off_curve_note, phase_color, runs, shared_group, PressureUnit, Problem,
    SeriesRef, TempUnit, VaporSpec, Vapors,
};

fn d(v: f64) -> Double {
    Double { bits: v.to_bits() }
}

fn secs(s: i64) -> i64 {
    s * 1_000_000
}

fn reading(r: Reading) -> f64 {
    match r {
        Reading::Held(x) => f64::from_bits(x.bits),
        Reading::Between { before, after, at, of } => {
            let (a, b) = (f64::from_bits(before.bits), f64::from_bits(after.bits));
            a + (b - a) * (at as f64 / of as f64)
        }
    }
}

fn points(n: i64, value: impl Fn(f64) -> f64) -> Vec<Sample> {
    (0..n).map(|i| (secs(i), d(value(i as f64)))).collect()
}

fn with_series(series: Vec<TimeSeries>) -> Project {
    let mut project = Project::new();
    let id = project.alloc_id();
    project.sources.push(Source {
        id,
        name: "tank.tlog".to_string(),
        path: "tank.tlog".to_string(),
        offset: 0,
        color: Rgb { r: 255, g: 255, b: 255 },
        enabled: true,
        kind: SourceKind::Log(LogSource {
            series,
            format: LogFormat::Tlog,
            can: CanFrames::default(),
        }),
    });
    project
}

fn tank(temperature_c: impl Fn(f64) -> f64, pressure_bar: impl Fn(f64) -> f64) -> Project {
    with_series(vec![
        TimeSeries::from_points("PRESSURE_VESSEL[1].pressure1", points(500, pressure_bar))
            .with_unit(Some("bar".to_string())),
        TimeSeries::from_points("PRESSURE_VESSEL[1].temperature1", points(500, temperature_c))
            .with_unit(Some("°C".to_string())),
    ])
}

fn spec_for(project: &Project) -> VaporSpec {
    let mut vapors = Vapors::default();
    let id = vapors.create(project);
    let at = vapors.find(id).unwrap();
    vapors.list.remove(at)
}

#[test]
fn units_are_taken_from_what_the_series_declares() {
    assert_eq!(TempUnit::from_series_unit(Some("°C")), Some(TempUnit::Celsius));
    assert_eq!(TempUnit::from_series_unit(Some("K")), Some(TempUnit::Kelvin));
    assert_eq!(TempUnit::from_series_unit(Some("m/s")), None);
    assert_eq!(TempUnit::from_series_unit(None), None);
    assert_eq!(PressureUnit::from_series_unit(Some("kPa")), Some(PressureUnit::Kpa));
    assert_eq!(PressureUnit::from_series_unit(Some("bar")), Some(PressureUnit::Bar));
    assert_eq!(PressureUnit::from_series_unit(Some("psig")), Some(PressureUnit::Psi));
    assert_eq!(PressureUnit::from_series_unit(Some("rad")), None);
}

#[test]
fn a_unit_reads_as_its_own_label() {
    for unit in TempUnit::all() {
        assert_eq!(TempUnit::from_series_unit(Some(unit.label())), Some(unit));
    }
    for unit in PressureUnit::all() {
        assert_eq!(PressureUnit::from_series_unit(Some(unit.label())), Some(unit));
    }
    // Whatever the case and the blanks around it.
    assert_eq!(PressureUnit::from_series_unit(Some("  KPA ")), Some(PressureUnit::Kpa));
}

#[test]
fn the_pane_opens_on_the_pair_that_describe_the_same_vessel() {
    let project = tank(|_| 20.0, |_| 50.0);
    let spec = spec_for(&project);
    assert_eq!(
        spec.temperature.map(|r| r.series),
        Some("PRESSURE_VESSEL[1].temperature1".to_string())
    );
    assert_eq!(
        spec.pressure.map(|r| r.series),
        Some("PRESSURE_VESSEL[1].pressure1".to_string())
    );
    // ... and with its declared units, not the defaults.
    assert_eq!(spec.t_unit, TempUnit::Celsius);
    assert_eq!(spec.p_unit, PressureUnit::Bar);
}

/// Every temperature is paired with the pressure of its instant, over the whole window.
#[test]
fn a_tank_bled_down_is_paired_sample_by_sample() {
    let project = tank(|_| 20.0, |t| 60.0 - t * 0.04);
    let spec = spec_for(&project);
    let prepared = spec.prepare(&project, (0, secs(500))).ok().expect("samples");
    assert_eq!(prepared.pairs.len(), 500);
    for (i, pair) in prepared.pairs.iter().enumerate() {
        assert_eq!(pair.t, secs(i as i64));
        let (t, p) = if prepared.temperature_is_base {
            (f64::from_bits(pair.value.bits), reading(pair.other))
        } else {
            (reading(pair.other), f64::from_bits(pair.value.bits))
        };
        assert_eq!((t, p), (20.0, 60.0 - i as f64 * 0.04));
    }
}

#[test]
fn warming_past_the_critical_temperature_breaks_the_trace_into_runs() {
    // Two stretches under the critical temperature (36.4 C) with a supercritical one in between.
    let project = tank(|t| if (200.0..300.0).contains(&t) { 40.0 } else { 20.0 }, |_| 50.0);
    let spec = spec_for(&project);
    let prepared = spec.prepare(&project, (0, secs(500))).ok().expect("samples");
    let on_curve: Vec<bool> = prepared
        .pairs
        .iter()
        .map(|p| {
            let t = if prepared.temperature_is_base {
                f64::from_bits(p.value.bits)
            } else {
                reading(p.other)
            };
            t < 36.37
        })
        .collect();
    assert!(on_curve.iter().any(|on| !on));
    assert_eq!(runs(&on_curve).len(), 2, "the supercritical stretch splits the zones");
    assert_eq!(runs(&on_curve), vec![(0, 200), (300, 500)]);
    assert_eq!(runs(&vec![]), vec![]);
    assert!(off_curve_note(&on_curve).is_some());
    assert_eq!(off_curve_note(&vec![true, true]), None);
}

#[test]
fn a_window_past_the_end_of_the_data_keeps_only_the_edge_sample() {
    let project = tank(|_| 20.0, |_| 50.0);
    let spec = spec_for(&project);
    let samples = match spec.prepare(&project, (secs(1_000_000), secs(1_000_010))) {
        Ok(pairs) => pairs.pairs,
        Err(_) => vec![],
    };
    // A range query deliberately hands back the point either side of the window, so a trace
    // still reaches the edge of the viewport. Out here there is nothing else, and nothing is
    // invented to fill the gap.
    assert!(samples.len() <= 1, "{} samples", samples.len());
    assert!(samples.iter().all(|s| s.t <= secs(499)));
}

#[test]
fn a_pane_with_nothing_picked_says_so_rather_than_drawing_an_empty_plot() {
    let project = tank(|_| 20.0, |_| 50.0);
    let mut spec = spec_for(&project);
    spec.temperature = None;
    assert_eq!(spec.prepare(&project, (0, secs(500))).err(), Some(Problem::Unpicked));

    // ... and the same when the series it names has been unloaded.
    let mut spec = spec_for(&project);
    spec.pressure = Some(SeriesRef { source: 99, series: "gone".to_string() });
    assert_eq!(spec.prepare(&project, (0, secs(500))).err(), Some(Problem::Gone));
    assert!(spec.readings_at(&project, 0).is_none());
}

#[test]
fn a_pane_without_samples_or_overlap_says_which() {
    let empty = with_series(vec![
        TimeSeries::from_points("V.pressure1", vec![]).with_unit(Some("bar".to_string())),
        TimeSeries::from_points("V.temperature1", vec![]).with_unit(Some("°C".to_string())),
    ]);
    let spec = spec_for(&empty);
    assert_eq!(spec.prepare(&empty, (0, secs(1))).err(), Some(Problem::NoSamples));

    let apart = with_series(vec![
        TimeSeries::from_points("V.pressure1", vec![(secs(900), d(1.0)), (secs(901), d(1.0))])
            .with_unit(Some("bar".to_string())),
        TimeSeries::from_points("V.temperature1", points(10, |_| 20.0))
            .with_unit(Some("°C".to_string())),
    ]);
    let spec = spec_for(&apart);
    assert_eq!(spec.prepare(&apart, (0, secs(1000))).err(), Some(Problem::NoOverlap));
    assert!(!Problem::NoOverlap.message().is_empty());
}

/// One series ends early; the pane must not carry its last value forward and report a phase for
/// a time only the other series covers.
#[test]
fn samples_are_not_paired_beyond_where_the_other_series_ends() {
    let project = with_series(vec![
        TimeSeries::from_points("PRESSURE_VESSEL[1].pressure1", points(500, |_| 50.0))
            .with_unit(Some("bar".to_string())),
        TimeSeries::from_points("PRESSURE_VESSEL[1].temperature1", points(100, |_| 20.0))
            .with_unit(Some("°C".to_string())),
    ]);
    let spec = spec_for(&project);
    let prepared = spec.prepare(&project, (0, secs(500))).ok().expect("samples");
    assert!(!prepared.pairs.is_empty());
    let last = prepared.pairs.last().unwrap().t;
    assert!(last <= secs(99), "paired out to {last}, past the end of the temperature series");
}

#[test]
fn the_hover_finds_the_sample_nearest_the_pointer() {
    let times = vec![0, 1_000_000, 2_000_000];
    assert_eq!(nearest(&times, -5_000_000).map(|i| times[i]), Some(0));
    assert_eq!(nearest(&times, 400_000).map(|i| times[i]), Some(0));
    assert_eq!(nearest(&times, 600_000).map(|i| times[i]), Some(1_000_000));
    assert_eq!(nearest(&times, 99_000_000).map(|i| times[i]), Some(2_000_000));
    assert!(nearest(&vec![], 0).is_none());

    // Of several at one time, the one next to the instant; the playhead takes the first.
    let doubled = vec![0, 0, 10, 10];
    assert_eq!(nearest(&doubled, 1), Some(1));
    assert_eq!(nearest(&doubled, 0), Some(0));
    assert_eq!(nearest(&doubled, 9), Some(2));
    assert_eq!(nearest(&doubled, 11), Some(3));
    assert_eq!(nearest(&doubled, 5), Some(1), "the earlier of two equally near");
    assert_eq!(at_playhead(&doubled, 1), Some(0));
    assert_eq!(at_playhead(&doubled, 11), Some(2));
    assert_eq!(at_playhead(&doubled, 5), Some(0));
    assert_eq!(at_playhead(&vec![], 5), None);
}

/// A pane that stayed in `Vapors` after its tile was dropped would be a leak with no way to
/// reach it again.
#[test]
fn closing_a_pane_forgets_it() {
    let project = tank(|_| 20.0, |_| 50.0);
    let mut vapors = Vapors::default();
    let first = vapors.create(&project);
    let second = vapors.create(&project);
    vapors.close(first);
    assert!(vapors.get(first).is_none());
    assert!(vapors.get(second).is_some(), "closing one pane must not touch the others");
    vapors.close(second);
    assert!(vapors.get(second).is_none());
    // Closing something already gone is what a double click on the button amounts to, and must
    // not panic.
    vapors.close(first);
}

#[test]
fn a_pane_is_named_after_what_the_two_series_have_in_common() {
    assert_eq!(
        shared_group("CAN_SENSOR[5].slot0", "CAN_SENSOR[5].slot1").as_deref(),
        Some("CAN_SENSOR[5]")
    );
    assert_eq!(shared_group("A.temp", "B.press"), None);
    assert_eq!(shared_group("bare", "other"), None);

    let project = tank(|_| 20.0, |_| 50.0);
    assert_eq!(spec_for(&project).title(), "N₂O · PRESSURE_VESSEL[1]");
}

#[test]
fn unloading_a_source_leaves_the_phase_pane_pointing_at_nothing() {
    let project = tank(|_| 20.0, |_| 50.0);
    let source = project.sources[0].id;
    let mut vapors = Vapors::default();
    let id = vapors.create(&project);
    assert!(vapors.get(id).unwrap().uses(source));
    vapors.forget_source(source);
    let spec = vapors.get(id).unwrap();
    assert!(spec.temperature.is_none() && spec.pressure.is_none());
    assert!(!spec.uses(source));
}

#[test]
fn picking_a_series_adopts_the_unit_it_declares() {
    let project = with_series(vec![
        TimeSeries::from_points("V.p", points(3, |_| 50.0)).with_unit(Some("kPa".to_string())),
        TimeSeries::from_points("V.t", points(3, |_| 290.0)).with_unit(Some("K".to_string())),
    ]);
    let mut spec = spec_for(&tank(|_| 20.0, |_| 50.0));
    spec.pick_temperature(&project, SeriesRef { source: 0, series: "V.t".to_string() });
    spec.pick_pressure(&project, SeriesRef { source: 0, series: "V.p".to_string() });
    assert_eq!((spec.t_unit, spec.p_unit), (TempUnit::Kelvin, PressureUnit::Kpa));
    let (t, p) = spec.readings_at(&project, secs(1)).unwrap();
    assert_eq!((reading(t), reading(p)), (290.0, 50.0));
}

#[test]
fn the_phases_have_colours_of_their_own() {
    let all = [
        Phase::Liquid,
        Phase::Saturated,
        Phase::Vapor,
        Phase::Supercritical,
        Phase::BelowTriple,
    ];
    assert_eq!(phase_color(Phase::Liquid), Rgb { r: 0x4C, g: 0x9A, b: 0xFF });
    for phase in all {
        assert!(!phase.label().is_empty() && !phase.short().is_empty());
    }
}

fn to_kelvin(unit: TempUnit, v: f64) -> f64 {
    let (zero, per, above) = unit.scale();
    (v - f64::from(zero) / 100.0) / (f64::from(per) / 10.0) + f64::from(above) / 100.0
}

fn from_kelvin(unit: TempUnit, kelvin: f64) -> f64 {
    let (zero, per, above) = unit.scale();
    (kelvin - f64::from(above) / 100.0) * (f64::from(per) / 10.0) + f64::from(zero) / 100.0
}

fn kpa(unit: PressureUnit) -> f64 {
    unit.kpa_per_unit() as f64 / 1e15
}

#[test]
fn temperature_units_round_trip_and_know_a_span_from_a_reading() {
    for unit in TempUnit::all() {
        let back = to_kelvin(unit, from_kelvin(unit, 293.15));
        assert!((back - 293.15).abs() < 1e-9, "{unit:?}");
    }
    assert_eq!(to_kelvin(TempUnit::Celsius, 20.0), 293.15);
    assert!((to_kelvin(TempUnit::Fahrenheit, 68.0) - 293.15).abs() < 1e-9);
    // 10 K of superheat is 10 °C but 18 °F: the offset applies to a reading, never to a
    // difference.
    let span = |unit: TempUnit| 10.0 * f64::from(unit.scale().1) / 10.0;
    assert_eq!(span(TempUnit::Celsius), 10.0);
    assert_eq!(span(TempUnit::Kelvin), 10.0);
    assert_eq!(span(TempUnit::Fahrenheit), 18.0);
}

#[test]
fn pressure_units_round_trip() {
    for unit in PressureUnit::all() {
        let back = 5052.6 / kpa(unit) * kpa(unit);
        assert!((back - 5052.6).abs() < 1e-9, "{unit:?}");
    }
    assert_eq!(50.0 * kpa(PressureUnit::Bar), 5000.0);
    assert!((kpa(PressureUnit::Psi) - 6.894_757_293_168_361).abs() < 1e-12);
}

/// A gauge reading is a bar low, so the switch has to actually move the point, and by exactly
/// one atmosphere.
#[test]
fn a_gauge_reading_gets_an_atmosphere_added_to_it() {
    let mut spec = spec_for(&tank(|_| 20.0, |_| 50.0));
    assert_eq!(spec.p_unit, PressureUnit::Bar);
    let absolute = |spec: &VaporSpec| 50.0 * kpa(spec.p_unit) + f64::from(spec.ambient()) / 1e3;
    assert_eq!(absolute(&spec), 5000.0);
    spec.gauge = true;
    assert!((absolute(&spec) - 5101.325).abs() < 1e-9);
}
