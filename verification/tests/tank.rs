use rapid_analyzer::can::CanFrames;
use rapid_analyzer::colors::Rgb;
use rapid_analyzer::double::Double;
use rapid_analyzer::model::{LogFormat, LogSource, Project, Source, SourceId, SourceKind};
use rapid_analyzer::n2o;
use rapid_analyzer::series::{Sample, TimeSeries};
use rapid_analyzer::tank::picture::{LEGEND_W, READOUT_W};
use rapid_analyzer::tank::{
    axis_ticks, column_cell, column_count, grid_lines, heat_blocks, heat_colour, heat_mesh,
    height_name, hover_text, indexed, layout, ramp_stop, row_entry, sensor_band, sensor_groups,
    Area, SensorGroup, SensorUnit, Summary, TankSpec, Tanks, CRITICAL_C, TANK_SENSORS,
};
use rapid_analyzer::vapor::SeriesRef;

const S: i64 = 1_000_000;

fn d(v: f64) -> Double {
    Double { bits: v.to_bits() }
}

fn number(v: Option<Double>) -> Option<f64> {
    v.map(|x| f64::from_bits(x.bits))
}

fn celsius(unit: SensorUnit, raw: Option<Double>) -> Option<f64> {
    let (zero, per_degree) = unit.scale();
    number(raw).map(|v| (v - zero as f64 / 100.0) / (per_degree as f64 / 10.0))
}

/// Adds a log of the given series.
fn log(project: &mut Project, name: &str, series: Vec<TimeSeries>) -> SourceId {
    let id = project.alloc_id();
    project.sources.push(Source {
        id,
        name: name.to_string(),
        path: name.to_string(),
        offset: 0,
        color: Rgb { r: 255, g: 255, b: 255 },
        enabled: true,
        kind: SourceKind::Log(LogSource {
            series,
            format: LogFormat::Tlog,
            can: CanFrames::default(),
        }),
    });
    id
}

/// A series sampled every 0.1 s over ten seconds.
fn flat(name: &str, value: f64, unit: &str) -> TimeSeries {
    let points: Vec<Sample> = (0..=100).map(|i| (i * 100_000, d(value))).collect();
    TimeSeries::from_points(name, points).with_unit(Some(unit.to_string()))
}

fn sort(series: &mut [TimeSeries]) {
    series.sort_by(|a, b| a.name.cmp(&b.name));
}

/// Ten sensor slots off one IO board, plus the kind of company they keep in a real log: a
/// pressure row that must not be mistaken for the wall, and a lone temperature that is not one
/// of a row at all.
fn project_with_a_lined_tank() -> Project {
    let mut project = Project::new();
    let mut series: Vec<TimeSeries> = (0..TANK_SENSORS)
        .map(|s| flat(&format!("CAN_SENSOR[6].slot{s}"), s as f64, "°C"))
        .collect();
    for s in 0..4 {
        series.push(flat(&format!("CAN_SENSOR[7].slot{s}"), 40.0, "bar"));
    }
    series.push(flat("PRESSURE_VESSEL[1].temperature1", 20.0, "°C"));
    sort(&mut series);
    log(&mut project, "run.tlog", series);
    project
}

fn series_at(spec: &TankSpec, sensor: usize) -> Option<&str> {
    spec.sensors[sensor].as_ref().map(|r| r.series.as_str())
}

/// The mapping the whole pane rests on: a row of numbered series becomes ten heights in numeric
/// order, lowest at the bottom. Get this wrong and the picture is upside down or shuffled, which
/// is exactly the sort of wrong that still looks like a plausible tank.
#[test]
fn a_numbered_row_becomes_the_wall_bottom_first() {
    let project = project_with_a_lined_tank();
    let mut tanks = Tanks::default();
    let id = tanks.create(&project);
    let spec = tanks.get(id).expect("the pane exists");

    for sensor in 0..TANK_SENSORS {
        assert_eq!(
            series_at(spec, sensor),
            Some(format!("CAN_SENSOR[6].slot{sensor}").as_str()),
            "height {sensor} is not reading its own series"
        );
    }
    // `slot10` would sort before `slot2` as text, so the order has to come off the number and
    // not the name.
    assert_eq!(indexed("CAN_SENSOR[6].slot10"), Some(("CAN_SENSOR[6].slot".to_string(), 10)));
    assert_eq!(indexed("tank_temp_3"), Some(("tank_temp_".to_string(), 3)));
    assert_eq!(indexed("PRESSURE_VESSEL[1]"), None);
    assert_eq!(indexed("42"), None);
}

/// A probe that never reported leaves its height blank. Packing the ones that did report down
/// into the hole would put every sensor above it at a height it was never at.
#[test]
fn a_missing_sensor_leaves_its_height_blank() {
    let mut project = Project::new();
    let series = (0..TANK_SENSORS)
        .filter(|s| *s != 4)
        .map(|s| flat(&format!("CAN_SENSOR[6].slot{s}"), s as f64, "°C"))
        .collect();
    log(&mut project, "run.tlog", series);

    let mut tanks = Tanks::default();
    let id = tanks.create(&project);
    let spec = tanks.get(id).unwrap();
    assert!(spec.sensors[4].is_none(), "the dead probe's height stays blank");
    for sensor in (0..TANK_SENSORS).filter(|s| *s != 4) {
        assert_eq!(
            series_at(spec, sensor),
            Some(format!("CAN_SENSOR[6].slot{sensor}").as_str()),
        );
    }
}

/// The number is a height, not an index into the list: a row numbered from one lines the same
/// wall as a row numbered from zero.
#[test]
fn a_row_numbered_from_one_still_starts_at_the_bottom() {
    let mut project = Project::new();
    let series = (1..=TANK_SENSORS)
        .map(|s| flat(&format!("tank_temp_{s}"), s as f64, "°C"))
        .collect();
    log(&mut project, "log.sqlite", series);

    let mut tanks = Tanks::default();
    let id = tanks.create(&project);
    let spec = tanks.get(id).unwrap();
    assert_eq!(series_at(spec, 0), Some("tank_temp_1"));
    assert_eq!(series_at(spec, TANK_SENSORS - 1), Some("tank_temp_10"));
}

/// The bar row is longer than nothing and would win on member count alone; it must not, because
/// it is not a temperature.
#[test]
fn a_row_that_is_not_temperatures_is_not_offered() {
    let project = project_with_a_lined_tank();
    let groups = sensor_groups(&project);
    assert!(
        groups.iter().all(|g| g.stem != "CAN_SENSOR[7].slot"),
        "a row declaring bar is not a tank wall"
    );
    assert_eq!(groups.first().map(|g| g.stem.as_str()), Some("CAN_SENSOR[6].slot"));
    assert_eq!(groups[0].fill(), TANK_SENSORS);
    assert!(row_entry(&project, &groups[0]).contains("CAN_SENSOR[6].slot"));
}

/// Ten unrelated temperatures are not a wall. Guessing one out of them would draw a picture of
/// nothing, so the pane opens blank instead.
#[test]
fn a_project_with_no_row_of_sensors_opens_blank() {
    let mut project = Project::new();
    log(&mut project, "run.tlog", vec![flat("PRESSURE_VESSEL[1].temperature1", 20.0, "°C")]);
    let mut tanks = Tanks::default();
    let id = tanks.create(&project);
    assert_eq!(tanks.get(id).unwrap().picked(), 0);
    assert_eq!(tanks.get(id).unwrap().title(), "Tank level");
}

/// A source being unloaded takes its series with it and leaves the pane.
#[test]
fn unloading_a_source_leaves_the_pane_pointing_at_nothing() {
    let project = project_with_a_lined_tank();
    let source = project.sources[0].id;
    let mut tanks = Tanks::default();
    let id = tanks.create(&project);
    assert!(tanks.get(id).unwrap().uses(source));
    tanks.forget_source(source);
    assert_eq!(tanks.get(id).unwrap().picked(), 0);
    assert!(!tanks.get(id).unwrap().uses(source));
}

/// Each height reads its own series, and the field is indexed the way the picture is drawn.
#[test]
fn every_height_reads_its_own_series() {
    let project = project_with_a_lined_tank();
    let mut tanks = Tanks::default();
    let id = tanks.create(&project);
    let spec = tanks.get(id).unwrap();

    let field = spec.sample(&project, (0, 10 * S), 8);
    for sensor in 0..TANK_SENSORS {
        assert_eq!(number(field.at(field.cols - 1, sensor)), Some(sensor as f64));
        assert_eq!(number(field.at(0, sensor)), Some(sensor as f64));
    }
    assert!(!field.is_empty());
}

/// A gap in the log is a hole in the picture. Holding the last value across a dropout would
/// paint a tank that was never measured, and a window that starts before the log does must stay
/// empty rather than be back-filled with the first sample.
#[test]
fn a_dropout_is_a_hole_not_a_held_value() {
    let mut project = Project::new();
    let mut points: Vec<Sample> = (0..=100).map(|i| (i * 100_000, d(10.0))).collect();
    points.extend((0..=100).map(|i| (20 * S + i * 100_000, d(30.0))));
    let source = log(
        &mut project,
        "run.tlog",
        vec![TimeSeries::from_points("t_0", points).with_unit(Some("°C".to_string()))],
    );

    let mut spec = TankSpec { id: 0, ..TankSpec::default() };
    spec.sensors[0] = Some(SeriesRef { source, series: "t_0".to_string() });

    // 31 columns over 30 s: one a second, so the 2 s hold is what decides.
    let field = spec.sample(&project, (0, 30 * S), 31);
    assert_eq!(number(field.at(10, 0)), Some(10.0), "the last sample stands briefly");
    assert!(field.at(15, 0).is_none(), "a gap of more than the hold is a gap");
    assert_eq!(number(field.at(30, 0)), Some(30.0), "and it comes back cleanly");

    // A window reaching back before the log starts: those columns are empty rather than
    // back-filled with the first sample, which would invent a flat history.
    let before = spec.sample(&project, (-30 * S, 10 * S), 41);
    assert!(before.at(0, 0).is_none(), "the empty past must stay empty");
    assert!(before.at(20, 0).is_none());
    assert_eq!(
        number(before.at(40, 0)),
        Some(10.0),
        "and the columns the log covers are filled"
    );

    // The readout at the playhead answers the same way.
    assert_eq!(number(spec.readings_at(&project, 10_500_000)[0]), Some(10.0));
    assert_eq!(spec.readings_at(&project, 15 * S)[0], None);
    assert_eq!(spec.readings_at(&project, -S)[0], None);
}

/// Zoomed out, a column is wider than the hold and the decimated slice is coarser than the log,
/// so a fixed hold would hollow the strip out at exactly the zoom that shows the whole run.
#[test]
fn the_hold_grows_with_the_column_so_a_wide_view_is_not_hollow() {
    let mut project = Project::new();
    let points: Vec<Sample> = (0..500_000).map(|i| (i * 10_000, d(20.0))).collect();
    let source = log(
        &mut project,
        "big.tlog",
        vec![TimeSeries::from_points("t_0", points).with_unit(Some("°C".to_string()))],
    );
    let mut spec = TankSpec::default();
    spec.sensors[0] = Some(SeriesRef { source, series: "t_0".to_string() });

    // 5000 s of log across 200 columns: 25 s a column, against a 2 s hold.
    let field = spec.sample(&project, (0, 5000 * S), 200);
    for col in 1..200 {
        assert_eq!(number(field.at(col, 0)), Some(20.0), "column {col} went hollow");
    }
}

/// A series in kelvin is read as kelvin. Painting 293 K as 293 °C would put a perfectly ordinary
/// tank off the top of the ramp.
#[test]
fn the_series_unit_is_what_the_series_is_read_as() {
    let mut project = Project::new();
    let source = log(&mut project, "k.tlog", vec![flat("t_0", 293.15, "K")]);
    let mut spec = TankSpec { unit: SensorUnit::Kelvin, ..TankSpec::default() };
    spec.sensors[0] = Some(SeriesRef { source, series: "t_0".to_string() });
    let reading =
        celsius(spec.unit, spec.readings_at(&project, 5 * S)[0]).expect("a reading");
    assert!((reading - 20.0).abs() < 1e-9, "293.15 K is 20 °C, got {reading}");

    // And the pane opens on the unit the series declares.
    let mut tanks = Tanks::default();
    let mut kelvin_wall = Project::new();
    let series =
        (0..TANK_SENSORS).map(|s| flat(&format!("wall{s}"), 293.15, "K")).collect();
    log(&mut kelvin_wall, "k.tlog", series);
    let id = tanks.create(&kelvin_wall);
    assert_eq!(tanks.get(id).unwrap().unit, SensorUnit::Kelvin);
}

/// A tank node's twelve slots can come through declaring nothing, because the node had not
/// announced what they measure yet. They must still be found, and read as hundredths of a
/// degree, not as degrees.
#[test]
fn a_row_that_declares_nothing_is_read_as_counts() {
    let mut project = Project::new();
    let mut series: Vec<TimeSeries> = (0..12)
        .map(|s| flat(&format!("CAN_SENSOR[10].slot{s}"), 2000.0, "counts"))
        .collect();
    // The other boards on the bus, which do announce: one temperature among a row of pressures.
    // Neither is a wall.
    series.push(flat("CAN_SENSOR[5].slot0", 16.0, "°C"));
    for s in 1..5 {
        series.push(flat(&format!("CAN_SENSOR[5].slot{s}"), 40.0, "bar"));
    }
    sort(&mut series);
    log(&mut project, "run.tlog", series);

    let mut tanks = Tanks::default();
    let id = tanks.create(&project);
    let spec = tanks.get(id).unwrap();
    assert_eq!(spec.unit, SensorUnit::CentiCelsius);
    assert_eq!(spec.picked(), TANK_SENSORS);
    assert_eq!(series_at(spec, 0), Some("CAN_SENSOR[10].slot0"));
    // Slots 10 and 11 are past the top of the tank and are dropped.
    assert_eq!(series_at(spec, TANK_SENSORS - 1), Some("CAN_SENSOR[10].slot9"));
    assert_eq!(
        celsius(spec.unit, spec.readings_at(&project, 5 * S)[0]),
        Some(20.0),
        "2000 counts is 20 °C"
    );

    // And a row of pressures is not offered as a wall at any price.
    let groups = sensor_groups(&project);
    assert_eq!(groups.first().map(|g| g.stem.as_str()), Some("CAN_SENSOR[10].slot"));
    assert!(groups.iter().all(|g| g.members.iter().all(|(_, n)| n != "CAN_SENSOR[5].slot1")));
}

/// A declared temperature outranks a row that merely declares nothing, so a log carrying both
/// opens on the one that says what it is.
#[test]
fn a_declared_temperature_row_outranks_an_unannounced_one() {
    let mut project = Project::new();
    let mut series: Vec<TimeSeries> = (0..TANK_SENSORS)
        .map(|s| flat(&format!("CAN_SENSOR[10].slot{s}"), 2000.0, "counts"))
        .collect();
    series.extend(
        (0..TANK_SENSORS).map(|s| flat(&format!("CAN_SENSOR[6].slot{s}"), 20.0, "°C")),
    );
    sort(&mut series);
    log(&mut project, "run.tlog", series);

    let mut tanks = Tanks::default();
    let id = tanks.create(&project);
    assert_eq!(tanks.get(id).unwrap().unit, SensorUnit::Celsius);
    assert_eq!(series_at(tanks.get(id).unwrap(), 0), Some("CAN_SENSOR[6].slot0"));
}

/// The promise blocks mode makes: every point in the tank belongs to exactly one sensor. No
/// overlap between regions, no seam between them, and the two end sensors reach the walls.
#[test]
fn the_bands_tile_the_tank_exactly() {
    let (top, bottom) = (10.0_f32, 410.0_f32);
    let y = |up: u8| bottom - (bottom - top) * up as f32 / 18.0;
    let bands: Vec<(f32, f32)> = (0..TANK_SENSORS)
        .map(|s| sensor_band(s))
        .map(|(upper, lower)| (y(upper), y(lower)))
        .collect();

    assert_eq!(bands[0].1, bottom, "sensor 0 reaches the floor");
    assert_eq!(bands[TANK_SENSORS - 1].0, top, "the top sensor reaches the roof");
    for (sensor, band) in bands.iter().enumerate() {
        assert!(band.0 < band.1, "sensor {sensor} has no height");
    }
    for sensor in 1..TANK_SENSORS {
        assert_eq!(
            bands[sensor].1,
            bands[sensor - 1].0,
            "sensors {} and {sensor} do not meet cleanly",
            sensor - 1
        );
    }
    for (sensor, band) in bands.iter().enumerate() {
        let y = bottom - (bottom - top) * sensor as f32 / (TANK_SENSORS - 1) as f32;
        assert!(band.0 <= y && y <= band.1, "sensor {sensor} is not in its band");
    }
}

/// The same for the time axis: the columns tile the window, and the two end columns reach the
/// edges the window promises they are.
#[test]
fn the_columns_tile_the_window_exactly() {
    let cols = 16;
    let cells: Vec<(u128, u128)> = (0..cols).map(|c| column_cell(c, cols)).collect();

    assert_eq!(cells[0].0, 0);
    assert_eq!(cells[cols - 1].1, 2 * (cols as u128 - 1));
    for col in 1..cols {
        assert_eq!(cells[col].0, cells[col - 1].1, "column {col} leaves a seam");
    }
}

fn warmth(c: Rgb) -> i32 {
    i32::from(c.r) - i32::from(c.b)
}

/// Cold is blue, hot is red, and warmth climbs the whole way.
#[test]
fn the_ramp_runs_cold_to_hot_and_clamps() {
    let (lo, hi) = (-20_000, 40_000);
    let cold = heat_colour(lo, lo, hi);
    let hot = heat_colour(hi, lo, hi);
    assert!(cold.b > cold.r, "the cold end is blue");
    assert!(hot.r > hot.b, "the hot end is red");
    assert_eq!(heat_colour(-300_000, lo, hi), cold);
    assert_eq!(heat_colour(300_000, lo, hi), hot);

    let mut last = i32::MIN;
    for step in 0..=60 {
        let c = lo + (hi - lo) * step / 60;
        let warmth = warmth(heat_colour(c, lo, hi));
        assert!(warmth >= last, "the ramp cooled off again at {c} m°C");
        last = warmth;
    }
}

#[test]
fn the_stops_of_the_ramp_are_a_quarter_apart() {
    let (lo, hi) = (-20_000, 40_000);
    for stop in 0..5 {
        assert_eq!(heat_colour(lo + 15_000 * stop as i64, lo, hi), ramp_stop(stop));
    }
    // Halfway between the first two.
    assert_eq!(heat_colour(-12_500, lo, hi), Rgb { r: 44, g: 95, b: 198 });
    // A scale without a span has only its ends.
    assert_eq!(heat_colour(5, 5, 5), ramp_stop(0));
    assert_eq!(heat_colour(6, 5, 5), ramp_stop(4));
}

/// The picture itself: every cell of a fully reported wall is drawn, and a moment a sensor said
/// nothing in is a hole in the mesh rather than a triangle of some interpolated colour.
#[test]
fn the_mesh_paints_each_height_its_own_temperature() {
    let project = project_with_a_lined_tank();
    let mut tanks = Tanks::default();
    let id = tanks.create(&project);
    let spec = tanks.get(id).unwrap();

    // The wall reads 0 °C at the bottom through 9 °C at the top.
    let field = spec.sample(&project, (0, 10 * S), 4);
    assert_eq!(field.cells.len(), 4 * TANK_SENSORS);
    // Two triangles to a cell.
    let mesh = heat_mesh(&field);
    assert_eq!(mesh.len(), (4 - 1) * (TANK_SENSORS - 1) * 6);
    assert!(mesh.iter().all(|i| (*i as usize) < field.cells.len()));
    assert_eq!(number(field.cells[0]), Some(0.0));
    assert_eq!(number(field.cells[3 * TANK_SENSORS + 9]), Some(9.0));
    let colour = |reading: Option<Double>| {
        let c = celsius(spec.unit, reading).unwrap();
        heat_colour((c * 1e3).round() as i64, spec.lo_c, spec.hi_c)
    };
    let (bottom, top) = (colour(field.at(0, 0)), colour(field.at(0, TANK_SENSORS - 1)));
    assert_eq!(bottom, heat_colour(0, spec.lo_c, spec.hi_c));
    assert_eq!(colour(field.at(3, 9)), heat_colour(9_000, spec.lo_c, spec.hi_c));
    assert!(warmth(top) > warmth(bottom), "the warm top must read warmer than the cold bottom");

    // A window the log does not reach is a hole, not a colour.
    let empty = spec.sample(&project, (1_000_000 * S, 1_000_010 * S), 4);
    assert!(empty.is_empty());
    assert!(heat_mesh(&empty).is_empty());
    assert!(heat_blocks(&empty).is_empty());

    // Blocks mode paints the same wall as flat rectangles: one per sensor per column, and the
    // bottom band reaches the floor.
    let blocks = heat_blocks(&field);
    assert_eq!(blocks.len(), 4 * TANK_SENSORS);
    assert_eq!(blocks[0], (0, 0));
    assert!(blocks.iter().any(|b| sensor_band(b.1).1 == 0));
}

/// The critical point the ramp and the readout are anchored on is the one of the saturation
/// table, not a second copy of it that could drift.
#[test]
fn the_critical_point_matches_the_saturation_table() {
    assert_eq!(CRITICAL_C, 36_370);
    assert!(n2o::upper_row((CRITICAL_C + 273_150) * S, false).is_some());
    assert!(n2o::upper_row((CRITICAL_C + 273_150 + 500) * S, false).is_none());
}

/// Two columns is the narrowest grid there is, and the one the column spacing divides by.
#[test]
fn a_two_column_field_is_still_a_field() {
    let project = project_with_a_lined_tank();
    let mut tanks = Tanks::default();
    let id = tanks.create(&project);
    let field = tanks.get(id).unwrap().sample(&project, (0, 10 * S), 1);
    assert_eq!(field.cols, 2);
    assert_eq!(number(field.at(1, 3)), Some(3.0));
}

/// Every rect the painter uses is arrived at by subtracting fixed gutters from whatever the pane
/// is, so a narrow pane is the case where a width goes negative and a `cols - 1` divides by
/// zero. It has to refuse rather than draw.
#[test]
fn the_layout_refuses_a_pane_it_cannot_draw_in() {
    let pane = |w: i32, h: i32| Area { left: 0, top: 0, right: w * 1000, bottom: h * 1000 };
    let big = layout(pane(900, 640)).expect("room");
    assert!(big.body.right > big.body.left && big.body.bottom > big.body.top);
    assert!(big.body.right as i64 + READOUT_W + LEGEND_W <= 900_000);
    assert!(layout(pane(200, 640)).is_none());
    assert!(layout(pane(900, 50)).is_none());
    // The pointer finds its sensor and its column.
    assert_eq!(big.sensor_at(big.body.bottom), 0);
    assert_eq!(big.sensor_at(big.body.top), TANK_SENSORS - 1);
    let cols = column_count(big.body);
    assert_eq!(big.column_at(big.body.left, cols), 0);
    assert_eq!(big.column_at(big.body.right, cols), cols - 1);
}

#[test]
fn a_row_can_be_picked_and_a_height_changed() {
    let project = project_with_a_lined_tank();
    let groups = sensor_groups(&project);
    let mut spec = TankSpec::default();
    assert_eq!(spec.picked(), 0);
    spec.pick_row(&groups[0]);
    assert_eq!(spec.picked(), TANK_SENSORS);
    assert_eq!(spec.stem().as_deref(), Some("CAN_SENSOR[6].slot"));
    spec.pick_height(3, None);
    assert_eq!(spec.picked(), TANK_SENSORS - 1);
    spec.open_sensor_pickers();
    assert!(spec.sensors_open);
}

#[test]
fn the_ends_of_the_ramp_stay_apart() {
    let mut spec = TankSpec::default();
    spec.set_lo(39_000);
    assert!(spec.hi_c - spec.lo_c >= 5_000, "{}..{}", spec.lo_c, spec.hi_c);
    spec.set_hi(-100_000);
    assert!(spec.hi_c - spec.lo_c >= 5_000, "{}..{}", spec.lo_c, spec.hi_c);
    spec.reset_scale();
    assert_eq!((spec.lo_c, spec.hi_c), (-20_000, 40_000));
}

#[test]
fn a_readout_says_what_is_missing() {
    assert_eq!(Summary::of(&vec![None; 10], 0), Summary::Unpicked);
    assert_eq!(Summary::of(&vec![None; 10], 10), Summary::NoReading);
    let mut some = vec![None; 10];
    some[2] = Some(d(1.0));
    assert_eq!(Summary::of(&some, 10), Summary::Readings { blank: 9 });
    assert_eq!(Summary::Readings { blank: 0 }.note(), None);
    assert!(Summary::Readings { blank: 9 }.note().is_some());
    assert!(height_name(0) != height_name(9));
    assert!(hover_text(3, Some("4.5 °C"), 0).contains("4.5 °C"));
}

#[test]
fn ticks_and_grid_lines_span_the_picture() {
    let ticks = axis_ticks((0, 4_000));
    assert_eq!(ticks, vec![0, 1_000, 2_000, 3_000, 4_000]);
    assert!(!grid_lines(false).is_empty());
    assert!(!grid_lines(true).is_empty());
    assert_eq!(SensorUnit::all().len(), 4);
    assert_eq!(SensorUnit::from_series_unit(Some("degC")), Some(SensorUnit::Celsius));
}

/// Two members of one number stand at one height.
#[test]
fn a_height_is_filled_once() {
    let group = SensorGroup {
        source: 0,
        stem: "t_".to_string(),
        members: vec![(1, "t_01".to_string()), (1, "t_1".to_string())],
        score: 2,
    };
    assert_eq!(group.fill(), 1);
    assert_eq!(group.label(), "t_…  (1 of 10 heights)");
    assert_eq!(group.assign().iter().flatten().count(), 1);
}
