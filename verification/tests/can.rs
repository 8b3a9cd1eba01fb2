use rapid_analyzer::can::{CanFrame, CanFrames, Extracted, FieldKind, RawValue, SignalSpec};

fn frame(id: u32, data: [u8; 8]) -> CanFrame {
    CanFrame { t_utc: 0, id, bus: 1, len: 8, data }
}

fn number(v: RawValue) -> f64 {
    match v {
        RawValue::Int(n) => n as f64,
        RawValue::Float(bits) => f32::from_bits(bits) as f64,
    }
}

fn read(kind: FieldKind, f: &CanFrame, offset: usize, big_endian: bool) -> Option<f64> {
    kind.read(f, offset, big_endian).map(number)
}

fn at(series: &Extracted, t: i64) -> Option<f64> {
    series.points.iter().find(|p| p.0 == t).map(|p| number(p.1))
}

fn spec_of(id: u32, kind: FieldKind) -> SignalSpec {
    SignalSpec { id, kind, ..Default::default() }
}

#[test]
fn fields_are_read_little_endian_by_default() {
    let f = frame(0x243, [0x00, 0x80, 0x98, 0x08, 0x34, 0x12, 0xFF, 0xFF]);
    assert_eq!(read(FieldKind::U16, &f, 0, false), Some(32768.0));
    assert_eq!(read(FieldKind::U16, &f, 2, false), Some(2200.0));
    assert_eq!(read(FieldKind::U16, &f, 4, true), Some(0x3412 as f64));
    assert_eq!(read(FieldKind::I16, &f, 6, false), Some(-1.0));
    assert_eq!(read(FieldKind::I8, &f, 6, false), Some(-1.0));
    assert_eq!(read(FieldKind::U8, &f, 1, false), Some(128.0));
    assert_eq!(read(FieldKind::Bit(7), &f, 1, false), Some(1.0));
    assert_eq!(read(FieldKind::Bit(0), &f, 1, false), Some(0.0));
}

#[test]
fn floats_round_trip_through_the_payload() {
    let mut data = [0u8; 8];
    data[..4].copy_from_slice(&(-12.5f32).to_le_bytes());
    data[4..].copy_from_slice(&(0.25f32).to_be_bytes());
    let f = frame(0x100, data);
    assert_eq!(read(FieldKind::F32, &f, 0, false), Some(-12.5));
    assert_eq!(read(FieldKind::F32, &f, 4, true), Some(0.25));
}

#[test]
fn a_field_past_the_end_of_a_short_frame_is_no_sample() {
    let mut f = frame(0x703, [5, 0, 0, 0, 0, 0, 0, 0]);
    f.len = 1;
    assert_eq!(read(FieldKind::U8, &f, 0, false), Some(5.0));
    assert_eq!(read(FieldKind::U16, &f, 0, false), None);
    assert_eq!(read(FieldKind::U8, &f, 1, false), None);
    // ... and nothing reads past the payload however long the frame claims.
    f.len = 8;
    assert_eq!(read(FieldKind::U32, &f, 6, false), None);
    assert_eq!(read(FieldKind::U8, &f, usize::MAX, false), None);
    f.len = 255;
    assert_eq!(read(FieldKind::U16, &f, 7, false), None);
}

#[test]
fn extraction_keeps_only_the_matching_identifier() {
    let mut frames = CanFrames::default();
    for (i, id) in [0x243u32, 0x244, 0x243].into_iter().enumerate() {
        frames.push(CanFrame {
            t_utc: i as i64 * 1_000_000,
            id,
            bus: 1,
            len: 8,
            data: [i as u8, 0, 0, 0, 0, 0, 0, 0],
        });
    }
    let series = frames.extract(&spec_of(0x243, FieldKind::U8));
    assert_eq!(series.points.len(), 2);
    assert_eq!(at(&series, 0), Some(0.0));
    assert_eq!(at(&series, 2_000_000), Some(2.0));
}

#[test]
fn extraction_can_be_held_to_one_bus() {
    let mut frames = CanFrames::new();
    frames.push(frame(0x243, [1; 8]));
    frames.push(CanFrame { bus: 2, ..frame(0x243, [2; 8]) });
    let spec = SignalSpec { bus: Some(2), ..spec_of(0x243, FieldKind::U8) };
    let series = frames.extract(&spec);
    assert_eq!(series.points, vec![(0, RawValue::Int(2))]);
    assert_eq!(frames.extract(&spec_of(0x243, FieldKind::U8)).points.len(), 2);
    assert_eq!(frames.len(), 2);
    assert!(!frames.is_empty());
    assert_eq!(frames.frames()[1].bus, 2);
}

#[test]
fn scale_and_bias_convert_raw_counts() {
    let mut frames = CanFrames::default();
    frames.push(frame(0x2E5, [0xD2, 0x27, 0, 0, 0, 0, 0, 0]));
    // 10194 mV read as volts.
    let series = frames.extract(&SignalSpec {
        unit: "V".to_string(),
        ..spec_of(0x2E5, FieldKind::U16)
    });
    assert_eq!(at(&series, 0).map(|v| v * 0.001 + 0.0), Some(10.194));
    assert_eq!(series.unit.as_deref(), Some("V"));
}

#[test]
fn a_blank_unit_is_no_unit() {
    let frames = CanFrames::default();
    let series = frames.extract(&SignalSpec {
        unit: "   ".to_string(),
        ..spec_of(0x2E5, FieldKind::U16)
    });
    assert_eq!(series.unit, None);
    assert!(series.points.is_empty());
}

#[test]
fn an_unnamed_signal_names_itself_after_where_it_came_from() {
    let spec = SignalSpec { offset: 2, ..spec_of(0x243, FieldKind::U16) };
    assert_eq!(spec.series_name(), "CAN[0x243].u16@2");
    assert_eq!(
        SignalSpec {
            big_endian: true,
            bus: Some(1),
            offset: 2,
            ..spec_of(0x243, FieldKind::U16)
        }
        .series_name(),
        "CAN[bus1:0x243].u16be@2"
    );
    assert_eq!(
        SignalSpec { offset: 0, ..spec_of(0x243, FieldKind::Bit(3)) }.series_name(),
        "CAN[0x243].bit3@0"
    );
    assert_eq!(
        SignalSpec {
            name: "  chamber pressure  ".to_string(),
            offset: 2,
            ..spec_of(0x243, FieldKind::U16)
        }
        .series_name(),
        "chamber pressure"
    );
}

#[test]
fn identifiers_are_counted_and_described() {
    let mut frames = CanFrames::default();
    for id in [0x243u32, 0x243, 0x707] {
        frames.push(frame(id, [0; 8]));
    }
    let ids = frames.identifiers();
    assert_eq!(ids.len(), 2);
    assert_eq!((ids[0].id, ids[0].count), (0x243, 2));
    assert!(
        ids[0].description.as_deref().is_some_and(|d| d.contains("HcoState")),
        "{:?}",
        ids[0].description
    );
    assert_eq!((ids[1].id, ids[1].count), (0x707, 1));
    assert_eq!(ids[0].label(), "0x243  (bus 1, 2 frames)  --  node 3 HcoState");
}

#[test]
fn identifiers_come_by_bus_and_carry_the_longest_payload() {
    let mut frames = CanFrames::default();
    frames.push(CanFrame { bus: 2, len: 3, ..frame(0x100, [0; 8]) });
    frames.push(CanFrame { len: 2, ..frame(0x7FF, [0; 8]) });
    frames.push(CanFrame { bus: 2, len: 5, ..frame(0x100, [0; 8]) });
    let ids = frames.identifiers();
    assert_eq!(ids.len(), 2);
    assert_eq!((ids[0].bus, ids[0].id, ids[0].max_len), (1, 0x7FF, 2));
    assert_eq!((ids[1].bus, ids[1].id, ids[1].max_len, ids[1].count), (2, 0x100, 5, 2));
}

#[test]
fn widths_and_names_of_the_field_kinds() {
    let widths: Vec<usize> = FieldKind::all().iter().map(|k| k.width()).collect();
    assert_eq!(widths, [1, 1, 2, 2, 4, 4, 4, 1]);
    let names: Vec<&str> = FieldKind::all().iter().map(|k| k.name()).collect();
    assert_eq!(names, ["u8", "i8", "u16", "i16", "u32", "i32", "f32", "bit"]);
    assert!(FieldKind::U16.has_byte_order());
    assert!(!FieldKind::Bit(3).has_byte_order());
    let f = frame(0x100, [0xFF, 0xFF, 0xFF, 0xFF, 0x01, 0, 0, 0x80]);
    assert_eq!(FieldKind::U32.read(&f, 0, false), Some(RawValue::Int(0xFFFF_FFFF)));
    assert_eq!(FieldKind::I32.read(&f, 0, false), Some(RawValue::Int(-1)));
    assert_eq!(FieldKind::I32.read(&f, 4, false), Some(RawValue::Int(-0x7FFF_FFFF)));
    assert_eq!(FieldKind::U32.read(&f, 4, true), Some(RawValue::Int(0x0100_0080)));
}
