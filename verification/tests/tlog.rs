use rapid_analyzer::double::Double;
use rapid_analyzer::import::tlog::{
    import, instance_label, numeric_value, record_time, Collector, Json, Message, RawSeries,
};
use rapid_analyzer::mavlink_meta::{
    enum_value, message, short_enum_entry, EnumEntry, FieldMeta, MessageMeta, Schema,
};

fn d(v: f64) -> Double {
    Double { bits: v.to_bits() }
}

fn field(name: &str, ty: &str) -> FieldMeta {
    FieldMeta {
        name: name.to_string(),
        ty: ty.to_string(),
        units: None,
        enum_name: None,
        invalid: None,
        is_instance: false,
    }
}

fn in_unit(name: &str, ty: &str, unit: &str) -> FieldMeta {
    FieldMeta { units: Some(unit.to_string()), ..field(name, ty) }
}

fn instance(name: &str, ty: &str, of: Option<&str>) -> FieldMeta {
    FieldMeta { enum_name: of.map(str::to_string), is_instance: true, ..field(name, ty) }
}

fn entry(enum_name: &str, entry: &str, value: i64) -> EnumEntry {
    EnumEntry { enum_name: enum_name.to_string(), entry: entry.to_string(), value }
}

/// The messages of the vehicle that these tests speak of, beside a few of the common ones.
fn schema() -> Schema {
    Schema {
        messages: vec![
            MessageMeta {
                name: "BATTERY_STATUS".to_string(),
                fields: vec![
                    instance("id", "uint8_t", None),
                    field("mavtype", "uint8_t"),
                    in_unit("voltages", "uint16_t[10]", "mV"),
                ],
            },
            MessageMeta {
                name: "HEARTBEAT".to_string(),
                fields: vec![field("custom_mode", "uint32_t"), field("mavtype", "uint8_t")],
            },
            MessageMeta {
                name: "PRESSURE_VESSEL".to_string(),
                fields: vec![
                    instance("id", "uint8_t", None),
                    in_unit("pressure1", "uint16_t", "kPa"),
                    in_unit("pressure2", "uint16_t", "kPa"),
                    in_unit("temperature1", "int16_t", "cdegC"),
                    in_unit("level", "uint16_t", "%"),
                ],
            },
            MessageMeta {
                name: "VALVE".to_string(),
                fields: vec![
                    instance("id", "uint8_t", Some("VALVE_ID")),
                    field("state", "float"),
                ],
            },
        ],
        entries: vec![
            entry("MAV_MODE_FLAG", "MAV_MODE_FLAG_SAFETY_ARMED", 128),
            entry("MAV_MODE_FLAG", "MAV_MODE_FLAG_TEST_ENABLED", 2),
            entry("VALVE_ID", "VALVE_ID_MAIN", 4),
            entry("VALVE_ID", "VALVE_ID_OXIDIZER_VENT", 5),
        ],
    }
}

fn n(v: f64) -> Json {
    Json::Number(d(v), format!("{v}"))
}

fn named(entry: &str) -> Json {
    Json::Object(vec![("type".to_string(), Json::Text(entry.to_string()))])
}

fn msg(name: &str, system: u32, t: i64, fields: Vec<(&str, Json)>) -> Message {
    Message {
        name: name.to_string(),
        system,
        component: 1,
        t_utc: t,
        fields: fields.into_iter().map(|(k, v)| (k.to_string(), v)).collect(),
    }
}

fn collect(messages: &[Message]) -> Vec<RawSeries> {
    let schema = schema();
    let mut collector = Collector::new();
    for m in messages {
        collector.push_message(&schema, m);
    }
    collector.finish(&schema)
}

fn names(messages: &[Message]) -> Vec<String> {
    collect(messages).into_iter().map(|s| s.name).collect()
}

fn pressure_vessel(id: u8, pressure1: u16, temperature1: i16, t: i64) -> Message {
    msg(
        "PRESSURE_VESSEL",
        4,
        t,
        vec![
            ("type", Json::Text("PRESSURE_VESSEL".to_string())),
            ("id", n(id as f64)),
            ("pressure1", n(pressure1 as f64)),
            // "no reading" everywhere else.
            ("pressure2", n(u16::MAX as f64)),
            ("temperature1", n(temperature1 as f64)),
            ("level", n(u16::MAX as f64)),
        ],
    )
}

#[test]
fn instances_become_separate_series() {
    let names =
        names(&[pressure_vessel(0, 4540, 2000, 0), pressure_vessel(1, 110, 2144, 1_000_000)]);
    assert!(names.contains(&"PRESSURE_VESSEL[0].pressure1".to_string()), "{names:?}");
    assert!(names.contains(&"PRESSURE_VESSEL[1].pressure1".to_string()), "{names:?}");
    // The id is in the name now; a series of it would be a constant line.
    assert!(!names.iter().any(|n| n.ends_with(".id")), "{names:?}");
    // Every sample of these was the "no reading" sentinel, so they should not show up as flat
    // lines at 65535.
    assert!(!names.iter().any(|n| n.ends_with(".pressure2")), "{names:?}");
    assert!(!names.iter().any(|n| n.ends_with(".level")), "{names:?}");
}

#[test]
fn enum_instance_fields_are_named_and_split() {
    let valve = |id: &str, state: f64| {
        msg("VALVE", 4, 0, vec![("id", named(id)), ("state", n(state)), ("commanded", n(state))])
    };
    let names = names(&[valve("VALVE_ID_MAIN", 1.0), valve("VALVE_ID_OXIDIZER_VENT", 0.0)]);
    assert!(names.contains(&"VALVE[MAIN].state".to_string()), "{names:?}");
    assert!(names.contains(&"VALVE[OXIDIZER_VENT].state".to_string()), "{names:?}");
}

#[test]
fn centi_units_are_scaled_to_their_display_unit() {
    let series = collect(&[pressure_vessel(1, 110, 2144, 0)]);
    let temp = series
        .iter()
        .find(|s| s.name == "PRESSURE_VESSEL[1].temperature1")
        .expect("temperature series");
    assert_eq!(temp.unit.as_deref(), Some("°C"));
    assert_eq!(temp.decimals, 2);
    let (t, raw) = temp.points[0];
    assert_eq!((t, f64::from_bits(raw.bits) * 0.01), (0, 21.44));
}

#[test]
fn system_ids_are_spelled_out_only_when_ambiguous() {
    let heartbeat = |system: u32| msg("HEARTBEAT", system, 0, vec![("custom_mode", n(0.0))]);
    let single = names(&[heartbeat(4)]);
    assert!(single.iter().all(|n| !n.contains('@')), "{single:?}");

    let mixed = names(&[heartbeat(4), heartbeat(254)]);
    assert!(mixed.contains(&"HEARTBEAT@4:1.custom_mode".to_string()), "{mixed:?}");
    assert!(mixed.contains(&"HEARTBEAT@254:1.custom_mode".to_string()), "{mixed:?}");
}

#[test]
fn arrays_of_numbers_are_expanded_and_texts_left_out() {
    let all = names(&[msg(
        "BATTERY_STATUS",
        1,
        0,
        vec![
            ("id", n(0.0)),
            ("voltages", Json::Array(vec![n(4100.0), n(65535.0), n(4000.0)])),
            ("comment", Json::Text("hello".to_string())),
            ("nothing", Json::Null),
            ("mixed", Json::Array(vec![n(1.0), Json::Null])),
        ],
    )]);
    // The second cell read the sentinel.
    assert_eq!(all, ["BATTERY_STATUS[0].voltages[0]", "BATTERY_STATUS[0].voltages[2]"]);
}

#[test]
fn rapid_dialect_messages_are_present() {
    let schema = schema();
    let pv = message(&schema, "PRESSURE_VESSEL").expect("PRESSURE_VESSEL in the schema");
    assert_eq!(pv.instance_field().map(|f| f.name.as_str()), Some("id"));
    assert_eq!(pv.field("pressure1").unwrap().units.as_deref(), Some("kPa"));
    // Nothing is declared `invalid`, so the implicit type-max rule has to be what removes the
    // 65535 "no reading" samples.
    assert_eq!(pv.field("pressure1").unwrap().invalid_value(), Some(d(65535.0)));
    assert_eq!(pv.field("temperature1").unwrap().invalid_value(), Some(d(32767.0)));
    assert_eq!(
        pv.field("temperature1").unwrap().unit_scale(),
        (Some("°C".to_string()), 2)
    );
    // The instance field itself must survive; dropping id 255 would be dropping a whole vessel.
    assert_eq!(pv.field("id").unwrap().invalid_value(), None);
}

#[test]
fn enum_fields_resolve_to_numbers() {
    let schema = schema();
    let valve = message(&schema, "VALVE").expect("VALVE in the schema");
    let id = valve.instance_field().expect("VALVE.id is the instance field");
    assert_eq!(id.enum_name.as_deref(), Some("VALVE_ID"));
    assert_eq!(enum_value(&schema, id.enum_name.as_ref(), "VALVE_ID_MAIN"), Some(4));
    assert_eq!(short_enum_entry(id.enum_name.as_ref(), "VALVE_ID_MAIN"), "MAIN");
    assert_eq!(short_enum_entry(None, "VALVE_ID_MAIN"), "VALVE_ID_MAIN");
    assert_eq!(enum_value(&schema, id.enum_name.as_ref(), "VALVE_ID_NOPE"), None);
}

#[test]
fn common_dialect_is_merged_in() {
    let schema = schema();
    let bat = message(&schema, "BATTERY_STATUS").expect("BATTERY_STATUS");
    assert_eq!(bat.instance_field().map(|f| f.name.as_str()), Some("id"));
    // The implicit rule has to cover the per-cell series.
    assert_eq!(bat.field("voltages").unwrap().invalid_value(), Some(d(65535.0)));
    assert!(bat.field("mavtype").is_some());
    assert!(message(&schema, "NO_SUCH_MESSAGE").is_none());
}

#[test]
fn values_stand_for_numbers() {
    let schema = schema();
    let flags = FieldMeta {
        enum_name: Some("MAV_MODE_FLAG".to_string()),
        ..field("base_mode", "uint8_t")
    };
    let mask = |s: &str| numeric_value(&schema, &Json::Text(s.to_string()), Some(&flags));
    assert_eq!(mask(""), Some(d(0.0)));
    assert_eq!(
        mask("MAV_MODE_FLAG_SAFETY_ARMED | MAV_MODE_FLAG_TEST_ENABLED"),
        Some(d(130.0))
    );
    assert_eq!(mask("MAV_MODE_FLAG_SAFETY_ARMED | WHAT"), None);
    assert_eq!(numeric_value(&schema, &Json::Bool(true), None), Some(d(1.0)));
    assert_eq!(numeric_value(&schema, &Json::Text("mode".to_string()), None), None);
    let valve = instance("id", "uint8_t", Some("VALVE_ID"));
    assert_eq!(numeric_value(&schema, &named("VALVE_ID_MAIN"), Some(&valve)), Some(d(4.0)));
    assert_eq!(instance_label(&valve, &named("VALVE_ID_MAIN")), "MAIN");
    assert_eq!(instance_label(&valve, &n(7.0)), "7");
    assert_eq!(instance_label(&valve, &Json::Null), "?");
}

#[test]
fn a_record_starts_with_its_time() {
    assert_eq!(record_time(&[0, 0, 0, 0, 0, 0, 0x01, 0x02]), Some(0x102));
    assert_eq!(
        record_time(&1_786_210_918_250_000u64.to_be_bytes()),
        Some(1_786_210_918_250_000)
    );
    assert_eq!(record_time(&i64::MAX.to_be_bytes()), Some(i64::MAX));
    assert_eq!(record_time(&[0xFF; 8]), None);
}

#[test]
fn a_log_without_messages_is_refused() {
    let schema = schema();
    let refused = import(&schema, &vec![]);
    assert_eq!(refused.err().map(|e| e.message()), Some("no valid MAVLink messages found"));
    let series = import(&schema, &vec![pressure_vessel(0, 1, 2, 3)]).ok().unwrap();
    let names: Vec<&str> = series.iter().map(|s| s.name.as_str()).collect();
    assert_eq!(names, ["PRESSURE_VESSEL[0].pressure1", "PRESSURE_VESSEL[0].temperature1"]);
    assert_eq!(series[0].points, vec![(3, d(1.0))]);
}
