use rapid_analyzer::xml::XmlEvent;
use rapid_analyzer::dialect::{int_limit, parse_enum_value, sentinel, Dialect};
use rapid_analyzer::double::Double;
use rapid_analyzer::mavlink_meta::{enum_value, message};

fn d(v: f64) -> Double {
    Double { bits: v.to_bits() }
}

fn attrs(list: &[(&str, &str)]) -> Vec<(String, String)> {
    list.iter().map(|(k, v)| (k.to_string(), v.to_string())).collect()
}

fn open(dialect: &mut Dialect, tag: &str, list: &[(&str, &str)]) {
    dialect.open(tag, &attrs(list));
}

#[test]
fn a_dialect_is_read_tag_by_tag() {
    let mut dialect = Dialect::new();
    open(&mut dialect, "enum", &[("name", "VALVE_ID")]);
    open(&mut dialect, "entry", &[("name", "VALVE_ID_A")]);
    open(&mut dialect, "entry", &[("name", "VALVE_ID_MAIN"), ("value", "4")]);
    open(&mut dialect, "entry", &[("name", "VALVE_ID_VENT")]);
    dialect.close("enum");
    // Outside an enum, an entry belongs nowhere.
    open(&mut dialect, "entry", &[("name", "STRAY")]);
    open(&mut dialect, "message", &[("id", "200"), ("name", "VALVE")]);
    open(
        &mut dialect,
        "field",
        &[("type", "uint8_t"), ("name", "id"), ("enum", "VALVE_ID"), ("instance", "true")],
    );
    open(&mut dialect, "field", &[("type", "uint8_t"), ("name", "type")]);
    open(
        &mut dialect,
        "field",
        &[("type", "int16_t"), ("name", "t"), ("units", "cdegC"), ("invalid", "INT16_MAX")],
    );
    // A field without a type is none.
    open(&mut dialect, "field", &[("name", "nothing")]);
    dialect.close("message");
    open(&mut dialect, "field", &[("type", "uint8_t"), ("name", "stray")]);

    let schema = &dialect.schema;
    let valve = message(schema, "VALVE").unwrap();
    let names: Vec<&str> = valve.fields.iter().map(|f| f.name.as_str()).collect();
    assert_eq!(names, ["id", "mavtype", "t"]);
    assert!(valve.fields[0].is_instance && !valve.fields[1].is_instance);
    assert_eq!(valve.fields[0].enum_name.as_deref(), Some("VALVE_ID"));
    assert_eq!(valve.fields[2].units.as_deref(), Some("cdegC"));
    assert_eq!(valve.fields[2].invalid, Some(d(32767.0)));
    let value = |entry: &str| enum_value(schema, Some(&"VALVE_ID".to_string()), entry);
    assert_eq!(value("VALVE_ID_A"), Some(0));
    assert_eq!(value("VALVE_ID_MAIN"), Some(4));
    assert_eq!(value("VALVE_ID_VENT"), Some(5));
    assert_eq!(value("STRAY"), None);
}

#[test]
fn a_message_or_an_enum_is_taken_up_again_in_another_file() {
    let mut dialect = Dialect::new();
    for _ in 0..2 {
        open(&mut dialect, "message", &[("name", "M")]);
        open(&mut dialect, "field", &[("type", "float"), ("name", "x")]);
        dialect.close("message");
        open(&mut dialect, "enum", &[("name", "E")]);
        open(&mut dialect, "entry", &[("name", "E_X")]);
        dialect.close("enum");
    }
    assert_eq!(dialect.schema.messages.len(), 1);
    assert_eq!(dialect.schema.messages[0].fields.len(), 2);
    let values: Vec<i64> = dialect.schema.entries.iter().map(|e| e.value).collect();
    assert_eq!(values, [0, 1]);
}

/// The last of the enums that have an entry, by their names, says what it is worth where the
/// enum is not given.
#[test]
fn entries_are_in_the_order_of_their_enums() {
    let mut dialect = Dialect::new();
    for (name, value) in [("ZED", "1"), ("ABE", "2"), ("MID", "3")] {
        open(&mut dialect, "enum", &[("name", name)]);
        open(&mut dialect, "entry", &[("name", "SHARED"), ("value", value)]);
        open(&mut dialect, "entry", &[("name", "NEXT")]);
        dialect.close("enum");
    }
    let names: Vec<&str> = dialect.schema.entries.iter().map(|e| e.enum_name.as_str()).collect();
    assert_eq!(names, ["ABE", "ABE", "MID", "MID", "ZED", "ZED"]);
    let schema = &dialect.schema;
    assert_eq!(enum_value(schema, None, "SHARED"), Some(1));
    assert_eq!(enum_value(schema, Some(&"ABE".to_string()), "SHARED"), Some(2));
    assert_eq!(enum_value(schema, Some(&"ABE".to_string()), "NEXT"), Some(3));
    assert_eq!(enum_value(schema, Some(&"NONE".to_string()), "NEXT"), Some(2));
}

#[test]
fn enum_values_are_numbers() {
    assert_eq!(parse_enum_value(" 12 "), Some(12));
    assert_eq!(parse_enum_value("0x1F"), Some(31));
    assert_eq!(parse_enum_value("0Xff"), Some(255));
    assert_eq!(parse_enum_value("-3"), Some(-3));
    assert_eq!(parse_enum_value("+3"), Some(3));
    assert_eq!(parse_enum_value("9223372036854775807"), Some(i64::MAX));
    assert_eq!(parse_enum_value("-9223372036854775808"), Some(i64::MIN));
    assert_eq!(parse_enum_value("9223372036854775808"), None);
    assert_eq!(parse_enum_value("2**3"), None);
    assert_eq!(parse_enum_value(""), None);
    assert_eq!(parse_enum_value("-"), None);
    assert_eq!(parse_enum_value("99999999999999999999999999"), None);
}

#[test]
fn only_unambiguous_sentinels_are_kept() {
    let of = |s: &str| sentinel(&Some(s.to_string())).map(|v| f64::from_bits(v.bits));
    assert!(of("NaN").unwrap().is_nan() && of(" NAN ").unwrap().is_nan());
    assert_eq!(of("UINT16_MAX"), Some(65535.0));
    assert_eq!(of("INT8_MIN"), Some(-128.0));
    assert_eq!(of("UINT64_MAX"), Some(2f64.powi(64) - 1.0));
    assert_eq!(of("INT64_MAX"), Some(2f64.powi(63) - 1.0));
    assert_eq!(of("INT64_MIN"), Some(-2f64.powi(63)));
    assert_eq!(of("UINT8_MIN"), Some(0.0));
    // Values that a sensor can genuinely report, and arrays.
    assert_eq!(of("0"), None);
    assert_eq!(of("-1"), None);
    assert_eq!(of("[UINT16_MAX]"), None);
    assert_eq!(of("UINT12_MAX"), None);
    assert_eq!(sentinel(&None), None);
    assert_eq!(int_limit("UINT-8_MAX"), None);
    assert_eq!(int_limit("FLOAT_MAX"), None);
}

const DEFINITIONS: &str = r#"<?xml version="1.0"?>
<mavlink>
  <!-- a comment -->
  <enums>
    <enum name="TANK_KIND">
      <entry name="TANK_KIND_FUEL"/>
      <entry value="0x10" name="TANK_KIND_OXIDISER"><description>N2O</description></entry>
      <entry name="TANK_KIND_PRESSURANT"/>
    </enum>
  </enums>
  <messages>
    <message id="300" name="TANK">
      <field type="uint8_t" name="type" enum="TANK_KIND" instance="true">Which</field>
      <field type="float" name="pressure" units="Pa" invalid="NaN"/>
    </message>
  </messages>
</mavlink>"#;

/// A document is read from its text.
#[test]
fn a_document_is_read() {
    let mut dialect = Dialect::new();
    assert!(dialect.read(DEFINITIONS));
    let entries: Vec<(&str, i64)> =
        dialect.schema.entries.iter().map(|e| (e.entry.as_str(), e.value)).collect();
    assert_eq!(
        entries,
        vec![("TANK_KIND_FUEL", 0), ("TANK_KIND_OXIDISER", 16), ("TANK_KIND_PRESSURANT", 17)]
    );
    let message = &dialect.schema.messages[0];
    assert_eq!(message.name, "TANK");
    let names: Vec<&str> = message.fields.iter().map(|f| f.name.as_str()).collect();
    assert_eq!(names, vec!["mavtype", "pressure"]);
    assert!(message.fields[0].is_instance);
    assert_eq!(message.fields[1].units.as_deref(), Some("Pa"));
    assert!(message.fields[1].invalid.is_some());
    assert!(dialect.message.is_none() && dialect.enum_name.is_none());
}

#[test]
fn a_malformed_document_leaves_no_trace() {
    let mut dialect = Dialect::new();
    assert!(!dialect.read("<message name=\"A\"></enum>"));
    assert!(dialect.schema.messages.is_empty() && dialect.message.is_none());
}

/// What is no tag says nothing, and neither does a malformed attribute.
#[test]
fn only_tags_and_their_attributes_count() {
    let message = || "message".to_string();
    let called = |name: &str| Some(("name".to_string(), name.to_string()));
    let mut dialect = Dialect::new();
    dialect.take(&vec![
        XmlEvent::Other,
        XmlEvent::Start(message(), vec![None, called("A"), called("B")]),
        XmlEvent::End(message()),
        XmlEvent::Empty(message(), vec![called("C")]),
    ]);
    let names: Vec<&str> = dialect.schema.messages.iter().map(|m| m.name.as_str()).collect();
    assert_eq!(names, vec!["A", "C"]);
    // A tag with nothing in it is not closed.
    assert_eq!(dialect.message.as_deref(), Some("C"));
}
