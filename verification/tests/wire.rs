//! How messages lie on the wire.

use rapid_analyzer::wire::{
    checksum_text, declared, extra_of, order_of, scalar, wire_type, Layout, Scalar, Wire,
    WireField, WireType, WireValue,
};

fn field(name: &str, ty: &str, extension: bool) -> WireField {
    let (declared_type, len) = declared(ty);
    WireField { name: name.to_string(), declared_type, len, extension }
}

fn heartbeat() -> Vec<WireField> {
    vec![
        field("type", "uint8_t", false),
        field("autopilot", "uint8_t", false),
        field("base_mode", "uint8_t", false),
        field("custom_mode", "uint32_t", false),
        field("system_status", "uint8_t", false),
        field("mavlink_version", "uint8_t_mavlink_version", false),
    ]
}

fn param_value() -> Vec<WireField> {
    vec![
        field("param_id", "char[16]", false),
        field("param_value", "float", false),
        field("param_type", "uint8_t", false),
        field("param_count", "uint16_t", false),
        field("param_index", "uint16_t", false),
    ]
}

fn attrs(pairs: &[(&str, &str)]) -> Vec<(String, String)> {
    pairs.iter().map(|(k, v)| (k.to_string(), v.to_string())).collect()
}

#[test]
fn declared_types_are_taken_apart() {
    assert_eq!(declared("uint16_t[4]"), ("uint16_t".to_string(), Some(4)));
    assert_eq!(declared("float"), ("float".to_string(), None));
    assert_eq!(declared("uint8_t_mavlink_version"), ("uint8_t".to_string(), None));
    assert_eq!(declared("char[256]"), ("char".to_string(), None));
    assert_eq!(declared("char[x]"), ("char".to_string(), None));
}

#[test]
fn types_have_their_widths() {
    assert_eq!(wire_type("double"), WireType::Float(8));
    assert_eq!(wire_type("float"), WireType::Float(4));
    assert_eq!(wire_type("uint64_t"), WireType::Unsigned(8));
    assert_eq!(wire_type("int16_t"), WireType::Signed(2));
    assert_eq!(wire_type("char"), WireType::Char);
    assert_eq!(wire_type("uint8_t"), WireType::Unsigned(1));
    assert_eq!(wire_type("int8_t"), WireType::Signed(1));
}

#[test]
fn the_widest_come_first_and_extensions_last() {
    assert_eq!(order_of(&heartbeat()), vec![3, 0, 1, 2, 4, 5]);
    assert_eq!(order_of(&param_value()), vec![1, 3, 4, 0, 2]);
    let extended = vec![
        field("a", "uint8_t", false),
        field("b", "uint64_t", true),
        field("c", "uint16_t", false),
        field("d", "uint8_t", true),
    ];
    assert_eq!(order_of(&extended), vec![2, 0, 1, 3]);
}

#[test]
fn the_text_of_a_layout_names_what_an_old_reader_knows() {
    let fields = vec![
        field("severity", "uint8_t", false),
        field("text", "char[50]", false),
        field("id", "uint16_t", true),
    ];
    let order = order_of(&fields);
    assert_eq!(
        checksum_text("STATUSTEXT", &fields, &order),
        b"STATUSTEXT uint8_t severity char text 2".to_vec()
    );
}

/// The bytes that the published definitions of MAVLink give.
#[test]
fn the_checksum_bytes_are_the_published_ones() {
    assert_eq!(Layout::new(0, "HEARTBEAT".to_string(), heartbeat()).extra_crc, 50);
    assert_eq!(Layout::new(22, "PARAM_VALUE".to_string(), param_value()).extra_crc, 220);
    let statustext = vec![
        field("severity", "uint8_t", false),
        field("text", "char[50]", false),
        field("id", "uint16_t", true),
        field("chunk_seq", "uint8_t", true),
    ];
    assert_eq!(Layout::new(253, "STATUSTEXT".to_string(), statustext).extra_crc, 83);
}

#[test]
fn the_halves_of_a_checksum_are_laid_over_each_other() {
    assert_eq!(extra_of(0x1234), 0x26);
    assert_eq!(extra_of(0x00FF), 0xFF);
    assert_eq!(extra_of(0), 0);
}

#[test]
fn scalars_are_read_lowest_byte_first() {
    let bytes = [0xFE, 0xFF, 0xFF, 0xFF, 0xFF, 0xFF, 0xFF, 0xFF];
    assert_eq!(scalar(WireType::Unsigned(2), &bytes, 0), Scalar::Unsigned(0xFFFE));
    assert_eq!(scalar(WireType::Signed(1), &bytes, 0), Scalar::Signed(-2));
    assert_eq!(scalar(WireType::Signed(2), &bytes, 0), Scalar::Signed(-2));
    assert_eq!(scalar(WireType::Signed(4), &bytes, 0), Scalar::Signed(-2));
    assert_eq!(scalar(WireType::Signed(8), &bytes, 0), Scalar::Signed(-2));
    assert_eq!(scalar(WireType::Signed(2), &bytes, 7), Scalar::Signed(0xFF));
    let one = 1.5f32.to_bits();
    assert_eq!(scalar(WireType::Float(4), &one.to_le_bytes(), 0), Scalar::Single(one));
    let two = (-2.25f64).to_bits();
    assert_eq!(scalar(WireType::Float(8), &two.to_le_bytes(), 0), Scalar::Double(two));
}

#[test]
fn a_payload_is_taken_apart() {
    let layout = Layout::new(22, "PARAM_VALUE".to_string(), param_value());
    let mut payload = 1.5f32.to_le_bytes().to_vec();
    payload.extend(7u16.to_le_bytes());
    payload.extend(3u16.to_le_bytes());
    payload.extend(b"GAIN");
    let values = layout.decode(&payload);
    assert_eq!(values.len(), 5);
    let names: Vec<&str> = values.iter().map(|v| v.0.as_str()).collect();
    assert_eq!(names, vec!["param_value", "param_count", "param_index", "param_id", "param_type"]);
    assert!(matches!(values[0].1, WireValue::One(Scalar::Single(bits)) if bits == 1.5f32.to_bits()));
    assert!(matches!(values[1].1, WireValue::One(Scalar::Unsigned(7))));
    assert!(matches!(values[2].1, WireValue::One(Scalar::Unsigned(3))));
    assert!(matches!(&values[3].1, WireValue::Text(bytes) if bytes == b"GAIN"));
    assert!(matches!(values[4].1, WireValue::One(Scalar::Unsigned(0))));
}

#[test]
fn a_field_called_type_comes_under_another_name() {
    let layout = Layout::new(0, "HEARTBEAT".to_string(), heartbeat());
    let values = layout.decode(&[1, 0, 0, 0, 2]);
    assert_eq!(values[0].0, "custom_mode");
    assert_eq!(values[1].0, "mavtype");
    assert!(matches!(values[1].1, WireValue::One(Scalar::Unsigned(2))));
}

#[test]
fn arrays_are_read_in_order() {
    let layout = Layout::new(1, "M".to_string(), vec![field("xs", "int16_t[3]", false)]);
    let values = layout.decode(&[1, 0, 0xFF, 0xFF]);
    match &values[0].1 {
        WireValue::List(items) => assert_eq!(
            *items,
            vec![Scalar::Signed(1), Scalar::Signed(-1), Scalar::Signed(0)]
        ),
        _ => panic!("not a list"),
    }
}

#[test]
fn layouts_are_collected_tag_by_tag() {
    let mut wire = Wire::new();
    wire.open("message", &attrs(&[("id", "253"), ("name", "STATUSTEXT")]));
    wire.open("description", &attrs(&[]));
    wire.close("description");
    wire.open("field", &attrs(&[("type", "uint8_t"), ("name", "severity")]));
    wire.open("field", &attrs(&[("type", "char[50]"), ("name", "text")]));
    wire.open("extensions", &attrs(&[]));
    wire.open("field", &attrs(&[("type", "uint16_t"), ("name", "id")]));
    wire.open("field", &attrs(&[("name", "no type")]));
    wire.close("message");
    assert!(wire.message.is_none());
    let layout = wire.find(253).unwrap();
    assert_eq!(layout.name, "STATUSTEXT");
    assert_eq!(layout.extra_crc, 83);
    let names: Vec<&str> = layout.fields.iter().map(|f| f.name.as_str()).collect();
    assert_eq!(names, vec!["severity", "text", "id"]);
    assert!(layout.fields[2].extension);
    assert!(wire.find(0).is_none());
}

#[test]
fn a_later_definition_takes_the_place_of_an_earlier_one() {
    let mut wire = Wire::new();
    for name in ["OLD", "NEW"] {
        wire.open("message", &attrs(&[("id", "5"), ("name", name)]));
        wire.close("message");
    }
    assert_eq!(wire.find(5).unwrap().name, "NEW");
}

#[test]
fn a_message_without_a_number_is_no_message() {
    let mut wire = Wire::new();
    wire.open("message", &attrs(&[("name", "NAMELESS")]));
    wire.open("field", &attrs(&[("type", "uint8_t"), ("name", "x")]));
    wire.close("message");
    assert!(wire.layouts.is_empty());
}

/// Zeros at the end of a payload mean nothing.
#[test]
fn a_cut_payload_means_the_same() {
    let layout = Layout::new(0, "HEARTBEAT".to_string(), heartbeat());
    let short = layout.decode(&[9, 0, 0, 0, 2, 3]);
    let long = layout.decode(&[9, 0, 0, 0, 2, 3, 0, 0, 0]);
    assert_eq!(short.len(), long.len());
    for (a, b) in short.iter().zip(long.iter()) {
        match (&a.1, &b.1) {
            (WireValue::One(x), WireValue::One(y)) => assert_eq!(x, y),
            _ => panic!("not a number"),
        }
    }
}

#[test]
fn layouts_are_read_from_a_document() {
    let mut wire = Wire::new();
    let text = r#"<mavlink><messages><message id="253" name="STATUSTEXT">
        <field type="uint8_t" name="severity">How bad</field>
        <field type="char[50]" name="text">What</field>
        <extensions/>
        <field type="uint16_t" name="id"/>
        <field type="uint8_t" name="chunk_seq"/>
    </message></messages></mavlink>"#;
    assert!(wire.read(text));
    let layout = wire.find(253).unwrap();
    assert_eq!((layout.name.as_str(), layout.extra_crc), ("STATUSTEXT", 83));
    assert_eq!(layout.order, vec![0, 1, 2, 3]);
    assert!(!wire.read("<message id=\"1\" name=\"A\"></field>"));
    assert!(wire.find(1).is_none());
}
