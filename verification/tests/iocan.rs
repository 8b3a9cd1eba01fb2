use rapid_analyzer::can::CanFrame;
use rapid_analyzer::can::iocan::{
    decode, describe, process_data, sensor_unit, u16x4, unpack_2bit, unpack_nibbles, i16x4,
    TpdoKind, KINDS, VALVE_UNPOWERED,
};

const PROMILLE: &str = "‰";

fn frame(id: u32, data: [u8; 8]) -> CanFrame {
    CanFrame { t_utc: 0, id, bus: 1, len: 8, data }
}

fn names(frames: &[CanFrame]) -> Vec<String> {
    decode(frames).into_iter().map(|s| s.name).collect()
}

fn value(frames: &[CanFrame], name: &str) -> Option<f64> {
    decode(frames)
        .into_iter()
        .find(|s| s.name == name)
        .and_then(|s| s.points.last().map(|p| p.1 as f64 / 10f64.powi(s.decimals as i32)))
}

fn unit(frames: &[CanFrame], name: &str) -> Option<String> {
    decode(frames).into_iter().find(|s| s.name == name).and_then(|s| s.unit)
}

/// The identifier is `0x200 | kind << 4 | node`, and the table's order is the wire encoding: a
/// kind inserted in the wrong place would silently relabel every series after it.
#[test]
fn the_kind_table_matches_the_identifier_layout() {
    assert_eq!(process_data(0x200), Some((0, TpdoKind::ValveCommanded)));
    assert_eq!(process_data(0x243), Some((3, TpdoKind::HcoState)));
    assert_eq!(process_data(0x295), Some((5, TpdoKind::Sensor0)));
    assert_eq!(process_data(0x2BA), Some((10, TpdoKind::Sensor3)));
    assert_eq!(process_data(0x2E7), Some((7, TpdoKind::RailVoltage)));
    assert_eq!(process_data(0x30D), Some((13, TpdoKind::Status)));
    assert_eq!(process_data(0x31F), Some((15, TpdoKind::ValveCurrent)));
    // Past the last kind, and into the SDO range.
    assert_eq!(process_data(0x320), None);
    assert_eq!(process_data(0x583), None);
    assert_eq!(process_data(0x1FF), None);
}

#[test]
fn every_kind_inverts_the_layout() {
    for (i, kind) in KINDS.iter().enumerate() {
        assert_eq!(kind.index(), i);
        assert_eq!(TpdoKind::from_index(i as u32), Some(*kind));
        for node in 0..16u32 {
            let id = 0x200 | (i as u32) << 4 | node;
            assert_eq!(process_data(id), Some((node as u8, *kind)));
        }
    }
    assert_eq!(TpdoKind::from_index(18), None);
    assert_eq!(TpdoKind::Sensor3.name(), "Sensor3");
}

#[test]
fn identifiers_outside_the_protocol_are_left_to_the_manual_picker() {
    assert!(describe(0x243).is_some());
    assert!(describe(0x583).unwrap().contains("SDO response"));
    assert!(describe(0x703).unwrap().contains("heartbeat"));
    assert_eq!(describe(0x120), None);
    assert!(describe(0x603).unwrap().contains("SDO request"));
    // Past the node's four bits is past the protocol.
    assert_eq!(describe(0x590), None);
    assert_eq!(describe(0x610), None);
    assert_eq!(describe(0x710), None);
    assert_eq!(describe(0x18FF_50E5), None);
    assert!(decode(&[frame(0x120, [1; 8])]).is_empty());
}

/// A real `HcoState` frame off node 5: output 1 energized, output 2 on a 2200 us servo pulse,
/// output 3 energized, output 4 at 2000 us.
#[test]
fn high_current_outputs_decode_to_state_and_pulse_width() {
    let frames = [frame(0x245, [0x00, 0x80, 0x98, 0x08, 0x00, 0x80, 0xD0, 0x07])];
    assert_eq!(value(&frames, "CAN_HCO[5].out1"), Some(1.0));
    assert_eq!(value(&frames, "CAN_HCO[5].out2"), Some(1.0));
    assert_eq!(value(&frames, "CAN_HCO[5].out2_pwm_us"), Some(2200.0));
    assert_eq!(value(&frames, "CAN_HCO[5].out4_pwm_us"), Some(2000.0));
    // A digitally driven output has no pulse width to report.
    assert!(!names(&frames).contains(&"CAN_HCO[5].out1_pwm_us".to_string()));
}

#[test]
fn a_de_energized_output_reads_as_off() {
    let frames = [frame(0x245, [0; 8])];
    assert_eq!(value(&frames, "CAN_HCO[5].out1"), Some(0.0));
    assert!(!names(&frames).contains(&"CAN_HCO[5].out1_pwm_us".to_string()));
}

#[test]
fn each_node_gets_its_own_series() {
    let frames = [frame(0x243, [0x00, 0x80, 0, 0, 0, 0, 0, 0]), frame(0x247, [0; 8])];
    assert_eq!(value(&frames, "CAN_HCO[3].out1"), Some(1.0));
    assert_eq!(value(&frames, "CAN_HCO[7].out1"), Some(0.0));
}

#[test]
fn the_bus_joins_the_name_only_when_a_log_carries_more_than_one() {
    let mut second_bus = frame(0x243, [0; 8]);
    second_bus.bus = 2;
    assert_eq!(names(&[frame(0x243, [0; 8])])[0], "CAN_HCO[3].out1");
    let mixed = names(&[frame(0x243, [0; 8]), second_bus]);
    assert!(mixed.contains(&"CAN_HCO[bus1:3].out1".to_string()), "{mixed:?}");
    assert!(mixed.contains(&"CAN_HCO[bus2:3].out1".to_string()), "{mixed:?}");
}

/// Sensor slots are counts of whatever unit the node's `SensorUnits` frame declares, which is
/// the only thing that says whether 1645 is 16.45 °C or 16.45 bar.
#[test]
fn sensor_slots_are_scaled_by_the_declared_unit() {
    let units = frame(0x2C5, [0x02, 0, 0, 0, 0, 0, 0, 0]);
    let values = frame(0x295, [0x6D, 0x06, 0x5D, 0x00, 0x70, 0x00, 0x64, 0x00]);
    let frames = [units, values];
    // Slot 0 declared centi-celsius, slots 1..3 left at centi-bar.
    assert_eq!(value(&frames, "CAN_SENSOR[5].slot0"), Some(16.45));
    assert_eq!(unit(&frames, "CAN_SENSOR[5].slot0").as_deref(), Some("°C"));
    assert_eq!(value(&frames, "CAN_SENSOR[5].slot1"), Some(0.93));
    assert_eq!(unit(&frames, "CAN_SENSOR[5].slot1").as_deref(), Some("bar"));
}

#[test]
fn the_declared_unit_applies_to_samples_that_arrived_before_it() {
    let units = frame(0x2C5, [0x02, 0, 0, 0, 0, 0, 0, 0]);
    let mut early = frame(0x295, [0x6D, 0x06, 0, 0, 0, 0, 0, 0]);
    early.t_utc = -1_000_000;
    // The value frame is first on the wire; it still gets scaled.
    assert_eq!(value(&[early, units], "CAN_SENSOR[5].slot0"), Some(16.45));
}

#[test]
fn the_first_declaration_of_a_unit_is_the_one_that_holds() {
    let first = frame(0x2C5, [0x02, 0, 0, 0, 0, 0, 0, 0]);
    let second = frame(0x2C5, [0x00, 0, 0, 0, 0, 0, 0, 0]);
    let values = frame(0x295, [0x6D, 0x06, 0, 0, 0, 0, 0, 0]);
    let frames = [first, values, second];
    assert_eq!(unit(&frames, "CAN_SENSOR[5].slot0").as_deref(), Some("°C"));
}

#[test]
fn unread_sensor_slots_and_amplifier_channels_are_gaps_not_values() {
    let sensors = frame(0x2A5, [0xBC, 0x11, 0x00, 0x80, 0x00, 0x80, 0x00, 0x80]);
    let adc = frame(0x255, [0xA8, 0x02, 0x0F, 0x00, 0x1A, 0x00, 0xFF, 0xFF]);
    let all = names(&[sensors, adc]);
    // Slot 4 read 4540 counts; slots 5..7 were the "no reading" sentinel.
    assert!(all.contains(&"CAN_SENSOR[5].slot4".to_string()), "{all:?}");
    assert!(!all.contains(&"CAN_SENSOR[5].slot5".to_string()), "{all:?}");
    assert!(all.contains(&"CAN_ADC[5].bus0_ch2".to_string()), "{all:?}");
    assert!(!all.contains(&"CAN_ADC[5].bus0_ch3".to_string()), "{all:?}");
}

#[test]
fn a_valve_position_word_splits_into_position_and_drive_state() {
    // Valve 0 half open and held, valve 1 fully open but released.
    let mut data = [0u8; 8];
    data[..2].copy_from_slice(&500u16.to_le_bytes());
    data[2..4].copy_from_slice(&(1000u16 | VALVE_UNPOWERED).to_le_bytes());
    let frames = [frame(0x225, data)];
    assert_eq!(value(&frames, "CAN_VALVE[5].measured0"), Some(500.0));
    assert_eq!(value(&frames, "CAN_VALVE[5].measured0_unpowered"), Some(0.0));
    assert_eq!(value(&frames, "CAN_VALVE[5].measured1"), Some(1000.0));
    assert_eq!(value(&frames, "CAN_VALVE[5].measured1_unpowered"), Some(1.0));
    assert_eq!(unit(&frames, "CAN_VALVE[5].measured0").as_deref(), Some(PROMILLE));
}

#[test]
fn valve_status_and_ownership_unpack_from_their_nibbles() {
    // status = [3, 3, 0, 0], hco_owner = [1, 1, 2, 2], relief = 4.
    let frames = [frame(0x235, [0x33, 0x00, 0x11, 0x22, 0x04, 0, 0, 0])];
    assert_eq!(value(&frames, "CAN_VALVE[5].status0"), Some(3.0));
    assert_eq!(value(&frames, "CAN_VALVE[5].status2"), Some(0.0));
    assert_eq!(value(&frames, "CAN_VALVE[5].hco_owner3"), Some(2.0));
    assert_eq!(value(&frames, "CAN_VALVE[5].relief_state"), Some(4.0));
}

#[test]
fn rails_status_and_heartbeat_decode() {
    let rails = frame(0x2E5, [0xD2, 0x27, 0x42, 0x21, 0x1A, 0x21, 0, 0]);
    let status = frame(0x305, [0x04, 0x00, 0x00, 0x00, 0x19, 0x4F, 0xF7, 0x01]);
    let mut heartbeat = frame(0x705, [0x05, 0, 0, 0, 0, 0, 0, 0]);
    heartbeat.len = 1;
    let frames = [rails, status, heartbeat];
    assert_eq!(value(&frames, "CAN_RAIL[5].voltage_logic"), Some(10194.0));
    assert_eq!(unit(&frames, "CAN_RAIL[5].voltage_logic").as_deref(), Some("mV"));
    assert_eq!(value(&frames, "CAN_RAIL[5].voltage_hco34"), Some(8474.0));
    assert_eq!(value(&frames, "CAN_STATUS[5].link_state"), Some(4.0));
    assert_eq!(value(&frames, "CAN_STATUS[5].ms_since_heartbeat"), Some(0x01F7_4F19 as f64));
    assert_eq!(value(&frames, "CAN_NODE[5].nmt_state"), Some(5.0));
    // The fourth word of a rail frame is padding, not a fourth rail.
    assert_eq!(names(&frames).iter().filter(|n| n.starts_with("CAN_RAIL")).count(), 3);
}

#[test]
fn a_short_frame_on_a_process_data_identifier_is_not_decoded() {
    let mut short = frame(0x245, [0xFF; 8]);
    short.len = 4;
    assert!(decode(&[short]).is_empty());
}

#[test]
fn words_and_packed_fields_are_taken_low_first() {
    let data = [0x01, 0x00, 0x00, 0x80, 0xFF, 0xFF, 0x34, 0x12];
    assert_eq!(u16x4(&data), [1, 0x8000, 0xFFFF, 0x1234]);
    assert_eq!(i16x4(&data), [1, -0x8000, -1, 0x1234]);
    assert_eq!(unpack_nibbles(&[0x21, 0x43]), [1, 2, 3, 4]);
    assert_eq!(unpack_2bit(&[0b1110_0100, 0, 0b0000_0001]), [0, 1, 2, 3, 0, 0, 0, 0, 1, 0, 0, 0]);
    assert_eq!(sensor_unit(Some(2)), ("°C", 2));
}

#[test]
fn series_come_in_the_order_of_their_names() {
    let frames = [frame(0x705, [5; 8]), frame(0x243, [0; 8]), frame(0x225, [0; 8])];
    let all = names(&frames);
    let mut sorted = all.clone();
    sorted.sort();
    assert_eq!(all, sorted);
}
