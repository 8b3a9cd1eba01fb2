use rapid_analyzer::can::canopen::dictionary::{
    abort_reason, describe_object, nmt_label, object, ObjectDef, DICTIONARY,
};
use rapid_analyzer::can::canopen::history::{CanOpenLog, StepSeries};
use rapid_analyzer::can::canopen::log::{NodeKey, ObjectKey, ObjectTrack, Origin};
use rapid_analyzer::can::canopen::mirror::tpdo_objects;
use rapid_analyzer::can::canopen::sdo::{decode_sdo, SdoKind};
use rapid_analyzer::can::iocan;
use rapid_analyzer::can::iocan::TpdoKind;
use rapid_analyzer::can::CanFrame;

const SIGNATURE_SAVE: u32 = 0x6576_6173;

fn frame(t: i64, id: u32, data: [u8; 8]) -> CanFrame {
    CanFrame { t_utc: t, id, bus: 1, len: 8, data }
}

fn key(node: u8, index: u16, sub: u8) -> ObjectKey {
    ObjectKey { bus: 1, node, index, sub }
}

fn def(index: u16) -> ObjectDef {
    object(index).unwrap()
}

fn track(log: &CanOpenLog, key: ObjectKey) -> &ObjectTrack {
    log.objects.get(key.code()).unwrap()
}

/// What a step series holds at an instant: the last value at or before it.
fn held(series: &StepSeries, t: i64) -> Option<i64> {
    series.points.iter().rev().find(|p| p.0 <= t).map(|p| p.1)
}

#[test]
fn the_dictionary_is_sorted_so_lookup_can_bisect() {
    assert!(DICTIONARY.windows(2).all(|w| w[0].0 < w[1].0));
    assert_eq!(object(0x2010).map(|d| d.short), Some("valve_commanded"));
    assert_eq!(object(0x301A).map(|d| d.short), Some("valve_max_promille"));
    assert!(object(0x2017).is_none());
}

#[test]
fn every_row_of_the_dictionary_is_found_under_its_index() {
    for row in DICTIONARY {
        let found = object(row.0).unwrap();
        assert_eq!((found.index, found.short, found.name), (row.0, row.1, row.2));
    }
    assert!(object(0).is_none());
    assert!(object(0xFFFF).is_none());
}

/// `0x3040` has one entry per TPDO kind; if the kind table grows and this doesn't, the last
/// kind's period has no name.
#[test]
fn the_tpdo_period_array_covers_every_kind() {
    let def = object(0x3040).unwrap();
    assert_eq!(def.array.map(|(len, _)| len as usize), Some(iocan::KINDS.len()));
    assert_eq!(def.sub_label(1).as_deref(), Some("ValveCommanded"));
    assert_eq!(def.sub_label(18).as_deref(), Some("ValveCurrent"));
    assert_eq!(def.subs(), 1..=18);
    assert_eq!(object(0x1017).unwrap().subs(), 0..=0);
}

/// Real acknowledgements off a bus: the master writing valve 0's commanded position on node 5,
/// and HCO3 on node 7.
#[test]
fn a_write_acknowledgement_names_the_object_it_acknowledges() {
    let ack = decode_sdo(&frame(0, 0x585, [0x60, 0x10, 0x20, 0x01, 0, 0, 0, 0])).unwrap();
    assert_eq!((ack.node, ack.request, ack.kind), (5, false, SdoKind::WriteAck));
    assert_eq!((ack.index, ack.sub), (0x2010, 1));
    assert_eq!(ack.value(), None);
    assert_eq!(describe_object(0x2010, 1), "0x2010.1 valve commanded state [valve 0]");
    assert_eq!(describe_object(0x2020, 3), "0x2020.3 high current output, digital level [HCO3]");
}

#[test]
fn expedited_transfers_carry_values_of_the_declared_size() {
    // Write 500 ‰ to 0x2010.2 (2 bytes: n = 2 unused), read back 16.45 °C counts from 0x2004.1
    // (i16).
    let write =
        decode_sdo(&frame(0, 0x605, [0x2B, 0x10, 0x20, 0x02, 0xF4, 0x01, 0, 0])).unwrap();
    assert_eq!(
        (write.kind, write.size, write.value()),
        (SdoKind::WriteRequest, Some(2), Some(500))
    );
    let read = decode_sdo(&frame(0, 0x585, [0x4B, 0x04, 0x20, 0x01, 0x00, 0x80, 0, 0])).unwrap();
    assert_eq!((read.kind, read.value()), (SdoKind::ReadResponse, Some(-32768)));
    let request = decode_sdo(&frame(0, 0x605, [0x40, 0x04, 0x20, 0x01, 0, 0, 0, 0])).unwrap();
    assert_eq!(request.kind, SdoKind::ReadRequest);
}

#[test]
fn an_abort_says_why() {
    let abort =
        decode_sdo(&frame(0, 0x585, [0x80, 0x20, 0x20, 0x01, 0x21, 0x00, 0x00, 0x08])).unwrap();
    assert_eq!(abort.kind, SdoKind::Abort(0x0800_0021));
    assert!(abort.detail().contains("owned by a valve"), "{}", abort.detail());
}

#[test]
fn reasons_and_states_are_spelled_out() {
    assert_eq!(abort_reason(0x0602_0000), "object does not exist");
    assert_eq!(abort_reason(0x1234_5678), "unknown abort code");
    assert_eq!(nmt_label(5), "operational");
}

#[test]
fn identifiers_next_to_the_sdo_range_are_not_sdo() {
    assert!(decode_sdo(&frame(0, 0x590, [0x60; 8])).is_none());
    assert!(decode_sdo(&frame(0, 0x703, [0x05; 8])).is_none());
    assert!(decode_sdo(&frame(0, 0x245, [0x60; 8])).is_none());
}

#[test]
fn a_write_lands_when_it_is_acknowledged() {
    let log = CanOpenLog::build(&[
        frame(1_000_000, 0x605, [0x2B, 0x10, 0x20, 0x01, 0xE8, 0x03, 0, 0]),
        frame(1_002_000, 0x585, [0x60, 0x10, 0x20, 0x01, 0, 0, 0, 0]),
    ]);
    assert_eq!(track(&log, key(5, 0x2010, 1)).writes, 1);
    let v = log.value_at(key(5, 0x2010, 1), 2_000_000).unwrap();
    assert_eq!((v.raw, v.origin, v.t_utc), (1000, Origin::SdoWrite, 1_002_000));
    assert!(log.value_at(key(5, 0x2010, 1), 1_001_000).is_none());
    assert_eq!(log.transfers[1].latency, Some(2_000));
    assert!(log.has_requests());
}

#[test]
fn a_rejected_write_does_not_land() {
    let log = CanOpenLog::build(&[
        frame(1_000_000, 0x605, [0x2F, 0x20, 0x20, 0x01, 0x01, 0, 0, 0]),
        frame(1_001_000, 0x585, [0x80, 0x20, 0x20, 0x01, 0x21, 0x00, 0x00, 0x08]),
    ]);
    let track = track(&log, key(5, 0x2020, 1));
    assert_eq!((track.aborts, track.last_abort), (1, Some(0x0800_0021)));
    assert!(track.changes.is_empty());
    assert_eq!(log.nodes[0].aborts, 1);
}

/// Without requests, the values come from the TPDOs that mirror the objects.
#[test]
fn tpdos_fill_in_the_dictionary_and_only_changes_are_kept() {
    let mut position = [0u8; 8];
    position[..2].copy_from_slice(&(500u16 | 0x8000).to_le_bytes());
    let log = CanOpenLog::build(&[
        frame(1_000_000, 0x225, position),
        frame(1_500_000, 0x225, position),
        frame(2_000_000, 0x225, [0; 8]),
        frame(2_000_000, 0x305, [0x01, 0x00, 0x00, 0x00, 0x10, 0x00, 0x00, 0x00]),
        frame(2_000_000, 0x245, [0x00, 0x80, 0x98, 0x08, 0, 0, 0, 0]),
    ]);
    let track = track(&log, key(5, 0x2012, 1));
    assert_eq!((track.updates, track.changes.len()), (3, 2));
    let def = object(0x2012).unwrap();
    assert_eq!(
        def.format_value(log.value_at(key(5, 0x2012, 1), 1_700_000).unwrap().raw),
        "500 ‰, released"
    );
    assert_eq!(log.value_at(key(5, 0x2032, 0), 3_000_000).map(|v| v.raw), Some(1));
    assert_eq!(log.value_at(key(5, 0x2020, 1), 3_000_000).map(|v| v.raw), Some(1));
    assert_eq!(log.value_at(key(5, 0x2021, 2), 3_000_000).map(|v| v.raw), Some(2200));
    assert!(!log.has_requests());
}

#[test]
fn heartbeats_give_the_period_and_the_longest_dropout() {
    let mut frames: Vec<CanFrame> = [0, 1, 2, 6, 7]
        .into_iter()
        .map(|t| frame(t * 1_000_000, 0x70B, [0x05, 0, 0, 0, 0, 0, 0, 0]))
        .collect();
    for f in &mut frames {
        f.len = 1;
    }
    // A status TPDO well before the first heartbeat must not stretch the period.
    frames.insert(0, frame(-100_000_000, 0x30B, [0; 8]));
    let log = CanOpenLog::build(&frames);
    let node = log.node(NodeKey { bus: 1, node: 11 }).unwrap();
    assert_eq!((node.heartbeats, node.nmt_state), (5, Some(5)));
    assert_eq!(node.longest_heartbeat_gap, Some((4_000_000, 6_000_000)));
    let (span, gaps) = node.heartbeat_period().unwrap();
    assert_eq!(span as f64 / 1e6 / gaps as f64, 1.75);
}

#[test]
fn an_object_plots_as_steps_with_the_flag_masked_off() {
    let mut released = [0u8; 8];
    released[..2].copy_from_slice(&(1000u16 | 0x8000).to_le_bytes());
    let log = CanOpenLog::build(&[
        frame(1_000_000, 0x225, [0; 8]),
        frame(3_000_000, 0x225, released),
        frame(4_000_000, 0x225, released),
    ]);
    let series = log.series(key(5, 0x2012, 1)).unwrap();
    assert_eq!(series.name, "CAN_OD[5].valve_measured_0");
    assert_eq!(series.unit.as_deref(), Some("‰"));
    // Held at 0 right up to the change, then 1000: not a ramp between.
    assert_eq!(held(&series, 2_900_000), Some(0));
    assert_eq!(held(&series, 3_500_000), Some(1000));
    assert_eq!(held(&series, 4_000_000), Some(1000));
}

#[test]
fn values_format_the_way_the_firmware_documents_them() {
    assert_eq!(def(0x2032).format_value(2), "2 fallback A");
    assert_eq!(def(0x2013).format_value(9), "9 (unknown code)");
    assert_eq!(def(0x2002).format_value(0b101), "bits 0, 2");
    assert_eq!(def(0x3051).format_value(0xFF), "none");
    assert_eq!(def(0x1010).format_value(SIGNATURE_SAVE as i64), "\"save\"");
    assert_eq!(def(0x2041).format_value(10194), "10194 mV");
    assert_eq!(def(0x2004).format_value(-32768), "no reading");
    assert_eq!(def(0x2000).format_value(0xFFFF), "no reading");
    assert_eq!(def(0x2000).format_value(707), "707 counts");
}

/// Slot 0 declared centi-°C, slot 1 left at centibar: a real node 5 pair of frames.
#[test]
fn a_sensor_slot_reads_in_the_unit_its_node_declared() {
    let log = CanOpenLog::build(&[
        frame(0, 0x2C5, [0x02, 0, 0, 0, 0, 0, 0, 0]),
        frame(0, 0x295, [0x7F, 0x07, 0x5D, 0x00, 0x00, 0x80, 0x00, 0x80]),
    ]);
    let at = |sub: u8, raw: i64| log.format_value_at(key(5, 0x2004, sub), raw, 1_000_000);
    assert_eq!(at(1, 1919), "1919 counts = 19.19 °C");
    assert_eq!(at(2, 93), "93 counts = 0.93 bar");
    assert_eq!(at(2, 7), "7 counts = 0.07 bar");
    assert_eq!(at(3, -32768), "no reading");
}

#[test]
fn a_repeated_value_is_seen_but_is_no_change() {
    let log = CanOpenLog::build(&[
        frame(1_000_000, 0x305, [1, 0, 0, 0, 0, 0, 0, 0]),
        frame(2_000_000, 0x305, [1, 0, 0, 0, 0, 0, 0, 0]),
    ]);
    let link = track(&log, key(5, 0x2032, 0));
    assert_eq!((link.updates, link.changes.len(), link.last_seen), (2, 1, 2_000_000));
}

#[test]
fn extended_identifiers_are_not_taken_for_the_protocol() {
    let log = CanOpenLog::build(&[frame(0, 0x18FF_50E5, [0x60; 8])]);
    assert!(log.transfers.is_empty());
    assert!(log.nodes.is_empty());
    assert_eq!(log.objects.len(), 0);
}

#[test]
fn a_frame_mirrors_the_objects_its_words_stand_for() {
    let mut data = [0u8; 8];
    data[..2].copy_from_slice(&250u16.to_le_bytes());
    let objects = tpdo_objects(TpdoKind::ValveCommanded, &data);
    assert_eq!(objects[0], (0x2010, 1, 250));
    assert_eq!(objects.len(), 4);
    assert!(objects.iter().all(|o| o.0 == 0x2010));
}

#[test]
fn object_codes_round_trip() {
    let k = ObjectKey { bus: 2, node: 7, index: 0x2010, sub: 3 };
    assert_eq!(ObjectKey::from_code(k.code()), k);
    assert_eq!(k.node(), NodeKey { bus: 2, node: 7 });
    // Codes order as the keys do.
    let later = ObjectKey { sub: 4, ..k };
    assert!(k.code() < later.code());
    assert!(later.code() < ObjectKey { bus: 3, node: 0, index: 0, sub: 0 }.code());
}

#[test]
fn the_bus_joins_a_series_name_only_where_there_are_two() {
    let one = CanOpenLog::build(&[frame(0, 0x305, [0; 8])]);
    assert_eq!(one.series_name(key(5, 0x2032, 0)), "CAN_OD[5].link_state");
    let two = CanOpenLog::build(&[
        frame(0, 0x305, [0; 8]),
        CanFrame { bus: 2, ..frame(0, 0x305, [0; 8]) },
    ]);
    assert_eq!(two.series_name(key(5, 0x2032, 0)), "CAN_OD[bus1:5].link_state");
    assert_eq!(two.series_name(key(5, 0x9999, 4)), "CAN_OD[bus1:5].x9999_4");
    let keys = two.objects_of(NodeKey { bus: 2, node: 5 });
    assert!(!keys.is_empty());
    assert!(keys.iter().all(|k| k.bus == 2 && k.node == 5));
}

/// A write that nothing answered and that repeats the value before it is an update, and no
/// change.
#[test]
fn a_late_write_of_the_same_value_is_no_change() {
    let log = CanOpenLog::build(&[
        frame(1_000_000, 0x205, [0xF4, 0x01, 0, 0, 0, 0, 0, 0]),
        frame(2_000_000, 0x605, [0x2B, 0x10, 0x20, 0x01, 0xF4, 0x01, 0, 0]),
        frame(3_000_000, 0x205, [0x58, 0x02, 0, 0, 0, 0, 0, 0]),
    ]);
    let valve = track(&log, key(5, 0x2010, 1));
    let changes: Vec<(i64, i64)> = valve.changes.iter().map(|c| (c.t_utc, c.raw)).collect();
    assert_eq!(changes, vec![(1_000_000, 500), (3_000_000, 600)]);
    assert_eq!(valve.updates, 3);
}

#[test]
fn transfers_are_the_decoded_frames_in_order() {
    let frames = [
        frame(0, 0x605, [0x40, 0x10, 0x20, 0x01, 0, 0, 0, 0]),
        frame(10, 0x205, [0; 8]),
        frame(20, 0x585, [0x4B, 0x10, 0x20, 0x01, 0xF4, 0x01, 0, 0]),
        frame(30, 0x590, [0x4B, 0x10, 0x20, 0x01, 0xF4, 0x01, 0, 0]),
    ];
    let log = CanOpenLog::build(&frames);
    assert_eq!(log.transfers.len(), frames.iter().filter_map(decode_sdo).count());
    assert!(log.transfers[0].request && log.transfers[0].latency.is_none());
    assert_eq!(log.transfers[1].latency, Some(20));
}
