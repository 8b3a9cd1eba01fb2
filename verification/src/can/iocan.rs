//! The vehicle's own CAN protocol, as spoken by the IO boards.
//!
//! Identifiers are laid out as
//!
//! ```text
//!   0x200 | (kind << 4) | node_id     process data out of a node
//!   0x580 + node_id                   SDO response
//!   0x600 + node_id                   SDO request
//!   0x700 + node_id                   heartbeat
//! ```
//!
//! and the payload of each process-data kind is a fixed 8 bytes, little endian.
use vstd::prelude::*;

pub use crate::can::collector::decode;

use crate::text::{push_dec, dec};

verus! {

pub const PDO_BASE: u32 = 0x200;

pub const SDO_RESPONSE_BASE: u32 = 0x580;

pub const SDO_REQUEST_BASE: u32 = 0x600;

pub const HEARTBEAT_BASE: u32 = 0x700;

/// Number of sensor slots the protocol can carry, across `Sensor0`/`1`/`3`.
pub const PROTOCOL_SENSOR_SLOTS: usize = 12;

/// "No reading" for a calibrated sensor slot, and for a raw amplifier channel.
pub const SENSOR_INVALID: i16 = -0x8000;

pub const RAW_INVALID: u16 = 0xFFFF;

/// A high current output's pulse width word: these two values are sentinels rather than
/// widths, since every real width is far below `0x8000`.
pub const HCO_DIGITAL_ON: u16 = 0x8000;

pub const HCO_DIGITAL_OFF: u16 = 0x0000;

/// Bit 15 of a valve position word: the drive is released. The rest is the position in
/// promille.
pub const VALVE_UNPOWERED: u16 = 0x8000;

/// The fixed process-data table.
#[derive(Clone, Copy, PartialEq, Eq, Structural, Debug)]
pub enum TpdoKind {
    ValveCommanded,
    ValveTarget,
    ValveMeasured,
    ValveStatus,
    HcoState,
    RawBus0A,
    RawBus0B,
    RawBus1A,
    RawBus1B,
    Sensor0,
    Sensor1,
    Sensor3,
    SensorUnits,
    I2cScan,
    RailVoltage,
    RailCurrent,
    Status,
    ValveCurrent,
}

/// The kinds in wire order: the index is the `kind` field of the identifier.
pub const KINDS: [TpdoKind; 18] = [
    TpdoKind::ValveCommanded,
    TpdoKind::ValveTarget,
    TpdoKind::ValveMeasured,
    TpdoKind::ValveStatus,
    TpdoKind::HcoState,
    TpdoKind::RawBus0A,
    TpdoKind::RawBus0B,
    TpdoKind::RawBus1A,
    TpdoKind::RawBus1B,
    TpdoKind::Sensor0,
    TpdoKind::Sensor1,
    TpdoKind::Sensor3,
    TpdoKind::SensorUnits,
    TpdoKind::I2cScan,
    TpdoKind::RailVoltage,
    TpdoKind::RailCurrent,
    TpdoKind::Status,
    TpdoKind::ValveCurrent,
];

/// The names of the kinds, in wire order.
pub const KIND_NAMES: [&'static str; 18] = [
    "ValveCommanded",
    "ValveTarget",
    "ValveMeasured",
    "ValveStatus",
    "HcoState",
    "RawBus0A",
    "RawBus0B",
    "RawBus1A",
    "RawBus1B",
    "Sensor0",
    "Sensor1",
    "Sensor3",
    "SensorUnits",
    "I2cScan",
    "RailVoltage",
    "RailCurrent",
    "Status",
    "ValveCurrent",
];

impl TpdoKind {
    /// The kind's place in the wire order.
    pub open spec fn wire_index(self) -> int {
        match self {
            TpdoKind::ValveCommanded => 0,
            TpdoKind::ValveTarget => 1,
            TpdoKind::ValveMeasured => 2,
            TpdoKind::ValveStatus => 3,
            TpdoKind::HcoState => 4,
            TpdoKind::RawBus0A => 5,
            TpdoKind::RawBus0B => 6,
            TpdoKind::RawBus1A => 7,
            TpdoKind::RawBus1B => 8,
            TpdoKind::Sensor0 => 9,
            TpdoKind::Sensor1 => 10,
            TpdoKind::Sensor3 => 11,
            TpdoKind::SensorUnits => 12,
            TpdoKind::I2cScan => 13,
            TpdoKind::RailVoltage => 14,
            TpdoKind::RailCurrent => 15,
            TpdoKind::Status => 16,
            TpdoKind::ValveCurrent => 17,
        }
    }

    /// The kind's place in the wire order.
    pub fn index(self) -> (i: usize)
        ensures
            i == self.wire_index(),
            i < 18,
    {
        match self {
            TpdoKind::ValveCommanded => 0,
            TpdoKind::ValveTarget => 1,
            TpdoKind::ValveMeasured => 2,
            TpdoKind::ValveStatus => 3,
            TpdoKind::HcoState => 4,
            TpdoKind::RawBus0A => 5,
            TpdoKind::RawBus0B => 6,
            TpdoKind::RawBus1A => 7,
            TpdoKind::RawBus1B => 8,
            TpdoKind::Sensor0 => 9,
            TpdoKind::Sensor1 => 10,
            TpdoKind::Sensor3 => 11,
            TpdoKind::SensorUnits => 12,
            TpdoKind::I2cScan => 13,
            TpdoKind::RailVoltage => 14,
            TpdoKind::RailCurrent => 15,
            TpdoKind::Status => 16,
            TpdoKind::ValveCurrent => 17,
        }
    }

    /// The kind at a place of the wire order.
    pub fn from_index(index: u32) -> (r: Option<Self>)
        ensures
            index < 18 ==> r == Some(KINDS@[index as int]),
            index >= 18 ==> r is None,
    {
        if index < 18 {
            Some(KINDS[index as usize])
        } else {
            None
        }
    }

    pub fn name(self) -> (r: &'static str)
        ensures
            r@ == KIND_NAMES@[self.wire_index()]@,
    {
        KIND_NAMES[self.index()]
    }
}

/// The wire order lists every kind once: a kind stands at its own index.
pub proof fn kinds_stand_at_their_index(k: TpdoKind)
    ensures
        0 <= k.wire_index() < 18,
        KINDS@[k.wire_index()] == k,
{
}

/// Reading a place of the wire order back gives the place.
pub proof fn kinds_are_distinct(i: int)
    requires
        0 <= i < 18,
    ensures
        KINDS@[i].wire_index() == i,
{
}

/// The node and the kind of a process-data identifier.
pub open spec fn process_data_spec(id: u32) -> Option<(u8, TpdoKind)> {
    if PDO_BASE <= id < SDO_RESPONSE_BASE && (id - PDO_BASE) / 16 < 18 {
        Some(((id % 16) as u8, KINDS@[(id - PDO_BASE) / 16]))
    } else {
        None
    }
}

/// Splits a process-data identifier into its node and kind.
pub fn process_data(id: u32) -> (r: Option<(u8, TpdoKind)>)
    ensures
        r == process_data_spec(id),
{
    if !(PDO_BASE <= id && id < SDO_RESPONSE_BASE) {
        return None;
    }
    match TpdoKind::from_index((id - PDO_BASE) / 16) {
        Some(kind) => Some(((id % 16) as u8, kind)),
        None => None,
    }
}

/// The identifier layout: `0x200 | kind << 4 | node` is read back as that kind of that node,
/// and no other identifier is.
pub proof fn process_data_inverts_the_layout(id: u32, node: u8, kind: TpdoKind)
    requires
        node < 16,
    ensures
        process_data_spec(id) == Some((node, kind)) <==> id == 0x200 + 16 * kind.wire_index() + node,
{
    kinds_stand_at_their_index(kind);
    if process_data_spec(id) is Some {
        kinds_are_distinct((id - PDO_BASE) / 16);
    }
}

/// What [`describe`] says of an identifier: each service has a base, and the node's four bits are
/// above it.
pub open spec fn describe_spec(id: u32) -> Option<Seq<char>> {
    let node = "node "@ + dec((id % 16) as nat);
    if PDO_BASE <= id < SDO_RESPONSE_BASE {
        match process_data_spec(id) {
            Some((_, kind)) => Some(node + " "@ + KIND_NAMES@[kind.wire_index()]@),
            None => None,
        }
    } else if SDO_RESPONSE_BASE <= id < SDO_RESPONSE_BASE + 16 {
        Some(node + " SDO response"@)
    } else if SDO_REQUEST_BASE <= id < SDO_REQUEST_BASE + 16 {
        Some(node + " SDO request"@)
    } else if HEARTBEAT_BASE <= id < HEARTBEAT_BASE + 16 {
        Some(node + " heartbeat"@)
    } else {
        None
    }
}

/// What an identifier is, for the signal picker's list. `None` for anything outside this
/// protocol.
pub fn describe(id: u32) -> (r: Option<String>)
    ensures
        crate::text::opt_view(r) == describe_spec(id),
{
    let mut out = String::new();
    out.append("node ");
    push_dec(&mut out, (id % 16) as u64);
    if PDO_BASE <= id && id < SDO_RESPONSE_BASE {
        match process_data(id) {
            Some((_, kind)) => {
                out.append(" ");
                out.append(kind.name());
                Some(out)
            },
            None => None,
        }
    } else if SDO_RESPONSE_BASE <= id && id < SDO_RESPONSE_BASE + 16 {
        out.append(" SDO response");
        Some(out)
    } else if SDO_REQUEST_BASE <= id && id < SDO_REQUEST_BASE + 16 {
        out.append(" SDO request");
        Some(out)
    } else if HEARTBEAT_BASE <= id && id < HEARTBEAT_BASE + 16 {
        out.append(" heartbeat");
        Some(out)
    } else {
        None
    }
}

/// The little-endian 16-bit word at word position `i`.
pub open spec fn word(data: Seq<u8>, i: int) -> int {
    data[2 * i] + 256 * data[2 * i + 1]
}

/// A 16-bit word as a signed number.
pub open spec fn signed16(w: int) -> int {
    if w >= 0x8000 {
        w - 0x1_0000
    } else {
        w
    }
}

pub fn u16x4(data: &[u8; 8]) -> (r: [u16; 4])
    ensures
        forall|i: int| 0 <= i < 4 ==> #[trigger] r@[i] == word(data@, i),
{
    [
        data[0] as u16 + 256 * data[1] as u16,
        data[2] as u16 + 256 * data[3] as u16,
        data[4] as u16 + 256 * data[5] as u16,
        data[6] as u16 + 256 * data[7] as u16,
    ]
}

fn to_signed16(w: u16) -> (r: i16)
    ensures
        r == signed16(w as int),
{
    if w >= 0x8000 {
        (w as i32 - 0x1_0000) as i16
    } else {
        w as i16
    }
}

pub fn i16x4(data: &[u8; 8]) -> (r: [i16; 4])
    ensures
        forall|i: int| 0 <= i < 4 ==> #[trigger] r@[i] == signed16(word(data@, i)),
{
    let w = u16x4(data);
    [to_signed16(w[0]), to_signed16(w[1]), to_signed16(w[2]), to_signed16(w[3])]
}

/// The `i`-th of the 4-bit values packed low nibble first.
pub open spec fn nibble(bytes: Seq<u8>, i: int) -> int {
    if i % 2 == 0 {
        bytes[i / 2] as int % 16
    } else {
        bytes[i / 2] as int / 16
    }
}

/// Four 4-bit values packed low nibble first into two bytes.
pub fn unpack_nibbles(bytes: &[u8]) -> (r: [u8; 4])
    requires
        bytes@.len() >= 2,
    ensures
        forall|i: int| 0 <= i < 4 ==> #[trigger] r@[i] == nibble(bytes@, i),
{
    [bytes[0] % 16, bytes[0] / 16, bytes[1] % 16, bytes[1] / 16]
}

/// The `i`-th of the 2-bit values packed low bits first.
pub open spec fn pair_of_bits(bytes: Seq<u8>, i: int) -> int {
    let b = bytes[i / 4] as int;
    if i % 4 == 0 {
        b % 4
    } else if i % 4 == 1 {
        b / 4 % 4
    } else if i % 4 == 2 {
        b / 16 % 4
    } else {
        b / 64
    }
}

/// Twelve 2-bit values packed low bits first into three bytes.
pub fn unpack_2bit(bytes: &[u8]) -> (r: [u8; PROTOCOL_SENSOR_SLOTS])
    requires
        bytes@.len() >= 3,
    ensures
        forall|i: int| 0 <= i < 12 ==> #[trigger] r@[i] == pair_of_bits(bytes@, i),
{
    [
        bytes[0] % 4,
        bytes[0] / 4 % 4,
        bytes[0] / 16 % 4,
        bytes[0] / 64,
        bytes[1] % 4,
        bytes[1] / 4 % 4,
        bytes[1] / 16 % 4,
        bytes[1] / 64,
        bytes[2] % 4,
        bytes[2] / 4 % 4,
        bytes[2] / 16 % 4,
        bytes[2] / 64,
    ]
}

/// Display unit and decimals of a sensor slot's counts, for its declared unit code.
pub open spec fn sensor_unit_spec(code: Option<u8>) -> (Seq<char>, nat) {
    match code {
        Some(c) => if c == 0 {
            ("bar"@, 2)
        } else if c == 1 {
            ("bar"@, 1)
        } else if c == 2 {
            ("°C"@, 2)
        } else {
            ("counts"@, 0)
        },
        None => ("counts"@, 0),
    }
}

/// Display unit of a sensor slot, and how many decimals its counts have in that unit. An
/// unknown or unseen code is left as raw counts rather than guessed at.
pub fn sensor_unit(code: Option<u8>) -> (r: (&'static str, u8))
    ensures
        (r.0@, r.1 as nat) == sensor_unit_spec(code),
        r.1 <= 2,
{
    match code {
        Some(0) => ("bar", 2),
        Some(1) => ("bar", 1),
        Some(2) => ("°C", 2),
        _ => ("counts", 0),
    }
}

} // verus!
