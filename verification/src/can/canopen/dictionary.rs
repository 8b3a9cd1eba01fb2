//! The dictionary itself: every object a node answers for, and how its values read.
use std::ops::RangeInclusive;
use vstd::prelude::*;

use crate::can::iocan::KIND_NAMES;
use crate::text::{
    ascii_lowercase, ascii_lowered, dec, dec_int, hex, opt_view, push_dec, push_hex, push_int,
};

verus! {

broadcast use vstd::seq_lib::group_seq_properties;

#[derive(Clone, Copy, PartialEq, Eq, Structural, Debug)]
pub enum DataType {
    U8,
    U16,
    I16,
    U32,
    I32,
}

impl DataType {
    pub open spec fn width_spec(self) -> nat {
        match self {
            DataType::U8 => 1,
            DataType::U16 | DataType::I16 => 2,
            DataType::U32 | DataType::I32 => 4,
        }
    }

    /// Bytes a value of the type takes.
    pub fn width(self) -> (r: usize)
        ensures
            r == self.width_spec(),
    {
        match self {
            DataType::U8 => 1,
            DataType::U16 | DataType::I16 => 2,
            DataType::U32 | DataType::I32 => 4,
        }
    }

    pub open spec fn name_spec(self) -> Seq<char> {
        match self {
            DataType::U8 => "u8"@,
            DataType::U16 => "u16"@,
            DataType::I16 => "i16"@,
            DataType::U32 => "u32"@,
            DataType::I32 => "i32"@,
        }
    }

    pub fn name(self) -> (r: &'static str)
        ensures
            r@ == self.name_spec(),
    {
        match self {
            DataType::U8 => "u8",
            DataType::U16 => "u16",
            DataType::I16 => "i16",
            DataType::U32 => "u32",
            DataType::I32 => "i32",
        }
    }

    /// The little-endian value in the first `width` bytes, sign-extended for the signed types.
    pub open spec fn decode_spec(self, bytes: Seq<u8>) -> int {
        let low = bytes[0] + 256 * bytes[1];
        let all = low + 0x1_0000 * bytes[2] + 0x100_0000 * bytes[3];
        match self {
            DataType::U8 => bytes[0] as int,
            DataType::U16 => low,
            DataType::I16 => if low >= 0x8000 {
                low - 0x1_0000
            } else {
                low
            },
            DataType::U32 => all,
            DataType::I32 => if all >= 0x8000_0000 {
                all - 0x1_0000_0000
            } else {
                all
            },
        }
    }

    /// The little-endian value in the first `width` bytes, sign-extended for the signed types.
    pub fn decode(self, bytes: [u8; 4]) -> (r: i64)
        ensures
            r == self.decode_spec(bytes@),
    {
        let low: i64 = bytes[0] as i64 + 256 * bytes[1] as i64;
        let all: i64 = low + 0x1_0000 * bytes[2] as i64 + 0x100_0000 * bytes[3] as i64;
        match self {
            DataType::U8 => bytes[0] as i64,
            DataType::U16 => low,
            DataType::I16 => if low >= 0x8000 {
                low - 0x1_0000
            } else {
                low
            },
            DataType::U32 => all,
            DataType::I32 => if all >= 0x8000_0000 {
                all - 0x1_0000_0000
            } else {
                all
            },
        }
    }
}

#[derive(Clone, Copy, PartialEq, Eq, Structural, Debug)]
pub enum Access {
    ReadOnly,
    ReadWrite,
}

impl Access {
    pub open spec fn label_spec(self) -> Seq<char> {
        match self {
            Access::ReadOnly => "ro"@,
            Access::ReadWrite => "rw"@,
        }
    }

    pub fn label(self) -> (r: &'static str)
        ensures
            r@ == self.label_spec(),
    {
        match self {
            Access::ReadOnly => "ro",
            Access::ReadWrite => "rw",
        }
    }
}

/// What the entries of an array object are one of. Sub-index `n` is entry `n - 1`; sub-index 0
/// of an array is its length, as CANopen has it.
#[derive(Clone, Copy, PartialEq, Eq, Structural, Debug)]
pub enum Element {
    Valve,
    /// Named the way the board silkscreen names them: HCO1..HCO4.
    Hco,
    Slot,
    Amplifier,
    I2cBus,
    Rail,
    Actuator,
    /// `0x3040`: one period per TPDO kind, in wire order.
    Tpdo,
    /// `0x1010` / `0x1011`: sub 1 is "all parameters".
    Parameters,
}

/// The supply rails, in entry order.
pub const RAILS: [&'static str; 3] = ["logic", "hco12", "hco34"];

impl Element {
    pub open spec fn label_spec(self, entry: nat) -> Seq<char> {
        match self {
            Element::Valve => "valve "@ + dec(entry),
            Element::Hco => "HCO"@ + dec(entry + 1),
            Element::Slot => "slot "@ + dec(entry),
            Element::Amplifier => "amp "@ + dec(entry),
            Element::I2cBus => "bus "@ + dec(entry),
            Element::Rail => if entry < 3 {
                RAILS@[entry as int]@
            } else {
                "rail "@ + dec(entry)
            },
            Element::Actuator => "actuator "@ + dec(entry),
            Element::Tpdo => if entry < 18 {
                KIND_NAMES@[entry as int]@
            } else {
                "kind "@ + dec(entry)
            },
            Element::Parameters => "all"@,
        }
    }

    /// The entry, as a person calls it.
    pub fn label(self, entry: usize) -> (r: String)
        requires
            entry < usize::MAX,
        ensures
            r@ == self.label_spec(entry as nat),
    {
        let mut out = String::new();
        match self {
            Element::Valve => {
                out.append("valve ");
                push_dec(&mut out, entry as u64);
            },
            Element::Hco => {
                out.append("HCO");
                push_dec(&mut out, (entry + 1) as u64);
            },
            Element::Slot => {
                out.append("slot ");
                push_dec(&mut out, entry as u64);
            },
            Element::Amplifier => {
                out.append("amp ");
                push_dec(&mut out, entry as u64);
            },
            Element::I2cBus => {
                out.append("bus ");
                push_dec(&mut out, entry as u64);
            },
            Element::Rail => {
                if entry < 3 {
                    out.append(RAILS[entry]);
                } else {
                    out.append("rail ");
                    push_dec(&mut out, entry as u64);
                }
            },
            Element::Actuator => {
                out.append("actuator ");
                push_dec(&mut out, entry as u64);
            },
            Element::Tpdo => {
                if entry < 18 {
                    out.append(KIND_NAMES[entry]);
                } else {
                    out.append("kind ");
                    push_dec(&mut out, entry as u64);
                }
            },
            Element::Parameters => {
                out.append("all");
            },
        }
        out
    }

    pub open spec fn tag_spec(self, entry: nat) -> Seq<char> {
        match self {
            Element::Hco => "hco"@ + dec(entry + 1),
            Element::Rail | Element::Tpdo => ascii_lowered(self.label_spec(entry)),
            _ => dec(entry),
        }
    }

    /// For a series name: short, and in lower case.
    pub fn tag(self, entry: usize) -> (r: String)
        requires
            entry < usize::MAX,
        ensures
            r@ == self.tag_spec(entry as nat),
    {
        match self {
            Element::Hco => {
                let mut out = String::new();
                out.append("hco");
                push_dec(&mut out, (entry + 1) as u64);
                out
            },
            Element::Rail | Element::Tpdo => {
                let label = self.label(entry);
                ascii_lowercase(label.as_str())
            },
            _ => {
                let mut out = String::new();
                push_dec(&mut out, entry as u64);
                out
            },
        }
    }
}

pub const VALVE_STATUS: [&'static str; 5] = [
    "unmapped",
    "unpowered",
    "moving",
    "holding",
    "stalled",
];

/// 4 is raw debug mode *or* the fallback switched off at 0x3007.
pub const LINK_STATE: [&'static str; 5] = [
    "never seen master",
    "alive",
    "fallback A",
    "fallback B",
    "suspended (raw debug or fallback off)",
];

pub const RELIEF_STATE: [&'static str; 5] = [
    "idle",
    "relieving",
    "cooldown",
    "inhibited",
    "disabled",
];

pub const UNIT_CODE: [&'static str; 4] = ["centibar", "decibar", "centi-°C", "raw counts"];

pub const VALVE_KIND: [&'static str; 4] = ["not fitted", "solenoid", "servo", "stepper"];

pub const SENSOR_KIND: [&'static str; 3] = ["unused", "pressure (linear)", "Pt1000 temperature"];

pub const HCO_NUMBER: [&'static str; 5] = ["none", "HCO1", "HCO2", "HCO3", "HCO4"];

pub const HCO_OWNER: [&'static str; 5] = ["free", "valve 0", "valve 1", "valve 2", "valve 3"];

pub const OFF_ON: [&'static str; 2] = ["off", "on"];

/// The lists of names that coded values draw from.
#[derive(Clone, Copy, PartialEq, Eq, Structural, Debug)]
pub enum Labels {
    ValveStatus,
    LinkState,
    ReliefState,
    UnitCode,
    ValveKind,
    SensorKind,
    HcoNumber,
    HcoOwner,
    OffOn,
}

impl Labels {
    /// The names, in code order.
    pub open spec fn names(self) -> Seq<&'static str> {
        match self {
            Labels::ValveStatus => VALVE_STATUS@,
            Labels::LinkState => LINK_STATE@,
            Labels::ReliefState => RELIEF_STATE@,
            Labels::UnitCode => UNIT_CODE@,
            Labels::ValveKind => VALVE_KIND@,
            Labels::SensorKind => SENSOR_KIND@,
            Labels::HcoNumber => HCO_NUMBER@,
            Labels::HcoOwner => HCO_OWNER@,
            Labels::OffOn => OFF_ON@,
        }
    }

    /// The name of a code, if it has one.
    pub fn get(self, code: i64) -> (r: Option<&'static str>)
        ensures
            0 <= code < self.names().len() ==> r == Some(self.names()[code as int]),
            !(0 <= code < self.names().len()) ==> r is None,
    {
        if code < 0 || code >= 5 {
            return None;
        }
        let i: usize = code as usize;
        match self {
            Labels::ValveStatus => Some(VALVE_STATUS[i]),
            Labels::LinkState => Some(LINK_STATE[i]),
            Labels::ReliefState => Some(RELIEF_STATE[i]),
            Labels::UnitCode => if i < 4 {
                Some(UNIT_CODE[i])
            } else {
                None
            },
            Labels::ValveKind => if i < 4 {
                Some(VALVE_KIND[i])
            } else {
                None
            },
            Labels::SensorKind => if i < 3 {
                Some(SENSOR_KIND[i])
            } else {
                None
            },
            Labels::HcoNumber => Some(HCO_NUMBER[i]),
            Labels::HcoOwner => Some(HCO_OWNER[i]),
            Labels::OffOn => if i < 2 {
                Some(OFF_ON[i])
            } else {
                None
            },
        }
    }
}

/// How a raw value reads to a person.
#[derive(Clone, Copy, PartialEq, Eq, Structural, Debug)]
pub enum Format {
    Plain,
    /// The valve position word: promille in bits 0..14, "released" in bit 15.
    Position,
    /// Codes with names; anything past the end of the list is shown as a number.
    Enum(Labels),
    /// Which bits are set.
    Bits,
    /// `0xFF` means "none"; anything else is an index.
    IndexOrNone,
    /// `0x1010` / `0x1011`: the ASCII signatures `save` and `load`.
    Signature,
    /// A reading with a "nothing read" sentinel: an amplifier that did not answer, a sensor
    /// slot with no valid value.
    Reading(i64),
}

/// The formats, one name each, as the dictionary's rows refer to them.
#[derive(Clone, Copy, PartialEq, Eq, Structural, Debug)]
pub enum Shown {
    Plain,
    Position,
    ValveStatus,
    LinkState,
    ReliefState,
    UnitCode,
    ValveKind,
    SensorKind,
    HcoNumber,
    HcoOwner,
    OffOn,
    Bits,
    IndexOrNone,
    Signature,
    RawReading,
    SensorReading,
}

impl Shown {
    pub open spec fn format_spec(self) -> Format {
        match self {
            Shown::Plain => Format::Plain,
            Shown::Position => Format::Position,
            Shown::ValveStatus => Format::Enum(Labels::ValveStatus),
            Shown::LinkState => Format::Enum(Labels::LinkState),
            Shown::ReliefState => Format::Enum(Labels::ReliefState),
            Shown::UnitCode => Format::Enum(Labels::UnitCode),
            Shown::ValveKind => Format::Enum(Labels::ValveKind),
            Shown::SensorKind => Format::Enum(Labels::SensorKind),
            Shown::HcoNumber => Format::Enum(Labels::HcoNumber),
            Shown::HcoOwner => Format::Enum(Labels::HcoOwner),
            Shown::OffOn => Format::Enum(Labels::OffOn),
            Shown::Bits => Format::Bits,
            Shown::IndexOrNone => Format::IndexOrNone,
            Shown::Signature => Format::Signature,
            Shown::RawReading => Format::Reading(0xFFFF),
            Shown::SensorReading => Format::Reading(-0x8000i64 as i64),
        }
    }

    fn format(self) -> (r: Format)
        ensures
            r == self.format_spec(),
    {
        match self {
            Shown::Plain => Format::Plain,
            Shown::Position => Format::Position,
            Shown::ValveStatus => Format::Enum(Labels::ValveStatus),
            Shown::LinkState => Format::Enum(Labels::LinkState),
            Shown::ReliefState => Format::Enum(Labels::ReliefState),
            Shown::UnitCode => Format::Enum(Labels::UnitCode),
            Shown::ValveKind => Format::Enum(Labels::ValveKind),
            Shown::SensorKind => Format::Enum(Labels::SensorKind),
            Shown::HcoNumber => Format::Enum(Labels::HcoNumber),
            Shown::HcoOwner => Format::Enum(Labels::HcoOwner),
            Shown::OffOn => Format::Enum(Labels::OffOn),
            Shown::Bits => Format::Bits,
            Shown::IndexOrNone => Format::IndexOrNone,
            Shown::Signature => Format::Signature,
            Shown::RawReading => Format::Reading(0xFFFF),
            Shown::SensorReading => Format::Reading(-0x8000),
        }
    }
}

/// The definition of one object.
#[derive(Clone, Copy, Debug)]
pub struct ObjectDef {
    pub index: u16,
    /// Series-name friendly.
    pub short: &'static str,
    pub name: &'static str,
    pub ty: DataType,
    pub access: Access,
    /// `None` for a plain variable (sub-index 0 only).
    pub array: Option<(u8, Element)>,
    pub format: Format,
    pub unit: &'static str,
}

/// One row of the dictionary: index, short name, name, type, access, array length (0 for a
/// variable), what the entries are, how values read, unit.
pub type Row = (
    u16,
    &'static str,
    &'static str,
    DataType,
    Access,
    u8,
    Element,
    Shown,
    &'static str,
);

/// How many objects the dictionary defines.
pub const OBJECTS: usize = 67;

/// Every object a node answers for, sorted by index. The 0x1000 objects are the communication
/// profile's, the 0x2000 ones process data, the 0x3000 ones runtime configuration, persisted
/// on "save".
pub const DICTIONARY: [Row; 67] = [
    (0x1010, "store_parameters", "store parameters (write \"save\")", DataType::U32, Access::ReadWrite, 1, Element::Parameters, Shown::Signature, ""),
    (0x1011, "restore_defaults", "restore default parameters (write \"load\")", DataType::U32, Access::ReadWrite, 1, Element::Parameters, Shown::Signature, ""),
    (0x1017, "heartbeat_period", "producer heartbeat period", DataType::U16, Access::ReadWrite, 0, Element::Valve, Shown::Plain, "ms"),
    (0x2000, "raw_adc_bus0", "raw external adc reading, i2c bus 0", DataType::U16, Access::ReadOnly, 9, Element::Amplifier, Shown::RawReading, "counts"),
    (0x2001, "raw_adc_bus1", "raw external adc reading, i2c bus 1", DataType::U16, Access::ReadOnly, 9, Element::Amplifier, Shown::RawReading, "counts"),
    (0x2002, "i2c_present", "i2c amplifier presence bitmap", DataType::U16, Access::ReadOnly, 2, Element::I2cBus, Shown::Bits, ""),
    (0x2003, "i2c_sweeps", "completed i2c presence sweeps", DataType::U32, Access::ReadOnly, 0, Element::Valve, Shown::Plain, ""),
    (0x2004, "sensor_value", "calibrated sensor values (unit: 0x2005)", DataType::I16, Access::ReadOnly, 8, Element::Slot, Shown::SensorReading, "counts"),
    (0x2005, "sensor_unit", "unit code per sensor slot", DataType::U8, Access::ReadOnly, 8, Element::Slot, Shown::UnitCode, ""),
    (0x2010, "valve_commanded", "valve commanded state", DataType::U16, Access::ReadWrite, 4, Element::Valve, Shown::Position, ""),
    (0x2011, "valve_target", "valve target state", DataType::U16, Access::ReadOnly, 4, Element::Valve, Shown::Position, ""),
    (0x2012, "valve_measured", "valve measured state", DataType::U16, Access::ReadOnly, 4, Element::Valve, Shown::Position, ""),
    (0x2013, "valve_status", "valve status", DataType::U8, Access::ReadOnly, 4, Element::Valve, Shown::ValveStatus, ""),
    (0x2014, "valve_current", "valve current", DataType::U16, Access::ReadOnly, 4, Element::Valve, Shown::Plain, "mA"),
    (0x2015, "relief_state", "overpressure relief state", DataType::U8, Access::ReadOnly, 0, Element::Valve, Shown::ReliefState, ""),
    (0x2016, "stepper_position", "stepper position, steps since boot", DataType::I32, Access::ReadWrite, 2, Element::Actuator, Shown::Plain, "steps"),
    (0x2020, "hco_digital", "high current output, digital level", DataType::U8, Access::ReadWrite, 4, Element::Hco, Shown::OffOn, ""),
    (0x2021, "hco_pwm", "high current output, pwm pulse width", DataType::U16, Access::ReadWrite, 4, Element::Hco, Shown::Plain, "us"),
    (0x2022, "hco_owner", "high current output owner", DataType::U8, Access::ReadOnly, 4, Element::Hco, Shown::HcoOwner, ""),
    (0x2030, "leds", "debug leds (bit0 red, bit1 yellow, bit2 white)", DataType::U8, Access::ReadWrite, 0, Element::Valve, Shown::Bits, ""),
    (0x2031, "raw_debug", "raw debug mode (volatile)", DataType::U8, Access::ReadWrite, 0, Element::Valve, Shown::OffOn, ""),
    (0x2032, "link_state", "master link state", DataType::U8, Access::ReadOnly, 0, Element::Valve, Shown::LinkState, ""),
    (0x2033, "ms_since_heartbeat", "time since last master heartbeat", DataType::U32, Access::ReadOnly, 0, Element::Valve, Shown::Plain, "ms"),
    (0x2040, "rail_current", "rail current", DataType::U16, Access::ReadOnly, 3, Element::Rail, Shown::Plain, "mA"),
    (0x2041, "rail_voltage", "rail voltage", DataType::U16, Access::ReadOnly, 3, Element::Rail, Shown::Plain, "mV"),
    (0x3000, "master_node_id", "master node id", DataType::U8, Access::ReadWrite, 0, Element::Valve, Shown::Plain, ""),
    (0x3001, "fallback_a_ms", "fallback stage A timeout", DataType::U32, Access::ReadWrite, 0, Element::Valve, Shown::Plain, "ms"),
    (0x3002, "fallback_b_ms", "fallback stage B timeout", DataType::U32, Access::ReadWrite, 0, Element::Valve, Shown::Plain, "ms"),
    (0x3003, "fallback_a_position", "fallback stage A valve position", DataType::U16, Access::ReadWrite, 4, Element::Valve, Shown::Plain, "‰"),
    (0x3004, "fallback_b_position", "fallback stage B valve position", DataType::U16, Access::ReadWrite, 4, Element::Valve, Shown::Plain, "‰"),
    (0x3005, "fallback_a_unpower", "unpower servo after fallback stage A", DataType::U8, Access::ReadWrite, 4, Element::Valve, Shown::OffOn, ""),
    (0x3006, "fallback_b_unpower", "unpower servo after fallback stage B", DataType::U8, Access::ReadWrite, 4, Element::Valve, Shown::OffOn, ""),
    (0x3007, "fallback_enabled", "heartbeat fallback enabled", DataType::U8, Access::ReadWrite, 0, Element::Valve, Shown::OffOn, ""),
    (0x3010, "valve_kind", "valve kind", DataType::U8, Access::ReadWrite, 4, Element::Valve, Shown::ValveKind, ""),
    (0x3011, "valve_power_hco", "valve power output", DataType::U8, Access::ReadWrite, 4, Element::Valve, Shown::HcoNumber, ""),
    (0x3012, "valve_signal_hco", "valve signal output", DataType::U8, Access::ReadWrite, 4, Element::Valve, Shown::HcoNumber, ""),
    (0x3013, "valve_closed_us", "servo pulse width at fully closed", DataType::U16, Access::ReadWrite, 4, Element::Valve, Shown::Plain, "us"),
    (0x3014, "valve_open_us", "servo pulse width at fully open", DataType::U16, Access::ReadWrite, 4, Element::Valve, Shown::Plain, "us"),
    (0x3015, "valve_travel_ms", "servo full travel time", DataType::U16, Access::ReadWrite, 4, Element::Valve, Shown::Plain, "ms"),
    (0x3016, "valve_stall_ma", "valve stall current threshold (0 = off)", DataType::U16, Access::ReadWrite, 4, Element::Valve, Shown::Plain, "mA"),
    (0x3017, "valve_stall_ms", "valve stall detect debounce", DataType::U16, Access::ReadWrite, 4, Element::Valve, Shown::Plain, "ms"),
    (0x3018, "valve_settle_ms", "valve settle time after arriving", DataType::U16, Access::ReadWrite, 4, Element::Valve, Shown::Plain, "ms"),
    (0x3019, "valve_min_promille", "valve minimum commandable position", DataType::U16, Access::ReadWrite, 4, Element::Valve, Shown::Plain, "‰"),
    (0x301A, "valve_max_promille", "valve maximum commandable position", DataType::U16, Access::ReadWrite, 4, Element::Valve, Shown::Plain, "‰"),
    (0x3020, "sensor_bus", "sensor slot source bus (0xFF = unused)", DataType::U8, Access::ReadWrite, 8, Element::Slot, Shown::IndexOrNone, ""),
    (0x3021, "sensor_amplifier", "sensor slot source amplifier index", DataType::U8, Access::ReadWrite, 8, Element::Slot, Shown::Plain, ""),
    (0x3022, "sensor_kind", "sensor slot kind", DataType::U8, Access::ReadWrite, 8, Element::Slot, Shown::SensorKind, ""),
    (0x3023, "sensor_offset", "sensor calibration offset", DataType::I32, Access::ReadWrite, 8, Element::Slot, Shown::Plain, "milli-counts"),
    (0x3024, "sensor_slope", "sensor calibration slope", DataType::I32, Access::ReadWrite, 8, Element::Slot, Shown::Plain, "nbar/count"),
    (0x3025, "sensor_unit_cfg", "sensor slot unit code", DataType::U8, Access::ReadWrite, 8, Element::Slot, Shown::UnitCode, ""),
    (0x3026, "sensor_constant", "sensor calibration constant term", DataType::I32, Access::ReadWrite, 8, Element::Slot, Shown::Plain, "mbar"),
    (0x3030, "sensor_interval_ms", "sensor sample interval", DataType::U16, Access::ReadWrite, 0, Element::Valve, Shown::Plain, "ms"),
    (0x3031, "scan_interval_ms", "i2c presence probe interval", DataType::U16, Access::ReadWrite, 0, Element::Valve, Shown::Plain, "ms"),
    (0x3040, "tpdo_interval_ms", "tpdo broadcast period per kind (0 = off)", DataType::U16, Access::ReadWrite, 18, Element::Tpdo, Shown::Plain, "ms"),
    (0x3050, "relief_enabled", "overpressure relief enabled", DataType::U8, Access::ReadWrite, 0, Element::Valve, Shown::OffOn, ""),
    (0x3051, "relief_valve", "overpressure relief valve index", DataType::U8, Access::ReadWrite, 0, Element::Valve, Shown::IndexOrNone, ""),
    (0x3052, "relief_sensor", "overpressure relief sensor slot", DataType::U8, Access::ReadWrite, 0, Element::Valve, Shown::Plain, ""),
    (0x3053, "relief_threshold", "overpressure relief threshold (slot's own unit)", DataType::I16, Access::ReadWrite, 0, Element::Valve, Shown::Plain, "counts"),
    (0x3054, "relief_position", "overpressure relief valve position", DataType::U16, Access::ReadWrite, 0, Element::Valve, Shown::Plain, "‰"),
    (0x3055, "relief_pulse_ms", "overpressure relief pulse length", DataType::U16, Access::ReadWrite, 0, Element::Valve, Shown::Plain, "ms"),
    (0x3056, "relief_cooldown_ms", "overpressure relief cooldown", DataType::U16, Access::ReadWrite, 0, Element::Valve, Shown::Plain, "ms"),
    (0x3060, "stepper_valve", "stepper valve index", DataType::U8, Access::ReadWrite, 2, Element::Actuator, Shown::IndexOrNone, ""),
    (0x3061, "stepper_closed_steps", "stepper step count at fully closed", DataType::I32, Access::ReadWrite, 2, Element::Actuator, Shown::Plain, "steps"),
    (0x3062, "stepper_open_steps", "stepper step count at fully open", DataType::I32, Access::ReadWrite, 2, Element::Actuator, Shown::Plain, "steps"),
    (0x3063, "stepper_max_hz", "stepper traverse speed", DataType::U32, Access::ReadWrite, 2, Element::Actuator, Shown::Plain, "steps/s"),
    (0x3064, "stepper_start_hz", "stepper pull-in rate", DataType::U32, Access::ReadWrite, 2, Element::Actuator, Shown::Plain, "steps/s"),
    (0x3065, "stepper_accel", "stepper acceleration", DataType::U32, Access::ReadWrite, 2, Element::Actuator, Shown::Plain, "steps/s²"),
];

/// The definition that a row spells out.
pub open spec fn row_def(row: Row) -> ObjectDef {
    ObjectDef {
        index: row.0,
        short: row.1,
        name: row.2,
        ty: row.3,
        access: row.4,
        array: if row.5 == 0 {
            None
        } else {
            Some((row.5, row.6))
        },
        format: row.7.format_spec(),
        unit: row.8,
    }
}

/// Whether row `i` defines the object at `index`.
pub open spec fn defines(i: int, index: u16) -> bool {
    0 <= i < 67 && DICTIONARY@[i].0 == index
}

/// The definition of an object, if the dictionary has one at that index.
pub open spec fn object_spec(index: u16) -> Option<ObjectDef> {
    if exists|i: int| defines(i, index) {
        Some(row_def(DICTIONARY@[choose|i: int| defines(i, index)]))
    } else {
        None
    }
}

spec fn ascends_from(i: int) -> bool
    decreases 66 - i,
{
    0 <= i < 66 ==> DICTIONARY@[i].0 < DICTIONARY@[i + 1].0 && ascends_from(i + 1)
}

proof fn lemma_ascends()
    ensures
        ascends_from(0),
{
    reveal_with_fuel(ascends_from, 70);
}

proof fn lemma_ascends_at(from: int, i: int)
    requires
        0 <= from <= i < 66,
        ascends_from(from),
    ensures
        DICTIONARY@[i].0 < DICTIONARY@[i + 1].0,
    decreases i - from,
{
    if from < i {
        lemma_ascends_at(from + 1, i);
    }
}

/// The dictionary is sorted strictly by index, so lookup can bisect and no object is defined
/// twice.
pub proof fn the_dictionary_is_sorted(i: int, j: int)
    requires
        0 <= i < j < 67,
    ensures
        DICTIONARY@[i].0 < DICTIONARY@[j].0,
    decreases j - i,
{
    lemma_ascends();
    lemma_ascends_at(0, j - 1);
    if i < j - 1 {
        the_dictionary_is_sorted(i, j - 1);
    }
}

fn def_of(i: usize) -> (r: ObjectDef)
    requires
        i < 67,
    ensures
        r == row_def(DICTIONARY@[i as int]),
{
    let row = DICTIONARY[i];
    ObjectDef {
        index: row.0,
        short: row.1,
        name: row.2,
        ty: row.3,
        access: row.4,
        array: if row.5 == 0 {
            None
        } else {
            Some((row.5, row.6))
        },
        format: row.7.format(),
        unit: row.8,
    }
}

/// The definition of an object, if the firmware has one at that index.
pub fn object(index: u16) -> (r: Option<ObjectDef>)
    ensures
        r == object_spec(index),
{
    let mut lo: usize = 0;
    let mut hi: usize = 67;
    while lo < hi
        invariant
            lo <= hi <= 67,
            forall|i: int| 0 <= i < lo ==> (#[trigger] DICTIONARY@[i]).0 < index,
            forall|i: int| hi <= i < 67 ==> (#[trigger] DICTIONARY@[i]).0 > index,
        decreases hi - lo,
    {
        let mid: usize = lo + (hi - lo) / 2;
        let at: u16 = DICTIONARY[mid].0;
        proof {
            assert forall|i: int| 0 <= i < mid implies (#[trigger] DICTIONARY@[i]).0
                < DICTIONARY@[mid as int].0 by {
                the_dictionary_is_sorted(i, mid as int);
            }
            assert forall|i: int| mid < i < 67 implies (#[trigger] DICTIONARY@[i]).0
                > DICTIONARY@[mid as int].0 by {
                the_dictionary_is_sorted(mid as int, i);
            }
        }
        if at == index {
            proof {
                assert(defines(mid as int, index));
                let i = choose|i: int| defines(i, index);
                assert(i == mid);
            }
            return Some(def_of(mid));
        }
        if at < index {
            lo = mid + 1;
        } else {
            hi = mid;
        }
    }
    assert(forall|i: int| !defines(i, index));
    None
}

/// The lookup finds every row of the dictionary by its index.
pub proof fn every_row_is_found(i: int)
    requires
        0 <= i < 67,
    ensures
        object_spec(DICTIONARY@[i].0) == Some(row_def(DICTIONARY@[i])),
{
    assert(defines(i, DICTIONARY@[i].0));
    let j = choose|j: int| defines(j, DICTIONARY@[i].0);
    if i < j {
        the_dictionary_is_sorted(i, j);
    } else if j < i {
        the_dictionary_is_sorted(j, i);
    }
}

/// A number with a unit behind it, when there is one.
pub open spec fn with_unit(n: Seq<char>, unit: Seq<char>) -> Seq<char> {
    if unit.len() == 0 {
        n
    } else {
        n + " "@ + unit
    }
}

/// The numbers of the bits below `n` that are set, separated by commas.
pub open spec fn bits_text(raw: i64, n: nat) -> Seq<char>
    decreases n,
{
    if n == 0 {
        Seq::empty()
    } else {
        let before = bits_text(raw, (n - 1) as nat);
        if (raw >> ((n - 1) as u32)) & 1 == 1 {
            if before.len() == 0 {
                dec((n - 1) as nat)
            } else {
                before + ", "@ + dec((n - 1) as nat)
            }
        } else {
            before
        }
    }
}

const SIGNATURE_SAVE: u32 = 0x6576_6173;

const SIGNATURE_LOAD: u32 = 0x6461_6F6C;

impl ObjectDef {
    /// The sub-indices that carry a value: `0` for a variable, `1..=len` for an array.
    pub fn subs(&self) -> (r: RangeInclusive<u8>)
        ensures
            match self.array {
                Some((len, _)) => r@.start == 1 && r@.end == len,
                None => r@.start == 0 && r@.end == 0,
            },
            !r@.exhausted,
    {
        match self.array {
            Some((len, _)) => RangeInclusive::new(1, len),
            None => RangeInclusive::new(0, 0),
        }
    }

    pub open spec fn sub_label_spec(self, sub: u8) -> Option<Seq<char>> {
        match self.array {
            None => None,
            Some((_, element)) => if sub == 0 {
                Some("length"@)
            } else {
                Some(element.label_spec((sub - 1) as nat))
            },
        }
    }

    /// What a sub-index is an entry *of*: `"valve 0"`, `"HCO3"`, `"logic"`.
    pub fn sub_label(&self, sub: u8) -> (r: Option<String>)
        ensures
            opt_view(r) == self.sub_label_spec(sub),
    {
        match self.array {
            None => None,
            Some((_, element)) => if sub == 0 {
                Some("length".to_owned())
            } else {
                Some(element.label(sub as usize - 1))
            },
        }
    }

    /// The text of a raw value, the way the firmware documents it.
    pub open spec fn format_value_spec(self, raw: i64) -> Seq<char> {
        let number = dec_int(raw as int);
        match self.format {
            Format::Plain => with_unit(number, self.unit@),
            Format::Position => {
                let promille = dec((raw as int % 0x8000) as nat) + " ‰"@;
                if raw as int % 0x1_0000 >= 0x8000 {
                    promille + ", released"@
                } else {
                    promille
                }
            },
            Format::Enum(labels) => if 0 <= raw < labels.names().len() {
                number + " "@ + labels.names()[raw as int]@
            } else {
                number + " (unknown code)"@
            },
            Format::Bits => {
                let set = bits_text(raw, 8 * self.ty.width_spec());
                if set.len() == 0 {
                    "none set"@
                } else {
                    "bits "@ + set
                }
            },
            Format::IndexOrNone => if raw == 0xFF {
                "none"@
            } else {
                number
            },
            Format::Reading(invalid) => if raw == invalid {
                "no reading"@
            } else {
                with_unit(number, self.unit@)
            },
            Format::Signature => {
                let word = raw as int % 0x1_0000_0000;
                if word == 0x6576_6173 {
                    "\"save\""@
                } else if word == 0x6461_6F6C {
                    "\"load\""@
                } else {
                    "0x"@ + hex(word as nat, 8)
                }
            },
        }
    }

    fn number_with_unit(&self, raw: i64) -> (r: String)
        ensures
            r@ == with_unit(dec_int(raw as int), self.unit@),
    {
        let mut out = String::new();
        push_int(&mut out, raw);
        if !self.unit.is_empty() {
            out.append(" ");
            out.append(self.unit);
        }
        out
    }

    fn bits_set(&self, raw: i64) -> (r: String)
        ensures
            r@ == (if bits_text(raw, 8 * self.ty.width_spec()).len() == 0 {
                "none set"@
            } else {
                "bits "@ + bits_text(raw, 8 * self.ty.width_spec())
            }),
    {
        let n: u32 = 8 * self.ty.width() as u32;
        let mut set = String::new();
        let mut bit: u32 = 0;
        while bit < n
            invariant
                bit <= n <= 32,
                set@ == bits_text(raw, bit as nat),
            decreases n - bit,
        {
            if (raw >> bit) & 1 == 1 {
                if !set.as_str().is_empty() {
                    set.append(", ");
                }
                push_dec(&mut set, bit as u64);
            }
            bit += 1;
        }
        if set.as_str().is_empty() {
            "none set".to_owned()
        } else {
            "bits ".to_owned().concat(set.as_str())
        }
    }

    /// The raw value, formatted the way the firmware documents it.
    pub fn format_value(&self, raw: i64) -> (r: String)
        ensures
            r@ == self.format_value_spec(raw),
    {
        match self.format {
            Format::Plain => self.number_with_unit(raw),
            Format::Position => {
                let word: u16 = #[verifier::truncate]
                (raw as u16);
                let promille: u16 = word % 0x8000;
                proof {
                    assert(raw as u16 == raw % 0x1_0000) by (bit_vector);
                }
                let mut out = String::new();
                push_dec(&mut out, promille as u64);
                out.append(" ‰");
                if word >= 0x8000 {
                    out.append(", released");
                }
                out
            },
            Format::Enum(labels) => {
                let mut out = String::new();
                push_int(&mut out, raw);
                match labels.get(raw) {
                    Some(label) => {
                        out.append(" ");
                        out.append(label);
                    },
                    None => {
                        out.append(" (unknown code)");
                    },
                }
                out
            },
            Format::Bits => self.bits_set(raw),
            Format::IndexOrNone => {
                if raw == 0xFF {
                    "none".to_owned()
                } else {
                    let mut out = String::new();
                    push_int(&mut out, raw);
                    out
                }
            },
            Format::Reading(invalid) => {
                if raw == invalid {
                    "no reading".to_owned()
                } else {
                    self.number_with_unit(raw)
                }
            },
            Format::Signature => {
                let word: u32 = #[verifier::truncate]
                (raw as u32);
                proof {
                    assert(raw as u32 == raw % 0x1_0000_0000) by (bit_vector);
                }
                if word == SIGNATURE_SAVE {
                    "\"save\"".to_owned()
                } else if word == SIGNATURE_LOAD {
                    "\"load\"".to_owned()
                } else {
                    let mut out = "0x".to_owned();
                    push_hex(&mut out, word as u64, 8);
                    out
                }
            },
        }
    }

    /// The number a graph of this object draws. The only object whose raw value is not already
    /// the number is the position word, whose top bit is a flag.
    pub open spec fn plot_value_spec(self, raw: i64) -> int {
        match self.format {
            Format::Position => raw as int % 0x8000,
            _ => raw as int,
        }
    }

    /// The number a graph of this object draws: plotted raw, a released valve would read as
    /// 33 000 ‰.
    pub fn plot_value(&self, raw: i64) -> (r: i64)
        ensures
            r == self.plot_value_spec(raw),
    {
        match self.format {
            Format::Position => {
                proof {
                    assert(raw & 0x7FFF == raw % 0x8000) by (bit_vector);
                }
                raw & 0x7FFF
            },
            _ => raw,
        }
    }

    pub open spec fn plot_unit_spec(self) -> Option<Seq<char>> {
        match self.format {
            Format::Position => Some("‰"@),
            _ => if self.unit@.len() != 0 {
                Some(self.unit@)
            } else {
                None
            },
        }
    }

    /// The unit of the numbers a graph of this object draws.
    pub fn plot_unit(&self) -> (r: Option<String>)
        ensures
            opt_view(r) == self.plot_unit_spec(),
    {
        match self.format {
            Format::Position => Some("‰".to_owned()),
            _ => if !self.unit.is_empty() {
                Some(self.unit.to_owned())
            } else {
                None
            },
        }
    }
}

/// What [`describe_object`] says of an address.
pub open spec fn describe_object_spec(index: u16, sub: u8) -> Seq<char> {
    let address = "0x"@ + hex(index as nat, 4) + "."@ + dec(sub as nat);
    match object_spec(index) {
        Some(def) => match def.sub_label_spec(sub) {
            Some(entry) => address + " "@ + def.name@ + " ["@ + entry + "]"@,
            None => address + " "@ + def.name@,
        },
        None => address + " unknown object"@,
    }
}

/// `0x2010.1 valve commanded state [valve 0]`, or the bare address for an object the
/// dictionary doesn't know.
pub fn describe_object(index: u16, sub: u8) -> (r: String)
    ensures
        r@ == describe_object_spec(index, sub),
{
    let mut out = "0x".to_owned();
    push_hex(&mut out, index as u64, 4);
    out.append(".");
    push_dec(&mut out, sub as u64);
    match object(index) {
        Some(def) => {
            out.append(" ");
            out.append(def.name);
            match def.sub_label(sub) {
                Some(entry) => {
                    out.append(" [");
                    out.append(entry.as_str());
                    out.append("]");
                },
                None => {},
            }
        },
        None => {
            out.append(" unknown object");
        },
    }
    out
}

/// The CiA 301 abort codes in ascending order, with the firmware's reading where it uses one for
/// something specific.
pub const ABORT_REASONS: [(u32, &'static str); 31] = [
    (0x0503_0000, "toggle bit not alternated"),
    (0x0504_0000, "SDO protocol timed out"),
    (0x0504_0001, "command specifier not valid or unknown"),
    (0x0504_0002, "invalid block size"),
    (0x0504_0003, "invalid sequence number"),
    (0x0504_0004, "CRC error"),
    (0x0504_0005, "out of memory"),
    (0x0601_0000, "unsupported access (only expedited transfers are)"),
    (0x0601_0001, "attempt to read a write-only object"),
    (0x0601_0002, "attempt to write a read-only object"),
    (0x0602_0000, "object does not exist"),
    (0x0604_0041, "object cannot be mapped to a PDO"),
    (0x0604_0042, "PDO length exceeded"),
    (0x0604_0043, "general parameter incompatibility"),
    (0x0604_0047, "general internal incompatibility"),
    (0x0606_0000, "hardware error"),
    (0x0607_0010, "data type does not match (size not given)"),
    (0x0607_0012, "data type does not match, too long"),
    (0x0607_0013, "data type does not match, too short"),
    (0x0609_0011, "sub-index does not exist"),
    (0x0609_0030, "invalid value"),
    (0x0609_0031, "value too high"),
    (0x0609_0032, "value too low"),
    (0x0609_0036, "maximum less than minimum"),
    (0x060A_0023, "resource not available"),
    (0x0800_0000, "general error"),
    (0x0800_0020, "cannot store (rejected on save)"),
    (0x0800_0021, "local control: output owned by a valve (raw debug 0x2031 overrides)"),
    (0x0800_0022, "not possible in the present device state"),
    (0x0800_0023, "no object dictionary"),
    (0x0800_0024, "no data available"),
];

/// What [`abort_reason`] says of a code.
pub open spec fn abort_reason_spec(code: u32) -> Seq<char> {
    if exists|i: int| 0 <= i < 31 && (#[trigger] ABORT_REASONS@[i]).0 == code {
        ABORT_REASONS@[choose|i: int|
            0 <= i < 31 && (#[trigger] ABORT_REASONS@[i]).0 == code].1@
    } else {
        "unknown abort code"@
    }
}

spec fn aborts_ascend_from(i: int) -> bool
    decreases 30 - i,
{
    0 <= i < 30 ==> ABORT_REASONS@[i].0 < ABORT_REASONS@[i + 1].0 && aborts_ascend_from(i + 1)
}

proof fn lemma_aborts_ascend_at(from: int, i: int)
    requires
        0 <= from <= i < 30,
        aborts_ascend_from(from),
    ensures
        ABORT_REASONS@[i].0 < ABORT_REASONS@[i + 1].0,
    decreases i - from,
{
    if from < i {
        lemma_aborts_ascend_at(from + 1, i);
    }
}

/// Every abort code has one reason: the codes ascend strictly.
pub proof fn abort_codes_are_distinct(i: int, j: int)
    requires
        0 <= i < j < 31,
    ensures
        ABORT_REASONS@[i].0 < ABORT_REASONS@[j].0,
    decreases j - i,
{
    assert(aborts_ascend_from(0)) by {
        reveal_with_fuel(aborts_ascend_from, 33);
    }
    lemma_aborts_ascend_at(0, j - 1);
    if i < j - 1 {
        abort_codes_are_distinct(i, j - 1);
    }
}

/// Why a transfer was aborted.
pub fn abort_reason(code: u32) -> (r: &'static str)
    ensures
        r@ == abort_reason_spec(code),
{
    let mut k: usize = 0;
    while k < 31
        invariant
            k <= 31,
            forall|i: int| 0 <= i < k ==> (#[trigger] ABORT_REASONS@[i]).0 != code,
        decreases 31 - k,
    {
        if ABORT_REASONS[k].0 == code {
            proof {
                let i = choose|i: int|
                    0 <= i < 31 && (#[trigger] ABORT_REASONS@[i]).0 == code;
                assert(ABORT_REASONS@[k as int].0 == code);
                if i < k {
                    abort_codes_are_distinct(i, k as int);
                } else if k < i {
                    abort_codes_are_distinct(k as int, i);
                }
            }
            return ABORT_REASONS[k].1;
        }
        k += 1;
    }
    "unknown abort code"
}

/// What [`nmt_label`] calls a state.
pub open spec fn nmt_label_spec(state: u8) -> Seq<char> {
    if state == 0x00 {
        "boot-up"@
    } else if state == 0x04 {
        "stopped"@
    } else if state == 0x05 {
        "operational"@
    } else if state == 0x7F {
        "pre-operational"@
    } else {
        "unknown"@
    }
}

/// The NMT state a heartbeat carries.
pub fn nmt_label(state: u8) -> (r: &'static str)
    ensures
        r@ == nmt_label_spec(state),
{
    match state {
        0x00 => "boot-up",
        0x04 => "stopped",
        0x05 => "operational",
        0x7F => "pre-operational",
        _ => "unknown",
    }
}

} // verus!
