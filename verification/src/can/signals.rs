//! The named signals of the vehicle's protocol: what each frame of a log says of which node,
//! collected into one series per signal.
use vstd::prelude::*;

use crate::can::iocan::{
    nibble, process_data, process_data_spec, signed16, u16x4, unpack_nibbles, word, TpdoKind,
    HCO_DIGITAL_OFF, HCO_DIGITAL_ON, HEARTBEAT_BASE, RAW_INVALID, VALVE_UNPOWERED,
};
use crate::can::CanFrame;
use crate::text::{dec, push_dec};

verus! {

broadcast use vstd::seq_lib::group_seq_properties;

/// A quantity a node reports. The number is the channel among its likes.
#[derive(Clone, Copy, PartialEq, Eq, Structural, Debug)]
pub enum Signal {
    Commanded(u8),
    CommandedUnpowered(u8),
    Target(u8),
    TargetUnpowered(u8),
    Measured(u8),
    MeasuredUnpowered(u8),
    ValveCurrent(u8),
    ValveStatus(u8),
    HcoOwner(u8),
    ReliefState,
    Out(u8),
    OutPwm(u8),
    AdcBus0(u8),
    AdcBus1(u8),
    Slot(u8),
    PresentBus0,
    PresentBus1,
    Sweeps,
    RailVoltage(u8),
    RailCurrent(u8),
    LinkState,
    RawDebug,
    StalledMask,
    MsSinceHeartbeat,
    NmtState,
}

/// The power rails of a board.
pub const RAILS: [&'static str; 3] = ["logic", "hco12", "hco34"];

impl Signal {
    /// The signal's kind as a number.
    pub open spec fn tag(self) -> int {
        match self {
            Signal::Commanded(_) => 0,
            Signal::CommandedUnpowered(_) => 1,
            Signal::Target(_) => 2,
            Signal::TargetUnpowered(_) => 3,
            Signal::Measured(_) => 4,
            Signal::MeasuredUnpowered(_) => 5,
            Signal::ValveCurrent(_) => 6,
            Signal::ValveStatus(_) => 7,
            Signal::HcoOwner(_) => 8,
            Signal::ReliefState => 9,
            Signal::Out(_) => 10,
            Signal::OutPwm(_) => 11,
            Signal::AdcBus0(_) => 12,
            Signal::AdcBus1(_) => 13,
            Signal::Slot(_) => 14,
            Signal::PresentBus0 => 15,
            Signal::PresentBus1 => 16,
            Signal::Sweeps => 17,
            Signal::RailVoltage(_) => 18,
            Signal::RailCurrent(_) => 19,
            Signal::LinkState => 20,
            Signal::RawDebug => 21,
            Signal::StalledMask => 22,
            Signal::MsSinceHeartbeat => 23,
            Signal::NmtState => 24,
        }
    }

    /// The signal's channel, zero where it has none.
    pub open spec fn channel(self) -> u8 {
        match self {
            Signal::Commanded(i) => i,
            Signal::CommandedUnpowered(i) => i,
            Signal::Target(i) => i,
            Signal::TargetUnpowered(i) => i,
            Signal::Measured(i) => i,
            Signal::MeasuredUnpowered(i) => i,
            Signal::ValveCurrent(i) => i,
            Signal::ValveStatus(i) => i,
            Signal::HcoOwner(i) => i,
            Signal::Out(i) => i,
            Signal::OutPwm(i) => i,
            Signal::AdcBus0(i) => i,
            Signal::AdcBus1(i) => i,
            Signal::Slot(i) => i,
            Signal::RailVoltage(i) => i,
            Signal::RailCurrent(i) => i,
            _ => 0,
        }
    }

    /// Whether the channel is one that the protocol has.
    pub open spec fn wf(self) -> bool {
        match self {
            Signal::Slot(i) => i < 12,
            Signal::RailVoltage(i) => i < 3,
            Signal::RailCurrent(i) => i < 3,
            _ => true,
        }
    }

    /// The signal as a number.
    pub open spec fn code_spec(self) -> int {
        256 * self.tag() + self.channel()
    }

    /// The signal as a number.
    pub fn code(self) -> (r: u64)
        ensures
            r == self.code_spec(),
    {
        match self {
            Signal::Commanded(i) => i as u64,
            Signal::CommandedUnpowered(i) => 256 + i as u64,
            Signal::Target(i) => 512 + i as u64,
            Signal::TargetUnpowered(i) => 768 + i as u64,
            Signal::Measured(i) => 1024 + i as u64,
            Signal::MeasuredUnpowered(i) => 1280 + i as u64,
            Signal::ValveCurrent(i) => 1536 + i as u64,
            Signal::ValveStatus(i) => 1792 + i as u64,
            Signal::HcoOwner(i) => 2048 + i as u64,
            Signal::ReliefState => 2304,
            Signal::Out(i) => 2560 + i as u64,
            Signal::OutPwm(i) => 2816 + i as u64,
            Signal::AdcBus0(i) => 3072 + i as u64,
            Signal::AdcBus1(i) => 3328 + i as u64,
            Signal::Slot(i) => 3584 + i as u64,
            Signal::PresentBus0 => 3840,
            Signal::PresentBus1 => 4096,
            Signal::Sweeps => 4352,
            Signal::RailVoltage(i) => 4608 + i as u64,
            Signal::RailCurrent(i) => 4864 + i as u64,
            Signal::LinkState => 5120,
            Signal::RawDebug => 5376,
            Signal::StalledMask => 5632,
            Signal::MsSinceHeartbeat => 5888,
            Signal::NmtState => 6144,
        }
    }

    /// The group a signal's series is filed under.
    pub open spec fn group_spec(self) -> Seq<char> {
        let tag = self.tag();
        if tag <= 9 {
            "CAN_VALVE"@
        } else if tag <= 11 {
            "CAN_HCO"@
        } else if tag <= 13 {
            "CAN_ADC"@
        } else if tag == 14 {
            "CAN_SENSOR"@
        } else if tag <= 17 {
            "CAN_I2C"@
        } else if tag <= 19 {
            "CAN_RAIL"@
        } else if tag <= 23 {
            "CAN_STATUS"@
        } else {
            "CAN_NODE"@
        }
    }

    pub fn group(self) -> (r: &'static str)
        ensures
            r@ == self.group_spec(),
    {
        match self {
            Signal::Out(_) | Signal::OutPwm(_) => "CAN_HCO",
            Signal::AdcBus0(_) | Signal::AdcBus1(_) => "CAN_ADC",
            Signal::Slot(_) => "CAN_SENSOR",
            Signal::PresentBus0 | Signal::PresentBus1 | Signal::Sweeps => "CAN_I2C",
            Signal::RailVoltage(_) | Signal::RailCurrent(_) => "CAN_RAIL",
            Signal::LinkState
            | Signal::RawDebug
            | Signal::StalledMask
            | Signal::MsSinceHeartbeat => "CAN_STATUS",
            Signal::NmtState => "CAN_NODE",
            _ => "CAN_VALVE",
        }
    }

    /// The signal's own name. The board silkscreen counts outputs from one; the firmware
    /// counts from zero, and a user reading a plot is looking at the silkscreen.
    pub open spec fn field_spec(self) -> Seq<char> {
        let i = dec(self.channel() as nat);
        match self {
            Signal::Commanded(_) => "commanded"@ + i,
            Signal::CommandedUnpowered(_) => "commanded"@ + i + "_unpowered"@,
            Signal::Target(_) => "target"@ + i,
            Signal::TargetUnpowered(_) => "target"@ + i + "_unpowered"@,
            Signal::Measured(_) => "measured"@ + i,
            Signal::MeasuredUnpowered(_) => "measured"@ + i + "_unpowered"@,
            Signal::ValveCurrent(_) => "current"@ + i,
            Signal::ValveStatus(_) => "status"@ + i,
            Signal::HcoOwner(_) => "hco_owner"@ + i,
            Signal::ReliefState => "relief_state"@,
            Signal::Out(c) => "out"@ + dec((c + 1) as nat),
            Signal::OutPwm(c) => "out"@ + dec((c + 1) as nat) + "_pwm_us"@,
            Signal::AdcBus0(_) => "bus0_ch"@ + i,
            Signal::AdcBus1(_) => "bus1_ch"@ + i,
            Signal::Slot(_) => "slot"@ + i,
            Signal::PresentBus0 => "present_bus0"@,
            Signal::PresentBus1 => "present_bus1"@,
            Signal::Sweeps => "sweeps"@,
            Signal::RailVoltage(c) => "voltage_"@ + RAILS@[c as int]@,
            Signal::RailCurrent(c) => "current_"@ + RAILS@[c as int]@,
            Signal::LinkState => "link_state"@,
            Signal::RawDebug => "raw_debug"@,
            Signal::StalledMask => "stalled_mask"@,
            Signal::MsSinceHeartbeat => "ms_since_heartbeat"@,
            Signal::NmtState => "nmt_state"@,
        }
    }

    /// Appends the signal's own name.
    pub fn push_field(self, out: &mut String)
        requires
            self.wf(),
        ensures
            final(out)@ == old(out)@ + self.field_spec(),
    {
        match self {
            Signal::Commanded(i) => push_channel(out, "commanded", i as u64),
            Signal::CommandedUnpowered(i) => {
                push_channel(out, "commanded", i as u64);
                out.append("_unpowered");
            },
            Signal::Target(i) => push_channel(out, "target", i as u64),
            Signal::TargetUnpowered(i) => {
                push_channel(out, "target", i as u64);
                out.append("_unpowered");
            },
            Signal::Measured(i) => push_channel(out, "measured", i as u64),
            Signal::MeasuredUnpowered(i) => {
                push_channel(out, "measured", i as u64);
                out.append("_unpowered");
            },
            Signal::ValveCurrent(i) => push_channel(out, "current", i as u64),
            Signal::ValveStatus(i) => push_channel(out, "status", i as u64),
            Signal::HcoOwner(i) => push_channel(out, "hco_owner", i as u64),
            Signal::ReliefState => out.append("relief_state"),
            Signal::Out(i) => push_channel(out, "out", i as u64 + 1),
            Signal::OutPwm(i) => {
                push_channel(out, "out", i as u64 + 1);
                out.append("_pwm_us");
            },
            Signal::AdcBus0(i) => push_channel(out, "bus0_ch", i as u64),
            Signal::AdcBus1(i) => push_channel(out, "bus1_ch", i as u64),
            Signal::Slot(i) => push_channel(out, "slot", i as u64),
            Signal::PresentBus0 => out.append("present_bus0"),
            Signal::PresentBus1 => out.append("present_bus1"),
            Signal::Sweeps => out.append("sweeps"),
            Signal::RailVoltage(i) => {
                out.append("voltage_");
                out.append(RAILS[i as usize]);
            },
            Signal::RailCurrent(i) => {
                out.append("current_");
                out.append(RAILS[i as usize]);
            },
            Signal::LinkState => out.append("link_state"),
            Signal::RawDebug => out.append("raw_debug"),
            Signal::StalledMask => out.append("stalled_mask"),
            Signal::MsSinceHeartbeat => out.append("ms_since_heartbeat"),
            Signal::NmtState => out.append("nmt_state"),
        }
    }

    /// The unit of a signal other than a sensor slot, empty where it is a bare number. Valve
    /// positions are promille of full travel.
    pub open spec fn unit_spec(self) -> Seq<char> {
        match self {
            Signal::Commanded(_) | Signal::Target(_) | Signal::Measured(_) => "‰"@,
            Signal::ValveCurrent(_) | Signal::RailCurrent(_) => "mA"@,
            Signal::OutPwm(_) => "us"@,
            Signal::AdcBus0(_) | Signal::AdcBus1(_) => "counts"@,
            Signal::RailVoltage(_) => "mV"@,
            Signal::MsSinceHeartbeat => "ms"@,
            _ => ""@,
        }
    }

    pub fn unit(self) -> (r: &'static str)
        ensures
            r@ == self.unit_spec(),
    {
        match self {
            Signal::Commanded(_) | Signal::Target(_) | Signal::Measured(_) => "‰",
            Signal::ValveCurrent(_) | Signal::RailCurrent(_) => "mA",
            Signal::OutPwm(_) => "us",
            Signal::AdcBus0(_) | Signal::AdcBus1(_) => "counts",
            Signal::RailVoltage(_) => "mV",
            Signal::MsSinceHeartbeat => "ms",
            _ => "",
        }
    }
}

fn push_channel(out: &mut String, name: &str, i: u64)
    ensures
        final(out)@ == old(out)@ + (name@ + dec(i as nat)),
{
    out.append(name);
    push_dec(out, i);
}

/// One as the number of a true statement, zero of a false one.
pub open spec fn flag(b: bool) -> i64 {
    if b {
        1
    } else {
        0
    }
}

/// What the word at position `i` of a kind's frame says.
pub open spec fn word_samples(kind: TpdoKind, w: int, i: u8) -> Seq<(Signal, i64)> {
    let v = w as i64;
    let position = (w % 0x8000) as i64;
    let released = flag(w >= VALVE_UNPOWERED);
    match kind {
        TpdoKind::ValveCommanded => seq![
            (Signal::Commanded(i), position),
            (Signal::CommandedUnpowered(i), released),
        ],
        TpdoKind::ValveTarget => seq![
            (Signal::Target(i), position),
            (Signal::TargetUnpowered(i), released),
        ],
        TpdoKind::ValveMeasured => seq![
            (Signal::Measured(i), position),
            (Signal::MeasuredUnpowered(i), released),
        ],
        TpdoKind::ValveCurrent => seq![(Signal::ValveCurrent(i), v)],
        TpdoKind::HcoState => if w == HCO_DIGITAL_ON || w == HCO_DIGITAL_OFF {
            seq![(Signal::Out(i), flag(w != HCO_DIGITAL_OFF))]
        } else {
            seq![(Signal::Out(i), 1), (Signal::OutPwm(i), v)]
        },
        TpdoKind::RawBus0A => present(w != RAW_INVALID, Signal::AdcBus0(i), v),
        TpdoKind::RawBus0B => present(w != RAW_INVALID, Signal::AdcBus0((4 + i) as u8), v),
        TpdoKind::RawBus1A => present(w != RAW_INVALID, Signal::AdcBus1(i), v),
        TpdoKind::RawBus1B => present(w != RAW_INVALID, Signal::AdcBus1((4 + i) as u8), v),
        TpdoKind::Sensor0 => present(w != 0x8000, Signal::Slot(i), signed16(w) as i64),
        TpdoKind::Sensor1 => present(w != 0x8000, Signal::Slot((4 + i) as u8), signed16(w) as i64),
        TpdoKind::Sensor3 => present(w != 0x8000, Signal::Slot((8 + i) as u8), signed16(w) as i64),
        TpdoKind::I2cScan => if i == 0 {
            seq![(Signal::PresentBus0, v)]
        } else if i == 1 {
            seq![(Signal::PresentBus1, v)]
        } else if i == 2 {
            seq![(Signal::Sweeps, v)]
        } else {
            Seq::empty()
        },
        TpdoKind::RailVoltage => present(i < 3, Signal::RailVoltage(i), v),
        TpdoKind::RailCurrent => present(i < 3, Signal::RailCurrent(i), v),
        _ => Seq::empty(),
    }
}

/// One sample, or none.
pub open spec fn present(here: bool, signal: Signal, value: i64) -> Seq<(Signal, i64)> {
    if here {
        seq![(signal, value)]
    } else {
        Seq::empty()
    }
}

/// What the first `n` words of a kind's frame say.
pub open spec fn words_samples(kind: TpdoKind, data: Seq<u8>, n: nat) -> Seq<(Signal, i64)>
    decreases n,
{
    if n == 0 {
        Seq::empty()
    } else {
        words_samples(kind, data, (n - 1) as nat) + word_samples(
            kind,
            word(data, n - 1),
            (n - 1) as u8,
        )
    }
}

/// What a full process-data frame says.
pub open spec fn kind_samples(kind: TpdoKind, data: Seq<u8>) -> Seq<(Signal, i64)> {
    match kind {
        TpdoKind::ValveStatus => seq![
            (Signal::ValveStatus(0), nibble(data, 0) as i64),
            (Signal::ValveStatus(1), nibble(data, 1) as i64),
            (Signal::ValveStatus(2), nibble(data, 2) as i64),
            (Signal::ValveStatus(3), nibble(data, 3) as i64),
            (Signal::HcoOwner(0), nibble(data, 4) as i64),
            (Signal::HcoOwner(1), nibble(data, 5) as i64),
            (Signal::HcoOwner(2), nibble(data, 6) as i64),
            (Signal::HcoOwner(3), nibble(data, 7) as i64),
            (Signal::ReliefState, data[4] as i64),
        ],
        TpdoKind::Status => seq![
            (Signal::LinkState, data[0] as i64),
            (Signal::RawDebug, flag(data[1] != 0)),
            (Signal::StalledMask, data[2] as i64),
            (Signal::MsSinceHeartbeat, (word(data, 2) + 0x1_0000 * word(data, 3)) as i64),
        ],
        _ => words_samples(kind, data, 4),
    }
}

/// What a frame says, signal by signal. An extended identifier is not this protocol; a
/// heartbeat needs its one byte, and a short frame on a process-data identifier is a
/// different protocol reusing it.
pub open spec fn samples(frame: CanFrame) -> Seq<(Signal, i64)> {
    if HEARTBEAT_BASE <= frame.id < HEARTBEAT_BASE + 16 {
        present(frame.len >= 1, Signal::NmtState, frame.data@[0] as i64)
    } else {
        match process_data_spec(frame.id) {
            Some((_, kind)) => if frame.len == 8 {
                kind_samples(kind, frame.data@)
            } else {
                Seq::empty()
            },
            None => Seq::empty(),
        }
    }
}

fn push_word(out: &mut Vec<(Signal, i64)>, kind: TpdoKind, w: u16, i: u8)
    requires
        i < 4,
    ensures
        final(out)@ == old(out)@ + word_samples(kind, w as int, i),
{
    let v: i64 = w as i64;
    let position: i64 = (w % 0x8000) as i64;
    let released: i64 = if w >= VALVE_UNPOWERED { 1 } else { 0 };
    let signed: i64 = if w >= 0x8000 { w as i64 - 0x1_0000 } else { w as i64 };
    match kind {
        TpdoKind::ValveCommanded => {
            out.push((Signal::Commanded(i), position));
            out.push((Signal::CommandedUnpowered(i), released));
        },
        TpdoKind::ValveTarget => {
            out.push((Signal::Target(i), position));
            out.push((Signal::TargetUnpowered(i), released));
        },
        TpdoKind::ValveMeasured => {
            out.push((Signal::Measured(i), position));
            out.push((Signal::MeasuredUnpowered(i), released));
        },
        TpdoKind::ValveCurrent => out.push((Signal::ValveCurrent(i), v)),
        TpdoKind::HcoState => {
            // Driven or not is the question asked of every output; the pulse width only exists
            // for the ones on PWM, so a digital output gets no width series at all rather than
            // one that is secretly a sentinel.
            out.push((Signal::Out(i), if w != HCO_DIGITAL_OFF { 1 } else { 0 }));
            if w != HCO_DIGITAL_ON && w != HCO_DIGITAL_OFF {
                out.push((Signal::OutPwm(i), v));
            }
        },
        TpdoKind::RawBus0A => push_if(out, w != RAW_INVALID, Signal::AdcBus0(i), v),
        TpdoKind::RawBus0B => push_if(out, w != RAW_INVALID, Signal::AdcBus0(4 + i), v),
        TpdoKind::RawBus1A => push_if(out, w != RAW_INVALID, Signal::AdcBus1(i), v),
        TpdoKind::RawBus1B => push_if(out, w != RAW_INVALID, Signal::AdcBus1(4 + i), v),
        TpdoKind::Sensor0 => push_if(out, w != 0x8000, Signal::Slot(i), signed),
        TpdoKind::Sensor1 => push_if(out, w != 0x8000, Signal::Slot(4 + i), signed),
        TpdoKind::Sensor3 => push_if(out, w != 0x8000, Signal::Slot(8 + i), signed),
        TpdoKind::I2cScan => {
            if i == 0 {
                out.push((Signal::PresentBus0, v));
            } else if i == 1 {
                out.push((Signal::PresentBus1, v));
            } else if i == 2 {
                out.push((Signal::Sweeps, v));
            }
        },
        // The fourth word of a rail frame is padding, not a fourth rail.
        TpdoKind::RailVoltage => push_if(out, i < 3, Signal::RailVoltage(i), v),
        TpdoKind::RailCurrent => push_if(out, i < 3, Signal::RailCurrent(i), v),
        TpdoKind::ValveStatus | TpdoKind::SensorUnits | TpdoKind::Status => {},
    }
}

fn push_if(out: &mut Vec<(Signal, i64)>, here: bool, signal: Signal, value: i64)
    ensures
        final(out)@ == old(out)@ + present(here, signal, value),
{
    if here {
        out.push((signal, value));
    }
}

/// What a full process-data frame says.
fn read_kind(kind: TpdoKind, data: &[u8; 8]) -> (out: Vec<(Signal, i64)>)
    ensures
        out@ == kind_samples(kind, data@),
{
    let mut out: Vec<(Signal, i64)> = Vec::new();
    match kind {
        TpdoKind::ValveStatus => {
            let status = unpack_nibbles(&[data[0], data[1]]);
            let owner = unpack_nibbles(&[data[2], data[3]]);
            out.push((Signal::ValveStatus(0), status[0] as i64));
            out.push((Signal::ValveStatus(1), status[1] as i64));
            out.push((Signal::ValveStatus(2), status[2] as i64));
            out.push((Signal::ValveStatus(3), status[3] as i64));
            out.push((Signal::HcoOwner(0), owner[0] as i64));
            out.push((Signal::HcoOwner(1), owner[1] as i64));
            out.push((Signal::HcoOwner(2), owner[2] as i64));
            out.push((Signal::HcoOwner(3), owner[3] as i64));
            out.push((Signal::ReliefState, data[4] as i64));
        },
        TpdoKind::Status => {
            let words = u16x4(data);
            out.push((Signal::LinkState, data[0] as i64));
            out.push((Signal::RawDebug, if data[1] != 0 { 1 } else { 0 }));
            out.push((Signal::StalledMask, data[2] as i64));
            out.push((Signal::MsSinceHeartbeat, words[2] as i64 + 0x1_0000 * words[3] as i64));
        },
        _ => {
            let words = u16x4(data);
            let mut i: u8 = 0;
            while i < 4
                invariant
                    i <= 4,
                    forall|k: int| 0 <= k < 4 ==> #[trigger] words@[k] == word(data@, k),
                    out@ == words_samples(kind, data@, i as nat),
                decreases 4 - i,
            {
                push_word(&mut out, kind, words[i as usize], i);
                i += 1;
            }
        },
    }
    out
}

/// What a frame says, signal by signal.
pub fn read_frame(frame: &CanFrame) -> (out: Vec<(Signal, i64)>)
    ensures
        out@ == samples(*frame),
{
    if frame.id > 0x7FF {
        return Vec::new();
    }
    if HEARTBEAT_BASE <= frame.id && frame.id < HEARTBEAT_BASE + 16 {
        // Always 5 ("operational"); the information is that it arrived at all, so a series of
        // it shows exactly when a node dropped off.
        let mut out: Vec<(Signal, i64)> = Vec::new();
        push_if(&mut out, frame.len >= 1, Signal::NmtState, frame.data[0] as i64);
        return out;
    }
    match process_data(frame.id) {
        Some((_, kind)) => if frame.len == 8 {
            read_kind(kind, &frame.data)
        } else {
            Vec::new()
        },
        None => Vec::new(),
    }
}

} // verus!
