//! SDO frames: the request/response protocol that reads and writes the dictionary.
use vstd::prelude::*;

use crate::can::canopen::dictionary::{
    abort_reason, abort_reason_spec, object, object_spec, DataType,
};
use crate::can::iocan::{SDO_REQUEST_BASE, SDO_RESPONSE_BASE};
use crate::can::CanFrame;
use crate::text::{dec_int, hex, push_hex, push_int};

verus! {

broadcast use vstd::seq_lib::group_seq_properties;

#[derive(Clone, Copy, PartialEq, Eq, Structural, Debug)]
pub enum SdoKind {
    /// Client asks for a value: initiate upload.
    ReadRequest,
    /// Client writes a value: expedited initiate download.
    WriteRequest,
    /// Node answers a read with the value: expedited initiate upload response.
    ReadResponse,
    /// Node accepted a write. Carries no value.
    WriteAck,
    /// Either side gave up; the payload is the reason.
    Abort(u32),
    /// Segmented or block transfer, which these nodes refuse -- kept so the attempt is
    /// visible, with its command byte.
    Other(u8),
}

impl SdoKind {
    pub open spec fn label_spec(self) -> Seq<char> {
        match self {
            SdoKind::ReadRequest => "read"@,
            SdoKind::WriteRequest => "write"@,
            SdoKind::ReadResponse => "read ok"@,
            SdoKind::WriteAck => "write ok"@,
            SdoKind::Abort(_) => "ABORT"@,
            SdoKind::Other(_) => "other"@,
        }
    }

    pub fn label(self) -> (r: &'static str)
        ensures
            r@ == self.label_spec(),
    {
        match self {
            SdoKind::ReadRequest => "read",
            SdoKind::WriteRequest => "write",
            SdoKind::ReadResponse => "read ok",
            SdoKind::WriteAck => "write ok",
            SdoKind::Abort(_) => "ABORT",
            SdoKind::Other(_) => "other",
        }
    }

    /// Whether this kind of frame carries a value.
    pub open spec fn carries_value(self) -> bool {
        self is WriteRequest || self is ReadResponse
    }
}

/// One SDO frame.
#[derive(Clone, Copy, Debug)]
pub struct SdoTransfer {
    pub t_utc: i64,
    pub bus: u8,
    pub node: u8,
    /// Client to node (`0x600 + node`) rather than node to client.
    pub request: bool,
    pub kind: SdoKind,
    pub index: u16,
    pub sub: u8,
    pub data: [u8; 4],
    /// Payload bytes, when the frame says.
    pub size: Option<u8>,
    /// For a response: how long after its request it came, in microseconds, if the log has the
    /// request.
    pub latency: Option<i128>,
}

/// An SDO frame, as contracts speak of it.
pub struct Transfer {
    pub t_utc: i64,
    pub bus: u8,
    pub node: u8,
    pub request: bool,
    pub kind: SdoKind,
    pub index: u16,
    pub sub: u8,
    pub data: Seq<u8>,
    pub size: Option<u8>,
    pub latency: Option<i128>,
}

impl View for SdoTransfer {
    type V = Transfer;

    open spec fn view(&self) -> Transfer {
        Transfer {
            t_utc: self.t_utc,
            bus: self.bus,
            node: self.node,
            request: self.request,
            kind: self.kind,
            index: self.index,
            sub: self.sub,
            data: self.data@,
            size: self.size,
            latency: self.latency,
        }
    }
}

/// What the command byte of a transfer in one direction says it is; `word` is the frame's
/// second half as a number.
pub open spec fn kind_of(request: bool, cmd: int, word: int) -> SdoKind {
    let expedited = cmd / 2 % 2 == 1;
    let specifier = cmd / 32;
    if request && specifier == 1 && expedited {
        SdoKind::WriteRequest
    } else if request && specifier == 2 {
        SdoKind::ReadRequest
    } else if !request && specifier == 2 && expedited {
        SdoKind::ReadResponse
    } else if !request && specifier == 3 {
        SdoKind::WriteAck
    } else if specifier == 4 {
        SdoKind::Abort(word as u32)
    } else {
        SdoKind::Other(cmd as u8)
    }
}

/// The SDO frame a CAN frame is, if it is one.
pub open spec fn sdo_of(frame: CanFrame) -> Option<Transfer> {
    let base = frame.id - frame.id % 16;
    if (base != SDO_REQUEST_BASE && base != SDO_RESPONSE_BASE) || frame.len < 4 {
        None
    } else {
        let request = base == SDO_REQUEST_BASE;
        let cmd = frame.data@[0] as int;
        let payload = frame.data@.subrange(4, 8);
        let kind = kind_of(request, cmd, DataType::U32.decode_spec(payload));
        Some(
            Transfer {
                t_utc: frame.t_utc,
                bus: frame.bus,
                node: (frame.id % 16) as u8,
                request,
                kind,
                index: (frame.data@[1] + 256 * frame.data@[2]) as u16,
                sub: frame.data@[3],
                data: payload,
                size: if kind.carries_value() && cmd % 2 == 1 {
                    Some((4 - cmd / 4 % 4) as u8)
                } else {
                    None
                },
                latency: None,
            },
        )
    }
}

/// Reads one SDO frame, or `None` for anything that isn't one.
pub fn decode_sdo(frame: &CanFrame) -> (r: Option<SdoTransfer>)
    ensures
        match r {
            Some(t) => sdo_of(*frame) == Some(t@),
            None => sdo_of(*frame) is None,
        },
{
    let base: u32 = frame.id - frame.id % 16;
    if base != SDO_REQUEST_BASE && base != SDO_RESPONSE_BASE {
        return None;
    }
    if frame.len < 4 {
        return None;
    }
    let request = base == SDO_REQUEST_BASE;
    let cmd: u8 = frame.data[0];
    let expedited = cmd / 2 % 2 == 1;
    let specifier: u8 = cmd / 32;
    let payload = [frame.data[4], frame.data[5], frame.data[6], frame.data[7]];
    proof {
        assert(payload@ =~= frame.data@.subrange(4, 8));
    }
    let word: i64 = DataType::U32.decode(payload);
    let kind = if request && specifier == 1 && expedited {
        SdoKind::WriteRequest
    } else if request && specifier == 2 {
        SdoKind::ReadRequest
    } else if !request && specifier == 2 && expedited {
        SdoKind::ReadResponse
    } else if !request && specifier == 3 {
        SdoKind::WriteAck
    } else if specifier == 4 {
        SdoKind::Abort(word as u32)
    } else {
        SdoKind::Other(cmd)
    };
    let carries = match kind {
        SdoKind::WriteRequest | SdoKind::ReadResponse => true,
        _ => false,
    };
    let size: Option<u8> = if carries && cmd % 2 == 1 {
        Some(4 - cmd / 4 % 4)
    } else {
        None
    };
    Some(
        SdoTransfer {
            t_utc: frame.t_utc,
            bus: frame.bus,
            node: (frame.id % 16) as u8,
            request,
            kind,
            index: frame.data[1] as u16 + 256 * frame.data[2] as u16,
            sub: frame.data[3],
            data: payload,
            size,
            latency: None,
        },
    )
}

impl Transfer {
    /// The value carried, if this kind of frame carries one.
    pub open spec fn value_spec(self) -> Option<int> {
        if !self.kind.carries_value() {
            None
        } else {
            let ty = match object_spec(self.index) {
                Some(def) => def.ty,
                None => if self.size == Some(1u8) {
                    DataType::U8
                } else if self.size == Some(2u8) {
                    DataType::U16
                } else {
                    DataType::U32
                },
            };
            Some(ty.decode_spec(self.data))
        }
    }

    /// The value, or what else there is to say about the frame.
    pub open spec fn detail_spec(self) -> Seq<char> {
        match self.kind {
            SdoKind::Abort(code) => "0x"@ + hex(code as nat, 8) + " "@ + abort_reason_spec(code),
            SdoKind::Other(cmd) => "command byte 0x"@ + hex(cmd as nat, 2)
                + " (segmented/block, unsupported)"@,
            _ => match (self.value_spec(), object_spec(self.index)) {
                (Some(raw), Some(def)) => def.format_value_spec(raw as i64),
                (Some(raw), None) => dec_int(raw) + " (0x"@ + hex(raw as nat, 1) + ")"@,
                (None, _) => Seq::empty(),
            },
        }
    }
}

impl SdoTransfer {
    /// The value carried, if this kind of frame carries one.
    pub fn value(&self) -> (r: Option<i64>)
        ensures
            match r {
                Some(v) => self@.value_spec() == Some(v as int),
                None => self@.value_spec() is None,
            },
    {
        match self.kind {
            SdoKind::WriteRequest | SdoKind::ReadResponse => {},
            _ => {
                return None;
            },
        }
        let ty = match object(self.index) {
            Some(def) => def.ty,
            None => match self.size {
                Some(1) => DataType::U8,
                Some(2) => DataType::U16,
                _ => DataType::U32,
            },
        };
        Some(ty.decode(self.data))
    }

    /// The value, or what else there is to say about the frame.
    pub fn detail(&self) -> (r: String)
        ensures
            r@ == self@.detail_spec(),
    {
        match self.kind {
            SdoKind::Abort(code) => {
                let mut out = "0x".to_owned();
                push_hex(&mut out, code as u64, 8);
                out.append(" ");
                out.append(abort_reason(code));
                out
            },
            SdoKind::Other(cmd) => {
                let mut out = "command byte 0x".to_owned();
                push_hex(&mut out, cmd as u64, 2);
                out.append(" (segmented/block, unsupported)");
                out
            },
            _ => match self.value() {
                Some(raw) => match object(self.index) {
                    Some(def) => def.format_value(raw),
                    None => {
                        let mut out = String::new();
                        push_int(&mut out, raw);
                        out.append(" (0x");
                        push_hex(&mut out, raw as u64, 1);
                        out.append(")");
                        out
                    },
                },
                None => String::new(),
            },
        }
    }
}

/// A frame that carries no value never yields one, whatever its payload holds: an
/// acknowledgement and an abort only say that the access happened.
pub proof fn only_carriers_have_values(t: Transfer)
    ensures
        t.value_spec() is Some <==> t.kind is WriteRequest || t.kind is ReadResponse,
{
}

/// Requests and responses are told apart by the identifier alone, and the identifiers next to
/// their ranges are neither.
pub proof fn sdo_identifiers(frame: CanFrame)
    requires
        frame.len >= 4,
    ensures
        sdo_of(frame) is Some <==> (0x580 <= frame.id < 0x590 || 0x600 <= frame.id < 0x610),
        sdo_of(frame) matches Some(t) ==> t.request == (0x600 <= frame.id) && t.node == frame.id % 16,
{
}

} // verus!
