//! Raw CAN frames carried in a log, and the two ways of getting numbers out of them:
//! [`iocan`] knows the vehicle's own protocol and names its signals, [`SignalSpec`] reads
//! any field of any identifier.
pub mod canopen;
pub mod collector;
pub mod iocan;
pub mod laws;
pub mod signals;

use vstd::prelude::*;

use crate::can::iocan::{describe, describe_spec};
use crate::double::Double;
use crate::keyed::Keyed;
use crate::text::{dec, hex, opt_view, push_dec, push_hex, trim, trimmed};

verus! {

broadcast use vstd::seq_lib::group_seq_properties;

/// One frame as it came off the bus.
#[derive(Clone, Copy, Debug)]
pub struct CanFrame {
    /// Absolute UTC microseconds, from the log record that carried the frame.
    pub t_utc: i64,
    pub id: u32,
    pub bus: u8,
    /// Bytes actually transmitted; `data` past this is padding.
    pub len: u8,
    pub data: [u8; 8],
}

/// The node's part of a series name: its number, with the bus when there are several.
pub open spec fn instance(multi_bus: bool, bus: u8, node: u8) -> Seq<char> {
    if multi_bus {
        "bus"@ + dec(bus as nat) + ":"@ + dec(node as nat)
    } else {
        dec(node as nat)
    }
}

/// Appends the node's part of a series name.
pub fn push_instance(out: &mut String, multi_bus: bool, bus: u8, node: u8)
    ensures
        final(out)@ == old(out)@ + instance(multi_bus, bus, node),
{
    if multi_bus {
        out.append("bus");
        push_dec(out, bus as u64);
        out.append(":");
    }
    push_dec(out, node as u64);
}

/// Every CAN frame a log carried, in arrival order.
///
/// Kept whole rather than decoded away at import time: which bytes of which identifier are
/// worth plotting is a question the user answers afterwards.
pub struct CanFrames {
    pub all: Vec<CanFrame>,
}

impl Default for CanFrames {
    fn default() -> (r: Self)
        ensures
            r.all@.len() == 0,
    {
        CanFrames { all: Vec::new() }
    }
}

/// How many frames carry an identifier on a bus.
pub open spec fn occurrences(frames: Seq<CanFrame>, bus: u8, id: u32) -> nat
    decreases frames.len(),
{
    if frames.len() == 0 {
        0
    } else {
        occurrences(frames.drop_last(), bus, id) + if frames.last().bus == bus && frames.last().id
            == id {
            1nat
        } else {
            0nat
        }
    }
}

/// The longest payload seen under an identifier on a bus.
pub open spec fn longest(frames: Seq<CanFrame>, bus: u8, id: u32) -> u8
    decreases frames.len(),
{
    if frames.len() == 0 {
        0
    } else {
        let rest = longest(frames.drop_last(), bus, id);
        let frame = frames.last();
        if frame.bus == bus && frame.id == id && frame.len > rest {
            frame.len
        } else {
            rest
        }
    }
}

/// One identifier seen on the bus.
pub struct CanIdentifier {
    pub bus: u8,
    pub id: u32,
    pub count: usize,
    pub max_len: u8,
    /// What the protocol says this identifier is, when it recognizes it.
    pub description: Option<String>,
}

/// Whether an entry says what the frames say of its identifier.
pub open spec fn tallies(entry: CanIdentifier, frames: Seq<CanFrame>) -> bool {
    &&& entry.count == occurrences(frames, entry.bus, entry.id)
    &&& entry.count > 0
    &&& entry.max_len == longest(frames, entry.bus, entry.id)
    &&& opt_view(entry.description) == describe_spec(entry.id)
}

impl CanIdentifier {
    /// Bus and identifier as one number, which orders by the bus first.
    pub open spec fn place(self) -> int {
        0x1_0000_0000 * self.bus + self.id
    }

    /// The text of the signal picker's entry.
    pub open spec fn label_spec(self) -> Seq<char> {
        let base = "0x"@ + hex(self.id as nat, 3) + "  (bus "@ + dec(self.bus as nat) + ", "@
            + dec(self.count as nat) + " frames)"@;
        match self.description {
            Some(what) => base + "  --  "@ + what@,
            None => base,
        }
    }

    /// `0x243  (bus 1, 20 frames)  --  node 3 HcoState`.
    pub fn label(&self) -> (r: String)
        ensures
            r@ == self.label_spec(),
    {
        let mut out = "0x".to_owned();
        push_hex(&mut out, self.id as u64, 3);
        out.append("  (bus ");
        push_dec(&mut out, self.bus as u64);
        out.append(", ");
        push_dec(&mut out, self.count as u64);
        out.append(" frames)");
        match &self.description {
            Some(what) => {
                out.append("  --  ");
                out.append(what.as_str());
            },
            None => {},
        }
        out
    }
}

/// Whether entries are all the identifiers that frames carry, each once, by bus and then by
/// identifier.
pub open spec fn are_identifiers(entries: Seq<CanIdentifier>, frames: Seq<CanFrame>) -> bool {
    &&& forall|i: int| 0 <= i < entries.len() ==> tallies(#[trigger] entries[i], frames)
    &&& forall|i: int, j: int|
        0 <= i < j < entries.len() ==> (#[trigger] entries[i]).place() < (
        #[trigger] entries[j]).place()
    &&& forall|k: int|
        0 <= k < frames.len() ==> exists|i: int|
            0 <= i < entries.len() && (#[trigger] entries[i]).bus == (#[trigger] frames[k]).bus
                && entries[i].id == frames[k].id
}

/// A table of identifiers, each under its place, that agrees with some frames.
spec fn tallied(table: Keyed<CanIdentifier>, frames: Seq<CanFrame>) -> bool {
    &&& table.wf()
    &&& forall|i: int|
        0 <= i < table.keys().len() ==> tallies(#[trigger] table.values()[i], frames)
            && table.keys()[i] == table.values()[i].place()
    &&& forall|bus: u8, id: u32|
        #![trigger occurrences(frames, bus, id)]
        occurrences(frames, bus, id) > 0 ==> table.has((0x1_0000_0000 * bus + id) as u64)
}

proof fn lemma_places(a_bus: u8, a_id: u32, b_bus: u8, b_id: u32)
    ensures
        0x1_0000_0000 * a_bus + a_id == 0x1_0000_0000 * b_bus + b_id <==> a_bus == b_bus && a_id
            == b_id,
{
}

fn tally(table: &mut Keyed<CanIdentifier>, frame: &CanFrame, Ghost(frames): Ghost<Seq<CanFrame>>)
    requires
        tallied(*old(table), frames),
        frames.len() < usize::MAX,
    ensures
        tallied(*final(table), frames.push(*frame)),
{
    let place: u64 = 0x1_0000_0000 * frame.bus as u64 + frame.id as u64;
    let ghost before = *table;
    let ghost next = frames.push(*frame);
    assert(next.drop_last() =~= frames);
    proof {
        if before.has(place) {
            let i = before.keys().index_of(place);
            assert(before.keys()[i] == place);
            before.lemma_at(i);
            lemma_places(
                before.values()[i].bus,
                before.values()[i].id,
                frame.bus,
                frame.id,
            );
            lemma_occurrences_bounded(frames, frame.bus, frame.id);
        } else {
            assert(occurrences(frames, frame.bus, frame.id) == 0);
            lemma_unseen(frames, frame.bus, frame.id);
        }
    }
    let mut count: usize = 1;
    let mut max_len: u8 = frame.len;
    if let Some(entry) = table.get(place) {
        count = entry.count + 1;
        if entry.max_len > max_len {
            max_len = entry.max_len;
        }
    }
    table.insert(
        place,
        CanIdentifier {
            bus: frame.bus,
            id: frame.id,
            count,
            max_len,
            description: describe(frame.id),
        },
    );
    proof {
        assert forall|i: int| 0 <= i < table.keys().len() implies tallies(
            #[trigger] table.values()[i],
            next,
        ) && table.keys()[i] == table.values()[i].place() by {
            table.lemma_at(i);
            let k = table.keys()[i];
            if k != place {
                assert(table.lookup(k) == before.lookup(k));
                let j = before.keys().index_of(k);
                assert(before.keys()[j] == k);
                before.lemma_at(j);
                let entry = before.values()[j];
                assert(tallies(entry, frames));
                lemma_places(entry.bus, entry.id, frame.bus, frame.id);
            }
        }
        assert forall|bus: u8, id: u32|
            #![trigger occurrences(next, bus, id)]
            occurrences(next, bus, id) > 0 implies table.has(
            (0x1_0000_0000 * bus + id) as u64,
        ) by {
            lemma_places(bus, id, frame.bus, frame.id);
            let k = (0x1_0000_0000 * bus + id) as u64;
            if k != place {
                assert(occurrences(frames, bus, id) > 0);
                assert(before.has(k));
                assert(table.lookup(k) == before.lookup(k));
            }
        }
    }
}

proof fn lemma_occurrences_bounded(frames: Seq<CanFrame>, bus: u8, id: u32)
    ensures
        occurrences(frames, bus, id) <= frames.len(),
    decreases frames.len(),
{
    if frames.len() > 0 {
        lemma_occurrences_bounded(frames.drop_last(), bus, id);
    }
}

proof fn lemma_unseen(frames: Seq<CanFrame>, bus: u8, id: u32)
    requires
        occurrences(frames, bus, id) == 0,
    ensures
        longest(frames, bus, id) == 0,
    decreases frames.len(),
{
    if frames.len() > 0 {
        lemma_unseen(frames.drop_last(), bus, id);
    }
}

/// A field pulled out of every matching frame: the counts as they were sent, under the name
/// and the unit to plot them by.
pub struct Extracted {
    pub name: String,
    pub unit: Option<String>,
    /// Time and value before scaling, in the order of arrival.
    pub points: Vec<(i64, RawValue)>,
}

impl CanFrames {
    pub open spec fn view(&self) -> Seq<CanFrame> {
        self.all@
    }

    pub fn new() -> (r: Self)
        ensures
            r@ == Seq::<CanFrame>::empty(),
    {
        CanFrames { all: Vec::new() }
    }

    pub fn push(&mut self, frame: CanFrame)
        ensures
            final(self)@ == old(self)@.push(frame),
    {
        self.all.push(frame);
    }

    pub fn len(&self) -> (n: usize)
        ensures
            n == self@.len(),
    {
        self.all.len()
    }

    pub fn is_empty(&self) -> (r: bool)
        ensures
            r == (self@.len() == 0),
    {
        self.all.len() == 0
    }

    pub fn frames(&self) -> (r: &[CanFrame])
        ensures
            r@ == self@,
    {
        self.all.as_slice()
    }

    /// Every identifier seen, with how often and what it is, for the signal picker to offer.
    /// Sorted by bus then identifier, which for this protocol groups a node's traffic together.
    pub fn identifiers(&self) -> (r: Vec<CanIdentifier>)
        ensures
            are_identifiers(r@, self@),
    {
        let mut table: Keyed<CanIdentifier> = Keyed::new();
        let mut i: usize = 0;
        assert(self@.take(0) =~= Seq::<CanFrame>::empty());
        while i < self.all.len()
            invariant
                i <= self@.len(),
                tallied(table, self@.take(i as int)),
            decreases self@.len() - i,
        {
            tally(&mut table, &self.all[i], Ghost(self@.take(i as int)));
            assert(self@.take(i + 1) =~= self@.take(i as int).push(self@[i as int]));
            i += 1;
        }
        assert(self@.take(self@.len() as int) =~= self@);
        proof {
            assert forall|k: int| 0 <= k < self@.len() implies exists|i: int|
                0 <= i < table.values().len() && (#[trigger] table.values()[i]).bus == (
                #[trigger] self@[k]).bus && table.values()[i].id == self@[k].id by {
                let frame = self@[k];
                lemma_seen(self@, k);
                let place = (0x1_0000_0000 * frame.bus + frame.id) as u64;
                assert(table.has(place));
                let j = table.keys().index_of(place);
                assert(table.keys()[j] == place);
                let entry = table.values()[j];
                lemma_places(entry.bus, entry.id, frame.bus, frame.id);
            }
            assert forall|a: int, b: int| 0 <= a < b < table.values().len() implies (
            #[trigger] table.values()[a]).place() < (#[trigger] table.values()[b]).place() by {
                assert(table.keys()[a] < table.keys()[b]);
            }
        }
        table.into_values()
    }

    /// Pulls one field out of every frame matching `spec`.
    pub fn extract(&self, spec: &SignalSpec) -> (r: Extracted)
        ensures
            r.name@ == spec.series_name_spec(),
            opt_view(r.unit) == if trimmed(spec.unit@).len() == 0 {
                None
            } else {
                Some(trimmed(spec.unit@))
            },
            r.points@ == spec.values_in(self@),
    {
        let mut points: Vec<(i64, RawValue)> = Vec::new();
        let mut i: usize = 0;
        assert(self@.take(0) =~= Seq::<CanFrame>::empty());
        while i < self.all.len()
            invariant
                i <= self@.len(),
                points@ == spec.values_in(self@.take(i as int)),
            decreases self@.len() - i,
        {
            let frame = &self.all[i];
            assert(self@.take(i + 1).drop_last() =~= self@.take(i as int));
            if spec.matches(frame) {
                if let Some(value) = spec.kind.read(frame, spec.offset, spec.big_endian) {
                    points.push((frame.t_utc, value));
                }
            }
            i += 1;
        }
        assert(self@.take(self@.len() as int) =~= self@);
        let unit = trim(spec.unit.as_str());
        Extracted {
            name: spec.series_name(),
            unit: if unit.as_str().is_empty() {
                None
            } else {
                Some(unit)
            },
            points,
        }
    }
}

proof fn lemma_seen(frames: Seq<CanFrame>, k: int)
    requires
        0 <= k < frames.len(),
    ensures
        occurrences(frames, frames[k].bus, frames[k].id) > 0,
    decreases frames.len(),
{
    if k < frames.len() - 1 {
        lemma_seen(frames.drop_last(), k);
    }
}

/// How to read a number out of a frame's payload.
#[derive(Clone, Copy, PartialEq, Eq, Structural, Debug)]
pub enum FieldKind {
    U8,
    I8,
    U16,
    I16,
    U32,
    I32,
    F32,
    /// A single bit of the byte at the field's offset.
    Bit(u8),
}

/// A number as it stands in a payload.
#[derive(Clone, Copy, PartialEq, Eq, Structural, Debug)]
pub enum RawValue {
    Int(i64),
    /// The bits of a single-precision number.
    Float(u32),
}

/// The number that bytes are, most significant first.
pub open spec fn big_endian_value(bytes: Seq<u8>) -> int
    decreases bytes.len(),
{
    if bytes.len() == 0 {
        0
    } else {
        256 * big_endian_value(bytes.drop_last()) + bytes.last()
    }
}

/// The number that bytes are in either order.
pub open spec fn bytes_value(bytes: Seq<u8>, big_endian: bool) -> int {
    big_endian_value(
        if big_endian {
            bytes
        } else {
            bytes.reverse()
        },
    )
}

/// What a bit of a byte counts.
pub open spec fn bit_weight(bit: int) -> int {
    if bit == 0 {
        1
    } else if bit == 1 {
        2
    } else if bit == 2 {
        4
    } else if bit == 3 {
        8
    } else if bit == 4 {
        16
    } else if bit == 5 {
        32
    } else if bit == 6 {
        64
    } else {
        128
    }
}

/// A number of `2^bits == span` patterns, taken as signed.
pub open spec fn signed(n: int, span: int) -> int {
    if 2 * n >= span {
        n - span
    } else {
        n
    }
}

impl FieldKind {
    /// Every kind the picker offers. `Bit` stands in for all eight bits; which one is chosen
    /// separately.
    pub fn all() -> (r: [FieldKind; 8])
        ensures
            r@ == seq![
                FieldKind::U8,
                FieldKind::I8,
                FieldKind::U16,
                FieldKind::I16,
                FieldKind::U32,
                FieldKind::I32,
                FieldKind::F32,
                FieldKind::Bit(0),
            ],
    {
        let r = [
            FieldKind::U8,
            FieldKind::I8,
            FieldKind::U16,
            FieldKind::I16,
            FieldKind::U32,
            FieldKind::I32,
            FieldKind::F32,
            FieldKind::Bit(0),
        ];
        assert(r@ =~= seq![
            FieldKind::U8,
            FieldKind::I8,
            FieldKind::U16,
            FieldKind::I16,
            FieldKind::U32,
            FieldKind::I32,
            FieldKind::F32,
            FieldKind::Bit(0),
        ]);
        r
    }

    pub open spec fn width_spec(self) -> int {
        match self {
            FieldKind::U8 | FieldKind::I8 | FieldKind::Bit(_) => 1,
            FieldKind::U16 | FieldKind::I16 => 2,
            FieldKind::U32 | FieldKind::I32 | FieldKind::F32 => 4,
        }
    }

    pub fn width(self) -> (r: usize)
        ensures
            r == self.width_spec(),
    {
        match self {
            FieldKind::U8 | FieldKind::I8 | FieldKind::Bit(_) => 1,
            FieldKind::U16 | FieldKind::I16 => 2,
            FieldKind::U32 | FieldKind::I32 | FieldKind::F32 => 4,
        }
    }

    pub open spec fn name_spec(self) -> Seq<char> {
        match self {
            FieldKind::U8 => "u8"@,
            FieldKind::I8 => "i8"@,
            FieldKind::U16 => "u16"@,
            FieldKind::I16 => "i16"@,
            FieldKind::U32 => "u32"@,
            FieldKind::I32 => "i32"@,
            FieldKind::F32 => "f32"@,
            FieldKind::Bit(_) => "bit"@,
        }
    }

    pub fn name(self) -> (r: &'static str)
        ensures
            r@ == self.name_spec(),
    {
        match self {
            FieldKind::U8 => "u8",
            FieldKind::I8 => "i8",
            FieldKind::U16 => "u16",
            FieldKind::I16 => "i16",
            FieldKind::U32 => "u32",
            FieldKind::I32 => "i32",
            FieldKind::F32 => "f32",
            FieldKind::Bit(_) => "bit",
        }
    }

    /// Whether the byte order matters. It does not for a single byte, and offering the choice
    /// there only invites the question.
    pub fn has_byte_order(self) -> (r: bool)
        ensures
            r == (self.width_spec() > 1),
    {
        self.width() > 1
    }

    /// The number that a field's bytes hold.
    pub open spec fn value_spec(self, bytes: Seq<u8>, big_endian: bool) -> RawValue {
        let n = bytes_value(bytes, big_endian);
        match self {
            FieldKind::U8 => RawValue::Int(n as i64),
            FieldKind::I8 => RawValue::Int(signed(n, 0x100) as i64),
            FieldKind::U16 => RawValue::Int(n as i64),
            FieldKind::I16 => RawValue::Int(signed(n, 0x1_0000) as i64),
            FieldKind::U32 => RawValue::Int(n as i64),
            FieldKind::I32 => RawValue::Int(signed(n, 0x1_0000_0000) as i64),
            FieldKind::F32 => RawValue::Float(n as u32),
            FieldKind::Bit(bit) => RawValue::Int((n / bit_weight(bit as int % 8) % 2) as i64),
        }
    }

    /// What [`FieldKind::read`] returns.
    pub open spec fn read_spec(
        self,
        frame: CanFrame,
        offset: usize,
        big_endian: bool,
    ) -> Option<RawValue> {
        let end = offset + self.width_spec();
        if end > frame.len || end > 8 {
            None
        } else {
            Some(self.value_spec(frame.data@.subrange(offset as int, end), big_endian))
        }
    }

    /// Reads the field, or `None` if the frame is too short to contain it.
    ///
    /// Short frames are skipped rather than zero-filled: a node that sends a 1-byte heartbeat
    /// on an identifier does not have a `u16` at offset 0, and inventing one would draw a line
    /// of zeroes that looks like data.
    pub fn read(self, frame: &CanFrame, offset: usize, big_endian: bool) -> (r: Option<RawValue>)
        ensures
            r == self.read_spec(*frame, offset, big_endian),
    {
        let width = self.width();
        if offset > 8 || offset + width > frame.len as usize || offset + width > 8 {
            return None;
        }
        let ghost bytes = frame.data@.subrange(offset as int, offset + width);
        let ghost ordered = if big_endian {
            bytes
        } else {
            bytes.reverse()
        };
        let mut n: u64 = 0;
        let mut i: usize = 0;
        assert(ordered.take(0) =~= Seq::<u8>::empty());
        while i < width
            invariant
                i <= width <= 4,
                offset + width <= 8,
                bytes == frame.data@.subrange(offset as int, offset + width),
                ordered == if big_endian {
                    bytes
                } else {
                    bytes.reverse()
                },
                n == big_endian_value(ordered.take(i as int)),
                n < pow256(i as int),
            decreases width - i,
        {
            let at: usize = if big_endian {
                offset + i
            } else {
                offset + (width - 1 - i)
            };
            let byte: u8 = frame.data[at];
            assert(ordered[i as int] == byte);
            assert(ordered.take(i + 1).drop_last() =~= ordered.take(i as int));
            n = 256 * n + byte as u64;
            i += 1;
        }
        assert(ordered.take(width as int) =~= ordered);
        Some(
            match self {
                FieldKind::U8 => RawValue::Int(n as i64),
                FieldKind::I8 => RawValue::Int(
                    if n >= 0x80 {
                        n as i64 - 0x100
                    } else {
                        n as i64
                    },
                ),
                FieldKind::U16 => RawValue::Int(n as i64),
                FieldKind::I16 => RawValue::Int(
                    if n >= 0x8000 {
                        n as i64 - 0x1_0000
                    } else {
                        n as i64
                    },
                ),
                FieldKind::U32 => RawValue::Int(n as i64),
                FieldKind::I32 => RawValue::Int(
                    if n >= 0x8000_0000 {
                        n as i64 - 0x1_0000_0000
                    } else {
                        n as i64
                    },
                ),
                FieldKind::F32 => RawValue::Float(n as u32),
                FieldKind::Bit(bit) => {
                    let weight: u64 = match bit % 8 {
                        0 => 1,
                        1 => 2,
                        2 => 4,
                        3 => 8,
                        4 => 16,
                        5 => 32,
                        6 => 64,
                        _ => 128,
                    };
                    RawValue::Int((n / weight % 2) as i64)
                },
            },
        )
    }
}

/// How many numbers so many bytes hold.
spec fn pow256(n: int) -> int {
    if n == 0 {
        1
    } else if n == 1 {
        0x100
    } else if n == 2 {
        0x1_0000
    } else if n == 3 {
        0x100_0000
    } else {
        0x1_0000_0000
    }
}

/// A user-specified field of a user-specified identifier: the escape hatch for any bus traffic
/// the built-in protocol doesn't cover.
pub struct SignalSpec {
    /// `None` matches the identifier on every bus in the log.
    pub bus: Option<u8>,
    pub id: u32,
    pub offset: usize,
    pub kind: FieldKind,
    pub big_endian: bool,
    /// Raw counts are rarely the quantity of interest; `value * scale + bias` is what a
    /// datasheet's conversion looks like.
    pub scale: Double,
    pub bias: Double,
    /// Empty means "call it whatever [`Self::default_name`] says".
    pub name: String,
    pub unit: String,
}

impl Default for SignalSpec {
    fn default() -> (r: Self)
        ensures
            r.bus is None,
            r.id == 0,
            r.offset == 0,
            r.kind == FieldKind::U16,
            !r.big_endian,
            r.scale.bits == 0x3FF0_0000_0000_0000,
            r.bias.bits == 0,
            r.name@.len() == 0,
            r.unit@.len() == 0,
    {
        SignalSpec {
            bus: None,
            id: 0,
            offset: 0,
            kind: FieldKind::U16,
            big_endian: false,
            scale: Double { bits: 0x3FF0_0000_0000_0000 },
            bias: Double { bits: 0 },
            name: String::new(),
            unit: String::new(),
        }
    }
}

impl SignalSpec {
    /// Whether a frame carries the signal's identifier on its bus.
    pub open spec fn matches_spec(self, frame: CanFrame) -> bool {
        frame.id == self.id && match self.bus {
            Some(bus) => bus == frame.bus,
            None => true,
        }
    }

    fn matches(&self, frame: &CanFrame) -> (r: bool)
        ensures
            r == self.matches_spec(*frame),
    {
        frame.id == self.id && match self.bus {
            Some(bus) => bus == frame.bus,
            None => true,
        }
    }

    /// The field's values in frames, in the order of arrival.
    pub open spec fn values_in(self, frames: Seq<CanFrame>) -> Seq<(i64, RawValue)>
        decreases frames.len(),
    {
        if frames.len() == 0 {
            Seq::empty()
        } else {
            let rest = self.values_in(frames.drop_last());
            let frame = frames.last();
            match self.kind.read_spec(frame, self.offset, self.big_endian) {
                Some(value) => if self.matches_spec(frame) {
                    rest.push((frame.t_utc, value))
                } else {
                    rest
                },
                None => rest,
            }
        }
    }

    /// What [`SignalSpec::default_name`] returns.
    pub open spec fn default_name_spec(self) -> Seq<char> {
        let bus = match self.bus {
            Some(bus) => "bus"@ + dec(bus as nat) + ":"@,
            None => Seq::<char>::empty(),
        };
        let kind = match self.kind {
            FieldKind::Bit(bit) => "bit"@ + dec(bit as nat),
            other => if other.width_spec() > 1 && self.big_endian {
                other.name_spec() + "be"@
            } else {
                other.name_spec()
            },
        };
        "CAN["@ + bus + "0x"@ + hex(self.id as nat, 3) + "]."@ + kind + "@"@ + dec(
            self.offset as nat,
        )
    }

    /// A name that says exactly where the numbers came from, so an unnamed signal is still
    /// identifiable a week later.
    pub fn default_name(&self) -> (r: String)
        ensures
            r@ == self.default_name_spec(),
    {
        let mut out = "CAN[".to_owned();
        if let Some(bus) = self.bus {
            out.append("bus");
            push_dec(&mut out, bus as u64);
            out.append(":");
        }
        out.append("0x");
        push_hex(&mut out, self.id as u64, 3);
        out.append("].");
        out.append(self.kind.name());
        match self.kind {
            FieldKind::Bit(bit) => push_dec(&mut out, bit as u64),
            other => {
                if other.has_byte_order() && self.big_endian {
                    out.append("be");
                }
            },
        }
        out.append("@");
        push_dec(&mut out, self.offset as u64);
        out
    }

    /// What [`SignalSpec::series_name`] returns.
    pub open spec fn series_name_spec(self) -> Seq<char> {
        if trimmed(self.name@).len() == 0 {
            self.default_name_spec()
        } else {
            trimmed(self.name@)
        }
    }

    /// The name the user gave, or the default one.
    pub fn series_name(&self) -> (r: String)
        ensures
            r@ == self.series_name_spec(),
    {
        let name = trim(self.name.as_str());
        if name.as_str().is_empty() {
            self.default_name()
        } else {
            name
        }
    }
}

/// Reading past the payload yields nothing, however long the frame claims to be.
pub proof fn nothing_is_read_past_the_payload(
    kind: FieldKind,
    frame: CanFrame,
    offset: usize,
    big_endian: bool,
)
    ensures
        kind.read_spec(frame, offset, big_endian) is Some <==> offset + kind.width_spec()
            <= frame.len && offset + kind.width_spec() <= 8,
{
}

} // verus!
