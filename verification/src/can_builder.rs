//! The manual CAN signal picker: pick an identifier, say which bytes of it are the number and how
//! to scale it, and get a series that behaves like any other.
//!
//! A log carries traffic from anything wired to the bus, whose layout only its datasheet knows;
//! this is where that knowledge gets entered.
use vstd::prelude::*;

use crate::can::{are_identifiers, CanFrames, CanIdentifier, Extracted, FieldKind, SignalSpec};
use crate::model::SourceId;
use crate::text::{dec, hex, push_dec, push_hex, trim, trimmed};

verus! {

broadcast use vstd::seq_lib::group_seq_properties;

pub enum BuilderAction {
    Nothing,
    /// Add this series to the source and open it in a graph.
    Plot(Extracted),
    Close,
}

pub struct CanBuilder {
    pub source: SourceId,
    pub spec: SignalSpec,
    /// Snapshot of what is on the bus, taken once: recounting a hundred thousand frames every
    /// frame of UI would be the most expensive thing the app does.
    pub identifiers: Vec<CanIdentifier>,
}

/// The first identifier of a number, from `from` on.
pub open spec fn identifier_from(identifiers: Seq<CanIdentifier>, id: u32, from: int) -> Option<int>
    decreases identifiers.len() - from,
{
    if from < 0 || from >= identifiers.len() {
        None
    } else if identifiers[from].id == id {
        Some(from)
    } else {
        identifier_from(identifiers, id, from + 1)
    }
}

/// The distinct buses of the first `n` identifiers, in the order they appear.
pub open spec fn buses_spec(identifiers: Seq<CanIdentifier>, n: nat) -> Seq<u8>
    decreases n,
{
    if n == 0 {
        Seq::empty()
    } else {
        let rest = buses_spec(identifiers, (n - 1) as nat);
        if rest.contains(identifiers[n - 1].bus) {
            rest
        } else {
            rest.push(identifiers[n - 1].bus)
        }
    }
}

/// The last byte that a field can start at.
pub open spec fn max_offset_spec(kind: FieldKind) -> usize {
    (8 - kind.width_spec()) as usize
}

/// The last byte that a field can start at without running past the end of a frame.
pub fn max_offset(kind: FieldKind) -> (r: usize)
    ensures
        r == max_offset_spec(kind),
        r + kind.width_spec() == 8,
{
    8 - kind.width()
}

impl CanBuilder {
    /// Opens the picker on the first identifier of a log.
    pub fn new(source: SourceId, frames: &CanFrames) -> (r: Self)
        ensures
            r.source == source,
            are_identifiers(r.identifiers@, frames@),
            r.spec.bus is None && r.spec.offset == 0 && r.spec.kind == FieldKind::U16
                && !r.spec.big_endian && r.spec.name@.len() == 0 && r.spec.unit@.len() == 0,
            r.spec.scale.bits == 0x3FF0_0000_0000_0000 && r.spec.bias.bits == 0,
            r.spec.id == if r.identifiers@.len() > 0 {
                r.identifiers@[0].id
            } else {
                0
            },
    {
        let identifiers = frames.identifiers();
        let mut spec = SignalSpec::default();
        if identifiers.len() > 0 {
            spec.id = identifiers[0].id;
        }
        CanBuilder { source, spec, identifiers }
    }

    pub fn source(&self) -> (r: SourceId)
        ensures
            r == self.source,
    {
        self.source
    }

    /// What the list of identifiers says is picked.
    pub open spec fn selected_spec(self) -> Seq<char> {
        match identifier_from(self.identifiers@, self.spec.id, 0) {
            Some(i) => self.identifiers@[i].label_spec(),
            None => "0x"@ + hex(self.spec.id as nat, 3),
        }
    }

    /// What the list of identifiers says is picked.
    pub fn selected(&self) -> (r: String)
        ensures
            r@ == self.selected_spec(),
    {
        let mut i: usize = 0;
        while i < self.identifiers.len()
            invariant
                i <= self.identifiers@.len(),
                identifier_from(self.identifiers@, self.spec.id, 0) == identifier_from(
                    self.identifiers@,
                    self.spec.id,
                    i as int,
                ),
            decreases self.identifiers@.len() - i,
        {
            if self.identifiers[i].id == self.spec.id {
                return self.identifiers[i].label();
            }
            i += 1;
        }
        let mut out = "0x".to_owned();
        push_hex(&mut out, self.spec.id as u64, 3);
        out
    }

    /// The buses to ask about: only worth it when the log actually has two.
    pub fn buses(&self) -> (r: Vec<u8>)
        ensures
            r@ == buses_spec(self.identifiers@, self.identifiers@.len()),
    {
        let mut out: Vec<u8> = Vec::new();
        let mut i: usize = 0;
        while i < self.identifiers.len()
            invariant
                i <= self.identifiers@.len(),
                out@ == buses_spec(self.identifiers@, i as nat),
            decreases self.identifiers@.len() - i,
        {
            let bus = self.identifiers[i].bus;
            let mut seen = false;
            let mut k: usize = 0;
            while k < out.len()
                invariant
                    k <= out@.len(),
                    seen == (exists|j: int| 0 <= j < k && #[trigger] out@[j] == bus),
                decreases out@.len() - k,
            {
                if out[k] == bus {
                    seen = true;
                }
                k += 1;
            }
            if !seen {
                out.push(bus);
            }
            i += 1;
        }
        out
    }

    /// Whether a pane's field can be read from a frame of eight bytes.
    pub open spec fn fits(self) -> bool {
        self.spec.offset + self.spec.kind.width_spec() <= 8
    }

    /// Switches the field to another kind. The chosen bit is kept when switching back and forth,
    /// and an offset that the wider field would push past the end of a frame is pulled back
    /// rather than silently yielding a signal with no samples.
    pub fn choose_kind(&mut self, kind: FieldKind)
        ensures
            final(self).fits(),
            final(self).spec.kind == match (kind, old(self).spec.kind) {
                (FieldKind::Bit(_), FieldKind::Bit(bit)) => FieldKind::Bit(bit),
                _ => kind,
            },
            final(self).spec.offset == if old(self).spec.offset > max_offset_spec(
                final(self).spec.kind,
            ) {
                max_offset_spec(final(self).spec.kind)
            } else {
                old(self).spec.offset
            },
            *final(self) == (CanBuilder {
                spec: SignalSpec {
                    kind: final(self).spec.kind,
                    offset: final(self).spec.offset,
                    ..old(self).spec
                },
                ..*old(self)
            }),
    {
        let kind = match (kind, self.spec.kind) {
            (FieldKind::Bit(_), FieldKind::Bit(bit)) => FieldKind::Bit(bit),
            _ => kind,
        };
        self.spec.kind = kind;
        let last = max_offset(kind);
        if self.spec.offset > last {
            self.spec.offset = last;
        }
    }
}

/// What the preview says after the numbers: the unit, where there is one.
pub fn unit_suffix(unit: &str) -> (r: String)
    ensures
        r@ == if trimmed(unit@).len() == 0 {
            Seq::<char>::empty()
        } else {
            " "@ + trimmed(unit@)
        },
{
    let bare = trim(unit);
    if bare.as_str().is_empty() {
        return String::new();
    }
    let mut out = " ".to_owned();
    out.append(bare.as_str());
    out
}

/// How many samples a signal has, in words.
pub fn samples_note(samples: usize) -> (r: String)
    ensures
        r@ == if samples == 0 {
            "No samples: no frame with this identifier is long enough to hold that field."@
        } else {
            dec(samples as nat) + " samples"@
        },
{
    if samples == 0 {
        return "No samples: no frame with this identifier is long enough to hold that field.".to_owned();
    }
    let mut out = String::new();
    push_dec(&mut out, samples as u64);
    out.append(" samples");
    out
}

} // verus!
