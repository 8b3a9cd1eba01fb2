//! What a MAVLink schema says of its messages beyond their layout: which field identifies a
//! message *instance*, what unit a field is in, which enum an enum-typed field draws from, and
//! which value means "no reading".
use vstd::prelude::*;

use crate::double::{nearest_to, Double};
use crate::text::{after_prefix, opt_view, same, strip_prefix, text_until, until};

verus! {

broadcast use vstd::seq_lib::group_seq_properties;

pub struct MessageMeta {
    pub name: String,
    pub fields: Vec<FieldMeta>,
}

pub struct FieldMeta {
    /// Field name as the decoder emits it (`type` is renamed to `mavtype`).
    pub name: String,
    /// MAVLink type, e.g. `uint16_t` or `float[4]`.
    pub ty: String,
    pub units: Option<String>,
    pub enum_name: Option<String>,
    /// Explicit `invalid="..."` sentinel, when it is an unambiguous one.
    pub invalid: Option<Double>,
    /// `instance="true"`: this field says *which* sensor, tank or valve the rest of the message
    /// is about, so each of its values is its own time series.
    pub is_instance: bool,
}

/// An entry of an enum: the enum's name, the entry's, and what it stands for.
pub struct EnumEntry {
    pub enum_name: String,
    pub entry: String,
    pub value: i64,
}

/// The messages and the enums of a dialect.
pub struct Schema {
    pub messages: Vec<MessageMeta>,
    pub entries: Vec<EnumEntry>,
}

impl MessageMeta {
    /// The first of the fields from `from` on that has a name.
    pub open spec fn field_from(self, name: Seq<char>, from: int) -> Option<FieldMeta>
        decreases self.fields@.len() - from,
    {
        if from < 0 || from >= self.fields@.len() {
            None
        } else if self.fields@[from].name@ == name {
            Some(self.fields@[from])
        } else {
            self.field_from(name, from + 1)
        }
    }

    /// What [`MessageMeta::field`] finds.
    pub open spec fn field_spec(self, name: Seq<char>) -> Option<FieldMeta> {
        self.field_from(name, 0)
    }

    /// The field of a name.
    pub fn field(&self, name: &str) -> (r: Option<&FieldMeta>)
        ensures
            match r {
                Some(f) => self.field_spec(name@) == Some(*f),
                None => self.field_spec(name@) is None,
            },
    {
        let mut i: usize = 0;
        while i < self.fields.len()
            invariant
                i <= self.fields@.len(),
                self.field_spec(name@) == self.field_from(name@, i as int),
            decreases self.fields@.len() - i,
        {
            if same(self.fields[i].name.as_str(), name) {
                return Some(&self.fields[i]);
            }
            i += 1;
        }
        None
    }

    /// The first of the fields from `from` on that says which instance a message is about.
    pub open spec fn instance_from(self, from: int) -> Option<FieldMeta>
        decreases self.fields@.len() - from,
    {
        if from < 0 || from >= self.fields@.len() {
            None
        } else if self.fields@[from].is_instance {
            Some(self.fields@[from])
        } else {
            self.instance_from(from + 1)
        }
    }

    /// What [`MessageMeta::instance_field`] finds.
    pub open spec fn instance_spec(self) -> Option<FieldMeta> {
        self.instance_from(0)
    }

    /// The field that says which instance a message is about.
    pub fn instance_field(&self) -> (r: Option<&FieldMeta>)
        ensures
            match r {
                Some(f) => self.instance_spec() == Some(*f),
                None => self.instance_spec() is None,
            },
    {
        let mut i: usize = 0;
        while i < self.fields.len()
            invariant
                i <= self.fields@.len(),
                self.instance_spec() == self.instance_from(i as int),
            decreases self.fields@.len() - i,
        {
            if self.fields[i].is_instance {
                return Some(&self.fields[i]);
            }
            i += 1;
        }
        None
    }
}

/// The greatest value of an integer type, or of the type that an array is of.
pub open spec fn type_max(ty: Seq<char>) -> Option<int> {
    let base = until(ty, '[');
    if base == "uint8_t"@ {
        Some(255)
    } else if base == "int8_t"@ {
        Some(127)
    } else if base == "uint16_t"@ {
        Some(65_535)
    } else if base == "int16_t"@ {
        Some(32_767)
    } else if base == "uint32_t"@ {
        Some(4_294_967_295)
    } else if base == "int32_t"@ {
        Some(2_147_483_647)
    } else {
        None
    }
}

fn int_type_max(ty: &str) -> (r: Option<i64>)
    ensures
        match r {
            Some(v) => type_max(ty@) == Some(v as int),
            None => type_max(ty@) is None,
        },
{
    let base = text_until(ty, '[');
    let base = base.as_str();
    if same(base, "uint8_t") {
        Some(255)
    } else if same(base, "int8_t") {
        Some(127)
    } else if same(base, "uint16_t") {
        Some(65_535)
    } else if same(base, "int16_t") {
        Some(32_767)
    } else if same(base, "uint32_t") {
        Some(4_294_967_295)
    } else if same(base, "int32_t") {
        Some(2_147_483_647)
    } else {
        None
    }
}

impl FieldMeta {
    /// What [`FieldMeta::invalid_value`] returns.
    pub open spec fn invalid_spec(self) -> Option<Double> {
        if self.invalid is Some {
            self.invalid
        } else if self.units is None || self.is_instance || self.enum_name is Some {
            None
        } else {
            match type_max(self.ty@) {
                Some(max) => Some(nearest_to(max)),
                None => None,
            }
        }
    }

    /// The value that means "this sensor reported nothing", if any.
    ///
    /// Beyond the explicit `invalid="..."` attribute, MAVLink's convention is that an integer
    /// measurement is unset when it sits at its type's maximum. Requiring a `units` attribute
    /// keeps the rule to physical measurements, so counters, ids and bitmasks that legitimately
    /// reach their type max are left alone.
    pub fn invalid_value(&self) -> (r: Option<Double>)
        ensures
            r == self.invalid_spec(),
    {
        if let Some(v) = self.invalid {
            return Some(v);
        }
        if self.units.is_none() || self.is_instance || self.enum_name.is_some() {
            return None;
        }
        match int_type_max(self.ty.as_str()) {
            Some(max) => Some(Double::from_int(max)),
            None => None,
        }
    }

    /// What [`FieldMeta::unit_scale`] returns.
    pub open spec fn unit_scale_spec(self) -> (Option<Seq<char>>, nat) {
        match opt_view(self.units) {
            Some(u) => if u == "cdegC"@ {
                (Some("°C"@), 2)
            } else if u == "cdeg"@ {
                (Some("deg"@), 2)
            } else if u == "cA"@ {
                (Some("A"@), 2)
            } else if u == "c%"@ {
                (Some("%"@), 2)
            } else if u == "degE7"@ {
                (Some("deg"@), 7)
            } else {
                (Some(u), 0)
            },
            None => (None, 0),
        }
    }

    /// Display unit, and how many decimals raw values have in it. MAVLink transports several
    /// quantities pre-scaled to keep them integral (centidegrees, 1e-7 degrees); plotting those
    /// raw is just misleading.
    pub fn unit_scale(&self) -> (r: (Option<String>, u8))
        ensures
            (opt_view(r.0), r.1 as nat) == self.unit_scale_spec(),
    {
        match &self.units {
            Some(u) => {
                let u = u.as_str();
                if same(u, "cdegC") {
                    (Some("°C".to_owned()), 2)
                } else if same(u, "cdeg") {
                    (Some("deg".to_owned()), 2)
                } else if same(u, "cA") {
                    (Some("A".to_owned()), 2)
                } else if same(u, "c%") {
                    (Some("%".to_owned()), 2)
                } else if same(u, "degE7") {
                    (Some("deg".to_owned()), 7)
                } else {
                    (Some(u.to_owned()), 0)
                }
            },
            None => (None, 0),
        }
    }
}

/// The last of the first `n` messages that has a name.
pub open spec fn message_in(messages: Seq<MessageMeta>, name: Seq<char>, n: nat) -> Option<
    MessageMeta,
>
    decreases n,
{
    if n == 0 || n > messages.len() {
        None
    } else if messages[n - 1].name@ == name {
        Some(messages[n - 1])
    } else {
        message_in(messages, name, (n - 1) as nat)
    }
}

/// The value of the last of the first `n` entries of a name, in a given enum or in any.
pub open spec fn entry_in(
    entries: Seq<EnumEntry>,
    enum_name: Option<Seq<char>>,
    entry: Seq<char>,
    n: nat,
) -> Option<i64>
    decreases n,
{
    if n == 0 || n > entries.len() {
        None
    } else if entries[n - 1].entry@ == entry && (enum_name is None || enum_name == Some(
        entries[n - 1].enum_name@,
    )) {
        Some(entries[n - 1].value)
    } else {
        entry_in(entries, enum_name, entry, (n - 1) as nat)
    }
}

/// What [`enum_value`] returns.
pub open spec fn enum_value_spec(
    entries: Seq<EnumEntry>,
    enum_name: Option<Seq<char>>,
    entry: Seq<char>,
) -> Option<i64> {
    let named = entry_in(entries, enum_name, entry, entries.len());
    if named is Some {
        named
    } else {
        entry_in(entries, None, entry, entries.len())
    }
}

/// An optional borrowed text, as contracts speak of it.
pub open spec fn name_view(name: Option<&String>) -> Option<Seq<char>> {
    match name {
        Some(n) => Some(n@),
        None => None,
    }
}

impl Schema {
    /// What [`message`] finds.
    pub open spec fn message_spec(self, name: Seq<char>) -> Option<MessageMeta> {
        message_in(self.messages@, name, self.messages@.len())
    }

    fn find_entry(&self, enum_name: Option<&String>, entry: &str) -> (r: Option<i64>)
        ensures
            r == entry_in(self.entries@, name_view(enum_name), entry@, self.entries@.len()),
    {
        let mut n: usize = self.entries.len();
        while n > 0
            invariant
                n <= self.entries@.len(),
                entry_in(self.entries@, name_view(enum_name), entry@, self.entries@.len())
                    == entry_in(self.entries@, name_view(enum_name), entry@, n as nat),
            decreases n,
        {
            let e = &self.entries[n - 1];
            let right_enum = match enum_name {
                Some(name) => same(e.enum_name.as_str(), name.as_str()),
                None => true,
            };
            if right_enum && same(e.entry.as_str(), entry) {
                return Some(e.value);
            }
            n -= 1;
        }
        None
    }
}

/// The message of a name; of several, the one listed last.
pub fn message<'a>(schema: &'a Schema, name: &str) -> (r: Option<&'a MessageMeta>)
    ensures
        match r {
            Some(m) => schema.message_spec(name@) == Some(*m),
            None => schema.message_spec(name@) is None,
        },
{
    let mut n: usize = schema.messages.len();
    while n > 0
        invariant
            n <= schema.messages@.len(),
            schema.message_spec(name@) == message_in(schema.messages@, name@, n as nat),
        decreases n,
    {
        if same(schema.messages[n - 1].name.as_str(), name) {
            return Some(&schema.messages[n - 1]);
        }
        n -= 1;
    }
    None
}

/// Numeric value of an enum entry, e.g. `("VALVE_ID", "VALVE_ID_MAIN") -> 4`. Falls back to
/// matching the entry name in any enum, since a bitmask field occasionally names entries
/// from an enum it doesn't declare.
pub fn enum_value(schema: &Schema, enum_name: Option<&String>, entry: &str) -> (r: Option<i64>)
    ensures
        r == enum_value_spec(schema.entries@, name_view(enum_name), entry@),
{
    match schema.find_entry(enum_name, entry) {
        Some(v) => Some(v),
        None => schema.find_entry(None, entry),
    }
}

/// What [`short_enum_entry`] returns.
pub open spec fn short_entry_spec(enum_name: Option<Seq<char>>, entry: Seq<char>) -> Seq<char> {
    match enum_name {
        Some(name) => match after_prefix(entry, name) {
            Some(rest) => match after_prefix(rest, "_"@) {
                Some(short) => if short.len() > 0 {
                    short
                } else {
                    entry
                },
                None => entry,
            },
            None => entry,
        },
        None => entry,
    }
}

/// Strips the enum's own prefix off an entry name, so an instance shows up as `VALVE[MAIN]`
/// rather than `VALVE[VALVE_ID_MAIN]`.
pub fn short_enum_entry(enum_name: Option<&String>, entry: &str) -> (r: String)
    ensures
        r@ == short_entry_spec(name_view(enum_name), entry@),
{
    if let Some(name) = enum_name {
        if let Some(rest) = strip_prefix(entry, name.as_str()) {
            if let Some(short) = strip_prefix(rest.as_str(), "_") {
                if !short.as_str().is_empty() {
                    return short;
                }
            }
        }
    }
    entry.to_owned()
}

/// The field that identifies an instance has no "no reading" value of its own making: every
/// one of its values names an instance.
pub proof fn instances_are_never_dropped(f: FieldMeta)
    requires
        f.is_instance,
        f.invalid is None,
    ensures
        f.invalid_spec() is None,
{
}

} // verus!
