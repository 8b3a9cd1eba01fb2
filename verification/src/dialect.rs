//! Reads the schema of a MAVLink dialect off its XML definitions.
//!
//! The decoder knows how a message is laid out. What it leaves out is the schema around each
//! field: which field identifies the instance, what unit a value is in, which enum an enum-typed
//! field belongs to, and what sentinel means "no reading". All of that stands in the attributes
//! of the same definitions.
use vstd::prelude::*;

use crate::double::{nearest_to, Double};
use crate::mavlink_meta::{EnumEntry, FieldMeta, MessageMeta, Schema};
use crate::text::{
    after_prefix, chars_of, copy_opt, lex_less, lex_lt, lex_lt_asymmetric, lex_lt_total,
    lex_lt_transitive, opt_view, same, strip_prefix, text_of, trim, trimmed,
};
use crate::xml::{
    attributes, attrs_view, events_view, read_xml, well_formed, xml_events, XmlEvent, XmlKind,
};

verus! {

broadcast use vstd::seq_lib::group_seq_properties;

/// What a digit counts in a number to the base `radix`, which is ten or sixteen.
pub open spec fn digit_of(c: char, radix: int) -> Option<int> {
    let n = c as int;
    if 48 <= n <= 57 {
        Some(n - 48)
    } else if radix == 16 && 65 <= n <= 70 {
        Some(n - 55)
    } else if radix == 16 && 97 <= n <= 102 {
        Some(n - 87)
    } else {
        None
    }
}

/// The number that digits write.
pub open spec fn digits_value(s: Seq<char>, radix: int) -> Option<int>
    decreases s.len(),
{
    if s.len() == 0 {
        Some(0)
    } else {
        match (digits_value(s.drop_last(), radix), digit_of(s.last(), radix)) {
            (Some(v), Some(d)) => Some(radix * v + d),
            _ => None,
        }
    }
}

/// The number that a text writes: digits after a sign, if it has one. Only a signed number can
/// have a minus.
pub open spec fn number_spec(s: Seq<char>, radix: int, signed: bool) -> Option<int> {
    if s.len() > 1 && s[0] == '-' && signed {
        match digits_value(s.drop_first(), radix) {
            Some(v) => Some(-v),
            None => None,
        }
    } else if s.len() > 1 && s[0] == '+' {
        digits_value(s.drop_first(), radix)
    } else if s.len() > 0 {
        digits_value(s, radix)
    } else {
        None
    }
}

fn digit(c: char, radix: u8) -> (r: Option<u8>)
    ensures
        match r {
            Some(d) => digit_of(c, radix as int) == Some(d as int) && d < 16,
            None => digit_of(c, radix as int) is None,
        },
{
    let n: u32 = c as u32;
    if 48 <= n && n <= 57 {
        Some((n - 48) as u8)
    } else if radix == 16 && 65 <= n && n <= 70 {
        Some((n - 55) as u8)
    } else if radix == 16 && 97 <= n && n <= 102 {
        Some((n - 87) as u8)
    } else {
        None
    }
}

proof fn lemma_no_digit(s: Seq<char>, radix: int, k: int)
    requires
        0 <= k <= s.len(),
        digits_value(s.take(k), radix) is None,
    ensures
        digits_value(s, radix) is None,
    decreases s.len(),
{
    if k == s.len() {
        assert(s.take(k) =~= s);
    } else {
        assert(s.drop_last().take(k) =~= s.take(k));
        lemma_no_digit(s.drop_last(), radix, k);
    }
}

/// The number that digits write, as far as it stays below two to the 64th.
fn read_digits(chars: &Vec<char>, from: usize, radix: u8) -> (r: Option<Option<u64>>)
    requires
        from <= chars@.len(),
        radix == 10 || radix == 16,
    ensures
        match r {
            Some(Some(v)) => digits_value(chars@.skip(from as int), radix as int) == Some(v as int),
            Some(None) => digits_value(chars@.skip(from as int), radix as int) is Some
                && digits_value(chars@.skip(from as int), radix as int).unwrap() > u64::MAX,
            None => digits_value(chars@.skip(from as int), radix as int) is None,
        },
{
    let ghost s = chars@.skip(from as int);
    let ghost base = radix as int;
    let mut v: u64 = 0;
    let mut big = false;
    let mut i: usize = from;
    assert(s.take(0) =~= Seq::<char>::empty());
    while i < chars.len()
        invariant
            from <= i <= chars@.len(),
            s == chars@.skip(from as int),
            radix == 10 || radix == 16,
            base == radix,
            digits_value(s.take(i - from), base) is Some,
            !big ==> digits_value(s.take(i - from), base) == Some(v as int),
            big ==> digits_value(s.take(i - from), base).unwrap() > u64::MAX,
        decreases chars@.len() - i,
    {
        let ghost done = s.take(i - from);
        let ghost next = s.take(i + 1 - from);
        assert(next.drop_last() =~= done);
        assert(next.last() == chars@[i as int]);
        match digit(chars[i], radix) {
            Some(d) => {
                if !big {
                    let w: u128 = radix as u128 * v as u128 + d as u128;
                    if w <= u64::MAX as u128 {
                        v = w as u64;
                    } else {
                        big = true;
                    }
                }
            },
            None => {
                proof {
                    lemma_no_digit(s, base, i + 1 - from);
                }
                return None;
            },
        }
        i += 1;
    }
    assert(s.take(i - from) =~= s);
    if big {
        Some(None)
    } else {
        Some(Some(v))
    }
}

/// What the value of an enum entry is written as: a number to the base ten, or to the base
/// sixteen behind `0x`.
pub open spec fn enum_number(raw: Seq<char>) -> Option<i64> {
    let s = trimmed(raw);
    let n = if after_prefix(s, "0x"@) is Some {
        number_spec(after_prefix(s, "0x"@).unwrap(), 16, true)
    } else if after_prefix(s, "0X"@) is Some {
        number_spec(after_prefix(s, "0X"@).unwrap(), 16, true)
    } else {
        number_spec(s, 10, true)
    };
    match n {
        Some(v) => if i64::MIN <= v <= i64::MAX {
            Some(v as i64)
        } else {
            None
        },
        None => None,
    }
}

fn read_i64(s: &str, radix: u8) -> (r: Option<i64>)
    requires
        radix == 10 || radix == 16,
    ensures
        r == match number_spec(s@, radix as int, true) {
            Some(v) => if i64::MIN <= v <= i64::MAX {
                Some(v as i64)
            } else {
                None
            },
            None => None,
        },
{
    let chars = chars_of(s);
    if chars.len() == 0 {
        return None;
    }
    assert(chars@.skip(0) =~= chars@);
    assert(chars@.skip(1) =~= chars@.drop_first());
    if chars.len() > 1 && chars[0] == '-' {
        match read_digits(&chars, 1, radix) {
            Some(Some(v)) => if v <= i64::MAX as u64 {
                Some(-(v as i64))
            } else if v == 0x8000_0000_0000_0000 {
                Some(i64::MIN)
            } else {
                None
            },
            _ => None,
        }
    } else {
        let from: usize = if chars.len() > 1 && chars[0] == '+' {
            1
        } else {
            0
        };
        match read_digits(&chars, from, radix) {
            Some(Some(v)) => if v <= i64::MAX as u64 {
                Some(v as i64)
            } else {
                None
            },
            _ => None,
        }
    }
}

/// The number that the value of an enum entry writes.
pub fn parse_enum_value(raw: &str) -> (r: Option<i64>)
    ensures
        r == enum_number(raw@),
{
    let s = trim(raw);
    if let Some(hex) = strip_prefix(s.as_str(), "0x") {
        return read_i64(hex.as_str(), 16);
    }
    if let Some(hex) = strip_prefix(s.as_str(), "0X") {
        return read_i64(hex.as_str(), 16);
    }
    read_i64(s.as_str(), 10)
}

/// What precedes a suffix.
pub open spec fn before_suffix(s: Seq<char>, suffix: Seq<char>) -> Option<Seq<char>> {
    if suffix.len() <= s.len() && s.skip(s.len() - suffix.len()) == suffix {
        Some(s.take(s.len() - suffix.len()))
    } else {
        None
    }
}

fn strip_suffix(s: &str, suffix: &str) -> (r: Option<String>)
    ensures
        opt_view(r) == before_suffix(s@, suffix@),
{
    let chars = chars_of(s);
    let part = chars_of(suffix);
    if part.len() > chars.len() {
        return None;
    }
    let at: usize = chars.len() - part.len();
    let tail = text_of(&chars, at, chars.len());
    assert(tail@ =~= s@.skip(s@.len() - suffix@.len()));
    if same(tail.as_str(), suffix) {
        let head = text_of(&chars, 0, at);
        assert(head@ =~= s@.take(s@.len() - suffix@.len()));
        Some(head)
    } else {
        None
    }
}

/// The extreme of an integer type of so many bits.
pub open spec fn extreme(signed: bool, bits: int, max: bool) -> Option<int> {
    if bits == 8 {
        Some(
            if !max {
                if signed {
                    -0x80
                } else {
                    0
                }
            } else if signed {
                0x7F
            } else {
                0xFF
            },
        )
    } else if bits == 16 {
        Some(
            if !max {
                if signed {
                    -0x8000
                } else {
                    0
                }
            } else if signed {
                0x7FFF
            } else {
                0xFFFF
            },
        )
    } else if bits == 32 {
        Some(
            if !max {
                if signed {
                    -0x8000_0000
                } else {
                    0
                }
            } else if signed {
                0x7FFF_FFFF
            } else {
                0xFFFF_FFFF
            },
        )
    } else if bits == 64 {
        Some(
            if !max {
                if signed {
                    -0x8000_0000_0000_0000
                } else {
                    0
                }
            } else if signed {
                0x7FFF_FFFF_FFFF_FFFF
            } else {
                0xFFFF_FFFF_FFFF_FFFF
            },
        )
    } else {
        None
    }
}

/// What a constant such as `UINT16_MAX` or `INT8_MIN` stands for.
pub open spec fn limit_spec(name: Seq<char>) -> Option<int> {
    let (head, max) = match before_suffix(name, "_MAX"@) {
        Some(head) => (Some(head), true),
        None => (before_suffix(name, "_MIN"@), false),
    };
    match head {
        Some(head) => {
            let (signed, rest) = match after_prefix(head, "U"@) {
                Some(rest) => (false, rest),
                None => (true, head),
            };
            match after_prefix(rest, "INT"@) {
                Some(bits) => match number_spec(bits, 10, false) {
                    Some(bits) => extreme(signed, bits, max),
                    None => None,
                },
                None => None,
            }
        },
        None => None,
    }
}

/// The value of a constant such as `UINT16_MAX`, as a measured value is held.
pub fn int_limit(name: &str) -> (r: Option<Double>)
    ensures
        r == match limit_spec(name@) {
            Some(v) => Some(nearest_to(v)),
            None => None,
        },
{
    let (head, max) = match strip_suffix(name, "_MAX") {
        Some(head) => (head, true),
        None => match strip_suffix(name, "_MIN") {
            Some(head) => (head, false),
            None => return None,
        },
    };
    let (signed, rest) = match strip_prefix(head.as_str(), "U") {
        Some(rest) => (false, rest),
        None => (true, head),
    };
    let bits = match strip_prefix(rest.as_str(), "INT") {
        Some(bits) => bits,
        None => return None,
    };
    let chars = chars_of(bits.as_str());
    if chars.len() == 0 {
        return None;
    }
    assert(chars@.skip(0) =~= chars@);
    assert(chars@.skip(1) =~= chars@.drop_first());
    let from: usize = if chars.len() > 1 && chars[0] == '+' {
        1
    } else {
        0
    };
    let width: u64 = match read_digits(&chars, from, 10) {
        Some(Some(v)) => v,
        _ => return None,
    };
    if width == 8 {
        Some(
            Double::from_int(
                if !max {
                    if signed {
                        -0x80
                    } else {
                        0
                    }
                } else if signed {
                    0x7F
                } else {
                    0xFF
                },
            ),
        )
    } else if width == 16 {
        Some(
            Double::from_int(
                if !max {
                    if signed {
                        -0x8000
                    } else {
                        0
                    }
                } else if signed {
                    0x7FFF
                } else {
                    0xFFFF
                },
            ),
        )
    } else if width == 32 {
        Some(
            Double::from_int(
                if !max {
                    if signed {
                        -0x8000_0000
                    } else {
                        0
                    }
                } else if signed {
                    0x7FFF_FFFF
                } else {
                    0xFFFF_FFFF
                },
            ),
        )
    } else if width == 64 {
        if max && !signed {
            Some(Double::from_unsigned(u64::MAX))
        } else {
            Some(
                Double::from_int(
                    if !max {
                        if signed {
                            i64::MIN
                        } else {
                            0
                        }
                    } else {
                        i64::MAX
                    },
                ),
            )
        }
    } else {
        None
    }
}

/// The bits of the quiet NaN.
pub const NAN_BITS: u64 = 0x7FF8_0000_0000_0000;

/// The sentinel that an `invalid` attribute declares, where it is an unambiguous one.
pub open spec fn sentinel_spec(raw: Option<Seq<char>>) -> Option<Double> {
    match raw {
        Some(raw) => {
            let s = trimmed(raw);
            if s == "NaN"@ || s == "NAN"@ {
                Some(Double { bits: NAN_BITS })
            } else {
                match limit_spec(s) {
                    Some(v) => Some(nearest_to(v)),
                    None => None,
                }
            }
        },
        None => None,
    }
}

/// The sentinel that an `invalid` attribute declares.
///
/// Only the unambiguous ones are kept: NaN and the extremes of the integer types. Zero and minus
/// one are declared too, but those are values a sensor can genuinely report, and silently
/// dropping them would put holes in real data. Array forms describe a whole array being unset
/// and don't map onto one series per element.
pub fn sentinel(raw: &Option<String>) -> (r: Option<Double>)
    ensures
        r == sentinel_spec(opt_view(*raw)),
{
    match raw {
        Some(raw) => {
            let s = trim(raw.as_str());
            if same(s.as_str(), "NaN") || same(s.as_str(), "NAN") {
                Some(Double { bits: NAN_BITS })
            } else {
                int_limit(s.as_str())
            }
        },
        None => None,
    }
}

/// A value written as a plain number is no sentinel, whatever it is declared to be: it could be
/// a measurement.
pub proof fn plain_numbers_are_no_sentinels(raw: Seq<char>)
    requires
        trimmed(raw).len() > 0,
        digit_of(trimmed(raw).last(), 10) is Some,
    ensures
        sentinel_spec(Some(raw)) is None,
{
    let s = trimmed(raw);
    reveal_strlit("NaN");
    reveal_strlit("NAN");
    reveal_strlit("_MAX");
    reveal_strlit("_MIN");
    assert("NaN"@.last() == 'N' && "NAN"@.last() == 'N');
    if before_suffix(s, "_MAX"@) is Some {
        assert(s.skip(s.len() - 4)[3] == s.last());
    }
    if before_suffix(s, "_MIN"@) is Some {
        assert(s.skip(s.len() - 4)[3] == s.last());
    }
}

/// The attribute of a tag under a key, the first of several.
pub open spec fn attr_from(attrs: Seq<(Seq<char>, Seq<char>)>, key: Seq<char>, from: int) -> Option<
    Seq<char>,
>
    decreases attrs.len() - from,
{
    if from < 0 || from >= attrs.len() {
        None
    } else if attrs[from].0 == key {
        Some(attrs[from].1)
    } else {
        attr_from(attrs, key, from + 1)
    }
}

/// The attribute of a tag under a key.
pub open spec fn attr_spec(attrs: Seq<(Seq<char>, Seq<char>)>, key: Seq<char>) -> Option<Seq<char>> {
    attr_from(attrs, key, 0)
}

pub(crate) fn attr(attrs: &Vec<(String, String)>, key: &str) -> (r: Option<String>)
    ensures
        opt_view(r) == attr_spec(attrs_view(attrs@), key@),
{
    let mut i: usize = 0;
    while i < attrs.len()
        invariant
            i <= attrs@.len(),
            attr_spec(attrs_view(attrs@), key@) == attr_from(attrs_view(attrs@), key@, i as int),
        decreases attrs@.len() - i,
    {
        if same(attrs[i].0.as_str(), key) {
            return Some(attrs[i].1.as_str().to_owned());
        }
        i += 1;
    }
    None
}

/// A field of a message, as contracts speak of it.
#[verifier::ext_equal]
pub struct FieldState {
    pub name: Seq<char>,
    pub ty: Seq<char>,
    pub units: Option<Seq<char>>,
    pub enum_name: Option<Seq<char>>,
    pub invalid: Option<Double>,
    pub is_instance: bool,
}

/// What a schema says of a field.
pub open spec fn field_state(f: FieldMeta) -> FieldState {
    FieldState {
        name: f.name@,
        ty: f.ty@,
        units: opt_view(f.units),
        enum_name: opt_view(f.enum_name),
        invalid: f.invalid,
        is_instance: f.is_instance,
    }
}

/// What a schema says of a message: its name and its fields.
pub open spec fn message_state(m: MessageMeta) -> (Seq<char>, Seq<FieldState>) {
    (m.name@, m.fields@.map_values(|f: FieldMeta| field_state(f)))
}

/// What a schema says of an enum entry: the enum, the entry and its value.
pub open spec fn entry_state(e: EnumEntry) -> (Seq<char>, Seq<char>, i64) {
    (e.enum_name@, e.entry@, e.value)
}

/// How far a dialect has been read.
#[verifier::ext_equal]
pub struct DialectState {
    pub messages: Seq<(Seq<char>, Seq<FieldState>)>,
    pub entries: Seq<(Seq<char>, Seq<char>, i64)>,
    /// The message that the reader is inside of.
    pub message: Option<Seq<char>>,
    /// The enum that the reader is inside of.
    pub enum_name: Option<Seq<char>>,
}

/// The position of a message, from `from` on.
pub open spec fn message_from(
    messages: Seq<(Seq<char>, Seq<FieldState>)>,
    name: Seq<char>,
    from: int,
) -> Option<int>
    decreases messages.len() - from,
{
    if from < 0 || from >= messages.len() {
        None
    } else if messages[from].0 == name {
        Some(from)
    } else {
        message_from(messages, name, from + 1)
    }
}

/// Messages with one more, unless there is one of its name: a message can be taken up again in
/// another file.
pub open spec fn with_message(
    messages: Seq<(Seq<char>, Seq<FieldState>)>,
    name: Seq<char>,
) -> Seq<(Seq<char>, Seq<FieldState>)> {
    match message_from(messages, name, 0) {
        Some(_) => messages,
        None => messages.push((name, Seq::empty())),
    }
}

/// Messages with one more field on one of them.
pub open spec fn with_field(
    messages: Seq<(Seq<char>, Seq<FieldState>)>,
    name: Seq<char>,
    field: FieldState,
) -> Seq<(Seq<char>, Seq<FieldState>)> {
    let all = with_message(messages, name);
    match message_from(all, name, 0) {
        Some(i) => all.update(i, (name, all[i].1.push(field))),
        None => all,
    }
}

/// The field that the attributes of its tag describe. The decoder renames a field called `type`,
/// and that is the name its values come under.
pub open spec fn described_field(
    attrs: Seq<(Seq<char>, Seq<char>)>,
    name: Seq<char>,
    ty: Seq<char>,
) -> FieldState {
    FieldState {
        name: if name == "type"@ {
            "mavtype"@
        } else {
            name
        },
        ty,
        units: attr_spec(attrs, "units"@),
        enum_name: attr_spec(attrs, "enum"@),
        invalid: sentinel_spec(attr_spec(attrs, "invalid"@)),
        is_instance: attr_spec(attrs, "instance"@) == Some("true"@),
    }
}

/// The value of the last of an enum's entries among the first `n`.
pub open spec fn last_value(
    entries: Seq<(Seq<char>, Seq<char>, i64)>,
    enum_name: Seq<char>,
    n: nat,
) -> Option<i64>
    decreases n,
{
    if n == 0 {
        None
    } else if entries[n - 1].0 == enum_name {
        Some(entries[n - 1].2)
    } else {
        last_value(entries, enum_name, (n - 1) as nat)
    }
}

/// The value of an enum's next entry: the one it declares, else one more than the entry before,
/// else zero. None where there is no greater one.
pub open spec fn next_value(
    entries: Seq<(Seq<char>, Seq<char>, i64)>,
    enum_name: Seq<char>,
    declared: Option<Seq<char>>,
) -> Option<i64> {
    let number = match declared {
        Some(raw) => enum_number(raw),
        None => None,
    };
    match number {
        Some(v) => Some(v),
        None => match last_value(entries, enum_name, entries.len()) {
            Some(last) => if last < i64::MAX {
                Some((last + 1) as i64)
            } else {
                None
            },
            None => Some(0),
        },
    }
}

/// Where an enum's next entry goes among the first `n`: in front of those of the enums that come
/// after it by name.
pub open spec fn entry_place(
    entries: Seq<(Seq<char>, Seq<char>, i64)>,
    enum_name: Seq<char>,
    n: nat,
) -> nat
    decreases n,
{
    if n > 0 && lex_lt(enum_name, entries[n - 1].0) {
        entry_place(entries, enum_name, (n - 1) as nat)
    } else {
        n
    }
}

/// Entries with one more, behind those of its own enum.
pub open spec fn with_entry(
    entries: Seq<(Seq<char>, Seq<char>, i64)>,
    enum_name: Seq<char>,
    name: Seq<char>,
    value: i64,
) -> Seq<(Seq<char>, Seq<char>, i64)> {
    entries.insert(
        entry_place(entries, enum_name, entries.len()) as int,
        (enum_name, name, value),
    )
}

/// Whether entries are in the order of their enums' names.
pub open spec fn are_by_enum(entries: Seq<(Seq<char>, Seq<char>, i64)>) -> bool {
    forall|i: int, j: int|
        0 <= i < j < entries.len() ==> !lex_lt((#[trigger] entries[j]).0, (#[trigger] entries[i]).0)
}

impl DialectState {
    /// The state after a tag was opened.
    pub open spec fn opened(self, tag: Seq<char>, attrs: Seq<(Seq<char>, Seq<char>)>) -> DialectState {
        let name = attr_spec(attrs, "name"@);
        if tag == "message"@ {
            match name {
                Some(name) => DialectState {
                    messages: with_message(self.messages, name),
                    message: Some(name),
                    ..self
                },
                None => self,
            }
        } else if tag == "enum"@ {
            DialectState { enum_name: name, ..self }
        } else if tag == "field"@ {
            match (self.message, name, attr_spec(attrs, "type"@)) {
                (Some(message), Some(name), Some(ty)) => DialectState {
                    messages: with_field(
                        self.messages,
                        message,
                        described_field(attrs, name, ty),
                    ),
                    ..self
                },
                _ => self,
            }
        } else if tag == "entry"@ {
            match (self.enum_name, name) {
                (Some(enum_name), Some(name)) => match next_value(
                    self.entries,
                    enum_name,
                    attr_spec(attrs, "value"@),
                ) {
                    Some(value) => DialectState {
                        entries: with_entry(self.entries, enum_name, name, value),
                        ..self
                    },
                    None => self,
                },
                _ => self,
            }
        } else {
            self
        }
    }

    /// The state after a tag was closed.
    pub open spec fn closed(self, tag: Seq<char>) -> DialectState {
        if tag == "message"@ {
            DialectState { message: None, ..self }
        } else if tag == "enum"@ {
            DialectState { enum_name: None, ..self }
        } else {
            self
        }
    }

    /// The state after one place of a document.
    pub open spec fn step(
        self,
        event: (XmlKind, Seq<char>, Seq<Option<(Seq<char>, Seq<char>)>>),
    ) -> DialectState {
        match event.0 {
            XmlKind::Start => self.opened(event.1, well_formed(event.2, event.2.len())),
            XmlKind::Empty => self.opened(event.1, well_formed(event.2, event.2.len())),
            XmlKind::End => self.closed(event.1),
            XmlKind::Other => self,
        }
    }

    /// The state after a document.
    pub open spec fn after(
        self,
        events: Seq<(XmlKind, Seq<char>, Seq<Option<(Seq<char>, Seq<char>)>>)>,
    ) -> DialectState
        decreases events.len(),
    {
        if events.len() == 0 {
            self
        } else {
            self.after(events.drop_last()).step(events.last())
        }
    }
}

/// Reads the definitions of a dialect, tag by tag.
pub struct Dialect {
    pub schema: Schema,
    pub message: Option<String>,
    pub enum_name: Option<String>,
}

impl View for Dialect {
    type V = DialectState;

    open spec fn view(&self) -> DialectState {
        DialectState {
            messages: self.schema.messages@.map_values(|m: MessageMeta| message_state(m)),
            entries: self.schema.entries@.map_values(|e: EnumEntry| entry_state(e)),
            message: opt_view(self.message),
            enum_name: opt_view(self.enum_name),
        }
    }
}

impl Dialect {
    /// A dialect of which nothing was read.
    pub fn new() -> (r: Self)
        ensures
            r@.messages.len() == 0,
            r@.entries.len() == 0,
            r@.message is None,
            r@.enum_name is None,
    {
        Dialect {
            schema: Schema { messages: Vec::new(), entries: Vec::new() },
            message: None,
            enum_name: None,
        }
    }

    /// The place of a message, which is made where there is none of its name.
    fn place(&mut self, name: &str) -> (i: usize)
        ensures
            final(self)@ == (DialectState {
                messages: with_message(old(self)@.messages, name@),
                ..old(self)@
            }),
            i < final(self).schema.messages@.len(),
            message_from(final(self)@.messages, name@, 0) == Some(i as int),
    {
        let ghost before = self@.messages;
        let mut i: usize = 0;
        while i < self.schema.messages.len()
            invariant
                i <= self.schema.messages@.len(),
                *self == *old(self),
                before == old(self)@.messages,
                message_from(before, name@, 0) == message_from(before, name@, i as int),
            decreases self.schema.messages@.len() - i,
        {
            assert(before[i as int] == message_state(self.schema.messages@[i as int]));
            if same(self.schema.messages[i].name.as_str(), name) {
                return i;
            }
            i += 1;
        }
        let new = MessageMeta { name: name.to_owned(), fields: Vec::new() };
        let ghost made = message_state(new);
        self.schema.messages.push(new);
        proof {
            assert(made.1 =~= Seq::<FieldState>::empty());
            assert(self@.messages =~= before.push((name@, Seq::empty())));
            lemma_pushed(before, name@, made.1, 0);
        }
        i
    }

    /// The value that an entry of an enum gets.
    fn value(&self, enum_name: &str, declared: &Option<String>) -> (r: Option<i64>)
        ensures
            r == next_value(self@.entries, enum_name@, opt_view(*declared)),
    {
        if let Some(raw) = declared {
            if let Some(v) = parse_enum_value(raw.as_str()) {
                return Some(v);
            }
        }
        let ghost entries = self@.entries;
        let mut n: usize = self.schema.entries.len();
        while n > 0
            invariant
                n <= self.schema.entries@.len(),
                entries == self@.entries,
                last_value(entries, enum_name@, entries.len()) == last_value(
                    entries,
                    enum_name@,
                    n as nat,
                ),
                opt_view(*declared) matches Some(raw) ==> enum_number(raw) is None,
            decreases n,
        {
            assert(entries[n - 1] == entry_state(self.schema.entries@[n - 1]));
            if same(self.schema.entries[n - 1].enum_name.as_str(), enum_name) {
                let last = self.schema.entries[n - 1].value;
                return if last < i64::MAX {
                    Some(last + 1)
                } else {
                    None
                };
            }
            n -= 1;
        }
        Some(0)
    }

    /// Where an entry of an enum goes.
    fn entry_at(&self, enum_name: &str) -> (r: usize)
        ensures
            r == entry_place(self@.entries, enum_name@, self@.entries.len()),
            r <= self.schema.entries@.len(),
    {
        let ghost entries = self@.entries;
        let mut n: usize = self.schema.entries.len();
        let wanted = chars_of(enum_name);
        while n > 0
            invariant
                n <= self.schema.entries@.len(),
                entries == self@.entries,
                wanted@ == enum_name@,
                entry_place(entries, enum_name@, entries.len()) == entry_place(
                    entries,
                    enum_name@,
                    n as nat,
                ),
            decreases n,
        {
            assert(entries[n - 1] == entry_state(self.schema.entries@[n - 1]));
            if !lex_less(&wanted, &chars_of(self.schema.entries[n - 1].enum_name.as_str())) {
                return n;
            }
            n -= 1;
        }
        n
    }

    /// Takes in a tag that was opened.
    pub fn open(&mut self, tag: &str, attrs: &Vec<(String, String)>)
        ensures
            final(self)@ == old(self)@.opened(tag@, attrs_view(attrs@)),
    {
        let name = attr(attrs, "name");
        if same(tag, "message") {
            if let Some(name) = name {
                let _ = self.place(name.as_str());
                self.message = Some(name);
            }
        } else if same(tag, "enum") {
            self.enum_name = name;
        } else if same(tag, "field") {
            let message = copy_opt(&self.message);
            if let (Some(message), Some(name), Some(ty)) = (message, name, attr(attrs, "type")) {
                let instance = match attr(attrs, "instance") {
                    Some(word) => same(word.as_str(), "true"),
                    None => false,
                };
                let field = FieldMeta {
                    name: if same(name.as_str(), "type") {
                        "mavtype".to_owned()
                    } else {
                        name
                    },
                    ty,
                    units: attr(attrs, "units"),
                    enum_name: attr(attrs, "enum"),
                    invalid: sentinel(&attr(attrs, "invalid")),
                    is_instance: instance,
                };
                let ghost added = field_state(field);
                let i = self.place(message.as_str());
                let ghost mid = self.schema.messages@;
                let ghost all = self@.messages;
                let slot = &mut self.schema.messages[i];
                slot.fields.push(field);
                proof {
                    let after = self.schema.messages@;
                    assert(all[i as int] == message_state(mid[i as int]));
                    assert(all[i as int].0 == message@) by {
                        lemma_message_named(all, message@, 0);
                    }
                    assert(message_state(after[i as int]).1 =~= all[i as int].1.push(added));
                    assert(self@.messages =~= all.update(
                        i as int,
                        (message@, all[i as int].1.push(added)),
                    ));
                }
            }
        } else if same(tag, "entry") {
            let enum_name = copy_opt(&self.enum_name);
            if let (Some(enum_name), Some(name)) = (enum_name, name) {
                if let Some(value) = self.value(enum_name.as_str(), &attr(attrs, "value")) {
                    let ghost before = self@.entries;
                    let ghost added = (enum_name@, name@, value);
                    let at = self.entry_at(enum_name.as_str());
                    self.schema.entries.insert(at, EnumEntry { enum_name, entry: name, value });
                    assert(self@.entries =~= before.insert(at as int, added));
                }
            }
        }
    }

    /// Takes in a tag that was closed.
    pub fn close(&mut self, tag: &str)
        ensures
            final(self)@ == old(self)@.closed(tag@),
    {
        if same(tag, "message") {
            self.message = None;
        } else if same(tag, "enum") {
            self.enum_name = None;
        }
    }

    /// Takes in what is in a document.
    pub fn take(&mut self, events: &Vec<XmlEvent>)
        ensures
            final(self)@ == old(self)@.after(events_view(events@)),
    {
        let ghost all = events_view(events@);
        let mut i: usize = 0;
        assert(all.take(0) =~= Seq::empty());
        while i < events.len()
            invariant
                i <= events@.len(),
                all == events_view(events@),
                self@ == old(self)@.after(all.take(i as int)),
            decreases events@.len() - i,
        {
            let event = &events[i];
            proof {
                assert(all.take(i + 1).drop_last() =~= all.take(i as int));
                assert(all.take(i + 1).last() == event@);
            }
            match event {
                XmlEvent::Start(tag, attrs) => self.open(tag.as_str(), &attributes(attrs)),
                XmlEvent::Empty(tag, attrs) => self.open(tag.as_str(), &attributes(attrs)),
                XmlEvent::End(tag) => self.close(tag.as_str()),
                XmlEvent::Other => {},
            }
            i += 1;
        }
        assert(all.take(i as int) =~= all);
    }

    /// Reads a document of definitions. A malformed one leaves no trace.
    pub fn read(&mut self, text: &str) -> (ok: bool)
        ensures
            ok <==> xml_events(text@) is Some,
            final(self)@ == match xml_events(text@) {
                Some(events) => old(self)@.after(events),
                None => old(self)@,
            },
    {
        match read_xml(text) {
            Some(events) => {
                self.take(&events);
                true
            },
            None => false,
        }
    }
}

proof fn lemma_pushed(
    messages: Seq<(Seq<char>, Seq<FieldState>)>,
    name: Seq<char>,
    fields: Seq<FieldState>,
    from: int,
)
    requires
        0 <= from <= messages.len(),
        message_from(messages, name, from) is None,
    ensures
        message_from(messages.push((name, fields)), name, from) == Some(messages.len() as int),
    decreases messages.len() - from,
{
    let all = messages.push((name, fields));
    if from < messages.len() {
        assert(all[from] == messages[from]);
        lemma_pushed(messages, name, fields, from + 1);
    }
}

proof fn lemma_message_named(
    messages: Seq<(Seq<char>, Seq<FieldState>)>,
    name: Seq<char>,
    from: int,
)
    requires
        0 <= from,
        message_from(messages, name, from) is Some,
    ensures
        from <= message_from(messages, name, from).unwrap() < messages.len(),
        messages[message_from(messages, name, from).unwrap()].0 == name,
    decreases messages.len() - from,
{
    if from < messages.len() && messages[from].0 != name {
        lemma_message_named(messages, name, from + 1);
    }
}

/// Entries of an enum that declare no value count on from the entry before.
pub proof fn entries_count_on(
    state: DialectState,
    attrs: Seq<(Seq<char>, Seq<char>)>,
    enum_name: Seq<char>,
    name: Seq<char>,
    last: i64,
)
    requires
        state.enum_name == Some(enum_name),
        attr_spec(attrs, "name"@) == Some(name),
        attr_spec(attrs, "value"@) is None,
        last_value(state.entries, enum_name, state.entries.len()) == Some(last),
        last < i64::MAX,
    ensures
        state.opened("entry"@, attrs).entries == with_entry(
            state.entries,
            enum_name,
            name,
            (last + 1) as i64,
        ),
{
    reveal_strlit("entry");
    reveal_strlit("message");
    reveal_strlit("enum");
    reveal_strlit("field");
    assert("entry"@.len() == 5 && "message"@.len() == 7 && "enum"@.len() == 4);
    assert("entry"@[0] == 'e' && "field"@[0] == 'f');
}

proof fn lemma_entry_place(
    entries: Seq<(Seq<char>, Seq<char>, i64)>,
    enum_name: Seq<char>,
    n: nat,
)
    requires
        n <= entries.len(),
    ensures
        entry_place(entries, enum_name, n) <= n,
        forall|k: int|
            entry_place(entries, enum_name, n) <= k < n ==> lex_lt(
                enum_name,
                (#[trigger] entries[k]).0,
            ),
        entry_place(entries, enum_name, n) > 0 ==> !lex_lt(
            enum_name,
            entries[entry_place(entries, enum_name, n) - 1].0,
        ),
    decreases n,
{
    if n > 0 && lex_lt(enum_name, entries[n - 1].0) {
        lemma_entry_place(entries, enum_name, (n - 1) as nat);
    }
}

/// One more entry leaves the entries in the order of their enums' names.
pub proof fn entries_stay_by_enum(
    entries: Seq<(Seq<char>, Seq<char>, i64)>,
    enum_name: Seq<char>,
    name: Seq<char>,
    value: i64,
)
    requires
        are_by_enum(entries),
    ensures
        are_by_enum(with_entry(entries, enum_name, name, value)),
{
    lemma_entry_place(entries, enum_name, entries.len());
    let at = entry_place(entries, enum_name, entries.len()) as int;
    let after = with_entry(entries, enum_name, name, value);
    assert forall|i: int, j: int| 0 <= i < j < after.len() implies !lex_lt(
        (#[trigger] after[j]).0,
        (#[trigger] after[i]).0,
    ) by {
        if j == at {
            let last = entries[at - 1].0;
            let here = entries[i].0;
            if lex_lt(enum_name, here) && i < at - 1 {
                assert(!lex_lt(entries[at - 1].0, entries[i].0));
                lex_lt_total(last, here);
                if here != last {
                    lex_lt_transitive(enum_name, here, last);
                }
            }
        } else if i == at {
            assert(lex_lt(enum_name, entries[j - 1].0));
            lex_lt_asymmetric(enum_name, entries[j - 1].0);
        } else {
            let a = if i < at {
                i
            } else {
                i - 1
            };
            let b = if j < at {
                j
            } else {
                j - 1
            };
            assert(after[i] == entries[a] && after[j] == entries[b]);
            assert(!lex_lt(entries[b].0, entries[a].0));
        }
    }
}

/// The entries of a dialect are in the order of their enums' names, whatever order its document
/// has them in: reading on in it keeps them so.
pub proof fn a_dialect_is_by_enum(
    state: DialectState,
    events: Seq<(XmlKind, Seq<char>, Seq<Option<(Seq<char>, Seq<char>)>>)>,
)
    requires
        are_by_enum(state.entries),
    ensures
        are_by_enum(state.after(events).entries),
    decreases events.len(),
{
    if events.len() > 0 {
        let before = state.after(events.drop_last());
        a_dialect_is_by_enum(state, events.drop_last());
        let event = events.last();
        let attrs = well_formed(event.2, event.2.len());
        let name = attr_spec(attrs, "name"@);
        if before.enum_name is Some && name is Some {
            let enum_name = before.enum_name.unwrap();
            let value = next_value(before.entries, enum_name, attr_spec(attrs, "value"@));
            if value is Some {
                entries_stay_by_enum(before.entries, enum_name, name.unwrap(), value.unwrap());
            }
        }
    }
}

} // verus!
