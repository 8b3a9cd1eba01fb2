//! What the schemas, the names and the numbers of series stand for.
use vstd::arithmetic::power2::{lemma_pow2_adds, lemma_pow2_unfold, pow2};
use vstd::prelude::*;

use crate::dialect::{
    attr_from, attr_spec, digits_value, entry_place, enum_number, message_from, number_spec,
    DialectState, FieldState,
};
use crate::double::{
    integer_bits, lemma_pow2_53, lemma_top_bit, nearest_to, top_bit, Double, SIGN_BIT,
};
use crate::mavlink_meta::{
    entry_in, enum_value_spec, message_in, EnumEntry, FieldMeta, MessageMeta,
};
use crate::n2o::{phase_spec, Phase, CRITICAL_T, TRIPLE_T};
use crate::picker::score_spec;
use crate::series::TimeSeries;
use crate::tank::sensors::{indexed_spec, last_numbered, number, sensor_score_spec, stem_len};
use crate::text::{dec, hex, holds, lowercased, opt_view};
use crate::text_laws::{
    a_hexadecimal_number_reads_back, a_number_reads_back, all_digits, is_digit, read_digits,
};
use crate::units::{PressureUnit, TempUnit};

verus! {

broadcast use vstd::seq_lib::group_seq_properties;

/// A whole number below two to the 53rd is a double exactly: above the exponent that its bits say,
/// the fraction with its leading one is the number, moved up by as many places as it is short.
pub proof fn whole_numbers_are_exact(n: int)
    requires
        0 < n < 0x20_0000_0000_0000,
    ensures
        ({
            let bits = nearest_to(n).bits as int;
            let (exponent, fraction) = (bits / 0x10_0000_0000_0000, bits % 0x10_0000_0000_0000);
            &&& 1023 <= exponent <= 1075
            &&& 0x10_0000_0000_0000 + fraction == n * pow2((1075 - exponent) as nat)
            &&& nearest_to(-n).bits == SIGN_BIT + nearest_to(n).bits
        }),
        nearest_to(0).bits == 0,
{
    lemma_top_bit(n);
    lemma_pow2_53();
    let e = top_bit(n);
    if e >= 53 {
        lemma_pow2_rises(53, e);
    }
    let p = pow2((52 - e) as nat) as int;
    let m = n * p;
    vstd::arithmetic::power2::lemma_pow2_pos((52 - e) as nat);
    lemma_pow2_adds(e, (52 - e) as nat);
    lemma_pow2_adds(e + 1, (52 - e) as nat);
    assert(pow2(e) * p <= m < pow2(e + 1) * p) by (nonlinear_arith)
        requires
            m == n * p,
            pow2(e) <= n < pow2(e + 1),
            p > 0,
    ;
    assert(0x10_0000_0000_0000 <= m < 0x20_0000_0000_0000);
    let bits = integer_bits(n);
    assert(bits == (1022 + e) * 0x10_0000_0000_0000 + m);
    assert(bits / 0x10_0000_0000_0000 == 1023 + e);
    assert(bits % 0x10_0000_0000_0000 == m - 0x10_0000_0000_0000);
    assert(1075 - (1023 + e) == 52 - e);
}

proof fn lemma_pow2_rises(a: nat, b: nat)
    requires
        a <= b,
    ensures
        pow2(a) <= pow2(b),
    decreases b - a,
{
    if a < b {
        lemma_pow2_rises(a, (b - 1) as nat);
        lemma_pow2_unfold(b);
        vstd::arithmetic::power2::lemma_pow2_pos((b - 1) as nat);
    }
}

/// A field is found by its name, and the first of a name is the one found.
pub proof fn a_field_is_found_by_its_name(m: MessageMeta, name: Seq<char>, from: int)
    requires
        0 <= from <= m.fields@.len(),
    ensures
        match m.field_from(name, from) {
            Some(f) => exists|i: int|
                {
                    &&& from <= i < m.fields@.len()
                    &&& #[trigger] m.fields@[i] == f
                    &&& f.name@ == name
                    &&& forall|k: int| from <= k < i ==> (#[trigger] m.fields@[k]).name@ != name
                },
            None => forall|k: int|
                from <= k < m.fields@.len() ==> (#[trigger] m.fields@[k]).name@ != name,
        },
    decreases m.fields@.len() - from,
{
    if from < m.fields@.len() && m.fields@[from].name@ != name {
        a_field_is_found_by_its_name(m, name, from + 1);
        if let Some(f) = m.field_from(name, from + 1) {
            let i = choose|i: int|
                {
                    &&& from + 1 <= i < m.fields@.len()
                    &&& #[trigger] m.fields@[i] == f
                    &&& f.name@ == name
                    &&& forall|k: int| from + 1 <= k < i ==> (#[trigger] m.fields@[k]).name@ != name
                };
            assert(m.fields@[i] == f);
        }
    }
}

/// The instance of a message is the first field that is declared to be one.
pub proof fn the_instance_is_declared(m: MessageMeta, from: int)
    requires
        0 <= from <= m.fields@.len(),
    ensures
        match m.instance_from(from) {
            Some(f) => f.is_instance && m.fields@.contains(f),
            None => forall|k: int|
                from <= k < m.fields@.len() ==> !(#[trigger] m.fields@[k]).is_instance,
        },
    decreases m.fields@.len() - from,
{
    if from < m.fields@.len() && !m.fields@[from].is_instance {
        the_instance_is_declared(m, from + 1);
    } else if from < m.fields@.len() {
        assert(m.fields@[from] == m.fields@[from]);
    }
}

/// A message is found by its name, the last of several.
pub proof fn a_message_is_found_by_its_name(messages: Seq<MessageMeta>, name: Seq<char>, n: nat)
    requires
        n <= messages.len(),
    ensures
        match message_in(messages, name, n) {
            Some(m) => exists|i: int|
                0 <= i < n && #[trigger] messages[i] == m && m.name@ == name && forall|k: int|
                    i < k < n ==> (#[trigger] messages[k]).name@ != name,
            None => forall|k: int| 0 <= k < n ==> (#[trigger] messages[k]).name@ != name,
        },
    decreases n,
{
    if n > 0 && messages[n - 1].name@ != name {
        a_message_is_found_by_its_name(messages, name, (n - 1) as nat);
    } else if n > 0 {
        assert(messages[n - 1] == messages[n - 1]);
    }
}

proof fn lemma_entry(
    entries: Seq<EnumEntry>,
    enum_name: Option<Seq<char>>,
    entry: Seq<char>,
    n: nat,
)
    requires
        n <= entries.len(),
    ensures
        match entry_in(entries, enum_name, entry, n) {
            Some(v) => exists|i: int|
                {
                    &&& 0 <= i < n
                    &&& (#[trigger] entries[i]).value == v
                    &&& entries[i].entry@ == entry
                    &&& enum_name is None || enum_name == Some(entries[i].enum_name@)
                },
            None => forall|k: int|
                0 <= k < n ==> (#[trigger] entries[k]).entry@ != entry || (enum_name is Some
                    && enum_name != Some(entries[k].enum_name@)),
        },
    decreases n,
{
    if n > 0 {
        if entries[n - 1].entry@ == entry && (enum_name is None || enum_name == Some(
            entries[n - 1].enum_name@,
        )) {
            assert(entries[n - 1].value == entries[n - 1].value);
        } else {
            lemma_entry(entries, enum_name, entry, (n - 1) as nat);
        }
    }
}

/// An entry's value is one that an entry of its name has: of the enum asked for where that has
/// it, of any enum otherwise, and none only where no enum has it.
pub proof fn an_entry_is_worth_its_value(
    entries: Seq<EnumEntry>,
    enum_name: Seq<char>,
    entry: Seq<char>,
)
    ensures
        match enum_value_spec(entries, Some(enum_name), entry) {
            Some(v) => {
                ||| exists|i: int|
                    0 <= i < entries.len() && (#[trigger] entries[i]).value == v
                        && entries[i].entry@ == entry && entries[i].enum_name@ == enum_name
                ||| (forall|i: int|
                    0 <= i < entries.len() ==> (#[trigger] entries[i]).entry@ != entry
                        || entries[i].enum_name@ != enum_name) && exists|i: int|
                    0 <= i < entries.len() && (#[trigger] entries[i]).value == v
                        && entries[i].entry@ == entry
            },
            None => forall|i: int| 0 <= i < entries.len() ==> (#[trigger] entries[i]).entry@ != entry,
        },
{
    lemma_entry(entries, Some(enum_name), entry, entries.len());
    lemma_entry(entries, None, entry, entries.len());
}

/// A measurement that declares nothing else is unset at the greatest number of its type; what is
/// no measurement, an instance or one of an enum never is.
pub proof fn a_measurement_is_unset_at_its_maximum(f: FieldMeta)
    ensures
        f.invalid is Some ==> f.invalid_spec() == f.invalid,
        f.invalid is None && (f.units is None || f.is_instance || f.enum_name is Some)
            ==> f.invalid_spec() is None,
        f.invalid is None && f.units is Some && !f.is_instance && f.enum_name is None ==> {
            &&& f.ty@ == "uint8_t"@ ==> f.invalid_spec() == Some(nearest_to(0xFF))
            &&& f.ty@ == "int16_t"@ ==> f.invalid_spec() == Some(nearest_to(0x7FFF))
            &&& f.ty@ == "uint16_t"@ ==> f.invalid_spec() == Some(nearest_to(0xFFFF))
            &&& f.ty@ == "int32_t"@ ==> f.invalid_spec() == Some(nearest_to(0x7FFF_FFFF))
            &&& f.ty@ == "uint32_t"@ ==> f.invalid_spec() == Some(nearest_to(0xFFFF_FFFF))
            &&& f.ty@ == "float"@ ==> f.invalid_spec() is None
        },
{
    reveal_strlit("uint8_t");
    reveal_strlit("int8_t");
    reveal_strlit("uint16_t");
    reveal_strlit("int16_t");
    reveal_strlit("uint32_t");
    reveal_strlit("int32_t");
    reveal_strlit("float");
    crate::text_laws::the_first_is_the_first(f.ty@, '[');
    let i = crate::text::first_of(f.ty@, '[');
    if f.ty@ == "uint8_t"@ || f.ty@ == "int16_t"@ || f.ty@ == "uint16_t"@ || f.ty@ == "int32_t"@
        || f.ty@ == "uint32_t"@ || f.ty@ == "float"@ {
        assert(i == f.ty@.len()) by {
            if i < f.ty@.len() {
                assert(f.ty@[i] == '[');
            }
        }
        assert(f.ty@.take(i) =~= f.ty@);
    }
    assert("uint8_t"@[0] == 'u' && "int8_t"@[0] == 'i' && "float"@[0] == 'f');
    assert("uint8_t"@[4] == '8' && "uint16_t"@[4] == '1' && "uint32_t"@[4] == '3');
    assert("int8_t"@[3] == '8' && "int16_t"@[3] == '1' && "int32_t"@[3] == '3');
    assert("uint16_t"@[0] == 'u' && "uint32_t"@[0] == 'u' && "int16_t"@[0] == 'i' && "int32_t"@[0]
        == 'i');
}

/// A quantity above the vapour pressure is a liquid and below it a vapour, outside the zone that
/// counts as being on the curve; and past either end of the curve there is neither.
pub proof fn above_the_curve_is_liquid(t: int, margin: Double, limit: Double)
    requires
        !margin.nan(),
        !limit.nan(),
    ensures
        ({
            let phase = phase_spec(t, Some((margin, limit)));
            let zero = Double { bits: 0 };
            &&& t < 1_000_000 * TRIPLE_T ==> phase == Phase::BelowTriple
            &&& t > 1_000_000 * CRITICAL_T ==> phase == Phase::Supercritical
            &&& 1_000_000 * TRIPLE_T <= t <= 1_000_000 * CRITICAL_T ==> {
                &&& margin.magnitude() <= limit.rank_spec() ==> phase == Phase::Saturated
                &&& margin.magnitude() > limit.rank_spec() && zero.lt(margin) ==> phase
                    == Phase::Liquid
                &&& margin.magnitude() > limit.rank_spec() && margin.lt(zero) ==> phase
                    == Phase::Vapor
            }
        }),
{
}

proof fn lemma_stem(stem: Seq<char>, digits: Seq<char>)
    requires
        all_digits(digits),
        stem.len() > 0 ==> !is_digit(stem[stem.len() - 1]),
    ensures
        stem_len(stem + digits) == stem.len(),
        number(digits) == read_digits(digits),
        read_digits(digits) >= 0,
    decreases digits.len(),
{
    let all = stem + digits;
    if digits.len() > 0 {
        let front = digits.drop_last();
        assert forall|i: int| 0 <= i < front.len() implies is_digit(#[trigger] front[i]) by {
            assert(front[i] == digits[i]);
        }
        lemma_stem(stem, front);
        assert(all.drop_last() =~= stem + front);
        assert(all.last() == digits[digits.len() - 1]);
        assert(is_digit(digits[digits.len() - 1]));
    } else {
        assert(all =~= stem);
    }
}

/// A numbered name is taken apart into what stands in front of the number, and the number.
pub proof fn a_numbered_name_is_taken_apart(stem: Seq<char>, n: u32)
    requires
        stem.len() > 0,
        !is_digit(stem[stem.len() - 1]),
    ensures
        indexed_spec(stem + dec(n as nat)) == Some((stem, n as nat)),
{
    let digits = dec(n as nat);
    a_number_reads_back(n as nat);
    lemma_stem(stem, digits);
    let all = stem + digits;
    assert(all.skip(stem.len() as int) =~= digits);
    assert(all.take(stem.len() as int) =~= stem);
}

/// What fills a height of a tank is a member of the row with that number, and a height is empty
/// only where no member has its number.
pub proof fn a_height_is_filled_by_its_number(
    members: Seq<(u32, Seq<char>)>,
    index: int,
    n: nat,
)
    requires
        n <= members.len(),
    ensures
        match last_numbered(members, index, n) {
            Some(name) => exists|i: int|
                0 <= i < n && (#[trigger] members[i]).0 == index && members[i].1 == name,
            None => forall|i: int| 0 <= i < n ==> (#[trigger] members[i]).0 != index,
        },
    decreases n,
{
    if n > 0 && members[n - 1].0 != index {
        a_height_is_filled_by_its_number(members, index, (n - 1) as nat);
    } else if n > 0 {
        assert(members[n - 1].0 == index);
    }
}

/// A declared unit counts for more than a name: a series that declares the quantity is preferred
/// to one that is only named like it, and one of both to either.
pub proof fn a_unit_counts_for_more_than_a_name(a: TimeSeries, b: TimeSeries, temperature: bool)
    requires
        ({
            let declared = |s: TimeSeries|
                if temperature {
                    TempUnit::declared(opt_view(s.unit)) is Some
                } else {
                    PressureUnit::declared(opt_view(s.unit)) is Some
                };
            declared(a) && !declared(b)
        }),
    ensures
        score_spec(a, temperature) > score_spec(b, temperature),
        score_spec(a, temperature) > 0,
        holds(
            lowercased(b.name@),
            if temperature {
                "temp"@
            } else {
                "press"@
            },
        ) <==> score_spec(b, temperature) > 0,
{
}

/// Of the sensors of a tank too: a declared temperature is preferred to a name, a name to nothing
/// declared, and anything declared to be something else is never one.
pub proof fn a_declared_temperature_is_preferred(a: TimeSeries, b: TimeSeries)
    requires
        sensor_score_spec(a) > 0,
        TempUnit::declared(opt_view(a.unit)) is Some,
        TempUnit::declared(opt_view(b.unit)) is None,
    ensures
        sensor_score_spec(a) > sensor_score_spec(b),
{
}

/// An attribute is found by its name, and the first of a name is the one found.
pub proof fn an_attribute_is_found_by_its_name(
    attrs: Seq<(Seq<char>, Seq<char>)>,
    key: Seq<char>,
    from: int,
)
    requires
        0 <= from <= attrs.len(),
    ensures
        match attr_from(attrs, key, from) {
            Some(value) => exists|i: int|
                {
                    &&& from <= i < attrs.len()
                    &&& #[trigger] attrs[i] == (key, value)
                    &&& forall|k: int| from <= k < i ==> (#[trigger] attrs[k]).0 != key
                },
            None => forall|k: int| from <= k < attrs.len() ==> (#[trigger] attrs[k]).0 != key,
        },
    decreases attrs.len() - from,
{
    if from < attrs.len() {
        if attrs[from].0 == key {
            assert(attrs[from] == (key, attrs[from].1));
        } else {
            an_attribute_is_found_by_its_name(attrs, key, from + 1);
            if let Some(value) = attr_from(attrs, key, from + 1) {
                let i = choose|i: int|
                    {
                        &&& from + 1 <= i < attrs.len()
                        &&& #[trigger] attrs[i] == (key, value)
                        &&& forall|k: int| from + 1 <= k < i ==> (#[trigger] attrs[k]).0 != key
                    };
                assert(attrs[i] == (key, value));
            }
        }
    }
}

proof fn lemma_tags()
    ensures
        "field"@ != "message"@ && "field"@ != "enum"@ && "field"@ != "entry"@,
        "entry"@ != "message"@ && "entry"@ != "enum"@,
        "message"@ != "enum"@,
{
    reveal_strlit("entry");
    reveal_strlit("message");
    reveal_strlit("enum");
    reveal_strlit("field");
    assert("entry"@.len() == 5 && "message"@.len() == 7 && "enum"@.len() == 4);
    assert("field"@.len() == 5);
    assert("entry"@[0] == 'e' && "field"@[0] == 'f');
}

proof fn lemma_message_from(
    messages: Seq<(Seq<char>, Seq<FieldState>)>,
    name: Seq<char>,
    from: int,
)
    requires
        0 <= from <= messages.len(),
    ensures
        match message_from(messages, name, from) {
            Some(i) => from <= i < messages.len() && messages[i].0 == name && forall|k: int|
                from <= k < i ==> (#[trigger] messages[k]).0 != name,
            None => forall|k: int| from <= k < messages.len() ==> (#[trigger] messages[k]).0 != name,
        },
    decreases messages.len() - from,
{
    if from < messages.len() && messages[from].0 != name {
        lemma_message_from(messages, name, from + 1);
    }
}

/// A field's tag inside of a message puts one more field behind the others of that message: of
/// the name, the type, the unit and the enum that the tag gives, and an instance where it says
/// so. A field called `type` goes by the name that its values come under. The other messages and
/// the enums are as they were.
pub proof fn a_field_is_declared_by_its_tag(
    state: DialectState,
    attrs: Seq<(Seq<char>, Seq<char>)>,
    at: int,
    name: Seq<char>,
    ty: Seq<char>,
)
    requires
        0 <= at < state.messages.len(),
        state.message == Some(state.messages[at].0),
        forall|k: int| 0 <= k < at ==> (#[trigger] state.messages[k]).0 != state.messages[at].0,
        attr_spec(attrs, "name"@) == Some(name),
        attr_spec(attrs, "type"@) == Some(ty),
    ensures
        ({
            let after = state.opened("field"@, attrs);
            let fields = after.messages[at].1;
            let new = fields[fields.len() - 1];
            &&& after.messages.len() == state.messages.len()
            &&& after.messages[at].0 == state.messages[at].0
            &&& fields.drop_last() == state.messages[at].1
            &&& new.name == if name == "type"@ {
                "mavtype"@
            } else {
                name
            }
            &&& new.ty == ty
            &&& new.units == attr_spec(attrs, "units"@)
            &&& new.enum_name == attr_spec(attrs, "enum"@)
            &&& new.is_instance <==> attr_spec(attrs, "instance"@) == Some("true"@)
            &&& attr_spec(attrs, "invalid"@) is None ==> new.invalid is None
            &&& forall|k: int|
                0 <= k < state.messages.len() && k != at ==> #[trigger] after.messages[k]
                    == state.messages[k]
            &&& after.entries == state.entries
            &&& after.message == state.message
            &&& after.enum_name == state.enum_name
        }),
{
    lemma_tags();
    lemma_message_from(state.messages, state.messages[at].0, 0);
    assert(message_from(state.messages, state.messages[at].0, 0) == Some(at));
    let after = state.opened("field"@, attrs);
    assert(after.messages[at].1.drop_last() =~= state.messages[at].1);
}

/// A message's tag declares the message, without a field, unless there is one of its name; and
/// its fields are those of the tags up to its end.
pub proof fn a_message_is_declared_by_its_tag(
    state: DialectState,
    attrs: Seq<(Seq<char>, Seq<char>)>,
    name: Seq<char>,
)
    requires
        attr_spec(attrs, "name"@) == Some(name),
    ensures
        ({
            let after = state.opened("message"@, attrs);
            let n = state.messages.len() as int;
            &&& after.message == Some(name)
            &&& after.messages.take(n) == state.messages
            &&& if exists|k: int| 0 <= k < n && (#[trigger] state.messages[k]).0 == name {
                after.messages.len() == n
            } else {
                after.messages.len() == n + 1 && after.messages[n].0 == name
                    && after.messages[n].1.len() == 0
            }
            &&& after.entries == state.entries
            &&& after.closed("message"@).message is None
            &&& after.closed("message"@).messages == after.messages
        }),
{
    lemma_tags();
    lemma_message_from(state.messages, name, 0);
    let after = state.opened("message"@, attrs);
    assert(after.messages.take(state.messages.len() as int) =~= state.messages);
}

/// An entry's tag inside of an enum declares an entry of that enum, worth the number that the tag
/// gives; the others are kept.
pub proof fn an_entry_is_declared_by_its_tag(
    state: DialectState,
    attrs: Seq<(Seq<char>, Seq<char>)>,
    enum_name: Seq<char>,
    name: Seq<char>,
    raw: Seq<char>,
    value: i64,
)
    requires
        state.enum_name == Some(enum_name),
        attr_spec(attrs, "name"@) == Some(name),
        attr_spec(attrs, "value"@) == Some(raw),
        enum_number(raw) == Some(value),
    ensures
        ({
            let after = state.opened("entry"@, attrs);
            &&& after.messages == state.messages
            &&& exists|at: int|
                {
                    &&& 0 <= at < after.entries.len()
                    &&& #[trigger] after.entries[at] == (enum_name, name, value)
                    &&& after.entries.remove(at) == state.entries
                }
        }),
{
    lemma_tags();
    lemma_place(state.entries, enum_name, state.entries.len());
    let at = entry_place(state.entries, enum_name, state.entries.len()) as int;
    let after = state.opened("entry"@, attrs);
    assert(after.entries[at] == (enum_name, name, value));
    assert(after.entries.remove(at) =~= state.entries);
}

proof fn lemma_place(entries: Seq<(Seq<char>, Seq<char>, i64)>, enum_name: Seq<char>, n: nat)
    ensures
        entry_place(entries, enum_name, n) <= n,
    decreases n,
{
    if n > 0 {
        lemma_place(entries, enum_name, (n - 1) as nat);
    }
}

proof fn lemma_decimal(n: nat)
    ensures
        digits_value(dec(n), 10) == Some(n as int),
    decreases n,
{
    let s = dec(n);
    if n < 10 {
        assert(s.drop_last() =~= Seq::empty());
        assert(digits_value(s.drop_last(), 10) == Some(0int));
    } else {
        lemma_decimal(n / 10);
        assert(s.drop_last() =~= dec(n / 10));
    }
}

proof fn lemma_hexadecimal(n: nat, width: nat)
    ensures
        digits_value(hex(n, width), 16) == Some(n as int),
    decreases n, width,
{
    let s = hex(n, width);
    if n < 16 && width <= 1 {
        assert(s.drop_last() =~= Seq::empty());
        assert(digits_value(s.drop_last(), 16) == Some(0int));
    } else {
        let less = if width == 0 {
            0
        } else {
            (width - 1) as nat
        };
        lemma_hexadecimal(n / 16, less);
        assert(s.drop_last() =~= hex(n / 16, less));
    }
}

/// A number of a dialect reads back: in decimal with and without a sign, and in hexadecimal.
pub proof fn a_declared_number_reads_back(n: nat, width: nat)
    ensures
        number_spec(dec(n), 10, true) == Some(n as int),
        number_spec(seq!['-'] + dec(n), 10, true) == Some(-(n as int)),
        number_spec(seq!['+'] + dec(n), 10, true) == Some(n as int),
        number_spec(hex(n, width), 16, true) == Some(n as int),
{
    lemma_decimal(n);
    lemma_hexadecimal(n, width);
    a_number_reads_back(n);
    a_hexadecimal_number_reads_back(n, width);
    assert((seq!['-'] + dec(n)).drop_first() =~= dec(n));
    assert((seq!['+'] + dec(n)).drop_first() =~= dec(n));
    assert(is_digit(dec(n)[0]));
    lemma_hex_digits(n, width);
}

proof fn lemma_hex_digits(n: nat, width: nat)
    ensures
        hex(n, width).len() > 0,
        hex(n, width)[0] != '-' && hex(n, width)[0] != '+',
    decreases n, width,
{
    if !(n < 16 && width <= 1) {
        let less = if width == 0 {
            0
        } else {
            (width - 1) as nat
        };
        lemma_hex_digits(n / 16, less);
    }
}

/// What is transported in hundredths is shown in the unit of the whole, with two decimals; angles
/// in ten-millionths of a degree with seven; and what is transported as it is, as it is.
pub proof fn a_transported_unit_is_shown_whole(f: FieldMeta, whole: Seq<char>)
    requires
        f.units is Some,
    ensures
        f.units.unwrap()@ == seq!['c'] + whole && (whole == "deg"@ || whole == "A"@ || whole
            == "%"@) ==> f.unit_scale_spec() == (Some(whole), 2nat),
        f.units.unwrap()@ == "cdegC"@ ==> f.unit_scale_spec() == (Some("°C"@), 2nat),
        f.units.unwrap()@ == "degE7"@ ==> f.unit_scale_spec() == (Some("deg"@), 7nat),
        f.units.unwrap()@ == whole && whole.len() > 0 && whole[0] != 'c' && whole != "degE7"@
            ==> f.unit_scale_spec() == (Some(whole), 0nat),
{
    reveal_strlit("cdegC");
    reveal_strlit("cdeg");
    reveal_strlit("cA");
    reveal_strlit("c%");
    reveal_strlit("degE7");
    reveal_strlit("deg");
    reveal_strlit("A");
    reveal_strlit("%");
    assert("cdegC"@.len() == 5 && "degE7"@.len() == 5 && "cdegC"@[0] == 'c');
    assert("degE7"@[0] == 'd');
    assert("cdeg"@ =~= seq!['c'] + "deg"@);
    assert("cA"@ =~= seq!['c'] + "A"@);
    assert("c%"@ =~= seq!['c'] + "%"@);
    assert("cdeg"@.len() == 4 && "cA"@.len() == 2 && "c%"@.len() == 2);
    assert("cA"@[1] == 'A' && "c%"@[1] == '%');
    assert("cdeg"@[0] == 'c' && "cA"@[0] == 'c' && "c%"@[0] == 'c');
}

/// The three scales of temperature meet: what is so many degrees Celsius is nine fifths of them
/// above 32 degrees Fahrenheit, and 273.15 more kelvin.
pub proof fn the_temperature_scales_meet(x: int, parts: int)
    ensures
        TempUnit::Fahrenheit.kelvin(9 * x + 160 * parts, 5 * parts) == TempUnit::Celsius.kelvin(
            5 * x,
            5 * parts,
        ),
        TempUnit::Kelvin.kelvin(100 * x + 27315 * parts, 100 * parts) == TempUnit::Celsius.kelvin(
            100 * x,
            100 * parts,
        ),
        TempUnit::Kelvin.kelvin(x, parts) == 1800 * x,
{
    lemma_kelvin(TempUnit::Kelvin, 100 * x + 27315 * parts, 100 * parts);
    lemma_kelvin(TempUnit::Kelvin, x, parts);
    lemma_kelvin(TempUnit::Celsius, 100 * x, 100 * parts);
    lemma_kelvin(TempUnit::Celsius, 5 * x, 5 * parts);
    lemma_kelvin(TempUnit::Fahrenheit, 9 * x + 160 * parts, 5 * parts);
}

proof fn lemma_kelvin(unit: TempUnit, reading: int, parts: int)
    ensures
        unit.kelvin(reading, parts) == match unit {
            TempUnit::Celsius => 1800 * reading + 491670 * parts,
            TempUnit::Kelvin => 1800 * reading,
            TempUnit::Fahrenheit => 1000 * reading - 32000 * parts + 491670 * parts,
        },
{
    let (zero, per, above) = unit.scale_spec();
    let d = 180int / per;
    assert(d == 18 || d == 10);
    assert((100 * reading - zero * parts) * d + 18 * above * parts == 100 * d * reading - zero * d
        * parts + 18 * above * parts) by (nonlinear_arith);
}

} // verus!
