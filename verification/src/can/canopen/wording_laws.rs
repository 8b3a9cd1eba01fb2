//! What the wording of a value, a bit set or an address says of what it was made from.
use vstd::prelude::*;

use crate::can::canopen::dictionary::{
    bits_text, describe_object_spec, object_spec, Format, ObjectDef,
};
use crate::can::canopen::sdo::Transfer;
use crate::text::{dec, dec_int, hex};
use crate::text_laws::{
    a_hexadecimal_number_reads_back, a_number_reads_back, a_separator_parts,
    a_signed_number_reads_back, lacks, nothing_parts, parts, read_digits, read_hex, read_number,
};

verus! {

broadcast use vstd::seq_lib::group_seq_properties;

/// Whether a bit of a value is set.
pub open spec fn is_set(raw: i64, k: nat) -> bool {
    (raw >> (k as u32)) & 1 == 1
}

/// Whether an entry of a list separated by commas names a bit: its number, and behind the first
/// one a blank in front of it.
pub open spec fn names_bit(entry: Seq<char>, j: int, k: nat) -> bool {
    if j == 0 {
        read_digits(entry) == k
    } else {
        entry.len() > 0 && entry[0] == ' ' && read_digits(entry.skip(1)) == k
    }
}

proof fn lemma_comma()
    ensures
        ", "@ == seq![',', ' '],
{
    reveal_strlit(", ");
    assert(", "@ =~= seq![',', ' ']);
}

/// The text of a bit set names the bits that are set, and no others: one that is set is an entry
/// of the list, and nothing is written where none is.
pub proof fn a_set_bit_is_named(raw: i64, n: nat, k: nat)
    requires
        k < n,
        is_set(raw, k),
    ensures
        bits_text(raw, n).len() > 0,
        exists|j: int|
            0 <= j < parts(bits_text(raw, n), ',').len() && names_bit(
                #[trigger] parts(bits_text(raw, n), ',')[j],
                j,
                k,
            ),
    decreases n,
{
    lemma_comma();
    let last = (n - 1) as nat;
    let before = bits_text(raw, last);
    let all = bits_text(raw, n);
    a_number_reads_back(last);
    if k < last {
        a_set_bit_is_named(raw, last, k);
        let j = choose|j: int|
            0 <= j < parts(before, ',').len() && names_bit(#[trigger] parts(before, ',')[j], j, k);
        if is_set(raw, last) {
            lemma_next(before, last);
            assert(parts(all, ',')[j] == parts(before, ',')[j]);
        }
    } else if before.len() == 0 {
        nothing_parts(all, ',');
        assert(names_bit(parts(all, ',')[0], 0, k));
    } else {
        lemma_next(before, last);
        let j = parts(before, ',').len() as int;
        assert(parts(all, ',')[j].skip(1) =~= dec(last));
        assert(j > 0);
        assert(names_bit(parts(all, ',')[j], j, k));
    }
}

proof fn lemma_next(before: Seq<char>, last: nat)
    ensures
        parts(before, ',').len() > 0,
        parts(before + ", "@ + dec(last), ',') == parts(before, ',').push(
            seq![' '] + dec(last),
        ),
{
    lemma_comma();
    a_number_reads_back(last);
    let entry = seq![' '] + dec(last);
    assert(lacks(entry, ','));
    assert(before + ", "@ + dec(last) =~= before.push(',') + entry);
    a_separator_parts(before, ',', entry);
    lemma_some_part(before);
}

proof fn lemma_some_part(s: Seq<char>)
    ensures
        parts(s, ',').len() > 0,
    decreases s.len(),
{
    if s.len() > 0 {
        lemma_some_part(s.drop_last());
    }
}

/// Every entry of the text of a bit set names a bit that is set.
pub proof fn a_named_bit_is_set(raw: i64, n: nat, j: int)
    requires
        bits_text(raw, n).len() > 0,
        0 <= j < parts(bits_text(raw, n), ',').len(),
    ensures
        exists|k: nat|
            k < n && #[trigger] is_set(raw, k) && names_bit(
                parts(bits_text(raw, n), ',')[j],
                j,
                k,
            ),
    decreases n,
{
    lemma_comma();
    let last = (n - 1) as nat;
    let before = bits_text(raw, last);
    let all = bits_text(raw, n);
    a_number_reads_back(last);
    if !is_set(raw, last) {
        a_named_bit_is_set(raw, last, j);
    } else if before.len() == 0 {
        nothing_parts(all, ',');
        assert(is_set(raw, last) && names_bit(parts(all, ',')[0], 0, last));
    } else {
        lemma_next(before, last);
        if j < parts(before, ',').len() {
            a_named_bit_is_set(raw, last, j);
            assert(parts(all, ',')[j] == parts(before, ',')[j]);
        } else {
            assert(parts(all, ',')[j].skip(1) =~= dec(last));
            assert(is_set(raw, last) && names_bit(parts(all, ',')[j], j, last));
        }
    }
}

/// Whether a text is a number with something behind it.
pub open spec fn says_number(text: Seq<char>, number: Seq<char>, n: int, rest: Seq<char>) -> bool {
    text == number + rest && read_number(number, 0) == n
}

/// A value is worded with its own number: alone, or with its unit, its name or a remark behind
/// it.
pub proof fn a_value_is_worded_with_its_number(def: ObjectDef, raw: i64)
    requires
        match def.format {
            Format::Plain => true,
            Format::Enum(_) => true,
            Format::IndexOrNone => raw != 0xFF,
            Format::Reading(invalid) => raw != invalid,
            _ => false,
        },
    ensures
        exists|number: Seq<char>, rest: Seq<char>|
            {
                &&& #[trigger] says_number(def.format_value_spec(raw), number, raw as int, rest)
                &&& match def.format {
                    Format::Enum(labels) => rest == if 0 <= raw < labels.names().len() {
                        " "@ + labels.names()[raw as int]@
                    } else {
                        " (unknown code)"@
                    },
                    Format::IndexOrNone => rest.len() == 0,
                    _ => if def.unit@.len() == 0 {
                        rest.len() == 0
                    } else {
                        rest == " "@ + def.unit@
                    },
                }
            },
{
    let text = def.format_value_spec(raw);
    let number = dec_int(raw as int);
    a_signed_number_reads_back(raw as int, 0);
    let rest = text.skip(number.len() as int);
    assert(text =~= number + rest);
    match def.format {
        Format::Enum(labels) => {
            if 0 <= raw < labels.names().len() {
                assert(rest =~= " "@ + labels.names()[raw as int]@);
            } else {
                assert(rest =~= " (unknown code)"@);
            }
        },
        Format::IndexOrNone => {},
        _ => {
            if def.unit@.len() > 0 {
                assert(rest =~= " "@ + def.unit@);
            }
        },
    }
    assert(says_number(text, number, raw as int, rest));
}

/// What is not there is not worded as a number: an index of none, and a reading that was not
/// made.
pub proof fn what_is_not_there_is_said_to_be_missing(def: ObjectDef, raw: i64)
    ensures
        def.format == Format::IndexOrNone && raw == 0xFF ==> def.format_value_spec(raw) == "none"@,
        (def.format matches Format::Reading(invalid) && raw == invalid) ==> def.format_value_spec(
            raw,
        ) == "no reading"@,
        def.format == Format::Bits && (forall|k: nat|
            k < 8 * def.ty.width_spec() ==> !(#[trigger] is_set(raw, k)))
            ==> def.format_value_spec(raw) == "none set"@,
{
    if def.format == Format::Bits && (forall|k: nat|
        k < 8 * def.ty.width_spec() ==> !(#[trigger] is_set(raw, k))) {
        lemma_none_set(raw, 8 * def.ty.width_spec());
    }
}

proof fn lemma_none_set(raw: i64, n: nat)
    requires
        forall|k: nat| k < n ==> !(#[trigger] is_set(raw, k)),
    ensures
        bits_text(raw, n).len() == 0,
    decreases n,
{
    if n > 0 {
        assert(!is_set(raw, (n - 1) as nat));
        lemma_none_set(raw, (n - 1) as nat);
    }
}

/// A position word is worded as the promille in its low fifteen bits, and as released where the
/// bit above them is set.
pub proof fn a_position_is_worded_without_its_flag(def: ObjectDef, raw: i64)
    requires
        def.format == Format::Position,
    ensures
        exists|number: Seq<char>, rest: Seq<char>|
            {
                &&& #[trigger] says_number(
                    def.format_value_spec(raw),
                    number,
                    (raw & 0x7FFF) as int,
                    rest,
                )
                &&& rest == if is_set(raw, 15) {
                    " ‰, released"@
                } else {
                    " ‰"@
                }
            },
{
    let text = def.format_value_spec(raw);
    assert(raw & 0x7FFF == raw % 0x8000) by (bit_vector);
    assert(raw % 0x1_0000 >= 0x8000 <==> (raw >> 15u32) & 1 == 1) by (bit_vector);
    let p = raw as int % 0x8000;
    let number = dec(p as nat);
    a_signed_number_reads_back(p, 0);
    assert(dec_int(p) == number);
    let rest = text.skip(number.len() as int);
    reveal_strlit(" ‰");
    reveal_strlit(", released");
    reveal_strlit(" ‰, released");
    assert(" ‰"@ + ", released"@ =~= " ‰, released"@);
    assert(text =~= number + rest);
    if is_set(raw, 15) {
        assert(rest =~= " ‰, released"@);
    } else {
        assert(rest =~= " ‰"@);
    }
    assert(says_number(text, number, (raw & 0x7FFF) as int, rest));
}

/// Whether a text says an address: an index in hexadecimal and a sub-index in decimal.
pub open spec fn says_address(
    text: Seq<char>,
    index: Seq<char>,
    sub: Seq<char>,
    rest: Seq<char>,
) -> bool {
    text == "0x"@ + index + "."@ + sub + rest
}

/// A description begins with the address it is of, and goes on with the name that the dictionary
/// has for the index.
pub proof fn a_description_begins_with_its_address(index: u16, sub: u8)
    ensures
        exists|i: Seq<char>, s: Seq<char>, rest: Seq<char>|
            {
                &&& #[trigger] says_address(describe_object_spec(index, sub), i, s, rest)
                &&& read_hex(i) == index
                &&& read_digits(s) == sub
                &&& match object_spec(index) {
                    Some(def) => {
                        let named = " "@ + def.name@;
                        rest.len() >= named.len() && rest.take(named.len() as int) == named
                    },
                    None => rest == " unknown object"@,
                }
            },
{
    let text = describe_object_spec(index, sub);
    let i = hex(index as nat, 4);
    let s = dec(sub as nat);
    a_hexadecimal_number_reads_back(index as nat, 4);
    a_number_reads_back(sub as nat);
    let address = "0x"@ + i + "."@ + s;
    let rest = text.skip(address.len() as int);
    match object_spec(index) {
        Some(def) => {
            let named = " "@ + def.name@;
            assert(address + " "@ + def.name@ =~= address + named);
            assert(rest.take(named.len() as int) =~= named);
        },
        None => {
            assert(rest =~= " unknown object"@);
        },
    }
    assert(text =~= address + rest);
    assert(says_address(text, i, s, rest));
}

/// Whether a text is a number in decimal and the same in hexadecimal.
pub open spec fn says_twice(text: Seq<char>, number: Seq<char>, again: Seq<char>) -> bool {
    text == number + " (0x"@ + again + ")"@
}

/// A value of an object that the dictionary does not know is worded as a number, in decimal and
/// in hexadecimal.
pub proof fn an_unknown_value_is_worded_twice(t: Transfer)
    requires
        t.kind is WriteRequest || t.kind is ReadResponse,
        object_spec(t.index) is None,
        t.value_spec() is Some,
        t.value_spec().unwrap() >= 0,
    ensures
        exists|number: Seq<char>, again: Seq<char>|
            {
                &&& #[trigger] says_twice(t.detail_spec(), number, again)
                &&& read_number(number, 0) == t.value_spec().unwrap()
                &&& read_hex(again) == t.value_spec().unwrap()
            },
{
    let v = t.value_spec().unwrap();
    a_signed_number_reads_back(v, 0);
    a_hexadecimal_number_reads_back(v as nat, 1);
    assert(says_twice(t.detail_spec(), dec_int(v), hex(v as nat, 1)));
}

/// An abort is worded with its code.
pub proof fn an_abort_is_worded_with_its_code(t: Transfer)
    requires
        t.kind is Abort,
    ensures
        ({
            let code = t.kind->Abort_0;
            exists|digits: Seq<char>, rest: Seq<char>|
                {
                    &&& #[trigger] ("0x"@ + digits + rest) == t.detail_spec()
                    &&& read_hex(digits) == code
                }
        }),
{
    let code = t.kind->Abort_0;
    let digits = hex(code as nat, 8);
    a_hexadecimal_number_reads_back(code as nat, 8);
    let rest = t.detail_spec().skip(2int + digits.len());
    reveal_strlit("0x");
    assert("0x"@ + digits + rest =~= t.detail_spec());
}

} // verus!
