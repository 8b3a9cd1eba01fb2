//! What the bytes of a message's payload hold, and where.
use vstd::prelude::*;

use crate::dialect::{digits_value, enum_number};
use crate::text::{dec, first_of, has_prefix, trimmed};
use crate::text_laws::{
    a_number_reads_back, all_digits, is_digit, lacks, read_digits,
};
use crate::wire::{
    byte_at, bytes_of, checksum_bits, checksum_spec, declared_spec, extensions, extra_spec,
    field_text, fields_text, last_under, lemma_extensions, lemma_of_width, number_at, numbers,
    of_width, scalar_spec, start, until_zero, wire_order, FieldLayout, Layout, Scalar, WireType,
};

verus! {

broadcast use vstd::seq_lib::group_seq_properties;

proof fn lemma_of_width_rises(fields: Seq<FieldLayout>, width: int, n: nat, i: int, j: int)
    requires
        n <= fields.len() <= usize::MAX,
        0 <= i < j < of_width(fields, width, n).len(),
    ensures
        of_width(fields, width, n)[i] < of_width(fields, width, n)[j],
    decreases n,
{
    if n > 0 {
        let front = of_width(fields, width, (n - 1) as nat);
        if j < front.len() {
            lemma_of_width_rises(fields, width, (n - 1) as nat, i, j);
        } else {
            lemma_of_width(fields, width, (n - 1) as nat, i);
        }
    }
}

proof fn lemma_extensions_rise(fields: Seq<FieldLayout>, n: nat, i: int, j: int)
    requires
        n <= fields.len() <= usize::MAX,
        0 <= i < j < extensions(fields, n).len(),
    ensures
        extensions(fields, n)[i] < extensions(fields, n)[j],
    decreases n,
{
    if n > 0 {
        let front = extensions(fields, (n - 1) as nat);
        if j < front.len() {
            lemma_extensions_rise(fields, (n - 1) as nat, i, j);
        } else {
            lemma_extensions(fields, (n - 1) as nat, i);
        }
    }
}

/// Wide values come before narrow ones on the wire, so that each is aligned; those of one width
/// stay in the order of the definition. Extensions come behind everything else, as they were
/// defined, so that a reader that knows of none finds the rest where it was.
pub proof fn the_widest_come_first(fields: Seq<FieldLayout>, k: int, l: int)
    requires
        fields.len() <= usize::MAX,
        0 <= k < l < wire_order(fields, fields.len()).len(),
    ensures
        ({
            let order = wire_order(fields, fields.len());
            let (a, b) = (fields[order[k] as int], fields[order[l] as int]);
            &&& a.extension ==> b.extension && order[k] < order[l]
            &&& !a.extension && !b.extension ==> a.ty().size() > b.ty().size() || (a.ty().size()
                == b.ty().size() && order[k] < order[l])
        }),
{
    let n = fields.len();
    let (a, b, c, d, e) = (
        of_width(fields, 8, n),
        of_width(fields, 4, n),
        of_width(fields, 2, n),
        of_width(fields, 1, n),
        extensions(fields, n),
    );
    let (i, j) = (a.len() as int, a.len() + b.len() as int);
    let (x, y) = (j + c.len(), j + c.len() + d.len());
    lemma_place(fields, k);
    lemma_place(fields, l);
    if l < i {
        lemma_of_width_rises(fields, 8, n, k, l);
    } else if i <= k && l < j {
        lemma_of_width_rises(fields, 4, n, k - i, l - i);
    } else if j <= k && l < x {
        lemma_of_width_rises(fields, 2, n, k - j, l - j);
    } else if x <= k && l < y {
        lemma_of_width_rises(fields, 1, n, k - x, l - x);
    } else if y <= k {
        lemma_extensions_rise(fields, n, k - y, l - y);
    }
}

proof fn lemma_place(fields: Seq<FieldLayout>, k: int)
    requires
        fields.len() <= usize::MAX,
        0 <= k < wire_order(fields, fields.len()).len(),
    ensures
        ({
            let n = fields.len();
            let (i, j) = (of_width(fields, 8, n).len() as int, of_width(fields, 8, n).len()
                + of_width(fields, 4, n).len() as int);
            let x = j + of_width(fields, 2, n).len();
            let y = x + of_width(fields, 1, n).len();
            let order = wire_order(fields, n);
            let f = fields[order[k] as int];
            &&& k < i ==> order[k] == of_width(fields, 8, n)[k] && !f.extension && f.ty().size()
                == 8
            &&& i <= k < j ==> order[k] == of_width(fields, 4, n)[k - i] && !f.extension
                && f.ty().size() == 4
            &&& j <= k < x ==> order[k] == of_width(fields, 2, n)[k - j] && !f.extension
                && f.ty().size() == 2
            &&& x <= k < y ==> order[k] == of_width(fields, 1, n)[k - x] && !f.extension
                && f.ty().size() == 1
            &&& y <= k ==> order[k] == extensions(fields, n)[k - y] && f.extension
        }),
{
    let n = fields.len();
    let (i, j) = (of_width(fields, 8, n).len() as int, of_width(fields, 8, n).len() + of_width(
        fields,
        4,
        n,
    ).len() as int);
    let x = j + of_width(fields, 2, n).len();
    let y = x + of_width(fields, 1, n).len();
    if k < i {
        lemma_of_width(fields, 8, n, k);
    } else if k < j {
        lemma_of_width(fields, 4, n, k - i);
    } else if k < x {
        lemma_of_width(fields, 2, n, k - j);
    } else if k < y {
        lemma_of_width(fields, 1, n, k - x);
    } else {
        lemma_extensions(fields, n, k - y);
    }
}

/// Fields lie behind each other in a payload: each begins at or behind the end of every one
/// before it, the first at its start.
pub proof fn fields_do_not_overlap(fields: Seq<FieldLayout>, order: Seq<usize>, i: nat, j: nat)
    requires
        i < j,
    ensures
        start(fields, order, 0) == 0,
        start(fields, order, i) + fields[order[i as int] as int].extent() <= start(
            fields,
            order,
            j,
        ),
        j == i + 1 ==> start(fields, order, i) + fields[order[i as int] as int].extent() == start(
            fields,
            order,
            j,
        ),
    decreases j - i,
{
    if j > i + 1 {
        fields_do_not_overlap(fields, order, i, (j - 1) as nat);
        let f = fields[order[j - 1] as int];
        assert(f.ty().size() >= 0);
        if let Some(n) = f.len {
            assert(f.ty().size() * n >= 0) by (nonlinear_arith)
                requires
                    f.ty().size() >= 0,
                    n >= 0,
            ;
        }
    }
}

/// The byte at a place of a payload, or zero behind its end.
pub open spec fn byte_or_zero(payload: Seq<u8>, at: int) -> int {
    if at < payload.len() {
        payload[at] as int
    } else {
        0
    }
}

/// A value off the wire is the number in its bytes, low byte first: itself where it is unsigned or
/// a character, the one congruent to it around zero where it is signed, its bits where it is a
/// fraction. Bytes that were cut off are zeros.
pub proof fn a_scalar_is_its_bytes(ty: WireType, payload: Seq<u8>, at: int)
    requires
        ty.wf(),
        0 <= at,
    ensures
        ({
            let b = |i: int| byte_or_zero(payload, at + i);
            let two = b(0) + 256 * b(1);
            let four = two + 0x1_0000 * (b(2) + 256 * b(3));
            let eight = four + 0x1_0000_0000 * (b(4) + 256 * (b(5) + 256 * (b(6) + 256 * b(7))));
            let n = if ty.size() == 1 {
                b(0)
            } else if ty.size() == 2 {
                two
            } else if ty.size() == 4 {
                four
            } else {
                eight
            };
            let all: int = if ty.size() == 1 {
                0x100
            } else if ty.size() == 2 {
                0x1_0000
            } else if ty.size() == 4 {
                0x1_0000_0000
            } else {
                0x1_0000_0000_0000_0000
            };
            match (ty, scalar_spec(ty, payload, at)) {
                (WireType::Unsigned(_), Scalar::Unsigned(v)) => v == n,
                (WireType::Char, Scalar::Unsigned(v)) => v == n,
                (WireType::Signed(_), Scalar::Signed(v)) => -all <= 2 * v < all && (v == n || v == n
                    - all),
                (WireType::Float(4), Scalar::Single(bits)) => bits == n,
                (WireType::Float(8), Scalar::Double(bits)) => bits == n,
                _ => false,
            }
        }),
{
    reveal_with_fuel(number_at, 9);
    reveal_with_fuel(numbers, 9);
}

/// A text off the wire is the bytes in front of the first zero, or all that it has room for.
pub proof fn a_text_ends_at_its_first_zero(payload: Seq<u8>, at: int, most: nat)
    requires
        0 <= at,
    ensures
        ({
            let text = until_zero(payload, at, most);
            &&& text.len() <= most
            &&& forall|i: int|
                0 <= i < text.len() ==> #[trigger] text[i] != 0 && text[i] == byte_or_zero(
                    payload,
                    at + i,
                )
            &&& text.len() < most ==> byte_or_zero(payload, at + text.len()) == 0
        }),
    decreases most,
{
    if most > 0 && byte_at(payload, at) != 0 {
        a_text_ends_at_its_first_zero(payload, at + 1, (most - 1) as nat);
        let text = until_zero(payload, at, most);
        let rest = until_zero(payload, at + 1, (most - 1) as nat);
        assert forall|i: int| 0 <= i < text.len() implies #[trigger] text[i] != 0 && text[i]
            == byte_or_zero(payload, at + i) by {
            if i > 0 {
                assert(text[i] == rest[i - 1]);
            }
        }
    }
}

proof fn lemma_digits(s: Seq<char>)
    requires
        all_digits(s),
    ensures
        digits_value(s, 10) == Some(read_digits(s)),
    decreases s.len(),
{
    if s.len() > 0 {
        let front = s.drop_last();
        assert forall|i: int| 0 <= i < front.len() implies is_digit(#[trigger] front[i]) by {
            assert(front[i] == s[i]);
        }
        lemma_digits(front);
        assert(is_digit(s[s.len() - 1]));
        assert(s.last() == s[s.len() - 1]);
    }
}

proof fn lemma_not_trimmed(s: Seq<char>)
    requires
        s.len() > 0,
        is_digit(s[0]) || s[0] == '-',
        is_digit(s[s.len() - 1]),
    ensures
        trimmed(s) == s,
{
    assert(s.first() == s[0] && s.last() == s[s.len() - 1]);
}

/// A number that is written out in a definition is read as that number, with its sign.
pub proof fn a_written_value_is_read(n: i64)
    ensures
        enum_number(crate::text::dec_int(n as int)) == Some(n),
{
    let m = if n < 0 {
        -(n as int)
    } else {
        n as int
    };
    a_number_reads_back(m as nat);
    let digits = dec(m as nat);
    lemma_digits(digits);
    reveal_strlit("-");
    reveal_strlit("0x");
    reveal_strlit("0X");
    let s = crate::text::dec_int(n as int);
    assert("-"@ =~= seq!['-']);
    if n < 0 {
        assert(s =~= seq!['-'] + digits);
        assert(s.drop_first() =~= digits);
        assert(s[s.len() - 1] == digits[digits.len() - 1]);
    } else {
        assert(s == digits);
    }
    assert(is_digit(digits[0]) && is_digit(digits[digits.len() - 1]));
    lemma_not_trimmed(s);
    if has_prefix(s, "0x"@) {
        assert(s.take(2)[1] == s[1] && s.take(2)[0] == s[0]);
        if n >= 0 {
            assert(is_digit(digits[1]));
        }
    }
    if has_prefix(s, "0X"@) {
        assert(s.take(2)[1] == s[1] && s.take(2)[0] == s[0]);
        if n >= 0 {
            assert(is_digit(digits[1]));
        }
    }
}

proof fn lemma_first(s: Seq<char>, c: char, rest: Seq<char>)
    requires
        lacks(s, c),
    ensures
        first_of(s + seq![c] + rest, c) == s.len(),
    decreases s.len(),
{
    let all = s + seq![c] + rest;
    if s.len() > 0 {
        let tail = s.drop_first();
        assert forall|i: int| 0 <= i < tail.len() implies #[trigger] tail[i] != c by {
            assert(tail[i] == s[i + 1]);
        }
        lemma_first(tail, c, rest);
        assert(all.drop_first() =~= tail + seq![c] + rest);
        assert(s[0] != c);
    }
}

/// An array's type is taken apart into what its values are and how many there are of them.
pub proof fn an_array_is_taken_apart(base: Seq<char>, n: u8)
    requires
        lacks(base, '['),
        base != "uint8_t_mavlink_version"@,
    ensures
        declared_spec(base + "["@ + dec(n as nat) + "]"@) == (base, Some(n)),
{
    reveal_strlit("[");
    reveal_strlit("]");
    assert("["@ =~= seq!['[']);
    assert("]"@ =~= seq![']']);
    let digits = dec(n as nat);
    a_number_reads_back(n as nat);
    a_written_value_is_read(n as i64);
    let inner = digits + seq![']'];
    let ty = base + "["@ + digits + "]"@;
    assert(ty =~= base + seq!['['] + inner);
    lemma_first(base, '[', inner);
    assert(ty.take(base.len() as int) =~= base);
    assert(ty.skip(base.len() + 1int) =~= inner);
    assert(lacks(digits, ']')) by {
        assert forall|i: int| 0 <= i < digits.len() implies #[trigger] digits[i] != ']' by {
            assert(is_digit(digits[i]));
        }
    }
    lemma_first(digits, ']', Seq::empty());
    assert(inner =~= digits + seq![']'] + Seq::empty());
    assert(inner.take(digits.len() as int) =~= digits);
}

/// One bit folded into a checksum.
pub open spec fn folded(sum: u16) -> u16 {
    if sum & 1 != 0 {
        (sum >> 1) ^ 0x8408
    } else {
        sum >> 1
    }
}

/// A byte laid over a checksum is folded in at once: its low half is laid over its high half, and
/// that goes over the rest of the checksum three times, at different places.
pub proof fn a_byte_is_folded_in_at_once(sum: u16)
    ensures
        ({
            let low = (sum ^ (sum << 4)) & 0xFF;
            checksum_bits(sum, 8) == (sum >> 8) ^ (low << 8) ^ (low << 3) ^ (low >> 4)
        }),
{
    let one = folded(sum);
    let two = folded(one);
    let three = folded(two);
    let four = folded(three);
    let five = folded(four);
    let six = folded(five);
    let seven = folded(six);
    let eight = folded(seven);
    assert(checksum_bits(sum, 0) == sum);
    assert(checksum_bits(sum, 1) == one);
    assert(checksum_bits(sum, 2) == two);
    assert(checksum_bits(sum, 3) == three);
    assert(checksum_bits(sum, 4) == four);
    assert(checksum_bits(sum, 5) == five);
    assert(checksum_bits(sum, 6) == six);
    assert(checksum_bits(sum, 7) == seven);
    assert(checksum_bits(sum, 8) == eight);
    assert(folded(folded(folded(folded(folded(folded(folded(folded(sum)))))))) == (sum >> 8) ^ (((
    sum ^ (sum << 4)) & 0xFF) << 8) ^ (((sum ^ (sum << 4)) & 0xFF) << 3) ^ (((sum ^ (sum << 4))
        & 0xFF) >> 4)) by (bit_vector);
}

/// A checksum begins with all bits set, and every byte goes into it in its turn.
pub proof fn every_byte_is_summed(data: Seq<u8>, last: u8)
    ensures
        checksum_spec(Seq::empty(), 0) == 0xFFFF,
        checksum_spec(data.push(last), data.len() + 1) == checksum_bits(
            checksum_spec(data, data.len()) ^ (last as u16),
            8,
        ),
{
    lemma_sum_of_front(data, last, data.len());
}

proof fn lemma_sum_of_front(data: Seq<u8>, last: u8, n: nat)
    requires
        n <= data.len(),
    ensures
        checksum_spec(data.push(last), n) == checksum_spec(data, n),
    decreases n,
{
    if n > 0 {
        lemma_sum_of_front(data, last, (n - 1) as nat);
    }
}

/// The byte that stands for a layout has the bits in which the halves of its checksum differ.
pub proof fn the_extra_byte_is_where_the_halves_differ(crc: u16)
    ensures
        extra_spec(crc) ^ ((crc % 256) as u8) == (crc / 256) as u8,
{
    let (low, high) = ((crc % 256) as u8, (crc / 256) as u8);
    assert((low ^ high) ^ low == high) by (bit_vector);
}

/// The text of a layout's checksum is the message's name and a blank, and for each field in its
/// order on the wire its type and its name, with a blank behind each, and the length of an array.
/// An extension is not in it.
pub proof fn a_field_is_in_the_text_of_its_message(
    fields: Seq<FieldLayout>,
    order: Seq<usize>,
    next: usize,
)
    requires
        next < fields.len(),
    ensures
        ({
            let f = fields[next as int];
            let before = fields_text(fields, order, order.len());
            let after = fields_text(fields, order.push(next), order.len() + 1);
            let ty = bytes_of(f.declared_type);
            let name = bytes_of(f.name);
            if f.extension {
                after == before
            } else {
                &&& after.take(before.len() as int) == before
                &&& after.len() == before.len() + ty.len() + name.len() + 2 + if f.len is Some {
                    1int
                } else {
                    0int
                }
                &&& after.skip(before.len() as int).take(ty.len() as int) == ty
                &&& after[(before.len() + ty.len()) as int] == 32
                &&& after.skip(before.len() + ty.len() + 1int).take(name.len() as int) == name
                &&& after[before.len() + ty.len() + 1int + name.len()] == 32
                &&& f.len matches Some(n) ==> after[after.len() - 1] == n
            }
        }),
{
    lemma_text_of_front(fields, order, next, order.len());
    let f = fields[next as int];
    let before = fields_text(fields, order, order.len());
    let after = fields_text(fields, order.push(next), order.len() + 1);
    let ty = bytes_of(f.declared_type);
    let name = bytes_of(f.name);
    if !f.extension {
        assert(after == before + field_text(f));
        assert(after.take(before.len() as int) =~= before);
        assert(after.skip(before.len() as int).take(ty.len() as int) =~= ty);
        assert(after.skip(before.len() + ty.len() + 1int).take(name.len() as int) =~= name);
    }
}

proof fn lemma_text_of_front(fields: Seq<FieldLayout>, order: Seq<usize>, next: usize, n: nat)
    requires
        n <= order.len(),
    ensures
        fields_text(fields, order.push(next), n) == fields_text(fields, order, n),
    decreases n,
{
    if n > 0 {
        lemma_text_of_front(fields, order, next, (n - 1) as nat);
        assert(order.push(next)[n - 1] == order[n - 1]);
    }
}

/// A layout is found by its number, the last of several.
pub proof fn the_last_layout_of_a_number_is_found(layouts: Seq<Layout>, id: u32, n: nat)
    requires
        n <= layouts.len(),
    ensures
        match last_under(layouts, id, n) {
            Some(i) => 0 <= i < n && layouts[i].id == id && forall|k: int|
                i < k < n ==> (#[trigger] layouts[k]).id != id,
            None => forall|k: int| 0 <= k < n ==> (#[trigger] layouts[k]).id != id,
        },
    decreases n,
{
    if n > 0 && layouts[n - 1].id != id {
        the_last_layout_of_a_number_is_found(layouts, id, (n - 1) as nat);
    }
}

} // verus!
