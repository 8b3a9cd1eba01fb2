//! What a message adds to the series of a log.
use vstd::prelude::*;

use crate::double::Double;
use crate::import::tlog::{
    element_path, element_samples, field_meta, group_of, instance_of, is_redundant, mask_bits,
    means_nothing, message_samples, points, single_sample, taken, value_samples, GroupId, Json,
    Message,
};
use crate::mavlink_meta::{enum_value_spec, EnumEntry, FieldMeta, Schema};
use crate::series::Sample;
use crate::text::{dec, trimmed};
use crate::text_laws::{a_number_reads_back, lacks, numbers_are_told_apart};

verus! {

broadcast use vstd::seq_lib::group_seq_properties;

/// Whether a field's number says that nothing was measured: it is the one that the field declares
/// for that.
pub open spec fn is_no_reading(meta: Option<FieldMeta>, number: Double) -> bool {
    meta matches Some(f) && f.invalid_spec() matches Some(invalid) && invalid.alike(number)
}

/// A number under a path, unless it says that nothing was measured.
pub open spec fn one_unless_none(meta: Option<FieldMeta>, number: Double, t: i64) -> Seq<Sample> {
    if is_no_reading(meta, number) {
        Seq::empty()
    } else {
        seq![(t, number)]
    }
}

spec fn off_path(all: Seq<(Seq<char>, Double)>, path: Seq<char>) -> bool {
    forall|k: int| 0 <= k < all.len() ==> (#[trigger] all[k]).0 != path
}

proof fn lemma_taken_off(all: Seq<(Seq<char>, Double)>, path: Seq<char>, t: i64)
    requires
        off_path(all, path),
    ensures
        taken(all, path, t) == Seq::<Sample>::empty(),
    decreases all.len(),
{
    if all.len() > 0 {
        let front = all.drop_last();
        assert(all.last() == all[all.len() - 1]);
        assert forall|k: int| 0 <= k < front.len() implies (#[trigger] front[k]).0 != path by {
            assert(front[k] == all[k]);
        }
        lemma_taken_off(front, path, t);
    }
}

proof fn lemma_taken_add(
    a: Seq<(Seq<char>, Double)>,
    b: Seq<(Seq<char>, Double)>,
    path: Seq<char>,
    t: i64,
)
    ensures
        taken(a + b, path, t) == taken(a, path, t) + taken(b, path, t),
    decreases b.len(),
{
    if b.len() == 0 {
        assert(a + b =~= a);
        assert(taken(a, path, t) + taken(b, path, t) =~= taken(a, path, t));
    } else {
        assert((a + b).drop_last() =~= a + b.drop_last());
        lemma_taken_add(a, b.drop_last(), path, t);
        assert(taken(a + b, path, t) =~= taken(a, path, t) + taken(b, path, t));
    }
}

proof fn lemma_taken_one(path: Seq<char>, raw: Double, t: i64)
    ensures
        taken(seq![(path, raw)], path, t) == seq![(t, raw)],
{
    let one = seq![(path, raw)];
    assert(one.drop_last() =~= Seq::empty());
    assert(taken(one.drop_last(), path, t) =~= Seq::empty());
    assert(taken(one, path, t) =~= seq![(t, raw)]);
}

proof fn lemma_brackets()
    ensures
        "["@ == seq!['['],
        "]"@ == seq![']'],
{
    reveal_strlit("[");
    reveal_strlit("]");
    assert("["@ =~= seq!['[']);
    assert("]"@ =~= seq![']']);
}

/// What stands in front of the first bracket of two equal texts is equal.
proof fn lemma_before_bracket(a: Seq<char>, x: Seq<char>, b: Seq<char>, y: Seq<char>)
    requires
        lacks(a, '['),
        lacks(b, '['),
        a + "["@ + x == b + "["@ + y,
    ensures
        a == b,
        x == y,
{
    lemma_brackets();
    let s = a + "["@ + x;
    let r = b + "["@ + y;
    if a.len() < b.len() {
        assert(s[a.len() as int] == '[');
        assert(r[a.len() as int] == b[a.len() as int]);
    } else if b.len() < a.len() {
        assert(r[b.len() as int] == '[');
        assert(s[b.len() as int] == a[b.len() as int]);
    }
    assert(a =~= s.take(a.len() as int));
    assert(b =~= r.take(b.len() as int));
    assert(x =~= s.skip(a.len() + 1int));
    assert(y =~= r.skip(b.len() + 1int));
}

proof fn lemma_element_paths(path: Seq<char>, i: nat, k: nat)
    ensures
        element_path(path, i) == element_path(path, k) <==> i == k,
{
    lemma_brackets();
    a_number_reads_back(i);
    a_number_reads_back(k);
    let (a, b) = (element_path(path, i), element_path(path, k));
    if a == b {
        let (x, y) = (dec(i), dec(k));
        assert(x =~= a.subrange(path.len() + 1int, a.len() - 1));
        assert(y =~= b.subrange(path.len() + 1int, b.len() - 1));
        numbers_are_told_apart(i, k);
    }
}

proof fn lemma_elements(
    entries: Seq<EnumEntry>,
    path: Seq<char>,
    items: Seq<Json>,
    meta: Option<FieldMeta>,
    n: nat,
    k: int,
    t: i64,
)
    requires
        n <= items.len(),
        0 <= k < items.len(),
        forall|i: int| 0 <= i < items.len() ==> #[trigger] items[i] is Number,
    ensures
        taken(
            element_samples(entries, path, items, meta, n),
            path + "["@ + dec(k as nat) + "]"@,
            t,
        ) == if k < n {
            one_unless_none(meta, items[k]->Number_0, t)
        } else {
            Seq::empty()
        },
    decreases n,
{
    let wanted = path + "["@ + dec(k as nat) + "]"@;
    if n > 0 {
        let front = element_samples(entries, path, items, meta, (n - 1) as nat);
        let here = element_path(path, (n - 1) as nat);
        let last = single_sample(entries, here, items[n - 1], meta);
        lemma_elements(entries, path, items, meta, (n - 1) as nat, k, t);
        lemma_taken_add(front, last, wanted, t);
        lemma_element_paths(path, (n - 1) as nat, k as nat);
        assert(items[n - 1] is Number);
        if k == n - 1 {
            if !means_nothing(meta, items[k]->Number_0) {
                lemma_taken_one(wanted, items[k]->Number_0, t);
            }
            assert(taken(front + last, wanted, t) =~= one_unless_none(
                meta,
                items[k]->Number_0,
                t,
            ));
        } else {
            lemma_taken_off(last, wanted, t);
            assert(taken(front + last, wanted, t) =~= taken(front, wanted, t));
        }
    }
}

/// An array of measurements is taken apart: under the path of each element stands the number at
/// its own place and nothing else, or nothing where that number says that nothing was measured.
pub proof fn an_element_is_filed_under_its_place(
    entries: Seq<EnumEntry>,
    path: Seq<char>,
    items: Vec<Json>,
    meta: Option<FieldMeta>,
    k: int,
    t: i64,
)
    requires
        items@.len() <= 64,
        forall|i: int| 0 <= i < items@.len() ==> #[trigger] items@[i] is Number,
        0 <= k < items@.len(),
    ensures
        taken(
            value_samples(entries, path, Json::Array(items), meta),
            path + "["@ + dec(k as nat) + "]"@,
            t,
        ) == one_unless_none(meta, items@[k]->Number_0, t),
{
    lemma_elements(entries, path, items@, meta, items@.len(), k, t);
}

/// An array that is too long to be one of measurements, or that holds anything but numbers, adds
/// nothing.
pub proof fn other_arrays_add_nothing(
    entries: Seq<EnumEntry>,
    path: Seq<char>,
    items: Vec<Json>,
    meta: Option<FieldMeta>,
    i: int,
)
    requires
        items@.len() > 64 || (0 <= i < items@.len() && !(items@[i] is Number)),
    ensures
        value_samples(entries, path, Json::Array(items), meta).len() == 0,
{
}

proof fn lemma_elements_are_bracketed(
    entries: Seq<EnumEntry>,
    path: Seq<char>,
    items: Seq<Json>,
    meta: Option<FieldMeta>,
    n: nat,
    k: int,
)
    requires
        0 <= k < element_samples(entries, path, items, meta, n).len(),
    ensures
        exists|rest: Seq<char>|
            element_samples(entries, path, items, meta, n)[k].0 == #[trigger] (path + "["@ + rest),
    decreases n,
{
    if n > 0 {
        let front = element_samples(entries, path, items, meta, (n - 1) as nat);
        if k < front.len() {
            lemma_elements_are_bracketed(entries, path, items, meta, (n - 1) as nat, k);
        } else {
            let rest = dec((n - 1) as nat) + "]"@;
            assert(element_path(path, (n - 1) as nat) =~= path + "["@ + rest);
        }
    }
}

/// What one field adds stays under its own name.
proof fn lemma_other_field(
    entries: Seq<EnumEntry>,
    field: Seq<char>,
    value: Json,
    meta: Option<FieldMeta>,
    other: Seq<char>,
    rest: Seq<char>,
    t: i64,
)
    requires
        lacks(field, '['),
        lacks(other, '['),
        field != other,
    ensures
        taken(value_samples(entries, field, value, meta), other, t) == Seq::<Sample>::empty(),
        taken(value_samples(entries, field, value, meta), other + "["@ + rest, t) == Seq::<
            Sample,
        >::empty(),
{
    lemma_brackets();
    let all = value_samples(entries, field, value, meta);
    let path = other + "["@ + rest;
    assert forall|k: int| 0 <= k < all.len() implies (#[trigger] all[k]).0 != other && all[k].0
        != path by {
        match value {
            Json::Array(items) => {
                lemma_elements_are_bracketed(entries, field, items@, meta, items@.len(), k);
                let tail = choose|tail: Seq<char>|
                    all[k].0 == #[trigger] (field + "["@ + tail);
                let s = field + "["@ + tail;
                assert(s[field.len() as int] == '[');
                if s == path {
                    lemma_before_bracket(field, tail, other, rest);
                }
            },
            _ => {
                assert(all[k].0 == field);
                assert(path[other.len() as int] == '[');
            },
        }
    }
    lemma_taken_off(all, other, t);
    lemma_taken_off(all, path, t);
}

/// Whether a message's fields are named as fields are: each once, and without brackets.
pub open spec fn are_fields(m: Message) -> bool {
    &&& forall|i: int| 0 <= i < m.fields@.len() ==> lacks((#[trigger] m.fields@[i]).0@, '[')
    &&& forall|i: int, j: int|
        0 <= i < j < m.fields@.len() ==> (#[trigger] m.fields@[i]).0@ != (
        #[trigger] m.fields@[j]).0@
}

proof fn lemma_fields(
    schema: Schema,
    m: Message,
    n: nat,
    j: int,
    path: Seq<char>,
    rest: Option<Seq<char>>,
)
    requires
        are_fields(m),
        n <= m.fields@.len(),
        0 <= j < m.fields@.len(),
        path == match rest {
            Some(rest) => m.fields@[j].0@ + "["@ + rest,
            None => m.fields@[j].0@,
        },
    ensures
        taken(message_samples(schema, m, n), path, m.t_utc) == if j < n && !is_redundant(
            schema,
            m,
            m.fields@[j].0@,
        ) {
            taken(
                value_samples(
                    schema.entries@,
                    m.fields@[j].0@,
                    m.fields@[j].1,
                    field_meta(schema, m.name@, m.fields@[j].0@),
                ),
                path,
                m.t_utc,
            )
        } else {
            Seq::empty()
        },
    decreases n,
{
    if n > 0 {
        let front = message_samples(schema, m, (n - 1) as nat);
        let field = m.fields@[n - 1].0@;
        let meta = field_meta(schema, m.name@, field);
        lemma_fields(schema, m, (n - 1) as nat, j, path, rest);
        if !is_redundant(schema, m, field) {
            let here = value_samples(schema.entries@, field, m.fields@[n - 1].1, meta);
            lemma_taken_add(front, here, path, m.t_utc);
            if j != n - 1 {
                let tail = match rest {
                    Some(rest) => rest,
                    None => Seq::empty(),
                };
                assert(m.fields@[n - 1].0@ != m.fields@[j].0@);
                lemma_other_field(
                    schema.entries@,
                    field,
                    m.fields@[n - 1].1,
                    meta,
                    m.fields@[j].0@,
                    tail,
                    m.t_utc,
                );
            }
            assert(taken(front + here, path, m.t_utc) =~= taken(front, path, m.t_utc) + taken(
                here,
                path,
                m.t_utc,
            ));
            if j == n - 1 {
                assert(taken(front, path, m.t_utc) + taken(here, path, m.t_utc) =~= taken(
                    here,
                    path,
                    m.t_utc,
                ));
            } else {
                assert(taken(front, path, m.t_utc) + taken(here, path, m.t_utc) =~= taken(
                    front,
                    path,
                    m.t_utc,
                ));
            }
        }
    }
}

/// Whether a message has a series for a field: the field is not the decoder's tag, nor the
/// instance that the series is named by.
pub open spec fn is_plotted(schema: Schema, m: Message, field: Seq<char>) -> bool {
    &&& field != "type"@
    &&& !(schema.message_spec(m.name@) matches Some(meta) && meta.instance_spec() matches Some(f)
        && f.name@ == field)
}

/// A number in a message is one more sample of its field, at the time of the message, behind what
/// the sender had sent before: unless it says that nothing was measured. No other sender's series
/// of the message gets it.
pub proof fn a_number_is_filed_under_its_field(
    schema: Schema,
    messages: Seq<Message>,
    m: Message,
    j: int,
    group: GroupId,
)
    requires
        are_fields(m),
        0 <= j < m.fields@.len(),
        m.fields@[j].1 is Number,
        is_plotted(schema, m, m.fields@[j].0@),
    ensures
        ({
            let field = m.fields@[j].0@;
            let number = m.fields@[j].1->Number_0;
            let before = points(schema, messages, group, field);
            points(schema, messages.push(m), group, field) == if group == group_of(schema, m) {
                before + one_unless_none(field_meta(schema, m.name@, field), number, m.t_utc)
            } else {
                before
            }
        }),
{
    let field = m.fields@[j].0@;
    let meta = field_meta(schema, m.name@, field);
    let number = m.fields@[j].1->Number_0;
    assert(messages.push(m).drop_last() =~= messages);
    lemma_fields(schema, m, m.fields@.len(), j, field, None);
    if !means_nothing(meta, number) {
        lemma_taken_one(field, number, m.t_utc);
    } else {
        lemma_taken_off(Seq::empty(), field, m.t_utc);
    }
    let before = points(schema, messages, group, field);
    assert(before + Seq::empty() =~= before);
}

/// A measurement in an array of a message is one more sample of its element, as a plain number is
/// of its field.
pub proof fn an_element_is_filed_under_its_field(
    schema: Schema,
    messages: Seq<Message>,
    m: Message,
    j: int,
    k: int,
    group: GroupId,
)
    requires
        are_fields(m),
        0 <= j < m.fields@.len(),
        m.fields@[j].1 matches Json::Array(items) && items@.len() <= 64 && 0 <= k < items@.len()
            && forall|i: int| 0 <= i < items@.len() ==> #[trigger] items@[i] is Number,
        is_plotted(schema, m, m.fields@[j].0@),
    ensures
        ({
            let field = m.fields@[j].0@;
            let path = field + "["@ + dec(k as nat) + "]"@;
            let number = m.fields@[j].1->Array_0@[k]->Number_0;
            let before = points(schema, messages, group, path);
            points(schema, messages.push(m), group, path) == if group == group_of(schema, m) {
                before + one_unless_none(field_meta(schema, m.name@, field), number, m.t_utc)
            } else {
                before
            }
        }),
{
    let field = m.fields@[j].0@;
    let path = field + "["@ + dec(k as nat) + "]"@;
    let rest = dec(k as nat) + "]"@;
    assert(path =~= field + "["@ + rest);
    assert(messages.push(m).drop_last() =~= messages);
    lemma_fields(schema, m, m.fields@.len(), j, path, Some(rest));
    let items = m.fields@[j].1->Array_0;
    an_element_is_filed_under_its_place(
        schema.entries@,
        field,
        items,
        field_meta(schema, m.name@, field),
        k,
        m.t_utc,
    );
    let before = points(schema, messages, group, path);
    assert(before + Seq::empty() =~= before);
}

/// Messages are kept apart by their name, by who sent them and, where their schema names a field
/// for it, by the instance they are about.
pub proof fn senders_are_kept_apart(schema: Schema, a: Message, b: Message)
    ensures
        group_of(schema, a) == group_of(schema, b) <==> a.name@ == b.name@ && a.system == b.system
            && a.component == b.component && instance_of(schema, a) == instance_of(schema, b),
{
}

/// The bits of a mask are those of its flags: every flag of it is known and wholly in it, and a
/// mask of no flags has none.
pub proof fn every_flag_is_in_its_mask(
    entries: Seq<EnumEntry>,
    enum_name: Seq<char>,
    flags: Seq<Seq<char>>,
    n: nat,
    i: int,
)
    requires
        n <= flags.len(),
        mask_bits(entries, enum_name, flags, n) is Some,
        0 <= i < n,
        trimmed(flags[i]).len() > 0,
    ensures
        enum_value_spec(entries, Some(enum_name), trimmed(flags[i])) matches Some(v) && mask_bits(
            entries,
            enum_name,
            flags,
            n,
        )->0 & v == v,
    decreases n,
{
    let bits = mask_bits(entries, enum_name, flags, n)->0;
    let before = mask_bits(entries, enum_name, flags, (n - 1) as nat)->0;
    let last = enum_value_spec(entries, Some(enum_name), trimmed(flags[n - 1]));
    if i < n - 1 {
        every_flag_is_in_its_mask(entries, enum_name, flags, (n - 1) as nat, i);
        let v = enum_value_spec(entries, Some(enum_name), trimmed(flags[i]))->0;
        if trimmed(flags[n - 1]).len() > 0 {
            let w = last->0;
            assert(before & v == v ==> (before | w) & v == v) by (bit_vector);
        }
    } else {
        let w = last->0;
        assert((before | w) & w == w) by (bit_vector);
    }
}

/// A mask has no bit that none of its flags has.
pub proof fn a_mask_is_no_more_than_its_flags(
    entries: Seq<EnumEntry>,
    enum_name: Seq<char>,
    flags: Seq<Seq<char>>,
    n: nat,
    other: i64,
)
    requires
        n <= flags.len(),
        mask_bits(entries, enum_name, flags, n) is Some,
        forall|i: int|
            0 <= i < n && trimmed(#[trigger] flags[i]).len() > 0 ==> enum_value_spec(
                entries,
                Some(enum_name),
                trimmed(flags[i]),
            )->0 & other == 0,
    ensures
        mask_bits(entries, enum_name, flags, n)->0 & other == 0,
    decreases n,
{
    if n > 0 {
        a_mask_is_no_more_than_its_flags(entries, enum_name, flags, (n - 1) as nat, other);
        let before = mask_bits(entries, enum_name, flags, (n - 1) as nat)->0;
        assert(flags[n - 1] == flags[n - 1]);
        if trimmed(flags[n - 1]).len() > 0 {
            let w = enum_value_spec(entries, Some(enum_name), trimmed(flags[n - 1]))->0;
            assert(before & other == 0 && w & other == 0 ==> (before | w) & other == 0)
                by (bit_vector);
        }
    } else {
        assert(0i64 & other == 0) by (bit_vector);
    }
}

} // verus!
