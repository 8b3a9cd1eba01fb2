//! MAVLink telemetry logs: a stream of
//! `[8-byte big-endian microsecond UTC timestamp][MAVLink v1 or v2 frame]` records, as written
//! by ground stations. Decoded messages are collected into one series per field.
use vstd::prelude::*;

use crate::assoc::{Assoc, Key};
use crate::can::big_endian_value;
use crate::double::{nearest_to, Double};
use crate::mavlink_meta::{
    enum_value, enum_value_spec, message, name_view, short_entry_spec, short_enum_entry, EnumEntry,
    FieldMeta, Schema,
};
use crate::order::{is_text_order, text_order};
use crate::series::Sample;
use crate::text::{
    dec, lex_lt, lex_lt_asymmetric, lex_lt_irreflexive, opt_view, push_dec, same, split,
    split_spec, text_until, texts_of, trim, trimmed, until,
};

verus! {

broadcast use vstd::seq_lib::group_seq_properties;

/// A field's value as the decoder emits it.
pub enum Json {
    Null,
    Bool(bool),
    /// A number, and how it is written.
    Number(Double, String),
    Text(String),
    Array(Vec<Json>),
    Object(Vec<(String, Json)>),
}

/// A decoded message.
pub struct Message {
    pub name: String,
    pub system: u32,
    pub component: u8,
    /// Microseconds UTC.
    pub t_utc: i64,
    pub fields: Vec<(String, Json)>,
}

/// The value under a key of an object.
pub open spec fn member(fields: Seq<(String, Json)>, key: Seq<char>) -> Option<Json>
    decreases fields.len(),
{
    if fields.len() == 0 {
        None
    } else if fields[0].0@ == key {
        Some(fields[0].1)
    } else {
        member(fields.drop_first(), key)
    }
}

fn get<'a>(fields: &'a Vec<(String, Json)>, key: &str) -> (r: Option<&'a Json>)
    ensures
        match r {
            Some(v) => member(fields@, key@) == Some(*v),
            None => member(fields@, key@) is None,
        },
{
    let mut i: usize = 0;
    assert(fields@.skip(0) =~= fields@);
    while i < fields.len()
        invariant
            i <= fields@.len(),
            member(fields@, key@) == member(fields@.skip(i as int), key@),
        decreases fields@.len() - i,
    {
        if same(fields[i].0.as_str(), key) {
            return Some(&fields[i].1);
        }
        assert(fields@.skip(i as int).drop_first() =~= fields@.skip(i + 1));
        i += 1;
    }
    None
}

/// The entry that an enum-typed value names: `{"type": "VALVE_ID_MAIN"}`.
pub open spec fn entry_of(fields: Seq<(String, Json)>) -> Option<Seq<char>> {
    match member(fields, "type"@) {
        Some(Json::Text(entry)) => Some(entry@),
        _ => None,
    }
}

/// The enum a field draws from.
pub open spec fn enum_of(meta: Option<FieldMeta>) -> Option<Seq<char>> {
    match meta {
        Some(f) => opt_view(f.enum_name),
        None => None,
    }
}

/// The bits of the first `n` flags of a bitmask, `None` where one of them is unknown. What is
/// blank is no flag.
pub open spec fn mask_bits(
    entries: Seq<EnumEntry>,
    enum_name: Seq<char>,
    flags: Seq<Seq<char>>,
    n: nat,
) -> Option<i64>
    decreases n,
{
    if n == 0 {
        Some(0)
    } else {
        let flag = trimmed(flags[n - 1]);
        match mask_bits(entries, enum_name, flags, (n - 1) as nat) {
            Some(bits) => if flag.len() == 0 {
                Some(bits)
            } else {
                match enum_value_spec(entries, Some(enum_name), flag) {
                    Some(v) => Some(bits | v),
                    None => None,
                }
            },
            None => None,
        }
    }
}

/// The number that a value stands for, if it stands for one: enum entries and bitmasks are
/// resolved back to numbers, so that they can share an axis with everything else. Plain texts
/// have no enum and are left out.
pub open spec fn numeric_spec(
    entries: Seq<EnumEntry>,
    value: Json,
    meta: Option<FieldMeta>,
) -> Option<Double> {
    match value {
        Json::Number(v, _) => Some(v),
        Json::Bool(b) => Some(
            nearest_to(
                if b {
                    1
                } else {
                    0
                },
            ),
        ),
        Json::Object(fields) => match entry_of(fields@) {
            Some(entry) => if fields@.len() == 1 {
                match enum_value_spec(entries, enum_of(meta), entry) {
                    Some(v) => Some(nearest_to(v as int)),
                    None => None,
                }
            } else {
                None
            },
            None => None,
        },
        Json::Text(s) => match enum_of(meta) {
            Some(enum_name) => {
                let flags = split_spec(s@, '|');
                match mask_bits(entries, enum_name, flags, flags.len()) {
                    Some(bits) => Some(nearest_to(bits as int)),
                    None => None,
                }
            },
            None => None,
        },
        _ => None,
    }
}

/// An optional borrowed schema, as contracts speak of it.
pub open spec fn meta_view(meta: Option<&FieldMeta>) -> Option<FieldMeta> {
    match meta {
        Some(f) => Some(*f),
        None => None,
    }
}

fn enum_name_of<'a>(meta: Option<&'a FieldMeta>) -> (r: Option<&'a String>)
    ensures
        name_view(r) == enum_of(meta_view(meta)),
{
    match meta {
        Some(f) => match &f.enum_name {
            Some(name) => Some(name),
            None => None,
        },
        None => None,
    }
}

fn entry_name(fields: &Vec<(String, Json)>) -> (r: Option<&String>)
    ensures
        name_view(r) == entry_of(fields@),
{
    match get(fields, "type") {
        Some(Json::Text(entry)) => Some(entry),
        _ => None,
    }
}

fn flag_bits(schema: &Schema, enum_name: &String, s: &str) -> (r: Option<i64>)
    ensures
        r == mask_bits(
            schema.entries@,
            enum_name@,
            split_spec(s@, '|'),
            split_spec(s@, '|').len(),
        ),
{
    let flags = split(s, '|');
    let ghost parts = split_spec(s@, '|');
    let mut bits: i64 = 0;
    let mut unknown = false;
    let mut i: usize = 0;
    assert(flags@.len() == parts.len());
    while i < flags.len()
        invariant
            i <= flags@.len() == parts.len(),
            texts_of(flags@) == parts,
            mask_bits(schema.entries@, enum_name@, parts, i as nat) == if unknown {
                None
            } else {
                Some(bits)
            },
        decreases flags@.len() - i,
    {
        let flag = trim(flags[i].as_str());
        assert(texts_of(flags@)[i as int] == flags@[i as int]@);
        if !flag.as_str().is_empty() {
            match enum_value(schema, Some(enum_name), flag.as_str()) {
                Some(v) => {
                    bits = bits | v;
                },
                None => {
                    unknown = true;
                },
            }
        }
        i += 1;
    }
    if unknown {
        None
    } else {
        Some(bits)
    }
}

/// The number that a value stands for, if it stands for one.
pub fn numeric_value(schema: &Schema, value: &Json, meta: Option<&FieldMeta>) -> (r: Option<Double>)
    ensures
        r == numeric_spec(schema.entries@, *value, meta_view(meta)),
{
    match value {
        Json::Number(v, _) => Some(*v),
        Json::Bool(b) => Some(
            Double::from_int(
                if *b {
                    1
                } else {
                    0
                },
            ),
        ),
        Json::Object(fields) => match entry_name(fields) {
            Some(entry) => {
                if fields.len() == 1 {
                    match enum_value(schema, enum_name_of(meta), entry.as_str()) {
                        Some(v) => Some(Double::from_int(v)),
                        None => None,
                    }
                } else {
                    None
                }
            },
            None => None,
        },
        Json::Text(s) => match enum_name_of(meta) {
            Some(enum_name) => match flag_bits(schema, enum_name, s.as_str()) {
                Some(bits) => Some(Double::from_int(bits)),
                None => None,
            },
            None => None,
        },
        _ => None,
    }
}

/// Whether a number means that the sensor reported nothing.
pub open spec fn means_nothing(meta: Option<FieldMeta>, raw: Double) -> bool {
    match meta {
        Some(f) => match f.invalid_spec() {
            Some(invalid) => invalid.alike(raw),
            None => false,
        },
        None => false,
    }
}

/// What a single value adds to the samples under a path.
pub open spec fn single_sample(
    entries: Seq<EnumEntry>,
    path: Seq<char>,
    value: Json,
    meta: Option<FieldMeta>,
) -> Seq<(Seq<char>, Double)> {
    match numeric_spec(entries, value, meta) {
        Some(raw) => if means_nothing(meta, raw) {
            Seq::empty()
        } else {
            seq![(path, raw)]
        },
        None => Seq::empty(),
    }
}

/// The path of an array's element.
pub open spec fn element_path(path: Seq<char>, i: nat) -> Seq<char> {
    path + "["@ + dec(i) + "]"@
}

/// What the first `n` elements of an array add.
pub open spec fn element_samples(
    entries: Seq<EnumEntry>,
    path: Seq<char>,
    items: Seq<Json>,
    meta: Option<FieldMeta>,
    n: nat,
) -> Seq<(Seq<char>, Double)>
    decreases n,
{
    if n == 0 {
        Seq::empty()
    } else {
        element_samples(entries, path, items, meta, (n - 1) as nat) + single_sample(
            entries,
            element_path(path, (n - 1) as nat),
            items[n - 1],
            meta,
        )
    }
}

/// Whether an array is one of plain numbers, and short enough to be one of measurements rather
/// than of bytes.
pub open spec fn is_measurements(items: Seq<Json>) -> bool {
    items.len() <= 64 && forall|i: int| 0 <= i < items.len() ==> #[trigger] items[i] is Number
}

/// What a field adds to the samples: arrays are expanded into one series per element.
pub open spec fn value_samples(
    entries: Seq<EnumEntry>,
    path: Seq<char>,
    value: Json,
    meta: Option<FieldMeta>,
) -> Seq<(Seq<char>, Double)> {
    match value {
        Json::Array(items) => if is_measurements(items@) {
            element_samples(entries, path, items@, meta, items@.len())
        } else {
            Seq::empty()
        },
        _ => single_sample(entries, path, value, meta),
    }
}

/// Named samples, as contracts speak of them.
pub open spec fn named(samples: Seq<(String, Double)>) -> Seq<(Seq<char>, Double)> {
    samples.map_values(|s: (String, Double)| (s.0@, s.1))
}

proof fn lemma_named_push(samples: Seq<(String, Double)>, s: (String, Double))
    ensures
        named(samples.push(s)) == named(samples).push((s.0@, s.1)),
{
    assert(named(samples.push(s)) =~= named(samples).push((s.0@, s.1)));
}

fn push_single(
    out: &mut Vec<(String, Double)>,
    schema: &Schema,
    path: String,
    value: &Json,
    meta: Option<&FieldMeta>,
)
    ensures
        named(final(out)@) == named(old(out)@) + single_sample(
            schema.entries@,
            path@,
            *value,
            meta_view(meta),
        ),
{
    if let Some(raw) = numeric_value(schema, value, meta) {
        let nothing = match meta {
            Some(f) => match f.invalid_value() {
                Some(invalid) => invalid.is_like(raw),
                None => false,
            },
            None => false,
        };
        if !nothing {
            proof {
                lemma_named_push(out@, (path, raw));
            }
            out.push((path, raw));
        }
    }
}

fn push_value(
    out: &mut Vec<(String, Double)>,
    schema: &Schema,
    path: &String,
    value: &Json,
    meta: Option<&FieldMeta>,
)
    ensures
        named(final(out)@) == named(old(out)@) + value_samples(
            schema.entries@,
            path@,
            *value,
            meta_view(meta),
        ),
{
    match value {
        Json::Array(items) => {
            if items.len() > 64 {
                return;
            }
            let mut all_numbers = true;
            let mut k: usize = 0;
            while k < items.len()
                invariant
                    k <= items@.len(),
                    all_numbers == (forall|i: int|
                        0 <= i < k ==> #[trigger] items@[i] is Number),
                decreases items@.len() - k,
            {
                match &items[k] {
                    Json::Number(_, _) => {},
                    _ => {
                        assert(!(items@[k as int] is Number));
                        all_numbers = false;
                    },
                }
                k += 1;
            }
            if !all_numbers {
                return;
            }
            let ghost before = named(out@);
            let mut i: usize = 0;
            while i < items.len()
                invariant
                    i <= items@.len(),
                    named(out@) == before + element_samples(
                        schema.entries@,
                        path@,
                        items@,
                        meta_view(meta),
                        i as nat,
                    ),
                decreases items@.len() - i,
            {
                let mut element = path.clone();
                element.append("[");
                push_dec(&mut element, i as u64);
                element.append("]");
                push_single(out, schema, element, &items[i], meta);
                i += 1;
            }
        },
        _ => push_single(out, schema, path.clone(), value, meta),
    }
}

/// How an instance shows up in a series name: a plain number for `PRESSURE_VESSEL.id`, the enum
/// entry for `VALVE.id`.
pub open spec fn instance_label_spec(field: FieldMeta, value: Json) -> Seq<char> {
    match value {
        Json::Number(_, text) => text@,
        Json::Object(fields) => match entry_of(fields@) {
            Some(entry) => short_entry_spec(opt_view(field.enum_name), entry),
            None => "?"@,
        },
        Json::Text(s) => s@,
        _ => "?"@,
    }
}

/// How an instance shows up in a series name.
pub fn instance_label(field: &FieldMeta, value: &Json) -> (r: String)
    ensures
        r@ == instance_label_spec(*field, *value),
{
    match value {
        Json::Number(_, text) => text.clone(),
        Json::Object(fields) => match entry_name(fields) {
            Some(entry) => short_enum_entry(enum_name_of(Some(field)), entry.as_str()),
            None => "?".to_owned(),
        },
        Json::Text(s) => s.clone(),
        _ => "?".to_owned(),
    }
}

/// What distinguishes one series of a message from another: messages carrying an instance field
/// describe a different tank or valve on every send, and several systems can emit the same
/// message onto one link. Folding those together would interleave unrelated measurements into
/// one jagged, meaningless line.
#[verifier::ext_equal]
pub struct GroupId {
    pub message: Seq<char>,
    pub system: u32,
    pub component: u8,
    pub instance: Option<Seq<char>>,
}

/// A message's instance, where its schema and its fields name one.
pub open spec fn instance_of(schema: Schema, m: Message) -> Option<Seq<char>> {
    match schema.message_spec(m.name@) {
        Some(meta) => match meta.instance_spec() {
            Some(f) => match member(m.fields@, f.name@) {
                Some(value) => Some(instance_label_spec(f, value)),
                None => None,
            },
            None => None,
        },
        None => None,
    }
}

/// The group that a message belongs to.
pub open spec fn group_of(schema: Schema, m: Message) -> GroupId {
    GroupId {
        message: m.name@,
        system: m.system,
        component: m.component,
        instance: instance_of(schema, m),
    }
}

/// Whether a field adds nothing by its very name: the decoder's own tag, and the instance,
/// which is part of the series name already.
pub open spec fn is_redundant(schema: Schema, m: Message, field: Seq<char>) -> bool {
    ||| field == "type"@
    ||| (instance_of(schema, m) is Some
        && schema.message_spec(m.name@).unwrap().instance_spec().unwrap().name@ == field)
}

/// The schema of a message's field.
pub open spec fn field_meta(schema: Schema, message: Seq<char>, field: Seq<char>) -> Option<
    FieldMeta,
> {
    match schema.message_spec(message) {
        Some(meta) => meta.field_spec(field),
        None => None,
    }
}

/// What the first `n` fields of a message add to the samples of its group.
pub open spec fn message_samples(schema: Schema, m: Message, n: nat) -> Seq<(Seq<char>, Double)>
    decreases n,
{
    if n == 0 {
        Seq::empty()
    } else {
        let rest = message_samples(schema, m, (n - 1) as nat);
        let field = m.fields@[n - 1].0@;
        if is_redundant(schema, m, field) {
            rest
        } else {
            rest + value_samples(
                schema.entries@,
                field,
                m.fields@[n - 1].1,
                field_meta(schema, m.name@, field),
            )
        }
    }
}

struct GroupKey {
    message: String,
    system: u32,
    component: u8,
    instance: Option<String>,
}

impl View for GroupKey {
    type V = GroupId;

    closed spec fn view(&self) -> GroupId {
        GroupId {
            message: self.message@,
            system: self.system,
            component: self.component,
            instance: opt_view(self.instance),
        }
    }
}

fn same_opt(a: &Option<String>, b: &Option<String>) -> (r: bool)
    ensures
        r == (opt_view(*a) == opt_view(*b)),
{
    match (a, b) {
        (Some(x), Some(y)) => same(x.as_str(), y.as_str()),
        (None, None) => true,
        _ => false,
    }
}

impl Key for GroupKey {
    fn same_as(&self, other: &Self) -> (r: bool) {
        let r = self.system == other.system && self.component == other.component && same(
            self.message.as_str(),
            other.message.as_str(),
        ) && same_opt(&self.instance, &other.instance);
        proof {
            if self@ == other@ {
                assert(self@.message == other@.message);
                assert(self@.instance == other@.instance);
            }
        }
        r
    }
}

/// Reads the samples of a message and the group that they belong to.
fn read_message(schema: &Schema, m: &Message) -> (r: (GroupKey, Vec<(String, Double)>))
    ensures
        r.0@ == group_of(*schema, *m),
        named(r.1@) == message_samples(*schema, *m, m.fields@.len()),
{
    let meta = message(schema, m.name.as_str());
    let mut instance: Option<String> = None;
    let mut redundant: Option<&String> = None;
    if let Some(meta) = meta {
        if let Some(f) = meta.instance_field() {
            if let Some(value) = get(&m.fields, f.name.as_str()) {
                instance = Some(instance_label(f, value));
                // Once the instance is part of the series name, a series of the instance id
                // itself is a constant line saying what the name already says.
                redundant = Some(&f.name);
            }
        }
    }
    let mut out: Vec<(String, Double)> = Vec::new();
    assert(named(out@) =~= Seq::<(Seq<char>, Double)>::empty());
    let mut i: usize = 0;
    while i < m.fields.len()
        invariant
            i <= m.fields@.len(),
            match meta {
                Some(mm) => schema.message_spec(m.name@) == Some(*mm),
                None => schema.message_spec(m.name@) is None,
            },
            opt_view(instance) == instance_of(*schema, *m),
            match redundant {
                Some(f) => instance_of(*schema, *m) is Some && schema.message_spec(
                    m.name@,
                ).unwrap().instance_spec().unwrap().name@ == f@,
                None => instance_of(*schema, *m) is None,
            },
            named(out@) == message_samples(*schema, *m, i as nat),
        decreases m.fields@.len() - i,
    {
        let (field, value) = &m.fields[i];
        let skip = same(field.as_str(), "type") || match redundant {
            Some(f) => same(field.as_str(), f.as_str()),
            None => false,
        };
        if !skip {
            let field_meta = match meta {
                Some(mm) => mm.field(field.as_str()),
                None => None,
            };
            push_value(&mut out, schema, field, value, field_meta);
        }
        i += 1;
    }
    let key = GroupKey {
        message: m.name.clone(),
        system: m.system,
        component: m.component,
        instance,
    };
    assert(key@ =~= group_of(*schema, *m));
    (key, out)
}

/// The samples of one path among those of a message received at `t`.
pub open spec fn taken(all: Seq<(Seq<char>, Double)>, path: Seq<char>, t: i64) -> Seq<Sample>
    decreases all.len(),
{
    if all.len() == 0 {
        Seq::empty()
    } else {
        let rest = taken(all.drop_last(), path, t);
        if all.last().0 == path {
            rest.push((t, all.last().1))
        } else {
            rest
        }
    }
}

/// What a message adds to a series.
pub open spec fn message_points(
    schema: Schema,
    m: Message,
    group: GroupId,
    path: Seq<char>,
) -> Seq<Sample> {
    if group_of(schema, m) == group {
        taken(message_samples(schema, m, m.fields@.len()), path, m.t_utc)
    } else {
        Seq::empty()
    }
}

/// The points of a series, in the order of arrival.
pub open spec fn points(
    schema: Schema,
    messages: Seq<Message>,
    group: GroupId,
    path: Seq<char>,
) -> Seq<Sample>
    decreases messages.len(),
{
    if messages.len() == 0 {
        Seq::empty()
    } else {
        points(schema, messages.drop_last(), group, path) + message_points(
            schema,
            messages.last(),
            group,
            path,
        )
    }
}

/// Whether a message of a name came from more than one sender.
pub open spec fn several_senders(messages: Seq<Message>, name: Seq<char>) -> bool {
    exists|i: int, j: int|
        0 <= i < messages.len() && 0 <= j < messages.len() && (#[trigger] messages[i]).name@
            == name && (#[trigger] messages[j]).name@ == name && (messages[i].system
            != messages[j].system || messages[i].component != messages[j].component)
}

type Fields = Assoc<String, Vec<Sample>>;

/// The points under a path.
spec fn field_points(fields: Fields, path: Seq<char>) -> Seq<Sample> {
    match fields.lookup(path) {
        Some(p) => p@,
        None => Seq::empty(),
    }
}

/// Whether no path is filed without a sample.
spec fn none_empty(fields: Fields) -> bool {
    &&& fields.wf()
    &&& forall|i: int| 0 <= i < fields.items@.len() ==> (#[trigger] fields.items@[i])@.len() > 0
}

fn push_all(fields: &mut Fields, samples: Vec<(String, Double)>, t: i64)
    requires
        none_empty(*old(fields)),
    ensures
        none_empty(*final(fields)),
        forall|path: Seq<char>| #[trigger]
            field_points(*final(fields), path) == field_points(*old(fields), path) + taken(
                named(samples@),
                path,
                t,
            ),
{
    let ghost before = *fields;
    let ghost all = named(samples@);
    let mut i: usize = 0;
    assert(all.take(0) =~= Seq::<(Seq<char>, Double)>::empty());
    while i < samples.len()
        invariant
            i <= samples@.len(),
            all == named(samples@),
            none_empty(*fields),
            forall|path: Seq<char>| #[trigger]
                field_points(*fields, path) == field_points(before, path) + taken(
                    all.take(i as int),
                    path,
                    t,
                ),
        decreases samples@.len() - i,
    {
        let ghost start = *fields;
        let (name, value) = &samples[i];
        assert(all[i as int] == (name@, *value));
        assert(all.take(i + 1).drop_last() =~= all.take(i as int));
        let slot = fields.slot(name.clone(), Vec::new());
        let ghost mid = *fields;
        let points = fields.value_mut(slot);
        points.push((t, *value));
        proof {
            Assoc::lemma_update(mid, *fields, slot as int);
            mid.lemma_at(slot as int);
            assert forall|path: Seq<char>| #[trigger]
                field_points(*fields, path) == field_points(before, path) + taken(
                    all.take(i + 1),
                    path,
                    t,
                ) by {
                assert(field_points(start, path) == field_points(before, path) + taken(
                    all.take(i as int),
                    path,
                    t,
                ));
                if path == name@ {
                    assert(field_points(*fields, path) == field_points(start, path).push(
                        (t, *value),
                    ));
                } else {
                    assert(fields.lookup(path) == mid.lookup(path));
                    assert(mid.lookup(path) == start.lookup(path));
                }
            }
            assert forall|k: int| 0 <= k < fields.items@.len() implies (
            #[trigger] fields.items@[k])@.len() > 0 by {
                if k != slot {
                    assert(mid.keys()[k] == start.keys()[k]);
                    assert(fields.items@[k] == mid.items@[k]);
                    assert(start.items@[k]@.len() > 0);
                }
            }
        }
        i += 1;
    }
    assert(all.take(all.len() as int) =~= all);
}

/// A series of raw values: with decimals, they are whole counts of a fraction of the unit.
pub struct RawSeries {
    /// `PRESSURE_VESSEL[1].pressure1`.
    pub name: String,
    pub unit: Option<String>,
    pub decimals: u8,
    /// Time and value, in the order of arrival.
    pub points: Vec<Sample>,
}

/// Collects the messages of a log, one series per field of each group.
pub struct Collector {
    groups: Assoc<GroupKey, Fields>,
    seen: Ghost<Seq<Message>>,
}

/// The points under a group and a path.
spec fn points_at(
    groups: Assoc<GroupKey, Fields>,
    group: GroupId,
    path: Seq<char>,
) -> Seq<Sample> {
    match groups.lookup(group) {
        Some(fields) => field_points(fields, path),
        None => Seq::empty(),
    }
}

/// Whether a group is that of one of the messages.
pub open spec fn is_heard(schema: Schema, messages: Seq<Message>, group: GroupId) -> bool {
    exists|i: int| 0 <= i < messages.len() && group_of(schema, #[trigger] messages[i]) == group
}

impl Collector {
    /// The messages taken in.
    pub closed spec fn seen(self) -> Seq<Message> {
        self.seen@
    }

    /// Whether this has collected its messages by a schema.
    pub closed spec fn wf(self, schema: Schema) -> bool {
        &&& self.groups.wf()
        &&& forall|i: int|
            0 <= i < self.groups.items@.len() ==> none_empty(#[trigger] self.groups.items@[i])
        &&& forall|group: GroupId| #[trigger]
            self.groups.has(group) <==> is_heard(schema, self.seen@, group)
        &&& forall|group: GroupId, path: Seq<char>| #[trigger]
            points_at(self.groups, group, path) == points(schema, self.seen@, group, path)
    }

    pub fn new() -> (r: Self)
        ensures
            r.seen() == Seq::<Message>::empty(),
            forall|schema: Schema| #[trigger] r.wf(schema),
    {
        Collector { groups: Assoc::new(), seen: Ghost(Seq::empty()) }
    }

    /// Takes a message in.
    pub fn push_message(&mut self, schema: &Schema, m: &Message)
        requires
            old(self).wf(*schema),
        ensures
            final(self).wf(*schema),
            final(self).seen() == old(self).seen().push(*m),
    {
        let ghost messages = self.seen@;
        let (key, samples) = read_message(schema, m);
        let ghost id = key@;
        let ghost before = self.groups;
        let ghost all = named(samples@);
        let ghost next = messages.push(*m);
        let slot = self.groups.slot(key, Assoc::new());
        let ghost mid = self.groups;
        proof {
            mid.lemma_at(slot as int);
            if before.has(id) {
                let b = before.keys().index_of(id);
                assert(before.keys()[b] == id);
                assert(none_empty(before.items@[b]));
            }
        }
        push_all(self.groups.value_mut(slot), samples, m.t_utc);
        proof {
            self.seen@ = next;
            Assoc::lemma_update(mid, self.groups, slot as int);
            assert(next.drop_last() =~= messages);
            assert forall|group: GroupId, path: Seq<char>| #[trigger]
                points_at(self.groups, group, path) == points(*schema, next, group, path) by {
                assert(points_at(before, group, path) == points(*schema, messages, group, path));
                if group == id {
                    assert(field_points(mid.items@[slot as int], path) == points_at(
                        before,
                        group,
                        path,
                    ));
                    assert(field_points(self.groups.items@[slot as int], path) == field_points(
                        mid.items@[slot as int],
                        path,
                    ) + taken(all, path, m.t_utc));
                } else {
                    assert(self.groups.lookup(group) == mid.lookup(group));
                    assert(mid.lookup(group) == before.lookup(group));
                }
            }
            assert forall|group: GroupId| #[trigger]
                self.groups.has(group) <==> is_heard(*schema, next, group) by {
                assert(before.has(group) <==> is_heard(*schema, messages, group));
                if group == id {
                    assert(next[messages.len() as int] == *m);
                } else {
                    assert(self.groups.lookup(group) == mid.lookup(group));
                    assert(mid.lookup(group) == before.lookup(group));
                    if is_heard(*schema, messages, group) {
                        let i = choose|i: int|
                            0 <= i < messages.len() && group_of(*schema, #[trigger] messages[i])
                                == group;
                        assert(next[i] == messages[i]);
                    }
                    if is_heard(*schema, next, group) {
                        let i = choose|i: int|
                            0 <= i < next.len() && group_of(*schema, #[trigger] next[i]) == group;
                        assert(i < messages.len());
                        assert(next[i] == messages[i]);
                    }
                }
            }
            assert forall|i: int| 0 <= i < self.groups.items@.len() implies none_empty(
                #[trigger] self.groups.items@[i],
            ) by {
                if i != slot {
                    assert(mid.keys()[i] == before.keys()[i]);
                    assert(self.groups.items@[i] == mid.items@[i]);
                    assert(none_empty(before.items@[i]));
                }
            }
        }
    }
}

/// The part of a series name before its field: the message, the instance it is about, and the
/// sender where the log carries more than one.
pub open spec fn prefix_of(messages: Seq<Message>, group: GroupId) -> Seq<char> {
    let base = match group.instance {
        Some(instance) => group.message + "["@ + instance + "]"@,
        None => group.message,
    };
    if several_senders(messages, group.message) {
        base + "@"@ + dec(group.system as nat) + ":"@ + dec(group.component as nat)
    } else {
        base
    }
}

/// The unit and the decimals of a series: those of the field whose element or value it is.
pub open spec fn scale(schema: Schema, group: GroupId, path: Seq<char>) -> (
    Option<Seq<char>>,
    nat,
) {
    match field_meta(schema, group.message, until(path, '[')) {
        Some(f) => f.unit_scale_spec(),
        None => (None, 0),
    }
}

/// Whether a series is the one of a field of a group.
pub open spec fn is_series_of(
    s: RawSeries,
    schema: Schema,
    messages: Seq<Message>,
    id: (GroupId, Seq<char>),
) -> bool {
    &&& s.name@ == prefix_of(messages, id.0) + "."@ + id.1
    &&& s.points@ == points(schema, messages, id.0, id.1)
    &&& (opt_view(s.unit), s.decimals as nat) == scale(schema, id.0, id.1)
}

/// Whether a list holds the series of `ids`, in that order.
pub open spec fn lists(
    out: Seq<RawSeries>,
    schema: Schema,
    messages: Seq<Message>,
    ids: Seq<(GroupId, Seq<char>)>,
) -> bool {
    &&& ids.len() == out.len()
    &&& forall|i: int|
        0 <= i < out.len() ==> is_series_of(#[trigger] out[i], schema, messages, ids[i])
}

/// Whether `ids` are the fields that a log has any sample of, each once.
pub open spec fn are_present(
    ids: Seq<(GroupId, Seq<char>)>,
    schema: Schema,
    messages: Seq<Message>,
) -> bool {
    &&& ids.no_duplicates()
    &&& forall|id: (GroupId, Seq<char>)| #[trigger]
        ids.contains(id) <==> points(schema, messages, id.0, id.1).len() > 0
}

/// Whether names stand in order.
pub open spec fn names_in_order(out: Seq<RawSeries>) -> bool {
    forall|i: int, j: int|
        0 <= i < j < out.len() ==> !lex_lt((#[trigger] out[j]).name@, (#[trigger] out[i]).name@)
}

/// The field at a place among those of a table of groups.
spec fn id_at(groups: Assoc<GroupKey, Fields>, at: (usize, usize)) -> (GroupId, Seq<char>) {
    (groups.keys()[at.0 as int], groups.items@[at.0 as int].keys()[at.1 as int])
}

/// Whether a place is one of a table of groups.
spec fn is_place(groups: Assoc<GroupKey, Fields>, at: (usize, usize)) -> bool {
    at.0 < groups.items@.len() && at.1 < groups.items@[at.0 as int].items@.len()
}

impl Collector {
    /// Every place of the table, group by group.
    fn places(&self, Ghost(schema): Ghost<Schema>) -> (r: Vec<(usize, usize)>)
        requires
            self.wf(schema),
        ensures
            r@.no_duplicates(),
            forall|at: (usize, usize)| #[trigger]
                r@.contains(at) <==> is_place(self.groups, at),
    {
        let mut out: Vec<(usize, usize)> = Vec::new();
        let mut g: usize = 0;
        while g < self.groups.items.len()
            invariant
                g <= self.groups.items@.len(),
                out@.no_duplicates(),
                forall|at: (usize, usize)| #[trigger]
                    out@.contains(at) <==> is_place(self.groups, at) && at.0 < g,
            decreases self.groups.items@.len() - g,
        {
            let fields = &self.groups.items[g];
            let mut f: usize = 0;
            while f < fields.items.len()
                invariant
                    g < self.groups.items@.len(),
                    *fields == self.groups.items@[g as int],
                    f <= fields.items@.len(),
                    out@.no_duplicates(),
                    forall|at: (usize, usize)| #[trigger]
                        out@.contains(at) <==> is_place(self.groups, at) && (at.0 < g || (at.0 == g
                            && at.1 < f)),
                decreases fields.items@.len() - f,
            {
                let ghost before = out@;
                out.push((g, f));
                proof {
                    assert forall|at: (usize, usize)| #[trigger]
                        out@.contains(at) <==> is_place(self.groups, at) && (at.0 < g || (at.0 == g
                            && at.1 < f + 1)) by {
                        assert(before.contains(at) <==> is_place(self.groups, at) && (at.0 < g || (
                        at.0 == g && at.1 < f)));
                        if out@.contains(at) {
                            let k = out@.index_of(at);
                            if k < before.len() {
                                assert(before[k] == at);
                            }
                        }
                        if before.contains(at) {
                            let k = before.index_of(at);
                            assert(out@[k] == at);
                        }
                        if at == (g, f) {
                            assert(out@[before.len() as int] == at);
                        }
                    }
                    assert(!before.contains((g, f)));
                }
                f += 1;
            }
            g += 1;
        }
        out
    }

    /// Whether a message came from more than one sender.
    fn is_ambiguous(&self, name: &String, Ghost(schema): Ghost<Schema>) -> (r: bool)
        requires
            self.wf(schema),
        ensures
            r == several_senders(self.seen@, name@),
    {
        let mut first: Option<(u32, u8)> = None;
        let mut g: usize = 0;
        let mut several = false;
        let ghost mut at: int = 0;
        let ghost mut other: int = 0;
        while g < self.groups.names.len()
            invariant
                g <= self.groups.names@.len(),
                self.wf(schema),
                match first {
                    None => !several && forall|k: int|
                        0 <= k < g ==> (#[trigger] self.groups.names@[k]).message@ != name@,
                    Some((s, c)) => {
                        &&& 0 <= at < g
                        &&& self.groups.names@[at].message@ == name@
                        &&& self.groups.names@[at].system == s
                        &&& self.groups.names@[at].component == c
                        &&& several ==> 0 <= other < g && self.groups.names@[other].message@
                            == name@ && (self.groups.names@[other].system != s
                            || self.groups.names@[other].component != c)
                        &&& !several ==> forall|k: int|
                            0 <= k < g && (#[trigger] self.groups.names@[k]).message@ == name@ ==> (
                            self.groups.names@[k].system == s && self.groups.names@[k].component
                                == c)
                    },
                },
            decreases self.groups.names@.len() - g,
        {
            let key = &self.groups.names[g];
            if same(key.message.as_str(), name.as_str()) {
                match first {
                    None => {
                        first = Some((key.system, key.component));
                        proof {
                            at = g as int;
                        }
                    },
                    Some((s, c)) => {
                        if key.system != s || key.component != c {
                            several = true;
                            proof {
                                other = g as int;
                            }
                        }
                    },
                }
            }
            g += 1;
        }
        proof {
            let seen = self.seen@;
            if several {
                let a = self.groups.keys()[at];
                let b = self.groups.keys()[other];
                self.groups.lemma_at(at);
                self.groups.lemma_at(other);
                assert(self.groups.has(a) && self.groups.has(b));
                let i = choose|i: int| 0 <= i < seen.len() && group_of(schema, #[trigger] seen[i]) == a;
                let j = choose|j: int| 0 <= j < seen.len() && group_of(schema, #[trigger] seen[j]) == b;
                assert(a.message == self.groups.names@[at].message@);
                assert(seen[i].name@ == name@ && seen[j].name@ == name@);
            } else if several_senders(seen, name@) {
                let (i, j) = choose|i: int, j: int|
                    0 <= i < seen.len() && 0 <= j < seen.len() && (#[trigger] seen[i]).name@ == name@
                        && (#[trigger] seen[j]).name@ == name@ && (seen[i].system != seen[j].system
                        || seen[i].component != seen[j].component);
                let a = group_of(schema, seen[i]);
                let b = group_of(schema, seen[j]);
                assert(is_heard(schema, seen, a) && is_heard(schema, seen, b));
                assert(self.groups.has(a) && self.groups.has(b));
                let x = self.groups.keys().index_of(a);
                let y = self.groups.keys().index_of(b);
                assert(self.groups.keys()[x] == a && self.groups.keys()[y] == b);
                assert(self.groups.names@[x]@ == a && self.groups.names@[y]@ == b);
                assert(self.groups.names@[x].message@ == name@);
                assert(self.groups.names@[y].message@ == name@);
            }
        }
        several
    }

    fn name_at(&self, at: (usize, usize), Ghost(schema): Ghost<Schema>) -> (r: String)
        requires
            self.wf(schema),
            is_place(self.groups, at),
        ensures
            r@ == prefix_of(self.seen@, id_at(self.groups, at).0) + "."@ + id_at(
                self.groups,
                at,
            ).1,
    {
        let key = &self.groups.names[at.0];
        let ghost id = self.groups.keys()[at.0 as int];
        assert(id == key@);
        let mut out = key.message.clone();
        if let Some(instance) = &key.instance {
            out.append("[");
            out.append(instance.as_str());
            out.append("]");
        }
        if self.is_ambiguous(&key.message, Ghost(schema)) {
            out.append("@");
            push_dec(&mut out, key.system as u64);
            out.append(":");
            push_dec(&mut out, key.component as u64);
        }
        out.append(".");
        let ghost fields = self.groups.items@[at.0 as int];
        assert(none_empty(fields));
        assert(fields.keys()[at.1 as int] == fields.names@[at.1 as int]@);
        out.append(self.groups.items[at.0].names[at.1].as_str());
        out
    }

    fn series_at(&self, at: (usize, usize), schema: &Schema, name: String) -> (r: RawSeries)
        requires
            self.wf(*schema),
            is_place(self.groups, at),
            name@ == prefix_of(self.seen@, id_at(self.groups, at).0) + "."@ + id_at(
                self.groups,
                at,
            ).1,
        ensures
            is_series_of(r, *schema, self.seen@, id_at(self.groups, at)),
            r.name@ == name@,
    {
        let key = &self.groups.names[at.0];
        let fields = &self.groups.items[at.0];
        let ghost id = id_at(self.groups, at);
        assert(none_empty(*fields));
        let path = &fields.names[at.1];
        assert(id.0 == key@ && id.1 == path@);
        proof {
            self.groups.lemma_at(at.0 as int);
            fields.lemma_at(at.1 as int);
            assert(points_at(self.groups, id.0, id.1) == points(*schema, self.seen@, id.0, id.1));
        }
        let base = text_until(path.as_str(), '[');
        let (unit, decimals) = match message(schema, key.message.as_str()) {
            Some(meta) => match meta.field(base.as_str()) {
                Some(f) => f.unit_scale(),
                None => (None, 0),
            },
            None => (None, 0),
        };
        let source = &fields.items[at.1];
        let mut points: Vec<Sample> = Vec::new();
        let mut q: usize = 0;
        while q < source.len()
            invariant
                q <= source@.len(),
                points@ == source@.take(q as int),
            decreases source@.len() - q,
        {
            points.push(source[q]);
            q += 1;
        }
        assert(source@.take(source@.len() as int) =~= source@);
        RawSeries { name, unit, decimals, points }
    }

    /// The series of everything collected, in the order of their names: one for each field of
    /// each group that has a sample.
    pub fn finish(self, schema: &Schema) -> (out: Vec<RawSeries>)
        requires
            self.wf(*schema),
        ensures
            names_in_order(out@),
            exists|ids: Seq<(GroupId, Seq<char>)>| #[trigger]
                are_present(ids, *schema, self.seen()) && lists(out@, *schema, self.seen(), ids),
    {
        let places = self.places(Ghost(*schema));
        let mut names: Vec<String> = Vec::new();
        let mut i: usize = 0;
        while i < places.len()
            invariant
                i <= places@.len(),
                self.wf(*schema),
                forall|at: (usize, usize)| #[trigger]
                    places@.contains(at) <==> is_place(self.groups, at),
                names@.len() == i,
                forall|k: int|
                    0 <= k < i ==> (#[trigger] names@[k])@ == prefix_of(
                        self.seen@,
                        id_at(self.groups, places@[k]).0,
                    ) + "."@ + id_at(self.groups, places@[k]).1,
            decreases places@.len() - i,
        {
            assert(places@.contains(places@[i as int]));
            names.push(self.name_at(places[i], Ghost(*schema)));
            i += 1;
        }
        let order = text_order(&names);
        let mut out: Vec<RawSeries> = Vec::new();
        let ghost mut ids: Seq<(GroupId, Seq<char>)> = Seq::empty();
        let mut j: usize = 0;
        while j < order.len()
            invariant
                j <= order@.len() == places@.len() == names@.len(),
                self.wf(*schema),
                is_text_order(texts_of(names@), order@),
                forall|at: (usize, usize)| #[trigger]
                    places@.contains(at) <==> is_place(self.groups, at),
                forall|k: int|
                    0 <= k < names@.len() ==> (#[trigger] names@[k])@ == prefix_of(
                        self.seen@,
                        id_at(self.groups, places@[k]).0,
                    ) + "."@ + id_at(self.groups, places@[k]).1,
                out@.len() == j,
                ids.len() == j,
                lists(out@, *schema, self.seen@, ids),
                forall|k: int|
                    0 <= k < j ==> #[trigger] ids[k] == id_at(
                        self.groups,
                        places@[order@[k] as int],
                    ) && out@[k].name@ == names@[order@[k] as int]@,
            decreases order@.len() - j,
        {
            let p = order[j];
            assert(places@.contains(places@[p as int]));
            let series = self.series_at(places[p], schema, names[p].clone());
            proof {
                ids = ids.push(id_at(self.groups, places@[p as int]));
            }
            out.push(series);
            j += 1;
        }
        proof {
            assert(names.len() == names@.len());
            self.lemma_all_listed(*schema, places@, names@, order@, ids);
            assert(are_present(ids, *schema, self.seen()));
            assert(lists(out@, *schema, self.seen(), ids));
            assert forall|a: int, b: int| 0 <= a < b < out@.len() implies !lex_lt(
                (#[trigger] out@[b]).name@,
                (#[trigger] out@[a]).name@,
            ) by {
                let x = order@[a] as int;
                let y = order@[b] as int;
                assert(ids[a] == id_at(self.groups, places@[x]));
                assert(ids[b] == id_at(self.groups, places@[y]));
                assert(crate::order::text_precedes(texts_of(names@), x, y));
                if lex_lt(names@[x]@, names@[y]@) {
                    lex_lt_asymmetric(names@[x]@, names@[y]@);
                } else {
                    lex_lt_irreflexive(names@[x]@);
                }
            }
        }
        out
    }

    proof fn lemma_ids_differ(
        self,
        schema: Schema,
        a: (usize, usize),
        b: (usize, usize),
    )
        requires
            self.wf(schema),
            is_place(self.groups, a),
            is_place(self.groups, b),
            id_at(self.groups, a) == id_at(self.groups, b),
        ensures
            a == b,
    {
        self.groups.lemma_at(a.0 as int);
        self.groups.lemma_at(b.0 as int);
        let fields = self.groups.items@[a.0 as int];
        assert(none_empty(fields));
        fields.lemma_at(a.1 as int);
        fields.lemma_at(b.1 as int);
    }

    proof fn lemma_all_listed(
        self,
        schema: Schema,
        places: Seq<(usize, usize)>,
        names: Seq<String>,
        order: Seq<usize>,
        ids: Seq<(GroupId, Seq<char>)>,
    )
        requires
            self.wf(schema),
            places.no_duplicates(),
            places.len() == names.len() <= usize::MAX,
            forall|at: (usize, usize)| #[trigger]
                places.contains(at) <==> is_place(self.groups, at),
            is_text_order(texts_of(names), order),
            ids.len() == order.len(),
            forall|k: int|
                0 <= k < ids.len() ==> #[trigger] ids[k] == id_at(
                    self.groups,
                    places[order[k] as int],
                ),
        ensures
            are_present(ids, schema, self.seen@),
    {
        assert forall|a: int, b: int| 0 <= a < ids.len() && 0 <= b < ids.len() && a
            != b implies ids[a] != ids[b] by {
            let x = order[a] as int;
            let y = order[b] as int;
            if a < b {
                assert(crate::order::text_precedes(texts_of(names), x, y));
            } else {
                assert(crate::order::text_precedes(texts_of(names), y, x));
            }
            lex_lt_irreflexive(names[x]@);
            assert(x != y);
            assert(places[x] != places[y]);
            assert(places.contains(places[x]) && places.contains(places[y]));
            if ids[a] == ids[b] {
                self.lemma_ids_differ(schema, places[x], places[y]);
            }
        }
        assert forall|id: (GroupId, Seq<char>)| #[trigger] ids.contains(id) <==> points(
            schema,
            self.seen@,
            id.0,
            id.1,
        ).len() > 0 by {
            assert(points_at(self.groups, id.0, id.1) == points(schema, self.seen@, id.0, id.1));
            if ids.contains(id) {
                let k = ids.index_of(id);
                assert(ids[k] == id);
                let at = places[order[k] as int];
                assert(places.contains(at));
                self.groups.lemma_at(at.0 as int);
                let fields = self.groups.items@[at.0 as int];
                assert(none_empty(fields));
                fields.lemma_at(at.1 as int);
            }
            if points(schema, self.seen@, id.0, id.1).len() > 0 {
                assert(self.groups.has(id.0));
                let g = self.groups.keys().index_of(id.0);
                assert(self.groups.keys()[g] == id.0);
                let fields = self.groups.items@[g];
                assert(none_empty(fields));
                self.groups.lemma_at(g);
                assert(fields.has(id.1));
                let f = fields.keys().index_of(id.1);
                assert(fields.keys()[f] == id.1);
                assert(self.groups.items.len() == self.groups.items@.len());
                assert(fields.items.len() == fields.items@.len());
                let at = (g as usize, f as usize);
                assert(is_place(self.groups, at));
                assert(places.contains(at));
                let p = places.index_of(at);
                assert(places[p] == at);
                assert(order.contains(p as usize));
                let k = order.index_of(p as usize);
                assert(order[k] == p);
                assert(ids[k] == id_at(self.groups, at));
                assert(ids[k] == id);
            }
        }
    }
}

/// When a record was taken, in microseconds UTC: its first eight bytes, most significant first.
/// A stamp too far ahead for the timeline is none.
pub fn record_time(stamp: &[u8; 8]) -> (r: Option<i64>)
    ensures
        r == if big_endian_value(stamp@) <= i64::MAX {
            Some(big_endian_value(stamp@) as i64)
        } else {
            None::<i64>
        },
{
    let high: u64 = stamp[0] as u64 * 0x100_0000 + stamp[1] as u64 * 0x1_0000 + stamp[2] as u64
        * 0x100 + stamp[3] as u64;
    let low: u64 = stamp[4] as u64 * 0x100_0000 + stamp[5] as u64 * 0x1_0000 + stamp[6] as u64
        * 0x100 + stamp[7] as u64;
    let t: u64 = high * 0x1_0000_0000 + low;
    proof {
        reveal_with_fuel(big_endian_value, 9);
        assert(stamp@.len() == 8);
        assert(big_endian_value(stamp@) == t);
    }
    if t <= i64::MAX as u64 {
        Some(t as i64)
    } else {
        None
    }
}

/// A log that held no message at all.
pub struct NoMessages;

impl NoMessages {
    /// What is said of such a log.
    pub fn message(&self) -> (r: &'static str)
        ensures
            r@ == "no valid MAVLink messages found"@,
    {
        "no valid MAVLink messages found"
    }
}

/// The series of a whole log, in the order of their names. A log without messages is refused.
pub fn import(schema: &Schema, messages: &Vec<Message>) -> (r: Result<Vec<RawSeries>, NoMessages>)
    ensures
        r is Err <==> messages@.len() == 0,
        r matches Ok(out) ==> names_in_order(out@) && exists|ids: Seq<(GroupId, Seq<char>)>|
            #[trigger] are_present(ids, *schema, messages@) && lists(
                out@,
                *schema,
                messages@,
                ids,
            ),
{
    if messages.len() == 0 {
        return Err(NoMessages);
    }
    let mut collector = Collector::new();
    let mut i: usize = 0;
    while i < messages.len()
        invariant
            i <= messages@.len(),
            collector.wf(*schema),
            collector.seen() == messages@.take(i as int),
        decreases messages@.len() - i,
    {
        collector.push_message(schema, &messages[i]);
        assert(messages@.take(i as int).push(messages@[i as int]) =~= messages@.take(i + 1));
        i += 1;
    }
    assert(messages@.take(i as int) =~= messages@);
    Ok(collector.finish(schema))
}

proof fn lemma_elements_mean_something(
    entries: Seq<EnumEntry>,
    path: Seq<char>,
    items: Seq<Json>,
    meta: Option<FieldMeta>,
    n: nat,
    i: int,
)
    requires
        0 <= i < element_samples(entries, path, items, meta, n).len(),
    ensures
        !means_nothing(meta, element_samples(entries, path, items, meta, n)[i].1),
    decreases n,
{
    if n > 0 {
        let before = element_samples(entries, path, items, meta, (n - 1) as nat);
        if i < before.len() {
            lemma_elements_mean_something(entries, path, items, meta, (n - 1) as nat, i);
        }
    }
}

/// What a schema declares to mean that nothing was measured is never a sample, in an array or
/// out of one.
pub proof fn what_means_nothing_is_no_sample(
    entries: Seq<EnumEntry>,
    path: Seq<char>,
    value: Json,
    meta: Option<FieldMeta>,
    i: int,
)
    requires
        0 <= i < value_samples(entries, path, value, meta).len(),
    ensures
        !means_nothing(meta, value_samples(entries, path, value, meta)[i].1),
{
    if let Json::Array(items) = value {
        if is_measurements(items@) {
            lemma_elements_mean_something(entries, path, items@, meta, items@.len(), i);
        }
    }
}

} // verus!
