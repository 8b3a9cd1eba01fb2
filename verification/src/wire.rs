//! How the messages of a MAVLink dialect lie on the wire.
//!
//! A definition lists its fields in an order of its own. On the wire the widest types come first,
//! fields of the same width keep their order, and extensions follow in the order they were added,
//! so that an old reader still finds what it knows. One byte made of the whole layout goes into
//! every checksum, so that two sides with different definitions do not understand each other by
//! accident. Trailing zeros are cut off.
use vstd::prelude::*;

use crate::dialect::{attr, attr_spec, enum_number, parse_enum_value};
use crate::text::{chars_of, find_char, first_of, opt_view, same, text_of};
use crate::xml::{
    attributes, attrs_view, events_view, read_xml, well_formed, xml_events, XmlEvent, XmlKind,
};

verus! {

broadcast use vstd::seq_lib::group_seq_properties;

/// What a field's bytes mean, with their number.
#[derive(Clone, Copy, PartialEq, Eq, Structural, Debug)]
pub enum WireType {
    Unsigned(u8),
    Signed(u8),
    Float(u8),
    Char,
}

impl WireType {
    pub open spec fn size(self) -> int {
        match self {
            WireType::Unsigned(w) => w as int,
            WireType::Signed(w) => w as int,
            WireType::Float(w) => w as int,
            WireType::Char => 1,
        }
    }

    pub open spec fn wf(self) -> bool {
        match self {
            WireType::Unsigned(w) => w == 1 || w == 2 || w == 4 || w == 8,
            WireType::Signed(w) => w == 1 || w == 2 || w == 4 || w == 8,
            WireType::Float(w) => w == 4 || w == 8,
            WireType::Char => true,
        }
    }

    /// How many bytes one value takes.
    pub fn width(self) -> (r: u8)
        ensures
            r == self.size(),
    {
        match self {
            WireType::Unsigned(w) => w,
            WireType::Signed(w) => w,
            WireType::Float(w) => w,
            WireType::Char => 1,
        }
    }
}

/// The type of a name. Anything else is a byte.
pub open spec fn type_spec(name: Seq<char>) -> WireType {
    if name == "double"@ {
        WireType::Float(8)
    } else if name == "float"@ {
        WireType::Float(4)
    } else if name == "uint64_t"@ {
        WireType::Unsigned(8)
    } else if name == "int64_t"@ {
        WireType::Signed(8)
    } else if name == "uint32_t"@ {
        WireType::Unsigned(4)
    } else if name == "int32_t"@ {
        WireType::Signed(4)
    } else if name == "uint16_t"@ {
        WireType::Unsigned(2)
    } else if name == "int16_t"@ {
        WireType::Signed(2)
    } else if name == "int8_t"@ {
        WireType::Signed(1)
    } else if name == "char"@ {
        WireType::Char
    } else {
        WireType::Unsigned(1)
    }
}

/// The type of a name.
pub fn wire_type(name: &str) -> (r: WireType)
    ensures
        r == type_spec(name@),
        r.wf(),
{
    if same(name, "double") {
        WireType::Float(8)
    } else if same(name, "float") {
        WireType::Float(4)
    } else if same(name, "uint64_t") {
        WireType::Unsigned(8)
    } else if same(name, "int64_t") {
        WireType::Signed(8)
    } else if same(name, "uint32_t") {
        WireType::Unsigned(4)
    } else if same(name, "int32_t") {
        WireType::Signed(4)
    } else if same(name, "uint16_t") {
        WireType::Unsigned(2)
    } else if same(name, "int16_t") {
        WireType::Signed(2)
    } else if same(name, "int8_t") {
        WireType::Signed(1)
    } else if same(name, "char") {
        WireType::Char
    } else {
        WireType::Unsigned(1)
    }
}

/// A field of a message.
pub struct WireField {
    pub name: String,
    pub declared_type: String,
    /// How many values it holds, where it is an array.
    pub len: Option<u8>,
    pub extension: bool,
}

/// A field of a message, as contracts speak of it.
#[verifier::ext_equal]
pub struct FieldLayout {
    pub name: Seq<char>,
    pub declared_type: Seq<char>,
    pub len: Option<u8>,
    pub extension: bool,
}

impl View for WireField {
    type V = FieldLayout;

    open spec fn view(&self) -> FieldLayout {
        FieldLayout {
            name: self.name@,
            declared_type: self.declared_type@,
            len: self.len,
            extension: self.extension,
        }
    }
}

/// Fields, as contracts speak of them.
pub open spec fn views(fields: Seq<WireField>) -> Seq<FieldLayout> {
    fields.map_values(|f: WireField| f@)
}

impl FieldLayout {
    pub open spec fn ty(self) -> WireType {
        type_spec(self.declared_type)
    }

    /// How many bytes the field takes.
    pub open spec fn extent(self) -> int {
        match self.len {
            Some(n) => self.ty().size() * n,
            None => self.ty().size(),
        }
    }
}

/// The base of a declared type, and how many there are of it, where it is an array.
pub open spec fn declared_spec(ty: Seq<char>) -> (Seq<char>, Option<u8>) {
    let open = first_of(ty, '[');
    let base = ty.take(open);
    let inner = ty.skip(open + 1);
    let len = if open < ty.len() {
        match enum_number(inner.take(first_of(inner, ']'))) {
            Some(n) => if 0 <= n <= 255 {
                Some(n as u8)
            } else {
                None
            },
            None => None,
        }
    } else {
        None
    };
    (
        if base == "uint8_t_mavlink_version"@ {
            "uint8_t"@
        } else {
            base
        },
        len,
    )
}

/// Takes a declared type such as `uint16_t[4]` apart.
pub fn declared(ty: &str) -> (r: (String, Option<u8>))
    ensures
        (r.0@, r.1) == declared_spec(ty@),
{
    let chars = chars_of(ty);
    let open = find_char(&chars, '[');
    let base = text_of(&chars, 0, open);
    assert(base@ =~= ty@.take(open as int));
    let len: Option<u8> = if open < chars.len() {
        let inner_text = text_of(&chars, open + 1, chars.len());
        assert(inner_text@ =~= ty@.skip(open + 1));
        let inner = chars_of(inner_text.as_str());
        let close = find_char(&inner, ']');
        let digits = text_of(&inner, 0, close);
        assert(digits@ =~= inner@.take(close as int));
        match parse_enum_value(digits.as_str()) {
            Some(n) => if 0 <= n && n <= 255 {
                Some(n as u8)
            } else {
                None
            },
            None => None,
        }
    } else {
        None
    };
    if same(base.as_str(), "uint8_t_mavlink_version") {
        ("uint8_t".to_owned(), len)
    } else {
        (base, len)
    }
}

/// The places of the first `n` fields that are no extension and of a width, in order.
pub open spec fn of_width(fields: Seq<FieldLayout>, width: int, n: nat) -> Seq<usize>
    decreases n,
{
    if n == 0 {
        Seq::empty()
    } else {
        let before = of_width(fields, width, (n - 1) as nat);
        if !fields[n - 1].extension && fields[n - 1].ty().size() == width {
            before.push((n - 1) as usize)
        } else {
            before
        }
    }
}

/// The places of the extensions among the first `n` fields, in order.
pub open spec fn extensions(fields: Seq<FieldLayout>, n: nat) -> Seq<usize>
    decreases n,
{
    if n == 0 {
        Seq::empty()
    } else {
        let before = extensions(fields, (n - 1) as nat);
        if fields[n - 1].extension {
            before.push((n - 1) as usize)
        } else {
            before
        }
    }
}

/// The order of the first `n` fields on the wire.
pub open spec fn wire_order(fields: Seq<FieldLayout>, n: nat) -> Seq<usize> {
    of_width(fields, 8, n) + of_width(fields, 4, n) + of_width(fields, 2, n) + of_width(
        fields,
        1,
        n,
    ) + extensions(fields, n)
}

fn pick(fields: &Vec<WireField>, width: u8, out: &mut Vec<usize>)
    ensures
        final(out)@ == old(out)@ + of_width(views(fields@), width as int, fields@.len()),
{
    let ghost before = out@;
    let mut i: usize = 0;
    assert(out@ =~= before + of_width(views(fields@), width as int, 0));
    while i < fields.len()
        invariant
            i <= fields@.len(),
            out@ == before + of_width(views(fields@), width as int, i as nat),
        decreases fields@.len() - i,
    {
        assert(views(fields@)[i as int] == fields@[i as int]@);
        if !fields[i].extension && wire_type(fields[i].declared_type.as_str()).width() == width {
            out.push(i);
        }
        i += 1;
        assert(out@ =~= before + of_width(views(fields@), width as int, i as nat));
    }
}

/// The order of a message's fields on the wire.
pub fn order_of(fields: &Vec<WireField>) -> (r: Vec<usize>)
    ensures
        r@ == wire_order(views(fields@), fields@.len()),
{
    let mut out: Vec<usize> = Vec::new();
    pick(fields, 8, &mut out);
    pick(fields, 4, &mut out);
    pick(fields, 2, &mut out);
    pick(fields, 1, &mut out);
    let ghost before = out@;
    let mut i: usize = 0;
    assert(out@ =~= before + extensions(views(fields@), 0));
    while i < fields.len()
        invariant
            i <= fields@.len(),
            out@ == before + extensions(views(fields@), i as nat),
        decreases fields@.len() - i,
    {
        assert(views(fields@)[i as int] == fields@[i as int]@);
        if fields[i].extension {
            out.push(i);
        }
        i += 1;
        assert(out@ =~= before + extensions(views(fields@), i as nat));
    }
    assert(before =~= of_width(views(fields@), 8, fields@.len()) + of_width(views(fields@), 4, fields@.len())
        + of_width(views(fields@), 2, fields@.len()) + of_width(views(fields@), 1, fields@.len()));
    out
}

pub proof fn lemma_of_width(fields: Seq<FieldLayout>, width: int, n: nat, k: int)
    requires
        n <= fields.len() <= usize::MAX,
        0 <= k < of_width(fields, width, n).len(),
    ensures
        of_width(fields, width, n)[k] < n,
        !fields[of_width(fields, width, n)[k] as int].extension,
        fields[of_width(fields, width, n)[k] as int].ty().size() == width,
    decreases n,
{
    if n > 0 && k < of_width(fields, width, (n - 1) as nat).len() {
        lemma_of_width(fields, width, (n - 1) as nat, k);
    }
}

pub proof fn lemma_extensions(fields: Seq<FieldLayout>, n: nat, k: int)
    requires
        n <= fields.len() <= usize::MAX,
        0 <= k < extensions(fields, n).len(),
    ensures
        extensions(fields, n)[k] < n,
        fields[extensions(fields, n)[k] as int].extension,
    decreases n,
{
    if n > 0 && k < extensions(fields, (n - 1) as nat).len() {
        lemma_extensions(fields, (n - 1) as nat, k);
    }
}

proof fn lemma_counts(fields: Seq<FieldLayout>, n: nat)
    requires
        n <= fields.len(),
    ensures
        of_width(fields, 8, n).len() + of_width(fields, 4, n).len() + of_width(fields, 2, n).len()
            + of_width(fields, 1, n).len() + extensions(fields, n).len() == n,
    decreases n,
{
    if n > 0 {
        lemma_counts(fields, (n - 1) as nat);
        let ty = fields[n - 1].ty();
        assert(ty.wf());
    }
}

/// Every field has a place on the wire, there are as many places as fields, and each is one of
/// the message's own.
pub proof fn every_field_has_its_place(fields: Seq<FieldLayout>)
    requires
        fields.len() <= usize::MAX,
    ensures
        wire_order(fields, fields.len()).len() == fields.len(),
        forall|k: int|
            0 <= k < fields.len() ==> (#[trigger] wire_order(fields, fields.len())[k])
                < fields.len(),
        forall|i: int|
            0 <= i < fields.len() ==> wire_order(fields, fields.len()).contains(
                #[trigger] (i as usize),
            ),
{
    let n = fields.len();
    lemma_counts(fields, n);
    let (a, b, c, d, e) = (
        of_width(fields, 8, n),
        of_width(fields, 4, n),
        of_width(fields, 2, n),
        of_width(fields, 1, n),
        extensions(fields, n),
    );
    let all = wire_order(fields, n);
    assert forall|k: int| 0 <= k < n implies (#[trigger] all[k]) < n by {
        if k < a.len() {
            lemma_of_width(fields, 8, n, k);
        } else if k < a.len() + b.len() {
            lemma_of_width(fields, 4, n, k - a.len());
        } else if k < a.len() + b.len() + c.len() {
            lemma_of_width(fields, 2, n, k - a.len() - b.len());
        } else if k < a.len() + b.len() + c.len() + d.len() {
            lemma_of_width(fields, 1, n, k - a.len() - b.len() - c.len());
        } else {
            lemma_extensions(fields, n, k - a.len() - b.len() - c.len() - d.len());
        }
    }
    assert forall|i: int| 0 <= i < n implies all.contains(#[trigger] (i as usize)) by {
        lemma_found(fields, n, i);
        let ty = fields[i].ty();
        assert(ty.wf());
        if fields[i].extension {
            let k = choose|k: int| 0 <= k < e.len() && e[k] == i;
            assert(all[a.len() + b.len() + c.len() + d.len() + k] == i as usize);
        } else if ty.size() == 8 {
            let k = choose|k: int| 0 <= k < a.len() && a[k] == i;
            assert(all[k] == i as usize);
        } else if ty.size() == 4 {
            let k = choose|k: int| 0 <= k < b.len() && b[k] == i;
            assert(all[a.len() + k] == i as usize);
        } else if ty.size() == 2 {
            let k = choose|k: int| 0 <= k < c.len() && c[k] == i;
            assert(all[a.len() + b.len() + k] == i as usize);
        } else {
            let k = choose|k: int| 0 <= k < d.len() && d[k] == i;
            assert(all[a.len() + b.len() + c.len() + k] == i as usize);
        }
    }
}

proof fn lemma_found(fields: Seq<FieldLayout>, n: nat, i: int)
    requires
        0 <= i < n <= fields.len() <= usize::MAX,
    ensures
        fields[i].extension ==> exists|k: int|
            0 <= k < extensions(fields, n).len() && extensions(fields, n)[k] == i,
        !fields[i].extension ==> exists|k: int|
            0 <= k < of_width(fields, fields[i].ty().size(), n).len() && of_width(
                fields,
                fields[i].ty().size(),
                n,
            )[k] == i,
    decreases n,
{
    let w = fields[i].ty().size();
    let m = (n - 1) as nat;
    if i < n - 1 {
        lemma_found(fields, m, i);
        if fields[i].extension {
            let k = choose|k: int|
                0 <= k < extensions(fields, m).len() && extensions(fields, m)[k] == i;
            assert(extensions(fields, n)[k] == i);
        } else {
            let k = choose|k: int| 0 <= k < of_width(fields, w, m).len() && of_width(fields, w, m)[k] == i;
            assert(of_width(fields, w, n)[k] == i);
        }
    } else if fields[i].extension {
        assert(extensions(fields, n)[extensions(fields, m).len() as int] == i);
    } else {
        assert(of_width(fields, w, n)[of_width(fields, w, m).len() as int] == i);
    }
}

/// The byte of a character in the texts of a definition, which are ASCII.
pub open spec fn byte_of(c: char) -> u8 {
    ((c as u32) % 256) as u8
}

/// The bytes of a text.
pub open spec fn bytes_of(s: Seq<char>) -> Seq<u8> {
    s.map_values(|c: char| byte_of(c))
}

fn push_text(out: &mut Vec<u8>, s: &str)
    ensures
        final(out)@ == old(out)@ + bytes_of(s@),
{
    let chars = chars_of(s);
    let ghost before = out@;
    let mut i: usize = 0;
    assert(out@ =~= before + bytes_of(chars@.take(0)));
    while i < chars.len()
        invariant
            i <= chars@.len(),
            out@ == before + bytes_of(chars@.take(i as int)),
        decreases chars@.len() - i,
    {
        let c: u32 = chars[i] as u32;
        out.push((c % 256) as u8);
        i += 1;
        assert(chars@.take(i as int) =~= chars@.take(i - 1).push(chars@[i - 1]));
        assert(out@ =~= before + bytes_of(chars@.take(i as int)));
    }
    assert(chars@.take(i as int) =~= chars@);
}

/// What a field adds to the text that a message's checksum byte is made of.
pub open spec fn field_text(f: FieldLayout) -> Seq<u8> {
    let named = bytes_of(f.declared_type) + seq![32u8] + bytes_of(f.name) + seq![32u8];
    match f.len {
        Some(n) => named.push(n),
        None => named,
    }
}

/// What the first `n` fields on the wire add to it. An old reader knows of no extensions, so they
/// add nothing.
pub open spec fn fields_text(fields: Seq<FieldLayout>, order: Seq<usize>, n: nat) -> Seq<u8>
    decreases n,
{
    if n == 0 {
        Seq::empty()
    } else {
        let before = fields_text(fields, order, (n - 1) as nat);
        let f = fields[order[n - 1] as int];
        if f.extension {
            before
        } else {
            before + field_text(f)
        }
    }
}

/// The text that a message's checksum byte is made of.
pub open spec fn message_text(
    name: Seq<char>,
    fields: Seq<FieldLayout>,
    order: Seq<usize>,
) -> Seq<u8> {
    bytes_of(name) + seq![32u8] + fields_text(fields, order, order.len())
}

/// The text that a message's checksum byte is made of.
pub fn checksum_text(name: &str, fields: &Vec<WireField>, order: &Vec<usize>) -> (r: Vec<u8>)
    requires
        forall|k: int| 0 <= k < order@.len() ==> (#[trigger] order@[k]) < fields@.len(),
    ensures
        r@ == message_text(name@, views(fields@), order@),
        r@.len() > 0,
{
    let mut out: Vec<u8> = Vec::new();
    push_text(&mut out, name);
    out.push(32);
    let ghost head = out@;
    assert(head =~= bytes_of(name@) + seq![32u8]);
    let mut k: usize = 0;
    assert(out@ =~= head + fields_text(views(fields@), order@, 0));
    while k < order.len()
        invariant
            k <= order@.len(),
            forall|j: int| 0 <= j < order@.len() ==> (#[trigger] order@[j]) < fields@.len(),
            out@ == head + fields_text(views(fields@), order@, k as nat),
        decreases order@.len() - k,
    {
        let ghost before = out@;
        let f = &fields[order[k]];
        assert(views(fields@)[order@[k as int] as int] == f@);
        if !f.extension {
            push_text(&mut out, f.declared_type.as_str());
            out.push(32);
            push_text(&mut out, f.name.as_str());
            out.push(32);
            if let Some(n) = f.len {
                out.push(n);
            }
            assert(out@ =~= before + field_text(f@));
        }
        k += 1;
        assert(out@ =~= head + fields_text(views(fields@), order@, k as nat));
    }
    out
}

/// A checksum after `n` of its bits, the lowest first: the polynomial 0x1021, reflected.
pub open spec fn checksum_bits(sum: u16, n: nat) -> u16
    decreases n,
{
    if n == 0 {
        sum
    } else {
        let before = checksum_bits(sum, (n - 1) as nat);
        if before & 1 != 0 {
            (before >> 1) ^ 0x8408
        } else {
            before >> 1
        }
    }
}

/// MAVLink's checksum of the first `n` bytes of some data: CRC-16/MCRF4XX, which begins with all
/// bits set.
pub open spec fn checksum_spec(data: Seq<u8>, n: nat) -> u16
    decreases n,
{
    if n == 0 {
        0xFFFF
    } else {
        checksum_bits(checksum_spec(data, (n - 1) as nat) ^ (data[n - 1] as u16), 8)
    }
}

/// `mavlink_core::calculate_crc`: the checksum of some bytes and one more. It claims that this is
/// CRC-16/MCRF4XX over them, which is what the crate sets up and feeds in this order.
#[verifier::external_body]
fn checksum(data: &[u8], last: u8) -> (r: u16)
    ensures
        r == checksum_spec(data@.push(last), data@.len() + 1),
{
    mavlink_core::calculate_crc(data, last)
}

/// The byte that stands for a layout, out of the checksum of its text: its halves, laid over each
/// other.
pub open spec fn extra_spec(crc: u16) -> u8 {
    ((crc % 256) as u8) ^ ((crc / 256) as u8)
}

/// The byte that stands for a layout, out of the checksum of its text.
pub fn extra_of(crc: u16) -> (r: u8)
    ensures
        r == extra_spec(crc),
{
    ((crc % 256) as u8) ^ ((crc / 256) as u8)
}

/// The byte that stands for a message's layout.
pub open spec fn extra_byte(name: Seq<char>, fields: Seq<FieldLayout>) -> u8 {
    let text = message_text(name, fields, wire_order(fields, fields.len()));
    extra_spec(checksum_spec(text, text.len()))
}

/// A message's layout.
pub struct Layout {
    pub id: u32,
    pub name: String,
    /// As they were defined.
    pub fields: Vec<WireField>,
    /// The places of the fields, in their order on the wire.
    pub order: Vec<usize>,
    /// What goes into the checksum of every such message.
    pub extra_crc: u8,
}

/// A message's layout, as contracts speak of it.
#[verifier::ext_equal]
pub struct LayoutState {
    pub id: u32,
    pub name: Seq<char>,
    pub fields: Seq<FieldLayout>,
    pub order: Seq<usize>,
    pub extra_crc: u8,
}

impl View for Layout {
    type V = LayoutState;

    open spec fn view(&self) -> LayoutState {
        LayoutState {
            id: self.id,
            name: self.name@,
            fields: views(self.fields@),
            order: self.order@,
            extra_crc: self.extra_crc,
        }
    }
}

/// The layout of a message of some fields.
pub open spec fn laid_out(id: u32, name: Seq<char>, fields: Seq<FieldLayout>) -> LayoutState {
    LayoutState {
        id,
        name,
        fields,
        order: wire_order(fields, fields.len()),
        extra_crc: extra_byte(name, fields),
    }
}

impl Layout {
    pub open spec fn wf(self) -> bool {
        self.order@ == wire_order(views(self.fields@), self.fields@.len())
    }

    /// Lays a message out.
    pub fn new(id: u32, name: String, fields: Vec<WireField>) -> (r: Self)
        ensures
            r.wf(),
            r@ == laid_out(id, name@, views(fields@)),
            r.fields@ == fields@,
    {
        let order = order_of(&fields);
        let count: usize = fields.len();
        proof {
            assert(fields@.len() == count);
            every_field_has_its_place(views(fields@));
        }
        let mut text = checksum_text(name.as_str(), &fields, &order);
        let ghost whole = text@;
        let last: u8 = match text.pop() {
            Some(last) => last,
            None => 0,
        };
        assert(text@.push(last) =~= whole);
        let extra_crc = extra_of(checksum(text.as_slice(), last));
        Layout { id, name, fields, order, extra_crc }
    }
}

/// The byte at a place of a payload. Trailing zeros are cut off, so there is one past its end.
pub open spec fn byte_at(payload: Seq<u8>, at: int) -> int {
    if 0 <= at < payload.len() {
        payload[at] as int
    } else {
        0
    }
}

/// The number that some bytes of a payload are, the lowest first.
pub open spec fn number_at(payload: Seq<u8>, at: int, bytes: nat) -> int
    decreases bytes,
{
    if bytes == 0 {
        0
    } else {
        byte_at(payload, at) + 256 * number_at(payload, at + 1, (bytes - 1) as nat)
    }
}

/// How many numbers some bytes can be.
pub open spec fn numbers(bytes: nat) -> int
    decreases bytes,
{
    if bytes == 0 {
        1
    } else {
        256 * numbers((bytes - 1) as nat)
    }
}

fn read(payload: &[u8], at: u128, bytes: u8) -> (r: u64)
    requires
        bytes <= 8,
        at + bytes <= u128::MAX,
    ensures
        r == number_at(payload@, at as int, bytes as nat),
        r < numbers(bytes as nat),
    decreases bytes,
{
    proof {
        reveal_with_fuel(numbers, 9);
    }
    if bytes == 0 {
        return 0;
    }
    let rest: u64 = read(payload, at + 1, bytes - 1);
    let low: u64 = if at < payload.len() as u128 {
        payload[at as usize] as u64
    } else {
        0
    };
    proof {
        lemma_numbers_grow(bytes as nat, 8);
        assert(256 * rest <= 256 * (numbers((bytes - 1) as nat) - 1));
    }
    low + 256 * rest
}

proof fn lemma_numbers_grow(a: nat, b: nat)
    requires
        a <= b,
    ensures
        0 < numbers(a) <= numbers(b),
    decreases b,
{
    if b > 0 {
        if a < b {
            lemma_numbers_grow(a, (b - 1) as nat);
        } else {
            lemma_numbers_grow((a - 1) as nat, (b - 1) as nat);
        }
    }
}

/// One value off the wire. What a float's bits are worth is left to the reader.
#[derive(Clone, Copy, PartialEq, Eq, Structural, Debug)]
pub enum Scalar {
    Unsigned(u64),
    Signed(i64),
    Single(u32),
    Double(u64),
}

/// The signed number of as many bytes that a number is the two's complement of.
pub open spec fn signed_spec(n: int, bytes: nat) -> int {
    if 2 * n < numbers(bytes) {
        n
    } else {
        n - numbers(bytes)
    }
}

/// The value of a type at a place of a payload.
pub open spec fn scalar_spec(ty: WireType, payload: Seq<u8>, at: int) -> Scalar {
    let n = number_at(payload, at, ty.size() as nat);
    match ty {
        WireType::Unsigned(_) => Scalar::Unsigned(n as u64),
        WireType::Signed(w) => Scalar::Signed(signed_spec(n, w as nat) as i64),
        WireType::Float(w) => if w == 4 {
            Scalar::Single(n as u32)
        } else {
            Scalar::Double(n as u64)
        },
        WireType::Char => Scalar::Unsigned(n as u64),
    }
}

/// The value of a type at a place of a payload.
pub fn scalar(ty: WireType, payload: &[u8], at: u128) -> (r: Scalar)
    requires
        ty.wf(),
        at + 8 <= u128::MAX,
    ensures
        r == scalar_spec(ty, payload@, at as int),
{
    let width: u8 = ty.width();
    let n: u64 = read(payload, at, width);
    proof {
        reveal_with_fuel(numbers, 9);
    }
    match ty {
        WireType::Unsigned(_) => Scalar::Unsigned(n),
        WireType::Signed(w) => {
            let all: i128 = if w == 1 {
                0x100
            } else if w == 2 {
                0x1_0000
            } else if w == 4 {
                0x1_0000_0000
            } else {
                0x1_0000_0000_0000_0000
            };
            assert(all == numbers(w as nat));
            let v: i128 = if 2 * (n as i128) < all {
                n as i128
            } else {
                n as i128 - all
            };
            Scalar::Signed(v as i64)
        },
        WireType::Float(w) => if w == 4 {
            Scalar::Single(n as u32)
        } else {
            Scalar::Double(n)
        },
        WireType::Char => Scalar::Unsigned(n),
    }
}

/// A field's value.
pub enum WireValue {
    One(Scalar),
    List(Vec<Scalar>),
    /// The bytes of a text, up to the first zero.
    Text(Vec<u8>),
}

/// The bytes of a payload from a place on, up to the first zero, and no more than so many.
pub open spec fn until_zero(payload: Seq<u8>, at: int, most: nat) -> Seq<u8>
    decreases most,
{
    if most == 0 || byte_at(payload, at) == 0 {
        Seq::empty()
    } else {
        seq![byte_at(payload, at) as u8] + until_zero(payload, at + 1, (most - 1) as nat)
    }
}

/// Whether a value is what a field holds at a place of a payload.
pub open spec fn is_value(v: WireValue, f: FieldLayout, payload: Seq<u8>, at: int) -> bool {
    match f.len {
        None => v == WireValue::One(scalar_spec(f.ty(), payload, at)),
        Some(n) => if f.ty() == WireType::Char {
            v matches WireValue::Text(bytes) && bytes@ == until_zero(payload, at, n as nat)
        } else {
            v matches WireValue::List(items) && items@.len() == n && forall|j: int|
                0 <= j < n ==> #[trigger] items@[j] == scalar_spec(
                    f.ty(),
                    payload,
                    at + j * f.ty().size(),
                )
        },
    }
}

fn read_text(payload: &[u8], at: u128, most: u8) -> (r: Vec<u8>)
    requires
        at + 255 <= u128::MAX,
    ensures
        r@ == until_zero(payload@, at as int, most as nat),
{
    let mut out: Vec<u8> = Vec::new();
    let mut i: u8 = 0;
    assert(out@ + until_zero(payload@, at as int, most as nat) =~= until_zero(
        payload@,
        at as int,
        most as nat,
    ));
    while i < most
        invariant
            i <= most,
            at + 255 <= u128::MAX,
            out@ + until_zero(payload@, at + i, (most - i) as nat) == until_zero(
                payload@,
                at as int,
                most as nat,
            ),
        decreases most - i,
    {
        let here: u128 = at + i as u128;
        let b: u8 = if here < payload.len() as u128 {
            payload[here as usize]
        } else {
            0
        };
        if b == 0 {
            assert(until_zero(payload@, at + i, (most - i) as nat) =~= Seq::empty());
            assert(out@ =~= until_zero(payload@, at as int, most as nat));
            return out;
        }
        let ghost before = out@;
        out.push(b);
        i += 1;
        assert(out@ + until_zero(payload@, at + i, (most - i) as nat) =~= before + until_zero(
            payload@,
            at + i - 1,
            (most - i + 1) as nat,
        ));
    }
    assert(out@ =~= out@ + until_zero(payload@, at + i, 0));
    out
}

fn read_value(f: &WireField, payload: &[u8], at: u128) -> (r: WireValue)
    requires
        at + 4096 <= u128::MAX,
    ensures
        is_value(r, f@, payload@, at as int),
{
    let ty = wire_type(f.declared_type.as_str());
    match f.len {
        None => WireValue::One(scalar(ty, payload, at)),
        Some(n) => {
            if ty == WireType::Char {
                return WireValue::Text(read_text(payload, at, n));
            }
            let width: u8 = ty.width();
            let mut items: Vec<Scalar> = Vec::new();
            let mut place: u128 = at;
            let mut j: u8 = 0;
            while j < n
                invariant
                    j <= n,
                    ty.wf(),
                    ty == f@.ty(),
                    width == ty.size(),
                    at + 4096 <= u128::MAX,
                    place == at + j * width,
                    place <= at + 8 * j,
                    items@.len() == j,
                    forall|i: int|
                        0 <= i < j ==> #[trigger] items@[i] == scalar_spec(
                            f@.ty(),
                            payload@,
                            at + i * f@.ty().size(),
                        ),
                decreases n - j,
            {
                items.push(scalar(ty, payload, place));
                proof {
                    assert((j + 1) * width == j * width + width) by (nonlinear_arith);
                }
                place += width as u128;
                j += 1;
            }
            WireValue::List(items)
        },
    }
}

/// The name that a field's values come under.
pub open spec fn value_name(name: Seq<char>) -> Seq<char> {
    if name == "type"@ {
        "mavtype"@
    } else {
        name
    }
}

/// Where the `k`th field on the wire begins.
pub open spec fn start(fields: Seq<FieldLayout>, order: Seq<usize>, k: nat) -> int
    decreases k,
{
    if k == 0 {
        0
    } else {
        start(fields, order, (k - 1) as nat) + fields[order[k - 1] as int].extent()
    }
}

impl Layout {
    /// Takes a payload apart, in the order of the wire. What is missing at its end was zero.
    pub fn decode(&self, payload: &[u8]) -> (r: Vec<(String, WireValue)>)
        requires
            self.wf(),
        ensures
            r@.len() == self.fields@.len(),
            forall|k: int|
                0 <= k < r@.len() ==> (#[trigger] r@[k]).0@ == value_name(
                    self@.fields[self@.order[k] as int].name,
                ) && is_value(
                    r@[k].1,
                    self@.fields[self@.order[k] as int],
                    payload@,
                    start(self@.fields, self@.order, k as nat),
                ),
    {
        let total: usize = self.fields.len();
        proof {
            assert(self.fields@.len() == total);
            every_field_has_its_place(views(self.fields@));
        }
        let mut out: Vec<(String, WireValue)> = Vec::with_capacity(total);
        let mut at: u128 = 0;
        let mut k: usize = 0;
        while k < self.order.len()
            invariant
                k <= self.order@.len() == self.fields@.len(),
                forall|j: int|
                    0 <= j < self.order@.len() ==> (#[trigger] self.order@[j])
                        < self.fields@.len(),
                at == start(self@.fields, self@.order, k as nat),
                at <= 2040 * k,
                out@.len() == k,
                forall|j: int|
                    0 <= j < k ==> (#[trigger] out@[j]).0@ == value_name(
                        self@.fields[self@.order[j] as int].name,
                    ) && is_value(
                        out@[j].1,
                        self@.fields[self@.order[j] as int],
                        payload@,
                        start(self@.fields, self@.order, j as nat),
                    ),
            decreases self.order@.len() - k,
        {
            let f = &self.fields[self.order[k]];
            assert(self@.fields[self@.order[k as int] as int] == f@);
            let name = if same(f.name.as_str(), "type") {
                "mavtype".to_owned()
            } else {
                f.name.as_str().to_owned()
            };
            let value = read_value(f, payload, at);
            out.push((name, value));
            let width: u8 = wire_type(f.declared_type.as_str()).width();
            let count: u8 = match f.len {
                Some(n) => n,
                None => 1,
            };
            proof {
                assert(0 <= width * count <= 8 * 255) by (nonlinear_arith)
                    requires
                        0 <= width <= 8,
                        0 <= count <= 255,
                ;
                assert(f@.ty().wf());
            }
            at += width as u128 * count as u128;
            k += 1;
        }
        out
    }
}

proof fn lemma_padded_number(payload: Seq<u8>, zeros: Seq<u8>, at: int, bytes: nat)
    requires
        forall|i: int| 0 <= i < zeros.len() ==> #[trigger] zeros[i] == 0,
    ensures
        number_at(payload + zeros, at, bytes) == number_at(payload, at, bytes),
    decreases bytes,
{
    if bytes > 0 {
        lemma_padded_number(payload, zeros, at + 1, (bytes - 1) as nat);
    }
}

proof fn lemma_padded_text(payload: Seq<u8>, zeros: Seq<u8>, at: int, most: nat)
    requires
        forall|i: int| 0 <= i < zeros.len() ==> #[trigger] zeros[i] == 0,
    ensures
        until_zero(payload + zeros, at, most) == until_zero(payload, at, most),
    decreases most,
{
    if most > 0 {
        lemma_padded_text(payload, zeros, at + 1, (most - 1) as nat);
    }
}

/// A field holds the same with the zeros that are cut off at the end of a payload and without
/// them.
pub proof fn trailing_zeros_mean_nothing(
    v: WireValue,
    f: FieldLayout,
    payload: Seq<u8>,
    zeros: Seq<u8>,
    at: int,
)
    requires
        forall|i: int| 0 <= i < zeros.len() ==> #[trigger] zeros[i] == 0,
    ensures
        is_value(v, f, payload + zeros, at) == is_value(v, f, payload, at),
{
    let size = f.ty().size();
    assert forall|place: int| #[trigger]
        scalar_spec(f.ty(), payload + zeros, place) == scalar_spec(f.ty(), payload, place) by {
        lemma_padded_number(payload, zeros, place, size as nat);
    }
    if let Some(n) = f.len {
        lemma_padded_text(payload, zeros, at, n as nat);
    }
}

/// A message whose definition is being read.
pub struct Pending {
    pub id: u32,
    pub name: String,
    pub fields: Vec<WireField>,
}

/// Collects the layouts of a dialect, tag by tag.
pub struct Wire {
    pub layouts: Vec<Layout>,
    /// The message that the reader is inside of.
    pub message: Option<Pending>,
    /// Whether the fields to come are extensions.
    pub extension: bool,
}

/// The number of a message as its definition writes it.
pub open spec fn id_spec(raw: Option<Seq<char>>) -> Option<u32> {
    match raw {
        Some(text) => match enum_number(text) {
            Some(n) => if 0 <= n <= u32::MAX {
                Some(n as u32)
            } else {
                None
            },
            None => None,
        },
        None => None,
    }
}

fn message_id(raw: &Option<String>) -> (r: Option<u32>)
    ensures
        r == id_spec(opt_view(*raw)),
{
    match raw {
        Some(text) => match parse_enum_value(text.as_str()) {
            Some(n) => if 0 <= n && n <= 0xFFFF_FFFF {
                Some(n as u32)
            } else {
                None
            },
            None => None,
        },
        None => None,
    }
}

/// The place of the last of the first `n` layouts under a number.
pub open spec fn last_under(layouts: Seq<Layout>, id: u32, n: nat) -> Option<int>
    decreases n,
{
    if n == 0 {
        None
    } else if layouts[n - 1].id == id {
        Some(n - 1)
    } else {
        last_under(layouts, id, (n - 1) as nat)
    }
}

/// How far the layouts of a dialect have been collected.
#[verifier::ext_equal]
pub struct WireState {
    pub layouts: Seq<LayoutState>,
    /// The message that the reader is inside of: its number, its name and its fields so far.
    pub message: Option<(u32, Seq<char>, Seq<FieldLayout>)>,
    pub extension: bool,
}

impl WireState {
    /// The state after a tag was opened.
    pub open spec fn opened(self, tag: Seq<char>, attrs: Seq<(Seq<char>, Seq<char>)>) -> WireState {
        if tag == "message"@ {
            WireState {
                extension: false,
                message: match (id_spec(attr_spec(attrs, "id"@)), attr_spec(attrs, "name"@)) {
                    (Some(id), Some(name)) => Some((id, name, Seq::empty())),
                    _ => None,
                },
                ..self
            }
        } else if tag == "extensions"@ {
            WireState { extension: true, ..self }
        } else if tag == "field"@ {
            match (self.message, attr_spec(attrs, "name"@), attr_spec(attrs, "type"@)) {
                (Some((id, message, fields)), Some(name), Some(ty)) => {
                    let (declared_type, len) = declared_spec(ty);
                    let field = FieldLayout { name, declared_type, len, extension: self.extension };
                    WireState { message: Some((id, message, fields.push(field))), ..self }
                },
                _ => self,
            }
        } else {
            self
        }
    }

    /// The state after a tag was closed.
    pub open spec fn closed(self, tag: Seq<char>) -> WireState {
        if tag == "message"@ {
            WireState {
                layouts: match self.message {
                    Some((id, name, fields)) => self.layouts.push(laid_out(id, name, fields)),
                    None => self.layouts,
                },
                message: None,
                ..self
            }
        } else {
            self
        }
    }

    /// The state after one place of a document.
    pub open spec fn step(
        self,
        event: (XmlKind, Seq<char>, Seq<Option<(Seq<char>, Seq<char>)>>),
    ) -> WireState {
        match event.0 {
            XmlKind::Start => self.opened(event.1, well_formed(event.2, event.2.len())),
            XmlKind::Empty => self.opened(event.1, well_formed(event.2, event.2.len())),
            XmlKind::End => self.closed(event.1),
            XmlKind::Other => self,
        }
    }

    /// The state after a document.
    pub open spec fn after(
        self,
        events: Seq<(XmlKind, Seq<char>, Seq<Option<(Seq<char>, Seq<char>)>>)>,
    ) -> WireState
        decreases events.len(),
    {
        if events.len() == 0 {
            self
        } else {
            self.after(events.drop_last()).step(events.last())
        }
    }
}

impl View for Wire {
    type V = WireState;

    open spec fn view(&self) -> WireState {
        WireState {
            layouts: self.layouts@.map_values(|l: Layout| l@),
            message: match self.message {
                Some(m) => Some((m.id, m.name@, views(m.fields@))),
                None => None,
            },
            extension: self.extension,
        }
    }
}

impl Wire {
    pub open spec fn wf(self) -> bool {
        forall|i: int| 0 <= i < self.layouts@.len() ==> (#[trigger] self.layouts@[i]).wf()
    }

    pub fn new() -> (r: Self)
        ensures
            r.wf(),
            r@.layouts.len() == 0,
            r@.message is None,
            !r@.extension,
    {
        Wire { layouts: Vec::new(), message: None, extension: false }
    }

    /// Takes in a tag that was opened.
    pub fn open(&mut self, tag: &str, attrs: &Vec<(String, String)>)
        ensures
            old(self).wf() ==> final(self).wf(),
            final(self)@ == old(self)@.opened(tag@, attrs_view(attrs@)),
    {
        if same(tag, "message") {
            self.extension = false;
            self.message = match (message_id(&attr(attrs, "id")), attr(attrs, "name")) {
                (Some(id), Some(name)) => {
                    let fields: Vec<WireField> = Vec::new();
                    assert(views(fields@) =~= Seq::empty());
                    Some(Pending { id, name, fields })
                },
                _ => None,
            };
        } else if same(tag, "extensions") {
            self.extension = true;
        } else if same(tag, "field") {
            let extension = self.extension;
            if let (Some(name), Some(ty)) = (attr(attrs, "name"), attr(attrs, "type")) {
                if let Some(message) = &mut self.message {
                    let (declared_type, len) = declared(ty.as_str());
                    let ghost before = message.fields@;
                    let field = WireField { name, declared_type, len, extension };
                    let ghost added = field@;
                    message.fields.push(field);
                    assert(views(message.fields@) =~= views(before).push(added));
                }
            }
        }
    }

    /// Takes in a tag that was closed.
    pub fn close(&mut self, tag: &str)
        ensures
            old(self).wf() ==> final(self).wf(),
            final(self)@ == old(self)@.closed(tag@),
    {
        if same(tag, "message") {
            let ghost before = self@.layouts;
            let message = self.message.take();
            if let Some(m) = message {
                let layout = Layout::new(m.id, m.name, m.fields);
                let ghost added = layout@;
                self.layouts.push(layout);
                assert(self@.layouts =~= before.push(added));
            }
        }
    }

    /// Takes in what is in a document.
    pub fn take(&mut self, events: &Vec<XmlEvent>)
        ensures
            old(self).wf() ==> final(self).wf(),
            final(self)@ == old(self)@.after(events_view(events@)),
    {
        let ghost all = events_view(events@);
        let mut i: usize = 0;
        assert(all.take(0) =~= Seq::empty());
        while i < events.len()
            invariant
                i <= events@.len(),
                all == events_view(events@),
                old(self).wf() ==> self.wf(),
                self@ == old(self)@.after(all.take(i as int)),
            decreases events@.len() - i,
        {
            let event = &events[i];
            proof {
                assert(all.take(i + 1).drop_last() =~= all.take(i as int));
                assert(all.take(i + 1).last() == event@);
            }
            match event {
                XmlEvent::Start(tag, attrs) => self.open(tag.as_str(), &attributes(attrs)),
                XmlEvent::Empty(tag, attrs) => self.open(tag.as_str(), &attributes(attrs)),
                XmlEvent::End(tag) => self.close(tag.as_str()),
                XmlEvent::Other => {},
            }
            i += 1;
        }
        assert(all.take(i as int) =~= all);
    }

    /// Reads a document of definitions. A malformed one leaves no trace.
    pub fn read(&mut self, text: &str) -> (ok: bool)
        ensures
            old(self).wf() ==> final(self).wf(),
            ok <==> xml_events(text@) is Some,
            final(self)@ == match xml_events(text@) {
                Some(events) => old(self)@.after(events),
                None => old(self)@,
            },
    {
        match read_xml(text) {
            Some(events) => {
                self.take(&events);
                true
            },
            None => false,
        }
    }

    /// The layout of the messages under a number. A later definition takes the place of an
    /// earlier one.
    pub fn find(&self, id: u32) -> (r: Option<&Layout>)
        ensures
            match last_under(self.layouts@, id, self.layouts@.len()) {
                Some(i) => r == Some(&self.layouts@[i]),
                None => r is None,
            },
            r matches Some(l) ==> l.id == id && (self.wf() ==> l.wf()),
    {
        let mut n: usize = self.layouts.len();
        while n > 0
            invariant
                n <= self.layouts@.len(),
                last_under(self.layouts@, id, self.layouts@.len()) == last_under(
                    self.layouts@,
                    id,
                    n as nat,
                ),
            decreases n,
        {
            if self.layouts[n - 1].id == id {
                return Some(&self.layouts[n - 1]);
            }
            n -= 1;
        }
        None
    }
}

} // verus!
