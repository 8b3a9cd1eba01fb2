//! Text as sequences of characters: what the labels, names and filters of the analyzer are
//! made of.
use vstd::prelude::*;

use crate::double::half_even;

verus! {

broadcast use vstd::seq_lib::group_seq_properties;

/// `String::push` of std: appends the character to the end of the string.
pub assume_specification[ String::push ](s: &mut String, c: char)
    ensures
        final(s)@ == old(s)@.push(c),
;

/// The character of a digit below sixteen, letters in upper case.
pub open spec fn digit(d: int) -> char {
    if d < 10 {
        (48 + d) as char
    } else {
        (55 + d) as char
    }
}

/// The character of a digit below sixteen, letters in lower case.
pub open spec fn digit_lower(d: int) -> char {
    if d < 10 {
        (48 + d) as char
    } else {
        (87 + d) as char
    }
}

/// A natural number in decimal.
pub open spec fn dec(n: nat) -> Seq<char>
    decreases n,
{
    if n < 10 {
        seq![digit(n as int)]
    } else {
        dec(n / 10).push(digit((n % 10) as int))
    }
}

/// An integer in decimal.
pub open spec fn dec_int(n: int) -> Seq<char> {
    if n < 0 {
        "-"@ + dec((-n) as nat)
    } else {
        dec(n as nat)
    }
}

/// A natural number in decimal, filled up with zeros to at least `width` digits.
pub open spec fn dec_padded(n: nat, width: nat) -> Seq<char>
    decreases n, width,
{
    if n < 10 && width <= 1 {
        seq![digit(n as int)]
    } else {
        dec_padded(n / 10, if width == 0 { 0 } else { (width - 1) as nat }).push(
            digit((n % 10) as int),
        )
    }
}

/// A natural number in upper case hexadecimal, filled up with zeros to at least `width`
/// digits.
pub open spec fn hex(n: nat, width: nat) -> Seq<char>
    decreases n, width,
{
    if n < 16 && width <= 1 {
        seq![digit(n as int)]
    } else {
        hex(n / 16, if width == 0 { 0 } else { (width - 1) as nat }).push(digit((n % 16) as int))
    }
}

/// Two lower case hexadecimal digits of a byte.
pub open spec fn hex_byte_lower(b: int) -> Seq<char> {
    seq![digit_lower(b / 16), digit_lower(b % 16)]
}

fn digit_char(d: u8) -> (c: char)
    requires
        d < 16,
    ensures
        c == digit(d as int),
{
    if d < 10 {
        (48 + d) as char
    } else {
        (55 + d) as char
    }
}

fn digit_char_lower(d: u8) -> (c: char)
    requires
        d < 16,
    ensures
        c == digit_lower(d as int),
{
    if d < 10 {
        (48 + d) as char
    } else {
        (87 + d) as char
    }
}

pub fn push_dec_wide(out: &mut String, n: u128)
    ensures
        final(out)@ == old(out)@ + dec(n as nat),
    decreases n,
{
    if n >= 10 {
        push_dec_wide(out, n / 10);
    }
    out.push(digit_char((n % 10) as u8));
}

/// Appends a number in decimal.
pub fn push_dec(out: &mut String, n: u64)
    ensures
        final(out)@ == old(out)@ + dec(n as nat),
{
    push_dec_wide(out, n as u128);
}

/// Appends a signed number in decimal.
pub fn push_int(out: &mut String, n: i64)
    ensures
        final(out)@ == old(out)@ + dec_int(n as int),
{
    if n < 0 {
        out.append("-");
        let magnitude: u64 = if n == i64::MIN {
            0x8000_0000_0000_0000
        } else {
            (-n) as u64
        };
        push_dec(out, magnitude);
    } else {
        push_dec(out, n as u64);
    }
}

/// Appends a number in decimal with at least `width` digits.
pub fn push_dec_padded(out: &mut String, n: u64, width: usize)
    ensures
        final(out)@ == old(out)@ + dec_padded(n as nat, width as nat),
    decreases n, width,
{
    if n >= 10 || width > 1 {
        push_dec_padded(out, n / 10, if width == 0 { 0 } else { width - 1 });
    }
    out.push(digit_char((n % 10) as u8));
}

/// Appends a number in upper case hexadecimal with at least `width` digits.
pub fn push_hex(out: &mut String, n: u64, width: usize)
    ensures
        final(out)@ == old(out)@ + hex(n as nat, width as nat),
    decreases n, width,
{
    if n >= 16 || width > 1 {
        push_hex(out, n / 16, if width == 0 { 0 } else { width - 1 });
    }
    out.push(digit_char((n % 16) as u8));
}

/// Appends a byte as two lower case hexadecimal digits.
pub fn push_hex_byte_lower(out: &mut String, b: u8)
    ensures
        final(out)@ == old(out)@ + hex_byte_lower(b as int),
{
    out.push(digit_char_lower(b / 16));
    out.push(digit_char_lower(b % 16));
}

/// The characters of a text.
pub fn chars_of(s: &str) -> (r: Vec<char>)
    ensures
        r@ == s@,
{
    let mut out: Vec<char> = Vec::new();
    for c in it: s.chars()
        invariant
            out@ == s@.subrange(0, it.index()),
            it.seq() == s@,
    {
        out.push(c);
    }
    out
}

/// The text of the characters from `from` up to `to`.
pub fn text_of(chars: &Vec<char>, from: usize, to: usize) -> (s: String)
    requires
        from <= to <= chars@.len(),
    ensures
        s@ == chars@.subrange(from as int, to as int),
{
    let mut out = String::new();
    let mut i: usize = from;
    while i < to
        invariant
            from <= i <= to <= chars@.len(),
            out@ == chars@.subrange(from as int, i as int),
        decreases to - i,
    {
        out.push(chars[i]);
        i += 1;
    }
    out
}

/// Whether two texts are the same.
pub fn same(a: &str, b: &str) -> (r: bool)
    ensures
        r == (a@ == b@),
{
    a.to_owned() == b.to_owned()
}

/// Whether two optional texts are the same.
pub open spec fn opt_view(s: Option<String>) -> Option<Seq<char>> {
    match s {
        Some(t) => Some(t@),
        None => None,
    }
}

/// A copy of an optional text.
pub fn copy_opt(s: &Option<String>) -> (r: Option<String>)
    ensures
        opt_view(r) == opt_view(*s),
{
    match s {
        Some(t) => Some(t.clone()),
        None => None,
    }
}

/// An ASCII capital in lower case; any other character as it is.
pub open spec fn ascii_lower(c: char) -> char {
    if 'A' <= c && c <= 'Z' {
        (c as int + 32) as char
    } else {
        c
    }
}

/// A text with its ASCII capitals in lower case.
pub open spec fn ascii_lowered(s: Seq<char>) -> Seq<char> {
    s.map_values(|c: char| ascii_lower(c))
}

fn lower_char(c: char) -> (r: char)
    ensures
        r == ascii_lower(c),
{
    if 'A' <= c && c <= 'Z' {
        (c as u8 + 32) as char
    } else {
        c
    }
}

/// A text with its ASCII capitals in lower case.
pub fn ascii_lowercase(s: &str) -> (r: String)
    ensures
        r@ == ascii_lowered(s@),
{
    let mut out = String::new();
    for c in it: s.chars()
        invariant
            out@ == ascii_lowered(s@.subrange(0, it.index())),
            it.seq() == s@,
    {
        out.push(lower_char(c));
        assert(s@.subrange(0, it.index() + 1) == s@.subrange(0, it.index()).push(c));
    }
    assert(s@.subrange(0, s@.len() as int) == s@);
    out
}

/// Ten to a small power.
pub open spec fn pow10(d: nat) -> nat
    decreases d,
{
    if d == 0 {
        1
    } else {
        10 * pow10((d - 1) as nat)
    }
}

/// A number of hundredths, tenths and the like, with its decimal point: `fixed(-5, 2)` is
/// `-0.05`.
pub open spec fn fixed(n: int, decimals: nat) -> Seq<char> {
    let sign = if n < 0 {
        "-"@
    } else {
        Seq::<char>::empty()
    };
    let magnitude = if n < 0 {
        -n
    } else {
        n
    };
    if decimals == 0 {
        sign + dec(magnitude as nat)
    } else {
        sign + dec((magnitude / pow10(decimals) as int) as nat) + "."@ + dec_padded(
            (magnitude % pow10(decimals) as int) as nat,
            decimals,
        )
    }
}

fn push_magnitude(out: &mut String, magnitude: u128, decimals: u8)
    requires
        decimals <= 6,
    ensures
        final(out)@ == old(out)@ + fixed(magnitude as int, decimals as nat),
{
    if decimals == 0 {
        push_dec_wide(out, magnitude);
        return;
    }
    let mut scale: u64 = 1;
    let mut k: u8 = 0;
    while k < decimals
        invariant
            k <= decimals <= 6,
            scale == pow10(k as nat),
            k == 0 ==> scale == 1,
            k == 1 ==> scale == 10,
            k == 2 ==> scale == 100,
            k == 3 ==> scale == 1000,
            k == 4 ==> scale == 10_000,
            k == 5 ==> scale == 100_000,
            k == 6 ==> scale == 1_000_000,
        decreases decimals - k,
    {
        scale = scale * 10;
        k += 1;
    }
    push_dec_wide(out, magnitude / scale as u128);
    out.append(".");
    push_dec_padded(out, (magnitude % scale as u128) as u64, decimals as usize);
}

/// Appends a number of hundredths, tenths and the like, with its decimal point.
pub fn push_fixed(out: &mut String, n: i64, decimals: u8)
    requires
        decimals <= 6,
    ensures
        final(out)@ == old(out)@ + fixed(n as int, decimals as nat),
{
    let ghost before = out@;
    if n < 0 {
        out.append("-");
    }
    let magnitude: u128 = if n >= 0 {
        n as u128
    } else {
        (-(n as i128)) as u128
    };
    push_magnitude(out, magnitude, decimals);
    assert(out@ =~= before + fixed(n as int, decimals as nat));
}

/// A quotient with so many decimals, to the nearest, halves to the even digit: with no decimals
/// `125 / 2` is `62`. What is below zero keeps its sign, though it be rounded to zero. The
/// quotient is given in units of its last decimal.
pub open spec fn quotient(n: int, d: int, decimals: nat) -> Seq<char> {
    if n < 0 {
        "-"@ + fixed(half_even(-n, d), decimals)
    } else {
        fixed(half_even(n, d), decimals)
    }
}

/// Appends a quotient with so many decimals.
pub fn push_quotient(out: &mut String, n: i128, d: u128, decimals: u8)
    requires
        0 < d <= 0x1_0000_0000_0000_0000_0000_0000,
        decimals <= 6,
    ensures
        final(out)@ == old(out)@ + quotient(n as int, d as int, decimals as nat),
{
    let ghost before = out@;
    let magnitude: u128 = if n >= 0 {
        n as u128
    } else if n == i128::MIN {
        0x8000_0000_0000_0000_0000_0000_0000_0000
    } else {
        (-n) as u128
    };
    let q: u128 = magnitude / d;
    let r: u128 = magnitude % d;
    proof {
        vstd::arithmetic::div_mod::lemma_div_nonincreasing(magnitude as int, d as int);
    }
    let nearest: u128 = if 2 * r > d || (2 * r == d && q % 2 == 1) {
        q + 1
    } else {
        q
    };
    if n < 0 {
        out.append("-");
    }
    push_magnitude(out, nearest, decimals);
    assert(out@ =~= before + quotient(n as int, d as int, decimals as nat));
}

/// Whether one text comes before another in dictionary order by character code, which is how
/// strings compare.
pub open spec fn lex_lt(a: Seq<char>, b: Seq<char>) -> bool
    decreases a.len(),
{
    if b.len() == 0 {
        false
    } else if a.len() == 0 {
        true
    } else if a[0] != b[0] {
        a[0] < b[0]
    } else {
        lex_lt(a.drop_first(), b.drop_first())
    }
}

/// No text comes before itself.
pub proof fn lex_lt_irreflexive(a: Seq<char>)
    ensures
        !lex_lt(a, a),
    decreases a.len(),
{
    if a.len() > 0 {
        lex_lt_irreflexive(a.drop_first());
    }
}

/// Of two different texts, one comes before the other.
pub proof fn lex_lt_total(a: Seq<char>, b: Seq<char>)
    ensures
        lex_lt(a, b) || lex_lt(b, a) || a == b,
    decreases a.len(),
{
    if a.len() > 0 && b.len() > 0 {
        if a[0] == b[0] {
            lex_lt_total(a.drop_first(), b.drop_first());
            if a.drop_first() == b.drop_first() {
                assert(a =~= seq![a[0]] + a.drop_first());
                assert(b =~= seq![b[0]] + b.drop_first());
            }
        }
    } else if a.len() == 0 && b.len() == 0 {
        assert(a =~= b);
    }
}

/// The order of texts is transitive.
pub proof fn lex_lt_transitive(a: Seq<char>, b: Seq<char>, c: Seq<char>)
    requires
        lex_lt(a, b),
        lex_lt(b, c),
    ensures
        lex_lt(a, c),
    decreases a.len(),
{
    if a.len() > 0 && b.len() > 0 && c.len() > 0 && a[0] == b[0] && b[0] == c[0] {
        lex_lt_transitive(a.drop_first(), b.drop_first(), c.drop_first());
    }
}

/// Of two texts, at most one comes before the other.
pub proof fn lex_lt_asymmetric(a: Seq<char>, b: Seq<char>)
    requires
        lex_lt(a, b),
    ensures
        !lex_lt(b, a),
        a != b,
{
    if lex_lt(b, a) {
        lex_lt_transitive(a, b, a);
        lex_lt_irreflexive(a);
    }
    if a == b {
        lex_lt_irreflexive(a);
    }
}

/// Whether one text comes before another.
pub fn lex_less(a: &Vec<char>, b: &Vec<char>) -> (r: bool)
    ensures
        r == lex_lt(a@, b@),
{
    let mut i: usize = 0;
    assert(a@.skip(0) =~= a@);
    assert(b@.skip(0) =~= b@);
    while i < a.len() && i < b.len()
        invariant
            i <= a@.len(),
            i <= b@.len(),
            lex_lt(a@, b@) == lex_lt(a@.skip(i as int), b@.skip(i as int)),
        decreases a@.len() - i,
    {
        if a[i] != b[i] {
            return a[i] < b[i];
        }
        assert(a@.skip(i as int).drop_first() =~= a@.skip(i + 1));
        assert(b@.skip(i as int).drop_first() =~= b@.skip(i + 1));
        i += 1;
    }
    i >= a.len() && i < b.len()
}

/// Whether a character is white space: the characters with Unicode's `White_Space` property.
pub open spec fn is_space(c: char) -> bool {
    let n = c as u32;
    ||| 0x9 <= n <= 0xD
    ||| n == 0x20
    ||| n == 0x85
    ||| n == 0xA0
    ||| n == 0x1680
    ||| 0x2000 <= n <= 0x200A
    ||| n == 0x2028
    ||| n == 0x2029
    ||| n == 0x202F
    ||| n == 0x205F
    ||| n == 0x3000
}

fn space(c: char) -> (r: bool)
    ensures
        r == is_space(c),
{
    let n: u32 = c as u32;
    (0x9 <= n && n <= 0xD) || n == 0x20 || n == 0x85 || n == 0xA0 || n == 0x1680 || (0x2000 <= n
        && n <= 0x200A) || n == 0x2028 || n == 0x2029 || n == 0x202F || n == 0x205F || n == 0x3000
}

/// A text without the white space it starts with.
pub open spec fn trimmed_start(s: Seq<char>) -> Seq<char>
    decreases s.len(),
{
    if s.len() > 0 && is_space(s[0]) {
        trimmed_start(s.drop_first())
    } else {
        s
    }
}

/// A text without the white space it ends with.
pub open spec fn trimmed_end(s: Seq<char>) -> Seq<char>
    decreases s.len(),
{
    if s.len() > 0 && is_space(s.last()) {
        trimmed_end(s.drop_last())
    } else {
        s
    }
}

/// A text without the white space around it.
pub open spec fn trimmed(s: Seq<char>) -> Seq<char> {
    trimmed_end(trimmed_start(s))
}

/// A text without the white space around it.
pub fn trim(s: &str) -> (r: String)
    ensures
        r@ == trimmed(s@),
{
    let chars = chars_of(s);
    let mut from: usize = 0;
    assert(chars@.skip(0) =~= chars@);
    while from < chars.len() && space(chars[from])
        invariant
            from <= chars@.len(),
            trimmed_start(chars@) == trimmed_start(chars@.skip(from as int)),
        decreases chars@.len() - from,
    {
        assert(chars@.skip(from as int).drop_first() =~= chars@.skip(from + 1));
        from += 1;
    }
    let ghost rest = chars@.skip(from as int);
    let mut to: usize = chars.len();
    assert(rest =~= chars@.subrange(from as int, to as int));
    while to > from && space(chars[to - 1])
        invariant
            from <= to <= chars@.len(),
            trimmed_end(rest) == trimmed_end(chars@.subrange(from as int, to as int)),
        decreases to,
    {
        assert(chars@.subrange(from as int, to as int).drop_last() =~= chars@.subrange(
            from as int,
            to - 1,
        ));
        to -= 1;
    }
    text_of(&chars, from, to)
}

/// Whether a text starts with another.
pub open spec fn has_prefix(s: Seq<char>, prefix: Seq<char>) -> bool {
    prefix.len() <= s.len() && s.take(prefix.len() as int) == prefix
}

/// What follows a prefix.
pub open spec fn after_prefix(s: Seq<char>, prefix: Seq<char>) -> Option<Seq<char>> {
    if has_prefix(s, prefix) {
        Some(s.skip(prefix.len() as int))
    } else {
        None
    }
}

/// Whether the characters from `at` on start with a text.
fn matches_at(chars: &Vec<char>, at: usize, part: &Vec<char>) -> (r: bool)
    requires
        at <= chars@.len(),
    ensures
        r == (at + part@.len() <= chars@.len() && chars@.subrange(
            at as int,
            at + part@.len(),
        ) == part@),
{
    let n: usize = chars.len();
    if n - at < part.len() {
        return false;
    }
    let ghost piece = chars@.subrange(at as int, at + part@.len());
    let mut i: usize = 0;
    while i < part.len()
        invariant
            i <= part@.len(),
            at + part@.len() <= chars@.len() == n,
            piece == chars@.subrange(at as int, at + part@.len()),
            forall|k: int| 0 <= k < i ==> piece[k] == part@[k],
        decreases part@.len() - i,
    {
        if chars[at + i] != part[i] {
            assert(piece[i as int] != part@[i as int]);
            return false;
        }
        i += 1;
    }
    assert(piece =~= part@);
    true
}

/// What follows a prefix, `None` where the text does not start with it.
pub fn strip_prefix(s: &str, prefix: &str) -> (r: Option<String>)
    ensures
        opt_view(r) == after_prefix(s@, prefix@),
{
    let chars = chars_of(s);
    let part = chars_of(prefix);
    assert(part@.len() <= chars@.len() ==> chars@.subrange(0, part@.len() as int) =~= chars@.take(
        part@.len() as int,
    ));
    if matches_at(&chars, 0, &part) {
        let rest = text_of(&chars, part.len(), chars.len());
        assert(rest@ =~= s@.skip(prefix@.len() as int));
        Some(rest)
    } else {
        None
    }
}

/// Whether a text holds another.
pub open spec fn holds(s: Seq<char>, part: Seq<char>) -> bool {
    exists|i: int|
        0 <= i && i + part.len() <= s.len() && #[trigger] s.subrange(i, i + part.len()) == part
}

/// Whether a text holds another.
pub fn contains(s: &str, part: &str) -> (r: bool)
    ensures
        r == holds(s@, part@),
{
    let chars = chars_of(s);
    let piece = chars_of(part);
    let mut i: usize = 0;
    while i < chars.len()
        invariant
            i <= chars@.len(),
            chars@ == s@,
            piece@ == part@,
            forall|k: int|
                0 <= k < i && k + part@.len() <= s@.len() ==> #[trigger] s@.subrange(
                    k,
                    k + part@.len(),
                ) != part@,
        decreases chars@.len() - i,
    {
        if matches_at(&chars, i, &piece) {
            assert(s@.subrange(i as int, i + part@.len()) == part@);
            return true;
        }
        i += 1;
    }
    let last = matches_at(&chars, i, &piece);
    assert(last ==> s@.subrange(i as int, i + part@.len()) == part@);
    last
}

/// Where a character stands first, the length where it does not.
pub open spec fn first_of(s: Seq<char>, c: char) -> int
    decreases s.len(),
{
    if s.len() == 0 || s[0] == c {
        0
    } else {
        1 + first_of(s.drop_first(), c)
    }
}

/// Where a character stands last, -1 where it does not.
pub open spec fn last_of(s: Seq<char>, c: char) -> int
    decreases s.len(),
{
    if s.len() == 0 {
        -1
    } else if s.last() == c {
        s.len() - 1
    } else {
        last_of(s.drop_last(), c)
    }
}

/// Where a character stands first.
pub fn find_char(chars: &Vec<char>, c: char) -> (i: usize)
    ensures
        i == first_of(chars@, c),
        i <= chars@.len(),
        i < chars@.len() ==> chars@[i as int] == c,
{
    let mut i: usize = 0;
    assert(chars@.skip(0) =~= chars@);
    while i < chars.len() && chars[i] != c
        invariant
            i <= chars@.len(),
            first_of(chars@, c) == i + first_of(chars@.skip(i as int), c),
        decreases chars@.len() - i,
    {
        assert(chars@.skip(i as int).drop_first() =~= chars@.skip(i + 1));
        i += 1;
    }
    i
}

/// Where a character stands last, if it does.
pub fn rfind_char(chars: &Vec<char>, c: char) -> (r: Option<usize>)
    ensures
        match r {
            Some(i) => i == last_of(chars@, c) && i < chars@.len(),
            None => last_of(chars@, c) == -1,
        },
{
    let mut n: usize = chars.len();
    assert(chars@.take(n as int) =~= chars@);
    while n > 0
        invariant
            n <= chars@.len(),
            last_of(chars@, c) == last_of(chars@.take(n as int), c),
        decreases n,
    {
        if chars[n - 1] == c {
            return Some(n - 1);
        }
        assert(chars@.take(n as int).drop_last() =~= chars@.take(n - 1));
        n -= 1;
    }
    None
}

/// A text up to the first of a character.
pub open spec fn until(s: Seq<char>, c: char) -> Seq<char> {
    s.take(first_of(s, c))
}

/// A text up to the first of a character, all of it where there is none.
pub fn text_until(s: &str, c: char) -> (r: String)
    ensures
        r@ == until(s@, c),
{
    let chars = chars_of(s);
    let i = find_char(&chars, c);
    let r = text_of(&chars, 0, i);
    assert(r@ =~= s@.take(i as int));
    r
}

/// The parts of a text between the separators.
pub open spec fn split_spec(s: Seq<char>, c: char) -> Seq<Seq<char>>
    decreases s.len(),
{
    let i = first_of(s, c);
    if 0 <= i < s.len() {
        seq![s.take(i)] + split_spec(s.skip(i + 1), c)
    } else {
        seq![s]
    }
}

/// Strings, as contracts speak of them.
pub open spec fn texts_of(names: Seq<String>) -> Seq<Seq<char>> {
    names.map_values(|s: String| s@)
}

proof fn lemma_split_step(s: Seq<char>, c: char, from: int, i: int)
    requires
        0 <= from <= i < s.len(),
        s[i] == c,
        forall|k: int| from <= k < i ==> s[k] != c,
    ensures
        split_spec(s.skip(from), c) == seq![s.subrange(from, i)] + split_spec(s.skip(i + 1), c),
{
    let rest = s.skip(from);
    lemma_first_of(rest, c, i - from);
    assert(rest.skip(i - from + 1) =~= s.skip(i + 1));
    assert(rest.take(i - from) =~= s.subrange(from, i));
}

proof fn lemma_append_one(done: Seq<Seq<char>>, piece: Seq<char>, rest: Seq<Seq<char>>)
    ensures
        done + (seq![piece] + rest) == done.push(piece) + rest,
{
    assert(done + (seq![piece] + rest) =~= done.push(piece) + rest);
}

/// The parts of a text between the separators.
#[verifier::spinoff_prover]
#[verifier::rlimit(30)]
pub fn split(s: &str, c: char) -> (r: Vec<String>)
    ensures
        texts_of(r@) == split_spec(s@, c),
{
    let chars = chars_of(s);
    let mut out: Vec<String> = Vec::new();
    let mut from: usize = 0;
    let mut i: usize = 0;
    let ghost mut done: Seq<Seq<char>> = Seq::empty();
    assert(chars@.skip(0) =~= chars@);
    assert(done + split_spec(chars@, c) =~= split_spec(chars@, c));
    while i < chars.len()
        invariant
            from <= i <= chars@.len(),
            chars@ == s@,
            out@.len() == done.len(),
            forall|k: int| 0 <= k < done.len() ==> (#[trigger] out@[k])@ == done[k],
            done + split_spec(s@.skip(from as int), c) == split_spec(s@, c),
            forall|k: int| from <= k < i ==> chars@[k] != c,
        decreases chars@.len() - i,
    {
        if chars[i] == c {
            let ghost piece = s@.subrange(from as int, i as int);
            proof {
                lemma_split_step(s@, c, from as int, i as int);
                lemma_append_one(done, piece, split_spec(s@.skip(i + 1), c));
                done = done.push(piece);
            }
            out.push(text_of(&chars, from, i));
            from = i + 1;
        }
        i += 1;
    }
    proof {
        let rest = s@.skip(from as int);
        lemma_first_of(rest, c, rest.len() as int);
        assert(rest =~= s@.subrange(from as int, s@.len() as int));
        done = done.push(rest);
    }
    out.push(text_of(&chars, from, chars.len()));
    assert(texts_of(out@) =~= split_spec(s@, c));
    out
}

/// A character that stands at `i` and nowhere before stands there first.
proof fn lemma_first_of(s: Seq<char>, c: char, i: int)
    requires
        0 <= i <= s.len(),
        i < s.len() ==> s[i] == c,
        forall|k: int| 0 <= k < i ==> s[k] != c,
    ensures
        first_of(s, c) == i,
    decreases s.len(),
{
    if i > 0 {
        let rest = s.drop_first();
        assert forall|k: int| 0 <= k < i - 1 implies rest[k] != c by {
            assert(rest[k] == s[k + 1]);
        }
        lemma_first_of(rest, c, i - 1);
    }
}

/// A text in lower case by Unicode's rules.
pub uninterp spec fn lowercased(s: Seq<char>) -> Seq<char>;

/// `str::to_lowercase` of std: the lower case of a text. What that is of each character is left
/// to the name [`lowercased`].
#[verifier::external_body]
pub(crate) fn lowercase(s: &str) -> (r: String)
    ensures
        r@ == lowercased(s@),
{
    s.to_lowercase()
}

/// How many bytes a character takes in UTF-8.
pub open spec fn utf8_width(c: char) -> int {
    if (c as u32) < 0x80 {
        1
    } else if (c as u32) < 0x800 {
        2
    } else if (c as u32) < 0x1_0000 {
        3
    } else {
        4
    }
}

/// How many bytes a text takes in UTF-8.
pub open spec fn utf8_len(s: Seq<char>) -> int
    decreases s.len(),
{
    if s.len() == 0 {
        0
    } else {
        utf8_len(s.drop_last()) + utf8_width(s.last())
    }
}

proof fn lemma_utf8_len_grows(s: Seq<char>, n: int)
    requires
        0 <= n <= s.len(),
    ensures
        0 <= utf8_len(s.take(n)) <= utf8_len(s),
    decreases s.len() - n,
{
    if n < s.len() {
        lemma_utf8_len_grows(s, n + 1);
        assert(s.take(n + 1).drop_last() =~= s.take(n));
        lemma_utf8_len_positive(s.take(n));
    } else {
        assert(s.take(n) =~= s);
        lemma_utf8_len_positive(s);
    }
}

proof fn lemma_utf8_len_positive(s: Seq<char>)
    ensures
        utf8_len(s) >= 0,
    decreases s.len(),
{
    if s.len() > 0 {
        lemma_utf8_len_positive(s.drop_last());
    }
}

/// Whether a text takes more than `limit` bytes.
pub fn longer_than(s: &str, limit: usize) -> (r: bool)
    requires
        limit <= 1000,
    ensures
        r == (utf8_len(s@) > limit),
{
    let chars = chars_of(s);
    let mut bytes: usize = 0;
    let mut i: usize = 0;
    assert(chars@.take(0) =~= Seq::<char>::empty());
    while i < chars.len()
        invariant
            i <= chars@.len(),
            chars@ == s@,
            bytes == utf8_len(chars@.take(i as int)),
            bytes <= limit <= 1000,
        decreases chars@.len() - i,
    {
        let n: u32 = chars[i] as u32;
        assert(chars@.take(i + 1).drop_last() =~= chars@.take(i as int));
        bytes = bytes + if n < 0x80 {
            1
        } else if n < 0x800 {
            2
        } else if n < 0x1_0000 {
            3
        } else {
            4
        };
        i += 1;
        if bytes > limit {
            proof {
                lemma_utf8_len_grows(s@, i as int);
            }
            return true;
        }
    }
    assert(chars@.take(chars@.len() as int) =~= s@);
    false
}

/// Texts joined by a separator.
pub open spec fn joined(parts: Seq<Seq<char>>, sep: Seq<char>) -> Seq<char>
    decreases parts.len(),
{
    if parts.len() == 0 {
        Seq::empty()
    } else if parts.len() == 1 {
        parts[0]
    } else {
        joined(parts.drop_last(), sep) + sep + parts.last()
    }
}

/// Texts joined by a separator.
pub fn join(parts: &Vec<String>, sep: &str) -> (r: String)
    ensures
        r@ == joined(texts_of(parts@), sep@),
{
    let mut out = String::new();
    let mut i: usize = 0;
    let ghost texts = texts_of(parts@);
    assert(texts.take(0) =~= Seq::<Seq<char>>::empty());
    while i < parts.len()
        invariant
            i <= parts@.len(),
            texts == texts_of(parts@),
            out@ == joined(texts.take(i as int), sep@),
        decreases parts@.len() - i,
    {
        assert(texts.take(i + 1).drop_last() =~= texts.take(i as int));
        assert(texts[i as int] == parts@[i as int]@);
        if i > 0 {
            out.append(sep);
        }
        out.append(parts[i].as_str());
        assert(out@ =~= joined(texts.take(i + 1), sep@));
        i += 1;
    }
    assert(texts.take(texts.len() as int) =~= texts);
    out
}

} // verus!
