//! Written numbers read back as the numbers that they are.
use vstd::prelude::*;

use crate::double::half_even;
use crate::text::{
    dec, dec_int, dec_padded, first_of, fixed, hex, hex_byte_lower, is_space, joined, last_of,
    pow10, quotient, split_spec, trimmed, trimmed_end, trimmed_start,
};

verus! {

broadcast use vstd::seq_lib::group_seq_properties;

pub open spec fn is_digit(c: char) -> bool {
    '0' <= c && c <= '9'
}

/// Whether a text is made of digits alone.
pub open spec fn all_digits(s: Seq<char>) -> bool {
    forall|i: int| 0 <= i < s.len() ==> is_digit(#[trigger] s[i])
}

/// The number that some digits are.
pub open spec fn read_digits(s: Seq<char>) -> int
    decreases s.len(),
{
    if s.len() == 0 {
        0
    } else {
        10 * read_digits(s.drop_last()) + (s.last() as int - '0' as int)
    }
}

/// A number in decimal is made of digits, has no zero too many in front, and reads back.
pub proof fn a_number_reads_back(n: nat)
    ensures
        dec(n).len() > 0,
        all_digits(dec(n)),
        read_digits(dec(n)) == n,
        dec(n).len() > 1 ==> dec(n)[0] != '0',
    decreases n,
{
    let s = dec(n);
    if n < 10 {
        assert(s.drop_last() =~= Seq::empty());
        assert(read_digits(s.drop_last()) == 0);
    } else {
        a_number_reads_back(n / 10);
        assert(s.drop_last() =~= dec(n / 10));
        assert(n / 10 > 0);
        if dec(n / 10).len() == 1 {
            let c = dec(n / 10)[0];
            assert(dec(n / 10).drop_last() =~= Seq::empty());
            assert(read_digits(dec(n / 10).drop_last()) == 0);
            assert(dec(n / 10).last() == c);
        }
        assert(s[0] == dec(n / 10)[0]);
    }
}

/// Different numbers are written differently.
pub proof fn numbers_are_told_apart(a: nat, b: nat)
    requires
        dec(a) == dec(b),
    ensures
        a == b,
{
    a_number_reads_back(a);
    a_number_reads_back(b);
}

proof fn lemma_pow10(d: nat)
    ensures
        pow10(d) >= 1,
        d > 0 ==> pow10(d) == 10 * pow10((d - 1) as nat),
    decreases d,
{
    if d > 0 {
        lemma_pow10((d - 1) as nat);
    }
}

/// A number filled up with zeros reads back, and has as many digits as it was given room for,
/// where that is enough.
pub proof fn a_padded_number_reads_back(n: nat, width: nat)
    ensures
        all_digits(dec_padded(n, width)),
        dec_padded(n, width).len() >= width,
        dec_padded(n, width).len() > 0,
        read_digits(dec_padded(n, width)) == n,
        width > 0 && n < pow10(width) ==> dec_padded(n, width).len() == width,
    decreases n, width,
{
    let s = dec_padded(n, width);
    if n < 10 && width <= 1 {
        assert(s.drop_last() =~= Seq::empty());
        assert(read_digits(s.drop_last()) == 0);
    } else {
        let less = if width == 0 {
            0
        } else {
            (width - 1) as nat
        };
        a_padded_number_reads_back(n / 10, less);
        assert(s.drop_last() =~= dec_padded(n / 10, less));
        lemma_pow10(width);
        lemma_pow10(less);
        if width > 0 && n < pow10(width) {
            assert(n / 10 < pow10(less));
            if less == 0 {
                assert(pow10(0) == 1);
                assert(pow10(1) == 10) by {
                    lemma_pow10(1);
                }
            }
        }
    }
}

/// The number that some hexadecimal digits are.
pub open spec fn read_hex(s: Seq<char>) -> int
    decreases s.len(),
{
    if s.len() == 0 {
        0
    } else {
        let c = s.last();
        16 * read_hex(s.drop_last()) + if is_digit(c) {
            c as int - '0' as int
        } else if 'A' <= c && c <= 'F' {
            c as int - 'A' as int + 10
        } else {
            c as int - 'a' as int + 10
        }
    }
}

/// A number in hexadecimal reads back.
pub proof fn a_hexadecimal_number_reads_back(n: nat, width: nat)
    ensures
        hex(n, width).len() >= width,
        hex(n, width).len() > 0,
        read_hex(hex(n, width)) == n,
    decreases n, width,
{
    let s = hex(n, width);
    if n < 16 && width <= 1 {
        assert(s.drop_last() =~= Seq::empty());
        assert(read_hex(s.drop_last()) == 0);
    } else {
        let less = if width == 0 {
            0
        } else {
            (width - 1) as nat
        };
        a_hexadecimal_number_reads_back(n / 16, less);
        assert(s.drop_last() =~= hex(n / 16, less));
    }
}

/// A byte in two hexadecimal digits reads back.
pub proof fn a_hexadecimal_byte_reads_back(b: int)
    requires
        0 <= b < 256,
    ensures
        hex_byte_lower(b).len() == 2,
        read_hex(hex_byte_lower(b)) == b,
{
    let s = hex_byte_lower(b);
    assert(s.drop_last() =~= seq![s[0]]);
    assert(s.drop_last().drop_last() =~= Seq::empty());
    assert(read_hex(s.drop_last().drop_last()) == 0);
    assert(s.drop_last().last() == s[0] && s.last() == s[1]);
    assert(read_hex(s.drop_last()) == b / 16);
}

/// Where the point of a written number is, or its length where it has none.
pub open spec fn point_in(s: Seq<char>) -> int
    decreases s.len(),
{
    if s.len() == 0 {
        0
    } else if s.first() == '.' {
        0
    } else {
        1 + point_in(s.drop_first())
    }
}

/// The number that a text with a sign and a point is, in units of `scale`: the digits behind the
/// point count for tenths, hundredths and so on of it.
pub open spec fn read_number(s: Seq<char>, decimals: nat) -> int {
    let negative = s.len() > 0 && s[0] == '-';
    let body = if negative {
        s.skip(1)
    } else {
        s
    };
    let dot = point_in(body);
    let whole = body.take(dot);
    let behind = if dot < body.len() {
        body.skip(dot + 1)
    } else {
        Seq::empty()
    };
    let magnitude = read_digits(whole) * pow10(decimals) + read_digits(behind) * pow10(
        (decimals - behind.len()) as nat,
    );
    if negative {
        -magnitude
    } else {
        magnitude
    }
}

proof fn lemma_point(whole: Seq<char>, tail: Seq<char>)
    requires
        all_digits(whole),
        tail.len() == 0 || tail[0] == '.',
    ensures
        point_in(whole + tail) == whole.len(),
    decreases whole.len(),
{
    if whole.len() > 0 {
        let rest = whole.drop_first();
        assert forall|i: int| 0 <= i < rest.len() implies is_digit(#[trigger] rest[i]) by {
            assert(rest[i] == whole[i + 1]);
        }
        lemma_point(rest, tail);
        assert((whole + tail).drop_first() =~= rest + tail);
        assert((whole + tail).first() == whole[0]);
        assert(is_digit(whole[0]));
    } else {
        assert(whole + tail =~= tail);
    }
}

/// A text that a reader takes apart as it was put together.
proof fn lemma_read(negative: bool, whole: Seq<char>, behind: Seq<char>, decimals: nat)
    requires
        whole.len() > 0,
        all_digits(whole),
        behind.len() <= decimals,
    ensures
        ({
            let sign = if negative {
                seq!['-']
            } else {
                Seq::empty()
            };
            let tail = if behind.len() == 0 {
                Seq::empty()
            } else {
                seq!['.'] + behind
            };
            let magnitude = read_digits(whole) * pow10(decimals) + read_digits(behind) * pow10(
                (decimals - behind.len()) as nat,
            );
            read_number(sign + (whole + tail), decimals) == if negative {
                -magnitude
            } else {
                magnitude
            }
        }),
{
    let sign = if negative {
        seq!['-']
    } else {
        Seq::empty()
    };
    let tail = if behind.len() == 0 {
        Seq::empty()
    } else {
        seq!['.'] + behind
    };
    let body = whole + tail;
    let s = sign + body;
    lemma_point(whole, tail);
    assert(is_digit(whole[0]));
    if negative {
        assert(s.skip(1) =~= body);
    } else {
        assert(s =~= body);
        assert(s[0] == whole[0]);
    }
    assert(body.take(whole.len() as int) =~= whole);
    if behind.len() > 0 {
        assert(body.skip(whole.len() + 1int) =~= behind);
    }
}

proof fn lemma_signs()
    ensures
        "-"@ == seq!['-'],
        "."@ == seq!['.'],
{
    reveal_strlit("-");
    reveal_strlit(".");
    assert("-"@ =~= seq!['-']);
    assert("."@ =~= seq!['.']);
}

/// A whole number with its sign reads back, in hundredths and the like too.
pub proof fn a_signed_number_reads_back(n: int, decimals: nat)
    ensures
        read_number(dec_int(n), decimals) == n * pow10(decimals),
        read_number(dec_int(n), 0) == n,
{
    lemma_signs();
    let m = if n < 0 {
        -n
    } else {
        n
    };
    a_number_reads_back(m as nat);
    let none = Seq::<char>::empty();
    lemma_read(n < 0, dec(m as nat), none, decimals);
    lemma_read(n < 0, dec(m as nat), none, 0);
    assert(read_digits(none) == 0);
    let whole = dec(m as nat);
    assert(whole + none =~= whole);
    assert(none + whole =~= whole);
    assert(pow10(0) == 1);
    assert(-(m * pow10(decimals)) == (-m) * pow10(decimals)) by (nonlinear_arith);
}

/// A number of hundredths, tenths and the like reads back as that number of them, and with more
/// decimals as as many more.
pub proof fn a_fixed_number_reads_back(n: int, decimals: nat, more: nat)
    ensures
        read_number(fixed(n, decimals), decimals + more) == n * pow10(more),
{
    lemma_signs();
    lemma_pow10(decimals);
    lemma_pow10(more);
    let m = if n < 0 {
        -n
    } else {
        n
    };
    let p = pow10(decimals) as int;
    let q = pow10(more) as int;
    lemma_pow10_add(decimals, more);
    assert(-(m * q) == (-m) * q) by (nonlinear_arith);
    let none = Seq::<char>::empty();
    if decimals == 0 {
        assert(pow10(0) == 1);
        a_number_reads_back(m as nat);
        lemma_read(n < 0, dec(m as nat), none, more);
        assert(read_digits(none) == 0);
        assert(dec(m as nat) + none =~= dec(m as nat));
        assert(none + dec(m as nat) =~= dec(m as nat));
    } else {
        let (w, f) = (m / p, m % p);
        vstd::arithmetic::div_mod::lemma_fundamental_div_mod(m, p);
        vstd::arithmetic::div_mod::lemma_mod_bound(m, p);
        assert(w >= 0) by (nonlinear_arith)
            requires
                m == p * w + f,
                0 <= f < p,
                m >= 0,
                p >= 1,
        ;
        a_number_reads_back(w as nat);
        a_padded_number_reads_back(f as nat, decimals);
        let (whole, behind) = (dec(w as nat), dec_padded(f as nat, decimals));
        lemma_read(n < 0, whole, behind, decimals + more);
        assert(w * (p * q) + f * q == m * q) by (nonlinear_arith)
            requires
                m == p * w + f,
        ;
        if n < 0 {
            assert(fixed(n, decimals) =~= seq!['-'] + (whole + (seq!['.'] + behind)));
        } else {
            assert(fixed(n, decimals) =~= none + (whole + (seq!['.'] + behind)));
        }
    }
}

proof fn lemma_pow10_add(a: nat, b: nat)
    ensures
        pow10(a + b) == pow10(a) * pow10(b),
    decreases a,
{
    if a == 0 {
        assert(pow10(0) == 1);
    } else {
        lemma_pow10_add((a - 1) as nat, b);
        let (x, y) = (pow10((a - 1) as nat) as int, pow10(b) as int);
        assert(10 * (x * y) == (10 * x) * y) by (nonlinear_arith);
        assert((a - 1) as nat + b == (a + b - 1) as nat);
    }
}

/// A text taken apart at a character: one part more than it occurs.
pub open spec fn parts(s: Seq<char>, c: char) -> Seq<Seq<char>>
    decreases s.len(),
{
    if s.len() == 0 {
        seq![Seq::empty()]
    } else {
        let front = parts(s.drop_last(), c);
        if s.last() == c {
            front.push(Seq::empty())
        } else {
            front.update(front.len() - 1, front.last().push(s.last()))
        }
    }
}

/// Whether a text is without a character.
pub open spec fn lacks(s: Seq<char>, c: char) -> bool {
    forall|i: int| 0 <= i < s.len() ==> #[trigger] s[i] != c
}

proof fn lemma_parts_not_empty(s: Seq<char>, c: char)
    ensures
        parts(s, c).len() > 0,
    decreases s.len(),
{
    if s.len() > 0 {
        lemma_parts_not_empty(s.drop_last(), c);
    }
}

/// A text with another behind a separator falls into the parts of the first and the second.
pub proof fn a_separator_parts(a: Seq<char>, c: char, b: Seq<char>)
    requires
        lacks(b, c),
    ensures
        parts(a.push(c) + b, c) == parts(a, c).push(b),
    decreases b.len(),
{
    let s = a.push(c) + b;
    lemma_parts_not_empty(a, c);
    if b.len() == 0 {
        assert(s =~= a.push(c));
        assert(a.push(c).drop_last() =~= a);
        assert(b =~= Seq::empty());
    } else {
        let front = b.drop_last();
        assert forall|i: int| 0 <= i < front.len() implies #[trigger] front[i] != c by {
            assert(front[i] == b[i]);
        }
        a_separator_parts(a, c, front);
        assert(s.drop_last() =~= a.push(c) + front);
        assert(s.last() == b.last());
        assert(b.last() == b[b.len() - 1]);
        assert(front.push(b.last()) =~= b);
        assert(parts(s, c) =~= parts(a, c).push(b));
    }
}

/// A text without the separator is one part.
pub proof fn nothing_parts(s: Seq<char>, c: char)
    requires
        lacks(s, c),
    ensures
        parts(s, c) == seq![s],
    decreases s.len(),
{
    if s.len() > 0 {
        let front = s.drop_last();
        assert forall|i: int| 0 <= i < front.len() implies #[trigger] front[i] != c by {
            assert(front[i] == s[i]);
        }
        nothing_parts(front, c);
        assert(s.last() == s[s.len() - 1]);
        assert(front.push(s.last()) =~= s);
        assert(parts(s, c) =~= seq![s]);
    } else {
        assert(s =~= Seq::empty());
        assert(parts(s, c) =~= seq![s]);
    }
}

/// Whether a text is made of what numbers are written with: digits, a sign, a point.
pub open spec fn is_numeric(s: Seq<char>) -> bool {
    forall|i: int|
        0 <= i < s.len() ==> is_digit(#[trigger] s[i]) || s[i] == '-' || s[i] == '.'
}

/// Numbers are written with digits, a sign and a point alone.
pub proof fn numbers_are_numeric(n: int, decimals: nat)
    ensures
        is_numeric(fixed(n, decimals)),
        is_numeric(dec_int(n)),
{
    lemma_signs();
    lemma_pow10(decimals);
    let m = if n < 0 {
        -n
    } else {
        n
    };
    let p = pow10(decimals) as int;
    a_number_reads_back(m as nat);
    if decimals > 0 {
        vstd::arithmetic::div_mod::lemma_fundamental_div_mod(m, p);
        vstd::arithmetic::div_mod::lemma_mod_bound(m, p);
        a_number_reads_back((m / p) as nat);
        a_padded_number_reads_back((m % p) as nat, decimals);
    }
}

/// A text is put down to the white space around it: what is left has none at its ends, and what
/// was taken off is nothing else.
pub proof fn trimming_takes_off_white_space(s: Seq<char>)
    ensures
        ({
            let t = trimmed(s);
            &&& t.len() > 0 ==> !is_space(t[0]) && !is_space(t[t.len() - 1])
            &&& exists|a: int, b: int|
                {
                    &&& 0 <= a <= b <= s.len()
                    &&& t == #[trigger] s.subrange(a, b)
                    &&& forall|i: int| 0 <= i < a || b <= i < s.len() ==> is_space(#[trigger] s[i])
                }
        }),
{
    let a = lemma_start(s);
    let front = trimmed_start(s);
    let n = lemma_end(front);
    let t = trimmed(s);
    assert(t =~= s.subrange(a, a + n));
    assert forall|i: int| 0 <= i < a || a + n <= i < s.len() implies is_space(#[trigger] s[i]) by {
        if i >= a + n {
            assert(front[i - a] == s[i]);
        }
    }
    if t.len() > 0 {
        assert(t[0] == front[0] && t[n - 1] == front[n - 1]);
    }
}

proof fn lemma_start(s: Seq<char>) -> (a: int)
    ensures
        0 <= a <= s.len(),
        trimmed_start(s) == s.skip(a),
        forall|i: int| 0 <= i < a ==> is_space(#[trigger] s[i]),
        a < s.len() ==> !is_space(s[a]),
    decreases s.len(),
{
    if s.len() > 0 && is_space(s[0]) {
        let a = lemma_start(s.drop_first());
        assert(s.drop_first().skip(a) =~= s.skip(a + 1));
        assert forall|i: int| 0 <= i < a + 1 implies is_space(#[trigger] s[i]) by {
            if i > 0 {
                assert(s.drop_first()[i - 1] == s[i]);
            }
        }
        if a + 1 < s.len() {
            assert(s.drop_first()[a] == s[a + 1]);
        }
        a + 1
    } else {
        assert(s.skip(0) =~= s);
        0
    }
}

proof fn lemma_end(s: Seq<char>) -> (n: int)
    ensures
        0 <= n <= s.len(),
        trimmed_end(s) == s.take(n),
        forall|i: int| n <= i < s.len() ==> is_space(#[trigger] s[i]),
        n > 0 ==> !is_space(s[n - 1]),
    decreases s.len(),
{
    if s.len() > 0 && is_space(s.last()) {
        let front = s.drop_last();
        let n = lemma_end(front);
        assert(front.take(n) =~= s.take(n));
        assert forall|i: int| n <= i < s.len() implies is_space(#[trigger] s[i]) by {
            if i < front.len() {
                assert(front[i] == s[i]);
            } else {
                assert(s[i] == s.last());
            }
        }
        if n > 0 {
            assert(front[n - 1] == s[n - 1]);
        }
        n
    } else {
        assert(s.take(s.len() as int) =~= s);
        s.len() as int
    }
}

/// The first place of a character is one of it, with none in front; there is none where that is
/// past the end.
pub proof fn the_first_is_the_first(s: Seq<char>, c: char)
    ensures
        0 <= first_of(s, c) <= s.len(),
        first_of(s, c) < s.len() ==> s[first_of(s, c)] == c,
        forall|i: int| 0 <= i < first_of(s, c) ==> #[trigger] s[i] != c,
    decreases s.len(),
{
    if s.len() > 0 && s[0] != c {
        let rest = s.drop_first();
        the_first_is_the_first(rest, c);
        assert forall|i: int| 0 <= i < first_of(s, c) implies #[trigger] s[i] != c by {
            if i > 0 {
                assert(rest[i - 1] == s[i]);
            }
        }
    }
}

/// The last place of a character is one of it, with none behind; there is none where that is in
/// front of the text.
pub proof fn the_last_is_the_last(s: Seq<char>, c: char)
    ensures
        -1 <= last_of(s, c) < s.len(),
        last_of(s, c) >= 0 ==> s[last_of(s, c)] == c,
        forall|i: int| last_of(s, c) < i < s.len() ==> #[trigger] s[i] != c,
    decreases s.len(),
{
    if s.len() > 0 {
        assert(s.last() == s[s.len() - 1]);
        if s.last() != c {
            let rest = s.drop_last();
            the_last_is_the_last(rest, c);
            assert forall|i: int| last_of(s, c) < i < s.len() implies #[trigger] s[i] != c by {
                if i < rest.len() {
                    assert(rest[i] == s[i]);
                }
            }
        }
    }
}

/// A text that was split is what its parts are with the separator between them, and no part holds
/// a separator.
pub proof fn splitting_can_be_undone(s: Seq<char>, c: char, k: int)
    ensures
        split_spec(s, c).len() > 0,
        joined(split_spec(s, c), seq![c]) == s,
        0 <= k < split_spec(s, c).len() ==> lacks(split_spec(s, c)[k], c),
    decreases s.len(),
{
    the_first_is_the_first(s, c);
    let i = first_of(s, c);
    let all = split_spec(s, c);
    if i < s.len() {
        let rest = s.skip(i + 1);
        splitting_can_be_undone(rest, c, k - 1);
        lemma_joined_first(s.take(i), split_spec(rest, c), seq![c]);
        assert(s =~= s.take(i) + seq![c] + rest);
        if k == 0 {
            assert(all[0] == s.take(i));
        } else if 0 < k < all.len() {
            assert(all[k] == split_spec(rest, c)[k - 1]);
        }
    } else {
        assert(joined(all, seq![c]) =~= s);
    }
}

proof fn lemma_joined_first(first: Seq<char>, rest: Seq<Seq<char>>, sep: Seq<char>)
    requires
        rest.len() > 0,
    ensures
        joined(seq![first] + rest, sep) == first + sep + joined(rest, sep),
    decreases rest.len(),
{
    let all = seq![first] + rest;
    assert(all.last() == rest.last());
    if rest.len() == 1 {
        assert(all.drop_last() =~= seq![first]);
        assert(joined(all.drop_last(), sep) == first);
    } else {
        assert(all.drop_last() =~= seq![first] + rest.drop_last());
        lemma_joined_first(first, rest.drop_last(), sep);
        assert(joined(all, sep) =~= first + sep + joined(rest, sep));
    }
}

/// A quotient is rounded to the nearest, of two equally near to the even one.
pub proof fn a_half_goes_to_the_even(n: int, d: int)
    requires
        0 < d,
    ensures
        -d <= 2 * (n - d * half_even(n, d)) <= d,
        2 * (n - d * half_even(n, d)) == d || 2 * (n - d * half_even(n, d)) == -d ==> half_even(n, d)
            % 2 == 0,
{
    vstd::arithmetic::div_mod::lemma_fundamental_div_mod(n, d);
    vstd::arithmetic::div_mod::lemma_mod_bound(n, d);
    let q = n / d;
    assert(d * (q + 1) == d * q + d) by (nonlinear_arith);
}

/// A quotient reads back as the number nearest to it with so many decimals, also below zero.
pub proof fn a_quotient_reads_back(n: int, d: int, decimals: nat)
    requires
        0 < d,
    ensures
        ({
            let q = read_number(quotient(n, d, decimals), decimals);
            -d <= 2 * (n - d * q) <= d
        }),
{
    lemma_signs();
    let m = if n < 0 {
        -n
    } else {
        n
    };
    let h = half_even(m, d);
    a_half_goes_to_the_even(m, d);
    assert(h >= 0) by (nonlinear_arith)
        requires
            -d <= 2 * (m - d * h),
            2 * (m - d * h) <= d,
            m >= 0,
            d > 0,
    ;
    assert(pow10(0) == 1);
    a_fixed_number_reads_back(h, decimals, 0);
    if n < 0 && h > 0 {
        a_fixed_number_reads_back(-h, decimals, 0);
        assert("-"@ + fixed(h, decimals) =~= fixed(-h, decimals));
        assert(n - d * (-h) == -(m - d * h)) by (nonlinear_arith)
            requires
                n == -m,
        ;
    } else if n < 0 {
        let whole = dec(0);
        let behind = if decimals == 0 {
            Seq::empty()
        } else {
            dec_padded(0, decimals)
        };
        a_number_reads_back(0);
        lemma_pow10(decimals);
        let p = pow10(decimals) as int;
        assert(0int / p == 0 && 0int % p == 0) by (nonlinear_arith)
            requires
                p >= 1,
        ;
        if decimals > 0 {
            a_padded_number_reads_back(0, decimals);
        } else {
            assert(read_digits(behind) == 0);
        }
        lemma_read(true, whole, behind, decimals);
        let tail = if behind.len() == 0 {
            Seq::empty()
        } else {
            seq!['.'] + behind
        };
        assert("-"@ + fixed(0, decimals) =~= seq!['-'] + (whole + tail));
        assert(d * 0 == 0);
    }
}

} // verus!
