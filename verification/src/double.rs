//! Measured values, held as the bit patterns of IEEE 754 doubles: enough to tell which of two
//! is the smaller, which is all that searching, decimating and bounding a series takes.
use vstd::arithmetic::power2::{lemma2_to64, lemma_pow2_adds, lemma_pow2_pos, lemma_pow2_unfold, pow2};
use vstd::prelude::*;

verus! {

/// The bits of a double.
#[derive(Clone, Copy, PartialEq, Eq, Structural, Debug)]
pub struct Double {
    pub bits: u64,
}

/// The bits of positive infinity; greater ones, the sign aside, are not numbers.
pub const INFINITY_BITS: u64 = 0x7FF0_0000_0000_0000;

pub const SIGN_BIT: u64 = 0x8000_0000_0000_0000;

impl Double {
    /// The bits without the sign, which order numbers of one sign by size.
    pub open spec fn magnitude(self) -> int {
        if self.bits >= SIGN_BIT {
            self.bits - SIGN_BIT
        } else {
            self.bits as int
        }
    }

    /// Whether this is no number.
    pub open spec fn nan(self) -> bool {
        self.magnitude() > INFINITY_BITS
    }

    /// Whether this is a number, and not an infinite one.
    pub open spec fn finite(self) -> bool {
        self.magnitude() < INFINITY_BITS
    }

    /// Where a number stands among all: ranks order as the numbers do, and the two zeros have
    /// one rank.
    pub open spec fn rank_spec(self) -> int {
        if self.bits >= SIGN_BIT {
            -self.magnitude()
        } else {
            self.magnitude()
        }
    }

    /// Whether this is a number below another number.
    pub open spec fn lt(self, other: Double) -> bool {
        !self.nan() && !other.nan() && self.rank_spec() < other.rank_spec()
    }

    fn magnitude_bits(self) -> (r: u64)
        ensures
            r == self.magnitude(),
    {
        if self.bits >= SIGN_BIT {
            self.bits - SIGN_BIT
        } else {
            self.bits
        }
    }

    /// Where a number stands among all.
    pub fn rank(self) -> (r: i64)
        ensures
            r == self.rank_spec(),
    {
        if self.bits >= SIGN_BIT {
            -((self.bits - SIGN_BIT) as i64)
        } else {
            self.bits as i64
        }
    }

    pub fn is_nan(self) -> (r: bool)
        ensures
            r == self.nan(),
    {
        self.magnitude_bits() > INFINITY_BITS
    }

    pub fn is_finite(self) -> (r: bool)
        ensures
            r == self.finite(),
    {
        self.magnitude_bits() < INFINITY_BITS
    }

    /// Whether this is a number below another number.
    pub fn less(self, other: Double) -> (r: bool)
        ensures
            r == self.lt(other),
    {
        !self.is_nan() && !other.is_nan() && self.rank() < other.rank()
    }
}

/// Finite numbers are numbers.
pub proof fn finite_is_a_number(a: Double)
    requires
        a.finite(),
    ensures
        !a.nan(),
{
}

/// Of two numbers, one is below the other or both have the same rank.
pub proof fn numbers_are_ordered(a: Double, b: Double)
    requires
        !a.nan(),
        !b.nan(),
    ensures
        a.lt(b) || b.lt(a) || a.rank_spec() == b.rank_spec(),
        !(a.lt(b) && b.lt(a)),
{
}

/// The place of the highest bit of a positive number.
pub open spec fn top_bit(m: int) -> nat
    decreases m,
{
    if m <= 1 {
        0
    } else {
        1 + top_bit(m / 2)
    }
}

/// `n / d` to the nearest whole number, halves to the even one.
pub open spec fn half_even(n: int, d: int) -> int {
    let q = n / d;
    let r = n % d;
    if 2 * r > d || (2 * r == d && q % 2 == 1) {
        q + 1
    } else {
        q
    }
}

/// The bits of the double nearest to a positive number below two to the 64th: the exponent
/// above the 53 leading bits, of which the first one adds one to the exponent.
pub open spec fn integer_bits(m: int) -> int {
    let e = top_bit(m);
    (1022 + e) * 0x10_0000_0000_0000 + if e <= 52 {
        m * pow2((52 - e) as nat)
    } else {
        half_even(m, pow2((e - 52) as nat) as int)
    }
}

/// The double nearest to an integer, of two equally near ones the even one.
pub open spec fn nearest_to(n: int) -> Double {
    if n == 0 {
        Double { bits: 0 }
    } else if n > 0 {
        Double { bits: integer_bits(n) as u64 }
    } else {
        Double { bits: (SIGN_BIT + integer_bits(-n)) as u64 }
    }
}

pub proof fn lemma_top_bit(m: int)
    requires
        m >= 1,
    ensures
        pow2(top_bit(m)) <= m < pow2(top_bit(m) + 1),
    decreases m,
{
    lemma2_to64();
    if m > 1 {
        lemma_top_bit(m / 2);
        let e = top_bit(m / 2);
        lemma_pow2_unfold(e + 1);
        lemma_pow2_unfold(e + 2);
        assert(m / 2 * 2 <= m <= m / 2 * 2 + 1);
    }
}

proof fn lemma_pow2_grows(a: nat, b: nat)
    requires
        a <= b,
    ensures
        pow2(a) <= pow2(b),
    decreases b - a,
{
    if a < b {
        lemma_pow2_grows(a, (b - 1) as nat);
        lemma_pow2_unfold(b);
        lemma_pow2_pos((b - 1) as nat);
    }
}

pub proof fn lemma_pow2_53()
    ensures
        pow2(52) == 0x10_0000_0000_0000,
        pow2(53) == 0x20_0000_0000_0000,
{
    lemma2_to64();
    lemma_pow2_adds(32, 20);
    lemma_pow2_unfold(53);
}

/// The bits of the double nearest to a positive number.
fn bits_of(m: u64) -> (r: u64)
    requires
        m >= 1,
    ensures
        r == integer_bits(m as int),
        r < INFINITY_BITS,
{
    let mut e: u64 = 0;
    let mut rest: u64 = m;
    proof {
        lemma_top_bit(m as int);
        lemma_pow2_53();
        lemma2_to64();
        if top_bit(m as int) >= 64 {
            lemma_pow2_grows(64, top_bit(m as int));
        }
    }
    while rest > 1
        invariant
            rest >= 1,
            top_bit(m as int) < 64,
            e + top_bit(rest as int) == top_bit(m as int),
        decreases rest,
    {
        rest = rest / 2;
        e += 1;
    }
    let whole: u64;
    if e <= 52 {
        let mut q: u64 = m;
        let mut k: u64 = e;
        assert(m * pow2(0) == m);
        while k < 52
            invariant
                e <= k <= 52,
                q == m * pow2((k - e) as nat),
                q < pow2((k + 1) as nat),
            decreases 52 - k,
        {
            proof {
                lemma_pow2_unfold((k + 1 - e) as nat);
                lemma_pow2_unfold((k + 2) as nat);
                lemma_pow2_53();
                lemma_pow2_grows((k + 2) as nat, 53);
                assert(m * (2 * pow2((k - e) as nat)) == 2 * (m * pow2((k - e) as nat)))
                    by (nonlinear_arith);
            }
            q = 2 * q;
            k += 1;
        }
        whole = q;
    } else {
        let mut d: u64 = 1;
        let mut k: u64 = 52;
        while k < e
            invariant
                52 <= k <= e < 64,
                d == pow2((k - 52) as nat),
            decreases e - k,
        {
            proof {
                lemma_pow2_unfold((k + 1 - 52) as nat);
                lemma2_to64();
                lemma_pow2_grows((k + 1 - 52) as nat, 12);
            }
            d = 2 * d;
            k += 1;
        }
        proof {
            lemma2_to64();
            lemma_pow2_grows(1, (e - 52) as nat);
            lemma_pow2_grows((e - 52) as nat, 11);
            assert(m / d <= m) by (nonlinear_arith)
                requires
                    d >= 2,
            ;
            lemma_pow2_adds((e - 52) as nat, 53);
            assert((m as int) / (d as int) < 0x20_0000_0000_0000) by (nonlinear_arith)
                requires
                    m < d * 0x20_0000_0000_0000,
                    d > 0,
                    m >= 0,
            ;
        }
        let q: u64 = m / d;
        let r: u64 = m % d;
        whole = if 2 * r > d || (2 * r == d && q % 2 == 1) {
            q + 1
        } else {
            q
        };
    }
    proof {
        assert(whole <= 0x20_0000_0000_0000);
    }
    (1022 + e) * 0x10_0000_0000_0000 + whole
}

impl Double {
    /// The double nearest to a number that is not negative.
    pub fn from_unsigned(n: u64) -> (r: Double)
        ensures
            r == nearest_to(n as int),
            r.finite(),
    {
        if n == 0 {
            Double { bits: 0 }
        } else {
            Double { bits: bits_of(n) }
        }
    }

    /// The double nearest to an integer.
    pub fn from_int(n: i64) -> (r: Double)
        ensures
            r == nearest_to(n as int),
            r.finite(),
    {
        if n == 0 {
            Double { bits: 0 }
        } else if n > 0 {
            Double { bits: bits_of(n as u64) }
        } else {
            let m: u64 = if n == i64::MIN {
                SIGN_BIT
            } else {
                (-n) as u64
            };
            Double { bits: SIGN_BIT + bits_of(m) }
        }
    }

    /// Whether two are the same number, or both are none.
    pub open spec fn alike(self, other: Double) -> bool {
        if self.nan() || other.nan() {
            self.nan() && other.nan()
        } else {
            self.rank_spec() == other.rank_spec()
        }
    }

    /// Whether two are the same number, or both are none.
    pub fn is_like(self, other: Double) -> (r: bool)
        ensures
            r == self.alike(other),
    {
        if self.is_nan() || other.is_nan() {
            self.is_nan() && other.is_nan()
        } else {
            self.rank() == other.rank()
        }
    }
}

} // verus!
