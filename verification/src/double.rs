//! Double-precision readings, held by their IEEE 754 bit pattern.
//!
//! A reading is stored, compared and passed on here; its bits are all that this needs.
//! Sums, means and square roots are left to the code that produces and displays readings.

use vstd::prelude::*;

verus! {

/// The bit pattern of positive infinity; patterns above it, without the sign, are NaNs.
pub const INFINITY_BITS: u64 = 0x7ff0_0000_0000_0000;

/// The weight of the sign bit.
pub const SIGN_BIT: u64 = 0x8000_0000_0000_0000;

/// The weight of the lowest exponent bit.
pub const EXPONENT_UNIT: u64 = 0x0010_0000_0000_0000;

/// A double-precision number.
#[derive(Clone, Copy, Debug, PartialEq, Eq, Structural)]
pub struct Double {
    /// The IEEE 754 binary64 bit pattern.
    pub bits: u64,
}

impl Double {
    /// Whether the sign bit is set.
    pub open spec fn negative(self) -> bool {
        self.bits >= SIGN_BIT
    }

    /// The pattern without its sign bit.
    pub open spec fn magnitude(self) -> int {
        if self.negative() {
            self.bits - SIGN_BIT
        } else {
            self.bits as int
        }
    }

    /// Whether this is no number at all.
    pub open spec fn nan(self) -> bool {
        self.magnitude() > INFINITY_BITS
    }

    /// An integer that orders the numbers as their values do; the two zeros share one.
    pub open spec fn rank(self) -> int {
        if self.negative() {
            -self.magnitude()
        } else {
            self.magnitude()
        }
    }

    /// Whether the value is below another; never so when either is a NaN.
    pub open spec fn below(self, other: Double) -> bool {
        !self.nan() && !other.nan() && self.rank() < other.rank()
    }

    /// Whether the values are equal; never so when either is a NaN.
    pub open spec fn equals(self, other: Double) -> bool {
        !self.nan() && !other.nan() && self.rank() == other.rank()
    }

    /// The biased exponent.
    pub open spec fn exponent(self) -> int {
        self.magnitude() / (EXPONENT_UNIT as int)
    }

    /// The significand of a normal number, as an integer with its leading one.
    pub open spec fn significand(self) -> int {
        self.magnitude() % (EXPONENT_UNIT as int) + EXPONENT_UNIT
    }

    /// The size of the value without what follows the binary point.
    pub open spec fn whole_size(self) -> int {
        let e = self.exponent();
        if e < 1023 {
            0
        } else if e < 1075 {
            self.significand() / (vstd::arithmetic::power2::pow2((1075 - e) as nat) as int)
        } else {
            self.significand() * vstd::arithmetic::power2::pow2((e - 1075) as nat)
        }
    }

    /// Whether nothing follows the binary point.
    pub open spec fn is_whole(self) -> bool {
        let e = self.exponent();
        &&& self.magnitude() < INFINITY_BITS
        &&& e < 1023 ==> self.magnitude() == 0
        &&& 1023 <= e < 1075 ==> self.significand() % (vstd::arithmetic::power2::pow2(
            (1075 - e) as nat,
        ) as int) == 0
    }

    /// The value rounded towards zero and kept within the 64-bit integers; 0 for a NaN.
    pub open spec fn truncated(self) -> int {
        if self.nan() {
            0
        } else if self.negative() {
            if self.whole_size() > 0x8000_0000_0000_0000 {
                -0x8000_0000_0000_0000
            } else {
                -self.whole_size()
            }
        } else {
            if self.whole_size() > 0x7fff_ffff_ffff_ffff {
                0x7fff_ffff_ffff_ffff
            } else {
                self.whole_size()
            }
        }
    }

    /// The number with the given bit pattern.
    pub fn from_bits(bits: u64) -> (res: Double)
        ensures
            res.bits == bits,
    {
        Double { bits }
    }

    /// The bit pattern.
    pub fn to_bits(self) -> (res: u64)
        ensures
            res == self.bits,
    {
        self.bits
    }

    /// Zero.
    pub fn zero() -> (res: Double)
        ensures
            res.bits == 0,
            res.rank() == 0,
    {
        Double { bits: 0 }
    }

    /// Positive infinity, above every other number.
    pub fn infinity() -> (res: Double)
        ensures
            res.bits == INFINITY_BITS,
            forall|d: Double| !d.nan() ==> #[trigger] d.rank() <= res.rank(),
    {
        Double { bits: INFINITY_BITS }
    }

    /// Negative infinity, below every other number.
    pub fn neg_infinity() -> (res: Double)
        ensures
            res.bits == INFINITY_BITS + SIGN_BIT,
            forall|d: Double| !d.nan() ==> res.rank() <= #[trigger] d.rank(),
    {
        Double { bits: INFINITY_BITS + SIGN_BIT }
    }

    fn size_bits(self) -> (res: u64)
        ensures
            res == self.magnitude(),
    {
        if self.bits >= SIGN_BIT {
            self.bits - SIGN_BIT
        } else {
            self.bits
        }
    }

    /// Whether this is no number at all.
    pub fn is_nan(self) -> (res: bool)
        ensures
            res == self.nan(),
    {
        self.size_bits() > INFINITY_BITS
    }

    fn key(self) -> (res: i64)
        ensures
            res == self.rank(),
    {
        let size: i64 = self.size_bits() as i64;
        if self.bits >= SIGN_BIT {
            -size
        } else {
            size
        }
    }

    /// Whether the value is below another.
    pub fn lt(self, other: Double) -> (res: bool)
        ensures
            res == self.below(other),
    {
        !self.is_nan() && !other.is_nan() && self.key() < other.key()
    }

    /// Whether the values are equal.
    pub fn same_value(self, other: Double) -> (res: bool)
        ensures
            res == self.equals(other),
    {
        !self.is_nan() && !other.is_nan() && self.key() == other.key()
    }

    /// The number without its sign.
    pub fn abs(self) -> (res: Double)
        ensures
            !res.negative(),
            res.magnitude() == self.magnitude(),
    {
        Double { bits: self.size_bits() }
    }

    /// The value rounded towards zero, as a 64-bit integer.
    pub fn to_i64(self) -> (res: i64)
        ensures
            res == self.truncated(),
    {
        let size: u64 = self.size_bits();
        if size > INFINITY_BITS {
            return 0;
        }
        let e: u64 = size / EXPONENT_UNIT;
        let m: u64 = size % EXPONENT_UNIT + EXPONENT_UNIT;
        let negative: bool = self.bits >= SIGN_BIT;
        if e < 1023 {
            return 0;
        }
        if e >= 1086 {
            proof {
                lemma_pow2_at_least((e - 1075) as nat, 11);
                assert(m * vstd::arithmetic::power2::pow2((e - 1075) as nat)
                    >= 0x8000_0000_0000_0000) by (nonlinear_arith)
                    requires
                        m >= 0x10_0000_0000_0000,
                        vstd::arithmetic::power2::pow2((e - 1075) as nat) >= 2048,
                ;
            }
            return if negative {
                i64::MIN
            } else {
                i64::MAX
            };
        }
        let whole: u64 = if e < 1075 {
            let p: u64 = power_of_two(1075 - e);
            proof {
                vstd::arithmetic::power2::lemma_pow2_pos((1075 - e) as nat);
                assert(m as int / p as int <= m) by (nonlinear_arith)
                    requires
                        p > 0,
                        m >= 0,
                ;
            }
            m / p
        } else {
            let p: u64 = power_of_two(e - 1075);
            proof {
                lemma_pow2_at_most((e - 1075) as nat, 10);
                assert(m * p < 0x8000_0000_0000_0000) by (nonlinear_arith)
                    requires
                        m < 0x20_0000_0000_0000,
                        p <= 1024,
                ;
            }
            m * p
        };
        if negative {
            -(whole as i64)
        } else {
            whole as i64
        }
    }

    /// The double that holds an integer exactly.
    pub fn from_i32(n: i32) -> (res: Double)
        ensures
            res.is_whole(),
            res.truncated() == n,
            n == 0 ==> res.bits == 0,
    {
        if n == 0 {
            return Double { bits: 0 };
        }
        let size: u64 = if n < 0 {
            (-(n as i64)) as u64
        } else {
            n as u64
        };
        let mut p: u64 = 1;
        let mut k: u64 = 0;
        proof {
            vstd::arithmetic::power2::lemma2_to64();
        }
        while p * 2 <= size
            invariant
                1 <= size <= 0x8000_0000,
                1 <= p <= size,
                k <= 31,
                p == vstd::arithmetic::power2::pow2(k as nat),
            decreases size - p,
        {
            proof {
                vstd::arithmetic::power2::lemma2_to64();
                vstd::arithmetic::power2::lemma_pow2_unfold(k as nat + 1);
                if k >= 31 {
                    lemma_pow2_at_least(k as nat, 31);
                }
            }
            p = p * 2;
            k = k + 1;
        }
        let f: u64 = power_of_two(52 - k);
        proof {
            vstd::arithmetic::power2::lemma2_to64();
            vstd::arithmetic::power2::lemma2_to64_rest();
            vstd::arithmetic::power2::lemma_pow2_adds(k as nat, (52 - k) as nat);
            assert(p * f == EXPONENT_UNIT);
            assert((size - p) * f == size * f - p * f) by (nonlinear_arith);
            assert(size * f < 2 * (p * f)) by (nonlinear_arith)
                requires
                    size < p * 2,
                    f > 0,
            ;
            assert(0 <= (size - p) * f) by (nonlinear_arith)
                requires
                    size >= p,
                    f > 0,
            ;
        }
        let fraction: u64 = (size - p) * f;
        let pattern: u64 = (1023 + k) * EXPONENT_UNIT + fraction;
        let res = Double {
            bits: if n < 0 {
                pattern + SIGN_BIT
            } else {
                pattern
            },
        };
        proof {
            assert(res.magnitude() == pattern);
            assert(res.exponent() == 1023 + k);
            assert(res.significand() == size * f);
            assert((size * f) as int / f as int == size) by (nonlinear_arith)
                requires
                    f > 0,
            ;
            assert((size * f) as int % f as int == 0) by (nonlinear_arith)
                requires
                    f > 0,
            ;
            assert(res.whole_size() == size);
        }
        res
    }
}

proof fn lemma_pow2_at_least(e: nat, low: nat)
    requires
        low <= e,
    ensures
        vstd::arithmetic::power2::pow2(e) >= vstd::arithmetic::power2::pow2(low),
        low == 11 ==> vstd::arithmetic::power2::pow2(e) >= 2048,
        low == 31 ==> vstd::arithmetic::power2::pow2(e) >= 0x8000_0000,
{
    vstd::arithmetic::power2::lemma2_to64();
    if low < e {
        vstd::arithmetic::power2::lemma_pow2_strictly_increases(low, e);
    }
}

proof fn lemma_pow2_at_most(e: nat, high: nat)
    requires
        e <= high,
    ensures
        vstd::arithmetic::power2::pow2(e) <= vstd::arithmetic::power2::pow2(high),
        high == 10 ==> vstd::arithmetic::power2::pow2(e) <= 1024,
{
    vstd::arithmetic::power2::lemma2_to64();
    if e < high {
        vstd::arithmetic::power2::lemma_pow2_strictly_increases(e, high);
    }
}

/// Two to the power of `k`.
fn power_of_two(k: u64) -> (res: u64)
    requires
        k <= 62,
    ensures
        res == vstd::arithmetic::power2::pow2(k as nat),
        res > 0,
{
    let mut p: u64 = 1;
    let mut i: u64 = 0;
    proof {
        vstd::arithmetic::power2::lemma2_to64();
    }
    while i < k
        invariant
            i <= k <= 62,
            p == vstd::arithmetic::power2::pow2(i as nat),
            p > 0,
        decreases k - i,
    {
        proof {
            vstd::arithmetic::power2::lemma_pow2_unfold(i as nat + 1);
            vstd::arithmetic::power2::lemma2_to64_rest();
            if i as nat + 1 < 62 {
                vstd::arithmetic::power2::lemma_pow2_strictly_increases(i as nat + 1, 62);
            }
        }
        p = p * 2;
        i = i + 1;
    }
    p
}

}
