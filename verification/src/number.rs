//! Numbers typed in by a user: IEEE-754 doubles, held by their bit pattern.

use vstd::prelude::*;
use vstd::arithmetic::power2::{lemma2_to64, lemma2_to64_rest, lemma_pow2_pos, lemma_pow2_strictly_increases, lemma_pow2_unfold, pow2};

verus! {

/// A double, held by its bit pattern.
#[derive(Debug, Clone, Copy, PartialEq, Eq, Structural)]
pub struct Number {
    pub bits: u64,
}

impl Number {
    pub open spec fn sign_set(self) -> bool {
        self.bits >= 0x8000_0000_0000_0000
    }

    pub open spec fn exponent(self) -> int {
        ((self.bits / 0x10_0000_0000_0000) % 2048) as int
    }

    pub open spec fn fraction(self) -> int {
        (self.bits % 0x10_0000_0000_0000) as int
    }

    pub open spec fn is_nan(self) -> bool {
        self.exponent() == 2047 && self.fraction() != 0
    }

    pub open spec fn is_infinite(self) -> bool {
        self.exponent() == 2047 && self.fraction() == 0
    }

    /// The significand of a finite number, as an integer.
    pub open spec fn significand(self) -> int {
        if self.exponent() == 0 {
            self.fraction()
        } else {
            self.fraction() + 0x10_0000_0000_0000
        }
    }

    /// The power of two, above 2^-1075, that scales the significand.
    pub open spec fn scale(self) -> int {
        if self.exponent() == 0 {
            1
        } else {
            self.exponent()
        }
    }

    /// The magnitude of a finite number is `numerator / denominator`.
    pub open spec fn numerator(self) -> int {
        if self.scale() >= 1075 {
            self.significand() * pow2((self.scale() - 1075) as nat)
        } else {
            self.significand()
        }
    }

    pub open spec fn denominator(self) -> int {
        if self.scale() >= 1075 {
            1
        } else {
            pow2((1075 - self.scale()) as nat) as int
        }
    }

    /// The nearest whole number, halves rounded up, of a magnitude.
    pub open spec fn rounded(self) -> int {
        (2 * self.numerator() + self.denominator()) / (2 * self.denominator())
    }

    /// The number as a register value: rounded to the nearest whole number, kept
    /// within 0..=65535, zero where it is not a number.
    pub open spec fn register(self) -> u16 {
        if self.is_nan() || self.sign_set() {
            0
        } else if self.is_infinite() || self.rounded() > 65535 {
            65535
        } else {
            self.rounded() as u16
        }
    }

    /// The number as a bit: set unless the number is zero of either sign.
    pub open spec fn nonzero(self) -> bool {
        self.bits % 0x8000_0000_0000_0000 != 0
    }

    /// Clamps a number to the register range.
    pub fn clamp_u16(self) -> (r: u16)
        ensures
            r == self.register(),
    {
        let e: u64 = (self.bits / 0x10_0000_0000_0000) % 2048;
        let f: u64 = self.bits % 0x10_0000_0000_0000;
        if e == 2047 {
            if f != 0 || self.bits >= 0x8000_0000_0000_0000 {
                return 0;
            }
            return 65535;
        }
        if self.bits >= 0x8000_0000_0000_0000 {
            return 0;
        }
        if e > 1038 {
            proof {
                self.lemma_large();
            }
            return 65535;
        }
        if e < 1022 {
            proof {
                self.lemma_small();
            }
            return 0;
        }
        let sig: u64 = f + 0x10_0000_0000_0000;
        let k: u64 = 1075 - e;
        let mut den: u64 = 1;
        let mut i: u64 = 0;
        proof {
            lemma2_to64();
        }
        while i < k
            invariant
                i <= k,
                37 <= k <= 53,
                den == pow2(i as nat),
                den <= 0x20_0000_0000_0000,
            decreases k - i,
        {
            proof {
                lemma_pow2_unfold((i + 1) as nat);
                lemma2_to64_rest();
                if i + 1 < 53 {
                    lemma_pow2_strictly_increases((i + 1) as nat, 53);
                }
            }
            den = 2 * den;
            i += 1;
        }
        proof {
            lemma_pow2_pos(k as nat);
        }
        let r: u64 = (2 * sig + den) / (2 * den);
        if r > 65535 {
            65535
        } else {
            r as u16
        }
    }

    /// Whether the number is other than zero.
    pub fn is_nonzero(self) -> (r: bool)
        ensures
            r == self.nonzero(),
    {
        self.bits % 0x8000_0000_0000_0000 != 0
    }

    proof fn lemma_large(self)
        requires
            1038 < self.exponent() < 2047,
        ensures
            self.rounded() > 65535,
    {
        lemma2_to64();
        lemma2_to64_rest();
        let n = self.numerator();
        let d = self.denominator();
        if self.scale() >= 1075 {
            let p = pow2((self.scale() - 1075) as nat) as int;
            lemma_pow2_pos((self.scale() - 1075) as nat);
            assert(self.significand() * p >= 0x10_0000_0000_0000) by (nonlinear_arith)
                requires
                    self.significand() >= 0x10_0000_0000_0000,
                    p >= 1,
            ;
        } else {
            let k = (1075 - self.scale()) as nat;
            lemma_pow2_pos(k);
            if k < 36 {
                lemma_pow2_strictly_increases(k, 36);
            }
            assert(d <= 0x10_0000_0000);
            assert(n >= 65536 * d);
        }
        assert(d >= 1 && n >= 65536 * d);
        assert((2 * n + d) / (2 * d) >= 65536) by (nonlinear_arith)
            requires
                d >= 1,
                n >= 65536 * d,
        ;
    }

    proof fn lemma_small(self)
        requires
            self.exponent() < 1022,
        ensures
            self.rounded() == 0,
    {
        lemma2_to64();
        lemma2_to64_rest();
        let n = self.numerator();
        let d = self.denominator();
        let k = (1075 - self.scale()) as nat;
        assert(k >= 54);
        if k > 54 {
            lemma_pow2_strictly_increases(54, k);
        }
        assert(d >= 0x40_0000_0000_0000);
        assert(0 <= n < 0x20_0000_0000_0000);
        assert((2 * n + d) / (2 * d) == 0) by (nonlinear_arith)
            requires
                0 <= 2 * n < d,
        ;
    }
}

/// Within the register range the register value is the nearest whole number: no more than
/// one half above the number, and less than one half below it.
pub proof fn law_register_is_nearest(v: Number)
    requires
        !v.is_nan(),
        !v.is_infinite(),
        !v.sign_set(),
        v.numerator() <= 65535 * v.denominator(),
    ensures
        2 * v.numerator() - v.denominator() < 2 * v.register() * v.denominator() <= 2
            * v.numerator() + v.denominator(),
{
    let n = v.numerator();
    let d = v.denominator();
    if v.scale() < 1075 {
        lemma_pow2_pos((1075 - v.scale()) as nat);
    }
    if v.scale() >= 1075 {
        lemma_pow2_pos((v.scale() - 1075) as nat);
        let p = pow2((v.scale() - 1075) as nat) as int;
        assert(v.significand() * p >= 0) by (nonlinear_arith)
            requires
                v.significand() >= 0,
                p >= 1,
        ;
    }
    let r = v.rounded();
    assert(r * (2 * d) <= 2 * n + d < r * (2 * d) + 2 * d) by (nonlinear_arith)
        requires
            d >= 1,
            r == (2 * n + d) / (2 * d),
    ;
    assert(0 <= r <= 65535) by (nonlinear_arith)
        requires
            d >= 1,
            0 <= n <= 65535 * d,
            r * (2 * d) <= 2 * n + d < r * (2 * d) + 2 * d,
    ;
    assert(2 * r * d == r * (2 * d)) by (nonlinear_arith);
}

/// A whole number of the register range is kept as it is.
pub proof fn law_whole_numbers_are_kept(v: Number, n: u16)
    requires
        !v.is_nan(),
        !v.is_infinite(),
        !v.sign_set(),
        v.numerator() == n * v.denominator(),
    ensures
        v.register() == n,
{
    let d = v.denominator();
    if v.scale() < 1075 {
        lemma_pow2_pos((1075 - v.scale()) as nat);
    }
    assert(n * d <= 65535 * d) by (nonlinear_arith)
        requires
            n <= 65535,
            d >= 1,
    ;
    law_register_is_nearest(v);
    let r = v.register();
    let n = n as int;
    assert(2 * (n * d) - d < 2 * r * d <= 2 * (n * d) + d);
    assert(r == n) by (nonlinear_arith)
        requires
            d >= 1,
            2 * (n * d) - d < 2 * r * d <= 2 * (n * d) + d,
    ;
}

/// The bits of a number are its sign, its exponent of eleven bits and its fraction of 52
/// bits.
pub proof fn law_number_bits(v: Number)
    ensures
        v.bits as int == (if v.sign_set() {
            0x8000_0000_0000_0000int
        } else {
            0
        }) + 0x10_0000_0000_0000 * v.exponent() + v.fraction(),
        0 <= v.exponent() < 2048,
        0 <= v.fraction() < 0x10_0000_0000_0000,
        v.is_nan() <==> v.exponent() == 2047 && v.fraction() > 0,
        v.is_infinite() <==> v.exponent() == 2047 && v.fraction() == 0,
{
}

/// The magnitude of a number is its fraction, with a leading one unless the exponent is
/// zero, times two to the exponent less 1075, an exponent of zero counting as one.
pub proof fn law_number_magnitude(v: Number)
    ensures
        ({
            let s = if v.exponent() == 0 {
                v.fraction()
            } else {
                0x10_0000_0000_0000 + v.fraction()
            };
            let e = if v.exponent() == 0 {
                1
            } else {
                v.exponent()
            };
            if e < 1075 {
                v.numerator() == s && v.denominator() == pow2((1075 - e) as nat)
            } else {
                v.numerator() == s * pow2((e - 1075) as nat) && v.denominator() == 1
            }
        }),
{
}

/// A number below zero, and what is no number, count as zero in a register, and a number
/// of 65536 or more, and infinity, as 65535.
pub proof fn law_register_limits(v: Number)
    ensures
        v.is_nan() || v.sign_set() ==> v.register() == 0,
        v.is_infinite() && !v.sign_set() ==> v.register() == 65535,
        !v.is_nan() && !v.sign_set() && !v.is_infinite() && v.numerator() >= 65535
            * v.denominator() ==> v.register() == 65535,
{
    if !v.is_nan() && !v.sign_set() && !v.is_infinite() && v.numerator() >= 65535
        * v.denominator() {
        let n = v.numerator();
        let d = v.denominator();
        if v.scale() < 1075 {
            lemma_pow2_pos((1075 - v.scale()) as nat);
        }
        assert((2 * n + d) / (2 * d) >= 65535) by (nonlinear_arith)
            requires
                d >= 1,
                n >= 65535 * d,
        ;
    }
}

/// Only zero, of either sign, counts as a clear bit.
pub proof fn law_bit_of_number(v: Number)
    ensures
        v.nonzero() <==> !(v.exponent() == 0 && v.fraction() == 0),
        v.nonzero() <==> v.bits != 0 && v.bits != 0x8000_0000_0000_0000,
{
}

} // verus!
