//! The fade factor: a single-precision number between zero and one, held by
//! its bit pattern and read as the exact fraction that the pattern stands for.

use vstd::prelude::*;
use vstd::arithmetic::power2::{pow2, lemma2_to64, lemma_pow2_pos, lemma_pow2_strictly_increases};
use vstd::arithmetic::div_mod::{lemma_fundamental_div_mod, lemma_small_mod, lemma_basic_div};
use vstd::bits::lemma_u64_shl_is_mul;
use vstd::string::*;
use crate::rounding::round_half_even;

verus! {

/// Bit pattern of the single-precision number `1.0`.
pub const ONE_BITS: u32 = 0x3F80_0000;

/// Bit pattern of the single-precision number `-0.0`.
pub const NEGATIVE_ZERO_BITS: u32 = 0x8000_0000;

/// Two to the power 23: the weight of the implicit leading bit of a mantissa.
pub const HIDDEN_BIT: u32 = 0x80_0000;

/// The sign bit of a single-precision bit pattern.
pub open spec fn single_negative(bits: u32) -> bool {
    bits >= NEGATIVE_ZERO_BITS
}

/// The eight exponent bits of a single-precision bit pattern.
pub open spec fn single_exponent(bits: u32) -> nat {
    ((bits / HIDDEN_BIT) % 256) as nat
}

/// The 23 fraction bits of a single-precision bit pattern.
pub open spec fn single_fraction(bits: u32) -> nat {
    (bits % HIDDEN_BIT) as nat
}

/// Whether the bit pattern stands for no number at all.
pub open spec fn single_is_nan(bits: u32) -> bool {
    single_exponent(bits) == 255 && single_fraction(bits) != 0
}

/// The mantissa as an integer: the fraction bits, with the implicit leading
/// bit unless the number is subnormal.
pub open spec fn single_mantissa(bits: u32) -> nat {
    if single_exponent(bits) == 0 {
        single_fraction(bits)
    } else {
        HIDDEN_BIT as nat + single_fraction(bits)
    }
}

/// The magnitude of a pattern with an exponent below 150 is
/// `single_mantissa / 2^single_shift`.
pub open spec fn single_shift(bits: u32) -> nat {
    if single_exponent(bits) == 0 {
        149
    } else {
        (150 - single_exponent(bits)) as nat
    }
}

/// Whether the number that the bit pattern stands for lies in the closed
/// interval from zero to one. Both zeros do; infinities and patterns that are
/// not a number do not.
pub open spec fn single_in_unit_interval(bits: u32) -> bool {
    &&& !single_is_nan(bits)
    &&& single_mantissa(bits) == 0 || {
        &&& !single_negative(bits)
        &&& single_exponent(bits) < 150
        &&& single_mantissa(bits) <= pow2(single_shift(bits))
    }
}

/// The unit interval is one run of bit patterns, from `0.0` up to `1.0`, and
/// the pattern of `-0.0` beside it.
pub proof fn lemma_unit_interval_bits(bits: u32)
    ensures
        single_in_unit_interval(bits) <==> (bits <= ONE_BITS || bits == NEGATIVE_ZERO_BITS),
        bits <= ONE_BITS ==> single_exponent(bits) <= 127 && single_mantissa(bits) <= pow2(
            single_shift(bits),
        ),
{
    let e = single_exponent(bits);
    let f = single_fraction(bits);
    let m = single_mantissa(bits);
    let k = single_shift(bits);
    lemma2_to64();
    assert(pow2(23) == 0x80_0000);
    lemma_pow2_pos(k);
    if bits >= NEGATIVE_ZERO_BITS {
        assert(single_negative(bits));
        assert(bits / HIDDEN_BIT >= 256);
        if bits == NEGATIVE_ZERO_BITS {
            assert(e == 0 && f == 0);
        } else {
            assert(m != 0 || e == 0);
            if e == 0 {
                assert(f != 0);
            }
        }
    } else {
        assert(bits / HIDDEN_BIT == e);
        assert(bits == e * HIDDEN_BIT + f);
        if e == 0 {
            lemma_pow2_strictly_increases(23, 149);
        } else if e < 127 {
            assert(pow2(24) == 0x100_0000);
            if k > 24 {
                lemma_pow2_strictly_increases(24, k);
            }
        } else if e == 127 {
        } else if e < 150 {
            if k < 23 {
                lemma_pow2_strictly_increases(k, 23);
            }
        } else {
        }
    }
}

/// The character for a decimal digit.
pub open spec fn digit_char(d: int) -> char {
    (48 + d) as char
}

/// A number of hundredths, at most a thousand of them, written with two
/// decimals: `7` as `0.07`, `100` as `1.00`.
pub open spec fn two_decimals(hundredths: int) -> Seq<char> {
    seq![
        digit_char(hundredths / 100),
        '.',
        digit_char(hundredths / 10 % 10),
        digit_char(hundredths % 10),
    ]
}

fn digit_text(d: u32) -> (text: &'static str)
    requires
        d < 10,
    ensures
        text@ == seq![digit_char(d as int)],
{
    proof {
        reveal_strlit("0");
        reveal_strlit("1");
        reveal_strlit("2");
        reveal_strlit("3");
        reveal_strlit("4");
        reveal_strlit("5");
        reveal_strlit("6");
        reveal_strlit("7");
        reveal_strlit("8");
        reveal_strlit("9");
    }
    let text = match d {
        0 => "0",
        1 => "1",
        2 => "2",
        3 => "3",
        4 => "4",
        5 => "5",
        6 => "6",
        7 => "7",
        8 => "8",
        _ => "9",
    };
    assert(text@ =~= seq![digit_char(d as int)]);
    text
}

/// Why a bit pattern is no fade factor.
#[derive(Clone, Copy, Debug, PartialEq, Eq, Structural)]
pub enum FadeError {
    /// The pattern does not stand for a number.
    NotANumber,
    /// The number lies below zero or above one.
    OutOfRange,
}

impl FadeError {
    /// The text that goes with the error.
    pub open spec fn spec_message(self) -> Seq<char> {
        match self {
            FadeError::NotANumber => "Invalid fade"@,
            FadeError::OutOfRange => "Allowed values are 0.0 to 1.0"@,
        }
    }

    /// The text that goes with the error.
    pub fn message(&self) -> (text: String)
        ensures
            text@ == self.spec_message(),
    {
        match self {
            FadeError::NotANumber => String::from_str("Invalid fade"),
            FadeError::OutOfRange => String::from_str("Allowed values are 0.0 to 1.0"),
        }
    }
}

/// A factor between zero and one that weakens the overlay in the lower part
/// of an image. It holds the bit pattern of a non-negative single-precision
/// number that is at most one.
#[derive(Clone, Copy, Debug, PartialEq, Eq, Structural)]
pub struct Fade {
    bits: u32,
}

impl Fade {
    #[verifier::type_invariant]
    spec fn in_range(self) -> bool {
        self.bits <= ONE_BITS
    }

    /// The bit pattern of the factor; never above that of `1.0`.
    pub closed spec fn bits(self) -> u32 {
        self.bits
    }

    /// Numerator of the factor as an exact fraction.
    pub open spec fn numerator(self) -> int {
        single_mantissa(self.bits()) as int
    }

    /// Denominator of the factor as an exact fraction: a power of two.
    pub open spec fn denominator(self) -> int {
        pow2(single_shift(self.bits())) as int
    }

    /// A factor whose pattern is at most that of `1.0` (as that of every
    /// factor is) has a value, `numerator / denominator`, of at most one.
    pub proof fn lemma_at_most_one(self)
        requires
            self.bits() <= ONE_BITS,
        ensures
            self.numerator() <= self.denominator(),
            self.denominator() > 0,
            self.numerator() < 0x100_0000,
            23 <= single_shift(self.bits()) <= 149,
    {
        lemma_unit_interval_bits(self.bits);
        lemma_pow2_pos(single_shift(self.bits));
        let e = single_exponent(self.bits);
        assert(self.bits / HIDDEN_BIT == e);
        assert(self.bits == e * HIDDEN_BIT + single_fraction(self.bits));
    }

    /// The factor one.
    pub closed spec fn full() -> Fade {
        Fade { bits: ONE_BITS }
    }

    /// The factor one, which leaves the overlay at full strength.
    pub fn one() -> (fade: Fade)
        ensures
            fade == Fade::full(),
            fade.bits() == ONE_BITS,
            fade.numerator() == fade.denominator(),
    {
        proof {
            lemma2_to64();
            assert(single_exponent(ONE_BITS) == 127);
            assert(single_fraction(ONE_BITS) == 0);
        }
        Fade { bits: ONE_BITS }
    }

    /// The factor with the given single-precision bit pattern, if the number
    /// it stands for lies between zero and one. Negative zero is taken as
    /// zero.
    pub fn from_bits(bits: u32) -> (result: Result<Fade, FadeError>)
        ensures
            match result {
                Ok(fade) => single_in_unit_interval(bits) && fade.bits() == (if bits
                    == NEGATIVE_ZERO_BITS {
                    0
                } else {
                    bits
                }),
                Err(FadeError::NotANumber) => single_is_nan(bits),
                Err(FadeError::OutOfRange) => !single_is_nan(bits) && !single_in_unit_interval(
                    bits,
                ),
            },
    {
        proof {
            lemma_unit_interval_bits(bits);
        }
        let exponent = (bits / HIDDEN_BIT) % 256;
        let fraction = bits % HIDDEN_BIT;
        if exponent == 255 && fraction != 0 {
            Err(FadeError::NotANumber)
        } else if bits == NEGATIVE_ZERO_BITS {
            Ok(Fade { bits: 0 })
        } else if bits <= ONE_BITS {
            Ok(Fade { bits })
        } else {
            Err(FadeError::OutOfRange)
        }
    }

    /// The factor in hundredths, rounded to the nearest; a value exactly
    /// half way between two hundredths goes to the even one.
    pub open spec fn hundredths(self) -> int {
        round_half_even(100 * self.numerator(), self.denominator())
    }

    /// The factor in hundredths, rounded as `hundredths` says.
    pub fn to_hundredths(&self) -> (h: u32)
        ensures
            h == self.hundredths(),
            h <= 100,
    {
        let m = self.mantissa();
        let k = self.shift();
        proof {
            use_type_invariant(self);
            self.lemma_at_most_one();
            lemma2_to64();
        }
        let n: u64 = 100 * (m as u64);
        if k > 32 {
            proof {
                lemma_pow2_strictly_increases(32, k as nat);
                lemma_small_mod(n as nat, pow2(k as nat));
                lemma_basic_div(n as int, pow2(k as nat) as int);
            }
            0
        } else {
            proof {
                lemma_u64_shl_is_mul(1, k as u64);
                if k < 32 {
                    lemma_pow2_strictly_increases(k as nat, 32);
                }
            }
            let den: u64 = 1u64 << (k as u64);
            let q = n / den;
            let r = n % den;
            proof {
                lemma_fundamental_div_mod(n as int, den as int);
                assert(q <= 100 && (q == 100 ==> r == 0)) by (nonlinear_arith)
                    requires
                        n == den * q + r,
                        0 <= r < den,
                        n <= 100 * den,
                        q >= 0,
                ;
            }
            if 2 * r > den || (2 * r == den && q % 2 == 1) {
                (q + 1) as u32
            } else {
                q as u32
            }
        }
    }

    /// The factor written with two decimals, as `0.50`.
    pub fn to_string(&self) -> (text: String)
        ensures
            text@ == two_decimals(self.hundredths()),
    {
        let h = self.to_hundredths();
        let mut text = String::from_str(digit_text(h / 100));
        text.append(".");
        text.append(digit_text(h / 10 % 10));
        text.append(digit_text(h % 10));
        proof {
            reveal_strlit(".");
            assert(text@ =~= two_decimals(h as int));
        }
        text
    }

    /// The single-precision bit pattern of the factor.
    pub fn to_bits(&self) -> (bits: u32)
        ensures
            bits == self.bits(),
            bits <= ONE_BITS,
    {
        proof {
            use_type_invariant(self);
        }
        self.bits
    }

    /// Numerator of the factor as an exact fraction.
    pub fn mantissa(&self) -> (m: u32)
        ensures
            m == self.numerator(),
            m < 0x100_0000,
    {
        proof {
            use_type_invariant(self);
            self.lemma_at_most_one();
        }
        let exponent = (self.bits / HIDDEN_BIT) % 256;
        let fraction = self.bits % HIDDEN_BIT;
        if exponent == 0 {
            fraction
        } else {
            HIDDEN_BIT + fraction
        }
    }

    /// Binary logarithm of the denominator of the factor as an exact fraction.
    pub fn shift(&self) -> (k: u32)
        ensures
            k == single_shift(self.bits()),
            pow2(k as nat) == self.denominator(),
            23 <= k <= 149,
    {
        proof {
            use_type_invariant(self);
            self.lemma_at_most_one();
        }
        let exponent = (self.bits / HIDDEN_BIT) % 256;
        if exponent == 0 {
            149
        } else {
            150 - exponent
        }
    }
}

} // verus!
