use crate::complex::{FixError, FixResult};
use crate::fix::fix4x123::Fix4x123;
use vstd::arithmetic::power2::{lemma2_to64, lemma2_to64_rest, lemma_pow2_strictly_increases, pow2};
use vstd::bits::{lemma_u64_shl_is_mul, lemma_u64_shr_is_div};
use vstd::prelude::*;

verus! {

/// Scaled representation of the number one: two to the power 61.
pub const ONE_RAW: i64 = 0x2000_0000_0000_0000;

/// A signed fixed-point number with one sign bit, two integer bits and 61
/// fractional bits.
///
/// The view `x@` is the scaled integer: `x` denotes the rational `x@ / 2^61`.
/// Every value lies strictly between minus four and four; an operation whose
/// result would not is an overflow.
#[derive(Copy, Clone, Debug, PartialEq, Eq, Structural)]
pub struct Fix2x61(i64);

impl View for Fix2x61 {
    type V = int;

    closed spec fn view(&self) -> int {
        self.0 as int
    }
}

impl Fix2x61 {
    /// Whether the scaled integer `raw` denotes a number in the open interval (-4, 4).
    pub open spec fn representable(raw: int) -> bool {
        -4 * ONE_RAW < raw < 4 * ONE_RAW
    }

    /// The invariant of the type: the scaled value is representable.
    #[verifier::type_invariant]
    pub open spec fn wf(self) -> bool {
        Self::representable(self@)
    }

    /// The value whose scaled integer is `raw`; meaningful where `raw` is representable.
    pub closed spec fn of(raw: int) -> Fix2x61 {
        Fix2x61(raw as i64)
    }

    /// `of` and the view are inverse to each other on representable integers.
    pub proof fn lemma_of(raw: int)
        requires
            Self::representable(raw),
        ensures
            Self::of(raw)@ == raw,
            Self::of(raw).wf(),
    {
    }

    /// A value is determined by its view.
    pub proof fn lemma_view(x: Fix2x61)
        ensures
            Self::of(x@) == x,
            i64::MIN <= x@ <= i64::MAX,
    {
    }

    // One sign bit, two int bits, 61 mantissa bits
    pub fn zero() -> (r: Self)
        ensures
            r == Self::of(0),
            r@ == 0,
    {
        Fix2x61(0)
    }

    pub fn one() -> (r: Self)
        ensures
            r == Self::of(ONE_RAW as int),
            r@ == ONE_RAW,
    {
        Fix2x61(ONE_RAW)
    }

    pub fn two() -> (r: Self)
        ensures
            r == Self::of(2 * ONE_RAW),
            r@ == 2 * ONE_RAW,
    {
        Fix2x61(0x4000_0000_0000_0000)
    }

    /// What `power_of_two` returns: two to the power `pow`, where that is
    /// representable with 61 fractional bits and below four.
    pub open spec fn power_of_two_spec(pow: i8) -> FixResult<Fix2x61> {
        if -61 <= pow <= 1 {
            Ok(Self::of(pow2((61 + pow) as nat) as int))
        } else {
            Err(FixError::Overflow { op: "power_of_two" })
        }
    }

    pub fn power_of_two(pow: i8) -> (r: FixResult<Self>)
        ensures
            r == Self::power_of_two_spec(pow),
            r matches Ok(x) ==> x@ == pow2((61 + pow) as nat) && 0 < x@ <= 2 * ONE_RAW,
    {
        if pow > 1 || pow < -61 {
            Err(FixError::Overflow { op: "power_of_two" })
        } else {
            let shift: u64 = (61 + pow) as u64;
            proof {
                lemma2_to64_rest();
                lemma_pow2_strictly_increases_or_equal(shift as nat, 62);
                vstd::arithmetic::power2::lemma_pow2_pos(shift as nat);
                lemma_u64_shl_is_mul(1, shift);
            }
            let raw: u64 = 1u64 << shift;
            Ok(Fix2x61(raw as i64))
        }
    }

    /// What `try_from_i8` returns: the integer `value` itself, where it lies
    /// strictly between minus four and four.
    pub open spec fn try_from_i8_spec(value: i8) -> FixResult<Fix2x61> {
        if -4 < value < 4 {
            Ok(Self::of(value * ONE_RAW))
        } else {
            Err(FixError::Overflow { op: "Fix2x61::try_from(i8)" })
        }
    }

    pub fn try_from_i8(value: i8) -> (r: FixResult<Fix2x61>)
        ensures
            r == Self::try_from_i8_spec(value),
            r matches Ok(x) ==> x@ == value * ONE_RAW,
    {
        if value >= 4 || value <= -4 {
            Err(FixError::Overflow { op: "Fix2x61::try_from(i8)" })
        } else {
            let raw: i64 = (value as i64) << 61;
            assert(raw == value * ONE_RAW) by (bit_vector)
                requires
                    raw == (value as i64) << 61,
                    -4 < value < 4,
            ;
            Ok(Fix2x61(raw))
        }
    }

    /// What `from_raw` returns: the value with the given scaled integer,
    /// unless that integer stands for minus four.
    pub open spec fn from_raw_spec(raw: i64) -> FixResult<Fix2x61> {
        if Self::representable(raw as int) {
            Ok(Self::of(raw as int))
        } else {
            Err(FixError::Overflow { op: "Fix2x61::from_raw" })
        }
    }

    /// Builds a value from its scaled integer.
    pub fn from_raw(raw: i64) -> (r: FixResult<Fix2x61>)
        ensures
            r == Self::from_raw_spec(raw),
            r matches Ok(x) ==> x@ == raw,
    {
        if raw == i64::MIN {
            Err(FixError::Overflow { op: "Fix2x61::from_raw" })
        } else {
            Ok(Fix2x61(raw))
        }
    }

    /// The scaled integer of this value.
    pub fn raw(self) -> (r: i64)
        ensures
            r == self@,
            self.wf(),
    {
        proof {
            use_type_invariant(&self);
        }
        self.0
    }

    /// What `halve` returns: half of the value, rounded down to a multiple of `2^-61`.
    pub open spec fn halve_spec(self) -> FixResult<Fix2x61> {
        Ok(Self::of(self@ / 2))
    }

    /// Half of this value, rounded towards minus infinity. Never fails: the
    /// half of a representable number is representable.
    pub fn halve(self) -> (r: FixResult<Fix2x61>)
        ensures
            r == self.halve_spec(),
            r matches Ok(x) && x@ == self@ / 2,
    {
        let whole: i64 = self.0;
        let raw: i64 = whole >> 1;
        assert(raw == whole / 2) by (bit_vector)
            requires
                raw == whole >> 1,
        ;
        Ok(Fix2x61(raw))
    }
}

/// The sign bit of an IEEE-754 binary64 bit pattern.
pub open spec fn f64_negative(bits: u64) -> bool {
    bits >= 0x8000_0000_0000_0000
}

/// The biased exponent field (11 bits) of a binary64 bit pattern.
pub open spec fn f64_exponent(bits: u64) -> int {
    (bits as int / 0x10_0000_0000_0000) % 0x800
}

/// The fraction field (52 bits) of a binary64 bit pattern.
pub open spec fn f64_fraction(bits: u64) -> int {
    bits as int % 0x10_0000_0000_0000
}

/// The integer significand: the fraction, with the implicit leading one for
/// normal numbers.
pub open spec fn f64_significand(bits: u64) -> int {
    if f64_exponent(bits) == 0 {
        f64_fraction(bits)
    } else {
        f64_fraction(bits) + 0x10_0000_0000_0000
    }
}

/// The power of two by which the significand is scaled to give the absolute
/// value times `2^61`: the number encoded is
/// `significand * 2^(f64_scale(bits) - 61)` in absolute value.
pub open spec fn f64_scale(bits: u64) -> int {
    if f64_exponent(bits) == 0 {
        -1013
    } else {
        f64_exponent(bits) - 1014
    }
}

/// Whether the bit pattern encodes a finite number of absolute value below four.
pub open spec fn f64_below_four(bits: u64) -> bool {
    f64_exponent(bits) < 1025
}

/// The absolute value of the encoded number times `2^61`, rounded towards zero.
pub open spec fn f64_scaled_magnitude(bits: u64) -> int {
    if f64_scale(bits) >= 0 {
        f64_significand(bits) * pow2(f64_scale(bits) as nat)
    } else {
        f64_significand(bits) / (pow2((-f64_scale(bits)) as nat) as int)
    }
}

/// The encoded number times `2^61`, rounded towards zero.
pub open spec fn f64_scaled(bits: u64) -> int {
    if f64_negative(bits) {
        -f64_scaled_magnitude(bits)
    } else {
        f64_scaled_magnitude(bits)
    }
}

impl Fix2x61 {
    /// What `try_from_f64_bits` returns: the encoded number rounded towards
    /// zero to a multiple of `2^-61`, where it is finite and below four in
    /// absolute value.
    pub open spec fn try_from_f64_bits_spec(bits: u64) -> FixResult<Fix2x61> {
        if f64_below_four(bits) {
            Ok(Self::of(f64_scaled(bits)))
        } else {
            Err(FixError::Overflow { op: "Fix2x61::try_from(f64)" })
        }
    }

    /// Converts a double-precision floating-point number, given by its
    /// IEEE-754 bit pattern, exactly: the result is the number rounded
    /// towards zero to 61 fractional bits. Numbers of absolute value four or
    /// more, infinities and NaNs overflow.
    pub fn try_from_f64_bits(bits: u64) -> (r: FixResult<Fix2x61>)
        ensures
            r == Self::try_from_f64_bits_spec(bits),
            r matches Ok(x) ==> x@ == f64_scaled(bits),
    {
        let exponent: u64 = (bits >> 52) & 0x7ff;
        let fraction: u64 = bits & 0xf_ffff_ffff_ffff;
        let negative: bool = (bits >> 63) == 1;
        assert(exponent == (bits / 0x10_0000_0000_0000) % 0x800 && fraction == bits
            % 0x10_0000_0000_0000 && negative == (bits >= 0x8000_0000_0000_0000)) by (bit_vector)
            requires
                exponent == (bits >> 52) & 0x7ff,
                fraction == bits & 0xf_ffff_ffff_ffff,
                negative == ((bits >> 63) == 1),
        ;
        if exponent >= 1025 {
            return Err(FixError::Overflow { op: "Fix2x61::try_from(f64)" });
        }
        let significand: u64 = if exponent == 0 {
            fraction
        } else {
            fraction + 0x10_0000_0000_0000
        };
        let magnitude: u64 = if exponent >= 1014 {
            let shift: u64 = exponent - 1014;
            proof {
                lemma2_to64();
                assert(significand * pow2(shift as nat) < 0x8000_0000_0000_0000)
                    by (nonlinear_arith)
                    requires
                        0 <= significand < 0x20_0000_0000_0000,
                        0 < pow2(shift as nat) <= 0x400,
                ;
                lemma_u64_shl_is_mul(significand, shift);
            }
            significand << shift
        } else {
            let shift: u64 = if exponent == 0 {
                1013
            } else {
                1014 - exponent
            };
            proof {
                vstd::arithmetic::power2::lemma_pow2_pos(shift as nat);
                vstd::arithmetic::div_mod::lemma_div_nonincreasing(
                    significand as int,
                    pow2(shift as nat) as int,
                );
                vstd::arithmetic::div_mod::lemma_div_pos_is_pos(
                    significand as int,
                    pow2(shift as nat) as int,
                );
            }
            if shift < 64 {
                proof {
                    lemma_u64_shr_is_div(significand, shift);
                }
                significand >> shift
            } else {
                proof {
                    lemma2_to64_rest();
                    lemma_pow2_strictly_increases_or_equal(64, shift as nat);
                    vstd::arithmetic::div_mod::lemma_basic_div(
                        significand as int,
                        pow2(shift as nat) as int,
                    );
                }
                0
            }
        };
        let raw: i64 = if negative {
            -(magnitude as i64)
        } else {
            magnitude as i64
        };
        Ok(Fix2x61(raw))
    }
}

/// `pow2` is monotone.
proof fn lemma_pow2_strictly_increases_or_equal(e1: nat, e2: nat)
    requires
        e1 <= e2,
    ensures
        pow2(e1) <= pow2(e2),
{
    if e1 < e2 {
        lemma_pow2_strictly_increases(e1, e2);
    }
}

impl Default for Fix2x61 {
    fn default() -> (r: Self)
        ensures
            r == Fix2x61::of(0),
            r@ == 0,
    {
        Fix2x61::zero()
    }
}

impl vstd::std_specs::ops::NegSpecImpl for Fix2x61 {
    open spec fn obeys_neg_spec() -> bool {
        true
    }

    open spec fn neg_req(self) -> bool {
        true
    }

    open spec fn neg_spec(self) -> Fix2x61 {
        Fix2x61::of(-self@)
    }
}

impl core::ops::Neg for Fix2x61 {
    type Output = Self;

    /// The negated value: the range is symmetric, so this never fails.
    fn neg(self) -> (r: Self)
        ensures
            r@ == -self@,
    {
        proof {
            use_type_invariant(&self);
        }
        Fix2x61(-self.0)
    }
}

impl vstd::std_specs::ops::AddSpecImpl for Fix2x61 {
    open spec fn obeys_add_spec() -> bool {
        true
    }

    open spec fn add_req(self, rhs: Fix2x61) -> bool {
        true
    }

    /// The exact sum, where it lies strictly between minus four and four.
    open spec fn add_spec(self, rhs: Fix2x61) -> FixResult<Fix2x61> {
        if Fix2x61::representable(self@ + rhs@) {
            Ok(Fix2x61::of(self@ + rhs@))
        } else {
            Err(FixError::Overflow { op: "Fix2x61::add" })
        }
    }
}

impl core::ops::Add for Fix2x61 {
    type Output = FixResult<Self>;

    fn add(self, rhs: Self) -> (r: FixResult<Self>)
        ensures
            r matches Ok(x) ==> x@ == self@ + rhs@,
    {
        match self.0.checked_add(rhs.0) {
            Some(res) => {
                if res == i64::MIN {
                    Err(FixError::Overflow { op: "Fix2x61::add" })
                } else {
                    Ok(Fix2x61(res))
                }
            },
            None => Err(FixError::Overflow { op: "Fix2x61::add" }),
        }
    }
}

impl vstd::std_specs::ops::SubSpecImpl for Fix2x61 {
    open spec fn obeys_sub_spec() -> bool {
        true
    }

    open spec fn sub_req(self, rhs: Fix2x61) -> bool {
        true
    }

    /// The exact difference, where it lies strictly between minus four and four.
    open spec fn sub_spec(self, rhs: Fix2x61) -> FixResult<Fix2x61> {
        if Fix2x61::representable(self@ - rhs@) {
            Ok(Fix2x61::of(self@ - rhs@))
        } else {
            Err(FixError::Overflow { op: "Fix2x61::sub" })
        }
    }
}

impl core::ops::Sub for Fix2x61 {
    type Output = FixResult<Self>;

    fn sub(self, rhs: Self) -> (r: FixResult<Self>)
        ensures
            r matches Ok(x) ==> x@ == self@ - rhs@,
    {
        match self.0.checked_sub(rhs.0) {
            Some(res) => {
                if res == i64::MIN {
                    Err(FixError::Overflow { op: "Fix2x61::sub" })
                } else {
                    Ok(Fix2x61(res))
                }
            },
            None => Err(FixError::Overflow { op: "Fix2x61::sub" }),
        }
    }
}

impl vstd::std_specs::ops::MulSpecImpl for Fix2x61 {
    open spec fn obeys_mul_spec() -> bool {
        true
    }

    open spec fn mul_req(self, rhs: Fix2x61) -> bool {
        true
    }

    /// The exact product, in the wide format: `2^123 * (a / 2^61) * (b / 2^61)`.
    open spec fn mul_spec(self, rhs: Fix2x61) -> Fix4x123 {
        Fix4x123::of(2 * (self@ * rhs@))
    }
}

impl core::ops::Mul for Fix2x61 {
    type Output = Fix4x123;

    /// The product of two narrow values always fits the wide format.
    fn mul(self, rhs: Self) -> (r: Fix4x123)
        ensures
            r@ == 2 * (self@ * rhs@),
            -16 * crate::fix::fix4x123::WIDE_ONE_RAW < r@ < 16 * crate::fix::fix4x123::WIDE_ONE_RAW,
    {
        proof {
            use_type_invariant(&self);
            use_type_invariant(&rhs);
            lemma_product_bound(self.0 as int, rhs.0 as int);
        }
        Fix4x123::from_raw((self.0 as i128) * (rhs.0 as i128) * 2)
    }
}

/// The product of two scaled values in (-2^63, 2^63) lies in (-2^126, 2^126).
proof fn lemma_product_bound(a: int, b: int)
    by (nonlinear_arith)
    requires
        -0x8000_0000_0000_0000 < a < 0x8000_0000_0000_0000,
        -0x8000_0000_0000_0000 < b < 0x8000_0000_0000_0000,
    ensures
        -0x4000_0000_0000_0000_0000_0000_0000_0000 < a * b
            < 0x4000_0000_0000_0000_0000_0000_0000_0000,
{
}

impl vstd::std_specs::convert::TryFromSpecImpl<i8> for Fix2x61 {
    open spec fn obeys_try_from_spec() -> bool {
        true
    }

    open spec fn try_from_spec(v: i8) -> Result<Self, Self::Error> {
        Fix2x61::try_from_i8_spec(v)
    }
}

impl core::convert::TryFrom<i8> for Fix2x61 {
    type Error = FixError;

    fn try_from(value: i8) -> (r: Result<Self, Self::Error>)
        ensures
            r matches Ok(x) ==> x@ == value * ONE_RAW,
    {
        Fix2x61::try_from_i8(value)
    }
}

} // verus!
