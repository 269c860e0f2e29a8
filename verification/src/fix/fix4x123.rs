use crate::complex::{FixError, FixResult};
use crate::fix::fix2x61::{Fix2x61, ONE_RAW};
use vstd::prelude::*;
use vstd::std_specs::ops::MulSpec;

verus! {

/// Scaled representation of the number one in the wide format: two to the power 123.
pub const WIDE_ONE_RAW: i128 = 0x0800_0000_0000_0000_0000_0000_0000_0000;

/// The ratio of the two scales: two to the power 62.
pub const NARROWING: i128 = 0x4000_0000_0000_0000;

/// A signed fixed-point number with one sign bit, four integer bits and 123
/// fractional bits: the format of a product of two narrow values.
///
/// The view `w@` is the scaled integer: `w` denotes the rational `w@ / 2^123`,
/// which lies between minus sixteen (included) and sixteen.
#[derive(Copy, Debug, Clone, PartialEq, Eq, Structural)]
pub struct Fix4x123(i128);

impl View for Fix4x123 {
    type V = int;

    closed spec fn view(&self) -> int {
        self.0 as int
    }
}

impl Fix4x123 {
    /// Whether the scaled integer `raw` denotes a number that the format holds.
    pub open spec fn representable(raw: int) -> bool {
        -16 * WIDE_ONE_RAW <= raw < 16 * WIDE_ONE_RAW
    }

    /// The value whose scaled integer is `raw`; meaningful where `raw` is representable.
    pub closed spec fn of(raw: int) -> Fix4x123 {
        Fix4x123(raw as i128)
    }

    /// `of` and the view are inverse to each other on representable integers.
    pub proof fn lemma_of(raw: int)
        requires
            Self::representable(raw),
        ensures
            Self::of(raw)@ == raw,
    {
    }

    /// A value is determined by its view, and its view is representable.
    pub proof fn lemma_view(w: Fix4x123)
        ensures
            Self::of(w@) == w,
            Self::representable(w@),
    {
    }

    /// The narrow value `x` in the wide format: the same number.
    pub open spec fn widen(x: Fix2x61) -> Fix4x123 {
        Self::of(x@ * NARROWING)
    }

    /// Widening a narrow value and narrowing it again gives the value back.
    pub proof fn lemma_round_trip(x: Fix2x61)
        requires
            x.wf(),
        ensures
            Self::widen(x).truncate_spec() == Ok::<Fix2x61, FixError>(x),
    {
        Fix2x61::lemma_view(x);
        vstd::arithmetic::div_mod::lemma_fundamental_div_mod_converse(
            x@ * NARROWING,
            NARROWING as int,
            x@,
            0,
        );
    }

    /// One is the identity of the product: the product of a narrow value
    /// with one, narrowed, is the value.
    pub proof fn lemma_multiplicative_identity(x: Fix2x61)
        requires
            x.wf(),
        ensures
            x.mul_spec(Fix2x61::of(ONE_RAW as int)).truncate_spec() == Ok::<Fix2x61, FixError>(x),
            Fix2x61::of(ONE_RAW as int).mul_spec(x).truncate_spec() == Ok::<Fix2x61, FixError>(x),
    {
        Fix2x61::lemma_of(ONE_RAW as int);
        Self::lemma_round_trip(x);
    }

    // One sign bit, four int bits, 123 mantissa bits
    pub fn zero() -> (r: Self)
        ensures
            r == Self::of(0),
            r@ == 0,
    {
        Fix4x123(0)
    }

    pub fn one() -> (r: Self)
        ensures
            r == Self::of(WIDE_ONE_RAW as int),
            r@ == WIDE_ONE_RAW,
    {
        Fix4x123(WIDE_ONE_RAW)
    }

    pub fn two() -> (r: Self)
        ensures
            r == Self::of(2 * WIDE_ONE_RAW),
            r@ == 2 * WIDE_ONE_RAW,
    {
        Fix4x123(0x1000_0000_0000_0000_0000_0000_0000_0000)
    }

    pub fn four() -> (r: Self)
        ensures
            r == Self::of(4 * WIDE_ONE_RAW),
            r@ == 4 * WIDE_ONE_RAW,
    {
        Fix4x123(0x2000_0000_0000_0000_0000_0000_0000_0000)
    }

    /// Builds a value from its scaled integer.
    pub fn from_raw(raw: i128) -> (r: Self)
        ensures
            r == Self::of(raw as int),
            r@ == raw,
    {
        Fix4x123(raw)
    }

    /// The scaled integer of this value.
    pub fn raw(self) -> (r: i128)
        ensures
            r == self@,
    {
        self.0
    }

    /// What `truncate` returns: the value rounded towards minus infinity to a
    /// multiple of `2^-61`, where that lies strictly between minus four and
    /// four.
    pub open spec fn truncate_spec(self) -> FixResult<Fix2x61> {
        if Fix2x61::representable(self@ / (NARROWING as int)) {
            Ok(Fix2x61::of(self@ / (NARROWING as int)))
        } else {
            Err(FixError::Overflow { op: "truncate" })
        }
    }

    pub fn truncate(&self) -> (r: FixResult<Fix2x61>)
        ensures
            r == self.truncate_spec(),
            r matches Ok(x) ==> x@ == self@ / (NARROWING as int),
            r is Ok ==> -4 * WIDE_ONE_RAW < self@ < 4 * WIDE_ONE_RAW,
            r is Err ==> self@ < -4 * WIDE_ONE_RAW + NARROWING || self@ >= 4 * WIDE_ONE_RAW,
    {
        let raw: i128 = self.0;
        if raw < 0x2000_0000_0000_0000_0000_0000_0000_0000 && raw
            > -0x2000_0000_0000_0000_0000_0000_0000_0000 {
            let shifted: i128 = raw >> 62;
            assert(shifted == raw / 0x4000_0000_0000_0000 && -0x8000_0000_0000_0000 <= shifted
                < 0x8000_0000_0000_0000) by (bit_vector)
                requires
                    shifted == raw >> 62,
                    -0x2000_0000_0000_0000_0000_0000_0000_0000 < raw
                        < 0x2000_0000_0000_0000_0000_0000_0000_0000,
            ;
            match Fix2x61::from_raw(shifted as i64) {
                Ok(x) => Ok(x),
                Err(_) => Err(FixError::Overflow { op: "truncate" }),
            }
        } else {
            Err(FixError::Overflow { op: "truncate" })
        }
    }
}

impl Default for Fix4x123 {
    fn default() -> (r: Self)
        ensures
            r == Fix4x123::of(0),
            r@ == 0,
    {
        Fix4x123::zero()
    }
}

impl vstd::std_specs::ops::AddSpecImpl for Fix4x123 {
    open spec fn obeys_add_spec() -> bool {
        true
    }

    open spec fn add_req(self, rhs: Fix4x123) -> bool {
        true
    }

    /// The exact sum, where the format holds it.
    open spec fn add_spec(self, rhs: Fix4x123) -> FixResult<Fix4x123> {
        if Fix4x123::representable(self@ + rhs@) {
            Ok(Fix4x123::of(self@ + rhs@))
        } else {
            Err(FixError::Overflow { op: "Fix4x123::add" })
        }
    }
}

impl core::ops::Add for Fix4x123 {
    type Output = FixResult<Self>;

    fn add(self, rhs: Self) -> (r: FixResult<Self>)
        ensures
            r matches Ok(x) ==> x@ == self@ + rhs@,
    {
        if let Some(res) = self.0.checked_add(rhs.0) {
            Ok(Fix4x123(res))
        } else {
            Err(FixError::Overflow { op: "Fix4x123::add" })
        }
    }
}

impl vstd::std_specs::ops::SubSpecImpl for Fix4x123 {
    open spec fn obeys_sub_spec() -> bool {
        true
    }

    open spec fn sub_req(self, rhs: Fix4x123) -> bool {
        true
    }

    /// The exact difference, where the format holds it.
    open spec fn sub_spec(self, rhs: Fix4x123) -> FixResult<Fix4x123> {
        if Fix4x123::representable(self@ - rhs@) {
            Ok(Fix4x123::of(self@ - rhs@))
        } else {
            Err(FixError::Overflow { op: "Fix4x123::sub" })
        }
    }
}

impl core::ops::Sub for Fix4x123 {
    type Output = FixResult<Self>;

    fn sub(self, rhs: Self) -> (r: FixResult<Self>)
        ensures
            r matches Ok(x) ==> x@ == self@ - rhs@,
    {
        if let Some(res) = self.0.checked_sub(rhs.0) {
            Ok(Fix4x123(res))
        } else {
            Err(FixError::Overflow { op: "Fix4x123::sub" })
        }
    }
}

impl vstd::std_specs::convert::FromSpecImpl<Fix2x61> for Fix4x123 {
    open spec fn obeys_from_spec() -> bool {
        true
    }

    /// The same number in the wide format.
    open spec fn from_spec(v: Fix2x61) -> Fix4x123 {
        Fix4x123::widen(v)
    }
}

impl core::convert::From<Fix2x61> for Fix4x123 {
    fn from(val: Fix2x61) -> (r: Self)
        ensures
            r@ == val@ * NARROWING,
    {
        let raw: i64 = val.raw();
        Fix4x123((raw as i128) * NARROWING)
    }
}

} // verus!
