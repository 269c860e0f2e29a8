use crate::fix::fix2x61::Fix2x61;
use crate::fix::fix4x123::{Fix4x123, NARROWING, WIDE_ONE_RAW};
use vstd::prelude::*;

verus! {

/// Why a fixed-point computation did not produce a value.
#[derive(Debug)]
pub enum FixError {
    /// The named operation would leave the representable range.
    Overflow { op: &'static str },
    /// The named operation would lose all significance.
    Underflow { op: &'static str },
    /// A Mandelbrot step left the tracked domain: the point has escaped.
    Escaped,
}

impl Clone for FixError {
    fn clone(&self) -> (e: FixError)
        ensures
            e == *self,
    {
        match self {
            FixError::Overflow { op } => FixError::Overflow { op: *op },
            FixError::Underflow { op } => FixError::Underflow { op: *op },
            FixError::Escaped => FixError::Escaped,
        }
    }
}

pub type FixResult<T> = Result<T, FixError>;

/// A complex number with fixed-point parts.
#[derive(Copy, Debug, Clone, PartialEq, Eq, Structural)]
pub struct Complex {
    pub r: Fix2x61,
    pub i: Fix2x61,
}

/// What `overflow_escapes` returns: an overflow read as an escape.
pub open spec fn overflow_escapes_spec(e: FixError) -> FixError {
    match e {
        FixError::Overflow { op: _ } => FixError::Escaped,
        _ => e,
    }
}

/// Turns an overflow into the escape signal and leaves other errors alone:
/// a value that left the representable range has left the disc of radius
/// two as well.
pub fn overflow_escapes(e: FixError) -> (r: FixError)
    ensures
        r == overflow_escapes_spec(e),
{
    if let FixError::Overflow { op: _ } = e {
        FixError::Escaped
    } else {
        e
    }
}

/// `num::abs` at `i128`: the absolute value. The outside function negates a
/// negative argument, which the least integer does not allow.
#[verifier::external_body]
fn abs_i128(value: i128) -> (r: i128)
    requires
        value != i128::MIN,
    ensures
        r == if value < 0 {
            -value
        } else {
            value as int
        },
{
    num::abs(value)
}

/// Whether the point with scaled parts `re` and `im` (scale `2^61`) lies
/// strictly inside the disc of radius two: `re^2 + im^2 < 4`, written at the
/// scale `2^123` of a product.
pub open spec fn inside_disc(re: int, im: int) -> bool {
    2 * (re * re) + 2 * (im * im) < 4 * WIDE_ONE_RAW
}

impl Complex {
    pub fn zero() -> (z: Complex)
        ensures
            z.r@ == 0,
            z.i@ == 0,
            z == (Complex { r: Fix2x61::of(0), i: Fix2x61::of(0) }),
    {
        Complex { r: Fix2x61::zero(), i: Fix2x61::zero() }
    }

    pub fn new(r: Fix2x61, i: Fix2x61) -> (z: Complex)
        ensures
            z == (Complex { r, i }),
    {
        Complex { r, i }
    }

    /// The real part of `self^2 + loc`, exactly, at the scale `2^123`.
    pub open spec fn step_re_wide(self, loc: Complex) -> int {
        2 * (self.r@ * self.r@) - 2 * (self.i@ * self.i@) + loc.r@ * NARROWING
    }

    /// The imaginary part of `self^2 + loc`, exactly, at the scale `2^123`.
    pub open spec fn step_im_wide(self, loc: Complex) -> int {
        2 * (self.r@ * self.i@) + 2 * (self.r@ * self.i@) + loc.i@ * NARROWING
    }

    /// The real part of `self^2 + loc`, rounded down to a multiple of `2^-61`.
    pub open spec fn step_re(self, loc: Complex) -> int {
        self.step_re_wide(loc) / (NARROWING as int)
    }

    /// The imaginary part of `self^2 + loc`, rounded down to a multiple of `2^-61`.
    pub open spec fn step_im(self, loc: Complex) -> int {
        self.step_im_wide(loc) / (NARROWING as int)
    }

    /// Whether one Mandelbrot step from `self` at location `loc` stays inside
    /// the disc of radius two.
    pub open spec fn step_stays(self, loc: Complex) -> bool {
        inside_disc(self.step_re(loc), self.step_im(loc))
    }

    /// One Mandelbrot step: `self^2 + loc`, each part rounded down to a
    /// multiple of `2^-61`, if that lies strictly inside the disc of radius
    /// two; the escape signal if not.
    pub open spec fn iterate_spec(self, loc: Complex) -> FixResult<Complex> {
        if self.step_stays(loc) {
            Ok(
                Complex {
                    r: Fix2x61::of(self.step_re(loc)),
                    i: Fix2x61::of(self.step_im(loc)),
                },
            )
        } else {
            Err(FixError::Escaped)
        }
    }

    /// A point inside the disc of radius two has representable parts.
    pub proof fn lemma_inside_disc_representable(re: int, im: int)
        by (nonlinear_arith)
        requires
            inside_disc(re, im),
        ensures
            -0x4000_0000_0000_0000 < re < 0x4000_0000_0000_0000,
            -0x4000_0000_0000_0000 < im < 0x4000_0000_0000_0000,
    {
    }

    // Microbenchmarks suggest inlining slows down single iterations but speeds up full renders
    #[inline(always)]
    pub fn iterate_mandelbrot(&self, loc: &Complex) -> (res: FixResult<Complex>)
        ensures
            res == self.iterate_spec(*loc),
            res matches Ok(z) ==> z.r@ == self.step_re(*loc) && z.i@ == self.step_im(*loc),
    {
        let r = self.r;
        let i = self.i;
        let ghost re = self.step_re(*loc);
        let ghost im = self.step_im(*loc);
        proof {
            use_type_invariant(&r);
            use_type_invariant(&i);
            use_type_invariant(&loc.r);
            use_type_invariant(&loc.i);
            if inside_disc(re, im) {
                Self::lemma_inside_disc_representable(re, im);
            }
        }

        // Square
        let rr = r * r;
        let ii = i * i;
        let ri = r * i;
        let sq_r = match rr - ii {
            Ok(v) => v,
            Err(e) => {
                return Err(overflow_escapes(e));
            },
        };
        let sq_i = match ri + ri {
            Ok(v) => v,
            Err(e) => {
                return Err(overflow_escapes(e));
            },
        };

        // Add
        let sum_r = match sq_r + Fix4x123::from(loc.r) {
            Ok(v) => v,
            Err(e) => {
                return Err(overflow_escapes(e));
            },
        };
        let sum_i = match sq_i + Fix4x123::from(loc.i) {
            Ok(v) => v,
            Err(e) => {
                return Err(overflow_escapes(e));
            },
        };

        // Truncate
        let r = match sum_r.truncate() {
            Ok(v) => v,
            Err(e) => {
                return Err(overflow_escapes(e));
            },
        };
        let i = match sum_i.truncate() {
            Ok(v) => v,
            Err(e) => {
                return Err(overflow_escapes(e));
            },
        };

        // Escape check
        proof {
            assert(re * re >= 0 && im * im >= 0) by (nonlinear_arith);
        }
        let magnitude = match r * r + i * i {
            Ok(v) => v,
            Err(e) => {
                return Err(overflow_escapes(e));
            },
        };
        if abs_i128(magnitude.raw()) >= Fix4x123::four().raw() {
            Err(FixError::Escaped)
        } else {
            Ok(Complex::new(r, i))
        }
    }
}

impl Default for Complex {
    fn default() -> (z: Complex)
        ensures
            z.r@ == 0,
            z.i@ == 0,
            z == (Complex { r: Fix2x61::of(0), i: Fix2x61::of(0) }),
    {
        Complex::new(Fix2x61::zero(), Fix2x61::zero())
    }
}

} // verus!
