use std::convert::TryFrom;

use mandelbrot::complex::{Complex, FixResult};
use mandelbrot::fix::fix2x61::Fix2x61;
use mandelbrot::fix::fix4x123::Fix4x123;

#[test]
fn add_fix_64() -> FixResult<()> {
    let one = Fix2x61::one();
    let two = one + one;
    assert_eq!(two?, Fix2x61::try_from(2)?);
    Ok(())
}

#[test]
fn trunc_long() -> FixResult<()> {
    assert_eq!(Fix4x123::one().truncate()?, Fix2x61::one());
    Ok(())
}

#[test]
fn mult_fix_point() {
    let one = Fix2x61::one();
    let long_one = one * one;
    assert_eq!(long_one, Fix4x123::one());
}

#[test]
fn four() -> FixResult<()> {
    let one = Fix2x61::one();
    let two = (one + one)?;
    assert_eq!(two * two, Fix4x123::four());
    Ok(())
}

#[test]
fn power_of_two_zero() -> FixResult<()> {
    let one = Fix2x61::one();
    let two_zero = Fix2x61::power_of_two(0)?;
    assert_eq!(one, two_zero);
    Ok(())
}

#[test]
fn power_of_two_one() -> FixResult<()> {
    let two = Fix2x61::two();
    let two_one = Fix2x61::power_of_two(1)?;
    assert_eq!(two, two_one);
    Ok(())
}

#[test]
fn power_of_two_minus_one() -> FixResult<()> {
    let two = Fix2x61::two();
    let two_minus_one = Fix2x61::power_of_two(-1)?;
    assert_eq!(two * two_minus_one, Fix4x123::one());
    Ok(())
}

#[test]
fn extend_one() {
    let one = Fix2x61::one();
    let extended: Fix4x123 = From::from(one);
    assert_eq!(extended, Fix4x123::one());
}

#[test]
fn extend_two() -> FixResult<()> {
    let one = Fix2x61::one();
    let two = (one + one)?;
    let extended: Fix4x123 = From::from(two);
    let long_one = Fix4x123::one();
    let long_two = (long_one + long_one)?;
    assert_eq!(extended, long_two);
    Ok(())
}

#[test]
fn iterate_zero() -> FixResult<()> {
    let origin: Complex = Default::default();
    let iterated = origin.iterate_mandelbrot(&origin)?;
    assert_eq!(iterated, origin);
    Ok(())
}

#[test]
fn iterate_i() -> FixResult<()> {
    let i = Complex::new(Fix2x61::zero(), Fix2x61::one());
    let iterated = i.iterate_mandelbrot(&i)?;
    assert_eq!(
        iterated,
        Complex::new(Fix2x61::from_raw(-1 << 61)?, Fix2x61::one())
    );
    Ok(())
}

#[test]
fn float_into_1() -> FixResult<()> {
    let one: Fix2x61 = Fix2x61::try_from_f64_bits(1.0f64.to_bits())?;
    assert_eq!(one, Fix2x61::one());
    Ok(())
}

#[test]
fn float_into_minus_1() -> FixResult<()> {
    let result: Fix2x61 = Fix2x61::try_from_f64_bits((-1.0f64).to_bits())?;
    let minus_one = Fix2x61::from_raw(-(Fix2x61::one().raw()))?;
    assert_eq!(result, minus_one);
    Ok(())
}
