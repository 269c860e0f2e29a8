use mandelbrot::complex::{Complex, FixError};
use mandelbrot::fix::fix2x61::Fix2x61;
use mandelbrot::point::Point;

#[test]
fn zero_never_escapes() -> Result<(), FixError> {
    let mut zero: Point = Point::origin();
    let target_count = 1_000_000;
    zero.iterate_n(target_count)?;

    assert!(!zero.escaped);
    assert_eq!(zero.iterations, target_count);
    Ok(())
}

#[test]
fn iterate_to_works() -> Result<(), FixError> {
    let mut zero: Point = Point::origin();
    zero.escape_candidate = true;
    zero.iterate_n(10)?;
    let target_count = 1_000_000;
    zero.iterate_to_n(target_count)?;

    assert!(!zero.escaped);
    assert_eq!(zero.iterations, target_count);
    Ok(())
}

#[test]
fn one_escapes() -> Result<(), FixError> {
    let mut i: Point = Point::from_parts(&Fix2x61::one(), &Fix2x61::zero());
    let target_count = 1_000_000;
    i.iterate_n(target_count)?;

    assert!(i.escaped);
    assert_eq!(i.iterations, 1);
    Ok(())
}

#[test]
fn iterates_correctly() -> Result<(), FixError> {
    let mut c: Point = Point::from_parts(
        &(-Fix2x61::one()),
        &Fix2x61::try_from_f64_bits((0.5f64).to_bits())?,
    );
    c.iterate()?;

    assert!(!c.escaped);
    assert_eq!(c.iterations, 1);
    assert_eq!(
        *c.value(),
        Complex::new(
            Fix2x61::try_from_f64_bits((-0.25f64).to_bits())?,
            Fix2x61::try_from_f64_bits((-0.5f64).to_bits())?
        )
    );
    Ok(())
}
