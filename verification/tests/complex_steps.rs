use mandelbrot::complex::{overflow_escapes, Complex, FixError};
use mandelbrot::fix::fix2x61::Fix2x61;

fn fix(value: f64) -> Fix2x61 {
    Fix2x61::try_from_f64_bits(value.to_bits()).unwrap()
}

fn escapes(z: Complex, c: Complex) -> bool {
    match z.iterate_mandelbrot(&c) {
        Err(FixError::Escaped) => true,
        Ok(_) => false,
        Err(e) => panic!("unexpected error {:?}", e),
    }
}

#[test]
fn a_step_squares_and_adds() {
    // (0.5 + 0.25i)^2 + (-0.125 + 0.5i) = 0.0625 + 0.75i
    let z = Complex::new(fix(0.5), fix(0.25));
    let c = Complex::new(fix(-0.125), fix(0.5));
    let next = z.iterate_mandelbrot(&c).unwrap();
    assert_eq!(next, Complex::new(fix(0.0625), fix(0.75)));
}

#[test]
fn a_step_rounds_down() {
    // the square of 2^-61 is far below the resolution
    let tiny = Fix2x61::from_raw(1).unwrap();
    let z = Complex::new(tiny, Fix2x61::zero());
    let next = z.iterate_mandelbrot(&Complex::zero()).unwrap();
    assert_eq!(next, Complex::zero());
    // minus the square of a tiny imaginary number rounds down to the next step below zero
    let z = Complex::new(Fix2x61::zero(), tiny);
    let next = z.iterate_mandelbrot(&Complex::zero()).unwrap();
    assert_eq!(next, Complex::new(Fix2x61::from_raw(-1).unwrap(), Fix2x61::zero()));
}

#[test]
fn leaving_the_disc_is_an_escape() {
    // 1^2 + 1 = 2, and |2|^2 = 4
    let one = Complex::new(Fix2x61::one(), Fix2x61::zero());
    assert!(escapes(one, one));
    // just inside: (sqrt(2) - a bit)^2 + 0 stays below two
    let z = Complex::new(fix(1.4), Fix2x61::zero());
    assert!(!escapes(z, Complex::zero()));
    // -2 is the tip of the set: 0^2 - 2 = -2 has |z|^2 = 4
    let minus_two = Complex::new(-Fix2x61::two(), Fix2x61::zero());
    assert!(escapes(Complex::zero(), minus_two));
}

#[test]
fn every_overflow_is_an_escape() {
    let big = fix(3.9);
    let small = fix(0.1);
    // the real part of the square overflows the narrow range
    assert!(escapes(Complex::new(big, small), Complex::zero()));
    // twice the product of the parts overflows the wide range
    assert!(escapes(Complex::new(big, big), Complex::zero()));
    assert!(escapes(Complex::new(big, -big), Complex::zero()));
    // adding the location overflows the wide range
    assert!(escapes(Complex::new(big, small), Complex::new(big, big)));
    let largest = Fix2x61::from_raw(i64::MAX).unwrap();
    assert!(escapes(Complex::new(largest, largest), Complex::new(largest, largest)));
    assert!(escapes(Complex::new(-largest, largest), Complex::new(-largest, -largest)));
}

#[test]
fn overflow_reads_as_escape() {
    assert!(matches!(
        overflow_escapes(FixError::Overflow { op: "truncate" }),
        FixError::Escaped
    ));
    assert!(matches!(overflow_escapes(FixError::Escaped), FixError::Escaped));
    assert!(matches!(
        overflow_escapes(FixError::Underflow { op: "x" }),
        FixError::Underflow { op: "x" }
    ));
}

#[test]
fn zero_and_default_agree() {
    assert_eq!(Complex::zero(), Complex::default());
    assert_eq!(Complex::zero().r, Fix2x61::zero());
    assert_eq!(Complex::zero().i, Fix2x61::zero());
}
