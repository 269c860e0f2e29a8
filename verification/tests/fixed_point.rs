use std::convert::TryFrom;

use mandelbrot::complex::{FixError, FixResult};
use mandelbrot::fix::fix2x61::Fix2x61;
use mandelbrot::fix::fix4x123::Fix4x123;

const ONE: i64 = 1 << 61;

fn fix(value: f64) -> Fix2x61 {
    Fix2x61::try_from_f64_bits(value.to_bits()).unwrap()
}

fn overflow_op<T: std::fmt::Debug>(res: FixResult<T>) -> &'static str {
    match res {
        Err(FixError::Overflow { op }) => op,
        other => panic!("no overflow: {:?}", other),
    }
}

#[test]
fn widening_and_truncating_gives_the_value_back() -> FixResult<()> {
    for raw in [0, 1, -1, ONE, -ONE, 3 * ONE + 12345, i64::MAX, i64::MIN + 1] {
        let x = Fix2x61::from_raw(raw)?;
        let wide: Fix4x123 = From::from(x);
        assert_eq!(wide.raw(), (raw as i128) << 62);
        assert_eq!(wide.truncate()?, x);
    }
    Ok(())
}

#[test]
fn one_times_one_is_one() -> FixResult<()> {
    let one = Fix2x61::one();
    assert_eq!((one * one).truncate()?, one);
    Ok(())
}

#[test]
fn two_times_two_is_the_overflow_boundary() {
    let two = Fix2x61::two();
    let four = two * two;
    assert_eq!(four, Fix4x123::four());
    assert_eq!(overflow_op(four.truncate()), "truncate");
    // one step below four still narrows
    let below = Fix4x123::from_raw(four.raw() - 1);
    assert_eq!(below.truncate().unwrap().raw(), i64::MAX);
    // minus four does not
    let minus_four = Fix4x123::from_raw(-four.raw());
    assert_eq!(overflow_op(minus_four.truncate()), "truncate");
}

#[test]
fn truncation_rounds_down_and_stays_inside_the_range() {
    // -3/2 * 2^-61 rounds down to -2 * 2^-61
    let w = Fix4x123::from_raw(-3 * (1i128 << 61));
    assert_eq!(w.truncate().unwrap().raw(), -2);
    let w = Fix4x123::from_raw(3 * (1i128 << 61));
    assert_eq!(w.truncate().unwrap().raw(), 1);
    // a value just above minus four would round down to minus four
    let sliver = Fix4x123::from_raw(-(1i128 << 125) + 1);
    assert_eq!(overflow_op(sliver.truncate()), "truncate");
    let lowest = Fix4x123::from_raw(-(1i128 << 125) + (1i128 << 62));
    assert_eq!(lowest.truncate().unwrap().raw(), i64::MIN + 1);
}

#[test]
fn float_four_overflows_and_just_below_four_does_not() {
    assert_eq!(
        overflow_op(Fix2x61::try_from_f64_bits(4.0f64.to_bits())),
        "Fix2x61::try_from(f64)"
    );
    assert_eq!(
        overflow_op(Fix2x61::try_from_f64_bits((-4.0f64).to_bits())),
        "Fix2x61::try_from(f64)"
    );
    let below = 3.9999999999999996f64;
    assert!(below < 4.0);
    let x = Fix2x61::try_from_f64_bits(below.to_bits()).unwrap();
    assert_eq!(x.raw(), i64::MAX - 1023);
    let y = Fix2x61::try_from_f64_bits((-below).to_bits()).unwrap();
    assert_eq!(y.raw(), -(i64::MAX - 1023));
}

#[test]
fn floats_convert_as_the_scaled_cast_does() {
    let samples = [
        0.0,
        -0.0,
        1.0,
        -1.0,
        0.5,
        -0.25,
        3.75,
        1.0e-10,
        -1.0e-10,
        1.0e-30,
        0.1,
        -2.7182818284590452,
        3.141592653589793,
        f64::MIN_POSITIVE,
        5.0e-324,
    ];
    for value in samples {
        let expected = (value * (1i64 << 61) as f64) as i64;
        assert_eq!(fix(value).raw(), expected, "{}", value);
    }
}

#[test]
fn floats_that_are_no_numbers_in_range_overflow() {
    for value in [f64::INFINITY, f64::NEG_INFINITY, f64::NAN, 4.5, -1.0e300, f64::MAX] {
        assert_eq!(
            overflow_op(Fix2x61::try_from_f64_bits(value.to_bits())),
            "Fix2x61::try_from(f64)"
        );
    }
}

#[test]
fn small_integers_convert_exactly() {
    for value in -3i8..=3 {
        assert_eq!(Fix2x61::try_from(value).unwrap().raw(), (value as i64) * ONE);
        assert_eq!(Fix2x61::try_from_i8(value).unwrap().raw(), (value as i64) * ONE);
    }
    for value in [4i8, -4, 5, 127, -128] {
        assert_eq!(overflow_op(Fix2x61::try_from(value)), "Fix2x61::try_from(i8)");
        assert_eq!(overflow_op(Fix2x61::try_from_i8(value)), "Fix2x61::try_from(i8)");
    }
}

#[test]
fn powers_of_two_from_the_smallest_to_two() {
    assert_eq!(Fix2x61::power_of_two(-61).unwrap().raw(), 1);
    assert_eq!(Fix2x61::power_of_two(-3).unwrap().raw(), ONE / 8);
    assert_eq!(Fix2x61::power_of_two(1).unwrap(), Fix2x61::two());
    assert_eq!(overflow_op(Fix2x61::power_of_two(2)), "power_of_two");
    assert_eq!(overflow_op(Fix2x61::power_of_two(-62)), "power_of_two");
    assert_eq!(overflow_op(Fix2x61::power_of_two(127)), "power_of_two");
    assert_eq!(overflow_op(Fix2x61::power_of_two(-128)), "power_of_two");
}

#[test]
fn sums_and_differences_fail_outside_the_open_interval() {
    let two = Fix2x61::two();
    let three = (two + Fix2x61::one()).unwrap();
    assert_eq!(three.raw(), 3 * ONE);
    assert_eq!(overflow_op(two + two), "Fix2x61::add");
    assert_eq!(overflow_op(three + three), "Fix2x61::add");
    assert_eq!(overflow_op((-two) - two), "Fix2x61::sub");
    assert_eq!(overflow_op((-three) - three), "Fix2x61::sub");
    assert_eq!(overflow_op((-two) + (-two)), "Fix2x61::add");
    assert_eq!((two - three).unwrap().raw(), -ONE);
    let largest = Fix2x61::from_raw(i64::MAX).unwrap();
    assert_eq!((largest - largest).unwrap(), Fix2x61::zero());
    assert_eq!(overflow_op(largest + Fix2x61::from_raw(1).unwrap()), "Fix2x61::add");
}

#[test]
fn from_raw_refuses_minus_four() {
    assert_eq!(overflow_op(Fix2x61::from_raw(i64::MIN)), "Fix2x61::from_raw");
    assert_eq!(Fix2x61::from_raw(i64::MIN + 1).unwrap().raw(), i64::MIN + 1);
}

#[test]
fn products_are_exact() {
    // 1.5 * -0.5 = -0.75
    let w = fix(1.5) * fix(-0.5);
    assert_eq!(w.raw(), -3 * (1i128 << 121));
    assert_eq!(w.truncate().unwrap(), fix(-0.75));
    // the largest product stays inside the wide range
    let largest = Fix2x61::from_raw(i64::MAX).unwrap();
    let w = largest * largest;
    assert_eq!(w.raw(), 2 * (i64::MAX as i128) * (i64::MAX as i128));
    let w = largest * (-largest);
    assert_eq!(w.raw(), -2 * (i64::MAX as i128) * (i64::MAX as i128));
}

#[test]
fn wide_sums_and_differences_are_checked() {
    let big = Fix4x123::from_raw(i128::MAX);
    let one = Fix4x123::from_raw(1);
    assert_eq!(overflow_op(big + one), "Fix4x123::add");
    assert_eq!(overflow_op(Fix4x123::from_raw(i128::MIN) - one), "Fix4x123::sub");
    assert_eq!((big - one).unwrap().raw(), i128::MAX - 1);
    assert_eq!((Fix4x123::one() + Fix4x123::one()).unwrap(), Fix4x123::two());
    assert_eq!((Fix4x123::two() + Fix4x123::two()).unwrap(), Fix4x123::four());
    assert_eq!(Fix4x123::zero(), Fix4x123::default());
    assert_eq!(Fix4x123::zero().raw(), 0);
}

#[test]
fn halving_rounds_down() {
    assert_eq!(Fix2x61::two().halve().unwrap(), Fix2x61::one());
    assert_eq!(Fix2x61::from_raw(3).unwrap().halve().unwrap().raw(), 1);
    assert_eq!(Fix2x61::from_raw(-3).unwrap().halve().unwrap().raw(), -2);
}

#[test]
fn negation_and_default() {
    assert_eq!((-Fix2x61::one()).raw(), -ONE);
    assert_eq!(-Fix2x61::zero(), Fix2x61::zero());
    assert_eq!((-Fix2x61::from_raw(i64::MAX).unwrap()).raw(), i64::MIN + 1);
    assert_eq!(Fix2x61::default(), Fix2x61::zero());
}
