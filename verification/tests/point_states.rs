use mandelbrot::complex::Complex;
use mandelbrot::fix::fix2x61::Fix2x61;
use mandelbrot::point::Point;

fn fix(value: f64) -> Fix2x61 {
    Fix2x61::try_from_f64_bits(value.to_bits()).unwrap()
}

#[test]
fn a_new_point_has_done_nothing() {
    let c = Complex::new(fix(0.25), fix(-0.5));
    let p = Point::new(c);
    assert_eq!(*p.value(), c);
    assert_eq!(p.iterations, 0);
    assert_eq!(p.iteration_count(), 0);
    assert!(!p.escaped);
    assert!(!p.has_escaped());
    assert!(!p.escape_candidate);
    assert!(!p.is_candidate());
    let q = Point::from_parts(&c.r, &c.i);
    assert_eq!(*q.value(), c);
    assert_eq!(*Point::origin().value(), Complex::zero());
}

#[test]
fn the_unit_point_escapes_with_any_budget() {
    for budget in [1u64, 2, 3, 10, 1000] {
        let mut p = Point::from_parts(&Fix2x61::one(), &Fix2x61::zero());
        p.iterate_n(budget).unwrap();
        assert!(p.escaped);
        assert_eq!(p.iterations, 1);
    }
    let mut p = Point::from_parts(&Fix2x61::one(), &Fix2x61::zero());
    p.iterate_n(0).unwrap();
    assert!(!p.escaped);
    assert_eq!(p.iterations, 0);
}

#[test]
fn an_escaped_point_stays_as_it_is() {
    let mut p = Point::from_parts(&Fix2x61::one(), &Fix2x61::zero());
    p.escape_candidate = true;
    p.iterate().unwrap();
    assert!(p.escaped);
    let value = *p.value();
    p.iterate().unwrap();
    p.iterate_n(5).unwrap();
    p.iterate_to_n(100).unwrap();
    assert!(p.escaped);
    assert_eq!(p.iterations, 1);
    assert_eq!(*p.value(), value);
    // the value is the last one inside the disc
    assert_eq!(value, Complex::new(Fix2x61::one(), Fix2x61::zero()));
}

#[test]
fn only_candidates_are_advanced() {
    let mut p = Point::origin();
    p.iterate_to_n(100).unwrap();
    assert_eq!(p.iterations, 0);
    assert!(p.mark_candidate());
    assert!(!p.mark_candidate());
    assert!(p.escape_candidate);
    p.iterate_to_n(100).unwrap();
    assert_eq!(p.iterations, 100);
    // a lower target changes nothing
    p.iterate_to_n(50).unwrap();
    assert_eq!(p.iterations, 100);
    p.iterate_to_n(100).unwrap();
    assert_eq!(p.iterations, 100);
}

#[test]
fn the_escape_depth_is_counted_exactly() {
    // c = 0.5: 0.5, 0.75, 1.0625, 1.62890625, then 3.15... leaves the disc
    let mut p = Point::from_parts(&fix(0.5), &Fix2x61::zero());
    p.escape_candidate = true;
    p.iterate_to_n(3).unwrap();
    assert!(!p.escaped);
    assert_eq!(p.iterations, 3);
    assert_eq!(*p.value(), Complex::new(fix(1.62890625), Fix2x61::zero()));
    p.iterate_to_n(1000).unwrap();
    assert!(p.escaped);
    assert_eq!(p.iterations, 4);
    assert_eq!(*p.value(), Complex::new(fix(1.62890625), Fix2x61::zero()));
}
