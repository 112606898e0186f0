use locus_core::{Arith, CoreError, Op, Polynomial, TransferFunction};
use num_complex::Complex64;

type F64Arith = Arith<
    f64,
    fn(f64) -> bool,
    fn(Op, f64, f64) -> f64,
    fn(f64) -> f64,
    fn(usize) -> f64,
>;

fn is_zero(c: f64) -> bool {
    c == 0.0
}

fn binop(o: Op, a: f64, b: f64) -> f64 {
    match o {
        Op::Add => a + b,
        Op::Sub => a - b,
        Op::Mul => a * b,
        Op::Div => a / b,
    }
}

fn neg(c: f64) -> f64 {
    -c
}

fn count(n: usize) -> f64 {
    n as f64
}

fn ar() -> F64Arith {
    Arith { zero: 0.0, one: 1.0, is_zero, binop, neg, count }
}

fn poly(c: Vec<f64>) -> Polynomial<f64> {
    Polynomial::new(c, &ar()).unwrap()
}

fn relative_eq(a: f64, b: f64) -> bool {
    let diff = (a - b).abs();
    diff <= f64::EPSILON || diff <= f64::EPSILON * a.abs().max(b.abs())
}

fn tf(num: Vec<f64>, den: Vec<f64>) -> Result<TransferFunction<f64>, CoreError> {
    TransferFunction::from_coeffs(num, den, &ar())
}

fn cmul(a: Complex64, b: Complex64) -> Complex64 {
    a * b
}

fn cadd(a: Complex64, c: f64) -> Complex64 {
    a + c
}

fn cdiv(a: Complex64, b: Complex64) -> Complex64 {
    a / b
}

#[test]
fn second_order_constructs() {
    let g = tf(vec![1.0], vec![1.0, 2.0, 1.0]).unwrap();
    assert_eq!(g.order(), 2);
    assert!(g.is_strictly_proper(&ar()));
}

#[test]
fn improper_rejected() {
    assert!(matches!(
        tf(vec![1.0, 1.0, 1.0], vec![1.0, 1.0]),
        Err(CoreError::Improper { .. })
    ));
}

#[test]
fn zero_denominator_rejected() {
    let r = TransferFunction::new(poly(vec![1.0]), Polynomial::zero(&ar()), &ar());
    assert_eq!(r.unwrap_err(), CoreError::ZeroDenominator);
}

#[test]
fn proper_but_not_strictly_proper() {
    // (s+1)/(s+2): equal degrees
    let g = tf(vec![1.0, 1.0], vec![1.0, 2.0]).unwrap();
    assert!(g.is_proper(&ar()));
    assert!(!g.is_strictly_proper(&ar()));
}

#[test]
fn dc_gain_of_first_order_lag() {
    // G(s) = 5/(s+10) -> G(0) = 0.5
    let g = tf(vec![5.0], vec![1.0, 10.0]).unwrap();
    let zero = Complex64::new(0.0, 0.0);
    let v = g.eval(Complex64::new(0.0, 0.0), zero, &cmul, &cadd, &cdiv);
    assert!(relative_eq(v.re, 0.5));
    assert!(relative_eq(v.im, 0.0));
}

#[test]
fn improper_error_reports_both_degrees() {
    assert_eq!(
        tf(vec![0.0, 1.0, 1.0, 1.0], vec![0.0, 1.0, 1.0]).unwrap_err(),
        CoreError::Improper { num_deg: 2, den_deg: 1 }
    );
}

#[test]
fn zero_denominator_checked_before_properness() {
    assert_eq!(
        tf(vec![1.0, 2.0, 3.0], vec![0.0, 0.0]).unwrap_err(),
        CoreError::ZeroDenominator
    );
}

#[test]
fn empty_coefficients_refused_for_either_side() {
    assert_eq!(tf(vec![], vec![1.0]).unwrap_err(), CoreError::EmptyCoefficients);
    assert_eq!(tf(vec![1.0], vec![]).unwrap_err(), CoreError::EmptyCoefficients);
}

#[test]
fn zero_numerator_is_strictly_proper_over_a_constant() {
    let g = tf(vec![0.0, 0.0], vec![3.0]).unwrap();
    assert!(g.is_proper(&ar()));
    assert!(g.is_strictly_proper(&ar()));
    assert_eq!(g.order(), 0);
    assert_eq!(g.num().coeffs(), &[0.0]);
    assert_eq!(g.den().coeffs(), &[3.0]);
}

#[test]
fn eval_at_real_frequency_divides_horner_values() {
    // G(s) = (s + 3)/(s^2 + 1) at s = 2: 5/5 = 1
    let g = tf(vec![1.0, 3.0], vec![1.0, 0.0, 1.0]).unwrap();
    let v = g.eval(Complex64::new(2.0, 0.0), Complex64::new(0.0, 0.0), &cmul, &cadd, &cdiv);
    assert!(relative_eq(v.re, 1.0));
    assert!(relative_eq(v.im, 0.0));
}
