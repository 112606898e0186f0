use locus_core::{poly_div, Arith, CoreError, Op, Polynomial};
use num_complex::Complex64;

type F64Arith = Arith<
    f64,
    fn(f64) -> bool,
    fn(Op, f64, f64) -> f64,
    fn(f64) -> f64,
    fn(usize) -> f64,
>;

fn is_zero(c: f64) -> bool {
    c == 0.0
}

fn binop(o: Op, a: f64, b: f64) -> f64 {
    match o {
        Op::Add => a + b,
        Op::Sub => a - b,
        Op::Mul => a * b,
        Op::Div => a / b,
    }
}

fn neg(c: f64) -> f64 {
    -c
}

fn count(n: usize) -> f64 {
    n as f64
}

fn ar() -> F64Arith {
    Arith { zero: 0.0, one: 1.0, is_zero, binop, neg, count }
}

fn poly(c: Vec<f64>) -> Polynomial<f64> {
    Polynomial::new(c, &ar()).unwrap()
}

fn relative_eq(a: f64, b: f64) -> bool {
    let diff = (a - b).abs();
    diff <= f64::EPSILON || diff <= f64::EPSILON * a.abs().max(b.abs())
}

fn fmul(a: f64, b: f64) -> f64 {
    a * b
}

fn fadd(a: f64, b: f64) -> f64 {
    a + b
}

#[test]
fn construction_trims_leading_zeros() {
    let p = poly(vec![0.0, 0.0, 1.0, 2.0]);
    assert_eq!(p.coeffs(), &[1.0, 2.0]);
    assert_eq!(p.degree(), 1);
}

#[test]
fn all_zeros_normalize_to_single_zero() {
    let p = poly(vec![0.0, 0.0, 0.0]);
    assert_eq!(p.coeffs(), &[0.0]);
    assert!(p.is_zero(&ar()));
}

#[test]
fn empty_coeffs_rejected() {
    assert_eq!(
        Polynomial::new(vec![], &ar()).unwrap_err(),
        CoreError::EmptyCoefficients
    );
}

#[test]
fn horner_eval_real() {
    // P(s) = s^3 + 2s^2 + 3s + 4
    let p = poly(vec![1.0, 2.0, 3.0, 4.0]);
    assert!(relative_eq(p.eval(2.0, 0.0, &fmul, &fadd), 26.0));
    assert!(relative_eq(p.eval(-1.0, 0.0, &fmul, &fadd), 2.0));
    assert!(relative_eq(p.eval(0.0, 0.0, &fmul, &fadd), 4.0));
}

#[test]
fn horner_eval_complex_at_imag_axis() {
    // P(s) = s^2 + 1, P(j) = 0
    let p = poly(vec![1.0, 0.0, 1.0]);
    let v = p.eval(
        Complex64::new(0.0, 1.0),
        Complex64::new(0.0, 0.0),
        &|a: Complex64, b: Complex64| a * b,
        &|a: Complex64, c: f64| a + c,
    );
    assert!(relative_eq(v.re, 0.0));
    assert!(relative_eq(v.im, 0.0));
}

#[test]
fn derivative_of_cubic() {
    // d/ds(s^3 + 2s^2 + 3s + 4) = 3s^2 + 4s + 3
    let p = poly(vec![1.0, 2.0, 3.0, 4.0]);
    assert_eq!(p.derivative(&ar()).coeffs(), &[3.0, 4.0, 3.0]);
}

#[test]
fn derivative_of_constant_is_zero() {
    let p = poly(vec![5.0]);
    assert!(p.derivative(&ar()).is_zero(&ar()));
}

#[test]
fn add_unequal_degree() {
    // (s^2 + 1) + (s + 2) = s^2 + s + 3
    let a = poly(vec![1.0, 0.0, 1.0]);
    let b = poly(vec![1.0, 2.0]);
    assert_eq!(a.add(&b, &ar()).coeffs(), &[1.0, 1.0, 3.0]);
}

#[test]
fn sub_cancels_leading_term() {
    // (s^2 + s + 1) - (s^2 + 2s + 3) = -s - 2
    let a = poly(vec![1.0, 1.0, 1.0]);
    let b = poly(vec![1.0, 2.0, 3.0]);
    assert_eq!(a.sub(&b, &ar()).coeffs(), &[-1.0, -2.0]);
}

#[test]
fn mul_factored_form() {
    // (s + 1)(s + 2) = s^2 + 3s + 2
    let a = poly(vec![1.0, 1.0]);
    let b = poly(vec![1.0, 2.0]);
    assert_eq!(a.mul(&b, &ar()).coeffs(), &[1.0, 3.0, 2.0]);
}

#[test]
fn mul_by_zero() {
    let a = poly(vec![1.0, 2.0, 3.0]);
    assert!(a.mul(&Polynomial::zero(&ar()), &ar()).is_zero(&ar()));
}

#[test]
fn mul_scalar() {
    let a = poly(vec![1.0, 2.0, 3.0]);
    assert_eq!(a.scale(2.0, &ar()).coeffs(), &[2.0, 4.0, 6.0]);
}

#[test]
fn neg_flips_signs() {
    let a = poly(vec![1.0, -2.0, 3.0]);
    assert_eq!(a.neg(&ar()).coeffs(), &[-1.0, 2.0, -3.0]);
}

#[test]
fn div_exact_cubic_minus_one() {
    // (s^3 - 1) / (s - 1) = s^2 + s + 1, remainder 0
    let num = poly(vec![1.0, 0.0, 0.0, -1.0]);
    let den = poly(vec![1.0, -1.0]);
    let (q, r) = poly_div(&num, &den, &ar()).unwrap();
    assert_eq!(q.coeffs(), &[1.0, 1.0, 1.0]);
    assert!(r.is_zero(&ar()));
}

#[test]
fn div_with_constant_remainder() {
    // (s^2 + 2s + 3) / (s + 1) = s + 1, remainder 2
    let num = poly(vec![1.0, 2.0, 3.0]);
    let den = poly(vec![1.0, 1.0]);
    let (q, r) = poly_div(&num, &den, &ar()).unwrap();
    assert_eq!(q.coeffs(), &[1.0, 1.0]);
    assert_eq!(r.coeffs(), &[2.0]);
}

#[test]
fn div_by_zero_errors() {
    let num = poly(vec![1.0, 2.0]);
    assert_eq!(
        poly_div(&num, &Polynomial::zero(&ar()), &ar()).unwrap_err(),
        CoreError::DivisionByZero
    );
}

#[test]
fn div_lower_degree_returns_dividend_as_remainder() {
    // s / (s^2 + 1) = 0, remainder s
    let num = poly(vec![1.0, 0.0]);
    let den = poly(vec![1.0, 0.0, 1.0]);
    let (q, r) = poly_div(&num, &den, &ar()).unwrap();
    assert!(q.is_zero(&ar()));
    assert_eq!(r.coeffs(), &[1.0, 0.0]);
}

#[test]
fn div_quartic_by_quadratic_exact() {
    // (s^4 + 2s^2 + 1) / (s^2 + 1) = s^2 + 1, remainder 0
    let num = poly(vec![1.0, 0.0, 2.0, 0.0, 1.0]);
    let den = poly(vec![1.0, 0.0, 1.0]);
    let (q, r) = poly_div(&num, &den, &ar()).unwrap();
    assert_eq!(q.coeffs(), &[1.0, 0.0, 1.0]);
    assert!(r.is_zero(&ar()));
}

#[test]
fn from_slice_trims_and_refuses_empty() {
    let p = Polynomial::from_slice(&[0.0, 3.0, 0.0], &ar()).unwrap();
    assert_eq!(p.coeffs(), &[3.0, 0.0]);
    assert_eq!(
        Polynomial::from_slice(&[], &ar()).unwrap_err(),
        CoreError::EmptyCoefficients
    );
}

#[test]
fn zero_and_one_constants() {
    let z = Polynomial::zero(&ar());
    let o = Polynomial::one(&ar());
    assert_eq!(z.coeffs(), &[0.0]);
    assert_eq!(z.degree(), 0);
    assert!(z.is_zero(&ar()));
    assert_eq!(o.coeffs(), &[1.0]);
    assert!(!o.is_zero(&ar()));
}

#[test]
fn rebuilding_from_coefficients_gives_the_same_polynomial() {
    let p = poly(vec![0.0, 2.0, 0.0, -1.0]);
    let q = Polynomial::from_slice(p.coeffs(), &ar()).unwrap();
    assert_eq!(p, q);
}

#[test]
fn sum_degree_at_most_larger_degree() {
    let a = poly(vec![1.0, 2.0, 3.0]);
    let b = poly(vec![-1.0, 0.0, 5.0]);
    let s = a.add(&b, &ar());
    assert_eq!(s.coeffs(), &[2.0, 8.0]);
    assert!(s.degree() <= 2);
    let d = a.sub(&a, &ar());
    assert!(d.is_zero(&ar()));
    assert_eq!(d.coeffs(), &[0.0]);
}

#[test]
fn sum_commutes_on_example() {
    let a = poly(vec![0.5, -1.0, 2.0, 7.0]);
    let b = poly(vec![3.0, 0.25]);
    assert_eq!(a.add(&b, &ar()), b.add(&a, &ar()));
}

#[test]
fn product_degree_is_sum_of_degrees() {
    let a = poly(vec![2.0, 0.0, 1.0]);
    let b = poly(vec![3.0, 1.0]);
    let p = a.mul(&b, &ar());
    assert_eq!(p.coeffs(), &[6.0, 2.0, 3.0, 1.0]);
    assert_eq!(p.degree(), a.degree() + b.degree());
    assert!(Polynomial::zero(&ar()).mul(&a, &ar()).is_zero(&ar()));
}

#[test]
fn scale_by_zero_gives_zero_polynomial() {
    let a = poly(vec![1.0, 2.0]);
    assert_eq!(a.scale(0.0, &ar()).coeffs(), &[0.0]);
}

#[test]
fn derivative_lowers_degree() {
    let p = poly(vec![4.0, 0.0, 0.0]);
    let d = p.derivative(&ar());
    assert_eq!(d.coeffs(), &[8.0, 0.0]);
    assert!(d.degree() < p.degree());
}

#[test]
fn division_remainder_and_quotient_degrees() {
    // (2s^3 + 3s + 5) / (s^2 + 1) = 2s, remainder s + 5
    let num = poly(vec![2.0, 0.0, 3.0, 5.0]);
    let den = poly(vec![1.0, 0.0, 1.0]);
    let (q, r) = poly_div(&num, &den, &ar()).unwrap();
    assert_eq!(q.coeffs(), &[2.0, 0.0]);
    assert_eq!(r.coeffs(), &[1.0, 5.0]);
    assert!(r.degree() < den.degree());
    assert!(q.degree() + den.degree() <= num.degree());
}

#[test]
fn division_of_zero_is_zero() {
    let num = Polynomial::zero(&ar());
    let den = poly(vec![1.0, 1.0]);
    let (q, r) = poly_div(&num, &den, &ar()).unwrap();
    assert_eq!(q.coeffs(), &[0.0]);
    assert_eq!(r.coeffs(), &[0.0]);
}
