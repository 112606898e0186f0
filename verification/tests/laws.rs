use locus_core::{feedback, feedback_positive, parallel, poly_div, series, Arith, Op, Polynomial, TransferFunction};
use num_complex::Complex64;

type F64Arith = Arith<
    f64,
    fn(f64) -> bool,
    fn(Op, f64, f64) -> f64,
    fn(f64) -> f64,
    fn(usize) -> f64,
>;

fn is_zero(c: f64) -> bool {
    c == 0.0
}

fn binop(o: Op, a: f64, b: f64) -> f64 {
    match o {
        Op::Add => a + b,
        Op::Sub => a - b,
        Op::Mul => a * b,
        Op::Div => a / b,
    }
}

fn neg(c: f64) -> f64 {
    -c
}

fn count(n: usize) -> f64 {
    n as f64
}

fn ar() -> F64Arith {
    Arith { zero: 0.0, one: 1.0, is_zero, binop, neg, count }
}

fn poly(c: Vec<f64>) -> Polynomial<f64> {
    Polynomial::new(c, &ar()).unwrap()
}


fn fmul(a: f64, b: f64) -> f64 {
    a * b
}

fn fadd(a: f64, b: f64) -> f64 {
    a + b
}

fn at(p: &Polynomial<f64>, x: f64) -> f64 {
    p.eval(x, 0.0, &fmul, &fadd)
}

fn g_at(g: &TransferFunction<f64>, s: f64) -> f64 {
    let v = g.eval(
        Complex64::new(s, 0.0),
        Complex64::new(0.0, 0.0),
        &|a: Complex64, b: Complex64| a * b,
        &|a: Complex64, c: f64| a + c,
        &|a: Complex64, b: Complex64| a / b,
    );
    assert_eq!(v.im, 0.0);
    v.re
}

fn tf(num: Vec<f64>, den: Vec<f64>) -> TransferFunction<f64> {
    TransferFunction::from_coeffs(num, den, &ar()).unwrap()
}

#[test]
fn values_of_sum_difference_product_scale_and_negation() {
    let a = poly(vec![2.0, -1.0, 3.0]);
    let b = poly(vec![1.0, 4.0]);
    for &x in &[-2.0, 0.0, 1.0, 3.0] {
        assert_eq!(at(&a.add(&b, &ar()), x), at(&a, x) + at(&b, x));
        assert_eq!(at(&a.sub(&b, &ar()), x), at(&a, x) - at(&b, x));
        assert_eq!(at(&a.mul(&b, &ar()), x), at(&a, x) * at(&b, x));
        assert_eq!(at(&a.scale(3.0, &ar()), x), at(&a, x) * 3.0);
        assert_eq!(at(&a.clone().neg(&ar()), x), -at(&a, x));
    }
}

#[test]
fn division_reassembles_the_dividend() {
    // (s^3 + 2s^2 - s + 5) / (s - 2) = s^2 + 4s + 7, remainder 19
    let num = poly(vec![1.0, 2.0, -1.0, 5.0]);
    let den = poly(vec![1.0, -2.0]);
    let (q, r) = poly_div(&num, &den, &ar()).unwrap();
    assert_eq!(q.coeffs(), &[1.0, 4.0, 7.0]);
    assert_eq!(r.coeffs(), &[19.0]);
    for &x in &[-3.0, -1.0, 0.0, 2.0, 5.0] {
        assert_eq!(at(&num, x), at(&q, x) * at(&den, x) + at(&r, x));
    }
}

#[test]
fn connections_take_the_documented_values() {
    // G1 = 1/(s+1), G2 = 2/(s+3), H = 1/(s+2) at s = 1 (exact in binary)
    let g1 = tf(vec![1.0], vec![1.0, 1.0]);
    let g2 = tf(vec![2.0], vec![1.0, 3.0]);
    let h = tf(vec![1.0], vec![1.0, 2.0]);
    let s = 1.0;
    let (v1, v2, vh) = (g_at(&g1, s), g_at(&g2, s), g_at(&h, s));
    assert_eq!(v1, 0.5);
    assert_eq!(v2, 0.5);
    let ser = series(&g1, &g2, &ar()).unwrap();
    assert_eq!(g_at(&ser, s), v1 * v2);
    let par = parallel(&g1, &g2, &ar()).unwrap();
    assert_eq!(g_at(&par, s), v1 + v2);
    let fb = feedback(&g1, &h, &ar()).unwrap();
    // 0.5 / (1 + 0.5 / 3) = 3/7
    assert!((g_at(&fb, s) - v1 / (1.0 + v1 * vh)).abs() < 1e-15);
    let fbp = feedback_positive(&g1, &h, &ar()).unwrap();
    assert!((g_at(&fbp, s) - v1 / (1.0 - v1 * vh)).abs() < 1e-15);
}
