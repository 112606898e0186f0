use locus_core::{feedback, feedback_positive, parallel, series, Arith, CoreError, Op, TransferFunction};

type F64Arith = Arith<
    f64,
    fn(f64) -> bool,
    fn(Op, f64, f64) -> f64,
    fn(f64) -> f64,
    fn(usize) -> f64,
>;

fn is_zero(c: f64) -> bool {
    c == 0.0
}

fn binop(o: Op, a: f64, b: f64) -> f64 {
    match o {
        Op::Add => a + b,
        Op::Sub => a - b,
        Op::Mul => a * b,
        Op::Div => a / b,
    }
}

fn neg(c: f64) -> f64 {
    -c
}

fn count(n: usize) -> f64 {
    n as f64
}

fn ar() -> F64Arith {
    Arith { zero: 0.0, one: 1.0, is_zero, binop, neg, count }
}


fn tf(num: Vec<f64>, den: Vec<f64>) -> TransferFunction<f64> {
    TransferFunction::from_coeffs(num, den, &ar()).unwrap()
}

#[test]
fn series_multiplies_first_order_lags() {
    // 1/(s+1) * 1/(s+2) = 1/(s^2 + 3s + 2)
    let g1 = tf(vec![1.0], vec![1.0, 1.0]);
    let g2 = tf(vec![1.0], vec![1.0, 2.0]);
    let g = series(&g1, &g2, &ar()).unwrap();
    assert_eq!(g.num().coeffs(), &[1.0]);
    assert_eq!(g.den().coeffs(), &[1.0, 3.0, 2.0]);
}

#[test]
fn parallel_sums_first_order_lags() {
    // 1/(s+1) + 1/(s+2) = (2s + 3)/(s^2 + 3s + 2)
    let g1 = tf(vec![1.0], vec![1.0, 1.0]);
    let g2 = tf(vec![1.0], vec![1.0, 2.0]);
    let g = parallel(&g1, &g2, &ar()).unwrap();
    assert_eq!(g.num().coeffs(), &[2.0, 3.0]);
    assert_eq!(g.den().coeffs(), &[1.0, 3.0, 2.0]);
}

#[test]
fn unity_feedback_of_integrator() {
    // G = 1/s, H = 1, T = 1/(s + 1)
    let g = tf(vec![1.0], vec![1.0, 0.0]);
    let h = tf(vec![1.0], vec![1.0]);
    let t = feedback(&g, &h, &ar()).unwrap();
    assert_eq!(t.num().coeffs(), &[1.0]);
    assert_eq!(t.den().coeffs(), &[1.0, 1.0]);
}

#[test]
fn unity_feedback_of_double_integrator_with_damping() {
    // G = 1/(s^2 + s), H = 1, T = 1/(s^2 + s + 1)
    let g = tf(vec![1.0], vec![1.0, 1.0, 0.0]);
    let h = tf(vec![1.0], vec![1.0]);
    let t = feedback(&g, &h, &ar()).unwrap();
    assert_eq!(t.num().coeffs(), &[1.0]);
    assert_eq!(t.den().coeffs(), &[1.0, 1.0, 1.0]);
}

#[test]
fn positive_feedback_unstable_loop() {
    // G = 1/(s+1), H = 1, positive feedback: T = 1/((s+1) - 1) = 1/s
    let g = tf(vec![1.0], vec![1.0, 1.0]);
    let h = tf(vec![1.0], vec![1.0]);
    let t = feedback_positive(&g, &h, &ar()).unwrap();
    assert_eq!(t.num().coeffs(), &[1.0]);
    assert_eq!(t.den().coeffs(), &[1.0, 0.0]);
}

#[test]
fn positive_feedback_can_cancel_the_denominator() {
    // G = 1, H = 1: 1 - 1*1 = 0, the closed loop has no denominator
    let g = tf(vec![1.0], vec![1.0]);
    let h = tf(vec![1.0], vec![1.0]);
    assert_eq!(
        feedback_positive(&g, &h, &ar()).unwrap_err(),
        CoreError::ZeroDenominator
    );
}

#[test]
fn series_of_proper_systems_stays_proper() {
    let g1 = tf(vec![1.0, 0.0], vec![1.0, 1.0]);
    let g2 = tf(vec![2.0, 1.0], vec![1.0, 0.0, 4.0]);
    let g = series(&g1, &g2, &ar()).unwrap();
    assert_eq!(g.num().coeffs(), &[2.0, 1.0, 0.0]);
    assert_eq!(g.den().coeffs(), &[1.0, 1.0, 4.0, 4.0]);
    assert!(g.is_proper(&ar()));
    assert_eq!(g.order(), 3);
}
