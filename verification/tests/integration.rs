use locus_core::{feedback, poly_div, series, Arith, Op, Polynomial, TransferFunction};

type F64Arith = Arith<
    f64,
    fn(f64) -> bool,
    fn(Op, f64, f64) -> f64,
    fn(f64) -> f64,
    fn(usize) -> f64,
>;

fn is_zero(c: f64) -> bool {
    c == 0.0
}

fn binop(o: Op, a: f64, b: f64) -> f64 {
    match o {
        Op::Add => a + b,
        Op::Sub => a - b,
        Op::Mul => a * b,
        Op::Div => a / b,
    }
}

fn neg(c: f64) -> f64 {
    -c
}

fn count(n: usize) -> f64 {
    n as f64
}

fn ar() -> F64Arith {
    Arith { zero: 0.0, one: 1.0, is_zero, binop, neg, count }
}


#[test]
fn series_then_unity_feedback() {
    // G1 = 1/(s+1), G2 = 1/(s+2), in series: 1/(s^2 + 3s + 2)
    // Then unity negative feedback: 1/(s^2 + 3s + 3)
    let g1 = TransferFunction::from_coeffs(vec![1.0], vec![1.0, 1.0], &ar()).unwrap();
    let g2 = TransferFunction::from_coeffs(vec![1.0], vec![1.0, 2.0], &ar()).unwrap();
    let open = series(&g1, &g2, &ar()).unwrap();
    let unity = TransferFunction::from_coeffs(vec![1.0], vec![1.0], &ar()).unwrap();
    let cl = feedback(&open, &unity, &ar()).unwrap();
    assert_eq!(cl.num().coeffs(), &[1.0]);
    assert_eq!(cl.den().coeffs(), &[1.0, 3.0, 3.0]);
}

#[test]
fn polynomial_division_roundtrip_through_tf() {
    // Build (s^2 + 3s + 2), divide by (s + 1), expect quotient (s + 2)
    // and verify constructing TF (s + 2)/(s + 1) is valid.
    let n = Polynomial::new(vec![1.0, 3.0, 2.0], &ar()).unwrap();
    let d = Polynomial::new(vec![1.0, 1.0], &ar()).unwrap();
    let (q, r) = poly_div(&n, &d, &ar()).unwrap();
    assert_eq!(q.coeffs(), &[1.0, 2.0]);
    assert!(r.is_zero(&ar()));

    let g = TransferFunction::new(q, d, &ar()).unwrap();
    assert_eq!(g.order(), 1);
}
