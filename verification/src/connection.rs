//! Algebraic interconnections of transfer functions.
use vstd::prelude::*;

use crate::arith::{Arith, Op};
use crate::error::CoreError;
use crate::polynomial::{add_of, mul_of, sub_of};
use crate::tf::{tf_of, TransferFunction};

verus! {

/// Series (cascade) connection: `G = G1 * G2`.
pub fn series<T: Copy, Z: Fn(T) -> bool, B: Fn(Op, T, T) -> T, N: Fn(T) -> T, C: Fn(usize) -> T>(
    g1: &TransferFunction<T>,
    g2: &TransferFunction<T>,
    ar: &Arith<T, Z, B, N, C>,
) -> (r: Result<TransferFunction<T>, CoreError>)
    requires
        ar.wf(),
        g1@.0.len() + g2@.0.len() <= usize::MAX + 1,
        g1@.1.len() + g2@.1.len() <= usize::MAX + 1,
    ensures
        ({
            let a = ar.spec();
            let num = mul_of(g1@.0, g2@.0, a);
            let den = mul_of(g1@.1, g2@.1, a);
            match r {
                Ok(t) => tf_of(num, den, a) == Ok::<(Seq<T>, Seq<T>), CoreError>(t@),
                Err(e) => tf_of(num, den, a) == Err::<(Seq<T>, Seq<T>), CoreError>(e),
            }
        }),
{
    let num = g1.num().mul(g2.num(), ar);
    let den = g1.den().mul(g2.den(), ar);
    TransferFunction::new(num, den, ar)
}

/// Parallel connection: `G = G1 + G2`.
pub fn parallel<T: Copy, Z: Fn(T) -> bool, B: Fn(Op, T, T) -> T, N: Fn(T) -> T, C: Fn(usize) -> T>(
    g1: &TransferFunction<T>,
    g2: &TransferFunction<T>,
    ar: &Arith<T, Z, B, N, C>,
) -> (r: Result<TransferFunction<T>, CoreError>)
    requires
        ar.wf(),
        g1@.0.len() + g2@.1.len() <= usize::MAX + 1,
        g2@.0.len() + g1@.1.len() <= usize::MAX + 1,
        g1@.1.len() + g2@.1.len() <= usize::MAX + 1,
    ensures
        ({
            let a = ar.spec();
            let num = add_of(mul_of(g1@.0, g2@.1, a), mul_of(g2@.0, g1@.1, a), a);
            let den = mul_of(g1@.1, g2@.1, a);
            match r {
                Ok(t) => tf_of(num, den, a) == Ok::<(Seq<T>, Seq<T>), CoreError>(t@),
                Err(e) => tf_of(num, den, a) == Err::<(Seq<T>, Seq<T>), CoreError>(e),
            }
        }),
{
    let n1 = g1.num().mul(g2.den(), ar);
    let n2 = g2.num().mul(g1.den(), ar);
    let num = n1.add(&n2, ar);
    let den = g1.den().mul(g2.den(), ar);
    TransferFunction::new(num, den, ar)
}

/// Negative feedback with forward path `G` and feedback path `H`: the
/// closed loop `T = G / (1 + G*H)`.
pub fn feedback<T: Copy, Z: Fn(T) -> bool, B: Fn(Op, T, T) -> T, N: Fn(T) -> T, C: Fn(usize) -> T>(
    g: &TransferFunction<T>,
    h: &TransferFunction<T>,
    ar: &Arith<T, Z, B, N, C>,
) -> (r: Result<TransferFunction<T>, CoreError>)
    requires
        ar.wf(),
        g@.0.len() + h@.1.len() <= usize::MAX + 1,
        g@.0.len() + h@.0.len() <= usize::MAX + 1,
        g@.1.len() + h@.1.len() <= usize::MAX + 1,
    ensures
        ({
            let a = ar.spec();
            let num = mul_of(g@.0, h@.1, a);
            let den = add_of(mul_of(g@.1, h@.1, a), mul_of(g@.0, h@.0, a), a);
            match r {
                Ok(t) => tf_of(num, den, a) == Ok::<(Seq<T>, Seq<T>), CoreError>(t@),
                Err(e) => tf_of(num, den, a) == Err::<(Seq<T>, Seq<T>), CoreError>(e),
            }
        }),
{
    let num = g.num().mul(h.den(), ar);
    let prod = g.num().mul(h.num(), ar);
    let dh = g.den().mul(h.den(), ar);
    let den = dh.add(&prod, ar);
    TransferFunction::new(num, den, ar)
}

/// Positive feedback: the closed loop `T = G / (1 - G*H)`.
pub fn feedback_positive<T: Copy, Z: Fn(T) -> bool, B: Fn(Op, T, T) -> T, N: Fn(T) -> T, C: Fn(usize) -> T>(
    g: &TransferFunction<T>,
    h: &TransferFunction<T>,
    ar: &Arith<T, Z, B, N, C>,
) -> (r: Result<TransferFunction<T>, CoreError>)
    requires
        ar.wf(),
        g@.0.len() + h@.1.len() <= usize::MAX + 1,
        g@.0.len() + h@.0.len() <= usize::MAX + 1,
        g@.1.len() + h@.1.len() <= usize::MAX + 1,
    ensures
        ({
            let a = ar.spec();
            let num = mul_of(g@.0, h@.1, a);
            let den = sub_of(mul_of(g@.1, h@.1, a), mul_of(g@.0, h@.0, a), a);
            match r {
                Ok(t) => tf_of(num, den, a) == Ok::<(Seq<T>, Seq<T>), CoreError>(t@),
                Err(e) => tf_of(num, den, a) == Err::<(Seq<T>, Seq<T>), CoreError>(e),
            }
        }),
{
    let num = g.num().mul(h.den(), ar);
    let prod = g.num().mul(h.num(), ar);
    let dh = g.den().mul(h.den(), ar);
    let den = dh.sub(&prod, ar);
    TransferFunction::new(num, den, ar)
}

} // verus!
