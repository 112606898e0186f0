//! Single-input single-output transfer functions `G(s) = num(s) / den(s)`.
use vstd::prelude::*;

use crate::arith::{call2, functional2, spec2, Arith, ArithSpec, Op};
use crate::error::CoreError;
use crate::polynomial::{all_zero, degree_of, horner, Polynomial};

verus! {

/// The numerator is zero or of no higher degree than the denominator.
pub open spec fn proper<T>(num: Seq<T>, den: Seq<T>, a: ArithSpec<T>) -> bool {
    all_zero(num, a) || degree_of(num.len()) <= degree_of(den.len())
}

/// The numerator is zero or of lower degree than the denominator.
pub open spec fn strictly_proper<T>(num: Seq<T>, den: Seq<T>, a: ArithSpec<T>) -> bool {
    all_zero(num, a) || degree_of(num.len()) < degree_of(den.len())
}

/// The transfer function `num / den`, or why it is refused: a zero
/// denominator first, then an improper ratio.
pub open spec fn tf_of<T>(num: Seq<T>, den: Seq<T>, a: ArithSpec<T>) -> Result<
    (Seq<T>, Seq<T>),
    CoreError,
> {
    if all_zero(den, a) {
        Err(CoreError::ZeroDenominator)
    } else if !proper(num, den, a) {
        Err(
            CoreError::Improper {
                num_deg: degree_of(num.len()) as usize,
                den_deg: degree_of(den.len()) as usize,
            },
        )
    } else {
        Ok((num, den))
    }
}

/// A transfer function `num(s) / den(s)` with a non-zero denominator and a
/// numerator of no higher degree.
#[derive(Clone, Debug, PartialEq)]
pub struct TransferFunction<T> {
    num: Polynomial<T>,
    den: Polynomial<T>,
}

impl<T> View for TransferFunction<T> {
    type V = (Seq<T>, Seq<T>);

    closed spec fn view(&self) -> (Seq<T>, Seq<T>) {
        (self.num@, self.den@)
    }
}

impl<T: Copy> TransferFunction<T> {
    /// Builds `num / den`; refuses a zero denominator and an improper ratio.
    pub fn new<Z: Fn(T) -> bool, B: Fn(Op, T, T) -> T, N: Fn(T) -> T, C: Fn(usize) -> T>(
        num: Polynomial<T>,
        den: Polynomial<T>,
        ar: &Arith<T, Z, B, N, C>,
    ) -> (r: Result<Self, CoreError>)
        requires
            ar.wf(),
        ensures
            match r {
                Ok(t) => tf_of(num@, den@, ar.spec()) == Ok::<(Seq<T>, Seq<T>), CoreError>(t@),
                Err(e) => tf_of(num@, den@, ar.spec()) == Err::<(Seq<T>, Seq<T>), CoreError>(e),
            },
    {
        if den.is_zero(ar) {
            return Err(CoreError::ZeroDenominator);
        }
        if !num.is_zero(ar) && num.degree() > den.degree() {
            return Err(CoreError::Improper { num_deg: num.degree(), den_deg: den.degree() });
        }
        Ok(TransferFunction { num, den })
    }

    /// Builds the transfer function from raw coefficient vectors in
    /// descending power order.
    pub fn from_coeffs<Z: Fn(T) -> bool, B: Fn(Op, T, T) -> T, N: Fn(T) -> T, C: Fn(usize) -> T>(
        num: Vec<T>,
        den: Vec<T>,
        ar: &Arith<T, Z, B, N, C>,
    ) -> (r: Result<Self, CoreError>)
        requires
            ar.wf(),
        ensures
            num@.len() == 0 || den@.len() == 0 ==> r == Err::<Self, CoreError>(
                CoreError::EmptyCoefficients,
            ),
            num@.len() > 0 && den@.len() > 0 ==> match r {
                Ok(t) => tf_of(
                    crate::polynomial::trimmed(num@, ar.spec()),
                    crate::polynomial::trimmed(den@, ar.spec()),
                    ar.spec(),
                ) == Ok::<(Seq<T>, Seq<T>), CoreError>(t@),
                Err(e) => tf_of(
                    crate::polynomial::trimmed(num@, ar.spec()),
                    crate::polynomial::trimmed(den@, ar.spec()),
                    ar.spec(),
                ) == Err::<(Seq<T>, Seq<T>), CoreError>(e),
            },
    {
        let n = match Polynomial::new(num, ar) {
            Ok(p) => p,
            Err(e) => return Err(e),
        };
        let d = match Polynomial::new(den, ar) {
            Ok(p) => p,
            Err(e) => return Err(e),
        };
        Self::new(n, d, ar)
    }

    /// The numerator.
    pub fn num(&self) -> (p: &Polynomial<T>)
        ensures
            p@ == self@.0,
    {
        &self.num
    }

    /// The denominator.
    pub fn den(&self) -> (p: &Polynomial<T>)
        ensures
            p@ == self@.1,
    {
        &self.den
    }

    /// The system order: the degree of the denominator.
    pub fn order(&self) -> (n: usize)
        ensures
            n == degree_of(self@.1.len()),
    {
        self.den.degree()
    }

    /// Whether the numerator is zero or of no higher degree than the
    /// denominator.
    pub fn is_proper<Z: Fn(T) -> bool, B: Fn(Op, T, T) -> T, N: Fn(T) -> T, C: Fn(usize) -> T>(
        &self,
        ar: &Arith<T, Z, B, N, C>,
    ) -> (b: bool)
        requires
            ar.wf(),
        ensures
            b == proper(self@.0, self@.1, ar.spec()),
    {
        self.num.is_zero(ar) || self.num.degree() <= self.den.degree()
    }

    /// Whether the numerator is zero or of lower degree than the
    /// denominator.
    pub fn is_strictly_proper<
        Z: Fn(T) -> bool,
        B: Fn(Op, T, T) -> T,
        N: Fn(T) -> T,
        C: Fn(usize) -> T,
    >(&self, ar: &Arith<T, Z, B, N, C>) -> (b: bool)
        requires
            ar.wf(),
        ensures
            b == strictly_proper(self@.0, self@.1, ar.spec()),
    {
        self.num.is_zero(ar) || self.num.degree() < self.den.degree()
    }

    /// Evaluates `G(s)`: the numerator and the denominator each by Horner's
    /// method from `start`, then divided by `div`.
    pub fn eval<U: Copy, M: Fn(U, U) -> U, A: Fn(U, T) -> U, D: Fn(U, U) -> U>(
        &self,
        s: U,
        start: U,
        mul: &M,
        add: &A,
        div: &D,
    ) -> (r: U)
        requires
            functional2(*mul),
            functional2(*add),
            functional2(*div),
        ensures
            r == spec2(*div)(
                horner(self@.0, s, start, spec2(*mul), spec2(*add)),
                horner(self@.1, s, start, spec2(*mul), spec2(*add)),
            ),
    {
        let n = self.num.eval(s, start, mul, add);
        let d = self.den.eval(s, start, mul, add);
        call2(div, n, d)
    }
}

} // verus!
