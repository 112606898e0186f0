//! The coefficient arithmetic that every polynomial operation is generic over.
//!
//! The library never computes with coefficients itself: it hands every
//! scalar operation to the closures of an [`Arith`] bundle. Contracts speak of
//! what those closures return through [`ArithSpec`], the spec-level picture of
//! the bundle.
use vstd::prelude::*;

verus! {

/// A binary coefficient operation.
#[derive(Clone, Copy, Debug, PartialEq, Eq, Structural)]
pub enum Op {
    Add,
    Sub,
    Mul,
    Div,
}

/// Every call of `f` is allowed, and `f` is a function of its arguments.
pub open spec fn functional2<A, B, R, F: Fn(A, B) -> R>(f: F) -> bool {
    &&& forall|x: A, y: B| call_requires(f, (x, y))
    &&& forall|x: A, y: B, r1: R, r2: R|
        #![trigger call_ensures(f, (x, y), r1), call_ensures(f, (x, y), r2)]
        call_ensures(f, (x, y), r1) && call_ensures(f, (x, y), r2) ==> r1 == r2
}

/// What a [`functional2`] closure returns, as a spec function.
pub open spec fn spec2<A, B, R, F: Fn(A, B) -> R>(f: F) -> spec_fn(A, B) -> R {
    |x: A, y: B| choose|r: R| call_ensures(f, (x, y), r)
}

/// Calls a [`functional2`] closure.
pub fn call2<A, B, R, F: Fn(A, B) -> R>(f: &F, x: A, y: B) -> (r: R)
    requires
        functional2(*f),
    ensures
        r == spec2(*f)(x, y),
{
    let r = f(x, y);
    proof {
        let c = choose|c: R| call_ensures(*f, (x, y), c);
        assert(call_ensures(*f, (x, y), c));
    }
    r
}

/// What the closures of an [`Arith`] compute, as spec functions.
#[verifier::reject_recursive_types(T)]
pub struct ArithSpec<T> {
    pub zero: T,
    pub one: T,
    pub is_zero: spec_fn(T) -> bool,
    pub op: spec_fn(Op, T, T) -> T,
    pub neg: spec_fn(T) -> T,
    pub count: spec_fn(usize) -> T,
}

impl<T> ArithSpec<T> {
    pub open spec fn add(self, x: T, y: T) -> T {
        (self.op)(Op::Add, x, y)
    }

    pub open spec fn sub(self, x: T, y: T) -> T {
        (self.op)(Op::Sub, x, y)
    }

    pub open spec fn mul(self, x: T, y: T) -> T {
        (self.op)(Op::Mul, x, y)
    }

    pub open spec fn div(self, x: T, y: T) -> T {
        (self.op)(Op::Div, x, y)
    }
}

/// A bundle of coefficient arithmetic: the constants zero and one, a zero
/// test, the four binary operations, negation, and the conversion of a count
/// into a coefficient.
#[verifier::reject_recursive_types(T)]
pub struct Arith<T, Z, B, N, C> {
    pub zero: T,
    pub one: T,
    pub is_zero: Z,
    pub binop: B,
    pub neg: N,
    pub count: C,
}

impl<T, Z: Fn(T) -> bool, B: Fn(Op, T, T) -> T, N: Fn(T) -> T, C: Fn(usize) -> T> Arith<
    T,
    Z,
    B,
    N,
    C,
> {
    /// Each closure accepts every argument and is a function of its arguments,
    /// and `zero` passes the zero test.
    pub open spec fn wf(&self) -> bool {
        &&& forall|x: T| call_requires(self.is_zero, (x,))
        &&& forall|x: T, b1: bool, b2: bool|
            #![trigger call_ensures(self.is_zero, (x,), b1), call_ensures(self.is_zero, (x,), b2)]
            call_ensures(self.is_zero, (x,), b1) && call_ensures(self.is_zero, (x,), b2) ==> b1
                == b2
        &&& forall|o: Op, x: T, y: T| call_requires(self.binop, (o, x, y))
        &&& forall|o: Op, x: T, y: T, r1: T, r2: T|
            #![trigger call_ensures(self.binop, (o, x, y), r1), call_ensures(self.binop, (o, x, y), r2)]
            call_ensures(self.binop, (o, x, y), r1) && call_ensures(self.binop, (o, x, y), r2)
                ==> r1 == r2
        &&& forall|x: T| call_requires(self.neg, (x,))
        &&& forall|x: T, r1: T, r2: T|
            #![trigger call_ensures(self.neg, (x,), r1), call_ensures(self.neg, (x,), r2)]
            call_ensures(self.neg, (x,), r1) && call_ensures(self.neg, (x,), r2) ==> r1 == r2
        &&& forall|n: usize| call_requires(self.count, (n,))
        &&& forall|n: usize, r1: T, r2: T|
            #![trigger call_ensures(self.count, (n,), r1), call_ensures(self.count, (n,), r2)]
            call_ensures(self.count, (n,), r1) && call_ensures(self.count, (n,), r2) ==> r1 == r2
        &&& (self.spec().is_zero)(self.zero)
    }

    /// The spec-level picture of this bundle.
    pub open spec fn spec(&self) -> ArithSpec<T> {
        ArithSpec {
            zero: self.zero,
            one: self.one,
            is_zero: |x: T| choose|b: bool| call_ensures(self.is_zero, (x,), b),
            op: |o: Op, x: T, y: T| choose|r: T| call_ensures(self.binop, (o, x, y), r),
            neg: |x: T| choose|r: T| call_ensures(self.neg, (x,), r),
            count: |n: usize| choose|r: T| call_ensures(self.count, (n,), r),
        }
    }

    /// Runs the zero test.
    pub fn test_zero(&self, x: T) -> (b: bool)
        requires
            self.wf(),
        ensures
            b == (self.spec().is_zero)(x),
    {
        let b = (self.is_zero)(x);
        proof {
            let c = choose|c: bool| call_ensures(self.is_zero, (x,), c);
            assert(call_ensures(self.is_zero, (x,), c));
        }
        b
    }

    /// Applies a binary operation.
    pub fn apply(&self, o: Op, x: T, y: T) -> (r: T)
        requires
            self.wf(),
        ensures
            r == (self.spec().op)(o, x, y),
    {
        let r = (self.binop)(o, x, y);
        proof {
            let c = choose|c: T| call_ensures(self.binop, (o, x, y), c);
            assert(call_ensures(self.binop, (o, x, y), c));
        }
        r
    }

    /// Negates a coefficient.
    pub fn negate(&self, x: T) -> (r: T)
        requires
            self.wf(),
        ensures
            r == (self.spec().neg)(x),
    {
        let r = (self.neg)(x);
        proof {
            let c = choose|c: T| call_ensures(self.neg, (x,), c);
            assert(call_ensures(self.neg, (x,), c));
        }
        r
    }

    /// Converts a count into a coefficient.
    pub fn of_count(&self, n: usize) -> (r: T)
        requires
            self.wf(),
        ensures
            r == (self.spec().count)(n),
    {
        let r = (self.count)(n);
        proof {
            let c = choose|c: T| call_ensures(self.count, (n,), c);
            assert(call_ensures(self.count, (n,), c));
        }
        r
    }
}

} // verus!
