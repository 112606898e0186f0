//! Polynomials in one variable, coefficients in descending power order:
//! `[a_n, ..., a_1, a_0]` stands for `a_n s^n + ... + a_1 s + a_0`.
use vstd::prelude::*;

use crate::arith::{call2, functional2, spec2, Arith, ArithSpec, Op};
use crate::error::CoreError;

verus! {

/// Every coefficient passes the zero test.
pub open spec fn all_zero<T>(s: Seq<T>, a: ArithSpec<T>) -> bool {
    forall|i: int| 0 <= i < s.len() ==> (a.is_zero)(#[trigger] s[i])
}

/// How many coefficients at the front pass the zero test.
pub open spec fn leading_zeros<T>(s: Seq<T>, a: ArithSpec<T>) -> nat
    decreases s.len(),
{
    if s.len() == 0 {
        0
    } else if (a.is_zero)(s[0]) {
        1 + leading_zeros(s.drop_first(), a)
    } else {
        0
    }
}

/// The coefficients with their leading zeros removed; all zeros (or none)
/// become the single coefficient `zero`.
pub open spec fn trimmed<T>(s: Seq<T>, a: ArithSpec<T>) -> Seq<T> {
    let k = leading_zeros(s, a);
    if k == s.len() {
        seq![a.zero]
    } else {
        s.skip(k as int)
    }
}

/// The shape every polynomial the library builds has: at least one
/// coefficient, and a leading coefficient that is not zero unless it is the
/// only one.
pub open spec fn normalized<T>(s: Seq<T>, a: ArithSpec<T>) -> bool {
    s.len() >= 1 && (s.len() == 1 || !(a.is_zero)(s[0]))
}

/// The degree reported for a coefficient sequence of length `len`.
pub open spec fn degree_of(len: nat) -> nat {
    if len == 0 {
        0
    } else {
        (len - 1) as nat
    }
}

/// The leading zeros are zero, the coefficient after them is not, and they
/// run to the end exactly when every coefficient is zero.
pub proof fn lemma_leading_zeros<T>(s: Seq<T>, a: ArithSpec<T>)
    ensures
        leading_zeros(s, a) <= s.len(),
        forall|j: int| 0 <= j < leading_zeros(s, a) ==> (a.is_zero)(#[trigger] s[j]),
        leading_zeros(s, a) < s.len() ==> !(a.is_zero)(s[leading_zeros(s, a) as int]),
        all_zero(s, a) <==> leading_zeros(s, a) == s.len(),
    decreases s.len(),
{
    if s.len() > 0 {
        lemma_leading_zeros(s.drop_first(), a);
        if (a.is_zero)(s[0]) {
            assert forall|j: int| 0 <= j < leading_zeros(s, a) implies (a.is_zero)(
                #[trigger] s[j],
            ) by {
                if j > 0 {
                    assert(s[j] == s.drop_first()[j - 1]);
                }
            }
            if all_zero(s, a) {
                assert forall|j: int| 0 <= j < s.drop_first().len() implies (a.is_zero)(
                    #[trigger] s.drop_first()[j],
                ) by {
                    assert(s.drop_first()[j] == s[j + 1]);
                }
            }
            if leading_zeros(s, a) == s.len() {
                assert forall|j: int| 0 <= j < s.len() implies (a.is_zero)(#[trigger] s[j]) by {
                    if j > 0 {
                        assert(s[j] == s.drop_first()[j - 1]);
                    }
                }
            }
        } else {
            assert(!(a.is_zero)(s[0]));
        }
    }
}

/// The trimmed coefficients are normalized, never longer than the input
/// (or one, for an empty input), and a zero polynomial exactly when the
/// input was all zeros.
pub proof fn lemma_trimmed<T>(s: Seq<T>, a: ArithSpec<T>)
    requires
        (a.is_zero)(a.zero),
    ensures
        normalized(trimmed(s, a), a),
        trimmed(s, a).len() <= s.len() || s.len() == 0,
        trimmed(s, a).len() >= 1,
        all_zero(trimmed(s, a), a) <==> all_zero(s, a),
{
    lemma_leading_zeros(s, a);
    let k = leading_zeros(s, a);
    if k < s.len() {
        assert(trimmed(s, a)[0] == s[k as int]);
    }
}

/// Horner evaluation of the coefficients `s`: starting from `start`, each
/// step multiplies the running value by `x` and adds the next coefficient.
pub open spec fn horner<T, U>(
    s: Seq<T>,
    x: U,
    start: U,
    times: spec_fn(U, U) -> U,
    plus: spec_fn(U, T) -> U,
) -> U
    decreases s.len(),
{
    if s.len() == 0 {
        start
    } else {
        plus(times(horner(s.drop_last(), x, start, times, plus), x), s.last())
    }
}

/// The coefficients of the derivative before trimming: coefficient `i` of a
/// polynomial of degree `n` times the count `n - i`, the constant term dropped.
pub open spec fn derivative_terms<T>(s: Seq<T>, a: ArithSpec<T>) -> Seq<T> {
    Seq::new(
        (s.len() - 1) as nat,
        |i: int| a.mul(s[i], (a.count)((s.len() - 1 - i) as usize)),
    )
}

/// The derivative: zero for a polynomial of degree 0.
pub open spec fn derivative_of<T>(s: Seq<T>, a: ArithSpec<T>) -> Seq<T> {
    if degree_of(s.len()) == 0 {
        seq![a.zero]
    } else {
        trimmed(derivative_terms(s, a), a)
    }
}

/// `r` with `s` combined into its last `s.len()` entries by `op`, the last
/// of `s` into the last of `r`.
pub open spec fn combine_aligned<T>(r: Seq<T>, s: Seq<T>, o: Op, a: ArithSpec<T>) -> Seq<T> {
    Seq::new(
        r.len(),
        |k: int|
            if k >= r.len() - s.len() {
                (a.op)(o, r[k], s[k - (r.len() - s.len())])
            } else {
                r[k]
            },
    )
}

/// The coefficient-wise sum (`o == Op::Add`) or difference (`o == Op::Sub`)
/// before trimming: a running value starts at `zero`, takes `x`'s coefficient
/// by addition and then `y`'s by `o`, powers aligned at the constant term.
pub open spec fn sum_terms<T>(x: Seq<T>, y: Seq<T>, o: Op, a: ArithSpec<T>) -> Seq<T> {
    let n = if x.len() >= y.len() { x.len() } else { y.len() };
    combine_aligned(combine_aligned(Seq::new(n, |k: int| a.zero), x, Op::Add, a), y, o, a)
}

/// The sum of two polynomials.
pub open spec fn add_of<T>(x: Seq<T>, y: Seq<T>, a: ArithSpec<T>) -> Seq<T> {
    trimmed(sum_terms(x, y, Op::Add, a), a)
}

/// The difference of two polynomials.
pub open spec fn sub_of<T>(x: Seq<T>, y: Seq<T>, a: ArithSpec<T>) -> Seq<T> {
    trimmed(sum_terms(x, y, Op::Sub, a), a)
}

/// Coefficient `k` of the product after the rows `0..i` of `x`: starting at
/// `zero`, the products `x[i'] * y[k - i']` are added for `i' < i` in
/// increasing order, where `k - i'` indexes `y`.
pub open spec fn conv<T>(x: Seq<T>, y: Seq<T>, k: int, i: nat, a: ArithSpec<T>) -> T
    decreases i,
{
    if i == 0 {
        a.zero
    } else {
        let prev = conv(x, y, k, (i - 1) as nat, a);
        let j = k - (i - 1);
        if 0 <= j < y.len() {
            a.add(prev, a.mul(x[i - 1], y[j]))
        } else {
            prev
        }
    }
}

/// The coefficients of the product before trimming.
pub open spec fn product_terms<T>(x: Seq<T>, y: Seq<T>, a: ArithSpec<T>) -> Seq<T> {
    Seq::new((x.len() + y.len() - 1) as nat, |k: int| conv(x, y, k, x.len(), a))
}

/// The product of two polynomials: zero if either is zero.
pub open spec fn mul_of<T>(x: Seq<T>, y: Seq<T>, a: ArithSpec<T>) -> Seq<T> {
    if all_zero(x, a) || all_zero(y, a) {
        seq![a.zero]
    } else {
        trimmed(product_terms(x, y, a), a)
    }
}

/// Every coefficient `c` replaced by `c * k`.
pub open spec fn times_scalar<T>(s: Seq<T>, k: T, a: ArithSpec<T>) -> Seq<T> {
    s.map_values(|c: T| a.mul(c, k))
}

/// Every coefficient times the scalar `k`, then trimmed.
pub open spec fn scale_of<T>(s: Seq<T>, k: T, a: ArithSpec<T>) -> Seq<T> {
    trimmed(times_scalar(s, k, a), a)
}

/// Every coefficient negated.
pub open spec fn neg_of<T>(s: Seq<T>, a: ArithSpec<T>) -> Seq<T> {
    s.map_values(|c: T| (a.neg)(c))
}

/// One step of long division: `rem` less `factor` times `den`, aligned at
/// the leading coefficient, with the leading coefficient then dropped.
pub open spec fn reduce_step<T>(rem: Seq<T>, den: Seq<T>, factor: T, a: ArithSpec<T>) -> Seq<T> {
    Seq::new(
        rem.len(),
        |i: int|
            if i < den.len() {
                a.sub(rem[i], a.mul(factor, den[i]))
            } else {
                rem[i]
            },
    ).drop_first()
}

/// Long division from the state `(quot, rem)`: while the remainder is at
/// least as long as `den` and not all zero, its leading coefficient divided
/// by `den`'s goes into the quotient at the power it stands for, and that
/// multiple of `den` is taken off. Gives the final `(quotient, remainder)`.
pub open spec fn long_div<T>(rem: Seq<T>, quot: Seq<T>, den: Seq<T>, a: ArithSpec<T>) -> (
    Seq<T>,
    Seq<T>,
)
    decreases rem.len(),
{
    if rem.len() >= den.len() && !all_zero(rem, a) {
        let factor = a.div(rem[0], den[0]);
        let idx = quot.len() - 1 - (rem.len() - den.len());
        long_div(reduce_step(rem, den, factor, a), quot.update(idx, factor), den, a)
    } else {
        (quot, rem)
    }
}

/// What dividing `num` by a non-zero `den` gives: `(quotient, remainder)`.
pub open spec fn div_of<T>(num: Seq<T>, den: Seq<T>, a: ArithSpec<T>) -> (Seq<T>, Seq<T>) {
    if all_zero(num, a) {
        (seq![a.zero], seq![a.zero])
    } else if degree_of(num.len()) < degree_of(den.len()) {
        (seq![a.zero], num)
    } else {
        let q0 = Seq::new(
            (degree_of(num.len()) - degree_of(den.len()) + 1) as nat,
            |i: int| a.zero,
        );
        let (q, r) = long_div(num, q0, den, a);
        (trimmed(q, a), trimmed(r, a))
    }
}

/// A polynomial whose coefficients are in descending power order.
#[derive(Clone, Debug, PartialEq)]
pub struct Polynomial<T> {
    coeffs: Vec<T>,
}

impl<T> View for Polynomial<T> {
    type V = Seq<T>;

    closed spec fn view(&self) -> Seq<T> {
        self.coeffs@
    }
}

/// A vector of `n` copies of `x`.
fn filled<T: Copy>(x: T, n: usize) -> (v: Vec<T>)
    ensures
        v@ == Seq::new(n as nat, |i: int| x),
{
    let mut v: Vec<T> = Vec::with_capacity(n);
    let mut i: usize = 0;
    while i < n
        invariant
            i <= n,
            v@ == Seq::new(i as nat, |k: int| x),
        decreases n - i,
    {
        v.push(x);
        i += 1;
    }
    v
}

/// A copy of the elements of a slice.
fn copied<T: Copy>(s: &[T]) -> (v: Vec<T>)
    ensures
        v@ == s@,
{
    let mut v: Vec<T> = Vec::with_capacity(s.len());
    let mut i: usize = 0;
    while i < s.len()
        invariant
            i <= s.len(),
            v@ == s@.take(i as int),
        decreases s.len() - i,
    {
        v.push(s[i]);
        i += 1;
        assert(v@ =~= s@.take(i as int));
    }
    assert(v@ =~= s@);
    v
}

/// Whether every element passes the zero test.
fn slice_all_zero<T: Copy, Z: Fn(T) -> bool, B: Fn(Op, T, T) -> T, N: Fn(T) -> T, C: Fn(usize) -> T>(
    s: &[T],
    ar: &Arith<T, Z, B, N, C>,
) -> (b: bool)
    requires
        ar.wf(),
    ensures
        b == all_zero(s@, ar.spec()),
{
    let mut i: usize = 0;
    while i < s.len()
        invariant
            ar.wf(),
            i <= s.len(),
            forall|j: int| 0 <= j < i ==> (ar.spec().is_zero)(#[trigger] s@[j]),
        decreases s.len() - i,
    {
        if !ar.test_zero(s[i]) {
            return false;
        }
        i += 1;
    }
    true
}

impl<T: Copy> Polynomial<T> {
    /// Removes leading zeros; all zeros (or none) become the single `zero`.
    fn trim<Z: Fn(T) -> bool, B: Fn(Op, T, T) -> T, N: Fn(T) -> T, C: Fn(usize) -> T>(
        coeffs: Vec<T>,
        ar: &Arith<T, Z, B, N, C>,
    ) -> (p: Self)
        requires
            ar.wf(),
        ensures
            p@ == trimmed(coeffs@, ar.spec()),
            normalized(p@, ar.spec()),
    {
        proof {
            lemma_trimmed(coeffs@, ar.spec());
        }
        let mut i: usize = 0;
        while i < coeffs.len() && ar.test_zero(coeffs[i])
            invariant
                ar.wf(),
                i <= coeffs.len(),
                forall|j: int| 0 <= j < i ==> (ar.spec().is_zero)(#[trigger] coeffs@[j]),
            decreases coeffs.len() - i,
        {
            i += 1;
        }
        proof {
            lemma_leading_zeros(coeffs@, ar.spec());
            let k = leading_zeros(coeffs@, ar.spec());
            if k < i {
                assert((ar.spec().is_zero)(coeffs@[k as int]));
            }
            if i < k {
                assert((ar.spec().is_zero)(coeffs@[i as int]));
            }
        }
        if i == coeffs.len() {
            let mut v: Vec<T> = Vec::new();
            v.push(ar.zero);
            Polynomial { coeffs: v }
        } else {
            let mut c = coeffs;
            let tail = c.split_off(i);
            Polynomial { coeffs: tail }
        }
    }

    /// Builds a polynomial from coefficients in descending power order,
    /// trimming leading zeros. An empty vector is refused.
    pub fn new<Z: Fn(T) -> bool, B: Fn(Op, T, T) -> T, N: Fn(T) -> T, C: Fn(usize) -> T>(
        coeffs: Vec<T>,
        ar: &Arith<T, Z, B, N, C>,
    ) -> (r: Result<Self, CoreError>)
        requires
            ar.wf(),
        ensures
            coeffs@.len() == 0 <==> r is Err,
            r is Err ==> r == Err::<Self, CoreError>(CoreError::EmptyCoefficients),
            r matches Ok(p) ==> p@ == trimmed(coeffs@, ar.spec()),
            r matches Ok(p) ==> normalized(p@, ar.spec()),
    {
        if coeffs.len() == 0 {
            return Err(CoreError::EmptyCoefficients);
        }
        Ok(Self::trim(coeffs, ar))
    }

    /// [`Polynomial::new`] on a copy of a slice.
    pub fn from_slice<Z: Fn(T) -> bool, B: Fn(Op, T, T) -> T, N: Fn(T) -> T, C: Fn(usize) -> T>(
        coeffs: &[T],
        ar: &Arith<T, Z, B, N, C>,
    ) -> (r: Result<Self, CoreError>)
        requires
            ar.wf(),
        ensures
            coeffs@.len() == 0 <==> r is Err,
            r is Err ==> r == Err::<Self, CoreError>(CoreError::EmptyCoefficients),
            r matches Ok(p) ==> p@ == trimmed(coeffs@, ar.spec()),
            r matches Ok(p) ==> normalized(p@, ar.spec()),
    {
        Self::new(copied(coeffs), ar)
    }

    /// The zero polynomial, `[zero]`.
    pub fn zero<Z: Fn(T) -> bool, B: Fn(Op, T, T) -> T, N: Fn(T) -> T, C: Fn(usize) -> T>(
        ar: &Arith<T, Z, B, N, C>,
    ) -> (p: Self)
        ensures
            p@ == seq![ar.zero],
            normalized(p@, ar.spec()),
    {
        let mut v: Vec<T> = Vec::new();
        v.push(ar.zero);
        Polynomial { coeffs: v }
    }

    /// The constant polynomial `[one]`.
    pub fn one<Z: Fn(T) -> bool, B: Fn(Op, T, T) -> T, N: Fn(T) -> T, C: Fn(usize) -> T>(
        ar: &Arith<T, Z, B, N, C>,
    ) -> (p: Self)
        ensures
            p@ == seq![ar.one],
            normalized(p@, ar.spec()),
    {
        let mut v: Vec<T> = Vec::new();
        v.push(ar.one);
        Polynomial { coeffs: v }
    }

    /// The degree: one less than the number of coefficients. The zero
    /// polynomial reports degree 0.
    pub fn degree(&self) -> (d: usize)
        ensures
            d == degree_of(self@.len()),
    {
        let n = self.coeffs.len();
        if n == 0 {
            0
        } else {
            n - 1
        }
    }

    /// The coefficients, in descending power order.
    pub fn coeffs(&self) -> (c: &[T])
        ensures
            c@ == self@,
    {
        self.coeffs.as_slice()
    }

    /// Whether every coefficient passes the zero test.
    pub fn is_zero<Z: Fn(T) -> bool, B: Fn(Op, T, T) -> T, N: Fn(T) -> T, C: Fn(usize) -> T>(
        &self,
        ar: &Arith<T, Z, B, N, C>,
    ) -> (b: bool)
        requires
            ar.wf(),
        ensures
            b == all_zero(self@, ar.spec()),
    {
        slice_all_zero(self.coeffs.as_slice(), ar)
    }
    /// Evaluates at `x` by Horner's method, starting from `start` (the zero
    /// of the evaluation type): `acc = add(mul(acc, x), c)` for each
    /// coefficient `c` in turn.
    pub fn eval<U: Copy, M: Fn(U, U) -> U, A: Fn(U, T) -> U>(
        &self,
        x: U,
        start: U,
        mul: &M,
        add: &A,
    ) -> (r: U)
        requires
            functional2(*mul),
            functional2(*add),
        ensures
            r == horner(self@, x, start, spec2(*mul), spec2(*add)),
    {
        let mut acc = start;
        let mut i: usize = 0;
        while i < self.coeffs.len()
            invariant
                functional2(*mul),
                functional2(*add),
                i <= self@.len(),
                acc == horner(self@.take(i as int), x, start, spec2(*mul), spec2(*add)),
            decreases self@.len() - i,
        {
            let m = call2(mul, acc, x);
            acc = call2(add, m, self.coeffs[i]);
            proof {
                let t = self@.take(i + 1);
                assert(t.drop_last() =~= self@.take(i as int));
            }
            i += 1;
        }
        assert(self@.take(i as int) =~= self@);
        acc
    }

    /// The derivative `dP/ds`.
    pub fn derivative<Z: Fn(T) -> bool, B: Fn(Op, T, T) -> T, N: Fn(T) -> T, C: Fn(usize) -> T>(
        &self,
        ar: &Arith<T, Z, B, N, C>,
    ) -> (p: Self)
        requires
            ar.wf(),
        ensures
            p@ == derivative_of(self@, ar.spec()),
            normalized(p@, ar.spec()),
    {
        let n = self.degree();
        if n == 0 {
            return Self::zero(ar);
        }
        let len = self.coeffs.len();
        let mut out: Vec<T> = Vec::with_capacity(len - 1);
        let mut i: usize = 0;
        while i < len - 1
            invariant
                ar.wf(),
                len == self@.len(),
                n == len - 1,
                i <= len - 1,
                out@ == derivative_terms(self@, ar.spec()).take(i as int),
            decreases len - 1 - i,
        {
            let k = ar.of_count(n - i);
            let c = ar.apply(Op::Mul, self.coeffs[i], k);
            out.push(c);
            i += 1;
            assert(out@ =~= derivative_terms(self@, ar.spec()).take(i as int));
        }
        assert(out@ =~= derivative_terms(self@, ar.spec()));
        Self::trim(out, ar)
    }

    /// Combines `src` into the last `src.len()` entries of `acc` by `o`, the
    /// last of `src` into the last of `acc`.
    fn combine_into<Z: Fn(T) -> bool, B: Fn(Op, T, T) -> T, N: Fn(T) -> T, C: Fn(usize) -> T>(
        acc: &mut Vec<T>,
        src: &[T],
        o: Op,
        ar: &Arith<T, Z, B, N, C>,
    )
        requires
            ar.wf(),
            src@.len() <= old(acc)@.len(),
        ensures
            final(acc)@ == combine_aligned(old(acc)@, src@, o, ar.spec()),
    {
        let n = acc.len();
        let m = src.len();
        let ghost r0 = acc@;
        let mut i: usize = 0;
        while i < m
            invariant
                ar.wf(),
                n == acc@.len(),
                n == r0.len(),
                m == src@.len(),
                m <= n,
                i <= m,
                forall|k: int|
                    0 <= k < n ==> #[trigger] acc@[k] == if k >= n - i {
                        (ar.spec().op)(o, r0[k], src@[k - (n - m)])
                    } else {
                        r0[k]
                    },
            decreases m - i,
        {
            let idx = n - 1 - i;
            let v = ar.apply(o, acc[idx], src[m - 1 - i]);
            acc.set(idx, v);
            i += 1;
        }
        assert(acc@ =~= combine_aligned(r0, src@, o, ar.spec()));
    }

    /// Coefficient-wise sum or difference, before trimming.
    fn sum_with<Z: Fn(T) -> bool, B: Fn(Op, T, T) -> T, N: Fn(T) -> T, C: Fn(usize) -> T>(
        &self,
        other: &Self,
        o: Op,
        ar: &Arith<T, Z, B, N, C>,
    ) -> (v: Vec<T>)
        requires
            ar.wf(),
        ensures
            v@ == sum_terms(self@, other@, o, ar.spec()),
    {
        let n = if self.coeffs.len() >= other.coeffs.len() {
            self.coeffs.len()
        } else {
            other.coeffs.len()
        };
        let mut result = filled(ar.zero, n);
        Self::combine_into(&mut result, self.coeffs.as_slice(), Op::Add, ar);
        Self::combine_into(&mut result, other.coeffs.as_slice(), o, ar);
        result
    }

    /// The sum of two polynomials.
    pub fn add<Z: Fn(T) -> bool, B: Fn(Op, T, T) -> T, N: Fn(T) -> T, C: Fn(usize) -> T>(
        &self,
        other: &Self,
        ar: &Arith<T, Z, B, N, C>,
    ) -> (p: Self)
        requires
            ar.wf(),
        ensures
            p@ == add_of(self@, other@, ar.spec()),
            normalized(p@, ar.spec()),
    {
        Self::trim(self.sum_with(other, Op::Add, ar), ar)
    }

    /// The difference of two polynomials.
    pub fn sub<Z: Fn(T) -> bool, B: Fn(Op, T, T) -> T, N: Fn(T) -> T, C: Fn(usize) -> T>(
        &self,
        other: &Self,
        ar: &Arith<T, Z, B, N, C>,
    ) -> (p: Self)
        requires
            ar.wf(),
        ensures
            p@ == sub_of(self@, other@, ar.spec()),
            normalized(p@, ar.spec()),
    {
        Self::trim(self.sum_with(other, Op::Sub, ar), ar)
    }

    /// The product of two polynomials.
    pub fn mul<Z: Fn(T) -> bool, B: Fn(Op, T, T) -> T, N: Fn(T) -> T, C: Fn(usize) -> T>(
        &self,
        other: &Self,
        ar: &Arith<T, Z, B, N, C>,
    ) -> (p: Self)
        requires
            ar.wf(),
            self@.len() + other@.len() <= usize::MAX + 1,
        ensures
            p@ == mul_of(self@, other@, ar.spec()),
            normalized(p@, ar.spec()),
    {
        if self.is_zero(ar) || other.is_zero(ar) {
            return Self::zero(ar);
        }
        let la = self.coeffs.len();
        let lb = other.coeffs.len();
        let n = (la - 1) + lb;
        let ghost x = self@;
        let ghost y = other@;
        let ghost a = ar.spec();
        let mut result = filled(ar.zero, n);
        let mut i: usize = 0;
        while i < la
            invariant
                ar.wf(),
                a == ar.spec(),
                x == self@,
                y == other@,
                la == x.len(),
                lb == y.len(),
                la >= 1,
                lb >= 1,
                n == la + lb - 1,
                i <= la,
                result@.len() == n,
                forall|k: int| 0 <= k < n ==> #[trigger] result@[k] == conv(x, y, k, i as nat, a),
            decreases la - i,
        {
            let mut j: usize = 0;
            while j < lb
                invariant
                    ar.wf(),
                    a == ar.spec(),
                    x == self@,
                    y == other@,
                    la == x.len(),
                    lb == y.len(),
                    n == la + lb - 1,
                    i < la,
                    j <= lb,
                    result@.len() == n,
                    forall|k: int|
                        0 <= k < n ==> #[trigger] result@[k] == if i <= k < i + j {
                            conv(x, y, k, (i + 1) as nat, a)
                        } else {
                            conv(x, y, k, i as nat, a)
                        },
                decreases lb - j,
            {
                let p = ar.apply(Op::Mul, self.coeffs[i], other.coeffs[j]);
                let v = ar.apply(Op::Add, result[i + j], p);
                result.set(i + j, v);
                j += 1;
            }
            proof {
                assert forall|k: int| 0 <= k < n implies #[trigger] result@[k] == conv(
                    x,
                    y,
                    k,
                    (i + 1) as nat,
                    a,
                ) by {
                    if !(i <= k < i + lb) {
                        assert(conv(x, y, k, (i + 1) as nat, a) == conv(x, y, k, i as nat, a));
                    }
                }
            }
            i += 1;
        }
        proof {
            assert(result@ =~= product_terms(x, y, a));
        }
        Self::trim(result, ar)
    }

    /// Every coefficient times the scalar `k`, then trimmed.
    pub fn scale<Z: Fn(T) -> bool, B: Fn(Op, T, T) -> T, N: Fn(T) -> T, C: Fn(usize) -> T>(
        &self,
        k: T,
        ar: &Arith<T, Z, B, N, C>,
    ) -> (p: Self)
        requires
            ar.wf(),
        ensures
            p@ == scale_of(self@, k, ar.spec()),
            normalized(p@, ar.spec()),
    {
        let mut out: Vec<T> = Vec::with_capacity(self.coeffs.len());
        let mut i: usize = 0;
        while i < self.coeffs.len()
            invariant
                ar.wf(),
                i <= self@.len(),
                out@ == times_scalar(self@, k, ar.spec()).take(i as int),
            decreases self@.len() - i,
        {
            let v = ar.apply(Op::Mul, self.coeffs[i], k);
            out.push(v);
            i += 1;
            assert(out@ =~= times_scalar(self@, k, ar.spec()).take(i as int));
        }
        assert(out@ =~= times_scalar(self@, k, ar.spec()));
        Self::trim(out, ar)
    }

    /// Every coefficient negated (no trimming).
    pub fn neg<Z: Fn(T) -> bool, B: Fn(Op, T, T) -> T, N: Fn(T) -> T, C: Fn(usize) -> T>(self, ar: &Arith<T, Z, B, N, C>) -> (p: Self)
        requires
            ar.wf(),
        ensures
            p@ == neg_of(self@, ar.spec()),
    {
        let mut out: Vec<T> = Vec::with_capacity(self.coeffs.len());
        let mut i: usize = 0;
        while i < self.coeffs.len()
            invariant
                ar.wf(),
                i <= self@.len(),
                out@ == neg_of(self@, ar.spec()).take(i as int),
            decreases self@.len() - i,
        {
            let v = ar.negate(self.coeffs[i]);
            out.push(v);
            i += 1;
            assert(out@ =~= neg_of(self@, ar.spec()).take(i as int));
        }
        assert(out@ =~= neg_of(self@, ar.spec()));
        Polynomial { coeffs: out }
    }
}

/// Polynomial long division of `num` by `den`: `(quotient, remainder)`.
/// Division by the zero polynomial is refused.
pub fn poly_div<T: Copy, Z: Fn(T) -> bool, B: Fn(Op, T, T) -> T, N: Fn(T) -> T, C: Fn(usize) -> T>(
    num: &Polynomial<T>,
    den: &Polynomial<T>,
    ar: &Arith<T, Z, B, N, C>,
) -> (r: Result<(Polynomial<T>, Polynomial<T>), CoreError>)
    requires
        ar.wf(),
    ensures
        all_zero(den@, ar.spec()) <==> r is Err,
        r is Err ==> r == Err::<(Polynomial<T>, Polynomial<T>), CoreError>(
            CoreError::DivisionByZero,
        ),
        r matches Ok((q, rm)) ==> (q@, rm@) == div_of(num@, den@, ar.spec()),
        r matches Ok((q, rm)) ==> normalized(q@, ar.spec()),
        r matches Ok((q, rm)) ==> (normalized(num@, ar.spec()) ==> normalized(rm@, ar.spec())),
{
    if den.is_zero(ar) {
        return Err(CoreError::DivisionByZero);
    }
    if num.is_zero(ar) {
        return Ok((Polynomial::zero(ar), Polynomial::zero(ar)));
    }
    if num.degree() < den.degree() {
        return Ok((Polynomial::zero(ar), Polynomial { coeffs: copied(num.coeffs.as_slice()) }));
    }
    let ghost a = ar.spec();
    let ghost d = den@;
    let mut remainder = copied(num.coeffs.as_slice());
    let den_lead = den.coeffs[0];
    let den_deg = den.degree();
    let dlen = den.coeffs.len();
    let mut quotient = filled(ar.zero, num.coeffs.len() - den_deg);
    let ghost target = long_div(remainder@, quotient@, d, a);
    while remainder.len() >= dlen && !slice_all_zero(remainder.as_slice(), ar)
        invariant
            ar.wf(),
            a == ar.spec(),
            d == den@,
            dlen == d.len(),
            dlen >= 1,
            den_lead == d[0],
            den_deg == dlen - 1,
            remainder@.len() <= num@.len(),
            quotient@.len() == num@.len() - dlen + 1,
            long_div(remainder@, quotient@, d, a) == target,
        decreases remainder@.len(),
    {
        let rem_deg = remainder.len() - 1;
        let shift = rem_deg - den_deg;
        let factor = ar.apply(Op::Div, remainder[0], den_lead);
        let q_idx = quotient.len() - 1 - shift;
        let ghost rem0 = remainder@;
        let ghost quot0 = quotient@;
        quotient.set(q_idx, factor);
        let mut i: usize = 0;
        while i < dlen
            invariant
                ar.wf(),
                a == ar.spec(),
                d == den@,
                dlen == d.len(),
                dlen <= rem0.len(),
                i <= dlen,
                remainder@.len() == rem0.len(),
                forall|k: int|
                    0 <= k < rem0.len() ==> #[trigger] remainder@[k] == if k < i {
                        a.sub(rem0[k], a.mul(factor, d[k]))
                    } else {
                        rem0[k]
                    },
            decreases dlen - i,
        {
            let m = ar.apply(Op::Mul, factor, den.coeffs[i]);
            let v = ar.apply(Op::Sub, remainder[i], m);
            remainder.set(i, v);
            i += 1;
        }
        remainder.remove(0);
        proof {
            assert(remainder@ =~= reduce_step(rem0, d, factor, a));
            assert(quotient@ =~= quot0.update(q_idx as int, factor));
        }
    }
    let quotient = Polynomial::trim(quotient, ar);
    let remainder = if remainder.len() == 0 {
        Polynomial::zero(ar)
    } else {
        Polynomial::trim(remainder, ar)
    };
    Ok((quotient, remainder))
}

} // verus!
