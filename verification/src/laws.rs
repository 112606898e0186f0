//! Properties that relate the operations of the library to one another.
use vstd::prelude::*;

use crate::algebra::{
    add_neg, add_swap_middle, add_zero, distrib, div_mul, div_unique, is_field,
    lemma_value_all_zero, lemma_value_combine, lemma_value_neg, lemma_value_pad,
    lemma_value_product, lemma_value_scalar_left, lemma_value_skip_zeros, lemma_value_times_scalar,
    lemma_value_trimmed, lemma_value_update, mul_assoc, mul_comm, mul_nonzero, mul_one,
    mul_swap_middle, mul_zero, neg_mul, pow, sub_is_add_neg, sub_zero, value, zero_test,
};
use crate::arith::{ArithSpec, Op};
use crate::polynomial::{
    add_of, all_zero, combine_aligned, conv, degree_of, derivative_of, derivative_terms, div_of, horner,
    leading_zeros, lemma_leading_zeros, lemma_trimmed, long_div, mul_of, neg_of, normalized,
    product_terms, reduce_step, scale_of, sub_of, sum_terms, times_scalar, trimmed,
};
use crate::tf::{proper, strictly_proper, tf_of};

verus! {

/// Trimming what is already trimmed changes nothing: a polynomial rebuilt
/// with `Polynomial::new` from the coefficients of one the library built is
/// the same polynomial.
pub proof fn law_trim_idempotent<T>(s: Seq<T>, a: ArithSpec<T>)
    requires
        (a.is_zero)(a.zero),
    ensures
        trimmed(trimmed(s, a), a) == trimmed(s, a),
{
    lemma_leading_zeros(s, a);
    let t = trimmed(s, a);
    lemma_leading_zeros(t, a);
    let k = leading_zeros(s, a);
    if k == s.len() {
        assert(all_zero(t, a));
    } else {
        assert(t[0] == s[k as int]);
        assert(leading_zeros(t, a) == 0);
        assert(t.skip(0) =~= t);
    }
}

/// The degree of a sum or a difference is at most the larger degree.
pub proof fn law_add_sub_degree<T>(x: Seq<T>, y: Seq<T>, a: ArithSpec<T>)
    requires
        (a.is_zero)(a.zero),
    ensures
        degree_of(add_of(x, y, a).len()) <= if degree_of(x.len()) >= degree_of(y.len()) {
            degree_of(x.len())
        } else {
            degree_of(y.len())
        },
        degree_of(sub_of(x, y, a).len()) <= if degree_of(x.len()) >= degree_of(y.len()) {
            degree_of(x.len())
        } else {
            degree_of(y.len())
        },
{
    lemma_trimmed(sum_terms(x, y, Op::Add, a), a);
    lemma_trimmed(sum_terms(x, y, Op::Sub, a), a);
}

/// The degree of a product is at most the sum of the degrees.
pub proof fn law_mul_degree<T>(x: Seq<T>, y: Seq<T>, a: ArithSpec<T>)
    requires
        (a.is_zero)(a.zero),
    ensures
        degree_of(mul_of(x, y, a).len()) <= degree_of(x.len()) + degree_of(y.len()),
{
    if !(all_zero(x, a) || all_zero(y, a)) {
        assert(x.len() > 0 && y.len() > 0) by {
            if x.len() == 0 {
                assert(all_zero(x, a));
            }
            if y.len() == 0 {
                assert(all_zero(y, a));
            }
        }
        lemma_trimmed(product_terms(x, y, a), a);
    }
}

/// Multiplying by the zero polynomial, on either side, gives the zero
/// polynomial.
pub proof fn law_mul_by_zero<T>(x: Seq<T>, y: Seq<T>, a: ArithSpec<T>)
    requires
        all_zero(y, a),
    ensures
        mul_of(x, y, a) == seq![a.zero],
        mul_of(y, x, a) == seq![a.zero],
{
}

/// The derivative of a constant is the zero polynomial; otherwise the
/// derivative has lower degree.
pub proof fn law_derivative_degree<T>(s: Seq<T>, a: ArithSpec<T>)
    requires
        (a.is_zero)(a.zero),
    ensures
        degree_of(s.len()) == 0 ==> derivative_of(s, a) == seq![a.zero],
        degree_of(s.len()) > 0 ==> degree_of(derivative_of(s, a).len()) < degree_of(s.len()),
{
    if degree_of(s.len()) > 0 {
        lemma_trimmed(derivative_terms(s, a), a);
    }
}

/// The sum does not depend on the order of the operands, as long as
/// accumulating two coefficients onto `zero` does not.
pub proof fn law_add_commutes<T>(x: Seq<T>, y: Seq<T>, a: ArithSpec<T>)
    requires
        forall|u: T, v: T| #[trigger] a.add(a.add(a.zero, u), v) == a.add(a.add(a.zero, v), u),
    ensures
        add_of(x, y, a) == add_of(y, x, a),
{
    let p = sum_terms(x, y, Op::Add, a);
    let q = sum_terms(y, x, Op::Add, a);
    assert forall|k: int| 0 <= k < p.len() implies p[k] == q[k] by {
        let n = p.len();
        if k >= n - x.len() && k >= n - y.len() {
            let u = x[k - (n - x.len())];
            let v = y[k - (n - y.len())];
            assert(a.add(a.add(a.zero, u), v) == a.add(a.add(a.zero, v), u));
        }
    }
    assert(p =~= q);
}

/// One run of long division keeps the quotient's length, never lengthens
/// the remainder, and stops with a remainder that is all zeros or shorter
/// than the divisor.
pub proof fn lemma_long_div<T>(rem: Seq<T>, quot: Seq<T>, den: Seq<T>, a: ArithSpec<T>)
    requires
        den.len() >= 1,
        rem.len() + 1 <= quot.len() + den.len(),
    ensures
        long_div(rem, quot, den, a).0.len() == quot.len(),
        long_div(rem, quot, den, a).1.len() <= rem.len(),
        all_zero(long_div(rem, quot, den, a).1, a) || long_div(rem, quot, den, a).1.len()
            < den.len(),
    decreases rem.len(),
{
    if rem.len() >= den.len() && !all_zero(rem, a) {
        let factor = a.div(rem[0], den[0]);
        let idx = quot.len() - 1 - (rem.len() - den.len());
        lemma_long_div(reduce_step(rem, den, factor, a), quot.update(idx, factor), den, a);
    }
}

/// Division leaves a remainder that is zero or of lower degree than the
/// divisor, and a non-zero quotient whose degree is at most the dividend's
/// less the divisor's.
pub proof fn law_div_degrees<T>(num: Seq<T>, den: Seq<T>, a: ArithSpec<T>)
    requires
        (a.is_zero)(a.zero),
        !all_zero(den, a),
    ensures
        all_zero(div_of(num, den, a).1, a) || degree_of(div_of(num, den, a).1.len())
            < degree_of(den.len()),
        !all_zero(div_of(num, den, a).0, a) ==> degree_of(div_of(num, den, a).0.len())
            + degree_of(den.len()) <= degree_of(num.len()),
{
    if !all_zero(num, a) && degree_of(num.len()) >= degree_of(den.len()) {
        let q0 = Seq::new(
            (degree_of(num.len()) - degree_of(den.len()) + 1) as nat,
            |i: int| a.zero,
        );
        let (q, r) = long_div(num, q0, den, a);
        lemma_long_div(num, q0, den, a);
        lemma_trimmed(q, a);
        lemma_trimmed(r, a);
        assert(den.len() > 0);
        assert(num.len() > 0);
        if !all_zero(r, a) {
            assert(r.len() > 0);
        }
        if !all_zero(q, a) {
            assert(q.len() > 0);
        }
    } else if all_zero(num, a) {
        assert(all_zero(seq![a.zero], a));
    } else {
        assert(all_zero(seq![a.zero], a));
    }
}

/// A strictly proper ratio is proper.
pub proof fn law_strictly_proper_is_proper<T>(num: Seq<T>, den: Seq<T>, a: ArithSpec<T>)
    ensures
        strictly_proper(num, den, a) ==> proper(num, den, a),
{
}

/// Every transfer function the library accepts has a non-zero denominator
/// and is proper, and keeps the polynomials it was given.
pub proof fn law_accepted_is_proper<T>(num: Seq<T>, den: Seq<T>, a: ArithSpec<T>)
    ensures
        tf_of(num, den, a) is Ok ==> !all_zero(den, a) && proper(num, den, a) && tf_of(
            num,
            den,
            a,
        ) == Ok::<(Seq<T>, Seq<T>), crate::error::CoreError>((num, den)),
{
}

/// The value of `[zero]` is zero.
proof fn lemma_value_zero_poly<T>(x: T, a: ArithSpec<T>)
    requires
        is_field(a),
    ensures
        value(seq![a.zero], x, a) == a.zero,
{
    zero_test(a, a.zero);
    lemma_value_all_zero(seq![a.zero], x, a);
}

/// The value of a sum or difference before trimming.
proof fn lemma_value_sum_terms<T>(x: Seq<T>, y: Seq<T>, o: Op, p: T, a: ArithSpec<T>)
    requires
        is_field(a),
        o == Op::Add || o == Op::Sub,
    ensures
        value(sum_terms(x, y, o, a), p, a) == (a.op)(o, value(x, p, a), value(y, p, a)),
{
    let n = if x.len() >= y.len() { x.len() } else { y.len() };
    let z = Seq::new(n, |k: int| a.zero);
    zero_test(a, a.zero);
    lemma_value_all_zero(z, p, a);
    lemma_value_combine(z, x, Op::Add, p, a);
    add_zero(a, value(x, p, a));
    lemma_value_combine(combine_aligned(z, x, Op::Add, a), y, o, p, a);
}

/// With exact (field) arithmetic, the value of a sum at any point is the sum
/// of the values.
pub proof fn law_add_value<T>(x: Seq<T>, y: Seq<T>, p: T, a: ArithSpec<T>)
    requires
        is_field(a),
    ensures
        value(add_of(x, y, a), p, a) == a.add(value(x, p, a), value(y, p, a)),
{
    lemma_value_sum_terms(x, y, Op::Add, p, a);
    lemma_value_trimmed(sum_terms(x, y, Op::Add, a), p, a);
}

/// With exact (field) arithmetic, the value of a difference at any point is
/// the difference of the values.
pub proof fn law_sub_value<T>(x: Seq<T>, y: Seq<T>, p: T, a: ArithSpec<T>)
    requires
        is_field(a),
    ensures
        value(sub_of(x, y, a), p, a) == a.sub(value(x, p, a), value(y, p, a)),
{
    lemma_value_sum_terms(x, y, Op::Sub, p, a);
    lemma_value_trimmed(sum_terms(x, y, Op::Sub, a), p, a);
}

/// With exact (field) arithmetic, the value of a product at any point is the
/// product of the values.
pub proof fn law_mul_value<T>(x: Seq<T>, y: Seq<T>, p: T, a: ArithSpec<T>)
    requires
        is_field(a),
    ensures
        value(mul_of(x, y, a), p, a) == a.mul(value(x, p, a), value(y, p, a)),
{
    if all_zero(x, a) || all_zero(y, a) {
        lemma_value_zero_poly(p, a);
        if all_zero(x, a) {
            lemma_value_all_zero(x, p, a);
        } else {
            lemma_value_all_zero(y, p, a);
        }
        mul_zero(a, value(x, p, a));
        mul_zero(a, value(y, p, a));
    } else {
        assert(x.len() >= 1 && y.len() >= 1) by {
            if x.len() == 0 {
                assert(all_zero(x, a));
            }
            if y.len() == 0 {
                assert(all_zero(y, a));
            }
        }
        lemma_value_product(x, y, p, a);
        lemma_value_trimmed(product_terms(x, y, a), p, a);
    }
}

/// With exact (field) arithmetic, scaling a polynomial scales its value.
pub proof fn law_scale_value<T>(s: Seq<T>, k: T, p: T, a: ArithSpec<T>)
    requires
        is_field(a),
    ensures
        value(scale_of(s, k, a), p, a) == a.mul(value(s, p, a), k),
{
    lemma_value_times_scalar(s, k, p, a);
    lemma_value_trimmed(times_scalar(s, k, a), p, a);
}

/// With exact (field) arithmetic, negating a polynomial negates its value.
pub proof fn law_neg_value<T>(s: Seq<T>, p: T, a: ArithSpec<T>)
    requires
        is_field(a),
    ensures
        value(neg_of(s, a), p, a) == (a.neg)(value(s, p, a)),
{
    lemma_value_neg(s, p, a);
}

/// Each step of long division keeps `num == quot * den + rem` at the point
/// `p`, so the final quotient and remainder satisfy it too.
pub proof fn lemma_long_div_value<T>(
    rem: Seq<T>,
    quot: Seq<T>,
    den: Seq<T>,
    p: T,
    a: ArithSpec<T>,
    target: T,
)
    requires
        is_field(a),
        den.len() >= 1,
        !(a.is_zero)(den[0]),
        rem.len() + 1 <= quot.len() + den.len(),
        forall|j: int|
            quot.len() - 1 - (rem.len() - den.len()) <= j < quot.len() ==> #[trigger] quot[j]
                == a.zero,
        target == a.add(a.mul(value(quot, p, a), value(den, p, a)), value(rem, p, a)),
    ensures
        target == a.add(
            a.mul(value(long_div(rem, quot, den, a).0, p, a), value(den, p, a)),
            value(long_div(rem, quot, den, a).1, p, a),
        ),
    decreases rem.len(),
{
    if rem.len() >= den.len() && !all_zero(rem, a) {
        let m = rem.len();
        let dl = den.len();
        let l = quot.len();
        let f = a.div(rem[0], den[0]);
        let idx = l - 1 - (m - dl);
        let q2 = quot.update(idx, f);
        let full = Seq::new(
            m,
            |i: int|
                if i < dl {
                    a.sub(rem[i], a.mul(f, den[i]))
                } else {
                    rem[i]
                },
        );
        let r2 = reduce_step(rem, den, f, a);
        assert(r2 == full.drop_first());
        let vd = value(den, p, a);
        let vq = value(quot, p, a);
        let vr = value(rem, p, a);
        let pw = pow(p, (m - dl) as nat, a);
        // the quotient gains f * p^(m - dl)
        lemma_value_update(quot, idx, f, p, a);
        assert(l - 1 - idx == m - dl);
        let ff = a.mul(f, pw);
        // the remainder loses (f * den) * p^(m - dl)
        let fden = den.map_values(|b: T| a.mul(f, b));
        let shifted = fden + Seq::new((m - dl) as nat, |i: int| a.zero);
        assert forall|k: int| 0 <= k < m implies full[k] == combine_aligned(
            rem,
            shifted,
            Op::Sub,
            a,
        )[k] by {
            sub_zero(a, rem[k]);
        }
        assert(full =~= combine_aligned(rem, shifted, Op::Sub, a));
        lemma_value_combine(rem, shifted, Op::Sub, p, a);
        lemma_value_pad(fden, (m - dl) as nat, p, a);
        lemma_value_scalar_left(den, f, p, a);
        let g = a.mul(a.mul(f, vd), pw);
        // the leading coefficient cancels
        div_mul(a, rem[0], den[0]);
        sub_is_add_neg(a, rem[0], rem[0]);
        add_neg(a, rem[0]);
        zero_test(a, full[0]);
        lemma_value_skip_zeros(full, 1, p, a);
        assert(full.skip(1) =~= full.drop_first());
        // vq2 * vd + vr2 == vq * vd + vr
        mul_assoc(a, f, pw, vd);
        mul_comm(a, pw, vd);
        mul_assoc(a, f, vd, pw);
        assert(a.mul(ff, vd) == g);
        distrib(a, vd, vq, ff);
        mul_comm(a, vd, vq);
        mul_comm(a, vd, ff);
        mul_comm(a, vd, a.add(vq, ff));
        sub_is_add_neg(a, vr, g);
        add_swap_middle(a, a.mul(vq, vd), g, vr, (a.neg)(g));
        add_neg(a, g);
        add_zero(a, a.add(a.mul(vq, vd), vr));
        assert forall|j: int|
            q2.len() - 1 - (r2.len() - den.len()) <= j < q2.len() implies #[trigger] q2[j]
            == a.zero by {
            assert(j > idx);
        }
        lemma_long_div_value(r2, q2, den, p, a, target);
    }
}

/// With exact (field) arithmetic, division by a normalized non-zero `den`
/// gives `num == quotient * den + remainder` at every point.
pub proof fn law_div_value<T>(num: Seq<T>, den: Seq<T>, p: T, a: ArithSpec<T>)
    requires
        is_field(a),
        normalized(den, a),
        !all_zero(den, a),
    ensures
        value(num, p, a) == a.add(
            a.mul(value(div_of(num, den, a).0, p, a), value(den, p, a)),
            value(div_of(num, den, a).1, p, a),
        ),
{
    let vd = value(den, p, a);
    lemma_value_zero_poly(p, a);
    mul_zero(a, vd);
    if all_zero(num, a) {
        lemma_value_all_zero(num, p, a);
        add_zero(a, a.zero);
    } else if degree_of(num.len()) < degree_of(den.len()) {
        add_zero(a, value(num, p, a));
    } else {
        assert(!(a.is_zero)(den[0])) by {
            if den.len() == 1 && (a.is_zero)(den[0]) {
                assert(all_zero(den, a));
            }
        }
        assert(num.len() >= 1) by {
            if num.len() == 0 {
                assert(all_zero(num, a));
            }
        }
        let q0 = Seq::new(
            (degree_of(num.len()) - degree_of(den.len()) + 1) as nat,
            |i: int| a.zero,
        );
        zero_test(a, a.zero);
        lemma_value_all_zero(q0, p, a);
        add_zero(a, value(num, p, a));
        lemma_long_div_value(num, q0, den, p, a, value(num, p, a));
        let (q, r) = long_div(num, q0, den, a);
        lemma_value_trimmed(q, p, a);
        lemma_value_trimmed(r, p, a);
    }
}

/// The closed loop `G / (1 + s G H)` with `s` the sign of the feedback
/// (`Op::Add` for negative feedback, `Op::Sub` for positive), as the ratio
/// of `A D` to `B D + s A C` where `G = A / B` and `H = C / D`.
proof fn lemma_closed_loop<T>(av: T, bv: T, cv: T, dv: T, o: Op, a: ArithSpec<T>)
    requires
        is_field(a),
        o == Op::Add || o == Op::Sub,
        !(a.is_zero)(bv),
        !(a.is_zero)(dv),
        !(a.is_zero)((a.op)(o, a.one, a.mul(a.div(av, bv), a.div(cv, dv)))),
    ensures
        a.div(a.mul(av, dv), (a.op)(o, a.mul(bv, dv), a.mul(av, cv))) == a.div(
            a.div(av, bv),
            (a.op)(o, a.one, a.mul(a.div(av, bv), a.div(cv, dv))),
        ),
{
    let g = a.div(av, bv);
    let h = a.div(cv, dv);
    let gh = a.mul(g, h);
    let e = (a.op)(o, a.one, gh);
    let bd = a.mul(bv, dv);
    let t = a.div(g, e);
    div_mul(a, av, bv);
    div_mul(a, cv, dv);
    div_mul(a, g, e);
    mul_swap_middle(a, g, h, bv, dv);
    mul_one(a, bd);
    // e * bd == bd (+/-) a c
    if o == Op::Add {
        distrib(a, bd, a.one, gh);
        mul_comm(a, bd, a.one);
        mul_comm(a, bd, gh);
        mul_comm(a, bd, e);
    } else {
        sub_is_add_neg(a, a.one, gh);
        distrib(a, bd, a.one, (a.neg)(gh));
        mul_comm(a, bd, a.one);
        mul_comm(a, bd, (a.neg)(gh));
        mul_comm(a, bd, e);
        neg_mul(a, gh, bd);
        sub_is_add_neg(a, bd, a.mul(av, cv));
    }
    assert(a.mul(e, bd) == (a.op)(o, bd, a.mul(av, cv)));
    mul_nonzero(a, bv, dv);
    mul_nonzero(a, e, bd);
    // t * (e * bd) == (t * e) * bd == g * bd == (g * b) * d == a d
    mul_assoc(a, t, e, bd);
    mul_assoc(a, g, bv, dv);
    div_unique(a, a.mul(av, dv), a.mul(e, bd), t);
}

/// With exact (field) arithmetic, away from the poles of `G1` and `G2`, the
/// series connection takes the value `G1(p) * G2(p)`.
pub proof fn law_series_value<T>(
    n1: Seq<T>,
    d1: Seq<T>,
    n2: Seq<T>,
    d2: Seq<T>,
    p: T,
    a: ArithSpec<T>,
)
    requires
        is_field(a),
        !(a.is_zero)(value(d1, p, a)),
        !(a.is_zero)(value(d2, p, a)),
    ensures
        a.div(value(mul_of(n1, n2, a), p, a), value(mul_of(d1, d2, a), p, a)) == a.mul(
            a.div(value(n1, p, a), value(d1, p, a)),
            a.div(value(n2, p, a), value(d2, p, a)),
        ),
{
    let (av, bv, cv, dv) = (value(n1, p, a), value(d1, p, a), value(n2, p, a), value(d2, p, a));
    law_mul_value(n1, n2, p, a);
    law_mul_value(d1, d2, p, a);
    let g1 = a.div(av, bv);
    let g2 = a.div(cv, dv);
    div_mul(a, av, bv);
    div_mul(a, cv, dv);
    mul_swap_middle(a, g1, g2, bv, dv);
    mul_nonzero(a, bv, dv);
    div_unique(a, a.mul(av, cv), a.mul(bv, dv), a.mul(g1, g2));
}

/// With exact (field) arithmetic, away from the poles of `G1` and `G2`, the
/// parallel connection takes the value `G1(p) + G2(p)`.
pub proof fn law_parallel_value<T>(
    n1: Seq<T>,
    d1: Seq<T>,
    n2: Seq<T>,
    d2: Seq<T>,
    p: T,
    a: ArithSpec<T>,
)
    requires
        is_field(a),
        !(a.is_zero)(value(d1, p, a)),
        !(a.is_zero)(value(d2, p, a)),
    ensures
        a.div(
            value(add_of(mul_of(n1, d2, a), mul_of(n2, d1, a), a), p, a),
            value(mul_of(d1, d2, a), p, a),
        ) == a.add(
            a.div(value(n1, p, a), value(d1, p, a)),
            a.div(value(n2, p, a), value(d2, p, a)),
        ),
{
    let (av, bv, cv, dv) = (value(n1, p, a), value(d1, p, a), value(n2, p, a), value(d2, p, a));
    law_mul_value(n1, d2, p, a);
    law_mul_value(n2, d1, p, a);
    law_mul_value(d1, d2, p, a);
    law_add_value(mul_of(n1, d2, a), mul_of(n2, d1, a), p, a);
    let g1 = a.div(av, bv);
    let g2 = a.div(cv, dv);
    let bd = a.mul(bv, dv);
    div_mul(a, av, bv);
    div_mul(a, cv, dv);
    distrib(a, bd, g1, g2);
    mul_comm(a, bd, a.add(g1, g2));
    mul_comm(a, bd, g1);
    mul_comm(a, bd, g2);
    mul_assoc(a, g1, bv, dv);
    mul_comm(a, bv, dv);
    mul_assoc(a, g2, dv, bv);
    mul_nonzero(a, bv, dv);
    div_unique(a, a.add(a.mul(av, dv), a.mul(cv, bv)), bd, a.add(g1, g2));
}

/// With exact (field) arithmetic, away from the poles of `G` and `H` and of
/// the closed loop, negative feedback takes the value `G / (1 + G H)`.
pub proof fn law_feedback_value<T>(
    gn: Seq<T>,
    gd: Seq<T>,
    hn: Seq<T>,
    hd: Seq<T>,
    p: T,
    a: ArithSpec<T>,
)
    requires
        is_field(a),
        !(a.is_zero)(value(gd, p, a)),
        !(a.is_zero)(value(hd, p, a)),
        !(a.is_zero)(
            a.add(
                a.one,
                a.mul(
                    a.div(value(gn, p, a), value(gd, p, a)),
                    a.div(value(hn, p, a), value(hd, p, a)),
                ),
            ),
        ),
    ensures
        ({
            let g = a.div(value(gn, p, a), value(gd, p, a));
            let h = a.div(value(hn, p, a), value(hd, p, a));
            a.div(
                value(mul_of(gn, hd, a), p, a),
                value(add_of(mul_of(gd, hd, a), mul_of(gn, hn, a), a), p, a),
            ) == a.div(g, a.add(a.one, a.mul(g, h)))
        }),
{
    law_mul_value(gn, hd, p, a);
    law_mul_value(gd, hd, p, a);
    law_mul_value(gn, hn, p, a);
    law_add_value(mul_of(gd, hd, a), mul_of(gn, hn, a), p, a);
    lemma_closed_loop(value(gn, p, a), value(gd, p, a), value(hn, p, a), value(hd, p, a), Op::Add, a);
}

/// With exact (field) arithmetic, away from the poles of `G` and `H` and of
/// the closed loop, positive feedback takes the value `G / (1 - G H)`.
pub proof fn law_feedback_positive_value<T>(
    gn: Seq<T>,
    gd: Seq<T>,
    hn: Seq<T>,
    hd: Seq<T>,
    p: T,
    a: ArithSpec<T>,
)
    requires
        is_field(a),
        !(a.is_zero)(value(gd, p, a)),
        !(a.is_zero)(value(hd, p, a)),
        !(a.is_zero)(
            a.sub(
                a.one,
                a.mul(
                    a.div(value(gn, p, a), value(gd, p, a)),
                    a.div(value(hn, p, a), value(hd, p, a)),
                ),
            ),
        ),
    ensures
        ({
            let g = a.div(value(gn, p, a), value(gd, p, a));
            let h = a.div(value(hn, p, a), value(hd, p, a));
            a.div(
                value(mul_of(gn, hd, a), p, a),
                value(sub_of(mul_of(gd, hd, a), mul_of(gn, hn, a), a), p, a),
            ) == a.div(g, a.sub(a.one, a.mul(g, h)))
        }),
{
    law_mul_value(gn, hd, p, a);
    law_mul_value(gd, hd, p, a);
    law_mul_value(gn, hn, p, a);
    law_sub_value(mul_of(gd, hd, a), mul_of(gn, hn, a), p, a);
    lemma_closed_loop(value(gn, p, a), value(gd, p, a), value(hn, p, a), value(hd, p, a), Op::Sub, a);
}

/// Horner evaluation with the field's own multiplication and addition,
/// starting from `zero`, is the value of the polynomial: what
/// `Polynomial::eval` computes when handed those operations.
pub proof fn law_horner_is_value<T>(s: Seq<T>, x: T, a: ArithSpec<T>)
    ensures
        horner(s, x, a.zero, |u: T, v: T| a.mul(u, v), |u: T, c: T| a.add(u, c)) == value(
            s,
            x,
            a,
        ),
    decreases s.len(),
{
    if s.len() > 0 {
        law_horner_is_value(s.drop_last(), x, a);
    }
}

/// Negation keeps a polynomial normalized when it maps zero coefficients to
/// zero coefficients and only those.
pub proof fn law_neg_keeps_normalized<T>(s: Seq<T>, a: ArithSpec<T>)
    requires
        normalized(s, a),
        forall|c: T| #[trigger] (a.is_zero)((a.neg)(c)) == (a.is_zero)(c),
    ensures
        normalized(neg_of(s, a), a),
{
    assert((a.is_zero)((a.neg)(s[0])) == (a.is_zero)(s[0]));
}

/// Only the first row reaches the leading coefficient of a product.
proof fn lemma_conv_leading<T>(x: Seq<T>, y: Seq<T>, i: nat, a: ArithSpec<T>)
    requires
        1 <= i <= x.len(),
        y.len() >= 1,
    ensures
        conv(x, y, 0, i, a) == a.add(a.zero, a.mul(x[0], y[0])),
    decreases i,
{
    if i > 1 {
        lemma_conv_leading(x, y, (i - 1) as nat, a);
    } else {
        assert(conv(x, y, 0, 0, a) == a.zero);
    }
}

/// With exact (field) arithmetic the degree of a product of non-zero
/// normalized polynomials is the sum of their degrees.
pub proof fn law_mul_degree_exact<T>(x: Seq<T>, y: Seq<T>, a: ArithSpec<T>)
    requires
        is_field(a),
        normalized(x, a),
        normalized(y, a),
        !all_zero(x, a),
        !all_zero(y, a),
    ensures
        degree_of(mul_of(x, y, a).len()) == degree_of(x.len()) + degree_of(y.len()),
{
    assert(!(a.is_zero)(x[0])) by {
        if x.len() == 1 && (a.is_zero)(x[0]) {
            assert(all_zero(x, a));
        }
    }
    assert(!(a.is_zero)(y[0])) by {
        if y.len() == 1 && (a.is_zero)(y[0]) {
            assert(all_zero(y, a));
        }
    }
    let pt = product_terms(x, y, a);
    lemma_conv_leading(x, y, x.len(), a);
    mul_nonzero(a, x[0], y[0]);
    add_zero(a, a.mul(x[0], y[0]));
    assert(!(a.is_zero)(pt[0]));
    assert(leading_zeros(pt, a) == 0);
    assert(pt.skip(0) =~= pt);
}

// ---------------------------------------------------------------------------
// Laws that hold for whatever the coefficient closures compute (no field
// assumption): they say which coefficients each operation produces.
// ---------------------------------------------------------------------------

/// A transfer function is accepted exactly when its denominator is not all
/// zeros and its numerator is zero or has no more coefficients than the
/// denominator; a zero denominator is reported first, then the degrees of an
/// improper ratio.
pub proof fn law_tf_acceptance<T>(num: Seq<T>, den: Seq<T>, a: ArithSpec<T>)
    requires
        num.len() >= 1,
        den.len() >= 1,
    ensures
        all_zero(den, a) ==> tf_of(num, den, a) == Err::<(Seq<T>, Seq<T>), crate::error::CoreError>(
            crate::error::CoreError::ZeroDenominator,
        ),
        !all_zero(den, a) && (all_zero(num, a) || num.len() <= den.len()) ==> tf_of(num, den, a)
            == Ok::<(Seq<T>, Seq<T>), crate::error::CoreError>((num, den)),
        !all_zero(den, a) && !all_zero(num, a) && num.len() > den.len() ==> tf_of(num, den, a)
            == Err::<(Seq<T>, Seq<T>), crate::error::CoreError>(
            crate::error::CoreError::Improper {
                num_deg: (num.len() - 1) as usize,
                den_deg: (den.len() - 1) as usize,
            },
        ),
{
}

/// Properness compares coefficient counts: proper when the numerator is zero
/// or has no more coefficients than the denominator, strictly proper when it
/// is zero or has fewer.
pub proof fn law_properness<T>(num: Seq<T>, den: Seq<T>, a: ArithSpec<T>)
    requires
        num.len() >= 1,
        den.len() >= 1,
    ensures
        proper(num, den, a) <==> (all_zero(num, a) || num.len() <= den.len()),
        strictly_proper(num, den, a) <==> (all_zero(num, a) || num.len() < den.len()),
{
}

/// For a polynomial of degree `n >= 1` whose leading term `s[0] * n` does not
/// test zero, the derivative has one coefficient fewer, and coefficient `i`
/// is `s[i]` times the count `n - i`.
pub proof fn law_derivative_coefficients<T>(s: Seq<T>, a: ArithSpec<T>)
    requires
        s.len() >= 2,
        !(a.is_zero)(a.mul(s[0], (a.count)((s.len() - 1) as usize))),
    ensures
        derivative_of(s, a).len() == s.len() - 1,
        forall|i: int|
            0 <= i < s.len() - 1 ==> #[trigger] derivative_of(s, a)[i] == a.mul(
                s[i],
                (a.count)((s.len() - 1 - i) as usize),
            ),
{
    let t = derivative_terms(s, a);
    assert(t[0] == a.mul(s[0], (a.count)((s.len() - 1) as usize)));
    assert(leading_zeros(t, a) == 0);
    assert(t.skip(0) =~= t);
}

/// Coefficient `k` of `y` times a constant `[c]` takes one term.
proof fn lemma_conv_constant<T>(y: Seq<T>, c: Seq<T>, k: int, i: nat, a: ArithSpec<T>)
    requires
        c.len() == 1,
        0 <= k,
        i <= y.len(),
    ensures
        conv(y, c, k, i, a) == if i <= k {
            a.zero
        } else {
            a.add(a.zero, a.mul(y[k], c[0]))
        },
    decreases i,
{
    if i > 0 {
        lemma_conv_constant(y, c, k, (i - 1) as nat, a);
    }
}

/// When neither factor is zero and the product of the leading coefficients,
/// added to `zero`, does not test zero, the product has
/// `x.len() + y.len() - 1` coefficients: the first is `zero + x[0] * y[0]`
/// and the last is `zero + x.last() * y.last()`.
pub proof fn law_mul_ends<T>(x: Seq<T>, y: Seq<T>, a: ArithSpec<T>)
    requires
        !all_zero(x, a),
        !all_zero(y, a),
        !(a.is_zero)(a.add(a.zero, a.mul(x[0], y[0]))),
    ensures
        mul_of(x, y, a).len() == x.len() + y.len() - 1,
        mul_of(x, y, a)[0] == a.add(a.zero, a.mul(x[0], y[0])),
        mul_of(x, y, a).last() == a.add(a.zero, a.mul(x.last(), y.last())),
{
    assert(x.len() >= 1 && y.len() >= 1) by {
        if x.len() == 0 {
            assert(all_zero(x, a));
        }
        if y.len() == 0 {
            assert(all_zero(y, a));
        }
    }
    let pt = product_terms(x, y, a);
    lemma_conv_leading(x, y, x.len(), a);
    assert(leading_zeros(pt, a) == 0);
    assert(pt.skip(0) =~= pt);
    let k = x.len() + y.len() - 2;
    crate::algebra::lemma_conv_beyond(x, y, k, (x.len() - 1) as nat, a);
    assert(pt.last() == conv(x, y, k, x.len(), a));
}

/// A non-zero polynomial times a constant `[c]` whose leading product does not
/// test zero keeps its length, and coefficient `k` is `zero + y[k] * c`.
pub proof fn law_mul_by_constant<T>(y: Seq<T>, c: T, a: ArithSpec<T>)
    requires
        !all_zero(y, a),
        !(a.is_zero)(c),
        !(a.is_zero)(a.add(a.zero, a.mul(y[0], c))),
    ensures
        mul_of(y, seq![c], a).len() == y.len(),
        forall|k: int|
            0 <= k < y.len() ==> #[trigger] mul_of(y, seq![c], a)[k] == a.add(
                a.zero,
                a.mul(y[k], c),
            ),
{
    let cs = seq![c];
    assert(cs[0] == c);
    assert(!all_zero(cs, a));
    law_mul_ends(y, cs, a);
    let pt = product_terms(y, cs, a);
    assert(leading_zeros(pt, a) == 0) by {
        lemma_conv_constant(y, cs, 0, y.len(), a);
    }
    assert(pt.skip(0) =~= pt);
    assert forall|k: int| 0 <= k < y.len() implies #[trigger] mul_of(y, cs, a)[k] == a.add(
        a.zero,
        a.mul(y[k], c),
    ) by {
        lemma_conv_constant(y, cs, k, y.len(), a);
    }
}

/// Long division never rewrites a quotient coefficient before the one the
/// next step would write.
proof fn lemma_long_div_keeps_front<T>(
    rem: Seq<T>,
    quot: Seq<T>,
    den: Seq<T>,
    a: ArithSpec<T>,
    j: int,
)
    requires
        den.len() >= 1,
        rem.len() + 1 <= quot.len() + den.len(),
        0 <= j < quot.len() - 1 - (rem.len() - den.len()),
    ensures
        long_div(rem, quot, den, a).0[j] == quot[j],
    decreases rem.len(),
{
    if rem.len() >= den.len() && !all_zero(rem, a) {
        let factor = a.div(rem[0], den[0]);
        let idx = quot.len() - 1 - (rem.len() - den.len());
        lemma_long_div_keeps_front(
            reduce_step(rem, den, factor, a),
            quot.update(idx, factor),
            den,
            a,
            j,
        );
    }
}

/// Dividing a non-zero `num` by a non-zero `den` of no higher degree: when the
/// ratio of the leading coefficients does not test zero, the quotient has
/// degree `deg(num) - deg(den)` and that ratio as its leading coefficient.
pub proof fn law_div_leading<T>(num: Seq<T>, den: Seq<T>, a: ArithSpec<T>)
    requires
        !all_zero(num, a),
        !all_zero(den, a),
        num.len() >= den.len(),
        !(a.is_zero)(a.div(num[0], den[0])),
    ensures
        div_of(num, den, a).0.len() == num.len() - den.len() + 1,
        div_of(num, den, a).0[0] == a.div(num[0], den[0]),
{
    assert(den.len() >= 1) by {
        if den.len() == 0 {
            assert(all_zero(den, a));
        }
    }
    let q0 = Seq::new(
        (degree_of(num.len()) - degree_of(den.len()) + 1) as nat,
        |i: int| a.zero,
    );
    let f = a.div(num[0], den[0]);
    let q1 = q0.update(0, f);
    let r1 = reduce_step(num, den, f, a);
    assert(long_div(num, q0, den, a) == long_div(r1, q1, den, a));
    lemma_long_div(r1, q1, den, a);
    lemma_long_div_keeps_front(r1, q1, den, a, 0);
    let q = long_div(num, q0, den, a).0;
    assert(q[0] == f);
    assert(leading_zeros(q, a) == 0);
    assert(q.skip(0) =~= q);
}

/// Dividing by a dividend of lower degree gives the zero quotient and the
/// dividend back; dividing zero gives zero twice.
pub proof fn law_div_small_cases<T>(num: Seq<T>, den: Seq<T>, a: ArithSpec<T>)
    ensures
        all_zero(num, a) ==> div_of(num, den, a) == (seq![a.zero], seq![a.zero]),
        !all_zero(num, a) && num.len() < den.len() ==> div_of(num, den, a) == (
            seq![a.zero],
            num,
        ),
{
}

/// The quotient by a constant, from the state after `j` steps.
proof fn lemma_div_by_constant<T>(num: Seq<T>, d: T, j: int, a: ArithSpec<T>)
    requires
        0 <= j <= num.len(),
        forall|i: int| 0 <= i < j ==> !all_zero(#[trigger] num.skip(i), a),
    ensures
        long_div(
            num.skip(j),
            Seq::new(
                num.len(),
                |i: int|
                    if i < j {
                        a.div(num[i], d)
                    } else {
                        a.zero
                    },
            ),
            seq![d],
            a,
        ) == (
            Seq::new(
                num.len(),
                |i: int|
                    if all_zero(num.skip(i), a) {
                        a.zero
                    } else {
                        a.div(num[i], d)
                    },
            ),
            long_div(
                num.skip(j),
                Seq::new(
                    num.len(),
                    |i: int|
                        if i < j {
                            a.div(num[i], d)
                        } else {
                            a.zero
                        },
                ),
                seq![d],
                a,
            ).1,
        ),
        all_zero(
            long_div(
                num.skip(j),
                Seq::new(
                    num.len(),
                    |i: int|
                        if i < j {
                            a.div(num[i], d)
                        } else {
                            a.zero
                        },
                ),
                seq![d],
                a,
            ).1,
            a,
        ),
    decreases num.len() - j,
{
    let ds = seq![d];
    let rem = num.skip(j);
    let quot = Seq::new(
        num.len(),
        |i: int|
            if i < j {
                a.div(num[i], d)
            } else {
                a.zero
            },
    );
    let expected = Seq::new(
        num.len(),
        |i: int|
            if all_zero(num.skip(i), a) {
                a.zero
            } else {
                a.div(num[i], d)
            },
    );
    if rem.len() >= 1 && !all_zero(rem, a) {
        let f = a.div(rem[0], d);
        assert(rem[0] == num[j]);
        let r1 = reduce_step(rem, ds, f, a);
        assert(r1 =~= num.skip(j + 1));
        let q1 = Seq::new(
            num.len(),
            |i: int|
                if i < j + 1 {
                    a.div(num[i], d)
                } else {
                    a.zero
                },
        );
        assert(quot.update(j, f) =~= q1);
        assert forall|i: int| 0 <= i < j + 1 implies !all_zero(#[trigger] num.skip(i), a) by {
            if i == j {
                assert(num.skip(i) == rem);
            }
        }
        lemma_div_by_constant(num, d, j + 1, a);
    } else {
        assert(all_zero(rem, a));
        assert forall|i: int| 0 <= i < num.len() implies #[trigger] quot[i] == expected[i] by {
            if i >= j {
                assert forall|t: int| 0 <= t < num.skip(i).len() implies (a.is_zero)(
                    #[trigger] num.skip(i)[t],
                ) by {
                    assert(num.skip(i)[t] == rem[t + (i - j)]);
                }
            }
        }
        assert(quot =~= expected);
    }
}

/// Dividing by a non-zero constant `[d]`, when the leading ratio does not
/// test zero: the quotient keeps every coefficient position, coefficient `i`
/// being `num[i] / d` as long as some later-or-equal coefficient is not zero
/// (and `zero` after the rest of the dividend is all zeros), and the
/// remainder is the zero polynomial.
pub proof fn law_div_by_constant<T>(num: Seq<T>, d: T, a: ArithSpec<T>)
    requires
        (a.is_zero)(a.zero),
        !(a.is_zero)(d),
        !all_zero(num, a),
        !(a.is_zero)(a.div(num[0], d)),
    ensures
        div_of(num, seq![d], a).0 == Seq::new(
            num.len(),
            |i: int|
                if all_zero(num.skip(i), a) {
                    a.zero
                } else {
                    a.div(num[i], d)
                },
        ),
        div_of(num, seq![d], a).1 == seq![a.zero],
{
    let ds = seq![d];
    assert(ds[0] == d);
    assert(!all_zero(ds, a));
    assert(num.len() >= 1) by {
        if num.len() == 0 {
            assert(all_zero(num, a));
        }
    }
    let q0 = Seq::new(
        (degree_of(num.len()) - degree_of(ds.len()) + 1) as nat,
        |i: int| a.zero,
    );
    let start = Seq::new(
        num.len(),
        |i: int|
            if i < 0 {
                a.div(num[i], d)
            } else {
                a.zero
            },
    );
    assert(q0 =~= start);
    assert(num.skip(0) =~= num);
    lemma_div_by_constant(num, d, 0, a);
    let (q, r) = long_div(num, q0, ds, a);
    assert(!all_zero(num.skip(0), a));
    assert(q[0] == a.div(num[0], d));
    assert(leading_zeros(q, a) == 0);
    assert(q.skip(0) =~= q);
    lemma_leading_zeros(r, a);
}

/// Coefficient `k` of `[p, q] * y` after the first `i` rows.
proof fn lemma_conv_linear<T>(x: Seq<T>, y: Seq<T>, k: int, a: ArithSpec<T>)
    requires
        x.len() == 2,
        y.len() >= 1,
        0 <= k <= y.len(),
    ensures
        conv(x, y, k, 2, a) == if k == 0 {
            a.add(a.zero, a.mul(x[0], y[0]))
        } else if k < y.len() {
            a.add(a.add(a.zero, a.mul(x[0], y[k])), a.mul(x[1], y[k - 1]))
        } else {
            a.add(a.zero, a.mul(x[1], y[k - 1]))
        },
{
    assert(conv(x, y, k, 0, a) == a.zero);
    assert(conv(x, y, k, 1, a) == if k < y.len() {
        a.add(a.zero, a.mul(x[0], y[k]))
    } else {
        a.zero
    });
}

/// A product with a two-coefficient factor `[p, q]`, when `zero + p * y[0]`
/// does not test zero: one coefficient more than `y`, coefficient `k` being
/// `zero + p * y[k]` plus `q * y[k - 1]`, each term present where its index
/// exists.
pub proof fn law_mul_by_linear<T>(x: Seq<T>, y: Seq<T>, a: ArithSpec<T>)
    requires
        x.len() == 2,
        !all_zero(x, a),
        !all_zero(y, a),
        !(a.is_zero)(a.add(a.zero, a.mul(x[0], y[0]))),
    ensures
        mul_of(x, y, a).len() == y.len() + 1,
        mul_of(x, y, a)[0] == a.add(a.zero, a.mul(x[0], y[0])),
        forall|k: int|
            0 < k < y.len() ==> #[trigger] mul_of(x, y, a)[k] == a.add(
                a.add(a.zero, a.mul(x[0], y[k])),
                a.mul(x[1], y[k - 1]),
            ),
        mul_of(x, y, a)[y.len() as int] == a.add(a.zero, a.mul(x[1], y[y.len() - 1])),
{
    law_mul_ends(x, y, a);
    assert(y.len() >= 1) by {
        if y.len() == 0 {
            assert(all_zero(y, a));
        }
    }
    let pt = product_terms(x, y, a);
    assert(leading_zeros(pt, a) == 0) by {
        lemma_conv_linear(x, y, 0, a);
    }
    assert(pt.skip(0) =~= pt);
    assert forall|k: int| 0 < k < y.len() implies #[trigger] mul_of(x, y, a)[k] == a.add(
        a.add(a.zero, a.mul(x[0], y[k])),
        a.mul(x[1], y[k - 1]),
    ) by {
        lemma_conv_linear(x, y, k, a);
    }
    lemma_conv_linear(x, y, y.len() as int, a);
}

/// Coefficient `k` of the sum (`o == Op::Add`) or difference (`o == Op::Sub`)
/// of `x` and `y`, powers aligned at the constant term, with `n` the longer
/// length: `x`'s coefficient (added to `zero`, or `zero` where `x` has none)
/// combined by `o` with `y`'s where `y` has one.
pub open spec fn aligned_sum<T>(x: Seq<T>, y: Seq<T>, o: Op, k: int, a: ArithSpec<T>) -> T {
    let n = if x.len() >= y.len() { x.len() } else { y.len() };
    let dx = n - x.len();
    let dy = n - y.len();
    let v = if k >= dx { a.add(a.zero, x[k - dx]) } else { a.zero };
    if k >= dy { (a.op)(o, v, y[k - dy]) } else { v }
}

/// When the leading coefficient of the aligned sum (or difference) does not
/// test zero, the result keeps the longer length and coefficient `k` is the
/// aligned combination of `x[.]` and `y[.]`.
pub proof fn law_sum_coefficients<T>(x: Seq<T>, y: Seq<T>, a: ArithSpec<T>)
    ensures
        !(a.is_zero)(aligned_sum(x, y, Op::Add, 0, a)) && (x.len() > 0 || y.len() > 0) ==> {
            &&& add_of(x, y, a).len() == if x.len() >= y.len() { x.len() } else { y.len() }
            &&& forall|k: int|
                0 <= k < add_of(x, y, a).len() ==> #[trigger] add_of(x, y, a)[k] == aligned_sum(
                    x,
                    y,
                    Op::Add,
                    k,
                    a,
                )
        },
        !(a.is_zero)(aligned_sum(x, y, Op::Sub, 0, a)) && (x.len() > 0 || y.len() > 0) ==> {
            &&& sub_of(x, y, a).len() == if x.len() >= y.len() { x.len() } else { y.len() }
            &&& forall|k: int|
                0 <= k < sub_of(x, y, a).len() ==> #[trigger] sub_of(x, y, a)[k] == aligned_sum(
                    x,
                    y,
                    Op::Sub,
                    k,
                    a,
                )
        },
{
    let n = if x.len() >= y.len() { x.len() } else { y.len() };
    let z = Seq::new(n, |k: int| a.zero);
    let sa = sum_terms(x, y, Op::Add, a);
    let ss = sum_terms(x, y, Op::Sub, a);
    assert forall|k: int| 0 <= k < n implies #[trigger] sa[k] == aligned_sum(x, y, Op::Add, k, a)
        && ss[k] == aligned_sum(x, y, Op::Sub, k, a) by {
        assert(combine_aligned(z, x, Op::Add, a)[k] == if k >= n - x.len() {
            a.add(a.zero, x[k - (n - x.len())])
        } else {
            a.zero
        });
    }
    if x.len() > 0 || y.len() > 0 {
        if !(a.is_zero)(aligned_sum(x, y, Op::Add, 0, a)) {
            assert(leading_zeros(sa, a) == 0);
            assert(sa.skip(0) =~= sa);
        }
        if !(a.is_zero)(aligned_sum(x, y, Op::Sub, 0, a)) {
            assert(leading_zeros(ss, a) == 0);
            assert(ss.skip(0) =~= ss);
        }
    }
}

/// Quotient coefficients already in place ahead of the ones long division
/// writes stay in front of its result.
proof fn lemma_long_div_prefix<T>(rem: Seq<T>, p: Seq<T>, quot: Seq<T>, den: Seq<T>, a: ArithSpec<T>)
    requires
        den.len() >= 1,
        rem.len() + 1 <= quot.len() + den.len(),
    ensures
        long_div(rem, p + quot, den, a) == (
            p + long_div(rem, quot, den, a).0,
            long_div(rem, quot, den, a).1,
        ),
    decreases rem.len(),
{
    if rem.len() >= den.len() && !all_zero(rem, a) {
        let f = a.div(rem[0], den[0]);
        let idx = quot.len() - 1 - (rem.len() - den.len());
        let big = p + quot;
        assert(big.len() - 1 - (rem.len() - den.len()) == p.len() + idx);
        assert(big.update(p.len() + idx, f) =~= p + quot.update(idx, f));
        lemma_long_div_prefix(reduce_step(rem, den, f, a), p, quot.update(idx, f), den, a);
    }
}

/// One step of long division, as a relation between two divisions: with
/// `f = num[0] / den[0]` and `r1` the dividend less `f` times `den` (aligned
/// at the leading coefficient, that coefficient then dropped), dividing
/// `num` gives `f` followed by the quotient of `r1`, and the same remainder,
/// as long as `f` and the next leading ratio do not test zero.
pub proof fn law_div_step<T>(num: Seq<T>, den: Seq<T>, a: ArithSpec<T>)
    requires
        !all_zero(num, a),
        !all_zero(den, a),
        num.len() > den.len(),
        !(a.is_zero)(a.div(num[0], den[0])),
        ({
            let f = a.div(num[0], den[0]);
            let r1 = Seq::new(
                num.len(),
                |i: int|
                    if i < den.len() {
                        a.sub(num[i], a.mul(f, den[i]))
                    } else {
                        num[i]
                    },
            ).drop_first();
            !all_zero(r1, a) && !(a.is_zero)(a.div(r1[0], den[0]))
        }),
    ensures
        ({
            let f = a.div(num[0], den[0]);
            let r1 = Seq::new(
                num.len(),
                |i: int|
                    if i < den.len() {
                        a.sub(num[i], a.mul(f, den[i]))
                    } else {
                        num[i]
                    },
            ).drop_first();
            &&& div_of(num, den, a).0 == seq![f] + div_of(r1, den, a).0
            &&& div_of(num, den, a).1 == div_of(r1, den, a).1
        }),
{
    assert(den.len() >= 1) by {
        if den.len() == 0 {
            assert(all_zero(den, a));
        }
    }
    let f = a.div(num[0], den[0]);
    let r1 = reduce_step(num, den, f, a);
    let l = num.len() - den.len() + 1;
    let q0 = Seq::new(
        (degree_of(num.len()) - degree_of(den.len()) + 1) as nat,
        |i: int| a.zero,
    );
    let z1 = Seq::new((l - 1) as nat, |i: int| a.zero);
    assert(q0.update(0, f) =~= seq![f] + z1);
    assert(long_div(num, q0, den, a) == long_div(r1, q0.update(0, f), den, a));
    lemma_long_div_prefix(r1, seq![f], z1, den, a);
    let q1 = Seq::new(
        (degree_of(r1.len()) - degree_of(den.len()) + 1) as nat,
        |i: int| a.zero,
    );
    assert(q1 =~= z1);
    // the quotient of r1 starts with a coefficient that does not test zero
    let f1 = a.div(r1[0], den[0]);
    let r2 = reduce_step(r1, den, f1, a);
    assert(long_div(r1, z1, den, a) == long_div(r2, z1.update(0, f1), den, a));
    lemma_long_div(r2, z1.update(0, f1), den, a);
    lemma_long_div_keeps_front(r2, z1.update(0, f1), den, a, 0);
    let qr = long_div(r1, z1, den, a).0;
    assert(qr[0] == f1);
    assert(leading_zeros(qr, a) == 0);
    assert(qr.skip(0) =~= qr);
    let qn = seq![f] + qr;
    assert(qn[0] == f);
    assert(leading_zeros(qn, a) == 0);
    assert(qn.skip(0) =~= qn);
}

/// Dividing by a divisor of the same degree: the quotient is the constant
/// `f = num[0] / den[0]` (when it does not test zero), and the remainder is
/// `num` less `f` times `den` with the leading coefficient dropped: the zero
/// polynomial when that is all zeros, itself when it starts with a
/// coefficient that does not test zero.
pub proof fn law_div_same_degree<T>(num: Seq<T>, den: Seq<T>, a: ArithSpec<T>)
    requires
        (a.is_zero)(a.zero),
        !all_zero(num, a),
        !all_zero(den, a),
        num.len() == den.len(),
        !(a.is_zero)(a.div(num[0], den[0])),
    ensures
        ({
            let f = a.div(num[0], den[0]);
            let r1 = Seq::new(num.len(), |i: int| a.sub(num[i], a.mul(f, den[i]))).drop_first();
            &&& div_of(num, den, a).0 == seq![f]
            &&& all_zero(r1, a) ==> div_of(num, den, a).1 == seq![a.zero]
            &&& !all_zero(r1, a) && !(a.is_zero)(r1[0]) ==> div_of(num, den, a).1 == r1
        }),
{
    let f = a.div(num[0], den[0]);
    let r1 = reduce_step(num, den, f, a);
    assert(r1 =~= Seq::new(num.len(), |i: int| a.sub(num[i], a.mul(f, den[i]))).drop_first());
    let q0 = Seq::new(
        (degree_of(num.len()) - degree_of(den.len()) + 1) as nat,
        |i: int| a.zero,
    );
    assert(q0.update(0, f) =~= seq![f]);
    assert(long_div(num, q0, den, a) == long_div(r1, seq![f], den, a));
    assert(long_div(r1, seq![f], den, a) == (seq![f], r1));
    assert(leading_zeros(seq![f], a) == 0);
    assert(seq![f].skip(0) =~= seq![f]);
    lemma_leading_zeros(r1, a);
    if !all_zero(r1, a) && !(a.is_zero)(r1[0]) {
        assert(r1.skip(0) =~= r1);
    }
}

/// Trimming drops exactly the leading coefficients that test zero: an
/// all-zero (or empty) input becomes `[zero]`; otherwise, with `k` the
/// position of the first coefficient that does not test zero, the result is
/// the input from `k` on.
pub proof fn law_trim_shape<T>(s: Seq<T>, k: int, a: ArithSpec<T>)
    ensures
        all_zero(s, a) ==> trimmed(s, a) == seq![a.zero],
        0 <= k < s.len() && !(a.is_zero)(s[k]) && (forall|j: int|
            0 <= j < k ==> (a.is_zero)(#[trigger] s[j])) ==> trimmed(s, a) == s.skip(k),
{
    lemma_leading_zeros(s, a);
    let lz = leading_zeros(s, a) as int;
    if 0 <= k < s.len() && !(a.is_zero)(s[k]) && (forall|j: int|
        0 <= j < k ==> (a.is_zero)(#[trigger] s[j])) {
        if lz < k {
            assert((a.is_zero)(s[lz]));
        }
        if lz > k {
            assert((a.is_zero)(s[k]));
        }
    }
}

/// Scaling multiplies every coefficient by the scalar, keeping the length,
/// when the new leading coefficient does not test zero.
pub proof fn law_scale_coefficients<T>(s: Seq<T>, k: T, a: ArithSpec<T>)
    requires
        s.len() >= 1,
        !(a.is_zero)(a.mul(s[0], k)),
    ensures
        scale_of(s, k, a).len() == s.len(),
        forall|i: int| 0 <= i < s.len() ==> #[trigger] scale_of(s, k, a)[i] == a.mul(s[i], k),
{
    let t = times_scalar(s, k, a);
    assert(t[0] == a.mul(s[0], k));
    assert(leading_zeros(t, a) == 0);
    assert(t.skip(0) =~= t);
}

/// Negation negates every coefficient and keeps the length.
pub proof fn law_neg_coefficients<T>(s: Seq<T>, a: ArithSpec<T>)
    ensures
        neg_of(s, a).len() == s.len(),
        forall|i: int| 0 <= i < s.len() ==> #[trigger] neg_of(s, a)[i] == (a.neg)(s[i]),
{
}

/// Horner evaluation of no coefficients is the start value, and one more
/// coefficient `c` at the end takes the previous result times `x` plus `c`.
pub proof fn law_horner_steps<T, U>(
    s: Seq<T>,
    c: T,
    x: U,
    start: U,
    times: spec_fn(U, U) -> U,
    plus: spec_fn(U, T) -> U,
)
    ensures
        horner(Seq::<T>::empty(), x, start, times, plus) == start,
        horner(s.push(c), x, start, times, plus) == plus(
            times(horner(s, x, start, times, plus), x),
            c,
        ),
{
    assert(s.push(c).drop_last() =~= s);
}

} // verus!
