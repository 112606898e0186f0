//! Exact arithmetic: when the coefficient operations form a field, the
//! polynomial operations of the library agree with the arithmetic of the
//! values the polynomials take. This module states the field laws and the
//! value of a polynomial at a point.
use vstd::prelude::*;

use crate::arith::{ArithSpec, Op};
use crate::polynomial::{
    all_zero, combine_aligned, conv, leading_zeros, lemma_leading_zeros, neg_of, product_terms,
    times_scalar, trimmed,
};

verus! {

/// The coefficient operations form a field whose zero test recognizes
/// exactly `zero`: addition and multiplication are commutative and
/// associative with identities `zero` and `one`, multiplication distributes
/// over addition, `neg` gives additive inverses, `sub` adds the inverse, and
/// dividing by a non-zero `y` and then multiplying by `y` gives back the
/// dividend.
#[verifier::opaque]
pub open spec fn is_field<T>(a: ArithSpec<T>) -> bool {
    &&& forall|x: T, y: T| #[trigger] a.add(x, y) == a.add(y, x)
    &&& forall|x: T, y: T, z: T| #[trigger] a.add(a.add(x, y), z) == a.add(x, a.add(y, z))
    &&& forall|x: T| #[trigger] a.add(a.zero, x) == x
    &&& forall|x: T| #[trigger] a.add(x, (a.neg)(x)) == a.zero
    &&& forall|x: T, y: T| #[trigger] a.sub(x, y) == a.add(x, (a.neg)(y))
    &&& forall|x: T, y: T| #[trigger] a.mul(x, y) == a.mul(y, x)
    &&& forall|x: T, y: T, z: T| #[trigger] a.mul(a.mul(x, y), z) == a.mul(x, a.mul(y, z))
    &&& forall|x: T| #[trigger] a.mul(a.one, x) == x
    &&& forall|x: T, y: T, z: T| #[trigger]
        a.mul(x, a.add(y, z)) == a.add(a.mul(x, y), a.mul(x, z))
    &&& forall|x: T, y: T| !(a.is_zero)(y) ==> #[trigger] a.mul(a.div(x, y), y) == x
    &&& forall|x: T| #[trigger] (a.is_zero)(x) <==> x == a.zero
}

pub proof fn add_comm<T>(a: ArithSpec<T>, x: T, y: T)
    requires
        is_field(a),
    ensures
        a.add(x, y) == a.add(y, x),
{
    reveal(is_field);
}

pub proof fn add_assoc<T>(a: ArithSpec<T>, x: T, y: T, z: T)
    requires
        is_field(a),
    ensures
        a.add(a.add(x, y), z) == a.add(x, a.add(y, z)),
{
    reveal(is_field);
}

pub proof fn add_zero<T>(a: ArithSpec<T>, x: T)
    requires
        is_field(a),
    ensures
        a.add(a.zero, x) == x,
        a.add(x, a.zero) == x,
{
    reveal(is_field);
    assert(a.add(x, a.zero) == a.add(a.zero, x));
}

pub proof fn add_neg<T>(a: ArithSpec<T>, x: T)
    requires
        is_field(a),
    ensures
        a.add(x, (a.neg)(x)) == a.zero,
        a.add((a.neg)(x), x) == a.zero,
{
    reveal(is_field);
    assert(a.add((a.neg)(x), x) == a.add(x, (a.neg)(x)));
}

pub proof fn sub_is_add_neg<T>(a: ArithSpec<T>, x: T, y: T)
    requires
        is_field(a),
    ensures
        a.sub(x, y) == a.add(x, (a.neg)(y)),
{
    reveal(is_field);
}

pub proof fn mul_comm<T>(a: ArithSpec<T>, x: T, y: T)
    requires
        is_field(a),
    ensures
        a.mul(x, y) == a.mul(y, x),
{
    reveal(is_field);
}

pub proof fn mul_assoc<T>(a: ArithSpec<T>, x: T, y: T, z: T)
    requires
        is_field(a),
    ensures
        a.mul(a.mul(x, y), z) == a.mul(x, a.mul(y, z)),
{
    reveal(is_field);
}

pub proof fn mul_one<T>(a: ArithSpec<T>, x: T)
    requires
        is_field(a),
    ensures
        a.mul(a.one, x) == x,
        a.mul(x, a.one) == x,
{
    reveal(is_field);
    assert(a.mul(x, a.one) == a.mul(a.one, x));
}

/// Multiplication distributes over addition, on either side.
pub proof fn distrib<T>(a: ArithSpec<T>, x: T, y: T, z: T)
    requires
        is_field(a),
    ensures
        a.mul(x, a.add(y, z)) == a.add(a.mul(x, y), a.mul(x, z)),
        a.mul(a.add(y, z), x) == a.add(a.mul(y, x), a.mul(z, x)),
{
    reveal(is_field);
    assert(a.mul(a.add(y, z), x) == a.mul(x, a.add(y, z)));
    assert(a.mul(y, x) == a.mul(x, y));
    assert(a.mul(z, x) == a.mul(x, z));
}

pub proof fn div_mul<T>(a: ArithSpec<T>, x: T, y: T)
    requires
        is_field(a),
        !(a.is_zero)(y),
    ensures
        a.mul(a.div(x, y), y) == x,
{
    reveal(is_field);
}

pub proof fn zero_test<T>(a: ArithSpec<T>, x: T)
    requires
        is_field(a),
    ensures
        (a.is_zero)(x) <==> x == a.zero,
{
    reveal(is_field);
}

/// `x + y == 0` makes `y` the inverse of `x`.
pub proof fn neg_unique<T>(a: ArithSpec<T>, x: T, y: T)
    requires
        is_field(a),
        a.add(x, y) == a.zero,
    ensures
        y == (a.neg)(x),
{
    let nx = (a.neg)(x);
    add_zero(a, y);
    add_neg(a, x);
    add_assoc(a, nx, x, y);
    add_zero(a, nx);
}

pub proof fn mul_zero<T>(a: ArithSpec<T>, x: T)
    requires
        is_field(a),
    ensures
        a.mul(x, a.zero) == a.zero,
        a.mul(a.zero, x) == a.zero,
{
    let p = a.mul(x, a.zero);
    add_zero(a, a.zero);
    distrib(a, x, a.zero, a.zero);
    // p == p + p, so adding -p to both sides gives 0 == p
    add_neg(a, p);
    add_assoc(a, p, p, (a.neg)(p));
    add_zero(a, p);
    mul_comm(a, x, a.zero);
}

pub proof fn neg_zero<T>(a: ArithSpec<T>)
    requires
        is_field(a),
    ensures
        (a.neg)(a.zero) == a.zero,
{
    add_zero(a, a.zero);
    neg_unique(a, a.zero, a.zero);
}

pub proof fn sub_zero<T>(a: ArithSpec<T>, x: T)
    requires
        is_field(a),
    ensures
        a.sub(x, a.zero) == x,
{
    sub_is_add_neg(a, x, a.zero);
    neg_zero(a);
    add_zero(a, x);
}

/// Negation distributes over addition.
pub proof fn neg_add<T>(a: ArithSpec<T>, x: T, y: T)
    requires
        is_field(a),
    ensures
        (a.neg)(a.add(x, y)) == a.add((a.neg)(x), (a.neg)(y)),
{
    let nx = (a.neg)(x);
    let ny = (a.neg)(y);
    // (x + y) + (nx + ny) == 0
    add_assoc(a, a.add(x, y), nx, ny);
    add_assoc(a, x, y, nx);
    add_comm(a, y, nx);
    add_assoc(a, x, nx, y);
    add_neg(a, x);
    add_zero(a, y);
    add_neg(a, y);
    neg_unique(a, a.add(x, y), a.add(nx, ny));
}

/// Negation moves into a factor.
pub proof fn neg_mul<T>(a: ArithSpec<T>, x: T, y: T)
    requires
        is_field(a),
    ensures
        (a.neg)(a.mul(x, y)) == a.mul((a.neg)(x), y),
{
    let nx = (a.neg)(x);
    distrib(a, y, x, nx);
    add_neg(a, x);
    mul_zero(a, y);
    mul_comm(a, y, x);
    mul_comm(a, y, nx);
    neg_unique(a, a.mul(x, y), a.mul(nx, y));
}

/// `x^n`, by repeated multiplication starting from `one`.
pub open spec fn pow<T>(x: T, n: nat, a: ArithSpec<T>) -> T
    decreases n,
{
    if n == 0 {
        a.one
    } else {
        a.mul(pow(x, (n - 1) as nat, a), x)
    }
}

/// The value of the coefficients `s` (descending powers) at the point `x`.
pub open spec fn value<T>(s: Seq<T>, x: T, a: ArithSpec<T>) -> T
    decreases s.len(),
{
    if s.len() == 0 {
        a.zero
    } else {
        a.add(a.mul(value(s.drop_last(), x, a), x), s.last())
    }
}

/// `(A + B) + (C + D) == (A + C) + (B + D)`.
pub proof fn add_swap_middle<T>(a: ArithSpec<T>, w: T, x: T, y: T, z: T)
    requires
        is_field(a),
    ensures
        a.add(a.add(w, x), a.add(y, z)) == a.add(a.add(w, y), a.add(x, z)),
{
    add_assoc(a, w, x, a.add(y, z));
    add_assoc(a, x, y, z);
    add_comm(a, x, y);
    add_assoc(a, y, x, z);
    add_assoc(a, w, y, a.add(x, z));
}

/// The value of all-zero coefficients is zero.
pub proof fn lemma_value_all_zero<T>(s: Seq<T>, x: T, a: ArithSpec<T>)
    requires
        is_field(a),
        all_zero(s, a),
    ensures
        value(s, x, a) == a.zero,
    decreases s.len(),
{
    if s.len() > 0 {
        let t = s.drop_last();
        assert(all_zero(t, a)) by {
            assert forall|i: int| 0 <= i < t.len() implies (a.is_zero)(#[trigger] t[i]) by {
                assert(t[i] == s[i]);
            }
        }
        lemma_value_all_zero(t, x, a);
        zero_test(a, s.last());
        mul_zero(a, x);
        add_zero(a, a.zero);
    }
}

/// Coefficients that pass the zero test at the front do not change the value.
pub proof fn lemma_value_skip_zeros<T>(s: Seq<T>, k: int, x: T, a: ArithSpec<T>)
    requires
        is_field(a),
        0 <= k <= s.len(),
        forall|j: int| 0 <= j < k ==> (a.is_zero)(#[trigger] s[j]),
    ensures
        value(s, x, a) == value(s.skip(k), x, a),
    decreases s.len(),
{
    if k == s.len() {
        assert(all_zero(s, a));
        lemma_value_all_zero(s, x, a);
        assert(s.skip(k).len() == 0);
    } else {
        let t = s.drop_last();
        lemma_value_skip_zeros(t, k, x, a);
        assert(t.skip(k) =~= s.skip(k).drop_last());
        assert(s.skip(k).last() == s.last());
    }
}

/// Trimming does not change the value.
pub proof fn lemma_value_trimmed<T>(s: Seq<T>, x: T, a: ArithSpec<T>)
    requires
        is_field(a),
    ensures
        value(trimmed(s, a), x, a) == value(s, x, a),
{
    lemma_leading_zeros(s, a);
    let k = leading_zeros(s, a);
    if k == s.len() {
        lemma_value_all_zero(s, x, a);
        let z = seq![a.zero];
        assert(z.drop_last() =~= Seq::<T>::empty());
        assert(value(z.drop_last(), x, a) == a.zero);
        mul_zero(a, x);
        add_zero(a, a.zero);
        assert(value(z, x, a) == a.add(a.mul(a.zero, x), a.zero));
    } else {
        lemma_value_skip_zeros(s, k as int, x, a);
    }
}

/// Combining `s` into the last entries of `r` by addition adds the values;
/// by subtraction, subtracts them.
pub proof fn lemma_value_combine<T>(r: Seq<T>, s: Seq<T>, o: Op, x: T, a: ArithSpec<T>)
    requires
        is_field(a),
        s.len() <= r.len(),
        o == Op::Add || o == Op::Sub,
    ensures
        value(combine_aligned(r, s, o, a), x, a) == (a.op)(o, value(r, x, a), value(s, x, a)),
    decreases s.len(),
{
    let c = combine_aligned(r, s, o, a);
    if s.len() == 0 {
        assert(c =~= r);
        add_zero(a, value(r, x, a));
        sub_zero(a, value(r, x, a));
    } else {
        let r1 = r.drop_last();
        let s1 = s.drop_last();
        assert(c.drop_last() =~= combine_aligned(r1, s1, o, a));
        lemma_value_combine(r1, s1, o, x, a);
        let vr = value(r1, x, a);
        let vs = value(s1, x, a);
        let rl = r.last();
        let sl = s.last();
        assert(c.last() == (a.op)(o, rl, sl));
        if o == Op::Add {
            distrib(a, x, vr, vs);
            add_swap_middle(a, a.mul(vr, x), a.mul(vs, x), rl, sl);
        } else {
            let nvs = (a.neg)(vs);
            sub_is_add_neg(a, vr, vs);
            sub_is_add_neg(a, rl, sl);
            distrib(a, x, vr, nvs);
            neg_mul(a, vs, x);
            add_swap_middle(a, a.mul(vr, x), a.mul(nvs, x), rl, (a.neg)(sl));
            neg_add(a, a.mul(vs, x), sl);
            sub_is_add_neg(a, value(r, x, a), value(s, x, a));
        }
    }
}

/// Scaling every coefficient scales the value.
pub proof fn lemma_value_times_scalar<T>(s: Seq<T>, k: T, x: T, a: ArithSpec<T>)
    requires
        is_field(a),
    ensures
        value(times_scalar(s, k, a), x, a) == a.mul(value(s, x, a), k),
    decreases s.len(),
{
    let t = times_scalar(s, k, a);
    if s.len() == 0 {
        mul_zero(a, k);
    } else {
        let s1 = s.drop_last();
        assert(t.drop_last() =~= times_scalar(s1, k, a));
        lemma_value_times_scalar(s1, k, x, a);
        let v = value(s1, x, a);
        // (v*k)*x + l*k == (v*x + l)*k
        mul_assoc(a, v, k, x);
        mul_comm(a, k, x);
        mul_assoc(a, v, x, k);
        distrib(a, k, a.mul(v, x), s.last());
    }
}

/// Negating every coefficient negates the value.
pub proof fn lemma_value_neg<T>(s: Seq<T>, x: T, a: ArithSpec<T>)
    requires
        is_field(a),
    ensures
        value(neg_of(s, a), x, a) == (a.neg)(value(s, x, a)),
    decreases s.len(),
{
    let t = neg_of(s, a);
    if s.len() == 0 {
        neg_zero(a);
    } else {
        let s1 = s.drop_last();
        assert(t.drop_last() =~= neg_of(s1, a));
        lemma_value_neg(s1, x, a);
        let v = value(s1, x, a);
        neg_mul(a, v, x);
        neg_add(a, a.mul(v, x), s.last());
    }
}

/// Appending `n` zero coefficients multiplies the value by `x^n`.
pub proof fn lemma_value_pad<T>(s: Seq<T>, n: nat, x: T, a: ArithSpec<T>)
    requires
        is_field(a),
    ensures
        value(s + Seq::new(n, |i: int| a.zero), x, a) == a.mul(value(s, x, a), pow(x, n, a)),
    decreases n,
{
    let t = s + Seq::new(n, |i: int| a.zero);
    if n == 0 {
        assert(t =~= s);
        mul_one(a, value(s, x, a));
    } else {
        let t1 = s + Seq::new((n - 1) as nat, |i: int| a.zero);
        assert(t.drop_last() =~= t1);
        lemma_value_pad(s, (n - 1) as nat, x, a);
        add_zero(a, a.mul(value(t1, x, a), x));
        mul_assoc(a, value(s, x, a), pow(x, (n - 1) as nat, a), x);
    }
}

/// Setting a zero coefficient to `c` adds `c` times the power it stands for.
pub proof fn lemma_value_update<T>(s: Seq<T>, j: int, c: T, x: T, a: ArithSpec<T>)
    requires
        is_field(a),
        0 <= j < s.len(),
        s[j] == a.zero,
    ensures
        value(s.update(j, c), x, a) == a.add(
            value(s, x, a),
            a.mul(c, pow(x, (s.len() - 1 - j) as nat, a)),
        ),
    decreases s.len(),
{
    let u = s.update(j, c);
    let s1 = s.drop_last();
    let v = value(s1, x, a);
    if j == s.len() - 1 {
        assert(u.drop_last() =~= s1);
        add_zero(a, a.mul(v, x));
        mul_one(a, c);
    } else {
        assert(u.drop_last() =~= s1.update(j, c));
        lemma_value_update(s1, j, c, x, a);
        let p = pow(x, (s1.len() - 1 - j) as nat, a);
        let m = a.mul(c, p);
        // ((v + m) * x) + l == (v * x + l) + m * x
        distrib(a, x, v, m);
        mul_comm(a, x, v);
        mul_comm(a, x, m);
        mul_assoc(a, c, p, x);
        assert(pow(x, (s.len() - 1 - j) as nat, a) == a.mul(p, x));
        add_assoc(a, a.mul(v, x), a.mul(m, x), s.last());
        add_comm(a, a.mul(m, x), s.last());
        add_assoc(a, a.mul(v, x), s.last(), a.mul(m, x));
    }
}

/// Rows beyond the first `x'.len()` of `x` are all that `conv` reads of `x`.
pub proof fn lemma_conv_prefix<T>(x: Seq<T>, x1: Seq<T>, y: Seq<T>, k: int, i: nat, a: ArithSpec<T>)
    requires
        i <= x1.len(),
        x1.len() <= x.len(),
        forall|j: int| 0 <= j < x1.len() ==> x1[j] == x[j],
    ensures
        conv(x, y, k, i, a) == conv(x1, y, k, i, a),
    decreases i,
{
    if i > 0 {
        lemma_conv_prefix(x, x1, y, k, (i - 1) as nat, a);
    }
}

/// Coefficient `k` of a product gets no term from the first `i` rows when
/// `k` lies beyond all of them.
pub proof fn lemma_conv_beyond<T>(x: Seq<T>, y: Seq<T>, k: int, i: nat, a: ArithSpec<T>)
    requires
        k >= i + y.len() - 1,
    ensures
        conv(x, y, k, i, a) == a.zero,
    decreases i,
{
    if i > 0 {
        lemma_conv_beyond(x, y, k, (i - 1) as nat, a);
    }
}

/// Multiplying `y` by `x = x' s + c` gives `(x' y) s + c y`.
pub proof fn lemma_product_split<T>(x: Seq<T>, y: Seq<T>, a: ArithSpec<T>)
    requires
        x.len() >= 2,
        y.len() >= 1,
    ensures
        product_terms(x, y, a) =~= combine_aligned(
            product_terms(x.drop_last(), y, a).push(a.zero),
            y.map_values(|b: T| a.mul(x.last(), b)),
            Op::Add,
            a,
        ),
{
    let x1 = x.drop_last();
    let p = product_terms(x, y, a);
    let r = product_terms(x1, y, a).push(a.zero);
    let cy = y.map_values(|b: T| a.mul(x.last(), b));
    let c = combine_aligned(r, cy, Op::Add, a);
    assert forall|k: int| 0 <= k < p.len() implies p[k] == c[k] by {
        lemma_conv_prefix(x, x1, y, k, x1.len(), a);
        if k == p.len() - 1 {
            lemma_conv_beyond(x1, y, k, x1.len(), a);
        }
    }
}

/// Multiplying `y` by the constant `[c]` scales every coefficient.
pub proof fn lemma_product_constant<T>(x: Seq<T>, y: Seq<T>, a: ArithSpec<T>)
    requires
        x.len() == 1,
        y.len() >= 1,
    ensures
        product_terms(x, y, a) =~= combine_aligned(
            Seq::new(y.len(), |i: int| a.zero),
            y.map_values(|b: T| a.mul(x.last(), b)),
            Op::Add,
            a,
        ),
{
    let p = product_terms(x, y, a);
    let c = combine_aligned(
        Seq::new(y.len(), |i: int| a.zero),
        y.map_values(|b: T| a.mul(x.last(), b)),
        Op::Add,
        a,
    );
    assert forall|k: int| 0 <= k < p.len() implies p[k] == c[k] by {
        assert(conv(x, y, k, 0, a) == a.zero);
        assert(conv(x, y, k, 1, a) == a.add(a.zero, a.mul(x[0], y[k])));
    }
}

/// Multiplying every coefficient by `c` on the left multiplies the value by `c`.
pub proof fn lemma_value_scalar_left<T>(y: Seq<T>, c: T, x: T, a: ArithSpec<T>)
    requires
        is_field(a),
    ensures
        value(y.map_values(|b: T| a.mul(c, b)), x, a) == a.mul(c, value(y, x, a)),
    decreases y.len(),
{
    let t = y.map_values(|b: T| a.mul(c, b));
    if y.len() == 0 {
        mul_zero(a, c);
    } else {
        let y1 = y.drop_last();
        assert(t.drop_last() =~= y1.map_values(|b: T| a.mul(c, b)));
        lemma_value_scalar_left(y1, c, x, a);
        let v = value(y1, x, a);
        mul_assoc(a, c, v, x);
        distrib(a, c, a.mul(v, x), y.last());
    }
}

/// Appending one zero coefficient multiplies the value by `x`.
pub proof fn lemma_value_push_zero<T>(s: Seq<T>, x: T, a: ArithSpec<T>)
    requires
        is_field(a),
    ensures
        value(s.push(a.zero), x, a) == a.mul(value(s, x, a), x),
{
    assert(s.push(a.zero).drop_last() =~= s);
    add_zero(a, a.mul(value(s, x, a), x));
}

/// The value of the product coefficients is the product of the values.
pub proof fn lemma_value_product<T>(x: Seq<T>, y: Seq<T>, p: T, a: ArithSpec<T>)
    requires
        is_field(a),
        x.len() >= 1,
        y.len() >= 1,
    ensures
        value(product_terms(x, y, a), p, a) == a.mul(value(x, p, a), value(y, p, a)),
    decreases x.len(),
{
    let c = x.last();
    let cy = y.map_values(|b: T| a.mul(c, b));
    let vy = value(y, p, a);
    lemma_value_scalar_left(y, c, p, a);
    if x.len() == 1 {
        lemma_product_constant(x, y, a);
        let z = Seq::new(y.len(), |i: int| a.zero);
        lemma_value_combine(z, cy, Op::Add, p, a);
        zero_test(a, a.zero);
        lemma_value_all_zero(z, p, a);
        add_zero(a, a.mul(c, vy));
        assert(x.drop_last() =~= Seq::<T>::empty());
        assert(value(x.drop_last(), p, a) == a.zero);
        mul_zero(a, p);
        add_zero(a, c);
    } else {
        let x1 = x.drop_last();
        lemma_product_split(x, y, a);
        let r = product_terms(x1, y, a).push(a.zero);
        lemma_value_combine(r, cy, Op::Add, p, a);
        lemma_value_push_zero(product_terms(x1, y, a), p, a);
        lemma_value_product(x1, y, p, a);
        let vx1 = value(x1, p, a);
        // (vx1 * vy) * p + c * vy == (vx1 * p + c) * vy
        mul_assoc(a, vx1, vy, p);
        mul_comm(a, vy, p);
        mul_assoc(a, vx1, p, vy);
        distrib(a, vy, a.mul(vx1, p), c);
    }
}

/// `(A * B) * (C * D) == (A * C) * (B * D)`.
pub proof fn mul_swap_middle<T>(a: ArithSpec<T>, w: T, x: T, y: T, z: T)
    requires
        is_field(a),
    ensures
        a.mul(a.mul(w, x), a.mul(y, z)) == a.mul(a.mul(w, y), a.mul(x, z)),
{
    mul_assoc(a, w, x, a.mul(y, z));
    mul_assoc(a, x, y, z);
    mul_comm(a, x, y);
    mul_assoc(a, y, x, z);
    mul_assoc(a, w, y, a.mul(x, z));
}

/// A non-zero factor cancels.
pub proof fn mul_cancel<T>(a: ArithSpec<T>, x: T, z: T, y: T)
    requires
        is_field(a),
        !(a.is_zero)(y),
        a.mul(x, y) == a.mul(z, y),
    ensures
        x == z,
{
    let iy = a.div(a.one, y);
    div_mul(a, a.one, y);
    mul_comm(a, iy, y);
    mul_assoc(a, x, y, iy);
    mul_assoc(a, z, y, iy);
    mul_one(a, x);
    mul_one(a, z);
}

/// A product of non-zero elements is not zero.
pub proof fn mul_nonzero<T>(a: ArithSpec<T>, x: T, y: T)
    requires
        is_field(a),
        !(a.is_zero)(x),
        !(a.is_zero)(y),
    ensures
        !(a.is_zero)(a.mul(x, y)),
{
    zero_test(a, a.mul(x, y));
    zero_test(a, x);
    if a.mul(x, y) == a.zero {
        mul_zero(a, y);
        mul_cancel(a, x, a.zero, y);
    }
}

/// `x / y` is the only `z` with `z * y == x`, for non-zero `y`.
pub proof fn div_unique<T>(a: ArithSpec<T>, x: T, y: T, z: T)
    requires
        is_field(a),
        !(a.is_zero)(y),
        a.mul(z, y) == x,
    ensures
        z == a.div(x, y),
{
    div_mul(a, x, y);
    mul_cancel(a, z, a.div(x, y), y);
}

} // verus!
