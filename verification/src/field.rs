//! The laws of exact arithmetic, and what follows from them for sums and
//! quotients.
//!
//! The evaluators compute with any scalar type. What they compute is a
//! partition of unity, and the like, where the arithmetic is exact: the laws
//! that this module states are what the proofs of such facts rest on.

use vstd::prelude::*;
use vstd::std_specs::ops::{AddSpec, SubSpec, MulSpec, DivSpec};
use vstd::std_specs::cmp::PartialEqSpec;
use crate::scalar::{Scalar, zero, one, is_zero, ratio};

verus! {

/// The operators of `T` obey the laws of a field: values are equal exactly
/// where they are the same; addition and multiplication are commutative
/// and associative, zero and one are neutral, zero annihilates, and
/// multiplication distributes over addition; subtraction undoes addition,
/// and differences add up; division by what is not zero undoes
/// multiplication and goes through a product, and zero divided is zero.
/// Exact number types obey these laws; rounding arithmetic does not.
#[verifier::opaque]
pub open spec fn field_laws<T: Scalar>() -> bool {
    &&& forall|a: T, b: T| #[trigger] a.eq_spec(&b) <==> a == b
    &&& forall|a: T, b: T| #[trigger] a.add_spec(b) == b.add_spec(a)
    &&& forall|a: T, b: T, c: T| #[trigger] a.add_spec(b).add_spec(c) == a.add_spec(b.add_spec(c))
    &&& forall|a: T| #[trigger] zero::<T>().add_spec(a) == a
    &&& forall|a: T, b: T| #[trigger] a.mul_spec(b) == b.mul_spec(a)
    &&& forall|a: T, b: T, c: T| #[trigger] a.mul_spec(b).mul_spec(c) == a.mul_spec(b.mul_spec(c))
    &&& forall|a: T| #[trigger] one::<T>().mul_spec(a) == a
    &&& forall|a: T| #[trigger] zero::<T>().mul_spec(a) == zero::<T>()
    &&& forall|a: T, b: T, c: T| #[trigger] a.mul_spec(c).add_spec(b.mul_spec(c)) == a.add_spec(b).mul_spec(c)
    &&& forall|a: T, b: T| #[trigger] a.sub_spec(b).add_spec(b) == a
    &&& forall|a: T| #[trigger] a.sub_spec(a) == zero::<T>()
    &&& forall|a: T, b: T, c: T| #[trigger] a.sub_spec(c).add_spec(c.sub_spec(b)) == a.sub_spec(b)
    &&& forall|a: T, b: T| !is_zero(b) ==> #[trigger] a.div_spec(b).mul_spec(b) == a
    &&& forall|a: T, b: T, c: T| !is_zero(c) ==> #[trigger] a.mul_spec(b).div_spec(c) == a.mul_spec(b.div_spec(c))
    &&& forall|a: T| !is_zero(a) ==> #[trigger] zero::<T>().div_spec(a) == zero::<T>()
}

/// The sum of the values, added one by one in their order, from zero.
pub open spec fn total_of<T: Scalar>(values: Seq<T>) -> T
    decreases values.len(),
{
    if values.len() == 0 {
        zero::<T>()
    } else {
        total_of(values.drop_last()).add_spec(values.last())
    }
}

/// Zero is neutral on both sides of a sum.
pub proof fn lemma_zero_is_neutral<T: Scalar>(a: T)
    requires
        field_laws::<T>(),
    ensures
        zero::<T>().add_spec(a) == a,
        a.add_spec(zero::<T>()) == a,
{
    reveal(field_laws);
}

/// Two sums of two terms each can be added term by term:
/// `(a + (x + y)) + z` is `(a + x) + (y + z)`.
pub proof fn lemma_sums_regroup<T: Scalar>(a: T, x: T, y: T, z: T)
    requires
        field_laws::<T>(),
    ensures
        a.add_spec(x.add_spec(y)).add_spec(z) == a.add_spec(x).add_spec(y.add_spec(z)),
{
    reveal(field_laws);
    assert(a.add_spec(x.add_spec(y)) == a.add_spec(x).add_spec(y));
    assert(a.add_spec(x).add_spec(y).add_spec(z) == a.add_spec(x).add_spec(y.add_spec(z)));
}

/// Two parts of one quotient make up the dividend where their weights make
/// up the divisor: `v * (a / d) + w * (a / d)` is `a` where `v + w` is `d` and
/// `d` is not zero.
pub proof fn lemma_parts_make_the_whole<T: Scalar>(v: T, w: T, a: T, d: T)
    requires
        field_laws::<T>(),
        v.add_spec(w) == d,
        !is_zero(d),
    ensures
        v.mul_spec(ratio(a, d)).add_spec(w.mul_spec(ratio(a, d))) == a,
{
    reveal(field_laws);
    let q = a.div_spec(d);
    assert(ratio(a, d) == q);
    assert(v.mul_spec(q).add_spec(w.mul_spec(q)) == v.add_spec(w).mul_spec(q));
    assert(d.mul_spec(q) == q.mul_spec(d));
}

/// The two shares `1 - u` and `u` of a value make up the value.
pub proof fn lemma_shares_make_the_value<T: Scalar>(u: T, a: T)
    requires
        field_laws::<T>(),
    ensures
        one::<T>().sub_spec(u).mul_spec(a).add_spec(u.mul_spec(a)) == a,
{
    reveal(field_laws);
    let u1 = one::<T>().sub_spec(u);
    assert(u1.mul_spec(a).add_spec(u.mul_spec(a)) == u1.add_spec(u).mul_spec(a));
    assert(u1.add_spec(u) == one::<T>());
}

/// A blend by the shares one and zero keeps the value that has the share
/// one: `(1 - 0) * a + 0 * b` is `a`, and `(1 - 1) * a + 1 * b` is `b`.
pub proof fn lemma_blend_at_the_ends<T: Scalar>(a: T, b: T)
    requires
        field_laws::<T>(),
    ensures
        one::<T>().sub_spec(zero::<T>()).mul_spec(a).add_spec(zero::<T>().mul_spec(b)) == a,
        one::<T>().sub_spec(one::<T>()).mul_spec(a).add_spec(one::<T>().mul_spec(b)) == b,
{
    reveal(field_laws);
    let o = one::<T>();
    let z = zero::<T>();
    assert(o.sub_spec(z).add_spec(z) == o);
    assert(o.sub_spec(z).add_spec(z) == z.add_spec(o.sub_spec(z)));
    assert(o.sub_spec(z) == o);
    assert(o.mul_spec(a).add_spec(z.mul_spec(b)) == a.add_spec(z));
    assert(a.add_spec(z) == z.add_spec(a));
    assert(o.sub_spec(o) == z);
    assert(z.mul_spec(a).add_spec(o.mul_spec(b)) == z.add_spec(b));
}

/// Only zero is equal to zero.
pub proof fn lemma_zero_is_zero<T: Scalar>(a: T)
    requires
        field_laws::<T>(),
    ensures
        is_zero(a) <==> a == zero::<T>(),
{
    reveal(field_laws);
}

/// A product with a quotient of zero vanishes, and adding it changes
/// nothing: `a + w * (0 / d)` is `a`, and `w * (0 / d)` is zero.
pub proof fn lemma_share_of_zero<T: Scalar>(a: T, w: T, d: T)
    requires
        field_laws::<T>(),
    ensures
        w.mul_spec(ratio(zero::<T>(), d)) == zero::<T>(),
        a.add_spec(w.mul_spec(ratio(zero::<T>(), d))) == a,
{
    reveal(field_laws);
    let z = zero::<T>();
    assert(ratio(z, d) == z);
    assert(w.mul_spec(z) == z.mul_spec(w));
    assert(a.add_spec(z) == z.add_spec(a));
}

/// The quotient of a product is the product with the quotient, with zero for
/// the quotient by zero: `(w * a) / d` is `w * (a / d)`.
pub proof fn lemma_ratio_of_product<T: Scalar>(w: T, a: T, d: T)
    requires
        field_laws::<T>(),
    ensures
        ratio(w.mul_spec(a), d) == w.mul_spec(ratio(a, d)),
{
    reveal(field_laws);
    let z = zero::<T>();
    if is_zero(d) {
        assert(w.mul_spec(z) == z.mul_spec(w));
    }
}

/// The distances of a value from two others add up to the distance of the
/// two: `(a - u) + (u - b)` is `a - b`.
pub proof fn lemma_distances_add_up<T: Scalar>(a: T, u: T, b: T)
    requires
        field_laws::<T>(),
    ensures
        a.sub_spec(u).add_spec(u.sub_spec(b)) == a.sub_spec(b),
{
    reveal(field_laws);
}

/// A sum weighted by the shares one and zero is the value that has the
/// share one: `a * (1 - 0) + b * 0` is `a`, and `a * (1 - 1) + b * 1` is `b`.
pub proof fn lemma_weights_at_the_ends<T: Scalar>(a: T, b: T)
    requires
        field_laws::<T>(),
    ensures
        a.mul_spec(one::<T>().sub_spec(zero::<T>())).add_spec(b.mul_spec(zero::<T>())) == a,
        a.mul_spec(one::<T>().sub_spec(one::<T>())).add_spec(b.mul_spec(one::<T>())) == b,
{
    lemma_blend_at_the_ends(a, b);
    lemma_products_commute(a, one::<T>().sub_spec(zero::<T>()));
    lemma_products_commute(b, zero::<T>());
    lemma_products_commute(a, one::<T>().sub_spec(one::<T>()));
    lemma_products_commute(b, one::<T>());
}

/// The factors of a product can change places.
pub proof fn lemma_products_commute<T: Scalar>(a: T, b: T)
    requires
        field_laws::<T>(),
    ensures
        a.mul_spec(b) == b.mul_spec(a),
{
    reveal(field_laws);
}

/// A product with zero adds nothing: `a * 0 + b` is `b`.
pub proof fn lemma_product_with_zero_adds_nothing<T: Scalar>(a: T, b: T)
    requires
        field_laws::<T>(),
    ensures
        a.mul_spec(zero::<T>()).add_spec(b) == b,
{
    lemma_products_commute(a, zero::<T>());
    lemma_zero_product(a);
    lemma_zero_is_neutral(b);
}

/// A product with zero is zero.
pub proof fn lemma_zero_product<T: Scalar>(a: T)
    requires
        field_laws::<T>(),
    ensures
        zero::<T>().mul_spec(a) == zero::<T>(),
{
    reveal(field_laws);
}

/// The factors of a product can be grouped either way.
pub proof fn lemma_products_associate<T: Scalar>(a: T, b: T, c: T)
    requires
        field_laws::<T>(),
    ensures
        a.mul_spec(b).mul_spec(c) == a.mul_spec(b.mul_spec(c)),
{
    reveal(field_laws);
}

/// A sum is multiplied term by term: `(a + b) * c` is `a * c + b * c`.
pub proof fn lemma_sum_times<T: Scalar>(a: T, b: T, c: T)
    requires
        field_laws::<T>(),
    ensures
        a.add_spec(b).mul_spec(c) == a.mul_spec(c).add_spec(b.mul_spec(c)),
{
    reveal(field_laws);
}

/// A value is multiplied with a sum term by term: `x * a + x * b` is
/// `x * (a + b)`.
pub proof fn lemma_times_sum<T: Scalar>(x: T, a: T, b: T)
    requires
        field_laws::<T>(),
    ensures
        x.mul_spec(a).add_spec(x.mul_spec(b)) == x.mul_spec(a.add_spec(b)),
{
    lemma_products_commute(x, a);
    lemma_products_commute(x, b);
    lemma_products_commute(x, a.add_spec(b));
    lemma_sum_times(a, b, x);
}

/// Two sums are added term by term: `(a + b) + (c + d)` is
/// `(a + c) + (b + d)`.
pub proof fn lemma_sums_interleave<T: Scalar>(a: T, b: T, c: T, d: T)
    requires
        field_laws::<T>(),
    ensures
        a.add_spec(b).add_spec(c.add_spec(d)) == a.add_spec(c).add_spec(b.add_spec(d)),
{
    lemma_sums_regroup(a, b, c, d);
    lemma_sums_regroup(a, c, b, d);
    lemma_sums_commute(b, c);
}

/// The terms of a sum can change places.
pub proof fn lemma_sums_commute<T: Scalar>(a: T, b: T)
    requires
        field_laws::<T>(),
    ensures
        a.add_spec(b) == b.add_spec(a),
{
    reveal(field_laws);
}

/// The terms of a sum can be grouped either way.
pub proof fn lemma_sums_associate<T: Scalar>(a: T, b: T, c: T)
    requires
        field_laws::<T>(),
    ensures
        a.add_spec(b).add_spec(c) == a.add_spec(b.add_spec(c)),
{
    reveal(field_laws);
}

/// One is neutral on both sides of a product.
pub proof fn lemma_one_is_neutral<T: Scalar>(a: T)
    requires
        field_laws::<T>(),
    ensures
        one::<T>().mul_spec(a) == a,
        a.mul_spec(one::<T>()) == a,
{
    reveal(field_laws);
}

} // verus!
