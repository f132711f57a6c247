//! Bernstein polynomials, the basis functions of Bezier curves.

use vstd::prelude::*;
use vstd::std_specs::ops::{AddSpec, SubSpec, MulSpec};
use crate::error::EvalError;
use crate::scalar::{Scalar, total, faithful, zero, one, from_whole, filled};
use crate::field::{
    field_laws,
    total_of,
    lemma_zero_is_neutral,
    lemma_sums_regroup,
    lemma_shares_make_the_value,
    lemma_blend_at_the_ends,
};

verus! {

/// The entry `j` of the table of [`compute_bernstein`] after `k` passes.
///
/// Before the first pass the entry `n - i` is one and the others are zero.
/// The pass `k` blends every entry from `k` on with the entry before it, by
/// `1 - u` and `u`; the entries below `k` stay.
pub open spec fn blend<T: Scalar>(u: T, n: int, i: int, j: int, k: nat) -> T
    decreases k,
{
    if k == 0 {
        if j == n - i {
            one::<T>()
        } else {
            zero::<T>()
        }
    } else if j < k {
        blend(u, n, i, j, (k - 1) as nat)
    } else {
        one::<T>().sub_spec(u).mul_spec(blend(u, n, i, j, (k - 1) as nat)).add_spec(
            u.mul_spec(blend(u, n, i, j - 1, (k - 1) as nat)),
        )
    }
}

/// The value at `u` of the Bernstein polynomial `i` of degree `n`.
pub open spec fn bernstein_value<T: Scalar>(i: int, n: int, u: T) -> T {
    blend(u, n, i, n, n as nat)
}

/// Computes the value at `u` of the Bernstein polynomial `i` of degree `n`.
///
/// A table of `n + 1` entries starts as zero but for a one at `n - i`; `n`
/// passes blend each entry with the entry before it, by `1 - u` and `u`, the
/// pass `k` from the last entry down to the entry `k`. The last entry is the
/// result.
///
/// The call is refused with `Index` where `i` exceeds `n`.
pub fn compute_bernstein<T: Scalar>(i: usize, n: usize, u: T) -> (r: Result<T, EvalError>)
    requires
        total::<T>(),
        n < usize::MAX,
    ensures
        r is Ok <==> i <= n,
        r is Err ==> r == Err::<T, EvalError>(EvalError::Index),
        r matches Ok(value) ==> (faithful::<T>() ==> value == bernstein_value(i as int, n as int, u)),
{
    if i > n {
        return Err(EvalError::Index);
    }
    let nothing: T = from_whole(0);
    let unit: T = from_whole(1);
    let mut table: Vec<T> = filled(n + 1, nothing);
    table[n - i] = unit;
    let u1: T = unit - u;
    let mut k: usize = 1;
    while k <= n
        invariant
            total::<T>(),
            1 <= k <= n + 1,
            i <= n < usize::MAX,
            table@.len() == n + 1,
            faithful::<T>() ==> u1 == one::<T>().sub_spec(u),
            faithful::<T>() ==> forall|j: int|
                0 <= j <= n ==> #[trigger] table@[j] == blend(u, n as int, i as int, j, (k - 1) as nat),
        decreases n + 1 - k,
    {
        let ghost before = table@;
        let mut j: usize = n;
        while j >= k
            invariant
                total::<T>(),
                1 <= k <= n,
                k - 1 <= j <= n,
                table@.len() == n + 1,
                before.len() == n + 1,
                faithful::<T>() ==> u1 == one::<T>().sub_spec(u),
                faithful::<T>() ==> forall|t: int|
                    0 <= t <= n ==> #[trigger] before[t] == blend(u, n as int, i as int, t, (k - 1) as nat),
                forall|t: int| 0 <= t <= j ==> #[trigger] table@[t] == before[t],
                faithful::<T>() ==> forall|t: int|
                    j < t <= n ==> #[trigger] table@[t] == blend(u, n as int, i as int, t, k as nat),
            decreases j,
        {
            table[j] = u1 * table[j] + u * table[j - 1];
            j -= 1;
        }
        k += 1;
    }
    Ok(table[n])
}

/// The value at `u` of the Bernstein polynomial `k` of degree `j`, as
/// [`all_bernstein`] forms it from the polynomials `k - 1` and `k` of degree
/// `j - 1`: the first times `u`, the second times `1 - u`. The outermost
/// polynomials have one part only.
pub open spec fn bernstein_step<T: Scalar>(u: T, j: nat, k: int) -> T
    decreases j,
{
    if k < 0 || k > j {
        zero::<T>()
    } else if j == 0 {
        one::<T>()
    } else {
        let rising = u.mul_spec(bernstein_step(u, (j - 1) as nat, k - 1));
        let falling = one::<T>().sub_spec(u).mul_spec(bernstein_step(u, (j - 1) as nat, k));
        if k == 0 {
            zero::<T>().add_spec(falling)
        } else if k == j {
            rising
        } else {
            rising.add_spec(falling)
        }
    }
}

/// Computes the values at `u` of all `n + 1` Bernstein polynomials of degree
/// `n`; the entry `k` of the result is the value of the polynomial `k`.
///
/// The values are built degree by degree from the one polynomial of degree
/// 0, each degree in place from the one before.
pub fn all_bernstein<T: Scalar>(n: usize, u: T) -> (table: Vec<T>)
    requires
        total::<T>(),
        n < usize::MAX,
    ensures
        table@.len() == n + 1,
        faithful::<T>() ==> forall|k: int| 0 <= k <= n ==> #[trigger] table@[k] == bernstein_step(u, n as nat, k),
{
    let nothing: T = from_whole(0);
    let unit: T = from_whole(1);
    let mut table: Vec<T> = filled(n + 1, unit);
    let u1: T = unit - u;
    let mut j: usize = 1;
    while j <= n
        invariant
            total::<T>(),
            1 <= j <= n + 1,
            n < usize::MAX,
            table@.len() == n + 1,
            faithful::<T>() ==> nothing == zero::<T>() && unit == one::<T>(),
            faithful::<T>() ==> u1 == one::<T>().sub_spec(u),
            faithful::<T>() ==> forall|k: int|
                0 <= k < j ==> #[trigger] table@[k] == bernstein_step(u, (j - 1) as nat, k),
        decreases n + 1 - j,
    {
        let ghost before = table@;
        let mut saved: T = nothing;
        let mut k: usize = 0;
        while k < j
            invariant
                total::<T>(),
                0 <= k <= j <= n,
                table@.len() == n + 1,
                before.len() == n + 1,
                faithful::<T>() ==> nothing == zero::<T>(),
                faithful::<T>() ==> u1 == one::<T>().sub_spec(u),
                faithful::<T>() ==> forall|t: int|
                    0 <= t < j ==> #[trigger] before[t] == bernstein_step(u, (j - 1) as nat, t),
                forall|t: int| k <= t <= n ==> #[trigger] table@[t] == before[t],
                faithful::<T>() ==> forall|t: int|
                    0 <= t < k ==> #[trigger] table@[t] == bernstein_step(u, j as nat, t),
                faithful::<T>() ==> saved == if k == 0 {
                    zero::<T>()
                } else {
                    u.mul_spec(bernstein_step(u, (j - 1) as nat, k - 1))
                },
            decreases j - k,
        {
            let temp: T = table[k];
            table[k] = saved + u1 * temp;
            saved = u * temp;
            k += 1;
        }
        table[j] = saved;
        j += 1;
    }
    table
}

/// At the parameter zero no pass changes the table.
proof fn lemma_passes_at_zero<T: Scalar>(n: int, i: int, j: int, k: nat)
    requires
        field_laws::<T>(),
    ensures
        blend(zero::<T>(), n, i, j, k) == blend(zero::<T>(), n, i, j, 0),
    decreases k,
{
    if k > 0 {
        lemma_passes_at_zero::<T>(n, i, j, (k - 1) as nat);
        if j >= k {
            lemma_blend_at_the_ends(
                blend(zero::<T>(), n, i, j, (k - 1) as nat),
                blend(zero::<T>(), n, i, j - 1, (k - 1) as nat),
            );
        }
    }
}

/// At the parameter one a pass moves every entry that it blends up by one
/// place.
proof fn lemma_passes_at_one<T: Scalar>(n: int, i: int, j: int, k: nat)
    requires
        field_laws::<T>(),
        j >= k,
    ensures
        blend(one::<T>(), n, i, j, k) == blend(one::<T>(), n, i, j - k, 0),
    decreases k,
{
    if k > 0 {
        lemma_passes_at_one::<T>(n, i, j - 1, (k - 1) as nat);
        lemma_blend_at_the_ends(
            blend(one::<T>(), n, i, j, (k - 1) as nat),
            blend(one::<T>(), n, i, j - 1, (k - 1) as nat),
        );
    }
}

/// At the ends of the interval one Bernstein polynomial is one and the
/// others vanish: at zero the polynomial 0 is one, at one the polynomial
/// `n`. So the polynomial 0 of a degree of 1 at least is one at zero and zero
/// at one. This holds for a scalar type that obeys the laws of a field; the
/// values are those that [`compute_bernstein`] returns.
pub proof fn lemma_bernstein_at_the_ends<T: Scalar>(i: int, n: int)
    requires
        field_laws::<T>(),
        0 <= i <= n,
    ensures
        bernstein_value(i, n, zero::<T>()) == if i == 0 {
            one::<T>()
        } else {
            zero::<T>()
        },
        bernstein_value(i, n, one::<T>()) == if i == n {
            one::<T>()
        } else {
            zero::<T>()
        },
{
    lemma_passes_at_zero::<T>(n, i, n, n as nat);
    lemma_passes_at_one::<T>(n, i, n, n as nat);
}

/// The sum of the first `count` Bernstein polynomials of degree `j`, added
/// in their order.
pub open spec fn bernstein_sum<T: Scalar>(u: T, j: nat, count: nat) -> T
    decreases count,
{
    if count == 0 {
        zero::<T>()
    } else {
        bernstein_sum(u, j, (count - 1) as nat).add_spec(bernstein_step(u, j, count - 1))
    }
}

/// The first `c + 1` polynomials of degree `j` and the rising part of the
/// next one add up to the first `c + 1` polynomials of the degree below.
proof fn lemma_bernstein_sum_with_carry<T: Scalar>(u: T, j: nat, c: nat)
    requires
        field_laws::<T>(),
        1 <= j,
        c < j,
    ensures
        bernstein_sum(u, j, c + 1).add_spec(u.mul_spec(bernstein_step(u, (j - 1) as nat, c as int)))
            == bernstein_sum(u, (j - 1) as nat, c + 1),
    decreases c,
{
    let below = bernstein_step(u, (j - 1) as nat, c as int);
    let fall = one::<T>().sub_spec(u).mul_spec(below);
    let next = u.mul_spec(below);
    lemma_shares_make_the_value(u, below);
    if c == 0 {
        assert(bernstein_sum(u, j, 0) == zero::<T>());
        assert(bernstein_sum(u, (j - 1) as nat, 0) == zero::<T>());
        assert(bernstein_step(u, j, 0) == zero::<T>().add_spec(fall));
        lemma_zero_is_neutral(fall);
        lemma_zero_is_neutral(below);
        assert(bernstein_sum(u, j, 1) == zero::<T>().add_spec(fall));
        assert(bernstein_sum(u, (j - 1) as nat, 1) == zero::<T>().add_spec(below));
    } else {
        lemma_bernstein_sum_with_carry(u, j, (c - 1) as nat);
        let before = bernstein_sum(u, j, c);
        let rise = u.mul_spec(bernstein_step(u, (j - 1) as nat, c - 1));
        assert(bernstein_step(u, j, c as int) == rise.add_spec(fall));
        lemma_sums_regroup(before, rise, fall, next);
    }
}

/// The Bernstein polynomials of one degree add up to one.
proof fn lemma_bernstein_sum_is_one<T: Scalar>(u: T, j: nat)
    requires
        field_laws::<T>(),
    ensures
        bernstein_sum(u, j, j + 1) == one::<T>(),
    decreases j,
{
    if j == 0 {
        lemma_zero_is_neutral(one::<T>());
        assert(bernstein_sum(u, 0, 0) == zero::<T>());
        assert(bernstein_step(u, 0, 0) == one::<T>());
    } else {
        lemma_bernstein_sum_is_one(u, (j - 1) as nat);
        lemma_bernstein_sum_with_carry(u, j, (j - 1) as nat);
        assert(bernstein_step(u, j, j as int) == u.mul_spec(bernstein_step(u, (j - 1) as nat, j - 1)));
    }
}

/// The entries of the table add up as the polynomials do.
proof fn lemma_total_is_bernstein_sum<T: Scalar>(u: T, n: nat, values: Seq<T>, count: nat)
    requires
        values.len() == n + 1,
        count <= n + 1,
        forall|k: int| 0 <= k <= n ==> #[trigger] values[k] == bernstein_step(u, n, k),
    ensures
        total_of(values.take(count as int)) == bernstein_sum(u, n, count),
    decreases count,
{
    if count > 0 {
        lemma_total_is_bernstein_sum(u, n, values, (count - 1) as nat);
        assert(values.take(count as int).drop_last() =~= values.take(count - 1));
        assert(values.take(count as int).last() == values[count - 1]);
    }
}

/// Partition of unity: the Bernstein polynomials of degree `n` add up to one
/// at every parameter, for a scalar type that obeys the laws of a field. The
/// values are those that [`all_bernstein`] returns.
pub proof fn lemma_all_bernstein_sums_to_one<T: Scalar>(u: T, n: nat, values: Seq<T>)
    requires
        field_laws::<T>(),
        values.len() == n + 1,
        forall|k: int| 0 <= k <= n ==> #[trigger] values[k] == bernstein_step(u, n, k),
    ensures
        total_of(values) == one::<T>(),
{
    lemma_bernstein_sum_is_one(u, n);
    lemma_total_is_bernstein_sum(u, n, values, n + 1);
    assert(values.take((n + 1) as int) =~= values);
}

} // verus!
