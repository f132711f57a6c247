//! Knot vectors and the location of the span that holds a parameter.

use vstd::prelude::*;
use crate::binary64::Binary64;
use crate::error::EvalError;

verus! {

/// Every entry stands for a real number.
pub open spec fn all_finite(knots: Seq<Binary64>) -> bool {
    forall|i: int| 0 <= i < knots.len() ==> (#[trigger] knots[i]).finite()
}

/// The values never go down from one entry to a later one.
pub open spec fn non_decreasing(knots: Seq<Binary64>) -> bool {
    forall|i: int, j: int|
        0 <= i <= j < knots.len() ==> (#[trigger] knots[i]).value() <= (#[trigger] knots[j]).value()
}

/// A knot vector: a non-decreasing sequence of real numbers.
pub open spec fn valid_knots(knots: Seq<Binary64>) -> bool {
    all_finite(knots) && non_decreasing(knots)
}

/// The values of the first `end` entries never go down from one entry to the
/// next.
pub open spec fn stepwise_non_decreasing(knots: Seq<Binary64>, end: int) -> bool {
    forall|i: int| 0 < i < end ==> knots[i - 1].value() <= (#[trigger] knots[i]).value()
}

/// Values that never go down from one entry to the next never go down from
/// an entry to a later one.
proof fn lemma_steps_give_order(knots: Seq<Binary64>, i: int, j: int)
    requires
        stepwise_non_decreasing(knots, knots.len() as int),
        0 <= i <= j < knots.len(),
    ensures
        knots[i].value() <= knots[j].value(),
    decreases j - i,
{
    if i < j {
        lemma_steps_give_order(knots, i, j - 1);
        assert(knots[j - 1].value() <= knots[j].value());
    }
}

/// Whether `knots` is a knot vector.
pub fn knots_are_valid(knots: &Vec<Binary64>) -> (ok: bool)
    ensures
        ok == valid_knots(knots@),
{
    let mut i: usize = 0;
    while i < knots.len()
        invariant
            i <= knots.len(),
            forall|k: int| 0 <= k < i ==> (#[trigger] knots@[k]).finite(),
            stepwise_non_decreasing(knots@, i as int),
        decreases knots.len() - i,
    {
        if !knots[i].is_finite() {
            return false;
        }
        if i > 0 && !knots[i - 1].le(&knots[i]) {
            return false;
        }
        i += 1;
    }
    proof {
        assert forall|a: int, b: int| 0 <= a <= b < knots@.len() implies (#[trigger] knots@[a]).value()
            <= (#[trigger] knots@[b]).value() by {
            lemma_steps_give_order(knots@, a, b);
        }
    }
    true
}

/// `i` is the span of `u` among the control points `p..=n`: the knots at `i`
/// and `i + 1` enclose `u`, the left one included; and a `u` on the knot at
/// `n + 1`, the right end of the domain, belongs to the last span, `n`.
pub open spec fn is_span(knots: Seq<Binary64>, n: int, p: int, u: Binary64, i: int) -> bool {
    &&& p <= i <= n
    &&& if u.value() == knots[n + 1].value() {
        i == n
    } else {
        knots[i].value() <= u.value() < knots[i + 1].value()
    }
}

/// The arguments of a span search fit one another: the degree is at most the
/// index of the last control point, and the knot after that index exists.
pub open spec fn span_indices_fit(n: int, p: int, knot_count: int) -> bool {
    p <= n && n + 1 < knot_count
}

/// The parameter can be located: the knots form a knot vector and `u` is a
/// real number between the knots at `p` and at `n + 1`, both included.
pub open spec fn span_domain_holds(knots: Seq<Binary64>, n: int, p: int, u: Binary64) -> bool {
    &&& valid_knots(knots)
    &&& u.finite()
    &&& knots[p].value() <= u.value() <= knots[n + 1].value()
}

/// A parameter has one span only.
pub proof fn lemma_span_is_unique(knots: Seq<Binary64>, n: int, p: int, u: Binary64, i: int, j: int)
    requires
        0 <= p,
        n + 1 < knots.len(),
        non_decreasing(knots),
        is_span(knots, n, p, u, i),
        is_span(knots, n, p, u, j),
    ensures
        i == j,
{
    if u.value() != knots[n + 1].value() {
        if i < j {
            assert(knots[i + 1].value() <= knots[j].value());
        }
        if j < i {
            assert(knots[j + 1].value() <= knots[i].value());
        }
    }
}

/// Finds the span of the parameter `u` for degree `p`, where `n` is the index
/// of the last control point: the index `i` in `p..=n` with
/// `knots[i] <= u < knots[i + 1]`, and `n` for a `u` on `knots[n + 1]`.
///
/// The search bisects the knots between `p` and `n + 1`. It is refused with
/// `Index` where `p > n` or the knot at `n + 1` does not exist, and else with
/// `Domain` where the knots are no knot vector or `u` lies outside
/// `knots[p]..=knots[n + 1]`.
pub fn find_span(n: usize, p: usize, u: Binary64, knots: Vec<Binary64>) -> (r: Result<usize, EvalError>)
    ensures
        r is Ok <==> span_indices_fit(n as int, p as int, knots@.len() as int) && span_domain_holds(
            knots@,
            n as int,
            p as int,
            u,
        ),
        r == Err::<usize, EvalError>(EvalError::Index) <==> !span_indices_fit(n as int, p as int, knots@.len() as int),
        r == Err::<usize, EvalError>(EvalError::Domain) <==> span_indices_fit(n as int, p as int, knots@.len() as int)
            && !span_domain_holds(knots@, n as int, p as int, u),
        r matches Ok(i) ==> is_span(knots@, n as int, p as int, u, i as int),
        r is Ok && u.value() == knots@[n + 1].value() ==> r == Ok::<usize, EvalError>(n),
{
    if p > n || n >= knots.len() || n + 1 >= knots.len() {
        return Err(EvalError::Index);
    }
    if !knots_are_valid(&knots) || !u.is_finite() {
        return Err(EvalError::Domain);
    }
    if !knots[p].le(&u) || !u.le(&knots[n + 1]) {
        return Err(EvalError::Domain);
    }
    if u.same_value(&knots[n + 1]) {
        return Ok(n);
    }
    let mut low: usize = p;
    let mut high: usize = n + 1;
    let mut mid: usize = low + (high - low) / 2;
    while u.lt(&knots[mid]) || !u.lt(&knots[mid + 1])
        invariant
            valid_knots(knots@),
            u.finite(),
            p <= low <= mid < high <= n + 1,
            n + 1 < knots@.len(),
            mid == low + (high - low) / 2,
            knots@[low as int].value() <= u.value() < knots@[high as int].value(),
        decreases high - low,
    {
        if u.lt(&knots[mid]) {
            high = mid;
        } else {
            low = mid;
        }
        mid = low + (high - low) / 2;
    }
    Ok(mid)
}

} // verus!
