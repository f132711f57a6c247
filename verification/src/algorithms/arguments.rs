//! What the basis function evaluators check before they compute.

use vstd::prelude::*;
use crate::binary64::Binary64;
use crate::error::EvalError;
use crate::algorithms::basis_function::window_fits;
use crate::algorithms::knot_span::{valid_knots, knots_are_valid, is_span, span_domain_holds};

verus! {

/// Degree and span fit the knots, and both ends of the span exist.
pub open spec fn basis_indices_fit(span: int, p: int, knot_count: int) -> bool {
    window_fits(span, p, knot_count) && span + 1 < knot_count
}

/// The knots form a knot vector and the parameter is a real number of the
/// span, both ends included.
pub open spec fn parameter_in_span(knots: Seq<Binary64>, span: int, u: Binary64) -> bool {
    &&& valid_knots(knots)
    &&& u.finite()
    &&& knots[span].value() <= u.value() <= knots[span + 1].value()
}

/// Checks the arguments of an evaluation of the `p + 1` basis functions of
/// degree `p` that do not vanish on `span`, at the parameter `u`.
///
/// The evaluation is refused with `Index` where the span is below the degree
/// or a knot that it reads does not exist, and else with `Domain` where the
/// knots are no knot vector or `u` is not a real number of the span.
pub fn check_basis_arguments(span: usize, u: Binary64, p: usize, knots: &Vec<Binary64>) -> (r: Result<
    (),
    EvalError,
>)
    ensures
        r == Err::<(), EvalError>(EvalError::Index) <==> !basis_indices_fit(
            span as int,
            p as int,
            knots@.len() as int,
        ),
        r == Err::<(), EvalError>(EvalError::Domain) <==> basis_indices_fit(
            span as int,
            p as int,
            knots@.len() as int,
        ) && !parameter_in_span(knots@, span as int, u),
        r is Ok <==> basis_indices_fit(span as int, p as int, knots@.len() as int) && parameter_in_span(
            knots@,
            span as int,
            u,
        ),
{
    let count = knots.len();
    if p > span || span >= count || p >= count - span || 1 >= count - span {
        return Err(EvalError::Index);
    }
    if !knots_are_valid(knots) || !u.is_finite() {
        return Err(EvalError::Domain);
    }
    if !knots[span].le(&u) || !u.le(&knots[span + 1]) {
        return Err(EvalError::Domain);
    }
    Ok(())
}

/// Checks the arguments of an evaluation of the basis functions of degree `p`
/// on `span` and of their derivatives up to the order `n`, at the parameter
/// `u`.
///
/// The evaluation is refused with `Index` where `n` exceeds the degree, the
/// span is below the degree or a knot that it reads does not exist, and else
/// with `Domain` where the knots are no knot vector or `u` is not a real
/// number of the span.
pub fn check_derivative_arguments(
    span: usize,
    u: Binary64,
    p: usize,
    n: usize,
    knots: &Vec<Binary64>,
) -> (r: Result<(), EvalError>)
    ensures
        r == Err::<(), EvalError>(EvalError::Index) <==> !(n <= p && basis_indices_fit(
            span as int,
            p as int,
            knots@.len() as int,
        )),
        r == Err::<(), EvalError>(EvalError::Domain) <==> n <= p && basis_indices_fit(
            span as int,
            p as int,
            knots@.len() as int,
        ) && !parameter_in_span(knots@, span as int, u),
        r is Ok <==> n <= p && basis_indices_fit(span as int, p as int, knots@.len() as int)
            && parameter_in_span(knots@, span as int, u),
{
    if n > p {
        return Err(EvalError::Index);
    }
    check_basis_arguments(span, u, p, knots)
}

/// The span that the search finds can be evaluated: where the knot vector
/// has the `n + p + 2` knots that `n + 1` control points of degree `p` need,
/// the span of a parameter of the domain passes the checks of the evaluators
/// for the same knots and the same parameter.
pub proof fn lemma_found_span_passes_the_checks(knots: Seq<Binary64>, n: int, p: int, u: Binary64, i: int)
    requires
        0 <= p,
        knots.len() == n + p + 2,
        span_domain_holds(knots, n, p, u),
        is_span(knots, n, p, u, i),
    ensures
        basis_indices_fit(i, p, knots.len() as int),
        parameter_in_span(knots, i, u),
{
    if u.value() == knots[n + 1].value() {
        assert(knots[n].value() <= knots[n + 1].value());
    }
}

} // verus!
