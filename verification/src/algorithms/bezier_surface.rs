//! Points of a surface that is given by a grid of control points.

use vstd::prelude::*;
use crate::algorithms::bezier_curve::{horner, nested, de_casteljeau, interpolated};
use crate::error::EvalError;
use crate::geometry::vector::Vector;
use crate::scalar::{Scalar, total, faithful};
use crate::utils::matrix::Matrix;

verus! {

/// The first `count` lines have more than `least` points each.
pub open spec fn lines_reach<T>(lines: Seq<Vec<Vector<T>>>, count: int, least: int) -> bool {
    &&& count <= lines.len()
    &&& forall|i: int| 0 <= i < count ==> (#[trigger] lines[i])@.len() > least
}

/// The points at `v` of the curves in the power basis of degree `m` whose
/// coefficients are the first `count` lines.
pub open spec fn nested_lines<T: Scalar>(lines: Seq<Vec<Vector<T>>>, count: int, m: int, v: T) -> Seq<Vector<T>> {
    Seq::new(count as nat, |i: int| nested(lines[i]@, m, v, 0))
}

/// Computes the point at `(u, v)` of a surface in the power basis from the
/// rows of its coefficients: each of the rows `0..=n` is a curve of degree
/// `m` in `v`, and the points of these curves at `v` are the coefficients of
/// a curve of degree `n` in `u`.
///
/// The call is refused with `Index` where `rows` has no row `n` or one of the
/// rows `0..=n` has no coefficient `m`.
pub fn horner_rows<T: Scalar>(rows: &Vec<Vec<Vector<T>>>, n: usize, m: usize, u: T, v: T) -> (r: Result<
    Vector<T>,
    EvalError,
>)
    requires
        total::<T>(),
    ensures
        r is Ok <==> n < rows@.len() && lines_reach(rows@, n + 1, m as int),
        r is Err ==> r == Err::<Vector<T>, EvalError>(EvalError::Index),
        r matches Ok(point) ==> (faithful::<T>() ==> point == nested(
            nested_lines(rows@, n + 1, m as int, v),
            n as int,
            u,
            0,
        )),
{
    if n >= rows.len() {
        return Err(EvalError::Index);
    }
    let mut b: Vec<Vector<T>> = Vec::new();
    let mut i: usize = 0;
    while i <= n
        invariant
            total::<T>(),
            0 <= i <= n + 1,
            n < rows@.len() <= usize::MAX,
            b@.len() == i,
            lines_reach(rows@, i as int, m as int),
            faithful::<T>() ==> forall|t: int| 0 <= t < i ==> #[trigger] b@[t] == nested(rows@[t]@, m as int, v, 0),
        decreases n + 1 - i,
    {
        match horner(&rows[i], m, v) {
            Ok(point) => {
                b.push(point);
            },
            Err(e) => {
                return Err(e);
            },
        }
        i += 1;
    }
    proof {
        if faithful::<T>() {
            assert(b@ =~= nested_lines(rows@, n + 1, m as int, v));
        }
    }
    horner(&b, n, u)
}

/// The lines are rows that the grid has handed out: the line `i` is a result
/// of asking it for the row `i`.
pub open spec fn are_rows_of<T, M: Matrix<Vector<T>> + ?Sized>(
    lines: Seq<Vec<Vector<T>>>,
    points: &M,
    count: int,
) -> bool {
    &&& lines.len() == count
    &&& forall|i: int|
        0 <= i < count ==> call_ensures(
            M::row,
            (points, i as usize),
            #[trigger] lines[i],
        )
}

/// Computes the point at `(u, v)` of a surface in the power basis of the
/// degrees `n` in `u` and `m` in `v`.
///
/// The rows `0..=n` are asked of `points` and handed to [`horner_rows`],
/// which says what the result is for the rows that came back. The call is
/// refused with `Index` where a row lacks a coefficient, and where `n` is too
/// large for the rows to be counted.
pub fn horner_surface<T: Scalar, M: Matrix<Vector<T>> + ?Sized>(
    points: Box<M>,
    n: usize,
    m: usize,
    u: T,
    v: T,
) -> (r: Result<Vector<T>, EvalError>)
    requires
        total::<T>(),
    ensures
        r is Err ==> r == Err::<Vector<T>, EvalError>(EvalError::Index),
        n == usize::MAX ==> r is Err,
        n < usize::MAX ==> exists|rows: Seq<Vec<Vector<T>>>|
            {
                &&& #[trigger] are_rows_of(rows, &*points, n + 1)
                &&& r is Ok <==> lines_reach(rows, n + 1, m as int)
                &&& r matches Ok(point) ==> (faithful::<T>() ==> point == nested(
                    nested_lines(rows, n + 1, m as int, v),
                    n as int,
                    u,
                    0,
                ))
            },
{
    if n == usize::MAX {
        return Err(EvalError::Index);
    }
    let mut rows: Vec<Vec<Vector<T>>> = Vec::new();
    let mut i: usize = 0;
    while i <= n
        invariant
            0 <= i <= n + 1,
            n < usize::MAX,
            are_rows_of(rows@, &*points, i as int),
        decreases n + 1 - i,
    {
        let ghost before = rows@;
        rows.push(points.row(i));
        proof {
            assert forall|t: int| 0 <= t < i + 1 implies call_ensures(
                M::row,
                (&*points, t as usize),
                #[trigger] rows@[t],
            ) by {
                if t < i {
                    assert(rows@[t] == before[t]);
                }
            }
        }
        i += 1;
    }
    horner_rows(&rows, n, m, u, v)
}

/// The lines are columns that the grid has handed out: the line `i` is a
/// result of asking it for the column `i`.
pub open spec fn are_columns_of<T, M: Matrix<Vector<T>> + ?Sized>(
    lines: Seq<Vec<Vector<T>>>,
    points: &M,
    count: int,
) -> bool {
    &&& lines.len() == count
    &&& forall|i: int| 0 <= i < count ==> call_ensures(M::column, (points, i as usize), #[trigger] lines[i])
}

/// The points at `a` of the Bezier curves of degree `inner` whose control
/// points are the first `count` lines.
pub open spec fn interpolated_lines<T: Scalar>(
    lines: Seq<Vec<Vector<T>>>,
    count: int,
    inner: int,
    a: T,
) -> Seq<Vector<T>> {
    Seq::new(count as nat, |i: int| interpolated(lines[i]@, a, 0, inner as nat))
}

/// Computes a point of a Bezier surface from lines of its control points,
/// rows or columns, by repeated linear interpolation: each of the lines
/// `0..=last` is reduced to its point at `a`, as a curve of degree `inner`,
/// and the points of the lines are reduced to their point at `b`, as a curve
/// of degree `last`.
///
/// The call is refused with `Index` where `lines` has no line `last` or one
/// of the lines `0..=last` has no control point `inner`.
pub fn de_casteljeau_lines<T: Scalar>(lines: &Vec<Vec<Vector<T>>>, last: usize, inner: usize, a: T, b: T) -> (r:
    Result<Vector<T>, EvalError>)
    requires
        total::<T>(),
    ensures
        r is Ok <==> last < lines@.len() && lines_reach(lines@, last + 1, inner as int),
        r is Err ==> r == Err::<Vector<T>, EvalError>(EvalError::Index),
        r matches Ok(point) ==> (faithful::<T>() ==> point == interpolated(
            interpolated_lines(lines@, last + 1, inner as int, a),
            b,
            0,
            last as nat,
        )),
{
    if last >= lines.len() {
        return Err(EvalError::Index);
    }
    let mut q: Vec<Vector<T>> = Vec::new();
    let mut i: usize = 0;
    while i <= last
        invariant
            total::<T>(),
            0 <= i <= last + 1,
            last < lines@.len() <= usize::MAX,
            q@.len() == i,
            lines_reach(lines@, i as int, inner as int),
            faithful::<T>() ==> forall|t: int|
                0 <= t < i ==> #[trigger] q@[t] == interpolated(lines@[t]@, a, 0, inner as nat),
        decreases last + 1 - i,
    {
        match de_casteljeau(&lines[i], inner, a) {
            Ok(point) => {
                q.push(point);
            },
            Err(e) => {
                return Err(e);
            },
        }
        i += 1;
    }
    proof {
        if faithful::<T>() {
            assert(q@ =~= interpolated_lines(lines@, last + 1, inner as int, a));
        }
    }
    de_casteljeau(&q, last, b)
}

/// The lines that a reduction of a Bezier surface starts from: the rows
/// `0..=m` where `n <= m`, and else the columns `0..=n`.
pub open spec fn are_lines_of<T, M: Matrix<Vector<T>> + ?Sized>(
    lines: Seq<Vec<Vector<T>>>,
    points: &M,
    n: int,
    m: int,
) -> bool {
    if n <= m {
        are_rows_of(lines, points, m + 1)
    } else {
        are_columns_of(lines, points, n + 1)
    }
}

/// Computes the point at `(u, v)` of a Bezier surface of the degrees `n` in
/// `u` and `m` in `v` by repeated linear interpolation, first along the
/// direction of the smaller degree, then across. Where `n <= m`, each of the
/// rows `0..=m` is reduced over `u` as a curve of degree `n`, and the results
/// over `v` as a curve of degree `m`; else each of the columns `0..=n` is
/// reduced over `v` as a curve of degree `m`, and the results over `u` as a
/// curve of degree `n`.
///
/// The lines are asked of `points` and handed to [`de_casteljeau_lines`],
/// which says what the result is for the lines that came back. The call is
/// refused with `Index` where a line lacks a control point, and where the
/// larger one of `n` and `m` is too large for the lines to be counted.
pub fn de_casteljeau_surface<T: Scalar, M: Matrix<Vector<T>> + ?Sized>(
    points: Box<M>,
    n: usize,
    m: usize,
    u: T,
    v: T,
) -> (r: Result<Vector<T>, EvalError>)
    requires
        total::<T>(),
    ensures
        r is Err ==> r == Err::<Vector<T>, EvalError>(EvalError::Index),
        n == usize::MAX || m == usize::MAX ==> r is Err,
        n < usize::MAX && m < usize::MAX ==> exists|lines: Seq<Vec<Vector<T>>>|
            {
                &&& #[trigger] are_lines_of(lines, &*points, n as int, m as int)
                &&& n <= m ==> {
                    &&& r is Ok <==> lines_reach(lines, m + 1, n as int)
                    &&& r matches Ok(point) ==> (faithful::<T>() ==> point == interpolated(
                        interpolated_lines(lines, m + 1, n as int, u),
                        v,
                        0,
                        m as nat,
                    ))
                }
                &&& n > m ==> {
                    &&& r is Ok <==> lines_reach(lines, n + 1, m as int)
                    &&& r matches Ok(point) ==> (faithful::<T>() ==> point == interpolated(
                        interpolated_lines(lines, n + 1, m as int, v),
                        u,
                        0,
                        n as nat,
                    ))
                }
            },
{
    if n == usize::MAX || m == usize::MAX {
        return Err(EvalError::Index);
    }
    let mut q: Vec<Vec<Vector<T>>> = Vec::new();
    if n <= m {
        let mut j: usize = 0;
        while j <= m
            invariant
                0 <= j <= m + 1,
                m < usize::MAX,
                are_rows_of(q@, &*points, j as int),
            decreases m + 1 - j,
        {
            let ghost before = q@;
            q.push(points.row(j));
            proof {
                assert forall|t: int| 0 <= t < j + 1 implies call_ensures(
                    M::row,
                    (&*points, t as usize),
                    #[trigger] q@[t],
                ) by {
                    if t < j {
                        assert(q@[t] == before[t]);
                    }
                }
            }
            j += 1;
        }
        let r = de_casteljeau_lines(&q, m, n, u, v);
        proof {
            assert(are_lines_of(q@, &*points, n as int, m as int));
        }
        r
    } else {
        let mut i: usize = 0;
        while i <= n
            invariant
                0 <= i <= n + 1,
                n < usize::MAX,
                are_columns_of(q@, &*points, i as int),
            decreases n + 1 - i,
        {
            let ghost before = q@;
            q.push(points.column(i));
            proof {
                assert forall|t: int| 0 <= t < i + 1 implies call_ensures(
                    M::column,
                    (&*points, t as usize),
                    #[trigger] q@[t],
                ) by {
                    if t < i {
                        assert(q@[t] == before[t]);
                    }
                }
            }
            i += 1;
        }
        let r = de_casteljeau_lines(&q, n, m, v, u);
        proof {
            assert(are_lines_of(q@, &*points, n as int, m as int));
        }
        r
    }
}

} // verus!
