use nurbs_kernel::algorithms::{de_casteljeau_lines, de_casteljeau_surface, horner_rows, horner_surface};
use nurbs_kernel::error::EvalError;
use nurbs_kernel::geometry::Vector;
use nurbs_kernel::utils::Matrix;

struct Grid {
    rows: Vec<Vec<Vector<f64>>>,
}

impl Matrix<Vector<f64>> for Grid {
    fn row(&self, index: usize) -> Vec<Vector<f64>> {
        match self.rows.get(index) {
            Some(row) => row.clone(),
            None => Vec::new(),
        }
    }

    fn column(&self, index: usize) -> Vec<Vector<f64>> {
        self.rows.iter().filter_map(|row| row.get(index).copied()).collect()
    }
}

fn plane() -> Vec<Vec<Vector<f64>>> {
    let v0 = Vector::zero();
    let v1 = Vector::new(1.0, 0.0, 0.0);
    let v2 = Vector::new(2.0, 0.0, 0.0);
    let v3 = Vector::new(0.0, 1.0, 0.0);
    let v4 = Vector::new(0.0, 2.0, 0.0);
    vec![vec![v0, v1, v2], vec![v0, v3, v4]]
}

fn square() -> Vec<Vec<Vector<f64>>> {
    vec![
        vec![Vector::new(0.0, 0.0, 0.0), Vector::new(0.0, 4.0, 0.0), Vector::new(0.0, 8.0, 8.0)],
        vec![Vector::new(4.0, 0.0, 0.0), Vector::new(4.0, 4.0, 8.0), Vector::new(4.0, 8.0, 0.0)],
        vec![Vector::new(8.0, 0.0, 8.0), Vector::new(8.0, 4.0, 0.0), Vector::new(8.0, 8.0, 0.0)],
    ]
}

#[test]
fn horner_surface_reduces_rows_then_their_points() {
    let grid: Box<dyn Matrix<Vector<f64>>> = Box::new(Grid { rows: plane() });
    assert_eq!(horner_surface(grid, 1, 1, 0.0, 0.0), Ok(Vector::zero()));
    let grid: Box<dyn Matrix<Vector<f64>>> = Box::new(Grid { rows: plane() });
    assert_eq!(horner_surface(grid, 1, 1, 1.0, 1.0), Ok(Vector::new(1.0, 1.0, 0.0)));
    let grid: Box<dyn Matrix<Vector<f64>>> = Box::new(Grid { rows: plane() });
    assert_eq!(horner_surface(grid, 1, 2, 0.5, 2.0), Ok(Vector::new(10.0, 5.0, 0.0)));
    assert_eq!(horner_surface(Box::new(Grid { rows: plane() }), 0, 2, 0.5, 2.0), Ok(Vector::new(10.0, 0.0, 0.0)));
}

#[test]
fn horner_rows_says_what_the_surface_returns() {
    assert_eq!(horner_rows(&plane(), 1, 2, 0.5, 2.0), Ok(Vector::new(10.0, 5.0, 0.0)));
    assert_eq!(horner_rows(&plane(), 1, 1, 1.0, 1.0), Ok(Vector::new(1.0, 1.0, 0.0)));
    assert_eq!(horner_rows(&plane(), 1, 0, 1.0, 1.0), Ok(Vector::zero()));
}

#[test]
fn horner_surface_refuses_rows_that_are_too_short() {
    assert_eq!(horner_surface(Box::new(Grid { rows: plane() }), 1, 3, 0.5, 0.5), Err(EvalError::Index));
    assert_eq!(horner_surface(Box::new(Grid { rows: plane() }), 2, 1, 0.5, 0.5), Err(EvalError::Index));
    assert_eq!(horner_surface(Box::new(Grid { rows: plane() }), usize::MAX, 1, 0.5, 0.5), Err(EvalError::Index));
    assert_eq!(horner_rows(&plane(), 2, 1, 0.5, 0.5), Err(EvalError::Index));
    assert_eq!(horner_rows(&plane(), 1, 3, 0.5, 0.5), Err(EvalError::Index));
    let none: Vec<Vec<Vector<f64>>> = Vec::new();
    assert_eq!(horner_rows(&none, 0, 0, 0.5, 0.5), Err(EvalError::Index));
}

#[test]
fn de_casteljeau_surface_takes_rows_where_n_is_not_larger() {
    // the rows 0..=2 as curves of degree n over u, then their points as a curve of degree 2 over v
    assert_eq!(
        de_casteljeau_surface(Box::new(Grid { rows: square() }), 2, 2, 0.5, 0.5),
        Ok(Vector::new(4.0, 4.0, 3.0))
    );
    assert_eq!(
        de_casteljeau_surface(Box::new(Grid { rows: square() }), 2, 2, 0.0, 0.0),
        Ok(Vector::new(0.0, 0.0, 0.0))
    );
    assert_eq!(
        de_casteljeau_surface(Box::new(Grid { rows: square() }), 2, 2, 1.0, 1.0),
        Ok(Vector::new(8.0, 8.0, 0.0))
    );
    assert_eq!(
        de_casteljeau_surface(Box::new(Grid { rows: square() }), 1, 2, 0.5, 0.25),
        Ok(Vector::new(2.0, 2.0, 1.75))
    );
}

#[test]
fn de_casteljeau_surface_takes_columns_where_n_is_larger() {
    // the columns 0..=n as curves of degree m over v, then their points as a curve of degree n over u
    assert_eq!(
        de_casteljeau_surface(Box::new(Grid { rows: square() }), 2, 1, 0.25, 0.5),
        Ok(Vector::new(2.0, 2.0, 1.75))
    );
    assert_eq!(
        de_casteljeau_surface(Box::new(Grid { rows: square() }), 1, 0, 0.5, 0.5),
        Ok(Vector::new(0.0, 2.0, 0.0))
    );
}

#[test]
fn de_casteljeau_lines_says_what_the_surface_returns() {
    assert_eq!(de_casteljeau_lines(&square(), 2, 2, 0.5, 0.5), Ok(Vector::new(4.0, 4.0, 3.0)));
    assert_eq!(de_casteljeau_lines(&square(), 0, 2, 0.5, 0.5), Ok(Vector::new(0.0, 4.0, 2.0)));
    assert_eq!(de_casteljeau_lines(&square(), 1, 1, 0.5, 0.5), Ok(Vector::new(2.0, 2.0, 2.0)));
    assert_eq!(de_casteljeau_lines(&square(), 2, 0, 0.5, 0.25), Ok(Vector::new(2.0, 0.0, 0.5)));
}

#[test]
fn de_casteljeau_surface_refuses_lines_that_are_too_short() {
    assert_eq!(de_casteljeau_surface(Box::new(Grid { rows: square() }), 2, 3, 0.5, 0.5), Err(EvalError::Index));
    assert_eq!(de_casteljeau_surface(Box::new(Grid { rows: square() }), 3, 3, 0.5, 0.5), Err(EvalError::Index));
    assert_eq!(de_casteljeau_surface(Box::new(Grid { rows: square() }), 4, 3, 0.5, 0.5), Err(EvalError::Index));
    assert_eq!(de_casteljeau_surface(Box::new(Grid { rows: square() }), 3, 2, 0.5, 0.5), Err(EvalError::Index));
    assert_eq!(
        de_casteljeau_surface(Box::new(Grid { rows: square() }), usize::MAX, 0, 0.5, 0.5),
        Err(EvalError::Index)
    );
    assert_eq!(
        de_casteljeau_surface(Box::new(Grid { rows: square() }), 0, usize::MAX, 0.5, 0.5),
        Err(EvalError::Index)
    );
    assert_eq!(de_casteljeau_lines(&square(), 3, 2, 0.5, 0.5), Err(EvalError::Index));
    assert_eq!(de_casteljeau_lines(&square(), 2, 3, 0.5, 0.5), Err(EvalError::Index));
    let none: Vec<Vec<Vector<f64>>> = Vec::new();
    assert_eq!(de_casteljeau_lines(&none, 0, 0, 0.5, 0.5), Err(EvalError::Index));
}
