//! Knot span location, basis functions and point evaluation.

pub mod arguments;
pub mod basis_function;
pub mod bernstein;
pub mod bernstein_form;
pub mod bezier_curve;
pub mod bezier_surface;
pub mod derivative_window;
pub mod derivatives;
pub mod knot_span;
pub mod one_basis_function;

pub use self::arguments::{check_basis_arguments, check_derivative_arguments};
pub use self::basis_function::calculate_basis_functions;
pub use self::bernstein::{all_bernstein, compute_bernstein};
pub use self::bezier_curve::{de_casteljeau, horner};
pub use self::bezier_surface::{de_casteljeau_lines, de_casteljeau_surface, horner_rows, horner_surface};
pub use self::derivative_window::{derivative_window, DerivativeWindow};
pub use self::derivatives::calculate_basis_functions_and_derivatives;
pub use self::knot_span::{find_span, knots_are_valid};
pub use self::one_basis_function::{calculate_one_basis_function, start_one_basis_function, BasisStart};
