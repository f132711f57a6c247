//! Points, weighted control points and Bezier curves.

pub mod bezier;
pub mod control_point;
pub mod vector;

pub use self::bezier::Bezier;
pub use self::control_point::ControlPoint;
pub use self::vector::Vector;
