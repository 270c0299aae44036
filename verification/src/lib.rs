//! A small linear-algebra library: dense row-major matrices with Gaussian
//! elimination, together with 2D points and vectors over a scalar trait.
pub mod matrix;
pub mod matrix_view;
pub mod point2;
pub mod row;
pub mod scalar;
pub mod solve;
pub mod text;
pub mod vector2;
pub mod window;

pub use matrix::Matrix;
pub use matrix::MatrixError;
pub use matrix_view::MatrixView;
pub use point2::Point2;
pub use scalar::Scalar;
pub use vector2::Vector2;
