//! A generic dense two-dimensional container with element-wise arithmetic,
//! transposition, and matrix inversion by Gauss-Jordan elimination.
//!
//! Every cell of a matrix lives in a flat row-major buffer; the element at
//! logical position `(r, c)` sits at flat offset `c + r * cols`. Matrices are
//! never empty and never resized. Checked accessors (`get`, `set`, ...) signal
//! out-of-range indices with an absent value; shape errors of the arithmetic
//! operations are contract violations of the caller, excluded by `requires`.

pub mod arith;
pub mod inverse;
pub mod matrix;
pub mod num;
pub mod rational;

pub use crate::matrix::Matrix;
pub use crate::matrix::MatrixV;
pub use crate::num::Arith;
pub use crate::num::Divisible;
pub use crate::num::Numeric;
pub use crate::num::One;
pub use crate::num::Zero;
pub use crate::rational::Rational;
