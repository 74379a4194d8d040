//! Sparse matrix arithmetic into pre-allocated patterns, matrix norms and small dense helpers,
//! each function with a contract proved by Verus.
pub mod cs;
pub mod csc;
pub mod csr;
pub mod dense;
pub mod glm;
pub mod mat1;
pub mod ops;
pub mod pade;
pub mod pattern;
pub mod transform;
pub mod transform2d;
