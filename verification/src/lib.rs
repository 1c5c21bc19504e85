//! Integer-only forward-pass kernels for ternary-weight ("1.58-bit") neural
//! network layers: a multiplication-free ternary matmul and a fixed-point
//! RMS normalization built on a verified integer square root.

pub mod arith;
pub mod bitlinear_int8;
pub mod isqrt;
pub mod rmsnorm;
