//! Arithmetic in the prime field of order 101.
//!
//! [`PlutoField`] is an element of the field. [`field`] holds the type, what
//! makes an element, the zero test, inversion and halving; [`ops`] the
//! operators; [`exponentiation`] powers by squaring, for any type that
//! multiplies; [`aggregate`] sums and products of many elements. [`laws`]
//! proves that the arithmetic is that of a field, on the number theory of
//! [`modular`]. [`trusted`] lists what is taken from other crates without
//! proof.

pub mod aggregate;
pub mod exponentiation;
pub mod field;
pub mod laws;
pub mod modular;
pub mod ops;
pub mod trusted;

pub use field::PlutoField;
