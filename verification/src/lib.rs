//! Verified core of a set of Python extension modules: next-prime searches,
//! the `add_functions!` registration grammar, code generation for derived
//! conversions, and the row cursor used to decode query results.
pub mod bignum;
pub mod double_sqrt;
pub mod primes;
pub mod registry;
pub mod text;
pub mod codegen;
pub mod flights;
pub mod items;
pub mod adapter;
