//! Semantic validation of function bodies whose nodes already carry
//! inference results: field completeness of record literals and patterns,
//! call arity, match exhaustiveness, and a missing-success-wrap check on
//! the tail expression. Every checker is a pure function from the body,
//! the inference result and the type metadata to a stream of diagnostics.

pub mod diagnostics;
pub mod fields;
pub mod model;
pub mod usefulness;
pub mod validator;
