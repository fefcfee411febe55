//! A deterministic interpreter core for a typed expression language: the
//! type system, the builtin-method registry, runtime values and narrowing,
//! cost-metered evaluation, a canonical binary codec for types and values,
//! and the token records exposed at the library's boundary.
pub mod types;
pub mod registry;
pub mod value;
pub mod eval;
pub mod token;
pub mod tvalue;
pub mod block_id;
pub mod codec;
pub mod value_codec;
