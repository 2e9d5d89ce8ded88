//! Bridge core between a caller's dynamic tagged values and a typed runtime
//! value tree, together with a runtime schema registry and the parser that
//! populates it from tagged declaration sets.

pub mod codec;
pub mod error;
pub mod registry;
pub mod type_builder;
pub mod type_expr;
pub mod value;
