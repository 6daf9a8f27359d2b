//! Disbelief: small interpreters for experimenting with coroutines.
//!
//! `tree` is a continuation-passing tree walker, `closure` a closure
//! compiler over the same language, and `effects` adds applications of
//! built-ins, quotation, effect handlers and raised effects.
pub mod tree;
pub mod closure;
pub mod syntax;
pub mod effects;
pub mod text;

pub use effects::{compile, Compiled, Effect, Value};
