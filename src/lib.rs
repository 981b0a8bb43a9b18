//! Compilation core of a small embeddable scripting language: canonical item
//! naming, the index of declarations, the lazy metadata query engine, the
//! budgeted constant interpreter and the closure code emitter, together with
//! the `bytes` runtime package.
pub mod ast;
pub mod bytes;
pub mod compile;
pub mod error;
pub mod ir;
pub mod item;
pub mod meta;
pub mod module;
pub mod query;
pub mod scopes;
pub mod table;
