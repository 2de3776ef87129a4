//! A code graph: symbols and the relationships between them, extracted from
//! C++ and Java sources through their syntax trees, and a query engine over it.
//!
//! Symbols carry no scope: resolving names across scopes and imports is not
//! part of this library, and relationships to a name stay unresolved.

pub mod text;
pub mod symbol;
pub mod syntax;
pub mod parser;
pub mod relationship;
pub mod grammer;
pub mod builder;
pub mod graph;
pub mod query;
