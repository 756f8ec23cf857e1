//! BuildingBlocks canvas records: the typed model, the parser and the
//! widget tree resolver.
pub mod types;
pub mod parser;
pub mod resolver;
