//! Statement-aware search over SQL sources.
//!
//! A query pairs a set of statement kinds with a list of table names. A file
//! matches a query when it holds one statement whose kind is in the set and
//! whose referenced table is in the list; several queries combine with AND.

pub mod output;
pub mod paths;
pub mod query;
pub mod search;
pub mod split;
pub mod statement;
pub mod statement_type;
pub mod table;
pub mod text;
