//! Translation of document-style filter stages into SQL boolean predicates.
//!
//! A stage is a mapping from field names to values or operator mappings, with
//! `$and`, `$or` and `$nor` grouping sub-stages; `match_stage` renders it as the
//! text of a `WHERE` predicate.
pub mod document;
pub mod laws;
pub mod render;
pub mod stage;

pub use document::{JsonModel, Number, Value};
pub use stage::{match_stage, Operator, ToSqlError};
