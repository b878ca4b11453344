//! Range-constrained top-K retrieval: a query builder and parser, the
//! matcher that fuses a predicate's matches with a numeric bound, and the
//! bounded collector that merges per-partition results.

pub mod predicate;
pub mod schema;
pub mod json;
pub mod query_builder;
pub mod query_builder2;
pub mod query_parser;
pub mod term;
pub mod bitset;
pub mod docset;
pub mod query;
pub mod scored;
pub mod bounded_heap;
pub mod collector;
pub mod search;
pub mod materialize;
pub mod postings;
