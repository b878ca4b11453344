//! Queries that are evaluated partition by partition.

pub mod cat_query;
pub mod marking;
