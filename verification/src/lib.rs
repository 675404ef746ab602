//! Turning correlated subqueries of a SQL plan into joins.

pub mod column_map;
pub mod column_set;
pub mod decorrelate;
pub mod decorrelate_laws;
pub mod definedness;
pub mod error;
pub mod flatten;
pub mod flatten_laws;
pub mod join_laws;
pub mod join_predicate;
pub mod laws;
pub mod meaning;
pub mod metadata;
pub mod model;
pub mod names;
pub mod operator_laws;
pub mod outcome_laws;
pub mod plan;
pub mod property;
pub mod property_laws;
pub mod rewriter;
pub mod s_expr;
pub mod scalar;
pub mod scalar_laws;
pub mod types;
pub mod view_laws;
