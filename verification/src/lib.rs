//! A rewrite rule for logical query plans, with the plan model and the
//! traversal it is built on.

pub mod plan;
pub mod traversal;
pub mod rule;
pub mod laws;
