//! Turning `repair(...)` calls of a model into repair variables.
pub mod error;
pub mod parameters;
pub mod repair_expression;
pub mod types;
pub mod wiring;
pub mod variables;
