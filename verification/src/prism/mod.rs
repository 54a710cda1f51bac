//! The parts of a PRISM model that the repair logic reads and rewrites.
pub mod expression;
pub mod model;
pub mod copies;
pub mod results;
pub mod output;
