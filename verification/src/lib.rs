//! Verified core of a repair tool for probabilistic PRISM models.
pub mod applied_repairs;
pub mod context;
pub mod engine;
pub mod gui;
pub mod html;
pub mod model_manipulation;
pub mod pipeline;
pub mod prism;
pub mod repairs;
pub mod text;
