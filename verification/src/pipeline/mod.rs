//! The step-by-step repair pipeline: its task graph and the tasks that set up model checking
//! and synthesis.
pub mod preprocessing;
pub mod problem;
pub mod task_graph;
pub mod tasks;
