//! The repair workflow: task graphs, repair graphs, and the tasks that run in them.
pub mod task_graph;
pub mod repair_graph;
pub mod tool_runner;
pub mod parameters;
pub mod tasks;
pub mod checking;
pub mod synthesis;
