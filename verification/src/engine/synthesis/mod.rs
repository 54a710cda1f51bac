//! Synthesis of a controller module: the interface of the module to write, the game that
//! `prism-games` solves, the files it writes back, and the module built from its strategy.
pub mod interface;
pub mod domains;
pub mod game;
pub mod files;
pub mod controller;
