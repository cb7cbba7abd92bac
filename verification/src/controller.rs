//! The grid controller: runs user actions as transactions, keeps the undo
//! and redo stacks, and reconciles the grid with the server's sequence.

pub mod model;
pub mod local_laws;
pub mod engine;
pub mod replica_laws;
pub mod user_actions;
