//! Deciding when the agent runs for a group and what becomes of its output.

pub mod agent;
pub mod laws;
pub mod persist;
pub mod poll;
pub mod run;
pub mod snapshots;
pub mod state;
