//! A local task tracker: task records with validation and a small status
//! state machine, and an in-memory store that answers filtered, sorted and
//! searched views of its tasks.

pub mod cli;
pub mod error;
pub mod manager;
pub mod task;
pub mod text;
pub mod time;
