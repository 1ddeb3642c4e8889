//! shipflow: local-first intention tracking for developers who ship.
//!
//! The library holds the verified core of the tool: task records and how they
//! are found, filtered and completed; where tasks are stored; what the git
//! output means; how reports are computed and rendered.

pub mod cli;
pub mod commands;
pub mod error;
pub mod git;
pub mod laws;
pub mod order;
pub mod report;
pub mod storage;
pub mod table;
pub mod task;
pub mod text;
pub mod time;
pub mod utils;
