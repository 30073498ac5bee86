//! Verified core of a coding-agent tool server: the patch engines, the
//! structured file editors, bash event bookkeeping, the file tools' reports
//! and searches, the task tracker, runtime routing and the agent loop's
//! decision logic. Processes, files, clocks and the network are the
//! caller's.

pub mod text;
pub mod files;
pub mod patch;
pub mod render;
pub mod editor;
pub mod bash;
pub mod agent;
pub mod tasks;
pub mod line_editor;
pub mod unified;
pub mod file_ops;
pub mod runtime;
pub mod api;
pub mod search;
