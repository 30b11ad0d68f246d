//! The logic behind the command-line tools: running clips through stages,
//! comparing models, and writing down what was found.

pub mod audio;
pub mod batch;
pub mod commands;
pub mod eval;
pub mod manifest;
pub mod offline;
pub mod process;
pub mod report;
