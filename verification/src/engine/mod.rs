//! The live engine: bridge, worker, switch ramp and offline rendering.

pub mod bridge;
pub mod engine;
pub mod error;
pub mod mailbox;
pub mod offline;
pub mod rate;
pub mod stage;
pub mod status;
pub mod stream;
pub mod switch;
