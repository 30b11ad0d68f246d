//! Device plumbing: callbacks, routing, the preview monitor and diagnostics.

pub mod aec;
pub mod callback;
pub mod error;
pub mod lifecycle;
pub mod monitor;
pub mod observe;
pub mod routing;
pub mod runtime;
pub mod units;
pub mod worker;
