//! Block-level signal plumbing: queues, stages, windows, resampling plans.

pub mod block;
pub mod capture;
pub mod error;
pub mod framed;
pub mod frames;
pub mod level;
pub mod mix;
pub mod resample;
pub mod ring;
pub mod runner;
pub mod single;
pub mod slot;
pub mod stage;
pub mod stft;
pub mod switch;
pub mod window;
