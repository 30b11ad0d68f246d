//! The audio engine of noican: sample queues, model stages, click-free
//! switching, rate bridging and device plumbing.
//!
//! A sample is a `u32`: the bit pattern of an IEEE 754 single-precision
//! number. The library moves, counts, orders and compares samples; it never
//! does floating-point arithmetic on them. Where a gain has to be applied, the
//! library hands out the exact fraction and its caller multiplies. Durations in
//! milliseconds are computed on integers and rounded as single-precision numbers
//! are; see [`signal::single`].

pub mod device;
pub mod engine;
pub mod rings;
pub mod signal;
pub mod text;
pub mod tools;
